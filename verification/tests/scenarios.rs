//! End-to-end scenarios: small source trees, an architecture, and the
//! expected verdicts.

use arch_test_core::architecture::Architecture;
use arch_test_core::builder::TreeBuilder;
use arch_test_core::cycle::{contains_cyclic_dependency, contains_cyclic_dependency_on_any_level};
use arch_test_core::objects::{ObjectType, TextRange};
use arch_test_core::rules::{
    AccessRule, MayNotAccess, MayOnlyAccess, RuleViolationType,
};
use arch_test_core::syntax::{SynKind, SynNode};
use arch_test_core::tree::ModuleTree;

fn node(kind: SynKind, text: &str, children: Vec<SynNode>) -> SynNode {
    SynNode::new(kind, text.to_string(), TextRange { start: 0, end: 0 }, children)
}

/// `use <path>;`, public when `is_pub`.
fn use_item(path: &str, is_pub: bool) -> SynNode {
    let mut children = Vec::new();
    if is_pub {
        children.push(node(SynKind::Visibility, "pub", Vec::new()));
    }
    children.push(node(SynKind::UseTree, path, vec![node(SynKind::Path, path, Vec::new())]));
    node(SynKind::Use, path, children)
}

/// `pub struct <name>;`
fn struct_item(name: &str) -> SynNode {
    node(
        SynKind::Struct,
        name,
        vec![
            node(SynKind::Visibility, "pub", Vec::new()),
            node(SynKind::Name, name, Vec::new()),
        ],
    )
}

/// `mod <name>;` without a body.
fn mod_item(name: &str) -> SynNode {
    node(SynKind::Module, name, vec![node(SynKind::Name, name, Vec::new())])
}

/// A `PATH_TYPE` holding the qualified path `prefix::name`.
fn path_type(prefix: &str, name: &str) -> SynNode {
    let full = format!("{}::{}", prefix, name);
    node(
        SynKind::PathType,
        &full,
        vec![node(
            SynKind::Path,
            &full,
            vec![
                node(SynKind::Path, prefix, Vec::new()),
                node(
                    SynKind::PathSegment,
                    name,
                    vec![node(SynKind::NameRef, name, Vec::new())],
                ),
            ],
        )],
    )
}

/// `pub fn <name>() -> <prefix>::<ty>`
fn fn_item(name: &str, ret_prefix: &str, ret_ty: &str) -> SynNode {
    node(
        SynKind::Fn,
        name,
        vec![
            node(SynKind::Visibility, "pub", Vec::new()),
            node(SynKind::Name, name, Vec::new()),
            node(SynKind::ParamList, "()", Vec::new()),
            node(SynKind::RetType, "", vec![path_type(ret_prefix, ret_ty)]),
        ],
    )
}

fn strings(names: &[&str]) -> Vec<String> {
    names.iter().map(|n| n.to_string()).collect()
}

/// Root declares `mod a; mod b;`; `a.rs` uses `crate::b::Foo`; `b.rs` defines
/// `Foo`.
fn two_module_tree() -> ModuleTree {
    let mut builder = TreeBuilder::new();
    let root_items = vec![mod_item("a"), mod_item("b")];
    let refs = builder.add_file(&root_items, &"src/main.rs".to_string(), None, "my_crate".to_string());
    assert_eq!(refs.len(), 2);
    assert_eq!(refs[0], (0, "a".to_string()));
    assert_eq!(refs[1], (0, "b".to_string()));
    let a_items = vec![
        use_item("crate::b::Foo", false),
        struct_item("Bar"),
    ];
    builder.add_file(&a_items, &"src/a.rs".to_string(), Some(0), "a".to_string());
    let b_items = vec![struct_item("Foo")];
    builder.add_file(&b_items, &"src/b.rs".to_string(), Some(0), "b".to_string());
    builder.finish()
}

#[test]
fn forbidden_access_is_reported_with_its_witness() {
    let tree = two_module_tree();
    let architecture = Architecture::new(strings(&["a", "b"])).with_access_rule(
        AccessRule::MayNotAccess(MayNotAccess::new("a".to_string(), strings(&["b"]), false)),
    );
    assert!(architecture.validate_access_rules().is_ok());
    let verdict = architecture.check_access_rules(&tree);
    let violation = verdict.err().expect("the use of crate::b::Foo offends the rule");
    assert_eq!(violation.violation_type, RuleViolationType::ForbiddenAccess);
    assert_eq!(violation.witnesses.len(), 1);
    let (offender, relation) = &violation.witnesses[0];
    assert_eq!(*offender, 1);
    assert_eq!(relation.owner_node_index(), 2);
    assert_eq!(relation.used_object().object_path, "Foo".to_string());
    assert_eq!(relation.used_object().object_type, ObjectType::Struct);
}

#[test]
fn reversed_rule_passes() {
    let tree = two_module_tree();
    let architecture = Architecture::new(strings(&["a", "b"])).with_access_rule(
        AccessRule::MayNotAccess(MayNotAccess::new("b".to_string(), strings(&["a"]), false)),
    );
    assert!(architecture.validate_access_rules().is_ok());
    assert!(architecture.check_access_rules(&tree).is_ok());
}

#[test]
fn mutual_return_types_form_a_two_cycle() {
    let mut builder = TreeBuilder::new();
    let root_items = vec![mod_item("a"), mod_item("b")];
    builder.add_file(&root_items, &"src/main.rs".to_string(), None, "my_crate".to_string());
    let a_items = vec![fn_item("f", "b", "T"), struct_item("T")];
    builder.add_file(&a_items, &"src/a.rs".to_string(), Some(0), "a".to_string());
    let b_items = vec![fn_item("g", "a", "T"), struct_item("T")];
    builder.add_file(&b_items, &"src/b.rs".to_string(), Some(0), "b".to_string());
    let tree = builder.finish();
    let witness = contains_cyclic_dependency(&tree).expect("a and b use each other");
    assert_eq!(witness.len(), 2);
    assert_eq!(witness[0].0, 1);
    assert_eq!(witness[0].1.owner_node_index(), 2);
    assert_eq!(witness[0].1.used_object().object_path, "T".to_string());
    assert_eq!(witness[1].0, 2);
    assert_eq!(witness[1].1.owner_node_index(), 1);
    assert_eq!(witness[1].1.used_object().object_path, "T".to_string());
}

#[test]
fn undeclared_module_breaks_layer_coverage() {
    let tree = two_module_tree();
    let architecture = Architecture::new(strings(&["a"]));
    let verdict = architecture.check_complete_layer_specification(&tree);
    let violation = verdict.err().expect("module b belongs to no layer");
    assert_eq!(violation.violation_type, RuleViolationType::IncompleteLayerSpecification);
}

#[test]
fn access_outside_the_allowed_layers_is_reported() {
    let mut builder = TreeBuilder::new();
    let root_items = vec![mod_item("controller"), mod_item("infra")];
    builder.add_file(&root_items, &"src/main.rs".to_string(), None, "my_crate".to_string());
    let controller_items = vec![use_item("crate::infra::Db", false)];
    builder.add_file(
        &controller_items,
        &"src/controller.rs".to_string(),
        Some(0),
        "controller".to_string(),
    );
    let infra_items = vec![struct_item("Db")];
    builder.add_file(&infra_items, &"src/infra.rs".to_string(), Some(0), "infra".to_string());
    let tree = builder.finish();
    let architecture = Architecture::new(strings(&["controller", "service", "model", "infra"]))
        .with_access_rule(AccessRule::MayOnlyAccess(MayOnlyAccess::new(
            "controller".to_string(),
            strings(&["service", "model"]),
        )));
    assert!(architecture.validate_access_rules().is_ok());
    let violation = architecture.check_access_rules(&tree).err().expect("infra is not allowed");
    assert_eq!(violation.violation_type, RuleViolationType::NotAllowedAccess);
    assert_eq!(violation.witnesses.len(), 1);
    assert_eq!(violation.witnesses[0].0, 1);
    assert_eq!(violation.witnesses[0].1.owner_node_index(), 2);
    assert_eq!(violation.witnesses[0].1.used_object().object_path, "Db".to_string());
}

#[test]
fn misspelled_layer_name_stops_the_run() {
    let tree = two_module_tree();
    let architecture = Architecture::new(strings(&["controller", "service", "a", "b"]))
        .with_access_rule(AccessRule::MayOnlyAccess(MayOnlyAccess::new(
            "controller".to_string(),
            strings(&["servic"]),
        )))
        .with_access_rule(AccessRule::MayNotAccess(MayNotAccess::new(
            "a".to_string(),
            strings(&["b"]),
            false,
        )));
    let violation = architecture.check_against_tree(&tree).err().expect("the typo must be caught");
    assert_eq!(violation.violation_type, RuleViolationType::LayerDoesNotExist);
    match violation.offending_rule {
        Some(AccessRule::MayOnlyAccess(_)) => {},
        _ => panic!("the misspelled rule is the one reported, later checks are skipped"),
    }
}

#[test]
fn empty_crate_yields_one_node_and_no_violations() {
    let mut builder = TreeBuilder::new();
    let root_items: Vec<SynNode> = Vec::new();
    let refs = builder.add_file(&root_items, &"src/main.rs".to_string(), None, "my_crate".to_string());
    assert!(refs.is_empty());
    assert_eq!(builder.len(), 1);
    let tree = builder.finish();
    assert_eq!(tree.tree().len(), 1);
    let architecture = Architecture::new(Vec::new());
    assert!(architecture.check_against_tree(&tree).is_ok());
    assert!(contains_cyclic_dependency(&tree).is_none());
    assert!(contains_cyclic_dependency_on_any_level(&tree).is_none());
}

#[test]
fn running_the_check_twice_gives_the_same_verdict() {
    let tree = two_module_tree();
    let architecture = Architecture::new(strings(&["a", "b"])).with_access_rule(
        AccessRule::MayNotAccess(MayNotAccess::new("a".to_string(), strings(&["b"]), false)),
    );
    let first = architecture.check_against_tree(&tree);
    let second = architecture.check_against_tree(&tree);
    match (&first, &second) {
        (Err(v1), Err(v2)) => {
            assert_eq!(v1.violation_type, v2.violation_type);
            assert_eq!(v1.witnesses.len(), v2.witnesses.len());
            assert_eq!(v1.witnesses[0].0, v2.witnesses[0].0);
            assert_eq!(
                v1.witnesses[0].1.owner_node_index(),
                v2.witnesses[0].1.owner_node_index()
            );
        },
        _ => panic!("both runs must report the same forbidden access"),
    }
}

#[test]
fn empty_may_not_access_rule_never_fires() {
    let tree = two_module_tree();
    let architecture = Architecture::new(strings(&["a", "b"]))
        .with_access_rule(AccessRule::MayNotAccess(MayNotAccess::new(
            "a".to_string(),
            Vec::new(),
            false,
        )));
    assert!(architecture.check_against_tree(&tree).is_ok());
}

#[test]
fn self_edges_never_form_a_cycle() {
    let mut builder = TreeBuilder::new();
    let root_items = vec![mod_item("a")];
    builder.add_file(&root_items, &"src/main.rs".to_string(), None, "my_crate".to_string());
    let a_items = vec![struct_item("X"), use_item("crate::a::X", false)];
    builder.add_file(&a_items, &"src/a.rs".to_string(), Some(0), "a".to_string());
    let tree = builder.finish();
    assert!(contains_cyclic_dependency(&tree).is_none());
    assert!(contains_cyclic_dependency_on_any_level(&tree).is_none());
}

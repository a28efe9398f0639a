//! Unit tests for the path helpers, the module-file resolution, the node
//! tree, the remaining rule kinds, and the level-aggregated cycle search.

use arch_test_core::architecture::Architecture;
use arch_test_core::builder::{TreeBuilder, resolve_module_file};
use arch_test_core::cycle::{
    contains_cyclic_dependency, contains_cyclic_dependency_on_any_level,
    contains_cyclic_dependency_on_level,
};
use arch_test_core::objects::{ObjectType, TextRange, UsableObject, UseRelation};
use arch_test_core::options::Options;
use arch_test_core::paths::{is_wildcard_path, join_path, split_path};
use arch_test_core::rules::{
    AccessRule, MustAccess, MustNotAccessAnythingExcept, RuleViolation, RuleViolationType,
};
use arch_test_core::syntax::{SynKind, SynNode};

fn node(kind: SynKind, text: &str, children: Vec<SynNode>) -> SynNode {
    SynNode::new(kind, text.to_string(), TextRange { start: 0, end: 0 }, children)
}

fn use_item(path: &str, is_pub: bool) -> SynNode {
    let mut children = Vec::new();
    if is_pub {
        children.push(node(SynKind::Visibility, "pub", Vec::new()));
    }
    children.push(node(SynKind::UseTree, path, vec![node(SynKind::Path, path, Vec::new())]));
    node(SynKind::Use, path, children)
}

fn struct_item(name: &str) -> SynNode {
    node(
        SynKind::Struct,
        name,
        vec![
            node(SynKind::Visibility, "pub", Vec::new()),
            node(SynKind::Name, name, Vec::new()),
        ],
    )
}

fn mod_item(name: &str) -> SynNode {
    node(SynKind::Module, name, vec![node(SynKind::Name, name, Vec::new())])
}

fn strings(names: &[&str]) -> Vec<String> {
    names.iter().map(|n| n.to_string()).collect()
}

#[test]
fn split_path_cuts_on_double_colons() {
    let segments = split_path("crate::b::Foo");
    assert_eq!(segments, vec!["crate".to_string(), "b".to_string(), "Foo".to_string()]);
    assert_eq!(split_path("Foo"), vec!["Foo".to_string()]);
    assert_eq!(split_path(""), vec!["".to_string()]);
}

#[test]
fn join_path_reverses_split() {
    let segments = strings(&["a", "b", "c"]);
    assert_eq!(join_path(&segments), "a::b::c".to_string());
    assert_eq!(join_path(&Vec::new()), String::new());
    assert_eq!(split_path(&join_path(&segments)), segments);
}

#[test]
fn wildcard_paths_end_in_a_star() {
    assert!(is_wildcard_path("crate::b::*"));
    assert!(!is_wildcard_path("crate::b::Foo"));
    assert!(!is_wildcard_path(""));
}

#[test]
fn module_files_resolve_by_exact_name_with_directory_form_preferred() {
    let entries = vec![
        ("ab.rs".to_string(), false),
        ("a.rs".to_string(), false),
        ("b.rs".to_string(), false),
        ("b".to_string(), true),
        ("c.rs".to_string(), false),
    ];
    assert_eq!(
        resolve_module_file(&entries, &"a".to_string()),
        Some(("a.rs".to_string(), false))
    );
    // The directory form wins even though b.rs comes first in the listing.
    assert_eq!(resolve_module_file(&entries, &"b".to_string()), Some(("b".to_string(), true)));
    assert_eq!(resolve_module_file(&entries, &"d".to_string()), None);
    // A name that merely ends with the module name never stands for it.
    let stranger = vec![("ab.rs".to_string(), false)];
    assert_eq!(resolve_module_file(&stranger, &"b".to_string()), None);
}

#[test]
fn options_default_to_the_conventional_layout() {
    let options = Options::default();
    assert_eq!(options.input, "src/main.rs".to_string());
    assert_eq!(options.specification, "architecture.json".to_string());
    let chosen = Options::new("lib.rs".to_string(), "arch.json".to_string());
    assert_eq!(chosen.input, "lib.rs".to_string());
}

#[test]
fn inline_modules_become_child_nodes() {
    let mut builder = TreeBuilder::new();
    let inline = node(
        SynKind::Module,
        "inner",
        vec![
            node(SynKind::Name, "inner", Vec::new()),
            node(SynKind::ItemList, "", vec![struct_item("Deep")]),
        ],
    );
    let root_items = vec![inline, struct_item("Top")];
    let refs = builder.add_file(&root_items, &"src/lib.rs".to_string(), None, "my_crate".to_string());
    assert!(refs.is_empty());
    let tree = builder.finish();
    assert_eq!(tree.tree().len(), 2);
    assert_eq!(tree.tree()[1].module_name(), &"inner".to_string());
    assert_eq!(tree.tree()[1].level(), 1);
    assert_eq!(tree.tree()[1].parent_index(), Some(0));
    assert_eq!(tree.tree()[1].usable_objects.len(), 1);
    assert_eq!(tree.tree()[1].usable_objects[0].object_path, "Deep".to_string());
    assert_eq!(tree.tree()[0].usable_objects.len(), 1);
    assert_eq!(tree.tree()[0].usable_objects[0].object_path, "Top".to_string());
}

#[test]
fn use_trees_with_brace_lists_flatten() {
    // use crate::b::{Foo, Baz};
    let tree_node = node(
        SynKind::Use,
        "",
        vec![node(
            SynKind::UseTree,
            "crate::b::{Foo, Baz}",
            vec![
                node(SynKind::Path, "crate::b", Vec::new()),
                node(
                    SynKind::UseTreeList,
                    "{Foo, Baz}",
                    vec![
                        node(
                            SynKind::UseTree,
                            "Foo",
                            vec![node(SynKind::Path, "Foo", Vec::new())],
                        ),
                        node(
                            SynKind::UseTree,
                            "Baz",
                            vec![node(SynKind::Path, "Baz", Vec::new())],
                        ),
                    ],
                ),
            ],
        )],
    );
    let mut builder = TreeBuilder::new();
    let root_items = vec![tree_node];
    builder.add_file(&root_items, &"src/lib.rs".to_string(), None, "my_crate".to_string());
    let tree = builder.finish();
    let objects = &tree.tree()[0].usable_objects;
    assert_eq!(objects.len(), 2);
    assert_eq!(objects[0].object_path, "crate::b::Foo".to_string());
    assert_eq!(objects[1].object_path, "crate::b::Baz".to_string());
    assert_eq!(objects[0].object_type, ObjectType::Use);
}

#[test]
fn wildcard_uses_reach_every_public_object_of_the_target() {
    let mut builder = TreeBuilder::new();
    let root_items = vec![mod_item("a"), mod_item("b")];
    builder.add_file(&root_items, &"src/main.rs".to_string(), None, "my_crate".to_string());
    let a_items = vec![use_item("crate::b::*", false)];
    builder.add_file(&a_items, &"src/a.rs".to_string(), Some(0), "a".to_string());
    let b_items = vec![struct_item("Foo"), struct_item("Baz")];
    builder.add_file(&b_items, &"src/b.rs".to_string(), Some(0), "b".to_string());
    let tree = builder.finish();
    let relations = tree.tree()[1].object_uses(tree.tree(), tree.possible_uses(), false);
    assert_eq!(relations.len(), 2);
    assert_eq!(relations[0].owner_node_index(), 2);
    assert_eq!(relations[0].used_object().object_path, "Foo".to_string());
    assert_eq!(relations[1].used_object().object_path, "Baz".to_string());
}

#[test]
fn must_access_reports_a_missing_required_layer() {
    let mut builder = TreeBuilder::new();
    let root_items = vec![mod_item("a"), mod_item("b")];
    builder.add_file(&root_items, &"src/main.rs".to_string(), None, "my_crate".to_string());
    let a_items = vec![struct_item("OnItsOwn")];
    builder.add_file(&a_items, &"src/a.rs".to_string(), Some(0), "a".to_string());
    let b_items = vec![struct_item("Foo")];
    builder.add_file(&b_items, &"src/b.rs".to_string(), Some(0), "b".to_string());
    let tree = builder.finish();
    let architecture = Architecture::new(strings(&["a", "b"])).with_access_rule(
        AccessRule::MustAccess(MustAccess::new("a".to_string(), strings(&["b"]))),
    );
    let violation = architecture.check_access_rules(&tree).err().expect("a never uses b");
    assert_eq!(violation.violation_type, RuleViolationType::RequiredAccessMissing);
    assert!(violation.witnesses.is_empty());
}

#[test]
fn must_not_access_anything_except_tolerates_the_own_layer() {
    let mut builder = TreeBuilder::new();
    let root_items = vec![mod_item("a"), mod_item("b")];
    builder.add_file(&root_items, &"src/main.rs".to_string(), None, "my_crate".to_string());
    let a_items = vec![use_item("crate::b::Foo", false)];
    builder.add_file(&a_items, &"src/a.rs".to_string(), Some(0), "a".to_string());
    let b_items = vec![struct_item("Foo")];
    builder.add_file(&b_items, &"src/b.rs".to_string(), Some(0), "b".to_string());
    let tree = builder.finish();
    let allowing = Architecture::new(strings(&["a", "b"])).with_access_rule(
        AccessRule::MustNotAccessAnythingExcept(MustNotAccessAnythingExcept::new(
            "a".to_string(),
            strings(&["b"]),
        )),
    );
    assert!(allowing.check_access_rules(&tree).is_ok());
    let forbidding = Architecture::new(strings(&["a", "b"])).with_access_rule(
        AccessRule::MustNotAccessAnythingExcept(MustNotAccessAnythingExcept::new(
            "a".to_string(),
            Vec::new(),
        )),
    );
    let violation = forbidding.check_access_rules(&tree).err().expect("b is not allowed");
    assert_eq!(violation.violation_type, RuleViolationType::NotAllowedAccess);
}

#[test]
fn aggregate_cycles_appear_at_their_level() {
    let mut builder = TreeBuilder::new();
    let root_items = vec![mod_item("a"), mod_item("b")];
    builder.add_file(&root_items, &"src/main.rs".to_string(), None, "my_crate".to_string());
    let a_items = vec![use_item("crate::b::T", false), struct_item("S")];
    builder.add_file(&a_items, &"src/a.rs".to_string(), Some(0), "a".to_string());
    let b_items = vec![use_item("crate::a::S", false), struct_item("T")];
    builder.add_file(&b_items, &"src/b.rs".to_string(), Some(0), "b".to_string());
    let tree = builder.finish();
    let at_level_one = contains_cyclic_dependency_on_level(&tree, 1).expect("a and b form a cycle");
    assert_eq!(at_level_one.len(), 2);
    assert!(contains_cyclic_dependency_on_level(&tree, 2).is_none());
    assert!(contains_cyclic_dependency_on_any_level(&tree).is_some());
    assert!(contains_cyclic_dependency(&tree).is_some());
}

#[test]
fn cyclic_dependency_violations_carry_their_witness() {
    let mut builder = TreeBuilder::new();
    let root_items = vec![mod_item("a"), mod_item("b")];
    builder.add_file(&root_items, &"src/main.rs".to_string(), None, "my_crate".to_string());
    let a_items = vec![use_item("crate::b::T", false), struct_item("S")];
    builder.add_file(&a_items, &"src/a.rs".to_string(), Some(0), "a".to_string());
    let b_items = vec![use_item("crate::a::S", false), struct_item("T")];
    builder.add_file(&b_items, &"src/b.rs".to_string(), Some(0), "b".to_string());
    let tree = builder.finish();
    let witness = contains_cyclic_dependency(&tree).expect("a and b form a cycle");
    let violation = RuleViolation::new(RuleViolationType::CyclicDependency, None, witness);
    assert_eq!(violation.violation_type(), RuleViolationType::CyclicDependency);
    assert_eq!(violation.witnesses.len(), 2);
}

#[test]
fn relative_self_and_super_paths_resolve() {
    let mut builder = TreeBuilder::new();
    let root_items = vec![mod_item("a"), struct_item("RootThing")];
    builder.add_file(&root_items, &"src/main.rs".to_string(), None, "my_crate".to_string());
    let a_items = vec![use_item("super::RootThing", false), struct_item("Own")];
    builder.add_file(&a_items, &"src/a.rs".to_string(), Some(0), "a".to_string());
    let tree = builder.finish();
    let relations = tree.tree()[1].object_uses(tree.tree(), tree.possible_uses(), false);
    assert_eq!(relations.len(), 1);
    assert_eq!(relations[0].owner_node_index(), 0);
    assert_eq!(relations[0].used_object().object_path, "RootThing".to_string());
}

#[test]
fn import_aliases_substitute_the_leading_segment() {
    // a.rs: use self::inner::deep; ... deep::X ...  with inner and deep as
    // inline modules, X defined in deep. The path deep::X resolves through
    // the import alias.
    let deep = node(
        SynKind::Module,
        "deep",
        vec![
            node(SynKind::Name, "deep", Vec::new()),
            node(SynKind::ItemList, "", vec![struct_item("X")]),
        ],
    );
    let inner = node(
        SynKind::Module,
        "inner",
        vec![
            node(SynKind::Name, "inner", Vec::new()),
            node(SynKind::ItemList, "", vec![deep]),
        ],
    );
    let reference = node(
        SynKind::PathType,
        "deep::X",
        vec![node(
            SynKind::Path,
            "deep::X",
            vec![
                node(SynKind::Path, "deep", Vec::new()),
                node(
                    SynKind::PathSegment,
                    "X",
                    vec![node(SynKind::NameRef, "X", Vec::new())],
                ),
            ],
        )],
    );
    let mut builder = TreeBuilder::new();
    let root_items = vec![mod_item("a")];
    builder.add_file(&root_items, &"src/main.rs".to_string(), None, "my_crate".to_string());
    let a_items = vec![use_item("self::inner::deep", false), inner, reference];
    builder.add_file(&a_items, &"src/a.rs".to_string(), Some(0), "a".to_string());
    let tree = builder.finish();
    assert_eq!(tree.tree().len(), 4);
    assert_eq!(tree.tree()[3].module_name(), &"deep".to_string());
    let relations = tree.tree()[1].object_uses(tree.tree(), tree.possible_uses(), true);
    assert_eq!(relations.len(), 1);
    assert_eq!(relations[0].owner_node_index(), 3);
    assert_eq!(relations[0].used_object().object_path, "X".to_string());
}

#[test]
fn included_nodes_list_the_whole_subtree() {
    let deep = node(
        SynKind::Module,
        "deep",
        vec![
            node(SynKind::Name, "deep", Vec::new()),
            node(SynKind::ItemList, "", vec![struct_item("X")]),
        ],
    );
    let inner = node(
        SynKind::Module,
        "inner",
        vec![
            node(SynKind::Name, "inner", Vec::new()),
            node(SynKind::ItemList, "", vec![deep]),
        ],
    );
    let mut builder = TreeBuilder::new();
    let root_items = vec![mod_item("a")];
    builder.add_file(&root_items, &"src/main.rs".to_string(), None, "my_crate".to_string());
    builder.add_file(&vec![inner], &"src/a.rs".to_string(), Some(0), "a".to_string());
    let tree = builder.finish();
    assert_eq!(tree.tree()[0].included_nodes(tree.tree()), vec![1, 2, 3]);
    assert_eq!(tree.tree()[1].included_nodes(tree.tree()), vec![2, 3]);
    assert_eq!(tree.tree()[3].included_nodes(tree.tree()), Vec::<usize>::new());
}

#[test]
fn usable_objects_keep_their_text_ranges() {
    let object = UsableObject::new(
        true,
        ObjectType::Struct,
        "Foo".to_string(),
        TextRange { start: 4, end: 7 },
    );
    assert_eq!(object.text_range, TextRange { start: 4, end: 7 });
    let relation = UseRelation::new(3, object);
    assert_eq!(relation.owner_node_index(), 3);
    assert_eq!(relation.used_object().object_path, "Foo".to_string());
    let copy = relation.clone();
    assert_eq!(copy.owner_node_index(), 3);
}

//! The path extractor: lowering a file's syntax tree to the usable objects of
//! the enclosing module and the module references to resolve against the file
//! system.

use vstd::prelude::*;
use crate::objects::{ObjectType, SpecObject, TextRange, UsableObject};
use crate::syntax::{SynKind, SynNode, syn_size, syn_size_many};

verus! {

/// `syn_size` and `syn_size_many` bounds used by the termination measures.
pub proof fn lemma_child_size(cs: Seq<SynNode>, k: int)
    requires
        0 <= k < cs.len(),
    ensures
        syn_size(cs[k]) <= syn_size_many(cs, k),
        syn_size_many(cs, k + 1) < syn_size_many(cs, k),
        syn_size_many(cs[k].children@, 0) < syn_size_many(cs, k),
        1 <= syn_size(cs[k]),
{
    assert(syn_size_many(cs, k) == syn_size(cs[k]) + syn_size_many(cs, k + 1));
    assert(syn_size(cs[k]) == 1 + syn_size_many(cs[k].children@, 0));
}

/// The qualified names of a path type node: each `NAME_REF` joined onto the
/// accumulated prefix, with generic type arguments contributing their own
/// nested paths. These four helpers scan, in order: the path children of the
/// node, a path's inner path and segments, a segment's name and generic list,
/// and the type arguments.
pub open spec fn spec_path_type(node: SynNode) -> Seq<(Seq<char>, TextRange)>
    decreases syn_size(node), 0int, 0nat,
    via spec_path_type_decreases
{
    spec_pt_paths(node.children@, 0, Seq::empty()).0
}

/// Scans for `Path` children, threading the prefix accumulator.
pub open spec fn spec_pt_paths(cs: Seq<SynNode>, k: int, cur: Seq<char>) -> (
    Seq<(Seq<char>, TextRange)>,
    Seq<char>,
)
    decreases syn_size_many(cs, k), 1int, 0nat,
    via spec_pt_paths_decreases
{
    if 0 <= k < cs.len() {
        if cs[k].kind == SynKind::Path {
            let (o1, cur1) = spec_pt_inner(cs[k].children@, 0, cur);
            let (o2, cur2) = spec_pt_paths(cs, k + 1, cur1);
            (o1 + o2, cur2)
        } else {
            spec_pt_paths(cs, k + 1, cur)
        }
    } else {
        (Seq::empty(), cur)
    }
}

/// Scans a path's children: a nested `Path` sets the prefix, a `PathSegment`
/// emits names.
pub open spec fn spec_pt_inner(cs: Seq<SynNode>, k: int, cur: Seq<char>) -> (
    Seq<(Seq<char>, TextRange)>,
    Seq<char>,
)
    decreases syn_size_many(cs, k), 1int, 0nat,
    via spec_pt_inner_decreases
{
    if 0 <= k < cs.len() {
        if cs[k].kind == SynKind::Path {
            spec_pt_inner(cs, k + 1, cs[k].text@)
        } else if cs[k].kind == SynKind::PathSegment {
            let o1 = spec_pt_segment(cs[k].children@, 0, cur);
            let (o2, cur2) = spec_pt_inner(cs, k + 1, cur);
            (o1 + o2, cur2)
        } else {
            spec_pt_inner(cs, k + 1, cur)
        }
    } else {
        (Seq::empty(), cur)
    }
}

/// Scans a segment's children: a `NameRef` emits the (possibly qualified)
/// name, a generic argument list contributes its type arguments.
pub open spec fn spec_pt_segment(cs: Seq<SynNode>, k: int, cur: Seq<char>) -> Seq<
    (Seq<char>, TextRange),
>
    decreases syn_size_many(cs, k), 1int, 0nat,
    via spec_pt_segment_decreases
{
    if 0 <= k < cs.len() {
        (if cs[k].kind == SynKind::NameRef {
            if cur.len() == 0 {
                seq![(cs[k].text@, cs[k].range)]
            } else {
                seq![(cur + "::"@ + cs[k].text@, cs[k].range)]
            }
        } else if cs[k].kind == SynKind::GenericArgList {
            spec_pt_generics(cs[k].children@, 0)
        } else {
            Seq::empty()
        }) + spec_pt_segment(cs, k + 1, cur)
    } else {
        Seq::empty()
    }
}

/// Scans a generic argument list for `TypeArg` children.
pub open spec fn spec_pt_generics(cs: Seq<SynNode>, k: int) -> Seq<(Seq<char>, TextRange)>
    decreases syn_size_many(cs, k), 1int, 0nat,
    via spec_pt_generics_decreases
{
    if 0 <= k < cs.len() {
        (if cs[k].kind == SynKind::TypeArg {
            spec_pt_type_arg(cs[k].children@, 0)
        } else {
            Seq::empty()
        }) + spec_pt_generics(cs, k + 1)
    } else {
        Seq::empty()
    }
}

/// Scans a type argument for path or tuple types.
pub open spec fn spec_pt_type_arg(cs: Seq<SynNode>, k: int) -> Seq<(Seq<char>, TextRange)>
    decreases syn_size_many(cs, k), 1int, 0nat,
    via spec_pt_type_arg_decreases
{
    if 0 <= k < cs.len() {
        (if cs[k].kind == SynKind::PathType || cs[k].kind == SynKind::TupleType {
            spec_nested_tuple_type(cs[k])
        } else {
            Seq::empty()
        }) + spec_pt_type_arg(cs, k + 1)
    } else {
        Seq::empty()
    }
}

/// The type paths of a possibly nested type or pattern node: wrapper kinds
/// are unwrapped recursively, a path type yields its qualified names, and
/// name-like kinds yield nothing.
pub open spec fn spec_nested_tuple_type(node: SynNode) -> Seq<(Seq<char>, TextRange)>
    decreases syn_size(node), 0int, 1nat,
    via spec_nested_tuple_type_decreases
{
    if node.kind == SynKind::TupleType || node.kind == SynKind::SliceType || node.kind
        == SynKind::ParenType || node.kind == SynKind::RefType || node.kind == SynKind::TuplePat
        || node.kind == SynKind::ImplTraitType || node.kind == SynKind::TypeBoundList || node.kind
        == SynKind::TypeBound {
        spec_ntt_children(node.children@, 0)
    } else if node.kind == SynKind::PathType {
        spec_path_type(node)
    } else {
        Seq::empty()
    }
}

/// The nested type paths of all of `cs[k..]`.
pub open spec fn spec_ntt_children(cs: Seq<SynNode>, k: int) -> Seq<(Seq<char>, TextRange)>
    decreases syn_size_many(cs, k), 1int, 0nat,
    via spec_ntt_children_decreases
{
    if 0 <= k < cs.len() {
        spec_nested_tuple_type(cs[k]) + spec_ntt_children(cs, k + 1)
    } else {
        Seq::empty()
    }
}

/// The type paths of a field or parameter list: every grandchild is read as a
/// nested type.
pub open spec fn spec_field_list(node: SynNode) -> Seq<(Seq<char>, TextRange)>
    decreases syn_size(node), 0int, 1nat,
    via spec_field_list_decreases
{
    spec_fl_children(node.children@, 0)
}

pub open spec fn spec_fl_children(cs: Seq<SynNode>, k: int) -> Seq<(Seq<char>, TextRange)>
    decreases syn_size_many(cs, k), 1int, 0nat,
    via spec_fl_children_decreases
{
    if 0 <= k < cs.len() {
        spec_ntt_children(cs[k].children@, 0) + spec_fl_children(cs, k + 1)
    } else {
        Seq::empty()
    }
}

/// The type paths of an associated item list: each item's parameter lists and
/// path-typed return types.
pub open spec fn spec_assoc_items(node: SynNode) -> Seq<(Seq<char>, TextRange)>
    decreases syn_size(node), 0int, 1nat,
    via spec_assoc_items_decreases
{
    spec_ai_items(node.children@, 0)
}

pub open spec fn spec_ai_items(cs: Seq<SynNode>, k: int) -> Seq<(Seq<char>, TextRange)>
    decreases syn_size_many(cs, k), 1int, 0nat,
    via spec_ai_items_decreases
{
    if 0 <= k < cs.len() {
        spec_ai_parts(cs[k].children@, 0) + spec_ai_items(cs, k + 1)
    } else {
        Seq::empty()
    }
}

pub open spec fn spec_ai_parts(cs: Seq<SynNode>, k: int) -> Seq<(Seq<char>, TextRange)>
    decreases syn_size_many(cs, k), 1int, 0nat,
    via spec_ai_parts_decreases
{
    if 0 <= k < cs.len() {
        (if cs[k].kind == SynKind::ParamList {
            spec_field_list(cs[k])
        } else if cs[k].kind == SynKind::RetType {
            spec_ret_type(cs[k].children@, 0)
        } else {
            Seq::empty()
        }) + spec_ai_parts(cs, k + 1)
    } else {
        Seq::empty()
    }
}

/// The qualified names of the path types among `cs[k..]`, as found in a
/// return type.
pub open spec fn spec_ret_type(cs: Seq<SynNode>, k: int) -> Seq<(Seq<char>, TextRange)>
    decreases syn_size_many(cs, k), 1int, 0nat,
    via spec_ret_type_decreases
{
    if 0 <= k < cs.len() {
        (if cs[k].kind == SynKind::PathType {
            spec_path_type(cs[k])
        } else {
            Seq::empty()
        }) + spec_ret_type(cs, k + 1)
    } else {
        Seq::empty()
    }
}

/// The flat leaf paths of a `use` tree: a nested brace list joins each of its
/// leaves onto the current prefix; a tree without a list is the prefix alone.
pub open spec fn spec_use_tree(node: SynNode) -> Seq<(Seq<char>, TextRange)>
    decreases syn_size(node), 0int, 1nat,
    via spec_use_tree_decreases
{
    let (o, prefix, prange) = spec_ut_scan(
        node.children@,
        0,
        Seq::empty(),
        TextRange { start: 0, end: 0 },
    );
    if o.len() == 0 {
        seq![(prefix, prange)]
    } else {
        o
    }
}

pub open spec fn spec_ut_scan(cs: Seq<SynNode>, k: int, prefix: Seq<char>, prange: TextRange) -> (
    Seq<(Seq<char>, TextRange)>,
    Seq<char>,
    TextRange,
)
    decreases syn_size_many(cs, k), 1int, 0nat,
    via spec_ut_scan_decreases
{
    if 0 <= k < cs.len() {
        if cs[k].kind == SynKind::Path {
            spec_ut_scan(cs, k + 1, cs[k].text@, cs[k].range)
        } else if cs[k].kind == SynKind::UseTreeList {
            let inner = spec_ut_list(cs[k].children@, 0, prefix, cs[k].range);
            let (o2, p2, r2) = spec_ut_scan(cs, k + 1, prefix, prange);
            (inner + o2, p2, r2)
        } else {
            spec_ut_scan(cs, k + 1, prefix, prange)
        }
    } else {
        (Seq::empty(), prefix, prange)
    }
}

pub open spec fn spec_ut_list(cs: Seq<SynNode>, k: int, prefix: Seq<char>, lrange: TextRange) -> Seq<
    (Seq<char>, TextRange),
>
    decreases syn_size_many(cs, k), 1int, 0nat,
    via spec_ut_list_decreases
{
    if 0 <= k < cs.len() {
        spec_use_tree(cs[k]).map_values(|p: (Seq<char>, TextRange)| (prefix + "::"@ + p.0, lrange))
            + spec_ut_list(cs, k + 1, prefix, lrange)
    } else {
        Seq::empty()
    }
}

/// Whether the `use` carries a public visibility marker.
pub open spec fn spec_use_is_pub(cs: Seq<SynNode>) -> bool {
    exists|j: int| 0 <= j < cs.len() && (#[trigger] cs[j]).kind == SynKind::Visibility
}

/// The leaf paths of a `use` item: a wildcard tree is kept whole, any other
/// tree is flattened.
pub open spec fn spec_use_paths(cs: Seq<SynNode>, k: int) -> Seq<(Seq<char>, TextRange)>
    decreases syn_size_many(cs, k), 1int, 0nat,
    via spec_use_paths_decreases
{
    if 0 <= k < cs.len() {
        (if cs[k].kind == SynKind::UseTree {
            if cs[k].text@.len() > 0 && cs[k].text@.last() == '*' {
                seq![(cs[k].text@, cs[k].range)]
            } else {
                spec_use_tree(cs[k])
            }
        } else {
            Seq::empty()
        }) + spec_use_paths(cs, k + 1)
    } else {
        Seq::empty()
    }
}

#[via_fn]
proof fn spec_path_type_decreases(node: SynNode) {
    assert(syn_size(node) == 1 + syn_size_many(node.children@, 0));
}

#[via_fn]
proof fn spec_nested_tuple_type_decreases(node: SynNode) {
    assert(syn_size(node) == 1 + syn_size_many(node.children@, 0));
}

#[via_fn]
proof fn spec_field_list_decreases(node: SynNode) {
    assert(syn_size(node) == 1 + syn_size_many(node.children@, 0));
}

#[via_fn]
proof fn spec_assoc_items_decreases(node: SynNode) {
    assert(syn_size(node) == 1 + syn_size_many(node.children@, 0));
}

#[via_fn]
proof fn spec_use_tree_decreases(node: SynNode) {
    assert(syn_size(node) == 1 + syn_size_many(node.children@, 0));
}

#[via_fn]
proof fn spec_pt_paths_decreases(cs: Seq<SynNode>, k: int, cur: Seq<char>) {
    if 0 <= k < cs.len() {
        lemma_child_size(cs, k);
    }
}

#[via_fn]
proof fn spec_pt_inner_decreases(cs: Seq<SynNode>, k: int, cur: Seq<char>) {
    if 0 <= k < cs.len() {
        lemma_child_size(cs, k);
    }
}

#[via_fn]
proof fn spec_pt_segment_decreases(cs: Seq<SynNode>, k: int, cur: Seq<char>) {
    if 0 <= k < cs.len() {
        lemma_child_size(cs, k);
    }
}

#[via_fn]
proof fn spec_pt_generics_decreases(cs: Seq<SynNode>, k: int) {
    if 0 <= k < cs.len() {
        lemma_child_size(cs, k);
    }
}

#[via_fn]
proof fn spec_pt_type_arg_decreases(cs: Seq<SynNode>, k: int) {
    if 0 <= k < cs.len() {
        lemma_child_size(cs, k);
    }
}

#[via_fn]
proof fn spec_ntt_children_decreases(cs: Seq<SynNode>, k: int) {
    if 0 <= k < cs.len() {
        lemma_child_size(cs, k);
    }
}

#[via_fn]
proof fn spec_fl_children_decreases(cs: Seq<SynNode>, k: int) {
    if 0 <= k < cs.len() {
        lemma_child_size(cs, k);
    }
}

#[via_fn]
proof fn spec_ai_items_decreases(cs: Seq<SynNode>, k: int) {
    if 0 <= k < cs.len() {
        lemma_child_size(cs, k);
    }
}

#[via_fn]
proof fn spec_ai_parts_decreases(cs: Seq<SynNode>, k: int) {
    if 0 <= k < cs.len() {
        lemma_child_size(cs, k);
    }
}

#[via_fn]
proof fn spec_ret_type_decreases(cs: Seq<SynNode>, k: int) {
    if 0 <= k < cs.len() {
        lemma_child_size(cs, k);
    }
}

#[via_fn]
proof fn spec_ut_scan_decreases(cs: Seq<SynNode>, k: int, prefix: Seq<char>, prange: TextRange) {
    if 0 <= k < cs.len() {
        lemma_child_size(cs, k);
    }
}

#[via_fn]
proof fn spec_ut_list_decreases(cs: Seq<SynNode>, k: int, prefix: Seq<char>, lrange: TextRange) {
    if 0 <= k < cs.len() {
        lemma_child_size(cs, k);
    }
}

#[via_fn]
proof fn spec_use_paths_decreases(cs: Seq<SynNode>, k: int) {
    if 0 <= k < cs.len() {
        lemma_child_size(cs, k);
    }
}

/// An implicit-use object for each extracted type path.
pub open spec fn spec_implicit_uses(paths: Seq<(Seq<char>, TextRange)>, visible: bool) -> Seq<
    SpecObject,
> {
    paths.map_values(
        |p: (Seq<char>, TextRange)|
            SpecObject {
                visible,
                object_type: ObjectType::ImplicitUse,
                path: p.0,
                range: p.1,
            },
    )
}

/// The objects of a `use` item: one entry per leaf path, re-published when the
/// item is public.
pub open spec fn spec_use_objects(node: SynNode) -> Seq<SpecObject> {
    let is_pub = spec_use_is_pub(node.children@);
    spec_use_paths(node.children@, 0).map_values(
        |p: (Seq<char>, TextRange)|
            SpecObject {
                visible: is_pub,
                object_type: if is_pub {
                    ObjectType::RePublish
                } else {
                    ObjectType::Use
                },
                path: p.0,
                range: p.1,
            },
    )
}

/// The first child of `cs[k..]` with the given kind.
pub open spec fn spec_first_kind(cs: Seq<SynNode>, k: int, kind: SynKind) -> Option<int>
    decreases cs.len() - k,
{
    if 0 <= k < cs.len() {
        if cs[k].kind == kind {
            Some(k)
        } else {
            spec_first_kind(cs, k + 1, kind)
        }
    } else {
        None
    }
}

/// A `mod` item with an inline body: the index of its item list, and its name.
pub open spec fn spec_inline_module(node: SynNode) -> Option<(int, Seq<char>)> {
    if node.kind == SynKind::Module {
        match (spec_first_kind(node.children@, 0, SynKind::Name), spec_first_kind(
            node.children@,
            0,
            SynKind::ItemList,
        )) {
            (Some(n), Some(l)) => Some((l, node.children@[n].text@)),
            _ => None,
        }
    } else {
        None
    }
}

/// A found first child lies in range and has the kind looked for.
pub proof fn lemma_first_kind_range(cs: Seq<SynNode>, k: int, kind: SynKind)
    ensures
        match spec_first_kind(cs, k, kind) {
            Some(j) => k <= j < cs.len() && cs[j].kind == kind,
            None => true,
        },
    decreases cs.len() - k,
{
    if 0 <= k < cs.len() {
        if cs[k].kind == kind {
        } else {
            lemma_first_kind_range(cs, k + 1, kind);
        }
    }
}

/// An inline module's item-list index lies in range and names an item list.
pub proof fn lemma_inline_in_range(node: SynNode)
    ensures
        match spec_inline_module(node) {
            Some((l, _)) => 0 <= l < node.children@.len() && node.children@[l].kind
                == SynKind::ItemList,
            None => true,
        },
{
    if node.kind == SynKind::Module {
        lemma_first_kind_range(node.children@, 0, SynKind::Name);
        lemma_first_kind_range(node.children@, 0, SynKind::ItemList);
    }
}

/// Everything one item node contributes: the usable objects of the enclosing
/// module, and the names of the bodyless `mod` items to resolve against the
/// file system. An inline module contributes neither; its items form a module
/// of their own.
pub open spec fn spec_extract(node: SynNode) -> (Seq<SpecObject>, Seq<Seq<char>>)
    decreases syn_size(node), 3int, 0nat
    via spec_extract_decreases
{
    match node.kind {
        SynKind::Use => (spec_use_objects(node), Seq::empty()),
        SynKind::Struct => (spec_struct_scan(node.children@, 0, false), Seq::empty()),
        SynKind::Enum => (spec_enum_scan(node.children@, 0, false), Seq::empty()),
        SynKind::Fn => spec_fn_scan(node.children@, 0, false),
        SynKind::Trait => (spec_trait_scan(node.children@, 0, false), Seq::empty()),
        SynKind::Impl => (spec_impl_scan(node.children@, 0), Seq::empty()),
        SynKind::PathExpr => (spec_implicit_uses(spec_path_type(node), false), Seq::empty()),
        SynKind::TupleStructPat => (spec_implicit_uses(spec_path_type(node), false), Seq::empty()),
        SynKind::ParamList => (spec_implicit_uses(spec_field_list(node), false), Seq::empty()),
        SynKind::TupleType => (
            spec_implicit_uses(spec_nested_tuple_type(node), false),
            Seq::empty(),
        ),
        SynKind::PathType => (
            spec_implicit_uses(spec_nested_tuple_type(node), false),
            Seq::empty(),
        ),
        SynKind::TuplePat => (
            spec_implicit_uses(spec_nested_tuple_type(node), false),
            Seq::empty(),
        ),
        SynKind::Module => (
            Seq::empty(),
            if spec_inline_module(node) is None {
                match spec_first_kind(node.children@, 0, SynKind::Name) {
                    Some(n) => seq![node.children@[n].text@],
                    None => Seq::empty(),
                }
            } else {
                Seq::empty()
            },
        ),
        SynKind::MatchExpr => spec_match_scan(node.children@, 0),
        SynKind::NameRef => spec_children_extract(node.children@, 0),
        SynKind::RefType => spec_children_extract(node.children@, 0),
        SynKind::BlockExpr => spec_children_extract(node.children@, 0),
        SynKind::OtherExpr => spec_children_extract(node.children@, 0),
        _ => (Seq::empty(), Seq::empty()),
    }
}

/// The combined contributions of the items `cs[k..]`.
pub open spec fn spec_children_extract(cs: Seq<SynNode>, k: int) -> (
    Seq<SpecObject>,
    Seq<Seq<char>>,
)
    decreases syn_size_many(cs, k), 4int, 0nat
    via spec_children_extract_decreases
{
    if 0 <= k < cs.len() {
        let here = spec_extract(cs[k]);
        let rest = spec_children_extract(cs, k + 1);
        (here.0 + rest.0, here.1 + rest.1)
    } else {
        (Seq::empty(), Seq::empty())
    }
}

/// Scans a struct's children: the visibility marker, the defining name, and
/// the record fields' type paths.
pub open spec fn spec_struct_scan(cs: Seq<SynNode>, k: int, is_pub: bool) -> Seq<SpecObject>
    decreases syn_size_many(cs, k), 4int, 0nat
    via spec_struct_scan_decreases
{
    if 0 <= k < cs.len() {
        if cs[k].kind == SynKind::Visibility {
            spec_struct_scan(cs, k + 1, true)
        } else if cs[k].kind == SynKind::Name {
            seq![
                SpecObject {
                    visible: is_pub,
                    object_type: ObjectType::Struct,
                    path: cs[k].text@,
                    range: cs[k].range,
                },
            ] + spec_struct_scan(cs, k + 1, is_pub)
        } else if cs[k].kind == SynKind::RecordFieldList {
            spec_implicit_uses(spec_field_list(cs[k]), is_pub) + spec_struct_scan(cs, k + 1, is_pub)
        } else {
            spec_struct_scan(cs, k + 1, is_pub)
        }
    } else {
        Seq::empty()
    }
}

/// Scans an enum's children: the visibility marker, the defining name, and
/// each variant's field lists.
pub open spec fn spec_enum_scan(cs: Seq<SynNode>, k: int, is_pub: bool) -> Seq<SpecObject>
    decreases syn_size_many(cs, k), 4int, 0nat
    via spec_enum_scan_decreases
{
    if 0 <= k < cs.len() {
        if cs[k].kind == SynKind::Visibility {
            spec_enum_scan(cs, k + 1, true)
        } else if cs[k].kind == SynKind::Name {
            seq![
                SpecObject {
                    visible: is_pub,
                    object_type: ObjectType::Enum,
                    path: cs[k].text@,
                    range: cs[k].range,
                },
            ] + spec_enum_scan(cs, k + 1, is_pub)
        } else if cs[k].kind == SynKind::VariantList {
            spec_variants(cs[k].children@, 0, is_pub) + spec_enum_scan(cs, k + 1, is_pub)
        } else {
            spec_enum_scan(cs, k + 1, is_pub)
        }
    } else {
        Seq::empty()
    }
}

pub open spec fn spec_variants(cs: Seq<SynNode>, k: int, is_pub: bool) -> Seq<SpecObject>
    decreases syn_size_many(cs, k), 4int, 0nat
    via spec_variants_decreases
{
    if 0 <= k < cs.len() {
        spec_variant_args(cs[k].children@, 0, is_pub) + spec_variants(cs, k + 1, is_pub)
    } else {
        Seq::empty()
    }
}

pub open spec fn spec_variant_args(cs: Seq<SynNode>, k: int, is_pub: bool) -> Seq<SpecObject>
    decreases syn_size_many(cs, k), 4int, 0nat
    via spec_variant_args_decreases
{
    if 0 <= k < cs.len() {
        (if cs[k].kind == SynKind::TupleFieldList || cs[k].kind == SynKind::RecordFieldList {
            spec_implicit_uses(spec_field_list(cs[k]), is_pub)
        } else {
            Seq::empty()
        }) + spec_variant_args(cs, k + 1, is_pub)
    } else {
        Seq::empty()
    }
}

/// Scans a function's children: name and signature parts; the body is walked
/// for further uses and nested module references.
pub open spec fn spec_fn_scan(cs: Seq<SynNode>, k: int, is_pub: bool) -> (
    Seq<SpecObject>,
    Seq<Seq<char>>,
)
    decreases syn_size_many(cs, k), 4int, 0nat
    via spec_fn_scan_decreases
{
    if 0 <= k < cs.len() {
        if cs[k].kind == SynKind::Visibility {
            spec_fn_scan(cs, k + 1, true)
        } else if cs[k].kind == SynKind::Name {
            let rest = spec_fn_scan(cs, k + 1, is_pub);
            (
                seq![
                    SpecObject {
                        visible: is_pub,
                        object_type: ObjectType::Function,
                        path: cs[k].text@,
                        range: cs[k].range,
                    },
                ] + rest.0,
                rest.1,
            )
        } else if cs[k].kind == SynKind::ParamList {
            let rest = spec_fn_scan(cs, k + 1, is_pub);
            (spec_implicit_uses(spec_field_list(cs[k]), is_pub) + rest.0, rest.1)
        } else if cs[k].kind == SynKind::RetType {
            let rest = spec_fn_scan(cs, k + 1, is_pub);
            (spec_implicit_uses(spec_ret_type(cs[k].children@, 0), is_pub) + rest.0, rest.1)
        } else if cs[k].kind == SynKind::BlockExpr {
            let inner = spec_extract(cs[k]);
            let rest = spec_fn_scan(cs, k + 1, is_pub);
            (inner.0 + rest.0, inner.1 + rest.1)
        } else {
            spec_fn_scan(cs, k + 1, is_pub)
        }
    } else {
        (Seq::empty(), Seq::empty())
    }
}

/// Scans a trait's children: the visibility marker, the defining name, and
/// the associated items' signatures.
pub open spec fn spec_trait_scan(cs: Seq<SynNode>, k: int, is_pub: bool) -> Seq<SpecObject>
    decreases syn_size_many(cs, k), 4int, 0nat
    via spec_trait_scan_decreases
{
    if 0 <= k < cs.len() {
        if cs[k].kind == SynKind::Visibility {
            spec_trait_scan(cs, k + 1, true)
        } else if cs[k].kind == SynKind::Name {
            seq![
                SpecObject {
                    visible: is_pub,
                    object_type: ObjectType::Trait,
                    path: cs[k].text@,
                    range: cs[k].range,
                },
            ] + spec_trait_scan(cs, k + 1, is_pub)
        } else if cs[k].kind == SynKind::AssocItemList {
            spec_implicit_uses(spec_assoc_items(cs[k]), is_pub) + spec_trait_scan(cs, k + 1, is_pub)
        } else {
            spec_trait_scan(cs, k + 1, is_pub)
        }
    } else {
        Seq::empty()
    }
}

/// Scans an impl's children: the implemented type's path and the associated
/// items' signatures; no definition is emitted.
pub open spec fn spec_impl_scan(cs: Seq<SynNode>, k: int) -> Seq<SpecObject>
    decreases syn_size_many(cs, k), 4int, 0nat
    via spec_impl_scan_decreases
{
    if 0 <= k < cs.len() {
        (if cs[k].kind == SynKind::PathType {
            spec_implicit_uses(spec_path_type(cs[k]), false)
        } else if cs[k].kind == SynKind::AssocItemList {
            spec_implicit_uses(spec_assoc_items(cs[k]), false)
        } else {
            Seq::empty()
        }) + spec_impl_scan(cs, k + 1)
    } else {
        Seq::empty()
    }
}

/// Scans a match expression's arm lists, walking every arm item.
pub open spec fn spec_match_scan(cs: Seq<SynNode>, k: int) -> (Seq<SpecObject>, Seq<Seq<char>>)
    decreases syn_size_many(cs, k), 4int, 0nat
    via spec_match_scan_decreases
{
    if 0 <= k < cs.len() {
        let here = if cs[k].kind == SynKind::MatchArmList {
            spec_arms(cs[k].children@, 0)
        } else {
            (Seq::empty(), Seq::empty())
        };
        let rest = spec_match_scan(cs, k + 1);
        (here.0 + rest.0, here.1 + rest.1)
    } else {
        (Seq::empty(), Seq::empty())
    }
}

pub open spec fn spec_arms(cs: Seq<SynNode>, k: int) -> (Seq<SpecObject>, Seq<Seq<char>>)
    decreases syn_size_many(cs, k), 4int, 0nat
    via spec_arms_decreases
{
    if 0 <= k < cs.len() {
        let here = spec_children_extract(cs[k].children@, 0);
        let rest = spec_arms(cs, k + 1);
        (here.0 + rest.0, here.1 + rest.1)
    } else {
        (Seq::empty(), Seq::empty())
    }
}

#[via_fn]
proof fn spec_extract_decreases(node: SynNode) {
    assert(syn_size(node) == 1 + syn_size_many(node.children@, 0));
}

#[via_fn]
proof fn spec_children_extract_decreases(cs: Seq<SynNode>, k: int) {
    if 0 <= k < cs.len() {
        lemma_child_size(cs, k);
    }
}

#[via_fn]
proof fn spec_struct_scan_decreases(cs: Seq<SynNode>, k: int, is_pub: bool) {
    if 0 <= k < cs.len() {
        lemma_child_size(cs, k);
    }
}

#[via_fn]
proof fn spec_enum_scan_decreases(cs: Seq<SynNode>, k: int, is_pub: bool) {
    if 0 <= k < cs.len() {
        lemma_child_size(cs, k);
    }
}

#[via_fn]
proof fn spec_variants_decreases(cs: Seq<SynNode>, k: int, is_pub: bool) {
    if 0 <= k < cs.len() {
        lemma_child_size(cs, k);
    }
}

#[via_fn]
proof fn spec_variant_args_decreases(cs: Seq<SynNode>, k: int, is_pub: bool) {
    if 0 <= k < cs.len() {
        lemma_child_size(cs, k);
    }
}

#[via_fn]
proof fn spec_fn_scan_decreases(cs: Seq<SynNode>, k: int, is_pub: bool) {
    if 0 <= k < cs.len() {
        lemma_child_size(cs, k);
    }
}

#[via_fn]
proof fn spec_trait_scan_decreases(cs: Seq<SynNode>, k: int, is_pub: bool) {
    if 0 <= k < cs.len() {
        lemma_child_size(cs, k);
    }
}

#[via_fn]
proof fn spec_impl_scan_decreases(cs: Seq<SynNode>, k: int) {
    if 0 <= k < cs.len() {
        lemma_child_size(cs, k);
    }
}

#[via_fn]
proof fn spec_match_scan_decreases(cs: Seq<SynNode>, k: int) {
    if 0 <= k < cs.len() {
        lemma_child_size(cs, k);
    }
}

#[via_fn]
proof fn spec_arms_decreases(cs: Seq<SynNode>, k: int) {
    if 0 <= k < cs.len() {
        lemma_child_size(cs, k);
    }
}

fn path_type_paths(node: &SynNode) -> (res: Vec<(String, TextRange)>)
    ensures
        res.deep_view() == spec_path_type(*node),
    decreases syn_size(*node), 0int, 0nat,
{
    proof {
        assert(syn_size(*node) == 1 + syn_size_many(node.children@, 0));
    }
    let (res, _cur) = pt_paths(&node.children, 0, String::new());
    res
}

fn pt_paths(cs: &Vec<SynNode>, k: usize, cur: String) -> (res: (Vec<(String, TextRange)>, String))
    requires
        k <= cs@.len(),
    ensures
        res.0.deep_view() == spec_pt_paths(cs@, k as int, cur@).0,
        res.1@ == spec_pt_paths(cs@, k as int, cur@).1,
    decreases syn_size_many(cs@, k as int), 1int, 0nat,
{
    if k >= cs.len() {
        let out: Vec<(String, TextRange)> = Vec::new();
        proof {
            assert(out.deep_view() =~= spec_pt_paths(cs@, k as int, cur@).0);
        }
        return (out, cur);
    }
    proof {
        lemma_child_size(cs@, k as int);
    }
    let c = &cs[k];
    if c.kind == SynKind::Path {
        let (mut o1, cur1) = pt_inner(&c.children, 0, cur);
        let (mut o2, cur2) = pt_paths(cs, k + 1, cur1);
        let ghost d1 = o1.deep_view();
        let ghost d2 = o2.deep_view();
        o1.append(&mut o2);
        proof {
            assert(o1.deep_view() =~= d1 + d2);
        }
        (o1, cur2)
    } else {
        pt_paths(cs, k + 1, cur)
    }
}

fn pt_inner(cs: &Vec<SynNode>, k: usize, cur: String) -> (res: (Vec<(String, TextRange)>, String))
    requires
        k <= cs@.len(),
    ensures
        res.0.deep_view() == spec_pt_inner(cs@, k as int, cur@).0,
        res.1@ == spec_pt_inner(cs@, k as int, cur@).1,
    decreases syn_size_many(cs@, k as int), 1int, 0nat,
{
    if k >= cs.len() {
        let out: Vec<(String, TextRange)> = Vec::new();
        proof {
            assert(out.deep_view() =~= spec_pt_inner(cs@, k as int, cur@).0);
        }
        return (out, cur);
    }
    proof {
        lemma_child_size(cs@, k as int);
    }
    let c = &cs[k];
    if c.kind == SynKind::Path {
        pt_inner(cs, k + 1, c.text.clone())
    } else if c.kind == SynKind::PathSegment {
        let mut o1 = pt_segment(&c.children, 0, &cur);
        let (mut o2, cur2) = pt_inner(cs, k + 1, cur);
        let ghost d1 = o1.deep_view();
        let ghost d2 = o2.deep_view();
        o1.append(&mut o2);
        proof {
            assert(o1.deep_view() =~= d1 + d2);
        }
        (o1, cur2)
    } else {
        pt_inner(cs, k + 1, cur)
    }
}

fn pt_segment(cs: &Vec<SynNode>, k: usize, cur: &String) -> (res: Vec<(String, TextRange)>)
    requires
        k <= cs@.len(),
    ensures
        res.deep_view() == spec_pt_segment(cs@, k as int, cur@),
    decreases syn_size_many(cs@, k as int), 1int, 0nat,
{
    if k >= cs.len() {
        let out: Vec<(String, TextRange)> = Vec::new();
        proof {
            assert(out.deep_view() =~= spec_pt_segment(cs@, k as int, cur@));
        }
        return out;
    }
    proof {
        lemma_child_size(cs@, k as int);
    }
    let c = &cs[k];
    let mut head: Vec<(String, TextRange)> = Vec::new();
    if c.kind == SynKind::NameRef {
        if cur.as_str().is_empty() {
            head.push((c.text.clone(), c.range));
            proof {
                assert(head.deep_view() =~= seq![(c.text@, c.range)]);
            }
        } else {
            let mut joined = cur.clone();
            joined.append("::");
            joined.append(c.text.as_str());
            proof {
                assert(joined@ =~= cur@ + "::"@ + c.text@);
            }
            head.push((joined, c.range));
            proof {
                assert(head.deep_view() =~= seq![(cur@ + "::"@ + c.text@, c.range)]);
            }
        }
    } else if c.kind == SynKind::GenericArgList {
        head = pt_generics(&c.children, 0);
    } else {
        proof {
            assert(head.deep_view() =~= Seq::<(Seq<char>, TextRange)>::empty());
        }
    }
    let mut tail = pt_segment(cs, k + 1, cur);
    let ghost d1 = head.deep_view();
    let ghost d2 = tail.deep_view();
    head.append(&mut tail);
    proof {
        assert(head.deep_view() =~= d1 + d2);
    }
    head
}

fn pt_generics(cs: &Vec<SynNode>, k: usize) -> (res: Vec<(String, TextRange)>)
    requires
        k <= cs@.len(),
    ensures
        res.deep_view() == spec_pt_generics(cs@, k as int),
    decreases syn_size_many(cs@, k as int), 1int, 0nat,
{
    if k >= cs.len() {
        let out: Vec<(String, TextRange)> = Vec::new();
        proof {
            assert(out.deep_view() =~= spec_pt_generics(cs@, k as int));
        }
        return out;
    }
    proof {
        lemma_child_size(cs@, k as int);
    }
    let c = &cs[k];
    let mut head: Vec<(String, TextRange)> = Vec::new();
    if c.kind == SynKind::TypeArg {
        head = pt_type_arg(&c.children, 0);
    } else {
        proof {
            assert(head.deep_view() =~= Seq::<(Seq<char>, TextRange)>::empty());
        }
    }
    let mut tail = pt_generics(cs, k + 1);
    let ghost d1 = head.deep_view();
    let ghost d2 = tail.deep_view();
    head.append(&mut tail);
    proof {
        assert(head.deep_view() =~= d1 + d2);
    }
    head
}

fn pt_type_arg(cs: &Vec<SynNode>, k: usize) -> (res: Vec<(String, TextRange)>)
    requires
        k <= cs@.len(),
    ensures
        res.deep_view() == spec_pt_type_arg(cs@, k as int),
    decreases syn_size_many(cs@, k as int), 1int, 0nat,
{
    if k >= cs.len() {
        let out: Vec<(String, TextRange)> = Vec::new();
        proof {
            assert(out.deep_view() =~= spec_pt_type_arg(cs@, k as int));
        }
        return out;
    }
    proof {
        lemma_child_size(cs@, k as int);
    }
    let c = &cs[k];
    let mut head: Vec<(String, TextRange)> = Vec::new();
    if c.kind == SynKind::PathType || c.kind == SynKind::TupleType {
        head = nested_tuple_type_paths(c);
    } else {
        proof {
            assert(head.deep_view() =~= Seq::<(Seq<char>, TextRange)>::empty());
        }
    }
    let mut tail = pt_type_arg(cs, k + 1);
    let ghost d1 = head.deep_view();
    let ghost d2 = tail.deep_view();
    head.append(&mut tail);
    proof {
        assert(head.deep_view() =~= d1 + d2);
    }
    head
}

fn nested_tuple_type_paths(node: &SynNode) -> (res: Vec<(String, TextRange)>)
    ensures
        res.deep_view() == spec_nested_tuple_type(*node),
    decreases syn_size(*node), 0int, 1nat,
{
    proof {
        assert(syn_size(*node) == 1 + syn_size_many(node.children@, 0));
    }
    if node.kind == SynKind::TupleType || node.kind == SynKind::SliceType || node.kind
        == SynKind::ParenType || node.kind == SynKind::RefType || node.kind == SynKind::TuplePat
        || node.kind == SynKind::ImplTraitType || node.kind == SynKind::TypeBoundList || node.kind
        == SynKind::TypeBound {
        ntt_children(&node.children, 0)
    } else if node.kind == SynKind::PathType {
        path_type_paths(node)
    } else {
        let out: Vec<(String, TextRange)> = Vec::new();
        proof {
            assert(out.deep_view() =~= spec_nested_tuple_type(*node));
        }
        out
    }
}

fn ntt_children(cs: &Vec<SynNode>, k: usize) -> (res: Vec<(String, TextRange)>)
    requires
        k <= cs@.len(),
    ensures
        res.deep_view() == spec_ntt_children(cs@, k as int),
    decreases syn_size_many(cs@, k as int), 1int, 0nat,
{
    if k >= cs.len() {
        let out: Vec<(String, TextRange)> = Vec::new();
        proof {
            assert(out.deep_view() =~= spec_ntt_children(cs@, k as int));
        }
        return out;
    }
    proof {
        lemma_child_size(cs@, k as int);
    }
    let mut head = nested_tuple_type_paths(&cs[k]);
    let mut tail = ntt_children(cs, k + 1);
    let ghost d1 = head.deep_view();
    let ghost d2 = tail.deep_view();
    head.append(&mut tail);
    proof {
        assert(head.deep_view() =~= d1 + d2);
    }
    head
}

fn field_list_paths(node: &SynNode) -> (res: Vec<(String, TextRange)>)
    ensures
        res.deep_view() == spec_field_list(*node),
    decreases syn_size(*node), 0int, 1nat,
{
    proof {
        assert(syn_size(*node) == 1 + syn_size_many(node.children@, 0));
    }
    fl_children(&node.children, 0)
}

fn fl_children(cs: &Vec<SynNode>, k: usize) -> (res: Vec<(String, TextRange)>)
    requires
        k <= cs@.len(),
    ensures
        res.deep_view() == spec_fl_children(cs@, k as int),
    decreases syn_size_many(cs@, k as int), 1int, 0nat,
{
    if k >= cs.len() {
        let out: Vec<(String, TextRange)> = Vec::new();
        proof {
            assert(out.deep_view() =~= spec_fl_children(cs@, k as int));
        }
        return out;
    }
    proof {
        lemma_child_size(cs@, k as int);
    }
    let mut head = ntt_children(&cs[k].children, 0);
    let mut tail = fl_children(cs, k + 1);
    let ghost d1 = head.deep_view();
    let ghost d2 = tail.deep_view();
    head.append(&mut tail);
    proof {
        assert(head.deep_view() =~= d1 + d2);
    }
    head
}

fn assoc_item_paths(node: &SynNode) -> (res: Vec<(String, TextRange)>)
    ensures
        res.deep_view() == spec_assoc_items(*node),
    decreases syn_size(*node), 0int, 1nat,
{
    proof {
        assert(syn_size(*node) == 1 + syn_size_many(node.children@, 0));
    }
    ai_items(&node.children, 0)
}

fn ai_items(cs: &Vec<SynNode>, k: usize) -> (res: Vec<(String, TextRange)>)
    requires
        k <= cs@.len(),
    ensures
        res.deep_view() == spec_ai_items(cs@, k as int),
    decreases syn_size_many(cs@, k as int), 1int, 0nat,
{
    if k >= cs.len() {
        let out: Vec<(String, TextRange)> = Vec::new();
        proof {
            assert(out.deep_view() =~= spec_ai_items(cs@, k as int));
        }
        return out;
    }
    proof {
        lemma_child_size(cs@, k as int);
    }
    let mut head = ai_parts(&cs[k].children, 0);
    let mut tail = ai_items(cs, k + 1);
    let ghost d1 = head.deep_view();
    let ghost d2 = tail.deep_view();
    head.append(&mut tail);
    proof {
        assert(head.deep_view() =~= d1 + d2);
    }
    head
}

fn ai_parts(cs: &Vec<SynNode>, k: usize) -> (res: Vec<(String, TextRange)>)
    requires
        k <= cs@.len(),
    ensures
        res.deep_view() == spec_ai_parts(cs@, k as int),
    decreases syn_size_many(cs@, k as int), 1int, 0nat,
{
    if k >= cs.len() {
        let out: Vec<(String, TextRange)> = Vec::new();
        proof {
            assert(out.deep_view() =~= spec_ai_parts(cs@, k as int));
        }
        return out;
    }
    proof {
        lemma_child_size(cs@, k as int);
    }
    let c = &cs[k];
    let mut head: Vec<(String, TextRange)> = Vec::new();
    if c.kind == SynKind::ParamList {
        head = field_list_paths(c);
    } else if c.kind == SynKind::RetType {
        head = ret_type_paths(&c.children, 0);
    } else {
        proof {
            assert(head.deep_view() =~= Seq::<(Seq<char>, TextRange)>::empty());
        }
    }
    let mut tail = ai_parts(cs, k + 1);
    let ghost d1 = head.deep_view();
    let ghost d2 = tail.deep_view();
    head.append(&mut tail);
    proof {
        assert(head.deep_view() =~= d1 + d2);
    }
    head
}

fn ret_type_paths(cs: &Vec<SynNode>, k: usize) -> (res: Vec<(String, TextRange)>)
    requires
        k <= cs@.len(),
    ensures
        res.deep_view() == spec_ret_type(cs@, k as int),
    decreases syn_size_many(cs@, k as int), 1int, 0nat,
{
    if k >= cs.len() {
        let out: Vec<(String, TextRange)> = Vec::new();
        proof {
            assert(out.deep_view() =~= spec_ret_type(cs@, k as int));
        }
        return out;
    }
    proof {
        lemma_child_size(cs@, k as int);
    }
    let c = &cs[k];
    let mut head: Vec<(String, TextRange)> = Vec::new();
    if c.kind == SynKind::PathType {
        head = path_type_paths(c);
    } else {
        proof {
            assert(head.deep_view() =~= Seq::<(Seq<char>, TextRange)>::empty());
        }
    }
    let mut tail = ret_type_paths(cs, k + 1);
    let ghost d1 = head.deep_view();
    let ghost d2 = tail.deep_view();
    head.append(&mut tail);
    proof {
        assert(head.deep_view() =~= d1 + d2);
    }
    head
}

fn use_tree_paths(node: &SynNode) -> (res: Vec<(String, TextRange)>)
    ensures
        res.deep_view() == spec_use_tree(*node),
    decreases syn_size(*node), 0int, 1nat,
{
    proof {
        assert(syn_size(*node) == 1 + syn_size_many(node.children@, 0));
    }
    let (o, prefix, prange) = ut_scan(&node.children, 0, String::new(), TextRange { start: 0, end: 0 });
    if o.len() == 0 {
        proof {
            assert(o.deep_view().len() == 0);
        }
        let mut out: Vec<(String, TextRange)> = Vec::new();
        out.push((prefix, prange));
        proof {
            assert(out.deep_view() =~= spec_use_tree(*node));
        }
        out
    } else {
        proof {
            assert(o.deep_view().len() > 0);
        }
        o
    }
}

fn ut_scan(cs: &Vec<SynNode>, k: usize, prefix: String, prange: TextRange) -> (res: (
    Vec<(String, TextRange)>,
    String,
    TextRange,
))
    requires
        k <= cs@.len(),
    ensures
        res.0.deep_view() == spec_ut_scan(cs@, k as int, prefix@, prange).0,
        res.1@ == spec_ut_scan(cs@, k as int, prefix@, prange).1,
        res.2 == spec_ut_scan(cs@, k as int, prefix@, prange).2,
    decreases syn_size_many(cs@, k as int), 1int, 0nat,
{
    if k >= cs.len() {
        let out: Vec<(String, TextRange)> = Vec::new();
        proof {
            assert(out.deep_view() =~= spec_ut_scan(cs@, k as int, prefix@, prange).0);
        }
        return (out, prefix, prange);
    }
    proof {
        lemma_child_size(cs@, k as int);
    }
    let c = &cs[k];
    if c.kind == SynKind::Path {
        ut_scan(cs, k + 1, c.text.clone(), c.range)
    } else if c.kind == SynKind::UseTreeList {
        let mut inner = ut_list(&c.children, 0, &prefix, c.range);
        let (mut o2, p2, r2) = ut_scan(cs, k + 1, prefix, prange);
        let ghost d1 = inner.deep_view();
        let ghost d2 = o2.deep_view();
        inner.append(&mut o2);
        proof {
            assert(inner.deep_view() =~= d1 + d2);
        }
        (inner, p2, r2)
    } else {
        ut_scan(cs, k + 1, prefix, prange)
    }
}

fn ut_list(cs: &Vec<SynNode>, k: usize, prefix: &String, lrange: TextRange) -> (res: Vec<
    (String, TextRange),
>)
    requires
        k <= cs@.len(),
    ensures
        res.deep_view() == spec_ut_list(cs@, k as int, prefix@, lrange),
    decreases syn_size_many(cs@, k as int), 1int, 0nat,
{
    if k >= cs.len() {
        let out: Vec<(String, TextRange)> = Vec::new();
        proof {
            assert(out.deep_view() =~= spec_ut_list(cs@, k as int, prefix@, lrange));
        }
        return out;
    }
    proof {
        lemma_child_size(cs@, k as int);
    }
    let inner = use_tree_paths(&cs[k]);
    let ghost innerd = inner.deep_view();
    let ghost f = |p: (Seq<char>, TextRange)| (prefix@ + "::"@ + p.0, lrange);
    let mut head: Vec<(String, TextRange)> = Vec::new();
    let mut m: usize = 0;
    proof {
        assert(head.deep_view() =~= innerd.subrange(0, 0).map_values(f));
    }
    while m < inner.len()
        invariant
            innerd == inner.deep_view(),
            innerd.len() == inner@.len(),
            m <= inner@.len(),
            f == (|p: (Seq<char>, TextRange)| (prefix@ + "::"@ + p.0, lrange)),
            head.deep_view() == innerd.subrange(0, m as int).map_values(f),
        decreases inner@.len() - m,
    {
        proof {
            assert(innerd[m as int] == (inner@[m as int].0@, inner@[m as int].1));
        }
        let mut joined = prefix.clone();
        joined.append("::");
        joined.append(inner[m].0.as_str());
        proof {
            assert(joined@ =~= prefix@ + "::"@ + innerd[m as int].0);
        }
        let ghost pre = head.deep_view();
        head.push((joined, lrange));
        proof {
            assert(head.deep_view() =~= pre.push(f(innerd[m as int])));
            assert(innerd.subrange(0, m as int + 1).map_values(f) =~= innerd.subrange(
                0,
                m as int,
            ).map_values(f).push(f(innerd[m as int])));
        }
        m = m + 1;
    }
    proof {
        assert(innerd.subrange(0, m as int) =~= innerd);
    }
    let mut tail = ut_list(cs, k + 1, prefix, lrange);
    let ghost d1 = head.deep_view();
    let ghost d2 = tail.deep_view();
    head.append(&mut tail);
    proof {
        assert(head.deep_view() =~= d1 + d2);
    }
    head
}

fn use_is_pub(cs: &Vec<SynNode>) -> (res: bool)
    ensures
        res == spec_use_is_pub(cs@),
{
    let mut j: usize = 0;
    while j < cs.len()
        invariant
            j <= cs@.len(),
            forall|k: int| 0 <= k < j ==> (#[trigger] cs@[k]).kind != SynKind::Visibility,
        decreases cs@.len() - j,
    {
        if cs[j].kind == SynKind::Visibility {
            return true;
        }
        j = j + 1;
    }
    false
}

fn use_paths(cs: &Vec<SynNode>, k: usize) -> (res: Vec<(String, TextRange)>)
    requires
        k <= cs@.len(),
    ensures
        res.deep_view() == spec_use_paths(cs@, k as int),
    decreases syn_size_many(cs@, k as int), 1int, 0nat,
{
    if k >= cs.len() {
        let out: Vec<(String, TextRange)> = Vec::new();
        proof {
            assert(out.deep_view() =~= spec_use_paths(cs@, k as int));
        }
        return out;
    }
    proof {
        lemma_child_size(cs@, k as int);
    }
    let c = &cs[k];
    let mut head: Vec<(String, TextRange)> = Vec::new();
    if c.kind == SynKind::UseTree {
        if crate::paths::is_wildcard_path(c.text.as_str()) {
            head.push((c.text.clone(), c.range));
            proof {
                assert(head.deep_view() =~= seq![(c.text@, c.range)]);
            }
        } else {
            head = use_tree_paths(c);
        }
    } else {
        proof {
            assert(head.deep_view() =~= Seq::<(Seq<char>, TextRange)>::empty());
        }
    }
    let mut tail = use_paths(cs, k + 1);
    let ghost d1 = head.deep_view();
    let ghost d2 = tail.deep_view();
    head.append(&mut tail);
    proof {
        assert(head.deep_view() =~= d1 + d2);
    }
    head
}

/// Builds one implicit-use object per extracted path.
fn implicit_uses(paths: Vec<(String, TextRange)>, visible: bool) -> (res: Vec<UsableObject>)
    ensures
        res.deep_view() == spec_implicit_uses(paths.deep_view(), visible),
{
    let ghost pathsd = paths.deep_view();
    let ghost f = |p: (Seq<char>, TextRange)|
        SpecObject { visible, object_type: ObjectType::ImplicitUse, path: p.0, range: p.1 };
    let mut out: Vec<UsableObject> = Vec::new();
    let mut m: usize = 0;
    proof {
        assert(out.deep_view() =~= pathsd.subrange(0, 0).map_values(f));
    }
    while m < paths.len()
        invariant
            pathsd == paths.deep_view(),
            pathsd.len() == paths@.len(),
            m <= paths@.len(),
            f == (|p: (Seq<char>, TextRange)|
                SpecObject { visible, object_type: ObjectType::ImplicitUse, path: p.0, range: p.1 }),
            out.deep_view() == pathsd.subrange(0, m as int).map_values(f),
        decreases paths@.len() - m,
    {
        proof {
            assert(pathsd[m as int] == (paths@[m as int].0@, paths@[m as int].1));
        }
        let ghost pre = out.deep_view();
        out.push(
            UsableObject {
                visible,
                object_type: ObjectType::ImplicitUse,
                object_path: paths[m].0.clone(),
                text_range: paths[m].1,
            },
        );
        proof {
            assert(out.deep_view() =~= pre.push(f(pathsd[m as int])));
            assert(pathsd.subrange(0, m as int + 1).map_values(f) =~= pathsd.subrange(
                0,
                m as int,
            ).map_values(f).push(f(pathsd[m as int])));
        }
        m = m + 1;
    }
    proof {
        assert(pathsd.subrange(0, m as int) =~= pathsd);
    }
    out
}

/// Builds the objects of a `use` item.
fn use_objects(node: &SynNode) -> (res: Vec<UsableObject>)
    ensures
        res.deep_view() == spec_use_objects(*node),
    decreases syn_size(*node), 1int, 0nat,
{
    proof {
        assert(syn_size(*node) == 1 + syn_size_many(node.children@, 0));
    }
    let is_pub = use_is_pub(&node.children);
    let paths = use_paths(&node.children, 0);
    let ghost pathsd = paths.deep_view();
    let ghost f = |p: (Seq<char>, TextRange)|
        SpecObject {
            visible: is_pub,
            object_type: if is_pub {
                ObjectType::RePublish
            } else {
                ObjectType::Use
            },
            path: p.0,
            range: p.1,
        };
    let object_type = if is_pub {
        ObjectType::RePublish
    } else {
        ObjectType::Use
    };
    let mut out: Vec<UsableObject> = Vec::new();
    let mut m: usize = 0;
    proof {
        assert(out.deep_view() =~= pathsd.subrange(0, 0).map_values(f));
    }
    while m < paths.len()
        invariant
            pathsd == paths.deep_view(),
            pathsd.len() == paths@.len(),
            m <= paths@.len(),
            object_type == (if is_pub {
                ObjectType::RePublish
            } else {
                ObjectType::Use
            }),
            f == (|p: (Seq<char>, TextRange)|
                SpecObject {
                    visible: is_pub,
                    object_type: if is_pub {
                        ObjectType::RePublish
                    } else {
                        ObjectType::Use
                    },
                    path: p.0,
                    range: p.1,
                }),
            out.deep_view() == pathsd.subrange(0, m as int).map_values(f),
        decreases paths@.len() - m,
    {
        proof {
            assert(pathsd[m as int] == (paths@[m as int].0@, paths@[m as int].1));
        }
        let ghost pre = out.deep_view();
        out.push(
            UsableObject {
                visible: is_pub,
                object_type,
                object_path: paths[m].0.clone(),
                text_range: paths[m].1,
            },
        );
        proof {
            assert(out.deep_view() =~= pre.push(f(pathsd[m as int])));
            assert(pathsd.subrange(0, m as int + 1).map_values(f) =~= pathsd.subrange(
                0,
                m as int,
            ).map_values(f).push(f(pathsd[m as int])));
        }
        m = m + 1;
    }
    proof {
        assert(pathsd.subrange(0, m as int) =~= pathsd);
    }
    out
}

fn first_kind(cs: &Vec<SynNode>, k: usize, kind: SynKind) -> (res: Option<usize>)
    requires
        k <= cs@.len(),
    ensures
        match res {
            Some(l) => spec_first_kind(cs@, k as int, kind) == Some(l as int) && l < cs@.len(),
            None => spec_first_kind(cs@, k as int, kind) is None,
        },
    decreases cs@.len() - k,
{
    if k >= cs.len() {
        return None;
    }
    if cs[k].kind == kind {
        Some(k)
    } else {
        first_kind(cs, k + 1, kind)
    }
}

/// Everything one item node contributes: fresh vectors of usable objects and
/// bodyless module names.
fn extract_node(node: &SynNode) -> (res: (Vec<UsableObject>, Vec<String>))
    ensures
        res.0.deep_view() == spec_extract(*node).0,
        res.1.deep_view() == spec_extract(*node).1,
    decreases syn_size(*node), 3int, 0nat,
{
    proof {
        assert(syn_size(*node) == 1 + syn_size_many(node.children@, 0));
    }
    let empty_refs: Vec<String> = Vec::new();
    proof {
        assert(empty_refs.deep_view() =~= Seq::<Seq<char>>::empty());
    }
    match node.kind {
        SynKind::Use => (use_objects(node), empty_refs),
        SynKind::Struct => (struct_scan(&node.children, 0, false), empty_refs),
        SynKind::Enum => (enum_scan(&node.children, 0, false), empty_refs),
        SynKind::Fn => fn_scan(&node.children, 0, false),
        SynKind::Trait => (trait_scan(&node.children, 0, false), empty_refs),
        SynKind::Impl => (impl_scan(&node.children, 0), empty_refs),
        SynKind::PathExpr => (implicit_uses(path_type_paths(node), false), empty_refs),
        SynKind::TupleStructPat => (implicit_uses(path_type_paths(node), false), empty_refs),
        SynKind::ParamList => (implicit_uses(field_list_paths(node), false), empty_refs),
        SynKind::TupleType => (implicit_uses(nested_tuple_type_paths(node), false), empty_refs),
        SynKind::PathType => (implicit_uses(nested_tuple_type_paths(node), false), empty_refs),
        SynKind::TuplePat => (implicit_uses(nested_tuple_type_paths(node), false), empty_refs),
        SynKind::Module => {
            let empty_objs: Vec<UsableObject> = Vec::new();
            proof {
                assert(empty_objs.deep_view() =~= Seq::<SpecObject>::empty());
            }
            let has_body = match first_kind(&node.children, 0, SynKind::ItemList) {
                Some(_) => true,
                None => false,
            };
            let mut refs: Vec<String> = Vec::new();
            if !has_body {
                match first_kind(&node.children, 0, SynKind::Name) {
                    Some(n) => {
                        refs.push(node.children[n].text.clone());
                        proof {
                            assert(refs.deep_view() =~= seq![node.children@[n as int].text@]);
                        }
                    },
                    None => {
                        proof {
                            assert(refs.deep_view() =~= Seq::<Seq<char>>::empty());
                        }
                    },
                }
            } else {
                proof {
                    assert(refs.deep_view() =~= Seq::<Seq<char>>::empty());
                }
            }
            (empty_objs, refs)
        },
        SynKind::MatchExpr => match_scan(&node.children, 0),
        SynKind::NameRef => children_extract(&node.children, 0),
        SynKind::RefType => children_extract(&node.children, 0),
        SynKind::BlockExpr => children_extract(&node.children, 0),
        SynKind::OtherExpr => children_extract(&node.children, 0),
        _ => {
            let empty_objs: Vec<UsableObject> = Vec::new();
            proof {
                assert(empty_objs.deep_view() =~= Seq::<SpecObject>::empty());
            }
            (empty_objs, empty_refs)
        },
    }
}

fn children_extract(cs: &Vec<SynNode>, k: usize) -> (res: (Vec<UsableObject>, Vec<String>))
    requires
        k <= cs@.len(),
    ensures
        res.0.deep_view() == spec_children_extract(cs@, k as int).0,
        res.1.deep_view() == spec_children_extract(cs@, k as int).1,
    decreases syn_size_many(cs@, k as int), 4int, 0nat,
{
    if k >= cs.len() {
        let o: Vec<UsableObject> = Vec::new();
        let r: Vec<String> = Vec::new();
        proof {
            assert(o.deep_view() =~= spec_children_extract(cs@, k as int).0);
            assert(r.deep_view() =~= spec_children_extract(cs@, k as int).1);
        }
        return (o, r);
    }
    proof {
        lemma_child_size(cs@, k as int);
    }
    let (mut o1, mut r1) = extract_node(&cs[k]);
    let (mut o2, mut r2) = children_extract(cs, k + 1);
    let ghost od1 = o1.deep_view();
    let ghost od2 = o2.deep_view();
    let ghost rd1 = r1.deep_view();
    let ghost rd2 = r2.deep_view();
    o1.append(&mut o2);
    r1.append(&mut r2);
    proof {
        assert(o1.deep_view() =~= od1 + od2);
        assert(r1.deep_view() =~= rd1 + rd2);
    }
    (o1, r1)
}

fn struct_scan(cs: &Vec<SynNode>, k: usize, is_pub: bool) -> (res: Vec<UsableObject>)
    requires
        k <= cs@.len(),
    ensures
        res.deep_view() == spec_struct_scan(cs@, k as int, is_pub),
    decreases syn_size_many(cs@, k as int), 4int, 0nat,
{
    if k >= cs.len() {
        let out: Vec<UsableObject> = Vec::new();
        proof {
            assert(out.deep_view() =~= spec_struct_scan(cs@, k as int, is_pub));
        }
        return out;
    }
    proof {
        lemma_child_size(cs@, k as int);
    }
    let c = &cs[k];
    if c.kind == SynKind::Visibility {
        return struct_scan(cs, k + 1, true);
    }
    let mut head: Vec<UsableObject> = Vec::new();
    if c.kind == SynKind::Name {
        head.push(
            UsableObject {
                visible: is_pub,
                object_type: ObjectType::Struct,
                object_path: c.text.clone(),
                text_range: c.range,
            },
        );
        proof {
            assert(head.deep_view() =~= seq![
                SpecObject {
                    visible: is_pub,
                    object_type: ObjectType::Struct,
                    path: c.text@,
                    range: c.range,
                },
            ]);
        }
    } else if c.kind == SynKind::RecordFieldList {
        head = implicit_uses(field_list_paths(c), is_pub);
    } else {
        proof {
            assert(head.deep_view() =~= Seq::<SpecObject>::empty());
        }
    }
    let mut tail = struct_scan(cs, k + 1, is_pub);
    let ghost d1 = head.deep_view();
    let ghost d2 = tail.deep_view();
    head.append(&mut tail);
    proof {
        assert(head.deep_view() =~= d1 + d2);
    }
    head
}

fn enum_scan(cs: &Vec<SynNode>, k: usize, is_pub: bool) -> (res: Vec<UsableObject>)
    requires
        k <= cs@.len(),
    ensures
        res.deep_view() == spec_enum_scan(cs@, k as int, is_pub),
    decreases syn_size_many(cs@, k as int), 4int, 0nat,
{
    if k >= cs.len() {
        let out: Vec<UsableObject> = Vec::new();
        proof {
            assert(out.deep_view() =~= spec_enum_scan(cs@, k as int, is_pub));
        }
        return out;
    }
    proof {
        lemma_child_size(cs@, k as int);
    }
    let c = &cs[k];
    if c.kind == SynKind::Visibility {
        return enum_scan(cs, k + 1, true);
    }
    let mut head: Vec<UsableObject> = Vec::new();
    if c.kind == SynKind::Name {
        head.push(
            UsableObject {
                visible: is_pub,
                object_type: ObjectType::Enum,
                object_path: c.text.clone(),
                text_range: c.range,
            },
        );
        proof {
            assert(head.deep_view() =~= seq![
                SpecObject {
                    visible: is_pub,
                    object_type: ObjectType::Enum,
                    path: c.text@,
                    range: c.range,
                },
            ]);
        }
    } else if c.kind == SynKind::VariantList {
        head = variants(&c.children, 0, is_pub);
    } else {
        proof {
            assert(head.deep_view() =~= Seq::<SpecObject>::empty());
        }
    }
    let mut tail = enum_scan(cs, k + 1, is_pub);
    let ghost d1 = head.deep_view();
    let ghost d2 = tail.deep_view();
    head.append(&mut tail);
    proof {
        assert(head.deep_view() =~= d1 + d2);
    }
    head
}

fn variants(cs: &Vec<SynNode>, k: usize, is_pub: bool) -> (res: Vec<UsableObject>)
    requires
        k <= cs@.len(),
    ensures
        res.deep_view() == spec_variants(cs@, k as int, is_pub),
    decreases syn_size_many(cs@, k as int), 4int, 0nat,
{
    if k >= cs.len() {
        let out: Vec<UsableObject> = Vec::new();
        proof {
            assert(out.deep_view() =~= spec_variants(cs@, k as int, is_pub));
        }
        return out;
    }
    proof {
        lemma_child_size(cs@, k as int);
    }
    let mut head = variant_args(&cs[k].children, 0, is_pub);
    let mut tail = variants(cs, k + 1, is_pub);
    let ghost d1 = head.deep_view();
    let ghost d2 = tail.deep_view();
    head.append(&mut tail);
    proof {
        assert(head.deep_view() =~= d1 + d2);
    }
    head
}

fn variant_args(cs: &Vec<SynNode>, k: usize, is_pub: bool) -> (res: Vec<UsableObject>)
    requires
        k <= cs@.len(),
    ensures
        res.deep_view() == spec_variant_args(cs@, k as int, is_pub),
    decreases syn_size_many(cs@, k as int), 4int, 0nat,
{
    if k >= cs.len() {
        let out: Vec<UsableObject> = Vec::new();
        proof {
            assert(out.deep_view() =~= spec_variant_args(cs@, k as int, is_pub));
        }
        return out;
    }
    proof {
        lemma_child_size(cs@, k as int);
    }
    let c = &cs[k];
    let mut head: Vec<UsableObject> = Vec::new();
    if c.kind == SynKind::TupleFieldList || c.kind == SynKind::RecordFieldList {
        head = implicit_uses(field_list_paths(c), is_pub);
    } else {
        proof {
            assert(head.deep_view() =~= Seq::<SpecObject>::empty());
        }
    }
    let mut tail = variant_args(cs, k + 1, is_pub);
    let ghost d1 = head.deep_view();
    let ghost d2 = tail.deep_view();
    head.append(&mut tail);
    proof {
        assert(head.deep_view() =~= d1 + d2);
    }
    head
}

fn fn_scan(cs: &Vec<SynNode>, k: usize, is_pub: bool) -> (res: (Vec<UsableObject>, Vec<String>))
    requires
        k <= cs@.len(),
    ensures
        res.0.deep_view() == spec_fn_scan(cs@, k as int, is_pub).0,
        res.1.deep_view() == spec_fn_scan(cs@, k as int, is_pub).1,
    decreases syn_size_many(cs@, k as int), 4int, 0nat,
{
    if k >= cs.len() {
        let o: Vec<UsableObject> = Vec::new();
        let r: Vec<String> = Vec::new();
        proof {
            assert(o.deep_view() =~= spec_fn_scan(cs@, k as int, is_pub).0);
            assert(r.deep_view() =~= spec_fn_scan(cs@, k as int, is_pub).1);
        }
        return (o, r);
    }
    proof {
        lemma_child_size(cs@, k as int);
    }
    let c = &cs[k];
    if c.kind == SynKind::Visibility {
        return fn_scan(cs, k + 1, true);
    }
    let mut head: Vec<UsableObject> = Vec::new();
    let mut head_refs: Vec<String> = Vec::new();
    proof {
        assert(head_refs.deep_view() =~= Seq::<Seq<char>>::empty());
    }
    if c.kind == SynKind::Name {
        head.push(
            UsableObject {
                visible: is_pub,
                object_type: ObjectType::Function,
                object_path: c.text.clone(),
                text_range: c.range,
            },
        );
        proof {
            assert(head.deep_view() =~= seq![
                SpecObject {
                    visible: is_pub,
                    object_type: ObjectType::Function,
                    path: c.text@,
                    range: c.range,
                },
            ]);
        }
    } else if c.kind == SynKind::ParamList {
        head = implicit_uses(field_list_paths(c), is_pub);
    } else if c.kind == SynKind::RetType {
        head = implicit_uses(ret_type_paths(&c.children, 0), is_pub);
    } else if c.kind == SynKind::BlockExpr {
        let (o, r) = extract_node(c);
        head = o;
        head_refs = r;
    } else {
        proof {
            assert(head.deep_view() =~= Seq::<SpecObject>::empty());
        }
    }
    let (mut o2, mut r2) = fn_scan(cs, k + 1, is_pub);
    let ghost d1 = head.deep_view();
    let ghost d2 = o2.deep_view();
    let ghost rd1 = head_refs.deep_view();
    let ghost rd2 = r2.deep_view();
    head.append(&mut o2);
    head_refs.append(&mut r2);
    proof {
        assert(head.deep_view() =~= d1 + d2);
        assert(head_refs.deep_view() =~= rd1 + rd2);
    }
    (head, head_refs)
}

fn trait_scan(cs: &Vec<SynNode>, k: usize, is_pub: bool) -> (res: Vec<UsableObject>)
    requires
        k <= cs@.len(),
    ensures
        res.deep_view() == spec_trait_scan(cs@, k as int, is_pub),
    decreases syn_size_many(cs@, k as int), 4int, 0nat,
{
    if k >= cs.len() {
        let out: Vec<UsableObject> = Vec::new();
        proof {
            assert(out.deep_view() =~= spec_trait_scan(cs@, k as int, is_pub));
        }
        return out;
    }
    proof {
        lemma_child_size(cs@, k as int);
    }
    let c = &cs[k];
    if c.kind == SynKind::Visibility {
        return trait_scan(cs, k + 1, true);
    }
    let mut head: Vec<UsableObject> = Vec::new();
    if c.kind == SynKind::Name {
        head.push(
            UsableObject {
                visible: is_pub,
                object_type: ObjectType::Trait,
                object_path: c.text.clone(),
                text_range: c.range,
            },
        );
        proof {
            assert(head.deep_view() =~= seq![
                SpecObject {
                    visible: is_pub,
                    object_type: ObjectType::Trait,
                    path: c.text@,
                    range: c.range,
                },
            ]);
        }
    } else if c.kind == SynKind::AssocItemList {
        head = implicit_uses(assoc_item_paths(c), is_pub);
    } else {
        proof {
            assert(head.deep_view() =~= Seq::<SpecObject>::empty());
        }
    }
    let mut tail = trait_scan(cs, k + 1, is_pub);
    let ghost d1 = head.deep_view();
    let ghost d2 = tail.deep_view();
    head.append(&mut tail);
    proof {
        assert(head.deep_view() =~= d1 + d2);
    }
    head
}

fn impl_scan(cs: &Vec<SynNode>, k: usize) -> (res: Vec<UsableObject>)
    requires
        k <= cs@.len(),
    ensures
        res.deep_view() == spec_impl_scan(cs@, k as int),
    decreases syn_size_many(cs@, k as int), 4int, 0nat,
{
    if k >= cs.len() {
        let out: Vec<UsableObject> = Vec::new();
        proof {
            assert(out.deep_view() =~= spec_impl_scan(cs@, k as int));
        }
        return out;
    }
    proof {
        lemma_child_size(cs@, k as int);
    }
    let c = &cs[k];
    let mut head: Vec<UsableObject> = Vec::new();
    if c.kind == SynKind::PathType {
        head = implicit_uses(path_type_paths(c), false);
    } else if c.kind == SynKind::AssocItemList {
        head = implicit_uses(assoc_item_paths(c), false);
    } else {
        proof {
            assert(head.deep_view() =~= Seq::<SpecObject>::empty());
        }
    }
    let mut tail = impl_scan(cs, k + 1);
    let ghost d1 = head.deep_view();
    let ghost d2 = tail.deep_view();
    head.append(&mut tail);
    proof {
        assert(head.deep_view() =~= d1 + d2);
    }
    head
}

fn match_scan(cs: &Vec<SynNode>, k: usize) -> (res: (Vec<UsableObject>, Vec<String>))
    requires
        k <= cs@.len(),
    ensures
        res.0.deep_view() == spec_match_scan(cs@, k as int).0,
        res.1.deep_view() == spec_match_scan(cs@, k as int).1,
    decreases syn_size_many(cs@, k as int), 4int, 0nat,
{
    if k >= cs.len() {
        let o: Vec<UsableObject> = Vec::new();
        let r: Vec<String> = Vec::new();
        proof {
            assert(o.deep_view() =~= spec_match_scan(cs@, k as int).0);
            assert(r.deep_view() =~= spec_match_scan(cs@, k as int).1);
        }
        return (o, r);
    }
    proof {
        lemma_child_size(cs@, k as int);
    }
    let c = &cs[k];
    let mut head: Vec<UsableObject> = Vec::new();
    let mut head_refs: Vec<String> = Vec::new();
    if c.kind == SynKind::MatchArmList {
        let (o, r) = arms(&c.children, 0);
        head = o;
        head_refs = r;
    } else {
        proof {
            assert(head.deep_view() =~= Seq::<SpecObject>::empty());
            assert(head_refs.deep_view() =~= Seq::<Seq<char>>::empty());
        }
    }
    let (mut o2, mut r2) = match_scan(cs, k + 1);
    let ghost d1 = head.deep_view();
    let ghost d2 = o2.deep_view();
    let ghost rd1 = head_refs.deep_view();
    let ghost rd2 = r2.deep_view();
    head.append(&mut o2);
    head_refs.append(&mut r2);
    proof {
        assert(head.deep_view() =~= d1 + d2);
        assert(head_refs.deep_view() =~= rd1 + rd2);
    }
    (head, head_refs)
}

fn arms(cs: &Vec<SynNode>, k: usize) -> (res: (Vec<UsableObject>, Vec<String>))
    requires
        k <= cs@.len(),
    ensures
        res.0.deep_view() == spec_arms(cs@, k as int).0,
        res.1.deep_view() == spec_arms(cs@, k as int).1,
    decreases syn_size_many(cs@, k as int), 4int, 0nat,
{
    if k >= cs.len() {
        let o: Vec<UsableObject> = Vec::new();
        let r: Vec<String> = Vec::new();
        proof {
            assert(o.deep_view() =~= spec_arms(cs@, k as int).0);
            assert(r.deep_view() =~= spec_arms(cs@, k as int).1);
        }
        return (o, r);
    }
    proof {
        lemma_child_size(cs@, k as int);
    }
    let (mut o1, mut r1) = children_extract(&cs[k].children, 0);
    let (mut o2, mut r2) = arms(cs, k + 1);
    let ghost od1 = o1.deep_view();
    let ghost od2 = o2.deep_view();
    let ghost rd1 = r1.deep_view();
    let ghost rd2 = r2.deep_view();
    o1.append(&mut o2);
    r1.append(&mut r2);
    proof {
        assert(o1.deep_view() =~= od1 + od2);
        assert(r1.deep_view() =~= rd1 + rd2);
    }
    (o1, r1)
}

/// The module-reference pairs for the given names, all owned by one node.
pub open spec fn spec_pair_refs(names: Seq<Seq<char>>, idx: usize) -> Seq<(usize, Seq<char>)> {
    names.map_values(|n: Seq<char>| (idx, n))
}

/// Lowers one item node: appends its usable objects and its bodyless module
/// references, and hands back the item list and name of an inline module, to
/// be built as a module of its own.
pub fn extract_item<'a>(
    node: &'a SynNode,
    current_index: usize,
    usable_objects: &mut Vec<UsableObject>,
    module_references: &mut Vec<(usize, String)>,
) -> (res: Option<(&'a Vec<SynNode>, String)>)
    ensures
        final(usable_objects).deep_view() == old(usable_objects).deep_view() + spec_extract(
            *node,
        ).0,
        final(module_references).deep_view() == old(module_references).deep_view() + spec_pair_refs(
            spec_extract(*node).1,
            current_index,
        ),
        match res {
            Some(pair) => exists|l: int|
                spec_inline_module(*node) == Some((l, pair.1@)) && 0 <= l < node.children@.len()
                    && pair.0@ == (#[trigger] node.children@[l]).children@,
            None => spec_inline_module(*node) is None,
        },
{
    let (mut objs, refs) = extract_node(node);
    let ghost objsd = objs.deep_view();
    let ghost refsd = refs.deep_view();
    let ghost pre_objs = usable_objects.deep_view();
    usable_objects.append(&mut objs);
    proof {
        assert(usable_objects.deep_view() =~= pre_objs + objsd);
    }
    let ghost pre_refs = module_references.deep_view();
    let ghost g = |n: Seq<char>| (current_index, n);
    let mut m: usize = 0;
    proof {
        assert(module_references.deep_view() =~= pre_refs + refsd.subrange(0, 0).map_values(g));
    }
    while m < refs.len()
        invariant
            refsd == refs.deep_view(),
            refsd.len() == refs@.len(),
            m <= refs@.len(),
            g == (|n: Seq<char>| (current_index, n)),
            module_references.deep_view() == pre_refs + refsd.subrange(0, m as int).map_values(g),
        decreases refs@.len() - m,
    {
        proof {
            assert(refsd[m as int] == refs@[m as int]@);
        }
        let ghost pre = module_references.deep_view();
        module_references.push((current_index, refs[m].clone()));
        proof {
            assert(module_references.deep_view() =~= pre.push(g(refsd[m as int])));
            assert(refsd.subrange(0, m as int + 1).map_values(g) =~= refsd.subrange(
                0,
                m as int,
            ).map_values(g).push(g(refsd[m as int])));
        }
        m = m + 1;
    }
    proof {
        assert(refsd.subrange(0, m as int) =~= refsd);
    }
    if node.kind == SynKind::Module {
        match first_kind(&node.children, 0, SynKind::ItemList) {
            Some(l) => {
                match first_kind(&node.children, 0, SynKind::Name) {
                    Some(n) => {
                        let name = node.children[n].text.clone();
                        return Some((&node.children[l].children, name));
                    },
                    None => {
                        return None;
                    },
                }
            },
            None => {
                return None;
            },
        }
    }
    None
}

} // verus!

//! Use-relation resolution: mapping each raw textual path of a module to the
//! node of the tree that owns the referenced definition or re-export, or
//! discarding it as external.
//!
//! A path is tried in this order: a leading `crate`, `self` or `super`
//! segment is rewritten to an absolute path; an absolute path is looked up
//! directly, then relative to the owning module, then relative to the root;
//! failing that, visible import aliases of the owner and its ancestors are
//! substituted for the leading segment. A wildcard import resolves to every
//! public definition or re-export of the module it names.

use vstd::prelude::*;
use crate::node::{ModuleNode, SpecNode, node_wf_at, spec_chain, tree_view, tree_wf};
use crate::objects::{SpecObject, SpecRelation, UsableObject, UseRelation};
use crate::paths::{spec_split, split_path, str_eq, is_wildcard_path};
use crate::tree::{
    PossibleUse, SpecPossible, entry_valid, lemma_lookup_from_is_entry, lemma_possible_uses_valid,
    lookup_possible_use, node_chain, spec_is_wildcard, spec_lookup, spec_possible_uses,
};

verus! {

/// Whether the leading segment is a relativity keyword.
pub open spec fn spec_is_relative(segs: Seq<Seq<char>>) -> bool {
    segs.len() > 0 && (segs[0] == "crate"@ || segs[0] == "self"@ || segs[0] == "super"@)
}

/// Rewrites a leading `crate`, `self` or `super` segment into the absolute
/// path it stands for; any other path is returned unchanged. A `super` at the
/// root stays at the root.
pub open spec fn spec_rewrite(tree: Seq<SpecNode>, owner: int, segs: Seq<Seq<char>>) -> Seq<
    Seq<char>,
> {
    if segs.len() == 0 {
        segs
    } else if segs[0] == "crate"@ {
        spec_chain(tree, 0) + segs.skip(1)
    } else if segs[0] == "self"@ {
        spec_chain(tree, owner) + segs.skip(1)
    } else if segs[0] == "super"@ {
        (match tree[owner].parent_index {
            Some(p) => spec_chain(tree, p),
            None => spec_chain(tree, owner),
        }) + segs.skip(1)
    } else {
        segs
    }
}

/// Scans the objects of node `n` from position `k` for a visible import whose
/// last segment equals `first`, and resolves `first`'s path with that import
/// substituted for the leading segment.
pub open spec fn spec_prefix_resolve_at(
    tree: Seq<SpecNode>,
    n: int,
    k: int,
    first: Seq<char>,
    rest: Seq<Seq<char>>,
) -> Option<(int, SpecObject)>
    decreases tree[n].usable_objects.len() - k,
{
    if 0 <= n < tree.len() && 0 <= k < tree[n].usable_objects.len() {
        let u = tree[n].usable_objects[k];
        if u.object_type.is_explicit_use() && !spec_is_wildcard(u.path) && spec_split(
            u.path,
        ).last() == first {
            let base = spec_rewrite(tree, n, spec_split(u.path));
            match spec_lookup(spec_possible_uses(tree), tree, base + rest) {
                Some(e) => Some((e.node_index, e.object)),
                None => spec_prefix_resolve_at(tree, n, k + 1, first, rest),
            }
        } else {
            spec_prefix_resolve_at(tree, n, k + 1, first, rest)
        }
    } else {
        None
    }
}

/// Prefix resolution over the owner's scope: the owner itself, then its
/// ancestors in order.
pub open spec fn spec_prefix_resolve(
    tree: Seq<SpecNode>,
    n: int,
    first: Seq<char>,
    rest: Seq<Seq<char>>,
) -> Option<(int, SpecObject)>
    decreases n,
{
    if 0 <= n < tree.len() {
        match spec_prefix_resolve_at(tree, n, 0, first, rest) {
            Some(r) => Some(r),
            None => match tree[n].parent_index {
                Some(p) => if 0 <= p < n {
                    spec_prefix_resolve(tree, p, first, rest)
                } else {
                    None
                },
                None => None,
            },
        }
    } else {
        None
    }
}

/// The node, if any, a lookup of `key` in the index leads to.
pub open spec fn spec_lookup_hit(tree: Seq<SpecNode>, key: Seq<Seq<char>>) -> Option<
    (int, SpecObject),
> {
    match spec_lookup(spec_possible_uses(tree), tree, key) {
        Some(e) => Some((e.node_index, e.object)),
        None => None,
    }
}

/// Resolves one non-wildcard textual path of node `owner` to the definition
/// or re-export it names, or `None` when it is external.
pub open spec fn spec_resolve(tree: Seq<SpecNode>, owner: int, path: Seq<char>) -> Option<
    (int, SpecObject),
> {
    let segs = spec_split(path);
    if spec_is_relative(segs) {
        match spec_lookup_hit(tree, spec_rewrite(tree, owner, segs)) {
            Some(r) => Some(r),
            None => spec_prefix_resolve(tree, owner, segs[0], segs.skip(1)),
        }
    } else {
        match spec_lookup_hit(tree, segs) {
            Some(r) => Some(r),
            None => match spec_lookup_hit(tree, spec_chain(tree, owner) + segs) {
                Some(r) => Some(r),
                None => match spec_lookup_hit(tree, spec_chain(tree, 0) + segs) {
                    Some(r) => Some(r),
                    None => spec_prefix_resolve(tree, owner, segs[0], segs.skip(1)),
                },
            },
        }
    }
}

/// The first node whose name chain equals `key`, scanning from `i`.
pub open spec fn spec_find_module_from(tree: Seq<SpecNode>, i: int, key: Seq<Seq<char>>) -> Option<
    int,
>
    decreases tree.len() - i,
{
    if 0 <= i < tree.len() {
        if spec_chain(tree, i) == key {
            Some(i)
        } else {
            spec_find_module_from(tree, i + 1, key)
        }
    } else {
        None
    }
}

/// The module node a wildcard import of node `owner` with segments `segs`
/// (the trailing `*` removed) points at.
pub open spec fn spec_wild_target(tree: Seq<SpecNode>, owner: int, segs: Seq<Seq<char>>) -> Option<
    int,
> {
    match spec_find_module_from(tree, 0, spec_rewrite(tree, owner, segs)) {
        Some(t) => Some(t),
        None => if !spec_is_relative(segs) {
            spec_find_module_from(tree, 0, spec_chain(tree, 0) + segs)
        } else {
            None
        },
    }
}

/// The relations a wildcard import of module `t` expands to: one per public
/// definition or re-export of `t`, scanning from object position `k`.
pub open spec fn spec_wild_relations_from(tree: Seq<SpecNode>, t: int, k: int) -> Seq<SpecRelation>
    decreases tree[t].usable_objects.len() - k,
{
    if 0 <= t < tree.len() && 0 <= k < tree[t].usable_objects.len() {
        let o = tree[t].usable_objects[k];
        (if o.visible && (o.object_type.is_definition() || o.object_type is RePublish) {
            seq![SpecRelation { owner_node_index: t, used_object: o }]
        } else {
            Seq::empty()
        }) + spec_wild_relations_from(tree, t, k + 1)
    } else {
        Seq::empty()
    }
}

/// The resolved use relations of node `owner`, from object position `k` on.
/// Explicit imports and re-exports are always resolved; implicit uses only
/// when `with_implicit` is set.
pub open spec fn spec_object_uses_from(
    tree: Seq<SpecNode>,
    owner: int,
    with_implicit: bool,
    k: int,
) -> Seq<SpecRelation>
    decreases tree[owner].usable_objects.len() - k,
{
    if 0 <= owner < tree.len() && 0 <= k < tree[owner].usable_objects.len() {
        let o = tree[owner].usable_objects[k];
        (if o.object_type.is_explicit_use() || (with_implicit && o.object_type is ImplicitUse) {
            if spec_is_wildcard(o.path) {
                match spec_wild_target(tree, owner, spec_split(o.path).drop_last()) {
                    Some(t) => spec_wild_relations_from(tree, t, 0),
                    None => Seq::empty(),
                }
            } else {
                match spec_resolve(tree, owner, o.path) {
                    Some((n, obj)) => seq![
                        SpecRelation { owner_node_index: n, used_object: obj },
                    ],
                    None => Seq::empty(),
                }
            }
        } else {
            Seq::empty()
        }) + spec_object_uses_from(tree, owner, with_implicit, k + 1)
    } else {
        Seq::empty()
    }
}

/// The resolved use relations of node `owner`, in the order of its usable
/// objects.
pub open spec fn spec_object_uses(tree: Seq<SpecNode>, owner: int, with_implicit: bool) -> Seq<
    SpecRelation,
> {
    spec_object_uses_from(tree, owner, with_implicit, 0)
}

/// What resolution guarantees of a hit: the node index is in range, and the
/// object is a definition or re-export the node really lists.
pub open spec fn hit_valid(tree: Seq<SpecNode>, r: Option<(int, SpecObject)>) -> bool {
    match r {
        Some((n, o)) => 0 <= n < tree.len() && tree[n].usable_objects.contains(o)
            && (o.object_type.is_definition() || o.object_type is RePublish),
        None => true,
    }
}

pub proof fn lemma_lookup_hit_valid(tree: Seq<SpecNode>, key: Seq<Seq<char>>)
    ensures
        hit_valid(tree, spec_lookup_hit(tree, key)),
{
    let pus = spec_possible_uses(tree);
    match spec_lookup(pus, tree, key) {
        Some(e) => {
            lemma_possible_uses_valid(tree);
            lemma_lookup_from_is_entry(pus, tree, key, 0, None);
            let j = choose|j: int| 0 <= j < pus.len() && pus[j] == e;
            assert(entry_valid(tree, pus[j]));
        },
        None => {},
    }
}

proof fn lemma_prefix_resolve_at_valid(
    tree: Seq<SpecNode>,
    n: int,
    k: int,
    first: Seq<char>,
    rest: Seq<Seq<char>>,
)
    ensures
        hit_valid(tree, spec_prefix_resolve_at(tree, n, k, first, rest)),
    decreases tree[n].usable_objects.len() - k,
{
    if 0 <= n < tree.len() && 0 <= k < tree[n].usable_objects.len() {
        let u = tree[n].usable_objects[k];
        if u.object_type.is_explicit_use() && !spec_is_wildcard(u.path) && spec_split(
            u.path,
        ).last() == first {
            let base = spec_rewrite(tree, n, spec_split(u.path));
            lemma_lookup_hit_valid(tree, base + rest);
            lemma_prefix_resolve_at_valid(tree, n, k + 1, first, rest);
        } else {
            lemma_prefix_resolve_at_valid(tree, n, k + 1, first, rest);
        }
    }
}

proof fn lemma_prefix_resolve_valid(
    tree: Seq<SpecNode>,
    n: int,
    first: Seq<char>,
    rest: Seq<Seq<char>>,
)
    ensures
        hit_valid(tree, spec_prefix_resolve(tree, n, first, rest)),
    decreases n,
{
    if 0 <= n < tree.len() {
        lemma_prefix_resolve_at_valid(tree, n, 0, first, rest);
        match tree[n].parent_index {
            Some(p) => if 0 <= p < n {
                lemma_prefix_resolve_valid(tree, p, first, rest);
            },
            None => {},
        }
    }
}

/// A resolved path always leads to a definition or re-export entry of the
/// node it names.
pub proof fn lemma_resolve_valid(tree: Seq<SpecNode>, owner: int, path: Seq<char>)
    ensures
        hit_valid(tree, spec_resolve(tree, owner, path)),
{
    let segs = spec_split(path);
    lemma_lookup_hit_valid(tree, spec_rewrite(tree, owner, segs));
    lemma_lookup_hit_valid(tree, segs);
    lemma_lookup_hit_valid(tree, spec_chain(tree, owner) + segs);
    lemma_lookup_hit_valid(tree, spec_chain(tree, 0) + segs);
    lemma_prefix_resolve_valid(tree, owner, segs[0], segs.skip(1));
}

proof fn lemma_find_module_from_valid(tree: Seq<SpecNode>, i: int, key: Seq<Seq<char>>)
    ensures
        match spec_find_module_from(tree, i, key) {
            Some(t) => 0 <= t < tree.len(),
            None => true,
        },
    decreases tree.len() - i,
{
    if 0 <= i < tree.len() {
        if spec_chain(tree, i) == key {
        } else {
            lemma_find_module_from_valid(tree, i + 1, key);
        }
    }
}

/// A relation is valid for the tree: its node index is in range and its used
/// object is a definition or re-export entry that the node really lists.
pub open spec fn relation_valid(tree: Seq<SpecNode>, rel: SpecRelation) -> bool {
    &&& 0 <= rel.owner_node_index < tree.len()
    &&& tree[rel.owner_node_index].usable_objects.contains(rel.used_object)
    &&& (rel.used_object.object_type.is_definition() || rel.used_object.object_type is RePublish)
}

proof fn lemma_wild_relations_valid(tree: Seq<SpecNode>, t: int, k: int)
    requires
        0 <= t < tree.len(),
    ensures
        forall|j: int|
            0 <= j < spec_wild_relations_from(tree, t, k).len() ==> relation_valid(
                tree,
                #[trigger] spec_wild_relations_from(tree, t, k)[j],
            ),
    decreases tree[t].usable_objects.len() - k,
{
    if 0 <= k < tree[t].usable_objects.len() {
        lemma_wild_relations_valid(tree, t, k + 1);
        let o = tree[t].usable_objects[k];
        let here = if o.visible && (o.object_type.is_definition() || o.object_type is RePublish) {
            seq![SpecRelation { owner_node_index: t, used_object: o }]
        } else {
            Seq::<SpecRelation>::empty()
        };
        let rest = spec_wild_relations_from(tree, t, k + 1);
        assert(tree[t].usable_objects.contains(o));
        assert forall|j: int| 0 <= j < spec_wild_relations_from(tree, t, k).len() implies
            relation_valid(tree, #[trigger] spec_wild_relations_from(tree, t, k)[j]) by {
            if j < here.len() {
                assert(spec_wild_relations_from(tree, t, k)[j] == here[j]);
            } else {
                assert(spec_wild_relations_from(tree, t, k)[j] == rest[j - here.len()]);
            }
        }
    }
}

proof fn lemma_object_uses_from_valid(tree: Seq<SpecNode>, owner: int, with_implicit: bool, k: int)
    ensures
        forall|j: int|
            0 <= j < spec_object_uses_from(tree, owner, with_implicit, k).len() ==> relation_valid(
                tree,
                #[trigger] spec_object_uses_from(tree, owner, with_implicit, k)[j],
            ),
    decreases tree[owner].usable_objects.len() - k,
{
    if 0 <= owner < tree.len() && 0 <= k < tree[owner].usable_objects.len() {
        lemma_object_uses_from_valid(tree, owner, with_implicit, k + 1);
        let o = tree[owner].usable_objects[k];
        let here = if o.object_type.is_explicit_use() || (with_implicit
            && o.object_type is ImplicitUse) {
            if spec_is_wildcard(o.path) {
                match spec_wild_target(tree, owner, spec_split(o.path).drop_last()) {
                    Some(t) => spec_wild_relations_from(tree, t, 0),
                    None => Seq::<SpecRelation>::empty(),
                }
            } else {
                match spec_resolve(tree, owner, o.path) {
                    Some((n, obj)) => seq![SpecRelation { owner_node_index: n, used_object: obj }],
                    None => Seq::<SpecRelation>::empty(),
                }
            }
        } else {
            Seq::<SpecRelation>::empty()
        };
        let rest = spec_object_uses_from(tree, owner, with_implicit, k + 1);
        if o.object_type.is_explicit_use() || (with_implicit && o.object_type is ImplicitUse) {
            if spec_is_wildcard(o.path) {
                match spec_wild_target(tree, owner, spec_split(o.path).drop_last()) {
                    Some(t) => {
                        lemma_wild_target_valid(tree, owner, spec_split(o.path).drop_last());
                        lemma_wild_relations_valid(tree, t, 0);
                    },
                    None => {},
                }
            } else {
                lemma_resolve_valid(tree, owner, o.path);
            }
        }
        assert forall|j: int|
            0 <= j < spec_object_uses_from(tree, owner, with_implicit, k).len() implies
            relation_valid(tree, #[trigger] spec_object_uses_from(tree, owner, with_implicit, k)[j])
        by {
            if j < here.len() {
                assert(spec_object_uses_from(tree, owner, with_implicit, k)[j] == here[j]);
            } else {
                assert(spec_object_uses_from(tree, owner, with_implicit, k)[j] == rest[j
                    - here.len()]);
            }
        }
    }
}

proof fn lemma_wild_target_valid(tree: Seq<SpecNode>, owner: int, segs: Seq<Seq<char>>)
    ensures
        match spec_wild_target(tree, owner, segs) {
            Some(t) => 0 <= t < tree.len(),
            None => true,
        },
{
    lemma_find_module_from_valid(tree, 0, spec_rewrite(tree, owner, segs));
    lemma_find_module_from_valid(tree, 0, spec_chain(tree, 0) + segs);
}

/// Every use relation the resolver produces points at a definition or
/// re-export entry that the owning node really lists.
pub proof fn lemma_object_uses_valid(tree: Seq<SpecNode>, owner: int, with_implicit: bool)
    ensures
        forall|j: int|
            0 <= j < spec_object_uses(tree, owner, with_implicit).len() ==> relation_valid(
                tree,
                #[trigger] spec_object_uses(tree, owner, with_implicit)[j],
            ),
{
    lemma_object_uses_from_valid(tree, owner, with_implicit, 0);
}

/// Appends clones of `segs[from..]` to `out`.
fn push_tail(out: &mut Vec<String>, segs: &Vec<String>, from: usize)
    requires
        from <= segs@.len(),
    ensures
        final(out).deep_view() == old(out).deep_view() + segs.deep_view().skip(from as int),
{
    let ghost base = out.deep_view();
    let mut j = from;
    proof {
        assert(out.deep_view() =~= base + segs.deep_view().subrange(from as int, from as int));
    }
    while j < segs.len()
        invariant
            from <= j <= segs@.len(),
            out.deep_view() == base + segs.deep_view().subrange(from as int, j as int),
        decreases segs@.len() - j,
    {
        let ghost pre = out.deep_view();
        out.push(segs[j].clone());
        proof {
            assert(out.deep_view() =~= pre.push(segs.deep_view()[j as int]));
            assert(segs.deep_view().subrange(from as int, j as int + 1) =~= segs.deep_view()
                .subrange(from as int, j as int).push(segs.deep_view()[j as int]));
            assert(out.deep_view() =~= base + segs.deep_view().subrange(from as int, j as int + 1));
        }
        j = j + 1;
    }
    proof {
        assert(segs.deep_view().subrange(from as int, segs@.len() as int) =~= segs.deep_view()
            .skip(from as int));
    }
}

/// Whether the leading segment is `crate`, `self` or `super`.
fn is_relative(segs: &Vec<String>) -> (res: bool)
    ensures
        res == spec_is_relative(segs.deep_view()),
{
    if segs.len() == 0 {
        return false;
    }
    proof {
        assert(segs.deep_view()[0] == segs@[0]@);
    }
    let first = segs[0].as_str();
    str_eq(first, "crate") || str_eq(first, "self") || str_eq(first, "super")
}

/// Rewrites a leading relativity keyword into the absolute path it stands
/// for.
fn rewrite_segs(tree: &Vec<ModuleNode>, owner: usize, segs: &Vec<String>) -> (res: Vec<String>)
    requires
        tree_wf(tree_view(tree@)),
        tree@.len() > 0,
        owner < tree@.len(),
    ensures
        res.deep_view() == spec_rewrite(tree_view(tree@), owner as int, segs.deep_view()),
{
    let ghost tv = tree_view(tree@);
    if segs.len() == 0 {
        return crate::tree::clone_string_vec(segs);
    }
    proof {
        assert(segs.deep_view()[0] == segs@[0]@);
    }
    let first = segs[0].as_str();
    if str_eq(first, "crate") {
        let mut v = node_chain(tree, 0);
        push_tail(&mut v, segs, 1);
        v
    } else if str_eq(first, "self") {
        let mut v = node_chain(tree, owner);
        push_tail(&mut v, segs, 1);
        v
    } else if str_eq(first, "super") {
        proof {
            assert(node_wf_at(tv, owner as int));
        }
        let mut v = match tree[owner].parent_index {
            Some(p) => node_chain(tree, p),
            None => node_chain(tree, owner),
        };
        push_tail(&mut v, segs, 1);
        v
    } else {
        crate::tree::clone_string_vec(segs)
    }
}

/// Looks an absolute key up in the index, returning the owning node and a
/// copy of the object found.
fn lookup_hit(tree: &Vec<ModuleNode>, pus: &Vec<PossibleUse>, key: &Vec<String>) -> (res: Option<
    (usize, UsableObject),
>)
    requires
        tree_wf(tree_view(tree@)),
        pus.deep_view() == spec_possible_uses(tree_view(tree@)),
    ensures
        match res {
            Some((n, o)) => spec_lookup_hit(tree_view(tree@), key.deep_view()) == Some(
                ((n as int), o@),
            ) && n < tree@.len(),
            None => spec_lookup_hit(tree_view(tree@), key.deep_view()) is None,
        },
{
    let ghost tv = tree_view(tree@);
    proof {
        lemma_possible_uses_valid(tv);
    }
    match lookup_possible_use(pus, tree, key) {
        Some(e) => {
            proof {
                lemma_lookup_from_is_entry(pus.deep_view(), tv, key.deep_view(), 0, None);
                let j = choose|j: int| 0 <= j < pus.deep_view().len() && pus.deep_view()[j] == e@;
                assert(entry_valid(tv, pus.deep_view()[j]));
            }
            Some((e.node_index, e.object.clone()))
        },
        None => None,
    }
}

fn prefix_resolve_at(
    tree: &Vec<ModuleNode>,
    pus: &Vec<PossibleUse>,
    n: usize,
    k: usize,
    first: &String,
    rest: &Vec<String>,
) -> (res: Option<(usize, UsableObject)>)
    requires
        tree_wf(tree_view(tree@)),
        tree@.len() > 0,
        n < tree@.len(),
        pus.deep_view() == spec_possible_uses(tree_view(tree@)),
    ensures
        match res {
            Some((m, o)) => spec_prefix_resolve_at(
                tree_view(tree@),
                n as int,
                k as int,
                first@,
                rest.deep_view(),
            ) == Some(((m as int), o@)) && m < tree@.len(),
            None => spec_prefix_resolve_at(
                tree_view(tree@),
                n as int,
                k as int,
                first@,
                rest.deep_view(),
            ) is None,
        },
    decreases tree@[n as int]@.usable_objects.len() - k,
{
    let ghost tv = tree_view(tree@);
    if k >= tree[n].usable_objects.len() {
        return None;
    }
    let u = &tree[n].usable_objects[k];
    let ghost uo = tv[n as int].usable_objects[k as int];
    proof {
        assert(u@ == uo);
    }
    let is_explicit = match u.object_type {
        crate::objects::ObjectType::Use => true,
        crate::objects::ObjectType::RePublish => true,
        _ => false,
    };
    if is_explicit && !is_wildcard_path(u.object_path.as_str()) {
        let usegs = split_path(u.object_path.as_str());
        proof {
            assert(usegs.deep_view()[usegs@.len() - 1] == usegs@[usegs@.len() - 1]@);
        }
        if str_eq(usegs[usegs.len() - 1].as_str(), first.as_str()) {
            let mut full = rewrite_segs(tree, n, &usegs);
            let ghost base = full.deep_view();
            push_tail(&mut full, rest, 0);
            proof {
                assert(rest.deep_view().skip(0) =~= rest.deep_view());
                assert(full.deep_view() == base + rest.deep_view());
            }
            match lookup_hit(tree, pus, &full) {
                Some(r) => {
                    return Some(r);
                },
                None => {
                    return prefix_resolve_at(tree, pus, n, k + 1, first, rest);
                },
            }
        }
    }
    prefix_resolve_at(tree, pus, n, k + 1, first, rest)
}

fn prefix_resolve(
    tree: &Vec<ModuleNode>,
    pus: &Vec<PossibleUse>,
    n: usize,
    first: &String,
    rest: &Vec<String>,
) -> (res: Option<(usize, UsableObject)>)
    requires
        tree_wf(tree_view(tree@)),
        tree@.len() > 0,
        n < tree@.len(),
        pus.deep_view() == spec_possible_uses(tree_view(tree@)),
    ensures
        match res {
            Some((m, o)) => spec_prefix_resolve(tree_view(tree@), n as int, first@, rest.deep_view())
                == Some(((m as int), o@)) && m < tree@.len(),
            None => spec_prefix_resolve(tree_view(tree@), n as int, first@, rest.deep_view()) is None,
        },
    decreases n,
{
    let ghost tv = tree_view(tree@);
    match prefix_resolve_at(tree, pus, n, 0, first, rest) {
        Some(r) => Some(r),
        None => {
            proof {
                assert(node_wf_at(tv, n as int));
            }
            match tree[n].parent_index {
                Some(p) => prefix_resolve(tree, pus, p, first, rest),
                None => None,
            }
        },
    }
}

/// Resolves one non-wildcard textual path of node `owner`, returning the
/// owning node and a copy of the definition or re-export it names.
pub fn resolve_path(
    tree: &Vec<ModuleNode>,
    pus: &Vec<PossibleUse>,
    owner: usize,
    path: &str,
) -> (res: Option<(usize, UsableObject)>)
    requires
        tree_wf(tree_view(tree@)),
        tree@.len() > 0,
        owner < tree@.len(),
        pus.deep_view() == spec_possible_uses(tree_view(tree@)),
    ensures
        match res {
            Some((m, o)) => spec_resolve(tree_view(tree@), owner as int, path@) == Some(
                ((m as int), o@),
            ) && m < tree@.len(),
            None => spec_resolve(tree_view(tree@), owner as int, path@) is None,
        },
{
    let ghost tv = tree_view(tree@);
    let segs = split_path(path);
    proof {
        assert(segs.deep_view()[0] == segs@[0]@);
    }
    if is_relative(&segs) {
        let key = rewrite_segs(tree, owner, &segs);
        match lookup_hit(tree, pus, &key) {
            Some(r) => Some(r),
            None => {
                let first = segs[0].clone();
                let mut rest: Vec<String> = Vec::new();
                push_tail(&mut rest, &segs, 1);
                proof {
                    assert(rest.deep_view() =~= segs.deep_view().skip(1));
                }
                prefix_resolve(tree, pus, owner, &first, &rest)
            },
        }
    } else {
        match lookup_hit(tree, pus, &segs) {
            Some(r) => Some(r),
            None => {
                let mut key2 = node_chain(tree, owner);
                let ghost base2 = key2.deep_view();
                push_tail(&mut key2, &segs, 0);
                proof {
                    assert(segs.deep_view().skip(0) =~= segs.deep_view());
                    assert(key2.deep_view() == base2 + segs.deep_view());
                }
                match lookup_hit(tree, pus, &key2) {
                    Some(r) => Some(r),
                    None => {
                        let mut key3 = node_chain(tree, 0);
                        let ghost base3 = key3.deep_view();
                        push_tail(&mut key3, &segs, 0);
                        proof {
                            assert(segs.deep_view().skip(0) =~= segs.deep_view());
                            assert(key3.deep_view() == base3 + segs.deep_view());
                        }
                        match lookup_hit(tree, pus, &key3) {
                            Some(r) => Some(r),
                            None => {
                                let first = segs[0].clone();
                                let mut rest: Vec<String> = Vec::new();
                                push_tail(&mut rest, &segs, 1);
                                proof {
                                    assert(rest.deep_view() =~= segs.deep_view().skip(1));
                                }
                                prefix_resolve(tree, pus, owner, &first, &rest)
                            },
                        }
                    },
                }
            },
        }
    }
}

fn find_module_from(tree: &Vec<ModuleNode>, i: usize, key: &Vec<String>) -> (res: Option<usize>)
    requires
        tree_wf(tree_view(tree@)),
        i <= tree@.len(),
    ensures
        match res {
            Some(t) => spec_find_module_from(tree_view(tree@), i as int, key.deep_view()) == Some(
                t as int,
            ) && t < tree@.len(),
            None => spec_find_module_from(tree_view(tree@), i as int, key.deep_view()) is None,
        },
    decreases tree@.len() - i,
{
    let ghost tv = tree_view(tree@);
    if i >= tree.len() {
        return None;
    }
    let chain = node_chain(tree, i);
    if crate::tree::segs_eq(&chain, key) {
        Some(i)
    } else {
        find_module_from(tree, i + 1, key)
    }
}

fn wild_target(tree: &Vec<ModuleNode>, owner: usize, segs: &Vec<String>) -> (res: Option<usize>)
    requires
        tree_wf(tree_view(tree@)),
        tree@.len() > 0,
        owner < tree@.len(),
    ensures
        match res {
            Some(t) => spec_wild_target(tree_view(tree@), owner as int, segs.deep_view()) == Some(
                t as int,
            ) && t < tree@.len(),
            None => spec_wild_target(tree_view(tree@), owner as int, segs.deep_view()) is None,
        },
{
    let key = rewrite_segs(tree, owner, segs);
    match find_module_from(tree, 0, &key) {
        Some(t) => Some(t),
        None => {
            if !is_relative(segs) {
                let mut key2 = node_chain(tree, 0);
                let ghost base2 = key2.deep_view();
                push_tail(&mut key2, segs, 0);
                proof {
                    assert(segs.deep_view().skip(0) =~= segs.deep_view());
                    assert(key2.deep_view() == base2 + segs.deep_view());
                }
                find_module_from(tree, 0, &key2)
            } else {
                None
            }
        },
    }
}

fn wild_relations(tree: &Vec<ModuleNode>, t: usize, out: &mut Vec<UseRelation>)
    requires
        tree_wf(tree_view(tree@)),
        t < tree@.len(),
    ensures
        final(out).deep_view() == old(out).deep_view() + spec_wild_relations_from(
            tree_view(tree@),
            t as int,
            0,
        ),
{
    let ghost tv = tree_view(tree@);
    let ghost base = out.deep_view();
    let mut k: usize = 0;
    while k < tree[t].usable_objects.len()
        invariant
            tv == tree_view(tree@),
            tree_wf(tv),
            t < tree@.len(),
            k <= tree@[t as int]@.usable_objects.len(),
            base + spec_wild_relations_from(tv, t as int, 0) == out.deep_view()
                + spec_wild_relations_from(tv, t as int, k as int),
        decreases tree@[t as int]@.usable_objects.len() - k,
    {
        let o = &tree[t].usable_objects[k];
        let ghost ov = tv[t as int].usable_objects[k as int];
        proof {
            assert(o@ == ov);
        }
        let is_target = match o.object_type {
            crate::objects::ObjectType::Struct => true,
            crate::objects::ObjectType::Enum => true,
            crate::objects::ObjectType::Trait => true,
            crate::objects::ObjectType::Function => true,
            crate::objects::ObjectType::RePublish => true,
            _ => false,
        };
        let ghost pre = out.deep_view();
        if o.visible && is_target {
            out.push(UseRelation { owner_node_index: t, used_object: o.clone() });
            proof {
                assert(out.deep_view() =~= pre.push(
                    SpecRelation { owner_node_index: t as int, used_object: ov },
                ));
            }
        }
        proof {
            assert(spec_wild_relations_from(tv, t as int, k as int) == (if ov.visible
                && (ov.object_type.is_definition() || ov.object_type is RePublish) {
                seq![SpecRelation { owner_node_index: t as int, used_object: ov }]
            } else {
                Seq::<SpecRelation>::empty()
            }) + spec_wild_relations_from(tv, t as int, k as int + 1));
            assert(pre + spec_wild_relations_from(tv, t as int, k as int) =~= out.deep_view()
                + spec_wild_relations_from(tv, t as int, k as int + 1));
        }
        k = k + 1;
    }
    proof {
        assert(spec_wild_relations_from(tv, t as int, k as int) =~= Seq::<SpecRelation>::empty());
        assert(out.deep_view() + spec_wild_relations_from(tv, t as int, k as int) =~= out.deep_view());
    }
}

impl ModuleNode {
    /// The resolved use relations of this node: explicit imports and
    /// re-exports always, implicit uses when `include_non_transitive` is set.
    pub fn object_uses(
        &self,
        tree: &Vec<ModuleNode>,
        possible_uses: &Vec<PossibleUse>,
        include_non_transitive: bool,
    ) -> (res: Vec<UseRelation>)
        requires
            tree_wf(tree_view(tree@)),
            tree@.len() > 0,
            self@.index < tree@.len(),
            tree@[self@.index]@ == self@,
            possible_uses.deep_view() == spec_possible_uses(tree_view(tree@)),
        ensures
            res.deep_view() == spec_object_uses(
                tree_view(tree@),
                self@.index,
                include_non_transitive,
            ),
    {
        let ghost tv = tree_view(tree@);
        let ghost owner = self@.index;
        let mut out: Vec<UseRelation> = Vec::new();
        let mut k: usize = 0;
        proof {
            assert(out.deep_view() =~= Seq::<SpecRelation>::empty());
        }
        while k < tree[self.index].usable_objects.len()
            invariant
                tv == tree_view(tree@),
                tree_wf(tv),
                tree@.len() > 0,
                owner == self@.index as int,
                self@.index < tree@.len(),
                tree@[self@.index]@ == self@,
                possible_uses.deep_view() == spec_possible_uses(tv),
                k <= tv[owner].usable_objects.len(),
                spec_object_uses(tv, owner, include_non_transitive) == out.deep_view()
                    + spec_object_uses_from(tv, owner, include_non_transitive, k as int),
            decreases tv[owner].usable_objects.len() - k,
        {
            let o = &tree[self.index].usable_objects[k];
            let ghost ov = tv[owner].usable_objects[k as int];
            proof {
                assert(o@ == ov);
            }
            let considered = match o.object_type {
                crate::objects::ObjectType::Use => true,
                crate::objects::ObjectType::RePublish => true,
                crate::objects::ObjectType::ImplicitUse => include_non_transitive,
                _ => false,
            };
            let ghost pre = out.deep_view();
            if considered {
                if is_wildcard_path(o.object_path.as_str()) {
                    let mut msegs = split_path(o.object_path.as_str());
                    let ghost msegs_d = msegs.deep_view();
                    let _last = msegs.pop();
                    proof {
                        assert(msegs.deep_view() =~= spec_split(ov.path).drop_last());
                    }
                    match wild_target(tree, self.index, &msegs) {
                        Some(t) => {
                            wild_relations(tree, t, &mut out);
                            proof {
                                assert(out.deep_view() == pre + spec_wild_relations_from(
                                    tv,
                                    t as int,
                                    0,
                                ));
                            }
                        },
                        None => {},
                    }
                } else {
                    match resolve_path(tree, possible_uses, self.index, o.object_path.as_str()) {
                        Some((n, obj)) => {
                            let ghost objv = obj@;
                            out.push(UseRelation { owner_node_index: n, used_object: obj });
                            proof {
                                assert(out.deep_view() =~= pre.push(
                                    SpecRelation { owner_node_index: n as int, used_object: objv },
                                ));
                            }
                        },
                        None => {},
                    }
                }
            }
            proof {
                let here = if ov.object_type.is_explicit_use() || (include_non_transitive
                    && ov.object_type is ImplicitUse) {
                    if spec_is_wildcard(ov.path) {
                        match spec_wild_target(tv, owner, spec_split(ov.path).drop_last()) {
                            Some(t) => spec_wild_relations_from(tv, t, 0),
                            None => Seq::<SpecRelation>::empty(),
                        }
                    } else {
                        match spec_resolve(tv, owner, ov.path) {
                            Some((n, obj)) => seq![
                                SpecRelation { owner_node_index: n, used_object: obj },
                            ],
                            None => Seq::<SpecRelation>::empty(),
                        }
                    }
                } else {
                    Seq::<SpecRelation>::empty()
                };
                assert(spec_object_uses_from(tv, owner, include_non_transitive, k as int) == here
                    + spec_object_uses_from(tv, owner, include_non_transitive, k as int + 1));
                assert(out.deep_view() =~= pre + here);
                assert(pre + spec_object_uses_from(tv, owner, include_non_transitive, k as int)
                    =~= out.deep_view() + spec_object_uses_from(
                    tv,
                    owner,
                    include_non_transitive,
                    k as int + 1,
                ));
            }
            k = k + 1;
        }
        proof {
            assert(spec_object_uses_from(tv, owner, include_non_transitive, k as int)
                =~= Seq::<SpecRelation>::empty());
            assert(out.deep_view() + spec_object_uses_from(
                tv,
                owner,
                include_non_transitive,
                k as int,
            ) =~= out.deep_view());
        }
        out
    }
}

} // verus!

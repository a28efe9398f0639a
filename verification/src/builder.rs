//! Building the module-node arena from parsed files: one node per file or
//! inline sub-module, parents before children, well-formed at every step.

use vstd::prelude::*;
use crate::extract::{
    extract_item, lemma_child_size, lemma_inline_in_range, spec_extract, spec_inline_module,
};
use crate::node::{ModuleNode, SpecNode, node_wf_at, tree_view, tree_wf};
use crate::objects::{SpecObject, UsableObject};
use crate::syntax::{SynNode, syn_size, syn_size_many};
use crate::tree::ModuleTree;

verus! {

/// The usable objects of a file: what its items `cs[k..]` contribute, in
/// order.
pub open spec fn spec_file_objects(cs: Seq<SynNode>, k: int) -> Seq<SpecObject>
    decreases cs.len() - k,
{
    if 0 <= k < cs.len() {
        spec_extract(cs[k]).0 + spec_file_objects(cs, k + 1)
    } else {
        Seq::empty()
    }
}

/// The number of descendant module nodes the items `cs[k..]` produce: one per
/// inline module, plus that module's own descendants.
pub open spec fn spec_built_count(cs: Seq<SynNode>, k: int) -> nat
    decreases syn_size_many(cs, k), 5int, 0nat
    via spec_built_count_decreases
{
    if 0 <= k < cs.len() {
        (match spec_inline_module(cs[k]) {
            Some((l, _)) => if 0 <= l < cs[k].children@.len() {
                1 + spec_built_count(cs[k].children@[l].children@, 0)
            } else {
                0
            },
            None => 0,
        }) + spec_built_count(cs, k + 1)
    } else {
        0
    }
}

#[via_fn]
proof fn spec_built_count_decreases(cs: Seq<SynNode>, k: int) {
    if 0 <= k < cs.len() {
        lemma_child_size(cs, k);
        match spec_inline_module(cs[k]) {
            Some((l, _)) => {
                if 0 <= l < cs[k].children@.len() {
                    lemma_child_size(cs[k].children@, l);
                    lemma_size_many_mono(cs[k].children@, 0, l);
                }
            },
            None => {},
        }
    }
}

/// The indices the inline modules among `cs[k..]` receive, when the next
/// fresh index is `next`: each inline module takes `next` and advances it
/// past its own subtree.
pub open spec fn spec_child_indices(cs: Seq<SynNode>, k: int, next: int) -> Seq<int>
    decreases cs.len() - k,
{
    if 0 <= k < cs.len() {
        match spec_inline_module(cs[k]) {
            Some((l, _)) => if 0 <= l < cs[k].children@.len() {
                seq![next] + spec_child_indices(
                    cs,
                    k + 1,
                    next + 1 + spec_built_count(cs[k].children@[l].children@, 0),
                )
            } else {
                spec_child_indices(cs, k + 1, next)
            },
            None => spec_child_indices(cs, k + 1, next),
        }
    } else {
        Seq::empty()
    }
}

/// The nodes that lowering the items `cs` appends to the arena, starting at
/// index `base`: the module node itself, followed by the subtrees of its
/// inline modules in item order.
pub open spec fn spec_built_nodes(
    cs: Seq<SynNode>,
    fp: Seq<char>,
    level: int,
    parent: Option<int>,
    name: Seq<char>,
    base: int,
) -> Seq<SpecNode>
    decreases syn_size_many(cs, 0), 6int, 1nat
    via spec_built_nodes_decreases
{
    seq![
        SpecNode {
            index: base,
            file_path: fp,
            level,
            parent_index: parent,
            module_name: name,
            children: spec_child_indices(cs, 0, base + 1),
            usable_objects: spec_file_objects(cs, 0),
        },
    ] + spec_built_rest(cs, 0, fp, level, base, base + 1)
}

/// The descendant subtrees the items `cs[k..]` append, when the next fresh
/// index is `next` and the enclosing module sits at `parent_base`.
pub open spec fn spec_built_rest(
    cs: Seq<SynNode>,
    k: int,
    fp: Seq<char>,
    level: int,
    parent_base: int,
    next: int,
) -> Seq<SpecNode>
    decreases syn_size_many(cs, k), 6int, 0nat
    via spec_built_rest_decreases
{
    if 0 <= k < cs.len() {
        match spec_inline_module(cs[k]) {
            Some((l, iname)) => if 0 <= l < cs[k].children@.len() {
                spec_built_nodes(
                    cs[k].children@[l].children@,
                    fp,
                    level + 1,
                    Some(parent_base),
                    iname,
                    next,
                ) + spec_built_rest(
                    cs,
                    k + 1,
                    fp,
                    level,
                    parent_base,
                    next + 1 + spec_built_count(cs[k].children@[l].children@, 0),
                )
            } else {
                spec_built_rest(cs, k + 1, fp, level, parent_base, next)
            },
            None => spec_built_rest(cs, k + 1, fp, level, parent_base, next),
        }
    } else {
        Seq::empty()
    }
}

#[via_fn]
proof fn spec_built_nodes_decreases(
    cs: Seq<SynNode>,
    fp: Seq<char>,
    level: int,
    parent: Option<int>,
    name: Seq<char>,
    base: int,
) {
}

#[via_fn]
proof fn spec_built_rest_decreases(
    cs: Seq<SynNode>,
    k: int,
    fp: Seq<char>,
    level: int,
    parent_base: int,
    next: int,
) {
    if 0 <= k < cs.len() {
        lemma_child_size(cs, k);
        match spec_inline_module(cs[k]) {
            Some((l, _)) => {
                if 0 <= l < cs[k].children@.len() {
                    lemma_child_size(cs[k].children@, l);
                    lemma_size_many_mono(cs[k].children@, 0, l);
                }
            },
            None => {},
        }
    }
}

/// The appended descendants are exactly as many as `spec_built_count` says.
pub proof fn lemma_built_rest_len(
    cs: Seq<SynNode>,
    k: int,
    fp: Seq<char>,
    level: int,
    parent_base: int,
    next: int,
)
    ensures
        spec_built_rest(cs, k, fp, level, parent_base, next).len() == spec_built_count(cs, k),
    decreases syn_size_many(cs, k), 6int, 0nat,
{
    if 0 <= k < cs.len() {
        lemma_child_size(cs, k);
        match spec_inline_module(cs[k]) {
            Some((l, iname)) => {
                if 0 <= l < cs[k].children@.len() {
                    lemma_child_size(cs[k].children@, l);
                    lemma_size_many_mono(cs[k].children@, 0, l);
                    lemma_built_nodes_len(
                        cs[k].children@[l].children@,
                        fp,
                        level + 1,
                        Some(parent_base),
                        iname,
                        next,
                    );
                    lemma_built_rest_len(
                        cs,
                        k + 1,
                        fp,
                        level,
                        parent_base,
                        next + 1 + spec_built_count(cs[k].children@[l].children@, 0),
                    );
                } else {
                    lemma_built_rest_len(cs, k + 1, fp, level, parent_base, next);
                }
            },
            None => {
                lemma_built_rest_len(cs, k + 1, fp, level, parent_base, next);
            },
        }
    }
}

/// Lowering items appends one node plus `spec_built_count` descendants.
pub proof fn lemma_built_nodes_len(
    cs: Seq<SynNode>,
    fp: Seq<char>,
    level: int,
    parent: Option<int>,
    name: Seq<char>,
    base: int,
)
    ensures
        spec_built_nodes(cs, fp, level, parent, name, base).len() == 1 + spec_built_count(cs, 0),
    decreases syn_size_many(cs, 0), 6int, 1nat,
{
    lemma_built_rest_len(cs, 0, fp, level, base, base + 1);
}

/// An empty file yields exactly a one-node subtree: no descendants, no
/// children, no usable objects.
pub proof fn lemma_empty_file_one_node(
    fp: Seq<char>,
    level: int,
    parent: Option<int>,
    name: Seq<char>,
    base: int,
)
    ensures
        spec_built_count(Seq::<SynNode>::empty(), 0) == 0,
        spec_built_nodes(Seq::<SynNode>::empty(), fp, level, parent, name, base) =~= seq![
            SpecNode {
                index: base,
                file_path: fp,
                level,
                parent_index: parent,
                module_name: name,
                children: Seq::empty(),
                usable_objects: Seq::empty(),
            },
        ],
{
    assert(spec_child_indices(Seq::<SynNode>::empty(), 0, base + 1) =~= Seq::<int>::empty());
    assert(spec_file_objects(Seq::<SynNode>::empty(), 0) =~= Seq::<SpecObject>::empty());
    assert(spec_built_rest(Seq::<SynNode>::empty(), 0, fp, level, base, base + 1)
        =~= Seq::<SpecNode>::empty());
}

/// Tree building is a function of its inputs: two arenas built from the same
/// items, file path, level, parent and name are the same arena.
pub proof fn lemma_built_tree_deterministic(
    t1: Seq<SpecNode>,
    t2: Seq<SpecNode>,
    cs: Seq<SynNode>,
    fp: Seq<char>,
    level: int,
    parent: Option<int>,
    name: Seq<char>,
    base: int,
)
    requires
        t1 == spec_built_nodes(cs, fp, level, parent, name, base),
        t2 == spec_built_nodes(cs, fp, level, parent, name, base),
    ensures
        t1 == t2,
{
}

/// Replaces the node at `p` by a copy with one more child registered.
fn register_child_at(tree: &mut Vec<ModuleNode>, p: usize, c: usize)
    requires
        p < old(tree)@.len(),
    ensures
        final(tree)@.len() == old(tree)@.len(),
        forall|i: int|
            0 <= i < old(tree)@.len() && i != p ==> final(tree)@[i] == old(tree)@[i],
        tree_view(final(tree)@)[p as int] == (SpecNode {
            children: tree_view(old(tree)@)[p as int].children.push(c as int),
            ..tree_view(old(tree)@)[p as int]
        }),
{
    let ghost pre = tree@;
    let mut node = tree.remove(p);
    node.register_child(c);
    tree.insert(p, node);
    proof {
        assert forall|i: int| 0 <= i < pre.len() && i != p implies tree@[i] == pre[i] by {
            if i < p {
                assert(tree@[i] == pre.remove(p as int).insert(p as int, tree@[p as int])[i]);
            }
        }
    }
}

/// Replaces the node at `p` by a copy carrying the given usable objects.
fn set_objects_at(tree: &mut Vec<ModuleNode>, p: usize, objects: Vec<UsableObject>)
    requires
        p < old(tree)@.len(),
    ensures
        final(tree)@.len() == old(tree)@.len(),
        forall|i: int|
            0 <= i < old(tree)@.len() && i != p ==> final(tree)@[i] == old(tree)@[i],
        tree_view(final(tree)@)[p as int] == (SpecNode {
            usable_objects: objects.deep_view(),
            ..tree_view(old(tree)@)[p as int]
        }),
{
    let ghost pre = tree@;
    let mut node = tree.remove(p);
    node.usable_objects = objects;
    tree.insert(p, node);
    proof {
        assert forall|i: int| 0 <= i < pre.len() && i != p implies tree@[i] == pre[i] by {
            if i < p {
                assert(tree@[i] == pre.remove(p as int).insert(p as int, tree@[p as int])[i]);
            }
        }
    }
}

/// Appends a fresh node and registers it with its parent, keeping the arena
/// well-formed.
fn add_node(
    tree: &mut Vec<ModuleNode>,
    file_path: &String,
    level: usize,
    parent_index: Option<usize>,
    module_name: String,
) -> (res: usize)
    requires
        tree_wf(tree_view(old(tree)@)),
        match parent_index {
            None => old(tree)@.len() == 0 && level == 0,
            Some(p) => old(tree)@.len() > 0 && p < old(tree)@.len() && level >= 1 && level as int
                == tree_view(old(tree)@)[p as int].level + 1,
        },
    ensures
        res as int == old(tree)@.len(),
        final(tree)@.len() == old(tree)@.len() + 1,
        tree_wf(tree_view(final(tree)@)),
        forall|i: int|
            0 <= i < old(tree)@.len() && (match parent_index {
                Some(p) => i != p as int,
                None => true,
            }) ==> final(tree)@[i] == old(tree)@[i],
        match parent_index {
            Some(p) => tree_view(final(tree)@)[p as int] == (SpecNode {
                children: tree_view(old(tree)@)[p as int].children.push(old(tree)@.len() as int),
                ..tree_view(old(tree)@)[p as int]
            }),
            None => true,
        },
        tree_view(final(tree)@)[res as int] == (SpecNode {
            index: res as int,
            file_path: file_path@,
            level: level as int,
            parent_index: match parent_index {
                Some(p) => Some(p as int),
                None => None,
            },
            module_name: module_name@,
            children: Seq::empty(),
            usable_objects: Seq::empty(),
        }),
{
    let ghost old_tv = tree_view(tree@);
    let idx = tree.len();
    let node = ModuleNode::new(idx, file_path.clone(), level, parent_index, module_name);
    tree.push(node);
    match parent_index {
        Some(p) => {
            let ghost mid_seq = tree@;
            let ghost mid_tv = tree_view(tree@);
            register_child_at(tree, p, idx);
            proof {
                let tv = tree_view(tree@);
                assert(tv.len() == old_tv.len() + 1);
                assert forall|i: int| 0 <= i < tv.len() implies node_wf_at(tv, i) by {
                    if i < old_tv.len() {
                        assert(node_wf_at(old_tv, i));
                        if i == p {
                            assert(tv[i].children == old_tv[i].children.push(idx as int));
                            assert forall|k: int| 0 <= k < tv[i].children.len() implies i < (
                            #[trigger] tv[i].children[k]) < tv.len() && tv[tv[i].children[k]].parent_index
                                == Some(i) by {
                                if k < old_tv[i].children.len() {
                                    assert(tv[i].children[k] == old_tv[i].children[k]);
                                    assert(tv[tv[i].children[k]] == old_tv[old_tv[i].children[k]]);
                                } else {
                                    assert(tv[i].children[k] == idx as int);
                                }
                            }
                            assert(tv[i].children.contains(tv[i].children[old_tv[i].children.len() as int]));
                        } else {
                            assert(tv[i] == old_tv[i]);
                            assert forall|k: int| 0 <= k < tv[i].children.len() implies i < (
                            #[trigger] tv[i].children[k]) < tv.len() && tv[tv[i].children[k]].parent_index
                                == Some(i) by {
                                assert(old_tv[i].children[k] == tv[i].children[k]);
                                let ch = old_tv[i].children[k];
                                if ch == p {
                                    assert(tv[ch].parent_index == old_tv[ch].parent_index);
                                } else {
                                    assert(tv[ch] == old_tv[ch]);
                                }
                            }
                            match tv[i].parent_index {
                                Some(q) => {
                                    assert(node_wf_at(old_tv, i));
                                    if q == p {
                                        assert(old_tv[q].children.contains(i));
                                        let w = choose|w: int|
                                            0 <= w < old_tv[q].children.len() && old_tv[q].children[w]
                                                == i;
                                        assert(tv[q].children[w] == i);
                                        assert(tv[q].children.contains(i));
                                    } else {
                                        assert(tv[q] == old_tv[q]);
                                    }
                                },
                                None => {},
                            }
                        }
                    } else {
                        assert(i == idx as int);
                        assert(tv[p as int].children == old_tv[p as int].children.push(idx as int));
                        assert(tv[p as int].children[old_tv[p as int].children.len() as int]
                            == idx as int);
                        assert(tv[p as int].children.contains(idx as int));
                        assert(tv[i].children =~= Seq::<int>::empty());
                    }
                }
                assert forall|i: int|
                    0 <= i < old_tv.len() && i != p implies tree@[i] == old(tree)@[i] by {
                    assert(tree@[i] == mid_seq[i]);
                    assert(mid_seq[i] == old(tree)@[i]);
                }
                assert(mid_tv[p as int] == old_tv[p as int]);
            }
        },
        None => {
            proof {
                let tv = tree_view(tree@);
                assert(tv.len() == 1);
                assert forall|i: int| 0 <= i < tv.len() implies node_wf_at(tv, i) by {
                    assert(tv[0].children =~= Seq::<int>::empty());
                }
            }
        },
    }
    idx
}

/// `syn_size_many` only shrinks as the start index grows.
proof fn lemma_size_many_mono(cs: Seq<SynNode>, j: int, k: int)
    requires
        0 <= j <= k,
    ensures
        syn_size_many(cs, k) <= syn_size_many(cs, j),
    decreases k - j,
{
    if j < k {
        if j < cs.len() {
            lemma_child_size(cs, j);
            lemma_size_many_mono(cs, j + 1, k);
        } else {
            lemma_size_many_mono(cs, j + 1, k);
        }
    }
}

/// Lowers one file's (or inline module's) items into a fresh node of the
/// arena, recursing into inline sub-modules; the bodyless module references
/// found are appended for later file-system resolution.
pub fn parse_syntax_node_tree(
    tree: &mut Vec<ModuleNode>,
    syntax_children: &Vec<SynNode>,
    file_path: &String,
    level: usize,
    parent_index: Option<usize>,
    module_name: String,
    module_references: &mut Vec<(usize, String)>,
)
    requires
        tree_wf(tree_view(old(tree)@)),
        match parent_index {
            None => old(tree)@.len() == 0 && level == 0,
            Some(p) => old(tree)@.len() > 0 && p < old(tree)@.len() && level >= 1 && level as int
                == tree_view(old(tree)@)[p as int].level + 1,
        },
        forall|r: int|
            0 <= r < old(module_references)@.len() ==> (#[trigger] old(module_references)@[r]).0
                < old(tree)@.len(),
    ensures
        tree_wf(tree_view(final(tree)@)),
        final(tree)@.len() == old(tree)@.len() + 1 + spec_built_count(syntax_children@, 0),
        tree_view(final(tree)@).skip(old(tree)@.len() as int) == spec_built_nodes(
            syntax_children@,
            file_path@,
            level as int,
            (match parent_index {
                Some(p) => Some(p as int),
                None => None,
            }),
            module_name@,
            old(tree)@.len() as int,
        ),
        forall|i: int|
            0 <= i < old(tree)@.len() && (match parent_index {
                Some(p) => i != p as int,
                None => true,
            }) ==> final(tree)@[i] == old(tree)@[i],
        match parent_index {
            Some(p) => tree_view(final(tree)@)[p as int] == (SpecNode {
                children: tree_view(old(tree)@)[p as int].children.push(old(tree)@.len() as int),
                ..tree_view(old(tree)@)[p as int]
            }),
            None => true,
        },
        forall|r: int|
            0 <= r < final(module_references)@.len() ==> (#[trigger] final(module_references)@[r]).0
                < final(tree)@.len(),
    decreases syn_size_many(syntax_children@, 0),
{
    let ghost old_len = tree@.len() as int;
    let ghost cs = syntax_children@;
    let ghost fp = file_path@;
    let current_index = add_node(tree, file_path, level, parent_index, module_name);
    let mut objects: Vec<UsableObject> = Vec::new();
    let mut k: usize = 0;
    proof {
        assert(objects.deep_view() =~= Seq::<SpecObject>::empty());
        assert(objects.deep_view() + spec_file_objects(cs, 0) =~= spec_file_objects(cs, 0));
        assert(tree_view(tree@)[current_index as int].children + spec_child_indices(
            cs,
            0,
            tree@.len() as int,
        ) =~= spec_child_indices(cs, 0, old_len + 1));
        assert(tree_view(tree@).skip(old_len + 1) =~= Seq::<SpecNode>::empty());
        assert(tree_view(tree@).skip(old_len + 1) + spec_built_rest(
            cs,
            0,
            fp,
            level as int,
            old_len,
            tree@.len() as int,
        ) =~= spec_built_rest(cs, 0, fp, level as int, old_len, old_len + 1));
    }
    while k < syntax_children.len()
        invariant
            cs == syntax_children@,
            fp == file_path@,
            k <= cs.len(),
            tree_wf(tree_view(tree@)),
            old_len == old(tree)@.len() as int,
            current_index as int == old_len,
            old_len < tree@.len(),
            match parent_index {
                Some(p) => (p as int) < old_len,
                None => old_len == 0,
            },
            forall|i: int|
                0 <= i < old_len && (match parent_index {
                    Some(p) => i != p as int,
                    None => true,
                }) ==> tree@[i] == old(tree)@[i],
            match parent_index {
                Some(p) => tree_view(tree@)[p as int] == (SpecNode {
                    children: tree_view(old(tree)@)[p as int].children.push(old_len),
                    ..tree_view(old(tree)@)[p as int]
                }),
                None => true,
            },
            tree_view(tree@)[current_index as int].index == old_len,
            tree_view(tree@)[current_index as int].module_name == module_name@,
            tree_view(tree@)[current_index as int].level == level as int,
            tree_view(tree@)[current_index as int].file_path == fp,
            tree_view(tree@)[current_index as int].parent_index == (match parent_index {
                Some(p) => Some(p as int),
                None => None,
            }),
            tree_view(tree@)[current_index as int].usable_objects == Seq::<SpecObject>::empty(),
            objects.deep_view() + spec_file_objects(cs, k as int) == spec_file_objects(cs, 0),
            tree@.len() as int + spec_built_count(cs, k as int) == old_len + 1 + spec_built_count(
                cs,
                0,
            ),
            tree_view(tree@)[current_index as int].children + spec_child_indices(
                cs,
                k as int,
                tree@.len() as int,
            ) == spec_child_indices(cs, 0, old_len + 1),
            tree_view(tree@).skip(old_len + 1) + spec_built_rest(
                cs,
                k as int,
                fp,
                level as int,
                old_len,
                tree@.len() as int,
            ) == spec_built_rest(cs, 0, fp, level as int, old_len, old_len + 1),
            forall|r: int|
                0 <= r < module_references@.len() ==> (#[trigger] module_references@[r]).0
                    < tree@.len(),
        decreases cs.len() - k,
    {
        let ghost pre_objs = objects.deep_view();
        let tree_len_now = tree.len();
        proof {
            lemma_child_size(cs, k as int);
        }
        let ghost pre_refs_deep = module_references.deep_view();
        let ghost pre_refs_seq = module_references@;
        let item_res = extract_item(
            &syntax_children[k],
            current_index,
            &mut objects,
            module_references,
        );
        proof {
            assert forall|r: int| 0 <= r < module_references@.len() implies (
            #[trigger] module_references@[r]).0 < tree@.len() by {
                assert(module_references.deep_view().len() == module_references@.len());
                assert(module_references.deep_view()[r] == (
                    module_references@[r].0,
                    module_references@[r].1@,
                ));
                if r < pre_refs_seq.len() {
                    assert(module_references.deep_view()[r] == pre_refs_deep[r]);
                    assert(pre_refs_deep[r] == (pre_refs_seq[r].0, pre_refs_seq[r].1@));
                } else {
                    assert(module_references.deep_view()[r] == crate::extract::spec_pair_refs(
                        spec_extract(cs[k as int]).1,
                        current_index,
                    )[r - pre_refs_seq.len()]);
                }
            }
        }
        match item_res {
            Some(inner) => {
                let ghost l = choose|l: int|
                    spec_inline_module(cs[k as int]) == Some((l, inner.1@)) && 0 <= l
                        < cs[k as int].children@.len() && inner.0@ == (
                    #[trigger] cs[k as int].children@[l]).children@;
                let ghost innerseq = cs[k as int].children@[l].children@;
                let ghost cnt = spec_built_count(innerseq, 0);
                proof {
                    lemma_inline_in_range(cs[k as int]);
                    lemma_size_many_mono(cs, 0, k as int);
                    lemma_child_size(cs[k as int].children@, l);
                    lemma_size_many_mono(cs[k as int].children@, 0, l);
                    assert(syn_size_many(inner.0@, 0) < syn_size(cs[k as int]));
                    assert(syn_size(cs[k as int]) <= syn_size_many(cs, k as int));
                    crate::cycle::lemma_level_le_index(tree_view(tree@), current_index as int);
                    assert(level as int <= current_index as int);
                    assert((current_index as int) < tree_len_now as int);
                }
                let (inner_children, inner_name) = inner;
                let ghost mid_seq = tree@;
                let ghost mid_tv = tree_view(tree@);
                let ghost next = tree@.len() as int;
                parse_syntax_node_tree(
                    tree,
                    inner_children,
                    file_path,
                    level + 1,
                    Some(current_index),
                    inner_name,
                    module_references,
                );
                proof {
                    let tv = tree_view(tree@);
                    // Old nodes and the parent stay as they were before this item.
                    assert forall|i: int|
                        0 <= i < old_len && (match parent_index {
                            Some(p) => i != p as int,
                            None => true,
                        }) implies tree@[i] == old(tree)@[i] by {
                        assert(tree@[i] == mid_seq[i]);
                    }
                    match parent_index {
                        Some(p) => {
                            assert(tree@[p as int] == mid_seq[p as int]);
                            assert(tv[p as int] == mid_tv[p as int]);
                        },
                        None => {},
                    }
                    // The current node keeps its fields; only one child index is added.
                    assert(tv[current_index as int] == (SpecNode {
                        children: mid_tv[current_index as int].children.push(next),
                        ..mid_tv[current_index as int]
                    }));
                    // Count bookkeeping.
                    assert(spec_built_count(cs, k as int) == (1 + cnt) + spec_built_count(
                        cs,
                        k as int + 1,
                    ));
                    assert(tree@.len() as int == next + 1 + cnt);
                    // Child indices: the suffix consumed one inline module.
                    assert(spec_child_indices(cs, k as int, next) =~= seq![next]
                        + spec_child_indices(cs, k as int + 1, next + 1 + cnt));
                    assert(tv[current_index as int].children + spec_child_indices(
                        cs,
                        k as int + 1,
                        tree@.len() as int,
                    ) =~= mid_tv[current_index as int].children + spec_child_indices(
                        cs,
                        k as int,
                        next,
                    ));
                    // Appended region: the recursion appended exactly the inline subtree.
                    assert(tv.skip(next) == spec_built_nodes(
                        innerseq,
                        fp,
                        level as int + 1,
                        Some(old_len),
                        inner.1@,
                        next,
                    ));
                    assert forall|i: int|
                        old_len + 1 <= i < next implies tv[i] == mid_tv[i] by {
                        assert(tree@[i] == mid_seq[i]);
                    }
                    assert(tv.skip(old_len + 1) =~= mid_tv.skip(old_len + 1) + tv.skip(next));
                    assert(spec_built_rest(cs, k as int, fp, level as int, old_len, next)
                        =~= spec_built_nodes(
                        innerseq,
                        fp,
                        level as int + 1,
                        Some(old_len),
                        inner.1@,
                        next,
                    ) + spec_built_rest(
                        cs,
                        k as int + 1,
                        fp,
                        level as int,
                        old_len,
                        next + 1 + cnt,
                    ));
                    assert(tv.skip(old_len + 1) + spec_built_rest(
                        cs,
                        k as int + 1,
                        fp,
                        level as int,
                        old_len,
                        tree@.len() as int,
                    ) =~= mid_tv.skip(old_len + 1) + spec_built_rest(
                        cs,
                        k as int,
                        fp,
                        level as int,
                        old_len,
                        next,
                    ));
                }
            },
            None => {
                proof {
                    assert(spec_inline_module(cs[k as int]) is None);
                    assert(spec_built_count(cs, k as int) == spec_built_count(cs, k as int + 1));
                    assert(spec_child_indices(cs, k as int, tree@.len() as int)
                        == spec_child_indices(cs, k as int + 1, tree@.len() as int));
                    assert(spec_built_rest(cs, k as int, fp, level as int, old_len, tree@.len() as int)
                        == spec_built_rest(
                        cs,
                        k as int + 1,
                        fp,
                        level as int,
                        old_len,
                        tree@.len() as int,
                    ));
                }
            },
        }
        proof {
            assert(spec_file_objects(cs, k as int) == spec_extract(cs[k as int]).0
                + spec_file_objects(cs, k as int + 1));
            assert(objects.deep_view() =~= pre_objs + spec_extract(cs[k as int]).0);
            assert(objects.deep_view() + spec_file_objects(cs, k as int + 1) =~= spec_file_objects(
                cs,
                0,
            ));
        }
        k = k + 1;
    }
    proof {
        assert(spec_file_objects(cs, k as int) =~= Seq::<SpecObject>::empty());
        assert(objects.deep_view() =~= objects.deep_view() + spec_file_objects(cs, k as int));
        assert(spec_child_indices(cs, k as int, tree@.len() as int) =~= Seq::<int>::empty());
        assert(tree_view(tree@)[current_index as int].children =~= tree_view(
            tree@,
        )[current_index as int].children + spec_child_indices(cs, k as int, tree@.len() as int));
        assert(spec_built_rest(cs, k as int, fp, level as int, old_len, tree@.len() as int)
            =~= Seq::<SpecNode>::empty());
        assert(tree_view(tree@).skip(old_len + 1) =~= tree_view(tree@).skip(old_len + 1)
            + spec_built_rest(cs, k as int, fp, level as int, old_len, tree@.len() as int));
        assert(spec_built_count(cs, k as int) == 0);
    }
    let ghost pre_tv = tree_view(tree@);
    let ghost pre_seq = tree@;
    let ghost objsd = objects.deep_view();
    set_objects_at(tree, current_index, objects);
    proof {
        let tv = tree_view(tree@);
        let ghost parent_spec = (match parent_index {
            Some(p) => Some(p as int),
            None => None,
        });
        assert(tv[current_index as int].usable_objects == objsd);
        assert forall|i: int| 0 <= i < tv.len() implies node_wf_at(tv, i) by {
            assert(node_wf_at(pre_tv, i));
            if i != current_index as int {
                assert(tv[i] == pre_tv[i]);
            }
            assert(tv[i].children == pre_tv[i].children);
            assert(tv[i].parent_index == pre_tv[i].parent_index);
            assert(tv[i].level == pre_tv[i].level);
            assert forall|kk: int| 0 <= kk < tv[i].children.len() implies i < (
            #[trigger] tv[i].children[kk]) < tv.len() && tv[tv[i].children[kk]].parent_index == Some(
                i,
            ) by {
                assert(pre_tv[i].children[kk] == tv[i].children[kk]);
                assert(tv[pre_tv[i].children[kk]].parent_index
                    == pre_tv[pre_tv[i].children[kk]].parent_index);
            }
            match tv[i].parent_index {
                Some(q) => {
                    assert(tv[q].children == pre_tv[q].children);
                },
                None => {},
            }
        }
        assert forall|i: int|
            0 <= i < old_len && (match parent_index {
                Some(p) => i != p as int,
                None => true,
            }) implies tree@[i] == old(tree)@[i] by {
            assert(tree@[i] == pre_seq[i]);
        }
        match parent_index {
            Some(p) => {
                assert(tree@[p as int] == pre_seq[p as int]);
                assert(tv[p as int] == pre_tv[p as int]);
            },
            None => {},
        }
        // The final arena behind the old nodes is exactly the built region.
        let built = spec_built_nodes(cs, fp, level as int, parent_spec, module_name@, old_len);
        lemma_built_nodes_len(cs, fp, level as int, parent_spec, module_name@, old_len);
        lemma_built_rest_len(cs, 0, fp, level as int, old_len, old_len + 1);
        assert(tv[current_index as int] == built[0]);
        assert forall|i: int| old_len + 1 <= i < tv.len() as int implies tv[i] == pre_tv[i] by {}
        assert(tv.skip(old_len + 1) =~= pre_tv.skip(old_len + 1));
        assert(tv.skip(old_len) =~= built);
    }
}

/// Grows the node arena one file at a time, keeping it well-formed
/// throughout. The surrounding program parses each file, asks for the module
/// references found in it, resolves them to further files, and feeds those
/// back in.
#[derive(Debug)]
pub struct TreeBuilder {
    tree: Vec<ModuleNode>,
}

impl TreeBuilder {
    /// The abstract node arena built so far.
    pub closed spec fn spec_tree(&self) -> Seq<SpecNode> {
        tree_view(self.tree@)
    }

    pub closed spec fn wf(&self) -> bool {
        tree_wf(self.spec_tree())
    }

    pub fn new() -> (res: Self)
        ensures
            res.wf(),
            res.spec_tree().len() == 0,
    {
        TreeBuilder { tree: Vec::new() }
    }

    pub fn len(&self) -> (res: usize)
        ensures
            res as int == self.spec_tree().len(),
    {
        self.tree.len()
    }

    /// Adds one parsed file (or the crate root, with no parent) as a module
    /// node, together with its inline sub-modules. Returns the bodyless
    /// module references of the file, each owned by a node of the arena.
    pub fn add_file(
        &mut self,
        syntax_children: &Vec<SynNode>,
        file_path: &String,
        parent_index: Option<usize>,
        module_name: String,
    ) -> (res: Vec<(usize, String)>)
        requires
            old(self).wf(),
            match parent_index {
                None => old(self).spec_tree().len() == 0,
                Some(p) => 0 < old(self).spec_tree().len() && (p as int) < old(
                    self,
                ).spec_tree().len(),
            },
        ensures
            final(self).wf(),
            final(self).spec_tree().len() == old(self).spec_tree().len() + 1 + spec_built_count(
                syntax_children@,
                0,
            ),
            final(self).spec_tree().skip(old(self).spec_tree().len() as int) == spec_built_nodes(
                syntax_children@,
                file_path@,
                (match parent_index {
                    None => 0,
                    Some(p) => old(self).spec_tree()[p as int].level + 1,
                }),
                (match parent_index {
                    Some(p) => Some(p as int),
                    None => None,
                }),
                module_name@,
                old(self).spec_tree().len() as int,
            ),
            forall|i: int|
                0 <= i < old(self).spec_tree().len() && (match parent_index {
                    Some(p) => i != p as int,
                    None => true,
                }) ==> final(self).spec_tree()[i] == old(self).spec_tree()[i],
            match parent_index {
                Some(p) => final(self).spec_tree()[p as int] == (SpecNode {
                    children: old(self).spec_tree()[p as int].children.push(
                        old(self).spec_tree().len() as int,
                    ),
                    ..old(self).spec_tree()[p as int]
                }),
                None => true,
            },
            final(self).spec_tree()[old(self).spec_tree().len() as int].module_name
                == module_name@,
            final(self).spec_tree()[old(self).spec_tree().len() as int].usable_objects
                == spec_file_objects(syntax_children@, 0),
            forall|r: int|
                0 <= r < res@.len() ==> (#[trigger] res@[r]).0 < final(self).spec_tree().len(),
    {
        let ghost old_len = self.spec_tree().len() as int;
        let ghost parent_spec = (match parent_index {
            Some(p) => Some(p as int),
            None => None,
        });
        let level = match parent_index {
            None => 0,
            Some(p) => {
                proof {
                    crate::cycle::lemma_level_le_index(self.spec_tree(), p as int);
                }
                let _n = self.tree.len();
                self.tree[p].level + 1
            },
        };
        let mut refs: Vec<(usize, String)> = Vec::new();
        parse_syntax_node_tree(
            &mut self.tree,
            syntax_children,
            file_path,
            level,
            parent_index,
            module_name,
            &mut refs,
        );
        proof {
            let tv = self.spec_tree();
            let built = spec_built_nodes(
                syntax_children@,
                file_path@,
                level as int,
                parent_spec,
                module_name@,
                old_len,
            );
            lemma_built_nodes_len(
                syntax_children@,
                file_path@,
                level as int,
                parent_spec,
                module_name@,
                old_len,
            );
            assert(tv[old_len] == tv.skip(old_len)[0]);
            assert(tv[old_len] == built[0]);
        }
        refs
    }

    /// Seals the arena into a module tree with its possible-uses index.
    pub fn finish(self) -> (res: ModuleTree)
        requires
            self.wf(),
            self.spec_tree().len() > 0,
        ensures
            res.wf(),
            res.spec_tree() == self.spec_tree(),
    {
        ModuleTree::new(self.tree)
    }
}

/// The first entry, from `k` on, that is a directory named exactly `name`.
pub open spec fn spec_first_module_dir(
    entries: Seq<(Seq<char>, bool)>,
    name: Seq<char>,
    k: int,
) -> Option<Seq<char>>
    decreases entries.len() - k,
{
    if 0 <= k < entries.len() {
        if entries[k].1 && entries[k].0 == name {
            Some(entries[k].0)
        } else {
            spec_first_module_dir(entries, name, k + 1)
        }
    } else {
        None
    }
}

/// The first entry, from `k` on, that is a file named exactly `name` followed
/// by `.rs`.
pub open spec fn spec_first_module_file(
    entries: Seq<(Seq<char>, bool)>,
    name: Seq<char>,
    k: int,
) -> Option<Seq<char>>
    decreases entries.len() - k,
{
    if 0 <= k < entries.len() {
        if !entries[k].1 && entries[k].0 == name + ".rs"@ {
            Some(entries[k].0)
        } else {
            spec_first_module_file(entries, name, k + 1)
        }
    } else {
        None
    }
}

/// The entry a `mod name;` reference selects: the directory named exactly
/// `name` (standing for `name/mod.rs`), or else the file named exactly
/// `name.rs`; the directory form is preferred when both exist. `None` means
/// the module is external.
pub open spec fn spec_resolve_module_file(entries: Seq<(Seq<char>, bool)>, name: Seq<char>) -> Option<
    (Seq<char>, bool),
> {
    match spec_first_module_dir(entries, name, 0) {
        Some(n) => Some((n, true)),
        None => match spec_first_module_file(entries, name, 0) {
            Some(n) => Some((n, false)),
            None => None,
        },
    }
}

/// Picks the file a bodyless `mod` reference resolves to: the directory named
/// exactly like the module when one exists (its `mod.rs` holds the module),
/// otherwise the file `<name>.rs`. Each entry carries its name and whether it
/// is a directory. `None` means the module is external.
pub fn resolve_module_file(entries: &Vec<(String, bool)>, module_name: &String) -> (res: Option<
    (String, bool),
>)
    ensures
        match res {
            Some(e) => spec_resolve_module_file(entries.deep_view(), module_name@) == Some(
                (e.0@, e.1),
            ),
            None => spec_resolve_module_file(entries.deep_view(), module_name@) is None,
        },
{
    let ghost ed = entries.deep_view();
    let mut k: usize = 0;
    while k < entries.len()
        invariant
            ed == entries.deep_view(),
            ed.len() == entries@.len(),
            k <= entries@.len(),
            spec_first_module_dir(ed, module_name@, k as int) == spec_first_module_dir(
                ed,
                module_name@,
                0,
            ),
        decreases entries@.len() - k,
    {
        proof {
            assert(ed[k as int] == (entries@[k as int].0@, entries@[k as int].1));
        }
        if entries[k].1 && crate::paths::str_eq(entries[k].0.as_str(), module_name.as_str()) {
            proof {
                assert(spec_first_module_dir(ed, module_name@, k as int) == Some(ed[k as int].0));
            }
            return Some((entries[k].0.clone(), true));
        }
        k = k + 1;
    }
    proof {
        assert(spec_first_module_dir(ed, module_name@, k as int) is None);
    }
    let mut file_name = module_name.clone();
    file_name.append(".rs");
    proof {
        assert(file_name@ == module_name@ + ".rs"@);
    }
    let mut m: usize = 0;
    while m < entries.len()
        invariant
            ed == entries.deep_view(),
            ed.len() == entries@.len(),
            m <= entries@.len(),
            file_name@ == module_name@ + ".rs"@,
            spec_first_module_dir(ed, module_name@, 0) is None,
            spec_first_module_file(ed, module_name@, m as int) == spec_first_module_file(
                ed,
                module_name@,
                0,
            ),
        decreases entries@.len() - m,
    {
        proof {
            assert(ed[m as int] == (entries@[m as int].0@, entries@[m as int].1));
        }
        if !entries[m].1 && crate::paths::str_eq(entries[m].0.as_str(), file_name.as_str()) {
            proof {
                assert(spec_first_module_file(ed, module_name@, m as int) == Some(ed[m as int].0));
            }
            return Some((entries[m].0.clone(), false));
        }
        m = m + 1;
    }
    proof {
        assert(spec_first_module_file(ed, module_name@, m as int) is None);
    }
    None
}

} // verus!

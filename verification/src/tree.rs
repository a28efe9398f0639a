//! The module tree: the node arena together with the index of every
//! fully-qualified path the tree makes usable.

use vstd::prelude::*;
use crate::node::{ModuleNode, SpecNode, node_wf_at, spec_chain, spec_included, spec_subtree_many, tree_view, tree_wf};
use crate::objects::{ObjectType, SpecObject, UsableObject};
use crate::paths::{spec_split, split_path, str_eq};

verus! {

/// One entry of the possible-uses index: a key of path segments, and the
/// definition or re-export it leads to.
#[derive(Debug)]
pub struct PossibleUse {
    pub key: Vec<String>,
    pub node_index: usize,
    pub object: UsableObject,
}

/// The mathematical value of a [`PossibleUse`].
pub ghost struct SpecPossible {
    pub key: Seq<Seq<char>>,
    pub node_index: int,
    pub object: SpecObject,
}

impl View for PossibleUse {
    type V = SpecPossible;

    open spec fn view(&self) -> SpecPossible {
        SpecPossible {
            key: self.key.deep_view(),
            node_index: self.node_index as int,
            object: self.object@,
        }
    }
}

impl DeepView for PossibleUse {
    type V = SpecPossible;

    open spec fn deep_view(&self) -> SpecPossible {
        self.view()
    }
}

/// Whether a path is a wildcard import, i.e. ends in `*`.
pub open spec fn spec_is_wildcard(path: Seq<char>) -> bool {
    path.len() > 0 && path.last() == '*'
}

/// The index entries one usable object of node `i` contributes: a definition
/// is indexed under its fully-qualified path and under its bare name; a
/// non-wildcard re-export under the re-exporting module's path extended with
/// the re-export's last segment.
pub open spec fn entries_of_object(tree: Seq<SpecNode>, i: int, o: SpecObject) -> Seq<SpecPossible> {
    if o.object_type.is_definition() {
        seq![
            SpecPossible { key: spec_chain(tree, i).push(o.path), node_index: i, object: o },
            SpecPossible { key: seq![o.path], node_index: i, object: o },
        ]
    } else if o.object_type is RePublish && !spec_is_wildcard(o.path) {
        seq![
            SpecPossible {
                key: spec_chain(tree, i).push(spec_split(o.path).last()),
                node_index: i,
                object: o,
            },
        ]
    } else {
        Seq::empty()
    }
}

/// The index entries of node `i`'s objects from position `k` on.
pub open spec fn entries_of_node(tree: Seq<SpecNode>, i: int, k: int) -> Seq<SpecPossible>
    decreases tree[i].usable_objects.len() - k,
{
    if 0 <= i < tree.len() && 0 <= k < tree[i].usable_objects.len() {
        entries_of_object(tree, i, tree[i].usable_objects[k]) + entries_of_node(tree, i, k + 1)
    } else {
        Seq::empty()
    }
}

/// The index entries of all nodes from `i` on.
pub open spec fn spec_possible_uses_from(tree: Seq<SpecNode>, i: int) -> Seq<SpecPossible>
    decreases tree.len() - i,
{
    if 0 <= i < tree.len() {
        entries_of_node(tree, i, 0) + spec_possible_uses_from(tree, i + 1)
    } else {
        Seq::empty()
    }
}

/// The full possible-uses index of a tree.
pub open spec fn spec_possible_uses(tree: Seq<SpecNode>) -> Seq<SpecPossible> {
    spec_possible_uses_from(tree, 0)
}

/// An index entry is valid for `tree`: it points into the tree, at an object
/// the owning node really lists, and that object is a definition or re-export.
pub open spec fn entry_valid(tree: Seq<SpecNode>, e: SpecPossible) -> bool {
    &&& 0 <= e.node_index < tree.len()
    &&& tree[e.node_index].usable_objects.contains(e.object)
    &&& (e.object.object_type.is_definition() || e.object.object_type is RePublish)
}

pub proof fn lemma_entries_of_node_valid(tree: Seq<SpecNode>, i: int, k: int)
    ensures
        forall|j: int|
            0 <= j < entries_of_node(tree, i, k).len() ==> entry_valid(
                tree,
                #[trigger] entries_of_node(tree, i, k)[j],
            ),
    decreases tree[i].usable_objects.len() - k,
{
    if 0 <= i < tree.len() && 0 <= k < tree[i].usable_objects.len() {
        lemma_entries_of_node_valid(tree, i, k + 1);
        let e1 = entries_of_object(tree, i, tree[i].usable_objects[k]);
        let rest = entries_of_node(tree, i, k + 1);
        assert(tree[i].usable_objects.contains(tree[i].usable_objects[k]));
        assert forall|j: int| 0 <= j < entries_of_node(tree, i, k).len() implies entry_valid(
            tree,
            #[trigger] entries_of_node(tree, i, k)[j],
        ) by {
            if j < e1.len() {
                assert(entries_of_node(tree, i, k)[j] == e1[j]);
            } else {
                assert(entries_of_node(tree, i, k)[j] == rest[j - e1.len()]);
            }
        }
    }
}

pub proof fn lemma_possible_uses_from_valid(tree: Seq<SpecNode>, i: int)
    ensures
        forall|j: int|
            0 <= j < spec_possible_uses_from(tree, i).len() ==> entry_valid(
                tree,
                #[trigger] spec_possible_uses_from(tree, i)[j],
            ),
    decreases tree.len() - i,
{
    if 0 <= i < tree.len() {
        lemma_entries_of_node_valid(tree, i, 0);
        lemma_possible_uses_from_valid(tree, i + 1);
        let e1 = entries_of_node(tree, i, 0);
        let rest = spec_possible_uses_from(tree, i + 1);
        assert forall|j: int| 0 <= j < spec_possible_uses_from(tree, i).len() implies entry_valid(
            tree,
            #[trigger] spec_possible_uses_from(tree, i)[j],
        ) by {
            if j < e1.len() {
                assert(spec_possible_uses_from(tree, i)[j] == e1[j]);
            } else {
                assert(spec_possible_uses_from(tree, i)[j] == rest[j - e1.len()]);
            }
        }
    }
}

/// Every entry of the possible-uses index is a definition or re-export entry
/// of the node it names.
pub proof fn lemma_possible_uses_valid(tree: Seq<SpecNode>)
    ensures
        forall|j: int|
            0 <= j < spec_possible_uses(tree).len() ==> entry_valid(
                tree,
                #[trigger] spec_possible_uses(tree)[j],
            ),
{
    lemma_possible_uses_from_valid(tree, 0);
}

/// Entry `a` is strictly preferred over `b`: it sits at a shallower node, or
/// at the same depth in an earlier node.
pub open spec fn strictly_better(tree: Seq<SpecNode>, a: SpecPossible, b: SpecPossible) -> bool {
    tree[a.node_index].level < tree[b.node_index].level || (tree[a.node_index].level
        == tree[b.node_index].level && a.node_index < b.node_index)
}

/// Scans the index from position `k` with current best `cur`, replacing the
/// best only by a strictly preferred matching entry.
pub open spec fn lookup_from(
    pus: Seq<SpecPossible>,
    tree: Seq<SpecNode>,
    key: Seq<Seq<char>>,
    k: int,
    cur: Option<SpecPossible>,
) -> Option<SpecPossible>
    decreases pus.len() - k,
{
    if 0 <= k < pus.len() {
        let e = pus[k];
        let cur2 = if e.key == key && (cur is None || strictly_better(tree, e, cur->0)) {
            Some(e)
        } else {
            cur
        };
        lookup_from(pus, tree, key, k + 1, cur2)
    } else {
        cur
    }
}

/// The index entry a key resolves to: the matching entry at the shallowest
/// node, earliest node first, earliest entry first on ties.
pub open spec fn spec_lookup(
    pus: Seq<SpecPossible>,
    tree: Seq<SpecNode>,
    key: Seq<Seq<char>>,
) -> Option<SpecPossible> {
    lookup_from(pus, tree, key, 0, None)
}

/// A lookup result is one of the scanned entries, and its key matches.
pub proof fn lemma_lookup_from_is_entry(
    pus: Seq<SpecPossible>,
    tree: Seq<SpecNode>,
    key: Seq<Seq<char>>,
    k: int,
    cur: Option<SpecPossible>,
)
    requires
        match cur {
            Some(c) => pus.contains(c) && c.key == key,
            None => true,
        },
        lookup_from(pus, tree, key, k, cur) is Some,
    ensures
        pus.contains(lookup_from(pus, tree, key, k, cur)->0),
        lookup_from(pus, tree, key, k, cur)->0.key == key,
    decreases pus.len() - k,
{
    if 0 <= k < pus.len() {
        let e = pus[k];
        let cur2 = if e.key == key && (cur is None || strictly_better(tree, e, cur->0)) {
            Some(e)
        } else {
            cur
        };
        lemma_lookup_from_is_entry(pus, tree, key, k + 1, cur2);
    }
}

/// Compares two segment vectors for equality of their character sequences.
pub fn segs_eq(a: &Vec<String>, b: &Vec<String>) -> (r: bool)
    ensures
        r == (a.deep_view() == b.deep_view()),
{
    if a.len() != b.len() {
        proof {
            assert(a.deep_view().len() == a@.len());
            assert(b.deep_view().len() == b@.len());
        }
        return false;
    }
    let mut i: usize = 0;
    while i < a.len()
        invariant
            i <= a.len(),
            a@.len() == b@.len(),
            forall|j: int| 0 <= j < i ==> a.deep_view()[j] == b.deep_view()[j],
        decreases a.len() - i,
    {
        if !str_eq(a[i].as_str(), b[i].as_str()) {
            proof {
                assert(a.deep_view()[i as int] == a@[i as int]@);
                assert(b.deep_view()[i as int] == b@[i as int]@);
            }
            return false;
        }
        proof {
            assert(a.deep_view()[i as int] == a@[i as int]@);
            assert(b.deep_view()[i as int] == b@[i as int]@);
        }
        i = i + 1;
    }
    proof {
        assert(a.deep_view() =~= b.deep_view());
    }
    true
}

/// Clones a vector of strings, keeping every character sequence.
pub fn clone_string_vec(v: &Vec<String>) -> (res: Vec<String>)
    ensures
        res.deep_view() == v.deep_view(),
{
    let mut res: Vec<String> = Vec::new();
    let mut i: usize = 0;
    while i < v.len()
        invariant
            i <= v.len(),
            res@.len() == i,
            forall|j: int| 0 <= j < i ==> res.deep_view()[j] == v.deep_view()[j],
        decreases v.len() - i,
    {
        res.push(v[i].clone());
        proof {
            assert(res.deep_view()[i as int] == v.deep_view()[i as int]);
        }
        i = i + 1;
    }
    proof {
        assert(res.deep_view() =~= v.deep_view());
    }
    res
}

/// The chain of module names from the root down to node `i`.
pub fn node_chain(tree: &Vec<ModuleNode>, i: usize) -> (res: Vec<String>)
    requires
        tree_wf(tree_view(tree@)),
        i < tree@.len(),
    ensures
        res.deep_view() == spec_chain(tree_view(tree@), i as int),
    decreases i,
{
    proof {
        assert(node_wf_at(tree_view(tree@), i as int));
    }
    match tree[i].parent_index {
        None => {
            let mut v: Vec<String> = Vec::new();
            v.push(tree[i].module_name.clone());
            proof {
                assert(v.deep_view() =~= seq![tree_view(tree@)[i as int].module_name]);
            }
            v
        },
        Some(p) => {
            let mut v = node_chain(tree, p);
            let ghost pre = v.deep_view();
            v.push(tree[i].module_name.clone());
            proof {
                assert(v.deep_view() =~= pre.push(tree_view(tree@)[i as int].module_name));
            }
            v
        },
    }
}

/// The view of a vector of node indices.
pub open spec fn idx_view(s: Seq<usize>) -> Seq<int> {
    s.map_values(|x: usize| x as int)
}

fn included_nodes_rec(tree: &Vec<ModuleNode>, i: usize, k: usize, out: &mut Vec<usize>)
    requires
        tree_wf(tree_view(tree@)),
        i < tree@.len(),
        k <= tree@[i as int]@.children.len(),
    ensures
        idx_view(final(out)@) == idx_view(old(out)@) + spec_subtree_many(
            tree_view(tree@),
            tree@[i as int]@.children.skip(k as int),
            i as int,
        ),
    decreases tree@.len() - i, tree@[i as int]@.children.len() - k,
{
    let ghost tv = tree_view(tree@);
    let ghost cs = tree@[i as int]@.children;
    proof {
        assert(node_wf_at(tv, i as int));
    }
    if k == tree[i].children.len() {
        proof {
            assert(cs.skip(k as int) =~= Seq::<int>::empty());
            assert(idx_view(out@) =~= idx_view(out@) + spec_subtree_many(tv, cs.skip(k as int), i as int));
        }
        return;
    }
    let c = tree[i].children[k];
    proof {
        assert(cs[k as int] == c as int);
        assert(cs.skip(k as int)[0] == cs[k as int]);
        assert((i as int) < c < tv.len());
    }
    let ghost before = idx_view(out@);
    out.push(c);
    proof {
        assert(idx_view(out@) =~= before.push(c as int));
        assert(tree@[c as int]@.children.skip(0) =~= tree@[c as int]@.children);
    }
    included_nodes_rec(tree, c, 0, out);
    let ghost mid = idx_view(out@);
    proof {
        assert(mid =~= before + (seq![c as int] + spec_subtree_many(tv, tv[c as int].children, c as int)));
    }
    included_nodes_rec(tree, i, k + 1, out);
    proof {
        assert(cs.skip(k as int).skip(1) =~= cs.skip(k as int + 1));
        assert(idx_view(out@) =~= before + spec_subtree_many(tv, cs.skip(k as int), i as int));
    }
}

impl ModuleNode {
    /// All indices of the subtree rooted at this node, the node itself
    /// excluded.
    pub fn included_nodes(&self, tree: &Vec<ModuleNode>) -> (res: Vec<usize>)
        requires
            tree_wf(tree_view(tree@)),
            self@.index < tree@.len(),
            tree@[self@.index]@ == self@,
        ensures
            idx_view(res@) == spec_included(tree_view(tree@), self@.index),
    {
        let mut out: Vec<usize> = Vec::new();
        proof {
            assert(tree@[self@.index]@.children.skip(0) =~= tree@[self@.index]@.children);
            assert(idx_view(out@) =~= Seq::<int>::empty());
        }
        included_nodes_rec(tree, self.index, 0, &mut out);
        proof {
            assert(idx_view(out@) =~= spec_included(tree_view(tree@), self@.index));
        }
        out
    }
}

/// Builds the possible-uses index of a well-formed node arena.
pub fn build_possible_uses(tree: &Vec<ModuleNode>) -> (res: Vec<PossibleUse>)
    requires
        tree_wf(tree_view(tree@)),
    ensures
        res.deep_view() == spec_possible_uses(tree_view(tree@)),
{
    let ghost tv = tree_view(tree@);
    let mut pus: Vec<PossibleUse> = Vec::new();
    let mut i: usize = 0;
    proof {
        assert(pus.deep_view() =~= Seq::<SpecPossible>::empty());
        assert(pus.deep_view() + spec_possible_uses_from(tv, 0) =~= spec_possible_uses(tv));
    }
    while i < tree.len()
        invariant
            tree_wf(tv),
            tv == tree_view(tree@),
            i <= tree@.len(),
            pus.deep_view() + spec_possible_uses_from(tv, i as int) == spec_possible_uses(tv),
        decreases tree@.len() - i,
    {
        let chain = node_chain(tree, i);
        let mut k: usize = 0;
        proof {
            assert(pus.deep_view() + (entries_of_node(tv, i as int, 0) + spec_possible_uses_from(
                tv,
                i as int + 1,
            )) =~= (pus.deep_view() + entries_of_node(tv, i as int, 0)) + spec_possible_uses_from(
                tv,
                i as int + 1,
            ));
        }
        while k < tree[i].usable_objects.len()
            invariant
                tree_wf(tv),
                tv == tree_view(tree@),
                i < tree@.len(),
                k <= tree@[i as int]@.usable_objects.len(),
                chain.deep_view() == spec_chain(tv, i as int),
                (pus.deep_view() + entries_of_node(tv, i as int, k as int))
                    + spec_possible_uses_from(tv, i as int + 1) == spec_possible_uses(tv),
            decreases tree@[i as int]@.usable_objects.len() - k,
        {
            let ghost o = tv[i as int].usable_objects[k as int];
            let ghost pre = pus.deep_view();
            let obj = &tree[i].usable_objects[k];
            proof {
                assert(obj@ == o);
            }
            match obj.object_type {
                ObjectType::Struct | ObjectType::Enum | ObjectType::Trait | ObjectType::Function => {
                    let mut key1 = clone_string_vec(&chain);
                    let ghost key1pre = key1.deep_view();
                    key1.push(obj.object_path.clone());
                    proof {
                        assert(key1.deep_view() =~= key1pre.push(o.path));
                    }
                    let entry1 = PossibleUse { key: key1, node_index: i, object: obj.clone() };
                    pus.push(entry1);
                    let ghost mid = pus.deep_view();
                    let mut key2: Vec<String> = Vec::new();
                    key2.push(obj.object_path.clone());
                    proof {
                        assert(key2.deep_view() =~= seq![o.path]);
                    }
                    let entry2 = PossibleUse { key: key2, node_index: i, object: obj.clone() };
                    pus.push(entry2);
                    proof {
                        assert(mid =~= pre.push(entries_of_object(tv, i as int, o)[0]));
                        assert(pus.deep_view() =~= pre + entries_of_object(tv, i as int, o));
                    }
                },
                ObjectType::RePublish => {
                    if !crate::paths::is_wildcard_path(obj.object_path.as_str()) {
                        let segs = split_path(obj.object_path.as_str());
                        let mut key1 = clone_string_vec(&chain);
                        let ghost key1pre = key1.deep_view();
                        let last = segs[segs.len() - 1].clone();
                        proof {
                            assert(segs.deep_view()[segs@.len() - 1] == spec_split(o.path).last());
                        }
                        key1.push(last);
                        proof {
                            assert(key1.deep_view() =~= key1pre.push(spec_split(o.path).last()));
                        }
                        let entry1 = PossibleUse { key: key1, node_index: i, object: obj.clone() };
                        pus.push(entry1);
                        proof {
                            assert(pus.deep_view() =~= pre + entries_of_object(tv, i as int, o));
                        }
                    } else {
                        proof {
                            assert(entries_of_object(tv, i as int, o) =~= Seq::<SpecPossible>::empty());
                            assert(pus.deep_view() =~= pre + entries_of_object(tv, i as int, o));
                        }
                    }
                },
                ObjectType::Use | ObjectType::ImplicitUse => {
                    proof {
                        assert(entries_of_object(tv, i as int, o) =~= Seq::<SpecPossible>::empty());
                        assert(pus.deep_view() =~= pre + entries_of_object(tv, i as int, o));
                    }
                },
            }
            proof {
                assert(entries_of_node(tv, i as int, k as int) == entries_of_object(tv, i as int, o)
                    + entries_of_node(tv, i as int, k as int + 1));
                assert((pus.deep_view() + entries_of_node(tv, i as int, k as int + 1))
                    =~= ((pre + entries_of_object(tv, i as int, o)) + entries_of_node(
                    tv,
                    i as int,
                    k as int + 1,
                )));
                assert(((pre + entries_of_object(tv, i as int, o)) + entries_of_node(
                    tv,
                    i as int,
                    k as int + 1,
                )) =~= (pre + entries_of_node(tv, i as int, k as int)));
            }
            k = k + 1;
        }
        proof {
            assert(entries_of_node(tv, i as int, k as int) =~= Seq::<SpecPossible>::empty());
            assert(pus.deep_view() + entries_of_node(tv, i as int, k as int) =~= pus.deep_view());
            assert((pus.deep_view() + spec_possible_uses_from(tv, i as int + 1)) =~= (
            pus.deep_view() + entries_of_node(tv, i as int, k as int)) + spec_possible_uses_from(
                tv,
                i as int + 1,
            ));
        }
        i = i + 1;
    }
    proof {
        assert(spec_possible_uses_from(tv, i as int) =~= Seq::<SpecPossible>::empty());
        assert(pus.deep_view() =~= pus.deep_view() + spec_possible_uses_from(tv, i as int));
    }
    pus
}

/// Looks a key up in the possible-uses index, preferring the shallowest and
/// then the earliest matching node.
pub fn lookup_possible_use<'a>(
    pus: &'a Vec<PossibleUse>,
    tree: &Vec<ModuleNode>,
    key: &Vec<String>,
) -> (res: Option<&'a PossibleUse>)
    requires
        forall|j: int|
            0 <= j < pus.deep_view().len() ==> #[trigger] entry_valid(
                tree_view(tree@),
                pus.deep_view()[j],
            ),
    ensures
        match res {
            Some(e) => spec_lookup(pus.deep_view(), tree_view(tree@), key.deep_view()) == Some(e@),
            None => spec_lookup(pus.deep_view(), tree_view(tree@), key.deep_view()) is None,
        },
{
    let ghost tv = tree_view(tree@);
    let ghost pusd = pus.deep_view();
    let ghost keyd = key.deep_view();
    let mut k: usize = 0;
    let mut cur: Option<&'a PossibleUse> = None;
    while k < pus.len()
        invariant
            tv == tree_view(tree@),
            pusd == pus.deep_view(),
            keyd == key.deep_view(),
            k <= pus@.len(),
            pusd.len() == pus@.len(),
            forall|j: int| 0 <= j < pusd.len() ==> #[trigger] entry_valid(tv, pusd[j]),
            match cur {
                Some(c) => c@.node_index < tv.len() && lookup_from(pusd, tv, keyd, k as int, Some(c@))
                    == spec_lookup(pusd, tv, keyd),
                None => lookup_from(pusd, tv, keyd, k as int, None) == spec_lookup(pusd, tv, keyd),
            },
        decreases pus@.len() - k,
    {
        let e = &pus[k];
        proof {
            assert(pusd[k as int] == e@);
            assert(entry_valid(tv, pusd[k as int]));
        }
        let key_matches = segs_eq(&e.key, key);
        let take = if key_matches {
            match cur {
                None => true,
                Some(c) => {
                    let el = tree[e.node_index].level;
                    let cl = tree[c.node_index].level;
                    el < cl || (el == cl && e.node_index < c.node_index)
                },
            }
        } else {
            false
        };
        if take {
            cur = Some(e);
        }
        k = k + 1;
    }
    cur
}

/// The node arena together with its possible-uses index, built once per run
/// and then immutable.
#[derive(Debug)]
pub struct ModuleTree {
    pub tree: Vec<ModuleNode>,
    pub possible_uses: Vec<PossibleUse>,
}

impl ModuleTree {
    /// The abstract node arena.
    pub open spec fn spec_tree(&self) -> Seq<SpecNode> {
        tree_view(self.tree@)
    }

    /// The arena is well-formed, non-empty, and the index is exactly the one
    /// derived from the arena.
    pub open spec fn wf(&self) -> bool {
        &&& tree_wf(self.spec_tree())
        &&& self.spec_tree().len() > 0
        &&& self.possible_uses.deep_view() == spec_possible_uses(self.spec_tree())
    }

    /// Assembles a tree from a well-formed node arena, building the
    /// possible-uses index.
    pub fn new(tree: Vec<ModuleNode>) -> (res: Self)
        requires
            tree_wf(tree_view(tree@)),
            tree@.len() > 0,
        ensures
            res.wf(),
            res.spec_tree() == tree_view(tree@),
    {
        let possible_uses = build_possible_uses(&tree);
        ModuleTree { tree, possible_uses }
    }

    pub fn tree(&self) -> (res: &Vec<ModuleNode>)
        ensures
            res == &self.tree,
            tree_view(res@) == self.spec_tree(),
    {
        &self.tree
    }

    pub fn possible_uses(&self) -> (res: &Vec<PossibleUse>)
        ensures
            res == &self.possible_uses,
    {
        &self.possible_uses
    }
}

/// In a well-formed tree, a node's level equals the length of its chain of
/// ancestors up to the root.
pub proof fn lemma_level_is_depth(tree: Seq<SpecNode>, i: int)
    requires
        tree_wf(tree),
        0 <= i < tree.len(),
    ensures
        spec_chain(tree, i).len() == tree[i].level + 1,
    decreases i,
{
    assert(node_wf_at(tree, i));
    match tree[i].parent_index {
        Some(p) => {
            lemma_level_is_depth(tree, p);
        },
        None => {},
    }
}

/// For every node of a well-formed tree, the parent is either absent — for
/// the root alone — or a strictly smaller index whose children list contains
/// the node's index.
pub proof fn lemma_parent_structure(m: &ModuleTree)
    requires
        m.wf(),
    ensures
        forall|i: int|
            0 <= i < m.spec_tree().len() ==> match (#[trigger] m.spec_tree()[i]).parent_index {
                Some(p) => 0 <= p < i && m.spec_tree()[p].children.contains(i),
                None => i == 0,
            },
        m.spec_tree()[0].parent_index is None,
{
    assert forall|i: int| 0 <= i < m.spec_tree().len() implies match (
    #[trigger] m.spec_tree()[i]).parent_index {
        Some(p) => 0 <= p < i && m.spec_tree()[p].children.contains(i),
        None => i == 0,
    } by {
        assert(node_wf_at(m.spec_tree(), i));
    }
    assert(node_wf_at(m.spec_tree(), 0));
}

} // verus!

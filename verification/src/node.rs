//! Module nodes: one record per source file or inline sub-module, held in a
//! dense insertion-ordered arena.

use vstd::prelude::*;
use crate::objects::{SpecObject, UsableObject};

verus! {

/// The mathematical value of a [`ModuleNode`].
pub ghost struct SpecNode {
    pub index: int,
    pub file_path: Seq<char>,
    pub level: int,
    pub parent_index: Option<int>,
    pub module_name: Seq<char>,
    pub children: Seq<int>,
    pub usable_objects: Seq<SpecObject>,
}

/// One module of the analysed program.
#[derive(Debug)]
pub struct ModuleNode {
    /// Position of this node in the tree's backing sequence.
    pub index: usize,
    /// Source path of the file the module was read from.
    pub file_path: String,
    /// Distance from the crate root; the root has level 0.
    pub level: usize,
    /// Index of the containing module; absent exactly for the root.
    pub parent_index: Option<usize>,
    /// Last path segment; for the root, the crate name.
    pub module_name: String,
    /// Indices of the child modules, in insertion order.
    pub children: Vec<usize>,
    /// What the module defines, imports, re-exports or references.
    pub usable_objects: Vec<UsableObject>,
}

impl View for ModuleNode {
    type V = SpecNode;

    open spec fn view(&self) -> SpecNode {
        SpecNode {
            index: self.index as int,
            file_path: self.file_path@,
            level: self.level as int,
            parent_index: match self.parent_index {
                Some(p) => Some(p as int),
                None => None,
            },
            module_name: self.module_name@,
            children: self.children@.map_values(|c: usize| c as int),
            usable_objects: self.usable_objects.deep_view(),
        }
    }
}

/// The abstract values of a whole node arena.
pub open spec fn tree_view(tree: Seq<ModuleNode>) -> Seq<SpecNode> {
    tree.map_values(|n: ModuleNode| n@)
}

/// Well-formedness of one node within the arena: the node knows its own
/// index; the root (and only the root) has no parent and level 0; any other
/// node's parent is a strictly smaller index, lies one level higher, and lists
/// the node among its children; and all recorded children lie behind the node
/// and point back at it.
pub open spec fn node_wf_at(tree: Seq<SpecNode>, i: int) -> bool {
    let n = tree[i];
    &&& n.index == i
    &&& (n.parent_index is None <==> i == 0)
    &&& (n.level == 0 <==> i == 0)
    &&& match n.parent_index {
        None => n.level == 0,
        Some(p) => 0 <= p < i && tree[p].level + 1 == n.level && tree[p].children.contains(i),
    }
    &&& forall|k: int|
        0 <= k < n.children.len() ==> i < #[trigger] n.children[k] < tree.len()
            && tree[n.children[k]].parent_index == Some(i)
}

/// Well-formedness of the arena.
pub open spec fn tree_wf(tree: Seq<SpecNode>) -> bool {
    forall|i: int| 0 <= i < tree.len() ==> #[trigger] node_wf_at(tree, i)
}

/// The chain of module names from the root down to node `i`.
pub open spec fn spec_chain(tree: Seq<SpecNode>, i: int) -> Seq<Seq<char>>
    decreases i,
{
    if 0 <= i < tree.len() {
        match tree[i].parent_index {
            None => seq![tree[i].module_name],
            Some(p) => if 0 <= p < i {
                spec_chain(tree, p).push(tree[i].module_name)
            } else {
                seq![tree[i].module_name]
            },
        }
    } else {
        Seq::empty()
    }
}

impl ModuleNode {
    pub fn new(index: usize, file_path: String, level: usize, parent_index: Option<usize>, module_name: String) -> (res: Self)
        ensures
            res@ == (SpecNode {
                index: index as int,
                file_path: file_path@,
                level: level as int,
                parent_index: match parent_index {
                    Some(p) => Some(p as int),
                    None => None,
                },
                module_name: module_name@,
                children: Seq::empty(),
                usable_objects: Seq::empty(),
            }),
    {
        let res = ModuleNode {
            index,
            file_path,
            level,
            parent_index,
            module_name,
            children: Vec::new(),
            usable_objects: Vec::new(),
        };
        proof {
            assert(res@.children =~= Seq::<int>::empty());
            assert(res@.usable_objects =~= Seq::<SpecObject>::empty());
        }
        res
    }

    /// Records a freshly created child module.
    pub fn register_child(&mut self, child_index: usize)
        ensures
            final(self)@ == (SpecNode { children: old(self)@.children.push(child_index as int), ..old(self)@ }),
    {
        let ghost pre = self@.children;
        self.children.push(child_index);
        proof {
            assert(self@.children =~= pre.push(child_index as int));
        }
    }

    pub fn level(&self) -> (res: usize)
        ensures
            res as int == self@.level,
    {
        self.level
    }

    pub fn module_name(&self) -> (res: &String)
        ensures
            res@ == self@.module_name,
    {
        &self.module_name
    }

    pub fn parent_index(&self) -> (res: Option<usize>)
        ensures
            match res {
                Some(p) => self@.parent_index == Some(p as int),
                None => self@.parent_index is None,
            },
    {
        self.parent_index
    }
}

/// The node indices of the subtrees rooted at the members of `cs` that lie
/// strictly behind `from` in the arena, listed pre-order.
pub open spec fn spec_subtree_many(tree: Seq<SpecNode>, cs: Seq<int>, from: int) -> Seq<int>
    decreases tree.len() - from, cs.len(),
{
    if cs.len() == 0 || from < 0 || from >= tree.len() {
        Seq::empty()
    } else {
        let c = cs[0];
        (if from < c < tree.len() {
            seq![c] + spec_subtree_many(tree, tree[c].children, c)
        } else {
            Seq::empty()
        }) + spec_subtree_many(tree, cs.skip(1), from)
    }
}

/// All indices of the subtree rooted at node `i`, the node itself excluded.
pub open spec fn spec_included(tree: Seq<SpecNode>, i: int) -> Seq<int> {
    if 0 <= i < tree.len() {
        spec_subtree_many(tree, tree[i].children, i)
    } else {
        Seq::empty()
    }
}

} // verus!

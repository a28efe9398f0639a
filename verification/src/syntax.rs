//! The crate's own concrete-syntax model: a tree of plain nodes, each with a
//! kind from a closed taxonomy, its source text, its byte range, and its
//! children in source order. Kinds the extractor treats alike are folded into
//! one: `OtherExpr` stands for every expression or statement kind that is
//! recursed through unchanged, `Skipped` for the kinds that are ignored, and
//! `Unknown` for anything else.

use vstd::prelude::*;
use crate::objects::TextRange;

verus! {

/// The syntax-node kinds the extractor distinguishes.
#[derive(Clone, Copy, PartialEq, Eq, Structural, Debug)]
pub enum SynKind {
    Use,
    UseTree,
    UseTreeList,
    Path,
    PathSegment,
    PathType,
    PathExpr,
    Name,
    NameRef,
    Visibility,
    Struct,
    Enum,
    Trait,
    Fn,
    Impl,
    Module,
    ItemList,
    AssocItemList,
    RecordFieldList,
    TupleFieldList,
    Variant,
    VariantList,
    ParamList,
    RetType,
    BlockExpr,
    MatchExpr,
    MatchArmList,
    TupleStructPat,
    TupleType,
    TuplePat,
    RefType,
    SliceType,
    ParenType,
    ImplTraitType,
    TypeBoundList,
    TypeBound,
    GenericArgList,
    TypeArg,
    Lifetime,
    WildcardPat,
    IdentPat,
    Attr,
    OtherExpr,
    Skipped,
    Unknown,
}

/// One node of the syntax tree.
#[derive(Debug)]
pub struct SynNode {
    pub kind: SynKind,
    /// The node's source text.
    pub text: String,
    /// The node's byte span in the file.
    pub range: TextRange,
    pub children: Vec<SynNode>,
}

impl SynNode {
    pub fn new(kind: SynKind, text: String, range: TextRange, children: Vec<SynNode>) -> (res: Self)
        ensures
            res == (SynNode { kind, text, range, children }),
    {
        SynNode { kind, text, range, children }
    }
}

/// The number of nodes in the subtrees of `cs[k..]`, counted for termination
/// measures.
pub open spec fn syn_size_many(cs: Seq<SynNode>, k: int) -> nat
    decreases cs, cs.len() - k, 0nat
    via syn_size_many_decreases
{
    if 0 <= k < cs.len() {
        syn_size(cs[k]) + syn_size_many(cs, k + 1)
    } else {
        0
    }
}

/// The number of nodes in the tree rooted at `node`.
pub open spec fn syn_size(node: SynNode) -> nat
    decreases node, 0int, 1nat
    via syn_size_decreases
{
    1 + syn_size_many(node.children@, 0)
}

#[via_fn]
proof fn syn_size_many_decreases(cs: Seq<SynNode>, k: int) {
    broadcast use vstd::seq::axiom_seq_index_decreases;

    if 0 <= k < cs.len() {
        assert(decreases_to!(cs => cs[k]));
    }
}

#[via_fn]
proof fn syn_size_decreases(node: SynNode) {
    broadcast use vstd::std_specs::vec::axiom_vec_decreases_to_view;

    assert(decreases_to!(node => node.children));
    assert(decreases_to!(node.children => node.children@));
}

} // verus!

//! Declarative access rules over the use graph, and the violations they
//! report.
//!
//! A layer name matches a node when it equals the node's own module name or
//! the parent's module name. Every rule scans the nodes in index order and,
//! for a node of its accessor layer, the node's resolved relations (implicit
//! uses included) in order; the first offending relation is reported.
//! Relations of a node to itself never offend a rule.

use vstd::prelude::*;
use crate::node::SpecNode;
use crate::objects::{SpecRelation, UseRelation};
use crate::paths::str_eq;
use crate::resolve::spec_object_uses;

verus! {

/// The kinds of violation a check can report.
#[derive(Clone, Copy, PartialEq, Eq, Structural, Debug)]
pub enum RuleViolationType {
    LayerDoesNotExist,
    IncompleteLayerSpecification,
    ForbiddenAccess,
    RequiredAccessMissing,
    NotAllowedAccess,
    CyclicDependency,
}

/// The accessor layer may not access any of the `accessed` layers. With
/// `when_same_parent`, the rule only applies when accessor and accessed
/// module share the same parent node. A failure is reported as
/// `ForbiddenAccess`.
#[derive(Debug)]
pub struct MayNotAccess {
    accessor: String,
    accessed: Vec<String>,
    when_same_parent: bool,
}

/// The accessor layer may reference only the `allowed` layers. A failure is
/// reported as `NotAllowedAccess`.
#[derive(Debug)]
pub struct MayOnlyAccess {
    accessor: String,
    allowed: Vec<String>,
}

/// The accessor layer must not reference any layer outside `allowed`, its own
/// layer excepted. A failure is reported as `NotAllowedAccess`.
#[derive(Debug)]
pub struct MustNotAccessAnythingExcept {
    accessor: String,
    allowed: Vec<String>,
}

/// Every node of the accessor layer must reference each of the `required`
/// layers. A failure is reported as `RequiredAccessMissing`.
#[derive(Debug)]
pub struct MustAccess {
    accessor: String,
    required: Vec<String>,
}

/// The mathematical value of a rule.
pub ghost enum SpecRule {
    MayNotAccess { accessor: Seq<char>, accessed: Seq<Seq<char>>, when_same_parent: bool },
    MayOnlyAccess { accessor: Seq<char>, allowed: Seq<Seq<char>> },
    MustNotAccessAnythingExcept { accessor: Seq<char>, allowed: Seq<Seq<char>> },
    MustAccess { accessor: Seq<char>, required: Seq<Seq<char>> },
}

impl SpecRule {
    /// The layer name the rule constrains.
    pub open spec fn accessor(self) -> Seq<char> {
        match self {
            SpecRule::MayNotAccess { accessor, .. } => accessor,
            SpecRule::MayOnlyAccess { accessor, .. } => accessor,
            SpecRule::MustNotAccessAnythingExcept { accessor, .. } => accessor,
            SpecRule::MustAccess { accessor, .. } => accessor,
        }
    }

    /// The layer names the rule lists besides the accessor.
    pub open spec fn listed_layers(self) -> Seq<Seq<char>> {
        match self {
            SpecRule::MayNotAccess { accessed, .. } => accessed,
            SpecRule::MayOnlyAccess { allowed, .. } => allowed,
            SpecRule::MustNotAccessAnythingExcept { allowed, .. } => allowed,
            SpecRule::MustAccess { required, .. } => required,
        }
    }
}

impl MayNotAccess {
    pub fn new(accessor: String, accessed_layers: Vec<String>, when_same_parent: bool) -> (res: Self)
        ensures
            res@ == (SpecRule::MayNotAccess {
                accessor: accessor@,
                accessed: accessed_layers.deep_view(),
                when_same_parent,
            }),
    {
        MayNotAccess { accessor, accessed: accessed_layers, when_same_parent }
    }

    pub fn accessor(&self) -> (res: &String)
        ensures
            res@ == self@.accessor(),
    {
        &self.accessor
    }

    pub fn accessed(&self) -> (res: &Vec<String>)
        ensures
            res.deep_view() == self@.listed_layers(),
    {
        &self.accessed
    }

    pub fn when_same_parent(&self) -> (res: bool)
        ensures
            self@ == (SpecRule::MayNotAccess {
                accessor: self@.accessor(),
                accessed: self@.listed_layers(),
                when_same_parent: res,
            }),
    {
        self.when_same_parent
    }
}

impl View for MayNotAccess {
    type V = SpecRule;

    closed spec fn view(&self) -> SpecRule {
        SpecRule::MayNotAccess {
            accessor: self.accessor@,
            accessed: self.accessed.deep_view(),
            when_same_parent: self.when_same_parent,
        }
    }
}

impl MayOnlyAccess {
    pub fn new(accessor: String, allowed_layers: Vec<String>) -> (res: Self)
        ensures
            res@ == (SpecRule::MayOnlyAccess {
                accessor: accessor@,
                allowed: allowed_layers.deep_view(),
            }),
    {
        MayOnlyAccess { accessor, allowed: allowed_layers }
    }

    pub fn accessor(&self) -> (res: &String)
        ensures
            res@ == self@.accessor(),
    {
        &self.accessor
    }

    pub fn allowed(&self) -> (res: &Vec<String>)
        ensures
            res.deep_view() == self@.listed_layers(),
    {
        &self.allowed
    }
}

impl View for MayOnlyAccess {
    type V = SpecRule;

    closed spec fn view(&self) -> SpecRule {
        SpecRule::MayOnlyAccess { accessor: self.accessor@, allowed: self.allowed.deep_view() }
    }
}

impl MustNotAccessAnythingExcept {
    pub fn new(accessor: String, allowed_layers: Vec<String>) -> (res: Self)
        ensures
            res@ == (SpecRule::MustNotAccessAnythingExcept {
                accessor: accessor@,
                allowed: allowed_layers.deep_view(),
            }),
    {
        MustNotAccessAnythingExcept { accessor, allowed: allowed_layers }
    }

    pub fn accessor(&self) -> (res: &String)
        ensures
            res@ == self@.accessor(),
    {
        &self.accessor
    }

    pub fn allowed(&self) -> (res: &Vec<String>)
        ensures
            res.deep_view() == self@.listed_layers(),
    {
        &self.allowed
    }
}

impl View for MustNotAccessAnythingExcept {
    type V = SpecRule;

    closed spec fn view(&self) -> SpecRule {
        SpecRule::MustNotAccessAnythingExcept {
            accessor: self.accessor@,
            allowed: self.allowed.deep_view(),
        }
    }
}

impl MustAccess {
    pub fn new(accessor: String, required_layers: Vec<String>) -> (res: Self)
        ensures
            res@ == (SpecRule::MustAccess {
                accessor: accessor@,
                required: required_layers.deep_view(),
            }),
    {
        MustAccess { accessor, required: required_layers }
    }

    pub fn accessor(&self) -> (res: &String)
        ensures
            res@ == self@.accessor(),
    {
        &self.accessor
    }

    pub fn required(&self) -> (res: &Vec<String>)
        ensures
            res.deep_view() == self@.listed_layers(),
    {
        &self.required
    }
}

impl View for MustAccess {
    type V = SpecRule;

    closed spec fn view(&self) -> SpecRule {
        SpecRule::MustAccess { accessor: self.accessor@, required: self.required.deep_view() }
    }
}

/// One access rule of an architecture.
#[derive(Debug)]
pub enum AccessRule {
    MayNotAccess(MayNotAccess),
    MayOnlyAccess(MayOnlyAccess),
    MustNotAccessAnythingExcept(MustNotAccessAnythingExcept),
    MustAccess(MustAccess),
}

impl View for AccessRule {
    type V = SpecRule;

    open spec fn view(&self) -> SpecRule {
        match self {
            AccessRule::MayNotAccess(r) => r@,
            AccessRule::MayOnlyAccess(r) => r@,
            AccessRule::MustNotAccessAnythingExcept(r) => r@,
            AccessRule::MustAccess(r) => r@,
        }
    }
}

impl DeepView for AccessRule {
    type V = SpecRule;

    open spec fn deep_view(&self) -> SpecRule {
        self.view()
    }
}

impl Clone for AccessRule {
    fn clone(&self) -> (res: Self)
        ensures
            res@ == self@,
    {
        match self {
            AccessRule::MayNotAccess(r) => AccessRule::MayNotAccess(
                MayNotAccess {
                    accessor: r.accessor.clone(),
                    accessed: crate::tree::clone_string_vec(&r.accessed),
                    when_same_parent: r.when_same_parent,
                },
            ),
            AccessRule::MayOnlyAccess(r) => AccessRule::MayOnlyAccess(
                MayOnlyAccess {
                    accessor: r.accessor.clone(),
                    allowed: crate::tree::clone_string_vec(&r.allowed),
                },
            ),
            AccessRule::MustNotAccessAnythingExcept(r) => AccessRule::MustNotAccessAnythingExcept(
                MustNotAccessAnythingExcept {
                    accessor: r.accessor.clone(),
                    allowed: crate::tree::clone_string_vec(&r.allowed),
                },
            ),
            AccessRule::MustAccess(r) => AccessRule::MustAccess(
                MustAccess {
                    accessor: r.accessor.clone(),
                    required: crate::tree::clone_string_vec(&r.required),
                },
            ),
        }
    }
}

/// A reported violation: its kind, the rule that fired (absent for layer
/// coverage), and the witnessing edges.
#[derive(Debug)]
pub struct RuleViolation {
    pub violation_type: RuleViolationType,
    pub offending_rule: Option<AccessRule>,
    pub witnesses: Vec<(usize, UseRelation)>,
}

/// The mathematical value of a [`RuleViolation`].
pub ghost struct SpecViolation {
    pub violation_type: RuleViolationType,
    pub rule: Option<SpecRule>,
    pub witnesses: Seq<(usize, SpecRelation)>,
}

impl View for RuleViolation {
    type V = SpecViolation;

    open spec fn view(&self) -> SpecViolation {
        SpecViolation {
            violation_type: self.violation_type,
            rule: match self.offending_rule {
                Some(r) => Some(r@),
                None => None,
            },
            witnesses: self.witnesses.deep_view(),
        }
    }
}

impl RuleViolation {
    pub fn new(
        violation_type: RuleViolationType,
        offending_rule: Option<AccessRule>,
        witnesses: Vec<(usize, UseRelation)>,
    ) -> (res: Self)
        ensures
            res@ == (SpecViolation {
                violation_type,
                rule: match offending_rule {
                    Some(r) => Some(r@),
                    None => None,
                },
                witnesses: witnesses.deep_view(),
            }),
    {
        RuleViolation { violation_type, offending_rule, witnesses }
    }

    pub fn violation_type(&self) -> (res: RuleViolationType)
        ensures
            res == self@.violation_type,
    {
        self.violation_type
    }
}

/// `layer` names node `i`: it equals the node's module name or its parent's.
pub open spec fn spec_layer_match(tree: Seq<SpecNode>, i: int, layer: Seq<char>) -> bool {
    tree[i].module_name == layer || (match tree[i].parent_index {
        Some(p) => tree[p].module_name == layer,
        None => false,
    })
}

/// One of `layers` names node `i`.
pub open spec fn spec_in_layers(tree: Seq<SpecNode>, i: int, layers: Seq<Seq<char>>) -> bool {
    exists|j: int| 0 <= j < layers.len() && spec_layer_match(tree, i, #[trigger] layers[j])
}

/// Nodes `a` and `b` lie under the same parent.
pub open spec fn spec_same_parent(tree: Seq<SpecNode>, a: int, b: int) -> bool {
    tree[a].parent_index == tree[b].parent_index
}

/// Relation `rel` of accessor node `i` offends the rule.
pub open spec fn spec_rel_bad(tree: Seq<SpecNode>, rule: SpecRule, i: int, rel: SpecRelation) -> bool {
    match rule {
        SpecRule::MayNotAccess { accessed, when_same_parent, .. } => rel.owner_node_index != i
            && spec_in_layers(tree, rel.owner_node_index, accessed) && (!when_same_parent
            || spec_same_parent(tree, i, rel.owner_node_index)),
        SpecRule::MayOnlyAccess { allowed, .. } => rel.owner_node_index != i && !spec_in_layers(
            tree,
            rel.owner_node_index,
            allowed,
        ),
        SpecRule::MustNotAccessAnythingExcept { accessor, allowed } => rel.owner_node_index != i
            && !spec_in_layers(tree, rel.owner_node_index, allowed) && !spec_layer_match(
            tree,
            rel.owner_node_index,
            accessor,
        ),
        SpecRule::MustAccess { .. } => false,
    }
}

/// The first offending relation of node `i`, scanning `rels` from `k`.
pub open spec fn spec_first_bad(
    tree: Seq<SpecNode>,
    rule: SpecRule,
    i: int,
    rels: Seq<SpecRelation>,
    k: int,
) -> Option<SpecRelation>
    decreases rels.len() - k,
{
    if 0 <= k < rels.len() {
        if spec_rel_bad(tree, rule, i, rels[k]) {
            Some(rels[k])
        } else {
            spec_first_bad(tree, rule, i, rels, k + 1)
        }
    } else {
        None
    }
}

/// Node `i` references some node of layer `layer`.
pub open spec fn spec_references_layer(tree: Seq<SpecNode>, i: int, layer: Seq<char>) -> bool {
    exists|j: int|
        0 <= j < spec_object_uses(tree, i, true).len() && spec_layer_match(
            tree,
            (#[trigger] spec_object_uses(tree, i, true)[j]).owner_node_index,
            layer,
        )
}

/// The first required layer node `i` fails to reference, from position `k`.
pub open spec fn spec_first_missing(
    tree: Seq<SpecNode>,
    i: int,
    required: Seq<Seq<char>>,
    k: int,
) -> Option<Seq<char>>
    decreases required.len() - k,
{
    if 0 <= k < required.len() {
        if !spec_references_layer(tree, i, required[k]) {
            Some(required[k])
        } else {
            spec_first_missing(tree, i, required, k + 1)
        }
    } else {
        None
    }
}

/// The first violation of the rule, scanning accessor nodes from `i`.
pub open spec fn spec_rule_viol_from(tree: Seq<SpecNode>, rule: SpecRule, i: int) -> Option<
    (int, Seq<(usize, SpecRelation)>),
>
    decreases tree.len() - i,
{
    if 0 <= i < tree.len() {
        if spec_layer_match(tree, i, rule.accessor()) {
            match rule {
                SpecRule::MustAccess { required, .. } => match spec_first_missing(
                    tree,
                    i,
                    required,
                    0,
                ) {
                    Some(_) => Some((i, Seq::empty())),
                    None => spec_rule_viol_from(tree, rule, i + 1),
                },
                _ => match spec_first_bad(tree, rule, i, spec_object_uses(tree, i, true), 0) {
                    Some(rel) => Some((i, seq![((i as usize), rel)])),
                    None => spec_rule_viol_from(tree, rule, i + 1),
                },
            }
        } else {
            spec_rule_viol_from(tree, rule, i + 1)
        }
    } else {
        None
    }
}

/// The violation kind a rule reports when it fails.
pub open spec fn spec_rule_kind(rule: SpecRule) -> RuleViolationType {
    match rule {
        SpecRule::MayNotAccess { .. } => RuleViolationType::ForbiddenAccess,
        SpecRule::MayOnlyAccess { .. } => RuleViolationType::NotAllowedAccess,
        SpecRule::MustNotAccessAnythingExcept { .. } => RuleViolationType::NotAllowedAccess,
        SpecRule::MustAccess { .. } => RuleViolationType::RequiredAccessMissing,
    }
}

/// The verdict of one rule on the tree: `None`, or the kind and witnesses of
/// its first violation.
pub open spec fn spec_rule_check(tree: Seq<SpecNode>, rule: SpecRule) -> Option<SpecViolation> {
    match spec_rule_viol_from(tree, rule, 0) {
        Some((_, witnesses)) => Some(
            SpecViolation { violation_type: spec_rule_kind(rule), rule: Some(rule), witnesses },
        ),
        None => None,
    }
}

/// A rule with an empty layer list on the accessed side never fires.
pub proof fn lemma_empty_may_not_access_never_fires(
    tree: Seq<SpecNode>,
    accessor: Seq<char>,
    when_same_parent: bool,
)
    ensures
        spec_rule_check(
            tree,
            SpecRule::MayNotAccess { accessor, accessed: Seq::empty(), when_same_parent },
        ) is None,
{
    let rule = SpecRule::MayNotAccess { accessor, accessed: Seq::empty(), when_same_parent };
    lemma_empty_may_not_access_from(tree, rule, 0);
}

proof fn lemma_empty_first_bad_none(
    tree: Seq<SpecNode>,
    rule: SpecRule,
    i: int,
    rels: Seq<SpecRelation>,
    k: int,
)
    requires
        rule is MayNotAccess,
        rule.listed_layers().len() == 0,
    ensures
        spec_first_bad(tree, rule, i, rels, k) is None,
    decreases rels.len() - k,
{
    if 0 <= k < rels.len() {
        assert(!spec_rel_bad(tree, rule, i, rels[k]));
        lemma_empty_first_bad_none(tree, rule, i, rels, k + 1);
    }
}

proof fn lemma_empty_may_not_access_from(tree: Seq<SpecNode>, rule: SpecRule, i: int)
    requires
        rule is MayNotAccess,
        rule.listed_layers().len() == 0,
    ensures
        spec_rule_viol_from(tree, rule, i) is None,
    decreases tree.len() - i,
{
    if 0 <= i < tree.len() {
        lemma_empty_first_bad_none(tree, rule, i, spec_object_uses(tree, i, true), 0);
        lemma_empty_may_not_access_from(tree, rule, i + 1);
    }
}

/// Whether a string equals some element of a string vector.
pub fn contains_string(v: &Vec<String>, s: &str) -> (res: bool)
    ensures
        res == v.deep_view().contains(s@),
{
    let mut j: usize = 0;
    while j < v.len()
        invariant
            j <= v@.len(),
            v.deep_view().len() == v@.len(),
            forall|k: int| 0 <= k < j ==> v.deep_view()[k] != s@,
        decreases v@.len() - j,
    {
        proof {
            assert(v.deep_view()[j as int] == v@[j as int]@);
        }
        if str_eq(v[j].as_str(), s) {
            assert(v.deep_view()[j as int] == s@);
            return true;
        }
        j = j + 1;
    }
    proof {
        if v.deep_view().contains(s@) {
            let k = choose|k: int| 0 <= k < v.deep_view().len() && v.deep_view()[k] == s@;
        }
    }
    false
}

/// Whether `layer` names node `i`.
pub(crate) fn layer_match(tree: &Vec<crate::node::ModuleNode>, i: usize, layer: &str) -> (res: bool)
    requires
        crate::node::tree_wf(crate::node::tree_view(tree@)),
        i < tree@.len(),
    ensures
        res == spec_layer_match(crate::node::tree_view(tree@), i as int, layer@),
{
    let ghost tv = crate::node::tree_view(tree@);
    proof {
        assert(crate::node::node_wf_at(tv, i as int));
    }
    if str_eq(tree[i].module_name.as_str(), layer) {
        return true;
    }
    match tree[i].parent_index {
        Some(p) => str_eq(tree[p].module_name.as_str(), layer),
        None => false,
    }
}

/// Whether some layer of `layers` names node `i`.
fn in_layers(tree: &Vec<crate::node::ModuleNode>, i: usize, layers: &Vec<String>) -> (res: bool)
    requires
        crate::node::tree_wf(crate::node::tree_view(tree@)),
        i < tree@.len(),
    ensures
        res == spec_in_layers(crate::node::tree_view(tree@), i as int, layers.deep_view()),
{
    let ghost tv = crate::node::tree_view(tree@);
    let mut j: usize = 0;
    while j < layers.len()
        invariant
            crate::node::tree_wf(tv),
            tv == crate::node::tree_view(tree@),
            i < tree@.len(),
            j <= layers@.len(),
            layers.deep_view().len() == layers@.len(),
            forall|k: int|
                0 <= k < j ==> !spec_layer_match(tv, i as int, #[trigger] layers.deep_view()[k]),
        decreases layers@.len() - j,
    {
        proof {
            assert(layers.deep_view()[j as int] == layers@[j as int]@);
        }
        if layer_match(tree, i, layers[j].as_str()) {
            return true;
        }
        j = j + 1;
    }
    false
}

/// Whether nodes `a` and `b` lie under the same parent.
fn same_parent(tree: &Vec<crate::node::ModuleNode>, a: usize, b: usize) -> (res: bool)
    requires
        a < tree@.len(),
        b < tree@.len(),
    ensures
        res == spec_same_parent(crate::node::tree_view(tree@), a as int, b as int),
{
    match (tree[a].parent_index, tree[b].parent_index) {
        (Some(pa), Some(pb)) => pa == pb,
        (None, None) => true,
        _ => false,
    }
}

/// Whether relation `rel` of accessor node `i` offends the rule.
fn rel_bad(
    tree: &Vec<crate::node::ModuleNode>,
    rule: &AccessRule,
    i: usize,
    rel: &UseRelation,
) -> (res: bool)
    requires
        crate::node::tree_wf(crate::node::tree_view(tree@)),
        i < tree@.len(),
        rel@.owner_node_index < tree@.len(),
    ensures
        res == spec_rel_bad(crate::node::tree_view(tree@), rule@, i as int, rel@),
{
    let ghost tv = crate::node::tree_view(tree@);
    let target = rel.owner_node_index;
    if target == i {
        return false;
    }
    match rule {
        AccessRule::MayNotAccess(r) => {
            in_layers(tree, target, &r.accessed) && (!r.when_same_parent || same_parent(
                tree,
                i,
                target,
            ))
        },
        AccessRule::MayOnlyAccess(r) => !in_layers(tree, target, &r.allowed),
        AccessRule::MustNotAccessAnythingExcept(r) => !in_layers(tree, target, &r.allowed)
            && !layer_match(tree, target, r.accessor.as_str()),
        AccessRule::MustAccess(_) => false,
    }
}

/// Whether node `i` references some node of layer `layer`.
fn references_layer(
    tree: &Vec<crate::node::ModuleNode>,
    rels: &Vec<UseRelation>,
    i: usize,
    layer: &str,
) -> (res: bool)
    requires
        crate::node::tree_wf(crate::node::tree_view(tree@)),
        i < tree@.len(),
        rels.deep_view() == spec_object_uses(crate::node::tree_view(tree@), i as int, true),
    ensures
        res == spec_references_layer(crate::node::tree_view(tree@), i as int, layer@),
{
    let ghost tv = crate::node::tree_view(tree@);
    proof {
        crate::resolve::lemma_object_uses_valid(tv, i as int, true);
    }
    let mut j: usize = 0;
    while j < rels.len()
        invariant
            crate::node::tree_wf(tv),
            tv == crate::node::tree_view(tree@),
            i < tree@.len(),
            j <= rels@.len(),
            rels.deep_view() == spec_object_uses(tv, i as int, true),
            rels.deep_view().len() == rels@.len(),
            forall|k: int|
                0 <= k < rels.deep_view().len() ==> crate::resolve::relation_valid(
                    tv,
                    #[trigger] rels.deep_view()[k],
                ),
            forall|k: int|
                0 <= k < j ==> !spec_layer_match(
                    tv,
                    (#[trigger] rels.deep_view()[k]).owner_node_index,
                    layer@,
                ),
        decreases rels@.len() - j,
    {
        proof {
            assert(rels@[j as int]@ == rels.deep_view()[j as int]);
            assert(crate::resolve::relation_valid(tv, rels.deep_view()[j as int]));
        }
        if layer_match(tree, rels[j].owner_node_index, layer) {
            return true;
        }
        j = j + 1;
    }
    proof {
        if spec_references_layer(tv, i as int, layer@) {
            let k = choose|k: int|
                0 <= k < spec_object_uses(tv, i as int, true).len() && spec_layer_match(
                    tv,
                    (#[trigger] spec_object_uses(tv, i as int, true)[k]).owner_node_index,
                    layer@,
                );
        }
    }
    false
}

impl AccessRule {
    /// Whether every layer name the rule mentions belongs to `layer_names`.
    pub fn validate(&self, layer_names: &Vec<String>) -> (res: bool)
        ensures
            res == spec_rule_valid(layer_names.deep_view(), self@),
    {
        let (accessor, listed): (&String, &Vec<String>) = match self {
            AccessRule::MayNotAccess(r) => (&r.accessor, &r.accessed),
            AccessRule::MayOnlyAccess(r) => (&r.accessor, &r.allowed),
            AccessRule::MustNotAccessAnythingExcept(r) => (&r.accessor, &r.allowed),
            AccessRule::MustAccess(r) => (&r.accessor, &r.required),
        };
        if !contains_string(layer_names, accessor.as_str()) {
            return false;
        }
        let mut j: usize = 0;
        while j < listed.len()
            invariant
                listed.deep_view() == self@.listed_layers(),
                j <= listed@.len(),
                listed.deep_view().len() == listed@.len(),
                layer_names.deep_view().contains(self@.accessor()),
                forall|k: int|
                    0 <= k < j ==> layer_names.deep_view().contains(
                        #[trigger] listed.deep_view()[k],
                    ),
            decreases listed@.len() - j,
        {
            proof {
                assert(listed.deep_view()[j as int] == listed@[j as int]@);
            }
            if !contains_string(layer_names, listed[j].as_str()) {
                return false;
            }
            j = j + 1;
        }
        true
    }

    /// Checks the rule against the tree, returning the first violation: the
    /// nodes in index order, and within a node its resolved relations in
    /// order.
    pub fn check(&self, module_tree: &crate::tree::ModuleTree) -> (res: Result<(), RuleViolation>)
        requires
            module_tree.wf(),
        ensures
            match res {
                Ok(()) => spec_rule_check(module_tree.spec_tree(), self@) is None,
                Err(v) => spec_rule_check(module_tree.spec_tree(), self@) == Some(v@),
            },
    {
        let ghost tv = module_tree.spec_tree();
        let tree = module_tree.tree();
        let pus = module_tree.possible_uses();
        let mut i: usize = 0;
        while i < tree.len()
            invariant
                module_tree.wf(),
                tv == module_tree.spec_tree(),
                tree == &module_tree.tree,
                pus == &module_tree.possible_uses,
                i <= tree@.len(),
                tv.len() == tree@.len(),
                spec_rule_viol_from(tv, self@, i as int) == spec_rule_viol_from(tv, self@, 0),
            decreases tree@.len() - i,
        {
            proof {
                assert(crate::node::node_wf_at(tv, i as int));
                assert(tv[i as int].index == i as int);
            }
            let accessor: &String = match self {
                AccessRule::MayNotAccess(r) => &r.accessor,
                AccessRule::MayOnlyAccess(r) => &r.accessor,
                AccessRule::MustNotAccessAnythingExcept(r) => &r.accessor,
                AccessRule::MustAccess(r) => &r.accessor,
            };
            proof {
                assert(accessor@ == self@.accessor());
            }
            if layer_match(tree, i, accessor.as_str()) {
                match self {
                    AccessRule::MustAccess(r) => {
                        let rels = tree[i].object_uses(tree, pus, true);
                        let mut k: usize = 0;
                        while k < r.required.len()
                            invariant
                                module_tree.wf(),
                                tv == module_tree.spec_tree(),
                                tree == &module_tree.tree,
                                i < tree@.len(),
                                tv.len() == tree@.len(),
                                k <= r.required@.len(),
                                r.required.deep_view().len() == r.required@.len(),
                                r.required.deep_view() == self@.listed_layers(),
                                self@ is MustAccess,
                                spec_layer_match(tv, i as int, self@.accessor()),
                                spec_rule_viol_from(tv, self@, i as int) == spec_rule_viol_from(
                                    tv,
                                    self@,
                                    0,
                                ),
                                rels.deep_view() == spec_object_uses(tv, i as int, true),
                                spec_first_missing(tv, i as int, r.required.deep_view(), k as int)
                                    == spec_first_missing(tv, i as int, r.required.deep_view(), 0),
                            decreases r.required@.len() - k,
                        {
                            proof {
                                assert(r.required.deep_view()[k as int] == r.required@[k as int]@);
                            }
                            if !references_layer(tree, &rels, i, r.required[k].as_str()) {
                                let v = RuleViolation {
                                    violation_type: RuleViolationType::RequiredAccessMissing,
                                    offending_rule: Some(self.clone()),
                                    witnesses: Vec::new(),
                                };
                                proof {
                                    assert(v.witnesses.deep_view() =~= Seq::<
                                        (usize, SpecRelation),
                                    >::empty());
                                    assert(spec_first_missing(
                                        tv,
                                        i as int,
                                        r.required.deep_view(),
                                        k as int,
                                    ) == Some(r.required.deep_view()[k as int]));
                                    assert(spec_first_missing(
                                        tv,
                                        i as int,
                                        r.required.deep_view(),
                                        0,
                                    ) is Some);
                                    assert(spec_rule_viol_from(tv, self@, i as int) == Some(
                                        (i as int, Seq::<(usize, SpecRelation)>::empty()),
                                    ));
                                }
                                return Err(v);
                            }
                            proof {
                                assert(spec_references_layer(
                                    tv,
                                    i as int,
                                    r.required.deep_view()[k as int],
                                ));
                                assert(spec_first_missing(tv, i as int, r.required.deep_view(), k as int)
                                    == spec_first_missing(
                                    tv,
                                    i as int,
                                    r.required.deep_view(),
                                    k as int + 1,
                                ));
                            }
                            k = k + 1;
                        }
                        proof {
                            assert(spec_first_missing(tv, i as int, r.required.deep_view(), k as int)
                                is None);
                            assert(spec_rule_viol_from(tv, self@, i as int) == spec_rule_viol_from(
                                tv,
                                self@,
                                i as int + 1,
                            ));
                        }
                    },
                    _ => {
                        let rels = tree[i].object_uses(tree, pus, true);
                        proof {
                            crate::resolve::lemma_object_uses_valid(tv, i as int, true);
                        }
                        let mut k: usize = 0;
                        while k < rels.len()
                            invariant
                                module_tree.wf(),
                                tv == module_tree.spec_tree(),
                                tree == &module_tree.tree,
                                i < tree@.len(),
                                tv.len() == tree@.len(),
                                !(self@ is MustAccess),
                                spec_layer_match(tv, i as int, self@.accessor()),
                                spec_rule_viol_from(tv, self@, i as int) == spec_rule_viol_from(
                                    tv,
                                    self@,
                                    0,
                                ),
                                k <= rels@.len(),
                                rels.deep_view().len() == rels@.len(),
                                rels.deep_view() == spec_object_uses(tv, i as int, true),
                                forall|kk: int|
                                    0 <= kk < rels.deep_view().len()
                                        ==> crate::resolve::relation_valid(
                                        tv,
                                        #[trigger] rels.deep_view()[kk],
                                    ),
                                spec_first_bad(tv, self@, i as int, rels.deep_view(), k as int)
                                    == spec_first_bad(tv, self@, i as int, rels.deep_view(), 0),
                            decreases rels@.len() - k,
                        {
                            proof {
                                assert(rels@[k as int]@ == rels.deep_view()[k as int]);
                                assert(crate::resolve::relation_valid(
                                    tv,
                                    rels.deep_view()[k as int],
                                ));
                            }
                            if rel_bad(tree, self, i, &rels[k]) {
                                let witness_rel = rels[k].clone();
                                let mut witnesses: Vec<(usize, UseRelation)> = Vec::new();
                                witnesses.push((i, witness_rel));
                                let ghost relv = rels.deep_view()[k as int];
                                proof {
                                    assert(witnesses.deep_view() =~= seq![(i, relv)]);
                                }
                                let v = RuleViolation {
                                    violation_type: match self {
                                        AccessRule::MayNotAccess(_) => RuleViolationType::ForbiddenAccess,
                                        _ => RuleViolationType::NotAllowedAccess,
                                    },
                                    offending_rule: Some(self.clone()),
                                    witnesses,
                                };
                                proof {
                                    assert(spec_rule_kind(self@) == v.violation_type);
                                    assert(spec_rel_bad(tv, self@, i as int, relv));
                                    assert(spec_first_bad(
                                        tv,
                                        self@,
                                        i as int,
                                        rels.deep_view(),
                                        k as int,
                                    ) == Some(relv));
                                    assert(spec_rule_viol_from(tv, self@, i as int) == Some(
                                        (i as int, seq![(i, relv)]),
                                    ));
                                }
                                return Err(v);
                            }
                            proof {
                                assert(!spec_rel_bad(tv, self@, i as int, rels.deep_view()[k as int]));
                                assert(spec_first_bad(tv, self@, i as int, rels.deep_view(), k as int)
                                    == spec_first_bad(
                                    tv,
                                    self@,
                                    i as int,
                                    rels.deep_view(),
                                    k as int + 1,
                                ));
                            }
                            k = k + 1;
                        }
                        proof {
                            assert(spec_first_bad(tv, self@, i as int, rels.deep_view(), k as int)
                                is None);
                            assert(spec_rule_viol_from(tv, self@, i as int) == spec_rule_viol_from(
                                tv,
                                self@,
                                i as int + 1,
                            ));
                        }
                    },
                }
            } else {
                proof {
                    assert(spec_rule_viol_from(tv, self@, i as int) == spec_rule_viol_from(
                        tv,
                        self@,
                        i as int + 1,
                    ));
                }
            }
            i = i + 1;
        }
        proof {
            assert(spec_rule_viol_from(tv, self@, i as int) is None);
        }
        Ok(())
    }
}

/// Every layer name a rule mentions belongs to the given layer set.
pub open spec fn spec_rule_valid(layers: Seq<Seq<char>>, rule: SpecRule) -> bool {
    layers.contains(rule.accessor()) && (forall|j: int|
        0 <= j < rule.listed_layers().len() ==> layers.contains(#[trigger] rule.listed_layers()[j]))
}

} // verus!

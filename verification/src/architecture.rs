//! The architecture under test: the declared layer names and the ordered
//! access rules, with validation, rule evaluation and layer-coverage
//! checking.

use vstd::prelude::*;
use crate::node::SpecNode;
use crate::rules::{
    AccessRule, RuleViolation, RuleViolationType, SpecRule, SpecViolation, contains_string,
    spec_rule_check, spec_rule_valid,
};
use crate::tree::ModuleTree;

verus! {

/// The index of the first rule that names an undeclared layer, from `k` on.
pub open spec fn spec_first_invalid(layers: Seq<Seq<char>>, rules: Seq<SpecRule>, k: int) -> Option<
    int,
>
    decreases rules.len() - k,
{
    if 0 <= k < rules.len() {
        if !spec_rule_valid(layers, rules[k]) {
            Some(k)
        } else {
            spec_first_invalid(layers, rules, k + 1)
        }
    } else {
        None
    }
}

/// The first rule, from `k` on, whose check fails, with its violation.
pub open spec fn spec_first_violation(tree: Seq<SpecNode>, rules: Seq<SpecRule>, k: int) -> Option<
    (int, SpecViolation),
>
    decreases rules.len() - k,
{
    if 0 <= k < rules.len() {
        match spec_rule_check(tree, rules[k]) {
            Some(v) => Some((k, v)),
            None => spec_first_violation(tree, rules, k + 1),
        }
    } else {
        None
    }
}

/// Node `i` belongs to no declared layer: it is not the root, and neither its
/// own module name nor its parent's is declared.
pub open spec fn spec_uncovered(tree: Seq<SpecNode>, layers: Seq<Seq<char>>, i: int) -> bool {
    &&& 0 <= i < tree.len()
    &&& tree[i].parent_index is Some
    &&& !layers.contains(tree[i].module_name)
    &&& match tree[i].parent_index {
        Some(p) => 0 <= p < tree.len() && !layers.contains(tree[p].module_name),
        None => false,
    }
}

/// The verdict of the full check: rule validation first, then the access
/// rules in order, then layer coverage; the first failure wins.
pub open spec fn spec_full_check(
    layers: Seq<Seq<char>>,
    rules: Seq<SpecRule>,
    tree: Seq<SpecNode>,
) -> Option<SpecViolation> {
    match spec_first_invalid(layers, rules, 0) {
        Some(k) => Some(
            SpecViolation {
                violation_type: RuleViolationType::LayerDoesNotExist,
                rule: Some(rules[k]),
                witnesses: Seq::empty(),
            },
        ),
        None => match spec_first_violation(tree, rules, 0) {
            Some((_, v)) => Some(v),
            None => if exists|i: int| spec_uncovered(tree, layers, i) {
                Some(
                    SpecViolation {
                        violation_type: RuleViolationType::IncompleteLayerSpecification,
                        rule: None,
                        witnesses: Seq::empty(),
                    },
                )
            } else {
                None
            },
        },
    }
}

/// The declared layer names and the ordered access rules between them.
#[derive(Debug)]
pub struct Architecture {
    pub layer_names: Vec<String>,
    pub access_rules: Vec<AccessRule>,
}

impl Architecture {
    pub fn new(layer_names: Vec<String>) -> (res: Self)
        ensures
            res.layer_names == layer_names,
            res.access_rules@.len() == 0,
    {
        Architecture { layer_names, access_rules: Vec::new() }
    }

    /// Appends one access rule; the order given is the order checked.
    pub fn with_access_rule(self, access_rule: AccessRule) -> (res: Self)
        ensures
            res.layer_names == self.layer_names,
            res.access_rules@ == self.access_rules@.push(access_rule),
    {
        let mut res = self;
        res.access_rules.push(access_rule);
        res
    }

    /// Checks that every layer name any rule mentions is declared. On
    /// success, every rule is valid; otherwise the first offending rule is
    /// reported as `LayerDoesNotExist`.
    pub fn validate_access_rules(&self) -> (res: Result<(), RuleViolation>)
        ensures
            match res {
                Ok(()) => spec_first_invalid(
                    self.layer_names.deep_view(),
                    self.access_rules.deep_view(),
                    0,
                ) is None && forall|k: int|
                    0 <= k < self.access_rules.deep_view().len() ==> spec_rule_valid(
                        self.layer_names.deep_view(),
                        #[trigger] self.access_rules.deep_view()[k],
                    ),
                Err(v) => {
                    &&& v@.violation_type == RuleViolationType::LayerDoesNotExist
                    &&& v@.witnesses.len() == 0
                    &&& exists|k: int|
                        {
                            &&& 0 <= k < self.access_rules.deep_view().len()
                            &&& spec_first_invalid(
                                self.layer_names.deep_view(),
                                self.access_rules.deep_view(),
                                0,
                            ) == Some(k)
                            &&& v@.rule == Some(#[trigger] self.access_rules.deep_view()[k])
                            &&& !spec_rule_valid(
                                self.layer_names.deep_view(),
                                self.access_rules.deep_view()[k],
                            )
                        }
                },
            },
    {
        let ghost layersd = self.layer_names.deep_view();
        let ghost rulesd = self.access_rules.deep_view();
        let mut k: usize = 0;
        while k < self.access_rules.len()
            invariant
                layersd == self.layer_names.deep_view(),
                rulesd == self.access_rules.deep_view(),
                k <= self.access_rules@.len(),
                rulesd.len() == self.access_rules@.len(),
                spec_first_invalid(layersd, rulesd, k as int) == spec_first_invalid(
                    layersd,
                    rulesd,
                    0,
                ),
                forall|kk: int| 0 <= kk < k ==> spec_rule_valid(layersd, #[trigger] rulesd[kk]),
            decreases self.access_rules@.len() - k,
        {
            proof {
                assert(self.access_rules@[k as int]@ == rulesd[k as int]);
            }
            if !self.access_rules[k].validate(&self.layer_names) {
                let v = RuleViolation {
                    violation_type: RuleViolationType::LayerDoesNotExist,
                    offending_rule: Some(self.access_rules[k].clone()),
                    witnesses: Vec::new(),
                };
                proof {
                    assert(spec_first_invalid(layersd, rulesd, k as int) == Some(k as int));
                    assert(v@.witnesses =~= Seq::<(usize, crate::objects::SpecRelation)>::empty());
                }
                return Err(v);
            }
            k = k + 1;
        }
        proof {
            assert(spec_first_invalid(layersd, rulesd, k as int) is None);
        }
        Ok(())
    }

    /// Evaluates the access rules in the order given, returning the first
    /// rule's violation: the rule earliest in the sequence whose predicate
    /// fails is the one reported.
    pub fn check_access_rules(&self, module_tree: &ModuleTree) -> (res: Result<(), RuleViolation>)
        requires
            module_tree.wf(),
        ensures
            match res {
                Ok(()) => spec_first_violation(
                    module_tree.spec_tree(),
                    self.access_rules.deep_view(),
                    0,
                ) is None && forall|k: int|
                    0 <= k < self.access_rules.deep_view().len() ==> spec_rule_check(
                        module_tree.spec_tree(),
                        #[trigger] self.access_rules.deep_view()[k],
                    ) is None,
                Err(v) => exists|k: int|
                    {
                        &&& 0 <= k < self.access_rules.deep_view().len()
                        &&& spec_first_violation(
                            module_tree.spec_tree(),
                            self.access_rules.deep_view(),
                            0,
                        ) == Some((k, v@))
                        &&& spec_rule_check(
                            module_tree.spec_tree(),
                            #[trigger] self.access_rules.deep_view()[k],
                        ) == Some(v@)
                        &&& forall|kk: int|
                            0 <= kk < k ==> spec_rule_check(
                                module_tree.spec_tree(),
                                #[trigger] self.access_rules.deep_view()[kk],
                            ) is None
                    },
            },
    {
        let ghost tv = module_tree.spec_tree();
        let ghost rulesd = self.access_rules.deep_view();
        let mut k: usize = 0;
        while k < self.access_rules.len()
            invariant
                module_tree.wf(),
                tv == module_tree.spec_tree(),
                rulesd == self.access_rules.deep_view(),
                k <= self.access_rules@.len(),
                rulesd.len() == self.access_rules@.len(),
                spec_first_violation(tv, rulesd, k as int) == spec_first_violation(tv, rulesd, 0),
                forall|kk: int|
                    0 <= kk < k ==> spec_rule_check(tv, #[trigger] rulesd[kk]) is None,
            decreases self.access_rules@.len() - k,
        {
            proof {
                assert(self.access_rules@[k as int]@ == rulesd[k as int]);
            }
            match self.access_rules[k].check(module_tree) {
                Err(v) => {
                    proof {
                        assert(spec_first_violation(tv, rulesd, k as int) == Some((k as int, v@)));
                    }
                    return Err(v);
                },
                Ok(()) => {},
            }
            k = k + 1;
        }
        proof {
            assert(spec_first_violation(tv, rulesd, k as int) is None);
        }
        Ok(())
    }

    /// Checks that every non-root node belongs to a declared layer, by its
    /// own module name or its parent's. A node outside every layer is
    /// reported as `IncompleteLayerSpecification`.
    pub fn check_complete_layer_specification(&self, module_tree: &ModuleTree) -> (res: Result<
        (),
        RuleViolation,
    >)
        requires
            module_tree.wf(),
        ensures
            match res {
                Ok(()) => forall|i: int|
                    !spec_uncovered(module_tree.spec_tree(), self.layer_names.deep_view(), i),
                Err(v) => {
                    &&& v@.violation_type == RuleViolationType::IncompleteLayerSpecification
                    &&& v@.rule is None
                    &&& v@.witnesses.len() == 0
                    &&& exists|i: int|
                        spec_uncovered(module_tree.spec_tree(), self.layer_names.deep_view(), i)
                },
            },
    {
        let ghost tv = module_tree.spec_tree();
        let ghost layersd = self.layer_names.deep_view();
        let tree = module_tree.tree();
        let mut i: usize = 0;
        while i < tree.len()
            invariant
                module_tree.wf(),
                tv == module_tree.spec_tree(),
                tree == &module_tree.tree,
                layersd == self.layer_names.deep_view(),
                i <= tree@.len(),
                tv.len() == tree@.len(),
                forall|ii: int| 0 <= ii < i ==> !spec_uncovered(tv, layersd, ii),
            decreases tree@.len() - i,
        {
            proof {
                assert(crate::node::node_wf_at(tv, i as int));
            }
            let uncovered = match tree[i].parent_index {
                Some(p) => {
                    !contains_string(&self.layer_names, tree[i].module_name.as_str())
                        && !contains_string(&self.layer_names, tree[p].module_name.as_str())
                },
                None => false,
            };
            if uncovered {
                let v = RuleViolation {
                    violation_type: RuleViolationType::IncompleteLayerSpecification,
                    offending_rule: None,
                    witnesses: Vec::new(),
                };
                proof {
                    assert(spec_uncovered(tv, layersd, i as int));
                    assert(v@.witnesses =~= Seq::<(usize, crate::objects::SpecRelation)>::empty());
                }
                return Err(v);
            }
            proof {
                assert(!spec_uncovered(tv, layersd, i as int));
            }
            i = i + 1;
        }
        proof {
            assert forall|ii: int| !spec_uncovered(tv, layersd, ii) by {
                if 0 <= ii < tv.len() {
                    assert(!spec_uncovered(tv, layersd, ii));
                }
            }
        }
        Ok(())
    }

    /// Runs the full check: rule validation, then the access rules in order,
    /// then layer coverage. If validation fails, the later checks are
    /// skipped.
    pub fn check_against_tree(&self, module_tree: &ModuleTree) -> (res: Result<(), RuleViolation>)
        requires
            module_tree.wf(),
        ensures
            match res {
                Ok(()) => spec_full_check(
                    self.layer_names.deep_view(),
                    self.access_rules.deep_view(),
                    module_tree.spec_tree(),
                ) is None,
                Err(v) => spec_full_check(
                    self.layer_names.deep_view(),
                    self.access_rules.deep_view(),
                    module_tree.spec_tree(),
                ) == Some(v@),
            },
    {
        let ghost layersd = self.layer_names.deep_view();
        let ghost rulesd = self.access_rules.deep_view();
        let ghost tv = module_tree.spec_tree();
        match self.validate_access_rules() {
            Err(v) => {
                proof {
                    let k = choose|k: int|
                        {
                            &&& 0 <= k < rulesd.len()
                            &&& spec_first_invalid(layersd, rulesd, 0) == Some(k)
                            &&& v@.rule == Some(#[trigger] rulesd[k])
                            &&& !spec_rule_valid(layersd, rulesd[k])
                        };
                    assert(v@.witnesses =~= Seq::<(usize, crate::objects::SpecRelation)>::empty());
                    assert(spec_full_check(layersd, rulesd, tv) == Some(v@));
                }
                Err(v)
            },
            Ok(()) => match self.check_access_rules(module_tree) {
                Err(v) => {
                    proof {
                        assert(spec_full_check(layersd, rulesd, tv) == Some(v@));
                    }
                    Err(v)
                },
                Ok(()) => match self.check_complete_layer_specification(module_tree) {
                    Err(v) => {
                        proof {
                            assert(v@.witnesses =~= Seq::<
                                (usize, crate::objects::SpecRelation),
                            >::empty());
                            assert(spec_full_check(layersd, rulesd, tv) == Some(v@));
                        }
                        Err(v)
                    },
                    Ok(()) => {
                        proof {
                            assert(!(exists|i: int| spec_uncovered(tv, layersd, i)));
                        }
                        Ok(())
                    },
                },
            },
        }
    }
}

/// The full check is a function of its inputs: two verdicts for the same
/// layers, rules and tree are the same verdict.
pub proof fn lemma_full_check_deterministic(
    layers: Seq<Seq<char>>,
    rules: Seq<SpecRule>,
    tree: Seq<SpecNode>,
    v1: Option<SpecViolation>,
    v2: Option<SpecViolation>,
)
    requires
        v1 == spec_full_check(layers, rules, tree),
        v2 == spec_full_check(layers, rules, tree),
    ensures
        v1 == v2,
{
}

/// Appending a rule whose own check never fires leaves the first reported
/// violation unchanged.
proof fn lemma_harmless_rule_appended(
    tree: Seq<SpecNode>,
    rules: Seq<SpecRule>,
    extra: SpecRule,
    k: int,
)
    requires
        spec_rule_check(tree, extra) is None,
        0 <= k <= rules.len(),
    ensures
        spec_first_violation(tree, rules.push(extra), k) == spec_first_violation(tree, rules, k),
    decreases rules.len() + 1 - k,
{
    let pushed = rules.push(extra);
    if k < rules.len() {
        assert(pushed[k] == rules[k]);
        lemma_harmless_rule_appended(tree, rules, extra, k + 1);
        assert(spec_first_violation(tree, pushed, k) == spec_first_violation(tree, rules, k));
    } else {
        assert(pushed[k] == extra);
        assert(spec_first_violation(tree, pushed, k + 1) is None);
        assert(spec_first_violation(tree, pushed, k) is None);
        assert(spec_first_violation(tree, rules, k) is None);
    }
}

/// Appending a `MayNotAccess` rule whose accessed set is empty never
/// introduces a violation: the rule check verdict over the rule sequence is
/// unchanged.
pub proof fn lemma_empty_may_not_access_harmless(
    tree: Seq<SpecNode>,
    rules: Seq<SpecRule>,
    accessor: Seq<char>,
    when_same_parent: bool,
)
    ensures
        spec_first_violation(
            tree,
            rules.push(
                SpecRule::MayNotAccess { accessor, accessed: Seq::empty(), when_same_parent },
            ),
            0,
        ) == spec_first_violation(tree, rules, 0),
{
    let extra = SpecRule::MayNotAccess { accessor, accessed: Seq::empty(), when_same_parent };
    crate::rules::lemma_empty_may_not_access_never_fires(tree, accessor, when_same_parent);
    lemma_harmless_rule_appended(tree, rules, extra, 0);
}

} // verus!

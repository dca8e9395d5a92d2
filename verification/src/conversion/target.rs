use vstd::prelude::*;

use super::error::{ConversionError, ConversionErrorView, Legality};

verus! {

/// How a dialect or an operation is classified: legal, illegal, or by a check that runs on
/// the operation itself.
#[derive(Clone, Copy, Debug, PartialEq, Eq, Structural)]
pub enum LegalityRule {
    Legal,
    Illegal,
    Dynamic,
}

/// The rules of a list of name and rule pairs with distinct names, keyed by name.
pub open spec fn rule_map(rules: Seq<(String, LegalityRule)>) -> Map<Seq<char>, LegalityRule> {
    Map::new(
        |k: Seq<char>| exists|i: int| 0 <= i < rules.len() && (#[trigger] rules[i]).0@ == k,
        |k: Seq<char>| rules[choose|i: int| 0 <= i < rules.len() && (#[trigger] rules[i]).0@ == k].1,
    )
}

pub open spec fn rule_names_distinct(rules: Seq<(String, LegalityRule)>) -> bool {
    forall|i: int, j: int| 0 <= i < j < rules.len() ==> (#[trigger] rules[i]).0@ != (#[trigger] rules[j]).0@
}

proof fn lemma_rule_at(rules: Seq<(String, LegalityRule)>, i: int)
    requires
        rule_names_distinct(rules),
        0 <= i < rules.len(),
    ensures
        rule_map(rules).contains_key(rules[i].0@),
        rule_map(rules)[rules[i].0@] == rules[i].1,
{
    let k = rules[i].0@;
    assert(rule_map(rules).dom().contains(k));
    let j = choose|j: int| 0 <= j < rules.len() && (#[trigger] rules[j]).0@ == k;
    if j < i {
        assert(rules[j].0@ != rules[i].0@);
    } else if i < j {
        assert(rules[i].0@ != rules[j].0@);
    }
}

/// The rule recorded for `name`.
fn find_rule(rules: &Vec<(String, LegalityRule)>, name: &str) -> (r: Option<LegalityRule>)
    requires
        rule_names_distinct(rules@),
    ensures
        r == (if rule_map(rules@).contains_key(name@) {
            Some(rule_map(rules@)[name@])
        } else {
            None
        }),
{
    let key = name.to_string();
    let mut i: usize = 0;
    while i < rules.len()
        invariant
            0 <= i <= rules@.len(),
            key@ == name@,
            rule_names_distinct(rules@),
            forall|k: int| 0 <= k < i ==> (#[trigger] rules@[k]).0@ != name@,
        decreases rules@.len() - i,
    {
        if rules[i].0 == key {
            proof {
                lemma_rule_at(rules@, i as int);
            }
            return Some(rules[i].1);
        }
        i = i + 1;
    }
    proof {
        if rule_map(rules@).contains_key(name@) {
            let k = choose|k: int| 0 <= k < rules@.len() && (#[trigger] rules@[k]).0@ == name@;
        }
    }
    None
}

/// Records `rule` for `name`, replacing an earlier rule for it.
fn set_rule(rules: &mut Vec<(String, LegalityRule)>, name: &str, rule: LegalityRule)
    requires
        rule_names_distinct(old(rules)@),
    ensures
        rule_names_distinct(final(rules)@),
        rule_map(final(rules)@) == rule_map(old(rules)@).insert(name@, rule),
{
    let key = name.to_string();
    let ghost before = rules@;
    let mut i: usize = 0;
    while i < rules.len()
        invariant
            0 <= i <= rules@.len(),
            rules@ == before,
            before == old(rules)@,
            key@ == name@,
            rule_names_distinct(rules@),
            forall|k: int| 0 <= k < i ==> (#[trigger] rules@[k]).0@ != name@,
        decreases rules@.len() - i,
    {
        if rules[i].0 == key {
            rules.set(i, (key, rule));
            proof {
                let after = rules@;
                assert(rule_names_distinct(after)) by {
                    assert forall|a: int, b: int| 0 <= a < b < after.len() implies (#[trigger] after[a]).0@ != (#[trigger] after[b]).0@ by {
                        assert(before[a].0@ != before[b].0@);
                    }
                }
                assert forall|x: Seq<char>| #[trigger] rule_map(after).contains_key(x) <==> rule_map(before).insert(name@, rule).contains_key(x) by {
                    if rule_map(after).contains_key(x) {
                        let k = choose|k: int| 0 <= k < after.len() && (#[trigger] after[k]).0@ == x;
                        if k != i {
                            assert(before[k].0@ == x);
                        }
                    }
                    if rule_map(before).contains_key(x) {
                        let k = choose|k: int| 0 <= k < before.len() && (#[trigger] before[k]).0@ == x;
                        assert(after[k].0@ == x);
                    }
                    if x == name@ {
                        assert(after[i as int].0@ == x);
                    }
                }
                assert forall|x: Seq<char>| #[trigger] rule_map(after).contains_key(x) implies rule_map(after)[x] == rule_map(before).insert(name@, rule)[x] by {
                    let k = choose|k: int| 0 <= k < after.len() && (#[trigger] after[k]).0@ == x;
                    lemma_rule_at(after, k);
                    if k != i {
                        assert(after[k] == before[k]);
                        lemma_rule_at(before, k);
                    }
                }
                assert(rule_map(after) =~= rule_map(before).insert(name@, rule));
            }
            return;
        }
        i = i + 1;
    }
    rules.push((key, rule));
    proof {
        let after = rules@;
        assert(rule_names_distinct(after)) by {
            assert forall|a: int, b: int| 0 <= a < b < after.len() implies (#[trigger] after[a]).0@ != (#[trigger] after[b]).0@ by {
                if b < before.len() {
                    assert(before[a].0@ != before[b].0@);
                }
            }
        }
        assert forall|x: Seq<char>| #[trigger] rule_map(after).contains_key(x) <==> rule_map(before).insert(name@, rule).contains_key(x) by {
            if rule_map(after).contains_key(x) {
                let k = choose|k: int| 0 <= k < after.len() && (#[trigger] after[k]).0@ == x;
                if k < before.len() {
                    assert(before[k].0@ == x);
                }
            }
            if rule_map(before).contains_key(x) {
                let k = choose|k: int| 0 <= k < before.len() && (#[trigger] before[k]).0@ == x;
                assert(after[k].0@ == x);
            }
            if x == name@ {
                assert(after[before.len() as int].0@ == x);
            }
        }
        assert forall|x: Seq<char>| #[trigger] rule_map(after).contains_key(x) implies rule_map(after)[x] == rule_map(before).insert(name@, rule)[x] by {
            let k = choose|k: int| 0 <= k < after.len() && (#[trigger] after[k]).0@ == x;
            lemma_rule_at(after, k);
            if k < before.len() {
                assert(after[k] == before[k]);
                lemma_rule_at(before, k);
            }
        }
        assert(rule_map(after) =~= rule_map(before).insert(name@, rule));
    }
}

/// Which operations a conversion must leave and which it must remove: rules by dialect and
/// by operation name. The checks of dynamic rules are kept by the caller under the same
/// names.
#[derive(Debug)]
pub struct ConversionTarget {
    dialects: Vec<(String, LegalityRule)>,
    operations: Vec<(String, LegalityRule)>,
}

pub struct TargetRulesView {
    pub dialects: Map<Seq<char>, LegalityRule>,
    pub operations: Map<Seq<char>, LegalityRule>,
}

impl View for ConversionTarget {
    type V = TargetRulesView;

    closed spec fn view(&self) -> TargetRulesView {
        TargetRulesView { dialects: rule_map(self.dialects@), operations: rule_map(self.operations@) }
    }
}

/// The rule that classifies an operation: the rule of its name, else the rule of its
/// dialect, if any.
pub open spec fn applicable_rule(t: TargetRulesView, name: Seq<char>, dialect: Option<Seq<char>>) -> Option<
    LegalityRule,
> {
    if t.operations.contains_key(name) {
        Some(t.operations[name])
    } else {
        match dialect {
            Some(d) => if t.dialects.contains_key(d) {
                Some(t.dialects[d])
            } else {
                None
            },
            None => None,
        }
    }
}

/// The classification of an operation under a rule; `dynamic` is what the operation's own
/// check returned, read for a dynamic rule only.
pub open spec fn classification(
    rule: Option<LegalityRule>,
    dynamic: Option<Result<bool, Seq<char>>>,
    operation: u64,
    name: Seq<char>,
) -> Result<Legality, ConversionErrorView> {
    match rule {
        None => Ok(Legality::Unknown),
        Some(LegalityRule::Legal) => Ok(Legality::Legal),
        Some(LegalityRule::Illegal) => Ok(Legality::Illegal),
        Some(LegalityRule::Dynamic) => match dynamic {
            Some(Ok(true)) => Ok(Legality::Legal),
            Some(Ok(false)) => Ok(Legality::Illegal),
            Some(Err(message)) => Err(ConversionErrorView::DynamicLegalityFailed { operation, name, message }),
            None => Ok(Legality::Unknown),
        },
    }
}

pub open spec fn dynamic_view(d: Option<Result<bool, String>>) -> Option<Result<bool, Seq<char>>> {
    match d {
        Some(Ok(b)) => Some(Ok(b)),
        Some(Err(m)) => Some(Err(m@)),
        None => None,
    }
}

impl ConversionTarget {
    #[verifier::type_invariant]
    spec fn inv(self) -> bool {
        &&& rule_names_distinct(self.dialects@)
        &&& rule_names_distinct(self.operations@)
    }

    /// No rules: every operation is of unknown legality.
    pub fn new() -> (r: ConversionTarget)
        ensures
            r@.dialects == Map::<Seq<char>, LegalityRule>::empty(),
            r@.operations == Map::<Seq<char>, LegalityRule>::empty(),
    {
        let r = ConversionTarget { dialects: Vec::new(), operations: Vec::new() };
        proof {
            assert(rule_map(r.dialects@) =~= Map::<Seq<char>, LegalityRule>::empty());
            assert(rule_map(r.operations@) =~= Map::<Seq<char>, LegalityRule>::empty());
        }
        r
    }

    fn mark_dialect(&mut self, dialect: &str, rule: LegalityRule)
        ensures
            final(self)@ == (TargetRulesView { dialects: old(self)@.dialects.insert(dialect@, rule), ..old(self)@ }),
    {
        proof {
            use_type_invariant(&*self);
        }
        let mut rules = Vec::new();
        std::mem::swap(&mut rules, &mut self.dialects);
        set_rule(&mut rules, dialect, rule);
        self.dialects = rules;
    }

    fn mark_operation(&mut self, operation: &str, rule: LegalityRule)
        ensures
            final(self)@ == (TargetRulesView {
                operations: old(self)@.operations.insert(operation@, rule),
                ..old(self)@
            }),
    {
        proof {
            use_type_invariant(&*self);
        }
        let mut rules = Vec::new();
        std::mem::swap(&mut rules, &mut self.operations);
        set_rule(&mut rules, operation, rule);
        self.operations = rules;
    }

    pub fn mark_dialect_legal(&mut self, dialect: &str)
        ensures
            final(self)@ == (TargetRulesView {
                dialects: old(self)@.dialects.insert(dialect@, LegalityRule::Legal),
                ..old(self)@
            }),
    {
        self.mark_dialect(dialect, LegalityRule::Legal)
    }

    pub fn mark_dialect_illegal(&mut self, dialect: &str)
        ensures
            final(self)@ == (TargetRulesView {
                dialects: old(self)@.dialects.insert(dialect@, LegalityRule::Illegal),
                ..old(self)@
            }),
    {
        self.mark_dialect(dialect, LegalityRule::Illegal)
    }

    /// Classifies the operations of a dialect by a check on each operation.
    pub fn mark_dialect_dynamically_legal(&mut self, dialect: &str)
        ensures
            final(self)@ == (TargetRulesView {
                dialects: old(self)@.dialects.insert(dialect@, LegalityRule::Dynamic),
                ..old(self)@
            }),
    {
        self.mark_dialect(dialect, LegalityRule::Dynamic)
    }

    pub fn mark_operation_legal(&mut self, operation: &str)
        ensures
            final(self)@ == (TargetRulesView {
                operations: old(self)@.operations.insert(operation@, LegalityRule::Legal),
                ..old(self)@
            }),
    {
        self.mark_operation(operation, LegalityRule::Legal)
    }

    pub fn mark_operation_illegal(&mut self, operation: &str)
        ensures
            final(self)@ == (TargetRulesView {
                operations: old(self)@.operations.insert(operation@, LegalityRule::Illegal),
                ..old(self)@
            }),
    {
        self.mark_operation(operation, LegalityRule::Illegal)
    }

    /// Classifies the operations of a name by a check on each operation.
    pub fn mark_operation_dynamically_legal(&mut self, operation: &str)
        ensures
            final(self)@ == (TargetRulesView {
                operations: old(self)@.operations.insert(operation@, LegalityRule::Dynamic),
                ..old(self)@
            }),
    {
        self.mark_operation(operation, LegalityRule::Dynamic)
    }

    /// The rule that classifies an operation with this name and dialect.
    pub fn rule_for(&self, name: &str, dialect: Option<&str>) -> (r: Option<LegalityRule>)
        ensures
            r == applicable_rule(
                self@,
                name@,
                match dialect {
                    Some(d) => Some(d@),
                    None => None,
                },
            ),
    {
        proof {
            use_type_invariant(self);
        }
        match find_rule(&self.operations, name) {
            Some(rule) => Some(rule),
            None => match dialect {
                Some(d) => find_rule(&self.dialects, d),
                None => None,
            },
        }
    }

    /// Classifies an operation by its name and dialect. `dynamic` is what the operation's
    /// own check returned when its rule is dynamic; a failed check fails the classification.
    pub fn classify(
        &self,
        operation: u64,
        name: &str,
        dialect: Option<&str>,
        dynamic: Option<Result<bool, String>>,
    ) -> (r: Result<Legality, ConversionError>)
        requires
            applicable_rule(
                self@,
                name@,
                match dialect {
                    Some(d) => Some(d@),
                    None => None,
                },
            ) == Some(LegalityRule::Dynamic) ==> dynamic is Some,
        ensures
            match r {
                Ok(l) => classification(
                    applicable_rule(
                        self@,
                        name@,
                        match dialect {
                            Some(d) => Some(d@),
                            None => None,
                        },
                    ),
                    dynamic_view(dynamic),
                    operation,
                    name@,
                ) == Ok::<Legality, ConversionErrorView>(l),
                Err(e) => classification(
                    applicable_rule(
                        self@,
                        name@,
                        match dialect {
                            Some(d) => Some(d@),
                            None => None,
                        },
                    ),
                    dynamic_view(dynamic),
                    operation,
                    name@,
                ) == Err::<Legality, ConversionErrorView>(e@),
            },
    {
        let rule = self.rule_for(name, dialect);
        evaluate_rule(rule, dynamic, operation, name)
    }
}

/// The classification of an operation under a rule.
pub fn evaluate_rule(
    rule: Option<LegalityRule>,
    dynamic: Option<Result<bool, String>>,
    operation: u64,
    name: &str,
) -> (r: Result<Legality, ConversionError>)
    requires
        rule == Some(LegalityRule::Dynamic) ==> dynamic is Some,
    ensures
        match r {
            Ok(l) => classification(rule, dynamic_view(dynamic), operation, name@) == Ok::<
                Legality,
                ConversionErrorView,
            >(l),
            Err(e) => classification(rule, dynamic_view(dynamic), operation, name@) == Err::<
                Legality,
                ConversionErrorView,
            >(e@),
        },
{
    match rule {
        None => Ok(Legality::Unknown),
        Some(LegalityRule::Legal) => Ok(Legality::Legal),
        Some(LegalityRule::Illegal) => Ok(Legality::Illegal),
        Some(LegalityRule::Dynamic) => match dynamic {
            Some(Ok(legal)) => if legal {
                Ok(Legality::Legal)
            } else {
                Ok(Legality::Illegal)
            },
            Some(Err(message)) => Err(
                ConversionError::DynamicLegalityFailed { operation, name: name.to_string(), message },
            ),
            None => Ok(Legality::Unknown),
        },
    }
}

impl Default for ConversionTarget {
    fn default() -> (r: ConversionTarget)
        ensures
            r@.dialects == Map::<Seq<char>, LegalityRule>::empty(),
            r@.operations == Map::<Seq<char>, LegalityRule>::empty(),
    {
        ConversionTarget::new()
    }
}

} // verus!

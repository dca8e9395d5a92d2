use vstd::prelude::*;

use super::error::{TypeConversionError, TypeErrorView};

verus! {

/// What one conversion rule says of a type: it does not apply, it converts the type into
/// these types, or it fails.
#[derive(Debug)]
pub enum TypeConversionRuleResult {
    NotApplicable,
    Converted(Vec<u64>),
    Failed(String),
}

pub enum RuleResultView {
    NotApplicable,
    Converted(Seq<u64>),
    Failed(Seq<char>),
}

impl View for TypeConversionRuleResult {
    type V = RuleResultView;

    open spec fn view(&self) -> RuleResultView {
        match self {
            TypeConversionRuleResult::NotApplicable => RuleResultView::NotApplicable,
            TypeConversionRuleResult::Converted(t) => RuleResultView::Converted(t@),
            TypeConversionRuleResult::Failed(m) => RuleResultView::Failed(m@),
        }
    }
}

/// The conversion of `source` given what each rule says of it, rules in the order they
/// were added: the newest rule that applies decides; when none does, the type converts to
/// itself if identity is the fallback, else there is no conversion.
pub open spec fn resolved(source: u64, rs: Seq<RuleResultView>, identity_fallback: bool) -> Result<Seq<u64>, TypeErrorView>
    decreases rs.len(),
{
    if rs.len() == 0 {
        if identity_fallback {
            Ok(seq![source])
        } else {
            Err(TypeErrorView::NoConversion { source })
        }
    } else {
        match rs.last() {
            RuleResultView::NotApplicable => resolved(source, rs.drop_last(), identity_fallback),
            RuleResultView::Converted(t) => Ok(t),
            RuleResultView::Failed(message) => Err(TypeErrorView::RuleFailed { source, message }),
        }
    }
}

pub open spec fn result_views(rs: Seq<TypeConversionRuleResult>) -> Seq<RuleResultView> {
    rs.map_values(|r: TypeConversionRuleResult| r@)
}

/// Converts `source` by the results of the rules, in the order the rules were added.
pub fn resolve_type_conversion(source: u64, results: &[TypeConversionRuleResult], identity_fallback: bool) -> (r:
    Result<Vec<u64>, TypeConversionError>)
    ensures
        match r {
            Ok(t) => resolved(source, result_views(results@), identity_fallback) == Ok::<Seq<u64>, TypeErrorView>(t@),
            Err(e) => resolved(source, result_views(results@), identity_fallback) == Err::<Seq<u64>, TypeErrorView>(e@),
        },
{
    let ghost rs = result_views(results@);
    let mut i: usize = results.len();
    proof {
        assert(rs.subrange(0, rs.len() as int) =~= rs);
    }
    while i > 0
        invariant
            0 <= i <= results@.len(),
            rs == result_views(results@),
            resolved(source, rs, identity_fallback) == resolved(source, rs.subrange(0, i as int), identity_fallback),
        decreases i,
    {
        let ghost prefix = rs.subrange(0, i as int);
        proof {
            assert(prefix.drop_last() =~= rs.subrange(0, i - 1));
            assert(prefix.last() == results@[i - 1]@);
        }
        match &results[i - 1] {
            TypeConversionRuleResult::NotApplicable => {},
            TypeConversionRuleResult::Converted(types) => {
                return Ok(types.clone());
            },
            TypeConversionRuleResult::Failed(message) => {
                return Err(TypeConversionError::RuleFailed { source, message: message.clone() });
            },
        }
        i = i - 1;
    }
    if identity_fallback {
        let mut v = Vec::new();
        v.push(source);
        proof {
            assert(v@ =~= seq![source]);
        }
        Ok(v)
    } else {
        Err(TypeConversionError::NoConversion { source })
    }
}

/// Whether the rules leave `source` as it is.
pub fn is_legal_type(source: u64, results: &[TypeConversionRuleResult], identity_fallback: bool) -> (r: Result<
    bool,
    TypeConversionError,
>)
    ensures
        match r {
            Ok(b) => resolved(source, result_views(results@), identity_fallback) matches Ok(t) && b == (t
                == seq![source]),
            Err(e) => resolved(source, result_views(results@), identity_fallback) == Err::<Seq<u64>, TypeErrorView>(e@),
        },
{
    let converted = resolve_type_conversion(source, results, identity_fallback)?;
    let r = converted.len() == 1 && converted[0] == source;
    proof {
        if r {
            assert(converted@ =~= seq![source]);
        }
    }
    Ok(r)
}

/// The newest rule that applies decides the conversion of a type.
pub proof fn law_newest_rule_decides(source: u64, rs: Seq<RuleResultView>, identity_fallback: bool, j: int)
    requires
        0 <= j < rs.len(),
        !(rs[j] is NotApplicable),
        forall|k: int| j < k < rs.len() ==> #[trigger] rs[k] is NotApplicable,
    ensures
        resolved(source, rs, identity_fallback) == match rs[j] {
            RuleResultView::Converted(t) => Ok::<Seq<u64>, TypeErrorView>(t),
            RuleResultView::Failed(message) => Err(TypeErrorView::RuleFailed { source, message }),
            RuleResultView::NotApplicable => Ok(Seq::empty()),
        },
    decreases rs.len(),
{
    if j < rs.len() - 1 {
        let init = rs.drop_last();
        assert(rs.last() is NotApplicable) by {
            assert(rs[rs.len() - 1] is NotApplicable);
        }
        assert forall|k: int| j < k < init.len() implies #[trigger] init[k] is NotApplicable by {
            assert(init[k] == rs[k]);
        }
        assert(init[j] == rs[j]);
        law_newest_rule_decides(source, init, identity_fallback, j);
    }
}

/// When no rule applies, a type converts to itself under the identity fallback and has no
/// conversion otherwise.
pub proof fn law_no_rule_applies(source: u64, rs: Seq<RuleResultView>, identity_fallback: bool)
    requires
        forall|k: int| 0 <= k < rs.len() ==> #[trigger] rs[k] is NotApplicable,
    ensures
        resolved(source, rs, identity_fallback) == if identity_fallback {
            Ok::<Seq<u64>, TypeErrorView>(seq![source])
        } else {
            Err(TypeErrorView::NoConversion { source })
        },
    decreases rs.len(),
{
    if rs.len() > 0 {
        let init = rs.drop_last();
        assert(rs.last() is NotApplicable) by {
            assert(rs[rs.len() - 1] is NotApplicable);
        }
        assert forall|k: int| 0 <= k < init.len() implies #[trigger] init[k] is NotApplicable by {
            assert(init[k] == rs[k]);
        }
        law_no_rule_applies(source, init, identity_fallback);
    }
}

} // verus!

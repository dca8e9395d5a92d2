use vstd::prelude::*;

verus! {

/// The operation that casts values between types while a conversion is under way.
pub const CAST_OPERATION: &'static str = "builtin.unrealized_conversion_cast";

/// Each value of `inputs` has the type of the value of `outputs` at its position: a cast
/// from the one to the other changes nothing.
pub open spec fn same_types(inputs: Seq<u64>, outputs: Seq<u64>) -> bool {
    inputs.len() == outputs.len() && forall|i: int| 0 <= i < inputs.len() ==> inputs[i] == outputs[i]
}

/// Whether a cast with operands of types `inputs` and results of types `outputs` is an
/// identity (or, for a chain of two casts, whether the chain round-trips): same number of
/// values, each of the same type.
pub fn casts_to_same_types(inputs: &[u64], outputs: &[u64]) -> (r: bool)
    ensures
        r == same_types(inputs@, outputs@),
{
    if inputs.len() != outputs.len() {
        return false;
    }
    let mut i: usize = 0;
    while i < inputs.len()
        invariant
            0 <= i <= inputs@.len(),
            inputs@.len() == outputs@.len(),
            forall|k: int| 0 <= k < i ==> inputs@[k] == outputs@[k],
        decreases inputs@.len() - i,
    {
        if inputs[i] != outputs[i] {
            return false;
        }
        i = i + 1;
    }
    true
}

/// Whether the producer of a cast's first operand is a cast whose results are exactly the
/// cast's operands (so the two casts form a chain); `producer` holds, when the first operand
/// is an operation result, whether that operation is a cast and its results.
pub fn is_cast_chain(operands: &[u64], producer: Option<(bool, &[u64])>) -> (r: bool)
    ensures
        r == (operands@.len() > 0 && match producer {
            Some((is_cast, results)) => is_cast && results@ == operands@,
            None => false,
        }),
{
    if operands.len() == 0 {
        return false;
    }
    match producer {
        None => false,
        Some((is_cast, results)) => {
            if !is_cast || results.len() != operands.len() {
                return false;
            }
            let mut i: usize = 0;
            while i < results.len()
                invariant
                    0 <= i <= results@.len(),
                    results@.len() == operands@.len(),
                    producer == Some((is_cast, results)),
                    is_cast,
                    operands@.len() > 0,
                    forall|k: int| 0 <= k < i ==> results@[k] == operands@[k],
                decreases results@.len() - i,
            {
                if results[i] != operands[i] {
                    proof {
                        assert(results@[i as int] != operands@[i as int]);
                        assert(results@ != operands@);
                    }
                    return false;
                }
                i = i + 1;
            }
            proof {
                assert(results@ =~= operands@);
            }
            true
        },
    }
}

/// Whether an operation is dead: none of its results has a use (`used[i]` for result `i`).
pub fn is_dead(used: &[bool]) -> (r: bool)
    ensures
        r == forall|i: int| 0 <= i < used@.len() ==> !used@[i],
{
    let mut i: usize = 0;
    while i < used.len()
        invariant
            0 <= i <= used@.len(),
            forall|k: int| 0 <= k < i ==> !used@[k],
        decreases used@.len() - i,
    {
        if used[i] {
            return false;
        }
        i = i + 1;
    }
    true
}

/// The patterns that reconcile casts, by name and benefit, in the order they are added:
/// cancel a round trip, remove an identity cast, collapse a chain, remove a dead cast.
pub fn reconcile_patterns() -> (r: Vec<(&'static str, u64)>)
    ensures
        r@.len() == 4,
        r@[0].0@ == "CancelRoundTripCast"@ && r@[0].1 == 100,
        r@[1].0@ == "RemoveIdentityCast"@ && r@[1].1 == 90,
        r@[2].0@ == "CollapseCastChain"@ && r@[2].1 == 80,
        r@[3].0@ == "RemoveDeadCast"@ && r@[3].1 == 10,
{
    let mut r: Vec<(&'static str, u64)> = Vec::new();
    r.push(("CancelRoundTripCast", 100));
    r.push(("RemoveIdentityCast", 90));
    r.push(("CollapseCastChain", 80));
    r.push(("RemoveDeadCast", 10));
    r
}


/// A cast changes nothing exactly when its operand types are its result types, position by
/// position: in particular a one-value cast between two different types is no identity.
pub proof fn law_identity_cast_iff_equal_types(inputs: Seq<u64>, outputs: Seq<u64>)
    ensures
        same_types(inputs, outputs) <==> inputs == outputs,
        inputs.len() > 0 && outputs.len() > 0 && inputs[0] != outputs[0] ==> !same_types(inputs, outputs),
{
    if same_types(inputs, outputs) {
        assert(inputs =~= outputs);
    }
}

} // verus!

use vstd::prelude::*;

use super::error::{TypeConversionError, TypeErrorView};

verus! {

/// The converted values of each operand of an operation, by value id.
#[derive(Debug)]
pub struct ConvertedOperands {
    values: Vec<Vec<u64>>,
}

impl View for ConvertedOperands {
    type V = Seq<Seq<u64>>;

    closed spec fn view(&self) -> Seq<Seq<u64>> {
        self.values@.map_values(|v: Vec<u64>| v@)
    }
}

/// The values of each operand, one after another.
pub open spec fn flatten_operands(s: Seq<Seq<u64>>) -> Seq<u64>
    decreases s.len(),
{
    if s.len() == 0 {
        Seq::empty()
    } else {
        flatten_operands(s.drop_last()) + s.last()
    }
}

impl ConvertedOperands {
    pub fn new(values: Vec<Vec<u64>>) -> (r: ConvertedOperands)
        ensures
            r@ == values@.map_values(|v: Vec<u64>| v@),
    {
        ConvertedOperands { values }
    }

    /// The values of operand `index`.
    pub fn get(&self, index: usize) -> (r: Option<&[u64]>)
        ensures
            match r {
                Some(v) => index < self@.len() && v@ == self@[index as int],
                None => index >= self@.len(),
            },
    {
        if index < self.values.len() {
            Some(self.values[index].as_slice())
        } else {
            None
        }
    }

    /// The one value of operand `index`; an operand with none (or a missing operand) or
    /// several fails.
    pub fn single(&self, index: usize) -> (r: Result<u64, TypeConversionError>)
        ensures
            ({
                let n: nat = if index < self@.len() { self@[index as int].len() } else { 0 };
                match r {
                    Ok(v) => n == 1 && v == self@[index as int][0],
                    Err(e) => n != 1 && e@ == TypeErrorView::ExpectedSingleValue { operand: index as nat, actual: n },
                }
            }),
    {
        let count = match self.get(index) {
            Some(v) => v.len(),
            None => 0,
        };
        if count != 1 {
            return Err(TypeConversionError::ExpectedSingleValue { operand: index, actual: count });
        }
        Ok(self.values[index][0])
    }

    /// The values of all operands, one after another.
    pub fn flattened(&self) -> (r: Vec<u64>)
        ensures
            r@ == flatten_operands(self@),
    {
        let ghost s = self@;
        let mut r: Vec<u64> = Vec::new();
        let mut i: usize = 0;
        proof {
            assert(s.subrange(0, 0) =~= Seq::<Seq<u64>>::empty());
        }
        while i < self.values.len()
            invariant
                0 <= i <= self.values@.len(),
                s == self@,
                s.len() == self.values@.len(),
                r@ == flatten_operands(s.subrange(0, i as int)),
            decreases self.values@.len() - i,
        {
            let ghost before = r@;
            let mut k: usize = 0;
            while k < self.values[i].len()
                invariant
                    0 <= k <= self.values@[i as int]@.len(),
                    i < self.values@.len(),
                    r@ == before + self.values@[i as int]@.subrange(0, k as int),
                decreases self.values@[i as int]@.len() - k,
            {
                r.push(self.values[i][k]);
                proof {
                    assert(r@ =~= before + self.values@[i as int]@.subrange(0, k + 1));
                }
                k = k + 1;
            }
            proof {
                assert(self.values@[i as int]@.subrange(0, self.values@[i as int]@.len() as int) =~= self.values@[i as int]@);
                assert(s.subrange(0, i + 1).drop_last() =~= s.subrange(0, i as int));
                assert(s.subrange(0, i + 1).last() == self.values@[i as int]@);
            }
            i = i + 1;
        }
        proof {
            assert(s.subrange(0, s.len() as int) =~= s);
        }
        r
    }
}

/// Checks that an operation with `results` results gets as many replacement groups.
pub fn check_result_count(results: usize, replacements: usize) -> (r: Result<(), TypeConversionError>)
    ensures
        match r {
            Ok(()) => results == replacements,
            Err(e) => results != replacements && e@ == TypeErrorView::ResultCountMismatch {
                expected: results as nat,
                actual: replacements as nat,
            },
        },
{
    if results != replacements {
        Err(TypeConversionError::ResultCountMismatch { expected: results, actual: replacements })
    } else {
        Ok(())
    }
}

/// Checks that the replacement values of result `index` have the types its type converts to.
pub fn check_result_types(index: usize, expected: &[u64], actual: &[u64]) -> (r: Result<(), TypeConversionError>)
    ensures
        match r {
            Ok(()) => expected@ == actual@,
            Err(e) => expected@ != actual@ && e@ == TypeErrorView::ResultTypeMismatch {
                result: index as nat,
                expected: expected@,
                actual: actual@,
            },
        },
{
    let mut same = expected.len() == actual.len();
    let mut i: usize = 0;
    while same && i < expected.len()
        invariant
            0 <= i <= expected@.len(),
            same ==> expected@.len() == actual@.len() && forall|k: int| 0 <= k < i ==> expected@[k] == actual@[k],
            !same ==> expected@ != actual@,
        decreases expected@.len() - i,
    {
        if expected[i] != actual[i] {
            same = false;
            proof {
                assert(expected@[i as int] != actual@[i as int]);
            }
        }
        i = i + 1;
    }
    if same {
        proof {
            assert(expected@ =~= actual@);
        }
        Ok(())
    } else {
        Err(TypeConversionError::ResultTypeMismatch { result: index, expected: copy_ids(expected), actual: copy_ids(actual) })
    }
}

/// What is wrong with the values a materialization produced: a value that does not exist
/// (by position), or a count or type that differs from what was requested.
#[derive(Debug)]
pub enum MaterializationFault {
    Missing { index: usize },
    Error(TypeConversionError),
}

/// Value `i` exists and has the requested type.
pub open spec fn materialized_ok(requested: Seq<u64>, actual: Seq<Option<u64>>, i: int) -> bool {
    actual[i] == Some(requested[i])
}

/// Checks the values a materialization produced against the requested types: their count
/// first, then each value in order; `actual[i]` is the type of value `i`, or `None` when the
/// value does not exist.
pub fn check_materialized(
    kind: &'static str,
    requested: &[u64],
    values: &[u64],
    actual: &[Option<u64>],
) -> (r: Result<(), MaterializationFault>)
    requires
        actual@.len() == values@.len(),
    ensures
        match r {
            Ok(()) => values@.len() == requested@.len() && forall|i: int|
                0 <= i < values@.len() ==> materialized_ok(requested@, actual@, i),
            Err(MaterializationFault::Error(e)) => if values@.len() != requested@.len() {
                e@ == TypeErrorView::MaterializationCountMismatch {
                    kind: kind@,
                    expected: requested@.len(),
                    actual: values@.len(),
                }
            } else {
                exists|i: int|
                    {
                        &&& 0 <= i < values@.len()
                        &&& forall|k: int| 0 <= k < i ==> materialized_ok(requested@, actual@, k)
                        &&& (#[trigger] actual@[i]) is Some
                        &&& actual@[i].unwrap() != requested@[i]
                        &&& e@ == TypeErrorView::MaterializationTypeMismatch {
                            kind: kind@,
                            value: values@[i],
                            expected: requested@[i],
                            actual: actual@[i].unwrap(),
                        }
                    }
            },
            Err(MaterializationFault::Missing { index }) => {
                &&& values@.len() == requested@.len()
                &&& index < values@.len()
                &&& actual@[index as int] is None
                &&& forall|k: int| 0 <= k < index ==> materialized_ok(requested@, actual@, k)
            },
        },
{
    if values.len() != requested.len() {
        return Err(MaterializationFault::Error(TypeConversionError::MaterializationCountMismatch {
            kind,
            expected: requested.len(),
            actual: values.len(),
        }));
    }
    let mut i: usize = 0;
    while i < values.len()
        invariant
            0 <= i <= values@.len(),
            values@.len() == requested@.len(),
            actual@.len() == values@.len(),
            forall|k: int| 0 <= k < i ==> materialized_ok(requested@, actual@, k),
        decreases values@.len() - i,
    {
        match actual[i] {
            None => {
                return Err(MaterializationFault::Missing { index: i });
            },
            Some(t) => {
                if t != requested[i] {
                    proof {
                        assert(actual@[i as int] == Some(t));
                    }
                    return Err(MaterializationFault::Error(TypeConversionError::MaterializationTypeMismatch {
                        kind,
                        value: values[i],
                        expected: requested[i],
                        actual: t,
                    }));
                }
            },
        }
        i = i + 1;
    }
    Ok(())
}

/// A copy of a list of ids.
pub fn copy_ids(s: &[u64]) -> (r: Vec<u64>)
    ensures
        r@ == s@,
{
    let mut r: Vec<u64> = Vec::new();
    for i in 0..s.len()
        invariant
            r@ == s@.subrange(0, i as int),
    {
        r.push(s[i]);
        proof {
            assert(r@ =~= s@.subrange(0, i + 1));
        }
    }
    proof {
        assert(s@.subrange(0, s@.len() as int) =~= s@);
    }
    r
}

} // verus!

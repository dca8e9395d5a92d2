use vstd::prelude::*;

use super::error::{TypeConversionError, TypeErrorView};

verus! {

pub open spec fn replacement_views(r: Seq<Option<Vec<u64>>>) -> Seq<Option<Seq<u64>>> {
    r.map_values(|o: Option<Vec<u64>>| match o {
        Some(v) => Some(v@),
        None => None,
    })
}

/// Position of the first argument without a replacement.
pub open spec fn first_incomplete(s: Seq<Option<Seq<u64>>>) -> Option<int> {
    if exists|i: int| 0 <= i < s.len() && (#[trigger] s[i]) is None {
        Some(choose|i: int| 0 <= i < s.len() && (#[trigger] s[i]) is None && forall|j: int| 0 <= j < i ==> s[j] is Some)
    } else {
        None
    }
}

/// The replacement types of the arguments, one after another.
pub open spec fn flatten(s: Seq<Option<Seq<u64>>>) -> Seq<u64>
    decreases s.len(),
{
    if s.len() == 0 {
        Seq::empty()
    } else {
        flatten(s.drop_last()) + match s.last() {
            Some(t) => t,
            None => Seq::empty(),
        }
    }
}

/// Why a signature does not fit block arguments of types `source`: another number of
/// arguments, or an argument without a replacement.
pub open spec fn signature_error(s: Seq<Option<Seq<u64>>>, source: Seq<u64>) -> Option<TypeErrorView> {
    if source.len() != s.len() {
        Some(TypeErrorView::SignatureArgumentCountMismatch { expected: s.len(), actual: source.len() })
    } else {
        match first_incomplete(s) {
            Some(i) => Some(TypeErrorView::IncompleteSignatureConversion { index: i as nat }),
            None => None,
        }
    }
}

/// The arguments whose replacement is not exactly their own type.
pub open spec fn changed_count(s: Seq<Option<Seq<u64>>>, source: Seq<u64>) -> nat
    decreases s.len(),
{
    if s.len() == 0 {
        0
    } else {
        changed_count(s.drop_last(), source) + if s.last() == Some(seq![source[s.len() - 1]]) {
            0nat
        } else {
            1nat
        }
    }
}

/// How the arguments of a block are converted: for each original argument, the types of
/// the arguments that replace it (none to drop it), once it is decided.
#[derive(Debug)]
pub struct SignatureConversion {
    replacements: Vec<Option<Vec<u64>>>,
}

impl View for SignatureConversion {
    type V = Seq<Option<Seq<u64>>>;

    closed spec fn view(&self) -> Seq<Option<Seq<u64>>> {
        replacement_views(self.replacements@)
    }
}

proof fn lemma_first_incomplete(s: Seq<Option<Seq<u64>>>, i: int)
    requires
        0 <= i < s.len(),
        s[i] is None,
        forall|j: int| 0 <= j < i ==> s[j] is Some,
    ensures
        first_incomplete(s) == Some(i),
{
    let c = choose|c: int| 0 <= c < s.len() && (#[trigger] s[c]) is None && forall|j: int| 0 <= j < c ==> s[j] is Some;
    if c < i {
        assert(s[c] is Some);
    } else if i < c {
        assert(s[i] is Some);
    }
}

impl SignatureConversion {
    /// A conversion of `original_count` arguments with nothing decided yet.
    pub fn new(original_count: usize) -> (r: SignatureConversion)
        ensures
            r@ == Seq::new(original_count as nat, |i: int| None::<Seq<u64>>),
    {
        let mut replacements: Vec<Option<Vec<u64>>> = Vec::new();
        for i in 0..original_count
            invariant
                replacements@.len() == i,
                forall|k: int| 0 <= k < i ==> (#[trigger] replacements@[k]) is None,
        {
            replacements.push(None);
        }
        proof {
            assert(replacement_views(replacements@) =~= Seq::new(original_count as nat, |i: int| None::<Seq<u64>>));
        }
        SignatureConversion { replacements }
    }

    /// A conversion that replaces argument `i` by the types `converted[i]`.
    pub fn from_converted(converted: Vec<Vec<u64>>) -> (r: SignatureConversion)
        ensures
            r@.len() == converted@.len(),
            forall|i: int| 0 <= i < converted@.len() ==> r@[i] == Some((#[trigger] converted@[i])@),
    {
        let n = converted.len();
        let mut replacements: Vec<Option<Vec<u64>>> = Vec::new();
        for i in 0..n
            invariant
                n == converted@.len(),
                replacements@.len() == i,
                forall|k: int| 0 <= k < i ==> ((#[trigger] replacements@[k]) matches Some(v) && v@ == converted@[k]@),
        {
            replacements.push(Some(converted[i].clone()));
        }
        SignatureConversion { replacements }
    }

    /// Decides the replacement of argument `index`.
    pub fn convert_input(&mut self, index: usize, target_types: Vec<u64>) -> (r: Result<(), TypeConversionError>)
        ensures
            match r {
                Ok(()) => index < old(self)@.len() && final(self)@ == old(self)@.update(index as int, Some(target_types@)),
                Err(e) => index >= old(self)@.len() && final(self)@ == old(self)@ && e@
                    == TypeErrorView::SignatureArgumentOutOfBounds { index: index as nat, argument_count: old(self)@.len() },
            },
    {
        if index >= self.replacements.len() {
            return Err(TypeConversionError::SignatureArgumentOutOfBounds { index, argument_count: self.replacements.len() });
        }
        let ghost tv = target_types@;
        self.replacements.set(index, Some(target_types));
        proof {
            assert(replacement_views(self.replacements@) =~= old(self)@.update(index as int, Some(tv)));
        }
        Ok(())
    }

    /// Decides that argument `index` is dropped.
    pub fn drop_input(&mut self, index: usize) -> (r: Result<(), TypeConversionError>)
        ensures
            match r {
                Ok(()) => index < old(self)@.len() && final(self)@ == old(self)@.update(index as int, Some(Seq::empty())),
                Err(e) => index >= old(self)@.len() && final(self)@ == old(self)@ && e@
                    == TypeErrorView::SignatureArgumentOutOfBounds { index: index as nat, argument_count: old(self)@.len() },
            },
    {
        let r = self.convert_input(index, Vec::new());
        proof {
            if r is Ok {
                assert(final(self)@ =~= old(self)@.update(index as int, Some(Seq::<u64>::empty())));
            }
        }
        r
    }

    pub fn original_count(&self) -> (r: usize)
        ensures
            r == self@.len(),
    {
        self.replacements.len()
    }

    /// The replacement types of argument `index`.
    pub fn converted_types(&self, index: usize) -> (r: Result<&[u64], TypeConversionError>)
        ensures
            match r {
                Ok(t) => index < self@.len() && self@[index as int] == Some(t@),
                Err(e) => if index >= self@.len() {
                    e@ == TypeErrorView::SignatureArgumentOutOfBounds { index: index as nat, argument_count: self@.len() }
                } else {
                    self@[index as int] is None && e@ == TypeErrorView::IncompleteSignatureConversion { index: index as nat }
                },
            },
    {
        if index >= self.replacements.len() {
            return Err(TypeConversionError::SignatureArgumentOutOfBounds { index, argument_count: self.replacements.len() });
        }
        match &self.replacements[index] {
            Some(types) => Ok(types.as_slice()),
            None => Err(TypeConversionError::IncompleteSignatureConversion { index }),
        }
    }

    /// The replacement types of all arguments, one after another.
    pub fn flattened_types(&self) -> (r: Result<Vec<u64>, TypeConversionError>)
        ensures
            match r {
                Ok(t) => first_incomplete(self@) is None && t@ == flatten(self@),
                Err(e) => first_incomplete(self@) matches Some(i) && e@
                    == TypeErrorView::IncompleteSignatureConversion { index: i as nat },
            },
    {
        let ghost s = self@;
        let mut result: Vec<u64> = Vec::new();
        let mut i: usize = 0;
        proof {
            assert(s.subrange(0, 0) =~= Seq::<Option<Seq<u64>>>::empty());
        }
        while i < self.replacements.len()
            invariant
                0 <= i <= s.len(),
                s == self@,
                self.replacements@.len() == s.len(),
                forall|k: int| 0 <= k < i ==> s[k] is Some,
                result@ == flatten(s.subrange(0, i as int)),
            decreases s.len() - i,
        {
            let types = self.converted_types(i);
            match types {
                Ok(t) => {
                    let ghost before = result@;
                    let mut k: usize = 0;
                    while k < t.len()
                        invariant
                            0 <= k <= t@.len(),
                            result@ == before + t@.subrange(0, k as int),
                        decreases t@.len() - k,
                    {
                        result.push(t[k]);
                        proof {
                            assert(result@ =~= before + t@.subrange(0, k + 1));
                        }
                        k = k + 1;
                    }
                    proof {
                        assert(t@.subrange(0, t@.len() as int) =~= t@);
                        assert(s.subrange(0, i + 1).drop_last() =~= s.subrange(0, i as int));
                        assert(s.subrange(0, i + 1).last() == Some(t@));
                    }
                },
                Err(e) => {
                    proof {
                        lemma_first_incomplete(s, i as int);
                    }
                    return Err(e);
                },
            }
            i = i + 1;
        }
        proof {
            assert(s.subrange(0, s.len() as int) =~= s);
            if first_incomplete(s) is Some {
                let c = choose|c: int| 0 <= c < s.len() && (#[trigger] s[c]) is None;
            }
        }
        Ok(result)
    }

    /// Checks that the conversion fits block arguments of types `source_types`: as many
    /// arguments, each with a replacement.
    pub fn validate_for(&self, source_types: &[u64]) -> (r: Result<(), TypeConversionError>)
        ensures
            match r {
                Ok(()) => signature_error(self@, source_types@) is None,
                Err(e) => signature_error(self@, source_types@) == Some(e@),
            },
    {
        if source_types.len() != self.replacements.len() {
            return Err(TypeConversionError::SignatureArgumentCountMismatch {
                expected: self.replacements.len(),
                actual: source_types.len(),
            });
        }
        let ghost s = self@;
        let mut i: usize = 0;
        while i < self.replacements.len()
            invariant
                0 <= i <= s.len(),
                s == self@,
                self.replacements@.len() == s.len(),
                source_types@.len() == s.len(),
                forall|k: int| 0 <= k < i ==> s[k] is Some,
            decreases s.len() - i,
        {
            match self.converted_types(i) {
                Ok(_) => {},
                Err(e) => {
                    proof {
                        lemma_first_incomplete(s, i as int);
                    }
                    return Err(e);
                },
            }
            i = i + 1;
        }
        proof {
            if first_incomplete(s) is Some {
                let c = choose|c: int| 0 <= c < s.len() && (#[trigger] s[c]) is None;
            }
        }
        Ok(())
    }

    /// Whether the conversion leaves every argument as it is: each replaced by exactly its
    /// own type.
    pub fn is_identity(&self, source_types: &[u64]) -> (r: Result<bool, TypeConversionError>)
        ensures
            match r {
                Ok(b) => signature_error(self@, source_types@) is None && b == (forall|i: int|
                    0 <= i < source_types@.len() ==> #[trigger] self@[i] == Some(seq![source_types@[i]])),
                Err(e) => signature_error(self@, source_types@) == Some(e@),
            },
    {
        self.validate_for(source_types)?;
        Ok(self.converted_argument_count(source_types)? == 0)
    }

    /// The number of arguments whose replacement is not exactly their own type.
    pub fn converted_argument_count(&self, source_types: &[u64]) -> (r: Result<usize, TypeConversionError>)
        ensures
            match r {
                Ok(n) => signature_error(self@, source_types@) is None && n == changed_count(self@, source_types@)
                    && (n == 0 <==> forall|i: int|
                    0 <= i < source_types@.len() ==> #[trigger] self@[i] == Some(seq![source_types@[i]])),
                Err(e) => signature_error(self@, source_types@) == Some(e@),
            },
    {
        self.validate_for(source_types)?;
        let ghost s = self@;
        let ghost src = source_types@;
        let mut count: usize = 0;
        let mut i: usize = 0;
        proof {
            assert(s.subrange(0, 0) =~= Seq::<Option<Seq<u64>>>::empty());
        }
        while i < self.replacements.len()
            invariant
                0 <= i <= s.len(),
                s == self@,
                src == source_types@,
                self.replacements@.len() == s.len(),
                src.len() == s.len(),
                count <= i,
                count == changed_count(s.subrange(0, i as int), src),
                count == 0 <==> forall|k: int| 0 <= k < i ==> #[trigger] s[k] == Some(seq![src[k]]),
            decreases s.len() - i,
        {
            let same = match &self.replacements[i] {
                Some(types) => types.len() == 1 && types[0] == source_types[i],
                None => false,
            };
            proof {
                assert(s.subrange(0, i + 1).drop_last() =~= s.subrange(0, i as int));
                assert(s.subrange(0, i + 1).last() == s[i as int]);
                if same {
                    assert(s[i as int]->0 =~= seq![src[i as int]]);
                } else {
                    if s[i as int] == Some(seq![src[i as int]]) {
                        assert(s[i as int]->0[0] == src[i as int]);
                    }
                }
                assert(changed_count(s.subrange(0, i + 1), src) == changed_count(s.subrange(0, i as int), src)
                    + if s[i as int] == Some(seq![src[i as int]]) { 0nat } else { 1nat });
            }
            if !same {
                count = count + 1;
            }
            i = i + 1;
        }
        proof {
            assert(s.subrange(0, s.len() as int) =~= s);
        }
        Ok(count)
    }
}

/// Checks that a branch into a block passes as many operands as the block has arguments.
pub fn check_successor_operands(arguments: usize, operands: usize) -> (r: Result<(), TypeConversionError>)
    ensures
        match r {
            Ok(()) => arguments == operands,
            Err(e) => arguments != operands && e@ == TypeErrorView::SignatureArgumentCountMismatch {
                expected: arguments as nat,
                actual: operands as nat,
            },
        },
{
    if arguments != operands {
        Err(TypeConversionError::SignatureArgumentCountMismatch { expected: arguments, actual: operands })
    } else {
        Ok(())
    }
}

/// Checks that an argument replaced by nothing has no uses left.
pub fn check_dropped_argument(block: u64, index: usize, value: u64, replaced_by: usize, has_uses: bool) -> (r: Result<
    (),
    TypeConversionError,
>)
    ensures
        match r {
            Ok(()) => !(has_uses && replaced_by == 0),
            Err(e) => has_uses && replaced_by == 0 && e@ == TypeErrorView::CannotDropUsedArgument {
                block,
                index: index as nat,
                value,
            },
        },
{
    if has_uses && replaced_by == 0 {
        Err(TypeConversionError::CannotDropUsedArgument { block, index, value })
    } else {
        Ok(())
    }
}

} // verus!

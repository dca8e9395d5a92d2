use vstd::prelude::*;

verus! {

/// Bit 63 of an IEEE-754 double: the sign.
pub open spec fn float_sign(bits: u64) -> int {
    bits as int / 0x8000000000000000
}

/// Bits 52..62 of an IEEE-754 double: the biased exponent.
pub open spec fn float_exponent(bits: u64) -> int {
    (bits as int / 0x10000000000000) % 0x800
}

/// Bits 0..51 of an IEEE-754 double: the fraction.
pub open spec fn float_fraction(bits: u64) -> int {
    bits as int % 0x10000000000000
}

/// The double is a NaN.
pub open spec fn float_is_nan(bits: u64) -> bool {
    float_exponent(bits) == 0x7ff && float_fraction(bits) != 0
}

/// The double is neither infinite nor NaN.
pub open spec fn float_is_finite(bits: u64) -> bool {
    float_exponent(bits) != 0x7ff
}

/// The double is +0.0 or -0.0.
pub open spec fn float_is_zero(bits: u64) -> bool {
    float_exponent(bits) == 0 && float_fraction(bits) == 0
}

/// `x > 0.0` for the double with these bits.
pub open spec fn float_is_positive(bits: u64) -> bool {
    float_sign(bits) == 0 && !float_is_zero(bits) && !float_is_nan(bits)
}

/// `x < 0.0` for the double with these bits.
pub open spec fn float_is_negative(bits: u64) -> bool {
    float_sign(bits) == 1 && !float_is_zero(bits) && !float_is_nan(bits)
}

/// `x == y` for doubles: NaN equals nothing, and the two zeros are equal.
pub open spec fn float_equal(x: u64, y: u64) -> bool {
    !float_is_nan(x) && !float_is_nan(y) && (x == y || (float_is_zero(x) && float_is_zero(y)))
}

pub fn float_bits_finite(bits: u64) -> (r: bool)
    ensures
        r == float_is_finite(bits),
{
    (bits / 0x10000000000000) % 0x800 != 0x7ff
}

fn float_bits_nan(bits: u64) -> (r: bool)
    ensures
        r == float_is_nan(bits),
{
    (bits / 0x10000000000000) % 0x800 == 0x7ff && bits % 0x10000000000000 != 0
}

fn float_bits_zero(bits: u64) -> (r: bool)
    ensures
        r == float_is_zero(bits),
{
    (bits / 0x10000000000000) % 0x800 == 0 && bits % 0x10000000000000 == 0
}

pub fn float_bits_positive(bits: u64) -> (r: bool)
    ensures
        r == float_is_positive(bits),
{
    bits / 0x8000000000000000 == 0 && !float_bits_zero(bits) && !float_bits_nan(bits)
}

pub fn float_bits_negative(bits: u64) -> (r: bool)
    ensures
        r == float_is_negative(bits),
{
    bits / 0x8000000000000000 == 1 && !float_bits_zero(bits) && !float_bits_nan(bits)
}

pub fn float_bits_equal(x: u64, y: u64) -> (r: bool)
    ensures
        r == float_equal(x, y),
{
    !float_bits_nan(x) && !float_bits_nan(y) && (x == y || (float_bits_zero(x) && float_bits_zero(y)))
}

/// A value that a constraint, a capability or a route property carries. A float is held
/// as the bits of its IEEE-754 double.
#[derive(Debug)]
pub enum PolicyValue {
    Bool(bool),
    Integer(i64),
    Float(u64),
    String(String),
    Array(Vec<PolicyValue>),
}

/// The mathematical content of a policy value.
pub enum ValueView {
    Bool(bool),
    Integer(i64),
    Float(u64),
    Text(Seq<char>),
    Array(Seq<ValueView>),
}

pub open spec fn value_view(v: PolicyValue) -> ValueView
    decreases v,
{
    match v {
        PolicyValue::Bool(x) => ValueView::Bool(x),
        PolicyValue::Integer(x) => ValueView::Integer(x),
        PolicyValue::Float(x) => ValueView::Float(x),
        PolicyValue::String(x) => ValueView::Text(x@),
        PolicyValue::Array(xs) => ValueView::Array(
            Seq::new(
                xs@.len(),
                |i: int|
                    {
                        if 0 <= i < xs@.len() {
                            value_view(xs@[i])
                        } else {
                            ValueView::Bool(false)
                        }
                    },
            ),
        ),
    }
}

/// The view of an array value is the sequence of the views of its elements.
pub proof fn lemma_array_view(v: PolicyValue)
    requires
        v is Array,
    ensures
        v@ is Array,
        v@->Array_0.len() == v->Array_0@.len(),
        forall|i: int| 0 <= i < v->Array_0@.len() ==> #[trigger] v@->Array_0[i] == v->Array_0@[i]@,
{
}

impl View for PolicyValue {
    type V = ValueView;

    open spec fn view(&self) -> ValueView {
        value_view(*self)
    }
}

/// Equality of policy values, with the equality of doubles for floats.
pub open spec fn value_eq(a: ValueView, b: ValueView) -> bool
    decreases a,
{
    match (a, b) {
        (ValueView::Bool(x), ValueView::Bool(y)) => x == y,
        (ValueView::Integer(x), ValueView::Integer(y)) => x == y,
        (ValueView::Float(x), ValueView::Float(y)) => float_equal(x, y),
        (ValueView::Text(x), ValueView::Text(y)) => x == y,
        (ValueView::Array(x), ValueView::Array(y)) => x.len() == y.len() && forall|i: int|
            0 <= i < x.len() ==> value_eq(#[trigger] x[i], y[i]),
        _ => false,
    }
}

/// Every float inside the value is finite.
pub open spec fn value_is_valid(v: ValueView) -> bool
    decreases v,
{
    match v {
        ValueView::Float(x) => float_is_finite(x),
        ValueView::Array(values) => forall|i: int|
            0 <= i < values.len() ==> value_is_valid(#[trigger] values[i]),
        _ => true,
    }
}

pub open spec fn value_is_numeric(v: ValueView) -> bool {
    v is Integer || v is Float
}

impl PolicyValue {
    /// A string value.
    pub fn string(value: &str) -> (r: PolicyValue)
        ensures
            r@ == ValueView::Text(value@),
    {
        PolicyValue::String(value.to_string())
    }

    /// A float value from the bits of a double.
    pub fn float(bits: u64) -> (r: PolicyValue)
        ensures
            r@ == ValueView::Float(bits),
    {
        PolicyValue::Float(bits)
    }

    pub fn is_numeric(&self) -> (r: bool)
        ensures
            r == value_is_numeric(self@),
    {
        match self {
            PolicyValue::Integer(_) | PolicyValue::Float(_) => true,
            _ => false,
        }
    }

    /// Every float inside the value is finite.
    pub fn validate(&self) -> (r: bool)
        ensures
            r == value_is_valid(self@),
        decreases self,
    {
        match self {
            PolicyValue::Float(x) => float_bits_finite(*x),
            PolicyValue::Array(values) => {
                let mut i: usize = 0;
                while i < values.len()
                    invariant
                        *self == PolicyValue::Array(*values),
                        0 <= i <= values@.len(),
                        forall|k: int| 0 <= k < i ==> value_is_valid(#[trigger] values@[k]@),
                    decreases values@.len() - i,
                {
                    proof {
                        assert(decreases_to!(*self => (*self)->Array_0@[i as int]));
                    }
                    if !values[i].validate() {
                        proof {
                            lemma_array_view(*self);
                            assert(!value_is_valid(self@->Array_0[i as int]));
                        }
                        return false;
                    }
                    i = i + 1;
                }
                proof {
                    lemma_array_view(*self);
                }
                true
            },
            _ => true,
        }
    }

    /// Equality of policy values, as `==` compares them.
    pub fn equals(&self, other: &PolicyValue) -> (r: bool)
        ensures
            r == value_eq(self@, other@),
        decreases self,
    {
        match (self, other) {
            (PolicyValue::Bool(x), PolicyValue::Bool(y)) => *x == *y,
            (PolicyValue::Integer(x), PolicyValue::Integer(y)) => *x == *y,
            (PolicyValue::Float(x), PolicyValue::Float(y)) => float_bits_equal(*x, *y),
            (PolicyValue::String(x), PolicyValue::String(y)) => *x == *y,
            (PolicyValue::Array(x), PolicyValue::Array(y)) => {
                proof {
                    lemma_array_view(*self);
                    lemma_array_view(*other);
                }
                if x.len() != y.len() {
                    return false;
                }
                let mut i: usize = 0;
                while i < x.len()
                    invariant
                        *self == PolicyValue::Array(*x),
                        *other == PolicyValue::Array(*y),
                        0 <= i <= x@.len(),
                        x@.len() == y@.len(),
                        forall|k: int| 0 <= k < i ==> value_eq(#[trigger] x@[k]@, y@[k]@),
                    decreases x@.len() - i,
                {
                    proof {
                        assert(decreases_to!(*self => (*self)->Array_0@[i as int]));
                    }
                    if !x[i].equals(&y[i]) {
                        proof {
                            lemma_array_view(*self);
                            lemma_array_view(*other);
                            assert(!value_eq(self@->Array_0[i as int], other@->Array_0[i as int]));
                        }
                        return false;
                    }
                    i = i + 1;
                }
                proof {
                    lemma_array_view(*self);
                    lemma_array_view(*other);
                }
                true
            },
            _ => false,
        }
    }

    pub fn clone_value(&self) -> (r: PolicyValue)
        ensures
            r@ == self@,
        decreases self,
    {
        match self {
            PolicyValue::Bool(x) => PolicyValue::Bool(*x),
            PolicyValue::Integer(x) => PolicyValue::Integer(*x),
            PolicyValue::Float(x) => PolicyValue::Float(*x),
            PolicyValue::String(x) => PolicyValue::String(x.clone()),
            PolicyValue::Array(x) => {
                let mut out: Vec<PolicyValue> = Vec::new();
                let mut i: usize = 0;
                while i < x.len()
                    invariant
                        *self == PolicyValue::Array(*x),
                        0 <= i <= x@.len(),
                        out@.len() == i,
                        forall|k: int| 0 <= k < i ==> (#[trigger] out@[k])@ == x@[k]@,
                    decreases x@.len() - i,
                {
                    proof {
                        assert(decreases_to!(*self => (*self)->Array_0@[i as int]));
                    }
                    out.push(x[i].clone_value());
                    i = i + 1;
                }
                proof {
                    lemma_array_view(*self);
                    lemma_array_view(PolicyValue::Array(out));
                    assert(PolicyValue::Array(out)@->Array_0 =~= self@->Array_0);
                }
                PolicyValue::Array(out)
            },
        }
    }
}

} // verus!

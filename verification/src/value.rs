use vstd::prelude::*;

verus! {

/// A runtime value of the virtual machine.
///
/// A double-precision number is held by its IEEE-754 bit pattern: `F64(bits)`.
#[derive(Debug)]
pub enum Value {
    Nil,
    Bool(bool),
    I64(i64),
    F64(u64),
    String(String),
    Array(Vec<Value>),
    Function(String),
    Capability(String),
}

/// The mathematical model of a [`Value`]: strings are character sequences.
pub enum ValueV {
    Nil,
    Bool(bool),
    I64(i64),
    F64(u64),
    String(Seq<char>),
    Array(Seq<ValueV>),
    Function(Seq<char>),
    Capability(Seq<char>),
}

/// The type tag of a value, and the parameter types a capability may declare.
#[derive(Clone, Copy, Debug, PartialEq, Eq, Structural)]
pub enum ValueType {
    Nil,
    Bool,
    I64,
    F64,
    String,
    Array,
    Function,
    Capability,
    Any,
    AnyVariadic,
}

pub open spec fn value_view(v: Value) -> ValueV
    decreases v,
{
    match v {
        Value::Nil => ValueV::Nil,
        Value::Bool(b) => ValueV::Bool(b),
        Value::I64(i) => ValueV::I64(i),
        Value::F64(b) => ValueV::F64(b),
        Value::String(s) => ValueV::String(s@),
        Value::Array(items) => ValueV::Array(values_view(items@)),
        Value::Function(s) => ValueV::Function(s@),
        Value::Capability(s) => ValueV::Capability(s@),
    }
}

pub open spec fn values_view(s: Seq<Value>) -> Seq<ValueV>
    decreases s,
{
    if s.len() == 0 {
        Seq::empty()
    } else {
        values_view(s.drop_last()).push(value_view(s.last()))
    }
}

impl View for Value {
    type V = ValueV;

    open spec fn view(&self) -> ValueV {
        value_view(*self)
    }
}

/// The view of a sequence of values has the same length, and each element is the view of
/// the element at the same place.
pub proof fn lemma_values_view(s: Seq<Value>)
    ensures
        values_view(s).len() == s.len(),
        forall|i: int| 0 <= i < s.len() ==> #[trigger] values_view(s)[i] == value_view(s[i]),
    decreases s.len(),
{
    if s.len() > 0 {
        lemma_values_view(s.drop_last());
    }
}

/// The views of two sequences of values are equal when their lengths and element views agree.
pub proof fn lemma_values_view_ext(a: Seq<Value>, b: Seq<Value>)
    requires
        a.len() == b.len(),
        forall|i: int| 0 <= i < a.len() ==> value_view(#[trigger] a[i]) == value_view(b[i]),
    ensures
        values_view(a) == values_view(b),
{
    lemma_values_view(a);
    lemma_values_view(b);
    assert(values_view(a) =~= values_view(b));
}

pub open spec fn value_type_of(v: ValueV) -> ValueType {
    match v {
        ValueV::Nil => ValueType::Nil,
        ValueV::Bool(_) => ValueType::Bool,
        ValueV::I64(_) => ValueType::I64,
        ValueV::F64(_) => ValueType::F64,
        ValueV::String(_) => ValueType::String,
        ValueV::Array(_) => ValueType::Array,
        ValueV::Function(_) => ValueType::Function,
        ValueV::Capability(_) => ValueType::Capability,
    }
}

/// Whether the bit pattern is a positive or a negative zero.
pub open spec fn float_bits_is_zero(bits: u64) -> bool {
    bits & 0x7fff_ffff_ffff_ffffu64 == 0
}

/// Whether the bit pattern is a NaN: all exponent bits set and a nonzero fraction.
pub open spec fn float_bits_is_nan(bits: u64) -> bool {
    bits & 0x7ff0_0000_0000_0000u64 == 0x7ff0_0000_0000_0000u64 && bits & 0x000f_ffff_ffff_ffffu64
        != 0
}

/// IEEE-754 equality of two doubles given by their bits: NaN equals nothing, and the two
/// zeros are equal.
pub open spec fn float_bits_eq(a: u64, b: u64) -> bool {
    !float_bits_is_nan(a) && !float_bits_is_nan(b) && (a == b || (float_bits_is_zero(a)
        && float_bits_is_zero(b)))
}

/// Truthiness used by conditional jumps.
pub open spec fn truthy(v: ValueV) -> bool {
    match v {
        ValueV::Nil => false,
        ValueV::Bool(b) => b,
        ValueV::I64(i) => i != 0,
        ValueV::F64(bits) => !float_bits_is_zero(bits),
        ValueV::String(s) => s.len() != 0,
        ValueV::Array(items) => items.len() != 0,
        ValueV::Function(_) => true,
        ValueV::Capability(_) => true,
    }
}

/// Equality of values as the runtime compares them: structural, with IEEE-754 equality
/// on doubles.
pub open spec fn value_eq(a: ValueV, b: ValueV) -> bool
    decreases a,
{
    match (a, b) {
        (ValueV::Nil, ValueV::Nil) => true,
        (ValueV::Bool(x), ValueV::Bool(y)) => x == y,
        (ValueV::I64(x), ValueV::I64(y)) => x == y,
        (ValueV::F64(x), ValueV::F64(y)) => float_bits_eq(x, y),
        (ValueV::String(x), ValueV::String(y)) => x == y,
        (ValueV::Array(xs), ValueV::Array(ys)) => xs.len() == ys.len() && forall|i: int|
            0 <= i < xs.len() ==> value_eq(#[trigger] xs[i], ys[i]),
        (ValueV::Function(x), ValueV::Function(y)) => x == y,
        (ValueV::Capability(x), ValueV::Capability(y)) => x == y,
        _ => false,
    }
}

pub open spec fn values_eq(xs: Seq<ValueV>, ys: Seq<ValueV>) -> bool {
    xs.len() == ys.len() && forall|i: int| 0 <= i < xs.len() ==> value_eq(#[trigger] xs[i], ys[i])
}

/// A value that holds no NaN anywhere; such a value is equal to itself.
pub open spec fn nan_free(v: ValueV) -> bool
    decreases v,
{
    match v {
        ValueV::F64(bits) => !float_bits_is_nan(bits),
        ValueV::Array(items) => forall|i: int| 0 <= i < items.len() ==> nan_free(#[trigger] items[i]),
        _ => true,
    }
}

/// A NaN-free value equals itself.
pub proof fn lemma_value_eq_refl(v: ValueV)
    requires
        nan_free(v),
    ensures
        value_eq(v, v),
    decreases v,
{
    if let ValueV::Array(items) = v {
        assert forall|i: int| 0 <= i < items.len() implies value_eq(#[trigger] items[i], items[i]) by {
            lemma_value_eq_refl(items[i]);
        }
    }
}

/// A copy of a value with the same view.
pub fn clone_value(v: &Value) -> (r: Value)
    ensures
        r@ == v@,
    decreases v, 1nat,
{
    match v {
        Value::Nil => Value::Nil,
        Value::Bool(b) => Value::Bool(*b),
        Value::I64(i) => Value::I64(*i),
        Value::F64(b) => Value::F64(*b),
        Value::String(s) => Value::String(s.clone()),
        Value::Array(items) => Value::Array(clone_values(items)),
        Value::Function(s) => Value::Function(s.clone()),
        Value::Capability(s) => Value::Capability(s.clone()),
    }
}

/// A copy of a vector of values with the same view.
pub fn clone_values(items: &Vec<Value>) -> (out: Vec<Value>)
    ensures
        out@.len() == items@.len(),
        values_view(out@) == values_view(items@),
        forall|j: int| 0 <= j < items.len() ==> value_view(#[trigger] out@[j]) == value_view(items@[j]),
    decreases items, 0nat,
{
    let mut out: Vec<Value> = Vec::new();
    let mut i: usize = 0;
    while i < items.len()
        invariant
            i <= items.len(),
            out.len() == i,
            forall|j: int| 0 <= j < i ==> value_view(#[trigger] out@[j]) == value_view(items@[j]),
        decreases items.len() - i,
    {
        proof {
            vstd::std_specs::vec::axiom_vec_index_decreases(*items, i as int);
        }
        let c = clone_value(&items[i]);
        out.push(c);
        i = i + 1;
    }
    proof {
        lemma_values_view_ext(out@, items@);
    }
    out
}

impl Clone for Value {
    /// A copy with the same view.
    fn clone(&self) -> (r: Value)
        ensures
            r@ == self@,
    {
        clone_value(self)
    }
}

impl Value {
    /// The type tag of this value.
    pub fn value_type(&self) -> (t: ValueType)
        ensures
            t == value_type_of(self@),
    {
        match self {
            Value::Nil => ValueType::Nil,
            Value::Bool(_) => ValueType::Bool,
            Value::I64(_) => ValueType::I64,
            Value::F64(_) => ValueType::F64,
            Value::String(_) => ValueType::String,
            Value::Array(_) => ValueType::Array,
            Value::Function(_) => ValueType::Function,
            Value::Capability(_) => ValueType::Capability,
        }
    }

    /// Truthiness: `nil`, `false`, zero, the empty string and the empty array are false.
    pub fn truthy(&self) -> (b: bool)
        ensures
            b == truthy(self@),
    {
        match self {
            Value::Nil => false,
            Value::Bool(v) => *v,
            Value::I64(v) => *v != 0,
            Value::F64(bits) => *bits & 0x7fff_ffff_ffff_ffffu64 != 0,
            Value::String(s) => {
                proof {
                    lemma_values_view(Seq::empty());
                }
                !s.as_str().is_empty()
            },
            Value::Array(items) => {
                proof {
                    lemma_values_view(items@);
                }
                items.len() != 0
            },
            Value::Function(_) => true,
            Value::Capability(_) => true,
        }
    }
}

pub open spec fn accepts_type(expected: ValueType, actual: ValueType) -> bool {
    expected == ValueType::Any || expected == ValueType::AnyVariadic || expected == actual
}

impl ValueType {
    /// Whether a value of this type may stand where `self` is expected.
    pub fn accepts(&self, value: &Value) -> (b: bool)
        ensures
            b == accepts_type(*self, value_type_of(value@)),
    {
        match self {
            ValueType::Any | ValueType::AnyVariadic => true,
            expected => *expected == value.value_type(),
        }
    }

    /// Whether a statically known type `actual` may stand where `self` is expected.
    pub fn accepts_type(&self, actual: &ValueType) -> (b: bool)
        ensures
            b == accepts_type(*self, *actual),
    {
        match self {
            ValueType::Any | ValueType::AnyVariadic => true,
            _ => *self == *actual,
        }
    }
}


/// IEEE-754 equality of two doubles given by their bits.
pub fn float_bits_equal(a: u64, b: u64) -> (r: bool)
    ensures
        r == float_bits_eq(a, b),
{
    let a_nan = a & 0x7ff0_0000_0000_0000u64 == 0x7ff0_0000_0000_0000u64 && a & 0x000f_ffff_ffff_ffffu64 != 0;
    let b_nan = b & 0x7ff0_0000_0000_0000u64 == 0x7ff0_0000_0000_0000u64 && b & 0x000f_ffff_ffff_ffffu64 != 0;
    let a_zero = a & 0x7fff_ffff_ffff_ffffu64 == 0;
    let b_zero = b & 0x7fff_ffff_ffff_ffffu64 == 0;
    !a_nan && !b_nan && (a == b || (a_zero && b_zero))
}

/// Equality of values as the runtime compares them (see [`value_eq`]).
pub fn value_equal(a: &Value, b: &Value) -> (r: bool)
    ensures
        r == value_eq(a@, b@),
    decreases a, 1nat,
{
    match (a, b) {
        (Value::Nil, Value::Nil) => true,
        (Value::Bool(x), Value::Bool(y)) => *x == *y,
        (Value::I64(x), Value::I64(y)) => *x == *y,
        (Value::F64(x), Value::F64(y)) => float_bits_equal(*x, *y),
        (Value::String(x), Value::String(y)) => *x == *y,
        (Value::Array(xs), Value::Array(ys)) => value_lists_equal(xs, ys),
        (Value::Function(x), Value::Function(y)) => *x == *y,
        (Value::Capability(x), Value::Capability(y)) => *x == *y,
        _ => false,
    }
}

/// Element-wise equality of two lists of values.
pub fn value_lists_equal(xs: &Vec<Value>, ys: &Vec<Value>) -> (r: bool)
    ensures
        r == values_eq(values_view(xs@), values_view(ys@)),
    decreases xs, 0nat,
{
    proof {
        lemma_values_view(xs@);
        lemma_values_view(ys@);
    }
    if xs.len() != ys.len() {
        return false;
    }
    let mut i: usize = 0;
    while i < xs.len()
        invariant
            i <= xs.len(),
            xs.len() == ys.len(),
            values_view(xs@).len() == xs.len(),
            values_view(ys@).len() == ys.len(),
            forall|j: int| 0 <= j < xs.len() ==> #[trigger] values_view(xs@)[j] == value_view(xs@[j]),
            forall|j: int| 0 <= j < ys.len() ==> #[trigger] values_view(ys@)[j] == value_view(ys@[j]),
            forall|j: int| 0 <= j < i ==> value_eq(#[trigger] values_view(xs@)[j], values_view(ys@)[j]),
        decreases xs.len() - i,
    {
        proof {
            vstd::std_specs::vec::axiom_vec_index_decreases(*xs, i as int);
        }
        if !value_equal(&xs[i], &ys[i]) {
            assert(!value_eq(values_view(xs@)[i as int], values_view(ys@)[i as int]));
            return false;
        }
        i = i + 1;
    }
    true
}

} // verus!

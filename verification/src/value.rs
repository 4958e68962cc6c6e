use vstd::prelude::*;

verus! {

/// A decimal number in the display model: a sign, an integer mantissa and a
/// decimal exponent, so that the value is `mantissa * 10^exponent` with the
/// given sign. Integers carry exponent 0; floating-point items are decomposed
/// into this form at the boundary, before they reach the library.
#[derive(Clone, Copy, PartialEq, Eq, Structural, Debug)]
pub struct Number {
    pub positive: bool,
    pub mantissa: u64,
    pub exponent: i16,
}

/// The mathematical model of a decoded CBOR item.
pub enum ValueV {
    Bool(bool),
    Signed(i64),
    Unsigned(u64),
    Float(Number),
    Null,
    Undefined,
    Unicode(Seq<char>),
    Bytes(Seq<u8>),
    Array(Seq<ValueV>),
    Mapping(Seq<(ValueV, ValueV)>),
    Tag(u64, Box<ValueV>),
}

/// A decoded CBOR data item. Map entries keep their order of appearance and
/// keys may be arbitrary values; a tagged item keeps its tag number.
pub enum Value {
    Bool(bool),
    Signed(i64),
    Unsigned(u64),
    Float(Number),
    Null,
    Undefined,
    Unicode(String),
    Bytes(Vec<u8>),
    Array(Vec<Value>),
    Mapping(Vec<(Value, Value)>),
    Tag(u64, Box<Value>),
}

broadcast use vstd::std_specs::vec::axiom_vec_decreases_to_view;

pub open spec fn value_view(v: Value) -> ValueV
    decreases v,
{
    match v {
        Value::Bool(b) => ValueV::Bool(b),
        Value::Signed(n) => ValueV::Signed(n),
        Value::Unsigned(z) => ValueV::Unsigned(z),
        Value::Float(x) => ValueV::Float(x),
        Value::Null => ValueV::Null,
        Value::Undefined => ValueV::Undefined,
        Value::Unicode(s) => ValueV::Unicode(s@),
        Value::Bytes(b) => ValueV::Bytes(b@),
        Value::Array(xs) => ValueV::Array(elements_view(xs@)),
        Value::Mapping(kv) => ValueV::Mapping(entries_view(kv@)),
        Value::Tag(t, inner) => ValueV::Tag(t, Box::new(value_view(*inner))),
    }
}

pub open spec fn elements_view(xs: Seq<Value>) -> Seq<ValueV>
    decreases xs,
{
    if xs.len() == 0 {
        Seq::empty()
    } else {
        elements_view(xs.drop_last()).push(value_view(xs.last()))
    }
}

pub open spec fn entries_view(kv: Seq<(Value, Value)>) -> Seq<(ValueV, ValueV)>
    decreases kv,
{
    if kv.len() == 0 {
        Seq::empty()
    } else {
        entries_view(kv.drop_last()).push(
            (value_view(kv.last().0), value_view(kv.last().1)),
        )
    }
}

impl View for Value {
    type V = ValueV;

    open spec fn view(&self) -> ValueV {
        value_view(*self)
    }
}

pub proof fn lemma_elements_view(xs: Seq<Value>)
    ensures
        elements_view(xs).len() == xs.len(),
        forall|i: int| 0 <= i < xs.len() ==> elements_view(xs)[i]
            == value_view(#[trigger] xs[i]),
    decreases xs.len(),
{
    if xs.len() > 0 {
        lemma_elements_view(xs.drop_last());
        assert forall|i: int| 0 <= i < xs.len() implies elements_view(xs)[i]
            == value_view(xs[i]) by {
            if i < xs.len() - 1 {
                assert(xs.drop_last()[i] == xs[i]);
            } else {
                assert(xs.last() == xs[i]);
            }
        }
    }
}

pub proof fn lemma_entries_view(kv: Seq<(Value, Value)>)
    ensures
        entries_view(kv).len() == kv.len(),
        forall|i: int| 0 <= i < kv.len() ==> entries_view(kv)[i]
            == (value_view((#[trigger] kv[i]).0), value_view(kv[i].1)),
    decreases kv.len(),
{
    if kv.len() > 0 {
        lemma_entries_view(kv.drop_last());
        assert forall|i: int| 0 <= i < kv.len() implies entries_view(kv)[i]
            == (value_view((kv[i]).0), value_view(kv[i].1)) by {
            if i < kv.len() - 1 {
                assert(kv.drop_last()[i] == kv[i]);
            } else {
                assert(kv.last() == kv[i]);
            }
        }
    }
}

} // verus!

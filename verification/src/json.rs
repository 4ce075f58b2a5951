//! A JSON document as the library reads it: the shape of `serde_json::Value` (with
//! `preserve_order`), holding every number in a form the renderers can print exactly.

use vstd::prelude::*;

verus! {

/// How a floating-point number prints: its sign, the shortest round-trip decimal digits and the
/// exponent of the first digit (`digits[0].digits[1..] × 10^exponent`), or one of the
/// non-finite values.
#[derive(Debug)]
pub struct FloatRepr {
    class: FloatClass,
    negative: bool,
    digits: Vec<char>,
    exponent: i32,
}

#[derive(Debug, Clone, Copy, PartialEq, Eq)]
pub enum FloatClass {
    Finite,
    Infinite,
    NaN,
}

/// The largest decimal exponent magnitude accepted for a finite number; every `f64` lies well
/// inside it.
pub const MAX_FLOAT_EXPONENT: i32 = 400;

/// Whether every character of `s` is a decimal digit.
pub open spec fn decimal_digits(s: Seq<char>) -> bool {
    forall|i: int| 0 <= i < s.len() ==> '0' <= #[trigger] s[i] <= '9'
}

/// Whether `f` is written with decimal digits, at least one when it is finite: what every
/// `FloatRepr` keeps.
pub open spec fn float_decimal(f: FloatRepr) -> bool {
    &&& decimal_digits(f.digits_spec())
    &&& f.class_spec() == FloatClass::Finite ==> f.digits_spec().len() >= 1
}

/// Whether every float in `v` is written with decimal digits.
pub open spec fn floats_decimal(v: JsonValue) -> bool
    decreases v,
{
    match v {
        JsonValue::Number(JsonNumber::Float(f)) => float_decimal(f),
        JsonValue::Array(items) => floats_decimal_items(items@),
        JsonValue::Object(members) => floats_decimal_members(members@),
        _ => true,
    }
}

pub open spec fn floats_decimal_items(items: Seq<JsonValue>) -> bool
    decreases items,
{
    if items.len() == 0 {
        true
    } else {
        floats_decimal_items(items.drop_last()) && floats_decimal(items.last())
    }
}

pub open spec fn floats_decimal_members(members: Seq<(String, JsonValue)>) -> bool
    decreases members,
{
    if members.len() == 0 {
        true
    } else {
        floats_decimal_members(members.drop_last()) && floats_decimal(members.last().1)
    }
}

impl FloatRepr {
    #[verifier::type_invariant]
    spec fn well_formed(self) -> bool {
        &&& self.class == FloatClass::Finite ==> self.digits@.len() >= 1
        &&& decimal_digits(self.digits@)
        &&& -MAX_FLOAT_EXPONENT <= self.exponent <= MAX_FLOAT_EXPONENT
    }

    pub closed spec fn class_spec(self) -> FloatClass {
        self.class
    }

    pub closed spec fn negative_spec(self) -> bool {
        self.negative
    }

    pub closed spec fn digits_spec(self) -> Seq<char> {
        self.digits@
    }

    pub closed spec fn exponent_spec(self) -> int {
        self.exponent as int
    }

    /// A finite number `±d.ddd × 10^exponent`; `None` when there are no digits, one of them is
    /// not a decimal digit, or the exponent is out of range.
    pub fn finite(negative: bool, digits: Vec<char>, exponent: i32) -> (r: Option<FloatRepr>)
        ensures
            r is Some <==> (digits@.len() >= 1 && decimal_digits(digits@) && -MAX_FLOAT_EXPONENT
                <= exponent <= MAX_FLOAT_EXPONENT),
            r matches Some(f) ==> f.class_spec() == FloatClass::Finite && f.negative_spec()
                == negative && f.digits_spec() == digits@ && f.exponent_spec() == exponent,
    {
        if digits.len() == 0 || exponent < -MAX_FLOAT_EXPONENT || exponent > MAX_FLOAT_EXPONENT {
            return None;
        }
        let mut i: usize = 0;
        while i < digits.len()
            invariant
                i <= digits.len(),
                decimal_digits(digits@.subrange(0, i as int)),
            decreases digits.len() - i,
        {
            let c = digits[i];
            if c < '0' || c > '9' {
                return None;
            }
            assert(digits@.subrange(0, i + 1) =~= digits@.subrange(0, i as int).push(c));
            i += 1;
        }
        assert(digits@.subrange(0, digits.len() as int) =~= digits@);
        Some(FloatRepr { class: FloatClass::Finite, negative, digits, exponent })
    }

    pub fn infinity(negative: bool) -> (r: FloatRepr)
        ensures
            r.class_spec() == FloatClass::Infinite,
            r.negative_spec() == negative,
    {
        FloatRepr { class: FloatClass::Infinite, negative, digits: Vec::new(), exponent: 0 }
    }

    pub fn nan() -> (r: FloatRepr)
        ensures
            r.class_spec() == FloatClass::NaN,
    {
        FloatRepr { class: FloatClass::NaN, negative: false, digits: Vec::new(), exponent: 0 }
    }

    pub fn class(&self) -> (r: FloatClass)
        ensures
            r == self.class_spec(),
    {
        self.class
    }

    pub fn is_negative(&self) -> (r: bool)
        ensures
            r == self.negative_spec(),
    {
        self.negative
    }

    pub fn digits(&self) -> (r: &Vec<char>)
        ensures
            r@ == self.digits_spec(),
            self.class_spec() == FloatClass::Finite ==> r@.len() >= 1,
            decimal_digits(r@),
    {
        proof {
            use_type_invariant(self);
        }
        &self.digits
    }

    pub fn exponent(&self) -> (r: i32)
        ensures
            r == self.exponent_spec(),
            -MAX_FLOAT_EXPONENT <= r <= MAX_FLOAT_EXPONENT,
    {
        proof {
            use_type_invariant(self);
        }
        self.exponent
    }
}

impl Clone for FloatRepr {
    fn clone(&self) -> (r: Self)
        ensures
            r.class_spec() == self.class_spec(),
            r.negative_spec() == self.negative_spec(),
            r.digits_spec() == self.digits_spec(),
            r.exponent_spec() == self.exponent_spec(),
    {
        proof {
            use_type_invariant(self);
        }
        FloatRepr {
            class: self.class,
            negative: self.negative,
            digits: self.digits.clone(),
            exponent: self.exponent,
        }
    }
}

/// A JSON number: a non-negative integer, a negative integer, or a float.
#[derive(Debug)]
pub enum JsonNumber {
    PosInt(u64),
    NegInt(i64),
    Float(FloatRepr),
}

/// A JSON value. Object members keep their insertion order.
#[derive(Debug)]
pub enum JsonValue {
    Null,
    Bool(bool),
    Number(JsonNumber),
    String(String),
    Array(Vec<JsonValue>),
    Object(Vec<(String, JsonValue)>),
}

/// Whether two numbers are the same number, written the same way.
pub open spec fn same_number(a: JsonNumber, b: JsonNumber) -> bool {
    match (a, b) {
        (JsonNumber::PosInt(x), JsonNumber::PosInt(y)) => x == y,
        (JsonNumber::NegInt(x), JsonNumber::NegInt(y)) => x == y,
        (JsonNumber::Float(x), JsonNumber::Float(y)) => x.class_spec() == y.class_spec()
            && x.negative_spec() == y.negative_spec() && x.digits_spec() == y.digits_spec()
            && x.exponent_spec() == y.exponent_spec(),
        _ => false,
    }
}

/// Whether two documents hold the same values in the same order: the same variants, numbers,
/// strings, array elements and object members.
pub open spec fn same_json(a: JsonValue, b: JsonValue) -> bool
    decreases a,
{
    match (a, b) {
        (JsonValue::Null, JsonValue::Null) => true,
        (JsonValue::Bool(x), JsonValue::Bool(y)) => x == y,
        (JsonValue::Number(x), JsonValue::Number(y)) => same_number(x, y),
        (JsonValue::String(x), JsonValue::String(y)) => x@ == y@,
        (JsonValue::Array(x), JsonValue::Array(y)) => same_items(x@, y@),
        (JsonValue::Object(x), JsonValue::Object(y)) => same_members(x@, y@),
        _ => false,
    }
}

/// Whether two element lists are the same, element by element.
pub open spec fn same_items(xs: Seq<JsonValue>, ys: Seq<JsonValue>) -> bool
    decreases xs,
{
    if xs.len() == 0 {
        ys.len() == 0
    } else {
        ys.len() == xs.len() && same_items(xs.drop_last(), ys.drop_last()) && same_json(
            xs.last(),
            ys.last(),
        )
    }
}

/// Whether two member lists are the same, key by key and value by value.
pub open spec fn same_members(xs: Seq<(String, JsonValue)>, ys: Seq<(String, JsonValue)>) -> bool
    decreases xs,
{
    if xs.len() == 0 {
        ys.len() == 0
    } else {
        ys.len() == xs.len() && same_members(xs.drop_last(), ys.drop_last()) && xs.last().0@
            == ys.last().0@ && same_json(xs.last().1, ys.last().1)
    }
}

impl Clone for JsonNumber {
    fn clone(&self) -> (r: Self)
        ensures
            same_number(r, *self),
    {
        match self {
            JsonNumber::PosInt(u) => JsonNumber::PosInt(*u),
            JsonNumber::NegInt(i) => JsonNumber::NegInt(*i),
            JsonNumber::Float(f) => JsonNumber::Float(f.clone()),
        }
    }
}

/// A copy of `v`.
#[verifier::loop_isolation(false)]
fn clone_value(v: &JsonValue) -> (r: JsonValue)
    ensures
        same_json(r, *v),
    decreases v,
{
    match v {
        JsonValue::Null => JsonValue::Null,
        JsonValue::Bool(b) => JsonValue::Bool(*b),
        JsonValue::Number(n) => JsonValue::Number(n.clone()),
        JsonValue::String(s) => JsonValue::String(s.clone()),
        JsonValue::Array(items) => {
            let mut out: Vec<JsonValue> = Vec::new();
            let mut i: usize = 0;
            while i < items.len()
                invariant
                    i <= items.len(),
                    same_items(out@, items@.take(i as int)),
                decreases items.len() - i,
            {
                proof {
                    vstd::std_specs::vec::axiom_vec_index_decreases(*items, i as int);
                }
                let ghost before = out@;
                let c = clone_value(&items[i]);
                out.push(c);
                proof {
                    assert(out@.drop_last() =~= before);
                    assert(items@.take(i + 1).drop_last() =~= items@.take(i as int));
                    assert(items@.take(i + 1).last() == items@[i as int]);
                }
                i += 1;
            }
            assert(items@.take(items.len() as int) =~= items@);
            JsonValue::Array(out)
        },
        JsonValue::Object(members) => {
            let mut out: Vec<(String, JsonValue)> = Vec::new();
            let mut i: usize = 0;
            while i < members.len()
                invariant
                    i <= members.len(),
                    same_members(out@, members@.take(i as int)),
                decreases members.len() - i,
            {
                proof {
                    vstd::std_specs::vec::axiom_vec_index_decreases(*members, i as int);
                }
                let ghost before = out@;
                let k = members[i].0.clone();
                let val = clone_value(&members[i].1);
                out.push((k, val));
                proof {
                    assert(out@.drop_last() =~= before);
                    assert(members@.take(i + 1).drop_last() =~= members@.take(i as int));
                    assert(members@.take(i + 1).last() == members@[i as int]);
                }
                i += 1;
            }
            assert(members@.take(members.len() as int) =~= members@);
            JsonValue::Object(out)
        },
    }
}

impl Clone for JsonValue {
    fn clone(&self) -> (r: Self)
        ensures
            same_json(r, *self),
    {
        clone_value(self)
    }
}

} // verus!

//! A known answer, held as the JSON value it arrived as.
//!
//! Labels are compared the way `serde_json` compares values: numbers by
//! kind and value, strings by their characters, arrays element by element,
//! and objects as maps, whatever order their keys were written in.

use vstd::prelude::*;

verus! {

/// A JSON number, as `serde_json` holds one.
#[derive(Clone, Copy, Debug)]
pub enum Number {
    /// A non-negative integer.
    PosInt(u64),
    /// A negative integer.
    NegInt(i64),
    /// A finite floating-point number, by its IEEE 754 bits.
    Float(u64),
}

/// A known answer: `true`/`false` for a yes/no question, a string for one of
/// a choice question's labels, or any other JSON value.
#[derive(Debug)]
pub enum Label {
    /// `null`.
    Null,
    /// `true` or `false`.
    Bool(bool),
    /// A number.
    Number(Number),
    /// A string.
    Text(String),
    /// An array.
    Array(Vec<Label>),
    /// An object's entries, each key once.
    Object(Vec<(String, Label)>),
}

/// The bits of `0.0` and of `-0.0`, the one pair of distinct finite floats
/// that compare equal.
pub open spec fn is_zero_bits(bits: u64) -> bool {
    bits == 0 || bits == 0x8000_0000_0000_0000u64
}

/// Whether two numbers are equal as `serde_json` compares them: integers of
/// the same kind by value, floats by value (so `0.0` equals `-0.0`), and
/// numbers of different kinds never.
pub open spec fn same_number(a: Number, b: Number) -> bool {
    match (a, b) {
        (Number::PosInt(x), Number::PosInt(y)) => x == y,
        (Number::NegInt(x), Number::NegInt(y)) => x == y,
        (Number::Float(x), Number::Float(y)) => x == y || (is_zero_bits(x) && is_zero_bits(y)),
        _ => false,
    }
}

/// Whether two labels are the same JSON value.
pub open spec fn same_label(a: Label, b: Label) -> bool
    decreases a, 0nat,
{
    match (a, b) {
        (Label::Null, Label::Null) => true,
        (Label::Bool(x), Label::Bool(y)) => x == y,
        (Label::Number(x), Label::Number(y)) => same_number(x, y),
        (Label::Text(x), Label::Text(y)) => x@ == y@,
        (Label::Array(xs), Label::Array(ys)) => xs@.len() == ys@.len() && same_items(xs@, ys@, 0),
        (Label::Object(xs), Label::Object(ys)) => xs@.len() == ys@.len() && same_entries(
            xs@,
            ys@,
            0,
        ),
        _ => false,
    }
}

/// Whether `xs[i..]` and `ys[i..]` are the same element by element.
pub open spec fn same_items(xs: Seq<Label>, ys: Seq<Label>, i: int) -> bool
    decreases xs, if i < 0 { 0 } else { (xs.len() - i) as nat },
{
    if i < 0 || i >= xs.len() {
        true
    } else {
        i < ys.len() && same_label(xs[i], ys[i]) && same_items(xs, ys, i + 1)
    }
}

/// Whether every entry of `xs` from `i` on is found in `ys` under the same
/// key with the same value.
pub open spec fn same_entries(xs: Seq<(String, Label)>, ys: Seq<(String, Label)>, i: int) -> bool
    decreases xs, if i < 0 { 0 } else { (xs.len() - i) as nat },
{
    if i < 0 || i >= xs.len() {
        true
    } else {
        entry_found(xs[i].0@, xs[i].1, ys, 0) && same_entries(xs, ys, i + 1)
    }
}

/// Whether the first entry of `ys` from `j` on keyed `key` holds the same
/// value as `value`: a map lookup of `key`, then a comparison.
pub open spec fn entry_found(key: Seq<char>, value: Label, ys: Seq<(String, Label)>, j: int) -> bool
    decreases value, if j < 0 { 0 } else { (ys.len() - j + 1) as nat },
{
    if j < 0 || j >= ys.len() {
        false
    } else if ys[j].0@ == key {
        same_label(value, ys[j].1)
    } else {
        entry_found(key, value, ys, j + 1)
    }
}

impl Number {
    /// Whether `self` and `other` are equal as `serde_json` compares numbers.
    pub fn same(&self, other: &Number) -> (r: bool)
        ensures
            r == same_number(*self, *other),
    {
        match (self, other) {
            (Number::PosInt(x), Number::PosInt(y)) => *x == *y,
            (Number::NegInt(x), Number::NegInt(y)) => *x == *y,
            (Number::Float(x), Number::Float(y)) => *x == *y || ((*x == 0 || *x
                == 0x8000_0000_0000_0000u64) && (*y == 0 || *y == 0x8000_0000_0000_0000u64)),
            _ => false,
        }
    }
}

impl Label {
    /// Whether `self` and `other` are the same JSON value.
    pub fn same(&self, other: &Label) -> (r: bool)
        ensures
            r == same_label(*self, *other),
        decreases self, 0nat,
    {
        match (self, other) {
            (Label::Null, Label::Null) => true,
            (Label::Bool(x), Label::Bool(y)) => *x == *y,
            (Label::Number(x), Label::Number(y)) => x.same(y),
            (Label::Text(x), Label::Text(y)) => *x == *y,
            (Label::Array(xs), Label::Array(ys)) => {
                if xs.len() != ys.len() {
                    return false;
                }
                let mut i: usize = 0;
                while i < xs.len()
                    invariant
                        i <= xs@.len(),
                        xs@.len() == ys@.len(),
                        same_items(xs@, ys@, 0) == same_items(xs@, ys@, i as int),
                        same_label(*self, *other) == same_items(xs@, ys@, 0),
                        *self == Label::Array(*xs),
                    decreases xs@.len() - i,
                {
                    proof {
                        assert(decreases_to!(*self => *xs));
                        assert(decreases_to!(*xs => xs@));
                        assert(decreases_to!(xs@ => xs@[i as int]));
                        assert(decreases_to!(*self => xs@[i as int]));
                    }
                    if !xs[i].same(&ys[i]) {
                        return false;
                    }
                    i = i + 1;
                }
                true
            },
            (Label::Object(xs), Label::Object(ys)) => {
                if xs.len() != ys.len() {
                    return false;
                }
                let mut i: usize = 0;
                while i < xs.len()
                    invariant
                        i <= xs@.len(),
                        same_entries(xs@, ys@, 0) == same_entries(xs@, ys@, i as int),
                        same_label(*self, *other) == same_entries(xs@, ys@, 0),
                        *self == Label::Object(*xs),
                    decreases xs@.len() - i,
                {
                    proof {
                        assert(self->Object_0 == *xs);
                        assert(decreases_to!(*self => self->Object_0));
                        assert(decreases_to!(*xs => xs@));
                        assert(decreases_to!(xs@ => xs@[i as int]));
                        assert(decreases_to!(xs@[i as int] => xs@[i as int].1));
                        assert(decreases_to!(*self => xs@[i as int].1));
                    }
                    if !found(&xs[i].0, &xs[i].1, ys) {
                        return false;
                    }
                    i = i + 1;
                }
                true
            },
            _ => false,
        }
    }
}

/// Whether the first entry of `ys` keyed `key` holds the same value as
/// `value`.
fn found(key: &String, value: &Label, ys: &Vec<(String, Label)>) -> (r: bool)
    ensures
        r == entry_found(key@, *value, ys@, 0),
    decreases value, 1nat,
{
    let mut j: usize = 0;
    while j < ys.len()
        invariant
            j <= ys@.len(),
            entry_found(key@, *value, ys@, 0) == entry_found(key@, *value, ys@, j as int),
        decreases ys@.len() - j,
    {
        if ys[j].0 == *key {
            return value.same(&ys[j].1);
        }
        j = j + 1;
    }
    false
}

} // verus!

//! The values that expressions evaluate to.

use crate::text::{char_text, decimal_text, int_text};
use vstd::prelude::*;

verus! {

/// The result of evaluating an expression. Only integers are ever stored in
/// a variable; the other kinds live no longer than the statement that
/// computes them.
#[derive(Debug, PartialEq)]
pub enum Value<'a> {
    Int(i64),
    Bool(bool),
    Char(char),
    String(&'a str),
}

/// The mathematical model of a value.
pub enum ValueV {
    Int(i64),
    Bool(bool),
    Char(char),
    Text(Seq<char>),
}

/// The text by which a value is shown: a number in decimal, a truth value as
/// `true` or `false`, a character or a text as it is.
pub open spec fn rendered(v: ValueV) -> Seq<char> {
    match v {
        ValueV::Int(i) => decimal_text(i as int),
        ValueV::Bool(b) => if b {
            "true"@
        } else {
            "false"@
        },
        ValueV::Char(c) => seq![c],
        ValueV::Text(s) => s,
    }
}

impl<'a> View for Value<'a> {
    type V = ValueV;

    open spec fn view(&self) -> ValueV {
        match self {
            Value::Int(i) => ValueV::Int(*i),
            Value::Bool(b) => ValueV::Bool(*b),
            Value::Char(c) => ValueV::Char(*c),
            Value::String(s) => ValueV::Text(s@),
        }
    }
}

impl<'a> Value<'a> {
    /// The text by which the value is shown.
    pub fn text(&self) -> (r: String)
        ensures
            r@ == rendered(self@),
    {
        match self {
            Value::Int(i) => int_text(*i),
            Value::Bool(b) => if *b {
                "true".to_owned()
            } else {
                "false".to_owned()
            },
            Value::Char(c) => char_text(*c),
            Value::String(s) => (*s).to_owned(),
        }
    }
}

impl<'a> From<i64> for Value<'a> {
    fn from(i: i64) -> (r: Self) {
        Value::Int(i)
    }
}

impl<'a> vstd::std_specs::convert::FromSpecImpl<i64> for Value<'a> {
    open spec fn obeys_from_spec() -> bool {
        true
    }

    open spec fn from_spec(i: i64) -> Self {
        Value::Int(i)
    }
}

impl<'a> From<bool> for Value<'a> {
    fn from(b: bool) -> (r: Self) {
        Value::Bool(b)
    }
}

impl<'a> vstd::std_specs::convert::FromSpecImpl<bool> for Value<'a> {
    open spec fn obeys_from_spec() -> bool {
        true
    }

    open spec fn from_spec(b: bool) -> Self {
        Value::Bool(b)
    }
}

impl<'a> From<char> for Value<'a> {
    fn from(c: char) -> (r: Self) {
        Value::Char(c)
    }
}

impl<'a> vstd::std_specs::convert::FromSpecImpl<char> for Value<'a> {
    open spec fn obeys_from_spec() -> bool {
        true
    }

    open spec fn from_spec(c: char) -> Self {
        Value::Char(c)
    }
}

impl<'a> From<&'a str> for Value<'a> {
    fn from(s: &'a str) -> (r: Self) {
        Value::String(s)
    }
}

impl<'a> vstd::std_specs::convert::FromSpecImpl<&'a str> for Value<'a> {
    open spec fn obeys_from_spec() -> bool {
        true
    }

    open spec fn from_spec(s: &'a str) -> Self {
        Value::String(s)
    }
}

} // verus!

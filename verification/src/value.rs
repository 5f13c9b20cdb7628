//! Literal values as the engine carries them.
use vstd::prelude::*;

verus! {

/// A variable's literal value. Floating-point numbers are carried as
/// their canonical display text (see `crate::normalize::float_norm`), so
/// that rendering and comparison stay exact. `Other` stands for
/// structured values (sequences, mappings) that the script protocol does
/// not render; they pass through untyped.
#[derive(PartialEq, Eq, Debug)]
pub enum Value {
    Null,
    Bool(bool),
    Int(i64),
    Float(String),
    Str(String),
    Other,
}

/// Mathematical model of a `Value`.
pub enum ValueV {
    Null,
    Bool(bool),
    Int(int),
    Float(Seq<char>),
    Str(Seq<char>),
    Other,
}

impl View for Value {
    type V = ValueV;

    open spec fn view(&self) -> ValueV {
        match self {
            Value::Null => ValueV::Null,
            Value::Bool(b) => ValueV::Bool(*b),
            Value::Int(i) => ValueV::Int(*i as int),
            Value::Float(t) => ValueV::Float(t@),
            Value::Str(s) => ValueV::Str(s@),
            Value::Other => ValueV::Other,
        }
    }
}

impl Clone for Value {
    fn clone(&self) -> (r: Self)
        ensures
            r == *self,
    {
        match self {
            Value::Null => Value::Null,
            Value::Bool(b) => Value::Bool(*b),
            Value::Int(i) => Value::Int(*i),
            Value::Float(t) => Value::Float(t.clone()),
            Value::Str(s) => Value::Str(s.clone()),
            Value::Other => Value::Other,
        }
    }
}

pub fn clone_opt_value(v: &Option<Value>) -> (r: Option<Value>)
    ensures
        r == *v,
{
    match v {
        Option::None => Option::None,
        Option::Some(x) => Option::Some(x.clone()),
    }
}

pub fn clone_opt_string(s: &Option<String>) -> (r: Option<String>)
    ensures
        r == *s,
{
    match s {
        Option::None => Option::None,
        Option::Some(x) => Option::Some(x.clone()),
    }
}

} // verus!

//! Variables: named, typed values, literal or reference.
use vstd::prelude::*;

use crate::data_type::DataType;
use crate::normalize::normalize_datetime;
use crate::normalize::rfc3339_norm;
use crate::value::clone_opt_string;
use crate::value::clone_opt_value;
use crate::value::Value;
use crate::value::ValueV;

verus! {

/// A variable as a workflow document declares it, before the kind checks
/// of `into_strict`.
pub struct RawVariable {
    pub name: String,
    pub type_: Option<DataType>,
    pub value: Option<Value>,
    pub ref_: Option<String>,
}

/// A named, typed value: either a literal (`value`) or a reference to
/// another variable by qualified name (`ref_`). A variable declared with
/// a reference and no explicit type carries the placeholder
/// `DataType::Pending` until resolution copies the referenced type onto it.
#[derive(Debug)]
pub struct Variable {
    pub name: String,
    pub type_: DataType,
    pub value: Option<Value>,
    pub ref_: Option<String>,
}

/// Mathematical model of a `Variable`.
pub struct VariableV {
    pub name: Seq<char>,
    pub type_: DataType,
    pub value: Option<ValueV>,
    pub ref_: Option<Seq<char>>,
}

/// Mathematical model of a `RawVariable`.
pub struct RawVariableV {
    pub name: Seq<char>,
    pub type_: Option<DataType>,
    pub value: Option<ValueV>,
    pub ref_: Option<Seq<char>>,
}

impl View for Variable {
    type V = VariableV;

    open spec fn view(&self) -> VariableV {
        VariableV {
            name: self.name@,
            type_: self.type_,
            value: match self.value {
                Option::Some(ref v) => Option::Some(v@),
                Option::None => Option::None,
            },
            ref_: match self.ref_ {
                Option::Some(ref r) => Option::Some(r@),
                Option::None => Option::None,
            },
        }
    }
}

impl DeepView for Variable {
    type V = VariableV;

    open spec fn deep_view(&self) -> VariableV {
        self.view()
    }
}

impl View for RawVariable {
    type V = RawVariableV;

    open spec fn view(&self) -> RawVariableV {
        RawVariableV {
            name: self.name@,
            type_: self.type_,
            value: match self.value {
                Option::Some(ref v) => Option::Some(v@),
                Option::None => Option::None,
            },
            ref_: match self.ref_ {
                Option::Some(ref r) => Option::Some(r@),
                Option::None => Option::None,
            },
        }
    }
}

impl Clone for Variable {
    fn clone(&self) -> (r: Self)
        ensures
            r == *self,
    {
        Variable {
            name: self.name.clone(),
            type_: self.type_,
            value: clone_opt_value(&self.value),
            ref_: clone_opt_string(&self.ref_),
        }
    }
}

/// Kind inferred from a bare literal: integers, floats and booleans map
/// to their kinds; a string is a `DateTime` when it parses as RFC3339,
/// otherwise a `String`; null or structured values cannot be inferred.
pub open spec fn infer_type_spec(v: ValueV) -> Option<DataType> {
    match v {
        ValueV::Int(_) => Option::Some(DataType::Int),
        ValueV::Float(_) => Option::Some(DataType::Float),
        ValueV::Bool(_) => Option::Some(DataType::Bool),
        ValueV::Str(s) => if rfc3339_norm(s) is Some {
            Option::Some(DataType::DateTime)
        } else {
            Option::Some(DataType::String)
        },
        ValueV::Null => Option::None,
        ValueV::Other => Option::None,
    }
}

pub fn infer_type(value: &Value) -> (r: Option<DataType>)
    ensures
        r == infer_type_spec(value@),
{
    match value {
        Value::Int(_) => Option::Some(DataType::Int),
        Value::Float(_) => Option::Some(DataType::Float),
        Value::Bool(_) => Option::Some(DataType::Bool),
        Value::Str(s) => match normalize_datetime(s.as_str()) {
            Option::Some(_) => Option::Some(DataType::DateTime),
            Option::None => Option::Some(DataType::String),
        },
        Value::Null => Option::None,
        Value::Other => Option::None,
    }
}

pub open spec fn msg_type_none(name: Seq<char>) -> Seq<char> {
    "Variable '"@ + name + "' type none is invalid - internal only"@
}

pub open spec fn msg_cannot_infer(name: Seq<char>) -> Seq<char> {
    "Cannot infer type for '"@ + name + "'"@
}

pub open spec fn msg_missing_all(name: Seq<char>) -> Seq<char> {
    "Variable '"@ + name + "' missing type, value, and ref"@
}

/// What `into_strict` decides: an explicit type is taken as given (the
/// placeholder refused), a bare literal has its type inferred, a bare
/// reference keeps the placeholder for resolution, and a variable with
/// none of the three is refused.
pub open spec fn into_strict_spec(rv: RawVariableV) -> Result<VariableV, Seq<char>> {
    match rv.type_ {
        Option::Some(t) => if t == DataType::Pending {
            Result::Err(msg_type_none(rv.name))
        } else {
            Result::Ok(VariableV { name: rv.name, type_: t, value: rv.value, ref_: rv.ref_ })
        },
        Option::None => match rv.value {
            Option::Some(v) => match infer_type_spec(v) {
                Option::Some(t) => Result::Ok(
                    VariableV { name: rv.name, type_: t, value: rv.value, ref_: rv.ref_ },
                ),
                Option::None => Result::Err(msg_cannot_infer(rv.name)),
            },
            Option::None => match rv.ref_ {
                Option::Some(_) => Result::Ok(
                    VariableV {
                        name: rv.name,
                        type_: DataType::Pending,
                        value: Option::None,
                        ref_: rv.ref_,
                    },
                ),
                Option::None => Result::Err(msg_missing_all(rv.name)),
            },
        },
    }
}

impl RawVariable {
    /// Check and complete a declared variable, as `into_strict_spec`
    /// describes.
    pub fn into_strict(self) -> (r: Result<Variable, String>)
        ensures
            match r {
                Result::Ok(v) => into_strict_spec(self@) == Result::<VariableV, Seq<char>>::Ok(
                    v@,
                ),
                Result::Err(m) => into_strict_spec(self@) == Result::<VariableV, Seq<char>>::Err(
                    m@,
                ),
            },
    {
        match self.type_ {
            Option::Some(t) => {
                if t == DataType::Pending {
                    let mut m = String::from_str("Variable '");
                    m.append(self.name.as_str());
                    m.append("' type none is invalid - internal only");
                    Result::Err(m)
                } else {
                    Result::Ok(
                        Variable { name: self.name, type_: t, value: self.value, ref_: self.ref_ },
                    )
                }
            },
            Option::None => {
                match &self.value {
                    Option::Some(v) => {
                        match infer_type(v) {
                            Option::Some(t) => Result::Ok(
                                Variable {
                                    name: self.name,
                                    type_: t,
                                    value: self.value,
                                    ref_: self.ref_,
                                },
                            ),
                            Option::None => {
                                let mut m = String::from_str("Cannot infer type for '");
                                m.append(self.name.as_str());
                                m.append("'");
                                Result::Err(m)
                            },
                        }
                    },
                    Option::None => {
                        match &self.ref_ {
                            Option::Some(_) => Result::Ok(
                                Variable {
                                    name: self.name,
                                    type_: DataType::Pending,
                                    value: Option::None,
                                    ref_: self.ref_,
                                },
                            ),
                            Option::None => {
                                let mut m = String::from_str("Variable '");
                                m.append(self.name.as_str());
                                m.append("' missing type, value, and ref");
                                Result::Err(m)
                            },
                        }
                    },
                }
            },
        }
    }
}

} // verus!

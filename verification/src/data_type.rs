//! The closed set of variable data kinds.
use vstd::prelude::*;

verus! {

/// Kind of a variable's data. `Pending` (written `none` in documents) is
/// the internal placeholder for "type pending, to be copied from a
/// reference"; resolution must replace it before a variable is used.
#[derive(Clone, Copy, PartialEq, Eq, Structural, Debug)]
pub enum DataType {
    Pending,
    String,
    Int,
    Float,
    Bool,
    DateTime,
}

impl Default for DataType {
    fn default() -> (r: Self)
        ensures
            r == DataType::Pending,
    {
        DataType::Pending
    }
}

impl DataType {
    /// The lowercase name of the kind, as workflow documents write it.
    pub open spec fn label_spec(self) -> Seq<char> {
        match self {
            DataType::Pending => "none"@,
            DataType::String => "string"@,
            DataType::Int => "int"@,
            DataType::Float => "float"@,
            DataType::Bool => "bool"@,
            DataType::DateTime => "datetime"@,
        }
    }

    pub fn label(&self) -> (r: &'static str)
        ensures
            r@ == self.label_spec(),
    {
        match self {
            DataType::Pending => "none",
            DataType::String => "string",
            DataType::Int => "int",
            DataType::Float => "float",
            DataType::Bool => "bool",
            DataType::DateTime => "datetime",
        }
    }
}

} // verus!

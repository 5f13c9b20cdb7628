//! Validation errors: the structural failures that abort a run before any
//! step executes.
use vstd::prelude::*;

use crate::data_type::DataType;

verus! {

/// Why validation refused a workflow. Each variant carries the offending
/// identifiers.
#[derive(Debug)]
pub enum ValidationError {
    /// Two registry entries share a qualified key.
    DuplicateVariable { key: String },
    /// A variable references a qualified name the registry does not hold.
    UnresolvedReference { reference: String, step: String },
    /// An input's explicit type disagrees with its reference's type.
    TypeMismatch { reference: String, expected: DataType, found: DataType },
    /// An input carries neither a value nor a reference.
    MissingValue { input: String, step: String },
    /// A step names a runner type that was never registered.
    UnknownRunnerType { runner_type: String },
}

/// Mathematical model of a `ValidationError`.
pub enum ValidationErrorV {
    DuplicateVariable { key: Seq<char> },
    UnresolvedReference { reference: Seq<char>, step: Seq<char> },
    TypeMismatch { reference: Seq<char>, expected: DataType, found: DataType },
    MissingValue { input: Seq<char>, step: Seq<char> },
    UnknownRunnerType { runner_type: Seq<char> },
}

impl View for ValidationError {
    type V = ValidationErrorV;

    open spec fn view(&self) -> ValidationErrorV {
        match self {
            ValidationError::DuplicateVariable { key } => ValidationErrorV::DuplicateVariable {
                key: key@,
            },
            ValidationError::UnresolvedReference { reference, step } => {
                ValidationErrorV::UnresolvedReference { reference: reference@, step: step@ }
            },
            ValidationError::TypeMismatch { reference, expected, found } => {
                ValidationErrorV::TypeMismatch {
                    reference: reference@,
                    expected: *expected,
                    found: *found,
                }
            },
            ValidationError::MissingValue { input, step } => ValidationErrorV::MissingValue {
                input: input@,
                step: step@,
            },
            ValidationError::UnknownRunnerType { runner_type } => {
                ValidationErrorV::UnknownRunnerType { runner_type: runner_type@ }
            },
        }
    }
}

/// The operator-facing message for each error, with the offending
/// identifiers spelled out.
pub open spec fn message_spec(e: ValidationErrorV) -> Seq<char> {
    match e {
        ValidationErrorV::DuplicateVariable { key } => "Duplicate variable '"@ + key + "'"@,
        ValidationErrorV::UnresolvedReference { reference, step } => "Unresolved reference '"@
            + reference + "' in step '"@ + step + "'"@,
        ValidationErrorV::TypeMismatch { reference, expected, found } => "Type mismatch for '"@
            + reference + "': "@ + expected.label_spec() + " expected, found "@
            + found.label_spec(),
        ValidationErrorV::MissingValue { input, step } => "Input '"@ + input + "' in step '"@
            + step + "' has no value or ref"@,
        ValidationErrorV::UnknownRunnerType { runner_type } => "Runner '"@ + runner_type
            + "' not registered"@,
    }
}

impl ValidationError {
    pub fn message(&self) -> (r: String)
        ensures
            r@ == message_spec(self@),
    {
        match self {
            ValidationError::DuplicateVariable { key } => {
                let mut m = String::from_str("Duplicate variable '");
                m.append(key.as_str());
                m.append("'");
                m
            },
            ValidationError::UnresolvedReference { reference, step } => {
                let mut m = String::from_str("Unresolved reference '");
                m.append(reference.as_str());
                m.append("' in step '");
                m.append(step.as_str());
                m.append("'");
                m
            },
            ValidationError::TypeMismatch { reference, expected, found } => {
                let mut m = String::from_str("Type mismatch for '");
                m.append(reference.as_str());
                m.append("': ");
                m.append(expected.label());
                m.append(" expected, found ");
                m.append(found.label());
                m
            },
            ValidationError::MissingValue { input, step } => {
                let mut m = String::from_str("Input '");
                m.append(input.as_str());
                m.append("' in step '");
                m.append(step.as_str());
                m.append("' has no value or ref");
                m
            },
            ValidationError::UnknownRunnerType { runner_type } => {
                let mut m = String::from_str("Runner '");
                m.append(runner_type.as_str());
                m.append("' not registered");
                m
            },
        }
    }
}

} // verus!

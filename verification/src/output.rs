//! Typed values that actions publish for their dependents.

use vstd::prelude::*;

use crate::error::ActionError;

verus! {

/// The mathematical value carried by an [`ActionOutput`].
///
/// Strings are modelled as character sequences and floating-point values
/// by their IEEE-754 bit pattern.
pub enum OutputModel {
    /// A string value.
    Str(Seq<char>),
    /// A 64-bit signed integer value.
    Int(i64),
    /// The bit pattern of a 64-bit IEEE-754 value.
    Float(u64),
    /// A boolean value.
    Bool(bool),
}

/// The output of an action.
///
/// When an action is run it can return a value back to the runtime, and
/// other actions depending on it can read that value.  The `Float`
/// variant carries the raw bit pattern of a 64-bit IEEE-754 number;
/// unverified callers convert with `f64::to_bits` / `f64::from_bits`.
#[derive(Debug)]
pub enum ActionOutput {
    /// A string.
    String(String),
    /// An integer (i64).
    Integer(i64),
    /// A floating-point number (f64), as its raw bit pattern.
    Float(u64),
    /// A boolean.
    Boolean(bool),
}

impl View for ActionOutput {
    type V = OutputModel;

    open spec fn view(&self) -> OutputModel {
        match self {
            ActionOutput::String(s) => OutputModel::Str(s@),
            ActionOutput::Integer(i) => OutputModel::Int(*i),
            ActionOutput::Float(bits) => OutputModel::Float(*bits),
            ActionOutput::Boolean(b) => OutputModel::Bool(*b),
        }
    }
}

impl Clone for ActionOutput {
    fn clone(&self) -> (r: Self)
        ensures
            r == *self,
    {
        match self {
            ActionOutput::String(s) => ActionOutput::String(s.clone()),
            ActionOutput::Integer(i) => ActionOutput::Integer(*i),
            ActionOutput::Float(bits) => ActionOutput::Float(*bits),
            ActionOutput::Boolean(b) => ActionOutput::Boolean(*b),
        }
    }
}

impl ActionOutput {
    /// The string carried by a `String` output, or
    /// `OutputConversionFailed("String")` for any other variant.
    pub fn try_into_string(self) -> (r: Result<String, ActionError>)
        ensures
            self matches ActionOutput::String(s) ==> r == Ok::<String, ActionError>(s),
            !(self is String) ==> (r matches Err(e) && e matches
                ActionError::OutputConversionFailed(t) && t@ == "String"@),
    {
        match self {
            ActionOutput::String(s) => Ok(s),
            _ => Err(ActionError::OutputConversionFailed("String".to_owned())),
        }
    }

    /// The integer carried by an `Integer` output, or
    /// `OutputConversionFailed("i64")` for any other variant.
    pub fn try_into_integer(self) -> (r: Result<i64, ActionError>)
        ensures
            self matches ActionOutput::Integer(i) ==> r == Ok::<i64, ActionError>(i),
            !(self is Integer) ==> (r matches Err(e) && e matches
                ActionError::OutputConversionFailed(t) && t@ == "i64"@),
    {
        match self {
            ActionOutput::Integer(i) => Ok(i),
            _ => Err(ActionError::OutputConversionFailed("i64".to_owned())),
        }
    }

    /// The bit pattern carried by a `Float` output, or
    /// `OutputConversionFailed("f64")` for any other variant.
    pub fn try_into_float_bits(self) -> (r: Result<u64, ActionError>)
        ensures
            self matches ActionOutput::Float(bits) ==> r == Ok::<u64, ActionError>(bits),
            !(self is Float) ==> (r matches Err(e) && e matches
                ActionError::OutputConversionFailed(t) && t@ == "f64"@),
    {
        match self {
            ActionOutput::Float(bits) => Ok(bits),
            _ => Err(ActionError::OutputConversionFailed("f64".to_owned())),
        }
    }

    /// The boolean carried by a `Boolean` output, or
    /// `OutputConversionFailed("bool")` for any other variant.
    pub fn try_into_boolean(self) -> (r: Result<bool, ActionError>)
        ensures
            self matches ActionOutput::Boolean(b) ==> r == Ok::<bool, ActionError>(b),
            !(self is Boolean) ==> (r matches Err(e) && e matches
                ActionError::OutputConversionFailed(t) && t@ == "bool"@),
    {
        match self {
            ActionOutput::Boolean(b) => Ok(b),
            _ => Err(ActionError::OutputConversionFailed("bool".to_owned())),
        }
    }
}

/// The model of an optional output.
pub open spec fn opt_output_model(o: Option<ActionOutput>) -> Option<OutputModel> {
    match o {
        Some(v) => Some(v@),
        None => None,
    }
}

} // verus!

//! The closed error taxonomy of the runtime.

use vstd::prelude::*;

verus! {

/// Any error that can occur while probing or running an action.
#[derive(Debug)]
pub enum ActionError {
    /// The action's own effectful operation failed.  The first string is
    /// single-line user text, the second is verbose context.
    ActionFailed(String, String),
    /// An output did not match the requested primitive type; carries the
    /// name of the requested type.
    OutputConversionFailed(String),
    /// A runtime-internal invariant failure; carries a short stable code.
    InternalError(String),
    /// A dependency that should have returned a value did not.
    NoActionReturn,
    /// The operation is not supported by the action.
    OperationNotSupported,
    /// Required state was not loaded.
    StateNotLoaded,
    /// A dependency's output had the wrong variant.
    WrongOutputType,
}

impl Clone for ActionError {
    fn clone(&self) -> (r: Self)
        ensures
            r == *self,
    {
        match self {
            ActionError::ActionFailed(short, long) => {
                ActionError::ActionFailed(short.clone(), long.clone())
            },
            ActionError::OutputConversionFailed(target) => {
                ActionError::OutputConversionFailed(target.clone())
            },
            ActionError::InternalError(code) => ActionError::InternalError(code.clone()),
            ActionError::NoActionReturn => ActionError::NoActionReturn,
            ActionError::OperationNotSupported => ActionError::OperationNotSupported,
            ActionError::StateNotLoaded => ActionError::StateNotLoaded,
            ActionError::WrongOutputType => ActionError::WrongOutputType,
        }
    }
}

impl ActionError {
    /// A one-line description of the error, mirroring what each variant
    /// means.
    pub fn message(&self) -> (r: String)
        ensures
            self matches ActionError::ActionFailed(short, _) ==> r@ == short@,
            self matches ActionError::OutputConversionFailed(target) ==> r@
                == "Could not convert ActionOutput to "@ + target@,
            self matches ActionError::InternalError(code) ==> r@
                == "An internal error occured, please report this error code: "@ + code@,
            self is NoActionReturn ==> r@ == "Dependency did not return a value"@,
            self is OperationNotSupported ==> r@ == "Operation not supported"@,
            self is StateNotLoaded ==> r@ == "Required state was not loaded"@,
            self is WrongOutputType ==> r@ == "Dependency output had the wrong type"@,
    {
        match self {
            ActionError::ActionFailed(short, _) => short.clone(),
            ActionError::OutputConversionFailed(target) => {
                let mut r = "Could not convert ActionOutput to ".to_owned();
                r.append(target.as_str());
                r
            },
            ActionError::InternalError(code) => {
                let mut r = "An internal error occured, please report this error code: "
                    .to_owned();
                r.append(code.as_str());
                r
            },
            ActionError::NoActionReturn => "Dependency did not return a value".to_owned(),
            ActionError::OperationNotSupported => "Operation not supported".to_owned(),
            ActionError::StateNotLoaded => "Required state was not loaded".to_owned(),
            ActionError::WrongOutputType => "Dependency output had the wrong type".to_owned(),
        }
    }
}

} // verus!

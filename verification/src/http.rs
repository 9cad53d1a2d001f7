//! An HTTP GET action: URL resolution and the published result, without
//! the network.

use vstd::prelude::*;

use crate::error::ActionError;
use crate::input::Input;
use crate::output::{ActionOutput, OutputModel};
use crate::runtime::RuntimeHandle;
use crate::Probe;

verus! {

/// Fetch a URL and publish the response body as a string output.
pub struct HttpGet {
    /// The URL, literal or resolved at run time.
    pub url: Input<String>,
}

impl HttpGet {
    /// A fetch of the given URL.
    pub fn new(url: Input<String>) -> (r: Self)
        ensures
            r.url == url,
    {
        HttpGet { url }
    }

    /// A fetch always needs to run and cannot be rolled back.
    pub fn probe(&self) -> (r: Probe)
        ensures
            r.needs_run == true,
            r.can_rollback == false,
    {
        Probe { needs_run: true, can_rollback: false }
    }

    /// The URL to fetch: the literal value, or the prerequisite's string
    /// output.  A missing output fails with `NoActionReturn`, one of
    /// another type with `WrongOutputType`.
    pub fn resolve_url(&self, runtime: &RuntimeHandle) -> (r: Result<String, ActionError>)
        requires
            runtime.wf(),
        ensures
            match self.url {
                Input::Static(s) => r matches Ok(v) && v@ == s@,
                Input::Dynamic(id) => match runtime.spec_get_output(id) {
                    Some(OutputModel::Str(cs)) => r matches Ok(v) && v@ == cs,
                    Some(_) => r == Err::<String, ActionError>(ActionError::WrongOutputType),
                    None => r == Err::<String, ActionError>(ActionError::NoActionReturn),
                },
            },
    {
        match &self.url {
            Input::Static(s) => Ok(s.clone()),
            Input::Dynamic(id) => {
                match runtime.get_output(*id) {
                    None => Err(ActionError::NoActionReturn),
                    Some(out) => {
                        match out {
                            ActionOutput::String(s) => Ok(s),
                            _ => Err(ActionError::WrongOutputType),
                        }
                    },
                }
            },
        }
    }

    /// The output published for a fetched response body.
    pub fn output_for(body: String) -> (r: Option<ActionOutput>)
        ensures
            r == Some(ActionOutput::String(body)),
    {
        Some(ActionOutput::String(body))
    }

    /// The observer label.
    pub fn display_name(&self) -> (r: String)
        ensures
            r@ == "GET <url>"@,
    {
        "GET <url>".to_owned()
    }
}

} // verus!

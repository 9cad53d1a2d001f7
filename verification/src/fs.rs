//! Filesystem actions: what they decide, without the I/O.
//!
//! The reads and writes themselves are performed by the driver; these
//! types carry the paths and contents, resolve dynamic inputs, and make
//! the probe decisions.

use vstd::prelude::*;

use crate::error::ActionError;
use crate::id::Id;
use crate::input::Input;
use crate::output::{ActionOutput, OutputModel};
use crate::runtime::RuntimeHandle;
use crate::Probe;

verus! {

/// Write a file, with either a literal content or the output of a
/// prerequisite.
pub struct WriteFile {
    /// The path to write to.
    pub path: String,
    /// The content, literal or resolved at run time.
    pub content: Input<String>,
}

impl WriteFile {
    /// A write of a literal content.
    pub fn new_static(path: String, content: String) -> (r: Self)
        ensures
            r.path == path,
            r.content == Input::Static(content),
    {
        WriteFile { path, content: Input::Static(content) }
    }

    /// A write of the string output of the node with the given
    /// identifier.
    pub fn new_dynamic(path: String, content: Id) -> (r: Self)
        ensures
            r.path == path,
            r.content == Input::<String>::Dynamic(content),
    {
        WriteFile { path, content: Input::Dynamic(content) }
    }

    /// A write always needs to run and cannot be rolled back.
    pub fn probe(&self) -> (r: Probe)
        ensures
            r.needs_run == true,
            r.can_rollback == false,
    {
        Probe { needs_run: true, can_rollback: false }
    }

    /// The bytes to write: the literal content, or the prerequisite's
    /// string output.  A missing output or one of another type is the
    /// action's own failure.
    pub fn resolve_content(&self, runtime: &RuntimeHandle) -> (r: Result<String, ActionError>)
        requires
            runtime.wf(),
        ensures
            match self.content {
                Input::Static(s) => r matches Ok(v) && v@ == s@,
                Input::Dynamic(id) => match runtime.spec_get_output(id) {
                    Some(OutputModel::Str(cs)) => r matches Ok(v) && v@ == cs,
                    Some(_) => r matches Err(e) && e matches ActionError::ActionFailed(
                        short,
                        _,
                    ) && short@ == "Output is not a string"@,
                    None => r matches Err(e) && e matches ActionError::ActionFailed(short, _)
                        && short@ == "Failed to get output"@,
                },
            },
    {
        match &self.content {
            Input::Static(s) => Ok(s.clone()),
            Input::Dynamic(id) => {
                match runtime.get_output(*id) {
                    None => Err(
                        ActionError::ActionFailed(
                            "Failed to get output".to_owned(),
                            "Failed to get output".to_owned(),
                        ),
                    ),
                    Some(out) => {
                        match out {
                            ActionOutput::String(s) => Ok(s),
                            _ => Err(
                                ActionError::ActionFailed(
                                    "Output is not a string".to_owned(),
                                    "Output is not a string".to_owned(),
                                ),
                            ),
                        }
                    },
                }
            },
        }
    }

    /// The observer label.
    pub fn display_name(&self) -> (r: String)
        ensures
            r@ == "Write file "@ + self.path@,
    {
        "Write file ".to_owned().concat(self.path.as_str())
    }
}

/// Read a file and publish its contents as a string output.
pub struct ReadFile {
    /// The path to read.
    pub path: String,
}

impl ReadFile {
    /// A read of the given path.
    pub fn new(path: String) -> (r: Self)
        ensures
            r.path == path,
    {
        ReadFile { path }
    }

    /// A read always needs to run and cannot be rolled back.
    pub fn probe(&self) -> (r: Probe)
        ensures
            r.needs_run == true,
            r.can_rollback == false,
    {
        Probe { needs_run: true, can_rollback: false }
    }

    /// The output published for a successful read.
    pub fn output_for(content: String) -> (r: Option<ActionOutput>)
        ensures
            r == Some(ActionOutput::String(content)),
    {
        Some(ActionOutput::String(content))
    }

    /// The observer label.
    pub fn display_name(&self) -> (r: String)
        ensures
            r@ == "Read file "@ + self.path@,
    {
        "Read file ".to_owned().concat(self.path.as_str())
    }
}

/// Delete a file.
pub struct DeleteFile {
    /// The path to delete.
    pub path: String,
}

impl DeleteFile {
    /// A deletion of the given path.
    pub fn new(path: String) -> (r: Self)
        ensures
            r.path == path,
    {
        DeleteFile { path }
    }

    /// A deletion needs to run exactly when the file still exists, and
    /// cannot be rolled back.
    pub fn probe_for(&self, path_exists: bool) -> (r: Probe)
        ensures
            r.needs_run == path_exists,
            r.can_rollback == false,
    {
        Probe { needs_run: path_exists, can_rollback: false }
    }

    /// The observer label.
    pub fn display_name(&self) -> (r: String)
        ensures
            r@ == "Delete file "@ + self.path@,
    {
        "Delete file ".to_owned().concat(self.path.as_str())
    }
}

/// Write a fixed content to a file; rolling back removes the file.
pub struct FileW {
    /// The path to write to.
    pub path: String,
    /// The content to write.
    pub content: String,
}

impl FileW {
    /// A write of the given content to the given path.
    pub fn new(path: String, content: String) -> (r: Self)
        ensures
            r.path == path,
            r.content == content,
    {
        FileW { path, content }
    }

    /// The write needs to run unless it already happened, and can be
    /// rolled back by removing the file.
    pub fn probe_for(&self, already_written: bool) -> (r: Probe)
        ensures
            r.needs_run == !already_written,
            r.can_rollback == true,
    {
        Probe { needs_run: !already_written, can_rollback: true }
    }

    /// The observer label.
    pub fn display_name(&self) -> (r: String)
        ensures
            r@ == "Write data to "@ + self.path@,
    {
        "Write data to ".to_owned().concat(self.path.as_str())
    }
}

/// An empty temporary file below the temporary directory; rolling back
/// removes it.
pub struct TempFile {
    /// The path relative to the temporary directory.
    pub rel_path: String,
}

impl TempFile {
    /// A temporary file at the given relative path.
    pub fn new(rel_path: String) -> (r: Self)
        ensures
            r.rel_path == rel_path,
    {
        TempFile { rel_path }
    }

    /// The absolute path of the temporary file.
    pub fn path(&self) -> (r: String)
        ensures
            r@ == "/tmp/"@ + self.rel_path@,
    {
        "/tmp/".to_owned().concat(self.rel_path.as_str())
    }

    /// The file needs to be created exactly when it does not exist yet,
    /// and can be rolled back by removing it.
    pub fn probe_for(&self, path_exists: bool) -> (r: Probe)
        ensures
            r.needs_run == !path_exists,
            r.can_rollback == true,
    {
        Probe { needs_run: !path_exists, can_rollback: true }
    }

    /// The observer label.
    pub fn display_name(&self) -> (r: String)
        ensures
            r@ == "Create temporary file "@ + self.rel_path@,
    {
        "Create temporary file ".to_owned().concat(self.rel_path.as_str())
    }
}

/// Read a file and publish its contents; rolling back does nothing.
pub struct FileR {
    /// The path to read.
    pub path: String,
}

impl FileR {
    /// A read of the given path.
    pub fn new(path: String) -> (r: Self)
        ensures
            r.path == path,
    {
        FileR { path }
    }

    /// The read needs to run unless its output is already published; it
    /// can always be rolled back, by doing nothing.
    pub fn probe_for(&self, already_read: bool) -> (r: Probe)
        ensures
            r.needs_run == !already_read,
            r.can_rollback == true,
    {
        Probe { needs_run: !already_read, can_rollback: true }
    }

    /// The output published for a successful read.
    pub fn output_for(content: String) -> (r: Option<ActionOutput>)
        ensures
            r == Some(ActionOutput::String(content)),
    {
        Some(ActionOutput::String(content))
    }

    /// The observer label.
    pub fn display_name(&self) -> (r: String)
        ensures
            r@ == "Read data from "@ + self.path@,
    {
        "Read data from ".to_owned().concat(self.path.as_str())
    }
}

} // verus!

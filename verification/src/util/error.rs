use vstd::prelude::*;

verus! {

/// What can go wrong when a note is read from markdown.
#[derive(Debug)]
pub enum UtilError {
    /// A heading stands where the shape of a note does not allow it.
    InvalidNoteMarkdown,
    /// Any other failure, with its message.
    Generic(String),
}

impl UtilError {
    /// The message shown for this error.
    pub fn message(&self) -> (text: String)
        ensures
            text@ == (match self {
                UtilError::InvalidNoteMarkdown => "Error: Invalid note markdown!"@,
                UtilError::Generic(inner) => inner@,
            }),
    {
        match self {
            UtilError::InvalidNoteMarkdown => "Error: Invalid note markdown!".to_owned(),
            UtilError::Generic(inner) => inner.clone(),
        }
    }
}

} // verus!

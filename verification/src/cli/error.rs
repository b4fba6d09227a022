use vstd::prelude::*;

use crate::models::error::DbError;
use crate::util::error::UtilError;

verus! {

/// What a command can fail with.
#[derive(Debug)]
pub enum CliError {
    CannotInteract,
    CannotReadUserInput,
    InvalidArguments,
    InvalidDigit,
    InvalidUtf8,
    /// The file could not be opened; the reason is given.
    CannotOpenFile(String),
    NoteNotFound,
    InvalidReference,
    /// A reference names, by title, a note that the store does not hold.
    ReferenceDoesNotExist(String),
    InternalError,
    ObjectNotFound,
    NoteTitleEmpty,
    /// A failure of the store or of the reading of a note, with its message.
    Generic(String),
}

/// The argument that a command takes.
#[derive(Debug)]
pub enum Arguments {
    Path,
}

/// The message of an error of the store.
pub open spec fn db_message(e: DbError) -> Seq<char> {
    match e {
        DbError::InternalError => "Something went wrong, contact the developer"@,
        DbError::Generic(inner) => inner@,
    }
}

/// The message of an error of the reading of a note.
pub open spec fn util_message(e: UtilError) -> Seq<char> {
    match e {
        UtilError::InvalidNoteMarkdown => "Error: Invalid note markdown!"@,
        UtilError::Generic(inner) => inner@,
    }
}

impl CliError {
    /// The message of this error.
    pub open spec fn text(self) -> Seq<char> {
        match self {
            CliError::CannotInteract => "Cannot interact with user!"@,
            CliError::CannotReadUserInput => "Cannot read user input!"@,
            CliError::InvalidArguments => "Invalid arguments"@,
            CliError::InvalidDigit => "Invalid digit"@,
            CliError::InvalidUtf8 => "Invalid utf-8 found in note!"@,
            CliError::CannotOpenFile(reason) => "Cannot open file: "@ + reason@,
            CliError::NoteNotFound => "Note with provided id not found, or id not provided"@,
            CliError::InvalidReference => "Provided reference must have either title or id"@,
            CliError::ReferenceDoesNotExist(title) => "Reference with provided title: "@ + title@
                + " does not exist."@,
            CliError::InternalError => "Internal error - contact the developer"@,
            CliError::ObjectNotFound => "Object with provided id doesn't exist!"@,
            CliError::NoteTitleEmpty => "The title of note cannot be empty!"@,
            CliError::Generic(inner) => inner@,
        }
    }

    /// The message shown for this error.
    pub fn message(&self) -> (text: String)
        ensures
            text@ == self.text(),
    {
        match self {
            CliError::CannotInteract => "Cannot interact with user!".to_owned(),
            CliError::CannotReadUserInput => "Cannot read user input!".to_owned(),
            CliError::InvalidArguments => "Invalid arguments".to_owned(),
            CliError::InvalidDigit => "Invalid digit".to_owned(),
            CliError::InvalidUtf8 => "Invalid utf-8 found in note!".to_owned(),
            CliError::CannotOpenFile(reason) => {
                let mut text = "Cannot open file: ".to_owned();
                text.append(reason.as_str());
                text
            },
            CliError::NoteNotFound => "Note with provided id not found, or id not provided".to_owned(),
            CliError::InvalidReference => "Provided reference must have either title or id".to_owned(),
            CliError::ReferenceDoesNotExist(title) => {
                let mut text = "Reference with provided title: ".to_owned();
                text.append(title.as_str());
                text.append(" does not exist.");
                text
            },
            CliError::InternalError => "Internal error - contact the developer".to_owned(),
            CliError::ObjectNotFound => "Object with provided id doesn't exist!".to_owned(),
            CliError::NoteTitleEmpty => "The title of note cannot be empty!".to_owned(),
            CliError::Generic(inner) => inner.clone(),
        }
    }
}

impl CliError {
    /// An error of the store, handed on with its message.
    pub fn from_db(value: DbError) -> (e: Self)
        ensures
            e matches CliError::Generic(inner) && inner@ == db_message(value),
    {
        CliError::Generic(value.message())
    }

    /// An error of the reading of a note, handed on with its message.
    pub fn from_util(value: UtilError) -> (e: Self)
        ensures
            e matches CliError::Generic(inner) && inner@ == util_message(value),
    {
        CliError::Generic(value.message())
    }
}

} // verus!

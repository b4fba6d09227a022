use vstd::prelude::*;

verus! {

/// What can go wrong in the store.
#[derive(Debug)]
pub enum DbError {
    /// The store contradicts itself: a link points at a row that is not there.
    InternalError,
    /// Any other failure, with its message.
    Generic(String),
}

impl DbError {
    /// The message shown for this error.
    pub fn message(&self) -> (text: String)
        ensures
            text@ == (match self {
                DbError::InternalError => "Something went wrong, contact the developer"@,
                DbError::Generic(inner) => inner@,
            }),
    {
        match self {
            DbError::InternalError => "Something went wrong, contact the developer".to_owned(),
            DbError::Generic(inner) => inner.clone(),
        }
    }
}

} // verus!

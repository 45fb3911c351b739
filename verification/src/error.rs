use vstd::prelude::*;

verus! {

/// Error taxonomy of the store layer.
///
/// `Database` reports a storage-level failure (here: arithmetic that the
/// store cannot represent), `NotFound` a lookup that matched no row,
/// `InvalidInput` a semantic validation failure, `Io` a file-level failure,
/// and `Internal` a failure of the store handle itself.
#[derive(Clone, Debug)]
pub enum AppError {
    Database(String),
    NotFound(String),
    InvalidInput(String),
    Io(String),
    Internal(String),
}

impl AppError {
    /// A human-readable rendering of the error.
    pub fn message(&self) -> (r: String)
        ensures
            r@ == self.message_spec(),
    {
        match self {
            AppError::Database(m) => "database error: ".to_owned().concat(m.as_str()),
            AppError::NotFound(m) => "record not found: ".to_owned().concat(m.as_str()),
            AppError::InvalidInput(m) => "invalid input: ".to_owned().concat(m.as_str()),
            AppError::Io(m) => "io error: ".to_owned().concat(m.as_str()),
            AppError::Internal(m) => "internal error: ".to_owned().concat(m.as_str()),
        }
    }

    /// What `message` returns: a fixed prefix naming the variant, then the detail.
    pub open spec fn message_spec(&self) -> Seq<char> {
        match self {
            AppError::Database(m) => "database error: "@ + m@,
            AppError::NotFound(m) => "record not found: "@ + m@,
            AppError::InvalidInput(m) => "invalid input: "@ + m@,
            AppError::Io(m) => "io error: "@ + m@,
            AppError::Internal(m) => "internal error: "@ + m@,
        }
    }
}

} // verus!

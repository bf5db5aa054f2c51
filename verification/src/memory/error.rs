//! The errors of the memory core.
use vstd::prelude::*;

verus! {

/// All errors of the memory core. The errors of the database, of serialization and of files are
/// kept as the text they show.
#[derive(Debug, Clone, PartialEq, Eq)]
pub enum MemoryError {
    Db(String),
    NotFound,
    InvalidScope(String),
    InvalidQuery(String),
    Serialize(String),
    Embed(String),
    Io(String),
    Other(String),
}

/// The text that an error shows.
pub open spec fn memory_message(e: MemoryError) -> Seq<char> {
    match e {
        MemoryError::Db(s) => "database error: "@ + s@,
        MemoryError::NotFound => "not found"@,
        MemoryError::InvalidScope(s) => "invalid scope: "@ + s@,
        MemoryError::InvalidQuery(s) => "invalid query: "@ + s@,
        MemoryError::Serialize(s) => "serialization error: "@ + s@,
        MemoryError::Embed(s) => "embedding error: "@ + s@,
        MemoryError::Io(s) => "io error: "@ + s@,
        MemoryError::Other(s) => s@,
    }
}

impl MemoryError {
    /// The text that the error shows.
    pub fn message(&self) -> (r: String)
        ensures
            r@ == memory_message(*self),
    {
        let (head, detail) = match self {
            MemoryError::Db(s) => ("database error: ", s),
            MemoryError::NotFound => return "not found".to_owned(),
            MemoryError::InvalidScope(s) => ("invalid scope: ", s),
            MemoryError::InvalidQuery(s) => ("invalid query: ", s),
            MemoryError::Serialize(s) => ("serialization error: ", s),
            MemoryError::Embed(s) => ("embedding error: ", s),
            MemoryError::Io(s) => ("io error: ", s),
            MemoryError::Other(s) => return s.clone(),
        };
        let mut r = String::from_str(head);
        r.append(detail.as_str());
        r
    }
}

} // verus!

//! The closed error taxonomy of the storage codecs.
use vstd::prelude::*;
use vstd::string::StringExecFns;

verus! {

/// Why a storage operation was refused: the table name matches no known
/// table, or a row's payload text could not be decoded. Every error carries a
/// human-readable message naming the offending text.
#[derive(Debug, Clone, PartialEq, Eq)]
pub enum DatabaseError {
    IncorrectTableName(String),
    EntryCouldNotBeParsed(String),
}

impl DatabaseError {
    /// The error's message text.
    pub open spec fn message_view(self) -> Seq<char> {
        match self {
            DatabaseError::IncorrectTableName(m) => m@,
            DatabaseError::EntryCouldNotBeParsed(m) => m@,
        }
    }

    /// Borrows the human-readable message.
    pub fn message(&self) -> (r: &String)
        ensures
            r@ == self.message_view(),
    {
        match self {
            DatabaseError::IncorrectTableName(m) => m,
            DatabaseError::EntryCouldNotBeParsed(m) => m,
        }
    }
}

/// A parse-failure error whose message names the source text.
pub fn parse_failure(reason: &str, source: &str) -> (e: DatabaseError)
    ensures
        e is EntryCouldNotBeParsed,
{
    let mut m = reason.to_owned();
    m.append(" ('");
    m.append(source);
    m.append("')");
    DatabaseError::EntryCouldNotBeParsed(m)
}

} // verus!

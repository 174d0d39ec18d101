//! The error taxonomy of the engine.

use vstd::prelude::*;

verus! {

/// The kinds of failure a statement can end in: a missing or unreadable
/// table, a reference to a column the table does not have (or a value
/// count that does not fit), a grammar violation found while parsing,
/// and everything else (store-level failures).
#[derive(Debug)]
pub enum ErrorType {
    InvalidTable(String),
    InvalidColumn(String),
    InvalidSyntax(String),
    OtherError(String),
}

/// The taxonomy alone, without the message: what contracts speak of.
pub enum ErrorKind {
    Table,
    Column,
    Syntax,
    Other,
}

impl ErrorType {
    /// The taxonomy kind of this error.
    pub open spec fn kind(&self) -> ErrorKind {
        match self {
            ErrorType::InvalidTable(_) => ErrorKind::Table,
            ErrorType::InvalidColumn(_) => ErrorKind::Column,
            ErrorType::InvalidSyntax(_) => ErrorKind::Syntax,
            ErrorType::OtherError(_) => ErrorKind::Other,
        }
    }
    /// The message carried by the error, whatever its kind.
    pub open spec fn spec_message(&self) -> Seq<char> {
        match self {
            ErrorType::InvalidTable(m) => m@,
            ErrorType::InvalidColumn(m) => m@,
            ErrorType::InvalidSyntax(m) => m@,
            ErrorType::OtherError(m) => m@,
        }
    }

    /// The tag that `create_error` prefixes to the message.
    pub open spec fn spec_tag(&self) -> Seq<char> {
        match self {
            ErrorType::InvalidTable(_) => "INVALID_TABLE"@,
            ErrorType::InvalidColumn(_) => "INVALID_COLUMN"@,
            ErrorType::InvalidSyntax(_) => "INVALID_SYNTAX"@,
            ErrorType::OtherError(_) => "ERROR"@,
        }
    }

    /// Renders the error as the single descriptive line shown to the
    /// user: the taxonomy tag in brackets, a colon, and the message.
    pub fn create_error(&self) -> (r: String)
        ensures
            r@ == "["@ + self.spec_tag() + "]: "@ + self.spec_message(),
    {
        let mut out: String = String::from_str("[");
        let tag: &str = match self {
            ErrorType::InvalidTable(_) => "INVALID_TABLE",
            ErrorType::InvalidColumn(_) => "INVALID_COLUMN",
            ErrorType::InvalidSyntax(_) => "INVALID_SYNTAX",
            ErrorType::OtherError(_) => "ERROR",
        };
        out.append(tag);
        out.append("]: ");
        let msg: &String = match self {
            ErrorType::InvalidTable(m) => m,
            ErrorType::InvalidColumn(m) => m,
            ErrorType::InvalidSyntax(m) => m,
            ErrorType::OtherError(m) => m,
        };
        out.append(msg.as_str());
        out
    }
}

} // verus!

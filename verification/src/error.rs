//! What can go wrong while a table is written.

use arrow_schema::ArrowError;
use vstd::prelude::*;
use vstd::string::*;

verus! {

/// An error of a table write.
#[derive(Debug)]
pub enum Error {
    /// The table is of a kind that cannot be written.
    Unsupported { message: String },
    /// An Arrow function refused the data.
    DataInvalid { message: String },
    /// A key column does not hold the type that the schema declares.
    TypeMismatch { column: usize },
    /// A batch lacks a column that the table needs.
    MissingColumn { column: usize },
    /// Arrow cannot choose, join or sort the values of a column: there are more inside than can be
    /// counted, or they are laid out as it does not take them.
    ColumnRefused { column: usize },
    /// There are more rows than row numbers can tell apart.
    TooManyRows,
    /// No sequence numbers are left.
    SequenceOverflow,
    /// A file would count more rows than its counter holds.
    RowCountOverflow,
    /// The event does not answer the action that was asked for.
    UnexpectedEvent,
    /// Storage failed.
    Io { message: String },
}

/// Whether the error says, after the given words, why an Arrow function failed.
pub open spec fn arrow_failed(error: Error, words: Seq<char>, cause: ArrowError) -> bool {
    error matches Error::DataInvalid { message } && message@ == words
        + crate::arrow::arrow_error_text(cause)
}

/// The error that an Arrow function failed.
pub(crate) fn arrow_failure(words: &str, error: ArrowError) -> (r: Error)
    ensures
        arrow_failed(r, words@, error),
{
    let mut message: String = String::new();
    message.append(words);
    let text: String = crate::arrow::error_text(&error);
    message.append(text.as_str());
    assert(message@ =~= words@ + crate::arrow::arrow_error_text(error));
    Error::DataInvalid { message }
}

/// Whether the error says that the task that was closing a file panicked, and what is told of it.
pub open spec fn close_panicked(error: Error, text: Seq<char>) -> bool {
    error matches Error::DataInvalid { message } && message@
        == "Background file close task panicked: "@ + text
}

/// The error that the task that was closing a file panicked.
pub(crate) fn close_panic(text: &String) -> (r: Error)
    ensures
        close_panicked(r, text@),
{
    let mut message: String = String::new();
    message.append("Background file close task panicked: ");
    message.append(text.as_str());
    assert(message@ =~= "Background file close task panicked: "@ + text@);
    Error::DataInvalid { message }
}

} // verus!

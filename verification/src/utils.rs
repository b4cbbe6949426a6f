//! The adapter's error taxonomy and the database-error payload.

use vstd::prelude::*;

verus! {

/// A database error reported by the host binding. The host reports a message
/// text only: no code, detail, hint, table, column or constraint is ever
/// available, so every accessor besides `message` reports absence.
#[derive(Debug, Clone, PartialEq, Eq)]
pub struct D1Error {
    pub message: String,
}

impl D1Error {
    /// Wrap the host's message text.
    pub fn new(message: String) -> (r: Self)
        ensures
            r.message == message,
    {
        D1Error { message }
    }

    /// The message text, the only diagnostic payload the host supplies.
    pub fn message(&self) -> (r: &str)
        ensures
            r@ == self.message@,
    {
        self.message.as_str()
    }

    /// The host never supplies details.
    pub fn details(&self) -> (r: Option<&str>)
        ensures
            r is None,
    {
        None
    }

    /// The host never supplies a hint.
    pub fn hint(&self) -> (r: Option<&str>)
        ensures
            r is None,
    {
        None
    }

    /// The host never names a table.
    pub fn table_name(&self) -> (r: Option<&str>)
        ensures
            r is None,
    {
        None
    }

    /// The host never names a column.
    pub fn column_name(&self) -> (r: Option<&str>)
        ensures
            r is None,
    {
        None
    }

    /// The host never names a constraint.
    pub fn constraint_name(&self) -> (r: Option<&str>)
        ensures
            r is None,
    {
        None
    }

    /// The host never reports a statement position.
    pub fn statement_position(&self) -> (r: Option<i32>)
        ensures
            r is None,
    {
        None
    }
}

/// A typed value cannot be represented on the host's side of the boundary.
#[derive(Debug, Clone, Copy, PartialEq, Eq, Structural)]
pub enum EncodeError {
    /// The scalar violates its own invariant (for instance a date whose day
    /// does not exist in its month), so no canonical encoding exists for it.
    MalformedScalar,
}

/// A host value does not match the declared SQL type it is decoded at.
#[derive(Debug, Clone, PartialEq, Eq)]
pub enum DecodeError {
    /// The host value's shape does not fit the declared type at all.
    TypeMismatch,
    /// A numeric value other than exactly zero or one was decoded as a
    /// boolean: a corrupt data contract, not a recoverable condition.
    CorruptBoolean,
    /// A date/time text matched no recognised pattern, including the numeric
    /// day-count fallback; carries the original text.
    Parse(String),
}

/// Every error this adapter core can surface.
#[derive(Debug, PartialEq, Eq)]
pub enum AdapterError {
    /// A value could not be encoded for the host.
    Encode(EncodeError),
    /// A host value could not be decoded at its declared type.
    Decode(DecodeError),
    /// A clause the dialect does not support was requested. The RETURNING
    /// clause is rejected before rendering, so no rendering path raises this.
    Dialect,
    /// The host binding rejected a prepare, bind or execute call; the host's
    /// message text is the only diagnostic payload.
    Host(D1Error),
    /// A transaction verb was used outside a transaction.
    TransactionState,
}

} // verus!

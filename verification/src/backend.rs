//! The backend marker types and the mapping from declared SQL types to the
//! host's wire-level value tags.

use vstd::prelude::*;

verus! {

/// The D1 backend: a SQLite-compatible database behind a dynamically typed
/// host binding.
#[derive(Debug, Copy, Clone, Hash, PartialEq, Eq, Structural, Default)]
pub struct D1Backend;

/// The wire-level tag of an encoded value. The host binding needs a different
/// call shape per tag, so every encoded value carries exactly one of these.
#[derive(Debug, Hash, PartialEq, Eq, Structural, Clone, Copy)]
pub enum D1Type {
    Binary,
    Text,
    Double,
    Integer,
}

/// The SQL column type known statically from the query's type system. It
/// selects the encode/decode behaviour of the value codec.
#[derive(Debug, Hash, PartialEq, Eq, Structural, Clone, Copy)]
pub enum DeclaredType {
    Bool,
    SmallInt,
    Integer,
    BigInt,
    Float,
    Double,
    Text,
    Binary,
    Date,
    Time,
    Timestamp,
}

/// The wire tag that a value of the given declared SQL type encodes to:
/// booleans and fixed-width integers travel as integers, both float widths as
/// doubles, and the date/time family as canonical text.
pub open spec fn metadata_of(decl: DeclaredType) -> D1Type {
    match decl {
        DeclaredType::Bool => D1Type::Integer,
        DeclaredType::SmallInt => D1Type::Integer,
        DeclaredType::Integer => D1Type::Integer,
        DeclaredType::BigInt => D1Type::Integer,
        DeclaredType::Float => D1Type::Double,
        DeclaredType::Double => D1Type::Double,
        DeclaredType::Text => D1Type::Text,
        DeclaredType::Binary => D1Type::Binary,
        DeclaredType::Date => D1Type::Text,
        DeclaredType::Time => D1Type::Text,
        DeclaredType::Timestamp => D1Type::Text,
    }
}

impl D1Backend {
    /// Look up the wire tag for a declared SQL type.
    pub fn metadata(decl: DeclaredType) -> (t: D1Type)
        ensures
            t == metadata_of(decl),
    {
        match decl {
            DeclaredType::Bool => D1Type::Integer,
            DeclaredType::SmallInt => D1Type::Integer,
            DeclaredType::Integer => D1Type::Integer,
            DeclaredType::BigInt => D1Type::Integer,
            DeclaredType::Float => D1Type::Double,
            DeclaredType::Double => D1Type::Double,
            DeclaredType::Text => D1Type::Text,
            DeclaredType::Binary => D1Type::Binary,
            DeclaredType::Date => D1Type::Text,
            DeclaredType::Time => D1Type::Text,
            DeclaredType::Timestamp => D1Type::Text,
        }
    }
}

/// Dialect marker: this backend supports a PostgreSQL-like ON CONFLICT clause.
#[derive(Debug, Copy, Clone)]
pub struct SqliteOnConflictClause;

/// Dialect marker: this backend supports batched INSERT statements.
#[derive(Debug, Copy, Clone)]
pub struct SqliteBatchInsert;

/// Dialect marker for a RETURNING clause. The dialect profile used by this
/// adapter rejects RETURNING at the type level, so nothing in this crate
/// renders one; the marker is kept for completeness.
#[derive(Debug, Copy, Clone)]
pub struct SqliteReturningClause;

} // verus!

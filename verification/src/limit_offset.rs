//! The dialect's LIMIT/OFFSET rewrite rule.
//!
//! This dialect requires a LIMIT clause whenever an OFFSET is present and has
//! no "none" limit value, so a statement with an offset but no limit gets a
//! synthesized unbounded-limit sentinel (the literal -1, which the dialect
//! treats as no bound) immediately before its offset clause. The same
//! four-way case split — no clause, limit only, offset only, both — governs
//! the statically typed clause pair and the boxed pair resolved at render
//! time: both paths render through one shared specification.

use vstd::prelude::*;
use crate::backend::{D1Type, DeclaredType};
use crate::bind_collector::D1BindCollector;
use crate::query_builder::D1QueryBuilder;
use crate::types::D1Scalar;
use crate::utils::AdapterError;
use crate::value::TypedValue;

verus! {

/// The text of a limit clause up to its bound placeholder.
pub open spec fn limit_clause_sql() -> Seq<char> {
    seq![' ', 'L', 'I', 'M', 'I', 'T', ' ']
}

/// The text of an offset clause up to its bound placeholder.
pub open spec fn offset_clause_sql() -> Seq<char> {
    seq![' ', 'O', 'F', 'F', 'S', 'E', 'T', ' ']
}

/// The synthesized unbounded-limit sentinel written before an offset clause
/// when no limit was given.
pub open spec fn unbounded_limit_sql() -> Seq<char> {
    seq![' ', 'L', 'I', 'M', 'I', 'T', ' ', '-', '1', ' ']
}

/// The four-way case split: the exact text the clause pair contributes to a
/// statement. Bounds are rendered as positional placeholders.
pub open spec fn limit_offset_text(limit: Option<i64>, offset: Option<i64>) -> Seq<char> {
    match (limit, offset) {
        (Some(_), Some(_)) => limit_clause_sql() + seq!['?'] + offset_clause_sql() + seq!['?'],
        (Some(_), None) => limit_clause_sql() + seq!['?'],
        (None, Some(_)) => unbounded_limit_sql() + offset_clause_sql() + seq!['?'],
        (None, None) => Seq::empty(),
    }
}

/// The bind entries the clause pair contributes, in placeholder order.
pub open spec fn limit_offset_binds(limit: Option<i64>, offset: Option<i64>) -> Seq<
    (TypedValue, D1Type),
> {
    match (limit, offset) {
        (Some(l), Some(o)) => seq![
            (TypedValue::Integer(l), D1Type::Integer),
            (TypedValue::Integer(o), D1Type::Integer),
        ],
        (Some(l), None) => seq![(TypedValue::Integer(l), D1Type::Integer)],
        (None, Some(o)) => seq![(TypedValue::Integer(o), D1Type::Integer)],
        (None, None) => Seq::empty(),
    }
}

/// Append one 64-bit integer bound to the collector.
fn push_integer_bind(collector: &mut D1BindCollector, value: i64)
    ensures
        final(collector).binds@ == old(collector).binds@ + seq![
            (TypedValue::Integer(value), D1Type::Integer),
        ],
{
    let r = collector.push_bound_value(&D1Scalar::BigInt(value), DeclaredType::BigInt);
    match r {
        Ok(()) => {
            proof {
                assert(collector.binds@ =~= old(collector).binds@ + seq![
                    (TypedValue::Integer(value), D1Type::Integer),
                ]);
            }
        },
        Err(_) => {
            proof {
                assert(false);
            }
        },
    }
}

/// A statically known clause pair: which of limit and offset the statement
/// carries is fixed by the query's type.
#[derive(Debug, Clone, Copy, PartialEq, Eq, Structural)]
pub enum LimitOffsetClause {
    NoClause,
    LimitOnly(i64),
    OffsetOnly(i64),
    Both(i64, i64),
}

/// The limit bound a statically known clause pair carries.
pub open spec fn static_limit(c: LimitOffsetClause) -> Option<i64> {
    match c {
        LimitOffsetClause::NoClause => None,
        LimitOffsetClause::LimitOnly(l) => Some(l),
        LimitOffsetClause::OffsetOnly(_) => None,
        LimitOffsetClause::Both(l, _) => Some(l),
    }
}

/// The offset bound a statically known clause pair carries.
pub open spec fn static_offset(c: LimitOffsetClause) -> Option<i64> {
    match c {
        LimitOffsetClause::NoClause => None,
        LimitOffsetClause::LimitOnly(_) => None,
        LimitOffsetClause::OffsetOnly(o) => Some(o),
        LimitOffsetClause::Both(_, o) => Some(o),
    }
}

/// A clause pair resolved only at render time.
#[derive(Debug, Clone, Copy, PartialEq, Eq, Structural)]
pub struct BoxedLimitOffsetClause {
    pub limit: Option<i64>,
    pub offset: Option<i64>,
}

impl LimitOffsetClause {
    /// Render the statically known clause pair.
    pub fn walk_ast(&self, qb: &mut D1QueryBuilder, collector: &mut D1BindCollector) -> (r: Result<
        (),
        AdapterError,
    >)
        ensures
            r is Ok,
            final(qb)@ == old(qb)@ + limit_offset_text(static_limit(*self), static_offset(*self)),
            final(collector).binds@ == old(collector).binds@ + limit_offset_binds(
                static_limit(*self),
                static_offset(*self),
            ),
    {
        let boxed = self.into_boxed();
        boxed.walk_ast(qb, collector)
    }

    /// Resolve the statically known pair into its render-time form.
    pub fn into_boxed(self) -> (r: BoxedLimitOffsetClause)
        ensures
            r.limit == static_limit(self),
            r.offset == static_offset(self),
    {
        match self {
            LimitOffsetClause::NoClause => BoxedLimitOffsetClause { limit: None, offset: None },
            LimitOffsetClause::LimitOnly(l) => BoxedLimitOffsetClause {
                limit: Some(l),
                offset: None,
            },
            LimitOffsetClause::OffsetOnly(o) => BoxedLimitOffsetClause {
                limit: None,
                offset: Some(o),
            },
            LimitOffsetClause::Both(l, o) => BoxedLimitOffsetClause {
                limit: Some(l),
                offset: Some(o),
            },
        }
    }
}

impl BoxedLimitOffsetClause {
    /// Render the clause pair: limit before offset when both are present, an
    /// unbounded-limit sentinel before a lone offset, nothing when neither is
    /// present.
    pub fn walk_ast(&self, qb: &mut D1QueryBuilder, collector: &mut D1BindCollector) -> (r: Result<
        (),
        AdapterError,
    >)
        ensures
            r is Ok,
            final(qb)@ == old(qb)@ + limit_offset_text(self.limit, self.offset),
            final(collector).binds@ == old(collector).binds@ + limit_offset_binds(
                self.limit,
                self.offset,
            ),
    {
        match (self.limit, self.offset) {
            (Some(l), Some(o)) => {
                qb.push_sql(" LIMIT ");
                qb.push_bind_param();
                push_integer_bind(collector, l);
                qb.push_sql(" OFFSET ");
                qb.push_bind_param();
                push_integer_bind(collector, o);
                proof {
                    reveal_strlit(" LIMIT ");
                    reveal_strlit(" OFFSET ");
                    assert(" LIMIT "@ =~= limit_clause_sql());
                    assert(" OFFSET "@ =~= offset_clause_sql());
                    assert(qb@ =~= old(qb)@ + limit_offset_text(self.limit, self.offset));
                    assert(collector.binds@ =~= old(collector).binds@ + limit_offset_binds(
                        self.limit,
                        self.offset,
                    ));
                }
                Ok(())
            },
            (Some(l), None) => {
                qb.push_sql(" LIMIT ");
                qb.push_bind_param();
                push_integer_bind(collector, l);
                proof {
                    reveal_strlit(" LIMIT ");
                    assert(" LIMIT "@ =~= limit_clause_sql());
                    assert(qb@ =~= old(qb)@ + limit_offset_text(self.limit, self.offset));
                    assert(collector.binds@ =~= old(collector).binds@ + limit_offset_binds(
                        self.limit,
                        self.offset,
                    ));
                }
                Ok(())
            },
            (None, Some(o)) => {
                qb.push_sql(" LIMIT -1 ");
                qb.push_sql(" OFFSET ");
                qb.push_bind_param();
                push_integer_bind(collector, o);
                proof {
                    reveal_strlit(" LIMIT -1 ");
                    reveal_strlit(" OFFSET ");
                    assert(" LIMIT -1 "@ =~= unbounded_limit_sql());
                    assert(" OFFSET "@ =~= offset_clause_sql());
                    assert(qb@ =~= old(qb)@ + limit_offset_text(self.limit, self.offset));
                    assert(collector.binds@ =~= old(collector).binds@ + limit_offset_binds(
                        self.limit,
                        self.offset,
                    ));
                }
                Ok(())
            },
            (None, None) => {
                proof {
                    assert(qb@ =~= old(qb)@ + limit_offset_text(self.limit, self.offset));
                    assert(collector.binds@ =~= old(collector).binds@ + limit_offset_binds(
                        self.limit,
                        self.offset,
                    ));
                }
                Ok(())
            },
        }
    }
}

} // verus!

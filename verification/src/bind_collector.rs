//! The bind collector: the ordered list of encoded values shipped alongside
//! one statement's SQL text.
//!
//! Entries accumulate in push order, which the caller keeps aligned with the
//! order placeholders are emitted; the collector never reorders or
//! deduplicates. An encoding failure aborts collection for the whole
//! statement and leaves the collector unchanged.

use vstd::prelude::*;
use crate::backend::{metadata_of, D1Backend, D1Type, DeclaredType};
use crate::types::{encode, encodes, scalar_wf, D1Scalar};
use crate::utils::AdapterError;
use crate::value::TypedValue;

verus! {

/// Accumulates one statement's bind values: pairs of an encoded wire value
/// and the wire tag of its declared SQL type, index-aligned with the
/// statement's placeholders.
pub struct D1BindCollector {
    /// The accumulated (encoded value, wire tag) pairs, in push order.
    pub binds: Vec<(TypedValue, D1Type)>,
}

impl D1BindCollector {
    /// A collector with no binds.
    pub fn new() -> (r: Self)
        ensures
            r.binds@ == Seq::<(TypedValue, D1Type)>::empty(),
    {
        D1BindCollector { binds: Vec::new() }
    }

    /// Encode one scalar and append it, paired with the wire tag of its
    /// declared type. On an encoding failure the error is surfaced as a
    /// statement-level serialization error and nothing is appended.
    pub fn push_bound_value(&mut self, bind: &D1Scalar, decl: DeclaredType) -> (r: Result<
        (),
        AdapterError,
    >)
        ensures
            match r {
                Ok(()) => {
                    &&& scalar_wf(*bind)
                    &&& final(self).binds@.len() == old(self).binds@.len() + 1
                    &&& final(self).binds@.take(old(self).binds@.len() as int) == old(self).binds@
                    &&& encodes(*bind, final(self).binds@.last().0)
                    &&& final(self).binds@.last().1 == metadata_of(decl)
                },
                Err(e) => {
                    &&& !scalar_wf(*bind)
                    &&& e == AdapterError::Encode(crate::utils::EncodeError::MalformedScalar)
                    &&& final(self).binds@ == old(self).binds@
                },
            },
    {
        match encode(bind) {
            Ok(tv) => {
                let tag = D1Backend::metadata(decl);
                self.binds.push((tv, tag));
                proof {
                    assert(self.binds@.take(old(self).binds@.len() as int) =~= old(self).binds@);
                }
                Ok(())
            },
            Err(e) => Err(AdapterError::Encode(e)),
        }
    }
}

impl Default for D1BindCollector {
    /// A fresh collector holds no binds.
    fn default() -> (r: Self)
        ensures
            r.binds@ == Seq::<(TypedValue, D1Type)>::empty(),
    {
        D1BindCollector::new()
    }
}

} // verus!

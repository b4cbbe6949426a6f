//! The row/field accessor: named and positional lookup over one opaque
//! result record, against the column-name list shared by every row of one
//! result set.
//!
//! Field names are unavailable per row on the host side; they are discovered
//! once, from the first row of a result set, and every row is indexed against
//! that shared list rather than its own keys. A field handle is a short-lived
//! read-only view that re-reads the underlying record entry on every access.

use vstd::prelude::*;
use crate::value::D1Value;

verus! {

/// Relies on str's PartialEq: two string slices compare equal exactly when
/// their character sequences are equal.
#[verifier::external_body]
fn str_eq(a: &str, b: &str) -> (r: bool)
    ensures
        r == (a@ == b@),
{
    a == b
}

/// One result row: the record's own key/value pairs in host order, plus the
/// result set's shared, order-preserving column-name list.
pub struct D1Row {
    /// The opaque record's own entries, as the host returned them.
    pub entries: Vec<(String, D1Value)>,
    /// The column names discovered from the first row of the result set.
    pub field_vec: Vec<String>,
}

/// A short-lived, read-only view of one field of one row; valid for the
/// lifetime of the row and decoded on demand, never eagerly.
pub struct D1Field<'a> {
    /// The row the handle reads through.
    pub row: &'a D1Row,
    /// The resolved field name, taken from the shared column-name list.
    pub name: String,
}

impl D1Row {
    /// Wrap one host record together with the result set's shared
    /// column-name list.
    pub fn new(entries: Vec<(String, D1Value)>, field_vec: Vec<String>) -> (r: Self)
        ensures
            r.entries == entries,
            r.field_vec == field_vec,
    {
        D1Row { entries, field_vec }
    }

    /// The number of columns of the result set this row belongs to.
    pub fn field_count(&self) -> (r: usize)
        ensures
            r == self.field_vec@.len(),
    {
        self.field_vec.len()
    }

    /// Resolve a positional index: in bounds resolves to itself, out of range
    /// is absence, not an error.
    pub fn idx(&self, idx: usize) -> (r: Option<usize>)
        ensures
            match r {
                Some(i) => i == idx && idx < self.field_vec@.len(),
                None => idx >= self.field_vec@.len(),
            },
    {
        if idx < self.field_vec.len() {
            Some(idx)
        } else {
            None
        }
    }

    /// Resolve a field name to its position by a linear scan of the shared
    /// column-name list: the first match wins, absence is not an error.
    pub fn idx_of(&self, field: &str) -> (r: Option<usize>)
        ensures
            match r {
                Some(i) => {
                    &&& i < self.field_vec@.len()
                    &&& self.field_vec@[i as int]@ == field@
                    &&& forall|j: int| 0 <= j < i ==> self.field_vec@[j]@ != field@
                },
                None => forall|j: int|
                    0 <= j < self.field_vec@.len() ==> self.field_vec@[j]@ != field@,
            },
    {
        let n = self.field_vec.len();
        let mut i: usize = 0;
        while i < n
            invariant
                n == self.field_vec@.len(),
                i <= n,
                forall|j: int| 0 <= j < i ==> self.field_vec@[j]@ != field@,
            decreases n - i,
        {
            if str_eq(self.field_vec[i].as_str(), field) {
                return Some(i);
            }
            i = i + 1;
        }
        None
    }

    /// The field handle at a resolved position: the handle binds this row and
    /// the shared column name at that position.
    pub fn get(&self, idx: usize) -> (r: Option<D1Field<'_>>)
        ensures
            match r {
                Some(f) => {
                    &&& idx < self.field_vec@.len()
                    &&& f.name@ == self.field_vec@[idx as int]@
                },
                None => idx >= self.field_vec@.len(),
            },
    {
        let index = match self.idx(idx) {
            Some(i) => i,
            None => {
                return None;
            },
        };
        let name = self.field_vec[index].clone();
        Some(D1Field { row: self, name })
    }

    /// The field handle for a name: absent when the name is not in the shared
    /// column-name list, even if this row's own record carries the key.
    pub fn get_by_name(&self, field: &str) -> (r: Option<D1Field<'_>>)
        ensures
            match r {
                Some(f) => exists|i: int|
                    0 <= i < self.field_vec@.len() && #[trigger] self.field_vec@[i]@ == field@
                        && f.name@ == field@,
                None => forall|j: int|
                    0 <= j < self.field_vec@.len() ==> self.field_vec@[j]@ != field@,
            },
    {
        let index = match self.idx_of(field) {
            Some(i) => i,
            None => {
                return None;
            },
        };
        let name = self.field_vec[index].clone();
        Some(D1Field { row: self, name })
    }
}

impl<'a> D1Field<'a> {
    /// The name this handle was resolved under.
    pub fn field_name(&self) -> (r: Option<&str>)
        ensures
            match r {
                Some(s) => s@ == self.name@,
                None => false,
            },
    {
        Some(self.name.as_str())
    }

    /// Re-read the underlying record entry for this handle's name: a linear
    /// scan of the record's own entries, first match wins. Reads are
    /// idempotent and side-effect-free; nothing is cached.
    pub fn value(&self) -> (r: Option<&D1Value>)
        ensures
            match r {
                Some(v) => exists|i: int|
                    {
                        &&& 0 <= i < self.row.entries@.len()
                        &&& (#[trigger] self.row.entries@[i]).0@ == self.name@
                        &&& *v == self.row.entries@[i].1
                        &&& forall|j: int| 0 <= j < i ==> self.row.entries@[j].0@ != self.name@
                    },
                None => forall|j: int|
                    0 <= j < self.row.entries@.len() ==> self.row.entries@[j].0@ != self.name@,
            },
    {
        let n = self.row.entries.len();
        let mut i: usize = 0;
        while i < n
            invariant
                n == self.row.entries@.len(),
                i <= n,
                forall|j: int| 0 <= j < i ==> self.row.entries@[j].0@ != self.name@,
            decreases n - i,
        {
            if str_eq(self.row.entries[i].0.as_str(), self.name.as_str()) {
                return Some(&self.row.entries[i].1);
            }
            i = i + 1;
        }
        None
    }
}

} // verus!

//! The computing half of the connection façade: turning a host result into
//! rows or a typed error. The asynchronous host calls themselves — prepare,
//! bind, execute, batch — live outside this crate and hand these functions
//! the host's plain outcome.

use vstd::prelude::*;
use crate::row::D1Row;
use crate::utils::{AdapterError, D1Error};
use crate::value::D1Value;

verus! {

/// Copy a column-name list.
fn clone_names(v: &Vec<String>) -> (r: Vec<String>)
    ensures
        r@.len() == v@.len(),
        forall|i: int| 0 <= i < v@.len() ==> r@[i]@ == v@[i]@,
{
    let mut r: Vec<String> = Vec::new();
    let mut i: usize = 0;
    while i < v.len()
        invariant
            i <= v@.len(),
            r@.len() == i,
            forall|j: int| 0 <= j < i ==> r@[j]@ == v@[j]@,
        decreases v@.len() - i,
    {
        r.push(v[i].clone());
        i = i + 1;
    }
    r
}

/// Whether each row wraps the corresponding record of the result, under the
/// column-name list discovered from the first record's keys. An empty result
/// set yields zero rows.
pub open spec fn rows_wrap_records(
    rows: Seq<D1Row>,
    records: Seq<Vec<(String, D1Value)>>,
) -> bool {
    &&& rows.len() == records.len()
    &&& forall|i: int|
        0 <= i < rows.len() ==> (#[trigger] rows[i]).entries == records[i]
            && rows[i].field_vec@.len() == records[0]@.len() && (forall|k: int|
            0 <= k < records[0]@.len() ==> rows[i].field_vec@[k]@ == records[0]@[k].0@)
}

/// Turn the host's record sequence into rows. The column-name list is
/// computed once, from the first record, and shared in order by every row;
/// rows are indexed against it, never against their own keys.
pub fn rows_from_records(records: Vec<Vec<(String, D1Value)>>) -> (rows: Vec<D1Row>)
    ensures
        rows_wrap_records(rows@, records@),
{
    let ghost orig = records@;
    let mut records = records;
    let mut rows: Vec<D1Row> = Vec::new();
    if records.len() == 0 {
        return rows;
    }
    let mut field_keys: Vec<String> = Vec::new();
    {
        let first = &records[0];
        let mut k: usize = 0;
        while k < first.len()
            invariant
                first == orig[0],
                k <= first@.len(),
                field_keys@.len() == k,
                forall|j: int| 0 <= j < k ==> field_keys@[j]@ == first@[j].0@,
            decreases first@.len() - k,
        {
            field_keys.push(first[k].0.clone());
            k = k + 1;
        }
    }
    while records.len() > 0
        invariant
            rows@.len() + records@.len() == orig.len(),
            records@ == orig.skip(rows@.len() as int),
            field_keys@.len() == orig[0]@.len(),
            forall|j: int| 0 <= j < field_keys@.len() ==> field_keys@[j]@ == orig[0]@[j].0@,
            forall|i: int|
                0 <= i < rows@.len() ==> (#[trigger] rows@[i]).entries == orig[i]
                    && rows@[i].field_vec@.len() == orig[0]@.len() && (forall|k: int|
                    0 <= k < orig[0]@.len() ==> rows@[i].field_vec@[k]@ == orig[0]@[k].0@),
        decreases records@.len(),
    {
        let ghost done = rows@.len() as int;
        let rec = records.remove(0);
        proof {
            assert(orig.skip(done)[0] == orig[done]);
            assert(orig.skip(done).remove(0) =~= orig.skip(done + 1));
        }
        let names = clone_names(&field_keys);
        rows.push(D1Row::new(rec, names));
    }
    rows
}

/// The outcome of a load: the host's error, when it reported one, else the
/// result records wrapped as rows under the first record's column names.
pub fn load_outcome(error: Option<String>, records: Vec<Vec<(String, D1Value)>>) -> (r: Result<
    Vec<D1Row>,
    AdapterError,
>)
    ensures
        match r {
            Ok(rows) => error is None && rows_wrap_records(rows@, records@),
            Err(e) => error matches Some(msg) && e == AdapterError::Host(D1Error { message: msg }),
        },
{
    match error {
        Some(msg) => Err(AdapterError::Host(D1Error::new(msg))),
        None => Ok(rows_from_records(records)),
    }
}

/// The outcome of an execute: the host's error, when it reported one, else
/// the affected-row count the host put in its result metadata.
pub fn execute_count_outcome(error: Option<String>, changes: usize) -> (r: Result<
    usize,
    AdapterError,
>)
    ensures
        match r {
            Ok(count) => error is None && count == changes,
            Err(e) => error matches Some(msg) && e == AdapterError::Host(D1Error { message: msg }),
        },
{
    match error {
        Some(msg) => Err(AdapterError::Host(D1Error::new(msg))),
        None => Ok(changes),
    }
}

/// The outcome of a batch execution: success, or the host's error wrapped
/// with its message text as the only diagnostic payload.
pub fn batch_outcome(error: Option<String>) -> (r: Result<(), AdapterError>)
    ensures
        match r {
            Ok(()) => error is None,
            Err(e) => error matches Some(msg) && e == AdapterError::Host(D1Error { message: msg }),
        },
{
    match error {
        Some(msg) => Err(AdapterError::Host(D1Error::new(msg))),
        None => Ok(()),
    }
}

} // verus!

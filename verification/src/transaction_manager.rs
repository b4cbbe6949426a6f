//! The transaction emulator.
//!
//! The host exposes no native multi-statement transaction, only an atomic
//! batch call. This emulator approximates single-level transactional grouping
//! by deferring queued statements until commit time, when the whole queue is
//! submitted as one atomic batch. Rollback discards the queue without
//! contacting the host: statements that were executed outside the queued path
//! are not undone. Depth is strictly zero or one; there is no nesting.

use vstd::prelude::*;
use crate::statement::RenderedStatement;
use crate::utils::{AdapterError, D1Error};

verus! {

/// The health of the transaction manager: valid, or poisoned by a failed
/// commit batch.
#[derive(Debug, Clone, Copy, PartialEq, Eq, Structural)]
pub enum TransactionStatus {
    Valid,
    InError,
}

/// The transaction emulator's whole state: the in-transaction flag, the
/// pending-statement queue, and the health status.
pub struct D1TransactionManager {
    /// Whether a transaction is open; depth is strictly zero or one.
    pub is_in_transaction: bool,
    /// The statements queued for the commit-time batch, in issue order.
    pub queue: Vec<RenderedStatement>,
    /// Poisoned exactly when a commit batch failed.
    pub status: TransactionStatus,
}

impl D1TransactionManager {
    /// A fresh manager: idle, empty queue, valid.
    pub fn new() -> (r: Self)
        ensures
            !r.is_in_transaction,
            r.queue@.len() == 0,
            r.status == TransactionStatus::Valid,
    {
        D1TransactionManager {
            is_in_transaction: false,
            queue: Vec::new(),
            status: TransactionStatus::Valid,
        }
    }

    /// Open a transaction: sets the flag and touches nothing else, the host
    /// included. Nested transactions are not supported; a second begin leaves
    /// the open transaction as it is.
    pub fn begin_transaction(&mut self) -> (r: Result<(), AdapterError>)
        ensures
            r is Ok,
            final(self).is_in_transaction,
            final(self).queue == old(self).queue,
            final(self).status == old(self).status,
    {
        self.is_in_transaction = true;
        Ok(())
    }

    /// Roll back: clear the flag and discard the queue without contacting the
    /// host. No compensating statements are issued, so effects of statements
    /// that ran outside the queued path are not undone; only queued,
    /// never-executed statements are discarded.
    pub fn rollback_transaction(&mut self) -> (r: Result<(), AdapterError>)
        ensures
            r is Ok,
            !final(self).is_in_transaction,
            final(self).queue@.len() == 0,
            final(self).status == old(self).status,
    {
        self.is_in_transaction = false;
        self.queue.clear();
        Ok(())
    }

    /// Queue one statement for the commit-time batch.
    pub fn queue_statement(&mut self, st: RenderedStatement)
        requires
            old(self).is_in_transaction,
        ensures
            final(self).is_in_transaction == old(self).is_in_transaction,
            final(self).queue@ == old(self).queue@.push(st),
            final(self).status == old(self).status,
    {
        self.queue.push(st);
    }

    /// Commit. Outside a transaction this is a state error. With an empty
    /// queue it is a no-op success that closes the transaction. Otherwise it
    /// hands back the whole queue, in order, to be submitted to the host as
    /// one atomic batch; the caller reports the batch's outcome through
    /// [`Self::finish_commit`], and the transaction stays open until then.
    pub fn commit_transaction(&mut self) -> (r: Result<
        Option<Vec<RenderedStatement>>,
        AdapterError,
    >)
        ensures
            match r {
                Ok(Some(stmts)) => {
                    &&& old(self).is_in_transaction
                    &&& old(self).queue@.len() > 0
                    &&& stmts@ == old(self).queue@
                    &&& final(self).is_in_transaction
                    &&& final(self).queue@.len() == 0
                    &&& final(self).status == old(self).status
                },
                Ok(None) => {
                    &&& old(self).is_in_transaction
                    &&& old(self).queue@.len() == 0
                    &&& !final(self).is_in_transaction
                    &&& final(self).queue@.len() == 0
                    &&& final(self).status == old(self).status
                },
                Err(e) => {
                    &&& !old(self).is_in_transaction
                    &&& e == AdapterError::TransactionState
                    &&& final(self).is_in_transaction == old(self).is_in_transaction
                    &&& final(self).queue == old(self).queue
                    &&& final(self).status == old(self).status
                },
            },
    {
        if !self.is_in_transaction {
            return Err(AdapterError::TransactionState);
        }
        if self.queue.len() == 0 {
            self.is_in_transaction = false;
            return Ok(None);
        }
        let mut stmts: Vec<RenderedStatement> = Vec::new();
        core::mem::swap(&mut stmts, &mut self.queue);
        Ok(Some(stmts))
    }

    /// Apply the host's verdict on the commit batch. Success closes the
    /// transaction. Failure also closes it, poisons the status, and surfaces
    /// the host's message as the commit's error.
    pub fn finish_commit(&mut self, batch_error: Option<String>) -> (r: Result<(), AdapterError>)
        requires
            old(self).is_in_transaction,
        ensures
            !final(self).is_in_transaction,
            final(self).queue == old(self).queue,
            match r {
                Ok(()) => {
                    &&& batch_error is None
                    &&& final(self).status == old(self).status
                },
                Err(e) => {
                    &&& batch_error matches Some(msg) && e == AdapterError::Host(
                        D1Error { message: msg },
                    )
                    &&& final(self).status == TransactionStatus::InError
                },
            },
    {
        self.is_in_transaction = false;
        match batch_error {
            None => Ok(()),
            Some(msg) => {
                self.status = TransactionStatus::InError;
                Err(AdapterError::Host(D1Error::new(msg)))
            },
        }
    }

    /// The current transaction status, as mutable: used to ensure operations
    /// are not run through a poisoned manager.
    pub fn transaction_manager_status_mut(&mut self) -> (r: &mut TransactionStatus)
        ensures
            *r == old(self).status,
            final(self).status == *final(r),
            final(self).is_in_transaction == old(self).is_in_transaction,
            final(self).queue == old(self).queue,
    {
        &mut self.status
    }
}

impl Default for D1TransactionManager {
    /// A fresh manager: idle, empty queue, valid.
    fn default() -> (r: Self)
        ensures
            !r.is_in_transaction,
            r.queue@.len() == 0,
            r.status == TransactionStatus::Valid,
    {
        D1TransactionManager::new()
    }
}

} // verus!

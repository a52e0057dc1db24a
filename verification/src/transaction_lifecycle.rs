//! The life of a transaction: it begins when it is first asked for, and it
//! ends once.
use vstd::prelude::*;
use crate::error::{schema_mismatch, EngineError, ErrorModel};

verus! {

/// Where a transaction stands.
#[derive(Clone, Copy, Debug, PartialEq, Eq, Structural)]
pub enum TransactionState {
    Uninitialized,
    Active,
    Committed,
    RolledBack,
}

/// A transaction, which is there exactly while it is active.
#[derive(Debug)]
pub enum TransactionLifecycle<TX> {
    Uninitialized,
    Active(TX),
    Committed,
    RolledBack,
}

/// Where a transaction stands.
pub open spec fn stands<TX>(t: TransactionLifecycle<TX>) -> TransactionState {
    match t {
        TransactionLifecycle::Uninitialized => TransactionState::Uninitialized,
        TransactionLifecycle::Active(_) => TransactionState::Active,
        TransactionLifecycle::Committed => TransactionState::Committed,
        TransactionLifecycle::RolledBack => TransactionState::RolledBack,
    }
}

/// The transaction, while it is active.
pub open spec fn held<TX>(t: TransactionLifecycle<TX>) -> Option<TX> {
    match t {
        TransactionLifecycle::Active(tx) => Some(tx),
        _ => None,
    }
}

/// The refusal of a transaction that has ended.
pub open spec fn finalized() -> ErrorModel {
    ErrorModel::SchemaMismatch("transaction already finalized"@)
}

impl<TX> TransactionLifecycle<TX> {
    pub fn new() -> (r: TransactionLifecycle<TX>)
        ensures
            r == TransactionLifecycle::<TX>::Uninitialized,
    {
        TransactionLifecycle::Uninitialized
    }

    /// Where the transaction stands.
    pub fn state(&self) -> (r: TransactionState)
        ensures
            r == stands(*self),
    {
        match self {
            TransactionLifecycle::Uninitialized => TransactionState::Uninitialized,
            TransactionLifecycle::Active(_) => TransactionState::Active,
            TransactionLifecycle::Committed => TransactionState::Committed,
            TransactionLifecycle::RolledBack => TransactionState::RolledBack,
        }
    }

    /// The active transaction. One that has not begun begins with what `begin`
    /// gives; one that has ended is refused.
    pub fn transaction<F: FnOnce() -> Result<TX, EngineError>>(&mut self, begin: F) -> (r: Result<
        &mut TX,
        EngineError,
    >)
        requires
            *old(self) is Uninitialized ==> call_requires(begin, ()),
        ensures
            match r {
                Ok(tx) => *final(self) == TransactionLifecycle::Active(*final(tx)) && match *old(
                    self
                ) {
                    TransactionLifecycle::Uninitialized => call_ensures(
                        begin,
                        (),
                        Ok::<TX, EngineError>(*tx),
                    ),
                    TransactionLifecycle::Active(held) => *tx == held,
                    _ => false,
                },
                Err(e) => *final(self) == *old(self) && match *old(self) {
                    TransactionLifecycle::Uninitialized => call_ensures(
                        begin,
                        (),
                        Err::<TX, EngineError>(e),
                    ),
                    TransactionLifecycle::Active(_) => false,
                    _ => e.deep_view() == finalized(),
                },
            },
    {
        match self {
            TransactionLifecycle::Uninitialized => match begin() {
                Ok(tx) => {
                    *self = TransactionLifecycle::Active(tx);
                },
                Err(e) => {
                    return Err(e);
                },
            },
            TransactionLifecycle::Active(_) => {},
            _ => {
                return Err(schema_mismatch("transaction already finalized"));
            },
        }
        match self {
            TransactionLifecycle::Active(tx) => Ok(tx),
            _ => Err(schema_mismatch("transaction missing while active")),
        }
    }

    /// Ends the transaction by commit: an active one is handed out.
    pub fn take_for_commit(&mut self) -> (r: Option<TX>)
        ensures
            r == held(*old(self)),
            *final(self) == match *old(self) {
                TransactionLifecycle::Active(_) => TransactionLifecycle::Committed,
                other => other,
            },
    {
        let mut taken: TransactionLifecycle<TX> = TransactionLifecycle::Committed;
        std::mem::swap(self, &mut taken);
        match taken {
            TransactionLifecycle::Active(tx) => Some(tx),
            other => {
                *self = other;
                None
            },
        }
    }

    /// Ends the transaction by rollback: an active one is handed out.
    pub fn take_for_rollback(&mut self) -> (r: Option<TX>)
        ensures
            r == held(*old(self)),
            *final(self) == match *old(self) {
                TransactionLifecycle::Active(_) => TransactionLifecycle::RolledBack,
                other => other,
            },
    {
        let mut taken: TransactionLifecycle<TX> = TransactionLifecycle::RolledBack;
        std::mem::swap(self, &mut taken);
        match taken {
            TransactionLifecycle::Active(tx) => Some(tx),
            other => {
                *self = other;
                None
            },
        }
    }
}

} // verus!

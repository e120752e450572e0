use vstd::prelude::*;

pub mod assoc;
pub mod call_stack;
pub mod ledger;
pub mod snapshot;
pub mod host;
pub mod invocation;

verus! {

/// Typed failures of the ledger, the call stack and invocation resolution.
#[derive(Debug, Clone, Copy, PartialEq, Eq, Structural)]
pub enum LedgerError {
    /// An operation referenced an address with no ledger entry.
    UnknownAddress,
    /// A debit exceeded the available balance.
    InsufficientFunds,
    /// A credit would push a balance past the largest representable amount.
    BalanceOverflow,
    /// A persisted snapshot exists but cannot be parsed.
    StoreCorrupt,
    /// Neither a module file nor bytecode on the ledger was available.
    NoModule,
    /// Mutually exclusive or malformed invocation options.
    InvalidInvocation,
    /// The execution engine reported a failure.
    ExecutionFailed,
}

} // verus!

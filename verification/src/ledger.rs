//! Calls to the ledgers: what to do after an attempt, what a reply to a
//! request for a new canister comes to, and the fixed values that the calls
//! use.
//!
//! The calls themselves, the waiting between attempts and the end of
//! patience are the caller's. What is decided here is what an attempt means.

use crate::error::Error;
use crate::permissions::Principal;
use vstd::prelude::*;

verus! {

/// Whether the cycles ledger is in use.
pub const CYCLES_LEDGER_ENABLED: bool = false;

/// The memo of a transfer that tops a canister up: `TPUP` in ASCII, read as
/// a number with the lowest byte first.
pub const MEMO_TOP_UP_CANISTER: u64 = 1347768404;

/// The fee of a transfer of ICP, in units of one hundred-millionth.
pub const ICP_TRANSACTION_FEE_E8S: u64 = 10000;

/// The principal of the cycles ledger.
pub fn cycles_ledger_canister_id() -> (id: Principal)
    ensures
        id@ == seq![0u8, 0u8, 0u8, 0u8, 2u8, 16u8, 0u8, 2u8, 1u8, 1u8],
{
    let bytes: [u8; 10] = [0u8, 0u8, 0u8, 0u8, 2u8, 16u8, 0u8, 2u8, 1u8, 1u8];
    assert(bytes@ =~= seq![0u8, 0u8, 0u8, 0u8, 2u8, 16u8, 0u8, 2u8, 1u8, 1u8]);
    Principal::from_slice(bytes.as_slice())
}

/// What one attempt of a call to a ledger came to.
pub enum Attempt<T> {
    /// The ledger did what was asked and names the block.
    Accepted(T),
    /// The ledger had done it before and names the block of that time.
    Duplicate(T),
    /// The ledger said no.
    Refused,
    /// The call did not get through; the transport says whether another
    /// attempt may.
    Failed { retryable: bool },
}

/// Why a call to a ledger is given up.
#[derive(Clone, Copy, Debug, PartialEq, Eq, Structural)]
pub enum LedgerFailure {
    /// The ledger said no.
    Refused,
    /// The call did not get through and will not.
    Unreachable,
    /// The call did not get through in the time allowed.
    TimedOut,
}

/// What to do after an attempt.
pub enum Next<T> {
    /// The call is done, with this block.
    Done(T),
    /// Wait and try again.
    Retry,
    /// Give up.
    GiveUp(LedgerFailure),
}

/// What to do after an attempt: a block that the ledger names, new or from
/// before, ends the call; a refusal ends it as a failure; a call that did
/// not get through is tried again only where the transport says it may.
pub fn after_attempt<T>(attempt: Attempt<T>) -> (next: Next<T>)
    ensures
        next == (match attempt {
            Attempt::Accepted(block) => Next::Done(block),
            Attempt::Duplicate(block) => Next::Done(block),
            Attempt::Refused => Next::GiveUp(LedgerFailure::Refused),
            Attempt::Failed { retryable } => if retryable {
                Next::Retry
            } else {
                Next::GiveUp(LedgerFailure::Unreachable)
            },
        }),
{
    match attempt {
        Attempt::Accepted(block) => Next::Done(block),
        Attempt::Duplicate(block) => Next::Done(block),
        Attempt::Refused => Next::GiveUp(LedgerFailure::Refused),
        Attempt::Failed { retryable } => if retryable {
            Next::Retry
        } else {
            Next::GiveUp(LedgerFailure::Unreachable)
        },
    }
}

/// What a call comes to when the time allowed for it is over after an
/// attempt: what the attempt decided, and a timeout where it had decided to
/// try again.
pub fn after_last_attempt<T>(attempt: Attempt<T>) -> (r: Result<T, LedgerFailure>)
    ensures
        r == (match attempt {
            Attempt::Accepted(block) => Ok::<T, LedgerFailure>(block),
            Attempt::Duplicate(block) => Ok::<T, LedgerFailure>(block),
            Attempt::Refused => Err::<T, LedgerFailure>(LedgerFailure::Refused),
            Attempt::Failed { retryable } => if retryable {
                Err::<T, LedgerFailure>(LedgerFailure::TimedOut)
            } else {
                Err::<T, LedgerFailure>(LedgerFailure::Unreachable)
            },
        }),
{
    match after_attempt(attempt) {
        Next::Done(block) => Ok(block),
        Next::Retry => Err(LedgerFailure::TimedOut),
        Next::GiveUp(failure) => Err(failure),
    }
}

impl LedgerFailure {
    /// The kind of error that the failure is reported as: a refusal means
    /// that the request was not one the ledger takes; anything else means
    /// that the ledger could not be had.
    pub fn kind(&self) -> (e: Error)
        ensures
            e == (match *self {
                LedgerFailure::Refused => Error::Malformed,
                _ => Error::Unavailable,
            }),
    {
        match self {
            LedgerFailure::Refused => Error::Malformed,
            _ => Error::Unavailable,
        }
    }
}

/// What the cycles ledger answers to a request for a new canister.
pub enum CreateReply<P> {
    /// The canister was created.
    Created(P),
    /// The request had been made before; the canister of that time, if the
    /// ledger knows it.
    Duplicate(Option<P>),
    /// The ledger said no.
    Failed,
}

/// Why a request for a new canister came to nothing.
#[derive(Clone, Copy, Debug, PartialEq, Eq, Structural)]
pub enum CreateFailure {
    /// The request had been made before, and the ledger does not name the
    /// canister.
    DuplicateWithoutCanister,
    /// The ledger said no.
    Refused,
}

/// The canister that a reply names: the one created, or the one of the
/// earlier request where the reply says that there was one.
pub fn created_canister<P>(reply: CreateReply<P>) -> (r: Result<P, CreateFailure>)
    ensures
        r == (match reply {
            CreateReply::Created(canister) => Ok::<P, CreateFailure>(canister),
            CreateReply::Duplicate(Some(canister)) => Ok::<P, CreateFailure>(canister),
            CreateReply::Duplicate(None) => Err::<P, CreateFailure>(
                CreateFailure::DuplicateWithoutCanister,
            ),
            CreateReply::Failed => Err::<P, CreateFailure>(CreateFailure::Refused),
        }),
{
    match reply {
        CreateReply::Created(canister) => Ok(canister),
        CreateReply::Duplicate(Some(canister)) => Ok(canister),
        CreateReply::Duplicate(None) => Err(CreateFailure::DuplicateWithoutCanister),
        CreateReply::Failed => Err(CreateFailure::Refused),
    }
}

/// The cycles that go with a request for a new canister: those asked for,
/// or the usual amount where none are.
pub fn creation_cycles(with_cycles: Option<u128>, usual: u128) -> (cycles: u128)
    ensures
        cycles == (match with_cycles {
            Some(c) => c,
            None => usual,
        }),
{
    match with_cycles {
        Some(c) => c,
        None => usual,
    }
}

/// The time that a request is stamped with: the one given, or now.
pub fn creation_time(created_at_time: Option<u64>, now: u64) -> (time: u64)
    ensures
        time == (match created_at_time {
            Some(t) => t,
            None => now,
        }),
{
    match created_at_time {
        Some(t) => t,
        None => now,
    }
}

/// A balance in units of one hundred-millionth of a token, as whole
/// thousandths of a token: what is left of it below a thousandth is cut
/// off.
pub fn thousandths(e8s: u64) -> (e3s: u64)
    ensures
        e3s == e8s / 100000,
{
    e8s / 100000
}

/// An amount of cycles as whole thousandths of a trillion cycles: what is
/// left of it below a thousandth is cut off.
pub fn cycles_in_thousandths(cycles: u128) -> (thousandths: u128)
    ensures
        thousandths == cycles / 1000000000,
{
    cycles / 1000000000
}

/// A size in bytes as whole thousandths of a megabyte: what is left of it
/// below a thousandth is cut off.
pub fn memory_in_thousandths(bytes: u128) -> (thousandths: u128)
    ensures
        thousandths == bytes / 1000,
{
    bytes / 1000
}

} // verus!

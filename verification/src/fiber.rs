//! The decisions of blocking on a future from inside an async EVM fiber.
//!
//! Synchronous EVM code running on a native fiber waits for an async host operation by polling
//! its future; when the future is pending, the fiber suspends and the outer async execution
//! returns pending. The fiber machinery itself (stacks, context switches, the executor) lives
//! with the caller; this module decides, at each step, whether to poll, return, suspend or fail.

use vstd::prelude::*;
use core::convert::Infallible;

verus! {

/// Error returned by async EVM execution helpers.
#[derive(Debug)]
pub enum AsyncError<E> {
    /// The async EVM fiber was cancelled before execution completed.
    Cancelled,
    /// An async host operation was called outside an async EVM fiber.
    NotOnFiber,
    /// Blocking async I/O was requested outside a supported runtime.
    Runtime,
    /// Async fiber stack setup failed; the message of the I/O error.
    Io(String),
    /// The wrapped operation returned an error.
    Inner(E),
}

impl AsyncError<Infallible> {
    /// The same error, for an operation with inner error type `E`.
    pub fn with_inner_error<E>(self) -> (r: AsyncError<E>)
        requires
            !(self is Inner),
        ensures
            self is Cancelled <==> r is Cancelled,
            self is NotOnFiber <==> r is NotOnFiber,
            self is Runtime <==> r is Runtime,
            self is Io <==> r is Io,
            self matches AsyncError::Io(m) ==> r matches AsyncError::Io(n) && n@ == m@,
            !(r is Inner),
    {
        match self {
            AsyncError::Cancelled => AsyncError::Cancelled,
            AsyncError::NotOnFiber => AsyncError::NotOnFiber,
            AsyncError::Runtime => AsyncError::Runtime,
            AsyncError::Io(message) => AsyncError::Io(message),
            AsyncError::Inner(_) => {
                proof {
                    assert(false);
                }
                AsyncError::Runtime
            },
        }
    }
}

/// The fiber that the current EVM execution runs on.
pub struct CurrentFiber {
    cancelled: bool,
}

impl CurrentFiber {
    /// Whether the outer async execution was dropped.
    pub closed spec fn spec_cancelled(&self) -> bool {
        self.cancelled
    }

    /// A running fiber that has not been cancelled.
    pub fn new() -> (r: CurrentFiber)
        ensures
            !r.spec_cancelled(),
    {
        CurrentFiber { cancelled: false }
    }

    /// Whether the outer async execution was dropped.
    pub fn is_cancelled(&self) -> (r: bool)
        ensures
            r == self.spec_cancelled(),
    {
        self.cancelled
    }

    /// Records how a suspension ended: a fiber whose resumption failed is cancelled, and the
    /// failure is passed on.
    pub fn suspend(&mut self, resumed: Result<(), AsyncError<Infallible>>) -> (r: Result<(), AsyncError<Infallible>>)
        ensures
            resumed is Ok ==> r is Ok && final(self).spec_cancelled() == old(self).spec_cancelled(),
            resumed is Err ==> final(self).spec_cancelled() && r == resumed,
    {
        match resumed {
            Ok(()) => Ok(()),
            Err(error) => {
                self.cancelled = true;
                Err(error)
            },
        }
    }
}

/// What [`block_on_current`] does after polling the future.
pub enum BlockOnStep<T> {
    /// The future completed with this value.
    Return(T),
    /// The future is pending: suspend the fiber, then poll again.
    Suspend,
}

/// Decides whether the future may be polled now: not outside a fiber, and not on a cancelled
/// one.
pub fn block_on_current(current: Option<&CurrentFiber>) -> (r: Result<(), AsyncError<Infallible>>)
    ensures
        current is None ==> r matches Err(AsyncError::NotOnFiber),
        current matches Some(f) ==> (f.spec_cancelled() ==> r matches Err(AsyncError::Cancelled)),
        current matches Some(f) ==> (!f.spec_cancelled() ==> r is Ok),
{
    match current {
        None => Err(AsyncError::NotOnFiber),
        Some(fiber) => {
            if fiber.is_cancelled() {
                Err(AsyncError::Cancelled)
            } else {
                Ok(())
            }
        },
    }
}

/// Decides what follows a poll: a ready value is returned, a pending future suspends.
pub fn block_on_after_poll<T>(poll: Option<T>) -> (r: BlockOnStep<T>)
    ensures
        poll matches Some(v) ==> r matches BlockOnStep::Return(w) && w == v,
        poll is None ==> r is Suspend,
{
    match poll {
        Some(v) => BlockOnStep::Return(v),
        None => BlockOnStep::Suspend,
    }
}

} // verus!

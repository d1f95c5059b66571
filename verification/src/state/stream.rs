//! Streaming of state changes to consumers.
//!
//! A [`StateChangeSink`] consumes the parts of a transition one at a time: bytecode by hash,
//! storage wipes, slot changes and account changes. Each sink states, through
//! [`StateChangeSink::handles`], what handing it a change may leave it as and answer; a
//! [`StateChangeSource`] states the changes it hands out, in order, and its `visit` is held to
//! that sequence: every change is handed to the sink in turn until the first error.

use vstd::prelude::*;
use core::convert::Infallible;
use crate::bytecode::Bytecode;
use crate::primitives::{Address, B256, Word};
use crate::state::AccountInfo;

verus! {

/// An account change passed to a sink.
#[derive(Clone, Copy, Debug, PartialEq, Eq, Structural)]
pub struct AccountChangeRef {
    /// Account address.
    pub address: Address,
    /// The account before; `None`: it did not exist.
    pub original: Option<AccountInfo>,
    /// The account after; `None` is an explicit deletion.
    pub current: Option<AccountInfo>,
}

impl AccountChangeRef {
    /// Whether the change creates the account.
    pub fn created(&self) -> (r: bool)
        ensures
            r == (self.original is None && self.current is Some),
    {
        self.original.is_none() && self.current.is_some()
    }

    /// Whether the change deletes the account.
    pub fn deleted(&self) -> (r: bool)
        ensures
            r == (self.original is Some && self.current is None),
    {
        self.original.is_some() && self.current.is_none()
    }
}

/// A storage slot change passed to a sink.
#[derive(Clone, Copy, Debug, PartialEq, Eq, Structural)]
pub struct StorageChange {
    pub address: Address,
    pub key: Word,
    pub original: Word,
    pub current: Word,
}

/// One change handed to a sink.
pub enum SinkEvent {
    /// Bytecode by its hash.
    Bytecode { code_hash: B256, code: Seq<u8> },
    /// An account change.
    Account { change: AccountChangeRef },
    /// A storage wipe of an account.
    StorageWipe { address: Address },
    /// A storage slot change.
    Storage { change: StorageChange },
}

/// A consumer of state changes.
pub trait StateChangeSink: Sized {
    /// Error returned by this sink.
    type Error;

    /// Whether the sink, handed `event` while it is `self`, may become `next` and answer `r`.
    /// Each sink of this library defines it exactly; a sink that does not claims nothing.
    open spec fn handles(&self, event: SinkEvent, next: Self, r: Result<(), Self::Error>) -> bool {
        true
    }

    /// Observes bytecode by code hash.
    fn bytecode(&mut self, code_hash: B256, code: &Bytecode) -> (r: Result<(), Self::Error>)
        ensures
            old(self).handles(SinkEvent::Bytecode { code_hash, code: code.bytes@ }, *final(self), r),
    ;

    /// Observes an account change.
    fn account(&mut self, change: AccountChangeRef) -> (r: Result<(), Self::Error>)
        ensures
            old(self).handles(SinkEvent::Account { change }, *final(self), r),
    ;

    /// Observes a storage wipe of an account, before any of its slot changes.
    fn storage_wipe(&mut self, address: Address) -> (r: Result<(), Self::Error>)
        ensures
            old(self).handles(SinkEvent::StorageWipe { address }, *final(self), r),
    ;

    /// Observes a storage slot change.
    fn storage(&mut self, change: StorageChange) -> (r: Result<(), Self::Error>)
        ensures
            old(self).handles(SinkEvent::Storage { change }, *final(self), r),
    ;
}

/// Handing `events` in order to a sink that is `s0` may leave it as `s1` with every change
/// accepted: there are states `trace[0] == s0, ..., trace[n] == s1` with each `trace[i + 1]` and
/// an `Ok` answer a possible outcome of handing `events[i]` to `trace[i]`.
pub open spec fn runs_ok<S: StateChangeSink>(s0: S, events: Seq<SinkEvent>, s1: S) -> bool {
    exists|trace: Seq<S>, answers: Seq<Result<(), S::Error>>| #[trigger] accepted_trace(s0, events, s1, trace, answers)
}

/// `trace` and `answers` witness [`runs_ok`].
pub open spec fn accepted_trace<S: StateChangeSink>(
    s0: S,
    events: Seq<SinkEvent>,
    s1: S,
    trace: Seq<S>,
    answers: Seq<Result<(), S::Error>>,
) -> bool {
    &&& trace.len() == events.len() + 1
    &&& answers.len() == events.len()
    &&& trace[0] == s0
    &&& trace.last() == s1
    &&& forall|i: int| 0 <= i < events.len() ==> #[trigger] accepted_at(events, trace, answers, i)
}

/// The sink, as `trace[i]`, accepts `events[i]` with answer `answers[i]` and becomes
/// `trace[i + 1]`.
pub open spec fn accepted_at<S: StateChangeSink>(
    events: Seq<SinkEvent>,
    trace: Seq<S>,
    answers: Seq<Result<(), S::Error>>,
    i: int,
) -> bool {
    answers[i] is Ok && trace[i].handles(events[i], trace[i + 1], answers[i])
}

/// Handing `events` in order to a sink that is `s0`, stopping at the first error, may leave it
/// as `s1` with result `r`: `Ok` when every change was accepted, else the error of the first
/// change refused.
pub open spec fn runs<S: StateChangeSink>(s0: S, events: Seq<SinkEvent>, s1: S, r: Result<(), S::Error>) -> bool {
    match r {
        Ok(_) => runs_ok(s0, events, s1),
        Err(_) => exists|k: int, mid: S|
            0 <= k < events.len() && #[trigger] runs_ok(s0, events.take(k), mid) && mid.handles(
                events[k],
                s1,
                r,
            ),
    }
}

/// Accepting one more change extends an accepted run.
pub proof fn lemma_runs_ok_push<S: StateChangeSink>(
    s0: S,
    done: Seq<SinkEvent>,
    mid: S,
    e: SinkEvent,
    s1: S,
    r: Result<(), S::Error>,
)
    requires
        runs_ok(s0, done, mid),
        r is Ok,
        mid.handles(e, s1, r),
    ensures
        runs_ok(s0, done.push(e), s1),
{
    let (trace, answers) = choose|trace: Seq<S>, answers: Seq<Result<(), S::Error>>|
        accepted_trace(s0, done, mid, trace, answers);
    let t2 = trace.push(s1);
    let a2 = answers.push(r);
    let q = done.push(e);
    assert forall|i: int| 0 <= i < q.len() implies #[trigger] accepted_at(q, t2, a2, i) by {
        if i < done.len() {
            assert(t2[i] == trace[i] && t2[i + 1] == trace[i + 1] && q[i] == done[i] && a2[i] == answers[i]);
            assert(accepted_at(done, trace, answers, i));
        } else {
            assert(t2[i] == mid && t2[i + 1] == s1 && q[i] == e);
        }
    }
    assert(t2[0] == trace[0]);
    assert(t2.last() == s1);
    assert(accepted_trace(s0, q, s1, t2, a2));
}

/// Handing nothing leaves the sink as it was.
pub proof fn lemma_runs_ok_empty<S: StateChangeSink>(s0: S)
    ensures
        runs_ok(s0, Seq::<SinkEvent>::empty(), s0),
{
    assert(accepted_trace(s0, Seq::<SinkEvent>::empty(), s0, seq![s0], Seq::<Result<(), S::Error>>::empty()));
}

/// Handing a sink no change answers `Ok` and leaves the sink as it was.
pub proof fn law_empty_run_is_ok<S: StateChangeSink>(s0: S, s1: S, r: Result<(), S::Error>)
    requires
        runs(s0, Seq::<SinkEvent>::empty(), s1, r),
    ensures
        r is Ok,
        s1 == s0,
{
    if r is Ok {
        let (trace, answers) = choose|trace: Seq<S>, answers: Seq<Result<(), S::Error>>|
            #[trigger] accepted_trace(s0, Seq::<SinkEvent>::empty(), s1, trace, answers);
        assert(trace.len() == 1);
    }
}

/// A refusal after an accepted run that is a prefix of `events` ends a run of `events`.
pub proof fn lemma_runs_err<S: StateChangeSink>(
    s0: S,
    events: Seq<SinkEvent>,
    done: Seq<SinkEvent>,
    mid: S,
    e: SinkEvent,
    s1: S,
    r: Result<(), S::Error>,
)
    requires
        runs_ok(s0, done, mid),
        r is Err,
        mid.handles(e, s1, r),
        done.len() < events.len(),
        events.take(done.len() as int) == done,
        events[done.len() as int] == e,
    ensures
        runs(s0, events, s1, r),
{
    let k = done.len() as int;
    assert(runs_ok(s0, events.take(k), mid));
}

/// The changes `g` gives for each element of `q`, one element after another.
pub open spec fn flat<A>(q: Seq<A>, g: spec_fn(A) -> Seq<SinkEvent>) -> Seq<SinkEvent>
    decreases q.len(),
{
    if q.len() == 0 {
        Seq::empty()
    } else {
        flat(q.drop_last(), g) + g(q.last())
    }
}

/// `a` is a prefix of `b`.
pub open spec fn is_prefix(a: Seq<SinkEvent>, b: Seq<SinkEvent>) -> bool {
    a.len() <= b.len() && b.take(a.len() as int) == a
}

/// Taking one more element adds its changes.
pub proof fn lemma_flat_step<A>(q: Seq<A>, g: spec_fn(A) -> Seq<SinkEvent>, i: int)
    requires
        0 <= i < q.len(),
    ensures
        flat(q.take(i + 1), g) == flat(q.take(i), g) + g(q[i]),
{
    assert(q.take(i + 1).drop_last() =~= q.take(i));
}

/// The changes of a prefix of `q` begin the changes of `q`.
pub proof fn lemma_flat_prefix<A>(q: Seq<A>, g: spec_fn(A) -> Seq<SinkEvent>, i: int)
    requires
        0 <= i <= q.len(),
    ensures
        is_prefix(flat(q.take(i), g), flat(q, g)),
    decreases q.len() - i,
{
    if i == q.len() {
        assert(q.take(i) =~= q);
        assert(flat(q, g).take(flat(q, g).len() as int) =~= flat(q, g));
    } else {
        lemma_flat_prefix(q, g, i + 1);
        lemma_flat_step(q, g, i);
        let a = flat(q.take(i), g);
        let b = flat(q.take(i + 1), g);
        let c = flat(q, g);
        assert(c.take(a.len() as int) =~= b.take(a.len() as int));
        assert(b.take(a.len() as int) =~= a);
    }
}

/// Prefixes compose.
pub proof fn lemma_prefix_trans(a: Seq<SinkEvent>, b: Seq<SinkEvent>, c: Seq<SinkEvent>)
    requires
        is_prefix(a, b),
        is_prefix(b, c),
    ensures
        is_prefix(a, c),
{
    assert(c.take(a.len() as int) =~= c.take(b.len() as int).take(a.len() as int));
}

/// A prefix stays a prefix behind a common head and before any tail.
pub proof fn lemma_prefix_within(pre: Seq<SinkEvent>, p: Seq<SinkEvent>, whole: Seq<SinkEvent>, post: Seq<SinkEvent>)
    requires
        is_prefix(p, whole),
    ensures
        is_prefix(pre + p, pre + whole + post),
{
    let big = pre + whole + post;
    assert(big.take((pre + p).len() as int) =~= pre + p) by {
        assert forall|i: int| 0 <= i < (pre + p).len() implies big[i] == (pre + p)[i] by {
            if i >= pre.len() {
                assert(whole.take(p.len() as int)[i - pre.len()] == p[i - pre.len()]);
            }
        }
    }
}

/// A prefix of `events` followed by the next change, when a longer prefix, gives the position
/// of that change.
pub proof fn lemma_prefix_next(done: Seq<SinkEvent>, e: SinkEvent, events: Seq<SinkEvent>)
    requires
        is_prefix(done.push(e), events),
    ensures
        done.len() < events.len(),
        events.take(done.len() as int) == done,
        events[done.len() as int] == e,
{
    assert(events.take(done.len() as int) =~= done.push(e).take(done.len() as int));
    assert(done.push(e).take(done.len() as int) =~= done);
    assert(events.take(done.len() + 1 as int)[done.len() as int] == e);
}

/// A list is a prefix of itself followed by more.
pub proof fn lemma_prefix_of_concat(x: Seq<SinkEvent>, y: Seq<SinkEvent>)
    ensures
        is_prefix(x, x + y),
{
    assert((x + y).take(x.len() as int) =~= x);
}

/// One step of a visit: after an accepted run that is a prefix of `events`, the sink handles
/// the next change of `events`; an acceptance extends the run, a refusal ends the run of
/// `events`.
pub proof fn lemma_visit_step<S: StateChangeSink>(
    s0: S,
    done: Seq<SinkEvent>,
    mid: S,
    e: SinkEvent,
    s1: S,
    r: Result<(), S::Error>,
    events: Seq<SinkEvent>,
)
    requires
        runs_ok(s0, done, mid),
        mid.handles(e, s1, r),
        is_prefix(done.push(e), events),
    ensures
        r is Ok ==> runs_ok(s0, done.push(e), s1),
        r is Err ==> runs(s0, events, s1, r),
{
    lemma_prefix_next(done, e, events);
    if r is Ok {
        lemma_runs_ok_push(s0, done, mid, e, s1, r);
    } else {
        lemma_runs_err(s0, events, done, mid, e, s1, r);
    }
}

/// A source of state changes, visited in a deterministic application order.
pub trait StateChangeSource {
    /// The changes the source hands out, in order.
    spec fn events(&self) -> Seq<SinkEvent>;

    /// Hands every change to `sink` in the order of [`StateChangeSource::events`]; stops at the
    /// first error the sink returns, and returns it.
    fn visit<S: StateChangeSink>(&self, sink: &mut S) -> (r: Result<(), S::Error>)
        ensures
            runs(*old(sink), self.events(), *final(sink), r),
    ;
}

/// A sink that ignores all changes.
pub struct NoopChangeSink {
    unit: (),
}

impl NoopChangeSink {
    /// A new ignoring sink.
    pub fn new() -> (r: NoopChangeSink) {
        NoopChangeSink { unit: () }
    }
}

impl StateChangeSink for NoopChangeSink {
    type Error = Infallible;

    open spec fn handles(&self, event: SinkEvent, next: Self, r: Result<(), Infallible>) -> bool {
        r is Ok && next == *self
    }

    fn bytecode(&mut self, code_hash: B256, code: &Bytecode) -> (r: Result<(), Infallible>) {
        Ok(())
    }

    fn account(&mut self, change: AccountChangeRef) -> (r: Result<(), Infallible>) {
        Ok(())
    }

    fn storage_wipe(&mut self, address: Address) -> (r: Result<(), Infallible>) {
        Ok(())
    }

    fn storage(&mut self, change: StorageChange) -> (r: Result<(), Infallible>) {
        Ok(())
    }
}

/// A sink that forwards each change to two sinks, the first one first; a failure of the first
/// stops the change from reaching the second.
pub struct Tee<A, B> {
    a: A,
    b: B,
}

impl<A, B> Tee<A, B> {
    /// The first sink.
    pub closed spec fn first(&self) -> A {
        self.a
    }

    /// The second sink.
    pub closed spec fn second(&self) -> B {
        self.b
    }

    /// A tee over `a` and `b`.
    pub fn new(a: A, b: B) -> (r: Tee<A, B>)
        ensures
            r.first() == a,
            r.second() == b,
    {
        Tee { a, b }
    }

    /// Splits the tee into its two sinks.
    pub fn into_parts(self) -> (r: (A, B))
        ensures
            r == (self.first(), self.second()),
    {
        (self.a, self.b)
    }
}

impl<E, A: StateChangeSink<Error = E>, B: StateChangeSink<Error = E>> StateChangeSink for Tee<A, B> {
    type Error = E;

    /// The first sink handles the change; when it accepts, the second sink handles it too and
    /// its answer is the answer; when it refuses, its error is the answer and the second sink is
    /// left as it was.
    open spec fn handles(&self, event: SinkEvent, next: Self, r: Result<(), E>) -> bool {
        exists|ra: Result<(), E>|
            #[trigger] self.first().handles(event, next.first(), ra) && match ra {
                Ok(_) => self.second().handles(event, next.second(), r),
                Err(_) => r == ra && next.second() == self.second(),
            }
    }

    fn bytecode(&mut self, code_hash: B256, code: &Bytecode) -> (r: Result<(), E>) {
        let ghost event = SinkEvent::Bytecode { code_hash, code: code.bytes@ };
        let ra = self.a.bytecode(code_hash, code);
        proof {
            assert(old(self).first().handles(event, self.first(), ra));
        }
        match ra {
            Ok(()) => {
                let ghost b0 = self.second();
                let ghost a1 = self.first();
                let rb = self.b.bytecode(code_hash, code);
                proof {
                    assert(b0.handles(event, self.second(), rb));
                    assert(self.first() == a1);
                }
                rb
            },
            Err(e) => Err(e),
        }
    }

    fn account(&mut self, change: AccountChangeRef) -> (r: Result<(), E>) {
        let ghost event = SinkEvent::Account { change };
        let ra = self.a.account(change);
        proof {
            assert(old(self).first().handles(event, self.first(), ra));
        }
        match ra {
            Ok(()) => {
                let ghost b0 = self.second();
                let ghost a1 = self.first();
                let rb = self.b.account(change);
                proof {
                    assert(b0.handles(event, self.second(), rb));
                    assert(self.first() == a1);
                }
                rb
            },
            Err(e) => Err(e),
        }
    }

    fn storage_wipe(&mut self, address: Address) -> (r: Result<(), E>) {
        let ghost event = SinkEvent::StorageWipe { address };
        let ra = self.a.storage_wipe(address);
        proof {
            assert(old(self).first().handles(event, self.first(), ra));
        }
        match ra {
            Ok(()) => {
                let ghost b0 = self.second();
                let ghost a1 = self.first();
                let rb = self.b.storage_wipe(address);
                proof {
                    assert(b0.handles(event, self.second(), rb));
                    assert(self.first() == a1);
                }
                rb
            },
            Err(e) => Err(e),
        }
    }

    fn storage(&mut self, change: StorageChange) -> (r: Result<(), E>) {
        let ghost event = SinkEvent::Storage { change };
        let ra = self.a.storage(change);
        proof {
            assert(old(self).first().handles(event, self.first(), ra));
        }
        match ra {
            Ok(()) => {
                let ghost b0 = self.second();
                let ghost a1 = self.first();
                let rb = self.b.storage(change);
                proof {
                    assert(b0.handles(event, self.second(), rb));
                    assert(self.first() == a1);
                }
                rb
            },
            Err(e) => Err(e),
        }
    }
}

} // verus!

//! Connecting to a worker, with a rest after every attempt that failed.

use crate::mapreduce::error::Error;
use vstd::arithmetic::power::{lemma_pow_increases, lemma_pow_positive, pow};
use vstd::prelude::*;

verus! {

/// How many milliseconds the first rest takes, and how many times longer than the one
/// before each later rest takes.
pub const RETRY_BASE_MILLIS: u64 = 10;

/// How many attempts are made.
pub const RETRY_LIMIT: usize = 5;

/// What happened last.
#[derive(Debug, Clone, Copy, PartialEq, Eq, Structural)]
pub enum ConnectEvent {
    /// Nothing yet.
    Started,
    /// The attempt succeeded.
    Connected,
    /// The attempt failed.
    Refused,
    /// The rest after a failed attempt is over.
    Rested,
}

/// What is to be done next.
#[derive(Debug, Clone, Copy, PartialEq, Eq, Structural)]
pub enum ConnectAction {
    /// Try to connect.
    Connect,
    /// Rest for so many milliseconds.
    Rest(u64),
    /// Use the connection.
    Proceed,
    /// Report the error.
    Fail(Error),
}

/// How many milliseconds the rest after so many attempts takes: it grows by the same factor
/// with every attempt, up to the greatest number there is.
pub open spec fn rest_after(attempts: nat) -> u64 {
    let millis = pow(RETRY_BASE_MILLIS as int, attempts);
    if millis <= u64::MAX {
        millis as u64
    } else {
        u64::MAX
    }
}

/// The number of attempts after `event`, and what is to be done next.
pub open spec fn after_event(attempts: nat, event: ConnectEvent) -> (nat, ConnectAction) {
    match event {
        ConnectEvent::Started | ConnectEvent::Rested => if attempts < RETRY_LIMIT {
            (attempts + 1, ConnectAction::Connect)
        } else {
            (attempts, ConnectAction::Fail(Error::NoResponse))
        },
        ConnectEvent::Connected => (attempts, ConnectAction::Proceed),
        ConnectEvent::Refused => (attempts, ConnectAction::Rest(rest_after(attempts))),
    }
}

/// How many milliseconds the rest after so many attempts takes.
pub fn rest_millis(attempts: usize) -> (r: u64)
    ensures
        r == rest_after(attempts as nat),
{
    proof {
        reveal(pow);
    }
    let mut millis: u64 = 1;
    for i in 0..attempts
        invariant
            millis == pow(RETRY_BASE_MILLIS as int, i as nat),
    {
        proof {
            reveal(pow);
        }
        match millis.checked_mul(RETRY_BASE_MILLIS) {
            Some(longer) => {
                millis = longer;
            },
            None => {
                proof {
                    lemma_pow_increases(
                        RETRY_BASE_MILLIS as nat,
                        (i + 1) as nat,
                        attempts as nat,
                    );
                }
                return u64::MAX;
            },
        }
    }
    millis
}

/// The attempts to connect to one worker.
pub struct Connecting {
    attempts: usize,
}

impl View for Connecting {
    type V = nat;

    /// How many attempts were made.
    closed spec fn view(&self) -> nat {
        self.attempts as nat
    }
}

impl Connecting {
    /// No attempt has been made yet.
    pub fn new() -> (r: Self)
        ensures
            r@ == 0,
    {
        Connecting { attempts: 0 }
    }

    /// Takes in what happened, and says what is to be done next.
    pub fn step(&mut self, event: ConnectEvent) -> (r: ConnectAction)
        ensures
            (final(self)@, r) == after_event(old(self)@, event),
    {
        match event {
            ConnectEvent::Started | ConnectEvent::Rested => {
                if self.attempts < RETRY_LIMIT {
                    self.attempts = self.attempts + 1;
                    ConnectAction::Connect
                } else {
                    ConnectAction::Fail(Error::NoResponse)
                }
            },
            ConnectEvent::Connected => ConnectAction::Proceed,
            ConnectEvent::Refused => ConnectAction::Rest(rest_millis(self.attempts)),
        }
    }
}

/// The number of attempts when the first `n` of them have been refused and rested after.
pub open spec fn attempts_after_refusals(n: nat) -> nat
    decreases n,
{
    if n == 0 {
        0
    } else {
        let before = attempts_after_refusals((n - 1) as nat);
        let started = after_event(
            before,
            if n == 1 { ConnectEvent::Started } else { ConnectEvent::Rested },
        ).0;
        after_event(started, ConnectEvent::Refused).0
    }
}

/// A worker that refuses every attempt is tried exactly as often as the limit says, each
/// attempt is followed by a rest, and then there is no response.
pub proof fn law_attempts_are_limited(n: nat)
    requires
        n <= RETRY_LIMIT,
    ensures
        attempts_after_refusals(n) == n,
        ({
            let event = if n == 0 { ConnectEvent::Started } else { ConnectEvent::Rested };
            let (attempts, action) = after_event(attempts_after_refusals(n), event);
            &&& n < RETRY_LIMIT ==> action == ConnectAction::Connect
            &&& n == RETRY_LIMIT ==> action == ConnectAction::Fail(Error::NoResponse)
            &&& after_event(attempts, ConnectEvent::Refused).1 == ConnectAction::Rest(
                rest_after(attempts),
            )
            &&& after_event(attempts, ConnectEvent::Connected).1 == ConnectAction::Proceed
        }),
    decreases n,
{
    if n > 0 {
        law_attempts_are_limited((n - 1) as nat);
    }
}

/// The first rest takes as long as the base says, and each later one the base times as long
/// as the one before, or as long as can be said.
pub proof fn law_rests_grow(attempts: nat)
    ensures
        rest_after(1) == RETRY_BASE_MILLIS,
        rest_after(attempts + 1) == if rest_after(attempts) * RETRY_BASE_MILLIS <= u64::MAX {
            (rest_after(attempts) * RETRY_BASE_MILLIS) as u64
        } else {
            u64::MAX
        },
{
    reveal_with_fuel(pow, 2);
    lemma_pow_positive(RETRY_BASE_MILLIS as int, attempts);
}

/// An attempt is made at the start and after every rest, until as many were made as the
/// limit says; a refusal makes it rest, and a connection is used at once, however many
/// attempts it took.
pub proof fn law_every_event_is_answered(attempts: nat)
    ensures
        attempts < RETRY_LIMIT ==> {
            &&& after_event(attempts, ConnectEvent::Started) == (
                attempts + 1,
                ConnectAction::Connect,
            )
            &&& after_event(attempts, ConnectEvent::Rested) == (
                attempts + 1,
                ConnectAction::Connect,
            )
        },
        attempts >= RETRY_LIMIT ==> {
            &&& after_event(attempts, ConnectEvent::Started) == (
                attempts,
                ConnectAction::Fail(Error::NoResponse),
            )
            &&& after_event(attempts, ConnectEvent::Rested) == (
                attempts,
                ConnectAction::Fail(Error::NoResponse),
            )
        },
        after_event(attempts, ConnectEvent::Connected) == (attempts, ConnectAction::Proceed),
        after_event(attempts, ConnectEvent::Refused).0 == attempts,
        after_event(attempts, ConnectEvent::Refused).1 matches ConnectAction::Rest(millis)
            && millis == rest_after(attempts),
{
}

} // verus!

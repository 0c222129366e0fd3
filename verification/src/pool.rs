//! The session pool and its round-robin dispatcher.
//!
//! A pool holds a fixed, non-empty sequence of interchangeable model sessions
//! and a counter. Every request draws the next ticket from the counter and is
//! served by the session at `ticket mod N`.

use crate::error::InitError;
use std::sync::atomic::AtomicUsize;
use std::sync::atomic::Ordering;
use vstd::arithmetic::div_mod::lemma_fundamental_div_mod;
use vstd::arithmetic::div_mod::lemma_fundamental_div_mod_converse;
use vstd::prelude::*;

verus! {

/// Number of sessions that a pool has unless told otherwise.
pub const DEFAULT_SESSIONS: usize = 16;

/// The session that serves the request holding `ticket`, in a pool of
/// `sessions` sessions.
pub open spec fn session_slot(ticket: nat, sessions: nat) -> nat
    recommends
        sessions >= 1,
{
    ticket % sessions
}

/// How many of the `requests` consecutive tickets from `start` on are served
/// by session `slot`.
pub open spec fn hits(start: nat, requests: nat, sessions: nat, slot: nat) -> nat
    decreases requests,
{
    if requests == 0 {
        0
    } else {
        let earlier = hits(start, (requests - 1) as nat, sessions, slot);
        if session_slot((start + requests - 1) as nat, sessions) == slot {
            earlier + 1
        } else {
            earlier
        }
    }
}

/// `requests / sessions`, rounded down.
pub open spec fn share_floor(requests: nat, sessions: nat) -> nat
    recommends
        sessions >= 1,
{
    requests / sessions
}

/// `requests / sessions`, rounded up.
pub open spec fn share_ceil(requests: nat, sessions: nat) -> nat
    recommends
        sessions >= 1,
{
    ((requests + sessions - 1) / (sessions as int)) as nat
}

/// How many tickets below `bound` are served by session `slot`.
spec fn hits_below(bound: nat, sessions: nat, slot: nat) -> int {
    (bound + sessions - 1 - slot) / (sessions as int)
}

proof fn lemma_hits_below_step(ticket: nat, sessions: nat, slot: nat)
    requires
        sessions >= 1,
        slot < sessions,
    ensures
        hits_below(ticket + 1, sessions, slot) == hits_below(ticket, sessions, slot) + if session_slot(
            ticket,
            sessions,
        ) == slot {
            1int
        } else {
            0int
        },
{
    let n = sessions as int;
    let q = ticket as int / n;
    let r = ticket as int % n;
    lemma_fundamental_div_mod(ticket as int, n);
    assert(ticket == n * q + r);
    assert(n * q == q * n) by (nonlinear_arith);
    assert(n * (q + 1) == q * n + n) by (nonlinear_arith);
    assert((q + 1) * n == q * n + n) by (nonlinear_arith);
    let lower = ticket + n - 1 - slot;
    let upper = ticket + n - slot;
    if r > slot {
        lemma_fundamental_div_mod_converse(lower, n, q + 1, r - slot - 1);
        lemma_fundamental_div_mod_converse(upper, n, q + 1, r - slot);
    } else if r == slot {
        lemma_fundamental_div_mod_converse(lower, n, q, n - 1);
        lemma_fundamental_div_mod_converse(upper, n, q + 1, 0);
    } else {
        lemma_fundamental_div_mod_converse(lower, n, q, n + r - slot - 1);
        lemma_fundamental_div_mod_converse(upper, n, q, n + r - slot);
    }
}

proof fn lemma_hits_closed_form(start: nat, requests: nat, sessions: nat, slot: nat)
    requires
        sessions >= 1,
        slot < sessions,
    ensures
        hits(start, requests, sessions, slot) == hits_below(start + requests, sessions, slot)
            - hits_below(start, sessions, slot),
    decreases requests,
{
    if requests > 0 {
        lemma_hits_closed_form(start, (requests - 1) as nat, sessions, slot);
        lemma_hits_below_step((start + requests - 1) as nat, sessions, slot);
    }
}

/// Over any run of consecutive tickets every session is hit either the
/// rounded-down or the rounded-up share of the requests.
pub proof fn lemma_every_session_gets_its_share(
    start: nat,
    requests: nat,
    sessions: nat,
    slot: nat,
)
    requires
        sessions >= 1,
        slot < sessions,
    ensures
        share_floor(requests, sessions) <= hits(start, requests, sessions, slot) <= share_ceil(
            requests,
            sessions,
        ),
{
    lemma_hits_closed_form(start, requests, sessions, slot);
    let n = sessions as int;
    let base = start + n - 1 - slot;
    let qa = base / n;
    let ra = base % n;
    let qk = requests as int / n;
    let rk = requests as int % n;
    lemma_fundamental_div_mod(base, n);
    lemma_fundamental_div_mod(requests as int, n);
    assert(n * qa == qa * n) by (nonlinear_arith);
    assert(n * qk == qk * n) by (nonlinear_arith);
    assert((qa + qk) * n == qa * n + qk * n) by (nonlinear_arith);
    assert((qa + qk + 1) * n == qa * n + qk * n + n) by (nonlinear_arith);
    assert((qk + 1) * n == qk * n + n) by (nonlinear_arith);
    if ra + rk < n {
        lemma_fundamental_div_mod_converse(base + requests, n, qa + qk, ra + rk);
    } else {
        lemma_fundamental_div_mod_converse(base + requests, n, qa + qk + 1, ra + rk - n);
    }
    if rk == 0 {
        lemma_fundamental_div_mod_converse(requests + n - 1, n, qk, n - 1);
    } else {
        lemma_fundamental_div_mod_converse(requests + n - 1, n, qk + 1, rk - 1);
    }
}

/// Round-robin dispatch is fair: over `requests` consecutive tickets, starting
/// anywhere, the numbers of requests that any two sessions serve differ by at
/// most the rounded-up share minus the rounded-down share, which is 0 or 1.
pub proof fn lemma_dispatch_is_fair(start: nat, requests: nat, sessions: nat, a: nat, b: nat)
    requires
        sessions >= 1,
        a < sessions,
        b < sessions,
    ensures
        hits(start, requests, sessions, a) - hits(start, requests, sessions, b) <= share_ceil(
            requests,
            sessions,
        ) - share_floor(requests, sessions),
        share_ceil(requests, sessions) - share_floor(requests, sessions) <= 1,
{
    lemma_every_session_gets_its_share(start, requests, sessions, a);
    lemma_every_session_gets_its_share(start, requests, sessions, b);
    let n = sessions as int;
    let qk = requests as int / n;
    let rk = requests as int % n;
    lemma_fundamental_div_mod(requests as int, n);
    assert(n * qk == qk * n) by (nonlinear_arith);
    assert((qk + 1) * n == qk * n + n) by (nonlinear_arith);
    if rk == 0 {
        lemma_fundamental_div_mod_converse(requests + n - 1, n, qk, n - 1);
    } else {
        lemma_fundamental_div_mod_converse(requests + n - 1, n, qk + 1, rk - 1);
    }
}

/// When the number of requests is a multiple of the number of sessions, every
/// session serves exactly the same number of them.
pub proof fn lemma_full_rounds_are_even(start: nat, rounds: nat, sessions: nat, slot: nat)
    requires
        sessions >= 1,
        slot < sessions,
    ensures
        hits(start, rounds * sessions, sessions, slot) == rounds,
{
    let n = sessions as int;
    let requests = rounds * sessions;
    lemma_every_session_gets_its_share(start, requests, sessions, slot);
    assert(rounds * sessions == rounds as int * n + 0);
    lemma_fundamental_div_mod_converse(requests as int, n, rounds as int, 0);
    assert((rounds as int - 1) * n + n == rounds * sessions) by (nonlinear_arith)
        requires
            n == sessions,
    ;
    if rounds == 0 {
        lemma_fundamental_div_mod_converse(requests + n - 1, n, 0, n - 1);
    } else {
        lemma_fundamental_div_mod_converse(requests + n - 1, n, rounds as int, n - 1);
    }
}

/// The index of the session that serves the request holding `ticket`.
pub fn session_index(ticket: usize, sessions: usize) -> (index: usize)
    requires
        sessions >= 1,
    ensures
        index == session_slot(ticket as nat, sessions as nat),
        index < sessions,
{
    ticket % sessions
}

/// `load` returned, for every `i` below `count`, the session `sessions[i]`
/// with the declared input width `widths[i]`.
pub open spec fn are_loaded<S, F: Fn(usize) -> Option<(S, usize)>>(
    load: F,
    count: usize,
    sessions: Seq<S>,
    widths: Seq<usize>,
) -> bool {
    &&& sessions.len() == count
    &&& widths.len() == count
    &&& forall|i: usize|
        i < count ==> call_ensures(load, (i,), Some((#[trigger] sessions[i as int], widths[i as int])))
}

/// Every model declares an input of exactly `features` cells per row.
pub open spec fn widths_match(widths: Seq<usize>, features: nat) -> bool {
    forall|i: int| 0 <= i < widths.len() ==> #[trigger] widths[i] == features
}

/// Holds the input widths that the loaded models declare against the number
/// of features of the scaler table: every one of them must equal it.
pub fn check_input_widths(widths: &Vec<usize>, features: usize) -> (checked: Result<(), InitError>)
    ensures
        checked is Ok <==> widths_match(widths@, features as nat),
        checked matches Err(e) ==> e == InitError::InputWidth,
{
    let mut i: usize = 0;
    while i < widths.len()
        invariant
            0 <= i <= widths@.len(),
            forall|k: int| 0 <= k < i ==> #[trigger] widths@[k] == features,
        decreases widths@.len() - i,
    {
        if widths[i] != features {
            return Err(InitError::InputWidth);
        }
        i += 1;
    }
    Ok(())
}

/// A fixed, non-empty sequence of model sessions with the counter that hands
/// out tickets.
///
/// The pool is shared by all request handlers. The counter is advanced by an
/// atomic read-modify-write, so no two requests hold the same ticket until the
/// counter wraps.
pub struct SessionPool<S> {
    sessions: Vec<S>,
    counter: AtomicUsize,
}

impl<S> View for SessionPool<S> {
    type V = Seq<S>;

    /// The sessions, in order.
    closed spec fn view(&self) -> Seq<S> {
        self.sessions@
    }
}

impl<S> SessionPool<S> {
    #[verifier::type_invariant]
    spec fn populated(self) -> bool {
        self.sessions@.len() >= 1
    }

    /// A pool over `sessions`, with the counter at zero. A pool needs at least
    /// one session.
    pub fn new(sessions: Vec<S>) -> (built: Result<SessionPool<S>, InitError>)
        ensures
            built is Ok <==> sessions@.len() >= 1,
            built matches Ok(pool) ==> pool@ == sessions@,
            built matches Err(e) ==> e == InitError::ModelLoad,
    {
        if sessions.len() == 0 {
            Err(InitError::ModelLoad)
        } else {
            Ok(SessionPool { sessions, counter: AtomicUsize::new(0) })
        }
    }

    /// A pool of exactly `count` sessions, the `i`-th of which is what `load`
    /// returns for `i`, together with the input width that each of them
    /// declares. Sessions are loaded in order; the first that fails to load
    /// ends the construction with an error, and so does a `count` of zero.
    pub fn build<F: Fn(usize) -> Option<(S, usize)>>(count: usize, load: F) -> (built: Result<
        (SessionPool<S>, Vec<usize>),
        InitError,
    >)
        requires
            forall|i: usize| i < count ==> call_requires(load, (i,)),
        ensures
            built matches Ok(pair) ==> count >= 1 && are_loaded(load, count, pair.0@, pair.1@),
            built matches Err(e) ==> {
                &&& e == InitError::ModelLoad
                &&& count == 0 || exists|i: usize| i < count && call_ensures(load, (i,), None)
            },
    {
        let mut sessions: Vec<S> = Vec::new();
        let mut widths: Vec<usize> = Vec::new();
        let mut i: usize = 0;
        while i < count
            invariant
                0 <= i <= count,
                sessions@.len() == i,
                widths@.len() == i,
                forall|k: usize| k < count ==> call_requires(load, (k,)),
                forall|k: usize|
                    k < i ==> call_ensures(
                        load,
                        (k,),
                        Some((#[trigger] sessions@[k as int], widths@[k as int])),
                    ),
            decreases count - i,
        {
            match load(i) {
                Some(loaded) => {
                    sessions.push(loaded.0);
                    widths.push(loaded.1);
                },
                None => {
                    return Err(InitError::ModelLoad);
                },
            }
            i += 1;
        }
        if count == 0 {
            Err(InitError::ModelLoad)
        } else {
            Ok((SessionPool { sessions, counter: AtomicUsize::new(0) }, widths))
        }
    }

    /// Number of sessions, at least one.
    pub fn len(&self) -> (n: usize)
        ensures
            n == self@.len(),
            n >= 1,
    {
        proof {
            use_type_invariant(self);
        }
        self.sessions.len()
    }

    /// The session at `index`.
    pub fn session(&self, index: usize) -> (session: &S)
        requires
            index < self@.len(),
        ensures
            *session == self@[index as int],
    {
        &self.sessions[index]
    }

    /// Draws the next ticket: the counter's value before this call advanced it
    /// by one.
    ///
    /// The counter is shared by all handlers, so the ticket depends on how
    /// many requests any of them admitted before. Nothing is promised of it;
    /// [`session_index`] says where each ticket leads.
    fn draw(&self) -> usize {
        self.counter.fetch_add(1, Ordering::SeqCst)
    }

    /// Admits one request: draws the next ticket and hands out the session
    /// that serves it, with its index.
    pub fn checkout(&self) -> (lease: (usize, &S))
        ensures
            lease.0 < self@.len(),
            *lease.1 == self@[lease.0 as int],
    {
        let ticket = self.draw();
        let index = session_index(ticket, self.len());
        (index, &self.sessions[index])
    }
}

} // verus!

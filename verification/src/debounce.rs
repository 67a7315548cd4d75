//! The debounce coordinator: last-write-wins shared state with a quiet
//! window. Each submission overwrites the shared latest pair and schedules a
//! deferred check carrying its own timestamp as token; a check fires only if
//! the shared timestamp still equals its token, so every submission but the
//! final one of a burst is superseded.
//!
//! The sleeping and the task scheduling belong to the surrounding program;
//! this module holds the state, the two atomic-as-a-unit transitions, and
//! the timeline model the coalescing laws are proved over.

use vstd::prelude::*;

use crate::parser::normalized_of;
use crate::text::copied;
use crate::text::lowercase;
use crate::text::trim;
use crate::QUIET_WINDOW_MS;

verus! {

/// One inbound command instance: its text and the time it was received, in
/// milliseconds of a monotonic clock.
pub struct Submission {
    pub text: Vec<char>,
    pub received_at: u64,
}

/// The shared coalescing point: the most recent submission. All reads and
/// writes replace or copy the pair as a unit.
pub struct DebounceState {
    pub latest: Submission,
}

/// The immediate acknowledgment body every caller receives.
pub open spec fn ack_msg() -> Seq<char> {
    "Waiting for final input..."@
}

impl DebounceState {
    /// A fresh coordinator holding an empty submission stamped `now`.
    pub fn new(now: u64) -> (s: Self)
        ensures
            s.latest.text@ == Seq::<char>::empty(),
            s.latest.received_at == now,
    {
        DebounceState { latest: Submission { text: Vec::new(), received_at: now } }
    }

    /// Records a submission: the shared pair is replaced as a unit and the
    /// timestamp, which never decreases, is returned as the comparison
    /// token for this submission's deferred check.
    pub fn submit(&mut self, text: Vec<char>, now: u64) -> (token: u64)
        requires
            old(self).latest.received_at <= now,
        ensures
            final(self).latest.text == text,
            final(self).latest.received_at == now,
            token == now,
    {
        self.latest = Submission { text, received_at: now };
        now
    }

    /// The deferred check: returns the latest text exactly when the shared
    /// timestamp still equals the token, that is, when no newer submission
    /// has been recorded since the token's own; otherwise the submission
    /// was superseded and nothing is to be done.
    pub fn deferred_check(&self, token: u64) -> (r: Option<Vec<char>>)
        ensures
            self.latest.received_at == token ==> (r matches Some(t) && t@ == self.latest.text@),
            self.latest.received_at != token ==> r is None,
    {
        if self.latest.received_at == token {
            Some(copied(&self.latest.text))
        } else {
            None
        }
    }
}

/// The request entry point: normalizes the command, records it, and returns
/// the acknowledgment at once — the same acknowledgment on every call,
/// whatever later becomes of the submission.
pub fn on_command_received(state: &mut DebounceState, raw: &Vec<char>, now: u64) -> (ack: Vec<
    char,
>)
    requires
        old(state).latest.received_at <= now,
    ensures
        ack@ == ack_msg(),
        final(state).latest.text@ == normalized_of(raw@),
        final(state).latest.received_at == now,
{
    let trimmed = trim(raw);
    let normalized = lowercase(&trimmed);
    state.submit(normalized, now);
    crate::text::chars_of("Waiting for final input...")
}

/// Submissions listed in arrival order with strictly increasing timestamps.
pub open spec fn times_strictly_increase(subs: Seq<Submission>) -> bool {
    forall|i: int, j: int|
        0 <= i < j < subs.len() ==> subs[i].received_at < subs[j].received_at
}

/// How many of the submissions have arrived by time `c` — a prefix, since
/// the timestamps increase.
pub open spec fn arrived_count(subs: Seq<Submission>, c: int) -> int
    decreases subs.len(),
{
    if subs.len() == 0 {
        0
    } else if subs.last().received_at <= c {
        subs.len() as int
    } else {
        arrived_count(subs.drop_last(), c)
    }
}

/// Whether the deferred check of submission `i`, run at time `c`, fires:
/// the shared state then holds the last submission arrived by `c`, and the
/// check compares its token against that timestamp.
pub open spec fn fires_at(subs: Seq<Submission>, i: int, c: int) -> bool {
    &&& arrived_count(subs, c) > 0
    &&& subs[arrived_count(subs, c) - 1].received_at == subs[i].received_at
}

/// `arrived_count` counts exactly the submissions with timestamp at most
/// `c`.
pub proof fn lemma_arrived_count(subs: Seq<Submission>, c: int)
    requires
        times_strictly_increase(subs),
    ensures
        0 <= arrived_count(subs, c) <= subs.len(),
        forall|k: int| 0 <= k < arrived_count(subs, c) ==> subs[k].received_at <= c,
        forall|k: int| arrived_count(subs, c) <= k < subs.len() ==> subs[k].received_at > c,
    decreases subs.len(),
{
    if subs.len() > 0 && subs.last().received_at > c {
        assert(times_strictly_increase(subs.drop_last()));
        lemma_arrived_count(subs.drop_last(), c);
        assert forall|k: int| 0 <= k < arrived_count(subs, c) implies subs[k].received_at
            <= c by {
            assert(subs.drop_last()[k] == subs[k]);
        }
        assert forall|k: int| arrived_count(subs, c) <= k < subs.len() implies subs[k].received_at
            > c by {
            if k < subs.len() - 1 {
                assert(subs.drop_last()[k] == subs[k]);
            }
        }
    }
}

/// Debounce coalescing: in a burst shorter than the quiet window, by the
/// time any submission's own quiet window has elapsed the whole burst has
/// arrived, and its check fires exactly when it is the last submission —
/// every earlier one is superseded.
pub proof fn lemma_burst_coalesced(subs: Seq<Submission>, i: int, c: int)
    requires
        times_strictly_increase(subs),
        0 <= i < subs.len(),
        subs.last().received_at - subs.first().received_at < QUIET_WINDOW_MS,
        c >= subs[i].received_at + QUIET_WINDOW_MS,
    ensures
        arrived_count(subs, c) == subs.len(),
        fires_at(subs, i, c) <==> i == subs.len() - 1,
{
    lemma_arrived_count(subs, c);
    assert(subs.last().received_at <= c) by {
        if i > 0 {
            assert(subs[0].received_at < subs[i].received_at);
        }
    }
    assert(arrived_count(subs, c) == subs.len()) by {
        if arrived_count(subs, c) < subs.len() {
            assert(subs[subs.len() - 1].received_at > c);
        }
    }
    if i < subs.len() - 1 {
        assert(subs[i].received_at < subs[subs.len() - 1].received_at);
    }
}

/// Debounce non-coalescing: two submissions separated by more than the
/// quiet window each fire — the first one's check, run after its own quiet
/// window but before the second submission arrives, still sees its own
/// timestamp, and the second is the last submission.
pub proof fn lemma_spaced_both_fire(s0: Submission, s1: Submission, c0: int, c1: int)
    requires
        s1.received_at - s0.received_at > QUIET_WINDOW_MS,
        s0.received_at + QUIET_WINDOW_MS <= c0 < s1.received_at,
        c1 >= s1.received_at,
    ensures
        fires_at(seq![s0, s1], 0, c0),
        fires_at(seq![s0, s1], 1, c1),
{
    let subs = seq![s0, s1];
    assert(subs.drop_last() =~= seq![s0]);
    assert(subs.last() == s1 && subs.len() == 2);
    assert(seq![s0].last() == s0 && seq![s0].len() == 1);
    assert(arrived_count(seq![s0], c0) == 1);
    assert(arrived_count(subs, c0) == arrived_count(seq![s0], c0));
    assert(arrived_count(subs, c1) == 2);
}

/// Replays a burst in arrival order: the shared state ends holding the last
/// submission — last write wins, whatever stood before.
pub fn replay(state: &mut DebounceState, subs: &Vec<Submission>)
    requires
        subs@.len() > 0 ==> old(state).latest.received_at <= subs@[0].received_at,
        times_strictly_increase(subs@),
    ensures
        subs@.len() == 0 ==> *final(state) == *old(state),
        subs@.len() > 0 ==> final(state).latest.text@ == subs@.last().text@
            && final(state).latest.received_at == subs@.last().received_at,
{
    let mut i: usize = 0;
    while i < subs.len()
        invariant
            i <= subs@.len(),
            times_strictly_increase(subs@),
            subs@.len() > 0 ==> old(state).latest.received_at <= subs@[0].received_at,
            i == 0 ==> state == old(state),
            i > 0 ==> state.latest.text@ == subs@[i - 1].text@ && state.latest.received_at
                == subs@[i - 1].received_at,
        decreases subs@.len() - i,
    {
        let s = &subs[i];
        let text = copied(&s.text);
        state.submit(text, s.received_at);
        i = i + 1;
    }
}

} // verus!

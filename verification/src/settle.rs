//! Letting a page come to rest.
//!
//! A page has microtasks, timers and fetches in flight. [`Settle`] decides,
//! round by round, whether to go on, for how long to wait and when to stop:
//! when nothing is pending, when the time is over, or after so many rounds.
use vstd::prelude::*;

use crate::json::{
    json_number, json_text_of, lemma_entry_at, no_entries, object, put, Json, JsonModel, NumberModel,
};

verus! {

/// How many microtasks may run in a row before timers and fetches get their
/// turn.
pub const MICROTASK_CAP: u64 = 2000;

/// For how long to wait where only fetches are in flight, in milliseconds.
pub const FETCH_WAIT_MS: u64 = 20;

/// Why it stopped.
#[derive(Debug, Clone, Copy, PartialEq, Eq, Structural)]
pub enum SettleReason {
    /// Nothing is pending.
    Idle,
    /// The time is over.
    BudgetExhausted,
    /// There were as many rounds as may be.
    MaxIters,
}

/// The name of a reason in events.
pub open spec fn reason_name(reason: SettleReason) -> Seq<char> {
    match reason {
        SettleReason::Idle => "idle"@,
        SettleReason::BudgetExhausted => "budget_exhausted"@,
        SettleReason::MaxIters => "max_iters"@,
    }
}

/// The name of a reason in events.
pub fn reason_str(reason: SettleReason) -> (r: &'static str)
    ensures
        r@ == reason_name(reason),
{
    match reason {
        SettleReason::Idle => "idle",
        SettleReason::BudgetExhausted => "budget_exhausted",
        SettleReason::MaxIters => "max_iters",
    }
}

/// What is done at the end of a round.
#[derive(Debug, Clone, Copy, PartialEq, Eq, Structural)]
pub enum SettleNext {
    /// Stop: nothing is pending.
    Stop,
    /// Go on at once.
    Again,
    /// Wait a little for a fetch, and go on.
    WaitForFetch,
    /// Wait for the first timer, and go on.
    WaitForTimer,
}

/// What was found at the end of a round.
#[derive(Debug, Clone, Copy, PartialEq, Eq, Structural)]
pub struct SettleRound {
    /// How many timers fired.
    pub fired: u64,
    /// How many fetches were resolved.
    pub resolved: u64,
    pub pending_timers: u64,
    pub pending_fetches: u64,
    pub pending_microtasks: bool,
}

/// What is done after a round in which so many microtasks ran.
pub open spec fn after_round(microtasks: u64, round: SettleRound) -> SettleNext {
    let worked = microtasks > 0 || round.fired > 0 || round.resolved > 0;
    if round.pending_timers == 0 && round.pending_fetches == 0 && !round.pending_microtasks {
        SettleNext::Stop
    } else if worked || round.pending_microtasks {
        SettleNext::Again
    } else if round.pending_fetches > 0 {
        SettleNext::WaitForFetch
    } else {
        SettleNext::WaitForTimer
    }
}

/// A page that is coming to rest.
#[derive(Debug)]
pub struct Settle {
    pub max_ms: u64,
    pub max_iters: u32,
    /// How many rounds are over.
    pub iters: u32,
    /// How many microtasks ran in the rounds that are over.
    pub microtasks: u64,
    /// How many timers fired.
    pub timers: u64,
    /// How many fetches were resolved.
    pub fetches: u64,
    /// How many microtasks ran in this round.
    pub this_round: u64,
}

impl Settle {
    /// Whether the counts are such as can come about.
    pub open spec fn wf(self) -> bool {
        &&& self.iters <= self.max_iters
        &&& self.this_round <= MICROTASK_CAP
        &&& self.microtasks <= self.iters * MICROTASK_CAP
    }

    /// Why no round begins so many milliseconds after the start, if none does.
    pub open spec fn why_no_round(self, elapsed_ms: u64) -> Option<SettleReason> {
        if self.iters >= self.max_iters {
            Some(SettleReason::MaxIters)
        } else if elapsed_ms >= self.max_ms {
            Some(SettleReason::BudgetExhausted)
        } else {
            None
        }
    }

    /// Whether one more microtask runs in this round.
    pub open spec fn runs_one_more(self, elapsed_ms: u64) -> bool {
        self.this_round < MICROTASK_CAP && elapsed_ms < self.max_ms
    }

    /// The page after a round.
    pub open spec fn after(self, round: SettleRound) -> Settle {
        Settle {
            iters: if after_round(self.this_round, round) is Stop {
                self.iters
            } else {
                (self.iters + 1) as u32
            },
            microtasks: (self.microtasks + self.this_round) as u64,
            timers: (self.timers + round.fired) as u64,
            fetches: (self.fetches + round.resolved) as u64,
            ..self
        }
    }

    /// The start.
    pub fn start(max_ms: u64, max_iters: u32) -> (r: Settle)
        ensures
            r.wf(),
            r == (Settle {
                max_ms,
                max_iters,
                iters: 0,
                microtasks: 0,
                timers: 0,
                fetches: 0,
                this_round: 0,
            }),
    {
        Settle {
            max_ms,
            max_iters,
            iters: 0,
            microtasks: 0,
            timers: 0,
            fetches: 0,
            this_round: 0,
        }
    }

    /// Starts a round, so many milliseconds after the start; says why there is
    /// none.
    pub fn begin_round(&mut self, elapsed_ms: u64) -> (r: Option<SettleReason>)
        requires
            old(self).wf(),
        ensures
            final(self).wf(),
            r == old(self).why_no_round(elapsed_ms),
            *final(self) == (Settle {
                this_round: if r is None {
                    0
                } else {
                    old(self).this_round
                },
                ..*old(self)
            }),
    {
        if self.iters >= self.max_iters {
            Some(SettleReason::MaxIters)
        } else if elapsed_ms >= self.max_ms {
            Some(SettleReason::BudgetExhausted)
        } else {
            self.this_round = 0;
            None
        }
    }

    /// Notes whether a microtask ran, and says whether to run one more.
    pub fn microtask(&mut self, ran: bool, elapsed_ms: u64) -> (r: bool)
        requires
            old(self).wf(),
            old(self).this_round < MICROTASK_CAP,
        ensures
            final(self).wf(),
            *final(self) == (Settle {
                this_round: if ran {
                    (old(self).this_round + 1) as u64
                } else {
                    old(self).this_round
                },
                ..*old(self)
            }),
            r == (ran && final(self).runs_one_more(elapsed_ms)),
    {
        if !ran {
            return false;
        }
        self.this_round = self.this_round + 1;
        self.this_round < MICROTASK_CAP && elapsed_ms < self.max_ms
    }

    /// Ends a round.
    pub fn end_round(&mut self, round: SettleRound) -> (r: SettleNext)
        requires
            old(self).wf(),
            old(self).iters < old(self).max_iters,
            old(self).timers + round.fired <= u64::MAX,
            old(self).fetches + round.resolved <= u64::MAX,
        ensures
            r == after_round(old(self).this_round, round),
            *final(self) == old(self).after(round),
            old(self).microtasks + old(self).this_round <= u64::MAX,
            r !is Stop ==> final(self).wf(),
    {
        proof {
            let n = self.iters as int;
            assert(n * 2000 + 2000 == (n + 1) * 2000) by (nonlinear_arith);
        }
        self.microtasks = self.microtasks + self.this_round;
        self.timers = self.timers + round.fired;
        self.fetches = self.fetches + round.resolved;
        if round.pending_timers == 0 && round.pending_fetches == 0 && !round.pending_microtasks {
            return SettleNext::Stop;
        }
        self.iters = self.iters + 1;
        if self.this_round > 0 || round.fired > 0 || round.resolved > 0 || round.pending_microtasks {
            SettleNext::Again
        } else if round.pending_fetches > 0 {
            SettleNext::WaitForFetch
        } else {
            SettleNext::WaitForTimer
        }
    }

    /// For how long to wait for the first timer, in milliseconds: until it is
    /// due, but not past the time that is left, so many milliseconds after the
    /// start.
    pub fn timer_wait(&self, deadline_ms: u64, now_ms: u64, elapsed_ms: u64) -> (r: u64)
        ensures
            ({
                let due = if deadline_ms > now_ms {
                    deadline_ms - now_ms
                } else {
                    0
                };
                let left = if self.max_ms > elapsed_ms {
                    self.max_ms - elapsed_ms
                } else {
                    0
                };
                r == (if due < left {
                    due
                } else {
                    left
                })
            }),
    {
        let due: u64 = deadline_ms.saturating_sub(now_ms);
        let left: u64 = self.max_ms.saturating_sub(elapsed_ms);
        if due < left {
            due
        } else {
            left
        }
    }

    /// What came of it, in JSON.
    pub fn result(
        &self,
        reason: SettleReason,
        elapsed_ms: u64,
        pending_timers: u64,
        pending_fetches: u64,
        pending_microtasks: bool,
    ) -> (r: Json)
        ensures
            r@ == settle_json(
                *self,
                reason,
                elapsed_ms,
                pending_timers,
                pending_fetches,
                pending_microtasks,
            ),
    {
        let mut e = no_entries();
        put(&mut e, "iters", json_number(self.iters as u64));
        put(&mut e, "elapsed_ms", json_number(elapsed_ms));
        put(&mut e, "microtasks_run", json_number(self.microtasks));
        put(&mut e, "timers_fired", json_number(self.timers));
        put(&mut e, "fetches_resolved", json_number(self.fetches));
        put(&mut e, "pending_timers", json_number(pending_timers));
        put(&mut e, "pending_fetches", json_number(pending_fetches));
        put(&mut e, "pending_microtasks", Json::Bool(pending_microtasks));
        put(&mut e, "reason", json_text_of(reason_str(reason)));
        put(
            &mut e,
            "timed_out",
            Json::Bool(
                match reason {
                    SettleReason::Idle => false,
                    _ => true,
                },
            ),
        );
        let r = object(e);
        assert(r@->Object_0 =~= settle_json(
            *self,
            reason,
            elapsed_ms,
            pending_timers,
            pending_fetches,
            pending_microtasks,
        )->Object_0);
        r
    }
}

/// A count as a value.
pub open spec fn count_json(n: u64) -> JsonModel {
    JsonModel::Number(NumberModel::Unsigned(n))
}

/// What came of letting a page come to rest, in JSON.
pub open spec fn settle_json(
    s: Settle,
    reason: SettleReason,
    elapsed_ms: u64,
    pending_timers: u64,
    pending_fetches: u64,
    pending_microtasks: bool,
) -> JsonModel {
    JsonModel::Object(
        seq![
            ("iters"@, count_json(s.iters as u64)),
            ("elapsed_ms"@, count_json(elapsed_ms)),
            ("microtasks_run"@, count_json(s.microtasks)),
            ("timers_fired"@, count_json(s.timers)),
            ("fetches_resolved"@, count_json(s.fetches)),
            ("pending_timers"@, count_json(pending_timers)),
            ("pending_fetches"@, count_json(pending_fetches)),
            ("pending_microtasks"@, JsonModel::Bool(pending_microtasks)),
            ("reason"@, JsonModel::Text(reason_name(reason))),
            ("timed_out"@, JsonModel::Bool(reason != SettleReason::Idle)),
        ],
    )
}

/// It stops by itself exactly when nothing is pending.
pub proof fn law_stops_when_idle(microtasks: u64, round: SettleRound)
    ensures
        after_round(microtasks, round) is Stop <==> round.pending_timers == 0
            && round.pending_fetches == 0 && !round.pending_microtasks,
{
}

/// It waits only where nothing can be done: nothing ran in the round, no
/// microtask is pending, and what it waits for is.
pub proof fn law_waits_only_without_work(microtasks: u64, round: SettleRound)
    ensures
        after_round(microtasks, round) is WaitForFetch || after_round(
            microtasks,
            round,
        ) is WaitForTimer ==> microtasks == 0 && round.fired == 0 && round.resolved == 0
            && !round.pending_microtasks,
        after_round(microtasks, round) is WaitForFetch ==> round.pending_fetches > 0,
        after_round(microtasks, round) is WaitForTimer ==> round.pending_timers > 0,
{
}

/// What is reported as timed out is what did not stop by itself.
pub proof fn law_timed_out_unless_idle(
    s: Settle,
    reason: SettleReason,
    elapsed_ms: u64,
    timers: u64,
    fetches: u64,
    microtasks: bool,
)
    ensures
        settle_json(s, reason, elapsed_ms, timers, fetches, microtasks)->Object_0.last() == (
            "timed_out"@,
            JsonModel::Bool(reason !is Idle),
        ),
{
}

/// Rounds go on until there were so many, or the time is over; which of the two
/// it was is told.
pub proof fn law_when_rounds_begin(s: Settle, elapsed_ms: u64)
    ensures
        s.why_no_round(elapsed_ms) is None <==> s.iters < s.max_iters && elapsed_ms < s.max_ms,
        s.why_no_round(elapsed_ms) == Some(SettleReason::MaxIters) <==> s.iters >= s.max_iters,
        s.why_no_round(elapsed_ms) == Some(SettleReason::BudgetExhausted) <==> s.iters
            < s.max_iters && elapsed_ms >= s.max_ms,
        s.why_no_round(elapsed_ms) != Some(SettleReason::Idle),
        s.runs_one_more(elapsed_ms) <==> s.this_round <= 1999 && elapsed_ms < s.max_ms,
{
}

/// What is done after a round: nothing more where nothing is pending; one more
/// round at once where something was done or a microtask is pending; else a
/// fetch is waited for, if one is pending, and else a timer.
pub proof fn law_what_follows_on_a_round(microtasks: u64, round: SettleRound)
    ensures
        ({
            let idle = round.pending_timers == 0 && round.pending_fetches == 0
                && !round.pending_microtasks;
            let worked = microtasks != 0 || round.fired != 0 || round.resolved != 0;
            let next = after_round(microtasks, round);
            &&& next == SettleNext::Stop <==> idle
            &&& next == SettleNext::Again <==> !idle && (worked || round.pending_microtasks)
            &&& next == SettleNext::WaitForFetch <==> !worked && !round.pending_microtasks
                && round.pending_fetches != 0
            &&& next == SettleNext::WaitForTimer <==> !worked && !round.pending_microtasks
                && round.pending_fetches == 0 && round.pending_timers != 0
        }),
{
}

/// A round adds what was done in it to the counts, and counts itself unless it
/// was the last because nothing is pending.
pub proof fn law_what_a_round_counts(s: Settle, round: SettleRound)
    requires
        s.wf(),
        s.iters < s.max_iters,
        s.timers + round.fired <= u64::MAX,
        s.fetches + round.resolved <= u64::MAX,
    ensures
        s.after(round).microtasks - s.microtasks == s.this_round,
        s.after(round).timers - s.timers == round.fired,
        s.after(round).fetches - s.fetches == round.resolved,
        s.after(round).iters - s.iters == (if round.pending_timers == 0 && round.pending_fetches
            == 0 && !round.pending_microtasks {
            0int
        } else {
            1
        }),
        s.after(round).max_ms == s.max_ms && s.after(round).max_iters == s.max_iters,
{
    let n = s.iters as int;
    assert(n * 2000 + 2000 == (n + 1) * 2000) by (nonlinear_arith);
}

/// A timer is waited for until it is due, but never longer than the time that
/// is left.
pub proof fn law_how_long_timers_are_waited_for(
    s: &Settle,
    deadline_ms: u64,
    now_ms: u64,
    elapsed_ms: u64,
    r: u64,
)
    requires
        call_ensures(Settle::timer_wait, (s, deadline_ms, now_ms, elapsed_ms), r),
    ensures
        now_ms + r <= deadline_ms || r == 0,
        elapsed_ms + r <= s.max_ms || r == 0,
        now_ms + r < deadline_ms && elapsed_ms < s.max_ms ==> elapsed_ms + r == s.max_ms,
{
}

/// What is told of a page that came to rest are the counts, what is still
/// pending, and why it stopped.
pub proof fn law_how_rest_is_told(
    s: &Settle,
    reason: SettleReason,
    elapsed_ms: u64,
    timers: u64,
    fetches: u64,
    microtasks: bool,
    r: Json,
)
    requires
        call_ensures(
            Settle::result,
            (s, reason, elapsed_ms, timers, fetches, microtasks),
            r,
        ),
    ensures
        r@.u64_at("iters"@) == Some(s.iters as u64),
        r@.u64_at("elapsed_ms"@) == Some(elapsed_ms),
        r@.u64_at("microtasks_run"@) == Some(s.microtasks),
        r@.u64_at("timers_fired"@) == Some(s.timers),
        r@.u64_at("fetches_resolved"@) == Some(s.fetches),
        r@.u64_at("pending_timers"@) == Some(timers),
        r@.u64_at("pending_fetches"@) == Some(fetches),
        r@.bool_at("pending_microtasks"@) == Some(microtasks),
        r@.bool_at("timed_out"@) == Some(reason != SettleReason::Idle),
        reason == SettleReason::Idle ==> r@.text_at("reason"@) == Some("idle"@),
        reason == SettleReason::BudgetExhausted ==> r@.text_at("reason"@) == Some("budget_exhausted"@),
        reason == SettleReason::MaxIters ==> r@.text_at("reason"@) == Some("max_iters"@),
{
    reveal_strlit("iters");
    reveal_strlit("elapsed_ms");
    reveal_strlit("microtasks_run");
    reveal_strlit("timers_fired");
    reveal_strlit("fetches_resolved");
    reveal_strlit("pending_timers");
    reveal_strlit("pending_fetches");
    reveal_strlit("pending_microtasks");
    reveal_strlit("reason");
    reveal_strlit("timed_out");
    assert("iters"@.len() == 5);
    assert("elapsed_ms"@.len() == 10);
    assert("microtasks_run"@.len() == 14);
    assert("timers_fired"@.len() == 12);
    assert("fetches_resolved"@.len() == 16);
    assert("pending_timers"@.len() == 14);
    assert("pending_fetches"@.len() == 15);
    assert("pending_microtasks"@.len() == 18);
    assert("reason"@.len() == 6);
    assert("timed_out"@.len() == 9);
    assert("microtasks_run"@[0] != "pending_timers"@[0]);
    let e = r@->Object_0;
    lemma_entry_at(e, "iters"@, 0);
    lemma_entry_at(e, "elapsed_ms"@, 1);
    lemma_entry_at(e, "microtasks_run"@, 2);
    lemma_entry_at(e, "timers_fired"@, 3);
    lemma_entry_at(e, "fetches_resolved"@, 4);
    lemma_entry_at(e, "pending_timers"@, 5);
    lemma_entry_at(e, "pending_fetches"@, 6);
    lemma_entry_at(e, "pending_microtasks"@, 7);
    lemma_entry_at(e, "reason"@, 8);
    lemma_entry_at(e, "timed_out"@, 9);
}

/// Coming to rest starts with nothing counted. A round begins unless the rounds
/// or the time are used up, and counts its microtasks anew; it runs one more as
/// long as one ran and there is room and time.
pub proof fn law_how_rounds_go()
    ensures
        forall|max_ms: u64, max_iters: u32, s: Settle| #[trigger]
            call_ensures(Settle::start, (max_ms, max_iters), s) ==> s.max_ms == max_ms
                && s.max_iters == max_iters && s.iters == 0 && s.microtasks == 0 && s.timers == 0
                && s.fetches == 0 && s.this_round == 0,
        forall|s: &mut Settle, elapsed_ms: u64, r: Option<SettleReason>| #[trigger]
            call_ensures(Settle::begin_round, (s, elapsed_ms), r) ==> {
                &&& r is None <==> (*s).iters < (*s).max_iters && elapsed_ms < (*s).max_ms
                &&& r == Some(SettleReason::MaxIters) <==> (*s).iters >= (*s).max_iters
                &&& r != Some(SettleReason::Idle)
                &&& r is None ==> *final(s) == (Settle { this_round: 0, ..*s })
                &&& r is Some ==> *final(s) == *s
            },
        forall|s: &mut Settle, ran: bool, elapsed_ms: u64, r: bool| #[trigger]
            call_ensures(Settle::microtask, (s, ran, elapsed_ms), r) ==> (*s).this_round < 2000 ==> {
                &&& !ran ==> *final(s) == *s && !r
                &&& ran ==> *final(s) == (Settle {
                    this_round: ((*s).this_round + 1) as u64,
                    ..*s
                })
                &&& ran ==> (r <==> (*s).this_round < 1999 && elapsed_ms < (*s).max_ms)
            },
        forall|s: &mut Settle, round: SettleRound, r: SettleNext| #[trigger]
            call_ensures(Settle::end_round, (s, round), r) ==> r == after_round(
                (*s).this_round,
                round,
            ) && *final(s) == (*s).after(round),
{
}

/// The reasons are told by these names.
pub proof fn law_names_of_reasons(reason: SettleReason, r: &'static str)
    requires
        call_ensures(reason_str, (reason,), r),
    ensures
        reason is Idle ==> r@ == "idle"@,
        reason is BudgetExhausted ==> r@ == "budget_exhausted"@,
        reason is MaxIters ==> r@ == "max_iters"@,
{
}

} // verus!

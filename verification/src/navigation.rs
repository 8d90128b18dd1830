//! Going to a page.
//!
//! The order of what is done, what is told on the way, and what is answered at
//! the end. The requests, the page environment and the clock are the caller's.
use vstd::prelude::*;
use vstd::utf8::encode_utf8;

use crate::events::Event;
use crate::json::{
    array, entries_model, entry, find_entry, items_model, json_number, json_optional_text,
    json_printed, json_text_of, law_set_value_is_found, lemma_entry_at, lemma_items_push, no_entries, object, optional_text, print_json, put,
    set_entry, with_entry, with_map_entries, Json, JsonModel,
};
use crate::prefit::{
    domain_of, encode_settle, written_settle, DomainModel, DomainPrefit, PrefitBundle,
};
use crate::html::ScriptModel;
use crate::outcome::outcome_of;
use crate::scripts::{
    executed_json, number_json, skip_events, Assembly, FateModel, PageScripts, RunTally, SourceModel,
};
use crate::text::{
    concat, concat3, decimal, lemma_decimal_injective, lemma_decimal_value, parse_u64, same,
    strip_prefix, texts_model, to_decimal, unicode_lowercase,
};
use crate::urls::{find_host, option_model, pairs_model, url_parsed};

verus! {

// ---------------------------------------------------------------------
// Names of navigations
// ---------------------------------------------------------------------

/// The name of the navigation number `n`.
pub open spec fn nav_id(n: nat) -> Seq<char> {
    "nav_"@ + decimal(n)
}

/// The names that a session has given to navigations, from number one on, and
/// which of these navigations have started.
#[derive(Debug)]
pub struct NavIds {
    started: Vec<bool>,
}

impl NavIds {
    /// How many names were given.
    pub closed spec fn count(self) -> nat {
        self.started@.len()
    }

    /// Whether the navigation number `n` has started.
    pub closed spec fn has_started(self, n: nat) -> bool {
        self.started@[n - 1]
    }

    /// Whether a name was given.
    pub open spec fn has_drawn(self, id: Seq<char>) -> bool {
        exists|n: nat| 1 <= n <= self.count() && id == #[trigger] nav_id(n)
    }

    /// Whether a name was given to a navigation that has started.
    pub open spec fn has_issued(self, id: Seq<char>) -> bool {
        exists|n: nat| 1 <= n <= self.count() && self.has_started(n) && id == #[trigger] nav_id(n)
    }

    /// Before any navigation.
    pub fn new() -> (r: NavIds)
        ensures
            r.count() == 0,
    {
        NavIds { started: Vec::new() }
    }

    /// Whether one more name can be given.
    pub open spec fn has_room(self) -> bool {
        self.count() < usize::MAX
    }

    /// Gives a name to the next navigation, which has yet to start.
    pub fn next_nav_id(&mut self) -> (r: String)
        requires
            old(self).has_room(),
        ensures
            final(self).count() == old(self).count() + 1,
            r@ == nav_id(final(self).count()),
            !old(self).has_drawn(r@),
            final(self).has_drawn(r@),
            !final(self).has_issued(r@),
            forall|id: Seq<char>| #[trigger]
                final(self).has_issued(id) <==> old(self).has_issued(id),
    {
        let ghost before = *self;
        self.started.push(false);
        let r = concat("nav_", to_decimal(self.started.len() as u64).as_str());
        proof {
            let count = self.count();
            assert(r@ == nav_id(count));
            if before.has_drawn(r@) {
                let n = choose|n: nat| 1 <= n <= before.count() && r@ == #[trigger] nav_id(n);
                law_nav_ids_distinct(n, count);
            }
            assert forall|n: nat| 1 <= n <= before.count() implies self.has_started(n)
                == #[trigger] before.has_started(n) by {}
            assert(!self.has_started(count));
            if self.has_issued(r@) {
                let n = choose|n: nat|
                    1 <= n <= self.count() && self.has_started(n) && r@ == #[trigger] nav_id(n);
                law_nav_ids_distinct(n, count);
            }
            assert forall|id: Seq<char>| #[trigger] self.has_issued(id) implies before.has_issued(
                id,
            ) by {
                let n = choose|n: nat|
                    1 <= n <= self.count() && self.has_started(n) && id == #[trigger] nav_id(n);
                assert(before.has_started(n));
            }
            assert forall|id: Seq<char>| before.has_issued(id) implies #[trigger] self.has_issued(
                id,
            ) by {
                let n = choose|n: nat|
                    1 <= n <= before.count() && before.has_started(n) && id == #[trigger] nav_id(n);
                assert(self.has_started(n));
            }
        }
        r
    }

    /// The navigation that was given a name, counted from zero.
    fn find(&self, id: &str) -> (r: Option<usize>)
        ensures
            match r {
                Some(i) => i < self.count() && id@ == nav_id((i + 1) as nat),
                None => !self.has_drawn(id@),
            },
    {
        let count: u64 = self.started.len() as u64;
        match strip_prefix(id, "nav_") {
            Some(rest) => {
                proof {
                    assert(id@ =~= "nav_"@ + rest@);
                }
                match parse_u64(rest.as_str()) {
                    Some(n) => {
                        let known = 1 <= n && n <= count && same(
                            to_decimal(n).as_str(),
                            rest.as_str(),
                        );
                        proof {
                            if known {
                                assert(id@ == nav_id(n as nat));
                            } else if self.has_drawn(id@) {
                                let k = choose|k: nat|
                                    1 <= k <= self.count() && id@ == #[trigger] nav_id(k);
                                lemma_nav_number(k, rest@);
                            }
                        }
                        if known {
                            Some((n - 1) as usize)
                        } else {
                            None
                        }
                    },
                    None => {
                        proof {
                            if self.has_drawn(id@) {
                                let k = choose|k: nat|
                                    1 <= k <= self.count() && id@ == #[trigger] nav_id(k);
                                lemma_nav_number(k, rest@);
                            }
                        }
                        None
                    },
                }
            },
            None => {
                proof {
                    if self.has_drawn(id@) {
                        let k = choose|k: nat| 1 <= k <= self.count() && id@ == #[trigger] nav_id(k);
                        assert(id@.subrange(0, "nav_"@.len() as int) =~= "nav_"@);
                    }
                }
                None
            },
        }
    }

    /// Notes that the navigation with this name has started.
    pub fn start(&mut self, id: &str)
        requires
            old(self).has_drawn(id@),
        ensures
            final(self).count() == old(self).count(),
            forall|other: Seq<char>| #[trigger]
                final(self).has_issued(other) <==> old(self).has_issued(other) || other == id@,
    {
        let ghost before = *self;
        if let Some(i) = self.find(id) {
            self.started.set(i, true);
            proof {
                let m = (i + 1) as nat;
                assert(self.has_started(m));
                assert forall|n: nat| 1 <= n <= before.count() && n != m implies self.has_started(n)
                    == #[trigger] before.has_started(n) by {}
                assert forall|other: Seq<char>| #[trigger] self.has_issued(other) implies (
                before.has_issued(other) || other == id@) by {
                    let n = choose|n: nat|
                        1 <= n <= self.count() && self.has_started(n) && other == #[trigger] nav_id(n);
                    if n != m {
                        assert(before.has_started(n));
                    }
                }
                assert forall|other: Seq<char>|
                    before.has_issued(other) || other == id@ implies #[trigger] self.has_issued(
                    other,
                ) by {
                    if before.has_issued(other) {
                        let n = choose|n: nat|
                            1 <= n <= before.count() && before.has_started(n) && other
                                == #[trigger] nav_id(n);
                        assert(self.has_started(n));
                    } else {
                        assert(other == nav_id(m));
                    }
                }
            }
        }
    }

    /// Whether a name was given to a navigation that has started.
    pub fn nav_id_is_known(&self, id: &str) -> (r: bool)
        ensures
            r == self.has_issued(id@),
    {
        match self.find(id) {
            Some(i) => {
                let r = self.started[i];
                proof {
                    let m = (i + 1) as nat;
                    assert(self.has_started(m) == r);
                    if self.has_issued(id@) {
                        let n = choose|n: nat|
                            1 <= n <= self.count() && self.has_started(n) && id@
                                == #[trigger] nav_id(n);
                        law_nav_ids_distinct(n, m);
                    }
                }
                r
            },
            None => false,
        }
    }
}

/// The number of a navigation is read back from its name.
proof fn lemma_nav_number(n: nat, rest: Seq<char>)
    requires
        n <= u64::MAX,
        nav_id(n) == "nav_"@ + rest,
    ensures
        rest == decimal(n),
        crate::text::read_u64(rest) == Some(n as u64),
{
    assert(nav_id(n).skip("nav_"@.len() as int) =~= decimal(n));
    assert(("nav_"@ + rest).skip("nav_"@.len() as int) =~= rest);
    lemma_decimal_value(n);
    assert(crate::text::is_digit(rest[0]));
    assert(crate::text::unsigned_part(rest) == rest);
}

/// Different navigations have different names.
pub proof fn law_nav_ids_distinct(a: nat, b: nat)
    requires
        nav_id(a) == nav_id(b),
    ensures
        a == b,
{
    assert(nav_id(a).skip("nav_"@.len() as int) =~= decimal(a));
    assert(nav_id(b).skip("nav_"@.len() as int) =~= decimal(b));
    lemma_decimal_injective(a, b);
}

// ---------------------------------------------------------------------
// The watchdog
// ---------------------------------------------------------------------

/// For how long code may run while a page's scripts are run, in milliseconds.
pub const SCRIPT_EVAL_BUDGET_MS: u64 = 5000;

/// For how long a script may be fetched, in milliseconds.
pub const SCRIPT_FETCH_TIMEOUT_MS: u64 = 8000;

/// Stops code that runs past its time. A time of zero is none.
#[derive(Debug, Clone, Copy, PartialEq, Eq, Structural)]
pub struct Watchdog {
    pub deadline_ms: u64,
}

/// Until when code may run that is given so many milliseconds: for ever where
/// these are none.
pub open spec fn deadline_after(now_ms: u64, ms: u64) -> int {
    if ms == 0 {
        0
    } else if now_ms + ms <= u64::MAX {
        now_ms + ms
    } else {
        u64::MAX as int
    }
}

impl Watchdog {
    /// One that stops nothing.
    pub fn new() -> (r: Watchdog)
        ensures
            r.deadline_ms == 0,
    {
        Watchdog { deadline_ms: 0 }
    }

    /// Gives code so many milliseconds from now on, and all the time it wants
    /// where these are none; says what time it had before.
    pub fn set_eval_deadline_from_now(&mut self, now_ms: u64, ms: u64) -> (r: u64)
        ensures
            r == old(self).deadline_ms,
            final(self).deadline_ms == deadline_after(now_ms, ms),
    {
        let before: u64 = self.deadline_ms;
        self.deadline_ms = if ms == 0 {
            0
        } else {
            now_ms.saturating_add(ms)
        };
        before
    }

    /// Gives code the time back that it had before.
    pub fn restore_eval_deadline(&mut self, before: u64)
        ensures
            final(self).deadline_ms == before,
    {
        self.deadline_ms = before;
    }

    /// Switches it off; says what time code had.
    pub fn suspend(&mut self) -> (r: u64)
        ensures
            r == old(self).deadline_ms,
            final(self).deadline_ms == 0,
    {
        let before: u64 = self.deadline_ms;
        self.deadline_ms = 0;
        before
    }

    /// Whether code that runs now is to be stopped.
    pub open spec fn fires(self, now_ms: u64) -> bool {
        self.deadline_ms != 0 && now_ms >= self.deadline_ms
    }

    /// Whether code that runs now is to be stopped.
    pub fn interrupts(&self, now_ms: u64) -> (r: bool)
        ensures
            r == self.fires(now_ms),
    {
        self.deadline_ms != 0 && now_ms >= self.deadline_ms
    }
}

/// Code that was given time is stopped once that is over, and not before; code
/// that was given none in particular is never stopped.
pub proof fn law_budget_is_kept(w: Watchdog, now_ms: u64, ms: u64, later_ms: u64)
    requires
        w.deadline_ms == deadline_after(now_ms, ms),
    ensures
        ms == 0 ==> !w.fires(later_ms),
        ms > 0 && now_ms + ms <= u64::MAX ==> (w.fires(later_ms) <==> later_ms >= now_ms + ms),
{
}

// ---------------------------------------------------------------------
// Headers
// ---------------------------------------------------------------------

/// Headers as they are answered: the names in lowercase, and the values of one
/// name behind each other.
pub open spec fn joined_headers(headers: Seq<(Seq<char>, Seq<char>)>) -> Seq<
    (Seq<char>, JsonModel),
>
    decreases headers.len(),
{
    if headers.len() == 0 {
        Seq::empty()
    } else {
        let front = joined_headers(headers.drop_last());
        let key = unicode_lowercase(headers.last().0);
        let value = match entry(front, key) {
            Some(JsonModel::Text(before)) => before + " || "@ + headers.last().1,
            _ => headers.last().1,
        };
        with_entry(front, key, JsonModel::Text(value))
    }
}

/// Headers with one value for each name, the last: the names in lowercase.
pub open spec fn flat_headers(headers: Seq<(Seq<char>, Seq<char>)>) -> Seq<(Seq<char>, JsonModel)>
    decreases headers.len(),
{
    if headers.len() == 0 {
        Seq::empty()
    } else {
        with_entry(
            flat_headers(headers.drop_last()),
            unicode_lowercase(headers.last().0),
            JsonModel::Text(headers.last().1),
        )
    }
}

/// The headers of a response: as they are answered, and with one value for each
/// name.
pub fn read_headers(headers: &Vec<(String, String)>) -> (r: (
    Vec<(String, Json)>,
    Vec<(String, Json)>,
))
    ensures
        entries_model(r.0@) == joined_headers(pairs_model(headers@)),
        entries_model(r.1@) == flat_headers(pairs_model(headers@)),
{
    let ghost m = pairs_model(headers@);
    let mut joined = no_entries();
    let mut flat = no_entries();
    let mut i: usize = 0;
    assert(m.take(0) =~= Seq::empty());
    while i < headers.len()
        invariant
            i <= headers.len(),
            m == pairs_model(headers@),
            entries_model(joined@) == joined_headers(m.take(i as int)),
            entries_model(flat@) == flat_headers(m.take(i as int)),
        decreases headers.len() - i,
    {
        proof {
            assert(m.take(i + 1).drop_last() =~= m.take(i as int));
            assert(m.take(i + 1).last() == m[i as int]);
        }
        let key = headers[i].0.as_str().to_lowercase();
        let value = &headers[i].1;
        let whole: String = match find_entry(&joined, key.as_str()) {
            Some(Json::Text(before)) => concat3(before.as_str(), " || ", value.as_str()),
            _ => value.clone(),
        };
        set_entry(&mut joined, key.as_str(), Json::Text(whole));
        set_entry(&mut flat, key.as_str(), Json::Text(value.clone()));
        i = i + 1;
    }
    assert(m.take(i as int) =~= m);
    (joined, flat)
}

/// Whether a status is that of a page or a redirection.
pub open spec fn is_good(status: u16) -> bool {
    200 <= status < 400
}

/// Whether the response to a navigation is kept for later: it is good, and it
/// has a body.
pub fn keeps_page(status: u16, body: &str) -> (r: bool)
    ensures
        r == (is_good(status) && body@.len() > 0),
{
    200 <= status && status < 400 && body.unicode_len() > 0
}

/// Whether the response to a fetch is kept for later: it is no error, and it
/// has a body.
pub fn keeps_fetch(error: &Option<String>, body: &str) -> (r: bool)
    ensures
        r == (error is None && body@.len() > 0),
{
    match error {
        Some(_) => false,
        None => body.unicode_len() > 0,
    }
}

// ---------------------------------------------------------------------
// The order of a navigation
// ---------------------------------------------------------------------

/// What is done in a navigation, one after the other.
#[derive(Debug, Clone, Copy, PartialEq, Eq, Structural)]
pub enum NavStep {
    /// Send the request.
    Send,
    /// Read the body of the response.
    ReadBody,
    /// Parse the page and make it the page of the environment.
    Seed,
    /// Tell that the navigation started, and the page where it is.
    Start,
    /// Fetch the scripts that are not skipped.
    FetchScripts,
    /// Run the scripts, each within the time for all.
    RunScripts,
    /// Tell the page that it is there.
    FireReady,
    /// Let the page come to rest.
    SettleReady,
    /// Tell the page that all of it is loaded.
    FireLoad,
    /// Let the page come to rest once more.
    SettleLoad,
    /// Tell what was decided in the navigation.
    Trace,
    /// Ask the page for its map.
    MapBlocks,
    /// Ask the page for its data.
    Extract,
    /// Tell of the navigation, and answer.
    Finish,
    /// Nothing is left to do.
    Done,
}

/// For how long, in milliseconds, and for how many rounds a page may take to
/// come to rest in a step, and the name of the step in events.
pub open spec fn rest_of(step: NavStep) -> Option<(u64, u32, Seq<char>)> {
    match step {
        NavStep::SettleReady => Some((2000, 100, "after_dcl"@)),
        NavStep::SettleLoad => Some((1500, 50, "after_load"@)),
        _ => None,
    }
}

/// For how long, in milliseconds, and for how many rounds a page may take to
/// come to rest in a step, and the name of the step in events.
pub fn rest_in(step: NavStep) -> (r: Option<(u64, u32, &'static str)>)
    ensures
        match r {
            Some((max_ms, max_iters, phase)) => rest_of(step) == Some((max_ms, max_iters, phase@)),
            None => rest_of(step) is None,
        },
{
    match step {
        NavStep::SettleReady => Some((2000, 100, "after_dcl")),
        NavStep::SettleLoad => Some((1500, 50, "after_load")),
        _ => None,
    }
}

/// What comes after a step: the next, or the words of a failure. `ok` is
/// whether the step went well, `exec_scripts` whether scripts are run,
/// `has_data` whether the page holds data.
pub open spec fn step_after(
    step: NavStep,
    ok: Result<(), Seq<char>>,
    exec_scripts: bool,
    status: u16,
    has_data: bool,
) -> Result<NavStep, Seq<char>> {
    match step {
        NavStep::Send => match ok {
            Ok(_) => Ok(NavStep::ReadBody),
            Err(_) => Err("http send"@),
        },
        NavStep::ReadBody => match ok {
            Ok(_) => Ok(NavStep::Seed),
            Err(_) => Err("read body"@),
        },
        NavStep::Seed => match ok {
            Ok(_) => Ok(NavStep::Start),
            Err(e) => Err("seed dom: "@ + e),
        },
        NavStep::Start => if exec_scripts && is_good(status) {
            Ok(NavStep::FetchScripts)
        } else {
            Ok(NavStep::Trace)
        },
        NavStep::FetchScripts => Ok(NavStep::RunScripts),
        NavStep::RunScripts => Ok(NavStep::FireReady),
        NavStep::FireReady => Ok(NavStep::SettleReady),
        NavStep::SettleReady => Ok(NavStep::FireLoad),
        NavStep::FireLoad => Ok(NavStep::SettleLoad),
        NavStep::SettleLoad => Ok(NavStep::Trace),
        NavStep::Trace => Ok(NavStep::MapBlocks),
        NavStep::MapBlocks => if has_data {
            Ok(NavStep::Extract)
        } else {
            Ok(NavStep::Finish)
        },
        NavStep::Extract => Ok(NavStep::Finish),
        NavStep::Finish => Ok(NavStep::Done),
        NavStep::Done => Ok(NavStep::Done),
    }
}

/// What comes after a step.
pub fn next_nav_step(
    step: NavStep,
    failure: &Option<String>,
    exec_scripts: bool,
    status: u16,
    has_data: bool,
) -> (r: Result<NavStep, String>)
    ensures
        (match r {
            Ok(s) => Ok(s),
            Err(e) => Err(e@),
        }) == step_after(
            step,
            match *failure {
                None => Ok(()),
                Some(e) => Err(e@),
            },
            exec_scripts,
            status,
            has_data,
        ),
{
    match step {
        NavStep::Send => match failure {
            None => Ok(NavStep::ReadBody),
            Some(_) => Err("http send".to_owned()),
        },
        NavStep::ReadBody => match failure {
            None => Ok(NavStep::Seed),
            Some(_) => Err("read body".to_owned()),
        },
        NavStep::Seed => match failure {
            None => Ok(NavStep::Start),
            Some(e) => Err(concat("seed dom: ", e.as_str())),
        },
        NavStep::Start => {
            if exec_scripts && 200 <= status && status < 400 {
                Ok(NavStep::FetchScripts)
            } else {
                Ok(NavStep::Trace)
            }
        },
        NavStep::FetchScripts => Ok(NavStep::RunScripts),
        NavStep::RunScripts => Ok(NavStep::FireReady),
        NavStep::FireReady => Ok(NavStep::SettleReady),
        NavStep::SettleReady => Ok(NavStep::FireLoad),
        NavStep::FireLoad => Ok(NavStep::SettleLoad),
        NavStep::SettleLoad => Ok(NavStep::Trace),
        NavStep::Trace => Ok(NavStep::MapBlocks),
        NavStep::MapBlocks => {
            if has_data {
                Ok(NavStep::Extract)
            } else {
                Ok(NavStep::Finish)
            }
        },
        NavStep::Extract => Ok(NavStep::Finish),
        NavStep::Finish => Ok(NavStep::Done),
        NavStep::Done => Ok(NavStep::Done),
    }
}

/// How many steps may still come.
pub open spec fn nav_steps_left(step: NavStep) -> nat {
    match step {
        NavStep::Send => 14,
        NavStep::ReadBody => 13,
        NavStep::Seed => 12,
        NavStep::Start => 11,
        NavStep::FetchScripts => 10,
        NavStep::RunScripts => 9,
        NavStep::FireReady => 8,
        NavStep::SettleReady => 7,
        NavStep::FireLoad => 6,
        NavStep::SettleLoad => 5,
        NavStep::Trace => 4,
        NavStep::MapBlocks => 3,
        NavStep::Extract => 2,
        NavStep::Finish => 1,
        NavStep::Done => 0,
    }
}

/// Whether a step comes after a navigation was told to have started.
pub open spec fn is_started(step: NavStep) -> bool {
    nav_steps_left(step) < nav_steps_left(NavStep::Start)
}

/// Whether a step comes after what was decided was told.
pub open spec fn is_traced(step: NavStep) -> bool {
    nav_steps_left(step) < nav_steps_left(NavStep::Trace)
}

/// A navigation that was told to have started does not fail.
pub proof fn law_started_never_fails(
    step: NavStep,
    ok: Result<(), Seq<char>>,
    exec_scripts: bool,
    status: u16,
    has_data: bool,
)
    requires
        step == NavStep::Start || is_started(step),
    ensures
        step_after(step, ok, exec_scripts, status, has_data) is Ok,
{
}

/// Whoever hears that a navigation started also hears what was decided in it:
/// no step leads past that one but that one itself. Before a navigation
/// started neither is told.
pub proof fn law_started_is_traced(
    step: NavStep,
    ok: Result<(), Seq<char>>,
    exec_scripts: bool,
    status: u16,
    has_data: bool,
)
    requires
        !is_traced(step),
    ensures
        step_after(step, ok, exec_scripts, status, has_data) matches Ok(next) && is_traced(next)
            ==> step == NavStep::Trace,
        step_after(step, ok, exec_scripts, status, has_data) matches Ok(next) && is_started(next)
            ==> is_started(step) || step == NavStep::Start,
{
}

/// A navigation comes to an end.
pub proof fn law_navigation_ends(
    step: NavStep,
    ok: Result<(), Seq<char>>,
    exec_scripts: bool,
    status: u16,
    has_data: bool,
)
    requires
        step != NavStep::Done,
    ensures
        step_after(step, ok, exec_scripts, status, has_data) matches Ok(next) ==> nav_steps_left(
            next,
        ) < nav_steps_left(step),
{
}

/// Scripts are only run where that was asked for and the response is good.
pub proof fn law_scripts_only_on_request(
    step: NavStep,
    ok: Result<(), Seq<char>>,
    exec_scripts: bool,
    status: u16,
    has_data: bool,
)
    requires
        !(exec_scripts && is_good(status)),
    ensures
        step_after(step, ok, exec_scripts, status, has_data) != Ok::<NavStep, Seq<char>>(
            NavStep::FetchScripts,
        ),
{
}

// ---------------------------------------------------------------------
// What is told on the way
// ---------------------------------------------------------------------

/// What is known of the page at a URL.
pub fn prefit_for<'a>(bundle: &'a Option<PrefitBundle>, url: &str) -> (r: Option<&'a DomainPrefit>)
    ensures
        match (r, *bundle, url_parsed(url@)) {
            (Some(d), Some(b), Ok(u)) => u.host matches Some(h) && domain_of(b@.domains, h) == Some(
                d@,
            ),
            (None, Some(b), Ok(u)) => u.host matches Some(h) ==> domain_of(b@.domains, h) is None,
            (r, _, _) => r is None,
        },
{
    match bundle {
        Some(b) => match find_host(url) {
            Some(h) => b.lookup_domain(h.as_str()),
            None => None,
        },
        None => None,
    }
}

/// What is told of a navigation that started.
pub open spec fn started_json(
    nav_id: Seq<char>,
    url: Seq<char>,
    status: u16,
    bytes: nat,
    exec_scripts: bool,
    policy_block: bool,
) -> JsonModel {
    JsonModel::Object(
        seq![
            ("schema_version"@, number_json(1)),
            ("navigation_id"@, JsonModel::Text(nav_id)),
            ("url"@, JsonModel::Text(url)),
            ("status"@, number_json(status as nat)),
            ("bytes"@, number_json(bytes)),
            ("exec_scripts"@, JsonModel::Bool(exec_scripts)),
            ("policy_block"@, JsonModel::Bool(policy_block)),
        ],
    )
}

/// Tells that a navigation started.
pub fn navigation_started(
    nav_id: &str,
    url: &str,
    status: u16,
    bytes: usize,
    exec_scripts: bool,
    policy_block: bool,
) -> (r: Event)
    ensures
        r@ == (
            "navigation_started"@,
            started_json(nav_id@, url@, status, bytes as nat, exec_scripts, policy_block),
        ),
{
    let mut e = no_entries();
    put(&mut e, "schema_version", json_number(1));
    put(&mut e, "navigation_id", json_text_of(nav_id));
    put(&mut e, "url", json_text_of(url));
    put(&mut e, "status", json_number(status as u64));
    put(&mut e, "bytes", json_number(bytes as u64));
    put(&mut e, "exec_scripts", Json::Bool(exec_scripts));
    put(&mut e, "policy_block", Json::Bool(policy_block));
    let data = object(e);
    assert(data@->Object_0 =~= started_json(
        nav_id@,
        url@,
        status,
        bytes as nat,
        exec_scripts,
        policy_block,
    )->Object_0);
    Event { name: "navigation_started", data }
}

/// What is told of what is known of a page.
pub open spec fn prefit_json(nav_id: Seq<char>, d: DomainModel) -> JsonModel {
    JsonModel::Object(
        seq![
            ("schema_version"@, number_json(1)),
            ("navigation_id"@, JsonModel::Text(nav_id)),
            ("domain"@, JsonModel::Text(d.domain)),
            ("framework"@, optional_text(d.framework)),
            ("blocklist_additions"@, number_json(d.blocklist_additions.len())),
            ("shape_hint"@, optional_text(d.shape_hint)),
            ("settle_distribution"@, written_settle(d.settle_distribution)),
        ],
    )
}

/// Tells what is known of a page.
pub fn prefit_applied(nav_id: &str, d: &DomainPrefit) -> (r: Event)
    ensures
        r@ == ("prefit_applied"@, prefit_json(nav_id@, d@)),
{
    let mut e = no_entries();
    put(&mut e, "schema_version", json_number(1));
    put(&mut e, "navigation_id", json_text_of(nav_id));
    put(&mut e, "domain", json_text_of(d.domain.as_str()));
    put(&mut e, "framework", json_optional_text(&d.framework));
    put(&mut e, "blocklist_additions", json_number(d.blocklist_additions.len() as u64));
    put(&mut e, "shape_hint", json_optional_text(&d.shape_hint));
    put(&mut e, "settle_distribution", encode_settle(&d.settle_distribution));
    let data = object(e);
    assert(data@->Object_0 =~= prefit_json(nav_id@, d@)->Object_0);
    Event { name: "prefit_applied", data }
}

/// A value, or null where there is none.
pub open spec fn value_or_null(v: Option<JsonModel>) -> JsonModel {
    match v {
        Some(j) => j,
        None => JsonModel::Null,
    }
}

/// What a value that may be missing stands for.
pub open spec fn held_model(v: Option<Json>) -> Option<JsonModel> {
    match v {
        Some(j) => Some(j@),
        None => None,
    }
}

/// A value, or null where there is none.
fn copy_or_null(v: &Option<Json>) -> (r: Json)
    ensures
        r@ == value_or_null(held_model(*v)),
{
    match v {
        Some(j) => j.copy(),
        None => Json::Null,
    }
}

/// Tells how a page came to rest.
pub fn settle_exit(nav_id: &str, phase: &str, result: &Json) -> (r: Event)
    ensures
        r@ == (
            "settle_exit"@,
            JsonModel::Object(
                seq![
                    ("schema_version"@, number_json(1)),
                    ("navigation_id"@, JsonModel::Text(nav_id@)),
                    ("phase"@, JsonModel::Text(phase@)),
                    ("result"@, result@),
                ],
            ),
        ),
{
    let mut e = no_entries();
    put(&mut e, "schema_version", json_number(1));
    put(&mut e, "navigation_id", json_text_of(nav_id));
    put(&mut e, "phase", json_text_of(phase));
    put(&mut e, "result", result.copy());
    let ghost want = seq![
        ("schema_version"@, number_json(1)),
        ("navigation_id"@, JsonModel::Text(nav_id@)),
        ("phase"@, JsonModel::Text(phase@)),
        ("result"@, result@),
    ];
    assert(entries_model(e@) =~= want);
    Event { name: "settle_exit", data: object(e) }
}

/// What came of the scripts of a page.
pub struct ScriptSummary {
    pub assembly: Assembly,
    pub tally: RunTally,
    pub fetch_errors: Vec<String>,
    pub after_dcl: Option<Json>,
    pub after_load: Option<Json>,
}

/// What is told of the scripts of a page.
pub open spec fn trace_scripts(s: ScriptSummary) -> JsonModel {
    JsonModel::Object(
        seq![
            ("inline"@, number_json(s.assembly.inline_count as nat)),
            ("external"@, number_json(s.assembly.external_count as nat)),
            ("async"@, number_json(s.assembly.async_count as nat)),
            ("skipped_blocklist"@, number_json(s.assembly.policy_blocked as nat)),
            ("fetch_failed"@, number_json(s.assembly.fetch_failed as nat)),
            ("executed"@, number_json(s.tally.executed as nat)),
            ("interrupted"@, number_json(s.tally.interrupted as nat)),
        ],
    )
}

/// What is told of how a page came to rest.
pub open spec fn trace_settle(s: ScriptSummary) -> JsonModel {
    JsonModel::Object(
        seq![
            ("after_dcl"@, value_or_null(held_model(s.after_dcl))),
            ("after_load"@, value_or_null(held_model(s.after_load))),
        ],
    )
}

/// What is told of what was decided in a navigation.
pub open spec fn trace_json(
    nav_id: Seq<char>,
    url: Seq<char>,
    policy_block: bool,
    summary: Option<ScriptSummary>,
    elapsed_ms: u64,
) -> JsonModel {
    JsonModel::Object(
        seq![
            ("schema_version"@, number_json(1)),
            ("navigation_id"@, JsonModel::Text(nav_id)),
            ("url"@, JsonModel::Text(url)),
            ("policy_block"@, JsonModel::Bool(policy_block)),
            (
                "scripts"@,
                match summary {
                    Some(s) => trace_scripts(s),
                    None => JsonModel::Null,
                },
            ),
            (
                "settle"@,
                match summary {
                    Some(s) => trace_settle(s),
                    None => JsonModel::Null,
                },
            ),
            ("elapsed_ms"@, number_json(elapsed_ms as nat)),
        ],
    )
}

impl ScriptSummary {
    fn trace_scripts_value(&self) -> (r: Json)
        ensures
            r@ == trace_scripts(*self),
    {
        let mut e = no_entries();
        put(&mut e, "inline", json_number(self.assembly.inline_count as u64));
        put(&mut e, "external", json_number(self.assembly.external_count as u64));
        put(&mut e, "async", json_number(self.assembly.async_count as u64));
        put(&mut e, "skipped_blocklist", json_number(self.assembly.policy_blocked as u64));
        put(&mut e, "fetch_failed", json_number(self.assembly.fetch_failed as u64));
        put(&mut e, "executed", json_number(self.tally.executed as u64));
        put(&mut e, "interrupted", json_number(self.tally.interrupted as u64));
        let r = object(e);
        assert(r@->Object_0 =~= trace_scripts(*self)->Object_0);
        r
    }

    fn trace_settle_value(&self) -> (r: Json)
        ensures
            r@ == trace_settle(*self),
    {
        let mut e = no_entries();
        put(&mut e, "after_dcl", copy_or_null(&self.after_dcl));
        put(&mut e, "after_load", copy_or_null(&self.after_load));
        let r = object(e);
        assert(r@->Object_0 =~= trace_settle(*self)->Object_0);
        r
    }

    /// What is answered about the scripts of a page.
    pub fn to_value(&self) -> (r: Json)
        ensures
            r@ == summary_json(*self),
    {
        let mut e = no_entries();
        put(&mut e, "inline_count", json_number(self.assembly.inline_count as u64));
        put(&mut e, "external_count", json_number(self.assembly.external_count as u64));
        put(&mut e, "async_count", json_number(self.assembly.async_count as u64));
        put(&mut e, "policy_blocked", json_number(self.assembly.policy_blocked as u64));
        put(&mut e, "fetch_failed", json_number(self.assembly.fetch_failed as u64));
        put(&mut e, "executed", json_number(self.tally.executed as u64));
        put(&mut e, "interrupted", json_number(self.tally.interrupted as u64));
        put(&mut e, "errors_count", json_number(self.tally.errors.len() as u64));
        put(&mut e, "errors", build_first_ten(&self.tally.errors));
        put(&mut e, "fetch_errors_count", json_number(self.fetch_errors.len() as u64));
        put(&mut e, "fetch_errors", build_first_ten(&self.fetch_errors));
        put(&mut e, "settle_after_dcl", copy_or_null(&self.after_dcl));
        put(&mut e, "settle_after_load", copy_or_null(&self.after_load));
        let r = object(e);
        assert(r@->Object_0 =~= summary_json(*self)->Object_0);
        r
    }
}

/// The first ten of some texts.
pub open spec fn first_ten(texts: Seq<Seq<char>>) -> JsonModel {
    JsonModel::Array(
        Seq::new(
            if texts.len() < 10 {
                texts.len()
            } else {
                10
            },
            |i: int| JsonModel::Text(texts[i]),
        ),
    )
}

/// The first ten of some texts.
fn build_first_ten(texts: &Vec<String>) -> (r: Json)
    ensures
        r@ == first_ten(texts_model(texts@)),
{
    let n: usize = if texts.len() < 10 {
        texts.len()
    } else {
        10
    };
    let ghost all = first_ten(texts_model(texts@))->Array_0;
    let mut out: Vec<Json> = Vec::new();
    let mut i: usize = 0;
    while i < n
        invariant
            i <= n <= texts.len(),
            n == all.len(),
            all == first_ten(texts_model(texts@))->Array_0,
            items_model(out@) =~= all.take(i as int),
        decreases n - i,
    {
        broadcast use lemma_items_push;

        out.push(Json::Text(texts[i].clone()));
        assert(all.take(i + 1) =~= all.take(i as int).push(all[i as int]));
        i = i + 1;
    }
    assert(all.take(i as int) =~= all);
    array(out)
}

/// What is answered about the scripts of a page.
pub open spec fn summary_json(s: ScriptSummary) -> JsonModel {
    JsonModel::Object(
        seq![
            ("inline_count"@, number_json(s.assembly.inline_count as nat)),
            ("external_count"@, number_json(s.assembly.external_count as nat)),
            ("async_count"@, number_json(s.assembly.async_count as nat)),
            ("policy_blocked"@, number_json(s.assembly.policy_blocked as nat)),
            ("fetch_failed"@, number_json(s.assembly.fetch_failed as nat)),
            ("executed"@, number_json(s.tally.executed as nat)),
            ("interrupted"@, number_json(s.tally.interrupted as nat)),
            ("errors_count"@, number_json(s.tally.errors@.len())),
            ("errors"@, first_ten(texts_model(s.tally.errors@))),
            ("fetch_errors_count"@, number_json(s.fetch_errors@.len())),
            ("fetch_errors"@, first_ten(texts_model(s.fetch_errors@))),
            ("settle_after_dcl"@, value_or_null(held_model(s.after_dcl))),
            ("settle_after_load"@, value_or_null(held_model(s.after_load))),
        ],
    )
}

/// Tells what was decided in a navigation; little where no scripts were run.
pub fn policy_trace(
    nav_id: &str,
    url: &str,
    policy_block: bool,
    summary: &Option<ScriptSummary>,
    elapsed_ms: u64,
) -> (r: Event)
    ensures
        r@ == ("policy_trace"@, trace_json(nav_id@, url@, policy_block, *summary, elapsed_ms)),
{
    let mut e = no_entries();
    put(&mut e, "schema_version", json_number(1));
    put(&mut e, "navigation_id", json_text_of(nav_id));
    put(&mut e, "url", json_text_of(url));
    put(&mut e, "policy_block", Json::Bool(policy_block));
    match summary {
        Some(s) => {
            put(&mut e, "scripts", s.trace_scripts_value());
            put(&mut e, "settle", s.trace_settle_value());
        },
        None => {
            put(&mut e, "scripts", Json::Null);
            put(&mut e, "settle", Json::Null);
        },
    }
    put(&mut e, "elapsed_ms", json_number(elapsed_ms));
    let data = object(e);
    assert(data@->Object_0 =~= trace_json(
        nav_id@,
        url@,
        policy_block,
        *summary,
        elapsed_ms,
    )->Object_0);
    Event { name: "policy_trace", data }
}

// ---------------------------------------------------------------------
// Data that a page holds
// ---------------------------------------------------------------------

/// How many bytes of data go into the answer to a navigation.
pub const MAX_INLINE_EXTRACT_BYTES: usize = 262144;

/// How many scripts with data the map of a page counts.
pub open spec fn data_scripts(map: JsonModel) -> u64 {
    match map.get("density"@) {
        Some(d) => match d.u64_at("json_scripts"@) {
            Some(n) => n,
            None => 0,
        },
        None => 0,
    }
}

/// Whether a page holds data, by its map.
pub fn holds_data(map: &Json) -> (r: bool)
    ensures
        r == (data_scripts(map@) > 0),
{
    match map.get("density") {
        Some(d) => match d.u64_at("json_scripts") {
            Some(n) => n > 0,
            None => false,
        },
        None => false,
    }
}

/// What goes into the answer of data that take so many bytes: the data, or
/// word of them where they are too long.
pub open spec fn inlined(data: JsonModel, size: nat) -> JsonModel {
    if size > MAX_INLINE_EXTRACT_BYTES {
        JsonModel::Object(
            seq![
                ("strategy"@, value_or_null(data.get("strategy"@))),
                ("confidence"@, value_or_null(data.get("confidence"@))),
                ("data"@, JsonModel::Null),
                ("truncated"@, JsonModel::Bool(true)),
                ("size_bytes"@, number_json(size)),
                (
                    "hint"@,
                    JsonModel::Text(
                        "extract result "@ + decimal(size) + " bytes exceeds "@ + decimal(
                            MAX_INLINE_EXTRACT_BYTES as nat,
                        ) + " byte inline cap; call extract() to retrieve full data"@,
                    ),
                ),
            ],
        )
    } else {
        data
    }
}

/// What an object holds under a key, or null.
fn copy_at(data: &Json, key: &str) -> (r: Json)
    ensures
        r@ == value_or_null(data@.get(key@)),
{
    match data.get(key) {
        Some(v) => v.copy(),
        None => Json::Null,
    }
}

/// What goes into the answer of data that take so many bytes.
pub fn inline_data(data: &Json, size: usize) -> (r: Json)
    ensures
        r@ == inlined(data@, size as nat),
{
    if size > MAX_INLINE_EXTRACT_BYTES {
        let mut e = no_entries();
        put(&mut e, "strategy", copy_at(data, "strategy"));
        put(&mut e, "confidence", copy_at(data, "confidence"));
        put(&mut e, "data", Json::Null);
        put(&mut e, "truncated", Json::Bool(true));
        put(&mut e, "size_bytes", json_number(size as u64));
        let mut hint = "extract result ".to_owned();
        hint.append(to_decimal(size as u64).as_str());
        hint.append(" bytes exceeds ");
        hint.append(to_decimal(MAX_INLINE_EXTRACT_BYTES as u64).as_str());
        hint.append(" byte inline cap; call extract() to retrieve full data");
        put(&mut e, "hint", json_text_of(hint.as_str()));
        let r = object(e);
        assert(r@->Object_0 =~= inlined(data@, size as nat)->Object_0);
        r
    } else {
        data.copy()
    }
}

/// What goes into the answer of the data of a page.
pub fn auto_extract(data: &Json) -> (r: Json)
    ensures
        r@ == inlined(data@, encode_utf8(json_printed(with_map_entries(data@))).len()),
{
    let text = print_json(data);
    let size: usize = text.as_str().as_bytes().len();
    inline_data(data, size)
}

/// Data that fit are answered whole; others never are.
pub proof fn law_inline_cap(data: JsonModel, size: nat)
    ensures
        size <= MAX_INLINE_EXTRACT_BYTES ==> inlined(data, size) == data,
        size > MAX_INLINE_EXTRACT_BYTES ==> inlined(data, size).get("data"@) == Some(
            JsonModel::Null,
        ),
{
    if size > MAX_INLINE_EXTRACT_BYTES {
        reveal_strlit("strategy");
        reveal_strlit("confidence");
        reveal_strlit("data");
        assert("strategy"@.len() == 8);
        assert("confidence"@.len() == 10);
        assert("data"@.len() == 4);
        let e = inlined(data, size)->Object_0;
        crate::json::lemma_entry_skip(e, "data"@, 2);
        assert(e.skip(2)[0] == e[2]);
    }
}

// ---------------------------------------------------------------------
// The answer
// ---------------------------------------------------------------------

/// What a part of an answer holds under a key; null where there is no such
/// part.
pub open spec fn part_at(part: Option<JsonModel>, key: Seq<char>) -> JsonModel {
    match part {
        Some(j) => value_or_null(j.get(key)),
        None => JsonModel::Null,
    }
}

fn copy_part_at(part: &Option<Json>, key: &str) -> (r: Json)
    ensures
        r@ == part_at(held_model(*part), key@),
{
    match part {
        Some(j) => copy_at(j, key),
        None => Json::Null,
    }
}

/// What came of a navigation.
pub struct NavResult {
    pub navigation_id: String,
    pub status: u16,
    pub url: String,
    pub bytes: usize,
    pub headers: Vec<(String, Json)>,
    pub blockmap: Json,
    pub challenge: Option<Json>,
    pub scripts: Option<Json>,
    pub extract: Option<Json>,
    pub extract_error: Option<String>,
    pub network_stores: Option<Json>,
}

/// What is told at the end of a navigation.
pub open spec fn navigate_json(n: NavResult, elapsed_ms: u64, exec_scripts: bool) -> JsonModel {
    JsonModel::Object(
        seq![
            ("url"@, JsonModel::Text(n.url@)),
            ("status"@, number_json(n.status as nat)),
            ("bytes"@, number_json(n.bytes as nat)),
            ("elapsed_ms"@, number_json(elapsed_ms as nat)),
            ("exec_scripts"@, JsonModel::Bool(exec_scripts)),
            ("scripts_executed"@, part_at(held_model(n.scripts), "executed"@)),
            ("scripts_interrupted"@, part_at(held_model(n.scripts), "interrupted"@)),
            ("auto_extract_strategy"@, part_at(held_model(n.extract), "strategy"@)),
            ("auto_extract_confidence"@, part_at(held_model(n.extract), "confidence"@)),
            ("auto_extract_truncated"@, part_at(held_model(n.extract), "truncated"@)),
            ("auto_extract_error"@, optional_text(option_model(n.extract_error))),
        ],
    )
}

/// What is answered to a navigation.
pub open spec fn result_json(n: NavResult) -> JsonModel {
    JsonModel::Object(
        seq![
            ("navigation_id"@, JsonModel::Text(n.navigation_id@)),
            ("status"@, number_json(n.status as nat)),
            ("url"@, JsonModel::Text(n.url@)),
            ("bytes"@, number_json(n.bytes as nat)),
            ("headers"@, JsonModel::Object(entries_model(n.headers@))),
            ("blockmap"@, n.blockmap@),
            ("challenge"@, value_or_null(held_model(n.challenge))),
            ("scripts"@, value_or_null(held_model(n.scripts))),
            ("extract"@, value_or_null(held_model(n.extract))),
            ("network_stores"@, value_or_null(held_model(n.network_stores))),
        ],
    )
}

impl NavResult {
    /// Tells of the navigation.
    pub fn event(&self, elapsed_ms: u64, exec_scripts: bool) -> (r: Event)
        ensures
            r@ == ("navigate"@, navigate_json(*self, elapsed_ms, exec_scripts)),
    {
        let mut e = no_entries();
        put(&mut e, "url", json_text_of(self.url.as_str()));
        put(&mut e, "status", json_number(self.status as u64));
        put(&mut e, "bytes", json_number(self.bytes as u64));
        put(&mut e, "elapsed_ms", json_number(elapsed_ms));
        put(&mut e, "exec_scripts", Json::Bool(exec_scripts));
        put(&mut e, "scripts_executed", copy_part_at(&self.scripts, "executed"));
        put(&mut e, "scripts_interrupted", copy_part_at(&self.scripts, "interrupted"));
        put(&mut e, "auto_extract_strategy", copy_part_at(&self.extract, "strategy"));
        put(&mut e, "auto_extract_confidence", copy_part_at(&self.extract, "confidence"));
        put(&mut e, "auto_extract_truncated", copy_part_at(&self.extract, "truncated"));
        put(&mut e, "auto_extract_error", json_optional_text(&self.extract_error));
        let data = object(e);
        assert(data@->Object_0 =~= navigate_json(*self, elapsed_ms, exec_scripts)->Object_0);
        Event { name: "navigate", data }
    }

    /// What is answered.
    pub fn to_value(&self) -> (r: Json)
        ensures
            r@ == result_json(*self),
    {
        let mut e = no_entries();
        put(&mut e, "navigation_id", json_text_of(self.navigation_id.as_str()));
        put(&mut e, "status", json_number(self.status as u64));
        put(&mut e, "url", json_text_of(self.url.as_str()));
        put(&mut e, "bytes", json_number(self.bytes as u64));
        put(&mut e, "headers", object(copy_entries(&self.headers)));
        put(&mut e, "blockmap", self.blockmap.copy());
        put(&mut e, "challenge", copy_or_null(&self.challenge));
        put(&mut e, "scripts", copy_or_null(&self.scripts));
        put(&mut e, "extract", copy_or_null(&self.extract));
        put(&mut e, "network_stores", copy_or_null(&self.network_stores));
        let r = object(e);
        assert(r@->Object_0 =~= result_json(*self)->Object_0);
        r
    }
}

/// The same entries once more.
pub fn copy_entries(entries: &Vec<(String, Json)>) -> (r: Vec<(String, Json)>)
    ensures
        entries_model(r@) == entries_model(entries@),
{
    let mut out = no_entries();
    let ghost all = entries_model(entries@);
    let mut i: usize = 0;
    while i < entries.len()
        invariant
            i <= entries.len(),
            all == entries_model(entries@),
            entries_model(out@) =~= all.take(i as int),
        decreases entries.len() - i,
    {
        let v = entries[i].1.copy();
        put(&mut out, entries[i].0.as_str(), v);
        assert(all.take(i + 1) =~= all.take(i as int).push(all[i as int]));
        i = i + 1;
    }
    assert(all.take(i as int) =~= all);
    out
}

// ---------------------------------------------------------------------
// What holds of every event
// ---------------------------------------------------------------------

/// Whether an event says which version of the events it follows and which
/// navigation it belongs to.
pub open spec fn carries(data: JsonModel, nav_id: Seq<char>) -> bool {
    &&& data.get("schema_version"@) == Some(number_json(1))
    &&& data.get("navigation_id"@) == Some(JsonModel::Text(nav_id))
}

proof fn lemma_carries(entries: Seq<(Seq<char>, JsonModel)>, nav_id: Seq<char>)
    requires
        entries.len() >= 2,
        entries[0] == ("schema_version"@, number_json(1)),
        entries[1] == ("navigation_id"@, JsonModel::Text(nav_id)),
    ensures
        carries(JsonModel::Object(entries), nav_id),
{
    reveal_strlit("schema_version");
    reveal_strlit("navigation_id");
    assert("schema_version"@.len() == 14);
    assert("navigation_id"@.len() == 13);
    crate::json::lemma_entry_skip(entries, "navigation_id"@, 1);
    assert(entries.skip(1)[0] == entries[1]);
}

/// Everything that is told of a navigation says which navigation it belongs
/// to: that it started, what is known of the page, and what was decided in it.
pub proof fn law_navigation_events_carry_id(
    nav_id: Seq<char>,
    url: Seq<char>,
    status: u16,
    bytes: nat,
    flags: (bool, bool),
    d: DomainModel,
    summary: Option<ScriptSummary>,
    elapsed_ms: u64,
)
    ensures
        carries(started_json(nav_id, url, status, bytes, flags.0, flags.1), nav_id),
        carries(prefit_json(nav_id, d), nav_id),
        carries(trace_json(nav_id, url, flags.1, summary, elapsed_ms), nav_id),
{
    lemma_carries(started_json(nav_id, url, status, bytes, flags.0, flags.1)->Object_0, nav_id);
    lemma_carries(prefit_json(nav_id, d)->Object_0, nav_id);
    lemma_carries(trace_json(nav_id, url, flags.1, summary, elapsed_ms)->Object_0, nav_id);
}

/// Everything that is told of a script says which navigation it belongs to,
/// but for the short notice of a blocked URL.
pub proof fn law_script_events_carry_id(
    nav_id: Seq<char>,
    id: nat,
    item: ScriptModel,
    fate: FateModel,
    source: SourceModel,
    duration_us: u64,
    error: Option<Seq<char>>,
)
    ensures
        carries(executed_json(nav_id, source, duration_us, error), nav_id),
        forall|i: int|
            0 <= i < skip_events(nav_id, id, item, fate).len() && (#[trigger] skip_events(
                nav_id,
                id,
                item,
                fate,
            )[i]).0 != "policy_blocked"@ ==> carries(
                skip_events(nav_id, id, item, fate)[i].1,
                nav_id,
            ),
{
    lemma_carries(executed_json(nav_id, source, duration_us, error)->Object_0, nav_id);
    let events = skip_events(nav_id, id, item, fate);
    if events.len() > 0 {
        lemma_carries(events[0].1->Object_0, nav_id);
    }
}

/// Whether a script waits to be run or could not be fetched is told with the
/// navigation that it belongs to.
pub proof fn law_queue_events_carry_id(p: PageScripts, nav_id: Seq<char>, n: int)
    requires
        0 <= n <= p.items.len(),
    ensures
        forall|i: int|
            0 <= i < p.reports(nav_id, n).len() ==> carries(
                (#[trigger] p.reports(nav_id, n)[i]).1,
                nav_id,
            ),
    decreases n,
{
    if n > 0 {
        law_queue_events_carry_id(p, nav_id, n - 1);
        let front = p.reports(nav_id, n - 1);
        let all = p.reports(nav_id, n);
        assert forall|i: int| 0 <= i < all.len() implies carries((#[trigger] all[i]).1, nav_id) by {
            if i < front.len() {
                assert(all[i] == front[i]);
            } else {
                lemma_carries(all[i].1->Object_0, nav_id);
            }
        }
    }
}

/// What is told of how a task went says which navigation it belongs to.
pub proof fn law_outcome_carries_id(ids: NavIds, params: JsonModel, nav_id: Seq<char>)
    ensures
        outcome_of(ids, params, nav_id) matches Ok(data) ==> carries(data, nav_id),
{
    if let Ok(data) = outcome_of(ids, params, nav_id) {
        lemma_carries(data->Object_0, nav_id);
    }
}

/// What a navigation does next, by where it stands: a failure to send, to read
/// or to build the page ends it with words of its own, and nothing else does;
/// scripts are run exactly where that was asked for and the response is good;
/// and the data of a page are extracted exactly where it holds any, whether or
/// not its scripts were run.
pub proof fn law_steps_of_a_navigation(
    step: NavStep,
    failure: &Option<String>,
    exec_scripts: bool,
    status: u16,
    has_data: bool,
    r: Result<NavStep, String>,
)
    requires
        call_ensures(next_nav_step, (step, failure, exec_scripts, status, has_data), r),
    ensures
        r is Err <==> *failure is Some && (step == NavStep::Send || step == NavStep::ReadBody || step
            == NavStep::Seed),
        r matches Err(e) ==> {
            &&& step == NavStep::Send ==> e@ == "http send"@
            &&& step == NavStep::ReadBody ==> e@ == "read body"@
            &&& step == NavStep::Seed ==> e@ == "seed dom: "@ + failure->0@
        },
        r matches Ok(next) ==> {
            &&& next != NavStep::Send
            &&& next == NavStep::ReadBody <==> step == NavStep::Send
            &&& next == NavStep::Seed <==> step == NavStep::ReadBody
            &&& next == NavStep::Start <==> step == NavStep::Seed
            &&& next == NavStep::FetchScripts <==> step == NavStep::Start && exec_scripts && 200
                <= status < 400
            &&& next == NavStep::RunScripts <==> step == NavStep::FetchScripts
            &&& next == NavStep::FireReady <==> step == NavStep::RunScripts
            &&& next == NavStep::SettleReady <==> step == NavStep::FireReady
            &&& next == NavStep::FireLoad <==> step == NavStep::SettleReady
            &&& next == NavStep::SettleLoad <==> step == NavStep::FireLoad
            &&& next == NavStep::MapBlocks <==> step == NavStep::Trace
            &&& next == NavStep::Extract <==> step == NavStep::MapBlocks && has_data
            &&& next == NavStep::Finish <==> step == NavStep::Extract || (step == NavStep::MapBlocks
                && !has_data)
            &&& next == NavStep::Done <==> step == NavStep::Finish || step == NavStep::Done
        },
{
}

/// The answer to a navigation says what came of it, part by part: what was not
/// there is null, and what was there is answered as it was.
pub proof fn law_answer_to_a_navigation(n: &NavResult, r: Json)
    requires
        call_ensures(NavResult::to_value, (n,), r),
    ensures
        r@.text_at("navigation_id"@) == Some(n.navigation_id@),
        r@.u64_at("status"@) == Some(n.status as u64),
        r@.text_at("url"@) == Some(n.url@),
        r@.u64_at("bytes"@) == Some(n.bytes as u64),
        r@.get("headers"@) == Some(JsonModel::Object(entries_model(n.headers@))),
        r@.get("blockmap"@) == Some(n.blockmap@),
        r@.get("challenge"@) == Some(
            if n.challenge is Some {
                n.challenge->0@
            } else {
                JsonModel::Null
            },
        ),
        r@.get("scripts"@) == Some(
            if n.scripts is Some {
                n.scripts->0@
            } else {
                JsonModel::Null
            },
        ),
        r@.get("extract"@) == Some(
            if n.extract is Some {
                n.extract->0@
            } else {
                JsonModel::Null
            },
        ),
        r@.get("network_stores"@) == Some(
            if n.network_stores is Some {
                n.network_stores->0@
            } else {
                JsonModel::Null
            },
        ),
{
    reveal_strlit("navigation_id");
    reveal_strlit("status");
    reveal_strlit("url");
    reveal_strlit("bytes");
    reveal_strlit("headers");
    reveal_strlit("blockmap");
    reveal_strlit("challenge");
    reveal_strlit("scripts");
    reveal_strlit("extract");
    reveal_strlit("network_stores");
    assert("navigation_id"@.len() == 13);
    assert("status"@.len() == 6);
    assert("url"@.len() == 3);
    assert("bytes"@.len() == 5);
    assert("headers"@.len() == 7);
    assert("blockmap"@.len() == 8);
    assert("challenge"@.len() == 9);
    assert("scripts"@.len() == 7);
    assert("extract"@.len() == 7);
    assert("network_stores"@.len() == 14);
    assert("headers"@[0] != "scripts"@[0]);
    assert("headers"@[0] != "extract"@[0]);
    assert("scripts"@[0] != "extract"@[0]);
    let e = r@->Object_0;
    lemma_entry_at(e, "navigation_id"@, 0);
    lemma_entry_at(e, "status"@, 1);
    lemma_entry_at(e, "url"@, 2);
    lemma_entry_at(e, "bytes"@, 3);
    lemma_entry_at(e, "headers"@, 4);
    lemma_entry_at(e, "blockmap"@, 5);
    lemma_entry_at(e, "challenge"@, 6);
    lemma_entry_at(e, "scripts"@, 7);
    lemma_entry_at(e, "extract"@, 8);
    lemma_entry_at(e, "network_stores"@, 9);
}

/// What is told of the start of a navigation, of what is known of its page and of
/// its end says what these were.
pub proof fn law_events_say_what_happened(
    nav_id: Seq<char>,
    url: Seq<char>,
    status: u16,
    bytes: usize,
    flags: (bool, bool),
    d: DomainModel,
    n: NavResult,
    elapsed_ms: u64,
)
    ensures
        started_json(nav_id, url, status, bytes as nat, flags.0, flags.1).u64_at("schema_version"@) == Some(1u64),
        started_json(nav_id, url, status, bytes as nat, flags.0, flags.1).text_at("navigation_id"@) == Some(nav_id),
        started_json(nav_id, url, status, bytes as nat, flags.0, flags.1).text_at("url"@) == Some(url),
        started_json(nav_id, url, status, bytes as nat, flags.0, flags.1).u64_at("status"@) == Some(status as u64),
        started_json(nav_id, url, status, bytes as nat, flags.0, flags.1).u64_at("bytes"@) == Some(bytes as u64),
        started_json(nav_id, url, status, bytes as nat, flags.0, flags.1).bool_at("exec_scripts"@) == Some(flags.0),
        started_json(nav_id, url, status, bytes as nat, flags.0, flags.1).bool_at("policy_block"@) == Some(flags.1),
        prefit_json(nav_id, d).u64_at("schema_version"@) == Some(1u64),
        prefit_json(nav_id, d).text_at("navigation_id"@) == Some(nav_id),
        prefit_json(nav_id, d).text_at("domain"@) == Some(d.domain),
        prefit_json(nav_id, d).get("blocklist_additions"@) == Some(number_json(d.blocklist_additions.len())),
        prefit_json(nav_id, d).get("settle_distribution"@) == Some(written_settle(d.settle_distribution)),
        navigate_json(n, elapsed_ms, flags.0).text_at("url"@) == Some(n.url@),
        navigate_json(n, elapsed_ms, flags.0).u64_at("status"@) == Some(n.status as u64),
        navigate_json(n, elapsed_ms, flags.0).u64_at("bytes"@) == Some(n.bytes as u64),
        navigate_json(n, elapsed_ms, flags.0).u64_at("elapsed_ms"@) == Some(elapsed_ms),
        navigate_json(n, elapsed_ms, flags.0).bool_at("exec_scripts"@) == Some(flags.0),
        prefit_json(nav_id, d).text_at("framework"@) == d.framework,
        prefit_json(nav_id, d).text_at("shape_hint"@) == d.shape_hint,
        navigate_json(n, elapsed_ms, flags.0).text_at("auto_extract_error"@) == option_model(
            n.extract_error,
        ),
        (n.scripts matches Some(p) ==> p@.get("executed"@) matches Some(v) ==> navigate_json(
            n,
            elapsed_ms,
            flags.0,
        ).get("scripts_executed"@) == Some(v)),
        (n.scripts matches Some(p) ==> p@.get("interrupted"@) matches Some(v) ==> navigate_json(
            n,
            elapsed_ms,
            flags.0,
        ).get("scripts_interrupted"@) == Some(v)),
        (n.extract matches Some(p) ==> p@.get("strategy"@) matches Some(v) ==> navigate_json(
            n,
            elapsed_ms,
            flags.0,
        ).get("auto_extract_strategy"@) == Some(v)),
        (n.extract matches Some(p) ==> p@.get("confidence"@) matches Some(v) ==> navigate_json(
            n,
            elapsed_ms,
            flags.0,
        ).get("auto_extract_confidence"@) == Some(v)),
        (n.extract matches Some(p) ==> p@.get("truncated"@) matches Some(v) ==> navigate_json(
            n,
            elapsed_ms,
            flags.0,
        ).get("auto_extract_truncated"@) == Some(v)),
{
    reveal_strlit("schema_version");
    reveal_strlit("navigation_id");
    reveal_strlit("url");
    reveal_strlit("status");
    reveal_strlit("bytes");
    reveal_strlit("exec_scripts");
    reveal_strlit("policy_block");
    reveal_strlit("domain");
    reveal_strlit("framework");
    reveal_strlit("blocklist_additions");
    reveal_strlit("shape_hint");
    reveal_strlit("settle_distribution");
    reveal_strlit("elapsed_ms");
    reveal_strlit("scripts_executed");
    reveal_strlit("scripts_interrupted");
    reveal_strlit("auto_extract_strategy");
    reveal_strlit("auto_extract_confidence");
    reveal_strlit("auto_extract_truncated");
    reveal_strlit("auto_extract_error");
    assert("schema_version"@.len() == 14);
    assert("navigation_id"@.len() == 13);
    assert("url"@.len() == 3);
    assert("status"@.len() == 6);
    assert("bytes"@.len() == 5);
    assert("exec_scripts"@.len() == 12);
    assert("policy_block"@.len() == 12);
    assert("domain"@.len() == 6);
    assert("framework"@.len() == 9);
    assert("blocklist_additions"@.len() == 19);
    assert("shape_hint"@.len() == 10);
    assert("settle_distribution"@.len() == 19);
    assert("elapsed_ms"@.len() == 10);
    assert("scripts_executed"@.len() == 16);
    assert("scripts_interrupted"@.len() == 19);
    assert("auto_extract_strategy"@.len() == 21);
    assert("auto_extract_confidence"@.len() == 23);
    assert("auto_extract_truncated"@.len() == 22);
    assert("auto_extract_error"@.len() == 18);
    assert("exec_scripts"@[0] != "policy_block"@[0]);
    assert("blocklist_additions"@[0] != "settle_distribution"@[0]);
    let e0 = started_json(nav_id, url, status, bytes as nat, flags.0, flags.1)->Object_0;
    lemma_entry_at(e0, "schema_version"@, 0);
    lemma_entry_at(e0, "navigation_id"@, 1);
    lemma_entry_at(e0, "url"@, 2);
    lemma_entry_at(e0, "status"@, 3);
    lemma_entry_at(e0, "bytes"@, 4);
    lemma_entry_at(e0, "exec_scripts"@, 5);
    lemma_entry_at(e0, "policy_block"@, 6);
    let e1 = prefit_json(nav_id, d)->Object_0;
    lemma_entry_at(e1, "schema_version"@, 0);
    lemma_entry_at(e1, "navigation_id"@, 1);
    lemma_entry_at(e1, "domain"@, 2);
    lemma_entry_at(e1, "framework"@, 3);
    lemma_entry_at(e1, "blocklist_additions"@, 4);
    lemma_entry_at(e1, "shape_hint"@, 5);
    lemma_entry_at(e1, "settle_distribution"@, 6);
    let e2 = navigate_json(n, elapsed_ms, flags.0)->Object_0;
    lemma_entry_at(e2, "url"@, 0);
    lemma_entry_at(e2, "status"@, 1);
    lemma_entry_at(e2, "bytes"@, 2);
    lemma_entry_at(e2, "elapsed_ms"@, 3);
    lemma_entry_at(e2, "exec_scripts"@, 4);
    lemma_entry_at(e2, "scripts_executed"@, 5);
    lemma_entry_at(e2, "scripts_interrupted"@, 6);
    lemma_entry_at(e2, "auto_extract_strategy"@, 7);
    lemma_entry_at(e2, "auto_extract_confidence"@, 8);
    lemma_entry_at(e2, "auto_extract_truncated"@, 9);
    lemma_entry_at(e2, "auto_extract_error"@, 10);
}

/// The value of a header is found under its name in lowercase, and under no
/// other name.
pub proof fn law_header_is_answered(name: Seq<char>, value: Seq<char>, key: Seq<char>)
    ensures
        ({
            let one = seq![(name, value)];
            let found = if key == unicode_lowercase(name) {
                Some(JsonModel::Text(value))
            } else {
                None
            };
            entry(joined_headers(one), key) == found && entry(flat_headers(one), key) == found
        }),
{
    let one = seq![(name, value)];
    let none = Seq::<(Seq<char>, JsonModel)>::empty();
    assert(one.drop_last() =~= Seq::empty());
    law_set_value_is_found(none, unicode_lowercase(name), JsonModel::Text(value), key);
    assert(one.last() == (name, value));
    assert(joined_headers(one.drop_last()) == none);
    assert(flat_headers(one.drop_last()) == none);
    assert(entry(none, unicode_lowercase(name)) is None);
    assert(entry(none, key) is None);
}

/// What is answered of headers is text.
proof fn lemma_headers_are_texts(headers: Seq<(Seq<char>, Seq<char>)>, key: Seq<char>)
    ensures
        entry(joined_headers(headers), key) matches Some(v) ==> v is Text,
    decreases headers.len(),
{
    if headers.len() > 0 {
        let front = joined_headers(headers.drop_last());
        let name = unicode_lowercase(headers.last().0);
        lemma_headers_are_texts(headers.drop_last(), key);
        let value = match entry(front, name) {
            Some(JsonModel::Text(before)) => before + " || "@ + headers.last().1,
            _ => headers.last().1,
        };
        law_set_value_is_found(front, name, JsonModel::Text(value), key);
    }
}

/// More headers add to those before: to a page all values of a name are
/// answered, in their order, and to a script the last.
pub proof fn law_more_headers_add(
    a: Seq<(Seq<char>, Seq<char>)>,
    b: Seq<(Seq<char>, Seq<char>)>,
    key: Seq<char>,
)
    ensures
        entry(joined_headers(a + b), key) == (match (
            entry(joined_headers(a), key),
            entry(joined_headers(b), key),
        ) {
            (Some(JsonModel::Text(s)), Some(JsonModel::Text(t))) => Some(
                JsonModel::Text(s + " || "@ + t),
            ),
            (None, found) => found,
            (found, _) => found,
        }),
        entry(flat_headers(a + b), key) == (if entry(flat_headers(b), key) is Some {
            entry(flat_headers(b), key)
        } else {
            entry(flat_headers(a), key)
        }),
        entry(joined_headers(b), key) matches Some(v) ==> v is Text,
    decreases b.len(),
{
    lemma_headers_are_texts(a, key);
    lemma_headers_are_texts(b, key);
    if b.len() == 0 {
        assert(a + b =~= a);
        assert(joined_headers(b) == Seq::<(Seq<char>, JsonModel)>::empty());
        assert(flat_headers(b) == Seq::<(Seq<char>, JsonModel)>::empty());
        assert(entry(joined_headers(b), key) is None);
    } else {
        let front = b.drop_last();
        let name = unicode_lowercase(b.last().0);
        law_more_headers_add(a, front, key);
        law_more_headers_add(a, front, name);
        assert((a + b).drop_last() =~= a + front);
        assert((a + b).last() == b.last());
        let value = |h: Seq<(Seq<char>, JsonModel)>| match entry(h, name) {
            Some(JsonModel::Text(before)) => before + " || "@ + b.last().1,
            _ => b.last().1,
        };
        let both = joined_headers(a + front);
        let own = joined_headers(front);
        law_set_value_is_found(both, name, JsonModel::Text(value(both)), key);
        law_set_value_is_found(own, name, JsonModel::Text(value(own)), key);
        law_set_value_is_found(flat_headers(a + front), name, JsonModel::Text(b.last().1), key);
        law_set_value_is_found(flat_headers(front), name, JsonModel::Text(b.last().1), key);
        if key == name {
            if let Some(JsonModel::Text(s)) = entry(joined_headers(a), name) {
                if let Some(JsonModel::Text(t)) = entry(own, name) {
                    assert(s + " || "@ + t + " || "@ + b.last().1 =~= s + " || "@ + (t + " || "@
                        + b.last().1));
                }
            }
        }
    }
}

/// A page is kept exactly if it came with a good status and is not empty, and
/// what a script fetched if that went well and brought something.
pub proof fn law_what_is_kept(
    status: u16,
    body: &str,
    error: &Option<String>,
    page: bool,
    fetch: bool,
)
    requires
        call_ensures(keeps_page, (status, body), page),
        call_ensures(keeps_fetch, (error, body), fetch),
    ensures
        page <==> 200 <= status && status <= 399 && body@ != Seq::<char>::empty(),
        fetch <==> *error is None && body@ != Seq::<char>::empty(),
{
    if body@.len() == 0 {
        assert(body@ =~= Seq::empty());
    }
}

/// A page is given time to come to rest exactly after it was told that it is
/// there and after it was told that it is loaded: at most two seconds and a
/// hundred rounds, and at most a second and a half and fifty rounds.
pub proof fn law_time_to_rest(step: NavStep, r: Option<(u64, u32, &'static str)>)
    requires
        call_ensures(rest_in, (step,), r),
    ensures
        r is Some <==> step == NavStep::SettleReady || step == NavStep::SettleLoad,
        r matches Some((ms, rounds, phase)) ==> {
            &&& step == NavStep::SettleReady ==> ms == 2000 && rounds == 100 && phase@
                == "after_dcl"@
            &&& step == NavStep::SettleLoad ==> ms == 1500 && rounds == 50 && phase@
                == "after_load"@
        },
{
}

/// A page holds data exactly if its map counts a script with data.
pub proof fn law_data_are_counted(map: &Json, r: bool)
    requires
        call_ensures(holds_data, (map,), r),
    ensures
        r <==> (map@.get("density"@) matches Some(density) && density.u64_at("json_scripts"@) matches Some(n)
            && n >= 1),
{
}

/// What is extracted is answered as it is as long as its text takes at most
/// 256 KiB; of anything longer only the strategy, the confidence and the size
/// are answered, with word of what is missing.
pub proof fn law_extract_is_answered(data: &Json, size: usize, r: Json)
    requires
        call_ensures(inline_data, (data, size), r),
    ensures
        size <= 262144 ==> r@ == data@,
        size > 262144 ==> {
            &&& r@.get("data"@) == Some(JsonModel::Null)
            &&& r@.bool_at("truncated"@) == Some(true)
            &&& r@.u64_at("size_bytes"@) == Some(size as u64)
            &&& data@.get("strategy"@) is Some ==> r@.get("strategy"@) == data@.get("strategy"@)
            &&& data@.get("confidence"@) is Some ==> r@.get("confidence"@) == data@.get(
                "confidence"@,
            )
            &&& data@.get("strategy"@) is None ==> r@.get("strategy"@) == Some(JsonModel::Null)
            &&& data@.get("confidence"@) is None ==> r@.get("confidence"@) == Some(JsonModel::Null)
            &&& r@.text_at("hint"@) == Some(
                "extract result "@ + decimal(size as nat) + " bytes exceeds "@ + decimal(262144)
                    + " byte inline cap; call extract() to retrieve full data"@,
            )
        },
{
    if size > 262144 {
        reveal_strlit("strategy");
        reveal_strlit("confidence");
        reveal_strlit("data");
        reveal_strlit("truncated");
        reveal_strlit("size_bytes");
        reveal_strlit("hint");
        assert("strategy"@.len() == 8);
        assert("confidence"@.len() == 10);
        assert("data"@.len() == 4);
        assert("truncated"@.len() == 9);
        assert("size_bytes"@.len() == 10);
        assert("hint"@.len() == 4);
        assert("confidence"@[0] != "size_bytes"@[0]);
        assert("data"@[0] != "hint"@[0]);
        let e = r@->Object_0;
        lemma_entry_at(e, "strategy"@, 0);
        lemma_entry_at(e, "confidence"@, 1);
        lemma_entry_at(e, "data"@, 2);
        lemma_entry_at(e, "truncated"@, 3);
        lemma_entry_at(e, "size_bytes"@, 4);
        lemma_entry_at(e, "hint"@, 5);
    }
}

/// What is known of a page is what the bundle knows of the host of its URL, and
/// nothing where there is no bundle, no URL or no host.
pub proof fn law_known_of_a_page(
    bundle: &Option<PrefitBundle>,
    url: &str,
    r: Option<&DomainPrefit>,
    host: Seq<char>,
)
    requires
        call_ensures(prefit_for, (bundle, url), r),
    ensures
        r matches Some(d) ==> *bundle is Some && url_parsed(url@) is Ok && url_parsed(
            url@,
        )->Ok_0.host is Some && domain_of(bundle->0@.domains, url_parsed(url@)->Ok_0.host->0)
            == Some(d@),
        *bundle is Some && url_parsed(url@) is Ok && url_parsed(url@)->Ok_0.host == Some(host)
            && domain_of(bundle->0@.domains, host) is Some ==> r is Some,
{
}

/// What is answered and told of the scripts of a page are their counts, at most
/// ten of the errors, and how the page came to rest.
pub proof fn law_summary_of_scripts(s: &ScriptSummary, r: Json)
    requires
        call_ensures(ScriptSummary::to_value, (s,), r),
    ensures
        r@.u64_at("inline_count"@) == Some(s.assembly.inline_count as u64),
        r@.u64_at("external_count"@) == Some(s.assembly.external_count as u64),
        r@.u64_at("async_count"@) == Some(s.assembly.async_count as u64),
        r@.u64_at("policy_blocked"@) == Some(s.assembly.policy_blocked as u64),
        r@.u64_at("fetch_failed"@) == Some(s.assembly.fetch_failed as u64),
        r@.u64_at("executed"@) == Some(s.tally.executed as u64),
        r@.u64_at("interrupted"@) == Some(s.tally.interrupted as u64),
        r@.u64_at("errors_count"@) == Some(s.tally.errors@.len() as u64),
        r@.u64_at("fetch_errors_count"@) == Some(s.fetch_errors@.len() as u64),
        trace_scripts(*s).u64_at("inline"@) == Some(s.assembly.inline_count as u64),
        trace_scripts(*s).u64_at("external"@) == Some(s.assembly.external_count as u64),
        trace_scripts(*s).u64_at("async"@) == Some(s.assembly.async_count as u64),
        trace_scripts(*s).u64_at("skipped_blocklist"@) == Some(s.assembly.policy_blocked as u64),
        trace_scripts(*s).u64_at("fetch_failed"@) == Some(s.assembly.fetch_failed as u64),
        trace_scripts(*s).u64_at("executed"@) == Some(s.tally.executed as u64),
        trace_scripts(*s).u64_at("interrupted"@) == Some(s.tally.interrupted as u64),
        (r@.array_at("errors"@) matches Some(errors) && errors.len() == (if s.tally.errors@.len() < 10 {
            s.tally.errors@.len()
        } else {
            10
        }) && forall|i: int|
            0 <= i < errors.len() ==> #[trigger] errors[i] == JsonModel::Text(s.tally.errors@[i]@)),
        (r@.array_at("fetch_errors"@) matches Some(errors) && errors.len() == (if s.fetch_errors@.len()
            < 10 {
            s.fetch_errors@.len()
        } else {
            10
        }) && forall|i: int|
            0 <= i < errors.len() ==> #[trigger] errors[i] == JsonModel::Text(s.fetch_errors@[i]@)),
        (s.after_dcl matches Some(j) ==> r@.get("settle_after_dcl"@) == Some(j@)),
        (s.after_load matches Some(j) ==> r@.get("settle_after_load"@) == Some(j@)),
        (s.after_dcl matches Some(j) ==> trace_settle(*s).get("after_dcl"@) == Some(j@)),
        (s.after_load matches Some(j) ==> trace_settle(*s).get("after_load"@) == Some(j@)),
{
    reveal_strlit("inline_count");
    reveal_strlit("external_count");
    reveal_strlit("async_count");
    reveal_strlit("policy_blocked");
    reveal_strlit("fetch_failed");
    reveal_strlit("executed");
    reveal_strlit("interrupted");
    reveal_strlit("errors_count");
    reveal_strlit("errors");
    reveal_strlit("fetch_errors_count");
    reveal_strlit("fetch_errors");
    reveal_strlit("settle_after_dcl");
    reveal_strlit("settle_after_load");
    reveal_strlit("inline");
    reveal_strlit("external");
    reveal_strlit("async");
    reveal_strlit("skipped_blocklist");
    reveal_strlit("after_dcl");
    reveal_strlit("after_load");
    assert("inline_count"@.len() == 12);
    assert("external_count"@.len() == 14);
    assert("async_count"@.len() == 11);
    assert("policy_blocked"@.len() == 14);
    assert("fetch_failed"@.len() == 12);
    assert("executed"@.len() == 8);
    assert("interrupted"@.len() == 11);
    assert("errors_count"@.len() == 12);
    assert("errors"@.len() == 6);
    assert("fetch_errors_count"@.len() == 18);
    assert("fetch_errors"@.len() == 12);
    assert("settle_after_dcl"@.len() == 16);
    assert("settle_after_load"@.len() == 17);
    assert("inline"@.len() == 6);
    assert("external"@.len() == 8);
    assert("async"@.len() == 5);
    assert("skipped_blocklist"@.len() == 17);
    assert("after_dcl"@.len() == 9);
    assert("after_load"@.len() == 10);
    assert("external_count"@[0] != "policy_blocked"@[0]);
    assert("inline_count"@[0] != "fetch_failed"@[0]);
    assert("async_count"@[0] != "interrupted"@[0]);
    assert("inline_count"@[0] != "errors_count"@[0]);
    assert("fetch_failed"@[0] != "errors_count"@[0]);
    assert("inline_count"@[0] != "fetch_errors"@[0]);
    assert("fetch_failed"@[6] != "fetch_errors"@[6]);
    assert("errors_count"@[0] != "fetch_errors"@[0]);
    assert("external"@[2] != "executed"@[2]);
    let e0 = r@->Object_0;
    lemma_entry_at(e0, "inline_count"@, 0);
    lemma_entry_at(e0, "external_count"@, 1);
    lemma_entry_at(e0, "async_count"@, 2);
    lemma_entry_at(e0, "policy_blocked"@, 3);
    lemma_entry_at(e0, "fetch_failed"@, 4);
    lemma_entry_at(e0, "executed"@, 5);
    lemma_entry_at(e0, "interrupted"@, 6);
    lemma_entry_at(e0, "errors_count"@, 7);
    lemma_entry_at(e0, "errors"@, 8);
    lemma_entry_at(e0, "fetch_errors_count"@, 9);
    lemma_entry_at(e0, "fetch_errors"@, 10);
    lemma_entry_at(e0, "settle_after_dcl"@, 11);
    lemma_entry_at(e0, "settle_after_load"@, 12);
    let e1 = trace_scripts(*s)->Object_0;
    lemma_entry_at(e1, "inline"@, 0);
    lemma_entry_at(e1, "external"@, 1);
    lemma_entry_at(e1, "async"@, 2);
    lemma_entry_at(e1, "skipped_blocklist"@, 3);
    lemma_entry_at(e1, "fetch_failed"@, 4);
    lemma_entry_at(e1, "executed"@, 5);
    lemma_entry_at(e1, "interrupted"@, 6);
    let e2 = trace_settle(*s)->Object_0;
    lemma_entry_at(e2, "after_dcl"@, 0);
    lemma_entry_at(e2, "after_load"@, 1);
}

/// What is told of the decisions in a navigation says whether blocking was on,
/// and how scripts and page fared where scripts were run.
pub proof fn law_trace_says_what_was_decided(
    nav_id: &str,
    url: &str,
    policy_block: bool,
    summary: &Option<ScriptSummary>,
    elapsed_ms: u64,
    r: Event,
)
    requires
        call_ensures(policy_trace, (nav_id, url, policy_block, summary, elapsed_ms), r),
    ensures
        r@.1.u64_at("schema_version"@) == Some(1u64),
        r@.1.text_at("navigation_id"@) == Some(nav_id@),
        r@.1.text_at("url"@) == Some(url@),
        r@.1.bool_at("policy_block"@) == Some(policy_block),
        r@.1.u64_at("elapsed_ms"@) == Some(elapsed_ms),
        r@.0 == "policy_trace"@,
        (*summary matches Some(s) ==> r@.1.get("scripts"@) == Some(trace_scripts(s)) && r@.1.get(
            "settle"@,
        ) == Some(trace_settle(s))),
        *summary is None ==> r@.1.get("scripts"@) == Some(JsonModel::Null),
{
    reveal_strlit("schema_version");
    reveal_strlit("navigation_id");
    reveal_strlit("url");
    reveal_strlit("policy_block");
    reveal_strlit("scripts");
    reveal_strlit("settle");
    reveal_strlit("elapsed_ms");
    assert("schema_version"@.len() == 14);
    assert("navigation_id"@.len() == 13);
    assert("url"@.len() == 3);
    assert("policy_block"@.len() == 12);
    assert("scripts"@.len() == 7);
    assert("settle"@.len() == 6);
    assert("elapsed_ms"@.len() == 10);
    let e = r@.1->Object_0;
    lemma_entry_at(e, "schema_version"@, 0);
    lemma_entry_at(e, "navigation_id"@, 1);
    lemma_entry_at(e, "url"@, 2);
    lemma_entry_at(e, "policy_block"@, 3);
    lemma_entry_at(e, "scripts"@, 4);
    lemma_entry_at(e, "settle"@, 5);
    lemma_entry_at(e, "elapsed_ms"@, 6);
}

/// What is told of a page that came to rest says when that was and what came of it.
pub proof fn law_rest_is_told(nav_id: &str, phase: &str, result: &Json, r: Event)
    requires
        call_ensures(settle_exit, (nav_id, phase, result), r),
    ensures
        r@.1.u64_at("schema_version"@) == Some(1u64),
        r@.1.text_at("navigation_id"@) == Some(nav_id@),
        r@.1.text_at("phase"@) == Some(phase@),
        r@.1.get("result"@) == Some(result@),
        r@.0 == "settle_exit"@,
{
    reveal_strlit("schema_version");
    reveal_strlit("navigation_id");
    reveal_strlit("phase");
    reveal_strlit("result");
    assert("schema_version"@.len() == 14);
    assert("navigation_id"@.len() == 13);
    assert("phase"@.len() == 5);
    assert("result"@.len() == 6);
    let e = r@.1->Object_0;
    lemma_entry_at(e, "schema_version"@, 0);
    lemma_entry_at(e, "navigation_id"@, 1);
    lemma_entry_at(e, "phase"@, 2);
    lemma_entry_at(e, "result"@, 3);
}

/// Navigations are numbered from one on; a name is known once its navigation has
/// started, and no other becomes known with it.
pub proof fn law_how_navigations_are_named()
    ensures
        forall|ids: NavIds| #[trigger] call_ensures(NavIds::new, (), ids) ==> ids.count() == 0,
        forall|ids: &mut NavIds, r: String| #[trigger]
            call_ensures(NavIds::next_nav_id, (ids,), r) ==> r@ == "nav_"@ + decimal(
                (*ids).count() + 1,
            ) && (*final(ids)).count() == (*ids).count() + 1,
        forall|ids: &mut NavIds, r: String, id: Seq<char>|
            #![trigger call_ensures(NavIds::next_nav_id, (ids,), r), (*final(ids)).has_issued(id)]
            call_ensures(NavIds::next_nav_id, (ids,), r) ==> ((*final(ids)).has_issued(id)
                <==> (*ids).has_issued(id)) && !(*final(ids)).has_issued(r@),
        forall|ids: &mut NavIds, name: &str, r: (), id: Seq<char>|
            #![trigger call_ensures(NavIds::start, (ids, name), r), (*final(ids)).has_issued(id)]
            call_ensures(NavIds::start, (ids, name), r) ==> ((*final(ids)).has_issued(id)
                <==> (*ids).has_issued(id) || id == name@) && (*final(ids)).count()
                == (*ids).count(),
        forall|ids: &NavIds, name: &str, r: bool| #[trigger]
            call_ensures(NavIds::nav_id_is_known, (ids, name), r) ==> (r <==> exists|n: nat|
                1 <= n <= ids.count() && ids.has_started(n) && name@ == "nav_"@ + #[trigger] decimal(
                    n,
                )),
{
    assert forall|ids: &NavIds, name: &str, r: bool| #[trigger]
        call_ensures(NavIds::nav_id_is_known, (ids, name), r) implies (r <==> exists|n: nat|
        1 <= n <= ids.count() && ids.has_started(n) && name@ == "nav_"@ + #[trigger] decimal(n)) by {
        if r {
            let n = choose|n: nat|
                1 <= n <= ids.count() && ids.has_started(n) && name@ == #[trigger] nav_id(n);
            assert(name@ == "nav_"@ + decimal(n));
        }
        if exists|n: nat|
            1 <= n <= ids.count() && ids.has_started(n) && name@ == "nav_"@ + #[trigger] decimal(n) {
            let n = choose|n: nat|
                1 <= n <= ids.count() && ids.has_started(n) && name@ == "nav_"@ + #[trigger] decimal(
                    n,
                );
            assert(name@ == nav_id(n));
        }
    }
}

/// A deadline is so many milliseconds from now, or none where that is nothing;
/// what was set before is given back, so that it can be set again. Code is
/// stopped exactly from its deadline on.
pub proof fn law_how_code_is_watched()
    ensures
        forall|w: Watchdog| #[trigger] call_ensures(Watchdog::new, (), w) ==> w.deadline_ms == 0,
        forall|w: &mut Watchdog, now: u64, ms: u64, r: u64| #[trigger]
            call_ensures(Watchdog::set_eval_deadline_from_now, (w, now, ms), r) ==> {
                &&& r == (*w).deadline_ms
                &&& ms == 0 ==> (*final(w)).deadline_ms == 0
                &&& ms > 0 && now + ms <= u64::MAX ==> (*final(w)).deadline_ms == now + ms
                &&& ms > 0 && now + ms > u64::MAX ==> (*final(w)).deadline_ms == u64::MAX
            },
        forall|w: &mut Watchdog, before: u64, r: ()| #[trigger]
            call_ensures(Watchdog::restore_eval_deadline, (w, before), r)
                ==> (*final(w)).deadline_ms == before,
        forall|w: &mut Watchdog, r: u64| #[trigger]
            call_ensures(Watchdog::suspend, (w,), r) ==> r == (*w).deadline_ms
                && (*final(w)).deadline_ms == 0,
        forall|w: &Watchdog, now: u64, r: bool| #[trigger]
            call_ensures(Watchdog::interrupts, (w, now), r) ==> (r <==> w.deadline_ms > 0 && now
                >= w.deadline_ms),
{
}

/// Headers are read in the two ways of which the laws on headers speak, and what
/// is told of a navigation is what the laws on events say; data are put into an
/// answer by the length of their text in bytes.
pub proof fn law_what_is_made_of_an_answer(
    headers: &Vec<(String, String)>,
    read: (Vec<(String, Json)>, Vec<(String, Json)>),
    nav_id: &str,
    url: &str,
    status: u16,
    bytes: usize,
    exec_scripts: bool,
    policy_block: bool,
    started: Event,
    d: &DomainPrefit,
    applied: Event,
    data: &Json,
    extract: Json,
    n: &NavResult,
    elapsed_ms: u64,
    told: Event,
)
    requires
        call_ensures(read_headers, (headers,), read),
        call_ensures(
            navigation_started,
            (nav_id, url, status, bytes, exec_scripts, policy_block),
            started,
        ),
        call_ensures(prefit_applied, (nav_id, d), applied),
        call_ensures(auto_extract, (data,), extract),
        call_ensures(NavResult::event, (n, elapsed_ms, exec_scripts), told),
    ensures
        entries_model(read.0@) == joined_headers(pairs_model(headers@)),
        entries_model(read.1@) == flat_headers(pairs_model(headers@)),
        started@ == (
            "navigation_started"@,
            started_json(nav_id@, url@, status, bytes as nat, exec_scripts, policy_block),
        ),
        applied@ == ("prefit_applied"@, prefit_json(nav_id@, d@)),
        extract@ == inlined(data@, encode_utf8(json_printed(with_map_entries(data@))).len()),
        told@ == ("navigate"@, navigate_json(*n, elapsed_ms, exec_scripts)),
{
}

} // verus!

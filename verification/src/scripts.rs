//! What becomes of the scripts of a page: which are skipped, in what order the
//! others run, and what is told of each.
use vstd::prelude::*;

use crate::events::{events_model, lemma_events_push, Event};
use crate::html::{
    is_module, kind_name, looks_like_module, script_kind_str, scripts_model, ScriptItem, ScriptKind,
    ScriptModel,
};
use crate::json::{
    entries_model, json_literal, json_number, json_optional_text, json_text_of, lemma_entry_at,
    no_entries, object,
    optional_text, put, Json, JsonModel, NumberModel,
};
use crate::page_code::load_module_code;
use crate::policy::{decide, decision, Decision, DecisionModel};
use crate::prefit::{blocked_on, needed_on, DomainModel, DomainPrefit};
use crate::text::{
    byte_len, byte_prefix, concat, concat3, contains_str, contains_text, decimal, fitting,
    lemma_byte_len, texts_model, to_decimal,
};
use crate::urls::{host_of, lower_host, option_model};

verus! {

// ---------------------------------------------------------------------
// Which scripts are fetched
// ---------------------------------------------------------------------

/// What is done with a script before any runs.
#[derive(Debug)]
pub enum ScriptFate {
    /// Its code stands in the page.
    Inline,
    /// It is skipped: its URL is never fetched.
    Blocked(Decision),
    /// It is skipped: its URL is not fetched on this domain.
    PrefitBlocked(String),
    /// It is fetched.
    Fetch,
}

/// What a [`ScriptFate`] stands for.
pub enum FateModel {
    Inline,
    Blocked(DecisionModel),
    PrefitBlocked(Seq<char>),
    Fetch,
}

impl View for ScriptFate {
    type V = FateModel;

    open spec fn view(&self) -> FateModel {
        match *self {
            ScriptFate::Inline => FateModel::Inline,
            ScriptFate::Blocked(d) => FateModel::Blocked(d@),
            ScriptFate::PrefitBlocked(d) => FateModel::PrefitBlocked(d@),
            ScriptFate::Fetch => FateModel::Fetch,
        }
    }
}

/// Whether a URL is needed on a domain of which this is known, if anything is.
pub open spec fn is_needed(prefit: Option<DomainModel>, url: Seq<char>) -> bool {
    prefit matches Some(d) && needed_on(d, url)
}

/// What is done with a script: with blocking on, one whose URL is blocked
/// everywhere or on this domain is skipped, unless the domain needs it.
pub open spec fn fate_of(item: ScriptModel, blocking: bool, prefit: Option<DomainModel>) -> FateModel {
    match item {
        ScriptModel::Inline(_) => FateModel::Inline,
        ScriptModel::External { url, kind } => if !blocking || is_needed(prefit, url) {
            FateModel::Fetch
        } else if decision(url).blocked {
            FateModel::Blocked(decision(url))
        } else {
            match prefit {
                Some(d) => if blocked_on(d, url) {
                    FateModel::PrefitBlocked(d.domain)
                } else {
                    FateModel::Fetch
                },
                None => FateModel::Fetch,
            }
        },
    }
}

/// What is known of a domain, where anything is.
pub open spec fn prefit_model(p: Option<&DomainPrefit>) -> Option<DomainModel> {
    match p {
        Some(d) => Some(d@),
        None => None,
    }
}

/// What is done with a script.
pub fn script_fate(item: &ScriptItem, blocking: bool, prefit: Option<&DomainPrefit>) -> (r:
    ScriptFate)
    ensures
        r@ == fate_of(item@, blocking, prefit_model(prefit)),
{
    match item {
        ScriptItem::Inline(_) => ScriptFate::Inline,
        ScriptItem::External { url, kind } => {
            if !blocking {
                return ScriptFate::Fetch;
            }
            if let Some(p) = prefit {
                if p.needs(url.as_str()) {
                    return ScriptFate::Fetch;
                }
            }
            let d = decide(url.as_str());
            if d.blocked {
                return ScriptFate::Blocked(d);
            }
            match prefit {
                Some(p) => {
                    if p.blocks(url.as_str()) {
                        ScriptFate::PrefitBlocked(p.domain.clone())
                    } else {
                        ScriptFate::Fetch
                    }
                },
                None => ScriptFate::Fetch,
            }
        },
    }
}

/// What fates stand for.
pub open spec fn fates_model(fates: Seq<ScriptFate>) -> Seq<FateModel> {
    Seq::new(fates.len(), |i: int| fates[i]@)
}

/// What is done with the scripts of a page, each.
pub fn plan_scripts(items: &Vec<ScriptItem>, blocking: bool, prefit: Option<&DomainPrefit>) -> (r:
    Vec<ScriptFate>)
    ensures
        fates_model(r@) == Seq::new(
            items@.len(),
            |i: int| fate_of(items@[i]@, blocking, prefit_model(prefit)),
        ),
{
    let ghost all = Seq::new(
        items@.len(),
        |i: int| fate_of(items@[i]@, blocking, prefit_model(prefit)),
    );
    let mut out: Vec<ScriptFate> = Vec::new();
    let mut i: usize = 0;
    while i < items.len()
        invariant
            i <= items.len(),
            all == Seq::new(
                items@.len(),
                |i: int| fate_of(items@[i]@, blocking, prefit_model(prefit)),
            ),
            fates_model(out@) =~= all.take(i as int),
        decreases items.len() - i,
    {
        let f = script_fate(&items[i], blocking, prefit);
        out.push(f);
        assert(all.take(i + 1) =~= all.take(i as int).push(all[i as int]));
        i = i + 1;
    }
    assert(all.take(i as int) =~= all);
    out
}

// ---------------------------------------------------------------------
// Events on decisions
// ---------------------------------------------------------------------

/// A count as a value.
pub open spec fn number_json(n: nat) -> JsonModel {
    JsonModel::Number(NumberModel::Unsigned(n as u64))
}

/// The host of a URL in events.
pub open spec fn event_host(url: Seq<char>) -> Seq<char> {
    match lower_host(url) {
        Some(h) => h,
        None => Seq::empty(),
    }
}

/// The entries with which every decision on a script begins.
pub open spec fn decision_head(
    nav_id: Seq<char>,
    id: nat,
    url: Seq<char>,
    kind: ScriptKind,
    action: Seq<char>,
) -> Seq<(Seq<char>, JsonModel)> {
    seq![
        ("schema_version"@, number_json(1)),
        ("navigation_id"@, JsonModel::Text(nav_id)),
        ("script_id"@, number_json(id)),
        ("url"@, JsonModel::Text(url)),
        ("host"@, JsonModel::Text(event_host(url))),
        ("kind"@, JsonModel::Text(kind_name(kind))),
        ("action"@, JsonModel::Text(action)),
    ]
}

/// The category of a decision as a value.
pub open spec fn category_json(d: DecisionModel) -> JsonModel {
    match d.category {
        Some(c) => JsonModel::Text(c.name()),
        None => JsonModel::Null,
    }
}

/// What is told of a script that is skipped; nothing of any other.
pub open spec fn skip_events(nav_id: Seq<char>, id: nat, item: ScriptModel, fate: FateModel) -> Seq<
    (Seq<char>, JsonModel),
> {
    match (item, fate) {
        (ScriptModel::External { url, kind }, FateModel::Blocked(d)) => seq![
            (
                "script_decision"@,
                JsonModel::Object(
                    decision_head(nav_id, id, url, kind, "skip"@).push(
                        ("reason"@, JsonModel::Text("blocklist"@)),
                    ).push(("category"@, category_json(d))).push(
                        ("matched"@, optional_text(d.matched_pattern)),
                    ),
                ),
            ),
            (
                "policy_blocked"@,
                JsonModel::Object(
                    seq![
                        ("url"@, JsonModel::Text(url)),
                        ("kind"@, JsonModel::Text("static_script"@)),
                        ("category"@, category_json(d)),
                        ("matched"@, optional_text(d.matched_pattern)),
                    ],
                ),
            ),
        ],
        (ScriptModel::External { url, kind }, FateModel::PrefitBlocked(domain)) => seq![
            (
                "script_decision"@,
                JsonModel::Object(
                    decision_head(nav_id, id, url, kind, "skip"@).push(
                        ("reason"@, JsonModel::Text("prefit_blocklist"@)),
                    ).push(("domain"@, JsonModel::Text(domain))),
                ),
            ),
        ],
        _ => Seq::empty(),
    }
}

/// The entries with which every decision on a script begins.
fn start_decision(
    nav_id: &str,
    id: usize,
    url: &str,
    kind: ScriptKind,
    action: &str,
) -> (r: Vec<(String, Json)>)
    ensures
        entries_model(r@) == decision_head(nav_id@, id as nat, url@, kind, action@),
{
    let mut e = no_entries();
    put(&mut e, "schema_version", json_number(1));
    put(&mut e, "navigation_id", json_text_of(nav_id));
    put(&mut e, "script_id", json_number(id as u64));
    put(&mut e, "url", json_text_of(url));
    let host = host_of(url);
    put(&mut e, "host", json_text_of(host.as_str()));
    put(&mut e, "kind", json_text_of(script_kind_str(kind)));
    put(&mut e, "action", json_text_of(action));
    assert(entries_model(e@) =~= decision_head(nav_id@, id as nat, url@, kind, action@));
    e
}

/// The category of a decision as a value.
fn build_category(d: &Decision) -> (r: Json)
    ensures
        r@ == category_json(d@),
{
    match d.category {
        Some(c) => json_text_of(c.as_str()),
        None => Json::Null,
    }
}

/// The pattern of a decision as a value.
fn build_matched(d: &Decision) -> (r: Json)
    ensures
        r@ == optional_text(d@.matched_pattern),
{
    match d.matched_pattern {
        Some(p) => json_text_of(p),
        None => Json::Null,
    }
}

/// What is told of a script that is skipped.
pub fn skip_reports(nav_id: &str, id: usize, item: &ScriptItem, fate: &ScriptFate) -> (r: Vec<Event>)
    ensures
        events_model(r@) == skip_events(nav_id@, id as nat, item@, fate@),
{
    broadcast use lemma_events_push;

    let mut out: Vec<Event> = Vec::new();
    assert(events_model(out@) =~= Seq::empty());
    match item {
        ScriptItem::Inline(_) => {},
        ScriptItem::External { url, kind } => match fate {
            ScriptFate::Blocked(d) => {
                let mut e = start_decision(nav_id, id, url.as_str(), *kind, "skip");
                put(&mut e, "reason", json_text_of("blocklist"));
                put(&mut e, "category", build_category(d));
                put(&mut e, "matched", build_matched(d));
                out.push(Event { name: "script_decision", data: object(e) });
                let mut b = no_entries();
                put(&mut b, "url", json_text_of(url.as_str()));
                put(&mut b, "kind", json_text_of("static_script"));
                put(&mut b, "category", build_category(d));
                put(&mut b, "matched", build_matched(d));
                out.push(Event { name: "policy_blocked", data: object(b) });
                assert(out@[1]@.1->Object_0 =~= skip_events(
                    nav_id@,
                    id as nat,
                    item@,
                    fate@,
                )[1].1->Object_0);
                assert(events_model(out@) =~= skip_events(nav_id@, id as nat, item@, fate@));
            },
            ScriptFate::PrefitBlocked(domain) => {
                let mut e = start_decision(nav_id, id, url.as_str(), *kind, "skip");
                put(&mut e, "reason", json_text_of("prefit_blocklist"));
                put(&mut e, "domain", json_text_of(domain.as_str()));
                out.push(Event { name: "script_decision", data: object(e) });
                assert(events_model(out@) =~= skip_events(nav_id@, id as nat, item@, fate@));
            },
            _ => {},
        },
    }
    out
}

// ---------------------------------------------------------------------
// Fetching
// ---------------------------------------------------------------------

/// Whether a response with this status is the script that was fetched.
pub fn accepts_script(status: u16) -> (r: bool)
    ensures
        r == (200 <= status < 300),
{
    200 <= status && status < 300
}

/// Why a script could not be fetched; with what else there is to say.
#[derive(Debug)]
pub enum FetchFailure {
    /// The response has another status.
    Status(String),
    /// The body could not be read.
    Read(String),
    /// The request could not be sent.
    Send(String),
    /// It took longer than so many milliseconds.
    Timeout(u64),
    /// The fetch itself broke down.
    Broke(String),
}

/// The words for why a script could not be fetched.
pub open spec fn failure_words(f: FetchFailure, url: Seq<char>) -> Seq<char> {
    match f {
        FetchFailure::Status(s) => "status "@ + s@ + " fetching "@ + url,
        FetchFailure::Read(e) => "read "@ + url + ": "@ + e@,
        FetchFailure::Send(e) => "fetch "@ + url + ": "@ + e@,
        FetchFailure::Timeout(ms) => "timeout "@ + decimal(ms as nat) + "ms fetching "@ + url,
        FetchFailure::Broke(e) => "task panicked: "@ + e@,
    }
}

/// The words for why a script could not be fetched.
pub fn describe_failure(f: &FetchFailure, url: &str) -> (r: String)
    ensures
        r@ == failure_words(*f, url@),
{
    match f {
        FetchFailure::Status(s) => {
            let mut m = concat3("status ", s.as_str(), " fetching ");
            m.append(url);
            m
        },
        FetchFailure::Read(e) => {
            let mut m = concat3("read ", url, ": ");
            m.append(e.as_str());
            m
        },
        FetchFailure::Send(e) => {
            let mut m = concat3("fetch ", url, ": ");
            m.append(e.as_str());
            m
        },
        FetchFailure::Timeout(ms) => {
            let mut m = concat3("timeout ", to_decimal(*ms).as_str(), "ms fetching ");
            m.append(url);
            m
        },
        FetchFailure::Broke(e) => concat("task panicked: ", e.as_str()),
    }
}

// ---------------------------------------------------------------------
// In what order scripts run
// ---------------------------------------------------------------------

/// A script that is ready to run.
#[derive(Debug)]
pub struct Source {
    /// Its number among the scripts of the page.
    pub id: usize,
    pub kind: &'static str,
    /// Where it came from, if it was fetched.
    pub url: Option<String>,
    pub body: String,
}

/// What a [`Source`] stands for.
pub struct SourceModel {
    pub id: nat,
    pub kind: Seq<char>,
    pub url: Option<Seq<char>>,
    pub body: Seq<char>,
}

impl View for Source {
    type V = SourceModel;

    open spec fn view(&self) -> SourceModel {
        SourceModel {
            id: self.id as nat,
            kind: self.kind@,
            url: option_model(self.url),
            body: self.body@,
        }
    }
}

/// What sources stand for.
pub open spec fn sources_model(sources: Seq<Source>) -> Seq<SourceModel> {
    Seq::new(sources.len(), |i: int| sources[i]@)
}

/// What was fetched, by script.
pub open spec fn bodies_model(bodies: Seq<Option<String>>) -> Seq<Option<Seq<char>>> {
    Seq::new(bodies.len(), |i: int| option_model(bodies[i]))
}

/// The scripts of a page, with what is done with each and what was fetched.
pub struct PageScripts {
    pub items: Seq<ScriptModel>,
    pub fates: Seq<FateModel>,
    pub bodies: Seq<Option<Seq<char>>>,
}

impl PageScripts {
    /// Whether the script number `i` waits for its turn behind the others.
    pub open spec fn is_async(self, i: int) -> bool {
        self.items[i] matches ScriptModel::External { kind: ScriptKind::Async, .. }
    }

    /// The script number `i`, if it is ready to run.
    pub open spec fn source(self, i: int) -> Option<SourceModel> {
        match self.items[i] {
            ScriptModel::Inline(body) => Some(
                SourceModel { id: i as nat, kind: "inline"@, url: None, body },
            ),
            ScriptModel::External { url, kind } => match (self.fates[i], self.bodies[i]) {
                (FateModel::Fetch, Some(body)) => Some(
                    SourceModel { id: i as nat, kind: kind_name(kind), url: Some(url), body },
                ),
                _ => None,
            },
        }
    }

    /// Those of the first `n` scripts that are ready, in the order of the page:
    /// those that wait for their turn, or the others.
    pub open spec fn ready(self, n: int, waiting: bool) -> Seq<SourceModel>
        decreases n,
    {
        if n <= 0 {
            Seq::empty()
        } else {
            let front = self.ready(n - 1, waiting);
            match self.source(n - 1) {
                Some(s) => if self.is_async(n - 1) == waiting {
                    front.push(s)
                } else {
                    front
                },
                None => front,
            }
        }
    }

    /// The scripts that run, in the order in which they do.
    pub open spec fn in_order(self) -> Seq<SourceModel> {
        self.ready(self.items.len() as int, false) + self.ready(self.items.len() as int, true)
    }

    /// How many of the first `n` scripts stand in the page.
    pub open spec fn inline(self, n: int) -> nat
        decreases n,
    {
        if n <= 0 {
            0
        } else {
            self.inline(n - 1) + if self.items[n - 1] is Inline {
                1nat
            } else {
                0nat
            }
        }
    }

    /// Whether the script number `i` was to be fetched.
    pub open spec fn wanted(self, i: int) -> bool {
        self.items[i] is External && self.fates[i] is Fetch
    }

    /// Whether the script number `i` was skipped.
    pub open spec fn skipped(self, i: int) -> bool {
        self.items[i] is External && !(self.fates[i] is Fetch)
    }

    /// How many of the first `n` scripts were fetched.
    pub open spec fn external(self, n: int) -> nat
        decreases n,
    {
        if n <= 0 {
            0
        } else {
            self.external(n - 1) + if self.wanted(n - 1) && self.bodies[n - 1] is Some {
                1nat
            } else {
                0nat
            }
        }
    }

    /// How many of the first `n` scripts could not be fetched.
    pub open spec fn failed(self, n: int) -> nat
        decreases n,
    {
        if n <= 0 {
            0
        } else {
            self.failed(n - 1) + if self.wanted(n - 1) && self.bodies[n - 1] is None {
                1nat
            } else {
                0nat
            }
        }
    }

    /// How many of the first `n` scripts were skipped.
    pub open spec fn blocked(self, n: int) -> nat
        decreases n,
    {
        if n <= 0 {
            0
        } else {
            self.blocked(n - 1) + if self.skipped(n - 1) {
                1nat
            } else {
                0nat
            }
        }
    }

    /// What is told of the first `n` scripts that were to be fetched: whether
    /// they wait to be run or could not be fetched.
    pub open spec fn reports(self, nav_id: Seq<char>, n: int) -> Seq<(Seq<char>, JsonModel)>
        decreases n,
    {
        if n <= 0 {
            Seq::empty()
        } else {
            let front = self.reports(nav_id, n - 1);
            match self.items[n - 1] {
                ScriptModel::External { url, kind } => if self.fates[n - 1] is Fetch {
                    let action = if self.bodies[n - 1] is Some {
                        "queued"@
                    } else {
                        "fetch_failed"@
                    };
                    front.push(
                        (
                            "script_decision"@,
                            JsonModel::Object(
                                decision_head(nav_id, (n - 1) as nat, url, kind, action),
                            ),
                        ),
                    )
                } else {
                    front
                },
                ScriptModel::Inline(_) => front,
            }
        }
    }
}

/// What came of fetching the script number `i`, if it was to be fetched.
pub open spec fn fetch_at(
    results: Seq<Option<Result<String, FetchFailure>>>,
    i: int,
) -> Option<Seq<char>> {
    match results[i] {
        Some(Ok(body)) => Some(body@),
        _ => None,
    }
}

/// Why scripts of the first `n` could not be fetched, in the order of the page.
pub open spec fn fetch_errors(
    items: Seq<ScriptModel>,
    results: Seq<Option<Result<String, FetchFailure>>>,
    n: int,
) -> Seq<Seq<char>>
    decreases n,
{
    if n <= 0 {
        Seq::empty()
    } else {
        let front = fetch_errors(items, results, n - 1);
        match (items[n - 1], results[n - 1]) {
            (ScriptModel::External { url, .. }, Some(Err(f))) => front.push(failure_words(f, url)),
            _ => front,
        }
    }
}

/// Whether what was fetched belongs to the scripts that were to be fetched: for
/// each of these there is a result, and for no other.
pub open spec fn fits_plan(
    items: Seq<ScriptModel>,
    fates: Seq<FateModel>,
    results: Seq<Option<Result<String, FetchFailure>>>,
) -> bool {
    &&& fates.len() == items.len()
    &&& results.len() == items.len()
    &&& forall|i: int|
        0 <= i < items.len() ==> ((#[trigger] results[i]) is Some <==> items[i] is External
            && fates[i] is Fetch)
}

/// Parts what was fetched, by script: the code that came, and why other code
/// did not. There is one error for each script that could not be fetched.
pub fn sort_fetches(
    items: &Vec<ScriptItem>,
    fates: &Vec<ScriptFate>,
    results: &Vec<Option<Result<String, FetchFailure>>>,
) -> (r: (Vec<Option<String>>, Vec<String>))
    requires
        fits_plan(scripts_model(items@), fates_model(fates@), results@),
    ensures
        bodies_model(r.0@) == Seq::new(items@.len(), |i: int| fetch_at(results@, i)),
        texts_model(r.1@) == fetch_errors(scripts_model(items@), results@, items@.len() as int),
        r.1@.len() == (PageScripts {
            items: scripts_model(items@),
            fates: fates_model(fates@),
            bodies: bodies_model(r.0@),
        }).failed(items@.len() as int),
{
    let ghost m = scripts_model(items@);
    let ghost all = Seq::new(items@.len(), |i: int| fetch_at(results@, i));
    let mut bodies: Vec<Option<String>> = Vec::new();
    let mut errors: Vec<String> = Vec::new();
    assert(texts_model(errors@) =~= Seq::empty());
    let mut i: usize = 0;
    while i < items.len()
        invariant
            i <= items.len(),
            m == scripts_model(items@),
            fits_plan(m, fates_model(fates@), results@),
            all == Seq::new(items@.len(), |i: int| fetch_at(results@, i)),
            bodies_model(bodies@) =~= all.take(i as int),
            texts_model(errors@) == fetch_errors(m, results@, i as int),
        decreases items.len() - i,
    {
        let ghost before = texts_model(errors@);
        assert(m[i as int] == items@[i as int]@);
        match &results[i] {
            Some(Ok(body)) => {
                bodies.push(Some(body.clone()));
            },
            Some(Err(f)) => {
                bodies.push(None);
                if let ScriptItem::External { url, kind } = &items[i] {
                    let words = describe_failure(f, url.as_str());
                    errors.push(words);
                    assert(texts_model(errors@) =~= before.push(failure_words(*f, url@)));
                }
            },
            None => {
                bodies.push(None);
            },
        }
        assert(all.take(i + 1) =~= all.take(i as int).push(all[i as int]));
        assert(bodies_model(bodies@) =~= all.take(i + 1));
        i = i + 1;
    }
    assert(all.take(i as int) =~= all);
    proof {
        lemma_fetch_errors(
            PageScripts { items: m, fates: fates_model(fates@), bodies: all },
            results@,
            i as int,
        );
    }
    (bodies, errors)
}

/// There is one error for each script that could not be fetched.
proof fn lemma_fetch_errors(
    p: PageScripts,
    results: Seq<Option<Result<String, FetchFailure>>>,
    n: int,
)
    requires
        0 <= n <= p.items.len(),
        fits_plan(p.items, p.fates, results),
        p.bodies == Seq::new(p.items.len(), |i: int| fetch_at(results, i)),
    ensures
        fetch_errors(p.items, results, n).len() == p.failed(n),
    decreases n,
{
    if n > 0 {
        lemma_fetch_errors(p, results, n - 1);
        assert(p.bodies[n - 1] == fetch_at(results, n - 1));
        assert(results[n - 1] is Some <==> p.wanted(n - 1));
    }
}

/// The scripts of a page with what was fetched, made ready to run.
#[derive(Debug)]
pub struct Assembly {
    /// The scripts that run, in the order in which they do.
    pub sources: Vec<Source>,
    pub events: Vec<Event>,
    pub inline_count: usize,
    pub external_count: usize,
    pub async_count: usize,
    pub policy_blocked: usize,
    pub fetch_failed: usize,
}

/// One more source stands for one more.
broadcast proof fn lemma_sources_push(sources: Seq<Source>, s: Source)
    ensures
        (#[trigger] sources_model(sources.push(s))) == sources_model(sources).push(s@),
{
    assert(sources_model(sources.push(s)) =~= sources_model(sources).push(s@));
}

/// Makes the scripts of a page ready to run: those that stand in the page or
/// are fetched in their place first, in the order of the page, then those that
/// wait for their turn.
pub fn assemble(
    nav_id: &str,
    items: &Vec<ScriptItem>,
    fates: &Vec<ScriptFate>,
    bodies: &Vec<Option<String>>,
) -> (r: Assembly)
    requires
        fates@.len() == items@.len(),
        bodies@.len() == items@.len(),
    ensures
        ({
            let p = PageScripts {
                items: scripts_model(items@),
                fates: fates_model(fates@),
                bodies: bodies_model(bodies@),
            };
            let n = items@.len() as int;
            &&& sources_model(r.sources@) == p.in_order()
            &&& events_model(r.events@) == p.reports(nav_id@, n)
            &&& r.inline_count == p.inline(n)
            &&& r.external_count == p.external(n)
            &&& r.async_count == p.ready(n, true).len()
            &&& r.policy_blocked == p.blocked(n)
            &&& r.fetch_failed == p.failed(n)
        }),
{
    let ghost p = PageScripts {
        items: scripts_model(items@),
        fates: fates_model(fates@),
        bodies: bodies_model(bodies@),
    };
    let mut sync_sources: Vec<Source> = Vec::new();
    let mut async_sources: Vec<Source> = Vec::new();
    let mut events: Vec<Event> = Vec::new();
    let mut inline_count: usize = 0;
    let mut external_count: usize = 0;
    let mut policy_blocked: usize = 0;
    let mut fetch_failed: usize = 0;
    let mut i: usize = 0;
    assert(sources_model(sync_sources@) =~= Seq::empty());
    assert(sources_model(async_sources@) =~= Seq::empty());
    assert(events_model(events@) =~= Seq::empty());
    while i < items.len()
        invariant
            i <= items.len(),
            fates@.len() == items@.len(),
            bodies@.len() == items@.len(),
            p == (PageScripts {
                items: scripts_model(items@),
                fates: fates_model(fates@),
                bodies: bodies_model(bodies@),
            }),
            sources_model(sync_sources@) == p.ready(i as int, false),
            sources_model(async_sources@) == p.ready(i as int, true),
            events_model(events@) == p.reports(nav_id@, i as int),
            inline_count == p.inline(i as int),
            external_count == p.external(i as int),
            policy_blocked == p.blocked(i as int),
            fetch_failed == p.failed(i as int),
            inline_count <= i,
            external_count <= i,
            policy_blocked <= i,
            fetch_failed <= i,
        decreases items.len() - i,
    {
        broadcast use {lemma_events_push, lemma_sources_push};

        assert(p.items[i as int] == items@[i as int]@);
        assert(p.fates[i as int] == fates@[i as int]@);
        assert(p.bodies[i as int] == option_model(bodies@[i as int]));
        match &items[i] {
            ScriptItem::Inline(s) => {
                inline_count = inline_count + 1;
                sync_sources.push(Source { id: i, kind: "inline", url: None, body: s.clone() });
            },
            ScriptItem::External { url, kind } => match &fates[i] {
                ScriptFate::Fetch => match &bodies[i] {
                    Some(body) => {
                        external_count = external_count + 1;
                        let e = start_decision(nav_id, i, url.as_str(), *kind, "queued");
                        events.push(Event { name: "script_decision", data: object(e) });
                        let s = Source {
                            id: i,
                            kind: script_kind_str(*kind),
                            url: Some(url.clone()),
                            body: body.clone(),
                        };
                        match kind {
                            ScriptKind::Sync => {
                                sync_sources.push(s);
                            },
                            ScriptKind::Async => {
                                async_sources.push(s);
                            },
                        }
                    },
                    None => {
                        fetch_failed = fetch_failed + 1;
                        let e = start_decision(nav_id, i, url.as_str(), *kind, "fetch_failed");
                        events.push(Event { name: "script_decision", data: object(e) });
                    },
                },
                _ => {
                    policy_blocked = policy_blocked + 1;
                },
            },
        }
        i = i + 1;
    }
    let async_count: usize = async_sources.len();
    let ghost before = sync_sources@;
    let ghost rest = async_sources@;
    sync_sources.append(&mut async_sources);
    assert(sources_model(sync_sources@) =~= sources_model(before) + sources_model(rest));
    Assembly {
        sources: sync_sources,
        events,
        inline_count,
        external_count,
        async_count,
        policy_blocked,
        fetch_failed,
    }
}

// ---------------------------------------------------------------------
// Running
// ---------------------------------------------------------------------

/// How a script is run.
#[derive(Debug)]
pub enum ScriptRoute {
    /// By this code, which loads it as a module.
    Module(String),
    /// Through the cache, under this name.
    Classic(String),
}

/// What a [`ScriptRoute`] stands for.
pub enum RouteModel {
    Module(Seq<char>),
    Classic(Seq<char>),
}

impl View for ScriptRoute {
    type V = RouteModel;

    open spec fn view(&self) -> RouteModel {
        match *self {
            ScriptRoute::Module(s) => RouteModel::Module(s@),
            ScriptRoute::Classic(s) => RouteModel::Classic(s@),
        }
    }
}

/// How a script is run: one that looks like a module as such.
pub open spec fn route_of(s: SourceModel) -> RouteModel {
    if is_module(s.body) {
        RouteModel::Module(
            "__loadModule("@ + json_literal(s.body) + ", "@ + json_literal(
                match s.url {
                    Some(u) => u,
                    None => ""@,
                },
            ) + ")"@,
        )
    } else {
        RouteModel::Classic(
            match s.url {
                Some(u) => u,
                None => "inline"@,
            },
        )
    }
}

/// How a script is run.
pub fn script_route(s: &Source) -> (r: ScriptRoute)
    ensures
        r@ == route_of(s@),
{
    if looks_like_module(s.body.as_str()) {
        let url: &str = match &s.url {
            Some(u) => u.as_str(),
            None => "",
        };
        ScriptRoute::Module(load_module_code(s.body.as_str(), url))
    } else {
        ScriptRoute::Classic(
            match &s.url {
                Some(u) => u.clone(),
                None => "inline".to_owned(),
            },
        )
    }
}

/// An error, of which no more than 200 bytes are kept, and whole characters.
pub open spec fn shortened(message: Seq<char>) -> Seq<char> {
    if byte_len(message) > 200 {
        fitting(message, 200) + "…"@
    } else {
        message
    }
}

/// An error, of which no more than 200 bytes are kept, and whole characters.
pub fn shorten(message: &str) -> (r: String)
    ensures
        r@ == shortened(message@),
{
    proof {
        lemma_byte_len(message@);
    }
    if message.as_bytes().len() > 200 {
        let mut s = byte_prefix(message, 200);
        s.append("…");
        s
    } else {
        message.to_owned()
    }
}

/// Whether an error says that a script was interrupted.
pub open spec fn is_interrupt(message: Seq<char>) -> bool {
    contains_text(message, "interrupted"@)
}

/// What is told of a script that was run.
pub open spec fn executed_json(
    nav_id: Seq<char>,
    s: SourceModel,
    duration_us: u64,
    error: Option<Seq<char>>,
) -> JsonModel {
    JsonModel::Object(
        seq![
            ("schema_version"@, number_json(1)),
            ("navigation_id"@, JsonModel::Text(nav_id)),
            ("script_id"@, number_json(s.id)),
            ("url"@, optional_text(s.url)),
            ("kind"@, JsonModel::Text(s.kind)),
            ("duration_us"@, number_json(duration_us as nat)),
            (
                "error"@,
                match error {
                    Some(m) => JsonModel::Text(shortened(m)),
                    None => JsonModel::Null,
                },
            ),
            (
                "interrupted"@,
                JsonModel::Bool(
                    match error {
                        Some(m) => is_interrupt(m),
                        None => false,
                    },
                ),
            ),
        ],
    )
}

/// What came of running scripts.
#[derive(Debug)]
pub struct RunTally {
    pub executed: usize,
    pub interrupted: usize,
    pub errors: Vec<String>,
}

/// What a [`RunTally`] stands for.
pub struct TallyModel {
    pub executed: nat,
    pub interrupted: nat,
    pub errors: Seq<Seq<char>>,
}

impl View for RunTally {
    type V = TallyModel;

    open spec fn view(&self) -> TallyModel {
        TallyModel {
            executed: self.executed as nat,
            interrupted: self.interrupted as nat,
            errors: texts_model(self.errors@),
        }
    }
}

/// What came of running scripts: of each, the error that it ended with, if it
/// did.
pub open spec fn tally_of(runs: Seq<Option<Seq<char>>>) -> TallyModel
    decreases runs.len(),
{
    if runs.len() == 0 {
        TallyModel { executed: 0, interrupted: 0, errors: Seq::empty() }
    } else {
        tally_of(runs.drop_last()).with(runs.last())
    }
}

impl TallyModel {
    /// What came of running one more script.
    pub open spec fn with(self, error: Option<Seq<char>>) -> TallyModel {
        match error {
            None => TallyModel { executed: self.executed + 1, ..self },
            Some(m) => TallyModel {
                executed: self.executed,
                interrupted: self.interrupted + if is_interrupt(m) {
                    1nat
                } else {
                    0nat
                },
                errors: self.errors.push(shortened(m)),
            },
        }
    }
}

impl RunTally {
    /// Before any script ran.
    pub fn new() -> (r: RunTally)
        ensures
            r@ == tally_of(Seq::empty()),
    {
        let errors: Vec<String> = Vec::new();
        assert(texts_model(errors@) =~= Seq::empty());
        RunTally { executed: 0, interrupted: 0, errors }
    }

    /// Notes what came of running a script, and tells of it.
    pub fn note(
        &mut self,
        nav_id: &str,
        s: &Source,
        duration_us: u64,
        error: &Option<String>,
    ) -> (r: Event)
        requires
            old(self).executed < usize::MAX,
            old(self).interrupted < usize::MAX,
        ensures
            r@ == ("script_executed"@, executed_json(nav_id@, s@, duration_us, option_model(*error))),
            final(self)@ == old(self)@.with(option_model(*error)),
    {
        let mut e = no_entries();
        put(&mut e, "schema_version", json_number(1));
        put(&mut e, "navigation_id", json_text_of(nav_id));
        put(&mut e, "script_id", json_number(s.id as u64));
        put(&mut e, "url", json_optional_text(&s.url));
        put(&mut e, "kind", json_text_of(s.kind));
        put(&mut e, "duration_us", json_number(duration_us));
        match error {
            Some(m) => {
                let words = shorten(m.as_str());
                let interrupt = contains_str(m.as_str(), "interrupted");
                put(&mut e, "error", json_text_of(words.as_str()));
                put(&mut e, "interrupted", Json::Bool(interrupt));
                if interrupt {
                    self.interrupted = self.interrupted + 1;
                }
                let ghost before = texts_model(self.errors@);
                let ghost w = words@;
                self.errors.push(words);
                assert(texts_model(self.errors@) =~= before.push(w));
            },
            None => {
                put(&mut e, "error", Json::Null);
                put(&mut e, "interrupted", Json::Bool(false));
                self.executed = self.executed + 1;
            },
        }
        let data = object(e);
        assert(data@->Object_0 =~= executed_json(
            nav_id@,
            s@,
            duration_us,
            option_model(*error),
        )->Object_0);
        Event { name: "script_executed", data }
    }
}

// ---------------------------------------------------------------------
// What holds of every page
// ---------------------------------------------------------------------

/// Every script of a page is accounted for once: it stands in the page, was
/// fetched, could not be fetched, or was skipped.
pub proof fn law_every_script_counted(p: PageScripts, n: int)
    requires
        0 <= n <= p.items.len(),
    ensures
        p.inline(n) + p.external(n) + p.failed(n) + p.blocked(n) == n,
    decreases n,
{
    if n > 0 {
        law_every_script_counted(p, n - 1);
    }
}

/// As many scripts run as stand in the page or were fetched.
pub proof fn law_ready_scripts_counted(p: PageScripts, n: int)
    requires
        0 <= n <= p.items.len(),
    ensures
        p.ready(n, false).len() + p.ready(n, true).len() == p.inline(n) + p.external(n),
    decreases n,
{
    if n > 0 {
        law_ready_scripts_counted(p, n - 1);
    }
}

/// Every script that runs is counted once, as executed or with its error, and
/// only one with an error was interrupted: as many are counted as stand in the
/// page or were fetched.
pub proof fn law_every_run_counted(p: PageScripts, runs: Seq<Option<Seq<char>>>)
    requires
        runs.len() == p.in_order().len(),
    ensures
        ({
            let t = tally_of(runs);
            let n = p.items.len() as int;
            &&& t.executed + t.errors.len() == p.inline(n) + p.external(n)
            &&& t.interrupted <= t.errors.len()
        }),
{
    law_ready_scripts_counted(p, p.items.len() as int);
    lemma_tally(runs);
}

/// A tally counts every run.
proof fn lemma_tally(runs: Seq<Option<Seq<char>>>)
    ensures
        tally_of(runs).executed + tally_of(runs).errors.len() == runs.len(),
        tally_of(runs).interrupted <= tally_of(runs).errors.len(),
    decreases runs.len(),
{
    if runs.len() > 0 {
        lemma_tally(runs.drop_last());
    }
}

/// Only scripts that were fetched wait for their turn.
pub proof fn law_waiting_scripts_were_fetched(p: PageScripts, n: int)
    requires
        0 <= n <= p.items.len(),
    ensures
        p.ready(n, true).len() <= p.external(n),
    decreases n,
{
    if n > 0 {
        law_waiting_scripts_were_fetched(p, n - 1);
    }
}

/// Scripts of one sort keep the order of the page.
pub proof fn law_ready_in_page_order(p: PageScripts, n: int, waiting: bool)
    requires
        0 <= n <= p.items.len(),
    ensures
        forall|i: int|
            0 <= i < p.ready(n, waiting).len() ==> (#[trigger] p.ready(n, waiting)[i]).id < n,
        forall|i: int, j: int|
            0 <= i < j < p.ready(n, waiting).len() ==> (#[trigger] p.ready(n, waiting)[i]).id < (
            #[trigger] p.ready(n, waiting)[j]).id,
    decreases n,
{
    if n > 0 {
        law_ready_in_page_order(p, n - 1, waiting);
        let front = p.ready(n - 1, waiting);
        let all = p.ready(n, waiting);
        assert forall|i: int| 0 <= i < all.len() implies (#[trigger] all[i]).id < n by {
            if i < front.len() {
                assert(all[i] == front[i]);
            }
        }
        assert forall|i: int, j: int| 0 <= i < j < all.len() implies (#[trigger] all[i]).id < (
        #[trigger] all[j]).id by {
            assert(all[i] == front[i]);
            if j < front.len() {
                assert(all[j] == front[j]);
            }
        }
    }
}

/// Scripts that stand in the page never wait for their turn.
pub proof fn law_inline_scripts_never_wait(p: PageScripts, i: int)
    requires
        p.items[i] is Inline,
    ensures
        !p.is_async(i),
        p.source(i) is Some,
{
}

/// Without blocking no script is skipped.
pub proof fn law_no_blocking_no_skip(item: ScriptModel, prefit: Option<DomainModel>)
    ensures
        fate_of(item, false, prefit) is Inline || fate_of(item, false, prefit) is Fetch,
{
}

/// A script that the domain needs is fetched, though its URL is blocked
/// everywhere or there.
pub proof fn law_needed_scripts_are_fetched(
    url: Seq<char>,
    kind: ScriptKind,
    blocking: bool,
    d: DomainModel,
)
    requires
        needed_on(d, url),
    ensures
        fate_of(ScriptModel::External { url, kind }, blocking, Some(d)) is Fetch,
{
}

/// With blocking on, a script whose URL is blocked everywhere or on the domain
/// is skipped, unless the domain needs it.
pub proof fn law_blocked_scripts_are_skipped(
    url: Seq<char>,
    kind: ScriptKind,
    prefit: Option<DomainModel>,
)
    requires
        decision(url).blocked || (prefit matches Some(d) && blocked_on(d, url)),
        !is_needed(prefit, url),
    ensures
        ({
            let fate = fate_of(ScriptModel::External { url, kind }, true, prefit);
            fate is Blocked || fate is PrefitBlocked
        }),
{
}

/// What is done with each script of a page: what stands in the page is run,
/// what has a source is fetched, unless blocking is on, the domain does not
/// need it, and its URL is blocked everywhere or on the domain.
pub proof fn law_what_is_done_with_scripts(
    items: &Vec<ScriptItem>,
    blocking: bool,
    prefit: Option<&DomainPrefit>,
    r: Vec<ScriptFate>,
    i: int,
)
    requires
        call_ensures(plan_scripts, (items, blocking, prefit), r),
        0 <= i < items@.len(),
    ensures
        r@.len() == items@.len(),
        r@[i]@ is Inline <==> items@[i]@ is Inline,
        items@[i]@ matches ScriptModel::External { url, kind } ==> {
            let needed = prefit matches Some(d) && exists|k: int|
                0 <= k < d@.required_patterns.len() && contains_text(
                    url,
                    #[trigger] d@.required_patterns[k],
                );
            let here = prefit matches Some(d) && blocked_on(d@, url);
            &&& r@[i]@ is Blocked <==> blocking && !needed && decision(url).blocked
            &&& r@[i]@ is PrefitBlocked <==> blocking && !needed && !decision(url).blocked && here
            &&& r@[i]@ matches FateModel::Blocked(d) ==> d == decision(url)
            &&& r@[i]@ matches FateModel::PrefitBlocked(domain) ==> domain == prefit->0@.domain
        },
{
    assert(fates_model(r@).len() == r@.len());
    assert(fates_model(r@)[i] == r@[i]@);
}

/// One script is done with as it would be among others.
pub proof fn law_scripts_are_planned_one_by_one(
    items: &Vec<ScriptItem>,
    blocking: bool,
    prefit: Option<&DomainPrefit>,
    all: Vec<ScriptFate>,
    one: ScriptFate,
    i: int,
)
    requires
        0 <= i < items@.len(),
        call_ensures(plan_scripts, (items, blocking, prefit), all),
        call_ensures(script_fate, (&items@[i], blocking, prefit), one),
    ensures
        all@[i]@ == one@,
{
    assert(fates_model(all@).len() == all@.len());
    assert(fates_model(all@)[i] == all@[i]@);
}

/// What runs of a page: every script that stands in it, and every one that was
/// to be fetched and was, with its own code and nothing else.
pub proof fn law_what_runs(p: PageScripts, i: int, body: Seq<char>)
    ensures
        p.items[i] is Inline ==> p.source(i) == Some(
            SourceModel { id: i as nat, kind: "inline"@, url: None, body: p.items[i]->Inline_0 },
        ),
        p.items[i] matches ScriptModel::External { url, kind } ==> {
            &&& p.source(i) is Some <==> p.fates[i] is Fetch && p.bodies[i] is Some
            &&& p.fates[i] is Fetch && p.bodies[i] == Some(body) ==> p.source(i) == Some(
                SourceModel {
                    id: i as nat,
                    kind: if kind == ScriptKind::Async {
                        "async"@
                    } else {
                        "sync"@
                    },
                    url: Some(url),
                    body,
                },
            )
        },
        p.is_async(i) <==> p.items[i] is External && p.items[i]->kind == ScriptKind::Async,
{
}

/// All that is ready runs, and nothing else does.
pub proof fn law_all_that_is_ready_runs(p: PageScripts, n: int, waiting: bool, i: int)
    requires
        0 <= n <= p.items.len(),
    ensures
        0 <= i < n && p.source(i) is Some && p.is_async(i) == waiting ==> p.ready(
            n,
            waiting,
        ).contains(p.source(i)->0),
        0 <= i < p.ready(n, waiting).len() ==> {
            let k = p.ready(n, waiting)[i].id as int;
            0 <= k < n && p.source(k) == Some(p.ready(n, waiting)[i]) && p.is_async(k) == waiting
        },
    decreases n,
{
    if n > 0 {
        let front = p.ready(n - 1, waiting);
        let all = p.ready(n, waiting);
        law_all_that_is_ready_runs(p, n - 1, waiting, i);
        if 0 <= i < n && p.source(i) is Some && p.is_async(i) == waiting {
            if i == n - 1 {
                assert(all.last() == p.source(i)->0);
                assert(all[all.len() - 1] == p.source(i)->0);
            } else {
                let s = p.source(i)->0;
                let k = choose|k: int| 0 <= k < front.len() && front[k] == s;
                assert(all[k] == s);
            }
        }
        if 0 <= i < all.len() && i < front.len() {
            assert(all[i] == front[i]);
        }
    }
}

/// Scripts that wait for their turn run behind all others, and of either sort
/// each runs in the order of the page.
pub proof fn law_order_of_running(p: PageScripts, a: int, b: int)
    requires
        0 <= a < b < p.in_order().len(),
    ensures
        ({
            let (first, second) = (p.in_order()[a], p.in_order()[b]);
            let (late, later) = (p.is_async(first.id as int), p.is_async(second.id as int));
            &&& late ==> later
            &&& late == later ==> first.id < second.id
        }),
{
    let n = p.items.len() as int;
    let now = p.ready(n, false);
    let then = p.ready(n, true);
    let all = p.in_order();
    law_ready_in_page_order(p, n, false);
    law_ready_in_page_order(p, n, true);
    let k = now.len() as int;
    if a < k {
        assert(all[a] == now[a]);
        law_all_that_is_ready_runs(p, n, false, a);
    } else {
        assert(all[a] == then[a - k]);
        law_all_that_is_ready_runs(p, n, true, a - k);
    }
    if b < k {
        assert(all[b] == now[b]);
        law_all_that_is_ready_runs(p, n, false, b);
    } else {
        assert(all[b] == then[b - k]);
        law_all_that_is_ready_runs(p, n, true, b - k);
    }
}

/// One more script adds one to the count that it belongs to, and to no other.
pub proof fn law_what_each_script_counts_as(p: PageScripts, n: int)
    requires
        0 <= n < p.items.len(),
    ensures
        ({
            let inline = p.items[n] is Inline;
            let wanted = p.items[n] is External && p.fates[n] is Fetch;
            let got = p.bodies[n] is Some;
            &&& p.inline(n + 1) - p.inline(n) == (if inline {
                1int
            } else {
                0
            })
            &&& p.external(n + 1) - p.external(n) == (if wanted && got {
                1int
            } else {
                0
            })
            &&& p.failed(n + 1) - p.failed(n) == (if wanted && !got {
                1int
            } else {
                0
            })
            &&& p.blocked(n + 1) - p.blocked(n) == (if !inline && !wanted {
                1int
            } else {
                0
            })
        }),
        p.inline(0) == 0 && p.external(0) == 0 && p.failed(0) == 0 && p.blocked(0) == 0,
{
}

/// What is answered of the scripts of a page are the counts of the page.
pub proof fn law_assembly_counts(
    nav_id: &str,
    items: &Vec<ScriptItem>,
    fates: &Vec<ScriptFate>,
    bodies: &Vec<Option<String>>,
    r: Assembly,
)
    requires
        fates@.len() == items@.len(),
        bodies@.len() == items@.len(),
        call_ensures(assemble, (nav_id, items, fates, bodies), r),
    ensures
        r.inline_count + r.external_count + r.fetch_failed + r.policy_blocked == items@.len(),
        r.sources@.len() == r.inline_count + r.external_count,
        r.async_count <= r.external_count,
        r.events@.len() == r.external_count + r.fetch_failed,
{
    let p = PageScripts {
        items: scripts_model(items@),
        fates: fates_model(fates@),
        bodies: bodies_model(bodies@),
    };
    let n = items@.len() as int;
    law_every_script_counted(p, n);
    law_ready_scripts_counted(p, n);
    law_waiting_scripts_were_fetched(p, n);
    lemma_reports_counted(p, nav_id@, n);
    assert(sources_model(r.sources@).len() == r.sources@.len());
    assert(events_model(r.events@).len() == r.events@.len());
}

/// Of each script that was to be fetched something is told.
proof fn lemma_reports_counted(p: PageScripts, nav_id: Seq<char>, n: int)
    requires
        0 <= n <= p.items.len(),
    ensures
        p.reports(nav_id, n).len() == p.external(n) + p.failed(n),
    decreases n,
{
    if n > 0 {
        lemma_reports_counted(p, nav_id, n - 1);
    }
}

/// Of each script that was to be fetched it is told once whether it waits to be
/// run or could not be fetched, and of no other anything.
pub proof fn law_what_is_told_of_fetches(p: PageScripts, nav_id: Seq<char>, n: int)
    requires
        0 <= n < p.items.len(),
    ensures
        !(p.items[n] is External && p.fates[n] is Fetch) ==> p.reports(nav_id, n + 1) == p.reports(
            nav_id,
            n,
        ),
        p.items[n] is External && p.fates[n] is Fetch ==> {
            let told = p.reports(nav_id, n + 1);
            &&& told.drop_last() == p.reports(nav_id, n)
            &&& told.last().0 == "script_decision"@
            &&& told.last().1.text_at("action"@) == Some(
                if p.bodies[n] is Some {
                    "queued"@
                } else {
                    "fetch_failed"@
                },
            )
            &&& told.last().1.text_at("url"@) == Some(p.items[n]->url)
            &&& told.last().1.text_at("navigation_id"@) == Some(nav_id)
            &&& told.last().1.u64_at("script_id"@) == Some(n as u64)
            &&& told.last().1.text_at("kind"@) == Some(kind_name(p.items[n]->kind))
        },
{
    if p.items[n] is External && p.fates[n] is Fetch {
        let told = p.reports(nav_id, n + 1);
        assert(told.drop_last() =~= p.reports(nav_id, n));
        lemma_decision_head(told.last().1->Object_0);
    }
}

/// The entries with which every decision on a script begins are found by their
/// keys.
proof fn lemma_decision_head(e: Seq<(Seq<char>, JsonModel)>)
    requires
        e.len() >= 7,
        e[0].0 == "schema_version"@,
        e[1].0 == "navigation_id"@,
        e[2].0 == "script_id"@,
        e[3].0 == "url"@,
        e[4].0 == "host"@,
        e[5].0 == "kind"@,
        e[6].0 == "action"@,
    ensures
        JsonModel::Object(e).get("schema_version"@) == Some(e[0].1),
        JsonModel::Object(e).get("navigation_id"@) == Some(e[1].1),
        JsonModel::Object(e).get("script_id"@) == Some(e[2].1),
        JsonModel::Object(e).get("url"@) == Some(e[3].1),
        JsonModel::Object(e).get("host"@) == Some(e[4].1),
        JsonModel::Object(e).get("kind"@) == Some(e[5].1),
        JsonModel::Object(e).get("action"@) == Some(e[6].1),
        e.len() >= 8 && e[7].0 == "reason"@ ==> JsonModel::Object(e).get("reason"@) == Some(e[7].1),
        e.len() >= 9 && e[7].0 == "reason"@ && e[8].0 == "category"@ ==> JsonModel::Object(e).get(
            "category"@,
        ) == Some(e[8].1),
        e.len() >= 10 && e[7].0 == "reason"@ && e[8].0 == "category"@ && e[9].0 == "matched"@
            ==> JsonModel::Object(e).get("matched"@) == Some(e[9].1),
        e.len() >= 9 && e[7].0 == "reason"@ && e[8].0 == "domain"@ ==> JsonModel::Object(e).get(
            "domain"@,
        ) == Some(e[8].1),
{
    reveal_strlit("schema_version");
    reveal_strlit("navigation_id");
    reveal_strlit("script_id");
    reveal_strlit("url");
    reveal_strlit("host");
    reveal_strlit("kind");
    reveal_strlit("action");
    reveal_strlit("reason");
    reveal_strlit("category");
    reveal_strlit("matched");
    reveal_strlit("domain");
    assert("schema_version"@.len() == 14);
    assert("navigation_id"@.len() == 13);
    assert("script_id"@.len() == 9);
    assert("url"@.len() == 3);
    assert("host"@.len() == 4);
    assert("kind"@.len() == 4);
    assert("host"@[0] != "kind"@[0]);
    assert("action"@.len() == 6);
    assert("reason"@.len() == 6);
    assert("action"@[0] != "reason"@[0]);
    assert("category"@.len() == 8);
    assert("matched"@.len() == 7);
    assert("domain"@.len() == 6);
    assert("action"@[0] != "domain"@[0]);
    assert("reason"@[0] != "domain"@[0]);
    lemma_entry_at(e, "schema_version"@, 0);
    lemma_entry_at(e, "navigation_id"@, 1);
    lemma_entry_at(e, "script_id"@, 2);
    lemma_entry_at(e, "url"@, 3);
    lemma_entry_at(e, "host"@, 4);
    lemma_entry_at(e, "kind"@, 5);
    lemma_entry_at(e, "action"@, 6);
    if e.len() >= 8 && e[7].0 == "reason"@ {
        lemma_entry_at(e, "reason"@, 7);
        if e.len() >= 9 && e[8].0 == "category"@ {
            lemma_entry_at(e, "category"@, 8);
            if e.len() >= 10 && e[9].0 == "matched"@ {
                lemma_entry_at(e, "matched"@, 9);
            }
        }
        if e.len() >= 9 && e[8].0 == "domain"@ {
            lemma_entry_at(e, "domain"@, 8);
        }
    }
}

/// Of a script that is skipped it is told that and why: which entry of which
/// sort blocks it everywhere, with a short notice besides, or which domain
/// blocks it. Of any other script nothing is told here.
pub proof fn law_what_is_told_of_skips(
    nav_id: Seq<char>,
    id: usize,
    url: Seq<char>,
    kind: ScriptKind,
    fate: FateModel,
)
    ensures
        ({
            let told = skip_events(nav_id, id as nat, ScriptModel::External { url, kind }, fate);
            &&& fate is Fetch || fate is Inline ==> told.len() == 0
            &&& fate matches FateModel::Blocked(d) ==> {
                &&& told.len() == 2
                &&& told[0].0 == "script_decision"@ && told[1].0 == "policy_blocked"@
                &&& told[0].1.text_at("action"@) == Some("skip"@)
                &&& told[0].1.text_at("reason"@) == Some("blocklist"@)
                &&& told[0].1.text_at("url"@) == Some(url)
                &&& told[0].1.u64_at("script_id"@) == Some(id as u64)
                &&& told[0].1.get("category"@) == Some(category_json(d))
                &&& told[0].1.text_at("matched"@) == d.matched_pattern
                &&& told[1].1.text_at("url"@) == Some(url)
                &&& told[1].1.text_at("matched"@) == d.matched_pattern
                &&& d.category matches Some(c) ==> category_json(d) == JsonModel::Text(c.name())
            }
            &&& fate matches FateModel::PrefitBlocked(domain) ==> {
                &&& told.len() == 1
                &&& told[0].0 == "script_decision"@
                &&& told[0].1.text_at("action"@) == Some("skip"@)
                &&& told[0].1.text_at("reason"@) == Some("prefit_blocklist"@)
                &&& told[0].1.text_at("url"@) == Some(url)
                &&& told[0].1.u64_at("script_id"@) == Some(id as u64)
                &&& told[0].1.text_at("domain"@) == Some(domain)
            }
        }),
{
    let told = skip_events(nav_id, id as nat, ScriptModel::External { url, kind }, fate);
    if fate is Blocked || fate is PrefitBlocked {
        lemma_decision_head(told[0].1->Object_0);
    }
    if fate is Blocked {
        let e = told[1].1->Object_0;
        reveal_strlit("url");
        reveal_strlit("kind");
        reveal_strlit("category");
        reveal_strlit("matched");
        assert("url"@.len() == 3);
        assert("kind"@.len() == 4);
        assert("category"@.len() == 8);
        assert("matched"@.len() == 7);
        lemma_entry_at(e, "url"@, 0);
        lemma_entry_at(e, "matched"@, 3);
    }
}

/// What came of fetching a script is its code exactly if it was fetched, and the
/// words of each failure are kept in the order of the page.
pub proof fn law_fetches_are_sorted(
    items: &Vec<ScriptItem>,
    fates: &Vec<ScriptFate>,
    results: &Vec<Option<Result<String, FetchFailure>>>,
    r: (Vec<Option<String>>, Vec<String>),
    i: int,
)
    requires
        fits_plan(scripts_model(items@), fates_model(fates@), results@),
        call_ensures(sort_fetches, (items, fates, results), r),
        0 <= i < items@.len(),
    ensures
        r.0@.len() == items@.len(),
        results@[i] matches Some(Ok(body)) ==> r.0@[i] is Some && r.0@[i]->0@ == body@,
        !(results@[i] matches Some(Ok(_))) ==> r.0@[i] is None,
        (results@[i] matches Some(Err(f)) && items@[i]@ matches ScriptModel::External { url, .. })
            ==> texts_model(r.1@).contains(
            failure_words(results@[i]->0->Err_0, items@[i]@->url),
        ),
{
    assert(bodies_model(r.0@).len() == r.0@.len());
    assert(bodies_model(r.0@)[i] == option_model(r.0@[i]));
    if results@[i] is Some && results@[i]->0 is Err && items@[i]@ is External {
        lemma_failure_is_kept(scripts_model(items@), results@, items@.len() as int, i);
    }
}

proof fn lemma_failure_is_kept(
    items: Seq<ScriptModel>,
    results: Seq<Option<Result<String, FetchFailure>>>,
    n: int,
    i: int,
)
    requires
        0 <= i < n <= items.len(),
        items.len() == results.len(),
        items[i] is External,
        results[i] is Some && results[i]->0 is Err,
    ensures
        fetch_errors(items, results, n).contains(failure_words(results[i]->0->Err_0, items[i]->url)),
    decreases n,
{
    let words = failure_words(results[i]->0->Err_0, items[i]->url);
    let all = fetch_errors(items, results, n);
    let front = fetch_errors(items, results, n - 1);
    if i == n - 1 {
        assert(all[all.len() - 1] == words);
    } else {
        lemma_failure_is_kept(items, results, n - 1, i);
        let k = choose|k: int| 0 <= k < front.len() && front[k] == words;
        assert(all[k] == words);
    }
}

/// Why a script could not be fetched is said with its URL and the words of the
/// failure.
pub proof fn law_why_a_script_is_missing(f: &FetchFailure, url: &str, r: String)
    requires
        call_ensures(describe_failure, (f, url), r),
    ensures
        match *f {
            FetchFailure::Status(s) => r@ == "status "@ + s@ + " fetching "@ + url@,
            FetchFailure::Read(e) => r@ == "read "@ + url@ + ": "@ + e@,
            FetchFailure::Send(e) => r@ == "fetch "@ + url@ + ": "@ + e@,
            FetchFailure::Timeout(ms) => r@ == "timeout "@ + decimal(ms as nat) + "ms fetching "@
                + url@,
            FetchFailure::Broke(e) => r@ == "task panicked: "@ + e@,
        },
{
}

/// A script that looks like a module is loaded as one, from where it came; any
/// other runs under the name of where it came from.
pub proof fn law_how_scripts_run(s: &Source, r: ScriptRoute)
    requires
        call_ensures(script_route, (s,), r),
    ensures
        is_module(s.body@) <==> r is Module,
        r matches ScriptRoute::Classic(name) ==> name@ == (if s.url is Some {
            s.url->0@
        } else {
            "inline"@
        }),
        r matches ScriptRoute::Module(code) ==> code@ == "__loadModule("@ + json_literal(s.body@)
            + ", "@ + json_literal(
            if s.url is Some {
                s.url->0@
            } else {
                Seq::empty()
            },
        ) + ")"@,
{
    reveal_strlit("");
    assert(""@ =~= Seq::empty());
}

/// A message of at most 200 bytes is kept whole; of a longer one as many whole
/// characters as 200 bytes hold, and a mark that something is missing.
pub proof fn law_messages_are_shortened(message: &str, r: String)
    requires
        call_ensures(shorten, (message,), r),
    ensures
        byte_len(message@) <= 200 ==> r@ == message@,
        byte_len(message@) > 200 ==> {
            let n = r@.len() - 1;
            &&& 0 <= n < message@.len()
            &&& r@.take(n) == message@.take(n)
            &&& r@[n] == '…'
            &&& byte_len(message@.take(n)) <= 200
            &&& byte_len(message@.take(n + 1)) > 200
        },
{
    if byte_len(message@) > 200 {
        reveal_strlit("…");
        lemma_fitting_is_longest(message@, 200);
        let kept = fitting(message@, 200);
        let n = kept.len() as int;
        assert(r@ =~= kept + "…"@);
        assert(r@.take(n) =~= kept);
        assert(message@.take(message@.len() as int) =~= message@);
        assert("…"@.len() == 1);
        assert(r@[n] == "…"@[0]);
    }
}

/// What fits of a text is a beginning of it, and the longest that does.
proof fn lemma_fitting_is_longest(s: Seq<char>, n: nat)
    ensures
        ({
            let k = fitting(s, n).len() as int;
            &&& k <= s.len()
            &&& fitting(s, n) == s.take(k)
            &&& byte_len(s.take(k)) <= n
            &&& k < s.len() ==> byte_len(s.take(k + 1)) > n
        }),
    decreases s.len(),
{
    if s.len() == 0 || byte_len(s) <= n {
        assert(s.take(s.len() as int) =~= s);
    } else {
        let front = s.drop_last();
        lemma_fitting_is_longest(front, n);
        let k = fitting(front, n).len() as int;
        assert(front.take(k) =~= s.take(k));
        if k < front.len() {
            assert(front.take(k + 1) =~= s.take(k + 1));
        } else {
            assert(s.take(k + 1) =~= s);
        }
    }
}

/// More runs add to the tally: those that went well to the one count, the others
/// with their errors, in their order, and those that were interrupted to their
/// own.
pub proof fn law_runs_add_up(
    a: Seq<Option<Seq<char>>>,
    b: Seq<Option<Seq<char>>>,
    message: Seq<char>,
)
    ensures
        tally_of(a + b).executed == tally_of(a).executed + tally_of(b).executed,
        tally_of(a + b).interrupted == tally_of(a).interrupted + tally_of(b).interrupted,
        tally_of(a + b).errors == tally_of(a).errors + tally_of(b).errors,
        tally_of(seq![None]) == (TallyModel { executed: 1, interrupted: 0, errors: Seq::empty() }),
        tally_of(seq![Some(message)]).executed == 0,
        tally_of(seq![Some(message)]).errors == seq![shortened(message)],
        tally_of(seq![Some(message)]).interrupted == (if contains_text(message, "interrupted"@) {
            1nat
        } else {
            0nat
        }),
    decreases b.len(),
{
    let good: Seq<Option<Seq<char>>> = seq![None];
    let bad: Seq<Option<Seq<char>>> = seq![Some(message)];
    let none = Seq::<Option<Seq<char>>>::empty();
    assert(good.drop_last() =~= none);
    assert(bad.drop_last() =~= none);
    assert(tally_of(none).errors =~= Seq::empty());
    assert(good.last() is None);
    assert(bad.last() == Some(message));
    assert(tally_of(bad) == tally_of(none).with(Some(message)));
    assert(tally_of(good) == tally_of(none).with(None));
    assert(tally_of(bad).errors =~= seq![shortened(message)]);
    if b.len() == 0 {
        assert(a + b =~= a);
        assert(tally_of(a).errors + tally_of(b).errors =~= tally_of(a).errors);
    } else {
        law_runs_add_up(a, b.drop_last(), message);
        assert((a + b).drop_last() =~= a + b.drop_last());
        assert((a + b).last() == b.last());
        assert(tally_of(a + b).errors =~= tally_of(a).errors + tally_of(b).errors);
    }
}

/// The code of a script is taken exactly from responses that went well.
pub proof fn law_which_responses_are_scripts(status: u16, r: bool)
    requires
        call_ensures(accepts_script, (status,), r),
    ensures
        r <==> status / 100 == 2,
{
}

/// What is told of a script that ran says which it was, for how long it ran, and
/// how it ended.
pub proof fn law_what_is_told_of_a_run(
    nav_id: Seq<char>,
    s: SourceModel,
    duration_us: u64,
    error: Option<Seq<char>>,
)
    ensures
        executed_json(nav_id, s, duration_us, error).u64_at("schema_version"@) == Some(1u64),
        executed_json(nav_id, s, duration_us, error).text_at("navigation_id"@) == Some(nav_id),
        executed_json(nav_id, s, duration_us, error).u64_at("script_id"@) == Some(s.id as u64),
        executed_json(nav_id, s, duration_us, error).text_at("kind"@) == Some(s.kind),
        executed_json(nav_id, s, duration_us, error).u64_at("duration_us"@) == Some(duration_us),
        executed_json(nav_id, s, duration_us, error).text_at("url"@) == s.url,
        error is None ==> executed_json(nav_id, s, duration_us, error).get("error"@) == Some(
            JsonModel::Null,
        ),
        (error matches Some(m) ==> executed_json(nav_id, s, duration_us, error).text_at("error"@)
            == Some(shortened(m))),
        executed_json(nav_id, s, duration_us, error).bool_at("interrupted"@) == Some(
            error is Some && contains_text(error->0, "interrupted"@),
        ),
{
    reveal_strlit("schema_version");
    reveal_strlit("navigation_id");
    reveal_strlit("script_id");
    reveal_strlit("url");
    reveal_strlit("kind");
    reveal_strlit("duration_us");
    reveal_strlit("error");
    reveal_strlit("interrupted");
    assert("schema_version"@.len() == 14);
    assert("navigation_id"@.len() == 13);
    assert("script_id"@.len() == 9);
    assert("url"@.len() == 3);
    assert("kind"@.len() == 4);
    assert("duration_us"@.len() == 11);
    assert("error"@.len() == 5);
    assert("interrupted"@.len() == 11);
    assert("duration_us"@[0] != "interrupted"@[0]);
    let e = executed_json(nav_id, s, duration_us, error)->Object_0;
    lemma_entry_at(e, "schema_version"@, 0);
    lemma_entry_at(e, "navigation_id"@, 1);
    lemma_entry_at(e, "script_id"@, 2);
    lemma_entry_at(e, "url"@, 3);
    lemma_entry_at(e, "kind"@, 4);
    lemma_entry_at(e, "duration_us"@, 5);
    lemma_entry_at(e, "error"@, 6);
    lemma_entry_at(e, "interrupted"@, 7);
}

/// Before any script ran nothing is counted; one that ran is counted as such,
/// and of one that failed the shortened message is kept, and whether it was
/// interrupted. Each run is told.
pub proof fn law_how_runs_are_noted()
    ensures
        forall|t: RunTally| #[trigger]
            call_ensures(RunTally::new, (), t) ==> t@.executed == 0 && t@.interrupted == 0
                && t@.errors.len() == 0,
        forall|
            t: &mut RunTally,
            nav_id: &str,
            s: &Source,
            duration_us: u64,
            error: &Option<String>,
            r: Event,
        | #[trigger]
            call_ensures(RunTally::note, (t, nav_id, s, duration_us, error), r) ==> {
                &&& r@.0 == "script_executed"@
                &&& r@.1 == executed_json(nav_id@, s@, duration_us, option_model(*error))
                &&& *error is None ==> (*final(t))@ == (TallyModel {
                    executed: (*t)@.executed + 1,
                    ..(*t)@
                })
                &&& *error matches Some(m) ==> {
                    &&& (*final(t))@.executed == (*t)@.executed
                    &&& (*final(t))@.errors == (*t)@.errors.push(shortened(m@))
                    &&& contains_text(m@, "interrupted"@) ==> (*final(t))@.interrupted
                        == (*t)@.interrupted + 1
                    &&& !contains_text(m@, "interrupted"@) ==> (*final(t))@.interrupted
                        == (*t)@.interrupted
                }
            },
{
}

/// What is told of a script that is left out is what the law on such scripts
/// says.
pub proof fn law_reports_on_skips(
    nav_id: &str,
    id: usize,
    item: &ScriptItem,
    fate: &ScriptFate,
    r: Vec<Event>,
)
    requires
        call_ensures(skip_reports, (nav_id, id, item, fate), r),
    ensures
        events_model(r@) == skip_events(nav_id@, id as nat, item@, fate@),
{
}

/// Whether what is told of a decision names the navigation and the script, with
/// its host and kind, and what is done.
pub open spec fn names_script(
    j: JsonModel,
    nav_id: Seq<char>,
    id: nat,
    url: Seq<char>,
    kind: ScriptKind,
    action: Seq<char>,
) -> bool {
    &&& j.u64_at("schema_version"@) == Some(1u64)
    &&& j.text_at("navigation_id"@) == Some(nav_id)
    &&& j.u64_at("script_id"@) == Some(id as u64)
    &&& j.text_at("url"@) == Some(url)
    &&& lower_host(url) is Some ==> j.text_at("host"@) == lower_host(url)
    &&& lower_host(url) is None ==> j.text_at("host"@) == Some(Seq::<char>::empty())
    &&& j.text_at("kind"@) == Some(
        if kind is Async {
            "async"@
        } else {
            "sync"@
        },
    )
    &&& j.text_at("action"@) == Some(action)
}

/// Every decision on a script names it: one that is left out, one that waits to
/// run and one that could not be fetched.
pub proof fn law_decisions_name_their_script(
    nav_id: Seq<char>,
    id: usize,
    url: Seq<char>,
    kind: ScriptKind,
    fate: FateModel,
    p: PageScripts,
    n: int,
)
    requires
        0 <= n < p.items.len() <= usize::MAX,
    ensures
        ({
            let told = skip_events(nav_id, id as nat, ScriptModel::External { url, kind }, fate);
            told.len() > 0 ==> names_script(told[0].1, nav_id, id as nat, url, kind, "skip"@)
        }),
        p.items[n] is External && p.fates[n] is Fetch ==> names_script(
            p.reports(nav_id, n + 1).last().1,
            nav_id,
            n as nat,
            p.items[n]->url,
            p.items[n]->kind,
            if p.bodies[n] is Some {
                "queued"@
            } else {
                "fetch_failed"@
            },
        ),
{
    let told = skip_events(nav_id, id as nat, ScriptModel::External { url, kind }, fate);
    if told.len() > 0 {
        assert(told[0].1->Object_0.take(7) =~= decision_head(nav_id, id as nat, url, kind, "skip"@));
        lemma_head_names_script(told[0].1, nav_id, id, url, kind, "skip"@);
    }
    if p.items[n] is External && p.fates[n] is Fetch {
        let e = p.reports(nav_id, n + 1).last().1->Object_0;
        assert(e.take(7) =~= e);
        lemma_head_names_script(
            p.reports(nav_id, n + 1).last().1,
            nav_id,
            n as usize,
            p.items[n]->url,
            p.items[n]->kind,
            if p.bodies[n] is Some {
                "queued"@
            } else {
                "fetch_failed"@
            },
        );
    }
}

proof fn lemma_head_names_script(
    j: JsonModel,
    nav_id: Seq<char>,
    id: usize,
    url: Seq<char>,
    kind: ScriptKind,
    action: Seq<char>,
)
    requires
        j is Object,
        j->Object_0.len() >= 7,
        j->Object_0.take(7) == decision_head(nav_id, id as nat, url, kind, action),
    ensures
        names_script(j, nav_id, id as nat, url, kind, action),
{
    let e = j->Object_0;
    let h = decision_head(nav_id, id as nat, url, kind, action);
    assert(forall|i: int| 0 <= i < 7 ==> #[trigger] e[i] == e.take(7)[i]);
    assert(e[0] == h[0] && e[1] == h[1] && e[2] == h[2] && e[3] == h[3] && e[4] == h[4] && e[5]
        == h[5] && e[6] == h[6]);
    reveal_strlit("schema_version");
    reveal_strlit("navigation_id");
    reveal_strlit("script_id");
    reveal_strlit("url");
    reveal_strlit("host");
    reveal_strlit("kind");
    reveal_strlit("action");
    assert("schema_version"@.len() == 14);
    assert("navigation_id"@.len() == 13);
    assert("script_id"@.len() == 9);
    assert("url"@.len() == 3);
    assert("host"@.len() == 4);
    assert("kind"@.len() == 4);
    assert("action"@.len() == 6);
    assert("host"@[0] != "kind"@[0]);
    lemma_entry_at(e, "schema_version"@, 0);
    lemma_entry_at(e, "navigation_id"@, 1);
    lemma_entry_at(e, "script_id"@, 2);
    lemma_entry_at(e, "url"@, 3);
    lemma_entry_at(e, "host"@, 4);
    lemma_entry_at(e, "kind"@, 5);
    lemma_entry_at(e, "action"@, 6);
}

/// That a script was blocked is told with its URL, that it is one, and the entry
/// that it was blocked by.
pub proof fn law_blocked_scripts_are_told(
    nav_id: Seq<char>,
    id: nat,
    url: Seq<char>,
    kind: ScriptKind,
    d: DecisionModel,
)
    ensures
        ({
            let told = skip_events(
                nav_id,
                id,
                ScriptModel::External { url, kind },
                FateModel::Blocked(d),
            )[1].1;
            &&& told.text_at("url"@) == Some(url)
            &&& told.text_at("kind"@) == Some("static_script"@)
            &&& d.category matches Some(c) ==> told.text_at("category"@) == Some(c.name())
            &&& d.category is None ==> told.get("category"@) == Some(JsonModel::Null)
            &&& told.text_at("matched"@) == d.matched_pattern
        }),
{
    reveal_strlit("url");
    reveal_strlit("kind");
    reveal_strlit("category");
    reveal_strlit("matched");
    assert("url"@.len() == 3);
    assert("kind"@.len() == 4);
    assert("category"@.len() == 8);
    assert("matched"@.len() == 7);
    let e = skip_events(
        nav_id,
        id,
        ScriptModel::External { url, kind },
        FateModel::Blocked(d),
    )[1].1->Object_0;
    lemma_entry_at(e, "url"@, 0);
    lemma_entry_at(e, "kind"@, 1);
    lemma_entry_at(e, "category"@, 2);
    lemma_entry_at(e, "matched"@, 3);
}

} // verus!

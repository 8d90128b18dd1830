//! What the scripts of a page fetch.
use vstd::prelude::*;

use crate::events::Event;
use crate::json::{
    array, entries_model, items_model, json_number, json_optional_text, json_parsed, json_printed,
    json_text_of, lemma_entry_at, lemma_entry_skip, lemma_held_array, lemma_items_push, lemma_object_model, no_entries,
    object, optional_text, parse_json, print_json, put, with_map_entries, Json, JsonModel,
};
use crate::navigation::{copy_entries, flat_headers, read_headers};
use crate::policy::{decide, decision, DecisionModel};
use crate::scripts::{category_json, number_json};
use crate::text::{same, unicode_uppercase};
use crate::urls::{option_model, pairs_model};

verus! {

/// Something that a script fetches.
#[derive(Debug)]
pub struct FetchRequest {
    pub id: u64,
    pub method: String,
    pub url: String,
    pub headers: Vec<(String, String)>,
    pub body: String,
}

/// What comes of fetching something.
#[derive(Debug)]
pub struct FetchResponse {
    pub id: u64,
    pub status: u16,
    /// The headers, as the entries of an object.
    pub headers: Vec<(String, Json)>,
    pub body: String,
    pub error: Option<String>,
}

/// What a [`FetchResponse`] says, in JSON.
pub open spec fn response_json(
    id: u64,
    status: u16,
    headers: Seq<(Seq<char>, JsonModel)>,
    body: Seq<char>,
    error: Option<Seq<char>>,
) -> JsonModel {
    JsonModel::Object(
        seq![
            ("id"@, number_json(id as nat)),
            ("status"@, number_json(status as nat)),
            ("headers"@, JsonModel::Object(headers)),
            ("body"@, JsonModel::Text(body)),
            ("error"@, optional_text(error)),
        ],
    )
}

impl FetchResponse {
    /// What the response says, in JSON.
    pub open spec fn model(self) -> JsonModel {
        response_json(
            self.id,
            self.status,
            entries_model(self.headers@),
            self.body@,
            option_model(self.error),
        )
    }

    /// What a script hears of a fetch that is blocked: it went well, and there
    /// is nothing.
    pub fn blocked(id: u64) -> (r: FetchResponse)
        ensures
            r.model() == blocked_answer(id),
    {
        FetchResponse { id, status: 204, headers: no_entries(), body: String::new(), error: None }
    }

    /// What a script hears of a fetch that failed.
    pub fn failed(id: u64, error: String) -> (r: FetchResponse)
        ensures
            r.model() == response_json(id, 0, Seq::empty(), Seq::empty(), Some(error@)),
    {
        FetchResponse {
            id,
            status: 0,
            headers: no_entries(),
            body: String::new(),
            error: Some(error),
        }
    }

    /// What a script hears of a fetch that went well: of headers with one name
    /// the last, the names in lowercase.
    pub fn received(id: u64, status: u16, headers: &Vec<(String, String)>, body: String) -> (r:
        FetchResponse)
        ensures
            r.model() == response_json(
                id,
                status,
                flat_headers(pairs_model(headers@)),
                body@,
                None,
            ),
    {
        let (_, flat) = read_headers(headers);
        FetchResponse { id, status, headers: flat, body, error: None }
    }

    /// What the response says, in JSON.
    fn to_value(&self) -> (r: Json)
        ensures
            r@ == self.model(),
    {
        let mut e = no_entries();
        put(&mut e, "id", json_number(self.id));
        put(&mut e, "status", json_number(self.status as u64));
        put(&mut e, "headers", object(copy_entries(&self.headers)));
        put(&mut e, "body", json_text_of(self.body.as_str()));
        put(&mut e, "error", json_optional_text(&self.error));
        let r = object(e);
        assert(r@->Object_0 =~= self.model()->Object_0);
        r
    }
}

/// What responses say, in JSON.
pub open spec fn responses_model(responses: Seq<FetchResponse>) -> Seq<JsonModel> {
    Seq::new(responses.len(), |i: int| responses[i].model())
}

/// What is handed to a page of the responses that came in, in their order.
pub fn drain_text(responses: &Vec<FetchResponse>) -> (r: String)
    ensures
        r@ == handed_over(responses_model(responses@)),
{
    let ghost all = responses_model(responses@);
    let mut out: Vec<Json> = Vec::new();
    let mut i: usize = 0;
    while i < responses.len()
        invariant
            i <= responses.len(),
            all == responses_model(responses@),
            items_model(out@) =~= all.take(i as int),
        decreases responses.len() - i,
    {
        broadcast use lemma_items_push;

        out.push(responses[i].to_value());
        assert(all.take(i + 1) =~= all.take(i as int).push(all[i as int]));
        i = i + 1;
    }
    assert(all.take(i as int) =~= all);
    print_json(&array(out))
}

/// Whether a fetch goes out: nothing is said of one that does.
pub open spec fn is_fetch_blocked(blocking: bool, url: Seq<char>) -> bool {
    blocking && decision(url).blocked
}

/// What is told of a fetch that is blocked.
pub open spec fn fetch_blocked_json(d: DecisionModel, url: Seq<char>, method: Seq<char>) -> JsonModel {
    JsonModel::Object(
        seq![
            ("url"@, JsonModel::Text(url)),
            ("category"@, category_json(d)),
            ("matched"@, optional_text(d.matched_pattern)),
            ("method"@, JsonModel::Text(method)),
        ],
    )
}

/// Decides whether a fetch goes out. Of one that is blocked it tells, and the
/// page hears at once that it went well and brought nothing.
pub fn gate_fetch(blocking: bool, id: u64, url: &str, method: &str) -> (r: Option<
    (Event, FetchResponse),
>)
    ensures
        r is Some <==> is_fetch_blocked(blocking, url@),
        r matches Some((e, response)) ==> {
            &&& e@ == ("policy_blocked"@, fetch_blocked_json(decision(url@), url@, method@))
            &&& response.model() == blocked_answer(id)
        },
{
    if !blocking {
        return None;
    }
    let d = decide(url);
    if !d.blocked {
        return None;
    }
    let mut e = no_entries();
    put(&mut e, "url", json_text_of(url));
    put(
        &mut e,
        "category",
        match d.category {
            Some(c) => json_text_of(c.as_str()),
            None => Json::Null,
        },
    );
    put(
        &mut e,
        "matched",
        match d.matched_pattern {
            Some(p) => json_text_of(p),
            None => Json::Null,
        },
    );
    put(&mut e, "method", json_text_of(method));
    let data = object(e);
    assert(data@->Object_0 =~= fetch_blocked_json(decision(url@), url@, method@)->Object_0);
    Some((Event { name: "policy_blocked", data }, FetchResponse::blocked(id)))
}

/// The entries of an object that are texts.
pub open spec fn text_entries(entries: Seq<(Seq<char>, JsonModel)>) -> Seq<(Seq<char>, Seq<char>)>
    decreases entries.len(),
{
    if entries.len() == 0 {
        Seq::empty()
    } else {
        let front = text_entries(entries.drop_last());
        match entries.last().1 {
            JsonModel::Text(s) => front.push((entries.last().0, s)),
            _ => front,
        }
    }
}

/// The headers that a value describes: those of an object that are texts.
pub open spec fn headers_in(j: JsonModel) -> Seq<(Seq<char>, Seq<char>)> {
    match j {
        JsonModel::Object(entries) => text_entries(entries),
        _ => Seq::empty(),
    }
}

/// The headers that a value describes.
pub fn headers_of(j: &Json) -> (r: Vec<(String, String)>)
    ensures
        pairs_model(r@) == headers_in(j@),
{
    broadcast use lemma_object_model;

    let mut out: Vec<(String, String)> = Vec::new();
    assert(pairs_model(out@) =~= Seq::empty());
    match j {
        Json::Object(entries) => {
            let ghost m = entries_model(entries@);
            let mut i: usize = 0;
            assert(m.take(0) =~= Seq::empty());
            while i < entries.len()
                invariant
                    i <= entries.len(),
                    m == entries_model(entries@),
                    pairs_model(out@) == text_entries(m.take(i as int)),
                decreases entries.len() - i,
            {
                proof {
                    assert(m.take(i + 1).drop_last() =~= m.take(i as int));
                    assert(m.take(i + 1).last() == m[i as int]);
                }
                if let Json::Text(s) = &entries[i].1 {
                    let ghost before = pairs_model(out@);
                    let ghost pair = (entries@[i as int].0@, s@);
                    out.push((entries[i].0.clone(), s.clone()));
                    assert(pairs_model(out@) =~= before.push(pair));
                }
                i = i + 1;
            }
            assert(m.take(i as int) =~= m);
        },
        _ => {},
    }
    out
}

/// The headers that JSON text describes; none where it is no JSON text.
pub open spec fn described_headers(text: Seq<char>) -> Seq<(Seq<char>, Seq<char>)> {
    match json_parsed(text) {
        Ok(j) => headers_in(j),
        Err(_) => Seq::empty(),
    }
}

/// The headers that JSON text describes; none where it is no JSON text.
pub fn headers_from_json(text: &str) -> (r: Vec<(String, String)>)
    ensures
        pairs_model(r@) == described_headers(text@),
{
    match parse_json(text) {
        Ok(j) => headers_of(&j),
        Err(_) => {
            let none: Vec<(String, String)> = Vec::new();
            assert(pairs_model(none@) =~= Seq::empty());
            none
        },
    }
}

/// What becomes of a fetch.
#[derive(Debug)]
pub enum SentFetch {
    /// It is blocked, and this is told of it.
    Blocked(Event),
    /// It goes out.
    Goes(FetchRequest),
}

/// The answer to a fetch that is blocked.
pub open spec fn blocked_answer(id: u64) -> JsonModel {
    response_json(id, 204, Seq::empty(), Seq::empty(), None)
}

/// The answers that wait once a page fetched something.
pub open spec fn answers_after(
    answers: Seq<JsonModel>,
    blocking: bool,
    id: u64,
    url: Seq<char>,
) -> Seq<JsonModel> {
    if is_fetch_blocked(blocking, url) {
        answers.push(blocked_answer(id))
    } else {
        answers
    }
}

/// What is handed to a page of the answers that wait.
pub open spec fn handed_over(answers: Seq<JsonModel>) -> Seq<char> {
    json_printed(with_map_entries(JsonModel::Array(answers)))
}

/// How many of the answers are to a fetch.
pub open spec fn answers_to(answers: Seq<JsonModel>, id: u64) -> nat
    decreases answers.len(),
{
    if answers.len() == 0 {
        0
    } else {
        answers_to(answers.drop_last(), id) + (if answers.last().u64_at("id"@) == Some(id) {
            1nat
        } else {
            0nat
        })
    }
}

/// The answers to the fetches of a page that wait until it asks for them.
#[derive(Debug)]
pub struct FetchAnswers {
    answers: Vec<FetchResponse>,
}

impl View for FetchAnswers {
    type V = Seq<JsonModel>;

    closed spec fn view(&self) -> Seq<JsonModel> {
        responses_model(self.answers@)
    }
}

impl FetchAnswers {
    /// No answers.
    pub fn new() -> (r: FetchAnswers)
        ensures
            r@ == Seq::<JsonModel>::empty(),
    {
        let r = FetchAnswers { answers: Vec::new() };
        assert(r@ =~= Seq::empty());
        r
    }

    /// Takes a fetch of a page. One that is blocked is answered at once, and
    /// does not go out; any other goes out, and its answer is still to come.
    pub fn send(
        &mut self,
        blocking: bool,
        id: u64,
        method: String,
        url: String,
        headers_json: &str,
        body: String,
    ) -> (r: SentFetch)
        ensures
            final(self)@ == answers_after(old(self)@, blocking, id, url@),
            match r {
                SentFetch::Blocked(e) => is_fetch_blocked(blocking, url@) && e@ == (
                    "policy_blocked"@,
                    fetch_blocked_json(decision(url@), url@, method@),
                ),
                SentFetch::Goes(f) => {
                    &&& !is_fetch_blocked(blocking, url@)
                    &&& f.id == id
                    &&& f.method@ == method@
                    &&& f.url@ == url@
                    &&& pairs_model(f.headers@) == described_headers(headers_json@)
                    &&& f.body@ == body@
                },
            },
    {
        match gate_fetch(blocking, id, url.as_str(), method.as_str()) {
            Some((event, response)) => {
                self.answer(response);
                SentFetch::Blocked(event)
            },
            None => {
                let headers = headers_from_json(headers_json);
                SentFetch::Goes(FetchRequest { id, method, url, headers, body })
            },
        }
    }

    /// Puts an answer behind those that wait.
    pub fn answer(&mut self, response: FetchResponse)
        ensures
            final(self)@ == old(self)@.push(response.model()),
    {
        self.answers.push(response);
        assert(self@ =~= old(self)@.push(response.model()));
    }

    /// Hands the answers that wait to the page; afterwards none waits.
    pub fn drain(&mut self) -> (r: String)
        ensures
            r@ == handed_over(old(self)@),
            final(self)@ == Seq::<JsonModel>::empty(),
    {
        let mut all: Vec<FetchResponse> = Vec::new();
        std::mem::swap(&mut all, &mut self.answers);
        assert(self@ =~= Seq::empty());
        drain_text(&all)
    }
}

/// A fetch that is blocked gets exactly one answer, the last of those that wait
/// and with status 204, and one that goes out gets none before its own has
/// come. After all were handed over no answer to it is left to hand over.
pub proof fn law_blocked_fetch_is_answered_once(
    answers: Seq<JsonModel>,
    blocking: bool,
    id: u64,
    url: Seq<char>,
)
    ensures
        ({
            let after = answers_after(answers, blocking, id, url);
            &&& answers_to(after, id) == answers_to(answers, id) + (if is_fetch_blocked(
                blocking,
                url,
            ) {
                1nat
            } else {
                0nat
            })
            &&& is_fetch_blocked(blocking, url) ==> after.last().u64_at("id"@) == Some(id)
                && after.last().u64_at("status"@) == Some(204u64)
            &&& answers_to(Seq::empty(), id) == 0
        }),
        handed_over(Seq::empty()) == "[]"@,
{
    reveal_strlit("id");
    reveal_strlit("status");
    let a = blocked_answer(id);
    let e = a->Object_0;
    assert(e[0].0 == "id"@);
    assert("id"@.len() != "status"@.len());
    lemma_entry_skip(e, "status"@, 1);
    assert(e.skip(1)[0] == e[1]);
    assert(a.u64_at("status"@) == Some(204u64));
    assert(a.u64_at("id"@) == Some(id));
    assert(answers.push(a).drop_last() =~= answers);
    lemma_held_array(Seq::empty());
    let none = Seq::<JsonModel>::empty();
    assert(Seq::new(none.len(), |i: int| with_map_entries(none[i])) =~= none);
    reveal_strlit("[");
    reveal_strlit("]");
    reveal_strlit("[]");
    assert(handed_over(none) =~= "[]"@);
}

/// The ways in which something is fetched.
pub const METHODS: [&'static str; 7] = ["GET", "POST", "PUT", "DELETE", "HEAD", "PATCH", "OPTIONS"];

/// Whether a text is a way in which something is fetched.
pub open spec fn is_method(s: Seq<char>) -> bool {
    exists|i: int| 0 <= i < METHODS.len() && #[trigger] METHODS[i]@ == s
}

/// The way in which something is fetched: what is asked for, in capitals, or
/// GET where that is none.
pub fn fetch_method(asked: &str) -> (r: String)
    ensures
        r@ == (if is_method(unicode_uppercase(asked@)) {
            unicode_uppercase(asked@)
        } else {
            "GET"@
        }),
{
    let upper = asked.to_uppercase();
    let mut i: usize = 0;
    while i < METHODS.len()
        invariant
            i <= METHODS.len(),
            upper@ == unicode_uppercase(asked@),
            forall|j: int| 0 <= j < i ==> (#[trigger] METHODS[j])@ != upper@,
        decreases METHODS.len() - i,
    {
        if same(METHODS[i], upper.as_str()) {
            assert(METHODS[i as int]@ == upper@);
            return upper;
        }
        i = i + 1;
    }
    "GET".to_owned()
}

/// What a page hears of a fetch: that one that is blocked went well and brought
/// nothing, of one that failed why, and of one that went well what it brought.
pub proof fn law_what_responses_say(
    id: u64,
    status: u16,
    headers: &Vec<(String, String)>,
    body: String,
    error: String,
    blocked: FetchResponse,
    failed: FetchResponse,
    received: FetchResponse,
)
    requires
        call_ensures(FetchResponse::blocked, (id,), blocked),
        call_ensures(FetchResponse::failed, (id, error), failed),
        call_ensures(FetchResponse::received, (id, status, headers, body), received),
    ensures
        blocked.model().u64_at("id"@) == Some(id),
        blocked.model().u64_at("status"@) == Some(204u64),
        blocked.model().get("headers"@) == Some(JsonModel::Object(Seq::empty())),
        blocked.model().get("error"@) == Some(JsonModel::Null),
        failed.model().u64_at("id"@) == Some(id),
        failed.model().u64_at("status"@) == Some(0u64),
        failed.model().get("headers"@) == Some(JsonModel::Object(Seq::empty())),
        failed.model().text_at("error"@) == Some(error@),
        received.model().u64_at("id"@) == Some(id),
        received.model().u64_at("status"@) == Some(status as u64),
        received.model().get("headers"@) == Some(JsonModel::Object(flat_headers(pairs_model(headers@)))),
        received.model().text_at("body"@) == Some(body@),
        received.model().get("error"@) == Some(JsonModel::Null),
        blocked.model().text_at("body"@) == Some(Seq::<char>::empty()),
        failed.model().text_at("body"@) == Some(Seq::<char>::empty()),
{
    reveal_strlit("id");
    reveal_strlit("status");
    reveal_strlit("headers");
    reveal_strlit("body");
    reveal_strlit("error");
    assert("id"@.len() == 2);
    assert("status"@.len() == 6);
    assert("headers"@.len() == 7);
    assert("body"@.len() == 4);
    assert("error"@.len() == 5);
    let e0 = blocked.model()->Object_0;
    lemma_entry_at(e0, "id"@, 0);
    lemma_entry_at(e0, "status"@, 1);
    lemma_entry_at(e0, "headers"@, 2);
    lemma_entry_at(e0, "body"@, 3);
    lemma_entry_at(e0, "error"@, 4);
    let e1 = failed.model()->Object_0;
    lemma_entry_at(e1, "id"@, 0);
    lemma_entry_at(e1, "status"@, 1);
    lemma_entry_at(e1, "headers"@, 2);
    lemma_entry_at(e1, "body"@, 3);
    lemma_entry_at(e1, "error"@, 4);
    let e2 = received.model()->Object_0;
    lemma_entry_at(e2, "id"@, 0);
    lemma_entry_at(e2, "status"@, 1);
    lemma_entry_at(e2, "headers"@, 2);
    lemma_entry_at(e2, "body"@, 3);
    lemma_entry_at(e2, "error"@, 4);
}

/// A fetch is blocked exactly if blocking is on and its URL is blocked, whatever
/// it is fetched with; and then it is answered at once.
pub proof fn law_which_fetches_are_blocked(
    blocking: bool,
    id: u64,
    url: &str,
    method: &str,
    r: Option<(Event, FetchResponse)>,
)
    requires
        call_ensures(gate_fetch, (blocking, id, url, method), r),
    ensures
        r is Some <==> blocking && decision(url@).blocked,
        is_fetch_blocked(true, url@) <==> decision(url@).blocked,
        !is_fetch_blocked(false, url@),
        r matches Some((e, answer)) ==> {
            &&& answer.model() == blocked_answer(id)
            &&& e@.0 == "policy_blocked"@
            &&& e@.1.text_at("url"@) == Some(url@)
            &&& e@.1.text_at("method"@) == Some(method@)
            &&& e@.1.text_at("matched"@) == decision(url@).matched_pattern
            &&& decision(url@).category matches Some(c) ==> e@.1.text_at("category"@) == Some(
                c.name(),
            )
        },
{
    if let Some((e, answer)) = r {
        reveal_strlit("url");
        reveal_strlit("category");
        reveal_strlit("matched");
        reveal_strlit("method");
        assert("url"@.len() == 3);
        assert("category"@.len() == 8);
        assert("matched"@.len() == 7);
        assert("method"@.len() == 6);
        let d = e@.1->Object_0;
        lemma_entry_at(d, "url"@, 0);
        lemma_entry_at(d, "category"@, 1);
        lemma_entry_at(d, "matched"@, 2);
        lemma_entry_at(d, "method"@, 3);
    }
}

/// The headers of a fetch are those entries of an object that are texts, in
/// their order.
pub proof fn law_headers_of_a_fetch(
    a: Seq<(Seq<char>, JsonModel)>,
    b: Seq<(Seq<char>, JsonModel)>,
    name: Seq<char>,
    value: Seq<char>,
    j: JsonModel,
)
    ensures
        headers_in(JsonModel::Object(a + b)) == headers_in(JsonModel::Object(a)) + headers_in(
            JsonModel::Object(b),
        ),
        headers_in(JsonModel::Object(seq![(name, JsonModel::Text(value))])) == seq![(name, value)],
        !(j is Text) ==> headers_in(JsonModel::Object(seq![(name, j)])).len() == 0,
        !(j is Object) ==> headers_in(j).len() == 0,
    decreases b.len(),
{
    let none = Seq::<(Seq<char>, JsonModel)>::empty();
    let text = seq![(name, JsonModel::Text(value))];
    let other = seq![(name, j)];
    assert(text.drop_last() =~= none);
    assert(other.drop_last() =~= none);
    assert(text_entries(none) == Seq::<(Seq<char>, Seq<char>)>::empty());
    assert(text.last() == (name, JsonModel::Text(value)));
    assert(other.last() == (name, j));
    assert(text_entries(text) =~= seq![(name, value)]);
    if b.len() == 0 {
        assert(a + b =~= a);
        assert(text_entries(a) + text_entries(b) =~= text_entries(a));
    } else {
        law_headers_of_a_fetch(a, b.drop_last(), name, value, j);
        assert((a + b).drop_last() =~= a + b.drop_last());
        assert((a + b).last() == b.last());
        assert(text_entries(a + b) =~= text_entries(a) + text_entries(b));
    }
}

/// What is asked for is fetched as asked, in capitals, if it is one of seven
/// ways, and else by GET.
pub proof fn law_ways_of_fetching(asked: &str, r: String)
    requires
        call_ensures(fetch_method, (asked,), r),
    ensures
        ({
            let upper = unicode_uppercase(asked@);
            let known = upper == "GET"@ || upper == "POST"@ || upper == "PUT"@ || upper == "DELETE"@
                || upper == "HEAD"@ || upper == "PATCH"@ || upper == "OPTIONS"@;
            &&& known ==> r@ == upper
            &&& !known ==> r@ == "GET"@
        }),
{
    let upper = unicode_uppercase(asked@);
    assert(METHODS[0]@ == "GET"@ && METHODS[1]@ == "POST"@ && METHODS[2]@ == "PUT"@);
    assert(METHODS[3]@ == "DELETE"@ && METHODS[4]@ == "HEAD"@ && METHODS[5]@ == "PATCH"@);
    assert(METHODS[6]@ == "OPTIONS"@);
    if is_method(upper) {
        let i = choose|i: int| 0 <= i < METHODS.len() && #[trigger] METHODS[i]@ == upper;
        assert(i == 0 || i == 1 || i == 2 || i == 3 || i == 4 || i == 5 || i == 6);
    }
}

/// A fetch goes out as it was asked for, with the headers that its text
/// describes, unless it is blocked: then the answer to it waits at once. Answers
/// wait in the order in which they came, and are handed over once and together.
pub proof fn law_how_fetches_are_sent()
    ensures
        forall|a: FetchAnswers| #[trigger] call_ensures(FetchAnswers::new, (), a) ==> a@ == Seq::<
            JsonModel,
        >::empty(),
        forall|
            a: &mut FetchAnswers,
            blocking: bool,
            id: u64,
            method: String,
            url: String,
            headers: &str,
            body: String,
            r: SentFetch,
        | #[trigger]
            call_ensures(
                FetchAnswers::send,
                (a, blocking, id, method, url, headers, body),
                r,
            ) ==> {
                &&& r is Blocked <==> blocking && decision(url@).blocked
                &&& r is Blocked ==> (*final(a))@ == (*a)@.push(blocked_answer(id))
                &&& r matches SentFetch::Goes(f) ==> {
                    &&& (*final(a))@ == (*a)@
                    &&& f.id == id
                    &&& f.method@ == method@
                    &&& f.url@ == url@
                    &&& f.body@ == body@
                    &&& json_parsed(headers@) matches Ok(j) ==> pairs_model(f.headers@)
                        == headers_in(j)
                    &&& json_parsed(headers@) is Err ==> f.headers@.len() == 0
                }
                &&& r matches SentFetch::Blocked(e) ==> e@.0 == "policy_blocked"@ && e@.1
                    == fetch_blocked_json(decision(url@), url@, method@)
            },
        forall|a: &mut FetchAnswers, response: FetchResponse, r: ()| #[trigger]
            call_ensures(FetchAnswers::answer, (a, response), r) ==> (*final(a))@ == (*a)@.push(
                response.model(),
            ),
        forall|a: &mut FetchAnswers, r: String| #[trigger]
            call_ensures(FetchAnswers::drain, (a,), r) ==> (*final(a))@ == Seq::<JsonModel>::empty()
                && r@ == json_printed(with_map_entries(JsonModel::Array((*a)@))),
{
    assert forall|
        a: &mut FetchAnswers,
        blocking: bool,
        id: u64,
        method: String,
        url: String,
        headers: &str,
        body: String,
        r: SentFetch,
    | #[trigger]
        call_ensures(
            FetchAnswers::send,
            (a, blocking, id, method, url, headers, body),
            r,
        ) implies {
        r matches SentFetch::Goes(f) ==> json_parsed(headers@) is Err ==> f.headers@.len() == 0
    } by {
        if let SentFetch::Goes(f) = r {
            assert(pairs_model(f.headers@).len() == f.headers@.len());
        }
    }
}

/// Responses are handed over in their order; headers are read from the value, or
/// from the text of one.
pub proof fn law_what_is_handed_over(
    responses: &Vec<FetchResponse>,
    r: String,
    j: &Json,
    headers: Vec<(String, String)>,
    text: &str,
    described: Vec<(String, String)>,
)
    requires
        call_ensures(drain_text, (responses,), r),
        call_ensures(headers_of, (j,), headers),
        call_ensures(headers_from_json, (text,), described),
    ensures
        r@ == json_printed(
            with_map_entries(
                JsonModel::Array(Seq::new(responses@.len(), |i: int| responses@[i].model())),
            ),
        ),
        pairs_model(headers@) == headers_in(j@),
        json_parsed(text@) matches Ok(v) ==> pairs_model(described@) == headers_in(v),
        json_parsed(text@) is Err ==> described@.len() == 0,
{
    assert(pairs_model(described@).len() == described@.len());
}

} // verus!

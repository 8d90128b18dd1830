//! What a driver asks for, and what it is answered.
use vstd::prelude::*;

use crate::json::{
    items_model, json_number, json_text_of, lemma_entry_at, no_entries, object, put, Json, JsonModel, Number,
    NumberModel,
};
use crate::scripts::number_json;
use crate::text::{concat, same};
use crate::urls::option_model;

verus! {

/// Something that a driver asks for.
#[derive(Debug)]
pub enum Call {
    /// Run code in the page.
    Eval(String),
    /// Go to a URL, and run its scripts or not.
    Navigate(String, bool),
    /// The body of the last response.
    Body,
    /// The elements of a selector.
    Query(String),
    /// The text of the first element of a selector.
    Text(String),
    /// The text of the main part of the page.
    TextMain,
    /// The elements with a text: within those of a selector, by the whole text
    /// or a part, at most so many.
    QueryText(String, Option<String>, bool, u32),
    /// The map of the page.
    Blockmap,
    /// The data of the page, in a certain way or the best.
    Extract(Option<String>),
    /// A table of the page.
    ExtractTable(String),
    /// Things of the page that look alike, by their parts, at most so many.
    ExtractList(String, Json, u32),
    /// Let the page come to rest: for so many milliseconds and rounds at most.
    Settle(u64, u32),
    /// Click on an element.
    Click(String),
    /// Type a text into an element.
    Type(String, String),
    /// Send a form.
    Submit(String),
    /// Put cookies into the jar, which count as coming from a URL.
    CookiesSet(Vec<Json>, Option<String>),
    /// The cookies in the jar.
    CookiesGet,
    /// Drop the cookies in the jar.
    CookiesClear,
    /// Tell how a task went, on a navigation.
    ReportOutcome(String),
    /// Responses that were kept: at most so many, from a host, of a navigation.
    NetworkStores(u64, Option<String>, Option<String>),
    /// Drop the responses that were kept.
    NetworkStoresClear,
    /// End the session.
    Close,
}

/// What a [`Call`] stands for.
pub enum CallModel {
    Eval(Seq<char>),
    Navigate(Seq<char>, bool),
    Body,
    Query(Seq<char>),
    Text(Seq<char>),
    TextMain,
    QueryText(Seq<char>, Option<Seq<char>>, bool, u32),
    Blockmap,
    Extract(Option<Seq<char>>),
    ExtractTable(Seq<char>),
    ExtractList(Seq<char>, JsonModel, u32),
    Settle(u64, u32),
    Click(Seq<char>),
    Type(Seq<char>, Seq<char>),
    Submit(Seq<char>),
    CookiesSet(Seq<JsonModel>, Option<Seq<char>>),
    CookiesGet,
    CookiesClear,
    ReportOutcome(Seq<char>),
    NetworkStores(u64, Option<Seq<char>>, Option<Seq<char>>),
    NetworkStoresClear,
    Close,
}

impl View for Call {
    type V = CallModel;

    open spec fn view(&self) -> CallModel {
        match *self {
            Call::Eval(s) => CallModel::Eval(s@),
            Call::Navigate(s, b) => CallModel::Navigate(s@, b),
            Call::Body => CallModel::Body,
            Call::Query(s) => CallModel::Query(s@),
            Call::Text(s) => CallModel::Text(s@),
            Call::TextMain => CallModel::TextMain,
            Call::QueryText(s, t, b, n) => CallModel::QueryText(s@, option_model(t), b, n),
            Call::Blockmap => CallModel::Blockmap,
            Call::Extract(s) => CallModel::Extract(option_model(s)),
            Call::ExtractTable(s) => CallModel::ExtractTable(s@),
            Call::ExtractList(s, j, n) => CallModel::ExtractList(s@, j@, n),
            Call::Settle(m, n) => CallModel::Settle(m, n),
            Call::Click(s) => CallModel::Click(s@),
            Call::Type(s, t) => CallModel::Type(s@, t@),
            Call::Submit(s) => CallModel::Submit(s@),
            Call::CookiesSet(v, u) => CallModel::CookiesSet(items_model(v@), option_model(u)),
            Call::CookiesGet => CallModel::CookiesGet,
            Call::CookiesClear => CallModel::CookiesClear,
            Call::ReportOutcome(s) => CallModel::ReportOutcome(s@),
            Call::NetworkStores(n, h, i) => CallModel::NetworkStores(
                n,
                option_model(h),
                option_model(i),
            ),
            Call::NetworkStoresClear => CallModel::NetworkStoresClear,
            Call::Close => CallModel::Close,
        }
    }
}

// ---------------------------------------------------------------------
// Parameters
// ---------------------------------------------------------------------

/// A text, or another where it is missing.
pub open spec fn text_or(params: JsonModel, key: Seq<char>, other: Seq<char>) -> Seq<char> {
    match params.text_at(key) {
        Some(s) => s,
        None => other,
    }
}

/// A truth value, false where it is missing.
pub open spec fn flag(params: JsonModel, key: Seq<char>) -> bool {
    params.bool_at(key) == Some(true)
}

/// A number, or another where it is missing.
pub open spec fn number_or(params: JsonModel, key: Seq<char>, other: u64) -> u64 {
    match params.u64_at(key) {
        Some(n) => n,
        None => other,
    }
}

/// A text, where it is given.
pub(crate) fn read_text(params: &Json, key: &str) -> (r: Option<String>)
    ensures
        option_model(r) == params@.text_at(key@),
{
    match params.text_at(key) {
        Some(s) => Some(s.clone()),
        None => None,
    }
}

/// A text, or another where it is missing.
pub(crate) fn read_text_or(params: &Json, key: &str, other: &str) -> (r: String)
    ensures
        r@ == text_or(params@, key@, other@),
{
    match params.text_at(key) {
        Some(s) => s.clone(),
        None => other.to_owned(),
    }
}

/// A truth value, false where it is missing.
pub(crate) fn read_flag(params: &Json, key: &str) -> (r: bool)
    ensures
        r == flag(params@, key@),
{
    match params.bool_at(key) {
        Some(b) => b,
        None => false,
    }
}

/// A number, or another where it is missing.
pub(crate) fn read_number_or(params: &Json, key: &str, other: u64) -> (r: u64)
    ensures
        r == number_or(params@, key@, other),
{
    match params.u64_at(key) {
        Some(n) => n,
        None => other,
    }
}

/// The same items once more.
pub(crate) fn copy_items(items: &Vec<Json>) -> (r: Vec<Json>)
    ensures
        items_model(r@) == items_model(items@),
{
    let mut out: Vec<Json> = Vec::new();
    let ghost all = items_model(items@);
    let mut i: usize = 0;
    while i < items.len()
        invariant
            i <= items.len(),
            all == items_model(items@),
            items_model(out@) =~= all.take(i as int),
        decreases items.len() - i,
    {
        broadcast use crate::json::lemma_items_push;

        out.push(items[i].copy());
        assert(all.take(i + 1) =~= all.take(i as int).push(all[i as int]));
        i = i + 1;
    }
    assert(all.take(i as int) =~= all);
    out
}

// ---------------------------------------------------------------------
// Requests
// ---------------------------------------------------------------------

/// The code of an answer to a request with wrong parameters.
pub const INVALID_PARAMS: i64 = -32602;

/// The code of an answer to a request that is not known.
pub const UNKNOWN_METHOD: i64 = -32601;

/// The code of an answer to what is no request.
pub const PARSE_ERROR: i64 = -32700;

/// Why a request is refused: a code and words.
#[derive(Debug)]
pub struct Refusal {
    pub code: i64,
    pub message: String,
}

/// What a [`Refusal`] stands for.
pub open spec fn refusal_model(r: Refusal) -> (int, Seq<char>) {
    (r.code as int, r.message@)
}

/// A call that needs one text.
pub open spec fn needs(v: Option<Seq<char>>, call: CallModel, words: Seq<char>) -> Result<
    CallModel,
    (int, Seq<char>),
> {
    match v {
        Some(_) => Ok(call),
        None => Err((INVALID_PARAMS as int, words)),
    }
}

/// What a request asks for, or why it is refused.
pub open spec fn requested(method: Seq<char>, params: JsonModel) -> Result<
    CallModel,
    (int, Seq<char>),
> {
    let url = params.text_at("url"@);
    let selector = params.text_at("selector"@);
    let reference = params.text_at("ref"@);
    let text = params.text_at("text"@);
    if method == "eval"@ {
        Ok(CallModel::Eval(text_or(params, "code"@, "undefined"@)))
    } else if method == "navigate"@ {
        needs(
            url,
            CallModel::Navigate(url->0, flag(params, "exec_scripts"@)),
            "missing 'url' param"@,
        )
    } else if method == "body"@ {
        Ok(CallModel::Body)
    } else if method == "query"@ {
        needs(selector, CallModel::Query(selector->0), "missing 'selector' param"@)
    } else if method == "text"@ {
        Ok(CallModel::Text(text_or(params, "selector"@, "body"@)))
    } else if method == "text_main"@ {
        Ok(CallModel::TextMain)
    } else if method == "query_text"@ {
        needs(
            text,
            CallModel::QueryText(
                text->0,
                selector,
                flag(params, "exact"@),
                number_or(params, "limit"@, 20) as u32,
            ),
            "missing 'text' param"@,
        )
    } else if method == "blockmap"@ {
        Ok(CallModel::Blockmap)
    } else if method == "extract"@ {
        Ok(CallModel::Extract(params.text_at("strategy"@)))
    } else if method == "extract_table"@ {
        needs(selector, CallModel::ExtractTable(selector->0), "missing 'selector' param"@)
    } else if method == "extract_list"@ {
        match (params.text_at("item_selector"@), params.get("fields"@)) {
            (Some(item), Some(fields)) => Ok(
                CallModel::ExtractList(item, fields, number_or(params, "limit"@, 1000) as u32),
            ),
            _ => Err((INVALID_PARAMS as int, "missing 'item_selector' or 'fields' param"@)),
        }
    } else if method == "settle"@ {
        Ok(
            CallModel::Settle(
                number_or(params, "max_ms"@, 2000),
                number_or(params, "max_iters"@, 50) as u32,
            ),
        )
    } else if method == "click"@ {
        needs(reference, CallModel::Click(reference->0), "missing 'ref' param"@)
    } else if method == "type"@ {
        match (reference, text) {
            (Some(r), Some(t)) => Ok(CallModel::Type(r, t)),
            _ => Err((INVALID_PARAMS as int, "missing 'ref' or 'text' param"@)),
        }
    } else if method == "submit"@ {
        needs(reference, CallModel::Submit(reference->0), "missing 'ref' param"@)
    } else if method == "cookies_set"@ {
        match params.array_at("cookies"@) {
            Some(cookies) => Ok(CallModel::CookiesSet(cookies, url)),
            None => Err((INVALID_PARAMS as int, "missing 'cookies' param"@)),
        }
    } else if method == "cookies_get"@ {
        Ok(CallModel::CookiesGet)
    } else if method == "cookies_clear"@ {
        Ok(CallModel::CookiesClear)
    } else if method == "report_outcome"@ {
        Ok(CallModel::ReportOutcome(text_or(params, "navigation_id"@, ""@)))
    } else if method == "network_stores"@ {
        Ok(
            CallModel::NetworkStores(
                number_or(params, "limit"@, 20),
                params.text_at("host"@),
                params.text_at("nav_id"@),
            ),
        )
    } else if method == "network_stores_clear"@ {
        Ok(CallModel::NetworkStoresClear)
    } else if method == "close"@ {
        Ok(CallModel::Close)
    } else {
        Err((UNKNOWN_METHOD as int, "unknown method: "@ + method))
    }
}

/// What the reading of a request stands for.
pub open spec fn request_model(r: Result<Call, Refusal>) -> Result<CallModel, (int, Seq<char>)> {
    match r {
        Ok(c) => Ok(c@),
        Err(e) => Err(refusal_model(e)),
    }
}

/// A request with wrong parameters.
fn invalid(words: &str) -> (r: Result<Call, Refusal>)
    ensures
        request_model(r) == Err::<CallModel, (int, Seq<char>)>((INVALID_PARAMS as int, words@)),
{
    Err(Refusal { code: INVALID_PARAMS, message: words.to_owned() })
}

/// What a request asks for, or why it is refused.
#[verifier::rlimit(40)]
pub fn read_request(method: &str, params: &Json) -> (r: Result<Call, Refusal>)
    ensures
        request_model(r) == requested(method@, params@),
{
    if same(method, "eval") {
        Ok(Call::Eval(read_text_or(params, "code", "undefined")))
    } else if same(method, "navigate") {
        match read_text(params, "url") {
            Some(u) => Ok(Call::Navigate(u, read_flag(params, "exec_scripts"))),
            None => invalid("missing 'url' param"),
        }
    } else if same(method, "body") {
        Ok(Call::Body)
    } else if same(method, "query") {
        match read_text(params, "selector") {
            Some(s) => Ok(Call::Query(s)),
            None => invalid("missing 'selector' param"),
        }
    } else if same(method, "text") {
        Ok(Call::Text(read_text_or(params, "selector", "body")))
    } else if same(method, "text_main") {
        Ok(Call::TextMain)
    } else if same(method, "query_text") {
        match read_text(params, "text") {
            Some(t) => Ok(
                Call::QueryText(
                    t,
                    read_text(params, "selector"),
                    read_flag(params, "exact"),
                    read_number_or(params, "limit", 20) as u32,
                ),
            ),
            None => invalid("missing 'text' param"),
        }
    } else if same(method, "blockmap") {
        Ok(Call::Blockmap)
    } else if same(method, "extract") {
        Ok(Call::Extract(read_text(params, "strategy")))
    } else if same(method, "extract_table") {
        match read_text(params, "selector") {
            Some(s) => Ok(Call::ExtractTable(s)),
            None => invalid("missing 'selector' param"),
        }
    } else if same(method, "extract_list") {
        match (read_text(params, "item_selector"), params.get("fields")) {
            (Some(item), Some(fields)) => Ok(
                Call::ExtractList(item, fields.copy(), read_number_or(params, "limit", 1000) as u32),
            ),
            _ => invalid("missing 'item_selector' or 'fields' param"),
        }
    } else if same(method, "settle") {
        Ok(
            Call::Settle(
                read_number_or(params, "max_ms", 2000),
                read_number_or(params, "max_iters", 50) as u32,
            ),
        )
    } else if same(method, "click") {
        match read_text(params, "ref") {
            Some(s) => Ok(Call::Click(s)),
            None => invalid("missing 'ref' param"),
        }
    } else if same(method, "type") {
        match (read_text(params, "ref"), read_text(params, "text")) {
            (Some(s), Some(t)) => Ok(Call::Type(s, t)),
            _ => invalid("missing 'ref' or 'text' param"),
        }
    } else if same(method, "submit") {
        match read_text(params, "ref") {
            Some(s) => Ok(Call::Submit(s)),
            None => invalid("missing 'ref' param"),
        }
    } else if same(method, "cookies_set") {
        match params.array_at("cookies") {
            Some(items) => Ok(Call::CookiesSet(copy_items(items), read_text(params, "url"))),
            None => invalid("missing 'cookies' param"),
        }
    } else if same(method, "cookies_get") {
        Ok(Call::CookiesGet)
    } else if same(method, "cookies_clear") {
        Ok(Call::CookiesClear)
    } else if same(method, "report_outcome") {
        Ok(Call::ReportOutcome(read_text_or(params, "navigation_id", "")))
    } else if same(method, "network_stores") {
        Ok(
            Call::NetworkStores(
                read_number_or(params, "limit", 20),
                read_text(params, "host"),
                read_text(params, "nav_id"),
            ),
        )
    } else if same(method, "network_stores_clear") {
        Ok(Call::NetworkStoresClear)
    } else if same(method, "close") {
        Ok(Call::Close)
    } else {
        Err(Refusal { code: UNKNOWN_METHOD, message: concat("unknown method: ", method) })
    }
}

/// The code of an answer to a call that failed.
pub open spec fn failure_code(call: CallModel) -> int {
    match call {
        CallModel::Eval(_) => -1,
        CallModel::Navigate(_, _) => -2,
        CallModel::Body => -3,
        CallModel::Query(_) => -4,
        CallModel::Text(_) => -5,
        CallModel::TextMain => -5,
        CallModel::QueryText(_, _, _, _) => -5,
        CallModel::Click(_) => -7,
        CallModel::Type(_, _) => -8,
        CallModel::Submit(_) => -9,
        CallModel::CookiesSet(_, _) => -10,
        CallModel::ReportOutcome(_) => INVALID_PARAMS as int,
        _ => -6,
    }
}

/// The code of an answer to a call that failed.
pub fn code_of_failure(call: &Call) -> (r: i64)
    ensures
        r == failure_code(call@),
        r < 0,
{
    match call {
        Call::Eval(_) => -1,
        Call::Navigate(_, _) => -2,
        Call::Body => -3,
        Call::Query(_) => -4,
        Call::Text(_) => -5,
        Call::TextMain => -5,
        Call::QueryText(_, _, _, _) => -5,
        Call::Click(_) => -7,
        Call::Type(_, _) => -8,
        Call::Submit(_) => -9,
        Call::CookiesSet(_, _) => -10,
        Call::ReportOutcome(_) => INVALID_PARAMS,
        _ => -6,
    }
}

// ---------------------------------------------------------------------
// Answers
// ---------------------------------------------------------------------

/// The answer to a request that went well.
pub open spec fn ok_json(id: JsonModel, result: JsonModel) -> JsonModel {
    JsonModel::Object(seq![("id"@, id), ("result"@, result)])
}

/// An error in an answer.
pub open spec fn error_json(code: i64, message: Seq<char>) -> JsonModel {
    JsonModel::Object(
        seq![
            ("code"@, JsonModel::Number(NumberModel::Negative(code))),
            ("message"@, JsonModel::Text(message)),
        ],
    )
}

/// The answer to a request that failed.
pub open spec fn err_json(id: JsonModel, code: i64, message: Seq<char>) -> JsonModel {
    JsonModel::Object(seq![("id"@, id), ("error"@, error_json(code, message))])
}

/// The answer to a request that went well.
pub fn ok_response(id: Json, result: Json) -> (r: Json)
    ensures
        r@ == ok_json(id@, result@),
{
    let mut e = no_entries();
    put(&mut e, "id", id);
    put(&mut e, "result", result);
    let r = object(e);
    assert(r@->Object_0 =~= ok_json(id@, result@)->Object_0);
    r
}

/// An error in an answer.
pub fn build_error(code: i64, message: &str) -> (r: Json)
    requires
        code < 0,
    ensures
        r@ == error_json(code, message@),
{
    let mut e = no_entries();
    put(&mut e, "code", Json::Number(Number::Negative(code)));
    put(&mut e, "message", json_text_of(message));
    let r = object(e);
    assert(r@->Object_0 =~= error_json(code, message@)->Object_0);
    r
}

/// The answer to a request that failed.
pub fn err_response(id: Json, code: i64, message: &str) -> (r: Json)
    requires
        code < 0,
    ensures
        r@ == err_json(id@, code, message@),
{
    let mut e = no_entries();
    put(&mut e, "id", id);
    put(&mut e, "error", build_error(code, message));
    let r = object(e);
    assert(r@->Object_0 =~= err_json(id@, code, message@)->Object_0);
    r
}

/// The answer to what is no request.
pub fn parse_error_response(words: &str) -> (r: Json)
    ensures
        r@ == err_json(JsonModel::Null, PARSE_ERROR, "parse error: "@ + words@),
{
    err_response(Json::Null, PARSE_ERROR, concat("parse error: ", words).as_str())
}

/// The answer to a call, by what came of it.
pub fn call_response(id: Json, call: &Call, outcome: Result<Json, String>) -> (r: Json)
    ensures
        r@ == (match outcome {
            Ok(v) => ok_json(id@, v@),
            Err(e) => err_json(id@, failure_code(call@) as i64, e@),
        }),
{
    match outcome {
        Ok(v) => ok_response(id, v),
        Err(e) => err_response(id, code_of_failure(call), e.as_str()),
    }
}

/// The result of what can only go well.
pub fn done_value() -> (r: Json)
    ensures
        r@ == JsonModel::Object(seq![("ok"@, JsonModel::Bool(true))]),
{
    let mut e = no_entries();
    put(&mut e, "ok", Json::Bool(true));
    let r = object(e);
    assert(r@->Object_0 =~= seq![("ok"@, JsonModel::Bool(true))]);
    r
}

/// The result of putting cookies into the jar.
pub fn added_value(added: u64) -> (r: Json)
    ensures
        r@ == JsonModel::Object(seq![("added"@, number_json(added as nat))]),
{
    let mut e = no_entries();
    put(&mut e, "added", json_number(added));
    let r = object(e);
    assert(r@->Object_0 =~= seq![("added"@, number_json(added as nat))]);
    r
}

/// The body of the last response, as a result.
pub fn body_result(body: &Option<String>) -> (r: Result<Json, String>)
    ensures
        match (r, *body) {
            (Ok(j), Some(b)) => j@ == JsonModel::Text(b@),
            (Err(e), None) => e@ == "no body — call navigate first"@,
            _ => false,
        },
{
    match body {
        Some(b) => Ok(Json::Text(b.clone())),
        None => Err("no body — call navigate first".to_owned()),
    }
}

/// The navigation whose responses are asked for: all where that is said, the
/// one that is named, or else the current one.
pub open spec fn scope_of(asked: Option<Seq<char>>, current: Option<Seq<char>>) -> Option<Seq<char>> {
    match asked {
        Some(s) => if s == "all"@ {
            None
        } else {
            Some(s)
        },
        None => current,
    }
}

/// The navigation whose responses are asked for.
pub fn nav_scope(asked: &Option<String>, current: &Option<String>) -> (r: Option<String>)
    ensures
        option_model(r) == scope_of(option_model(*asked), option_model(*current)),
{
    match asked {
        Some(s) => {
            if same(s.as_str(), "all") {
                None
            } else {
                Some(s.clone())
            }
        },
        None => match current {
            Some(s) => Some(s.clone()),
            None => None,
        },
    }
}

/// The URL that cookies count as coming from: the one that is given, or else
/// that of the page.
pub fn cookie_url(given: &Option<String>, page: &Option<String>) -> (r: Option<String>)
    ensures
        option_model(r) == (match option_model(*given) {
            Some(u) => Some(u),
            None => option_model(*page),
        }),
{
    match given {
        Some(u) => Some(u.clone()),
        None => match page {
            Some(u) => Some(u.clone()),
            None => None,
        },
    }
}

// ---------------------------------------------------------------------
// What holds of every answer
// ---------------------------------------------------------------------

/// An answer carries the id of the request and either a result or an error,
/// never both.
pub proof fn law_answer_carries_id(id: JsonModel, result: JsonModel, code: i64, words: Seq<char>)
    ensures
        ok_json(id, result).get("id"@) == Some(id),
        ok_json(id, result).get("result"@) == Some(result),
        ok_json(id, result).get("error"@) is None,
        err_json(id, code, words).get("id"@) == Some(id),
        err_json(id, code, words).get("error"@) == Some(error_json(code, words)),
        err_json(id, code, words).get("result"@) is None,
{
    reveal_strlit("id");
    reveal_strlit("result");
    reveal_strlit("error");
    assert("id"@.len() == 2);
    assert("result"@.len() == 6);
    assert("error"@.len() == 5);
    let a = ok_json(id, result)->Object_0;
    let b = err_json(id, code, words)->Object_0;
    crate::json::lemma_entry_skip(a, "result"@, 1);
    crate::json::lemma_entry_skip(a, "error"@, 2);
    crate::json::lemma_entry_skip(b, "error"@, 1);
    crate::json::lemma_entry_skip(b, "result"@, 2);
    assert(a.skip(1)[0] == a[1]);
    assert(b.skip(1)[0] == b[1]);
    assert(a.skip(2) =~= Seq::empty());
    assert(b.skip(2) =~= Seq::empty());
}

/// A request is refused only because it is not known or lacks a parameter.
pub proof fn law_refusal_codes(method: Seq<char>, params: JsonModel)
    ensures
        requested(method, params) matches Err((code, _)) ==> code == INVALID_PARAMS || code
            == UNKNOWN_METHOD,
{
}

/// Whether a request is known by this name.
pub open spec fn is_method(name: Seq<char>) -> bool {
    ||| name == "eval"@
    ||| name == "navigate"@
    ||| name == "body"@
    ||| name == "query"@
    ||| name == "text"@
    ||| name == "text_main"@
    ||| name == "query_text"@
    ||| name == "blockmap"@
    ||| name == "extract"@
    ||| name == "extract_table"@
    ||| name == "extract_list"@
    ||| name == "settle"@
    ||| name == "click"@
    ||| name == "type"@
    ||| name == "submit"@
    ||| name == "cookies_set"@
    ||| name == "cookies_get"@
    ||| name == "cookies_clear"@
    ||| name == "report_outcome"@
    ||| name == "network_stores"@
    ||| name == "network_stores_clear"@
    ||| name == "close"@
}

/// The names of the requests differ.
pub proof fn lemma_methods_differ()
    ensures
        "eval"@.len() == 4,
        "navigate"@.len() == 8,
        "body"@.len() == 4,
        "query"@.len() == 5,
        "text"@.len() == 4,
        "text_main"@.len() == 9,
        "query_text"@.len() == 10,
        "blockmap"@.len() == 8,
        "extract"@.len() == 7,
        "extract_table"@.len() == 13,
        "extract_list"@.len() == 12,
        "settle"@.len() == 6,
        "click"@.len() == 5,
        "type"@.len() == 4,
        "submit"@.len() == 6,
        "cookies_set"@.len() == 11,
        "cookies_get"@.len() == 11,
        "cookies_clear"@.len() == 13,
        "report_outcome"@.len() == 14,
        "network_stores"@.len() == 14,
        "network_stores_clear"@.len() == 20,
        "close"@.len() == 5,
        "eval"@ != "body"@,
        "eval"@ != "text"@,
        "eval"@ != "type"@,
        "navigate"@ != "blockmap"@,
        "body"@ != "text"@,
        "body"@ != "type"@,
        "query"@ != "click"@,
        "query"@ != "close"@,
        "text"@ != "type"@,
        "extract_table"@ != "cookies_clear"@,
        "settle"@ != "submit"@,
        "click"@ != "close"@,
        "cookies_set"@ != "cookies_get"@,
        "report_outcome"@ != "network_stores"@,
{
    reveal_strlit("eval");
    reveal_strlit("navigate");
    reveal_strlit("body");
    reveal_strlit("query");
    reveal_strlit("text");
    reveal_strlit("text_main");
    reveal_strlit("query_text");
    reveal_strlit("blockmap");
    reveal_strlit("extract");
    reveal_strlit("extract_table");
    reveal_strlit("extract_list");
    reveal_strlit("settle");
    reveal_strlit("click");
    reveal_strlit("type");
    reveal_strlit("submit");
    reveal_strlit("cookies_set");
    reveal_strlit("cookies_get");
    reveal_strlit("cookies_clear");
    reveal_strlit("report_outcome");
    reveal_strlit("network_stores");
    reveal_strlit("network_stores_clear");
    reveal_strlit("close");
    assert("eval"@[0] != "body"@[0]);
    assert("eval"@[0] != "text"@[0]);
    assert("eval"@[0] != "type"@[0]);
    assert("navigate"@[0] != "blockmap"@[0]);
    assert("body"@[0] != "text"@[0]);
    assert("body"@[0] != "type"@[0]);
    assert("query"@[0] != "click"@[0]);
    assert("query"@[0] != "close"@[0]);
    assert("text"@[1] != "type"@[1]);
    assert("extract_table"@[0] != "cookies_clear"@[0]);
    assert("settle"@[1] != "submit"@[1]);
    assert("click"@[2] != "close"@[2]);
    assert("cookies_set"@[8] != "cookies_get"@[8]);
    assert("report_outcome"@[0] != "network_stores"@[0]);
}

/// Requests that need nothing are always read, and what they may say has a value
/// where they do not say it.
#[verifier::rlimit(40)]
pub proof fn law_requests_that_need_nothing(method: &str, params: &Json, r: Result<Call, Refusal>)
    requires
        call_ensures(read_request, (method, params), r),
    ensures
        method@ == "body"@ ==> r is Ok && r->Ok_0@ == CallModel::Body,
        method@ == "text_main"@ ==> r is Ok && r->Ok_0@ == CallModel::TextMain,
        method@ == "blockmap"@ ==> r is Ok && r->Ok_0@ == CallModel::Blockmap,
        method@ == "cookies_get"@ ==> r is Ok && r->Ok_0@ == CallModel::CookiesGet,
        method@ == "cookies_clear"@ ==> r is Ok && r->Ok_0@ == CallModel::CookiesClear,
        method@ == "network_stores_clear"@ ==> r is Ok && r->Ok_0@ == CallModel::NetworkStoresClear,
        method@ == "close"@ ==> r is Ok && r->Ok_0@ == CallModel::Close,
        method@ == "eval"@ ==> {
            let v = params@.text_at("code"@);
            &&& r is Ok
            &&& v is Some ==> r->Ok_0@ == CallModel::Eval(v->0)
            &&& v is None ==> r->Ok_0@ == CallModel::Eval("undefined"@)
        },
        method@ == "text"@ ==> {
            let v = params@.text_at("selector"@);
            &&& r is Ok
            &&& v is Some ==> r->Ok_0@ == CallModel::Text(v->0)
            &&& v is None ==> r->Ok_0@ == CallModel::Text("body"@)
        },
        method@ == "report_outcome"@ ==> {
            let v = params@.text_at("navigation_id"@);
            &&& r is Ok
            &&& v is Some ==> r->Ok_0@ == CallModel::ReportOutcome(v->0)
            &&& v is None ==> r->Ok_0@ == CallModel::ReportOutcome(""@)
        },
        method@ == "extract"@ ==> r is Ok && r->Ok_0@ == CallModel::Extract(
            params@.text_at("strategy"@),
        ),
        method@ == "settle"@ ==> r is Ok && r->Ok_0@ == CallModel::Settle(
            match params@.u64_at("max_ms"@) {
                Some(n) => n,
                None => 2_000,
            },
            match params@.u64_at("max_iters"@) {
                Some(n) => n as u32,
                None => 50,
            },
        ),
        method@ == "network_stores"@ ==> r is Ok && r->Ok_0@ == CallModel::NetworkStores(
            match params@.u64_at("limit"@) {
                Some(n) => n,
                None => 20,
            },
            params@.text_at("host"@),
            params@.text_at("nav_id"@),
        ),
{
    lemma_methods_differ();
}

/// Requests that need a text are read exactly if it is given, and otherwise
/// refused for the lack of it.
#[verifier::rlimit(40)]
pub proof fn law_requests_that_need_a_text(method: &str, params: &Json, r: Result<Call, Refusal>)
    requires
        call_ensures(read_request, (method, params), r),
    ensures
        method@ == "navigate"@ ==> {
            let v = params@.text_at("url"@);
            &&& v is Some ==> r is Ok && r->Ok_0@ == CallModel::Navigate(
                v->0,
                params@.bool_at("exec_scripts"@) == Some(true),
            )
            &&& v is None ==> r is Err && r->Err_0.code == -32602 && r->Err_0.message@
                == "missing 'url' param"@
        },
        method@ == "query"@ ==> {
            let v = params@.text_at("selector"@);
            &&& v is Some ==> r is Ok && r->Ok_0@ == CallModel::Query(v->0)
            &&& v is None ==> r is Err && r->Err_0.code == -32602 && r->Err_0.message@
                == "missing 'selector' param"@
        },
        method@ == "query_text"@ ==> {
            let v = params@.text_at("text"@);
            &&& v is Some ==> r is Ok && r->Ok_0@ == CallModel::QueryText(
                v->0,
                params@.text_at("selector"@),
                params@.bool_at("exact"@) == Some(true),
                match params@.u64_at("limit"@) {
                    Some(n) => n as u32,
                    None => 20,
                },
            )
            &&& v is None ==> r is Err && r->Err_0.code == -32602 && r->Err_0.message@
                == "missing 'text' param"@
        },
        method@ == "extract_table"@ ==> {
            let v = params@.text_at("selector"@);
            &&& v is Some ==> r is Ok && r->Ok_0@ == CallModel::ExtractTable(v->0)
            &&& v is None ==> r is Err && r->Err_0.code == -32602 && r->Err_0.message@
                == "missing 'selector' param"@
        },
        method@ == "click"@ ==> {
            let v = params@.text_at("ref"@);
            &&& v is Some ==> r is Ok && r->Ok_0@ == CallModel::Click(v->0)
            &&& v is None ==> r is Err && r->Err_0.code == -32602 && r->Err_0.message@
                == "missing 'ref' param"@
        },
        method@ == "submit"@ ==> {
            let v = params@.text_at("ref"@);
            &&& v is Some ==> r is Ok && r->Ok_0@ == CallModel::Submit(v->0)
            &&& v is None ==> r is Err && r->Err_0.code == -32602 && r->Err_0.message@
                == "missing 'ref' param"@
        },
{
    lemma_methods_differ();
}

/// Requests that need two things, or a list, are read exactly if these are given;
/// and those that are not known are refused by name.
#[verifier::rlimit(40)]
pub proof fn law_requests_that_need_more(method: &str, params: &Json, r: Result<Call, Refusal>)
    requires
        call_ensures(read_request, (method, params), r),
    ensures
        method@ == "extract_list"@ ==> {
            let (v, w) = (params@.text_at("item_selector"@), params@.get("fields"@));
            &&& v is Some && w is Some ==> r is Ok && r->Ok_0@ == CallModel::ExtractList(
                v->0,
                w->0,
                match params@.u64_at("limit"@) {
                    Some(n) => n as u32,
                    None => 1_000,
                },
            )
            &&& v is None || w is None ==> r is Err && r->Err_0.code == -32602
                && r->Err_0.message@ == "missing 'item_selector' or 'fields' param"@
        },
        method@ == "type"@ ==> {
            let (v, w) = (params@.text_at("ref"@), params@.text_at("text"@));
            &&& v is Some && w is Some ==> r is Ok && r->Ok_0@ == CallModel::Type(v->0, w->0)
            &&& v is None || w is None ==> r is Err && r->Err_0.code == -32602
                && r->Err_0.message@ == "missing 'ref' or 'text' param"@
        },
        method@ == "cookies_set"@ ==> {
            let v = params@.array_at("cookies"@);
            &&& v is Some ==> r is Ok && r->Ok_0@ == CallModel::CookiesSet(
                v->0,
                params@.text_at("url"@),
            )
            &&& v is None ==> r is Err && r->Err_0.code == -32602 && r->Err_0.message@
                == "missing 'cookies' param"@
        },
        !is_method(method@) ==> r is Err
            && r->Err_0.code == -32601 && r->Err_0.message@ == "unknown method: "@ + method@,
{
    lemma_methods_differ();
}

/// A call that failed is answered with the code of its kind.
pub proof fn law_codes_of_failures(call: &Call, r: i64)
    requires
        call_ensures(code_of_failure, (call,), r),
    ensures
        *call is Eval ==> r == -1,
        *call is Navigate ==> r == -2,
        *call is Body ==> r == -3,
        *call is Query ==> r == -4,
        *call is Text || *call is TextMain || *call is QueryText ==> r == -5,
        *call is Blockmap || *call is Extract || *call is ExtractTable || *call is ExtractList
            || *call is Settle ==> r == -6,
        *call is Click ==> r == -7,
        *call is Type ==> r == -8,
        *call is Submit ==> r == -9,
        *call is CookiesSet ==> r == -10,
        *call is ReportOutcome ==> r == -32602,
        *call is CookiesGet || *call is CookiesClear || *call is NetworkStores
            || *call is NetworkStoresClear || *call is Close ==> r == -6,
{
}

/// A call is answered with what came of it, under the id of the request: the
/// result, or the code of the failure and the words for it.
pub proof fn law_calls_are_answered(
    id: Json,
    call: &Call,
    outcome: Result<Json, String>,
    code: i64,
    r: Json,
)
    requires
        call_ensures(call_response, (id, call, outcome), r),
        call_ensures(code_of_failure, (call,), code),
    ensures
        r@.get("id"@) == Some(id@),
        outcome matches Ok(v) ==> r@.get("result"@) == Some(v@) && r@.get("error"@) is None,
        outcome matches Err(e) ==> r@.get("result"@) is None && r@.get("error"@) is Some
            && r@.get("error"@)->0.get("code"@) == Some(
            JsonModel::Number(NumberModel::Negative(code)),
        ) && r@.get("error"@)->0.text_at("message"@) == Some(e@),
{
    match outcome {
        Ok(v) => {
            law_answer_carries_id(id@, v@, code, ""@);
        },
        Err(e) => {
            law_answer_carries_id(id@, JsonModel::Null, code, e@);
            lemma_error_fields(code, e@);
        },
    }
}

proof fn lemma_error_fields(code: i64, words: Seq<char>)
    ensures
        error_json(code, words).get("code"@) == Some(
            JsonModel::Number(NumberModel::Negative(code)),
        ),
        error_json(code, words).text_at("message"@) == Some(words),
{
    reveal_strlit("code");
    reveal_strlit("message");
    assert("code"@.len() == 4);
    assert("message"@.len() == 7);
    let e = error_json(code, words)->Object_0;
    lemma_entry_at(e, "code"@, 0);
    lemma_entry_at(e, "message"@, 1);
}

/// A request that is refused is answered with the code and the words of the
/// refusal; what is no request, with the code for that and no id.
pub proof fn law_refusals_are_answered(
    id: Json,
    code: i64,
    words: &str,
    r: Json,
    fault: &str,
    none: Json,
)
    requires
        code < 0,
        call_ensures(err_response, (id, code, words), r),
        call_ensures(parse_error_response, (fault,), none),
    ensures
        r@.get("id"@) == Some(id@),
        r@.get("result"@) is None,
        r@.get("error"@) is Some,
        r@.get("error"@)->0.get("code"@) == Some(JsonModel::Number(NumberModel::Negative(code))),
        r@.get("error"@)->0.text_at("message"@) == Some(words@),
        none@.get("id"@) == Some(JsonModel::Null),
        none@.get("result"@) is None,
        none@.get("error"@) is Some,
        none@.get("error"@)->0.get("code"@) == Some(
            JsonModel::Number(NumberModel::Negative((-32700) as i64)),
        ),
        none@.get("error"@)->0.text_at("message"@) == Some("parse error: "@ + fault@),
{
    law_answer_carries_id(id@, JsonModel::Null, code, words@);
    lemma_error_fields(code, words@);
    law_answer_carries_id(JsonModel::Null, JsonModel::Null, (-32700) as i64, "parse error: "@ + fault@);
    lemma_error_fields((-32700) as i64, "parse error: "@ + fault@);
}

/// What is done is said to be, and cookies that were added are counted.
pub proof fn law_results_that_are_known(done: Json, added: u64, counted: Json)
    requires
        call_ensures(done_value, (), done),
        call_ensures(added_value, (added,), counted),
    ensures
        done@.bool_at("ok"@) == Some(true),
        counted@.u64_at("added"@) == Some(added),
{
    lemma_entry_at(done@->Object_0, "ok"@, 0);
    lemma_entry_at(counted@->Object_0, "added"@, 0);
}

/// The body is the one that was kept; without one the call fails.
pub proof fn law_body_is_given(body: &Option<String>, r: Result<Json, String>)
    requires
        call_ensures(body_result, (body,), r),
    ensures
        r is Ok <==> *body is Some,
        *body matches Some(b) ==> r->Ok_0@ == JsonModel::Text(b@),
        *body is None ==> r->Err_0@ == "no body — call navigate first"@,
{
}

/// Responses are asked for of the navigation that is named, of all where that is
/// said, and otherwise of the current one; cookies come from the URL that is
/// given, or else from the page.
pub proof fn law_what_is_meant_where_nothing_is_said(
    asked: &Option<String>,
    current: &Option<String>,
    scope: Option<String>,
    url: Option<String>,
)
    requires
        call_ensures(nav_scope, (asked, current), scope),
        call_ensures(cookie_url, (asked, current), url),
    ensures
        *asked matches Some(s) ==> (scope is None <==> s@ == "all"@) && (scope is Some ==> scope->0@
            == s@),
        *asked is None && *current is Some ==> scope is Some && scope->0@ == current->0@,
        *asked is None && *current is None ==> scope is None,
        *asked matches Some(s) ==> url is Some && url->0@ == s@,
        *asked is None && *current is Some ==> url is Some && url->0@ == current->0@,
        *asked is None && *current is None ==> url is None,
{
}

} // verus!

//! The Model Context Protocol: the tools that are offered, and what is answered
//! to messages.
use vstd::prelude::*;

use crate::json::{
    array, entries_model, items_model, json_number, json_parsed, json_printed_pretty,
    json_text_of, lemma_entry_at, lemma_items_push, no_entries, object, parse_json,
    print_json_pretty, put, with_map_entries, Json, JsonModel, NumberModel,
};
use crate::navigation::{held_model, value_or_null};
use crate::outcome::TASK_CLASSES;
use crate::rpc::{
    build_error, copy_items, error_json, flag, lemma_methods_differ, number_or, read_flag,
    read_number_or, read_request, read_text, read_text_or, text_or, Call, CallModel, Refusal,
    PARSE_ERROR, UNKNOWN_METHOD,
};
use crate::scripts::number_json;
use crate::text::{concat, same};

verus! {

/// The tools, each with what it is for.
pub const TOOLS: [(&'static str, &'static str); 21] = [
    ("navigate", "Fetch a URL with Chrome-fingerprinted HTTP (rquest, Chrome 131 emulation). Parses HTML, seeds the JS DOM, returns BlockMap inline. With `exec_scripts: true`, extracts inline AND external <script> tags from the parsed HTML, fetches externals in parallel (8s per-fetch timeout), eval's them in document order in QuickJS (with shims for setTimeout/fetch/etc.), then settles the event loop and fires DOMContentLoaded + load. `<script async>` is honored: async scripts execute after the sync queue. When `--policy=blocklist` is set, tracker URLs are blocked at script-fetch time (see scripts.policy_blocked in the result). Returns a `scripts` summary with inline_count, external_count, async_count, policy_blocked, executed, errors.\n\nAuto-extract: when the page embeds JSON-bearing <script> tags (density.json_scripts > 0 — covers application/json, application/ld+json, text/x-magento-init, text/x-shopify-app, etc.), navigate auto-runs `extract()` and returns the result as the `extract` field. Saves a round trip on the common case where the data the JS would have rendered is already sitting in the HTML — JSON-LD article schemas on news sites, __NEXT_DATA__ page state on Next.js apps, json_in_script product blobs on Magento/Shopify, GitHub RSC payloads, etc. Capped at 256 KB inline; over that limit `extract` returns a stub with strategy/confidence/size_bytes/hint and the agent should call `extract()` explicitly to retrieve the full payload. Pages with no embedded JSON get extract:null and pay zero extra cost."),
    ("query", "Run a CSS selector against the current page's parsed DOM. Returns matching elements as [{ref, tag, attrs, text}]. Element refs (e:NN) are stable handles for use with click/type/submit. Selector engine supports tag, id, class, attribute matchers (=, ^=, $=, *=, ~=), all four combinators (descendant, >, +, ~), and pseudo-classes (:first/last/nth-child, :first/last/nth-of-type, :only-child/of-type). Does NOT support :not(), :has(), An+B formulas."),
    ("text", "Get the textContent of the FIRST element matching the selector (default: body). Note: on Wikipedia/MDN/news sites, the first <p> is often a hatnote or image caption, not the lead paragraph — prefer `text_main` for reading the page's primary content."),
    ("text_main", "Get the textContent of the page's main content area, excluding chrome (header/nav/footer/aside). Tries <main>, then [role=main], then a single <article>, then falls back to the longest non-chrome subtree. Use this for reading article body / docs page / blog post content."),
    ("query_text", "Find elements by visible text content. Returns the smallest/deepest element whose textContent matches the needle, with chrome (header/nav/footer/aside) skipped. Anchor-promotion: a span/strong/etc. inside an <a> resolves to the anchor (so click() targets the actionable element). Right tool when CSS selectors are unstable (React-rendered pages with hashed class names) but the visible label is reliable — e.g. find a 'Sign in' button without knowing its class."),
    ("blockmap", "Recompute the BlockMap for the current page. Use after eval'd JS or click/type modifies the DOM. Same shape as the inline blockmap from navigate."),
    ("extract", "Auto-strategy structured-data extraction. Tries JSON-LD (schema.org) → __NEXT_DATA__ → Nuxt → JSON-in-script (Magento, Shopify, BigCommerce custom-typed scripts) → OpenGraph/meta → microdata → text_main fallback, returns the highest-confidence hit as {strategy, confidence, data, tried}. Use this as the one-shot 'give me the data, you figure out how' call when you don't want to plan the strategy yourself. Pass strategy='json_ld' (or any of the names above) to force a specific extractor."),
    ("extract_table", "Pull a <table> into {headers, rows, row_count}. Headers come from <thead><th>...</th></thead> if present, else the first <tr>'s <th> cells. Each subsequent <tr>'s <td> cells become a row dict keyed by header (or 'col_N' if no header for that column). Right tool for pricing tables, specs, finance/listings tables — saves writing the per-cell mapping eval."),
    ("extract_list", "Pull a repeated card pattern into [{...}, {...}]. Right tool for HN-style lists, search results, product grids — collapses per-site eval boilerplate. Field spec shapes: 'css selector' (text content), 'css selector @attr' (attribute), or ['css selector', '@attr'] (tuple form). If a sub-selector returns null, the field value is null."),
    ("settle", "Drain the JS event loop: alternately runs queued microtasks (Promise resolutions) and fires expired setTimeout/setInterval callbacks, sleeping to the next deadline when only timers remain. Returns when the queue is empty OR max_ms elapses OR max_iters iterations complete. Defaults: max_ms=2000, max_iters=50. Use after seeding the DOM (or after eval'd code that schedules timers) to let pending callbacks run."),
    ("click", "Dispatch a click event on the element at `ref` (e.g. e:142, returned from query). If the element is <a href> and the click was not preventDefault'd, auto-follows the href via navigate (returns the full navigation result with new BlockMap). Otherwise returns {ok, ref, tag, follow: null}."),
    ("type", "Set the value of an input/textarea (referenced by `ref`) and dispatch input + change events. Use before submit on form fields."),
    ("submit", "Submit a form by gathering its input/textarea/select values, building a query string, and navigating to the resolved action URL. v1 supports GET only; POST/multipart errors out. Skips checkboxes/radios."),
    ("body", "Return the raw HTML body of the last navigation. Use as a fallback when the BlockMap or selectors aren't enough — but the response can be large (often 100KB+)."),
    ("eval", "Run arbitrary JavaScript in the embedded QuickJS runtime against the current page's parsed DOM. Returns the JSON-stringified result. Power tool — prefer query/text/blockmap when the CSS selector engine can express what you need."),
    ("cookies_set", "Add cookies to the session jar. Each item is an object {name, value, domain, path?, secure?, http_only?, url?} or a raw Set-Cookie string. Used to replay clearance cookies (e.g. PerimeterX _px3) lifted from a real Chrome session, bypassing bot detection without running the challenge JS."),
    ("cookies_get", "Return all cookies currently in the jar as [{name, value, domain, path, secure, http_only}]. Use this to export cookies to disk for a later session."),
    ("cookies_clear", "Drop all cookies from the jar."),
    ("report_outcome", "Bind a task outcome (success/failure/quality) to a previous navigation_id from a navigate() call. Used by the policy framework's outcome protocol — see docs/probabilistic-policy.md §4.5. v0 emits an outcome_reported NDJSON event for the navigation; no posterior updates yet. Drivers should call this once per agent task so future Bayesian phases (B/D-2) can attribute extraction success/failure to specific policy decisions."),
    ("network_stores", "Return content-bearing fetch/XHR responses captured during navigate, ranked by likely content value. SPAs often keep their data in API responses (JSON, GraphQL, NDJSON, Next/Nuxt route data) that are cleaner than the rendered DOM — this tool surfaces them directly. Each entry has capture_id, URL, status, content-type, body_preview (truncated to 256 KB), body_bytes (full size), body_truncated flag, navigation_id, and a heuristic score. Bodies for trackers/ads/CSS/HTML/media are NOT captured. The navigate result already contains a top-5 summary scoped to that navigation; use this tool to get more entries, filter by host, or pull captures from a different navigation."),
    ("network_stores_clear", "Drop all captured network responses from the session's network store. Use this between unrelated navigations if you don't want earlier captures showing up in later network_stores calls."),
];

/// What the tools are told: the number of the tool, the name, the type, what it
/// means, and what else holds of it: nothing (0), that it is a kind of task (1)
/// or a number from 1 to 100 (2).
pub const PARAMS: [(usize, &'static str, &'static str, &'static str, u8); 31] = [
    (0, "url", "string", "Absolute URL to fetch", 0),
    (0, "exec_scripts", "boolean", "Run page <script> tags (inline + external src) after parse, settle the event loop, and fire DOMContentLoaded + load. Default false.", 0),
    (1, "selector", "string", "CSS selector", 0),
    (2, "selector", "string", "CSS selector (default: body)", 0),
    (4, "text", "string", "Substring to match (or exact string if exact=true)", 0),
    (4, "selector", "string", "Optional CSS selector to limit search scope (default: whole document body)", 0),
    (4, "exact", "boolean", "If true, exact match instead of substring (default false)", 0),
    (4, "limit", "integer", "Max matches to return (default 20)", 0),
    (6, "strategy", "string", "Optional: force a specific extractor (json_ld, next_data, nuxt_data, json_in_script, og_meta, microdata, text_main)", 0),
    (7, "selector", "string", "CSS selector matching the <table> element", 0),
    (8, "item_selector", "string", "CSS selector matching each card/row", 0),
    (8, "fields", "object", "{field_name: 'sub-selector' | 'sub-selector @attr' | ['sub-selector', '@attr']}", 0),
    (8, "limit", "integer", "Max items to extract (default 1000)", 0),
    (9, "max_ms", "integer", "Max wall-clock ms to spend (default 2000)", 0),
    (9, "max_iters", "integer", "Max iterations of the drain loop (default 50)", 0),
    (10, "ref", "string", "Element ref like e:142", 0),
    (11, "ref", "string", "Input element ref like e:142", 0),
    (11, "text", "string", "Value to set", 0),
    (12, "ref", "string", "Form element ref like e:142", 0),
    (14, "code", "string", "JS code; the value of the last expression is returned", 0),
    (15, "cookies", "array", "Array of cookie objects or Set-Cookie strings", 0),
    (15, "url", "string", "Default URL for cookies that don't specify domain", 0),
    (18, "navigation_id", "string", "The id returned by navigate() — joins this outcome to the policy_trace event.", 0),
    (18, "task_id", "string", "Optional opaque id chosen by the driver for cross-system correlation.", 0),
    (18, "task_class", "string", "What kind of task succeeded/failed. Lets future posteriors condition on task class.", 1),
    (18, "success", "boolean", "Did the agent's task succeed?", 0),
    (18, "quality", "number", "Optional 0..1 quality score (e.g. fraction of expected fields extracted).", 0),
    (18, "error", "string", "Optional human-readable error/explanation when success=false.", 0),
    (19, "limit", "integer", "Max entries to return (default 20).", 2),
    (19, "host", "string", "Optional substring filter on response host.", 0),
    (19, "nav_id", "string", "Defaults to the most recent navigation_id (page B never sees page A captures). Pass an explicit navigation_id from a prior navigate result to query that navigation specifically. Pass 'all' to disable nav filtering and return captures from every navigation.", 0),
];

/// What the tools have to be told: the number of the tool and the name.
pub const REQUIRED: [(usize, &'static str); 14] = [
    (0, "url"),
    (1, "selector"),
    (4, "text"),
    (7, "selector"),
    (8, "item_selector"),
    (8, "fields"),
    (10, "ref"),
    (11, "ref"),
    (11, "text"),
    (12, "ref"),
    (14, "code"),
    (15, "cookies"),
    (18, "navigation_id"),
    (18, "success"),
];

// ---------------------------------------------------------------------
// The tools
// ---------------------------------------------------------------------

/// The kinds of tasks as a value.
pub open spec fn task_classes_json() -> JsonModel {
    JsonModel::Array(Seq::new(TASK_CLASSES@.len(), |i: int| JsonModel::Text(TASK_CLASSES[i]@)))
}

/// What a tool is told, in JSON.
pub open spec fn param_json(i: int) -> JsonModel {
    let base = seq![
        ("type"@, JsonModel::Text(PARAMS[i].2@)),
        ("description"@, JsonModel::Text(PARAMS[i].3@)),
    ];
    JsonModel::Object(
        if PARAMS[i].4 == 1 {
            base.push(("enum"@, task_classes_json()))
        } else if PARAMS[i].4 == 2 {
            base.push(("minimum"@, number_json(1))).push(("maximum"@, number_json(100)))
        } else {
            base
        },
    )
}

/// What a tool is told, of the first `n` in the list.
pub open spec fn properties(tool: int, n: int) -> Seq<(Seq<char>, JsonModel)>
    decreases n,
{
    if n <= 0 {
        Seq::empty()
    } else if PARAMS[n - 1].0 == tool {
        properties(tool, n - 1).push((PARAMS[n - 1].1@, param_json(n - 1)))
    } else {
        properties(tool, n - 1)
    }
}

/// What a tool has to be told, of the first `n` in the list.
pub open spec fn required(tool: int, n: int) -> Seq<JsonModel>
    decreases n,
{
    if n <= 0 {
        Seq::empty()
    } else if REQUIRED[n - 1].0 == tool {
        required(tool, n - 1).push(JsonModel::Text(REQUIRED[n - 1].1@))
    } else {
        required(tool, n - 1)
    }
}

/// What a tool takes, in JSON.
pub open spec fn schema_json(tool: int) -> JsonModel {
    let base = seq![
        ("type"@, JsonModel::Text("object"@)),
        ("properties"@, JsonModel::Object(properties(tool, PARAMS.len() as int))),
    ];
    let needed = required(tool, REQUIRED.len() as int);
    JsonModel::Object(
        if needed.len() > 0 {
            base.push(("required"@, JsonModel::Array(needed)))
        } else {
            base
        },
    )
}

/// A tool in JSON.
pub open spec fn tool_json(tool: int) -> JsonModel {
    JsonModel::Object(
        seq![
            ("name"@, JsonModel::Text(TOOLS[tool].0@)),
            ("description"@, JsonModel::Text(TOOLS[tool].1@)),
            ("inputSchema"@, schema_json(tool)),
        ],
    )
}

/// The tools in JSON.
pub open spec fn tools_json() -> JsonModel {
    JsonModel::Array(Seq::new(TOOLS@.len(), |i: int| tool_json(i)))
}

fn build_task_classes() -> (r: Json)
    ensures
        r@ == task_classes_json(),
{
    let ghost all = task_classes_json()->Array_0;
    let mut out: Vec<Json> = Vec::new();
    let mut i: usize = 0;
    while i < TASK_CLASSES.len()
        invariant
            i <= TASK_CLASSES.len(),
            all == task_classes_json()->Array_0,
            items_model(out@) =~= all.take(i as int),
        decreases TASK_CLASSES.len() - i,
    {
        broadcast use lemma_items_push;

        out.push(json_text_of(TASK_CLASSES[i]));
        assert(all.take(i + 1) =~= all.take(i as int).push(all[i as int]));
        i = i + 1;
    }
    assert(all.take(i as int) =~= all);
    array(out)
}

fn build_param(i: usize) -> (r: Json)
    requires
        i < PARAMS.len(),
    ensures
        r@ == param_json(i as int),
{
    let mut e = no_entries();
    put(&mut e, "type", json_text_of(PARAMS[i].2));
    put(&mut e, "description", json_text_of(PARAMS[i].3));
    if PARAMS[i].4 == 1 {
        put(&mut e, "enum", build_task_classes());
    } else if PARAMS[i].4 == 2 {
        put(&mut e, "minimum", json_number(1));
        put(&mut e, "maximum", json_number(100));
    }
    let r = object(e);
    assert(r@->Object_0 =~= param_json(i as int)->Object_0);
    r
}

fn build_properties(tool: usize) -> (r: Vec<(String, Json)>)
    ensures
        entries_model(r@) == properties(tool as int, PARAMS.len() as int),
{
    let mut out = no_entries();
    let mut n: usize = 0;
    while n < PARAMS.len()
        invariant
            n <= PARAMS.len(),
            entries_model(out@) == properties(tool as int, n as int),
        decreases PARAMS.len() - n,
    {
        if PARAMS[n].0 == tool {
            let v = build_param(n);
            put(&mut out, PARAMS[n].1, v);
        }
        n = n + 1;
    }
    out
}

fn build_required(tool: usize) -> (r: Vec<Json>)
    ensures
        items_model(r@) == required(tool as int, REQUIRED.len() as int),
{
    let mut out: Vec<Json> = Vec::new();
    let mut n: usize = 0;
    assert(items_model(out@) =~= Seq::empty());
    while n < REQUIRED.len()
        invariant
            n <= REQUIRED.len(),
            items_model(out@) == required(tool as int, n as int),
        decreases REQUIRED.len() - n,
    {
        broadcast use lemma_items_push;

        if REQUIRED[n].0 == tool {
            out.push(json_text_of(REQUIRED[n].1));
        }
        n = n + 1;
    }
    out
}

fn build_tool(tool: usize) -> (r: Json)
    requires
        tool < TOOLS.len(),
    ensures
        r@ == tool_json(tool as int),
{
    let mut s = no_entries();
    put(&mut s, "type", json_text_of("object"));
    put(&mut s, "properties", object(build_properties(tool)));
    let needed = build_required(tool);
    assert(needed@.len() == items_model(needed@).len());
    if needed.len() > 0 {
        put(&mut s, "required", array(needed));
    }
    let schema = object(s);
    assert(schema@->Object_0 =~= schema_json(tool as int)->Object_0);
    let mut e = no_entries();
    put(&mut e, "name", json_text_of(TOOLS[tool].0));
    put(&mut e, "description", json_text_of(TOOLS[tool].1));
    put(&mut e, "inputSchema", schema);
    let r = object(e);
    assert(r@->Object_0 =~= tool_json(tool as int)->Object_0);
    r
}

/// The tools in JSON.
pub fn mcp_tools() -> (r: Json)
    ensures
        r@ == tools_json(),
{
    let ghost all = tools_json()->Array_0;
    let mut out: Vec<Json> = Vec::new();
    let mut i: usize = 0;
    while i < TOOLS.len()
        invariant
            i <= TOOLS.len(),
            all == tools_json()->Array_0,
            items_model(out@) =~= all.take(i as int),
        decreases TOOLS.len() - i,
    {
        broadcast use lemma_items_push;

        out.push(build_tool(i));
        assert(all.take(i + 1) =~= all.take(i as int).push(all[i as int]));
        i = i + 1;
    }
    assert(all.take(i as int) =~= all);
    array(out)
}

// ---------------------------------------------------------------------
// Calls of tools
// ---------------------------------------------------------------------

/// What a call of a tool asks for, or why it is none.
pub open spec fn tool_call(name: Seq<char>, args: JsonModel) -> Result<CallModel, Seq<char>> {
    let url = args.text_at("url"@);
    let selector = args.text_at("selector"@);
    let reference = args.text_at("ref"@);
    let text = args.text_at("text"@);
    if name == "navigate"@ {
        match url {
            Some(u) => Ok(CallModel::Navigate(u, flag(args, "exec_scripts"@))),
            None => Err("missing 'url'"@),
        }
    } else if name == "query"@ {
        match selector {
            Some(s) => Ok(CallModel::Query(s)),
            None => Err("missing 'selector'"@),
        }
    } else if name == "text"@ {
        Ok(CallModel::Text(text_or(args, "selector"@, "body"@)))
    } else if name == "text_main"@ {
        Ok(CallModel::TextMain)
    } else if name == "query_text"@ {
        match text {
            Some(t) => Ok(
                CallModel::QueryText(
                    t,
                    selector,
                    flag(args, "exact"@),
                    number_or(args, "limit"@, 20) as u32,
                ),
            ),
            None => Err("missing 'text'"@),
        }
    } else if name == "blockmap"@ {
        Ok(CallModel::Blockmap)
    } else if name == "extract"@ {
        Ok(CallModel::Extract(args.text_at("strategy"@)))
    } else if name == "extract_table"@ {
        match selector {
            Some(s) => Ok(CallModel::ExtractTable(s)),
            None => Err("missing 'selector'"@),
        }
    } else if name == "extract_list"@ {
        match args.text_at("item_selector"@) {
            None => Err("missing 'item_selector'"@),
            Some(item) => match args.get("fields"@) {
                None => Err("missing 'fields'"@),
                Some(fields) => Ok(
                    CallModel::ExtractList(item, fields, number_or(args, "limit"@, 1000) as u32),
                ),
            },
        }
    } else if name == "settle"@ {
        Ok(
            CallModel::Settle(
                number_or(args, "max_ms"@, 2000),
                number_or(args, "max_iters"@, 50) as u32,
            ),
        )
    } else if name == "click"@ {
        match reference {
            Some(r) => Ok(CallModel::Click(r)),
            None => Err("missing 'ref'"@),
        }
    } else if name == "type"@ {
        match reference {
            None => Err("missing 'ref'"@),
            Some(r) => match text {
                None => Err("missing 'text'"@),
                Some(t) => Ok(CallModel::Type(r, t)),
            },
        }
    } else if name == "submit"@ {
        match reference {
            Some(r) => Ok(CallModel::Submit(r)),
            None => Err("missing 'ref'"@),
        }
    } else if name == "body"@ {
        Ok(CallModel::Body)
    } else if name == "eval"@ {
        match args.text_at("code"@) {
            Some(c) => Ok(CallModel::Eval(c)),
            None => Err("missing 'code'"@),
        }
    } else if name == "cookies_set"@ {
        match args.array_at("cookies"@) {
            Some(cookies) => Ok(CallModel::CookiesSet(cookies, url)),
            None => Err("missing 'cookies'"@),
        }
    } else if name == "cookies_get"@ {
        Ok(CallModel::CookiesGet)
    } else if name == "cookies_clear"@ {
        Ok(CallModel::CookiesClear)
    } else if name == "report_outcome"@ {
        match args.text_at("navigation_id"@) {
            Some(i) => Ok(CallModel::ReportOutcome(i)),
            None => Err("missing 'navigation_id'"@),
        }
    } else if name == "network_stores"@ {
        Ok(
            CallModel::NetworkStores(
                number_or(args, "limit"@, 20),
                args.text_at("host"@),
                args.text_at("nav_id"@),
            ),
        )
    } else if name == "network_stores_clear"@ {
        Ok(CallModel::NetworkStoresClear)
    } else {
        Err("unknown tool: "@ + name)
    }
}

/// What the reading of a call of a tool stands for.
pub open spec fn tool_model(r: Result<Call, String>) -> Result<CallModel, Seq<char>> {
    match r {
        Ok(c) => Ok(c@),
        Err(e) => Err(e@),
    }
}

/// A call that is none.
fn missing(words: &str) -> (r: Result<Call, String>)
    ensures
        tool_model(r) == Err::<CallModel, Seq<char>>(words@),
{
    Err(words.to_owned())
}

/// What a call of a tool asks for, or why it is none. The two are read alike
/// but for what has to be said.
#[verifier::rlimit(40)]
pub fn dispatch_tool(name: &str, args: &Json) -> (r: Result<Call, String>)
    ensures
        tool_model(r) == tool_call(name@, args@),
{
    if same(name, "navigate") {
        match read_text(args, "url") {
            Some(u) => Ok(Call::Navigate(u, read_flag(args, "exec_scripts"))),
            None => missing("missing 'url'"),
        }
    } else if same(name, "query") {
        match read_text(args, "selector") {
            Some(s) => Ok(Call::Query(s)),
            None => missing("missing 'selector'"),
        }
    } else if same(name, "text") {
        Ok(Call::Text(read_text_or(args, "selector", "body")))
    } else if same(name, "text_main") {
        Ok(Call::TextMain)
    } else if same(name, "query_text") {
        match read_text(args, "text") {
            Some(t) => Ok(
                Call::QueryText(
                    t,
                    read_text(args, "selector"),
                    read_flag(args, "exact"),
                    read_number_or(args, "limit", 20) as u32,
                ),
            ),
            None => missing("missing 'text'"),
        }
    } else if same(name, "blockmap") {
        Ok(Call::Blockmap)
    } else if same(name, "extract") {
        Ok(Call::Extract(read_text(args, "strategy")))
    } else if same(name, "extract_table") {
        match read_text(args, "selector") {
            Some(s) => Ok(Call::ExtractTable(s)),
            None => missing("missing 'selector'"),
        }
    } else if same(name, "extract_list") {
        match read_text(args, "item_selector") {
            None => missing("missing 'item_selector'"),
            Some(item) => match args.get("fields") {
                None => missing("missing 'fields'"),
                Some(fields) => Ok(
                    Call::ExtractList(item, fields.copy(), read_number_or(args, "limit", 1000) as u32),
                ),
            },
        }
    } else if same(name, "settle") {
        Ok(
            Call::Settle(
                read_number_or(args, "max_ms", 2000),
                read_number_or(args, "max_iters", 50) as u32,
            ),
        )
    } else if same(name, "click") {
        match read_text(args, "ref") {
            Some(s) => Ok(Call::Click(s)),
            None => missing("missing 'ref'"),
        }
    } else if same(name, "type") {
        match read_text(args, "ref") {
            None => missing("missing 'ref'"),
            Some(s) => match read_text(args, "text") {
                None => missing("missing 'text'"),
                Some(t) => Ok(Call::Type(s, t)),
            },
        }
    } else if same(name, "submit") {
        match read_text(args, "ref") {
            Some(s) => Ok(Call::Submit(s)),
            None => missing("missing 'ref'"),
        }
    } else if same(name, "body") {
        Ok(Call::Body)
    } else if same(name, "eval") {
        match read_text(args, "code") {
            Some(c) => Ok(Call::Eval(c)),
            None => missing("missing 'code'"),
        }
    } else if same(name, "cookies_set") {
        match args.array_at("cookies") {
            Some(items) => Ok(Call::CookiesSet(copy_items(items), read_text(args, "url"))),
            None => missing("missing 'cookies'"),
        }
    } else if same(name, "cookies_get") {
        Ok(Call::CookiesGet)
    } else if same(name, "cookies_clear") {
        Ok(Call::CookiesClear)
    } else if same(name, "report_outcome") {
        match read_text(args, "navigation_id") {
            Some(i) => Ok(Call::ReportOutcome(i)),
            None => missing("missing 'navigation_id'"),
        }
    } else if same(name, "network_stores") {
        Ok(
            Call::NetworkStores(
                read_number_or(args, "limit", 20),
                read_text(args, "host"),
                read_text(args, "nav_id"),
            ),
        )
    } else if same(name, "network_stores_clear") {
        Ok(Call::NetworkStoresClear)
    } else {
        Err(concat("unknown tool: ", name))
    }
}

// ---------------------------------------------------------------------
// Messages
// ---------------------------------------------------------------------

/// What follows on a message.
#[derive(Debug)]
pub enum McpMove {
    /// Nothing.
    Silent,
    /// This answer.
    Reply(Json),
    /// A call of a tool, and then the answer to the id, if there is one.
    Call(Option<Json>, String, Json),
}

/// What a [`McpMove`] stands for.
pub enum McpModel {
    Silent,
    Reply(JsonModel),
    Call(Option<JsonModel>, Seq<char>, JsonModel),
}

impl View for McpMove {
    type V = McpModel;

    open spec fn view(&self) -> McpModel {
        match *self {
            McpMove::Silent => McpModel::Silent,
            McpMove::Reply(j) => McpModel::Reply(j@),
            McpMove::Call(id, name, args) => McpModel::Call(held_model(id), name@, args@),
        }
    }
}

/// An answer with a result.
pub open spec fn reply_json(id: JsonModel, result: JsonModel) -> JsonModel {
    JsonModel::Object(
        seq![("jsonrpc"@, JsonModel::Text("2.0"@)), ("id"@, id), ("result"@, result)],
    )
}

/// An answer with an error.
pub open spec fn reply_error_json(id: JsonModel, code: i64, message: Seq<char>) -> JsonModel {
    JsonModel::Object(
        seq![
            ("jsonrpc"@, JsonModel::Text("2.0"@)),
            ("id"@, id),
            ("error"@, error_json(code, message)),
        ],
    )
}

/// What the server says of itself.
pub open spec fn initialize_json(version: Seq<char>) -> JsonModel {
    JsonModel::Object(
        seq![
            ("protocolVersion"@, JsonModel::Text("2025-06-18"@)),
            (
                "capabilities"@,
                JsonModel::Object(seq![("tools"@, JsonModel::Object(Seq::empty()))]),
            ),
            (
                "serverInfo"@,
                JsonModel::Object(
                    seq![
                        ("name"@, JsonModel::Text("unbrowser"@)),
                        ("version"@, JsonModel::Text(version)),
                    ],
                ),
            ),
        ],
    )
}

/// The result of a request that is answered at once, if it is one.
pub open spec fn direct_result(method: Seq<char>, version: Seq<char>) -> Option<JsonModel> {
    if method == "initialize"@ {
        Some(initialize_json(version))
    } else if method == "ping"@ {
        Some(JsonModel::Object(Seq::empty()))
    } else if method == "tools/list"@ {
        Some(JsonModel::Object(seq![("tools"@, tools_json())]))
    } else {
        None
    }
}

/// What follows on a message. One without an id is never answered, though the
/// tool that it calls is called.
pub open spec fn message_move(req: JsonModel, version: Seq<char>) -> McpModel {
    let method = text_or(req, "method"@, ""@);
    let id = req.get("id"@);
    let params = value_or_null(req.get("params"@));
    if method == "notifications/initialized"@ || method == "notifications/cancelled"@ {
        McpModel::Silent
    } else if method == "tools/call"@ {
        McpModel::Call(
            id,
            text_or(params, "name"@, ""@),
            value_or_null(params.get("arguments"@)),
        )
    } else {
        match id {
            None => McpModel::Silent,
            Some(i) => match direct_result(method, version) {
                Some(result) => McpModel::Reply(reply_json(i, result)),
                None => McpModel::Reply(
                    reply_error_json(i, UNKNOWN_METHOD, "method not found: "@ + method),
                ),
            },
        }
    }
}

/// An answer with a result.
fn build_reply(id: Json, result: Json) -> (r: Json)
    ensures
        r@ == reply_json(id@, result@),
{
    let mut e = no_entries();
    put(&mut e, "jsonrpc", json_text_of("2.0"));
    put(&mut e, "id", id);
    put(&mut e, "result", result);
    let r = object(e);
    assert(r@->Object_0 =~= reply_json(id@, result@)->Object_0);
    r
}

/// An answer with an error.
fn build_reply_error(id: Json, code: i64, message: &str) -> (r: Json)
    requires
        code < 0,
    ensures
        r@ == reply_error_json(id@, code, message@),
{
    let mut e = no_entries();
    put(&mut e, "jsonrpc", json_text_of("2.0"));
    put(&mut e, "id", id);
    put(&mut e, "error", build_error(code, message));
    let r = object(e);
    assert(r@->Object_0 =~= reply_error_json(id@, code, message@)->Object_0);
    r
}

/// What the server says of itself.
fn build_initialize(version: &str) -> (r: Json)
    ensures
        r@ == initialize_json(version@),
{
    let mut c = no_entries();
    put(&mut c, "tools", object(no_entries()));
    let capabilities = object(c);
    assert(capabilities@->Object_0 =~= seq![("tools"@, JsonModel::Object(Seq::empty()))]);
    let mut i = no_entries();
    put(&mut i, "name", json_text_of("unbrowser"));
    put(&mut i, "version", json_text_of(version));
    let info = object(i);
    assert(info@->Object_0 =~= seq![
        ("name"@, JsonModel::Text("unbrowser"@)),
        ("version"@, JsonModel::Text(version@)),
    ]);
    let mut e = no_entries();
    put(&mut e, "protocolVersion", json_text_of("2025-06-18"));
    put(&mut e, "capabilities", capabilities);
    put(&mut e, "serverInfo", info);
    let r = object(e);
    assert(r@->Object_0 =~= initialize_json(version@)->Object_0);
    r
}

/// The result of a request that is answered at once, if it is one.
fn find_direct_result(method: &str, version: &str) -> (r: Option<Json>)
    ensures
        held_model(r) == direct_result(method@, version@),
{
    if same(method, "initialize") {
        Some(build_initialize(version))
    } else if same(method, "ping") {
        Some(object(no_entries()))
    } else if same(method, "tools/list") {
        let mut e = no_entries();
        put(&mut e, "tools", mcp_tools());
        let r = object(e);
        assert(r@->Object_0 =~= seq![("tools"@, tools_json())]);
        Some(r)
    } else {
        None
    }
}

/// What follows on a message.
pub fn answer_message(req: &Json, version: &str) -> (r: McpMove)
    ensures
        r@ == message_move(req@, version@),
{
    let method = read_text_or(req, "method", "");
    if same(method.as_str(), "notifications/initialized") || same(
        method.as_str(),
        "notifications/cancelled",
    ) {
        return McpMove::Silent;
    }
    let id: Option<Json> = match req.get("id") {
        Some(i) => Some(i.copy()),
        None => None,
    };
    if same(method.as_str(), "tools/call") {
        let none = Json::Null;
        let params: &Json = match req.get("params") {
            Some(p) => p,
            None => &none,
        };
        let arguments = match params.get("arguments") {
            Some(a) => a.copy(),
            None => Json::Null,
        };
        return McpMove::Call(id, read_text_or(params, "name", ""), arguments);
    }
    match id {
        None => McpMove::Silent,
        Some(i) => match find_direct_result(method.as_str(), version) {
            Some(result) => McpMove::Reply(build_reply(i, result)),
            None => McpMove::Reply(
                build_reply_error(
                    i,
                    UNKNOWN_METHOD,
                    concat("method not found: ", method.as_str()).as_str(),
                ),
            ),
        },
    }
}

/// What follows on a line; one that is no JSON text is answered with an error.
pub fn answer_line(line: &str, version: &str) -> (r: McpMove)
    ensures
        r@ == (match json_parsed(line@) {
            Ok(req) => message_move(req, version@),
            Err(e) => McpModel::Reply(
                reply_error_json(JsonModel::Null, PARSE_ERROR, "parse error: "@ + e),
            ),
        }),
{
    match parse_json(line) {
        Ok(req) => answer_message(&req, version),
        Err(e) => McpMove::Reply(
            build_reply_error(Json::Null, PARSE_ERROR, concat("parse error: ", e.as_str()).as_str()),
        ),
    }
}

/// The result of a call of a tool: a text, and whether it is that of an error.
pub open spec fn content_json(text: Seq<char>, is_error: bool) -> JsonModel {
    JsonModel::Object(
        seq![
            (
                "content"@,
                JsonModel::Array(
                    seq![
                        JsonModel::Object(
                            seq![
                                ("type"@, JsonModel::Text("text"@)),
                                ("text"@, JsonModel::Text(text)),
                            ],
                        ),
                    ],
                ),
            ),
            ("isError"@, JsonModel::Bool(is_error)),
        ],
    )
}

/// The answer to a call of a tool; nothing where the call has no id.
pub open spec fn tool_reply(id: Option<JsonModel>, outcome: Result<JsonModel, Seq<char>>) -> Option<
    JsonModel,
> {
    match id {
        None => None,
        Some(i) => Some(
            reply_json(
                i,
                match outcome {
                    Ok(v) => content_json(json_printed_pretty(with_map_entries(v)), false),
                    Err(e) => content_json("Error: "@ + e, true),
                },
            ),
        ),
    }
}

fn build_content(text: String, is_error: bool) -> (r: Json)
    ensures
        r@ == content_json(text@, is_error),
{
    let mut t = no_entries();
    put(&mut t, "type", json_text_of("text"));
    put(&mut t, "text", json_text_of(text.as_str()));
    let item = object(t);
    assert(item@->Object_0 =~= seq![
        ("type"@, JsonModel::Text("text"@)),
        ("text"@, JsonModel::Text(text@)),
    ]);
    let ghost m = item@;
    let mut items: Vec<Json> = Vec::new();
    items.push(item);
    assert(items_model(items@) =~= seq![m]);
    let mut e = no_entries();
    put(&mut e, "content", array(items));
    put(&mut e, "isError", Json::Bool(is_error));
    let r = object(e);
    assert(r@->Object_0 =~= content_json(text@, is_error)->Object_0);
    r
}

/// The answer to a call of a tool.
pub fn answer_call(id: &Option<Json>, outcome: &Result<Json, String>) -> (r: Option<Json>)
    ensures
        held_model(r) == tool_reply(
            held_model(*id),
            match *outcome {
                Ok(v) => Ok(v@),
                Err(e) => Err(e@),
            },
        ),
{
    match id {
        None => None,
        Some(i) => {
            let content = match outcome {
                Ok(v) => build_content(print_json_pretty(v), false),
                Err(e) => build_content(concat("Error: ", e.as_str()), true),
            };
            Some(build_reply(i.copy(), content))
        },
    }
}

// ---------------------------------------------------------------------
// What holds of every tool and message
// ---------------------------------------------------------------------

/// Whether a tool is known by this name.
pub open spec fn is_tool(name: Seq<char>) -> bool {
    ||| name == "navigate"@
    ||| name == "query"@
    ||| name == "text"@
    ||| name == "text_main"@
    ||| name == "query_text"@
    ||| name == "blockmap"@
    ||| name == "extract"@
    ||| name == "extract_table"@
    ||| name == "extract_list"@
    ||| name == "settle"@
    ||| name == "click"@
    ||| name == "type"@
    ||| name == "submit"@
    ||| name == "body"@
    ||| name == "eval"@
    ||| name == "cookies_set"@
    ||| name == "cookies_get"@
    ||| name == "cookies_clear"@
    ||| name == "report_outcome"@
    ||| name == "network_stores"@
    ||| name == "network_stores_clear"@
}

/// The tools that are offered are those that are known.
pub proof fn law_offered_tools_are_known(name: Seq<char>)
    ensures
        is_tool(name) <==> exists|i: int| 0 <= i < TOOLS.len() && #[trigger] TOOLS[i].0@ == name,
{
    assert(TOOLS[0].0@ == "navigate"@);
    assert(TOOLS[1].0@ == "query"@);
    assert(TOOLS[2].0@ == "text"@);
    assert(TOOLS[3].0@ == "text_main"@);
    assert(TOOLS[4].0@ == "query_text"@);
    assert(TOOLS[5].0@ == "blockmap"@);
    assert(TOOLS[6].0@ == "extract"@);
    assert(TOOLS[7].0@ == "extract_table"@);
    assert(TOOLS[8].0@ == "extract_list"@);
    assert(TOOLS[9].0@ == "settle"@);
    assert(TOOLS[10].0@ == "click"@);
    assert(TOOLS[11].0@ == "type"@);
    assert(TOOLS[12].0@ == "submit"@);
    assert(TOOLS[13].0@ == "body"@);
    assert(TOOLS[14].0@ == "eval"@);
    assert(TOOLS[15].0@ == "cookies_set"@);
    assert(TOOLS[16].0@ == "cookies_get"@);
    assert(TOOLS[17].0@ == "cookies_clear"@);
    assert(TOOLS[18].0@ == "report_outcome"@);
    assert(TOOLS[19].0@ == "network_stores"@);
    assert(TOOLS[20].0@ == "network_stores_clear"@);
}

/// A call of a known tool may lack a parameter, but never the tool.
pub proof fn law_known_tools_are_called(name: Seq<char>, args: JsonModel)
    requires
        is_tool(name),
    ensures
        tool_call(name, args) matches Err(e) ==> e != "unknown tool: "@ + name,
{
    reveal_strlit("unknown tool: ");
    assert(("unknown tool: "@ + name)[0] == 'u');
    reveal_strlit("missing 'url'");
    assert("missing 'url'"@[0] == 'm');
    reveal_strlit("missing 'selector'");
    assert("missing 'selector'"@[0] == 'm');
    reveal_strlit("missing 'text'");
    assert("missing 'text'"@[0] == 'm');
    reveal_strlit("missing 'item_selector'");
    assert("missing 'item_selector'"@[0] == 'm');
    reveal_strlit("missing 'fields'");
    assert("missing 'fields'"@[0] == 'm');
    reveal_strlit("missing 'ref'");
    assert("missing 'ref'"@[0] == 'm');
    reveal_strlit("missing 'code'");
    assert("missing 'code'"@[0] == 'm');
    reveal_strlit("missing 'cookies'");
    assert("missing 'cookies'"@[0] == 'm');
    reveal_strlit("missing 'navigation_id'");
    assert("missing 'navigation_id'"@[0] == 'm');
}

/// A call of anything else is refused by name.
pub proof fn law_other_tools_are_refused(name: Seq<char>, args: JsonModel)
    requires
        !is_tool(name),
    ensures
        tool_call(name, args) == Err::<CallModel, Seq<char>>("unknown tool: "@ + name),
{
}

/// A message without an id is not answered.
pub proof fn law_notifications_unanswered(
    req: JsonModel,
    version: Seq<char>,
    outcome: Result<JsonModel, Seq<char>>,
)
    requires
        req.get("id"@) is None,
    ensures
        !(message_move(req, version) is Reply),
        message_move(req, version) matches McpModel::Call(id, _, _) ==> tool_reply(
            id,
            outcome,
        ) is None,
{
}

/// A call of a tool asks for what the request of that name asks for; and it is
/// none only where the request is refused too, or where it lacks the code or the
/// navigation, which a request need not say, or is that to end the session.
#[verifier::rlimit(60)]
pub proof fn law_tools_are_requests(
    name: &str,
    args: &Json,
    t: Result<Call, String>,
    r: Result<Call, Refusal>,
)
    requires
        call_ensures(dispatch_tool, (name, args), t),
        call_ensures(read_request, (name, args), r),
    ensures
        t matches Ok(c) ==> r is Ok && r->Ok_0@ == c@,
        r is Err ==> t is Err,
        r is Ok && t is Err ==> {
            ||| name@ == "eval"@ && args@.text_at("code"@) is None
            ||| name@ == "report_outcome"@ && args@.text_at("navigation_id"@) is None
            ||| name@ == "close"@
        },
        name@ == "eval"@ && args@.text_at("code"@) is None ==> t is Err,
        name@ == "report_outcome"@ && args@.text_at("navigation_id"@) is None ==> t is Err,
        name@ == "close"@ ==> t is Err,
{
    lemma_methods_differ();
}

/// A call of a tool that is none says what it lacks.
#[verifier::rlimit(40)]
pub proof fn law_what_a_call_lacks(name: &str, args: &Json, r: Result<Call, String>)
    requires
        call_ensures(dispatch_tool, (name, args), r),
        r is Err,
    ensures
        name@ == "navigate"@ ==> r->Err_0@ == "missing 'url'"@,
        name@ == "query"@ || name@ == "extract_table"@ ==> r->Err_0@ == "missing 'selector'"@,
        name@ == "query_text"@ ==> r->Err_0@ == "missing 'text'"@,
        name@ == "extract_list"@ && args@.text_at("item_selector"@) is None ==> r->Err_0@
            == "missing 'item_selector'"@,
        name@ == "extract_list"@ && args@.text_at("item_selector"@) is Some ==> r->Err_0@
            == "missing 'fields'"@,
        name@ == "click"@ || name@ == "submit"@ ==> r->Err_0@ == "missing 'ref'"@,
        name@ == "type"@ && args@.text_at("ref"@) is None ==> r->Err_0@ == "missing 'ref'"@,
        name@ == "type"@ && args@.text_at("ref"@) is Some ==> r->Err_0@ == "missing 'text'"@,
        name@ == "eval"@ ==> r->Err_0@ == "missing 'code'"@,
        name@ == "cookies_set"@ ==> r->Err_0@ == "missing 'cookies'"@,
        name@ == "report_outcome"@ ==> r->Err_0@ == "missing 'navigation_id'"@,
        !is_tool(name@) ==> r->Err_0@ == "unknown tool: "@ + name@,
{
    lemma_methods_differ();
}

/// Whether a tool is told a thing, of the kind that it needs.
pub open spec fn is_told(args: JsonModel, key: Seq<char>) -> bool {
    if key == "cookies"@ {
        args.array_at(key) is Some
    } else if key == "fields"@ {
        args.get(key) is Some
    } else if key == "success"@ {
        true
    } else {
        args.text_at(key) is Some
    }
}

/// A tool has to be told exactly what its calls are none without.
#[verifier::rlimit(60)]
pub proof fn law_what_has_to_be_told(tool: int, args: JsonModel)
    requires
        0 <= tool < TOOLS.len(),
    ensures
        tool_call(TOOLS[tool].0@, args) is Ok <==> forall|n: int|
            0 <= n < REQUIRED.len() && (#[trigger] REQUIRED[n]).0 == tool ==> is_told(
                args,
                REQUIRED[n].1@,
            ),
{
    lemma_methods_differ();
    lemma_told_words();
    lemma_tool_names();
    lemma_required_words();
    let needs = forall|n: int|
        0 <= n < REQUIRED.len() && (#[trigger] REQUIRED[n]).0 == tool ==> is_told(
            args,
            REQUIRED[n].1@,
        );
    if needs {
        assert(forall|n: int| 0 <= n < 14 && (#[trigger] REQUIRED[n]).0 == tool ==> is_told(
            args,
            REQUIRED[n].1@,
        ));
        assert(REQUIRED[0].0 == tool ==> is_told(args, "url"@));
        assert(REQUIRED[1].0 == tool ==> is_told(args, "selector"@));
        assert(REQUIRED[2].0 == tool ==> is_told(args, "text"@));
        assert(REQUIRED[3].0 == tool ==> is_told(args, "selector"@));
        assert(REQUIRED[4].0 == tool ==> is_told(args, "item_selector"@));
        assert(REQUIRED[5].0 == tool ==> is_told(args, "fields"@));
        assert(REQUIRED[6].0 == tool ==> is_told(args, "ref"@));
        assert(REQUIRED[7].0 == tool ==> is_told(args, "ref"@));
        assert(REQUIRED[8].0 == tool ==> is_told(args, "text"@));
        assert(REQUIRED[9].0 == tool ==> is_told(args, "ref"@));
        assert(REQUIRED[10].0 == tool ==> is_told(args, "code"@));
        assert(REQUIRED[11].0 == tool ==> is_told(args, "cookies"@));
        assert(REQUIRED[12].0 == tool ==> is_told(args, "navigation_id"@));
        assert(REQUIRED[13].0 == tool ==> is_told(args, "success"@));
    }
    if tool_call(TOOLS[tool].0@, args) is Ok {
        assert forall|n: int| 0 <= n < REQUIRED.len() && (#[trigger] REQUIRED[n]).0 == tool implies is_told(
            args,
            REQUIRED[n].1@,
        ) by {
            assert(n == 0 || n == 1 || n == 2 || n == 3 || n == 4 || n == 5 || n == 6 || n == 7 || n == 8
                || n == 9 || n == 10 || n == 11 || n == 12 || n == 13);
        }
    }
}

proof fn lemma_required_words()
    ensures
        REQUIRED[0].0 == 0 && REQUIRED[0].1@ == "url"@,
        REQUIRED[1].0 == 1 && REQUIRED[1].1@ == "selector"@,
        REQUIRED[2].0 == 4 && REQUIRED[2].1@ == "text"@,
        REQUIRED[3].0 == 7 && REQUIRED[3].1@ == "selector"@,
        REQUIRED[4].0 == 8 && REQUIRED[4].1@ == "item_selector"@,
        REQUIRED[5].0 == 8 && REQUIRED[5].1@ == "fields"@,
        REQUIRED[6].0 == 10 && REQUIRED[6].1@ == "ref"@,
        REQUIRED[7].0 == 11 && REQUIRED[7].1@ == "ref"@,
        REQUIRED[8].0 == 11 && REQUIRED[8].1@ == "text"@,
        REQUIRED[9].0 == 12 && REQUIRED[9].1@ == "ref"@,
        REQUIRED[10].0 == 14 && REQUIRED[10].1@ == "code"@,
        REQUIRED[11].0 == 15 && REQUIRED[11].1@ == "cookies"@,
        REQUIRED[12].0 == 18 && REQUIRED[12].1@ == "navigation_id"@,
        REQUIRED[13].0 == 18 && REQUIRED[13].1@ == "success"@,
{
}

proof fn lemma_tool_names()
    ensures
        TOOLS[0].0@ == "navigate"@,
        TOOLS[1].0@ == "query"@,
        TOOLS[2].0@ == "text"@,
        TOOLS[3].0@ == "text_main"@,
        TOOLS[4].0@ == "query_text"@,
        TOOLS[5].0@ == "blockmap"@,
        TOOLS[6].0@ == "extract"@,
        TOOLS[7].0@ == "extract_table"@,
        TOOLS[8].0@ == "extract_list"@,
        TOOLS[9].0@ == "settle"@,
        TOOLS[10].0@ == "click"@,
        TOOLS[11].0@ == "type"@,
        TOOLS[12].0@ == "submit"@,
        TOOLS[13].0@ == "body"@,
        TOOLS[14].0@ == "eval"@,
        TOOLS[15].0@ == "cookies_set"@,
        TOOLS[16].0@ == "cookies_get"@,
        TOOLS[17].0@ == "cookies_clear"@,
        TOOLS[18].0@ == "report_outcome"@,
        TOOLS[19].0@ == "network_stores"@,
        TOOLS[20].0@ == "network_stores_clear"@,
{
}

proof fn lemma_told_words()
    ensures
        "url"@ != "cookies"@,
        "url"@ != "fields"@,
        "url"@ != "success"@,
        "selector"@ != "cookies"@,
        "selector"@ != "fields"@,
        "selector"@ != "success"@,
        "text"@ != "cookies"@,
        "text"@ != "fields"@,
        "text"@ != "success"@,
        "item_selector"@ != "cookies"@,
        "item_selector"@ != "fields"@,
        "item_selector"@ != "success"@,
        "ref"@ != "cookies"@,
        "ref"@ != "fields"@,
        "ref"@ != "success"@,
        "code"@ != "cookies"@,
        "code"@ != "fields"@,
        "code"@ != "success"@,
        "navigation_id"@ != "cookies"@,
        "navigation_id"@ != "fields"@,
        "navigation_id"@ != "success"@,
        "cookies"@ != "fields"@,
        "cookies"@ != "success"@,
        "fields"@ != "success"@,
{
    reveal_strlit("url");
    reveal_strlit("selector");
    reveal_strlit("text");
    reveal_strlit("item_selector");
    reveal_strlit("ref");
    reveal_strlit("code");
    reveal_strlit("navigation_id");
    reveal_strlit("cookies");
    reveal_strlit("fields");
    reveal_strlit("success");
    assert("url"@.len() == 3);
    assert("selector"@.len() == 8);
    assert("text"@.len() == 4);
    assert("item_selector"@.len() == 13);
    assert("ref"@.len() == 3);
    assert("code"@.len() == 4);
    assert("navigation_id"@.len() == 13);
    assert("cookies"@.len() == 7);
    assert("fields"@.len() == 6);
    assert("success"@.len() == 7);
    assert("cookies"@[0] != "success"@[0]);
}

/// Every tool is offered, with its name, what it is for and what it takes: all
/// that it is told, and what of that it has to be.
pub proof fn law_tools_are_offered(r: Json, tool: int)
    requires
        call_ensures(mcp_tools, (), r),
        0 <= tool < TOOLS.len(),
    ensures
        r@ is Array,
        r@->Array_0.len() == 21,
        ({
            let j = r@->Array_0[tool];
            let schema = j.get("inputSchema"@)->0;
            &&& j.text_at("name"@) == Some(TOOLS[tool].0@)
            &&& j.text_at("description"@) == Some(TOOLS[tool].1@)
            &&& j.get("inputSchema"@) is Some
            &&& schema.text_at("type"@) == Some("object"@)
            &&& schema.get("properties"@) == Some(
                JsonModel::Object(properties(tool, PARAMS.len() as int)),
            )
            &&& (forall|n: int| 0 <= n < REQUIRED.len() ==> (#[trigger] REQUIRED[n]).0 != tool)
                ==> schema.get("required"@) is None
            &&& (exists|n: int| 0 <= n < REQUIRED.len() && (#[trigger] REQUIRED[n]).0 == tool)
                ==> schema.get("required"@) == Some(
                JsonModel::Array(required(tool, REQUIRED.len() as int)),
            )
        }),
{
    reveal_strlit("name");
    reveal_strlit("description");
    reveal_strlit("inputSchema");
    reveal_strlit("type");
    reveal_strlit("properties");
    reveal_strlit("required");
    assert("name"@.len() == 4);
    assert("description"@.len() == 11);
    assert("inputSchema"@.len() == 11);
    assert("description"@[0] != "inputSchema"@[0]);
    assert("type"@.len() == 4);
    assert("properties"@.len() == 10);
    assert("required"@.len() == 8);
    let e = tool_json(tool)->Object_0;
    lemma_entry_at(e, "name"@, 0);
    lemma_entry_at(e, "description"@, 1);
    lemma_entry_at(e, "inputSchema"@, 2);
    let s = schema_json(tool)->Object_0;
    lemma_entry_at(s, "type"@, 0);
    lemma_entry_at(s, "properties"@, 1);
    let n = REQUIRED.len() as int;
    if required(tool, n).len() > 0 {
        lemma_entry_at(s, "required"@, 2);
        law_what_is_listed_as_needed(tool, n, JsonModel::Null);
        assert(required(tool, n).contains(required(tool, n)[0]));
    } else {
        crate::json::lemma_entry_skip(s, "required"@, 2);
        assert(s.skip(2) =~= Seq::empty());
        if exists|k: int| 0 <= k < n && (#[trigger] REQUIRED[k]).0 == tool {
            let k = choose|k: int| 0 <= k < n && (#[trigger] REQUIRED[k]).0 == tool;
            law_what_is_listed_as_needed(tool, n, JsonModel::Text(REQUIRED[k].1@));
        }
    }
    if required(tool, n).len() > 0 {
        let v = required(tool, n)[0];
        law_what_is_listed_as_needed(tool, n, v);
    }
}

/// What is listed as needed of a tool is what the list says of it.
pub proof fn law_what_is_listed_as_needed(tool: int, n: int, v: JsonModel)
    requires
        0 <= n <= REQUIRED.len(),
    ensures
        required(tool, n).contains(v) <==> exists|k: int|
            0 <= k < n && (#[trigger] REQUIRED[k]).0 == tool && v == JsonModel::Text(REQUIRED[k].1@),
    decreases n,
{
    if n > 0 {
        law_what_is_listed_as_needed(tool, n - 1, v);
        let (a, b) = (required(tool, n - 1), required(tool, n));
        if REQUIRED[n - 1].0 == tool {
            let last = JsonModel::Text(REQUIRED[n - 1].1@);
            assert(b == a.push(last));
            assert(b[a.len() as int] == last);
            if a.contains(v) {
                let i = choose|i: int| 0 <= i < a.len() && a[i] == v;
                assert(b[i] == v);
            }
            if b.contains(v) {
                let i = choose|i: int| 0 <= i < b.len() && b[i] == v;
                if i < a.len() {
                    assert(a[i] == v);
                }
            }
        }
    }
}

/// What a tool takes is what the list says of it, each under its name with its
/// type and what it means.
pub proof fn law_what_a_tool_takes(tool: int, n: int, v: (Seq<char>, JsonModel))
    requires
        0 <= n <= PARAMS.len(),
    ensures
        properties(tool, n).contains(v) <==> exists|k: int|
            0 <= k < n && (#[trigger] PARAMS[k]).0 == tool && v == (PARAMS[k].1@, param_json(k)),
    decreases n,
{
    if n > 0 {
        law_what_a_tool_takes(tool, n - 1, v);
        let (a, b) = (properties(tool, n - 1), properties(tool, n));
        if PARAMS[n - 1].0 == tool {
            let last = (PARAMS[n - 1].1@, param_json(n - 1));
            assert(b == a.push(last));
            assert(b[a.len() as int] == last);
            if a.contains(v) {
                let i = choose|i: int| 0 <= i < a.len() && a[i] == v;
                assert(b[i] == v);
            }
            if b.contains(v) {
                let i = choose|i: int| 0 <= i < b.len() && b[i] == v;
                if i < a.len() {
                    assert(a[i] == v);
                }
            }
        }
    }
}

/// A thing that a tool is told has a type and a meaning; a kind of task is one
/// of five, and a number that is bounded lies between 1 and 100.
pub proof fn law_what_is_said_of_a_parameter(i: int)
    requires
        0 <= i < PARAMS.len(),
    ensures
        param_json(i).text_at("type"@) == Some(PARAMS[i].2@),
        param_json(i).text_at("description"@) == Some(PARAMS[i].3@),
        PARAMS[i].4 == 1 ==> param_json(i).array_at("enum"@) == Some(
            seq![
                JsonModel::Text("extract"@),
                JsonModel::Text("query"@),
                JsonModel::Text("click"@),
                JsonModel::Text("form"@),
                JsonModel::Text("visual"@),
            ],
        ),
        PARAMS[i].4 == 2 ==> param_json(i).u64_at("minimum"@) == Some(1u64) && param_json(i).u64_at(
            "maximum"@,
        ) == Some(100u64),
{
    reveal_strlit("type");
    reveal_strlit("description");
    reveal_strlit("enum");
    reveal_strlit("minimum");
    reveal_strlit("maximum");
    assert("type"@.len() == 4);
    assert("description"@.len() == 11);
    assert("enum"@.len() == 4);
    assert("minimum"@.len() == 7);
    assert("maximum"@.len() == 7);
    assert("type"@[0] != "enum"@[0]);
    assert("minimum"@[1] != "maximum"@[1]);
    let e = param_json(i)->Object_0;
    lemma_entry_at(e, "type"@, 0);
    lemma_entry_at(e, "description"@, 1);
    if PARAMS[i].4 == 1 {
        lemma_entry_at(e, "enum"@, 2);
        assert(TASK_CLASSES[0]@ == "extract"@ && TASK_CLASSES[1]@ == "query"@ && TASK_CLASSES[2]@
            == "click"@ && TASK_CLASSES[3]@ == "form"@ && TASK_CLASSES[4]@ == "visual"@);
        assert(task_classes_json()->Array_0 =~= seq![
            JsonModel::Text("extract"@),
            JsonModel::Text("query"@),
            JsonModel::Text("click"@),
            JsonModel::Text("form"@),
            JsonModel::Text("visual"@),
        ]);
    } else if PARAMS[i].4 == 2 {
        lemma_entry_at(e, "minimum"@, 2);
        lemma_entry_at(e, "maximum"@, 3);
    }
}

/// An answer says which protocol it is of and what it answers, and holds either a
/// result or an error.
proof fn lemma_reply_fields(id: JsonModel, result: JsonModel, code: i64, words: Seq<char>)
    ensures
        reply_json(id, result).text_at("jsonrpc"@) == Some("2.0"@),
        reply_json(id, result).get("id"@) == Some(id),
        reply_json(id, result).get("result"@) == Some(result),
        reply_json(id, result).get("error"@) is None,
        reply_error_json(id, code, words).text_at("jsonrpc"@) == Some("2.0"@),
        reply_error_json(id, code, words).get("id"@) == Some(id),
        reply_error_json(id, code, words).get("result"@) is None,
        reply_error_json(id, code, words).get("error"@) is Some,
        reply_error_json(id, code, words).get("error"@)->0.get("code"@) == Some(
            JsonModel::Number(NumberModel::Negative(code)),
        ),
        reply_error_json(id, code, words).get("error"@)->0.text_at("message"@) == Some(words),
{
    reveal_strlit("jsonrpc");
    reveal_strlit("id");
    reveal_strlit("result");
    reveal_strlit("error");
    reveal_strlit("code");
    reveal_strlit("message");
    assert("jsonrpc"@.len() == 7);
    assert("id"@.len() == 2);
    assert("result"@.len() == 6);
    assert("error"@.len() == 5);
    assert("code"@.len() == 4);
    assert("message"@.len() == 7);
    let a = reply_json(id, result)->Object_0;
    lemma_entry_at(a, "jsonrpc"@, 0);
    lemma_entry_at(a, "id"@, 1);
    lemma_entry_at(a, "result"@, 2);
    crate::json::lemma_entry_skip(a, "error"@, 3);
    assert(a.skip(3) =~= Seq::empty());
    let b = reply_error_json(id, code, words)->Object_0;
    lemma_entry_at(b, "jsonrpc"@, 0);
    lemma_entry_at(b, "id"@, 1);
    lemma_entry_at(b, "error"@, 2);
    crate::json::lemma_entry_skip(b, "result"@, 3);
    assert(b.skip(3) =~= Seq::empty());
    let e = error_json(code, words)->Object_0;
    lemma_entry_at(e, "code"@, 0);
    lemma_entry_at(e, "message"@, 1);
}

/// What the server says of itself.
proof fn lemma_initialize_fields(version: Seq<char>)
    ensures
        initialize_json(version).text_at("protocolVersion"@) == Some("2025-06-18"@),
        initialize_json(version).get("capabilities"@) is Some,
        initialize_json(version).get("capabilities"@)->0.get("tools"@) == Some(
            JsonModel::Object(Seq::empty()),
        ),
        initialize_json(version).get("serverInfo"@) is Some,
        initialize_json(version).get("serverInfo"@)->0.text_at("name"@) == Some("unbrowser"@),
        initialize_json(version).get("serverInfo"@)->0.text_at("version"@) == Some(version),
{
    reveal_strlit("protocolVersion");
    reveal_strlit("capabilities");
    reveal_strlit("serverInfo");
    reveal_strlit("name");
    reveal_strlit("version");
    assert("protocolVersion"@.len() == 15);
    assert("capabilities"@.len() == 12);
    assert("serverInfo"@.len() == 10);
    assert("name"@.len() == 4);
    assert("version"@.len() == 7);
    let e = initialize_json(version)->Object_0;
    lemma_entry_at(e, "protocolVersion"@, 0);
    lemma_entry_at(e, "capabilities"@, 1);
    lemma_entry_at(e, "serverInfo"@, 2);
    lemma_entry_at(e[1].1->Object_0, "tools"@, 0);
    lemma_entry_at(e[2].1->Object_0, "name"@, 0);
    lemma_entry_at(e[2].1->Object_0, "version"@, 1);
}

/// The names of the messages differ.
proof fn lemma_messages_differ()
    ensures
        "initialize"@.len() == 10,
        "ping"@.len() == 4,
        "tools/list"@.len() == 10,
        "tools/call"@.len() == 10,
        "notifications/initialized"@.len() == 25,
        "notifications/cancelled"@.len() == 23,
        "initialize"@ != "tools/list"@,
        "initialize"@ != "tools/call"@,
        "tools/list"@ != "tools/call"@,
{
    reveal_strlit("initialize");
    reveal_strlit("ping");
    reveal_strlit("tools/list");
    reveal_strlit("tools/call");
    reveal_strlit("notifications/initialized");
    reveal_strlit("notifications/cancelled");
    assert("initialize"@[0] != "tools/list"@[0]);
    assert("initialize"@[0] != "tools/call"@[0]);
    assert("tools/list"@[6] != "tools/call"@[6]);
}

/// What follows on a message: nothing on a notification or on what has no id,
/// but for a call of a tool; on what has one, the answer to it, or an error if
/// it is not known.
#[verifier::rlimit(40)]
pub proof fn law_messages_are_answered(req: &Json, version: &str, r: McpMove)
    requires
        call_ensures(answer_message, (req, version), r),
    ensures
        ({
            let named = req@.text_at("method"@);
            let method = if named is Some {
                named->0
            } else {
                Seq::<char>::empty()
            };
            let id = req@.get("id"@);
            let params = req@.get("params"@);
            let called = method == "tools/call"@;
            let told = method == "notifications/initialized"@ || method
                == "notifications/cancelled"@;
            &&& r is Silent <==> told || (id is None && !called)
            &&& r is Call <==> called
            &&& r is Reply <==> !told && !called && id is Some
            &&& r@ matches McpModel::Call(i, name, args) ==> {
                &&& i == id
                &&& params is Some && params->0.text_at("name"@) is Some ==> Some(name)
                    == params->0.text_at("name"@)
                &&& params is None || params->0.text_at("name"@) is None ==> name == Seq::<
                    char,
                >::empty()
                &&& params is Some && params->0.get("arguments"@) is Some ==> Some(args)
                    == params->0.get("arguments"@)
                &&& params is None || params->0.get("arguments"@) is None ==> args
                    == JsonModel::Null
            }
            &&& r@ matches McpModel::Reply(j) ==> {
                let result = j.get("result"@);
                &&& j.text_at("jsonrpc"@) == Some("2.0"@)
                &&& j.get("id"@) == id
                &&& method == "initialize"@ ==> result is Some && result->0.text_at(
                    "protocolVersion"@,
                ) == Some("2025-06-18"@) && result->0.get("capabilities"@)->0.get("tools"@)
                    == Some(JsonModel::Object(Seq::empty())) && result->0.get(
                    "serverInfo"@,
                )->0.text_at("name"@) == Some("unbrowser"@) && result->0.get(
                    "serverInfo"@,
                )->0.text_at("version"@) == Some(version@)
                &&& method == "ping"@ ==> result == Some(JsonModel::Object(Seq::empty()))
                &&& method == "tools/list"@ ==> result is Some && result->0.get("tools"@) == Some(
                    tools_json(),
                )
                &&& method != "initialize"@ && method != "ping"@ && method != "tools/list"@ ==> {
                    &&& result is None
                    &&& j.get("error"@) is Some
                    &&& j.get("error"@)->0.get("code"@) == Some(
                        JsonModel::Number(NumberModel::Negative((-32601) as i64)),
                    )
                    &&& j.get("error"@)->0.text_at("message"@) == Some(
                        "method not found: "@ + method,
                    )
                }
            }
        }),
{
    reveal_strlit("");
    assert(""@ =~= Seq::<char>::empty());
    lemma_messages_differ();
    lemma_initialize_fields(version@);
    let method = text_or(req@, "method"@, ""@);
    if let Some(i) = req@.get("id"@) {
        let result = match direct_result(method, version@) {
            Some(v) => v,
            None => JsonModel::Null,
        };
        lemma_reply_fields(i, result, (-32601) as i64, "method not found: "@ + method);
        lemma_entry_at(seq![("tools"@, tools_json())], "tools"@, 0);
    }
    let params = value_or_null(req@.get("params"@));
    lemma_null_holds_nothing("name"@);
    lemma_null_holds_nothing("arguments"@);
}

proof fn lemma_null_holds_nothing(key: Seq<char>)
    ensures
        JsonModel::Null.get(key) is None,
        JsonModel::Null.text_at(key) is None,
{
}

/// A line is answered as the message that it holds, or with an error where it is
/// no JSON text.
pub proof fn law_lines_are_answered(line: &str, version: &str, r: McpMove, req: &Json, m: McpMove)
    requires
        call_ensures(answer_line, (line, version), r),
        call_ensures(answer_message, (req, version), m),
    ensures
        json_parsed(line@) matches Ok(j) ==> j == req@ ==> r@ == m@,
        json_parsed(line@) matches Err(e) ==> {
            &&& r@ is Reply
            &&& r@->Reply_0.text_at("jsonrpc"@) == Some("2.0"@)
            &&& r@->Reply_0.get("id"@) == Some(JsonModel::Null)
            &&& r@->Reply_0.get("error"@) is Some
            &&& r@->Reply_0.get("error"@)->0.get("code"@) == Some(
                JsonModel::Number(NumberModel::Negative((-32700) as i64)),
            )
            &&& r@->Reply_0.get("error"@)->0.text_at("message"@) == Some("parse error: "@ + e)
        },
{
    if let Err(e) = json_parsed(line@) {
        lemma_reply_fields(JsonModel::Null, JsonModel::Null, (-32700) as i64, "parse error: "@ + e);
    }
}

/// A call of a tool is answered, if it has an id, with one text: what came of it,
/// or that it failed and why.
pub proof fn law_tools_are_answered(
    id: &Option<Json>,
    outcome: &Result<Json, String>,
    r: Option<Json>,
)
    requires
        call_ensures(answer_call, (id, outcome), r),
    ensures
        r is Some <==> *id is Some,
        r matches Some(j) ==> {
            let result = j@.get("result"@)->0;
            let content = result.array_at("content"@)->0;
            &&& j@.text_at("jsonrpc"@) == Some("2.0"@)
            &&& j@.get("id"@) == Some(id->0@)
            &&& j@.get("result"@) is Some
            &&& result.bool_at("isError"@) == Some(*outcome is Err)
            &&& result.array_at("content"@) is Some
            &&& content.len() == 1
            &&& content[0].text_at("type"@) == Some("text"@)
            &&& *outcome matches Ok(v) ==> content[0].text_at("text"@) == Some(
                json_printed_pretty(with_map_entries(v@)),
            )
            &&& *outcome matches Err(e) ==> content[0].text_at("text"@) == Some("Error: "@ + e@)
        },
{
    if let Some(i) = *id {
        let (text, wrong) = match *outcome {
            Ok(v) => (json_printed_pretty(with_map_entries(v@)), false),
            Err(e) => ("Error: "@ + e@, true),
        };
        let result = content_json(text, wrong);
        lemma_reply_fields(i@, result, (-1) as i64, ""@);
        reveal_strlit("content");
        reveal_strlit("isError");
        reveal_strlit("type");
        reveal_strlit("text");
        assert("content"@.len() == 7);
        assert("isError"@.len() == 7);
        assert("type"@.len() == 4);
        assert("text"@.len() == 4);
        assert("content"@[0] != "isError"@[0]);
        assert("type"@[1] != "text"@[1]);
        let e = result->Object_0;
        lemma_entry_at(e, "content"@, 0);
        lemma_entry_at(e, "isError"@, 1);
        let item = e[0].1->Array_0[0]->Object_0;
        lemma_entry_at(item, "type"@, 0);
        lemma_entry_at(item, "text"@, 1);
    }
}

/// What the tools are told: which thing each is, of which tool, and of what type.
pub proof fn law_what_the_tools_are_told()
    ensures
        PARAMS.len() == 31,
        PARAMS[0].0 == 0 && PARAMS[0].1@ == "url"@ && PARAMS[0].2@ == "string"@ && PARAMS[0].4 == 0,
        PARAMS[1].0 == 0 && PARAMS[1].1@ == "exec_scripts"@ && PARAMS[1].2@ == "boolean"@ && PARAMS[1].4 == 0,
        PARAMS[2].0 == 1 && PARAMS[2].1@ == "selector"@ && PARAMS[2].2@ == "string"@ && PARAMS[2].4 == 0,
        PARAMS[3].0 == 2 && PARAMS[3].1@ == "selector"@ && PARAMS[3].2@ == "string"@ && PARAMS[3].4 == 0,
        PARAMS[4].0 == 4 && PARAMS[4].1@ == "text"@ && PARAMS[4].2@ == "string"@ && PARAMS[4].4 == 0,
        PARAMS[5].0 == 4 && PARAMS[5].1@ == "selector"@ && PARAMS[5].2@ == "string"@ && PARAMS[5].4 == 0,
        PARAMS[6].0 == 4 && PARAMS[6].1@ == "exact"@ && PARAMS[6].2@ == "boolean"@ && PARAMS[6].4 == 0,
        PARAMS[7].0 == 4 && PARAMS[7].1@ == "limit"@ && PARAMS[7].2@ == "integer"@ && PARAMS[7].4 == 0,
        PARAMS[8].0 == 6 && PARAMS[8].1@ == "strategy"@ && PARAMS[8].2@ == "string"@ && PARAMS[8].4 == 0,
        PARAMS[9].0 == 7 && PARAMS[9].1@ == "selector"@ && PARAMS[9].2@ == "string"@ && PARAMS[9].4 == 0,
        PARAMS[10].0 == 8 && PARAMS[10].1@ == "item_selector"@ && PARAMS[10].2@ == "string"@ && PARAMS[10].4 == 0,
        PARAMS[11].0 == 8 && PARAMS[11].1@ == "fields"@ && PARAMS[11].2@ == "object"@ && PARAMS[11].4 == 0,
        PARAMS[12].0 == 8 && PARAMS[12].1@ == "limit"@ && PARAMS[12].2@ == "integer"@ && PARAMS[12].4 == 0,
        PARAMS[13].0 == 9 && PARAMS[13].1@ == "max_ms"@ && PARAMS[13].2@ == "integer"@ && PARAMS[13].4 == 0,
        PARAMS[14].0 == 9 && PARAMS[14].1@ == "max_iters"@ && PARAMS[14].2@ == "integer"@ && PARAMS[14].4 == 0,
        PARAMS[15].0 == 10 && PARAMS[15].1@ == "ref"@ && PARAMS[15].2@ == "string"@ && PARAMS[15].4 == 0,
        PARAMS[16].0 == 11 && PARAMS[16].1@ == "ref"@ && PARAMS[16].2@ == "string"@ && PARAMS[16].4 == 0,
        PARAMS[17].0 == 11 && PARAMS[17].1@ == "text"@ && PARAMS[17].2@ == "string"@ && PARAMS[17].4 == 0,
        PARAMS[18].0 == 12 && PARAMS[18].1@ == "ref"@ && PARAMS[18].2@ == "string"@ && PARAMS[18].4 == 0,
        PARAMS[19].0 == 14 && PARAMS[19].1@ == "code"@ && PARAMS[19].2@ == "string"@ && PARAMS[19].4 == 0,
        PARAMS[20].0 == 15 && PARAMS[20].1@ == "cookies"@ && PARAMS[20].2@ == "array"@ && PARAMS[20].4 == 0,
        PARAMS[21].0 == 15 && PARAMS[21].1@ == "url"@ && PARAMS[21].2@ == "string"@ && PARAMS[21].4 == 0,
        PARAMS[22].0 == 18 && PARAMS[22].1@ == "navigation_id"@ && PARAMS[22].2@ == "string"@ && PARAMS[22].4 == 0,
        PARAMS[23].0 == 18 && PARAMS[23].1@ == "task_id"@ && PARAMS[23].2@ == "string"@ && PARAMS[23].4 == 0,
        PARAMS[24].0 == 18 && PARAMS[24].1@ == "task_class"@ && PARAMS[24].2@ == "string"@ && PARAMS[24].4 == 1,
        PARAMS[25].0 == 18 && PARAMS[25].1@ == "success"@ && PARAMS[25].2@ == "boolean"@ && PARAMS[25].4 == 0,
        PARAMS[26].0 == 18 && PARAMS[26].1@ == "quality"@ && PARAMS[26].2@ == "number"@ && PARAMS[26].4 == 0,
        PARAMS[27].0 == 18 && PARAMS[27].1@ == "error"@ && PARAMS[27].2@ == "string"@ && PARAMS[27].4 == 0,
        PARAMS[28].0 == 19 && PARAMS[28].1@ == "limit"@ && PARAMS[28].2@ == "integer"@ && PARAMS[28].4 == 2,
        PARAMS[29].0 == 19 && PARAMS[29].1@ == "host"@ && PARAMS[29].2@ == "string"@ && PARAMS[29].4 == 0,
        PARAMS[30].0 == 19 && PARAMS[30].1@ == "nav_id"@ && PARAMS[30].2@ == "string"@ && PARAMS[30].4 == 0,
{
}

/// What a tool has to be told is among what it is told.
pub proof fn law_what_is_needed_is_taken(n: int)
    requires
        0 <= n < REQUIRED.len(),
    ensures
        exists|k: int|
            0 <= k < PARAMS.len() && (#[trigger] PARAMS[k]).0 == REQUIRED[n].0 && PARAMS[k].1@
                == REQUIRED[n].1@,
{
    law_what_the_tools_are_told();
    lemma_required_words();
    assert(n == 0 || n == 1 || n == 2 || n == 3 || n == 4 || n == 5 || n == 6 || n == 7 || n == 8
        || n == 9 || n == 10 || n == 11 || n == 12 || n == 13);
    assert(PARAMS[0].0 == REQUIRED[0].0 && PARAMS[0].1@ == REQUIRED[0].1@);
    assert(PARAMS[2].0 == REQUIRED[1].0 && PARAMS[2].1@ == REQUIRED[1].1@);
    assert(PARAMS[4].0 == REQUIRED[2].0 && PARAMS[4].1@ == REQUIRED[2].1@);
    assert(PARAMS[9].0 == REQUIRED[3].0 && PARAMS[9].1@ == REQUIRED[3].1@);
    assert(PARAMS[10].0 == REQUIRED[4].0 && PARAMS[10].1@ == REQUIRED[4].1@);
    assert(PARAMS[11].0 == REQUIRED[5].0 && PARAMS[11].1@ == REQUIRED[5].1@);
    assert(PARAMS[15].0 == REQUIRED[6].0 && PARAMS[15].1@ == REQUIRED[6].1@);
    assert(PARAMS[16].0 == REQUIRED[7].0 && PARAMS[16].1@ == REQUIRED[7].1@);
    assert(PARAMS[17].0 == REQUIRED[8].0 && PARAMS[17].1@ == REQUIRED[8].1@);
    assert(PARAMS[18].0 == REQUIRED[9].0 && PARAMS[18].1@ == REQUIRED[9].1@);
    assert(PARAMS[19].0 == REQUIRED[10].0 && PARAMS[19].1@ == REQUIRED[10].1@);
    assert(PARAMS[20].0 == REQUIRED[11].0 && PARAMS[20].1@ == REQUIRED[11].1@);
    assert(PARAMS[22].0 == REQUIRED[12].0 && PARAMS[22].1@ == REQUIRED[12].1@);
    assert(PARAMS[25].0 == REQUIRED[13].0 && PARAMS[25].1@ == REQUIRED[13].1@);
}

} // verus!

//! The code that is run in a page.
//!
//! A page is asked and changed by JavaScript. Texts that come from a driver go
//! into that code as JSON string literals.
use vstd::prelude::*;

use crate::bytecode_cache::borrowed_model;
use crate::json::{
    json_literal, json_parsed, json_printed, parse_json, print_json, quote, with_map_entries, Json,
    JsonModel,
};
use crate::text::{concat3, decimal, to_decimal};
use crate::urls::option_model;

verus! {

/// The code that maps the blocks of a page.
pub const BLOCKMAP: &'static str = "__blockmap()";

/// The code that tells a page that it is there.
pub const FIRE_READY: &'static str = "typeof __fireDOMContentLoaded === 'function' && __fireDOMContentLoaded()";

/// The code that tells a page that all of it is loaded.
pub const FIRE_LOAD: &'static str = "typeof __fireLoad === 'function' && __fireLoad()";

/// The code that fires the timers that are due, and counts them.
pub const PUMP_TIMERS: &'static str = "__pumpTimers()";

/// The code that resolves the fetches that came back, and counts them.
pub const POLL_FETCHES: &'static str = "__pollFetches()";

/// The code that counts the timers.
pub const PENDING_TIMERS: &'static str = "__pendingTimers()";

/// The code that counts the fetches in flight.
pub const PENDING_FETCHES: &'static str = "__pendingFetches()";

/// The code that says when the first timer is due.
pub const NEXT_TIMER: &'static str = "__nextTimerDeadline()";

/// The code that describes the elements of a selector, before the selector.
pub const QUERY_HEAD: &'static str = "(function(){ var els = document.querySelectorAll(";

/// The code that describes the elements of a selector, after the selector.
pub const QUERY_TAIL: &'static str = "); return els.map(function(e){ return { ref: 'e:' + e._id, tag: e.tagName.toLowerCase(), attrs: e._attributes, text: (e.textContent || '').trim().slice(0, 200) }; }); })()";

/// The code that reads the text of an element, before the selector.
pub const TEXT_HEAD: &'static str = "(function(){ var el = document.querySelector(";

/// The code that reads the text of an element, after the selector.
pub const TEXT_TAIL: &'static str = "); return el ? (el.textContent || '').trim() : null; })()";

/// The code that finds elements by their text, before the text.
pub const FIND_HEAD: &'static str = r#"(function(){
                var needle = "#;

/// The same, between the text and the selector.
pub const FIND_SELECTOR: &'static str = r#";
                var sel = "#;

/// The same, between the selector and whether the text is the whole.
pub const FIND_EXACT: &'static str = r#";
                var exact = "#;

/// The same, between that and how many elements are wanted.
pub const FIND_LIMIT: &'static str = r#";
                var limit = "#;

/// The same, after how many elements are wanted.
pub const FIND_TAIL: &'static str = r#";
                var lowerNeedle = needle.toLowerCase();
                function clean(s) { return (s || '').replace(/\s+/g, ' ').trim(); }
                function isChromeTag(t) {
                    return t === 'header' || t === 'nav' || t === 'footer' ||
                           t === 'aside' || t === 'script' || t === 'style' ||
                           t === 'noscript';
                }
                // Pre-filter (descent gate): always substring — we need to
                // recurse if any descendant might match, regardless of mode.
                function contains(t) {
                    return clean(t).toLowerCase().indexOf(lowerNeedle) !== -1;
                }
                // Final match test (decides whether to push this node):
                // exact requires equality, otherwise substring is enough.
                function isMatch(t) {
                    var c = clean(t);
                    return exact ? (c === needle) : (c.toLowerCase().indexOf(lowerNeedle) !== -1);
                }
                var hits = [];
                function visit(node) {
                    if (hits.length >= limit) return;
                    if (!node || node.nodeType !== 1) return;
                    var tag = node.tagName.toLowerCase();
                    if (isChromeTag(tag)) return;
                    var text = node.textContent || '';
                    if (!contains(text)) return;
                    var beforeCount = hits.length;
                    for (var i = 0; i < node.childNodes.length; i++) {
                        visit(node.childNodes[i]);
                        if (hits.length >= limit) return;
                    }
                    if (hits.length === beforeCount && isMatch(text)) {
                        var target = node;
                        if (node.parentNode && node.parentNode.tagName === 'A' &&
                            ['SPAN','STRONG','EM','B','I','SMALL','MARK'].indexOf(node.tagName) !== -1) {
                            target = node.parentNode;
                        }
                        hits.push(target);
                    }
                }
                var roots;
                if (sel) {
                    var nodeList = document.querySelectorAll(sel);
                    roots = [];
                    for (var i = 0; i < nodeList.length; i++) roots.push(nodeList[i]);
                } else {
                    roots = [document.body];
                }
                for (var i = 0; i < roots.length; i++) visit(roots[i]);
                return hits.map(function(el) {
                    return {
                        ref: 'e:' + el._id,
                        tag: el.tagName.toLowerCase(),
                        attrs: el._attributes,
                        text: clean(el.textContent).slice(0, 200),
                    };
                });
            })()"#;

/// The code that reads the text of the main part of a page.
pub const TEXT_MAIN: &'static str = r#"(function(){
            function clean(s){ return (s || '').replace(/\s+/g, ' ').trim(); }
            // Walk subtree, concatenate text, skipping chrome tags.
            function nonChromeText(root){
                var out = [];
                (function walk(node){
                    if (!node) return;
                    if (node.nodeType === 3) {
                        out.push(node.textContent);
                        return;
                    }
                    if (node.nodeType !== 1) return;
                    var t = (node.tagName || '').toLowerCase();
                    if (t === 'script' || t === 'style' ||
                        t === 'header' || t === 'nav' ||
                        t === 'footer' || t === 'aside' ||
                        t === 'noscript') return;
                    for (var i = 0; i < node.childNodes.length; i++) walk(node.childNodes[i]);
                })(root);
                return clean(out.join(' '));
            }

            var main = document.querySelector('main, [role="main"]');
            if (main) {
                var t = nonChromeText(main);
                if (t.length > 0) return t;
            }
            var articles = document.querySelectorAll('article');
            if (articles.length === 1) {
                var t = nonChromeText(articles[0]);
                if (t.length > 0) return t;
            }
            return nonChromeText(document.body);
        })()"#;

/// The code that describes the elements of a selector.
pub fn query_code(selector: &str) -> (r: String)
    ensures
        r@ == QUERY_HEAD@ + json_literal(selector@) + QUERY_TAIL@,
{
    concat3(QUERY_HEAD, quote(selector).as_str(), QUERY_TAIL)
}

/// The code that reads the text of the first element of a selector.
pub fn text_code(selector: &str) -> (r: String)
    ensures
        r@ == TEXT_HEAD@ + json_literal(selector@) + TEXT_TAIL@,
{
    concat3(TEXT_HEAD, quote(selector).as_str(), TEXT_TAIL)
}

/// A truth value in JavaScript.
pub open spec fn truth(b: bool) -> Seq<char> {
    if b {
        "true"@
    } else {
        "false"@
    }
}

/// A text that may be missing in JavaScript.
pub open spec fn literal_or_null(s: Option<Seq<char>>) -> Seq<char> {
    match s {
        Some(t) => json_literal(t),
        None => "null"@,
    }
}

/// The code that finds elements by their text: within the elements of a
/// selector or in the whole page, by the whole text or a part of it, and at
/// most so many.
pub fn query_text_code(text: &str, selector: Option<&str>, exact: bool, limit: u32) -> (r: String)
    ensures
        r@ == FIND_HEAD@ + json_literal(text@) + FIND_SELECTOR@ + literal_or_null(
            borrowed_model(selector),
        ) + FIND_EXACT@ + truth(exact) + FIND_LIMIT@ + decimal(limit as nat) + FIND_TAIL@,
{
    let mut s = FIND_HEAD.to_owned();
    s.append(quote(text).as_str());
    s.append(FIND_SELECTOR);
    match selector {
        Some(sel) => s.append(quote(sel).as_str()),
        None => s.append("null"),
    }
    s.append(FIND_EXACT);
    s.append(if exact {
        "true"
    } else {
        "false"
    });
    s.append(FIND_LIMIT);
    s.append(to_decimal(limit as u64).as_str());
    s.append(FIND_TAIL);
    s
}

/// The code that reads the text of the main part of a page.
pub fn text_main_code() -> (r: &'static str)
    ensures
        r@ == TEXT_MAIN@,
{
    TEXT_MAIN
}

/// The code that extracts the data of a page, in the way that is asked for or
/// in the best that works.
pub fn extract_code(strategy: Option<&str>) -> (r: String)
    ensures
        r@ == (match borrowed_model(strategy) {
            Some(s) => "__extract("@ + ("{ strategy: "@ + json_literal(s) + " }"@) + ")"@,
            None => "__extract("@ + "{}"@ + ")"@,
        }),
{
    let opts = match strategy {
        Some(s) => concat3("{ strategy: ", quote(s).as_str(), " }"),
        None => "{}".to_owned(),
    };
    concat3("__extract(", opts.as_str(), ")")
}

/// The code that reads a table.
pub fn extract_table_code(selector: &str) -> (r: String)
    ensures
        r@ == "__extractTable("@ + json_literal(selector@) + ")"@,
{
    concat3("__extractTable(", quote(selector).as_str(), ")")
}

/// The code that reads a list of things that look alike.
pub fn extract_list_code(item: &str, fields: &Json, limit: u32) -> (r: String)
    ensures
        r@ == "__extractList("@ + json_literal(item@) + ", "@ + json_printed(
            with_map_entries(fields@),
        ) + ", "@ + decimal(limit as nat) + ")"@,
{
    let mut s = "__extractList(".to_owned();
    s.append(quote(item).as_str());
    s.append(", ");
    s.append(print_json(fields).as_str());
    s.append(", ");
    s.append(to_decimal(limit as u64).as_str());
    s.append(")");
    s
}

/// The code that makes a tree the page.
pub fn seed_dom_code(tree: &Json) -> (r: String)
    ensures
        r@ == "__seedDOM(JSON.parse("@ + json_literal(json_printed(with_map_entries(tree@)))
            + "))"@,
{
    concat3("__seedDOM(JSON.parse(", quote(print_json(tree).as_str()).as_str(), "))")
}

/// The code that tells a page where it is.
pub fn set_location_code(url: &str) -> (r: String)
    ensures
        r@ == "__setLocation("@ + json_literal(url@) + ")"@,
{
    concat3("__setLocation(", quote(url).as_str(), ")")
}

/// The code that loads a module, with what it imports.
pub fn load_module_code(source: &str, url: &str) -> (r: String)
    ensures
        r@ == "__loadModule("@ + json_literal(source@) + ", "@ + json_literal(url@) + ")"@,
{
    let mut s = concat3("__loadModule(", quote(source).as_str(), ", ");
    s.append(quote(url).as_str());
    s.append(")");
    s
}

/// The code that clicks on an element.
pub fn click_code(reference: &str) -> (r: String)
    ensures
        r@ == "__click("@ + json_literal(reference@) + ")"@,
{
    concat3("__click(", quote(reference).as_str(), ")")
}

/// The code that types a text into an element.
pub fn type_code(reference: &str, text: &str) -> (r: String)
    ensures
        r@ == "__type("@ + json_literal(reference@) + ", "@ + json_literal(text@) + ")"@,
{
    let mut s = concat3("__type(", quote(reference).as_str(), ", ");
    s.append(quote(text).as_str());
    s.append(")");
    s
}

/// The code that reads out a form.
pub fn form_data_code(reference: &str) -> (r: String)
    ensures
        r@ == "__formData("@ + json_literal(reference@) + ")"@,
{
    concat3("__formData(", quote(reference).as_str(), ")")
}

/// What the page answered, by the text that its `JSON.stringify` made of it:
/// null where it made none, and the text itself where that is no JSON text.
pub fn page_answer(text: Option<String>) -> (r: Json)
    ensures
        r@ == (match option_model(text) {
            None => JsonModel::Null,
            Some(s) => match json_parsed(s) {
                Ok(j) => j,
                Err(_) => JsonModel::Text(s),
            },
        }),
{
    match text {
        None => Json::Null,
        Some(s) => match parse_json(s.as_str()) {
            Ok(j) => j,
            Err(_) => Json::Text(s),
        },
    }
}

// ---------------------------------------------------------------------
// What holds of the code
// ---------------------------------------------------------------------

/// Where a driver names an element, the code calls the function for what is to
/// be done with the reference as a literal.
pub proof fn law_code_on_an_element(
    reference: &str,
    text: &str,
    click: String,
    typing: String,
    form: String,
)
    requires
        call_ensures(click_code, (reference,), click),
        call_ensures(type_code, (reference, text), typing),
        call_ensures(form_data_code, (reference,), form),
    ensures
        click@ == "__click("@ + json_literal(reference@) + ")"@,
        typing@ == "__type("@ + json_literal(reference@) + ", "@ + json_literal(text@) + ")"@,
        form@ == "__formData("@ + json_literal(reference@) + ")"@,
{
}

/// The code that makes a page hands over the tree, the place and the modules as
/// literals.
pub proof fn law_code_that_makes_a_page(
    tree: &Json,
    url: &str,
    source: &str,
    seed: String,
    place: String,
    module: String,
)
    requires
        call_ensures(seed_dom_code, (tree,), seed),
        call_ensures(set_location_code, (url,), place),
        call_ensures(load_module_code, (source, url), module),
    ensures
        seed@ == "__seedDOM(JSON.parse("@ + json_literal(json_printed(with_map_entries(tree@)))
            + "))"@,
        place@ == "__setLocation("@ + json_literal(url@) + ")"@,
        module@ == "__loadModule("@ + json_literal(source@) + ", "@ + json_literal(url@) + ")"@,
{
}

/// The code that reads a page hands over what is asked for: the selector, the
/// parts and the number, or the way where one is asked for.
pub proof fn law_code_that_reads_a_page(
    selector: &str,
    fields: &Json,
    limit: u32,
    strategy: Option<&str>,
    table: String,
    list: String,
    data: String,
)
    requires
        call_ensures(extract_table_code, (selector,), table),
        call_ensures(extract_list_code, (selector, fields, limit), list),
        call_ensures(extract_code, (strategy,), data),
    ensures
        table@ == "__extractTable("@ + json_literal(selector@) + ")"@,
        list@ == "__extractList("@ + json_literal(selector@) + ", "@ + json_printed(
            with_map_entries(fields@),
        ) + ", "@ + decimal(limit as nat) + ")"@,
        strategy is None ==> data@ == "__extract({})"@,
        strategy matches Some(s) ==> data@ == "__extract({ strategy: "@ + json_literal(s@) + " })"@,
{
    reveal_strlit("__extract(");
    reveal_strlit("{}");
    reveal_strlit(")");
    reveal_strlit("__extract({})");
    assert("__extract("@ + "{}"@ + ")"@ =~= "__extract({})"@);
    reveal_strlit("{ strategy: ");
    reveal_strlit(" }");
    reveal_strlit("__extract({ strategy: ");
    reveal_strlit(" })");
    assert("__extract("@ + "{ strategy: "@ =~= "__extract({ strategy: "@);
    assert(" }"@ + ")"@ =~= " })"@);
    if let Some(s) = strategy {
        let l = json_literal(s@);
        assert(data@ =~= ("__extract("@ + "{ strategy: "@) + l + (" }"@ + ")"@));
    }
}

/// The code that finds elements holds the selector, and the one that finds them
/// by their text what is asked for, each as a literal between what stands there
/// always.
pub proof fn law_code_that_finds_elements(
    selector: &str,
    within: Option<&str>,
    exact: bool,
    limit: u32,
    query: String,
    text: String,
    find: String,
)
    requires
        call_ensures(query_code, (selector,), query),
        call_ensures(text_code, (selector,), text),
        call_ensures(query_text_code, (selector, within, exact, limit), find),
    ensures
        query@ == QUERY_HEAD@ + json_literal(selector@) + QUERY_TAIL@,
        text@ == TEXT_HEAD@ + json_literal(selector@) + TEXT_TAIL@,
        find@ == FIND_HEAD@ + json_literal(selector@) + FIND_SELECTOR@ + (if within is Some {
            json_literal(within->0@)
        } else {
            "null"@
        }) + FIND_EXACT@ + (if exact {
            "true"@
        } else {
            "false"@
        }) + FIND_LIMIT@ + decimal(limit as nat) + FIND_TAIL@,
{
}

/// What a page answers is the value that its text stands for; what stands for
/// none is the text itself, and where there is no text it is null.
pub proof fn law_what_a_page_answers(text: Option<String>, r: Json)
    requires
        call_ensures(page_answer, (text,), r),
    ensures
        text is None ==> r@ == JsonModel::Null,
        text matches Some(s) ==> json_parsed(s@) is Ok ==> r@ == json_parsed(s@)->Ok_0,
        text matches Some(s) ==> json_parsed(s@) is Err ==> r@ == JsonModel::Text(s@),
{
}

} // verus!

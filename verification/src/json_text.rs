//! JSON text, read with every entry of its objects.
//!
//! A map keeps one value for a key, so that a reader that goes through one does
//! not see that a key was given twice. Here the text of an array or an object
//! is parted where its brackets, commas and colons stand, and what is neither
//! is read by itself. So a number that is out of range, or a text that is no
//! Unicode, spoils no more than its own place.
use vstd::prelude::*;

use crate::json::{
    array, entries_model, escaped, escaped_text, is_exact, is_leaf, is_text_of, items_model,
    json_literal, json_parsed, json_printed, lemma_control_digits, lemma_entries_push,
    lemma_items_push, nests, no_entries, object, parse_json, parts_read_back, printed_entries,
    printed_items, Json, JsonModel, NumberModel,
};
use crate::text::{
    chars_of, contains_text, decimal, is_digit, lemma_decimal_value, occurs_at, text_of,
};
use crate::urls::option_model;

verus! {

// ---------------------------------------------------------------------
// Where values end
// ---------------------------------------------------------------------

/// Whether a character is white space in JSON.
pub open spec fn is_blank(c: char) -> bool {
    c == ' ' || c == '\n' || c == '\r' || c == '\t'
}

/// The first place from `i` on without white space.
pub open spec fn blank_end(t: Seq<char>, i: int) -> int
    decreases t.len() - i,
{
    if 0 <= i < t.len() && is_blank(t[i]) {
        blank_end(t, i + 1)
    } else {
        i
    }
}

/// Where a string literal ends whose quote stands before `i`: at the first
/// quote that no backslash stands before.
pub open spec fn literal_end(code: Seq<char>, i: int) -> Option<int>
    decreases code.len() - i,
{
    if i < 0 || i >= code.len() {
        None
    } else if code[i] == '"' {
        Some(i)
    } else if code[i] == '\\' {
        if i + 1 < code.len() {
            literal_end(code, i + 2)
        } else {
            None
        }
    } else {
        literal_end(code, i + 1)
    }
}

/// Where the bracket stands that closes the last of `depth` that are open at
/// `i`. Brackets in string literals do not count.
pub open spec fn bracket_end(t: Seq<char>, i: int, depth: nat) -> Option<int>
    decreases t.len() - i,
{
    if i < 0 || i >= t.len() {
        None
    } else if t[i] == '"' {
        match literal_end(t, i + 1) {
            Some(e) => if i < e < t.len() {
                bracket_end(t, e + 1, depth)
            } else {
                None
            },
            None => None,
        }
    } else if t[i] == '[' || t[i] == '{' {
        bracket_end(t, i + 1, depth + 1)
    } else if t[i] == ']' || t[i] == '}' {
        if depth <= 1 {
            Some(i)
        } else {
            bracket_end(t, i + 1, (depth - 1) as nat)
        }
    } else {
        bracket_end(t, i + 1, depth)
    }
}

/// Whether a character cannot stand in a number, a truth value or null.
pub open spec fn is_mark(c: char) -> bool {
    is_blank(c) || c == ',' || c == ':' || c == ']' || c == '}' || c == '[' || c == '{' || c == '"'
}

/// Where a number, a truth value or null ends that stands at `i`.
pub open spec fn word_end(t: Seq<char>, i: int) -> int
    decreases t.len() - i,
{
    if 0 <= i < t.len() && !is_mark(t[i]) {
        word_end(t, i + 1)
    } else {
        i
    }
}

/// Where the value that stands at `i` ends; nothing where none does.
pub open spec fn value_end(t: Seq<char>, i: int) -> Option<int> {
    if i < 0 || i >= t.len() {
        None
    } else if t[i] == '"' {
        match literal_end(t, i + 1) {
            Some(e) => Some(e + 1),
            None => None,
        }
    } else if t[i] == '[' || t[i] == '{' {
        match bracket_end(t, i + 1, 1) {
            Some(e) => Some(e + 1),
            None => None,
        }
    } else if word_end(t, i) > i {
        Some(word_end(t, i))
    } else {
        None
    }
}

// ---------------------------------------------------------------------
// What a text holds
// ---------------------------------------------------------------------

/// How deep arrays and objects are read into.
pub const MAX_LEVELS: usize = 100;

/// What stands in the place of a value that cannot be read: a number that is
/// out of range, a text that is no Unicode, an object with such a key, and an
/// array or an object that lies too deep. Whoever looks for anything but a
/// truth value there does not find it.
pub open spec fn unreadable() -> JsonModel {
    JsonModel::Bool(false)
}

/// The text of a string literal; nothing where it cannot be read.
pub open spec fn key_of(literal: Seq<char>) -> Option<Seq<char>> {
    match json_parsed(literal) {
        Ok(JsonModel::Text(s)) => Some(s),
        _ => None,
    }
}

/// The value that stands from `i` up to `end`, read so many levels deep.
pub open spec fn every_value(t: Seq<char>, i: int, end: int, levels: nat) -> JsonModel
    decreases end - i, 0nat,
{
    if !(0 <= i < end <= t.len()) {
        unreadable()
    } else if t[i] == '[' || t[i] == '{' {
        if levels == 0 {
            unreadable()
        } else if t[i] == '[' {
            JsonModel::Array(every_item(t, i + 1, end, (levels - 1) as nat))
        } else {
            match every_entry(t, i + 1, end, (levels - 1) as nat) {
                Some(entries) => JsonModel::Object(entries),
                None => unreadable(),
            }
        }
    } else {
        match json_parsed(t.subrange(i, end)) {
            Ok(v) => v,
            Err(_) => unreadable(),
        }
    }
}

/// The items from `i` on of an array that reaches up to `end`.
pub open spec fn every_item(t: Seq<char>, i: int, end: int, levels: nat) -> Seq<JsonModel>
    decreases end - i, 1nat,
{
    let s = blank_end(t, i);
    match value_end(t, s) {
        Some(e) => if i <= s < e < end {
            let first = seq![every_value(t, s, e, levels)];
            let c = blank_end(t, e);
            if e <= c < end && c < t.len() && t[c] == ',' {
                first + every_item(t, c + 1, end, levels)
            } else {
                first
            }
        } else {
            Seq::empty()
        },
        None => Seq::empty(),
    }
}

/// Entries with those that follow them, if these can be read.
pub open spec fn joined(
    entries: Seq<(Seq<char>, JsonModel)>,
    rest: Option<Seq<(Seq<char>, JsonModel)>>,
) -> Option<Seq<(Seq<char>, JsonModel)>> {
    match rest {
        Some(r) => Some(entries + r),
        None => None,
    }
}

/// The entries from `i` on of an object that reaches up to `end`; nothing where
/// one of the keys cannot be read.
pub open spec fn every_entry(t: Seq<char>, i: int, end: int, levels: nat) -> Option<
    Seq<(Seq<char>, JsonModel)>,
>
    decreases end - i, 1nat,
{
    let s = blank_end(t, i);
    match (value_end(t, s), colon_end(t, s)) {
        (Some(k), Some(v)) => match value_end(t, v) {
            Some(e) => if i <= s < k <= v < e < end && k <= t.len() {
                match key_of(t.subrange(s, k)) {
                    Some(key) => {
                        let first = seq![(key, every_value(t, v, e, levels))];
                        let c = blank_end(t, e);
                        if e <= c < end && c < t.len() && t[c] == ',' {
                            joined(first, every_entry(t, c + 1, end, levels))
                        } else {
                            Some(first)
                        }
                    },
                    None => None,
                }
            } else {
                Some(Seq::empty())
            },
            None => Some(Seq::empty()),
        },
        _ => Some(Seq::empty()),
    }
}

/// Where the value begins whose key stands at `s`.
pub open spec fn colon_end(t: Seq<char>, s: int) -> Option<int> {
    match value_end(t, s) {
        Some(k) => {
            let c = blank_end(t, k);
            if 0 <= s < t.len() && t[s] == '"' && 0 <= c < t.len() && t[c] == ':' {
                Some(blank_end(t, c + 1))
            } else {
                None
            }
        },
        None => None,
    }
}

/// The value that a JSON text holds, with every entry of its objects in the
/// order of the text.
pub open spec fn every(t: Seq<char>) -> JsonModel {
    let s = blank_end(t, 0);
    match value_end(t, s) {
        Some(e) => every_value(t, s, e, MAX_LEVELS as nat),
        None => unreadable(),
    }
}

// ---------------------------------------------------------------------
// Reading
// ---------------------------------------------------------------------

/// Whether a character is white space in JSON.
fn check_blank(c: char) -> (r: bool)
    ensures
        r == is_blank(c),
{
    c == ' ' || c == '\n' || c == '\r' || c == '\t'
}

/// The first place from `i` on without white space.
fn skip_blank(cs: &Vec<char>, i: usize) -> (r: usize)
    requires
        i <= cs.len(),
    ensures
        r == blank_end(cs@, i as int),
        i <= r <= cs.len(),
{
    let mut k: usize = i;
    while k < cs.len() && check_blank(cs[k])
        invariant
            i <= k <= cs.len(),
            blank_end(cs@, i as int) == blank_end(cs@, k as int),
        decreases cs.len() - k,
    {
        k = k + 1;
    }
    k
}

/// Where a string literal ends whose quote stands before `i`.
fn find_literal_end(cs: &Vec<char>, i: usize) -> (r: Option<usize>)
    requires
        i <= cs.len(),
    ensures
        match r {
            Some(e) => literal_end(cs@, i as int) == Some(e as int) && i <= e < cs.len(),
            None => literal_end(cs@, i as int) is None,
        },
{
    let mut k: usize = i;
    while k < cs.len()
        invariant
            i <= k <= cs.len(),
            literal_end(cs@, i as int) == literal_end(cs@, k as int),
        decreases cs.len() - k,
    {
        if cs[k] == '"' {
            return Some(k);
        }
        if cs[k] == '\\' {
            if cs.len() - k <= 1 {
                return None;
            }
            k = k + 2;
        } else {
            k = k + 1;
        }
    }
    None
}

/// Where the bracket stands that closes the one before `i`.
fn find_bracket_end(cs: &Vec<char>, i: usize) -> (r: Option<usize>)
    requires
        1 <= i <= cs.len(),
    ensures
        match r {
            Some(e) => bracket_end(cs@, i as int, 1) == Some(e as int) && i <= e < cs.len(),
            None => bracket_end(cs@, i as int, 1) is None,
        },
{
    let mut k: usize = i;
    let mut depth: usize = 1;
    while k < cs.len()
        invariant
            i <= k <= cs.len(),
            1 <= i,
            1 <= depth <= k,
            bracket_end(cs@, i as int, 1) == bracket_end(cs@, k as int, depth as nat),
        decreases cs.len() - k,
    {
        let c: char = cs[k];
        if c == '"' {
            match find_literal_end(cs, k + 1) {
                Some(e) => {
                    k = e + 1;
                },
                None => {
                    return None;
                },
            }
        } else if c == '[' || c == '{' {
            depth = depth + 1;
            k = k + 1;
        } else if c == ']' || c == '}' {
            if depth <= 1 {
                return Some(k);
            }
            depth = depth - 1;
            k = k + 1;
        } else {
            k = k + 1;
        }
    }
    None
}

/// Where a number, a truth value or null ends that stands at `i`.
fn find_word_end(cs: &Vec<char>, i: usize) -> (r: usize)
    requires
        i <= cs.len(),
    ensures
        r == word_end(cs@, i as int),
        i <= r <= cs.len(),
{
    let mut k: usize = i;
    while k < cs.len()
        invariant
            i <= k <= cs.len(),
            word_end(cs@, i as int) == word_end(cs@, k as int),
        decreases cs.len() - k,
    {
        let c: char = cs[k];
        if check_blank(c) || c == ',' || c == ':' || c == ']' || c == '}' || c == '[' || c == '{'
            || c == '"' {
            return k;
        }
        k = k + 1;
    }
    k
}

/// Where the value that stands at `i` ends; nothing where none does.
fn find_value_end(cs: &Vec<char>, i: usize) -> (r: Option<usize>)
    requires
        i <= cs.len(),
    ensures
        match r {
            Some(e) => value_end(cs@, i as int) == Some(e as int) && i < e <= cs.len(),
            None => value_end(cs@, i as int) is None,
        },
{
    if i >= cs.len() {
        return None;
    }
    let c: char = cs[i];
    if c == '"' {
        match find_literal_end(cs, i + 1) {
            Some(e) => Some(e + 1),
            None => None,
        }
    } else if c == '[' || c == '{' {
        match find_bracket_end(cs, i + 1) {
            Some(e) => Some(e + 1),
            None => None,
        }
    } else {
        let e = find_word_end(cs, i);
        if e > i {
            Some(e)
        } else {
            None
        }
    }
}

/// The text of a string literal; nothing where it cannot be read.
fn read_key(literal: &str) -> (r: Option<String>)
    ensures
        option_model(r) == key_of(literal@),
{
    match parse_json(literal) {
        Ok(Json::Text(s)) => Some(s),
        _ => None,
    }
}

/// The value that stands from `i` up to `end`, read so many levels deep.
fn read_every_value(cs: &Vec<char>, i: usize, end: usize, levels: usize) -> (r: Json)
    requires
        i < end <= cs.len(),
    ensures
        r@ == every_value(cs@, i as int, end as int, levels as nat),
    decreases end - i, 0nat,
{
    if cs[i] == '[' || cs[i] == '{' {
        if levels == 0 {
            Json::Bool(false)
        } else if cs[i] == '[' {
            array(read_every_item(cs, i + 1, end, levels - 1))
        } else {
            match read_every_entry(cs, i + 1, end, levels - 1) {
                Some(entries) => object(entries),
                None => Json::Bool(false),
            }
        }
    } else {
        match parse_json(text_of(cs, i, end).as_str()) {
            Ok(j) => j,
            Err(_) => Json::Bool(false),
        }
    }
}

/// The items of an array that begin at `i` and reach up to `end`.
fn read_every_item(cs: &Vec<char>, i: usize, end: usize, levels: usize) -> (r: Vec<Json>)
    requires
        i <= end <= cs.len(),
    ensures
        items_model(r@) == every_item(cs@, i as int, end as int, levels as nat),
    decreases end - i, 1nat,
{
    let ghost all = every_item(cs@, i as int, end as int, levels as nat);
    let mut out: Vec<Json> = Vec::new();
    assert(items_model(out@) =~= Seq::empty());
    assert(items_model(out@) + all =~= all);
    let mut k: usize = i;
    loop
        invariant_except_break
            i <= k <= end <= cs.len(),
            all == every_item(cs@, i as int, end as int, levels as nat),
            items_model(out@) + every_item(cs@, k as int, end as int, levels as nat) == all,
        ensures
            items_model(out@) == all,
        decreases end - k,
    {
        broadcast use lemma_items_push;

        let ghost before = items_model(out@);
        let ghost rest = every_item(cs@, k as int, end as int, levels as nat);
        let s = skip_blank(cs, k);
        let e = match find_value_end(cs, s) {
            Some(e) => e,
            None => {
                assert(before + rest =~= before);
                break;
            },
        };
        if e >= end {
            assert(before + rest =~= before);
            break;
        }
        let v = read_every_value(cs, s, e, levels);
        let ghost m = v@;
        out.push(v);
        let c = skip_blank(cs, e);
        if c < end && cs[c] == ',' {
            let ghost next = every_item(cs@, c + 1, end as int, levels as nat);
            assert(before + rest =~= before.push(m) + next);
            k = c + 1;
        } else {
            assert(before + rest =~= before.push(m));
            break;
        }
    }
    out
}

/// The entries of an object that begin at `i` and reach up to `end`; nothing
/// where one of the keys cannot be read.
fn read_every_entry(cs: &Vec<char>, i: usize, end: usize, levels: usize) -> (r: Option<
    Vec<(String, Json)>,
>)
    requires
        i <= end <= cs.len(),
    ensures
        match r {
            Some(entries) => every_entry(cs@, i as int, end as int, levels as nat) == Some(
                entries_model(entries@),
            ),
            None => every_entry(cs@, i as int, end as int, levels as nat) is None,
        },
    decreases end - i, 1nat,
{
    let ghost all = every_entry(cs@, i as int, end as int, levels as nat);
    let mut out = no_entries();
    proof {
        if all is Some {
            assert(entries_model(out@) + all->0 =~= all->0);
        }
    }
    let mut k: usize = i;
    loop
        invariant_except_break
            i <= k <= end <= cs.len(),
            all == every_entry(cs@, i as int, end as int, levels as nat),
            joined(
                entries_model(out@),
                every_entry(cs@, k as int, end as int, levels as nat),
            ) == all,
        ensures
            all == Some(entries_model(out@)),
        decreases end - k,
    {
        broadcast use lemma_entries_push;

        let ghost before = entries_model(out@);
        let ghost rest = every_entry(cs@, k as int, end as int, levels as nat);
        let s = skip_blank(cs, k);
        let n = match find_value_end(cs, s) {
            Some(n) => n,
            None => {
                assert(before + rest->0 =~= before);
                break;
            },
        };
        let c = skip_blank(cs, n);
        if cs[s] != '"' || c >= cs.len() || cs[c] != ':' {
            assert(before + rest->0 =~= before);
            break;
        }
        let w = skip_blank(cs, c + 1);
        let e = match find_value_end(cs, w) {
            Some(e) => e,
            None => {
                assert(before + rest->0 =~= before);
                break;
            },
        };
        if e >= end {
            assert(before + rest->0 =~= before);
            break;
        }
        let key = match read_key(text_of(cs, s, n).as_str()) {
            Some(key) => key,
            None => {
                return None;
            },
        };
        let v = read_every_value(cs, w, e, levels);
        let ghost pair = (key@, v@);
        out.push((key, v));
        let d = skip_blank(cs, e);
        if d < end && cs[d] == ',' {
            proof {
                let next = every_entry(cs@, d + 1, end as int, levels as nat);
                assert(rest == joined(seq![pair], next));
                if next is Some {
                    assert(before + rest->0 =~= before.push(pair) + next->0);
                }
            }
            k = d + 1;
        } else {
            assert(rest == Some(seq![pair]));
            assert(before + rest->0 =~= before.push(pair));
            break;
        }
    }
    Some(out)
}

/// Reads JSON text with every entry of its objects.
pub fn read_every(text: &str) -> (r: Json)
    ensures
        r@ == every(text@),
{
    let cs = chars_of(text);
    let s = skip_blank(&cs, 0);
    match find_value_end(&cs, s) {
        Some(e) => read_every_value(&cs, s, e, MAX_LEVELS),
        None => Json::Bool(false),
    }
}

// ---------------------------------------------------------------------
// What is written is read
// ---------------------------------------------------------------------

/// A text in a literal is read over, whatever stands behind it.
proof fn lemma_escaped_read_over(before: Seq<char>, text: Seq<char>, after: Seq<char>)
    requires
        after.len() > 0,
        after[0] == '"',
    ensures
        literal_end(before + escaped_text(text) + after, before.len() as int) == Some(
            (before.len() + escaped_text(text).len()) as int,
        ),
    decreases text.len(),
{
    let code = before + escaped_text(text) + after;
    let n = before.len() as int;
    if text.len() > 0 {
        let first = escaped(text[0]);
        let rest = escaped_text(text.skip(1));
        lemma_escaped_read_over(before + first, text.skip(1), after);
        assert(before + first + rest + after =~= code);
        assert(first =~= code.subrange(n, n + first.len()));
        assert(code[n] == first[0]);
        if first.len() == 2 {
            assert(literal_end(code, n) == literal_end(code, n + 2));
        } else if first.len() == 6 {
            lemma_control_digits(text[0]);
            assert(code[n + 2] == first[2]);
            assert(code[n + 3] == first[3]);
            assert(code[n + 4] == first[4]);
            assert(code[n + 5] == first[5]);
            assert(literal_end(code, n + 5) == literal_end(code, n + 6));
            assert(literal_end(code, n + 4) == literal_end(code, n + 5));
            assert(literal_end(code, n + 3) == literal_end(code, n + 4));
            assert(literal_end(code, n + 2) == literal_end(code, n + 3));
            assert(literal_end(code, n) == literal_end(code, n + 2));
        }
    } else {
        assert(code[n] == after[0]);
    }
}

/// No text reaches out of its literal: whatever code stands round the literal,
/// it ends with its own last quote.
pub proof fn law_literals_stay_closed(before: Seq<char>, text: Seq<char>, after: Seq<char>)
    ensures
        literal_end(before + json_literal(text) + after, (before.len() + 1) as int) == Some(
            before.len() + json_literal(text).len() - 1,
        ),
{
    let quote = seq!['"'];
    lemma_escaped_read_over(before + quote, text, quote + after);
    assert(before + quote + escaped_text(text) + (quote + after) =~= before + json_literal(text)
        + after);
}

/// Whether every number, text and key of a value is read back by itself.
pub open spec fn leaves_read_back(v: JsonModel) -> bool
    decreases v,
{
    match v {
        JsonModel::Array(items) => forall|i: int|
            0 <= i < items.len() ==> leaves_read_back(#[trigger] items[i]),
        JsonModel::Object(entries) => forall|i: int|
            0 <= i < entries.len() ==> is_text_of(
                json_literal((#[trigger] entries[i]).0),
                JsonModel::Text(entries[i].0),
            ) && leaves_read_back(entries[i].1),
        _ => is_text_of(json_printed(v), v),
    }
}

/// A word ends where the first mark stands.
proof fn lemma_word_end(t: Seq<char>, i: int, e: int)
    requires
        0 <= i <= e <= t.len(),
        forall|k: int| i <= k < e ==> !is_mark(#[trigger] t[k]),
        e < t.len() ==> is_mark(t[e]),
    ensures
        word_end(t, i) == e,
    decreases e - i,
{
    if i < e {
        assert(!is_mark(t[i]));
        lemma_word_end(t, i + 1, e);
    }
}

/// Words do not count among brackets.
proof fn lemma_word_passed(t: Seq<char>, i: int, e: int, depth: nat)
    requires
        0 <= i <= e <= t.len(),
        forall|k: int| i <= k < e ==> !is_mark(#[trigger] t[k]),
    ensures
        bracket_end(t, i, depth) == bracket_end(t, e, depth),
    decreases e - i,
{
    if i < e {
        assert(!is_mark(t[i]));
        lemma_word_passed(t, i + 1, e, depth);
    }
}

/// The text of a number, a truth value or null is a word.
proof fn lemma_word_text(v: JsonModel)
    requires
        is_exact(v),
        v is Null || v is Bool || v is Number,
    ensures
        json_printed(v).len() > 0,
        forall|k: int| 0 <= k < json_printed(v).len() ==> !is_mark(#[trigger] json_printed(v)[k]),
{
    match v {
        JsonModel::Number(n) => {
            match n {
                NumberModel::Unsigned(u) => {
                    lemma_decimal_value(u as nat);
                },
                NumberModel::Negative(i) => {
                    reveal_strlit("-");
                    lemma_decimal_value((-i) as nat);
                },
                NumberModel::Float(s) => {
                    reveal_strlit(".0");
                    let n = choose|n: nat|
                        n * 10 <= 0x20_0000_0000_0000 && s == #[trigger] decimal(n) + ".0"@;
                    lemma_decimal_value(n);
                },
            }
            let p = json_printed(v);
            assert forall|k: int| 0 <= k < p.len() implies !is_mark(#[trigger] p[k]) by {
                match n {
                    NumberModel::Unsigned(u) => {
                        assert(is_digit(decimal(u as nat)[k]));
                    },
                    NumberModel::Negative(i) => {
                        if k > 0 {
                            assert(is_digit(decimal((-i) as nat)[k - 1]));
                        }
                    },
                    NumberModel::Float(s) => {
                        let n = choose|n: nat|
                            n * 10 <= 0x20_0000_0000_0000 && s == #[trigger] decimal(n) + ".0"@;
                        if k < decimal(n).len() {
                            assert(is_digit(decimal(n)[k]));
                        }
                    },
                }
            }
        },
        JsonModel::Bool(_) => {
            reveal_strlit("true");
            reveal_strlit("false");
        },
        _ => {
            reveal_strlit("null");
        },
    }
}

/// A literal does not count among brackets, whatever it holds.
proof fn lemma_literal_passed(before: Seq<char>, text: Seq<char>, after: Seq<char>, depth: nat)
    ensures
        ({
            let t = before + json_literal(text) + after;
            bracket_end(t, before.len() as int, depth) == bracket_end(
                t,
                (before.len() + json_literal(text).len()) as int,
                depth,
            )
        }),
{
    law_literals_stay_closed(before, text, after);
    let t = before + json_literal(text) + after;
    assert(t[before.len() as int] == json_literal(text)[0]);
}

/// The text of a value is closed: it leaves as many brackets open as were.
proof fn lemma_value_passed(before: Seq<char>, v: JsonModel, after: Seq<char>, depth: nat)
    requires
        is_exact(v),
        depth >= 1,
    ensures
        ({
            let t = before + json_printed(v) + after;
            bracket_end(t, before.len() as int, depth) == bracket_end(
                t,
                (before.len() + json_printed(v).len()) as int,
                depth,
            )
        }),
    decreases v, 0nat,
{
    let p = json_printed(v);
    let t = before + p + after;
    let i = before.len() as int;
    match v {
        JsonModel::Text(s) => lemma_literal_passed(before, s, after, depth),
        JsonModel::Array(items) => {
            reveal_strlit("[");
            reveal_strlit("]");
            let inner = printed_items(items);
            lemma_items_passed(before + "["@, items, "]"@ + after, depth + 1);
            assert(before + "["@ + inner + ("]"@ + after) =~= t);
            assert(t[i] == '[');
            assert(t[i + 1 + inner.len()] == ']');
        },
        JsonModel::Object(entries) => {
            reveal_strlit("{");
            reveal_strlit("}");
            let inner = printed_entries(entries);
            lemma_entries_passed(before + "{"@, entries, "}"@ + after, depth + 1);
            assert(before + "{"@ + inner + ("}"@ + after) =~= t);
            assert(t[i] == '{');
            assert(t[i + 1 + inner.len()] == '}');
        },
        _ => {
            lemma_word_text(v);
            assert forall|k: int| i <= k < i + p.len() implies !is_mark(#[trigger] t[k]) by {
                assert(t[k] == p[k - i]);
            }
            lemma_word_passed(t, i, i + p.len(), depth);
        },
    }
}

proof fn lemma_items_passed(
    before: Seq<char>,
    items: Seq<JsonModel>,
    after: Seq<char>,
    depth: nat,
)
    requires
        forall|i: int| 0 <= i < items.len() ==> is_exact(#[trigger] items[i]),
        depth >= 1,
    ensures
        ({
            let t = before + printed_items(items) + after;
            bracket_end(t, before.len() as int, depth) == bracket_end(
                t,
                (before.len() + printed_items(items).len()) as int,
                depth,
            )
        }),
    decreases items, 1nat,
{
    reveal_strlit(",");
    let t = before + printed_items(items) + after;
    if items.len() > 0 {
        let last = items[items.len() - 1];
        let p = json_printed(last);
        if items.len() == 1 {
            lemma_value_passed(before, last, after, depth);
        } else {
            let front = items.drop_last();
            let q = printed_items(front);
            assert forall|i: int| 0 <= i < front.len() implies is_exact(#[trigger] front[i]) by {
                assert(front[i] == items[i]);
            }
            lemma_items_passed(before, front, ","@ + p + after, depth);
            assert(before + q + (","@ + p + after) =~= t);
            lemma_value_passed(before + q + ","@, last, after, depth);
            assert(before + q + ","@ + p + after =~= t);
            assert(t[(before.len() + q.len()) as int] == ',');
        }
    }
}

proof fn lemma_entries_passed(
    before: Seq<char>,
    entries: Seq<(Seq<char>, JsonModel)>,
    after: Seq<char>,
    depth: nat,
)
    requires
        forall|i: int| 0 <= i < entries.len() ==> is_exact((#[trigger] entries[i]).1),
        depth >= 1,
    ensures
        ({
            let t = before + printed_entries(entries) + after;
            bracket_end(t, before.len() as int, depth) == bracket_end(
                t,
                (before.len() + printed_entries(entries).len()) as int,
                depth,
            )
        }),
    decreases entries, 1nat,
{
    reveal_strlit(",");
    reveal_strlit(":");
    let t = before + printed_entries(entries) + after;
    if entries.len() > 0 {
        let last = entries[entries.len() - 1];
        let key = json_literal(last.0);
        let p = json_printed(last.1);
        let front = entries.drop_last();
        let head = if entries.len() == 1 {
            before
        } else {
            before + printed_entries(front) + ","@
        };
        if entries.len() > 1 {
            let q = printed_entries(front);
            assert forall|i: int| 0 <= i < front.len() implies is_exact((#[trigger] front[i]).1) by {
                assert(front[i] == entries[i]);
            }
            lemma_entries_passed(before, front, ","@ + (key + ":"@ + p) + after, depth);
            assert(before + q + (","@ + (key + ":"@ + p) + after) =~= t);
            assert(t[(before.len() + q.len()) as int] == ',');
        }
        lemma_literal_passed(head, last.0, ":"@ + p + after, depth);
        assert(head + key + (":"@ + p + after) =~= t);
        assert(t[(head.len() + key.len()) as int] == ':');
        lemma_value_passed(head + key + ":"@, last.1, after, depth);
        assert(head + key + ":"@ + p + after =~= t);
    }
}

/// The text of items from the first on.
proof fn lemma_first_item(items: Seq<JsonModel>)
    requires
        items.len() > 1,
    ensures
        printed_items(items) == json_printed(items[0]) + ","@ + printed_items(items.skip(1)),
    decreases items.len(),
{
    let rest = items.skip(1);
    let last = json_printed(items.last());
    assert(rest.last() == items.last());
    let front = items.drop_last();
    assert(front[0] == items[0]);
    assert(printed_items(items) == printed_items(front) + ","@ + last);
    if items.len() == 2 {
        assert(printed_items(front) == json_printed(items[0]));
        assert(printed_items(rest) == last);
    } else {
        lemma_first_item(front);
        assert(front.skip(1) =~= rest.drop_last());
        assert(printed_items(rest) == printed_items(front.skip(1)) + ","@ + last);
    }
    assert(printed_items(items) =~= json_printed(items[0]) + ","@ + printed_items(rest));
}

/// The text of one entry.
pub open spec fn printed_entry(e: (Seq<char>, JsonModel)) -> Seq<char> {
    json_literal(e.0) + ":"@ + json_printed(e.1)
}

/// The text of entries from the first on.
proof fn lemma_first_entry(entries: Seq<(Seq<char>, JsonModel)>)
    requires
        entries.len() > 1,
    ensures
        printed_entries(entries) == printed_entry(entries[0]) + ","@ + printed_entries(
            entries.skip(1),
        ),
    decreases entries.len(),
{
    let rest = entries.skip(1);
    let last = printed_entry(entries.last());
    assert(rest.last() == entries.last());
    let front = entries.drop_last();
    assert(front[0] == entries[0]);
    assert(printed_entries(entries) == printed_entries(front) + ","@ + last);
    if entries.len() == 2 {
        assert(printed_entries(front) == printed_entry(entries[0]));
        assert(printed_entries(rest) == last);
    } else {
        lemma_first_entry(front);
        assert(front.skip(1) =~= rest.drop_last());
        assert(printed_entries(rest) == printed_entries(front.skip(1)) + ","@ + last);
    }
    assert(printed_entries(entries) =~= printed_entry(entries[0]) + ","@ + printed_entries(rest));
}

/// The text of a value ends where the text behind it begins, if that is none of
/// its own, and does not begin with white space.
proof fn lemma_value_end(before: Seq<char>, v: JsonModel, after: Seq<char>)
    requires
        is_exact(v),
        after.len() > 0 ==> is_mark(after[0]),
    ensures
        json_printed(v).len() > 0,
        !is_blank(json_printed(v)[0]),
        value_end(before + json_printed(v) + after, before.len() as int) == Some(
            (before.len() + json_printed(v).len()) as int,
        ),
{
    let p = json_printed(v);
    let t = before + p + after;
    let i = before.len() as int;
    match v {
        JsonModel::Text(s) => {
            law_literals_stay_closed(before, s, after);
            assert(t[i] == p[0]);
        },
        JsonModel::Array(items) => {
            reveal_strlit("[");
            reveal_strlit("]");
            let inner = printed_items(items);
            lemma_items_passed(before + "["@, items, "]"@ + after, 1);
            assert(before + "["@ + inner + ("]"@ + after) =~= t);
            assert(t[i] == '[');
            assert(t[i + 1 + inner.len()] == ']');
        },
        JsonModel::Object(entries) => {
            reveal_strlit("{");
            reveal_strlit("}");
            let inner = printed_entries(entries);
            lemma_entries_passed(before + "{"@, entries, "}"@ + after, 1);
            assert(before + "{"@ + inner + ("}"@ + after) =~= t);
            assert(t[i] == '{');
            assert(t[i + 1 + inner.len()] == '}');
        },
        _ => {
            lemma_word_text(v);
            assert(!is_mark(p[0]));
            assert forall|k: int| i <= k < i + p.len() implies !is_mark(#[trigger] t[k]) by {
                assert(t[k] == p[k - i]);
            }
            if after.len() > 0 {
                assert(t[i + p.len()] == after[0]);
            }
            lemma_word_end(t, i, i + p.len());
            assert(!is_mark(t[i]));
        },
    }
}

/// The text of a value is read as the value, whatever stands round it.
#[verifier::rlimit(100)]
#[verifier::spinoff_prover]
proof fn lemma_every_value(before: Seq<char>, v: JsonModel, after: Seq<char>, levels: nat)
    requires
        is_exact(v),
        leaves_read_back(v),
        nests(v, levels),
    ensures
        every_value(
            before + json_printed(v) + after,
            before.len() as int,
            (before.len() + json_printed(v).len()) as int,
            levels,
        ) == v,
    decreases v, 0nat,
{
    let p = json_printed(v);
    let t = before + p + after;
    let i = before.len() as int;
    let end = i + p.len();
    match v {
        JsonModel::Array(items) => {
            reveal_strlit("[");
            reveal_strlit("]");
            let inner = printed_items(items);
            let head = before + "["@;
            lemma_every_item(head, items, after, (levels - 1) as nat);
            assert(head + inner + ("]"@ + after) =~= t);
            assert(head.len() == i + 1 && head.len() + inner.len() + 1 == end);
            assert(t[i] == '[');
            assert(every_value(t, i, end, levels) == JsonModel::Array(
                every_item(t, i + 1, end, (levels - 1) as nat),
            ));
        },
        JsonModel::Object(entries) => {
            reveal_strlit("{");
            reveal_strlit("}");
            let inner = printed_entries(entries);
            let head = before + "{"@;
            lemma_every_entry(head, entries, after, (levels - 1) as nat);
            assert(head + inner + ("}"@ + after) =~= t);
            assert(head.len() == i + 1 && head.len() + inner.len() + 1 == end);
            assert(t[i] == '{');
        },
        _ => {
            assert(t.subrange(i, end) =~= p);
            if v is Text {
                assert(t[i] == p[0]);
            } else {
                lemma_word_text(v);
                assert(!is_mark(p[0]));
                assert(t[i] == p[0]);
            }
        },
    }
}

/// The text of items is read as the items.
proof fn lemma_every_item(
    before: Seq<char>,
    items: Seq<JsonModel>,
    after: Seq<char>,
    levels: nat,
)
    requires
        forall|i: int| 0 <= i < items.len() ==> nests(#[trigger] items[i], levels),
        forall|i: int| 0 <= i < items.len() ==> is_exact(#[trigger] items[i]),
        forall|i: int| 0 <= i < items.len() ==> leaves_read_back(#[trigger] items[i]),
    ensures
        every_item(
            before + printed_items(items) + ("]"@ + after),
            before.len() as int,
            (before.len() + printed_items(items).len() + 1) as int,
            levels,
        ) == items,
    decreases items, 1nat,
{
    reveal_strlit("]");
    reveal_strlit(",");
    let close = "]"@ + after;
    let t = before + printed_items(items) + close;
    let i = before.len() as int;
    let end = i + printed_items(items).len() + 1;
    assert(t[end - 1] == ']');
    if items.len() == 0 {
        assert(t[i] == ']');
        assert(every_item(t, i, end, levels) =~= items);
    } else {
        let v = items[0];
        let p = json_printed(v);
        let rest = items.skip(1);
        let behind = if items.len() == 1 {
            close
        } else {
            ","@ + printed_items(rest) + close
        };
        if items.len() == 1 {
            assert(items.last() == v);
        } else {
            lemma_first_item(items);
        }
        assert(before + p + behind =~= t);
        lemma_value_end(before, v, behind);
        lemma_every_value(before, v, behind, levels);
        let e = i + p.len();
        assert(t[i] == p[0]);
        assert(t[e] == behind[0]);
        assert(blank_end(t, e) == e);
        if items.len() > 1 {
            let next = before + p + ","@;
            assert forall|k: int| 0 <= k < rest.len() implies is_exact(#[trigger] rest[k])
                && leaves_read_back(rest[k]) && nests(rest[k], levels) by {
                assert(rest[k] == items[k + 1]);
            }
            lemma_every_item(next, rest, after, levels);
            assert(next + printed_items(rest) + close =~= t);
            assert(next.len() + printed_items(rest).len() + 1 == end);
        }
        assert(every_item(t, i, end, levels) =~= items);
    }
}

/// The text of entries is read as the entries.
#[verifier::rlimit(100)]
#[verifier::spinoff_prover]
proof fn lemma_every_entry(
    before: Seq<char>,
    entries: Seq<(Seq<char>, JsonModel)>,
    after: Seq<char>,
    levels: nat,
)
    requires
        forall|i: int| 0 <= i < entries.len() ==> is_exact((#[trigger] entries[i]).1),
        forall|i: int| 0 <= i < entries.len() ==> nests((#[trigger] entries[i]).1, levels),
        forall|i: int|
            0 <= i < entries.len() ==> is_text_of(
                json_literal((#[trigger] entries[i]).0),
                JsonModel::Text(entries[i].0),
            ) && leaves_read_back(entries[i].1),
    ensures
        every_entry(
            before + printed_entries(entries) + ("}"@ + after),
            before.len() as int,
            (before.len() + printed_entries(entries).len() + 1) as int,
            levels,
        ) == Some(entries),
    decreases entries, 1nat,
{
    reveal_strlit("}");
    reveal_strlit(",");
    reveal_strlit(":");
    let close = "}"@ + after;
    let t = before + printed_entries(entries) + close;
    let i = before.len() as int;
    let end = i + printed_entries(entries).len() + 1;
    assert(t[end - 1] == '}');
    if entries.len() == 0 {
        assert(t[i] == '}');
        assert(every_entry(t, i, end, levels)->0 =~= entries);
    } else {
        let (key, v) = entries[0];
        let literal = json_literal(key);
        let p = json_printed(v);
        let rest = entries.skip(1);
        let behind = if entries.len() == 1 {
            close
        } else {
            ","@ + printed_entries(rest) + close
        };
        if entries.len() == 1 {
            assert(entries.last() == entries[0]);
        } else {
            lemma_first_entry(entries);
        }
        let k = i + literal.len();
        assert(before + literal + (":"@ + p + behind) =~= t);
        law_literals_stay_closed(before, key, ":"@ + p + behind);
        assert(t[i] == literal[0]);
        assert(value_end(t, i) == Some(k));
        assert(t[k] == ':');
        assert(blank_end(t, k) == k);
        let head = before + literal + ":"@;
        assert(head + p + behind =~= t);
        lemma_value_end(head, v, behind);
        lemma_every_value(head, v, behind, levels);
        let w = k + 1;
        let e = w + p.len();
        assert(t[w] == p[0]);
        assert(blank_end(t, w) == w);
        assert(colon_end(t, i) == Some(w));
        assert(t.subrange(i, k) =~= literal);
        assert(key_of(literal) == Some(key));
        let first = seq![(key, v)];
        assert(value_end(t, w) == Some(e));
        assert(every_value(t, w, e, levels) == v);
        assert(i < k <= w < e < end && k <= t.len());
        assert(blank_end(t, i) == i);
        assert(t[e] == behind[0]);
        assert(blank_end(t, e) == e);
        if entries.len() > 1 {
            let next = head + p + ","@;
            assert forall|j: int| 0 <= j < rest.len() implies is_exact((#[trigger] rest[j]).1)
                && is_text_of(json_literal(rest[j].0), JsonModel::Text(rest[j].0))
                && leaves_read_back(rest[j].1) && nests(rest[j].1, levels) by {
                assert(rest[j] == entries[j + 1]);
            }
            lemma_every_entry(next, rest, after, levels);
            assert(next + printed_entries(rest) + close =~= t);
            assert(next.len() + printed_entries(rest).len() + 1 == end);
            assert(every_entry(t, e + 1, end, levels) == Some(rest));
            assert(every_entry(t, i, end, levels) == joined(first, Some(rest)));
            assert(first + rest =~= entries);
        } else {
            assert(every_entry(t, i, end, levels) == Some(first));
            assert(first =~= entries);
        }
    }
}

/// The text of a value is read as that value, if its numbers, texts and keys
/// are read back and it lies not too deep.
pub proof fn lemma_every(v: JsonModel)
    requires
        is_exact(v),
        nests(v, MAX_LEVELS as nat),
        leaves_read_back(v),
    ensures
        every(json_printed(v)) == v,
{
    let none = Seq::<char>::empty();
    assert(none + json_printed(v) + none =~= json_printed(v));
    lemma_value_end(none, v, none);
    lemma_every_value(none, v, none, MAX_LEVELS as nat);
}

/// What stands in a part of a text stands in the text.
proof fn lemma_contains(text: Seq<char>, part: Seq<char>, before: Seq<char>, piece: Seq<char>)
    requires
        contains_text(text, part),
        occurs_at(part, piece, before.len() as int),
    ensures
        contains_text(text, piece),
{
    let i = choose|i: int| occurs_at(text, part, i);
    assert(occurs_at(text, part, i));
    let k = i + before.len();
    assert(text.subrange(k, k + piece.len()) =~= text.subrange(i, i + part.len()).subrange(
        before.len() as int,
        (before.len() + piece.len()) as int,
    ));
    assert(occurs_at(text, piece, k));
}

/// What stands between two texts stands in the whole.
proof fn lemma_piece(text: Seq<char>, before: Seq<char>, piece: Seq<char>, after: Seq<char>)
    requires
        contains_text(text, before + piece + after),
    ensures
        contains_text(text, piece),
{
    let part = before + piece + after;
    assert(part.subrange(before.len() as int, (before.len() + piece.len()) as int) =~= piece);
    lemma_contains(text, part, before, piece);
}

/// The numbers, texts and keys of a value are read back where its text stands
/// in one whose parts are.
pub proof fn lemma_leaves(v: JsonModel, text: Seq<char>)
    requires
        is_exact(v),
        parts_read_back(text),
        contains_text(text, json_printed(v)),
    ensures
        leaves_read_back(v),
    decreases v, 0nat,
{
    match v {
        JsonModel::Array(items) => {
            lemma_piece(text, "["@, printed_items(items), "]"@);
            lemma_item_leaves(items, text);
        },
        JsonModel::Object(entries) => {
            lemma_piece(text, "{"@, printed_entries(entries), "}"@);
            lemma_entry_leaves(entries, text);
        },
        _ => {},
    }
}

proof fn lemma_item_leaves(items: Seq<JsonModel>, text: Seq<char>)
    requires
        forall|i: int| 0 <= i < items.len() ==> is_exact(#[trigger] items[i]),
        parts_read_back(text),
        contains_text(text, printed_items(items)),
    ensures
        forall|i: int| 0 <= i < items.len() ==> leaves_read_back(#[trigger] items[i]),
    decreases items, 1nat,
{
    if items.len() > 0 {
        let last = items[items.len() - 1];
        let p = json_printed(last);
        let front = items.drop_last();
        let none = Seq::<char>::empty();
        if items.len() > 1 {
            let q = printed_items(front);
            assert(none + q + (","@ + p) =~= printed_items(items));
            lemma_piece(text, none, q, ","@ + p);
            assert forall|i: int| 0 <= i < front.len() implies is_exact(#[trigger] front[i]) by {
                assert(front[i] == items[i]);
            }
            lemma_item_leaves(front, text);
            assert(q + ","@ + p + none =~= printed_items(items));
            lemma_piece(text, q + ","@, p, none);
        }
        lemma_leaves(last, text);
        assert forall|i: int| 0 <= i < items.len() implies leaves_read_back(#[trigger] items[i]) by {
            if i < front.len() {
                assert(front[i] == items[i]);
            }
        }
    }
}

proof fn lemma_entry_leaves(entries: Seq<(Seq<char>, JsonModel)>, text: Seq<char>)
    requires
        forall|i: int| 0 <= i < entries.len() ==> is_exact((#[trigger] entries[i]).1),
        parts_read_back(text),
        contains_text(text, printed_entries(entries)),
    ensures
        forall|i: int|
            0 <= i < entries.len() ==> is_text_of(
                json_literal((#[trigger] entries[i]).0),
                JsonModel::Text(entries[i].0),
            ) && leaves_read_back(entries[i].1),
    decreases entries, 1nat,
{
    if entries.len() > 0 {
        let last = entries[entries.len() - 1];
        let key = json_literal(last.0);
        let p = json_printed(last.1);
        let front = entries.drop_last();
        let none = Seq::<char>::empty();
        let head = if entries.len() > 1 {
            printed_entries(front) + ","@
        } else {
            none
        };
        if entries.len() > 1 {
            let q = printed_entries(front);
            assert(none + q + (","@ + (key + ":"@ + p)) =~= printed_entries(entries));
            lemma_piece(text, none, q, ","@ + (key + ":"@ + p));
            assert forall|i: int| 0 <= i < front.len() implies is_exact((#[trigger] front[i]).1) by {
                assert(front[i] == entries[i]);
            }
            lemma_entry_leaves(front, text);
        }
        assert(head + key + (":"@ + p) =~= printed_entries(entries));
        lemma_piece(text, head, key, ":"@ + p);
        assert(head + key + ":"@ + p + none =~= printed_entries(entries));
        lemma_piece(text, head + key + ":"@, p, none);
        let k = JsonModel::Text(last.0);
        assert(json_printed(k) == key);
        assert(is_leaf(k) && is_exact(k));
        lemma_leaves(last.1, text);
        assert forall|i: int| 0 <= i < entries.len() implies is_text_of(
            json_literal((#[trigger] entries[i]).0),
            JsonModel::Text(entries[i].0),
        ) && leaves_read_back(entries[i].1) by {
            if i < front.len() {
                assert(front[i] == entries[i]);
            }
        }
    }
}

} // verus!

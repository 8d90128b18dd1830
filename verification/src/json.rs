//! JSON values.
//!
//! [`Json`] holds a JSON value as plain data; [`JsonModel`] is what the
//! contracts of this crate say about one. Reading and writing JSON text is
//! `serde_json`'s work.
use vstd::prelude::*;

use serde_json::Value;

use crate::json_text::{every, lemma_every, lemma_leaves};
use crate::text::{contains_text, decimal, not_after, occurs_at, same};

verus! {

/// A JSON number: an integer as such, any other number by its decimal form.
#[derive(Debug)]
pub enum Number {
    /// An integer that is not negative.
    Unsigned(u64),
    /// A negative integer.
    Negative(i64),
    /// The decimal form of a double.
    Float(String),
}

/// What a [`Number`] stands for.
pub enum NumberModel {
    Unsigned(u64),
    Negative(i64),
    Float(Seq<char>),
}

impl View for Number {
    type V = NumberModel;

    open spec fn view(&self) -> NumberModel {
        match *self {
            Number::Unsigned(n) => NumberModel::Unsigned(n),
            Number::Negative(n) => NumberModel::Negative(n),
            Number::Float(s) => NumberModel::Float(s@),
        }
    }
}

impl Number {
    /// The same number once more.
    pub fn copy(&self) -> (r: Number)
        ensures
            r@ == self@,
    {
        match self {
            Number::Unsigned(n) => Number::Unsigned(*n),
            Number::Negative(n) => Number::Negative(*n),
            Number::Float(s) => Number::Float(s.clone()),
        }
    }
}

/// A JSON value. The entries of an object are in the order in which they were
/// put there; of two entries with one key the first counts.
#[derive(Debug)]
pub enum Json {
    Null,
    Bool(bool),
    Number(Number),
    Text(String),
    Array(Vec<Json>),
    Object(Vec<(String, Json)>),
}

/// What a [`Json`] stands for.
pub enum JsonModel {
    Null,
    Bool(bool),
    Number(NumberModel),
    Text(Seq<char>),
    Array(Seq<JsonModel>),
    Object(Seq<(Seq<char>, JsonModel)>),
}

/// The value of the first entry with the key `key`.
pub open spec fn entry<T>(entries: Seq<(Seq<char>, T)>, key: Seq<char>) -> Option<T>
    decreases entries.len(),
{
    if entries.len() == 0 {
        None
    } else if entries[0].0 == key {
        Some(entries[0].1)
    } else {
        entry(entries.skip(1), key)
    }
}

impl JsonModel {
    /// What the object holds under `key`; nothing for any other value.
    pub open spec fn get(self, key: Seq<char>) -> Option<JsonModel> {
        match self {
            JsonModel::Object(entries) => entry(entries, key),
            _ => None,
        }
    }

    /// The text, of a text.
    pub open spec fn as_text(self) -> Option<Seq<char>> {
        match self {
            JsonModel::Text(s) => Some(s),
            _ => None,
        }
    }

    /// The truth value, of one.
    pub open spec fn as_bool(self) -> Option<bool> {
        match self {
            JsonModel::Bool(b) => Some(b),
            _ => None,
        }
    }

    /// The number, of an integer that is not negative.
    pub open spec fn as_u64(self) -> Option<u64> {
        match self {
            JsonModel::Number(NumberModel::Unsigned(n)) => Some(n),
            _ => None,
        }
    }

    /// The number, of any number.
    pub open spec fn as_number(self) -> Option<NumberModel> {
        match self {
            JsonModel::Number(n) => Some(n),
            _ => None,
        }
    }

    /// The items, of an array.
    pub open spec fn as_array(self) -> Option<Seq<JsonModel>> {
        match self {
            JsonModel::Array(items) => Some(items),
            _ => None,
        }
    }

    /// The text under `key`.
    pub open spec fn text_at(self, key: Seq<char>) -> Option<Seq<char>> {
        match self.get(key) {
            Some(v) => v.as_text(),
            None => None,
        }
    }

    /// The truth value under `key`.
    pub open spec fn bool_at(self, key: Seq<char>) -> Option<bool> {
        match self.get(key) {
            Some(v) => v.as_bool(),
            None => None,
        }
    }

    /// The unsigned integer under `key`.
    pub open spec fn u64_at(self, key: Seq<char>) -> Option<u64> {
        match self.get(key) {
            Some(v) => v.as_u64(),
            None => None,
        }
    }

    /// The array under `key`.
    pub open spec fn array_at(self, key: Seq<char>) -> Option<Seq<JsonModel>> {
        match self.get(key) {
            Some(v) => v.as_array(),
            None => None,
        }
    }
}

impl Json {
    /// What the value stands for.
    pub open spec fn model(self) -> JsonModel
        decreases self,
    {
        match self {
            Json::Null => JsonModel::Null,
            Json::Bool(b) => JsonModel::Bool(b),
            Json::Number(n) => JsonModel::Number(n@),
            Json::Text(s) => JsonModel::Text(s@),
            Json::Array(items) => JsonModel::Array(
                Seq::new(
                    items@.len(),
                    |i: int|
                        if 0 <= i < items@.len() {
                            items@[i].model()
                        } else {
                            JsonModel::Null
                        },
                ),
            ),
            Json::Object(entries) => JsonModel::Object(
                Seq::new(
                    entries@.len(),
                    |i: int|
                        if 0 <= i < entries@.len() {
                            (entries@[i].0@, entries@[i].1.model())
                        } else {
                            (Seq::empty(), JsonModel::Null)
                        },
                ),
            ),
        }
    }
}

impl View for Json {
    type V = JsonModel;

    open spec fn view(&self) -> JsonModel {
        self.model()
    }
}

/// What the items of an array stand for.
pub open spec fn items_model(items: Seq<Json>) -> Seq<JsonModel> {
    Seq::new(items.len(), |i: int| items[i].model())
}

/// What the entries of an object stand for.
pub open spec fn entries_model(entries: Seq<(String, Json)>) -> Seq<(Seq<char>, JsonModel)> {
    Seq::new(entries.len(), |i: int| (entries[i].0@, entries[i].1.model()))
}

/// One more item stands for one more value.
pub broadcast proof fn lemma_items_push(items: Seq<Json>, item: Json)
    ensures
        (#[trigger] items_model(items.push(item))) == items_model(items).push(item.model()),
{
    assert(items_model(items.push(item)) =~= items_model(items).push(item.model()));
}

/// One more entry stands for one more key and value.
pub broadcast proof fn lemma_entries_push(entries: Seq<(String, Json)>, item: (String, Json))
    ensures
        (#[trigger] entries_model(entries.push(item))) == entries_model(entries).push(
            (item.0@, item.1.model()),
        ),
{
    assert(entries_model(entries.push(item)) =~= entries_model(entries).push(
        (item.0@, item.1.model()),
    ));
}

/// An array stands for what its items stand for.
pub broadcast proof fn lemma_array_model(items: Vec<Json>)
    ensures
        (#[trigger] Json::Array(items).model()) == JsonModel::Array(items_model(items@)),
{
    let j = Json::Array(items);
    assert(j.model()->Array_0 =~= items_model(items@));
}

/// An object stands for what its entries stand for.
pub broadcast proof fn lemma_object_model(entries: Vec<(String, Json)>)
    ensures
        (#[trigger] Json::Object(entries).model()) == JsonModel::Object(entries_model(entries@)),
{
    let j = Json::Object(entries);
    assert(j.model()->Object_0 =~= entries_model(entries@));
}

/// Whether no key occurs twice.
pub open spec fn distinct_keys<T>(entries: Seq<(Seq<char>, T)>) -> bool {
    forall|i: int, j: int| 0 <= i < j < entries.len() ==> #[trigger] entries[i].0 != #[trigger] entries[j].0
}

impl JsonModel {
    /// Whether no key occurs twice in an object of the value.
    pub open spec fn well_keyed(self) -> bool
        decreases self,
    {
        match self {
            JsonModel::Array(items) => forall|i: int|
                0 <= i < items.len() ==> #[trigger] items[i].well_keyed(),
            JsonModel::Object(entries) => distinct_keys(entries) && forall|i: int|
                0 <= i < entries.len() ==> (#[trigger] entries[i]).1.well_keyed(),
            _ => true,
        }
    }
}

/// Entries before the one at `i` that have another key do not count.
pub proof fn lemma_entry_skip<T>(entries: Seq<(Seq<char>, T)>, key: Seq<char>, i: int)
    requires
        0 <= i <= entries.len(),
        forall|j: int| 0 <= j < i ==> (#[trigger] entries[j]).0 != key,
    ensures
        entry(entries, key) == entry(entries.skip(i), key),
    decreases i,
{
    if i > 0 {
        lemma_entry_skip(entries, key, i - 1);
        assert(entries.skip(i - 1).skip(1) =~= entries.skip(i));
        assert(entries.skip(i - 1)[0] == entries[i - 1]);
    } else {
        assert(entries.skip(0) =~= entries);
    }
}

/// What stands at `i` is found under its key, if no entry before has it.
pub proof fn lemma_entry_at<T>(entries: Seq<(Seq<char>, T)>, key: Seq<char>, i: int)
    requires
        0 <= i < entries.len(),
        entries[i].0 == key,
        forall|j: int| 0 <= j < i ==> (#[trigger] entries[j]).0 != key,
    ensures
        entry(entries, key) == Some(entries[i].1),
{
    lemma_entry_skip(entries, key, i);
    assert(entries.skip(i)[0] == entries[i]);
}

/// Finds the first entry with the key `key`.
pub fn find_entry<'a>(entries: &'a Vec<(String, Json)>, key: &str) -> (r: Option<&'a Json>)
    ensures
        match r {
            Some(v) => entry(entries_model(entries@), key@) == Some(v@),
            None => entry(entries_model(entries@), key@) is None,
        },
{
    let ghost m = entries_model(entries@);
    let mut i: usize = 0;
    while i < entries.len()
        invariant
            i <= entries.len(),
            m == entries_model(entries@),
            forall|j: int| 0 <= j < i ==> (#[trigger] m[j]).0 != key@,
        decreases entries.len() - i,
    {
        if same(entries[i].0.as_str(), key) {
            proof {
                lemma_entry_skip(m, key@, i as int);
                assert(m.skip(i as int)[0] == m[i as int]);
            }
            return Some(&entries[i].1);
        }
        i = i + 1;
    }
    proof {
        lemma_entry_skip(m, key@, i as int);
        assert(m.skip(i as int) =~= Seq::empty());
    }
    None
}

impl Json {
    /// What the object holds under `key`; nothing for any other value.
    pub fn get(&self, key: &str) -> (r: Option<&Json>)
        ensures
            match r {
                Some(v) => self@.get(key@) == Some(v@),
                None => self@.get(key@) is None,
            },
    {
        broadcast use lemma_object_model;

        match self {
            Json::Object(entries) => find_entry(entries, key),
            _ => None,
        }
    }

    /// The text, of a text.
    pub fn as_text(&self) -> (r: Option<&String>)
        ensures
            match r {
                Some(s) => self@.as_text() == Some(s@),
                None => self@.as_text() is None,
            },
    {
        match self {
            Json::Text(s) => Some(s),
            _ => None,
        }
    }

    /// The truth value, of one.
    pub fn as_bool(&self) -> (r: Option<bool>)
        ensures
            r == self@.as_bool(),
    {
        match self {
            Json::Bool(b) => Some(*b),
            _ => None,
        }
    }

    /// The number, of an integer that is not negative.
    pub fn as_u64(&self) -> (r: Option<u64>)
        ensures
            r == self@.as_u64(),
    {
        match self {
            Json::Number(Number::Unsigned(n)) => Some(*n),
            _ => None,
        }
    }

    /// The number, of any number.
    pub fn as_number(&self) -> (r: Option<&Number>)
        ensures
            match r {
                Some(n) => self@.as_number() == Some(n@),
                None => self@.as_number() is None,
            },
    {
        match self {
            Json::Number(n) => Some(n),
            _ => None,
        }
    }

    /// The items, of an array.
    pub fn as_array(&self) -> (r: Option<&Vec<Json>>)
        ensures
            match r {
                Some(items) => self@.as_array() == Some(items_model(items@)),
                None => self@.as_array() is None,
            },
    {
        broadcast use lemma_array_model;

        match self {
            Json::Array(items) => Some(items),
            _ => None,
        }
    }

    /// The text under `key`.
    pub fn text_at(&self, key: &str) -> (r: Option<&String>)
        ensures
            match r {
                Some(s) => self@.text_at(key@) == Some(s@),
                None => self@.text_at(key@) is None,
            },
    {
        match self.get(key) {
            Some(v) => v.as_text(),
            None => None,
        }
    }

    /// The truth value under `key`.
    pub fn bool_at(&self, key: &str) -> (r: Option<bool>)
        ensures
            r == self@.bool_at(key@),
    {
        match self.get(key) {
            Some(v) => v.as_bool(),
            None => None,
        }
    }

    /// The unsigned integer under `key`.
    pub fn u64_at(&self, key: &str) -> (r: Option<u64>)
        ensures
            r == self@.u64_at(key@),
    {
        match self.get(key) {
            Some(v) => v.as_u64(),
            None => None,
        }
    }

    /// The array under `key`.
    pub fn array_at(&self, key: &str) -> (r: Option<&Vec<Json>>)
        ensures
            match r {
                Some(items) => self@.array_at(key@) == Some(items_model(items@)),
                None => self@.array_at(key@) is None,
            },
    {
        match self.get(key) {
            Some(v) => v.as_array(),
            None => None,
        }
    }

    /// The same value once more.
    pub fn copy(&self) -> (r: Json)
        ensures
            r@ == self@,
        decreases self,
    {
        broadcast use {lemma_array_model, lemma_object_model};

        match self {
            Json::Null => Json::Null,
            Json::Bool(b) => Json::Bool(*b),
            Json::Number(n) => Json::Number(n.copy()),
            Json::Text(s) => Json::Text(s.clone()),
            Json::Array(items) => {
                let mut out: Vec<Json> = Vec::new();
                let mut i: usize = 0;
                while i < items.len()
                    invariant
                        *self == Json::Array(*items),
                        i <= items.len(),
                        items_model(out@) == items_model(items@).take(i as int),
                    decreases items.len() - i,
                {
                    broadcast use lemma_items_push;

                    assert(decreases_to!(*self => self->Array_0));
                    assert(decreases_to!(*items => items@));
                    assert(decreases_to!(items@ => items@[i as int]));
                    let c = items[i].copy();
                    out.push(c);
                    i = i + 1;
                    assert(items_model(items@).take(i as int) =~= items_model(items@).take(
                        i - 1,
                    ).push(items_model(items@)[i - 1]));
                }
                assert(items_model(items@).take(i as int) =~= items_model(items@));
                Json::Array(out)
            },
            Json::Object(entries) => {
                let mut out: Vec<(String, Json)> = Vec::new();
                let mut i: usize = 0;
                while i < entries.len()
                    invariant
                        *self == Json::Object(*entries),
                        i <= entries.len(),
                        entries_model(out@) == entries_model(entries@).take(i as int),
                    decreases entries.len() - i,
                {
                    broadcast use lemma_entries_push;

                    assert(decreases_to!(*self => self->Object_0));
                    assert(decreases_to!(*entries => entries@));
                    assert(decreases_to!(entries@ => entries@[i as int]));
                    assert(decreases_to!(entries@[i as int] => entries@[i as int].1));
                    let k = entries[i].0.clone();
                    let c = entries[i].1.copy();
                    out.push((k, c));
                    i = i + 1;
                    assert(entries_model(entries@).take(i as int) =~= entries_model(entries@).take(
                        i - 1,
                    ).push(entries_model(entries@)[i - 1]));
                }
                assert(entries_model(entries@).take(i as int) =~= entries_model(entries@));
                Json::Object(out)
            },
        }
    }
}

/// A text as a JSON value.
pub fn json_text_of(s: &str) -> (r: Json)
    ensures
        r@ == JsonModel::Text(s@),
{
    Json::Text(s.to_owned())
}

/// A number as a JSON value.
pub fn json_number(n: u64) -> (r: Json)
    ensures
        r@ == JsonModel::Number(NumberModel::Unsigned(n)),
{
    Json::Number(Number::Unsigned(n))
}

/// What stands for a text that may be missing: null where it is.
pub open spec fn optional_text(s: Option<Seq<char>>) -> JsonModel {
    match s {
        Some(t) => JsonModel::Text(t),
        None => JsonModel::Null,
    }
}

/// A text, or null where there is none.
pub fn json_optional_text(s: &Option<String>) -> (r: Json)
    ensures
        r@ == optional_text(
            match *s {
                Some(t) => Some(t@),
                None => None,
            },
        ),
{
    match s {
        Some(t) => Json::Text(t.clone()),
        None => Json::Null,
    }
}

/// Puts an entry behind the entries of an object.
pub fn put(entries: &mut Vec<(String, Json)>, key: &str, value: Json)
    ensures
        entries_model(final(entries)@) == entries_model(old(entries)@).push((key@, value@)),
{
    broadcast use lemma_entries_push;

    let k = key.to_owned();
    entries.push((k, value));
}

/// Entries with the value for a key set: in its place where the key is there,
/// at the end where it is not.
pub open spec fn with_entry<T>(entries: Seq<(Seq<char>, T)>, key: Seq<char>, value: T) -> Seq<
    (Seq<char>, T),
>
    decreases entries.len(),
{
    if entries.len() == 0 {
        seq![(key, value)]
    } else if entries[0].0 == key {
        seq![(key, value)] + entries.skip(1)
    } else {
        seq![entries[0]] + with_entry(entries.skip(1), key, value)
    }
}

/// Sets the value for a key.
pub fn set_entry(entries: &mut Vec<(String, Json)>, key: &str, value: Json)
    ensures
        entries_model(final(entries)@) == with_entry(entries_model(old(entries)@), key@, value@),
{
    broadcast use lemma_entries_push;

    let ghost before = entries_model(entries@);
    let mut i: usize = 0;
    while i < entries.len()
        invariant
            i <= entries.len(),
            before == entries_model(entries@),
            before == entries_model(old(entries)@),
            forall|j: int| 0 <= j < i ==> (#[trigger] before[j]).0 != key@,
        decreases entries.len() - i,
    {
        if same(entries[i].0.as_str(), key) {
            let ghost v = value@;
            let k = key.to_owned();
            entries.set(i, (k, value));
            proof {
                lemma_with_entry(before, key@, v, i as int);
                assert(entries_model(entries@) =~= before.update(i as int, (key@, v)));
            }
            return;
        }
        i = i + 1;
    }
    proof {
        lemma_with_entry(before, key@, value@, i as int);
    }
    put(entries, key, value);
}

/// Setting the value for a key, by where the key stands first.
pub proof fn lemma_with_entry<T>(entries: Seq<(Seq<char>, T)>, key: Seq<char>, value: T, i: int)
    requires
        0 <= i <= entries.len(),
        forall|j: int| 0 <= j < i ==> (#[trigger] entries[j]).0 != key,
        i < entries.len() ==> entries[i].0 == key,
    ensures
        with_entry(entries, key, value) == (if i < entries.len() {
            entries.update(i, (key, value))
        } else {
            entries.push((key, value))
        }),
    decreases entries.len(),
{
    if entries.len() == 0 {
        assert(with_entry(entries, key, value) =~= entries.push((key, value)));
    } else if i == 0 {
        assert(with_entry(entries, key, value) =~= entries.update(0, (key, value)));
    } else {
        assert(entries[0].0 != key);
        assert forall|j: int| 0 <= j < i - 1 implies (#[trigger] entries.skip(1)[j]).0 != key by {
            assert(entries[j + 1].0 != key);
        }
        lemma_with_entry(entries.skip(1), key, value, i - 1);
        if i < entries.len() {
            assert(with_entry(entries, key, value) =~= entries.update(i, (key, value)));
        } else {
            assert(with_entry(entries, key, value) =~= entries.push((key, value)));
        }
    }
}

/// Setting a value keeps the keys distinct.
pub proof fn lemma_with_entry_distinct<T>(entries: Seq<(Seq<char>, T)>, key: Seq<char>, value: T)
    requires
        distinct_keys(entries),
    ensures
        distinct_keys(with_entry(entries, key, value)),
{
    if exists|i: int| 0 <= i < entries.len() && (#[trigger] entries[i]).0 == key {
        let i = choose|i: int| 0 <= i < entries.len() && (#[trigger] entries[i]).0 == key;
        lemma_with_entry(entries, key, value, i);
        let after = with_entry(entries, key, value);
        assert forall|a: int, b: int| 0 <= a < b < after.len() implies (#[trigger] after[a]).0 != (
        #[trigger] after[b]).0 by {
            assert(after[a].0 == entries[a].0);
            assert(after[b].0 == entries[b].0);
        }
    } else {
        lemma_with_entry(entries, key, value, entries.len() as int);
    }
}

/// An object with no entry.
pub fn no_entries() -> (r: Vec<(String, Json)>)
    ensures
        entries_model(r@) == Seq::<(Seq<char>, JsonModel)>::empty(),
{
    let r: Vec<(String, Json)> = Vec::new();
    assert(entries_model(r@) =~= Seq::<(Seq<char>, JsonModel)>::empty());
    r
}

/// The object with these entries.
pub fn object(entries: Vec<(String, Json)>) -> (r: Json)
    ensures
        r@ == JsonModel::Object(entries_model(entries@)),
{
    broadcast use lemma_object_model;

    Json::Object(entries)
}

/// The array of these items.
pub fn array(items: Vec<Json>) -> (r: Json)
    ensures
        r@ == JsonModel::Array(items_model(items@)),
{
    broadcast use lemma_array_model;

    Json::Array(items)
}

// ---------------------------------------------------------------------
// JSON text
// ---------------------------------------------------------------------

#[verifier::external_type_specification]
#[verifier::external_body]
pub struct ExSerdeValue(serde_json::Value);

/// What a `serde_json::Value` holds.
pub uninterp spec fn value_contents(v: Value) -> JsonModel;

/// What `serde_json::from_str` reads from a text: the value, or the words of
/// its error.
pub uninterp spec fn json_parsed(text: Seq<char>) -> Result<JsonModel, Seq<char>>;

/// A hexadecimal digit.
pub open spec fn small_digit(d: int) -> char {
    if d < 10 {
        (d + '0' as int) as char
    } else {
        (d - 10 + 'a' as int) as char
    }
}

/// A character in a JSON string literal: quotes, backslashes and control
/// characters are escaped.
pub open spec fn escaped(c: char) -> Seq<char> {
    if c == '"' || c == '\\' {
        seq!['\\', c]
    } else if c == '\n' {
        seq!['\\', 'n']
    } else if c == '\r' {
        seq!['\\', 'r']
    } else if c == '\t' {
        seq!['\\', 't']
    } else if c as int == 8 {
        seq!['\\', 'b']
    } else if c as int == 12 {
        seq!['\\', 'f']
    } else if (c as int) < 32 {
        seq!['\\', 'u', '0', '0', small_digit(c as int / 16), small_digit(c as int % 16)]
    } else {
        seq![c]
    }
}

/// A text in a JSON string literal, without the quotes round it.
pub open spec fn escaped_text(text: Seq<char>) -> Seq<char>
    decreases text.len(),
{
    if text.len() == 0 {
        Seq::empty()
    } else {
        escaped(text[0]) + escaped_text(text.skip(1))
    }
}

/// The JSON string literal of a text.
pub open spec fn json_literal(text: Seq<char>) -> Seq<char> {
    seq!['"'] + escaped_text(text) + seq!['"']
}

/// The text of a number.
pub open spec fn number_text(n: NumberModel) -> Seq<char> {
    match n {
        NumberModel::Unsigned(u) => decimal(u as nat),
        NumberModel::Negative(i) => if i < 0 {
            "-"@ + decimal((-i) as nat)
        } else {
            decimal(i as nat)
        },
        NumberModel::Float(s) => s,
    }
}

/// The compact JSON text of a value.
pub open spec fn json_printed(v: JsonModel) -> Seq<char>
    decreases v, 0nat,
{
    match v {
        JsonModel::Null => "null"@,
        JsonModel::Bool(b) => if b {
            "true"@
        } else {
            "false"@
        },
        JsonModel::Number(n) => number_text(n),
        JsonModel::Text(s) => json_literal(s),
        JsonModel::Array(items) => "["@ + printed_items(items) + "]"@,
        JsonModel::Object(entries) => "{"@ + printed_entries(entries) + "}"@,
    }
}

/// The compact JSON text of items, with commas between them.
pub open spec fn printed_items(items: Seq<JsonModel>) -> Seq<char>
    decreases items, 1nat,
{
    if items.len() == 0 {
        Seq::empty()
    } else if items.len() == 1 {
        json_printed(items.last())
    } else {
        printed_items(items.drop_last()) + ","@ + json_printed(items.last())
    }
}

/// The compact JSON text of entries, with commas between them.
pub open spec fn printed_entries(entries: Seq<(Seq<char>, JsonModel)>) -> Seq<char>
    decreases entries, 1nat,
{
    if entries.len() == 0 {
        Seq::empty()
    } else {
        let last = json_literal(entries.last().0) + ":"@ + json_printed(entries.last().1);
        if entries.len() == 1 {
            last
        } else {
            printed_entries(entries.drop_last()) + ","@ + last
        }
    }
}

/// The spaces at the beginning of a line.
pub open spec fn indentation(level: nat) -> Seq<char> {
    Seq::new(2 * level, |i: int| ' ')
}

/// The JSON text of a value with every item and entry on a line of its own,
/// two spaces further in than what holds it.
pub open spec fn printed_at(v: JsonModel, level: nat) -> Seq<char>
    decreases v, 0nat,
{
    match v {
        JsonModel::Array(items) => if items.len() == 0 {
            "[]"@
        } else {
            "["@ + items_at(items, level + 1) + "\n"@ + indentation(level) + "]"@
        },
        JsonModel::Object(entries) => if entries.len() == 0 {
            "{}"@
        } else {
            "{"@ + entries_at(entries, level + 1) + "\n"@ + indentation(level) + "}"@
        },
        _ => json_printed(v),
    }
}

/// The text of items, each on a line of its own.
pub open spec fn items_at(items: Seq<JsonModel>, level: nat) -> Seq<char>
    decreases items, 1nat,
{
    if items.len() == 0 {
        Seq::empty()
    } else {
        let line = "\n"@ + indentation(level) + printed_at(items.last(), level);
        if items.len() == 1 {
            line
        } else {
            items_at(items.drop_last(), level) + ","@ + line
        }
    }
}

/// The text of entries, each on a line of its own.
pub open spec fn entries_at(entries: Seq<(Seq<char>, JsonModel)>, level: nat) -> Seq<char>
    decreases entries, 1nat,
{
    if entries.len() == 0 {
        Seq::empty()
    } else {
        let line = "\n"@ + indentation(level) + json_literal(entries.last().0) + ": "@ + printed_at(
            entries.last().1,
            level,
        );
        if entries.len() == 1 {
            line
        } else {
            entries_at(entries.drop_last(), level) + ","@ + line
        }
    }
}

/// The JSON text of a value with line breaks and indentation.
pub open spec fn json_printed_pretty(v: JsonModel) -> Seq<char> {
    printed_at(v, 0)
}

/// What `serde_json::Number::as_f64` makes of a number: the decimal form of a
/// double. Nothing where the number is no finite double.
pub uninterp spec fn as_double(n: NumberModel) -> Option<Seq<char>>;

/// Whether a text is the decimal form of a double that is a whole number and
/// not negative. It has to be small enough for its digits, with the zero behind
/// the point, to be a whole number that a double holds exactly.
pub open spec fn is_whole(s: Seq<char>) -> bool {
    exists|n: nat| n * 10 <= 0x20_0000_0000_0000 && s == #[trigger] decimal(n) + ".0"@
}

/// A number as a `serde_json::Value` holds it. The decimal form of a double is
/// brought to the one that is written, and what is none becomes null.
pub open spec fn held_number(n: NumberModel) -> JsonModel {
    match n {
        NumberModel::Unsigned(_) => JsonModel::Number(n),
        NumberModel::Negative(i) => if i < 0 {
            JsonModel::Number(n)
        } else {
            JsonModel::Number(NumberModel::Unsigned(i as u64))
        },
        NumberModel::Float(s) => if is_whole(s) {
            JsonModel::Number(n)
        } else {
            match as_double(n) {
                Some(t) => JsonModel::Number(NumberModel::Float(t)),
                None => JsonModel::Null,
            }
        },
    }
}

/// Entries in the order of their keys with the value for a key set: in its
/// place where the key is there, before the keys that are after it where it is
/// not.
pub open spec fn keyed<T>(entries: Seq<(Seq<char>, T)>, key: Seq<char>, value: T) -> Seq<
    (Seq<char>, T),
>
    decreases entries.len(),
{
    if entries.len() == 0 {
        seq![(key, value)]
    } else if entries[0].0 == key {
        seq![(key, value)] + entries.skip(1)
    } else if not_after(entries[0].0, key) {
        seq![entries[0]] + keyed(entries.skip(1), key, value)
    } else {
        seq![(key, value)] + entries
    }
}

/// Entries in the order of their keys, of two with one key the last.
pub open spec fn tidy<T>(entries: Seq<(Seq<char>, T)>) -> Seq<(Seq<char>, T)>
    decreases entries.len(),
{
    if entries.len() == 0 {
        Seq::empty()
    } else {
        keyed(tidy(entries.drop_last()), entries.last().0, entries.last().1)
    }
}

/// Entries with each value replaced by what it is turned into.
pub open spec fn each<T, U>(entries: Seq<(Seq<char>, T)>, f: spec_fn(T) -> U) -> Seq<
    (Seq<char>, U),
> {
    Seq::new(entries.len(), |i: int| (entries[i].0, f(entries[i].1)))
}

/// A value as a `serde_json::Value` holds it: the entries of every object as a
/// map keeps them.
pub open spec fn with_map_entries(v: JsonModel) -> JsonModel
    decreases v, 0nat,
{
    match v {
        JsonModel::Number(n) => held_number(n),
        JsonModel::Array(items) => JsonModel::Array(
            Seq::new(
                items.len(),
                |i: int|
                    if 0 <= i < items.len() {
                        with_map_entries(items[i])
                    } else {
                        JsonModel::Null
                    },
            ),
        ),
        JsonModel::Object(entries) => JsonModel::Object(map_entries(entries)),
        _ => v,
    }
}

/// Entries as a `serde_json::Map` keeps them: in the order of their keys, of
/// two with one key the last.
pub open spec fn map_entries(entries: Seq<(Seq<char>, JsonModel)>) -> Seq<(Seq<char>, JsonModel)>
    decreases entries, 1nat,
{
    if entries.len() == 0 {
        Seq::empty()
    } else {
        keyed(
            map_entries(entries.drop_last()),
            entries.last().0,
            with_map_entries(entries.last().1),
        )
    }
}

/// Whether every number of a value is an integer of 64 bits or a whole double.
pub open spec fn is_exact(v: JsonModel) -> bool
    decreases v,
{
    match v {
        JsonModel::Number(NumberModel::Negative(i)) => i < 0,
        JsonModel::Number(NumberModel::Float(s)) => is_whole(s),
        JsonModel::Array(items) => forall|i: int|
            0 <= i < items.len() ==> is_exact(#[trigger] items[i]),
        JsonModel::Object(entries) => forall|i: int|
            0 <= i < entries.len() ==> is_exact((#[trigger] entries[i]).1),
        _ => true,
    }
}

/// Whether arrays and objects nest at most so many levels deep in a value.
pub open spec fn nests(v: JsonModel, levels: nat) -> bool
    decreases levels,
{
    match v {
        JsonModel::Array(items) => levels > 0 && forall|i: int|
            0 <= i < items.len() ==> nests(#[trigger] items[i], (levels - 1) as nat),
        JsonModel::Object(entries) => levels > 0 && forall|i: int|
            0 <= i < entries.len() ==> nests((#[trigger] entries[i]).1, (levels - 1) as nat),
        _ => true,
    }
}

/// Whether a value that is written as text is certain to be read back.
pub open spec fn reads_back(v: JsonModel) -> bool {
    is_exact(v) && nests(v, 100)
}

/// Whether a text is read as this value.
pub open spec fn is_text_of(text: Seq<char>, v: JsonModel) -> bool {
    json_parsed(text) == Ok::<JsonModel, Seq<char>>(v)
}

/// Whether a value is neither an array nor an object.
pub open spec fn is_leaf(v: JsonModel) -> bool {
    !(v is Array) && !(v is Object)
}

/// Whether each part of a text that is the text of an exact number, a text, a
/// truth value or null is read as that.
pub open spec fn parts_read_back(text: Seq<char>) -> bool {
    forall|v: JsonModel|
        is_leaf(v) && is_exact(v) && #[trigger] contains_text(text, json_printed(v)) ==> is_text_of(
            json_printed(v),
            v,
        )
}

/// Calls `serde_json::from_str`: what it reads, or the words of its error,
/// depends on the text alone.
#[verifier::external_body]
fn serde_parse(text: &str) -> (r: Result<Value, String>)
    ensures
        match r {
            Ok(v) => json_parsed(text@) == Ok::<JsonModel, Seq<char>>(value_contents(v)),
            Err(e) => json_parsed(text@) == Err::<JsonModel, Seq<char>>(e@),
        },
{
    match serde_json::from_str::<Value>(text) {
        Ok(v) => Ok(v),
        Err(e) => Err(e.to_string()),
    }
}

/// Whether `serde_json::from_str` finds a JSON text, whatever it says.
pub uninterp spec fn is_json_text(text: Seq<char>) -> bool;

/// Calls `serde_json::from_str` for a `serde::de::IgnoredAny`: it goes through
/// the text by the grammar of JSON alone, to the end, and keeps nothing. No
/// number is out of range for it, no escape half a pair, and no value too deep.
#[verifier::external_body]
pub(crate) fn check_json(text: &str) -> (r: bool)
    ensures
        r == is_json_text(text@),
{
    serde_json::from_str::<serde::de::IgnoredAny>(text).is_ok()
}

/// Reads a `serde_json::Value` out into a [`Json`], variant by variant; a
/// number that is no 64-bit integer goes by its decimal form. The objects of
/// such a value are maps, in which no key occurs twice.
#[verifier::external_body]
fn from_serde(v: &Value) -> (r: Json)
    ensures
        r@ == value_contents(*v),
        r@.well_keyed(),
{
    match v {
        Value::Null => Json::Null,
        Value::Bool(b) => Json::Bool(*b),
        Value::Number(n) => Json::Number(match (n.as_u64(), n.as_i64()) {
            (Some(u), _) => Number::Unsigned(u),
            (_, Some(i)) => Number::Negative(i),
            _ => Number::Float(n.to_string()),
        }),
        Value::String(s) => Json::Text(s.clone()),
        Value::Array(a) => Json::Array(a.iter().map(from_serde).collect()),
        Value::Object(m) => {
            Json::Object(m.iter().map(|(k, x)| (k.clone(), from_serde(x))).collect())
        },
    }
}

/// Builds a `serde_json::Value` from a [`Json`], variant by variant. The
/// entries of an object go into a `serde_json::Map`, which orders them by key
/// and keeps the last of those that share one. A decimal form is read by
/// `str::parse`: one that no finite double has becomes null, and that of a
/// whole number is kept.
#[verifier::external_body]
fn to_serde(j: &Json) -> (r: Value)
    ensures
        value_contents(r) == with_map_entries(j@),
{
    match j {
        Json::Null => Value::Null,
        Json::Bool(b) => Value::Bool(*b),
        Json::Number(Number::Unsigned(u)) => Value::from(*u),
        Json::Number(Number::Negative(i)) => Value::from(*i),
        Json::Number(Number::Float(s)) => {
            s.parse().ok().and_then(serde_json::Number::from_f64).map_or(Value::Null, Value::Number)
        },
        Json::Text(s) => Value::String(s.clone()),
        Json::Array(a) => a.iter().map(to_serde).collect(),
        Json::Object(m) => m.iter().map(|(k, x)| (k.clone(), to_serde(x))).collect(),
    }
}

/// Calls `serde_json::to_string` on a value, which writes its compact JSON
/// text. A value of this kind is always written, and what is written is always
/// JSON text. What it wrote
/// `serde_json::from_str` reads back, as long as all numbers are integers or
/// whole doubles and the value is not nested deeper than `from_str` goes; and
/// so it does by themselves with such numbers, with texts and with words in
/// what was written. Of other doubles nothing is said: what is read may differ
/// from what was written in the last digit.
#[verifier::external_body]
fn serde_print(v: &Value) -> (r: String)
    ensures
        r@ == json_printed(value_contents(*v)),
        is_json_text(r@),
        reads_back(value_contents(*v)) ==> is_text_of(r@, value_contents(*v)),
        parts_read_back(r@),
{
    serde_json::to_string(v).unwrap_or_default()
}

/// Calls `serde_json::to_string_pretty` on a value, which writes its JSON text
/// with line breaks and indentation. A value of this kind is always written.
#[verifier::external_body]
fn serde_print_pretty(v: &Value) -> (r: String)
    ensures
        r@ == json_printed_pretty(value_contents(*v)),
{
    serde_json::to_string_pretty(v).unwrap_or_default()
}

/// Calls `serde_json::to_string` on a text, which writes its JSON string
/// literal. A text is always written.
#[verifier::external_body]
pub(crate) fn quote(text: &str) -> (r: String)
    ensures
        r@ == json_literal(text@),
{
    serde_json::to_string(text).unwrap_or_default()
}

/// Calls `serde_json::Number::as_f64` and `serde_json::Number::from_f64`: the
/// decimal form of the double depends on the number alone.
#[verifier::external_body]
pub(crate) fn double_of(n: &Number) -> (r: Option<Number>)
    ensures
        match r {
            Some(d) => as_double(n@) is Some && d@ == NumberModel::Float(as_double(n@)->0),
            None => as_double(n@) is None,
        },
{
    let double = match n {
        Number::Unsigned(u) => serde_json::Number::from(*u).as_f64(),
        Number::Negative(i) => serde_json::Number::from(*i).as_f64(),
        Number::Float(s) => s.parse().ok(),
    };
    double.and_then(serde_json::Number::from_f64).map(|d| Number::Float(d.to_string()))
}

/// An array as a `serde_json::Value` holds it.
pub proof fn lemma_held_array(items: Seq<JsonModel>)
    ensures
        with_map_entries(JsonModel::Array(items)) == JsonModel::Array(
            Seq::new(items.len(), |i: int| with_map_entries(items[i])),
        ),
{
    let v = JsonModel::Array(items);
    assert(with_map_entries(v)->Array_0 =~= Seq::new(
        items.len(),
        |i: int| with_map_entries(items[i]),
    ));
}

/// Setting a value leaves the values for other keys alone.
pub proof fn lemma_keyed_entry<T>(
    entries: Seq<(Seq<char>, T)>,
    key: Seq<char>,
    value: T,
    other: Seq<char>,
)
    ensures
        entry(keyed(entries, key, value), other) == (if other == key {
            Some(value)
        } else {
            entry(entries, other)
        }),
    decreases entries.len(),
{
    let after = keyed(entries, key, value);
    if entries.len() == 0 {
        assert(after.skip(1) =~= Seq::empty());
        assert(entry(after.skip(1), other) is None);
    } else if entries[0].0 == key {
        assert(after.skip(1) =~= entries.skip(1));
    } else if not_after(entries[0].0, key) {
        lemma_keyed_entry(entries.skip(1), key, value, other);
        assert(after.skip(1) =~= keyed(entries.skip(1), key, value));
    } else {
        assert(after.skip(1) =~= entries);
    }
}

/// What holds of the values for all keys also holds after setting one of which
/// it holds.
pub proof fn lemma_keyed_all<T>(
    entries: Seq<(Seq<char>, T)>,
    key: Seq<char>,
    value: T,
    holds: spec_fn(T) -> bool,
)
    requires
        forall|i: int| 0 <= i < entries.len() ==> holds((#[trigger] entries[i]).1),
        holds(value),
    ensures
        forall|i: int|
            0 <= i < keyed(entries, key, value).len() ==> holds(
                (#[trigger] keyed(entries, key, value)[i]).1,
            ),
    decreases entries.len(),
{
    let after = keyed(entries, key, value);
    if entries.len() > 0 && entries[0].0 != key && not_after(entries[0].0, key) {
        let rest = entries.skip(1);
        assert forall|i: int| 0 <= i < rest.len() implies holds((#[trigger] rest[i]).1) by {
            assert(rest[i] == entries[i + 1]);
        }
        lemma_keyed_all(rest, key, value, holds);
        assert forall|i: int| 0 <= i < after.len() implies holds((#[trigger] after[i]).1) by {
            if i > 0 {
                assert(after[i] == keyed(rest, key, value)[i - 1]);
            } else {
                assert(after[0] == entries[0]);
            }
        }
    } else {
        assert forall|i: int| 0 <= i < after.len() implies holds((#[trigger] after[i]).1) by {
            if i > 0 && entries.len() > 0 {
                if entries[0].0 == key {
                    assert(after[i] == entries[i]);
                } else {
                    assert(after[i] == entries[i - 1]);
                }
            }
        }
    }
}

/// What holds of the values of all entries holds of them in order.
pub proof fn lemma_tidy_all<T>(entries: Seq<(Seq<char>, T)>, holds: spec_fn(T) -> bool)
    requires
        forall|i: int| 0 <= i < entries.len() ==> holds((#[trigger] entries[i]).1),
    ensures
        forall|i: int| 0 <= i < tidy(entries).len() ==> holds((#[trigger] tidy(entries)[i]).1),
    decreases entries.len(),
{
    if entries.len() > 0 {
        let front = entries.drop_last();
        assert forall|i: int| 0 <= i < front.len() implies holds((#[trigger] front[i]).1) by {
            assert(front[i] == entries[i]);
        }
        lemma_tidy_all(front, holds);
        assert(entries.last() == entries[entries.len() - 1]);
        lemma_keyed_all(tidy(front), entries.last().0, entries.last().1, holds);
    }
}

/// It does not matter whether a value is turned into another before or after
/// it is set.
proof fn lemma_keyed_each<T, U>(
    entries: Seq<(Seq<char>, T)>,
    key: Seq<char>,
    value: T,
    f: spec_fn(T) -> U,
)
    ensures
        keyed(each(entries, f), key, f(value)) == each(keyed(entries, key, value), f),
    decreases entries.len(),
{
    let turned = each(entries, f);
    if entries.len() > 0 {
        assert(turned[0] == (entries[0].0, f(entries[0].1)));
        assert(turned.skip(1) =~= each(entries.skip(1), f));
        lemma_keyed_each(entries.skip(1), key, value, f);
    }
    assert(keyed(turned, key, f(value)) =~= each(keyed(entries, key, value), f));
}

/// It does not matter whether values are turned into others before or after
/// the entries are put in order.
pub proof fn lemma_tidy_each<T, U>(entries: Seq<(Seq<char>, T)>, f: spec_fn(T) -> U)
    ensures
        tidy(each(entries, f)) == each(tidy(entries), f),
    decreases entries.len(),
{
    let turned = each(entries, f);
    if entries.len() > 0 {
        assert(turned.drop_last() =~= each(entries.drop_last(), f));
        lemma_tidy_each(entries.drop_last(), f);
        lemma_keyed_each(tidy(entries.drop_last()), entries.last().0, entries.last().1, f);
    } else {
        assert(tidy(turned) =~= each(tidy(entries), f));
    }
}

/// A map keeps entries in order.
pub proof fn lemma_map_entries(entries: Seq<(Seq<char>, JsonModel)>)
    ensures
        map_entries(entries) == each(tidy(entries), |v: JsonModel| with_map_entries(v)),
    decreases entries.len(),
{
    let f = |v: JsonModel| with_map_entries(v);
    if entries.len() > 0 {
        lemma_map_entries(entries.drop_last());
        lemma_keyed_each(tidy(entries.drop_last()), entries.last().0, entries.last().1, f);
    } else {
        assert(map_entries(entries) =~= each(tidy(entries), f));
    }
}

/// The value for a key, turned into another.
pub proof fn lemma_each_entry<T, U>(entries: Seq<(Seq<char>, T)>, f: spec_fn(T) -> U, key: Seq<char>)
    ensures
        entry(each(entries, f), key) == (match entry(entries, key) {
            Some(v) => Some(f(v)),
            None => None,
        }),
    decreases entries.len(),
{
    if entries.len() > 0 {
        assert(each(entries, f)[0] == (entries[0].0, f(entries[0].1)));
        assert(each(entries, f).skip(1) =~= each(entries.skip(1), f));
        lemma_each_entry(entries.skip(1), f, key);
    }
}

/// What holds of the values of all entries as a map keeps them.
proof fn lemma_map_entries_all(
    entries: Seq<(Seq<char>, JsonModel)>,
    holds: spec_fn(JsonModel) -> bool,
)
    requires
        forall|i: int|
            0 <= i < entries.len() ==> holds(with_map_entries((#[trigger] entries[i]).1)),
    ensures
        forall|i: int|
            0 <= i < map_entries(entries).len() ==> holds((#[trigger] map_entries(entries)[i]).1),
{
    let held = |v: JsonModel| holds(with_map_entries(v));
    lemma_map_entries(entries);
    lemma_tidy_all(entries, held);
    let after = map_entries(entries);
    assert forall|i: int| 0 <= i < after.len() implies holds((#[trigger] after[i]).1) by {
        assert(held(tidy(entries)[i].1));
    }
}

/// The numbers of a value stay exact in a map.
proof fn lemma_map_keeps_exact(v: JsonModel)
    requires
        is_exact(v),
    ensures
        is_exact(with_map_entries(v)),
    decreases v,
{
    match v {
        JsonModel::Array(items) => {
            lemma_held_array(items);
            let after = with_map_entries(v)->Array_0;
            assert forall|i: int| 0 <= i < after.len() implies is_exact(#[trigger] after[i]) by {
                assert(is_exact(items[i]));
                lemma_map_keeps_exact(items[i]);
            }
        },
        JsonModel::Object(entries) => {
            let holds = |j: JsonModel| is_exact(j);
            assert forall|i: int| 0 <= i < entries.len() implies holds(
                with_map_entries((#[trigger] entries[i]).1),
            ) by {
                lemma_map_keeps_exact(entries[i].1);
            }
            lemma_map_entries_all(entries, holds);
            let after = map_entries(entries);
            assert forall|i: int| 0 <= i < after.len() implies is_exact((#[trigger] after[i]).1) by {
                assert(holds(after[i].1));
            }
        },
        _ => {},
    }
}

/// A value is nested no deeper in a map.
proof fn lemma_map_keeps_nesting(v: JsonModel, levels: nat)
    requires
        nests(v, levels),
    ensures
        nests(with_map_entries(v), levels),
    decreases levels,
{
    match v {
        JsonModel::Array(items) => {
            lemma_held_array(items);
            let after = with_map_entries(v)->Array_0;
            assert forall|i: int| 0 <= i < after.len() implies nests(
                #[trigger] after[i],
                (levels - 1) as nat,
            ) by {
                assert(nests(items[i], (levels - 1) as nat));
                lemma_map_keeps_nesting(items[i], (levels - 1) as nat);
            }
        },
        JsonModel::Object(entries) => {
            let holds = |j: JsonModel| nests(j, (levels - 1) as nat);
            assert forall|i: int| 0 <= i < entries.len() implies holds(
                with_map_entries((#[trigger] entries[i]).1),
            ) by {
                lemma_map_keeps_nesting(entries[i].1, (levels - 1) as nat);
            }
            lemma_map_entries_all(entries, holds);
            let after = map_entries(entries);
            assert forall|i: int| 0 <= i < after.len() implies nests(
                (#[trigger] after[i]).1,
                (levels - 1) as nat,
            ) by {
                assert(holds(after[i].1));
            }
        },
        _ => {},
    }
}

/// The entry for a key is among the others where the last has another key.
proof fn lemma_entry_drop_last<T>(entries: Seq<(Seq<char>, T)>, key: Seq<char>)
    requires
        entries.len() > 0,
        entries.last().0 != key,
    ensures
        entry(entries, key) == entry(entries.drop_last(), key),
    decreases entries.len(),
{
    if entries.len() > 1 {
        if entries[0].0 != key {
            lemma_entry_drop_last(entries.skip(1), key);
            assert(entries.skip(1).drop_last() =~= entries.drop_last().skip(1));
        }
    } else {
        assert(entries.skip(1) =~= Seq::empty());
        assert(entries.drop_last() =~= Seq::empty());
        assert(entry(entries.skip(1), key) is None);
    }
}

/// Entries in order hold for a key what they held before, if no key occurs
/// twice.
pub proof fn lemma_tidy_entry<T>(entries: Seq<(Seq<char>, T)>, key: Seq<char>)
    requires
        distinct_keys(entries),
    ensures
        entry(tidy(entries), key) == entry(entries, key),
    decreases entries.len(),
{
    if entries.len() > 0 {
        let front = entries.drop_last();
        let last = entries.last();
        assert(last == entries[entries.len() - 1]);
        assert forall|i: int, j: int| 0 <= i < j < front.len() implies (#[trigger] front[i]).0 != (
        #[trigger] front[j]).0 by {
            assert(front[i] == entries[i]);
            assert(front[j] == entries[j]);
        }
        lemma_tidy_entry(front, key);
        lemma_keyed_entry(tidy(front), last.0, last.1, key);
        if last.0 == key {
            assert forall|j: int| 0 <= j < entries.len() - 1 implies (#[trigger] entries[j]).0
                != key by {
                assert(entries[entries.len() - 1].0 == key);
            }
            lemma_entry_skip(entries, key, entries.len() - 1);
            assert(entries.skip(entries.len() - 1)[0] == last);
        } else {
            lemma_entry_drop_last(entries, key);
        }
    }
}

/// Setting the value for a key that is not there adds one entry.
proof fn lemma_keyed_distinct<T>(entries: Seq<(Seq<char>, T)>, key: Seq<char>, value: T)
    requires
        distinct_keys(entries),
        entry(entries, key) is None,
    ensures
        distinct_keys(keyed(entries, key, value)),
        forall|i: int|
            0 <= i < keyed(entries, key, value).len() ==> (#[trigger] keyed(entries, key, value)[i]).0
                == key || exists|j: int|
                0 <= j < entries.len() && (#[trigger] entries[j]).0 == keyed(entries, key, value)[i].0,
    decreases entries.len(),
{
    let after = keyed(entries, key, value);
    lemma_no_entry(entries, key);
    if entries.len() > 0 {
        assert(entries[0].0 != key);
        if not_after(entries[0].0, key) {
            let rest = entries.skip(1);
            assert forall|i: int, j: int| 0 <= i < j < rest.len() implies (#[trigger] rest[i]).0 != (
            #[trigger] rest[j]).0 by {
                assert(rest[i] == entries[i + 1]);
                assert(rest[j] == entries[j + 1]);
            }
            lemma_keyed_distinct(rest, key, value);
            let tail = keyed(rest, key, value);
            assert forall|i: int| 0 <= i < after.len() implies (#[trigger] after[i]).0 == key
                || exists|j: int| 0 <= j < entries.len() && (#[trigger] entries[j]).0
                == after[i].0 by {
                if i > 0 {
                    assert(after[i] == tail[i - 1]);
                    if tail[i - 1].0 != key {
                        let j = choose|j: int|
                            0 <= j < rest.len() && (#[trigger] rest[j]).0 == tail[i - 1].0;
                        assert(entries[j + 1].0 == after[i].0);
                    }
                } else {
                    assert(after[0] == entries[0]);
                }
            }
            assert forall|i: int, j: int| 0 <= i < j < after.len() implies (#[trigger] after[i]).0
                != (#[trigger] after[j]).0 by {
                assert(after[j] == tail[j - 1]);
                if i > 0 {
                    assert(after[i] == tail[i - 1]);
                } else {
                    assert(after[0] == entries[0]);
                    if tail[j - 1].0 != key {
                        let k = choose|k: int|
                            0 <= k < rest.len() && (#[trigger] rest[k]).0 == tail[j - 1].0;
                        assert(rest[k] == entries[k + 1]);
                    }
                }
            }
        } else {
            assert forall|i: int| 0 < i < after.len() implies #[trigger] after[i] == entries[i
                - 1] by {}
            assert forall|i: int| 0 <= i < after.len() implies (#[trigger] after[i]).0 == key
                || exists|j: int| 0 <= j < entries.len() && (#[trigger] entries[j]).0
                == after[i].0 by {
                if i > 0 {
                    assert(entries[i - 1].0 == after[i].0);
                }
            }
        }
    }
}

/// Where there is no value for a key, no entry has that key.
proof fn lemma_no_entry<T>(entries: Seq<(Seq<char>, T)>, key: Seq<char>)
    requires
        entry(entries, key) is None,
    ensures
        forall|i: int| 0 <= i < entries.len() ==> (#[trigger] entries[i]).0 != key,
    decreases entries.len(),
{
    if entries.len() > 0 {
        lemma_no_entry(entries.skip(1), key);
        assert forall|i: int| 0 <= i < entries.len() implies (#[trigger] entries[i]).0 != key by {
            if i > 0 {
                assert(entries.skip(1)[i - 1] == entries[i]);
            }
        }
    }
}

/// Where no entry has a key, there is no value for it.
pub proof fn lemma_absent<T>(entries: Seq<(Seq<char>, T)>, key: Seq<char>)
    requires
        forall|i: int| 0 <= i < entries.len() ==> (#[trigger] entries[i]).0 != key,
    ensures
        entry(entries, key) is None,
{
    lemma_entry_skip(entries, key, entries.len() as int);
    assert(entries.skip(entries.len() as int) =~= Seq::empty());
}

/// In order, entries have distinct keys if they had.
pub proof fn lemma_tidy_distinct<T>(entries: Seq<(Seq<char>, T)>)
    requires
        distinct_keys(entries),
    ensures
        distinct_keys(tidy(entries)),
    decreases entries.len(),
{
    if entries.len() > 0 {
        let front = entries.drop_last();
        let last = entries.last();
        assert forall|i: int, j: int| 0 <= i < j < front.len() implies (#[trigger] front[i]).0 != (
        #[trigger] front[j]).0 by {
            assert(front[i] == entries[i]);
            assert(front[j] == entries[j]);
        }
        lemma_tidy_distinct(front);
        lemma_tidy_entry(front, last.0);
        assert forall|i: int| 0 <= i < front.len() implies (#[trigger] front[i]).0 != last.0 by {
            assert(front[i] == entries[i]);
            assert(entries[entries.len() - 1] == last);
        }
        lemma_absent(front, last.0);
        lemma_keyed_distinct(tidy(front), last.0, last.1);
    }
}

/// A map has distinct keys if the entries had.
pub proof fn lemma_map_distinct(entries: Seq<(Seq<char>, JsonModel)>)
    requires
        distinct_keys(entries),
    ensures
        distinct_keys(map_entries(entries)),
{
    lemma_map_entries(entries);
    lemma_tidy_distinct(entries);
    let after = map_entries(entries);
    assert forall|i: int, j: int| 0 <= i < j < after.len() implies (#[trigger] after[i]).0 != (
    #[trigger] after[j]).0 by {
        assert(after[i].0 == tidy(entries)[i].0);
        assert(after[j].0 == tidy(entries)[j].0);
    }
}

/// A map holds for a key what the entries held, if no key occurs twice.
pub proof fn lemma_map_entry(entries: Seq<(Seq<char>, JsonModel)>, key: Seq<char>)
    requires
        distinct_keys(entries),
    ensures
        entry(map_entries(entries), key) == (match entry(entries, key) {
            Some(v) => Some(with_map_entries(v)),
            None => None,
        }),
{
    lemma_map_entries(entries);
    lemma_tidy_entry(entries, key);
    lemma_each_entry(tidy(entries), |v: JsonModel| with_map_entries(v), key);
}

/// Reads JSON text.
pub fn parse_json(text: &str) -> (r: Result<Json, String>)
    ensures
        match r {
            Ok(j) => json_parsed(text@) == Ok::<JsonModel, Seq<char>>(j@) && j@.well_keyed(),
            Err(e) => json_parsed(text@) == Err::<JsonModel, Seq<char>>(e@),
        },
{
    match serde_parse(text) {
        Ok(v) => Ok(from_serde(&v)),
        Err(e) => Err(e),
    }
}

/// The compact JSON text of a value.
pub fn print_json(j: &Json) -> (r: String)
    ensures
        r@ == json_printed(with_map_entries(j@)),
        is_json_text(r@),
        reads_back(j@) ==> is_text_of(r@, with_map_entries(j@)) && every(r@) == with_map_entries(
            j@,
        ),
{
    let r = serde_print(&to_serde(j));
    proof {
        if reads_back(j@) {
            let v = with_map_entries(j@);
            lemma_map_keeps_exact(j@);
            lemma_map_keeps_nesting(j@, 100);
            assert(r@.subrange(0, r@.len() as int) =~= r@);
            assert(occurs_at(r@, json_printed(v), 0));
            lemma_leaves(v, r@);
            lemma_every(v);
        }
    }
    r
}

/// The indented JSON text of a value.
pub fn print_json_pretty(j: &Json) -> (r: String)
    ensures
        r@ == json_printed_pretty(with_map_entries(j@)),
{
    serde_print_pretty(&to_serde(j))
}

// ---------------------------------------------------------------------
// What holds of every text
// ---------------------------------------------------------------------

/// Whether a text holds no control character.
pub open spec fn is_plain_text(s: Seq<char>) -> bool {
    forall|i: int| 0 <= i < s.len() ==> (#[trigger] s[i]) as int >= 32
}

/// Whether the decimal forms in a value hold no control character.
pub open spec fn has_plain_numbers(v: JsonModel) -> bool
    decreases v,
{
    match v {
        JsonModel::Number(NumberModel::Float(s)) => is_plain_text(s),
        JsonModel::Array(items) => forall|i: int|
            0 <= i < items.len() ==> has_plain_numbers(#[trigger] items[i]),
        JsonModel::Object(entries) => forall|i: int|
            0 <= i < entries.len() ==> has_plain_numbers((#[trigger] entries[i]).1),
        _ => true,
    }
}

/// The digits of an escaped control character are plain characters.
pub proof fn lemma_control_digits(c: char)
    requires
        (c as int) < 32,
    ensures
        small_digit(c as int / 16) as int >= 48,
        small_digit(c as int % 16) as int >= 48,
        small_digit(c as int / 16) != '\\',
        small_digit(c as int % 16) != '\\',
{
    let hi = c as int / 16;
    let lo = c as int % 16;
    assert(0 <= hi < 2);
    assert(0 <= lo < 16);
    assert('0' as int == 48);
    assert('a' as int == 97);
    assert('\\' as int == 92);
    assert(small_digit(hi) as int == hi + 48);
    assert(small_digit(lo) as int == (if lo < 10 {
        lo + 48
    } else {
        lo + 87
    }));
}

/// A literal holds no control character, so that it stands on one line.
pub proof fn law_literals_hold_no_control(text: Seq<char>)
    ensures
        is_plain_text(json_literal(text)),
    decreases text.len(),
{
    if text.len() > 0 {
        let first = escaped(text[0]);
        let rest = json_literal(text.skip(1));
        law_literals_hold_no_control(text.skip(1));
        if (text[0] as int) < 32 {
            lemma_control_digits(text[0]);
        }
        assert(is_plain_text(first));
        assert(json_literal(text) =~= seq!['"'] + first + rest.skip(1));
        assert forall|i: int| 0 <= i < json_literal(text).len() implies (#[trigger] json_literal(
            text,
        )[i]) as int >= 32 by {
            if i > first.len() {
                assert(json_literal(text)[i] == rest[i - first.len()]);
            } else if i > 0 {
                assert(json_literal(text)[i] == first[i - 1]);
            }
        }
    } else {
        assert(escaped_text(text) =~= Seq::empty());
    }
}

/// A value is written on one line: its text holds no control character.
pub proof fn law_text_stands_on_one_line(v: JsonModel)
    requires
        has_plain_numbers(v),
    ensures
        is_plain_text(json_printed(v)),
    decreases v, 0nat,
{
    match v {
        JsonModel::Null => {
            reveal_strlit("null");
        },
        JsonModel::Bool(_) => {
            reveal_strlit("true");
            reveal_strlit("false");
        },
        JsonModel::Number(n) => {
            reveal_strlit("-");
            match n {
                NumberModel::Unsigned(u) => lemma_decimal_plain(u as nat),
                NumberModel::Negative(i) => {
                    lemma_decimal_plain((-i) as nat);
                    lemma_decimal_plain(i as nat);
                },
                NumberModel::Float(_) => {},
            }
        },
        JsonModel::Text(s) => law_literals_hold_no_control(s),
        JsonModel::Array(items) => {
            reveal_strlit("[");
            reveal_strlit("]");
            lemma_items_on_one_line(items);
        },
        JsonModel::Object(entries) => {
            reveal_strlit("{");
            reveal_strlit("}");
            lemma_entries_on_one_line(entries);
        },
    }
}

proof fn lemma_items_on_one_line(items: Seq<JsonModel>)
    requires
        forall|i: int| 0 <= i < items.len() ==> has_plain_numbers(#[trigger] items[i]),
    ensures
        is_plain_text(printed_items(items)),
    decreases items, 1nat,
{
    reveal_strlit(",");
    if items.len() > 0 {
        law_text_stands_on_one_line(items[items.len() - 1]);
        lemma_items_on_one_line(items.drop_last());
    }
}

proof fn lemma_entries_on_one_line(entries: Seq<(Seq<char>, JsonModel)>)
    requires
        forall|i: int| 0 <= i < entries.len() ==> has_plain_numbers((#[trigger] entries[i]).1),
    ensures
        is_plain_text(printed_entries(entries)),
    decreases entries, 1nat,
{
    reveal_strlit(",");
    reveal_strlit(":");
    if entries.len() > 0 {
        let last = entries[entries.len() - 1];
        law_literals_hold_no_control(last.0);
        law_text_stands_on_one_line(last.1);
        lemma_entries_on_one_line(entries.drop_last());
    }
}

proof fn lemma_decimal_plain(n: nat)
    ensures
        is_plain_text(decimal(n)),
    decreases n,
{
    if n >= 10 {
        lemma_decimal_plain(n / 10);
    }
}

/// A value that is set is found under its key, and nothing changes under any
/// other.
pub proof fn law_set_value_is_found<T>(
    entries: Seq<(Seq<char>, T)>,
    key: Seq<char>,
    value: T,
    other: Seq<char>,
)
    ensures
        entry(with_entry(entries, key, value), key) == Some(value),
        other != key ==> entry(with_entry(entries, key, value), other) == entry(entries, other),
    decreases entries.len(),
{
    let after = with_entry(entries, key, value);
    if entries.len() == 0 {
        assert(after[0] == (key, value));
        assert(after.skip(1) =~= entries);
    } else if entries[0].0 == key {
        assert(after[0] == (key, value));
        assert(after.skip(1) =~= entries.skip(1));
    } else {
        law_set_value_is_found(entries.skip(1), key, value, other);
        assert(after[0] == entries[0]);
        assert(after.skip(1) =~= with_entry(entries.skip(1), key, value));
    }
}

/// Of entries with one key the first counts, and there is none under a key that
/// no entry has.
pub proof fn law_first_entry_counts<T>(
    a: Seq<(Seq<char>, T)>,
    b: Seq<(Seq<char>, T)>,
    key: Seq<char>,
    value: T,
    other: Seq<char>,
)
    ensures
        entry(a, other) is Some ==> entry(a + b, other) == entry(a, other),
        entry(a, other) is None ==> entry(a + b, other) == entry(b, other),
        entry(seq![(key, value)], key) == Some(value),
        other != key ==> entry(seq![(key, value)], other) is None,
        entry(Seq::<(Seq<char>, T)>::empty(), other) is None,
    decreases a.len(),
{
    let one = seq![(key, value)];
    assert(one.skip(1) =~= Seq::empty());
    if a.len() == 0 {
        assert(a + b =~= b);
    } else {
        law_first_entry_counts(a.skip(1), b, key, value, other);
        assert((a + b).skip(1) =~= a.skip(1) + b);
    }
}

/// A value is had as what it is and as nothing else, and from an object by the
/// key that it stands under.
pub proof fn law_values_are_had_as_they_are(
    o: JsonModel,
    key: Seq<char>,
    s: Seq<char>,
    b: bool,
    n: u64,
    items: Seq<JsonModel>,
)
    ensures
        o.text_at(key) == Some(s) <==> o.get(key) == Some(JsonModel::Text(s)),
        o.bool_at(key) == Some(b) <==> o.get(key) == Some(JsonModel::Bool(b)),
        o.u64_at(key) == Some(n) <==> o.get(key) == Some(
            JsonModel::Number(NumberModel::Unsigned(n)),
        ),
        o.array_at(key) == Some(items) <==> o.get(key) == Some(JsonModel::Array(items)),
        !(o is Object) ==> o.get(key) is None,
        forall|entries: Seq<(Seq<char>, JsonModel)>|
            o == JsonModel::Object(entries) ==> #[trigger] entry(entries, key) == o.get(key),
{
}

/// An entry that is put goes behind the others; one that is set takes the place
/// of that with its key, or goes behind.
pub proof fn law_how_entries_are_added()
    ensures
        forall|entries: &mut Vec<(String, Json)>, key: &str, value: Json, r: ()| #[trigger]
            call_ensures(put, (entries, key, value), r) ==> entries_model((*final(entries))@)
                == entries_model((*entries)@).push((key@, value@)),
        forall|entries: &mut Vec<(String, Json)>, key: &str, value: Json, r: ()| #[trigger]
            call_ensures(set_entry, (entries, key, value), r) ==> entry(
                entries_model((*final(entries))@),
                key@,
            ) == Some(value@),
        forall|entries: &mut Vec<(String, Json)>, key: &str, value: Json, r: (), other: Seq<char>|
            #![trigger call_ensures(set_entry, (entries, key, value), r), entry(
                entries_model((*final(entries))@),
                other,
            )]
            call_ensures(set_entry, (entries, key, value), r) && other != key@ ==> entry(
                entries_model((*final(entries))@),
                other,
            ) == entry(entries_model((*entries)@), other),
{
    assert forall|entries: &mut Vec<(String, Json)>, key: &str, value: Json, r: ()| #[trigger]
        call_ensures(set_entry, (entries, key, value), r) implies entry(
        entries_model((*final(entries))@),
        key@,
    ) == Some(value@) by {
        law_set_value_is_found(entries_model((*entries)@), key@, value@, key@);
    }
    assert forall|
        entries: &mut Vec<(String, Json)>,
        key: &str,
        value: Json,
        r: (),
        other: Seq<char>,
    |
        #![trigger call_ensures(set_entry, (entries, key, value), r), entry(
            entries_model((*final(entries))@),
            other,
        )]
        call_ensures(set_entry, (entries, key, value), r) && other != key@ implies entry(
        entries_model((*final(entries))@),
        other,
    ) == entry(entries_model((*entries)@), other) by {
        law_set_value_is_found(entries_model((*entries)@), key@, value@, other);
    }
}

/// A value is asked for what it holds, and gives that if it is of the kind.
pub proof fn law_values_are_asked(
    j: &Json,
    key: &str,
    got: Option<&Json>,
    text: Option<&String>,
    truth: Option<bool>,
    count: Option<u64>,
    list: Option<&Vec<Json>>,
)
    requires
        call_ensures(Json::get, (j, key), got),
        call_ensures(Json::text_at, (j, key), text),
        call_ensures(Json::bool_at, (j, key), truth),
        call_ensures(Json::u64_at, (j, key), count),
        call_ensures(Json::array_at, (j, key), list),
    ensures
        got is Some <==> j@.get(key@) is Some,
        got is Some ==> j@.get(key@) == Some(got->0@),
        !(j@ is Object) ==> got is None,
        text is Some <==> got is Some && got->0@ is Text,
        text is Some ==> got->0@ == JsonModel::Text(text->0@),
        truth is Some <==> got is Some && got->0@ is Bool,
        truth is Some ==> got->0@ == JsonModel::Bool(truth->0),
        count is Some <==> got is Some && got->0@ is Number && got->0@->Number_0 is Unsigned,
        count is Some ==> got->0@ == JsonModel::Number(NumberModel::Unsigned(count->0)),
        list is Some <==> got is Some && got->0@ is Array,
        list is Some ==> got->0@ == JsonModel::Array(items_model(list->0@)),
{
}

/// Values are made of what is given, and a copy is the same value.
pub proof fn law_values_are_made(
    s: &str,
    text: Json,
    n: u64,
    number: Json,
    o: &Option<String>,
    optional: Json,
    j: &Json,
    copy: Json,
    entries: Vec<(String, Json)>,
    record: Json,
    items: Vec<Json>,
    list: Json,
)
    requires
        call_ensures(json_text_of, (s,), text),
        call_ensures(json_number, (n,), number),
        call_ensures(json_optional_text, (o,), optional),
        call_ensures(Json::copy, (j,), copy),
        call_ensures(object, (entries,), record),
        call_ensures(array, (items,), list),
    ensures
        text@ == JsonModel::Text(s@),
        number@ == JsonModel::Number(NumberModel::Unsigned(n)),
        *o is None ==> optional@ == JsonModel::Null,
        *o matches Some(t) ==> optional@ == JsonModel::Text(t@),
        copy@ == j@,
        record@ == JsonModel::Object(entries_model(entries@)),
        list@ == JsonModel::Array(items_model(items@)),
{
}

/// A value is what it is: a text, a truth value, a number or a list, and nothing
/// else.
pub proof fn law_values_are_one_thing(
    j: &Json,
    text: Option<&String>,
    truth: Option<bool>,
    count: Option<u64>,
    number: Option<&Number>,
    list: Option<&Vec<Json>>,
)
    requires
        call_ensures(Json::as_text, (j,), text),
        call_ensures(Json::as_bool, (j,), truth),
        call_ensures(Json::as_u64, (j,), count),
        call_ensures(Json::as_number, (j,), number),
        call_ensures(Json::as_array, (j,), list),
    ensures
        text is Some <==> j@ is Text,
        text is Some ==> j@ == JsonModel::Text(text->0@),
        truth is Some <==> j@ is Bool,
        truth is Some ==> j@ == JsonModel::Bool(truth->0),
        number is Some <==> j@ is Number,
        number is Some ==> j@ == JsonModel::Number(number->0@),
        count is Some <==> j@ is Number && j@->Number_0 is Unsigned,
        count is Some ==> j@ == JsonModel::Number(NumberModel::Unsigned(count->0)),
        list is Some <==> j@ is Array,
        list is Some ==> j@ == JsonModel::Array(items_model(list->0@)),
{
}

/// What is found among entries is the value of the first with the key.
pub proof fn law_entries_are_found(
    entries: &Vec<(String, Json)>,
    key: &str,
    r: Option<&Json>,
    i: int,
)
    requires
        call_ensures(find_entry, (entries, key), r),
    ensures
        (0 <= i < entries@.len() && entries@[i].0@ == key@ && forall|k: int|
            0 <= k < i ==> (#[trigger] entries@[k]).0@ != key@) ==> r is Some && r->0@
            == entries@[i].1@,
        (forall|k: int| 0 <= k < entries@.len() ==> (#[trigger] entries@[k]).0@ != key@) ==> r is None,
{
    let m = entries_model(entries@);
    assert(m.len() == entries@.len());
    assert(forall|k: int| 0 <= k < m.len() ==> #[trigger] m[k] == (entries@[k].0@, entries@[k].1@));
    if 0 <= i < entries@.len() && entries@[i].0@ == key@ && forall|k: int|
        0 <= k < i ==> (#[trigger] entries@[k]).0@ != key@ {
        assert forall|k: int| 0 <= k < i implies (#[trigger] m[k]).0 != key@ by {
            assert(entries@[k].0@ != key@);
        }
        lemma_entry_at(m, key@, i);
    }
    if forall|k: int| 0 <= k < entries@.len() ==> (#[trigger] entries@[k]).0@ != key@ {
        let n = m.len() as int;
        assert forall|k: int| 0 <= k < n implies (#[trigger] m[k]).0 != key@ by {
            assert(entries@[k].0@ != key@);
        }
        lemma_entry_skip(m, key@, n);
        assert(m.skip(n) =~= Seq::empty());
    }
}

} // verus!

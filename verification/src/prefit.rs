//! What was learned about a site before it is visited.
//!
//! A bundle holds, per domain, hosts to block besides those that are always
//! blocked, how long the site takes to settle, and posteriors over decisions.
//! It is read from JSON. Version 1 of the format has no posteriors, version 2
//! adds them; a bundle of any other version is refused.
use vstd::prelude::*;
use vstd::utf8::is_ascii_chars;

use crate::json::{
    array, check_json, distinct_keys, each, entries_model, entry, find_entry, is_exact, is_json_text,
    items_model, json_number, json_optional_text, json_printed, law_set_value_is_found,
    lemma_array_model, lemma_each_entry,
    lemma_entry_skip, lemma_held_array, lemma_items_push, lemma_map_distinct, lemma_map_entries,
    lemma_map_entry, lemma_object_model, lemma_tidy_all, lemma_tidy_distinct, lemma_tidy_each,
    lemma_tidy_entry, lemma_with_entry, lemma_with_entry_distinct, map_entries, nests, no_entries,
    object, optional_text, print_json, put, reads_back, tidy, with_entry,
    with_map_entries, Json, JsonModel, Number, NumberModel,
};
use crate::json_text::{every, read_every};
use crate::policy::{check_subdomain, is_subdomain};
use crate::text::{
    ascii_lowercase, concat, contains_str, contains_text, decimal, in_order, not_after, pad_left,
    pad_right, padded, padded_left, same, sorted_texts, texts_model, to_decimal, unicode_lowercase,
    words_model,
};
use crate::urls::{find_lower_host, lower_host, option_model};

verus! {

/// The newest version of the format that is understood.
pub const MAX_SUPPORTED_SCHEMA: u32 = 2;

/// The oldest version of the format that is understood.
pub const MIN_SUPPORTED_SCHEMA: u32 = 1;

/// How long a site takes to settle, in milliseconds.
#[derive(Debug, Clone, Copy, PartialEq, Eq, Structural)]
pub struct SettleDistribution {
    pub p50_ms: u32,
    pub p90_ms: u32,
    pub p95_ms: u32,
}

/// The posterior Beta(alpha, beta) over how often a decision turns out well.
#[derive(Debug)]
pub struct BetaPosterior {
    pub alpha: Number,
    pub beta: Number,
    /// How many observations it rests on; none for a placeholder.
    pub n: u64,
}

/// What is known of one domain.
#[derive(Debug)]
pub struct DomainPrefit {
    pub domain: String,
    pub framework: Option<String>,
    /// Hosts to block on this domain, with their subdomains.
    pub blocklist_additions: Vec<String>,
    /// Parts of URLs that are needed on this domain: a URL with one of them is
    /// fetched though it is blocked.
    pub required_patterns: Vec<String>,
    pub settle_distribution: Option<SettleDistribution>,
    pub shape_hint: Option<String>,
    /// Posteriors by decision, such as `block:<host>`.
    pub posteriors: Vec<(String, BetaPosterior)>,
}

/// What is known of the sites made with one framework.
#[derive(Debug)]
pub struct FrameworkPrefit {
    pub framework: String,
    pub blocklist_additions: Vec<String>,
    pub settle_distribution: Option<SettleDistribution>,
}

/// A bundle. Of two entries of a table with one key the first counts.
#[derive(Debug)]
pub struct PrefitBundle {
    pub schema_version: u32,
    pub fit_timestamp: u64,
    pub fit_corpus_size: u32,
    pub training_pipeline_version: String,
    pub domains: Vec<(String, DomainPrefit)>,
    pub framework_priors: Vec<(String, FrameworkPrefit)>,
}

// ---------------------------------------------------------------------
// Models
// ---------------------------------------------------------------------

/// What a [`BetaPosterior`] stands for.
pub struct PosteriorModel {
    pub alpha: NumberModel,
    pub beta: NumberModel,
    pub n: u64,
}

impl View for BetaPosterior {
    type V = PosteriorModel;

    open spec fn view(&self) -> PosteriorModel {
        PosteriorModel { alpha: self.alpha@, beta: self.beta@, n: self.n }
    }
}

/// What a table stands for.
pub open spec fn table_model<T: View>(table: Seq<(String, T)>) -> Seq<(Seq<char>, T::V)> {
    Seq::new(table.len(), |i: int| (table[i].0@, table[i].1@))
}

/// What a [`DomainPrefit`] stands for.
pub struct DomainModel {
    pub domain: Seq<char>,
    pub framework: Option<Seq<char>>,
    pub blocklist_additions: Seq<Seq<char>>,
    pub required_patterns: Seq<Seq<char>>,
    pub settle_distribution: Option<SettleDistribution>,
    pub shape_hint: Option<Seq<char>>,
    pub posteriors: Seq<(Seq<char>, PosteriorModel)>,
}

impl View for DomainPrefit {
    type V = DomainModel;

    open spec fn view(&self) -> DomainModel {
        DomainModel {
            domain: self.domain@,
            framework: option_model(self.framework),
            blocklist_additions: texts_model(self.blocklist_additions@),
            required_patterns: texts_model(self.required_patterns@),
            settle_distribution: self.settle_distribution,
            shape_hint: option_model(self.shape_hint),
            posteriors: table_model(self.posteriors@),
        }
    }
}

/// What a [`FrameworkPrefit`] stands for.
pub struct FrameworkModel {
    pub framework: Seq<char>,
    pub blocklist_additions: Seq<Seq<char>>,
    pub settle_distribution: Option<SettleDistribution>,
}

impl View for FrameworkPrefit {
    type V = FrameworkModel;

    open spec fn view(&self) -> FrameworkModel {
        FrameworkModel {
            framework: self.framework@,
            blocklist_additions: texts_model(self.blocklist_additions@),
            settle_distribution: self.settle_distribution,
        }
    }
}

/// What a [`PrefitBundle`] stands for.
pub struct BundleModel {
    pub schema_version: u32,
    pub fit_timestamp: u64,
    pub fit_corpus_size: u32,
    pub training_pipeline_version: Seq<char>,
    pub domains: Seq<(Seq<char>, DomainModel)>,
    pub framework_priors: Seq<(Seq<char>, FrameworkModel)>,
}

impl View for PrefitBundle {
    type V = BundleModel;

    open spec fn view(&self) -> BundleModel {
        BundleModel {
            schema_version: self.schema_version,
            fit_timestamp: self.fit_timestamp,
            fit_corpus_size: self.fit_corpus_size,
            training_pipeline_version: self.training_pipeline_version@,
            domains: table_model(self.domains@),
            framework_priors: table_model(self.framework_priors@),
        }
    }
}

// ---------------------------------------------------------------------
// Reading
// ---------------------------------------------------------------------

/// Whether no field is given twice. Keys that are none of the fields do not
/// count.
pub open spec fn has_once<T>(entries: Seq<(Seq<char>, T)>, fields: Seq<Seq<char>>) -> bool {
    forall|i: int, j: int|
        0 <= i < j < entries.len() && (#[trigger] entries[i]).0 == (#[trigger] entries[j]).0
            ==> !fields.contains(entries[i].0)
}

/// Whether a value can hold a record with these fields: an object has them by
/// name, each at most once, an array by position.
pub open spec fn is_record(j: JsonModel, fields: Seq<Seq<char>>) -> bool {
    match j {
        JsonModel::Object(entries) => has_once(entries, fields),
        JsonModel::Array(items) => items.len() <= fields.len(),
        _ => false,
    }
}

/// The fields of a bundle.
pub open spec fn bundle_fields() -> Seq<Seq<char>> {
    seq![
        "schema_version"@,
        "fit_timestamp"@,
        "fit_corpus_size"@,
        "training_pipeline_version"@,
        "domains"@,
        "framework_priors"@,
    ]
}

/// The fields of what is known of a domain.
pub open spec fn domain_fields() -> Seq<Seq<char>> {
    seq![
        "domain"@,
        "framework"@,
        "blocklist_additions"@,
        "required_patterns"@,
        "settle_distribution"@,
        "shape_hint"@,
        "posteriors"@,
    ]
}

/// The fields of what is known of a framework.
pub open spec fn framework_fields() -> Seq<Seq<char>> {
    seq!["framework"@, "blocklist_additions"@, "settle_distribution"@]
}

/// The fields of a posterior.
pub open spec fn posterior_fields() -> Seq<Seq<char>> {
    seq!["alpha"@, "beta"@, "n"@]
}

/// The fields of settle times.
pub open spec fn settle_fields() -> Seq<Seq<char>> {
    seq!["p50_ms"@, "p90_ms"@, "p95_ms"@]
}

/// The field of a record with this name and position.
pub open spec fn member(j: JsonModel, key: Seq<char>, i: int) -> Option<JsonModel> {
    match j {
        JsonModel::Object(entries) => entry(entries, key),
        JsonModel::Array(items) => if 0 <= i < items.len() {
            Some(items[i])
        } else {
            None
        },
        _ => None,
    }
}

/// Reads a 32-bit number that has to be there.
pub open spec fn read_u32(v: Option<JsonModel>) -> Option<u32> {
    match v {
        Some(JsonModel::Number(NumberModel::Unsigned(n))) => if n <= u32::MAX {
            Some(n as u32)
        } else {
            None
        },
        _ => None,
    }
}

/// Reads a 64-bit number that has to be there.
pub open spec fn read_u64_field(v: Option<JsonModel>) -> Option<u64> {
    match v {
        Some(j) => j.as_u64(),
        None => None,
    }
}

/// Reads a count that is zero where it is missing.
pub open spec fn read_count(v: Option<JsonModel>) -> Option<u64> {
    match v {
        Some(j) => j.as_u64(),
        None => Some(0),
    }
}

/// Reads a number that has to be there.
pub open spec fn read_number(v: Option<JsonModel>) -> Option<NumberModel> {
    match v {
        Some(j) => j.as_number(),
        None => None,
    }
}

/// Reads a text that has to be there.
pub open spec fn read_text(v: Option<JsonModel>) -> Option<Seq<char>> {
    match v {
        Some(j) => j.as_text(),
        None => None,
    }
}

/// Reads a text that may be missing or null.
pub open spec fn read_optional_text(v: Option<JsonModel>) -> Option<Option<Seq<char>>> {
    match v {
        None => Some(None),
        Some(JsonModel::Null) => Some(None),
        Some(JsonModel::Text(s)) => Some(Some(s)),
        Some(_) => None,
    }
}

/// Reads texts, all of them.
pub open spec fn read_items(items: Seq<JsonModel>) -> Option<Seq<Seq<char>>>
    decreases items.len(),
{
    if items.len() == 0 {
        Some(Seq::empty())
    } else {
        match (read_items(items.drop_last()), items.last()) {
            (Some(texts), JsonModel::Text(s)) => Some(texts.push(s)),
            _ => None,
        }
    }
}

/// Reads a list of texts that is empty where it is missing.
pub open spec fn read_texts(v: Option<JsonModel>) -> Option<Seq<Seq<char>>> {
    match v {
        None => Some(Seq::empty()),
        Some(JsonModel::Array(items)) => read_items(items),
        Some(_) => None,
    }
}

/// Reads settle times that may be missing or null.
pub open spec fn read_settle(v: Option<JsonModel>) -> Option<Option<SettleDistribution>> {
    match v {
        None => Some(None),
        Some(JsonModel::Null) => Some(None),
        Some(j) => if is_record(j, settle_fields()) {
            match (
                read_u32(member(j, "p50_ms"@, 0)),
                read_u32(member(j, "p90_ms"@, 1)),
                read_u32(member(j, "p95_ms"@, 2)),
            ) {
                (Some(p50_ms), Some(p90_ms), Some(p95_ms)) => Some(
                    Some(SettleDistribution { p50_ms, p90_ms, p95_ms }),
                ),
                _ => None,
            }
        } else {
            None
        },
    }
}

/// Reads a posterior.
pub open spec fn read_posterior(j: JsonModel) -> Option<PosteriorModel> {
    if is_record(j, posterior_fields()) {
        match (
            read_number(member(j, "alpha"@, 0)),
            read_number(member(j, "beta"@, 1)),
            read_count(member(j, "n"@, 2)),
        ) {
            (Some(alpha), Some(beta), Some(n)) => Some(PosteriorModel { alpha, beta, n }),
            _ => None,
        }
    } else {
        None
    }
}

/// Reads posteriors, all of them. Of two with one key the last counts.
pub open spec fn read_posterior_entries(entries: Seq<(Seq<char>, JsonModel)>) -> Option<
    Seq<(Seq<char>, PosteriorModel)>,
>
    decreases entries.len(),
{
    if entries.len() == 0 {
        Some(Seq::empty())
    } else {
        match (read_posterior_entries(entries.drop_last()), read_posterior(entries.last().1)) {
            (Some(table), Some(p)) => Some(with_entry(table, entries.last().0, p)),
            _ => None,
        }
    }
}

/// Reads a table of posteriors that is empty where it is missing.
pub open spec fn read_posteriors(v: Option<JsonModel>) -> Option<Seq<(Seq<char>, PosteriorModel)>> {
    match v {
        None => Some(Seq::empty()),
        Some(JsonModel::Object(entries)) => read_posterior_entries(entries),
        Some(_) => None,
    }
}

/// Reads what is known of a domain.
pub open spec fn read_domain(j: JsonModel) -> Option<DomainModel> {
    if is_record(j, domain_fields()) {
        match (
            read_text(member(j, "domain"@, 0)),
            read_optional_text(member(j, "framework"@, 1)),
            read_texts(member(j, "blocklist_additions"@, 2)),
            read_texts(member(j, "required_patterns"@, 3)),
            read_settle(member(j, "settle_distribution"@, 4)),
            read_optional_text(member(j, "shape_hint"@, 5)),
            read_posteriors(member(j, "posteriors"@, 6)),
        ) {
            (
                Some(domain),
                Some(framework),
                Some(blocklist_additions),
                Some(required_patterns),
                Some(settle_distribution),
                Some(shape_hint),
                Some(posteriors),
            ) => Some(
                DomainModel {
                    domain,
                    framework,
                    blocklist_additions,
                    required_patterns,
                    settle_distribution,
                    shape_hint,
                    posteriors,
                },
            ),
            _ => None,
        }
    } else {
        None
    }
}

/// Reads domains, all of them. Of two with one key the last counts.
pub open spec fn read_domain_entries(entries: Seq<(Seq<char>, JsonModel)>) -> Option<
    Seq<(Seq<char>, DomainModel)>,
>
    decreases entries.len(),
{
    if entries.len() == 0 {
        Some(Seq::empty())
    } else {
        match (read_domain_entries(entries.drop_last()), read_domain(entries.last().1)) {
            (Some(table), Some(d)) => Some(with_entry(table, entries.last().0, d)),
            _ => None,
        }
    }
}

/// Reads the table of domains, which has to be there.
pub open spec fn read_domains(v: Option<JsonModel>) -> Option<Seq<(Seq<char>, DomainModel)>> {
    match v {
        Some(JsonModel::Object(entries)) => read_domain_entries(entries),
        _ => None,
    }
}

/// Reads what is known of a framework.
pub open spec fn read_framework(j: JsonModel) -> Option<FrameworkModel> {
    if is_record(j, framework_fields()) {
        match (
            read_text(member(j, "framework"@, 0)),
            read_texts(member(j, "blocklist_additions"@, 1)),
            read_settle(member(j, "settle_distribution"@, 2)),
        ) {
            (Some(framework), Some(blocklist_additions), Some(settle_distribution)) => Some(
                FrameworkModel { framework, blocklist_additions, settle_distribution },
            ),
            _ => None,
        }
    } else {
        None
    }
}

/// Reads frameworks, all of them. Of two with one key the last counts.
pub open spec fn read_framework_entries(entries: Seq<(Seq<char>, JsonModel)>) -> Option<
    Seq<(Seq<char>, FrameworkModel)>,
>
    decreases entries.len(),
{
    if entries.len() == 0 {
        Some(Seq::empty())
    } else {
        match (read_framework_entries(entries.drop_last()), read_framework(entries.last().1)) {
            (Some(table), Some(f)) => Some(with_entry(table, entries.last().0, f)),
            _ => None,
        }
    }
}

/// Reads the table of frameworks, which is empty where it is missing.
pub open spec fn read_frameworks(v: Option<JsonModel>) -> Option<Seq<(Seq<char>, FrameworkModel)>> {
    match v {
        None => Some(Seq::empty()),
        Some(JsonModel::Object(entries)) => read_framework_entries(entries),
        Some(_) => None,
    }
}

/// Reads a bundle of any version.
pub open spec fn read_bundle(j: JsonModel) -> Option<BundleModel> {
    if is_record(j, bundle_fields()) {
        match (
            read_u32(member(j, "schema_version"@, 0)),
            read_u64_field(member(j, "fit_timestamp"@, 1)),
            read_u32(member(j, "fit_corpus_size"@, 2)),
            read_text(member(j, "training_pipeline_version"@, 3)),
            read_domains(member(j, "domains"@, 4)),
            read_frameworks(member(j, "framework_priors"@, 5)),
        ) {
            (
                Some(schema_version),
                Some(fit_timestamp),
                Some(fit_corpus_size),
                Some(training_pipeline_version),
                Some(domains),
                Some(framework_priors),
            ) => Some(
                BundleModel {
                    schema_version,
                    fit_timestamp,
                    fit_corpus_size,
                    training_pipeline_version,
                    domains,
                    framework_priors,
                },
            ),
            _ => None,
        }
    } else {
        None
    }
}

/// Whether a version of the format is understood.
pub open spec fn is_supported(schema_version: u32) -> bool {
    MIN_SUPPORTED_SCHEMA <= schema_version <= MAX_SUPPORTED_SCHEMA
}

/// Whether no key occurs twice in a table of a bundle.
pub open spec fn is_keyed(b: BundleModel) -> bool {
    &&& distinct_keys(b.domains)
    &&& forall|i: int|
        0 <= i < b.domains.len() ==> distinct_keys((#[trigger] b.domains[i]).1.posteriors)
    &&& distinct_keys(b.framework_priors)
}

/// The bundle that a value holds, if it is one of a version that is
/// understood.
pub open spec fn accepted_bundle(j: JsonModel) -> Option<BundleModel> {
    match read_bundle(j) {
        Some(b) => if is_supported(b.schema_version) {
            Some(b)
        } else {
            None
        },
        None => None,
    }
}

/// Whether a text is among others.
fn is_among(texts: &Vec<&'static str>, text: &str) -> (r: bool)
    ensures
        r == words_model(texts@).contains(text@),
{
    let mut i: usize = 0;
    while i < texts.len()
        invariant
            i <= texts.len(),
            forall|j: int| 0 <= j < i ==> #[trigger] words_model(texts@)[j] != text@,
        decreases texts.len() - i,
    {
        if same(texts[i], text) {
            assert(words_model(texts@)[i as int] == text@);
            return true;
        }
        i = i + 1;
    }
    false
}

/// Whether no field is given twice.
fn check_once(entries: &Vec<(String, Json)>, fields: &Vec<&'static str>) -> (r: bool)
    ensures
        r == has_once(entries_model(entries@), words_model(fields@)),
{
    let ghost m = entries_model(entries@);
    let mut j: usize = 0;
    while j < entries.len()
        invariant
            j <= entries.len(),
            m == entries_model(entries@),
            forall|a: int, b: int|
                0 <= a < b < j && (#[trigger] m[a]).0 == (#[trigger] m[b]).0 ==> !words_model(
                    fields@,
                ).contains(m[a].0),
        decreases entries.len() - j,
    {
        if is_among(fields, entries[j].0.as_str()) {
            let mut i: usize = 0;
            while i < j
                invariant
                    i <= j < entries.len(),
                    m == entries_model(entries@),
                    words_model(fields@).contains(m[j as int].0),
                    forall|a: int| 0 <= a < i ==> (#[trigger] m[a]).0 != m[j as int].0,
                decreases j - i,
            {
                if same(entries[i].0.as_str(), entries[j].0.as_str()) {
                    assert(m[i as int].0 == m[j as int].0);
                    return false;
                }
                i = i + 1;
            }
        }
        j = j + 1;
    }
    true
}

/// Whether a value can hold a record with these fields.
fn check_record(j: &Json, fields: &Vec<&'static str>) -> (r: bool)
    ensures
        r == is_record(j@, words_model(fields@)),
{
    broadcast use {lemma_array_model, lemma_object_model};

    match j {
        Json::Object(entries) => check_once(entries, fields),
        Json::Array(items) => items.len() <= fields.len(),
        _ => false,
    }
}

/// Sets the value for a key in a table.
fn assign<T: View>(table: &mut Vec<(String, T)>, key: &str, value: T)
    ensures
        table_model(final(table)@) == with_entry(table_model(old(table)@), key@, value@),
{
    let ghost m = table_model(table@);
    let ghost v = value@;
    let mut i: usize = 0;
    while i < table.len() && !same(table[i].0.as_str(), key)
        invariant
            i <= table.len(),
            m == table_model(table@),
            forall|j: int| 0 <= j < i ==> (#[trigger] m[j]).0 != key@,
        decreases table.len() - i,
    {
        i = i + 1;
    }
    let pair = (key.to_owned(), value);
    if i < table.len() {
        table.set(i, pair);
        assert(table_model(table@) =~= m.update(i as int, (key@, v)));
    } else {
        table.push(pair);
        assert(table_model(table@) =~= m.push((key@, v)));
    }
    proof {
        lemma_with_entry(m, key@, v, i as int);
    }
}

/// What a value that may be missing stands for.
pub open spec fn optional_model(v: Option<&Json>) -> Option<JsonModel> {
    match v {
        Some(j) => Some(j@),
        None => None,
    }
}

/// The field of a record with this name and position.
fn find_member<'a>(j: &'a Json, key: &str, i: usize) -> (r: Option<&'a Json>)
    ensures
        optional_model(r) == member(j@, key@, i as int),
{
    broadcast use {lemma_array_model, lemma_object_model};

    match j {
        Json::Object(entries) => find_entry(entries, key),
        Json::Array(items) => if i < items.len() {
            Some(&items[i])
        } else {
            None
        },
        _ => None,
    }
}

fn decode_u32(v: Option<&Json>) -> (r: Option<u32>)
    ensures
        r == read_u32(optional_model(v)),
{
    match v {
        Some(Json::Number(Number::Unsigned(n))) => if *n <= 0xffff_ffff {
            Some(*n as u32)
        } else {
            None
        },
        _ => None,
    }
}

fn decode_u64(v: Option<&Json>) -> (r: Option<u64>)
    ensures
        r == read_u64_field(optional_model(v)),
{
    match v {
        Some(j) => j.as_u64(),
        None => None,
    }
}

fn decode_count(v: Option<&Json>) -> (r: Option<u64>)
    ensures
        r == read_count(optional_model(v)),
{
    match v {
        Some(j) => j.as_u64(),
        None => Some(0),
    }
}

fn decode_number(v: Option<&Json>) -> (r: Option<Number>)
    ensures
        match r {
            Some(n) => read_number(optional_model(v)) == Some(n@),
            None => read_number(optional_model(v)) is None,
        },
{
    match v {
        Some(j) => match j.as_number() {
            Some(n) => Some(n.copy()),
            None => None,
        },
        None => None,
    }
}

fn decode_text(v: Option<&Json>) -> (r: Option<String>)
    ensures
        option_model(r) == read_text(optional_model(v)),
{
    match v {
        Some(j) => match j.as_text() {
            Some(s) => Some(s.clone()),
            None => None,
        },
        None => None,
    }
}

fn decode_optional_text(v: Option<&Json>) -> (r: Option<Option<String>>)
    ensures
        match r {
            Some(s) => read_optional_text(optional_model(v)) == Some(option_model(s)),
            None => read_optional_text(optional_model(v)) is None,
        },
{
    match v {
        None => Some(None),
        Some(Json::Null) => Some(None),
        Some(Json::Text(s)) => Some(Some(s.clone())),
        Some(_) => None,
    }
}

fn decode_texts(v: Option<&Json>) -> (r: Option<Vec<String>>)
    ensures
        match r {
            Some(texts) => read_texts(optional_model(v)) == Some(texts_model(texts@)),
            None => read_texts(optional_model(v)) is None,
        },
{
    broadcast use lemma_array_model;

    let mut out: Vec<String> = Vec::new();
    assert(texts_model(out@) =~= Seq::empty());
    match v {
        None => Some(out),
        Some(Json::Array(items)) => {
            let ghost m = items_model(items@);
            let mut i: usize = 0;
            assert(m.take(0) =~= Seq::empty());
            while i < items.len()
                invariant
                    i <= items.len(),
                    m == items_model(items@),
                    optional_model(v) == Some(JsonModel::Array(m)),
                    read_items(m.take(i as int)) == Some(texts_model(out@)),
                decreases items.len() - i,
            {
                proof {
                    assert(m.take(i + 1).drop_last() =~= m.take(i as int));
                    assert(m.take(i + 1).last() == m[i as int]);
                    if read_items(m.take(i + 1)) is None {
                        lemma_read_items_prefix(m, i + 1);
                    }
                }
                match &items[i] {
                    Json::Text(s) => {
                        let ghost before = texts_model(out@);
                        out.push(s.clone());
                        assert(texts_model(out@) =~= before.push(s@));
                    },
                    _ => {
                        return None;
                    },
                }
                i = i + 1;
            }
            assert(m.take(i as int) =~= m);
            Some(out)
        },
        Some(_) => None,
    }
}

/// Items that cannot all be read cannot be read with more behind them.
proof fn lemma_read_items_prefix(items: Seq<JsonModel>, k: int)
    requires
        0 <= k <= items.len(),
        read_items(items.take(k)) is None,
    ensures
        read_items(items) is None,
    decreases items.len() - k,
{
    if k < items.len() {
        assert(items.take(k + 1).drop_last() =~= items.take(k));
        lemma_read_items_prefix(items, k + 1);
    } else {
        assert(items.take(k) =~= items);
    }
}

fn decode_settle(v: Option<&Json>) -> (r: Option<Option<SettleDistribution>>)
    ensures
        r == read_settle(optional_model(v)),
{
    match v {
        None => Some(None),
        Some(Json::Null) => Some(None),
        Some(j) => {
            let fields: Vec<&'static str> = vec!["p50_ms", "p90_ms", "p95_ms"];
            assert(words_model(fields@) =~= settle_fields());
            if !check_record(j, &fields) {
                return None;
            }
            match (
                decode_u32(find_member(j, "p50_ms", 0)),
                decode_u32(find_member(j, "p90_ms", 1)),
                decode_u32(find_member(j, "p95_ms", 2)),
            ) {
                (Some(p50_ms), Some(p90_ms), Some(p95_ms)) => Some(
                    Some(SettleDistribution { p50_ms, p90_ms, p95_ms }),
                ),
                _ => None,
            }
        },
    }
}

fn decode_posterior(j: &Json) -> (r: Option<BetaPosterior>)
    ensures
        match r {
            Some(p) => read_posterior(j@) == Some(p@),
            None => read_posterior(j@) is None,
        },
{
    let fields: Vec<&'static str> = vec!["alpha", "beta", "n"];
    assert(words_model(fields@) =~= posterior_fields());
    if !check_record(j, &fields) {
        return None;
    }
    match (
        decode_number(find_member(j, "alpha", 0)),
        decode_number(find_member(j, "beta", 1)),
        decode_count(find_member(j, "n", 2)),
    ) {
        (Some(alpha), Some(beta), Some(n)) => Some(BetaPosterior { alpha, beta, n }),
        _ => None,
    }
}

/// Posteriors that cannot all be read cannot be read with more behind them.
proof fn lemma_read_posteriors_prefix(entries: Seq<(Seq<char>, JsonModel)>, k: int)
    requires
        0 <= k <= entries.len(),
        read_posterior_entries(entries.take(k)) is None,
    ensures
        read_posterior_entries(entries) is None,
    decreases entries.len() - k,
{
    if k < entries.len() {
        assert(entries.take(k + 1).drop_last() =~= entries.take(k));
        lemma_read_posteriors_prefix(entries, k + 1);
    } else {
        assert(entries.take(k) =~= entries);
    }
}

fn decode_posteriors(v: Option<&Json>) -> (r: Option<Vec<(String, BetaPosterior)>>)
    ensures
        match r {
            Some(table) => read_posteriors(optional_model(v)) == Some(table_model(table@)),
            None => read_posteriors(optional_model(v)) is None,
        },
{
    broadcast use lemma_object_model;

    let mut out: Vec<(String, BetaPosterior)> = Vec::new();
    assert(table_model(out@) =~= Seq::empty());
    match v {
        None => Some(out),
        Some(Json::Object(entries)) => {
            let ghost m = entries_model(entries@);
            let mut i: usize = 0;
            assert(m.take(0) =~= Seq::empty());
            while i < entries.len()
                invariant
                    i <= entries.len(),
                    m == entries_model(entries@),
                    optional_model(v) == Some(JsonModel::Object(m)),
                    read_posterior_entries(m.take(i as int)) == Some(table_model(out@)),
                decreases entries.len() - i,
            {
                proof {
                    assert(m.take(i + 1).drop_last() =~= m.take(i as int));
                    assert(m.take(i + 1).last() == m[i as int]);
                    if read_posterior_entries(m.take(i + 1)) is None {
                        lemma_read_posteriors_prefix(m, i + 1);
                    }
                }
                match decode_posterior(&entries[i].1) {
                    Some(p) => {
                        assign(&mut out, entries[i].0.as_str(), p);
                    },
                    None => {
                        return None;
                    },
                }
                i = i + 1;
            }
            assert(m.take(i as int) =~= m);
            Some(out)
        },
        Some(_) => None,
    }
}

fn decode_domain(j: &Json) -> (r: Option<DomainPrefit>)
    ensures
        match r {
            Some(d) => read_domain(j@) == Some(d@),
            None => read_domain(j@) is None,
        },
{
    let fields: Vec<&'static str> = vec![
        "domain",
        "framework",
        "blocklist_additions",
        "required_patterns",
        "settle_distribution",
        "shape_hint",
        "posteriors",
    ];
    assert(words_model(fields@) =~= domain_fields());
    if !check_record(j, &fields) {
        return None;
    }
    match (
        decode_text(find_member(j, "domain", 0)),
        decode_optional_text(find_member(j, "framework", 1)),
        decode_texts(find_member(j, "blocklist_additions", 2)),
        decode_texts(find_member(j, "required_patterns", 3)),
        decode_settle(find_member(j, "settle_distribution", 4)),
        decode_optional_text(find_member(j, "shape_hint", 5)),
        decode_posteriors(find_member(j, "posteriors", 6)),
    ) {
        (
            Some(domain),
            Some(framework),
            Some(blocklist_additions),
            Some(required_patterns),
            Some(settle_distribution),
            Some(shape_hint),
            Some(posteriors),
        ) => Some(
            DomainPrefit {
                domain,
                framework,
                blocklist_additions,
                required_patterns,
                settle_distribution,
                shape_hint,
                posteriors,
            },
        ),
        _ => None,
    }
}

/// Domains that cannot all be read cannot be read with more behind them.
proof fn lemma_read_domains_prefix(entries: Seq<(Seq<char>, JsonModel)>, k: int)
    requires
        0 <= k <= entries.len(),
        read_domain_entries(entries.take(k)) is None,
    ensures
        read_domain_entries(entries) is None,
    decreases entries.len() - k,
{
    if k < entries.len() {
        assert(entries.take(k + 1).drop_last() =~= entries.take(k));
        lemma_read_domains_prefix(entries, k + 1);
    } else {
        assert(entries.take(k) =~= entries);
    }
}

fn decode_domains(v: Option<&Json>) -> (r: Option<Vec<(String, DomainPrefit)>>)
    ensures
        match r {
            Some(table) => read_domains(optional_model(v)) == Some(table_model(table@)),
            None => read_domains(optional_model(v)) is None,
        },
{
    broadcast use lemma_object_model;

    let mut out: Vec<(String, DomainPrefit)> = Vec::new();
    assert(table_model(out@) =~= Seq::empty());
    match v {
        Some(Json::Object(entries)) => {
            let ghost m = entries_model(entries@);
            let mut i: usize = 0;
            assert(m.take(0) =~= Seq::empty());
            while i < entries.len()
                invariant
                    i <= entries.len(),
                    m == entries_model(entries@),
                    optional_model(v) == Some(JsonModel::Object(m)),
                    read_domain_entries(m.take(i as int)) == Some(table_model(out@)),
                decreases entries.len() - i,
            {
                proof {
                    assert(m.take(i + 1).drop_last() =~= m.take(i as int));
                    assert(m.take(i + 1).last() == m[i as int]);
                    if read_domain_entries(m.take(i + 1)) is None {
                        lemma_read_domains_prefix(m, i + 1);
                    }
                }
                match decode_domain(&entries[i].1) {
                    Some(d) => {
                        assign(&mut out, entries[i].0.as_str(), d);
                    },
                    None => {
                        return None;
                    },
                }
                i = i + 1;
            }
            assert(m.take(i as int) =~= m);
            Some(out)
        },
        _ => None,
    }
}

fn decode_framework(j: &Json) -> (r: Option<FrameworkPrefit>)
    ensures
        match r {
            Some(f) => read_framework(j@) == Some(f@),
            None => read_framework(j@) is None,
        },
{
    let fields: Vec<&'static str> = vec!["framework", "blocklist_additions", "settle_distribution"];
    assert(words_model(fields@) =~= framework_fields());
    if !check_record(j, &fields) {
        return None;
    }
    match (
        decode_text(find_member(j, "framework", 0)),
        decode_texts(find_member(j, "blocklist_additions", 1)),
        decode_settle(find_member(j, "settle_distribution", 2)),
    ) {
        (Some(framework), Some(blocklist_additions), Some(settle_distribution)) => Some(
            FrameworkPrefit { framework, blocklist_additions, settle_distribution },
        ),
        _ => None,
    }
}

/// Frameworks that cannot all be read cannot be read with more behind them.
proof fn lemma_read_frameworks_prefix(entries: Seq<(Seq<char>, JsonModel)>, k: int)
    requires
        0 <= k <= entries.len(),
        read_framework_entries(entries.take(k)) is None,
    ensures
        read_framework_entries(entries) is None,
    decreases entries.len() - k,
{
    if k < entries.len() {
        assert(entries.take(k + 1).drop_last() =~= entries.take(k));
        lemma_read_frameworks_prefix(entries, k + 1);
    } else {
        assert(entries.take(k) =~= entries);
    }
}

fn decode_frameworks(v: Option<&Json>) -> (r: Option<Vec<(String, FrameworkPrefit)>>)
    ensures
        match r {
            Some(table) => read_frameworks(optional_model(v)) == Some(table_model(table@)),
            None => read_frameworks(optional_model(v)) is None,
        },
{
    broadcast use lemma_object_model;

    let mut out: Vec<(String, FrameworkPrefit)> = Vec::new();
    assert(table_model(out@) =~= Seq::empty());
    match v {
        None => Some(out),
        Some(Json::Object(entries)) => {
            let ghost m = entries_model(entries@);
            let mut i: usize = 0;
            assert(m.take(0) =~= Seq::empty());
            while i < entries.len()
                invariant
                    i <= entries.len(),
                    m == entries_model(entries@),
                    optional_model(v) == Some(JsonModel::Object(m)),
                    read_framework_entries(m.take(i as int)) == Some(table_model(out@)),
                decreases entries.len() - i,
            {
                proof {
                    assert(m.take(i + 1).drop_last() =~= m.take(i as int));
                    assert(m.take(i + 1).last() == m[i as int]);
                    if read_framework_entries(m.take(i + 1)) is None {
                        lemma_read_frameworks_prefix(m, i + 1);
                    }
                }
                match decode_framework(&entries[i].1) {
                    Some(f) => {
                        assign(&mut out, entries[i].0.as_str(), f);
                    },
                    None => {
                        return None;
                    },
                }
                i = i + 1;
            }
            assert(m.take(i as int) =~= m);
            Some(out)
        },
        Some(_) => None,
    }
}

/// Reads a bundle of any version.
fn decode_bundle(j: &Json) -> (r: Option<PrefitBundle>)
    ensures
        match r {
            Some(b) => read_bundle(j@) == Some(b@),
            None => read_bundle(j@) is None,
        },
{
    let fields: Vec<&'static str> = vec![
        "schema_version",
        "fit_timestamp",
        "fit_corpus_size",
        "training_pipeline_version",
        "domains",
        "framework_priors",
    ];
    assert(words_model(fields@) =~= bundle_fields());
    if !check_record(j, &fields) {
        return None;
    }
    match (
        decode_u32(find_member(j, "schema_version", 0)),
        decode_u64(find_member(j, "fit_timestamp", 1)),
        decode_u32(find_member(j, "fit_corpus_size", 2)),
        decode_text(find_member(j, "training_pipeline_version", 3)),
        decode_domains(find_member(j, "domains", 4)),
        decode_frameworks(find_member(j, "framework_priors", 5)),
    ) {
        (
            Some(schema_version),
            Some(fit_timestamp),
            Some(fit_corpus_size),
            Some(training_pipeline_version),
            Some(domains),
            Some(framework_priors),
        ) => Some(
            PrefitBundle {
                schema_version,
                fit_timestamp,
                fit_corpus_size,
                training_pipeline_version,
                domains,
                framework_priors,
            },
        ),
        _ => None,
    }
}

impl PrefitBundle {
    /// The bundle that a value holds, if it is one of a version that is
    /// understood.
    pub fn from_value(j: &Json) -> (r: Option<PrefitBundle>)
        ensures
            match r {
                Some(b) => accepted_bundle(j@) == Some(b@),
                None => accepted_bundle(j@) is None,
            },
    {
        match decode_bundle(j) {
            Some(b) => if b.schema_version < MIN_SUPPORTED_SCHEMA || b.schema_version
                > MAX_SUPPORTED_SCHEMA {
                None
            } else {
                Some(b)
            },
            None => None,
        }
    }

    /// Reads a bundle from JSON text. A text that is no bundle, one that gives a
    /// field twice, or one of a version that is not understood, gives nothing.
    /// Fields that are not known may hold any JSON.
    pub fn from_json(s: &str) -> (r: Option<PrefitBundle>)
        ensures
            match r {
                Some(b) => is_json_text(s@) && accepted_bundle(every(s@)) == Some(b@) && is_keyed(
                    b@,
                ),
                None => !is_json_text(s@) || accepted_bundle(every(s@)) is None,
            },
    {
        if !check_json(s) {
            return None;
        }
        proof {
            lemma_bundle_keyed(every(s@));
        }
        PrefitBundle::from_value(&read_every(s))
    }

    /// The version for which a bundle is refused: that of a text that is a
    /// bundle, but one of a version that is not understood.
    pub fn refused_version(s: &str) -> (r: Option<u32>)
        ensures
            match r {
                Some(v) => {
                    &&& is_json_text(s@)
                    &&& read_bundle(every(s@)) matches Some(b) && b.schema_version == v
                    &&& !is_supported(v)
                },
                None => {
                    ||| !is_json_text(s@)
                    ||| read_bundle(every(s@)) is None
                    ||| is_supported(read_bundle(every(s@))->0.schema_version)
                },
            },
    {
        if !check_json(s) {
            return None;
        }
        match decode_bundle(&read_every(s)) {
            Some(b) => if b.schema_version < MIN_SUPPORTED_SCHEMA || b.schema_version
                > MAX_SUPPORTED_SCHEMA {
                Some(b.schema_version)
            } else {
                None
            },
            None => None,
        }
    }
}

// ---------------------------------------------------------------------
// Looking up
// ---------------------------------------------------------------------

/// Where the first entry with the key `key` stands, from `i` on.
pub open spec fn key_index<T>(table: Seq<(Seq<char>, T)>, key: Seq<char>, i: int) -> Option<int>
    decreases table.len() - i,
{
    if i < 0 || i >= table.len() {
        None
    } else if table[i].0 == key {
        Some(i)
    } else {
        key_index(table, key, i + 1)
    }
}

/// Where the first entry of which `host` is a subdomain stands, from `i` on.
pub open spec fn parent_index<T>(table: Seq<(Seq<char>, T)>, host: Seq<char>, i: int) -> Option<int>
    decreases table.len() - i,
{
    if i < 0 || i >= table.len() {
        None
    } else if is_subdomain(host, table[i].0) {
        Some(i)
    } else {
        parent_index(table, host, i + 1)
    }
}

/// The entry for a host, which is in lowercase: the one for the host itself,
/// or else the first of which it is a subdomain.
pub open spec fn host_index<T>(table: Seq<(Seq<char>, T)>, host: Seq<char>) -> Option<int> {
    match key_index(table, host, 0) {
        Some(i) => Some(i),
        None => parent_index(table, host, 0),
    }
}

/// What is known of a host.
pub open spec fn domain_of(table: Seq<(Seq<char>, DomainModel)>, host: Seq<char>) -> Option<
    DomainModel,
> {
    match host_index(table, unicode_lowercase(host)) {
        Some(i) => Some(table[i].1),
        None => None,
    }
}

/// The posterior for a decision on a host.
pub open spec fn posterior_of(
    table: Seq<(Seq<char>, DomainModel)>,
    host: Seq<char>,
    key: Seq<char>,
) -> Option<PosteriorModel> {
    match domain_of(table, host) {
        Some(d) => match key_index(d.posteriors, key, 0) {
            Some(i) => Some(d.posteriors[i].1),
            None => None,
        },
        None => None,
    }
}

/// Whether a host, which is in lowercase, is one of these or a subdomain of
/// one.
pub open spec fn is_added(additions: Seq<Seq<char>>, host: Seq<char>) -> bool {
    exists|i: int|
        0 <= i < additions.len() && {
            let p = unicode_lowercase(#[trigger] additions[i]);
            host == p || is_subdomain(host, p)
        }
}

/// Whether a URL is blocked on a domain of which this is known.
pub open spec fn blocked_on(d: DomainModel, url: Seq<char>) -> bool {
    match lower_host(url) {
        Some(host) => is_added(d.blocklist_additions, host),
        None => false,
    }
}

/// Whether a URL is needed on a domain of which this is known: it contains one
/// of the required patterns.
pub open spec fn needed_on(d: DomainModel, url: Seq<char>) -> bool {
    exists|i: int|
        0 <= i < d.required_patterns.len() && contains_text(url, #[trigger] d.required_patterns[i])
}

/// How far a double is from zero, by its bits without the sign.
pub open spec fn magnitude(bits: u64) -> u64 {
    (bits % 0x8000_0000_0000_0000) as u64
}

/// Whether bits are those of a double that is a number.
pub open spec fn is_number(bits: u64) -> bool {
    magnitude(bits) <= 0x7ff0_0000_0000_0000
}

/// Whether a double is at least as large as another, by the bits of both. The
/// bits of doubles with one sign are ordered by how far from zero they are, the
/// two zeros are equal, and what is no number is not compared.
pub open spec fn at_least(a: u64, b: u64) -> bool {
    let a_negative = a >= 0x8000_0000_0000_0000;
    let b_negative = b >= 0x8000_0000_0000_0000;
    if !is_number(a) || !is_number(b) {
        false
    } else if magnitude(a) == 0 && magnitude(b) == 0 {
        true
    } else if a_negative != b_negative {
        b_negative
    } else if a_negative {
        magnitude(a) <= magnitude(b)
    } else {
        magnitude(a) >= magnitude(b)
    }
}

/// Whether a double is at least as large as another, by the bits of both.
pub fn reaches(a: u64, b: u64) -> (r: bool)
    ensures
        r == at_least(a, b),
{
    let x: u64 = a % 0x8000_0000_0000_0000;
    let y: u64 = b % 0x8000_0000_0000_0000;
    let a_negative: bool = a >= 0x8000_0000_0000_0000;
    let b_negative: bool = b >= 0x8000_0000_0000_0000;
    if x > 0x7ff0_0000_0000_0000 || y > 0x7ff0_0000_0000_0000 {
        false
    } else if x == 0 && y == 0 {
        true
    } else if a_negative != b_negative {
        b_negative
    } else if a_negative {
        x <= y
    } else {
        x >= y
    }
}

/// What a decision by a posterior rests on. The drawn sample and the
/// threshold are doubles, held by their bits.
#[derive(Debug)]
pub struct DecideOutcome {
    pub posterior: Option<BetaPosterior>,
    pub sampled: Option<u64>,
    pub threshold: u64,
    pub blocked: bool,
}

/// Whether a posterior rests on observations. One without any is a placeholder.
pub open spec fn has_evidence(posterior: Option<PosteriorModel>) -> bool {
    posterior matches Some(p) && p.n > 0
}

/// What a posterior that may be missing stands for.
pub open spec fn posterior_model(posterior: Option<BetaPosterior>) -> Option<PosteriorModel> {
    match posterior {
        Some(p) => Some(p@),
        None => None,
    }
}

/// Decides by a posterior and a sample drawn from it: to act if the sample
/// reaches the threshold. Where there is no posterior, or one that rests on no
/// observation, nothing is decided and the answer is not to act.
pub fn decide_sampled(posterior: Option<BetaPosterior>, sampled: u64, threshold: u64) -> (r:
    DecideOutcome)
    ensures
        r.posterior == posterior,
        r.threshold == threshold,
        r.sampled == (if has_evidence(posterior_model(posterior)) {
            Some(sampled)
        } else {
            None
        }),
        r.blocked == (has_evidence(posterior_model(posterior)) && at_least(sampled, threshold)),
{
    let evidence = match &posterior {
        Some(p) => p.n > 0,
        None => false,
    };
    if evidence {
        DecideOutcome {
            posterior,
            sampled: Some(sampled),
            threshold,
            blocked: reaches(sampled, threshold),
        }
    } else {
        DecideOutcome { posterior, sampled: None, threshold, blocked: false }
    }
}

impl BetaPosterior {
    /// The same posterior once more.
    pub fn copy(&self) -> (r: BetaPosterior)
        ensures
            r@ == self@,
    {
        BetaPosterior { alpha: self.alpha.copy(), beta: self.beta.copy(), n: self.n }
    }
}

impl DomainPrefit {
    /// Whether a URL is blocked on this domain.
    pub fn blocks(&self, url: &str) -> (r: bool)
        ensures
            r == blocked_on(self@, url@),
    {
        let host = match find_lower_host(url) {
            Some(h) => h,
            None => {
                return false;
            },
        };
        let mut i: usize = 0;
        while i < self.blocklist_additions.len()
            invariant
                lower_host(url@) == Some(host@),
                i <= self.blocklist_additions.len(),
                forall|j: int|
                    0 <= j < i ==> {
                        let p = unicode_lowercase(#[trigger] self@.blocklist_additions[j]);
                        host@ != p && !is_subdomain(host@, p)
                    },
            decreases self.blocklist_additions.len() - i,
        {
            let p = self.blocklist_additions[i].as_str().to_lowercase();
            if same(host.as_str(), p.as_str()) || check_subdomain(host.as_str(), p.as_str()) {
                assert(self@.blocklist_additions[i as int]
                    == self.blocklist_additions@[i as int]@);
                return true;
            }
            i = i + 1;
        }
        false
    }

    /// Whether a URL is needed on this domain.
    pub fn needs(&self, url: &str) -> (r: bool)
        ensures
            r == needed_on(self@, url@),
    {
        let mut i: usize = 0;
        while i < self.required_patterns.len()
            invariant
                i <= self.required_patterns.len(),
                forall|j: int|
                    0 <= j < i ==> !contains_text(url@, #[trigger] self@.required_patterns[j]),
            decreases self.required_patterns.len() - i,
        {
            if contains_str(url, self.required_patterns[i].as_str()) {
                assert(self@.required_patterns[i as int] == self.required_patterns@[i as int]@);
                return true;
            }
            i = i + 1;
        }
        false
    }

    /// The posterior for a decision.
    pub fn find_posterior(&self, key: &str) -> (r: Option<BetaPosterior>)
        ensures
            match (r, key_index(self@.posteriors, key@, 0)) {
                (Some(p), Some(i)) => p@ == self@.posteriors[i].1,
                (None, None) => true,
                _ => false,
            },
    {
        let mut i: usize = 0;
        while i < self.posteriors.len()
            invariant
                i <= self.posteriors.len(),
                key_index(self@.posteriors, key@, 0) == key_index(self@.posteriors, key@, i as int),
            decreases self.posteriors.len() - i,
        {
            if same(self.posteriors[i].0.as_str(), key) {
                return Some(self.posteriors[i].1.copy());
            }
            i = i + 1;
        }
        None
    }
}

impl PrefitBundle {
    /// What is known of a host: by its own entry, or else by that of a domain
    /// of which it is a subdomain.
    pub fn lookup_domain(&self, host: &str) -> (r: Option<&DomainPrefit>)
        ensures
            match r {
                Some(d) => domain_of(self@.domains, host@) == Some(d@),
                None => domain_of(self@.domains, host@) is None,
            },
            is_ascii_chars(host@) ==> unicode_lowercase(host@) == ascii_lowercase(host@),
    {
        let lower = host.to_lowercase();
        let ghost h = unicode_lowercase(host@);
        let ghost table = self@.domains;
        let mut i: usize = 0;
        while i < self.domains.len()
            invariant
                i <= self.domains.len(),
                lower@ == h,
                h == unicode_lowercase(host@),
                is_ascii_chars(host@) ==> h == ascii_lowercase(host@),
                table == table_model(self.domains@),
                key_index(table, h, 0) == key_index(table, h, i as int),
            decreases self.domains.len() - i,
        {
            if same(self.domains[i].0.as_str(), lower.as_str()) {
                assert(key_index(table, h, 0) == Some(i as int));
                assert(table == self@.domains);
                return Some(&self.domains[i].1);
            }
            i = i + 1;
        }
        let mut k: usize = 0;
        while k < self.domains.len()
            invariant
                k <= self.domains.len(),
                lower@ == h,
                h == unicode_lowercase(host@),
                is_ascii_chars(host@) ==> h == ascii_lowercase(host@),
                table == table_model(self.domains@),
                key_index(table, h, 0) is None,
                parent_index(table, h, 0) == parent_index(table, h, k as int),
            decreases self.domains.len() - k,
        {
            if check_subdomain(lower.as_str(), self.domains[k].0.as_str()) {
                assert(parent_index(table, h, 0) == Some(k as int));
                assert(table == self@.domains);
                return Some(&self.domains[k].1);
            }
            k = k + 1;
        }
        None
    }

    /// Whether a URL is blocked on a domain of which this is known.
    pub fn matches_blocklist_addition(&self, host_prefit: &DomainPrefit, url: &str) -> (r: bool)
        ensures
            r == blocked_on(host_prefit@, url@),
    {
        host_prefit.blocks(url)
    }

    /// How many domains the bundle knows.
    pub fn domain_count(&self) -> (r: usize)
        ensures
            r == self@.domains.len(),
    {
        self.domains.len()
    }

    /// The posterior for a decision on a host; nothing where the bundle does
    /// not know the host or has no posterior for the decision.
    pub fn lookup_posterior(&self, domain: &str, decision_key: &str) -> (r: Option<BetaPosterior>)
        ensures
            match r {
                Some(p) => posterior_of(self@.domains, domain@, decision_key@) == Some(p@),
                None => posterior_of(self@.domains, domain@, decision_key@) is None,
            },
            is_ascii_chars(domain@) ==> unicode_lowercase(domain@) == ascii_lowercase(domain@),
    {
        match self.lookup_domain(domain) {
            Some(d) => d.find_posterior(decision_key),
            None => None,
        }
    }

    /// Decides by the posterior for a decision on a host and a sample drawn
    /// from it.
    pub fn decide_traced(
        &self,
        domain: &str,
        decision_key: &str,
        sampled: u64,
        threshold: u64,
    ) -> (r: DecideOutcome)
        ensures
            ({
                let found = posterior_of(self@.domains, domain@, decision_key@);
                &&& posterior_model(r.posterior) == found
                &&& r.sampled == (if has_evidence(found) {
                    Some(sampled)
                } else {
                    None
                })
                &&& r.blocked == (has_evidence(found) && at_least(sampled, threshold))
            }),
            r.threshold == threshold,
            is_ascii_chars(domain@) ==> unicode_lowercase(domain@) == ascii_lowercase(domain@),
    {
        decide_sampled(self.lookup_posterior(domain, decision_key), sampled, threshold)
    }

    /// Whether to act, by the posterior for a decision on a host and a sample
    /// drawn from it. Without a posterior, or with one that rests on no
    /// observation, the answer is no.
    pub fn decide(&self, domain: &str, decision_key: &str, sampled: u64, threshold: u64) -> (r:
        bool)
        ensures
            r == (has_evidence(posterior_of(self@.domains, domain@, decision_key@)) && at_least(
                sampled,
                threshold,
            )),
            is_ascii_chars(domain@) ==> unicode_lowercase(domain@) == ascii_lowercase(domain@),
    {
        self.decide_traced(domain, decision_key, sampled, threshold).blocked
    }
}

// ---------------------------------------------------------------------
// Describing
// ---------------------------------------------------------------------

/// A text, or a dash where there is none.
pub open spec fn or_dash(s: Option<Seq<char>>) -> Seq<char> {
    match s {
        Some(t) => t,
        None => "-"@,
    }
}

/// The line that describes what is known of a domain.
pub open spec fn domain_line(key: Seq<char>, d: DomainModel) -> Seq<char> {
    "  "@ + padded(key, 30) + " framework="@ + padded(or_dash(d.framework), 20)
        + " blocklist_additions="@ + padded_left(decimal(d.blocklist_additions.len()), 3)
        + " shape="@ + or_dash(d.shape_hint)
}

/// The lines that describe the bundle as a whole.
pub open spec fn heading(b: BundleModel) -> Seq<Seq<char>> {
    seq![
        "schema_version: "@ + decimal(b.schema_version as nat),
        "training_pipeline_version: "@ + b.training_pipeline_version,
        "fit_timestamp: "@ + decimal(b.fit_timestamp as nat),
        "fit_corpus_size: "@ + decimal(b.fit_corpus_size as nat),
        "domains: "@ + decimal(b.domains.len()),
    ]
}

/// The keys of a table.
pub open spec fn table_keys<T>(table: Seq<(Seq<char>, T)>) -> Seq<Seq<char>> {
    Seq::new(table.len(), |i: int| table[i].0)
}

/// The lines for these keys of a table, one each.
pub open spec fn domain_lines(table: Seq<(Seq<char>, DomainModel)>, keys: Seq<Seq<char>>) -> Seq<
    Seq<char>,
> {
    Seq::new(
        keys.len(),
        |i: int|
            match key_index(table, keys[i], 0) {
                Some(k) => domain_line(keys[i], table[k].1),
                None => Seq::empty(),
            },
    )
}

/// A text, or a dash where there is none.
fn text_or_dash(s: &Option<String>) -> (r: String)
    ensures
        r@ == or_dash(option_model(*s)),
{
    match s {
        Some(t) => t.clone(),
        None => "-".to_owned(),
    }
}

impl DomainPrefit {
    /// The line that describes what is known of a domain.
    fn line(&self, key: &str) -> (r: String)
        ensures
            r@ == domain_line(key@, self@),
    {
        let mut s = "  ".to_owned();
        s.append(pad_right(key, 30).as_str());
        s.append(" framework=");
        s.append(pad_right(text_or_dash(&self.framework).as_str(), 20).as_str());
        s.append(" blocklist_additions=");
        s.append(
            pad_left(to_decimal(self.blocklist_additions.len() as u64).as_str(), 3).as_str(),
        );
        s.append(" shape=");
        s.append(text_or_dash(&self.shape_hint).as_str());
        s
    }
}

/// A key of a table is found in it.
proof fn lemma_key_found<T>(table: Seq<(Seq<char>, T)>, key: Seq<char>, i: int, k: int)
    requires
        0 <= i <= k < table.len(),
        table[k].0 == key,
    ensures
        key_index(table, key, i) is Some,
    decreases k - i,
{
    if i < k && table[i].0 != key {
        lemma_key_found(table, key, i + 1, k);
    }
}

impl PrefitBundle {
    /// The keys of the table of domains.
    fn domain_keys(&self) -> (r: Vec<String>)
        ensures
            texts_model(r@) == table_keys(self@.domains),
    {
        let mut out: Vec<String> = Vec::new();
        let mut i: usize = 0;
        while i < self.domains.len()
            invariant
                i <= self.domains.len(),
                texts_model(out@) =~= table_keys(self@.domains).take(i as int),
            decreases self.domains.len() - i,
        {
            let ghost before = texts_model(out@);
            out.push(self.domains[i].0.clone());
            assert(texts_model(out@) =~= before.push(self.domains@[i as int].0@));
            i = i + 1;
        }
        out
    }

    /// The domain with this key.
    fn domain_at(&self, key: &str) -> (r: Option<&DomainPrefit>)
        ensures
            match (r, key_index(self@.domains, key@, 0)) {
                (Some(d), Some(i)) => d@ == self@.domains[i].1,
                (None, None) => true,
                _ => false,
            },
    {
        let mut i: usize = 0;
        while i < self.domains.len()
            invariant
                i <= self.domains.len(),
                key_index(self@.domains, key@, 0) == key_index(self@.domains, key@, i as int),
            decreases self.domains.len() - i,
        {
            if same(self.domains[i].0.as_str(), key) {
                return Some(&self.domains[i].1);
            }
            i = i + 1;
        }
        None
    }

    /// The lines that describe the bundle: first the bundle as a whole, then
    /// the domains in the order of their keys.
    pub fn info_lines(&self) -> (r: Vec<String>)
        ensures
            exists|keys: Seq<Seq<char>>|
                {
                    &&& in_order(keys)
                    &&& keys.to_multiset() == table_keys(self@.domains).to_multiset()
                    &&& texts_model(r@) == heading(self@) + #[trigger] domain_lines(
                        self@.domains,
                        keys,
                    )
                },
    {
        let mut out: Vec<String> = Vec::new();
        out.push(concat("schema_version: ", to_decimal(self.schema_version as u64).as_str()));
        out.push(
            concat("training_pipeline_version: ", self.training_pipeline_version.as_str()),
        );
        out.push(concat("fit_timestamp: ", to_decimal(self.fit_timestamp).as_str()));
        out.push(concat("fit_corpus_size: ", to_decimal(self.fit_corpus_size as u64).as_str()));
        out.push(concat("domains: ", to_decimal(self.domains.len() as u64).as_str()));
        let all = self.domain_keys();
        let keys = sorted_texts(&all);
        let ghost ks = texts_model(keys@);
        let ghost table = self@.domains;
        assert(texts_model(out@) =~= heading(self@) + domain_lines(table, ks).take(0));
        let mut i: usize = 0;
        while i < keys.len()
            invariant
                i <= keys.len(),
                ks == texts_model(keys@),
                table == self@.domains,
                ks.to_multiset() == table_keys(table).to_multiset(),
                texts_model(out@) == heading(self@) + domain_lines(table, ks).take(i as int),
            decreases keys.len() - i,
        {
            proof {
                let key = ks[i as int];
                ks.to_multiset_ensures();
                table_keys(table).to_multiset_ensures();
                assert(ks.contains(key));
                assert(ks.to_multiset().count(key) > 0);
                assert(table_keys(table).to_multiset().count(key) > 0);
                assert(table_keys(table).contains(key));
                let k = choose|k: int| 0 <= k < table.len() && table_keys(table)[k] == key;
                lemma_key_found(table, key, 0, k);
            }
            if let Some(d) = self.domain_at(keys[i].as_str()) {
                let ghost before = texts_model(out@);
                let line = d.line(keys[i].as_str());
                let ghost l = line@;
                out.push(line);
                assert(texts_model(out@) =~= before.push(l));
                assert(domain_lines(table, ks)[i as int] == l);
                assert(domain_lines(table, ks).take(i + 1) =~= domain_lines(table, ks).take(
                    i as int,
                ).push(l));
                assert(texts_model(out@) =~= heading(self@) + domain_lines(table, ks).take(i + 1));
            }
            i = i + 1;
        }
        assert(domain_lines(table, ks).take(i as int) =~= domain_lines(table, ks));
        out
    }
}

// ---------------------------------------------------------------------
// Writing
// ---------------------------------------------------------------------

/// A number as a value.
pub open spec fn written_number(n: u64) -> JsonModel {
    JsonModel::Number(NumberModel::Unsigned(n))
}

/// Texts as a value.
pub open spec fn written_texts(texts: Seq<Seq<char>>) -> JsonModel {
    JsonModel::Array(Seq::new(texts.len(), |i: int| JsonModel::Text(texts[i])))
}

/// Settle times as a value; null where there are none.
pub open spec fn written_settle(s: Option<SettleDistribution>) -> JsonModel {
    match s {
        None => JsonModel::Null,
        Some(d) => JsonModel::Object(
            seq![
                ("p50_ms"@, written_number(d.p50_ms as u64)),
                ("p90_ms"@, written_number(d.p90_ms as u64)),
                ("p95_ms"@, written_number(d.p95_ms as u64)),
            ],
        ),
    }
}

/// A posterior as a value.
pub open spec fn written_posterior(p: PosteriorModel) -> JsonModel {
    JsonModel::Object(
        seq![
            ("alpha"@, JsonModel::Number(p.alpha)),
            ("beta"@, JsonModel::Number(p.beta)),
            ("n"@, written_number(p.n)),
        ],
    )
}

/// A table of posteriors as the entries of an object.
pub open spec fn written_posteriors(table: Seq<(Seq<char>, PosteriorModel)>) -> Seq<
    (Seq<char>, JsonModel),
> {
    Seq::new(table.len(), |i: int| (table[i].0, written_posterior(table[i].1)))
}

/// What is known of a domain, as a value.
pub open spec fn written_domain(d: DomainModel) -> JsonModel {
    JsonModel::Object(
        seq![
            ("domain"@, JsonModel::Text(d.domain)),
            ("framework"@, optional_text(d.framework)),
            ("blocklist_additions"@, written_texts(d.blocklist_additions)),
            ("required_patterns"@, written_texts(d.required_patterns)),
            ("settle_distribution"@, written_settle(d.settle_distribution)),
            ("shape_hint"@, optional_text(d.shape_hint)),
            ("posteriors"@, JsonModel::Object(written_posteriors(d.posteriors))),
        ],
    )
}

/// A table of domains as the entries of an object.
pub open spec fn written_domains(table: Seq<(Seq<char>, DomainModel)>) -> Seq<
    (Seq<char>, JsonModel),
> {
    Seq::new(table.len(), |i: int| (table[i].0, written_domain(table[i].1)))
}

/// What is known of a framework, as a value.
pub open spec fn written_framework(f: FrameworkModel) -> JsonModel {
    JsonModel::Object(
        seq![
            ("framework"@, JsonModel::Text(f.framework)),
            ("blocklist_additions"@, written_texts(f.blocklist_additions)),
            ("settle_distribution"@, written_settle(f.settle_distribution)),
        ],
    )
}

/// A table of frameworks as the entries of an object.
pub open spec fn written_frameworks(table: Seq<(Seq<char>, FrameworkModel)>) -> Seq<
    (Seq<char>, JsonModel),
> {
    Seq::new(table.len(), |i: int| (table[i].0, written_framework(table[i].1)))
}

/// A bundle as a value.
pub open spec fn written_bundle(b: BundleModel) -> JsonModel {
    JsonModel::Object(
        seq![
            ("schema_version"@, written_number(b.schema_version as u64)),
            ("fit_timestamp"@, written_number(b.fit_timestamp)),
            ("fit_corpus_size"@, written_number(b.fit_corpus_size as u64)),
            ("training_pipeline_version"@, JsonModel::Text(b.training_pipeline_version)),
            ("domains"@, JsonModel::Object(written_domains(b.domains))),
            ("framework_priors"@, JsonModel::Object(written_frameworks(b.framework_priors))),
        ],
    )
}

/// Whether the numbers of a posterior are written so that they can be read
/// back: they are integers or whole doubles.
pub open spec fn has_exact_posterior(p: PosteriorModel) -> bool {
    is_exact(JsonModel::Number(p.alpha)) && is_exact(JsonModel::Number(p.beta))
}

/// Whether the numbers of the posteriors for a domain can be read back.
pub open spec fn has_exact_domain(d: DomainModel) -> bool {
    forall|i: int|
        0 <= i < d.posteriors.len() ==> has_exact_posterior((#[trigger] d.posteriors[i]).1)
}

/// Whether the numbers of all posteriors can be read back.
pub open spec fn has_exact_numbers(b: BundleModel) -> bool {
    forall|i: int| 0 <= i < b.domains.len() ==> has_exact_domain((#[trigger] b.domains[i]).1)
}

/// What is known of a domain, with its table in the order of its keys.
pub open spec fn tidied_domain(d: DomainModel) -> DomainModel {
    DomainModel { posteriors: tidy(d.posteriors), ..d }
}

/// A bundle with its tables in the order of their keys.
pub open spec fn tidied_bundle(b: BundleModel) -> BundleModel {
    BundleModel {
        domains: each(tidy(b.domains), |d: DomainModel| tidied_domain(d)),
        framework_priors: tidy(b.framework_priors),
        ..b
    }
}

fn encode_texts(texts: &Vec<String>) -> (r: Json)
    ensures
        r@ == written_texts(texts_model(texts@)),
{
    let mut out: Vec<Json> = Vec::new();
    let ghost all = written_texts(texts_model(texts@))->Array_0;
    let mut i: usize = 0;
    while i < texts.len()
        invariant
            i <= texts.len(),
            all == written_texts(texts_model(texts@))->Array_0,
            items_model(out@) =~= all.take(i as int),
        decreases texts.len() - i,
    {
        broadcast use lemma_items_push;

        out.push(Json::Text(texts[i].clone()));
        assert(all.take(i + 1) =~= all.take(i as int).push(all[i as int]));
        i = i + 1;
    }
    assert(all.take(i as int) =~= all);
    array(out)
}

/// Settle times as a value; null where there are none.
pub fn encode_settle(s: &Option<SettleDistribution>) -> (r: Json)
    ensures
        r@ == written_settle(*s),
{
    match s {
        None => Json::Null,
        Some(d) => {
            let mut e = no_entries();
            put(&mut e, "p50_ms", json_number(d.p50_ms as u64));
            put(&mut e, "p90_ms", json_number(d.p90_ms as u64));
            put(&mut e, "p95_ms", json_number(d.p95_ms as u64));
            let r = object(e);
            assert(r@->Object_0 =~= written_settle(*s)->Object_0);
            r
        },
    }
}

fn encode_posterior(p: &BetaPosterior) -> (r: Json)
    ensures
        r@ == written_posterior(p@),
{
    let mut e = no_entries();
    put(&mut e, "alpha", Json::Number(p.alpha.copy()));
    put(&mut e, "beta", Json::Number(p.beta.copy()));
    put(&mut e, "n", json_number(p.n));
    let r = object(e);
    assert(r@->Object_0 =~= written_posterior(p@)->Object_0);
    r
}

fn encode_posteriors(table: &Vec<(String, BetaPosterior)>) -> (r: Json)
    ensures
        r@ == JsonModel::Object(written_posteriors(table_model(table@))),
{
    let mut e = no_entries();
    let ghost all = written_posteriors(table_model(table@));
    let mut i: usize = 0;
    while i < table.len()
        invariant
            i <= table.len(),
            all == written_posteriors(table_model(table@)),
            entries_model(e@) =~= all.take(i as int),
        decreases table.len() - i,
    {
        let v = encode_posterior(&table[i].1);
        put(&mut e, table[i].0.as_str(), v);
        assert(all.take(i + 1) =~= all.take(i as int).push(all[i as int]));
        i = i + 1;
    }
    assert(all.take(i as int) =~= all);
    object(e)
}

fn encode_domain(d: &DomainPrefit) -> (r: Json)
    ensures
        r@ == written_domain(d@),
{
    let mut e = no_entries();
    put(&mut e, "domain", Json::Text(d.domain.clone()));
    put(&mut e, "framework", json_optional_text(&d.framework));
    put(&mut e, "blocklist_additions", encode_texts(&d.blocklist_additions));
    put(&mut e, "required_patterns", encode_texts(&d.required_patterns));
    put(&mut e, "settle_distribution", encode_settle(&d.settle_distribution));
    put(&mut e, "shape_hint", json_optional_text(&d.shape_hint));
    put(&mut e, "posteriors", encode_posteriors(&d.posteriors));
    let r = object(e);
    assert(r@->Object_0 =~= written_domain(d@)->Object_0);
    r
}

fn encode_domains(table: &Vec<(String, DomainPrefit)>) -> (r: Json)
    ensures
        r@ == JsonModel::Object(written_domains(table_model(table@))),
{
    let mut e = no_entries();
    let ghost all = written_domains(table_model(table@));
    let mut i: usize = 0;
    while i < table.len()
        invariant
            i <= table.len(),
            all == written_domains(table_model(table@)),
            entries_model(e@) =~= all.take(i as int),
        decreases table.len() - i,
    {
        let v = encode_domain(&table[i].1);
        put(&mut e, table[i].0.as_str(), v);
        assert(all.take(i + 1) =~= all.take(i as int).push(all[i as int]));
        i = i + 1;
    }
    assert(all.take(i as int) =~= all);
    object(e)
}

fn encode_framework(f: &FrameworkPrefit) -> (r: Json)
    ensures
        r@ == written_framework(f@),
{
    let mut e = no_entries();
    put(&mut e, "framework", Json::Text(f.framework.clone()));
    put(&mut e, "blocklist_additions", encode_texts(&f.blocklist_additions));
    put(&mut e, "settle_distribution", encode_settle(&f.settle_distribution));
    let r = object(e);
    assert(r@->Object_0 =~= written_framework(f@)->Object_0);
    r
}

fn encode_frameworks(table: &Vec<(String, FrameworkPrefit)>) -> (r: Json)
    ensures
        r@ == JsonModel::Object(written_frameworks(table_model(table@))),
{
    let mut e = no_entries();
    let ghost all = written_frameworks(table_model(table@));
    let mut i: usize = 0;
    while i < table.len()
        invariant
            i <= table.len(),
            all == written_frameworks(table_model(table@)),
            entries_model(e@) =~= all.take(i as int),
        decreases table.len() - i,
    {
        let v = encode_framework(&table[i].1);
        put(&mut e, table[i].0.as_str(), v);
        assert(all.take(i + 1) =~= all.take(i as int).push(all[i as int]));
        i = i + 1;
    }
    assert(all.take(i as int) =~= all);
    object(e)
}

impl PrefitBundle {
    /// The bundle as a value.
    pub fn to_value(&self) -> (r: Json)
        ensures
            r@ == written_bundle(self@),
    {
        let mut e = no_entries();
        put(&mut e, "schema_version", json_number(self.schema_version as u64));
        put(&mut e, "fit_timestamp", json_number(self.fit_timestamp));
        put(&mut e, "fit_corpus_size", json_number(self.fit_corpus_size as u64));
        put(
            &mut e,
            "training_pipeline_version",
            Json::Text(self.training_pipeline_version.clone()),
        );
        put(&mut e, "domains", encode_domains(&self.domains));
        put(&mut e, "framework_priors", encode_frameworks(&self.framework_priors));
        let r = object(e);
        assert(r@->Object_0 =~= written_bundle(self@)->Object_0);
        r
    }

    /// The bundle as JSON text. What is read back from it is the bundle, with
    /// its tables in the order of their keys.
    pub fn to_json(&self) -> (r: String)
        ensures
            r@ == json_printed(with_map_entries(written_bundle(self@))),
            has_exact_numbers(self@) && is_keyed(self@) && is_supported(self.schema_version) ==> (
            is_json_text(r@) && accepted_bundle(every(r@)) == Some(tidied_bundle(self@))),
    {
        proof {
            if has_exact_numbers(self@) && is_keyed(self@) {
                lemma_bundle_reads_back(self@);
                lemma_held_bundle(self@);
            }
        }
        print_json(&self.to_value())
    }
}

// ---------------------------------------------------------------------
// What holds of every bundle
// ---------------------------------------------------------------------

/// The entry at `i` is the one with its key, if no entry before it is.
proof fn lemma_entry_at(entries: Seq<(Seq<char>, JsonModel)>, i: int)
    requires
        0 <= i < entries.len(),
        forall|j: int| 0 <= j < i ==> (#[trigger] entries[j]).0 != entries[i].0,
    ensures
        entry(entries, entries[i].0) == Some(entries[i].1),
{
    lemma_entry_skip(entries, entries[i].0, i);
    assert(entries.skip(i)[0] == entries[i]);
}

proof fn lemma_written_texts(texts: Seq<Seq<char>>)
    ensures
        read_items(written_texts(texts)->Array_0) == Some(texts),
    decreases texts.len(),
{
    let items = written_texts(texts)->Array_0;
    if texts.len() > 0 {
        lemma_written_texts(texts.drop_last());
        assert(items.drop_last() =~= written_texts(texts.drop_last())->Array_0);
        assert(texts.drop_last().push(texts.last()) =~= texts);
    } else {
        assert(texts =~= Seq::empty());
    }
}

/// Without its last entry a table has distinct keys if it had, and the last has
/// another key than all of them.
proof fn lemma_last_entry<T>(table: Seq<(Seq<char>, T)>)
    requires
        table.len() > 0,
        distinct_keys(table),
    ensures
        distinct_keys(table.drop_last()),
        with_entry(table.drop_last(), table.last().0, table.last().1) == table,
{
    let front = table.drop_last();
    assert forall|i: int, j: int| 0 <= i < j < front.len() implies (#[trigger] front[i]).0 != (
    #[trigger] front[j]).0 by {
        assert(front[i] == table[i]);
        assert(front[j] == table[j]);
    }
    assert forall|i: int| 0 <= i < front.len() implies (#[trigger] front[i]).0 != table.last().0 by {
        assert(front[i] == table[i]);
        assert(table.last() == table[table.len() - 1]);
    }
    lemma_with_entry(front, table.last().0, table.last().1, front.len() as int);
    assert(front.push(table.last()) =~= table);
}

proof fn lemma_written_settle(s: Option<SettleDistribution>)
    ensures
        read_settle(Some(written_settle(s))) == Some(s),
{
    if s is Some {
        reveal_strlit("p50_ms");
        assert("p50_ms"@.len() == 6);
        reveal_strlit("p90_ms");
        assert("p90_ms"@.len() == 6);
        reveal_strlit("p95_ms");
        assert("p95_ms"@.len() == 6);
        let e = written_settle(s)->Object_0;
        assert("p50_ms"@[1] != "p90_ms"@[1]);
        assert("p50_ms"@[1] != "p95_ms"@[1]);
        assert("p90_ms"@[2] != "p95_ms"@[2]);
        lemma_entry_at(e, 0);
        lemma_entry_at(e, 1);
        lemma_entry_at(e, 2);
    }
}

proof fn lemma_written_posterior(p: PosteriorModel)
    ensures
        read_posterior(written_posterior(p)) == Some(p),
{
    reveal_strlit("alpha");
    assert("alpha"@.len() == 5);
    reveal_strlit("beta");
    assert("beta"@.len() == 4);
    reveal_strlit("n");
    assert("n"@.len() == 1);
    let e = written_posterior(p)->Object_0;
    lemma_entry_at(e, 0);
    lemma_entry_at(e, 1);
    lemma_entry_at(e, 2);
}

proof fn lemma_written_posteriors(table: Seq<(Seq<char>, PosteriorModel)>)
    requires
        distinct_keys(table),
    ensures
        read_posterior_entries(written_posteriors(table)) == Some(table),
    decreases table.len(),
{
    if table.len() > 0 {
        lemma_last_entry(table);
        lemma_written_posteriors(table.drop_last());
        lemma_written_posterior(table.last().1);
        assert(written_posteriors(table).drop_last() =~= written_posteriors(table.drop_last()));
    } else {
        assert(table =~= Seq::empty());
    }
}

proof fn lemma_written_domain(d: DomainModel)
    requires
        distinct_keys(d.posteriors),
    ensures
        read_domain(written_domain(d)) == Some(d),
{
    reveal_strlit("domain");
    assert("domain"@.len() == 6);
    reveal_strlit("framework");
    assert("framework"@.len() == 9);
    reveal_strlit("blocklist_additions");
    assert("blocklist_additions"@.len() == 19);
    reveal_strlit("required_patterns");
    assert("required_patterns"@.len() == 17);
    reveal_strlit("settle_distribution");
    assert("settle_distribution"@.len() == 19);
    reveal_strlit("shape_hint");
    assert("shape_hint"@.len() == 10);
    reveal_strlit("posteriors");
    assert("posteriors"@.len() == 10);
    let e = written_domain(d)->Object_0;
    assert("blocklist_additions"@[0] != "settle_distribution"@[0]);
    assert("shape_hint"@[0] != "posteriors"@[0]);
    lemma_entry_at(e, 0);
    lemma_entry_at(e, 1);
    lemma_entry_at(e, 2);
    lemma_entry_at(e, 3);
    lemma_entry_at(e, 4);
    lemma_entry_at(e, 5);
    lemma_entry_at(e, 6);
    lemma_written_texts(d.blocklist_additions);
    lemma_written_texts(d.required_patterns);
    lemma_written_settle(d.settle_distribution);
    lemma_written_posteriors(d.posteriors);
}

proof fn lemma_written_domains(table: Seq<(Seq<char>, DomainModel)>)
    requires
        distinct_keys(table),
        forall|i: int| 0 <= i < table.len() ==> distinct_keys((#[trigger] table[i]).1.posteriors),
    ensures
        read_domain_entries(written_domains(table)) == Some(table),
    decreases table.len(),
{
    if table.len() > 0 {
        lemma_last_entry(table);
        let front = table.drop_last();
        assert forall|i: int| 0 <= i < front.len() implies distinct_keys(
            (#[trigger] front[i]).1.posteriors,
        ) by {
            assert(front[i] == table[i]);
        }
        lemma_written_domains(front);
        assert(table.last() == table[table.len() - 1]);
        lemma_written_domain(table.last().1);
        assert(written_domains(table).drop_last() =~= written_domains(table.drop_last()));
    } else {
        assert(table =~= Seq::empty());
    }
}

proof fn lemma_written_framework(f: FrameworkModel)
    ensures
        read_framework(written_framework(f)) == Some(f),
{
    reveal_strlit("framework");
    assert("framework"@.len() == 9);
    reveal_strlit("blocklist_additions");
    assert("blocklist_additions"@.len() == 19);
    reveal_strlit("settle_distribution");
    assert("settle_distribution"@.len() == 19);
    let e = written_framework(f)->Object_0;
    assert("blocklist_additions"@[0] != "settle_distribution"@[0]);
    lemma_entry_at(e, 0);
    lemma_entry_at(e, 1);
    lemma_entry_at(e, 2);
    lemma_written_texts(f.blocklist_additions);
    lemma_written_settle(f.settle_distribution);
}

proof fn lemma_written_frameworks(table: Seq<(Seq<char>, FrameworkModel)>)
    requires
        distinct_keys(table),
    ensures
        read_framework_entries(written_frameworks(table)) == Some(table),
    decreases table.len(),
{
    if table.len() > 0 {
        lemma_last_entry(table);
        lemma_written_frameworks(table.drop_last());
        lemma_written_framework(table.last().1);
        assert(written_frameworks(table).drop_last() =~= written_frameworks(table.drop_last()));
    } else {
        assert(table =~= Seq::empty());
    }
}

/// Reading back what was written of a bundle gives the bundle, posteriors
/// included.
pub proof fn law_bundle_round_trip(b: BundleModel)
    requires
        is_keyed(b),
    ensures
        read_bundle(written_bundle(b)) == Some(b),
        is_supported(b.schema_version) ==> accepted_bundle(written_bundle(b)) == Some(b),
{
    reveal_strlit("schema_version");
    assert("schema_version"@.len() == 14);
    reveal_strlit("fit_timestamp");
    assert("fit_timestamp"@.len() == 13);
    reveal_strlit("fit_corpus_size");
    assert("fit_corpus_size"@.len() == 15);
    reveal_strlit("training_pipeline_version");
    assert("training_pipeline_version"@.len() == 25);
    reveal_strlit("domains");
    assert("domains"@.len() == 7);
    reveal_strlit("framework_priors");
    assert("framework_priors"@.len() == 16);
    let e = written_bundle(b)->Object_0;
    lemma_entry_at(e, 0);
    lemma_entry_at(e, 1);
    lemma_entry_at(e, 2);
    lemma_entry_at(e, 3);
    lemma_entry_at(e, 4);
    lemma_entry_at(e, 5);
    lemma_written_domains(b.domains);
    lemma_written_frameworks(b.framework_priors);
}

/// A field of a record in a map.
proof fn lemma_held_member(j: JsonModel, key: Seq<char>, i: int)
    requires
        j matches JsonModel::Object(entries) && distinct_keys(entries),
    ensures
        member(with_map_entries(j), key, i) == (match member(j, key, i) {
            Some(v) => Some(with_map_entries(v)),
            None => None,
        }),
        distinct_keys(with_map_entries(j)->Object_0),
{
    lemma_map_entry(j->Object_0, key);
    lemma_map_distinct(j->Object_0);
}

proof fn lemma_held_texts(texts: Seq<Seq<char>>)
    ensures
        with_map_entries(written_texts(texts)) == written_texts(texts),
{
    lemma_held_array(written_texts(texts)->Array_0);
    assert(with_map_entries(written_texts(texts))->Array_0 =~= written_texts(texts)->Array_0);
}

proof fn lemma_held_settle(s: Option<SettleDistribution>)
    ensures
        read_settle(Some(with_map_entries(written_settle(s)))) == Some(s),
{
    if s is Some {
        lemma_settle_keys(s);
        lemma_written_settle(s);
        let j = written_settle(s);
        lemma_held_member(j, "p50_ms"@, 0);
        lemma_held_member(j, "p90_ms"@, 1);
        lemma_held_member(j, "p95_ms"@, 2);
    }
}

proof fn lemma_settle_keys(s: Option<SettleDistribution>)
    requires
        s is Some,
    ensures
        distinct_keys(written_settle(s)->Object_0),
{
    reveal_strlit("p50_ms");
    reveal_strlit("p90_ms");
    reveal_strlit("p95_ms");
    assert("p50_ms"@[1] != "p90_ms"@[1]);
    assert("p50_ms"@[1] != "p95_ms"@[1]);
    assert("p90_ms"@[2] != "p95_ms"@[2]);
}

proof fn lemma_held_posterior(p: PosteriorModel)
    requires
        has_exact_posterior(p),
    ensures
        read_posterior(with_map_entries(written_posterior(p))) == Some(p),
{
    reveal_strlit("alpha");
    assert("alpha"@.len() == 5);
    reveal_strlit("beta");
    assert("beta"@.len() == 4);
    reveal_strlit("n");
    assert("n"@.len() == 1);
    lemma_written_posterior(p);
    let j = written_posterior(p);
    assert(distinct_keys(j->Object_0));
    lemma_held_member(j, "alpha"@, 0);
    lemma_held_member(j, "beta"@, 1);
    lemma_held_member(j, "n"@, 2);
    lemma_entry_at(j->Object_0, 0);
    lemma_entry_at(j->Object_0, 1);
    lemma_entry_at(j->Object_0, 2);
}

proof fn lemma_read_each_posterior(
    table: Seq<(Seq<char>, PosteriorModel)>,
    f: spec_fn(PosteriorModel) -> JsonModel,
)
    requires
        distinct_keys(table),
        forall|i: int|
            0 <= i < table.len() ==> read_posterior(f((#[trigger] table[i]).1)) == Some(table[i].1),
    ensures
        read_posterior_entries(each(table, f)) == Some(table),
    decreases table.len(),
{
    if table.len() > 0 {
        lemma_last_entry(table);
        let front = table.drop_last();
        assert forall|i: int| 0 <= i < front.len() implies read_posterior(
            f((#[trigger] front[i]).1),
        ) == Some(front[i].1) by {
            assert(front[i] == table[i]);
        }
        lemma_read_each_posterior(front, f);
        assert(each(table, f).drop_last() =~= each(front, f));
        assert(table.last() == table[table.len() - 1]);
    } else {
        assert(table =~= Seq::empty());
    }
}

proof fn lemma_held_posteriors(table: Seq<(Seq<char>, PosteriorModel)>)
    requires
        distinct_keys(table),
        forall|i: int| 0 <= i < table.len() ==> has_exact_posterior((#[trigger] table[i]).1),
    ensures
        read_posterior_entries(map_entries(written_posteriors(table))) == Some(tidy(table)),
{
    let w = |p: PosteriorModel| written_posterior(p);
    let held = |p: PosteriorModel| with_map_entries(written_posterior(p));
    let f = |v: JsonModel| with_map_entries(v);
    let sorted = tidy(table);
    lemma_tidy_distinct(table);
    assert(written_posteriors(table) =~= each(table, w));
    lemma_map_entries(each(table, w));
    lemma_tidy_each(table, w);
    assert(each(each(sorted, w), f) =~= each(sorted, held));
    lemma_tidy_all(table, |p: PosteriorModel| has_exact_posterior(p));
    assert forall|i: int| 0 <= i < sorted.len() implies read_posterior(
        held((#[trigger] sorted[i]).1),
    ) == Some(sorted[i].1) by {
        assert((|p: PosteriorModel| has_exact_posterior(p))(sorted[i].1));
        lemma_held_posterior(sorted[i].1);
    }
    lemma_read_each_posterior(sorted, held);
}

proof fn lemma_domain_keys(d: DomainModel)
    ensures
        distinct_keys(written_domain(d)->Object_0),
{
    reveal_strlit("domain");
    assert("domain"@.len() == 6);
    reveal_strlit("framework");
    assert("framework"@.len() == 9);
    reveal_strlit("blocklist_additions");
    assert("blocklist_additions"@.len() == 19);
    reveal_strlit("required_patterns");
    assert("required_patterns"@.len() == 17);
    reveal_strlit("settle_distribution");
    assert("settle_distribution"@.len() == 19);
    reveal_strlit("shape_hint");
    assert("shape_hint"@.len() == 10);
    reveal_strlit("posteriors");
    assert("posteriors"@.len() == 10);
    assert("blocklist_additions"@[0] != "settle_distribution"@[0]);
    assert("shape_hint"@[0] != "posteriors"@[0]);
}

proof fn lemma_held_domain(d: DomainModel)
    requires
        has_exact_domain(d),
        distinct_keys(d.posteriors),
    ensures
        read_domain(with_map_entries(written_domain(d))) == Some(tidied_domain(d)),
{
    let j = written_domain(d);
    let e = j->Object_0;
    lemma_domain_keys(d);
    lemma_held_member(j, "domain"@, 0);
    lemma_held_member(j, "framework"@, 1);
    lemma_held_member(j, "blocklist_additions"@, 2);
    lemma_held_member(j, "required_patterns"@, 3);
    lemma_held_member(j, "settle_distribution"@, 4);
    lemma_held_member(j, "shape_hint"@, 5);
    lemma_held_member(j, "posteriors"@, 6);
    lemma_entry_at(e, 0);
    lemma_entry_at(e, 1);
    lemma_entry_at(e, 2);
    lemma_entry_at(e, 3);
    lemma_entry_at(e, 4);
    lemma_entry_at(e, 5);
    lemma_entry_at(e, 6);
    lemma_held_texts(d.blocklist_additions);
    lemma_written_texts(d.blocklist_additions);
    lemma_held_texts(d.required_patterns);
    lemma_written_texts(d.required_patterns);
    lemma_held_settle(d.settle_distribution);
    lemma_held_posteriors(d.posteriors);
}

proof fn lemma_read_each_domain(
    table: Seq<(Seq<char>, DomainModel)>,
    f: spec_fn(DomainModel) -> JsonModel,
    g: spec_fn(DomainModel) -> DomainModel,
)
    requires
        distinct_keys(table),
        forall|i: int|
            0 <= i < table.len() ==> read_domain(f((#[trigger] table[i]).1)) == Some(g(table[i].1)),
    ensures
        read_domain_entries(each(table, f)) == Some(each(table, g)),
    decreases table.len(),
{
    if table.len() > 0 {
        let turned = each(table, g);
        assert forall|i: int, j: int| 0 <= i < j < turned.len() implies (#[trigger] turned[i]).0 != (
        #[trigger] turned[j]).0 by {
            assert(turned[i].0 == table[i].0);
            assert(turned[j].0 == table[j].0);
        }
        lemma_last_entry(turned);
        lemma_last_entry(table);
        assert(turned.drop_last() =~= each(table.drop_last(), g));
        let front = table.drop_last();
        assert forall|i: int| 0 <= i < front.len() implies read_domain(f((#[trigger] front[i]).1))
            == Some(g(front[i].1)) by {
            assert(front[i] == table[i]);
        }
        lemma_read_each_domain(front, f, g);
        assert(each(table, f).drop_last() =~= each(front, f));
        assert(table.last() == table[table.len() - 1]);
    } else {
        assert(each(table, g) =~= Seq::empty());
    }
}

proof fn lemma_held_domains(table: Seq<(Seq<char>, DomainModel)>)
    requires
        distinct_keys(table),
        forall|i: int| 0 <= i < table.len() ==> distinct_keys((#[trigger] table[i]).1.posteriors),
        forall|i: int| 0 <= i < table.len() ==> has_exact_domain((#[trigger] table[i]).1),
    ensures
        read_domain_entries(map_entries(written_domains(table))) == Some(
            each(tidy(table), |d: DomainModel| tidied_domain(d)),
        ),
{
    let w = |d: DomainModel| written_domain(d);
    let held = |d: DomainModel| with_map_entries(written_domain(d));
    let f = |v: JsonModel| with_map_entries(v);
    let g = |d: DomainModel| tidied_domain(d);
    let sorted = tidy(table);
    lemma_tidy_distinct(table);
    assert(written_domains(table) =~= each(table, w));
    lemma_map_entries(each(table, w));
    lemma_tidy_each(table, w);
    assert(each(each(sorted, w), f) =~= each(sorted, held));
    let holds = |d: DomainModel| has_exact_domain(d) && distinct_keys(d.posteriors);
    lemma_tidy_all(table, holds);
    assert forall|i: int| 0 <= i < sorted.len() implies read_domain(held((#[trigger] sorted[i]).1))
        == Some(g(sorted[i].1)) by {
        assert(holds(sorted[i].1));
        lemma_held_domain(sorted[i].1);
    }
    lemma_read_each_domain(sorted, held, g);
}

proof fn lemma_held_framework(t: FrameworkModel)
    ensures
        read_framework(with_map_entries(written_framework(t))) == Some(t),
{
    reveal_strlit("framework");
    assert("framework"@.len() == 9);
    reveal_strlit("blocklist_additions");
    assert("blocklist_additions"@.len() == 19);
    reveal_strlit("settle_distribution");
    assert("settle_distribution"@.len() == 19);
    assert("blocklist_additions"@[0] != "settle_distribution"@[0]);
    let j = written_framework(t);
    let e = j->Object_0;
    assert(distinct_keys(e));
    lemma_held_member(j, "framework"@, 0);
    lemma_held_member(j, "blocklist_additions"@, 1);
    lemma_held_member(j, "settle_distribution"@, 2);
    lemma_entry_at(e, 0);
    lemma_entry_at(e, 1);
    lemma_entry_at(e, 2);
    lemma_held_texts(t.blocklist_additions);
    lemma_written_texts(t.blocklist_additions);
    lemma_held_settle(t.settle_distribution);
}

proof fn lemma_read_each_framework(
    table: Seq<(Seq<char>, FrameworkModel)>,
    f: spec_fn(FrameworkModel) -> JsonModel,
)
    requires
        distinct_keys(table),
        forall|i: int|
            0 <= i < table.len() ==> read_framework(f((#[trigger] table[i]).1)) == Some(table[i].1),
    ensures
        read_framework_entries(each(table, f)) == Some(table),
    decreases table.len(),
{
    if table.len() > 0 {
        lemma_last_entry(table);
        let front = table.drop_last();
        assert forall|i: int| 0 <= i < front.len() implies read_framework(
            f((#[trigger] front[i]).1),
        ) == Some(front[i].1) by {
            assert(front[i] == table[i]);
        }
        lemma_read_each_framework(front, f);
        assert(each(table, f).drop_last() =~= each(front, f));
        assert(table.last() == table[table.len() - 1]);
    } else {
        assert(table =~= Seq::empty());
    }
}

proof fn lemma_held_frameworks(table: Seq<(Seq<char>, FrameworkModel)>)
    requires
        distinct_keys(table),
    ensures
        read_framework_entries(map_entries(written_frameworks(table))) == Some(tidy(table)),
{
    let w = |t: FrameworkModel| written_framework(t);
    let held = |t: FrameworkModel| with_map_entries(written_framework(t));
    let f = |v: JsonModel| with_map_entries(v);
    let sorted = tidy(table);
    lemma_tidy_distinct(table);
    assert(written_frameworks(table) =~= each(table, w));
    lemma_map_entries(each(table, w));
    lemma_tidy_each(table, w);
    assert(each(each(sorted, w), f) =~= each(sorted, held));
    assert forall|i: int| 0 <= i < sorted.len() implies read_framework(
        held((#[trigger] sorted[i]).1),
    ) == Some(sorted[i].1) by {
        lemma_held_framework(sorted[i].1);
    }
    lemma_read_each_framework(sorted, held);
}

proof fn lemma_bundle_keys(b: BundleModel)
    ensures
        distinct_keys(written_bundle(b)->Object_0),
{
    reveal_strlit("schema_version");
    assert("schema_version"@.len() == 14);
    reveal_strlit("fit_timestamp");
    assert("fit_timestamp"@.len() == 13);
    reveal_strlit("fit_corpus_size");
    assert("fit_corpus_size"@.len() == 15);
    reveal_strlit("training_pipeline_version");
    assert("training_pipeline_version"@.len() == 25);
    reveal_strlit("domains");
    assert("domains"@.len() == 7);
    reveal_strlit("framework_priors");
    assert("framework_priors"@.len() == 16);
}

/// A bundle as a map holds it is the bundle with its tables in order.
proof fn lemma_held_bundle(b: BundleModel)
    requires
        has_exact_numbers(b),
        is_keyed(b),
    ensures
        read_bundle(with_map_entries(written_bundle(b))) == Some(tidied_bundle(b)),
{
    let j = written_bundle(b);
    let e = j->Object_0;
    lemma_bundle_keys(b);
    lemma_held_member(j, "schema_version"@, 0);
    lemma_held_member(j, "fit_timestamp"@, 1);
    lemma_held_member(j, "fit_corpus_size"@, 2);
    lemma_held_member(j, "training_pipeline_version"@, 3);
    lemma_held_member(j, "domains"@, 4);
    lemma_held_member(j, "framework_priors"@, 5);
    lemma_entry_at(e, 0);
    lemma_entry_at(e, 1);
    lemma_entry_at(e, 2);
    lemma_entry_at(e, 3);
    lemma_entry_at(e, 4);
    lemma_entry_at(e, 5);
    lemma_held_domains(b.domains);
    lemma_held_frameworks(b.framework_priors);
}

/// A bundle whose numbers are exact can be read back as a value.
proof fn lemma_bundle_reads_back(b: BundleModel)
    requires
        has_exact_numbers(b),
    ensures
        reads_back(written_bundle(b)),
{
    assert forall|i: int| 0 <= i < b.domains.len() implies is_exact(
        #[trigger] written_domain(b.domains[i].1),
    ) && nests(written_domain(b.domains[i].1), 98) by {
        lemma_domain_reads_back(b.domains[i].1);
    }
    assert forall|i: int| 0 <= i < b.framework_priors.len() implies is_exact(
        #[trigger] written_framework(b.framework_priors[i].1),
    ) && nests(written_framework(b.framework_priors[i].1), 98) by {
        lemma_framework_reads_back(b.framework_priors[i].1);
    }
    let e = written_bundle(b)->Object_0;
    assert(is_exact(e[4].1));
    assert(is_exact(e[5].1));
    assert(nests(e[4].1, 99));
    assert(nests(e[5].1, 99));
    assert(nests(e[0].1, 99) && nests(e[1].1, 99) && nests(e[2].1, 99) && nests(e[3].1, 99));
    assert(is_exact(e[0].1) && is_exact(e[1].1) && is_exact(e[2].1) && is_exact(e[3].1));
}

proof fn lemma_texts_read_back(texts: Seq<Seq<char>>)
    ensures
        is_exact(written_texts(texts)),
        nests(written_texts(texts), 97),
{
    let items = written_texts(texts)->Array_0;
    assert forall|i: int| 0 <= i < items.len() implies is_exact(#[trigger] items[i]) && nests(
        items[i],
        96,
    ) by {
        assert(items[i] == JsonModel::Text(texts[i]));
    }
}

proof fn lemma_settle_reads_back(s: Option<SettleDistribution>)
    ensures
        is_exact(written_settle(s)),
        nests(written_settle(s), 97),
{
    if s is Some {
        let e = written_settle(s)->Object_0;
        assert(is_exact(e[0].1) && is_exact(e[1].1) && is_exact(e[2].1));
        assert(nests(e[0].1, 96) && nests(e[1].1, 96) && nests(e[2].1, 96));
    }
}

proof fn lemma_domain_reads_back(d: DomainModel)
    requires
        has_exact_domain(d),
    ensures
        is_exact(written_domain(d)),
        nests(written_domain(d), 98),
{
    lemma_texts_read_back(d.blocklist_additions);
    lemma_texts_read_back(d.required_patterns);
    lemma_settle_reads_back(d.settle_distribution);
    let p = written_posteriors(d.posteriors);
    assert forall|i: int| 0 <= i < p.len() implies is_exact((#[trigger] p[i]).1) && nests(
        p[i].1,
        96,
    ) by {
        assert(has_exact_posterior(d.posteriors[i].1));
        let e = written_posterior(d.posteriors[i].1)->Object_0;
        assert(is_exact(e[0].1) && is_exact(e[1].1) && is_exact(e[2].1));
        assert(nests(e[0].1, 95) && nests(e[1].1, 95) && nests(e[2].1, 95));
    }
    let e = written_domain(d)->Object_0;
    assert(is_exact(e[6].1));
    assert(nests(e[6].1, 97));
    assert(is_exact(e[0].1) && is_exact(e[1].1) && is_exact(e[5].1));
    assert(nests(e[0].1, 97) && nests(e[1].1, 97) && nests(e[5].1, 97));
}

proof fn lemma_framework_reads_back(t: FrameworkModel)
    ensures
        is_exact(written_framework(t)),
        nests(written_framework(t), 98),
{
    lemma_texts_read_back(t.blocklist_additions);
    lemma_settle_reads_back(t.settle_distribution);
    let e = written_framework(t)->Object_0;
    assert(is_exact(e[0].1));
    assert(nests(e[0].1, 97));
}

/// Where a key stands, and what stands there.
proof fn lemma_key_entry<T>(table: Seq<(Seq<char>, T)>, key: Seq<char>, i: int)
    requires
        0 <= i <= table.len(),
    ensures
        entry(table.skip(i), key) == (match key_index(table, key, i) {
            Some(k) => Some(table[k].1),
            None => None,
        }),
    decreases table.len() - i,
{
    if i < table.len() {
        assert(table.skip(i)[0] == table[i]);
        if table[i].0 != key {
            lemma_key_entry(table, key, i + 1);
            assert(table.skip(i).skip(1) =~= table.skip(i + 1));
        }
    } else {
        assert(table.skip(i) =~= Seq::empty());
    }
}

/// The posteriors of a bundle survive being written as text and read back: for
/// a host with an entry of its own every decision has the posterior that it
/// had.
#[verifier::rlimit(60)]
#[verifier::spinoff_prover]
pub proof fn law_posteriors_survive(b: BundleModel, host: Seq<char>, key: Seq<char>)
    requires
        is_keyed(b),
        entry(b.domains, unicode_lowercase(host)) is Some,
    ensures
        posterior_of(tidied_bundle(b).domains, host, key) == posterior_of(b.domains, host, key),
{
    let h = unicode_lowercase(host);
    let g = |d: DomainModel| tidied_domain(d);
    let sorted = each(tidy(b.domains), g);
    lemma_key_entry(b.domains, h, 0);
    assert(b.domains.skip(0) =~= b.domains);
    lemma_key_entry(sorted, h, 0);
    assert(sorted.skip(0) =~= sorted);
    lemma_tidy_entry(b.domains, h);
    lemma_each_entry(tidy(b.domains), g, h);
    lemma_key_index(b.domains, h, 0);
    let d = entry(b.domains, h)->0;
    assert(distinct_keys(d.posteriors));
    lemma_tidy_entry(d.posteriors, key);
    lemma_key_entry(d.posteriors, key, 0);
    assert(d.posteriors.skip(0) =~= d.posteriors);
    lemma_key_entry(tidy(d.posteriors), key, 0);
    assert(tidy(d.posteriors).skip(0) =~= tidy(d.posteriors));
}

/// Setting a value for a key keeps what holds of every value.
proof fn lemma_with_entry_all<T>(
    table: Seq<(Seq<char>, T)>,
    key: Seq<char>,
    value: T,
    holds: spec_fn(T) -> bool,
)
    requires
        forall|i: int| 0 <= i < table.len() ==> holds((#[trigger] table[i]).1),
        holds(value),
    ensures
        forall|i: int|
            0 <= i < with_entry(table, key, value).len() ==> holds(
                (#[trigger] with_entry(table, key, value)[i]).1,
            ),
{
    lemma_key_index(table, key, 0);
    match key_index(table, key, 0) {
        Some(k) => {
            lemma_first_key(table, key, 0);
            lemma_with_entry(table, key, value, k);
        },
        None => lemma_with_entry(table, key, value, table.len() as int),
    }
    let after = with_entry(table, key, value);
    assert forall|i: int| 0 <= i < after.len() implies holds((#[trigger] after[i]).1) by {
        if i < table.len() && after[i] == table[i] {
            assert(holds(table[i].1));
        }
    }
}

/// Before the place of a key no entry has it.
proof fn lemma_first_key<T>(table: Seq<(Seq<char>, T)>, key: Seq<char>, i: int)
    requires
        0 <= i <= table.len(),
    ensures
        key_index(table, key, i) matches Some(k) ==> forall|j: int|
            i <= j < k ==> (#[trigger] table[j]).0 != key,
    decreases table.len() - i,
{
    if i < table.len() && table[i].0 != key {
        lemma_first_key(table, key, i + 1);
    }
}

proof fn lemma_posteriors_keyed(entries: Seq<(Seq<char>, JsonModel)>)
    ensures
        read_posterior_entries(entries) matches Some(table) ==> distinct_keys(table),
    decreases entries.len(),
{
    if entries.len() > 0 {
        lemma_posteriors_keyed(entries.drop_last());
        match (read_posterior_entries(entries.drop_last()), read_posterior(entries.last().1)) {
            (Some(table), Some(p)) => lemma_with_entry_distinct(table, entries.last().0, p),
            _ => {},
        }
    }
}

proof fn lemma_domains_keyed(entries: Seq<(Seq<char>, JsonModel)>)
    ensures
        read_domain_entries(entries) matches Some(table) ==> distinct_keys(table) && forall|i: int|
            0 <= i < table.len() ==> distinct_keys((#[trigger] table[i]).1.posteriors),
    decreases entries.len(),
{
    if entries.len() > 0 {
        lemma_domains_keyed(entries.drop_last());
        match (read_domain_entries(entries.drop_last()), read_domain(entries.last().1)) {
            (Some(table), Some(d)) => {
                let j = entries.last().1;
                if let Some(JsonModel::Object(posteriors)) = member(j, "posteriors"@, 6) {
                    lemma_posteriors_keyed(posteriors);
                }
                let holds = |d: DomainModel| distinct_keys(d.posteriors);
                lemma_with_entry_distinct(table, entries.last().0, d);
                lemma_with_entry_all(table, entries.last().0, d, holds);
                let after = with_entry(table, entries.last().0, d);
                assert forall|i: int| 0 <= i < after.len() implies distinct_keys(
                    (#[trigger] after[i]).1.posteriors,
                ) by {
                    assert(holds(after[i].1));
                }
            },
            _ => {},
        }
    }
}

proof fn lemma_frameworks_keyed(entries: Seq<(Seq<char>, JsonModel)>)
    ensures
        read_framework_entries(entries) matches Some(table) ==> distinct_keys(table),
    decreases entries.len(),
{
    if entries.len() > 0 {
        lemma_frameworks_keyed(entries.drop_last());
        match (read_framework_entries(entries.drop_last()), read_framework(entries.last().1)) {
            (Some(table), Some(f)) => lemma_with_entry_distinct(table, entries.last().0, f),
            _ => {},
        }
    }
}

/// No key occurs twice in a table of a bundle that was read.
proof fn lemma_bundle_keyed(j: JsonModel)
    ensures
        read_bundle(j) matches Some(b) ==> is_keyed(b),
{
    if let Some(JsonModel::Object(domains)) = member(j, "domains"@, 4) {
        lemma_domains_keyed(domains);
    }
    if let Some(JsonModel::Object(frameworks)) = member(j, "framework_priors"@, 5) {
        lemma_frameworks_keyed(frameworks);
    }
}

/// A bundle in which a field is given twice is refused, whatever else it holds.
pub proof fn law_repeated_field_refused(
    entries: Seq<(Seq<char>, JsonModel)>,
    field: Seq<char>,
    a: int,
    b: int,
)
    requires
        bundle_fields().contains(field),
        0 <= a < b < entries.len(),
        entries[a].0 == field,
        entries[b].0 == field,
    ensures
        accepted_bundle(JsonModel::Object(entries)) is None,
{
    assert(entries[a].0 == entries[b].0);
}

/// An entry with another key does not change what is found under a key.
proof fn lemma_entry_between(
    before: Seq<(Seq<char>, JsonModel)>,
    other: (Seq<char>, JsonModel),
    after: Seq<(Seq<char>, JsonModel)>,
    key: Seq<char>,
)
    requires
        other.0 != key,
    ensures
        entry(before + seq![other] + after, key) == entry(before + after, key),
    decreases before.len(),
{
    let all = before + seq![other] + after;
    if before.len() == 0 {
        assert(all[0] == other);
        assert(all.skip(1) =~= before + after);
    } else {
        let rest = before.skip(1);
        lemma_entry_between(rest, other, after, key);
        assert(all[0] == before[0]);
        assert((before + after)[0] == before[0]);
        assert(all.skip(1) =~= rest + seq![other] + after);
        assert((before + after).skip(1) =~= rest + after);
    }
}

/// An entry that is no field does not change which fields occur once.
proof fn lemma_once_between(
    before: Seq<(Seq<char>, JsonModel)>,
    other: (Seq<char>, JsonModel),
    after: Seq<(Seq<char>, JsonModel)>,
    fields: Seq<Seq<char>>,
)
    requires
        !fields.contains(other.0),
    ensures
        has_once(before + seq![other] + after, fields) == has_once(before + after, fields),
{
    let all = before + seq![other] + after;
    let less = before + after;
    let n = before.len() as int;
    if has_once(all, fields) {
        assert forall|i: int, j: int|
            0 <= i < j < less.len() && (#[trigger] less[i]).0 == (#[trigger] less[j]).0 implies !fields.contains(
            less[i].0,
        ) by {
            let a = if i < n { i } else { i + 1 };
            let b = if j < n { j } else { j + 1 };
            assert(all[a] == less[i] && all[b] == less[j]);
        }
    }
    if has_once(less, fields) {
        assert forall|i: int, j: int|
            0 <= i < j < all.len() && (#[trigger] all[i]).0 == (#[trigger] all[j]).0 implies !fields.contains(
            all[i].0,
        ) by {
            if i != n && j != n {
                let a = if i < n { i } else { i - 1 };
                let b = if j < n { j } else { j - 1 };
                assert(less[a] == all[i] && less[b] == all[j]);
            } else {
                assert(all[n] == other);
            }
        }
    }
}

/// A field that is not known is dropped, whatever it holds: a bundle, a domain
/// or a posterior with it is read as one without it.
pub proof fn law_unknown_fields_are_dropped(
    before: Seq<(Seq<char>, JsonModel)>,
    field: Seq<char>,
    value: JsonModel,
    after: Seq<(Seq<char>, JsonModel)>,
)
    ensures
        ({
            let with = JsonModel::Object(before + seq![(field, value)] + after);
            let without = JsonModel::Object(before + after);
            &&& !bundle_fields().contains(field) ==> accepted_bundle(with) == accepted_bundle(
                without,
            )
            &&& !domain_fields().contains(field) ==> read_domain(with) == read_domain(without)
            &&& !posterior_fields().contains(field) ==> read_posterior(with) == read_posterior(
                without,
            )
        }),
{
    let other = (field, value);
    assert forall|key: Seq<char>| key != field implies #[trigger] entry(
        before + seq![other] + after,
        key,
    ) == entry(before + after, key) by {
        lemma_entry_between(before, other, after, key);
    }
    if !bundle_fields().contains(field) {
        lemma_once_between(before, other, after, bundle_fields());
        let f = bundle_fields();
        assert(f[0] != field && f[1] != field && f[2] != field && f[3] != field && f[4] != field
            && f[5] != field);
    }
    if !domain_fields().contains(field) {
        lemma_once_between(before, other, after, domain_fields());
        let f = domain_fields();
        assert(f[0] != field && f[1] != field && f[2] != field && f[3] != field && f[4] != field
            && f[5] != field && f[6] != field);
    }
    if !posterior_fields().contains(field) {
        lemma_once_between(before, other, after, posterior_fields());
        let f = posterior_fields();
        assert(f[0] != field && f[1] != field && f[2] != field);
    }
}

/// A bundle of a version that is not understood is refused, whatever else it
/// holds.
pub proof fn law_unsupported_version_refused(j: JsonModel)
    requires
        read_u32(member(j, "schema_version"@, 0)) matches Some(v) && !is_supported(v),
    ensures
        accepted_bundle(j) is None,
{
}

/// A domain that is written without posteriors has none, whatever decision
/// is asked for.
pub proof fn law_missing_posteriors_are_none(
    j: JsonModel,
    table: Seq<(Seq<char>, DomainModel)>,
    host: Seq<char>,
    key: Seq<char>,
)
    requires
        member(j, "posteriors"@, 6) is None,
        read_domain(j) matches Some(d) && domain_of(table, host) == Some(d),
    ensures
        posterior_of(table, host, key) is None,
{
}

/// What is known of a domain is found for the domain and for all of its
/// subdomains, unless a host has an entry of its own or belongs to another
/// domain that stands before it.
pub proof fn law_domain_covers_subdomains(
    table: Seq<(Seq<char>, DomainModel)>,
    host: Seq<char>,
    i: int,
)
    requires
        0 <= i < table.len(),
        unicode_lowercase(host) == table[i].0 || is_subdomain(unicode_lowercase(host), table[i].0),
    ensures
        domain_of(table, host) is Some,
        (forall|j: int|
            0 <= j < table.len() && j != i ==> unicode_lowercase(host) != (#[trigger] table[j]).0
                && !is_subdomain(unicode_lowercase(host), table[j].0)) ==> domain_of(table, host)
            == Some(table[i].1),
{
    let h = unicode_lowercase(host);
    lemma_key_index(table, h, 0);
    lemma_parent_index(table, h, 0);
}

/// Without a posterior that rests on observations the answer to a decision is
/// no, whatever was drawn.
pub proof fn law_no_evidence_no_action(
    posterior: Option<BetaPosterior>,
    sampled: u64,
    threshold: u64,
    r: DecideOutcome,
)
    requires
        posterior matches Some(p) ==> p.n == 0,
        call_ensures(decide_sampled, (posterior, sampled, threshold), r),
    ensures
        !r.blocked,
        r.sampled is None,
{
}

/// A host with an entry of its own is known by the first of these; any other by
/// the first entry that it ends with behind a dot; and one that has neither is
/// not known.
pub proof fn law_what_is_known_of_a_host(
    table: Seq<(Seq<char>, DomainModel)>,
    host: Seq<char>,
    i: int,
)
    ensures
        ({
            let h = unicode_lowercase(host);
            let own = 0 <= i < table.len() && table[i].0 == h && forall|k: int|
                0 <= k < i ==> (#[trigger] table[k]).0 != h;
            let none_own = forall|k: int| 0 <= k < table.len() ==> (#[trigger] table[k]).0 != h;
            let parent = 0 <= i < table.len() && ("."@ + table[i].0).is_suffix_of(h) && forall|k: int|
                0 <= k < i ==> !("."@ + (#[trigger] table[k]).0).is_suffix_of(h);
            let none_parent = forall|k: int|
                0 <= k < table.len() ==> !("."@ + (#[trigger] table[k]).0).is_suffix_of(h);
            &&& own ==> domain_of(table, host) == Some(table[i].1)
            &&& none_own && parent ==> domain_of(table, host) == Some(table[i].1)
            &&& none_own && none_parent ==> domain_of(table, host) is None
        }),
{
    let h = unicode_lowercase(host);
    lemma_key_index(table, h, 0);
    lemma_parent_index(table, h, 0);
    if let Some(k) = key_index(table, h, 0) {
        assert(table[k].0 == h);
        if 0 <= i < table.len() && table[i].0 == h && i != k {
            if k < i {
                assert(table[k].0 == h);
            } else {
                assert(table[i].0 == h);
            }
        }
    } else if let Some(k) = parent_index(table, h, 0) {
        assert(is_subdomain(h, table[k].0));
        if 0 <= i < table.len() && is_subdomain(h, table[i].0) && k < i {
            assert(("."@ + table[k].0).is_suffix_of(h));
        }
    }
}

/// The first entry with a key, by its properties.
proof fn lemma_key_index<T>(table: Seq<(Seq<char>, T)>, key: Seq<char>, i: int)
    requires
        0 <= i <= table.len(),
    ensures
        match key_index(table, key, i) {
            Some(k) => i <= k < table.len() && table[k].0 == key && forall|j: int|
                i <= j < k ==> (#[trigger] table[j]).0 != key,
            None => forall|j: int| i <= j < table.len() ==> (#[trigger] table[j]).0 != key,
        },
    decreases table.len() - i,
{
    if i < table.len() && table[i].0 != key {
        lemma_key_index(table, key, i + 1);
    }
}

/// The first entry that a host belongs to, by its properties.
proof fn lemma_parent_index<T>(table: Seq<(Seq<char>, T)>, host: Seq<char>, i: int)
    requires
        0 <= i <= table.len(),
    ensures
        match parent_index(table, host, i) {
            Some(k) => i <= k < table.len() && is_subdomain(host, table[k].0) && forall|j: int|
                i <= j < k ==> !is_subdomain(host, (#[trigger] table[j]).0),
            None => forall|j: int|
                i <= j < table.len() ==> !is_subdomain(host, (#[trigger] table[j]).0),
        },
    decreases table.len() - i,
{
    if i < table.len() && !is_subdomain(host, table[i].0) {
        lemma_parent_index(table, host, i + 1);
    }
}

/// The posterior for a decision is the one that is known of the host under the
/// name of the decision.
pub proof fn law_posterior_of_a_decision(
    bundle: &PrefitBundle,
    host: &str,
    key: &str,
    domain: Option<&DomainPrefit>,
    r: Option<BetaPosterior>,
    i: int,
)
    requires
        call_ensures(PrefitBundle::lookup_domain, (bundle, host), domain),
        call_ensures(PrefitBundle::lookup_posterior, (bundle, host, key), r),
    ensures
        domain is None ==> r is None,
        domain matches Some(d) ==> {
            let own = 0 <= i < d@.posteriors.len() && d@.posteriors[i].0 == key@ && forall|k: int|
                0 <= k < i ==> (#[trigger] d@.posteriors[k]).0 != key@;
            &&& own ==> r is Some && r->0@ == d@.posteriors[i].1
            &&& (forall|k: int| 0 <= k < d@.posteriors.len() ==> (#[trigger] d@.posteriors[k]).0 != key@)
                ==> r is None
        },
{
    if let Some(d) = domain {
        lemma_key_index(d@.posteriors, key@, 0);
        if let Some(k) = key_index(d@.posteriors, key@, 0) {
            if 0 <= i < d@.posteriors.len() && d@.posteriors[i].0 == key@ && k < i {
                assert(d@.posteriors[k].0 == key@);
            }
        }
    }
}

/// On a domain a URL is blocked exactly if its host is one of the additions, in
/// lowercase, or ends with one behind a dot; and it is needed exactly if it holds
/// one of the required patterns.
pub proof fn law_what_a_domain_says_of_urls(
    d: &DomainPrefit,
    url: &str,
    blocked: bool,
    needed: bool,
)
    requires
        call_ensures(DomainPrefit::blocks, (d, url), blocked),
        call_ensures(DomainPrefit::needs, (d, url), needed),
    ensures
        blocked <==> (lower_host(url@) matches Some(host) && exists|i: int|
            0 <= i < d@.blocklist_additions.len() && {
                let p = unicode_lowercase(#[trigger] d@.blocklist_additions[i]);
                host == p || ("."@ + p).is_suffix_of(host)
            }),
        needed <==> exists|i: int|
            0 <= i < d@.required_patterns.len() && contains_text(
                url@,
                #[trigger] d@.required_patterns[i],
            ),
{
}

/// A double reaches another: never where one is no number; of two that are not
/// negative, where its bits are no less; of two that are negative, where they
/// are no more; and one that is not negative always reaches one that is, and
/// the other way round only where both are zero.
pub proof fn law_when_a_double_reaches_another(a: u64, b: u64, r: bool)
    requires
        call_ensures(reaches, (a, b), r),
    ensures
        ({
            let top: u64 = 0x8000_0000_0000_0000;
            let end: u64 = 0x7ff0_0000_0000_0000;
            let numbers = (a <= end || (top <= a && a - top <= end)) && (b <= end || (top <= b && b
                - top <= end));
            &&& !numbers ==> !r
            &&& numbers && a < top && b < top ==> (r <==> a >= b)
            &&& numbers && a >= top && b >= top ==> (r <==> a <= b)
            &&& numbers && a < top && b >= top ==> r
            &&& numbers && a >= top && b < top ==> (r <==> a == top && b == 0)
        }),
{
    let top: int = 0x8000_0000_0000_0000;
    assert(a < top ==> a as int % top == a);
    assert(b < top ==> b as int % top == b);
    assert(a >= top ==> a as int % top == a - top);
    assert(b >= top ==> b as int % top == b - top);
}

/// A decision is to act exactly if there is a posterior that rests on
/// observations and the sample reaches the threshold; the sample counts for
/// nothing where there is no such posterior.
pub proof fn law_when_to_act(
    bundle: &PrefitBundle,
    host: &str,
    key: &str,
    sampled: u64,
    threshold: u64,
    found: Option<BetaPosterior>,
    traced: DecideOutcome,
    act: bool,
)
    requires
        call_ensures(PrefitBundle::lookup_posterior, (bundle, host, key), found),
        call_ensures(PrefitBundle::decide_traced, (bundle, host, key, sampled, threshold), traced),
        call_ensures(PrefitBundle::decide, (bundle, host, key, sampled, threshold), act),
    ensures
        act == traced.blocked,
        traced.blocked <==> found is Some && found->0.n >= 1 && at_least(sampled, threshold),
        traced.sampled == Some(sampled) <==> found is Some && found->0.n >= 1,
        traced.sampled is None <==> !(found is Some && found->0.n >= 1),
        traced.threshold == threshold,
        traced.posterior is Some <==> found is Some,
        found is Some ==> traced.posterior->0@ == found->0@,
{
    if found is Some {
        assert(found->0@.n == found->0.n);
    }
}

/// A list of texts is read exactly if all of its items are texts, and as these.
pub proof fn law_lists_of_texts_are_read(items: Seq<JsonModel>, texts: Seq<Seq<char>>)
    ensures
        read_items(items) == Some(texts) <==> texts.len() == items.len() && forall|i: int|
            0 <= i < items.len() ==> #[trigger] items[i] == JsonModel::Text(texts[i]),
    decreases items.len(),
{
    if items.len() == 0 {
        if texts.len() == 0 {
            assert(texts =~= Seq::empty());
        }
    } else {
        let front = items.drop_last();
        let n = items.len() - 1;
        if read_items(items) == Some(texts) {
            let before = read_items(front)->0;
            law_lists_of_texts_are_read(front, before);
            assert(texts == before.push(items.last()->Text_0));
            assert forall|i: int| 0 <= i < items.len() implies #[trigger] items[i]
                == JsonModel::Text(texts[i]) by {
                if i < n {
                    assert(front[i] == items[i]);
                }
            }
        }
        if texts.len() == items.len() && forall|i: int|
            0 <= i < items.len() ==> #[trigger] items[i] == JsonModel::Text(texts[i]) {
            law_lists_of_texts_are_read(front, texts.drop_last());
            assert forall|i: int| 0 <= i < front.len() implies #[trigger] front[i]
                == JsonModel::Text(texts.drop_last()[i]) by {
                assert(front[i] == items[i]);
            }
            assert(items[n] == JsonModel::Text(texts[n]));
            assert(texts.drop_last().push(texts[n]) =~= texts);
        }
    }
}

/// Whether what stands under a key is missing, null or a text.
pub open spec fn may_be_text(v: Option<JsonModel>) -> bool {
    v is None || v->0 is Null || v->0 is Text
}

/// Whether what stands under a key is missing or a list of texts.
pub open spec fn may_be_texts(v: Option<JsonModel>) -> bool {
    v is None || (v->0 is Array && forall|i: int|
        0 <= i < v->0->Array_0.len() ==> (#[trigger] v->0->Array_0[i]) is Text)
}

proof fn lemma_may_be_texts(v: Option<JsonModel>)
    ensures
        read_texts(v) is Some <==> may_be_texts(v),
        v is None ==> read_texts(v) == Some(Seq::<Seq<char>>::empty()),
        may_be_texts(v) && v is Some ==> read_texts(v)->0.len() == v->0->Array_0.len() && forall|i: int|
            0 <= i < v->0->Array_0.len() ==> #[trigger] v->0->Array_0[i] == JsonModel::Text(
                read_texts(v)->0[i],
            ),
{
    if v is Some && v->0 is Array {
        let items = v->0->Array_0;
        if read_items(items) is Some {
            law_lists_of_texts_are_read(items, read_items(items)->0);
        }
        if may_be_texts(v) {
            let texts = Seq::new(items.len(), |i: int| items[i]->Text_0);
            assert forall|i: int| 0 <= i < items.len() implies #[trigger] items[i]
                == JsonModel::Text(texts[i]) by {
                assert(items[i] is Text);
            }
            law_lists_of_texts_are_read(items, texts);
        }
    }
}

/// What is known of a domain is read from an object that gives no field twice,
/// has the domain as a text, and holds in each other field what it should or
/// nothing. Texts that are missing or null are none, lists and tables that are
/// missing are empty.
pub proof fn law_domains_are_read(entries: Seq<(Seq<char>, JsonModel)>)
    ensures
        ({
            let j = JsonModel::Object(entries);
            let additions = j.get("blocklist_additions"@);
            let patterns = j.get("required_patterns"@);
            let settle = j.get("settle_distribution"@);
            let posteriors = j.get("posteriors"@);
            let r = read_domain(j);
            &&& r is Some <==> {
                &&& has_once(entries, domain_fields())
                &&& j.text_at("domain"@) is Some
                &&& may_be_text(j.get("framework"@))
                &&& may_be_texts(additions)
                &&& may_be_texts(patterns)
                &&& read_settle(settle) is Some
                &&& may_be_text(j.get("shape_hint"@))
                &&& read_posteriors(posteriors) is Some
            }
            &&& r matches Some(d) ==> {
                &&& Some(d.domain) == j.text_at("domain"@)
                &&& d.framework == j.text_at("framework"@)
                &&& d.shape_hint == j.text_at("shape_hint"@)
                &&& d.blocklist_additions.len() == (if additions is Some {
                    additions->0->Array_0.len()
                } else {
                    0
                })
                &&& forall|i: int|
                    0 <= i < d.blocklist_additions.len() ==> additions->0->Array_0[i]
                        == JsonModel::Text(#[trigger] d.blocklist_additions[i])
                &&& d.required_patterns.len() == (if patterns is Some {
                    patterns->0->Array_0.len()
                } else {
                    0
                })
                &&& forall|i: int|
                    0 <= i < d.required_patterns.len() ==> patterns->0->Array_0[i]
                        == JsonModel::Text(#[trigger] d.required_patterns[i])
                &&& d.settle_distribution == read_settle(settle)->0
                &&& d.posteriors == read_posteriors(posteriors)->0
            }
        }),
        read_settle(None) == Some(None::<SettleDistribution>),
        read_settle(Some(JsonModel::Null)) == Some(None::<SettleDistribution>),
        read_posteriors(None) == Some(Seq::<(Seq<char>, PosteriorModel)>::empty()),
{
    let j = JsonModel::Object(entries);
    lemma_may_be_texts(j.get("blocklist_additions"@));
    lemma_may_be_texts(j.get("required_patterns"@));
    if let Some(d) = read_domain(j) {
        let additions = j.get("blocklist_additions"@);
        let patterns = j.get("required_patterns"@);
        assert forall|i: int| 0 <= i < d.blocklist_additions.len() implies additions->0->Array_0[i]
            == JsonModel::Text(#[trigger] d.blocklist_additions[i]) by {
            assert(additions->0->Array_0[i] == JsonModel::Text(read_texts(additions)->0[i]));
        }
        assert forall|i: int| 0 <= i < d.required_patterns.len() implies patterns->0->Array_0[i]
            == JsonModel::Text(#[trigger] d.required_patterns[i]) by {
            assert(patterns->0->Array_0[i] == JsonModel::Text(read_texts(patterns)->0[i]));
        }
    }
}

/// What is known of a framework is read in the same way.
pub proof fn law_frameworks_are_read(entries: Seq<(Seq<char>, JsonModel)>)
    ensures
        ({
            let j = JsonModel::Object(entries);
            let additions = j.get("blocklist_additions"@);
            let r = read_framework(j);
            &&& r is Some <==> {
                &&& has_once(entries, framework_fields())
                &&& j.text_at("framework"@) is Some
                &&& may_be_texts(additions)
                &&& read_settle(j.get("settle_distribution"@)) is Some
            }
            &&& r matches Some(f) ==> {
                &&& Some(f.framework) == j.text_at("framework"@)
                &&& Some(f.blocklist_additions) == read_texts(additions)
                &&& f.settle_distribution == read_settle(j.get("settle_distribution"@))->0
            }
        }),
{
    lemma_may_be_texts(JsonModel::Object(entries).get("blocklist_additions"@));
}

/// A posterior has two numbers, and a count that is zero where it is missing.
pub proof fn law_posteriors_are_read(entries: Seq<(Seq<char>, JsonModel)>)
    ensures
        ({
            let j = JsonModel::Object(entries);
            let (alpha, beta, n) = (j.get("alpha"@), j.get("beta"@), j.get("n"@));
            let r = read_posterior(j);
            &&& r is Some <==> {
                &&& has_once(entries, posterior_fields())
                &&& alpha is Some && alpha->0 is Number
                &&& beta is Some && beta->0 is Number
                &&& n is None || j.u64_at("n"@) is Some
            }
            &&& r matches Some(p) ==> {
                &&& alpha == Some(JsonModel::Number(p.alpha))
                &&& beta == Some(JsonModel::Number(p.beta))
                &&& n is None ==> p.n == 0
                &&& n is Some ==> j.u64_at("n"@) == Some(p.n)
            }
        }),
{
}

/// Settle times are three numbers of 32 bits.
pub proof fn law_settle_times_are_read(entries: Seq<(Seq<char>, JsonModel)>)
    ensures
        ({
            let j = JsonModel::Object(entries);
            let r = read_settle(Some(j));
            let fits = |key: Seq<char>| j.u64_at(key) is Some && j.u64_at(key)->0 <= 0xffff_ffff;
            &&& r is Some <==> has_once(entries, settle_fields()) && fits("p50_ms"@) && fits(
                "p90_ms"@,
            ) && fits("p95_ms"@)
            &&& r matches Some(s) ==> s is Some && s->0.p50_ms == j.u64_at("p50_ms"@)->0
                && s->0.p90_ms == j.u64_at("p90_ms"@)->0 && s->0.p95_ms == j.u64_at("p95_ms"@)->0
        }),
{
}

/// A bundle is read from an object that gives no field twice and holds the
/// version, the time, the size, the name of the pipeline and the domains; it is
/// accepted if the version is 1 or 2.
pub proof fn law_bundles_are_read(entries: Seq<(Seq<char>, JsonModel)>)
    ensures
        ({
            let j = JsonModel::Object(entries);
            let fits = |key: Seq<char>| j.u64_at(key) is Some && j.u64_at(key)->0 <= 0xffff_ffff;
            let whole = {
                &&& has_once(entries, bundle_fields())
                &&& fits("schema_version"@)
                &&& j.u64_at("fit_timestamp"@) is Some
                &&& fits("fit_corpus_size"@)
                &&& j.text_at("training_pipeline_version"@) is Some
                &&& read_domains(j.get("domains"@)) is Some
                &&& read_frameworks(j.get("framework_priors"@)) is Some
            };
            let version = j.u64_at("schema_version"@);
            &&& read_bundle(j) is Some <==> whole
            &&& accepted_bundle(j) is Some <==> whole && (version == Some(1u64) || version == Some(
                2u64,
            ))
            &&& accepted_bundle(j) is Some ==> accepted_bundle(j) == read_bundle(j)
            &&& read_bundle(j) matches Some(b) ==> {
                &&& b.schema_version == version->0
                &&& Some(b.fit_timestamp) == j.u64_at("fit_timestamp"@)
                &&& b.fit_corpus_size == j.u64_at("fit_corpus_size"@)->0
                &&& Some(b.training_pipeline_version) == j.text_at("training_pipeline_version"@)
                &&& Some(b.domains) == read_domains(j.get("domains"@))
                &&& Some(b.framework_priors) == read_frameworks(j.get("framework_priors"@))
            }
        }),
        read_frameworks(None) == Some(Seq::<(Seq<char>, FrameworkModel)>::empty()),
        read_domains(None) is None,
{
}

/// A table is read exactly if all of its values are, and of two with one key the
/// last counts.
pub proof fn law_tables_are_read(
    a: Seq<(Seq<char>, JsonModel)>,
    b: Seq<(Seq<char>, JsonModel)>,
    other: Seq<char>,
)
    ensures
        ({
            let (x, y, z) = (
                read_domain_entries(a),
                read_domain_entries(b),
                read_domain_entries(a + b),
            );
            &&& z is Some <==> x is Some && y is Some
            &&& z is Some ==> entry(z->0, other) == (if entry(y->0, other) is Some {
                entry(y->0, other)
            } else {
                entry(x->0, other)
            })
        }),
        ({
            let (x, y, z) = (
                read_posterior_entries(a),
                read_posterior_entries(b),
                read_posterior_entries(a + b),
            );
            &&& z is Some <==> x is Some && y is Some
            &&& z is Some ==> entry(z->0, other) == (if entry(y->0, other) is Some {
                entry(y->0, other)
            } else {
                entry(x->0, other)
            })
        }),
        ({
            let (x, y, z) = (
                read_framework_entries(a),
                read_framework_entries(b),
                read_framework_entries(a + b),
            );
            &&& z is Some <==> x is Some && y is Some
            &&& z is Some ==> entry(z->0, other) == (if entry(y->0, other) is Some {
                entry(y->0, other)
            } else {
                entry(x->0, other)
            })
        }),
    decreases b.len(),
{
    if b.len() == 0 {
        assert(a + b =~= a);
        assert(read_domain_entries(b)->0 == Seq::<(Seq<char>, DomainModel)>::empty());
        assert(read_posterior_entries(b)->0 == Seq::<(Seq<char>, PosteriorModel)>::empty());
        assert(read_framework_entries(b)->0 == Seq::<(Seq<char>, FrameworkModel)>::empty());
    } else {
        let front = b.drop_last();
        law_tables_are_read(a, front, other);
        assert((a + b).drop_last() =~= a + front);
        assert((a + b).last() == b.last());
        let last = b.last();
        if let Some(d) = read_domain(last.1) {
            if read_domain_entries(a + front) is Some {
                law_set_value_is_found(read_domain_entries(a + front)->0, last.0, d, other);
                law_set_value_is_found(read_domain_entries(front)->0, last.0, d, other);
            }
        }
        if let Some(p) = read_posterior(last.1) {
            if read_posterior_entries(a + front) is Some {
                law_set_value_is_found(read_posterior_entries(a + front)->0, last.0, p, other);
                law_set_value_is_found(read_posterior_entries(front)->0, last.0, p, other);
            }
        }
        if let Some(f) = read_framework(last.1) {
            if read_framework_entries(a + front) is Some {
                law_set_value_is_found(read_framework_entries(a + front)->0, last.0, f, other);
                law_set_value_is_found(read_framework_entries(front)->0, last.0, f, other);
            }
        }
    }
}

/// A table with one entry holds what that is read as, under its key.
pub proof fn law_one_entry_is_read(key: Seq<char>, value: JsonModel)
    ensures
        read_domains(Some(JsonModel::Object(seq![(key, value)]))) == (match read_domain(value) {
            Some(d) => Some(seq![(key, d)]),
            None => None,
        }),
        read_posteriors(Some(JsonModel::Object(seq![(key, value)]))) == (match read_posterior(
            value,
        ) {
            Some(p) => Some(seq![(key, p)]),
            None => None,
        }),
        read_frameworks(Some(JsonModel::Object(seq![(key, value)]))) == (match read_framework(
            value,
        ) {
            Some(f) => Some(seq![(key, f)]),
            None => None,
        }),
{
    let one = seq![(key, value)];
    assert(one.drop_last() =~= Seq::empty());
    assert(one.last() == (key, value));
    assert(read_domain_entries(one.drop_last()) == Some(Seq::<(Seq<char>, DomainModel)>::empty()));
    assert(read_posterior_entries(one.drop_last()) == Some(
        Seq::<(Seq<char>, PosteriorModel)>::empty(),
    ));
    assert(read_framework_entries(one.drop_last()) == Some(
        Seq::<(Seq<char>, FrameworkModel)>::empty(),
    ));
}

/// A record may also be a list: its fields then stand in their order, and those
/// at the end may be missing.
pub proof fn law_records_may_be_lists(items: Seq<JsonModel>, key: Seq<char>, i: int)
    ensures
        member(JsonModel::Array(items), key, i) == (if 0 <= i < items.len() {
            Some(items[i])
        } else {
            None
        }),
        items.len() > 3 ==> read_posterior(JsonModel::Array(items)) is None,
        items.len() == 2 && items[0] is Number && items[1] is Number ==> read_posterior(
            JsonModel::Array(items),
        ) == Some(
            PosteriorModel { alpha: items[0]->Number_0, beta: items[1]->Number_0, n: 0 },
        ),
{
}

/// A bundle is described by five lines on the whole and then one on each domain,
/// in the order of their names.
#[verifier::rlimit(60)]
#[verifier::spinoff_prover]
pub proof fn law_how_a_bundle_is_described(bundle: &PrefitBundle, r: Vec<String>, i: int, j: int)
    requires
        call_ensures(PrefitBundle::info_lines, (bundle,), r),
        distinct_keys(bundle@.domains),
        0 <= i < bundle@.domains.len(),
        0 <= j < bundle@.domains.len(),
    ensures
        r@.len() == 5 + bundle@.domains.len(),
        r@[0]@ == "schema_version: "@ + decimal(bundle@.schema_version as nat),
        r@[1]@ == "training_pipeline_version: "@ + bundle@.training_pipeline_version,
        r@[2]@ == "fit_timestamp: "@ + decimal(bundle@.fit_timestamp as nat),
        r@[3]@ == "fit_corpus_size: "@ + decimal(bundle@.fit_corpus_size as nat),
        r@[4]@ == "domains: "@ + decimal(bundle@.domains.len()),
        ({
            let line = |k: int|
                {
                    let d = bundle@.domains[k].1;
                    "  "@ + padded(bundle@.domains[k].0, 30) + " framework="@ + padded(
                        if d.framework is Some {
                            d.framework->0
                        } else {
                            "-"@
                        },
                        20,
                    ) + " blocklist_additions="@ + padded_left(
                        decimal(d.blocklist_additions.len()),
                        3,
                    ) + " shape="@ + (if d.shape_hint is Some {
                        d.shape_hint->0
                    } else {
                        "-"@
                    })
                };
            exists|a: int, b: int|
                {
                    &&& 5 <= a < r@.len()
                    &&& 5 <= b < r@.len()
                    &&& (#[trigger] r@[a])@ == line(i)
                    &&& (#[trigger] r@[b])@ == line(j)
                    &&& i != j && not_after(bundle@.domains[i].0, bundle@.domains[j].0) && !not_after(
                        bundle@.domains[j].0,
                        bundle@.domains[i].0,
                    ) ==> a < b
                }
        }),
{
    let b = bundle@;
    let keys = choose|keys: Seq<Seq<char>>|
        {
            &&& in_order(keys)
            &&& keys.to_multiset() == table_keys(b.domains).to_multiset()
            &&& texts_model(r@) == heading(b) + #[trigger] domain_lines(b.domains, keys)
        };
    let m = texts_model(r@);
    lemma_line_of_a_domain(b.domains, keys, i);
    lemma_line_of_a_domain(b.domains, keys, j);
    assert(heading(b).len() == 5);
    assert(domain_lines(b.domains, keys).len() == b.domains.len());
    assert(m.len() == r@.len());
    assert(m[0] == r@[0]@ && m[1] == r@[1]@ && m[2] == r@[2]@ && m[3] == r@[3]@ && m[4]
        == r@[4]@);
    let x = choose|x: int| 0 <= x < keys.len() && keys[x] == b.domains[i].0;
    let y = choose|y: int| 0 <= y < keys.len() && keys[y] == b.domains[j].0;
    assert(m[5 + x] == domain_lines(b.domains, keys)[x]);
    assert(m[5 + y] == domain_lines(b.domains, keys)[y]);
    assert(r@[5 + x]@ == m[5 + x]);
    assert(r@[5 + y]@ == m[5 + y]);
    if i != j && not_after(b.domains[i].0, b.domains[j].0) && !not_after(
        b.domains[j].0,
        b.domains[i].0,
    ) {
        if y < x {
            assert(not_after(keys[y], keys[x]));
        }
    }
}

/// The line of a domain is among those of the keys.
proof fn lemma_line_of_a_domain(
    table: Seq<(Seq<char>, DomainModel)>,
    keys: Seq<Seq<char>>,
    i: int,
)
    requires
        keys.to_multiset() == table_keys(table).to_multiset(),
        distinct_keys(table),
        0 <= i < table.len(),
    ensures
        keys.len() == table.len(),
        exists|x: int| 0 <= x < keys.len() && keys[x] == table[i].0,
        forall|x: int|
            0 <= x < keys.len() && keys[x] == table[i].0 ==> #[trigger] domain_lines(table, keys)[x]
                == domain_line(table[i].0, table[i].1),
{
    broadcast use vstd::seq_lib::group_to_multiset_ensures;

    assert(keys.to_multiset().len() == keys.len());
    assert(table_keys(table).to_multiset().len() == table.len());
    assert(table_keys(table)[i] == table[i].0);
    assert(table_keys(table).contains(table[i].0));
    assert(keys.to_multiset().count(table[i].0) > 0);
    assert(keys.contains(table[i].0));
    lemma_key_index(table, table[i].0, 0);
    let k = key_index(table, table[i].0, 0)->0;
    assert(table[k].0 == table[i].0);
}

/// A bundle is read from a value or from a text if that is accepted; the version
/// that a text is refused for is that of a bundle that is whole.
pub proof fn law_how_bundles_are_read(
    j: &Json,
    value: Option<PrefitBundle>,
    text: &str,
    bundle: Option<PrefitBundle>,
    version: Option<u32>,
)
    requires
        call_ensures(PrefitBundle::from_value, (j,), value),
        call_ensures(PrefitBundle::from_json, (text,), bundle),
        call_ensures(PrefitBundle::refused_version, (text,), version),
    ensures
        value is Some <==> accepted_bundle(j@) is Some,
        value is Some ==> accepted_bundle(j@) == Some(value->0@),
        bundle is Some <==> is_json_text(text@) && accepted_bundle(every(text@)) is Some,
        bundle is Some ==> accepted_bundle(every(text@)) == Some(bundle->0@),
        version is Some <==> is_json_text(text@) && read_bundle(every(text@)) is Some && !(1
            <= read_bundle(every(text@))->0.schema_version <= 2),
        version is Some ==> version->0 == read_bundle(every(text@))->0.schema_version,
        !(bundle is Some && version is Some),
{
}

/// What is known of a bundle is asked for as the laws on it say.
pub proof fn law_how_bundles_are_asked(
    bundle: &PrefitBundle,
    n: usize,
    d: &DomainPrefit,
    url: &str,
    listed: bool,
    blocked: bool,
    key: &str,
    found: Option<BetaPosterior>,
    i: int,
)
    requires
        call_ensures(PrefitBundle::domain_count, (bundle,), n),
        call_ensures(PrefitBundle::matches_blocklist_addition, (bundle, d, url), listed),
        call_ensures(DomainPrefit::blocks, (d, url), blocked),
        call_ensures(DomainPrefit::find_posterior, (d, key), found),
    ensures
        n == bundle@.domains.len(),
        listed == blocked,
        (0 <= i < d@.posteriors.len() && d@.posteriors[i].0 == key@ && forall|k: int|
            0 <= k < i ==> (#[trigger] d@.posteriors[k]).0 != key@) ==> found is Some && found->0@
            == d@.posteriors[i].1,
        (forall|k: int| 0 <= k < d@.posteriors.len() ==> (#[trigger] d@.posteriors[k]).0 != key@)
            ==> found is None,
{
    let table = d@.posteriors;
    lemma_key_index(table, key@, 0);
    if let Some(k) = key_index(table, key@, 0) {
        if 0 <= i < table.len() && table[i].0 == key@ && k < i {
            assert(table[k].0 == key@);
        }
    }
}

/// A bundle is written with its fields, and as the text of that value.
pub proof fn law_how_bundles_are_written(
    bundle: &PrefitBundle,
    value: Json,
    text: String,
    s: &Option<SettleDistribution>,
    settle: Json,
)
    requires
        call_ensures(PrefitBundle::to_value, (bundle,), value),
        call_ensures(PrefitBundle::to_json, (bundle,), text),
        call_ensures(encode_settle, (s,), settle),
    ensures
        value@ == written_bundle(bundle@),
        text@ == json_printed(with_map_entries(value@)),
        *s is None ==> settle@ == JsonModel::Null,
        read_settle(Some(settle@)) == Some(*s),
{
    lemma_written_settle(*s);
}

/// Values under the names of fields, in their order.
pub open spec fn named(fields: Seq<Seq<char>>, items: Seq<JsonModel>) -> JsonModel {
    JsonModel::Object(Seq::new(items.len(), |i: int| (fields[i], items[i])))
}

proof fn lemma_named(fields: Seq<Seq<char>>, items: Seq<JsonModel>)
    requires
        fields.no_duplicates(),
        items.len() <= fields.len(),
    ensures
        is_record(named(fields, items), fields),
        is_record(JsonModel::Array(items), fields),
        forall|i: int|
            0 <= i < fields.len() ==> member(
                named(fields, items),
                #[trigger] fields[i],
                i,
            ) == member(JsonModel::Array(items), fields[i], i),
{
    let e = named(fields, items)->Object_0;
    assert forall|a: int, b: int|
        0 <= a < b < e.len() && (#[trigger] e[a]).0 == (#[trigger] e[b]).0 implies !fields.contains(
        e[a].0,
    ) by {
        assert(fields[a] == fields[b]);
    }
    assert forall|i: int| 0 <= i < fields.len() implies member(
        named(fields, items),
        #[trigger] fields[i],
        i,
    ) == member(JsonModel::Array(items), fields[i], i) by {
        if i < items.len() {
            assert forall|j: int| 0 <= j < i implies (#[trigger] e[j]).0 != e[i].0 by {
                assert(fields[j] != fields[i]);
            }
            lemma_entry_at(e, i);
        } else {
            let n = items.len() as int;
            assert forall|j: int| 0 <= j < n implies (#[trigger] e[j]).0 != fields[i] by {
                assert(fields[j] != fields[i]);
            }
            lemma_entry_skip(e, fields[i], n);
            assert(e.skip(n) =~= Seq::empty());
        }
    }
}

proof fn lemma_fields_differ()
    ensures
        posterior_fields().no_duplicates(),
        framework_fields().no_duplicates(),
        settle_fields().no_duplicates(),
        domain_fields().no_duplicates(),
        bundle_fields().no_duplicates(),
{
    reveal_strlit("alpha");
    reveal_strlit("beta");
    reveal_strlit("n");
    reveal_strlit("framework");
    reveal_strlit("blocklist_additions");
    reveal_strlit("settle_distribution");
    reveal_strlit("p50_ms");
    reveal_strlit("p90_ms");
    reveal_strlit("p95_ms");
    reveal_strlit("domain");
    reveal_strlit("required_patterns");
    reveal_strlit("shape_hint");
    reveal_strlit("posteriors");
    reveal_strlit("schema_version");
    reveal_strlit("fit_timestamp");
    reveal_strlit("fit_corpus_size");
    reveal_strlit("training_pipeline_version");
    reveal_strlit("domains");
    reveal_strlit("framework_priors");
    assert("alpha"@.len() == 5);
    assert("beta"@.len() == 4);
    assert("n"@.len() == 1);
    assert("framework"@.len() == 9);
    assert("blocklist_additions"@.len() == 19);
    assert("settle_distribution"@.len() == 19);
    assert("p50_ms"@.len() == 6);
    assert("p90_ms"@.len() == 6);
    assert("p95_ms"@.len() == 6);
    assert("domain"@.len() == 6);
    assert("required_patterns"@.len() == 17);
    assert("shape_hint"@.len() == 10);
    assert("posteriors"@.len() == 10);
    assert("schema_version"@.len() == 14);
    assert("fit_timestamp"@.len() == 13);
    assert("fit_corpus_size"@.len() == 15);
    assert("training_pipeline_version"@.len() == 25);
    assert("domains"@.len() == 7);
    assert("framework_priors"@.len() == 16);
    assert("blocklist_additions"@[0] != "settle_distribution"@[0]);
    assert("p50_ms"@[1] != "p90_ms"@[1]);
    assert("p50_ms"@[1] != "p95_ms"@[1]);
    assert("p90_ms"@[2] != "p95_ms"@[2]);
    assert("shape_hint"@[0] != "posteriors"@[0]);
}

/// A record that is a list is read as the one that names its items, in the order
/// of the fields; one with more items is no record.
pub proof fn law_lists_are_read_as_records(items: Seq<JsonModel>)
    ensures
        items.len() <= 3 ==> read_posterior(JsonModel::Array(items)) == read_posterior(named(seq!["alpha"@, "beta"@, "n"@], items)),
        items.len() > 3 ==> read_posterior(JsonModel::Array(items)) is None,
        items.len() <= 3 ==> read_framework(JsonModel::Array(items)) == read_framework(named(seq!["framework"@, "blocklist_additions"@, "settle_distribution"@], items)),
        items.len() > 3 ==> read_framework(JsonModel::Array(items)) is None,
        items.len() <= 3 ==> read_settle(Some(JsonModel::Array(items))) == read_settle(Some(named(seq!["p50_ms"@, "p90_ms"@, "p95_ms"@], items))),
        items.len() > 3 ==> read_settle(Some(JsonModel::Array(items))) is None,
        items.len() <= 7 ==> read_domain(JsonModel::Array(items)) == read_domain(named(seq!["domain"@, "framework"@, "blocklist_additions"@, "required_patterns"@, "settle_distribution"@, "shape_hint"@, "posteriors"@], items)),
        items.len() > 7 ==> read_domain(JsonModel::Array(items)) is None,
        items.len() <= 6 ==> read_bundle(JsonModel::Array(items)) == read_bundle(named(seq!["schema_version"@, "fit_timestamp"@, "fit_corpus_size"@, "training_pipeline_version"@, "domains"@, "framework_priors"@], items)),
        items.len() > 6 ==> read_bundle(JsonModel::Array(items)) is None,
{
    lemma_fields_differ();
    let f = posterior_fields();
    assert(f =~= seq!["alpha"@, "beta"@, "n"@]);
    if items.len() <= f.len() {
        lemma_named(f, items);
        let (l, o) = (JsonModel::Array(items), named(f, items));
        assert(member(o, f[0], 0) == member(l, f[0], 0));
        assert(member(o, f[1], 1) == member(l, f[1], 1));
        assert(member(o, f[2], 2) == member(l, f[2], 2));
    }
    let f = framework_fields();
    assert(f =~= seq!["framework"@, "blocklist_additions"@, "settle_distribution"@]);
    if items.len() <= f.len() {
        lemma_named(f, items);
        let (l, o) = (JsonModel::Array(items), named(f, items));
        assert(member(o, f[0], 0) == member(l, f[0], 0));
        assert(member(o, f[1], 1) == member(l, f[1], 1));
        assert(member(o, f[2], 2) == member(l, f[2], 2));
    }
    let f = settle_fields();
    assert(f =~= seq!["p50_ms"@, "p90_ms"@, "p95_ms"@]);
    if items.len() <= f.len() {
        lemma_named(f, items);
        let (l, o) = (JsonModel::Array(items), named(f, items));
        assert(member(o, f[0], 0) == member(l, f[0], 0));
        assert(member(o, f[1], 1) == member(l, f[1], 1));
        assert(member(o, f[2], 2) == member(l, f[2], 2));
    }
    let f = domain_fields();
    assert(f =~= seq!["domain"@, "framework"@, "blocklist_additions"@, "required_patterns"@, "settle_distribution"@, "shape_hint"@, "posteriors"@]);
    if items.len() <= f.len() {
        lemma_named(f, items);
        let (l, o) = (JsonModel::Array(items), named(f, items));
        assert(member(o, f[0], 0) == member(l, f[0], 0));
        assert(member(o, f[1], 1) == member(l, f[1], 1));
        assert(member(o, f[2], 2) == member(l, f[2], 2));
        assert(member(o, f[3], 3) == member(l, f[3], 3));
        assert(member(o, f[4], 4) == member(l, f[4], 4));
        assert(member(o, f[5], 5) == member(l, f[5], 5));
        assert(member(o, f[6], 6) == member(l, f[6], 6));
    }
    let f = bundle_fields();
    assert(f =~= seq!["schema_version"@, "fit_timestamp"@, "fit_corpus_size"@, "training_pipeline_version"@, "domains"@, "framework_priors"@]);
    if items.len() <= f.len() {
        lemma_named(f, items);
        let (l, o) = (JsonModel::Array(items), named(f, items));
        assert(member(o, f[0], 0) == member(l, f[0], 0));
        assert(member(o, f[1], 1) == member(l, f[1], 1));
        assert(member(o, f[2], 2) == member(l, f[2], 2));
        assert(member(o, f[3], 3) == member(l, f[3], 3));
        assert(member(o, f[4], 4) == member(l, f[4], 4));
        assert(member(o, f[5], 5) == member(l, f[5], 5));
    }
}

/// A record that gives one of its fields twice is refused.
pub proof fn law_no_field_is_given_twice(
    entries: Seq<(Seq<char>, JsonModel)>,
    field: Seq<char>,
    a: int,
    b: int,
)
    requires
        0 <= a < b < entries.len(),
        entries[a].0 == field,
        entries[b].0 == field,
    ensures
        seq!["alpha"@, "beta"@, "n"@].contains(field) ==> read_posterior(JsonModel::Object(entries)) is None,
        seq!["framework"@, "blocklist_additions"@, "settle_distribution"@].contains(field) ==> read_framework(JsonModel::Object(entries)) is None,
        seq!["p50_ms"@, "p90_ms"@, "p95_ms"@].contains(field) ==> read_settle(Some(JsonModel::Object(entries))) is None,
        seq!["domain"@, "framework"@, "blocklist_additions"@, "required_patterns"@, "settle_distribution"@, "shape_hint"@, "posteriors"@].contains(field) ==> read_domain(JsonModel::Object(entries)) is None,
        seq!["schema_version"@, "fit_timestamp"@, "fit_corpus_size"@, "training_pipeline_version"@, "domains"@, "framework_priors"@].contains(field) ==> read_bundle(JsonModel::Object(entries)) is None,
{
    assert(entries[a].0 == entries[b].0);
    assert(posterior_fields() =~= seq!["alpha"@, "beta"@, "n"@]);
    assert(framework_fields() =~= seq!["framework"@, "blocklist_additions"@, "settle_distribution"@]);
    assert(settle_fields() =~= seq!["p50_ms"@, "p90_ms"@, "p95_ms"@]);
    assert(domain_fields() =~= seq!["domain"@, "framework"@, "blocklist_additions"@, "required_patterns"@, "settle_distribution"@, "shape_hint"@, "posteriors"@]);
    assert(bundle_fields() =~= seq!["schema_version"@, "fit_timestamp"@, "fit_corpus_size"@, "training_pipeline_version"@, "domains"@, "framework_priors"@]);
}

} // verus!

//! Which URLs are never fetched.
//!
//! A fixed list of hosts that serve analytics, advertising, session replay,
//! pixels and consent dialogs. A host matches an entry if it is the entry or
//! a subdomain of it; an entry with a slash matches a URL that contains it.
//!
//! The hosts of anti-bot and fingerprinting services are not on the list on
//! purpose: a page notices that their scripts did not load.
use vstd::prelude::*;

use crate::text::{
    chars_of, concat, contains_str, contains_text, has_suffix, same, unicode_lowercase,
};
use crate::urls::{find_host, find_lower_host, lower_host, option_model, url_parsed};

verus! {

/// What kind of thing an entry of the list is.
#[derive(Debug, Clone, Copy, PartialEq, Eq, Structural)]
pub enum Category {
    Analytics,
    Ads,
    SessionReplay,
    ErrorBeacon,
    MarketingPixel,
    TagManager,
    ConsentCmp,
}

impl Category {
    /// The name of the category in events.
    pub open spec fn name(self) -> Seq<char> {
        match self {
            Category::Analytics => "analytics"@,
            Category::Ads => "ads"@,
            Category::SessionReplay => "session_replay"@,
            Category::ErrorBeacon => "error_beacon"@,
            Category::MarketingPixel => "marketing_pixel"@,
            Category::TagManager => "tag_manager"@,
            Category::ConsentCmp => "consent_cmp"@,
        }
    }

    /// The name of the category in events.
    pub fn as_str(&self) -> (r: &'static str)
        ensures
            r@ == self.name(),
    {
        match self {
            Category::Analytics => "analytics",
            Category::Ads => "ads",
            Category::SessionReplay => "session_replay",
            Category::ErrorBeacon => "error_beacon",
            Category::MarketingPixel => "marketing_pixel",
            Category::TagManager => "tag_manager",
            Category::ConsentCmp => "consent_cmp",
        }
    }
}

/// Whether a URL is blocked, and by which entry.
#[derive(Debug, Clone, Copy)]
pub struct Decision {
    pub blocked: bool,
    pub category: Option<Category>,
    pub matched_pattern: Option<&'static str>,
}

/// What a [`Decision`] stands for.
pub struct DecisionModel {
    pub blocked: bool,
    pub category: Option<Category>,
    pub matched_pattern: Option<Seq<char>>,
}

impl View for Decision {
    type V = DecisionModel;

    open spec fn view(&self) -> DecisionModel {
        DecisionModel {
            blocked: self.blocked,
            category: self.category,
            matched_pattern: match self.matched_pattern {
                Some(p) => Some(p@),
                None => None,
            },
        }
    }
}

/// The decision to let a URL through.
pub open spec fn allowed() -> DecisionModel {
    DecisionModel { blocked: false, category: None, matched_pattern: None }
}

/// The decision to block a URL because of an entry.
pub open spec fn blocked_by(category: Category, pattern: Seq<char>) -> DecisionModel {
    DecisionModel { blocked: true, category: Some(category), matched_pattern: Some(pattern) }
}

impl Decision {
    /// The decision to let a URL through.
    pub fn allow() -> (r: Self)
        ensures
            r@ == allowed(),
    {
        Self { blocked: false, category: None, matched_pattern: None }
    }

    /// The decision to block a URL because of an entry.
    pub fn block(category: Category, pattern: &'static str) -> (r: Self)
        ensures
            r@ == blocked_by(category, pattern@),
    {
        Self { blocked: true, category: Some(category), matched_pattern: Some(pattern) }
    }
}

/// The list, in the order in which it is searched.
pub const ENTRIES: [(&'static str, Category); 122] = [
    // Tag managers. Without them dozens of other trackers are never loaded.
    ("googletagmanager.com", Category::TagManager),
    ("googletagservices.com", Category::TagManager),
    ("adobedtm.com", Category::TagManager),
    ("assets.adobedtm.com", Category::TagManager),
    ("tags.tiqcdn.com", Category::TagManager),
    ("tealiumiq.com", Category::TagManager),
    ("ensighten.com", Category::TagManager),
    // Analytics.
    ("google-analytics.com", Category::Analytics),
    ("ssl.google-analytics.com", Category::Analytics),
    ("www.google-analytics.com", Category::Analytics),
    ("stats.g.doubleclick.net", Category::Analytics),
    ("amplitude.com", Category::Analytics),
    ("api.amplitude.com", Category::Analytics),
    ("cdn.amplitude.com", Category::Analytics),
    ("api2.amplitude.com", Category::Analytics),
    ("mixpanel.com", Category::Analytics),
    ("api.mixpanel.com", Category::Analytics),
    ("cdn.mxpnl.com", Category::Analytics),
    ("heap.io", Category::Analytics),
    ("heapanalytics.com", Category::Analytics),
    ("cdn.heapanalytics.com", Category::Analytics),
    ("segment.com", Category::Analytics),
    ("segment.io", Category::Analytics),
    ("cdn.segment.com", Category::Analytics),
    ("api.segment.io", Category::Analytics),
    ("chartbeat.com", Category::Analytics),
    ("chartbeat.net", Category::Analytics),
    ("static.chartbeat.com", Category::Analytics),
    ("ping.chartbeat.net", Category::Analytics),
    ("quantserve.com", Category::Analytics),
    ("scorecardresearch.com", Category::Analytics),
    ("sb.scorecardresearch.com", Category::Analytics),
    ("krxd.net", Category::Analytics),
    ("demdex.net", Category::Analytics),
    ("everesttech.net", Category::Analytics),
    ("optimizely.com", Category::Analytics),
    ("cdn.optimizely.com", Category::Analytics),
    ("vwo.com", Category::Analytics),
    ("dev.visualwebsiteoptimizer.com", Category::Analytics),
    ("branch.io", Category::Analytics),
    ("app.link", Category::Analytics),
    ("cloudflareinsights.com", Category::Analytics),
    ("static.cloudflareinsights.com", Category::Analytics),
    ("plausible.io", Category::Analytics),
    ("cdn.plausible.io", Category::Analytics),
    ("matomo.cloud", Category::Analytics),
    // Advertising.
    ("doubleclick.net", Category::Ads),
    ("g.doubleclick.net", Category::Ads),
    ("googlesyndication.com", Category::Ads),
    ("googleadservices.com", Category::Ads),
    ("pagead2.googlesyndication.com", Category::Ads),
    ("amazon-adsystem.com", Category::Ads),
    ("aps.amazon-adsystem.com", Category::Ads),
    ("config.aps.amazon-adsystem.com", Category::Ads),
    ("client.aps.amazon-adsystem.com", Category::Ads),
    ("doubleverify.com", Category::Ads),
    ("pub.doubleverify.com", Category::Ads),
    ("cdn.doubleverify.com", Category::Ads),
    ("adsafeprotected.com", Category::Ads),
    ("static.adsafeprotected.com", Category::Ads),
    ("pixel.advertising.com", Category::Ads),
    ("adnxs.com", Category::Ads),
    ("rubiconproject.com", Category::Ads),
    ("openx.net", Category::Ads),
    ("pubmatic.com", Category::Ads),
    ("criteo.com", Category::Ads),
    ("static.criteo.net", Category::Ads),
    ("criteo.net", Category::Ads),
    ("taboola.com", Category::Ads),
    ("cdn.taboola.com", Category::Ads),
    ("outbrain.com", Category::Ads),
    ("widgets.outbrain.com", Category::Ads),
    ("concert.io", Category::Ads),
    ("cdn.concert.io", Category::Ads),
    // Session replay and heat maps.
    ("hotjar.com", Category::SessionReplay),
    ("static.hotjar.com", Category::SessionReplay),
    ("script.hotjar.com", Category::SessionReplay),
    ("fullstory.com", Category::SessionReplay),
    ("rs.fullstory.com", Category::SessionReplay),
    ("logrocket.com", Category::SessionReplay),
    ("logrocket.io", Category::SessionReplay),
    ("cdn.logrocket.io", Category::SessionReplay),
    ("smartlook.com", Category::SessionReplay),
    ("rec.smartlook.com", Category::SessionReplay),
    ("mouseflow.com", Category::SessionReplay),
    ("inspectlet.com", Category::SessionReplay),
    // Error and performance beacons. Pages work without them.
    ("sentry.io", Category::ErrorBeacon),
    ("ingest.sentry.io", Category::ErrorBeacon),
    ("sentry-cdn.com", Category::ErrorBeacon),
    ("browser.sentry-cdn.com", Category::ErrorBeacon),
    ("datadoghq-browser-agent.com", Category::ErrorBeacon),
    ("browser-intake-datadoghq.com", Category::ErrorBeacon),
    ("newrelic.com", Category::ErrorBeacon),
    ("nr-data.net", Category::ErrorBeacon),
    ("js-agent.newrelic.com", Category::ErrorBeacon),
    ("bam.nr-data.net", Category::ErrorBeacon),
    // Marketing pixels.
    ("facebook.net", Category::MarketingPixel),
    ("connect.facebook.net", Category::MarketingPixel),
    ("facebook.com/tr", Category::MarketingPixel),
    ("snap.licdn.com", Category::MarketingPixel),
    ("px.ads.linkedin.com", Category::MarketingPixel),
    ("ads.linkedin.com", Category::MarketingPixel),
    ("analytics.tiktok.com", Category::MarketingPixel),
    ("ads.tiktok.com", Category::MarketingPixel),
    ("static.ads-twitter.com", Category::MarketingPixel),
    ("t.co", Category::MarketingPixel),
    ("bat.bing.com", Category::MarketingPixel),
    ("ct.pinterest.com", Category::MarketingPixel),
    ("s.pinimg.com", Category::MarketingPixel),
    // Consent management.
    ("onetrust.com", Category::ConsentCmp),
    ("cookielaw.org", Category::ConsentCmp),
    ("cdn.cookielaw.org", Category::ConsentCmp),
    ("cookiebot.com", Category::ConsentCmp),
    ("consent.cookiebot.com", Category::ConsentCmp),
    ("trustarc.com", Category::ConsentCmp),
    ("consent.trustarc.com", Category::ConsentCmp),
    ("ketchjs.com", Category::ConsentCmp),
    ("cdn.ketchjs.com", Category::ConsentCmp),
    ("cookiehub.com", Category::ConsentCmp),
    ("cdn.cookiehub.com", Category::ConsentCmp),
    ("usercentrics.eu", Category::ConsentCmp),
    ("app.usercentrics.eu", Category::ConsentCmp),
];

/// The pattern of the entry number `i`.
pub open spec fn pattern(i: int) -> Seq<char> {
    ENTRIES[i].0@
}

/// Whether a pattern speaks of a path.
pub open spec fn has_path(pattern: Seq<char>) -> bool {
    pattern.contains('/')
}

/// Whether `host` is a subdomain of `domain`.
pub open spec fn is_subdomain(host: Seq<char>, domain: Seq<char>) -> bool {
    ("."@ + domain).is_suffix_of(host)
}

/// Whether the entry number `i` covers the URL: a pattern with a path if the
/// URL contains it, any other if the host is one of its subdomains.
pub open spec fn covers(host: Seq<char>, url: Seq<char>, i: int) -> bool {
    if has_path(pattern(i)) {
        contains_text(url, pattern(i))
    } else {
        is_subdomain(host, pattern(i))
    }
}

/// The first entry from `i` on that is the host.
pub open spec fn entry_of(host: Seq<char>, i: int) -> Option<int>
    decreases ENTRIES.len() - i,
{
    if i < 0 || i >= ENTRIES.len() {
        None
    } else if pattern(i) == host {
        Some(i)
    } else {
        entry_of(host, i + 1)
    }
}

/// The first entry from `i` on that covers the URL.
pub open spec fn cover_of(host: Seq<char>, url: Seq<char>, i: int) -> Option<int>
    decreases ENTRIES.len() - i,
{
    if i < 0 || i >= ENTRIES.len() {
        None
    } else if covers(host, url, i) {
        Some(i)
    } else {
        cover_of(host, url, i + 1)
    }
}

/// The entry that blocks a URL with this host: the one that is the host, or
/// else the first that covers the URL.
pub open spec fn blocking_entry(host: Seq<char>, url: Seq<char>) -> Option<int> {
    match entry_of(host, 0) {
        Some(i) => Some(i),
        None => cover_of(host, url, 0),
    }
}

/// The decision for a URL with this host; a URL without one is let through.
pub open spec fn verdict(host: Option<Seq<char>>, url: Seq<char>) -> DecisionModel {
    match host {
        None => allowed(),
        Some(h) => match blocking_entry(h, url) {
            Some(i) => blocked_by(ENTRIES[i].1, pattern(i)),
            None => allowed(),
        },
    }
}

/// The decision for a URL.
pub open spec fn decision(url: Seq<char>) -> DecisionModel {
    verdict(lower_host(url), url)
}

/// Whether a pattern speaks of a path.
fn check_path(pattern: &str) -> (r: bool)
    ensures
        r == has_path(pattern@),
{
    let cs = chars_of(pattern);
    let mut i: usize = 0;
    while i < cs.len()
        invariant
            cs@ == pattern@,
            i <= cs.len(),
            forall|j: int| 0 <= j < i ==> cs@[j] != '/',
        decreases cs.len() - i,
    {
        if cs[i] == '/' {
            assert(pattern@[i as int] == '/');
            return true;
        }
        i = i + 1;
    }
    false
}

/// Whether `host` is a subdomain of `domain`.
pub fn check_subdomain(host: &str, domain: &str) -> (r: bool)
    ensures
        r == is_subdomain(host@, domain@),
{
    let dotted = concat(".", domain);
    has_suffix(host, dotted.as_str())
}

/// The entry that is the host.
fn find_exact(host: &str) -> (r: Option<usize>)
    ensures
        match r {
            Some(i) => i < ENTRIES.len() && entry_of(host@, 0) == Some(i as int),
            None => entry_of(host@, 0) is None,
        },
{
    let mut i: usize = 0;
    while i < ENTRIES.len()
        invariant
            i <= ENTRIES.len(),
            entry_of(host@, 0) == entry_of(host@, i as int),
        decreases ENTRIES.len() - i,
    {
        if same(ENTRIES[i].0, host) {
            return Some(i);
        }
        i = i + 1;
    }
    None
}

/// The first entry that covers the URL.
fn find_cover(host: &str, url: &str) -> (r: Option<usize>)
    ensures
        match r {
            Some(i) => i < ENTRIES.len() && cover_of(host@, url@, 0) == Some(i as int),
            None => cover_of(host@, url@, 0) is None,
        },
{
    let mut i: usize = 0;
    while i < ENTRIES.len()
        invariant
            i <= ENTRIES.len(),
            cover_of(host@, url@, 0) == cover_of(host@, url@, i as int),
        decreases ENTRIES.len() - i,
    {
        let pattern: &'static str = ENTRIES[i].0;
        if check_path(pattern) {
            if contains_str(url, pattern) {
                return Some(i);
            }
        } else if check_subdomain(host, pattern) {
            return Some(i);
        }
        i = i + 1;
    }
    None
}

/// The decision for a URL with this host, which is in lowercase.
pub fn decide_host(host: &Option<String>, url: &str) -> (r: Decision)
    ensures
        r@ == verdict(option_model(*host), url@),
{
    match host {
        None => Decision::allow(),
        Some(h) => {
            let found = match find_exact(h.as_str()) {
                Some(i) => Some(i),
                None => find_cover(h.as_str(), url),
            };
            match found {
                Some(i) => Decision::block(ENTRIES[i].1, ENTRIES[i].0),
                None => Decision::allow(),
            }
        },
    }
}

/// Decides whether a URL is blocked.
pub fn decide(url: &str) -> (r: Decision)
    ensures
        r@ == decision(url@),
{
    decide_host(&find_lower_host(url), url)
}

/// How many entries the list has.
pub fn entry_count() -> (r: usize)
    ensures
        r == ENTRIES@.len(),
{
    ENTRIES.len()
}

/// The line that describes the decision for a URL.
pub open spec fn check_line(d: DecisionModel, host: Option<Seq<char>>, url: Seq<char>) -> Seq<char> {
    let tail = (match host {
        Some(h) => h,
        None => "<unparsed>"@,
    }) + "\t"@ + url;
    if d.blocked {
        "block\t"@ + (match d.category {
            Some(c) => c.name(),
            None => "?"@,
        }) + "\t"@ + (match d.matched_pattern {
            Some(p) => p,
            None => "?"@,
        }) + "\t"@ + tail
    } else {
        "allow\t-\t-\t"@ + tail
    }
}

/// The line that `policy-check` prints for a URL.
pub fn policy_check_line(url: &str) -> (r: String)
    ensures
        r@ == check_line(
            decision(url@),
            match url_parsed(url@) {
                Ok(u) => u.host,
                Err(_) => None,
            },
            url@,
        ),
{
    let d = decide(url);
    let mut tail = match find_host(url) {
        Some(h) => h,
        None => "<unparsed>".to_owned(),
    };
    tail.append("\t");
    tail.append(url);
    let mut line = if d.blocked {
        let mut s = "block\t".to_owned();
        s.append(match d.category {
            Some(c) => c.as_str(),
            None => "?",
        });
        s.append("\t");
        s.append(match d.matched_pattern {
            Some(p) => p,
            None => "?",
        });
        s.append("\t");
        s
    } else {
        "allow\t-\t-\t".to_owned()
    };
    line.append(tail.as_str());
    line
}

// ---------------------------------------------------------------------
// What holds of every decision
// ---------------------------------------------------------------------

/// The first entry that is the host, by its properties.
pub proof fn lemma_entry_of(host: Seq<char>, i: int)
    requires
        0 <= i <= ENTRIES.len(),
    ensures
        match entry_of(host, i) {
            Some(k) => i <= k < ENTRIES.len() && pattern(k) == host,
            None => forall|k: int| i <= k < ENTRIES.len() ==> #[trigger] pattern(k) != host,
        },
    decreases ENTRIES.len() - i,
{
    if i < ENTRIES.len() && pattern(i) != host {
        lemma_entry_of(host, i + 1);
    }
}

/// The first entry that covers a URL, by its properties.
proof fn lemma_cover_of(host: Seq<char>, url: Seq<char>, i: int)
    requires
        0 <= i <= ENTRIES.len(),
    ensures
        match cover_of(host, url, i) {
            Some(k) => i <= k < ENTRIES.len() && covers(host, url, k),
            None => forall|k: int| i <= k < ENTRIES.len() ==> !#[trigger] covers(host, url, k),
        },
    decreases ENTRIES.len() - i,
{
    if i < ENTRIES.len() && !covers(host, url, i) {
        lemma_cover_of(host, url, i + 1);
    }
}

/// A URL is blocked exactly if it has a host and some entry is that host or
/// covers the URL.
pub proof fn law_blocked_iff_matched(url: Seq<char>)
    ensures
        decision(url).blocked <==> (lower_host(url) matches Some(host) && exists|i: int|
            0 <= i < ENTRIES.len() && (#[trigger] pattern(i) == host || covers(host, url, i))),
{
    if let Some(host) = lower_host(url) {
        lemma_entry_of(host, 0);
        lemma_cover_of(host, url, 0);
        match blocking_entry(host, url) {
            Some(i) => {
                assert(pattern(i) == host || covers(host, url, i));
            },
            None => {},
        }
    }
}

/// A blocked URL comes with the pattern and category of an entry of the list;
/// a URL that is let through comes with neither.
pub proof fn law_decision_names_its_entry(url: Seq<char>)
    ensures
        decision(url).blocked ==> exists|i: int|
            0 <= i < ENTRIES.len() && decision(url) == blocked_by(ENTRIES[i].1, #[trigger] pattern(i)),
        !decision(url).blocked ==> decision(url).category is None && decision(
            url,
        ).matched_pattern is None,
{
    if let Some(host) = lower_host(url) {
        lemma_entry_of(host, 0);
        lemma_cover_of(host, url, 0);
        if let Some(i) = blocking_entry(host, url) {
            assert(decision(url) == blocked_by(ENTRIES[i].1, pattern(i)));
        }
    }
}

/// With an entry that has no path, the host that it names and all of that
/// host's subdomains are blocked, whatever the rest of the URL.
pub proof fn law_subdomains_are_blocked(url: Seq<char>, i: int)
    requires
        0 <= i < ENTRIES.len(),
        !has_path(pattern(i)),
        lower_host(url) matches Some(host) && (host == pattern(i) || is_subdomain(host, pattern(i))),
    ensures
        decision(url).blocked,
{
    law_blocked_iff_matched(url);
    let host = lower_host(url)->0;
    assert(pattern(i) == host || covers(host, url, i));
}

/// What blocks a URL: it has a host, and that is an entry of the list, ends with
/// one behind a dot, or the URL holds one that speaks of a path. A URL without a
/// host, and any other, is let through.
pub proof fn law_what_blocks_a_url(url: &str, r: Decision, host: Seq<char>)
    requires
        call_ensures(decide, (url,), r),
        url_parsed(url@) is Ok && url_parsed(url@)->Ok_0.host is Some ==> host == unicode_lowercase(
            url_parsed(url@)->Ok_0.host->0,
        ),
    ensures
        r.blocked <==> url_parsed(url@) is Ok && url_parsed(url@)->Ok_0.host is Some && exists|i: int|
            0 <= i < ENTRIES.len() && {
                let p = (#[trigger] ENTRIES[i]).0@;
                ||| host == p
                ||| !p.contains('/') && ("."@ + p).is_suffix_of(host)
                ||| p.contains('/') && contains_text(url@, p)
            },
        !r.blocked ==> r.category is None && r.matched_pattern is None,
{
    law_blocked_iff_matched(url@);
    law_decision_names_its_entry(url@);
    if r.blocked {
        let i = choose|i: int|
            0 <= i < ENTRIES.len() && (#[trigger] pattern(i) == host || covers(host, url@, i));
        assert(ENTRIES[i].0@ == pattern(i));
    }
    if exists|i: int|
        0 <= i < ENTRIES.len() && {
            let p = (#[trigger] ENTRIES[i]).0@;
            ||| host == p
            ||| !p.contains('/') && ("."@ + p).is_suffix_of(host)
            ||| p.contains('/') && contains_text(url@, p)
        } {
        let i = choose|i: int|
            0 <= i < ENTRIES.len() && {
                let p = (#[trigger] ENTRIES[i]).0@;
                ||| host == p
                ||| !p.contains('/') && ("."@ + p).is_suffix_of(host)
                ||| p.contains('/') && contains_text(url@, p)
            };
        assert(ENTRIES[i].0@ == pattern(i));
    }
}

/// Which entry is named: the one that is the host, if there is one, and else the
/// first that covers the URL; with its pattern and its category.
pub proof fn law_which_entry_is_named(url: Seq<char>, host: Seq<char>, i: int)
    requires
        lower_host(url) == Some(host),
        0 <= i < ENTRIES.len(),
        (pattern(i) == host && forall|k: int| 0 <= k < i ==> #[trigger] pattern(k) != host) || (
        covers(host, url, i) && (forall|k: int|
            0 <= k < i ==> !covers(host, url, k) && #[trigger] pattern(k) != host) && forall|k: int|
            0 <= k < ENTRIES.len() ==> #[trigger] pattern(k) != host),
    ensures
        decision(url).blocked,
        decision(url).category == Some(ENTRIES[i].1),
        decision(url).matched_pattern == Some(ENTRIES[i].0@),
{
    lemma_entry_of(host, 0);
    lemma_cover_of(host, url, 0);
    if pattern(i) == host && forall|k: int| 0 <= k < i ==> #[trigger] pattern(k) != host {
        let k = entry_of(host, 0)->0;
        assert(pattern(k) == host);
        lemma_first_entry(host, 0, i);
    } else {
        lemma_first_cover(host, url, 0, i);
    }
}

proof fn lemma_first_entry(host: Seq<char>, a: int, i: int)
    requires
        0 <= a <= i < ENTRIES.len(),
        pattern(i) == host,
        forall|k: int| a <= k < i ==> #[trigger] pattern(k) != host,
    ensures
        entry_of(host, a) == Some(i),
    decreases i - a,
{
    if a < i {
        assert(pattern(a) != host);
        lemma_first_entry(host, a + 1, i);
    }
}

proof fn lemma_first_cover(host: Seq<char>, url: Seq<char>, a: int, i: int)
    requires
        0 <= a <= i < ENTRIES.len(),
        covers(host, url, i),
        forall|k: int| a <= k < i ==> !covers(host, url, k) && #[trigger] pattern(k) != host,
    ensures
        cover_of(host, url, a) == Some(i),
    decreases i - a,
{
    if a < i {
        assert(pattern(a) != host);
        lemma_first_cover(host, url, a + 1, i);
    }
}

/// The names of the categories.
pub proof fn law_names_of_categories(c: &Category, r: &'static str)
    requires
        call_ensures(Category::as_str, (c,), r),
    ensures
        *c == Category::Analytics <==> r@ == "analytics"@,
        *c == Category::Ads <==> r@ == "ads"@,
        *c == Category::SessionReplay <==> r@ == "session_replay"@,
        *c == Category::ErrorBeacon <==> r@ == "error_beacon"@,
        *c == Category::MarketingPixel <==> r@ == "marketing_pixel"@,
        *c == Category::TagManager <==> r@ == "tag_manager"@,
        *c == Category::ConsentCmp <==> r@ == "consent_cmp"@,
{
    reveal_strlit("analytics");
    reveal_strlit("ads");
    reveal_strlit("session_replay");
    reveal_strlit("error_beacon");
    reveal_strlit("marketing_pixel");
    reveal_strlit("tag_manager");
    reveal_strlit("consent_cmp");
    assert("analytics"@.len() == 9);
    assert("ads"@.len() == 3);
    assert("session_replay"@.len() == 14);
    assert("error_beacon"@.len() == 12);
    assert("marketing_pixel"@.len() == 15);
    assert("tag_manager"@.len() == 11);
    assert("consent_cmp"@.len() == 11);
    assert("tag_manager"@[0] != "consent_cmp"@[0]);
}

/// A line on a URL says whether it is blocked, and if so by what, and ends with
/// its host and the URL.
pub proof fn law_lines_on_urls(url: &str, r: String)
    requires
        call_ensures(policy_check_line, (url,), r),
    ensures
        ({
            let host = if url_parsed(url@) is Ok && url_parsed(url@)->Ok_0.host is Some {
                url_parsed(url@)->Ok_0.host->0
            } else {
                "<unparsed>"@
            };
            let d = decision(url@);
            &&& !d.blocked ==> r@ == "allow\t-\t-\t"@ + host + "\t"@ + url@
            &&& d.blocked ==> r@ == "block\t"@ + d.category->0.name() + "\t"@ + d.matched_pattern->0
                + "\t"@ + host + "\t"@ + url@
        }),
{
    law_decision_names_its_entry(url@);
    let host = if url_parsed(url@) is Ok && url_parsed(url@)->Ok_0.host is Some {
        url_parsed(url@)->Ok_0.host->0
    } else {
        "<unparsed>"@
    };
    let d = decision(url@);
    if d.blocked {
        assert(r@ =~= "block\t"@ + d.category->0.name() + "\t"@ + d.matched_pattern->0 + "\t"@ + host
            + "\t"@ + url@);
    } else {
        assert(r@ =~= "allow\t-\t-\t"@ + host + "\t"@ + url@);
    }
}

/// A host belongs to a domain exactly if it ends with it behind a dot; a URL is
/// judged by its host; and the list is as long as it is said to be.
pub proof fn law_how_urls_are_judged(
    host: &str,
    domain: &str,
    below: bool,
    named: &Option<String>,
    url: &str,
    r: Decision,
    d: Decision,
    n: usize,
    free: Decision,
    category: Category,
    pattern: &'static str,
    taken: Decision,
)
    requires
        call_ensures(check_subdomain, (host, domain), below),
        call_ensures(decide_host, (named, url), r),
        call_ensures(decide, (url,), d),
        call_ensures(entry_count, (), n),
        call_ensures(Decision::allow, (), free),
        call_ensures(Decision::block, (category, pattern), taken),
    ensures
        below <==> ("."@ + domain@).is_suffix_of(host@),
        option_model(*named) == lower_host(url@) ==> r@ == d@,
        n == ENTRIES@.len(),
        !free@.blocked && free@.category is None && free@.matched_pattern is None,
        taken@.blocked && taken@.category == Some(category) && taken@.matched_pattern == Some(
            pattern@,
        ),
{
}

} // verus!

//! URLs: what the `url` crate reads out of one, and what the browser does
//! with the links of a page.
use vstd::prelude::*;
use vstd::utf8::{decode_utf8, encode_utf8, valid_utf8};

use base64::Engine;

use crate::policy::{check_subdomain, is_subdomain};
use crate::text::{same, strip_prefix, unicode_lowercase};

verus! {

/// What the browser reads of a URL.
#[derive(Debug)]
pub struct UrlParts {
    /// The URL in its normal form.
    pub text: String,
    /// The host, of a URL that has one.
    pub host: Option<String>,
    /// The path.
    pub path: String,
    /// The names and values of the query, decoded.
    pub query: Vec<(String, String)>,
}

/// What a [`UrlParts`] stands for.
pub struct UrlModel {
    pub text: Seq<char>,
    pub host: Option<Seq<char>>,
    pub path: Seq<char>,
    pub query: Seq<(Seq<char>, Seq<char>)>,
}

/// What a list of names and values stands for.
pub open spec fn pairs_model(pairs: Seq<(String, String)>) -> Seq<(Seq<char>, Seq<char>)> {
    Seq::new(pairs.len(), |i: int| (pairs[i].0@, pairs[i].1@))
}

/// What a text that may be missing stands for.
pub open spec fn option_model(s: Option<String>) -> Option<Seq<char>> {
    match s {
        Some(t) => Some(t@),
        None => None,
    }
}

impl View for UrlParts {
    type V = UrlModel;

    open spec fn view(&self) -> UrlModel {
        UrlModel {
            text: self.text@,
            host: option_model(self.host),
            path: self.path@,
            query: pairs_model(self.query@),
        }
    }
}

/// What `url::Url::parse` makes of a text: the parts of the URL, or the words
/// of its error.
pub uninterp spec fn url_parsed(text: Seq<char>) -> Result<UrlModel, Seq<char>>;

/// What `url::Url::join` makes of a reference on a page: the URL, or the
/// words of its error.
pub uninterp spec fn url_joined(base: Seq<char>, reference: Seq<char>) -> Result<
    Seq<char>,
    Seq<char>,
>;

/// The bytes that `base64` decodes from a text in the URL-safe alphabet
/// without padding.
pub uninterp spec fn base64_url_decoded(text: Seq<char>) -> Option<Seq<u8>>;

/// Calls `url::Url::parse` and reads out `as_str`, `host_str`, `path` and
/// `query_pairs` of the URL, or takes the words of the error. All of it
/// depends on the text alone.
#[verifier::external_body]
pub(crate) fn parse_url(text: &str) -> (r: Result<UrlParts, String>)
    ensures
        match r {
            Ok(u) => url_parsed(text@) == Ok::<UrlModel, Seq<char>>(u@),
            Err(e) => url_parsed(text@) == Err::<UrlModel, Seq<char>>(e@),
        },
{
    match url::Url::parse(text) {
        Ok(u) => Ok(UrlParts {
            text: u.as_str().to_string(),
            host: u.host_str().map(|h| h.to_string()),
            path: u.path().to_string(),
            query: u.query_pairs().map(|(k, v)| (k.into_owned(), v.into_owned())).collect(),
        }),
        Err(e) => Err(e.to_string()),
    }
}

/// Calls `url::Url::join` on the URL `base`: the URL that a reference on that
/// page leads to, or the words of the error, depend on the two texts alone.
#[verifier::external_body]
fn join_url(base: &str, reference: &str) -> (r: Result<String, String>)
    requires
        url_parsed(base@) is Ok,
    ensures
        match r {
            Ok(u) => url_joined(base@, reference@) == Ok::<Seq<char>, Seq<char>>(u@),
            Err(e) => url_joined(base@, reference@) == Err::<Seq<char>, Seq<char>>(e@),
        },
{
    match url::Url::parse(base).and_then(|b| b.join(reference)) {
        Ok(u) => Ok(u.to_string()),
        Err(e) => Err(e.to_string()),
    }
}

/// Calls `base64`'s `URL_SAFE_NO_PAD.decode`: what it decodes, if anything,
/// depends on the text alone.
#[verifier::external_body]
fn decode_base64_url(text: &str) -> (r: Option<Vec<u8>>)
    ensures
        match r {
            Some(b) => base64_url_decoded(text@) == Some(b@),
            None => base64_url_decoded(text@) is None,
        },
{
    base64::engine::general_purpose::URL_SAFE_NO_PAD.decode(text.as_bytes()).ok()
}

/// Calls `String::from_utf8`, which accepts exactly the valid UTF-8 and gives
/// the text that it encodes.
#[verifier::external_body]
fn utf8_text(bytes: Vec<u8>) -> (r: Option<String>)
    ensures
        r is Some <==> valid_utf8(bytes@),
        r matches Some(s) ==> s@ == decode_utf8(bytes@),
{
    String::from_utf8(bytes).ok()
}

// ---------------------------------------------------------------------
// Hosts
// ---------------------------------------------------------------------

/// The host of a URL in lowercase; nothing where the text is no URL or the
/// URL has no host.
pub open spec fn lower_host(url: Seq<char>) -> Option<Seq<char>> {
    match url_parsed(url) {
        Ok(u) => match u.host {
            Some(h) => Some(unicode_lowercase(h)),
            None => None,
        },
        Err(_) => None,
    }
}

/// The host of a URL.
pub fn find_host(url: &str) -> (r: Option<String>)
    ensures
        option_model(r) == (match url_parsed(url@) {
            Ok(u) => u.host,
            Err(_) => None,
        }),
{
    match parse_url(url) {
        Ok(u) => u.host,
        Err(_) => None,
    }
}

/// The host of a URL in lowercase.
pub fn find_lower_host(url: &str) -> (r: Option<String>)
    ensures
        option_model(r) == lower_host(url@),
{
    match find_host(url) {
        Some(h) => Some(h.as_str().to_lowercase()),
        None => None,
    }
}

/// The host of a URL in lowercase; the empty text where there is none.
pub fn host_of(url: &str) -> (r: String)
    ensures
        r@ == (match lower_host(url@) {
            Some(h) => h,
            None => Seq::<char>::empty(),
        }),
{
    match find_lower_host(url) {
        Some(h) => h,
        None => String::new(),
    }
}

// ---------------------------------------------------------------------
// Links
// ---------------------------------------------------------------------

/// Where a link of the page at `last_url` leads, or why it leads nowhere: an
/// empty link to the page itself, a URL with a host to itself, anything else
/// to what it means on the page.
pub open spec fn resolved(last_url: Option<Seq<char>>, href: Seq<char>) -> Result<
    Seq<char>,
    Seq<char>,
> {
    let no_page = "no current page — call navigate first"@;
    if href.len() == 0 {
        match last_url {
            Some(u) => Ok(u),
            None => Err(no_page),
        }
    } else {
        match url_parsed(href) {
            Ok(u) if u.host is Some => Ok(u.text),
            _ => match last_url {
                None => Err(no_page),
                Some(base) => match url_parsed(base) {
                    Err(e) => Err("base url: "@ + e),
                    Ok(_) => match url_joined(base, href) {
                        Ok(u) => Ok(u),
                        Err(e) => Err("join '"@ + href + "': "@ + e),
                    },
                },
            },
        }
    }
}

/// What a result over texts stands for.
pub open spec fn result_model(r: Result<String, String>) -> Result<Seq<char>, Seq<char>> {
    match r {
        Ok(s) => Ok(s@),
        Err(e) => Err(e@),
    }
}

/// Where a link of the page at `last_url` leads, or why it leads nowhere.
pub fn resolve_url(last_url: &Option<String>, href: &str) -> (r: Result<String, String>)
    ensures
        result_model(r) == resolved(option_model(*last_url), href@),
{
    if href.is_empty() {
        return match last_url {
            Some(u) => Ok(u.clone()),
            None => Err("no current page — call navigate first".to_owned()),
        };
    }
    if let Ok(u) = parse_url(href) {
        if u.host.is_some() {
            return Ok(u.text);
        }
    }
    match last_url {
        None => Err("no current page — call navigate first".to_owned()),
        Some(base) => match parse_url(base.as_str()) {
            Err(e) => {
                let mut m = "base url: ".to_owned();
                m.append(e.as_str());
                Err(m)
            },
            Ok(_) => match join_url(base.as_str(), href) {
                Ok(u) => Ok(u),
                Err(e) => {
                    let mut m = "join '".to_owned();
                    m.append(href);
                    m.append("': ");
                    m.append(e.as_str());
                    Err(m)
                },
            },
        },
    }
}

/// What a script source means on a page: itself where it is empty, where the
/// page has no URL, or where the two do not join.
pub open spec fn resolved_source(src: Seq<char>, base: Seq<char>) -> Seq<char> {
    if src.len() > 0 && url_parsed(base) is Ok {
        match url_joined(base, src) {
            Ok(u) => u,
            Err(_) => src,
        }
    } else {
        src
    }
}

/// What a script source means on a page.
pub fn resolve_source(src: &str, base: &str) -> (r: String)
    ensures
        r@ == resolved_source(src@, base@),
{
    if !src.is_empty() {
        if let Ok(_) = parse_url(base) {
            if let Ok(u) = join_url(base, src) {
                return u;
            }
        }
    }
    src.to_owned()
}

/// What a reference means on a page; nothing where the page has no URL or
/// where the two do not join.
pub open spec fn joined_on_page(base: Seq<char>, reference: Seq<char>) -> Option<Seq<char>> {
    if url_parsed(base) is Ok {
        match url_joined(base, reference) {
            Ok(u) => Some(u),
            Err(_) => None,
        }
    } else {
        None
    }
}

/// What a reference means on a page.
pub fn join_on_page(base: &str, reference: &str) -> (r: Option<String>)
    ensures
        option_model(r) == joined_on_page(base@, reference@),
{
    match parse_url(base) {
        Ok(_) => match join_url(base, reference) {
            Ok(u) => Some(u),
            Err(_) => None,
        },
        Err(_) => None,
    }
}

// ---------------------------------------------------------------------
// Result links of search engines
// ---------------------------------------------------------------------

/// The value of the first pair with the name `name`.
pub open spec fn query_value(pairs: Seq<(Seq<char>, Seq<char>)>, name: Seq<char>) -> Option<
    Seq<char>,
>
    decreases pairs.len(),
{
    if pairs.len() == 0 {
        None
    } else if pairs[0].0 == name {
        Some(pairs[0].1)
    } else {
        query_value(pairs.skip(1), name)
    }
}

/// Pairs before the one at `i` that have another name do not count.
proof fn lemma_query_value_skip(pairs: Seq<(Seq<char>, Seq<char>)>, name: Seq<char>, i: int)
    requires
        0 <= i <= pairs.len(),
        forall|j: int| 0 <= j < i ==> (#[trigger] pairs[j]).0 != name,
    ensures
        query_value(pairs, name) == query_value(pairs.skip(i), name),
    decreases i,
{
    if i > 0 {
        lemma_query_value_skip(pairs, name, i - 1);
        assert(pairs.skip(i - 1).skip(1) =~= pairs.skip(i));
        assert(pairs.skip(i - 1)[0] == pairs[i - 1]);
    } else {
        assert(pairs.skip(0) =~= pairs);
    }
}

/// The value of the first pair with the name `name`.
fn find_query_value(pairs: &Vec<(String, String)>, name: &str) -> (r: Option<String>)
    ensures
        option_model(r) == query_value(pairs_model(pairs@), name@),
{
    let ghost m = pairs_model(pairs@);
    let mut i: usize = 0;
    while i < pairs.len()
        invariant
            i <= pairs.len(),
            m == pairs_model(pairs@),
            forall|j: int| 0 <= j < i ==> (#[trigger] m[j]).0 != name@,
        decreases pairs.len() - i,
    {
        if same(pairs[i].0.as_str(), name) {
            proof {
                lemma_query_value_skip(m, name@, i as int);
                assert(m.skip(i as int)[0] == m[i as int]);
            }
            return Some(pairs[i].1.clone());
        }
        i = i + 1;
    }
    proof {
        lemma_query_value_skip(m, name@, i as int);
        assert(m.skip(i as int) =~= Seq::empty());
    }
    None
}

/// The text that Bing encodes in a result link: the URL-safe base64 behind
/// the marker `a1`, if that is UTF-8.
pub open spec fn bing_target(value: Seq<char>) -> Option<Seq<char>> {
    let payload = if "a1"@.is_prefix_of(value) {
        value.skip(2)
    } else {
        value
    };
    match base64_url_decoded(payload) {
        Some(bytes) => if valid_utf8(bytes) {
            Some(decode_utf8(bytes))
        } else {
            None
        },
        None => None,
    }
}

/// Whether a host is a domain or one of its subdomains.
pub open spec fn is_host_of(host: Seq<char>, domain: Seq<char>) -> bool {
    host == domain || is_subdomain(host, domain)
}

/// Whether a host is a domain or one of its subdomains.
fn check_host_of(host: &str, domain: &str) -> (r: bool)
    ensures
        r == is_host_of(host@, domain@),
{
    same(host, domain) || check_subdomain(host, domain)
}

/// The destination that the URL of a known result link carries.
pub open spec fn tracker_target(u: UrlModel) -> Option<Seq<char>> {
    match u.host {
        None => None,
        Some(host) => {
            if is_host_of(host, "bing.com"@) && u.path == "/ck/a"@ {
                match query_value(u.query, "u"@) {
                    Some(v) => bing_target(v),
                    None => None,
                }
            } else if is_host_of(host, "google.com"@) && u.path == "/url"@ {
                query_value(u.query, "q"@)
            } else if is_host_of(host, "duckduckgo.com"@) && u.path == "/l/"@ {
                query_value(u.query, "uddg"@)
            } else {
                None
            }
        },
    }
}

/// The text that Bing encodes in a result link.
pub fn decode_bing(value: &str) -> (r: Option<String>)
    ensures
        option_model(r) == bing_target(value@),
{
    let payload = match strip_prefix(value, "a1") {
        Some(rest) => {
            proof {
                reveal_strlit("a1");
            }
            rest
        },
        None => value.to_owned(),
    };
    match decode_base64_url(payload.as_str()) {
        Some(bytes) => utf8_text(bytes),
        None => None,
    }
}

/// The destination that the URL of a known result link carries.
pub fn decode_tracker_url(u: &UrlParts) -> (r: Option<String>)
    ensures
        option_model(r) == tracker_target(u@),
{
    match &u.host {
        None => None,
        Some(host) => {
            if check_host_of(host.as_str(), "bing.com") && same(u.path.as_str(), "/ck/a") {
                match find_query_value(&u.query, "u") {
                    Some(v) => decode_bing(v.as_str()),
                    None => None,
                }
            } else if check_host_of(host.as_str(), "google.com") && same(u.path.as_str(), "/url") {
                find_query_value(&u.query, "q")
            } else if check_host_of(host.as_str(), "duckduckgo.com") && same(u.path.as_str(), "/l/") {
                find_query_value(&u.query, "uddg")
            } else {
                None
            }
        },
    }
}

/// The destination that a result link of a search engine carries; nothing
/// for any other link.
pub fn decode_tracker(href: &str) -> (r: Option<String>)
    ensures
        option_model(r) == (match url_parsed(href@) {
            Ok(u) => tracker_target(u),
            Err(_) => None,
        }),
{
    match parse_url(href) {
        Ok(u) => decode_tracker_url(&u),
        Err(_) => None,
    }
}

// ---------------------------------------------------------------------
// Forms
// ---------------------------------------------------------------------

/// How many characters the names and values hold.
pub open spec fn pairs_chars(pairs: Seq<(Seq<char>, Seq<char>)>) -> nat
    decreases pairs.len(),
{
    if pairs.len() == 0 {
        0
    } else {
        pairs_chars(pairs.drop_last()) + pairs.last().0.len() + pairs.last().1.len() + 2
    }
}

/// Whether a URL and a form are small enough for the offsets of the `url`
/// crate, which are 32 bits wide: a character takes at most twelve bytes.
pub open spec fn form_fits(url: Seq<char>, pairs: Seq<(Seq<char>, Seq<char>)>) -> bool {
    url.len() + pairs_chars(pairs) <= 0x0fff_ffff
}

/// A hexadecimal digit, of the capital ones.
pub open spec fn capital_digit(d: u8) -> char {
    if d < 10 {
        (d + '0' as u8) as char
    } else {
        (d - 10 + 'A' as u8) as char
    }
}

/// A byte of a text in a form: a letter, a digit or one of `*-._` as it is, a
/// space as a plus sign, any other by its number.
pub open spec fn form_byte(b: u8) -> Seq<char> {
    let c = b as char;
    if 'a' <= c <= 'z' || 'A' <= c <= 'Z' || '0' <= c <= '9' || c == '*' || c == '-' || c == '.' || c
        == '_' {
        seq![c]
    } else if c == ' ' {
        seq!['+']
    } else {
        seq!['%', capital_digit(b / 16), capital_digit(b % 16)]
    }
}

/// The bytes of a text in a form.
pub open spec fn form_bytes(bytes: Seq<u8>) -> Seq<char>
    decreases bytes.len(),
{
    if bytes.len() == 0 {
        Seq::empty()
    } else {
        form_bytes(bytes.drop_last()) + form_byte(bytes.last())
    }
}

/// The names and values of a form as text.
pub open spec fn form_encoded(pairs: Seq<(Seq<char>, Seq<char>)>) -> Seq<char>
    decreases pairs.len(),
{
    if pairs.len() == 0 {
        Seq::empty()
    } else {
        let front = form_encoded(pairs.drop_last());
        let pair = form_bytes(encode_utf8(pairs.last().0)) + "="@ + form_bytes(
            encode_utf8(pairs.last().1),
        );
        if pairs.len() == 1 {
            pair
        } else {
            front + "&"@ + pair
        }
    }
}

/// How many characters of a URL in its normal form stand before the query and
/// the fragment.
pub open spec fn query_start(url: Seq<char>) -> int
    decreases url.len(),
{
    if url.len() == 0 || url[0] == '?' || url[0] == '#' {
        0
    } else {
        1 + query_start(url.skip(1))
    }
}

/// How many characters of a URL in its normal form stand before the fragment.
pub open spec fn fragment_start(url: Seq<char>) -> int
    decreases url.len(),
{
    if url.len() == 0 || url[0] == '#' {
        0
    } else {
        1 + fragment_start(url.skip(1))
    }
}

/// A URL in its normal form with its query replaced by these names and values.
pub open spec fn url_with_query(url: Seq<char>, pairs: Seq<(Seq<char>, Seq<char>)>) -> Seq<char> {
    url.take(query_start(url)) + "?"@ + form_encoded(pairs) + url.skip(fragment_start(url))
}

/// Calls `clear` and `extend_pairs` on `url::Url::query_pairs_mut`, which write
/// the pairs as a form in the place of the query and leave the rest of the URL
/// alone. The crate keeps offsets in 32 bits and panics past them.
#[verifier::external_body]
pub(crate) fn set_query(url: &str, pairs: &Vec<(String, String)>) -> (r: Result<String, String>)
    requires
        form_fits(url@, pairs_model(pairs@)),
    ensures
        match (r, url_parsed(url@)) {
            (Ok(u), Ok(p)) => u@ == url_with_query(p.text, pairs_model(pairs@)),
            (Err(e), Err(m)) => e@ == m,
            _ => false,
        },
{
    match url::Url::parse(url) {
        Ok(mut u) => {
            u.query_pairs_mut().clear().extend_pairs(pairs.iter());
            Ok(u.to_string())
        },
        Err(e) => Err(e.to_string()),
    }
}

/// Calls `url::form_urlencoded::Serializer`, which writes the names and values
/// of a form, each byte of them in its way.
#[verifier::external_body]
pub(crate) fn encode_form(pairs: &Vec<(String, String)>) -> (r: String)
    ensures
        r@ == form_encoded(pairs_model(pairs@)),
{
    url::form_urlencoded::Serializer::new(String::new()).extend_pairs(pairs.iter()).finish()
}

/// An empty link leads to the page itself, a URL with a host to itself from
/// whatever page, and any other link to what it means on the page. Without a
/// page, or where the page and the link do not join, it leads nowhere.
pub proof fn law_where_links_lead(
    last_url: &Option<String>,
    href: &str,
    r: Result<String, String>,
    page: Seq<char>,
)
    requires
        call_ensures(resolve_url, (last_url, href), r),
        *last_url is Some ==> last_url->0@ == page,
    ensures
        ({
            let empty = href@ == Seq::<char>::empty();
            let own = url_parsed(href@) is Ok && url_parsed(href@)->Ok_0.host is Some;
            let joins = url_parsed(page) is Ok && url_joined(page, href@) is Ok;
            &&& r is Ok <==> (if empty {
                *last_url is Some
            } else {
                own || (*last_url is Some && joins)
            })
            &&& r matches Ok(u) ==> {
                &&& empty ==> u@ == page
                &&& !empty && own ==> u@ == url_parsed(href@)->Ok_0.text
                &&& !empty && !own ==> u@ == url_joined(page, href@)->Ok_0
            }
            &&& r matches Err(e) ==> {
                &&& *last_url is None ==> e@ == "no current page — call navigate first"@
                &&& *last_url is Some && url_parsed(page) is Err ==> e@ == "base url: "@ + url_parsed(
                    page,
                )->Err_0
                &&& *last_url is Some && url_parsed(page) is Ok ==> e@ == "join '"@ + href@ + "': "@
                    + url_joined(page, href@)->Err_0
            }
        }),
{
    if href@.len() == 0 {
        assert(href@ =~= Seq::empty());
    }
}

/// A source of a script is what it means on the page, and itself where it is
/// empty, where the page has no URL or where the two do not join.
pub proof fn law_where_sources_lead(
    src: &str,
    base: &str,
    r: String,
    joined: Option<String>,
)
    requires
        call_ensures(resolve_source, (src, base), r),
        call_ensures(join_on_page, (base, src), joined),
    ensures
        joined is Some <==> url_parsed(base@) is Ok && url_joined(base@, src@) is Ok,
        joined is Some ==> joined->0@ == url_joined(base@, src@)->Ok_0,
        r@ == (if joined is Some && src@ != Seq::<char>::empty() {
            joined->0@
        } else {
            src@
        }),
{
    if src@.len() == 0 {
        assert(src@ =~= Seq::empty());
    }
}

/// The host of a URL is looked at in lowercase; a text that is no URL, and a URL
/// without a host, have none.
pub proof fn law_hosts_in_lowercase(url: &str, r: Option<String>, word: String)
    requires
        call_ensures(find_lower_host, (url,), r),
        call_ensures(host_of, (url,), word),
    ensures
        r is Some <==> url_parsed(url@) is Ok && url_parsed(url@)->Ok_0.host is Some,
        r matches Some(h) ==> h@ == unicode_lowercase(url_parsed(url@)->Ok_0.host->0) && word@ == h@,
        r is None ==> word@.len() == 0,
{
}

/// Of values with one name the first counts.
pub proof fn law_first_value_counts(
    a: Seq<(Seq<char>, Seq<char>)>,
    b: Seq<(Seq<char>, Seq<char>)>,
    name: Seq<char>,
    value: Seq<char>,
    other: Seq<char>,
)
    ensures
        query_value(a + b, other) == (if query_value(a, other) is Some {
            query_value(a, other)
        } else {
            query_value(b, other)
        }),
        query_value(seq![(name, value)], other) == (if other == name {
            Some(value)
        } else {
            None
        }),
        query_value(Seq::empty(), other) is None,
    decreases a.len(),
{
    let one = seq![(name, value)];
    assert(one.skip(1) =~= Seq::empty());
    if a.len() == 0 {
        assert(a + b =~= b);
    } else {
        law_first_value_counts(a.skip(1), b, name, value, other);
        assert((a + b).skip(1) =~= a.skip(1) + b);
    }
}

/// The hosts of a domain are the domain and what ends with it behind a dot, and
/// no others: not what only ends with the same letters.
pub proof fn law_hosts_of_a_domain(host: Seq<char>, domain: Seq<char>, before: Seq<char>)
    ensures
        is_host_of(domain, domain),
        is_host_of(before + "."@ + domain, domain),
        is_host_of(host, domain) && host != domain ==> {
            let n = host.len() - domain.len();
            n >= 1 && host[n - 1] == '.' && host.skip(n) == domain
        },
{
    reveal_strlit(".");
    let long = before + "."@ + domain;
    let tail = "."@ + domain;
    assert(long =~= before + tail);
    assert(long.subrange(long.len() - tail.len(), long.len() as int) =~= tail);
    if is_host_of(host, domain) && host != domain {
        let n = host.len() - domain.len();
        let end = host.subrange(host.len() - tail.len(), host.len() as int);
        assert(end =~= tail);
        assert(end[0] == host[n - 1]);
        assert(host.skip(n) =~= domain) by {
            assert forall|i: int| 0 <= i < domain.len() implies host.skip(n)[i] == domain[i] by {
                assert(end[i + 1] == tail[i + 1]);
            }
        }
    }
}

/// The result links of three search engines carry where they lead, in one value
/// of their query; no other link carries anything.
pub proof fn law_result_links(u: &UrlParts, r: Option<String>, host: Seq<char>)
    requires
        call_ensures(decode_tracker_url, (u,), r),
        u@.host == Some(host),
    ensures
        ({
            let bing = is_host_of(host, "bing.com"@) && u@.path == "/ck/a"@;
            let google = is_host_of(host, "google.com"@) && u@.path == "/url"@;
            let duck = is_host_of(host, "duckduckgo.com"@) && u@.path == "/l/"@;
            &&& bing ==> option_model(r) == (match query_value(u@.query, "u"@) {
                Some(v) => bing_target(v),
                None => None,
            })
            &&& google ==> option_model(r) == query_value(u@.query, "q"@)
            &&& duck ==> option_model(r) == query_value(u@.query, "uddg"@)
            &&& r is Some ==> bing || google || duck
        }),
{
    reveal_strlit("/ck/a");
    reveal_strlit("/url");
    reveal_strlit("/l/");
    assert("/ck/a"@.len() == 5);
    assert("/url"@.len() == 4);
    assert("/l/"@.len() == 3);
}

/// A URL without a host carries nothing.
pub proof fn law_no_host_no_result_link(u: &UrlParts, r: Option<String>)
    requires
        call_ensures(decode_tracker_url, (u,), r),
        u@.host is None,
    ensures
        r is None,
{
}

/// What Bing encodes is base64 of UTF-8, behind a mark that may be missing.
pub proof fn law_what_bing_encodes(payload: Seq<char>, bytes: Seq<u8>)
    requires
        base64_url_decoded(payload) == Some(bytes),
    ensures
        valid_utf8(bytes) ==> bing_target("a1"@ + payload) == Some(decode_utf8(bytes)),
        !valid_utf8(bytes) ==> bing_target("a1"@ + payload) is None,
        !"a1"@.is_prefix_of(payload) && valid_utf8(bytes) ==> bing_target(payload) == Some(
            decode_utf8(bytes),
        ),
{
    reveal_strlit("a1");
    let marked = "a1"@ + payload;
    assert(marked.take(2) =~= "a1"@);
    assert(marked.skip(2) =~= payload);
}

/// The names and values of a form are written one behind the other, with `&`
/// between them.
pub proof fn law_forms_are_written_in_order(
    a: Seq<(Seq<char>, Seq<char>)>,
    b: Seq<(Seq<char>, Seq<char>)>,
    name: Seq<char>,
    value: Seq<char>,
)
    ensures
        a.len() > 0 && b.len() > 0 ==> form_encoded(a + b) == form_encoded(a) + "&"@ + form_encoded(
            b,
        ),
        form_encoded(seq![(name, value)]) == form_bytes(encode_utf8(name)) + "="@ + form_bytes(
            encode_utf8(value),
        ),
        form_encoded(Seq::empty()).len() == 0,
    decreases b.len(),
{
    let one = seq![(name, value)];
    assert(one.last() == (name, value));
    if a.len() > 0 && b.len() > 0 {
        let front = b.drop_last();
        assert((a + b).drop_last() =~= a + front);
        assert((a + b).last() == b.last());
        if front.len() == 0 {
            assert(a + front =~= a);
        } else {
            law_forms_are_written_in_order(a, front, name, value);
        }
        assert(form_encoded(a + b) =~= form_encoded(a) + "&"@ + form_encoded(b));
    }
}

/// A form in the query of a URL takes the place of the query that was there,
/// and leaves the rest.
pub proof fn law_form_replaces_the_query(
    start: Seq<char>,
    query: Seq<char>,
    fragment: Seq<char>,
    pairs: Seq<(Seq<char>, Seq<char>)>,
)
    requires
        !start.contains('?') && !start.contains('#'),
        query.len() > 0 ==> query[0] == '?',
        !query.contains('#'),
        fragment.len() > 0 ==> fragment[0] == '#',
    ensures
        url_with_query(start + query + fragment, pairs) == start + "?"@ + form_encoded(pairs)
            + fragment,
{
    let url = start + query + fragment;
    lemma_query_start(start, query + fragment);
    assert(start + (query + fragment) =~= url);
    assert(!(start + query).contains('#')) by {
        assert forall|i: int| 0 <= i < (start + query).len() implies (start + query)[i] != '#' by {
            if i < start.len() {
                assert(start[i] != '#');
            } else {
                assert(query[i - start.len()] != '#');
            }
        }
    }
    lemma_fragment_start(start + query, fragment);
    assert(url.take(start.len() as int) =~= start);
    assert(url.skip((start + query).len() as int) =~= fragment);
}

proof fn lemma_query_start(start: Seq<char>, rest: Seq<char>)
    requires
        !start.contains('?') && !start.contains('#'),
        rest.len() > 0 ==> rest[0] == '?' || rest[0] == '#',
    ensures
        query_start(start + rest) == start.len(),
    decreases start.len(),
{
    let url = start + rest;
    if start.len() > 0 {
        assert(start[0] != '?' && start[0] != '#');
        assert forall|c: char| start.skip(1).contains(c) implies start.contains(c) by {
            let i = choose|i: int| 0 <= i < start.skip(1).len() && start.skip(1)[i] == c;
            assert(start[i + 1] == c);
        }
        lemma_query_start(start.skip(1), rest);
        assert(url.skip(1) =~= start.skip(1) + rest);
        assert(url[0] == start[0]);
    } else {
        assert(url =~= rest);
    }
}

proof fn lemma_fragment_start(start: Seq<char>, rest: Seq<char>)
    requires
        !start.contains('#'),
        rest.len() > 0 ==> rest[0] == '#',
    ensures
        fragment_start(start + rest) == start.len(),
    decreases start.len(),
{
    let url = start + rest;
    if start.len() > 0 {
        assert(start[0] != '#');
        assert forall|c: char| start.skip(1).contains(c) implies start.contains(c) by {
            let i = choose|i: int| 0 <= i < start.skip(1).len() && start.skip(1)[i] == c;
            assert(start[i + 1] == c);
        }
        lemma_fragment_start(start.skip(1), rest);
        assert(url.skip(1) =~= start.skip(1) + rest);
        assert(url[0] == start[0]);
    } else {
        assert(url =~= rest);
    }
}

/// The host of a URL is that of its parts; what Bing encodes is decoded, and a
/// link to a result is one exactly if it is a URL that is.
pub proof fn law_what_is_found_in_a_url(
    url: &str,
    host: Option<String>,
    target: Option<String>,
    value: &str,
    decoded: Option<String>,
)
    requires
        call_ensures(find_host, (url,), host),
        call_ensures(decode_tracker, (url,), target),
        call_ensures(decode_bing, (value,), decoded),
    ensures
        url_parsed(url@) is Err ==> host is None && target is None,
        url_parsed(url@) matches Ok(u) ==> option_model(host) == u.host && option_model(target)
            == tracker_target(u),
        option_model(decoded) == bing_target(value@),
{
}

} // verus!

//! The cookies of a session.
//!
//! Cookies are kept by `cookie_store`, one for each domain, path and name.
//! This module puts them there, from the responses of servers and from lists
//! that a driver hands over, and takes them out again.
use vstd::prelude::*;

use crate::bytecode_cache::borrowed_model;
use crate::json::{
    items_model, json_optional_text, json_text_of, lemma_entry_at, lemma_entry_skip, lemma_items_push, no_entries,
    object, optional_text, put, Json, JsonModel,
};
use crate::text::{
    concat, concat3, contains_text, is_space, leading_dots, occurs_at, trim_dots,
};
use crate::urls::{option_model, pairs_model, parse_url, url_parsed};

verus! {

// ---------------------------------------------------------------------
// Cookies and their store
// ---------------------------------------------------------------------

/// A cookie, by what was said when it was set.
#[verifier::ext_equal]
pub struct CookieModel {
    pub name: Seq<char>,
    pub value: Seq<char>,
    pub domain: Option<Seq<char>>,
    pub path: Option<Seq<char>>,
    pub secure: bool,
    pub http_only: bool,
    /// Whether it has a time at which it expires; any other cookie lasts as
    /// long as the session.
    pub timed: bool,
}

/// Where a cookie is kept.
pub struct Slot {
    pub domain: Seq<char>,
    pub path: Seq<char>,
    pub name: Seq<char>,
}

#[verifier::external_type_specification]
#[verifier::external_body]
pub struct ExCookieStore(cookie_store::CookieStore);

#[verifier::external_type_specification]
#[verifier::external_body]
pub struct ExCookie<'c>(cookie::Cookie<'c>);

/// A cookie of the `cookie` crate that borrows nothing.
pub type RawCookie = cookie::Cookie<'static>;

/// What a `cookie::Cookie` holds.
pub uninterp spec fn cookie_contents(c: RawCookie) -> CookieModel;

/// What a `cookie_store::CookieStore` holds, expired cookies included.
pub uninterp spec fn jar_contents(s: cookie_store::CookieStore) -> Map<Slot, CookieModel>;

/// The cookie that `cookie::Cookie::parse` reads from a text, if it is one.
pub uninterp spec fn cookie_parsed(text: Seq<char>) -> Option<CookieModel>;

/// Where `cookie_store::CookieStore::insert_raw` keeps a cookie that came from
/// a URL; nothing where it refuses the cookie for its domain or for the URL.
pub uninterp spec fn cookie_slot(c: CookieModel, url: Seq<char>) -> Option<Slot>;

/// The domain that `cookie_store::CookieDomain` takes what a cookie says of its
/// domain for; nothing where it says nothing, or what is no domain.
pub uninterp spec fn kept_domain(said: Option<Seq<char>>) -> Option<Seq<char>>;

/// Whether `cookie_store::CookieStore::matches` finds that a cookie that is
/// kept in a slot and has not expired goes with requests to a URL.
pub uninterp spec fn cookie_applies(slot: Slot, c: CookieModel, url: Seq<char>) -> bool;

/// Whether a text can stand as a part of a cookie: it has no semicolon, and
/// no white space at its ends.
pub open spec fn is_cookie_part(s: Seq<char>) -> bool {
    &&& !s.contains(';')
    &&& s.len() > 0 ==> !is_space(s[0]) && !is_space(s.last())
}

/// Whether a cookie has parts as they are read from a text. Of a domain a dot
/// at the start is dropped after the white space was.
pub open spec fn is_read(c: CookieModel) -> bool {
    &&& c.name.len() > 0 && is_cookie_part(c.name) && !c.name.contains('=')
    &&& is_cookie_part(c.value)
    &&& c.path matches Some(p) ==> is_cookie_part(p)
    &&& c.domain matches Some(d) ==> !d.contains(';') && (d.len() > 0 ==> !is_space(d.last()))
}

/// Whether a cookie can be written as text and read back.
pub open spec fn is_plain(c: CookieModel) -> bool {
    &&& c.name.len() > 0 && is_cookie_part(c.name) && !c.name.contains('=')
    &&& is_cookie_part(c.value)
    &&& c.path matches Some(p) && is_cookie_part(p)
    &&& c.domain matches Some(d) ==> d.len() > 0 && d[0] != '.' && is_cookie_part(d)
    &&& !c.timed
}

/// A cookie as it is set, with its path and what else is said of it.
pub open spec fn cookie_text(
    name: Seq<char>,
    value: Seq<char>,
    path: Seq<char>,
    domain: Option<Seq<char>>,
    secure: bool,
    http_only: bool,
) -> Seq<char> {
    let head = name + "="@ + value + "; Path="@ + path;
    let with_domain = match domain {
        Some(d) => head + "; Domain="@ + d,
        None => head,
    };
    let with_secure = if secure {
        with_domain + "; Secure"@
    } else {
        with_domain
    };
    if http_only {
        with_secure + "; HttpOnly"@
    } else {
        with_secure
    }
}

/// Whether a text is the way in which a plain cookie is set.
pub open spec fn sets(text: Seq<char>, c: CookieModel) -> bool {
    is_plain(c) && text == cookie_text(
        c.name,
        c.value,
        c.path->0,
        c.domain,
        c.secure,
        c.http_only,
    )
}

/// Calls `cookie::Cookie::parse`: the cookie depends on the text alone. Its
/// parts stand between semicolons and are read without the white space round
/// them. A plain cookie that was written as text is read back.
#[verifier::external_body]
fn parse_cookie(text: &str) -> (r: Option<RawCookie>)
    ensures
        match r {
            Some(k) => cookie_parsed(text@) == Some(cookie_contents(k)) && is_read(
                cookie_contents(k),
            ) && forall|c: CookieModel| #[trigger] sets(text@, c) ==> cookie_contents(k) == c,
            None => cookie_parsed(text@) is None && forall|c: CookieModel| !sets(text@, c),
        },
{
    cookie::Cookie::parse(text.to_string()).ok()
}

/// Calls `cookie_store::CookieStore::default`, which holds no cookie.
#[verifier::external_body]
fn empty_store() -> (r: cookie_store::CookieStore)
    ensures
        (jar_contents(r) == Map::<Slot, CookieModel>::empty()),
{
    cookie_store::CookieStore::default()
}

/// Whether the scheme of a URL is that of HTTP.
pub open spec fn is_http(url: Seq<char>) -> bool {
    url_parsed(url) matches Ok(u) && "http"@.is_prefix_of(u.text)
}

/// Whether a path is absolute.
pub open spec fn is_absolute(path: Option<Seq<char>>) -> bool {
    path matches Some(p) && p.len() > 0 && p[0] == '/'
}

/// Whether a slot is one for a cookie: it has its name, its domain, if the
/// cookie says one, and its path, if that is absolute.
pub open spec fn fits(slot: Slot, c: CookieModel) -> bool {
    &&& slot.name == c.name
    &&& kept_domain(c.domain) matches Some(d) ==> slot.domain == d
    &&& is_absolute(c.path) ==> slot.path == c.path->0
}

/// Whether the cookies may be `after` once a cookie was put to those in
/// `before`: one that has no slot is refused and changes nothing; one that
/// lasts as long as the session and came over HTTP takes its slot. Of any
/// other the time decides, and it may also be that the cookie in the slot
/// expires.
pub open spec fn put_at(
    before: Map<Slot, CookieModel>,
    c: CookieModel,
    slot: Option<Slot>,
    http: bool,
    after: Map<Slot, CookieModel>,
) -> bool {
    match slot {
        None => after == before,
        Some(slot) => {
            &&& fits(slot, c)
            &&& if !c.timed && http {
                after == before.insert(slot, c)
            } else {
                ||| after == before
                ||| after == before.insert(slot, c)
                ||| before.contains_key(slot) && after == before.insert(
                    slot,
                    CookieModel { timed: true, ..before[slot] },
                )
            }
        },
    }
}

/// Whether a cookie for the session came over HTTP from a host that is no IPv6
/// address, and speaks of no domain.
pub open spec fn is_host_cookie(c: CookieModel, url: Seq<char>) -> bool {
    &&& c.domain is None
    &&& !c.timed
    &&& is_http(url)
    &&& url_parsed(url)->Ok_0.host matches Some(h) && (h.len() > 0 ==> h[0] != '[')
}

/// Whether there is a slot, for this host, and a cookie in it.
pub open spec fn is_kept_for(
    slot: Option<Slot>,
    host: Option<Seq<char>>,
    jar: Map<Slot, CookieModel>,
) -> bool {
    slot matches Some(s) && Some(s.domain) == host && jar.contains_key(s)
}

/// Whether a text is a domain in the form in which the store keeps it: of small
/// letters, digits, hyphens and dots, and without labels in Punycode.
pub open spec fn is_plain_domain(d: Seq<char>) -> bool {
    &&& forall|i: int|
        0 <= i < d.len() ==> {
            let c = #[trigger] d[i];
            'a' <= c <= 'z' || '0' <= c <= '9' || c == '-' || c == '.'
        }
    &&& !contains_text(d, "xn--"@)
}

/// The slot of a cookie that speaks of its path, for a domain.
pub open spec fn home(c: CookieModel, domain: Seq<char>) -> Slot {
    Slot { domain, path: c.path->0, name: c.name }
}

/// Whether a cookie for the session with an absolute path came over HTTP from
/// the very host that it names as its domain. What it says of its domain
/// counts as `domain`.
pub open spec fn is_domain_cookie(
    c: CookieModel,
    domain: Option<Seq<char>>,
    url: Seq<char>,
) -> bool {
    &&& domain is Some
    &&& is_absolute(c.path)
    &&& !c.timed
    &&& is_http(url)
    &&& url_parsed(url)->Ok_0.host == domain
}

/// Whether a cookie says a domain that is kept as it is said.
pub open spec fn says_plain_domain(c: CookieModel) -> bool {
    c.domain matches Some(d) && d.len() > 0 && is_plain_domain(d)
}

/// Whether the slot is this one, and there is a cookie in it.
pub open spec fn is_kept_in(slot: Option<Slot>, s: Slot, jar: Map<Slot, CookieModel>) -> bool {
    slot == Some(s) && jar.contains_key(s)
}

/// Calls `cookie_store::CookieStore::store_response_cookies` with one cookie
/// that came from a URL. A cookie without a domain that came over HTTP is kept
/// for the host that it came from, and one that names that host as its domain
/// is kept under its domain and its path. What a cookie says of its domain is
/// brought into the form of hosts by the rules of IDNA; a domain of small
/// letters, digits, hyphens and dots is in that form. Nothing is said of
/// cookies without a domain from hosts that are IPv6 addresses: the store
/// writes some of them in another way than the URL, and then refuses the
/// cookie.
#[verifier::external_body]
fn store_cookie(store: &mut cookie_store::CookieStore, c: RawCookie, url: &str)
    requires
        url_parsed(url@) is Ok,
    ensures
        put_at(
            jar_contents(*old(store)),
            cookie_contents(c),
            cookie_slot(cookie_contents(c), url@),
            is_http(url@),
            jar_contents(*final(store)),
        ),
        is_host_cookie(cookie_contents(c), url@) ==> is_kept_for(
            cookie_slot(cookie_contents(c), url@),
            url_parsed(url@)->Ok_0.host,
            jar_contents(*final(store)),
        ),
        is_domain_cookie(
            cookie_contents(c),
            kept_domain(cookie_contents(c).domain),
            url@,
        ) ==> is_kept_in(
            cookie_slot(cookie_contents(c), url@),
            home(cookie_contents(c), url_parsed(url@)->Ok_0.host->0),
            jar_contents(*final(store)),
        ),
        says_plain_domain(cookie_contents(c)) && is_domain_cookie(
            cookie_contents(c),
            cookie_contents(c).domain,
            url@,
        ) ==> is_kept_in(
            cookie_slot(cookie_contents(c), url@),
            home(cookie_contents(c), cookie_contents(c).domain->0),
            jar_contents(*final(store)),
        ),
{
    if let Ok(u) = url::Url::parse(url) {
        store.store_response_cookies(std::iter::once(c), &u);
    }
}

/// A cookie, as it is shown.
#[derive(Debug)]
pub struct CookieItem {
    pub name: String,
    pub value: String,
    pub domain: Option<String>,
    pub path: Option<String>,
    pub secure: bool,
    pub http_only: bool,
}

/// Whether an item shows a cookie.
pub open spec fn shows(item: CookieItem, c: CookieModel) -> bool {
    &&& item.name@ == c.name
    &&& item.value@ == c.value
    &&& option_model(item.domain) == c.domain
    &&& option_model(item.path) == c.path
    &&& item.secure == c.secure
    &&& item.http_only == c.http_only
}

/// Whether the slots name cookies that are there, each once, and all that last
/// as long as the session and that `wanted` holds of.
pub open spec fn names_cookies(
    slots: Seq<Slot>,
    jar: Map<Slot, CookieModel>,
    wanted: spec_fn(Slot) -> bool,
) -> bool {
    &&& slots.no_duplicates()
    &&& forall|i: int|
        0 <= i < slots.len() ==> jar.contains_key(#[trigger] slots[i]) && wanted(slots[i])
    &&& forall|s: Slot| #[trigger] jar.contains_key(s) && !jar[s].timed && wanted(s)
        ==> slots.contains(s)
}

/// Calls `cookie_store::CookieStore::iter_unexpired`: it shows cookies that
/// are there, each once, and every one that lasts as long as the session. In
/// which order, and which of the others, it leaves open.
#[verifier::external_body]
fn unexpired(store: &cookie_store::CookieStore) -> (r: Vec<CookieItem>)
    ensures
        exists|slots: Seq<Slot>|
            #![trigger slots.no_duplicates()]
            {
                &&& names_cookies(slots, jar_contents(*store), |s: Slot| true)
                &&& slots.len() == r@.len()
                &&& forall|i: int|
                    0 <= i < r@.len() ==> shows(#[trigger] r@[i], jar_contents(*store)[slots[i]])
            },
{
    let item = |c: &cookie_store::Cookie| CookieItem {
        name: c.name().to_string(),
        value: c.value().to_string(),
        domain: c.domain().map(|d| d.to_string()),
        path: c.path().map(|p| p.to_string()),
        secure: c.secure().unwrap_or(false),
        http_only: c.http_only().unwrap_or(false),
    };
    store.iter_unexpired().map(item).collect()
}

/// Calls `cookie_store::CookieStore::get_request_values`: it gives the names
/// and values of cookies that go with requests to a URL, each once, and of
/// every such cookie that lasts as long as the session. In which order, and
/// which of the others, it leaves open.
#[verifier::external_body]
fn request_values(store: &cookie_store::CookieStore, url: &str) -> (r: Vec<(String, String)>)
    requires
        url_parsed(url@) is Ok,
    ensures
        exists|slots: Seq<Slot>|
            #![trigger slots.no_duplicates()]
            {
                &&& names_cookies(
                    slots,
                    jar_contents(*store),
                    |s: Slot| cookie_applies(s, jar_contents(*store)[s], url@),
                )
                &&& pairs_model(r@) == Seq::new(
                    slots.len(),
                    |i: int| (jar_contents(*store)[slots[i]].name, jar_contents(*store)[slots[i]].value),
                )
            },
{
    match url::Url::parse(url) {
        Ok(u) => {
            store.get_request_values(&u).map(|(n, v)| (n.to_string(), v.to_string())).collect()
        },
        Err(_) => Vec::new(),
    }
}

/// Calls `cookie_store::CookieStore::clear`, after which there is no cookie.
#[verifier::external_body]
fn clear_store(store: &mut cookie_store::CookieStore)
    ensures
        (jar_contents(*final(store)) == Map::<Slot, CookieModel>::empty()),
{
    store.clear()
}

/// Whether a character can stand in a header.
pub open spec fn is_header_char(c: char) -> bool {
    c as u32 >= 32 && c as u32 != 127 || c == '\t'
}

/// Calls `http::HeaderValue::from_str`, which accepts a text without control
/// characters other than tabs.
#[verifier::external_body]
fn is_header_value(text: &str) -> (r: bool)
    ensures
        r == (forall|i: int| 0 <= i < text@.len() ==> is_header_char(#[trigger] text@[i])),
{
    http::HeaderValue::from_str(text).is_ok()
}

// ---------------------------------------------------------------------
// Cookies from a driver
// ---------------------------------------------------------------------

/// The text that sets the cookie that a value describes, and the URL that the
/// cookie counts as coming from; or why the value describes none. A value is
/// the text itself, or an object with a name.
#[verifier::opaque]
pub open spec fn described_cookie(item: JsonModel, default_url: Option<Seq<char>>) -> Result<
    (Seq<char>, Seq<char>),
    Seq<char>,
> {
    match item {
        JsonModel::Text(s) => match default_url {
            Some(u) => Ok((s, u)),
            None => Err("string-form cookie requires 'url' param"@),
        },
        JsonModel::Object(_) => match item.text_at("name"@) {
            None => Err("cookie missing 'name'"@),
            Some(name) => {
                let domain = item.text_at("domain"@);
                let secure = item.bool_at("secure"@) == Some(true);
                let text = cookie_text(
                    name,
                    match item.text_at("value"@) {
                        Some(v) => v,
                        None => ""@,
                    },
                    match item.text_at("path"@) {
                        Some(p) => p,
                        None => "/"@,
                    },
                    domain,
                    secure,
                    described_http_only(item),
                );
                match (item.text_at("url"@), domain, default_url) {
                    (Some(u), _, _) => Ok((text, u)),
                    (None, Some(d), _) => Ok(
                        (
                            text,
                            (if secure {
                                "https"@
                            } else {
                                "http"@
                            }) + "://"@ + d.skip(leading_dots(d) as int) + "/"@,
                        ),
                    ),
                    (None, None, Some(u)) => Ok((text, u)),
                    (None, None, None) => Err("cookie "@ + name + " has no 'url' or 'domain'"@),
                }
            },
        },
        _ => Err("cookie must be string or object"@),
    }
}

/// Whether an object describes a cookie that scripts do not see. The key
/// `http_only` counts before `httpOnly`.
pub open spec fn described_http_only(item: JsonModel) -> bool {
    match item.get("http_only"@) {
        Some(v) => v.as_bool() == Some(true),
        None => item.bool_at("httpOnly"@) == Some(true),
    }
}

/// What a described cookie stands for.
pub open spec fn described_model(r: Result<(String, String), String>) -> Result<
    (Seq<char>, Seq<char>),
    Seq<char>,
> {
    match r {
        Ok((a, b)) => Ok((a@, b@)),
        Err(e) => Err(e@),
    }
}

/// Whether a truth value that may be missing is true.
fn is_true(v: Option<bool>) -> (r: bool)
    ensures
        r == (v == Some(true)),
{
    match v {
        Some(b) => b,
        None => false,
    }
}

/// The text that sets a cookie.
fn build_cookie_text(
    name: &str,
    value: &str,
    path: &str,
    domain: Option<&String>,
    secure: bool,
    http_only: bool,
) -> (r: String)
    ensures
        r@ == cookie_text(
            name@,
            value@,
            path@,
            match domain {
                Some(d) => Some(d@),
                None => None,
            },
            secure,
            http_only,
        ),
{
    let mut s = name.to_owned();
    s.append("=");
    s.append(value);
    s.append("; Path=");
    s.append(path);
    if let Some(d) = domain {
        s.append("; Domain=");
        s.append(d.as_str());
    }
    if secure {
        s.append("; Secure");
    }
    if http_only {
        s.append("; HttpOnly");
    }
    s
}

/// The text that sets the cookie that a value describes, and the URL that the
/// cookie counts as coming from; or why the value describes none.
pub fn build_cookie(item: &Json, default_url: Option<&str>) -> (r: Result<
    (String, String),
    String,
>)
    ensures
        described_model(r) == described_cookie(item@, borrowed_model(default_url)),
{
    proof {
        reveal(described_cookie);
    }
    match item {
        Json::Text(s) => {
            return match default_url {
                Some(u) => Ok((s.clone(), u.to_owned())),
                None => Err("string-form cookie requires 'url' param".to_owned()),
            };
        },
        Json::Object(_) => {},
        _ => {
            return Err("cookie must be string or object".to_owned());
        },
    }
    let name: &String = match item.text_at("name") {
        Some(n) => n,
        None => {
            return Err("cookie missing 'name'".to_owned());
        },
    };
    let value: &str = match item.text_at("value") {
        Some(v) => v.as_str(),
        None => "",
    };
    let path: &str = match item.text_at("path") {
        Some(p) => p.as_str(),
        None => "/",
    };
    let domain = item.text_at("domain");
    let secure = is_true(item.bool_at("secure"));
    let http_only = match item.get("http_only") {
        Some(v) => is_true(v.as_bool()),
        None => is_true(item.bool_at("httpOnly")),
    };
    let text = build_cookie_text(name.as_str(), value, path, domain, secure, http_only);
    if let Some(u) = item.text_at("url") {
        return Ok((text, u.clone()));
    }
    if let Some(d) = domain {
        let mut u = if secure {
            "https".to_owned()
        } else {
            "http".to_owned()
        };
        u.append("://");
        u.append(trim_dots(d.as_str()).as_str());
        u.append("/");
        return Ok((text, u));
    }
    match default_url {
        Some(u) => Ok((text, u.to_owned())),
        None => Err(concat3("cookie ", name.as_str(), " has no 'url' or 'domain'")),
    }
}

/// The text and the URL of the cookie that a value describes, where that is a
/// URL; or why there is no such cookie.
pub open spec fn importable(item: JsonModel, default_url: Option<Seq<char>>) -> Result<
    (Seq<char>, Seq<char>),
    Seq<char>,
> {
    match described_cookie(item, default_url) {
        Ok((text, url)) => match url_parsed(url) {
            Ok(_) => Ok((text, url)),
            Err(e) => Err("parse url: "@ + e),
        },
        Err(e) => Err(e),
    }
}

/// The text and the URL of the cookie that a value describes.
fn read_importable(item: &Json, default_url: Option<&str>) -> (r: Result<(String, String), String>)
    ensures
        described_model(r) == importable(item@, borrowed_model(default_url)),
{
    match build_cookie(item, default_url) {
        Ok((text, url)) => match parse_url(url.as_str()) {
            Ok(_) => Ok((text, url)),
            Err(e) => Err(concat("parse url: ", e.as_str())),
        },
        Err(e) => Err(e),
    }
}

// ---------------------------------------------------------------------
// The jar
// ---------------------------------------------------------------------

/// Whether the cookies may be `after` once a text that came from a URL was
/// read as a cookie and put to those in `before`.
pub open spec fn put_text(
    before: Map<Slot, CookieModel>,
    text: Seq<char>,
    url: Seq<char>,
    after: Map<Slot, CookieModel>,
) -> bool {
    match cookie_parsed(text) {
        Some(c) => is_read(c) && put_at(before, c, cookie_slot(c, url), is_http(url), after),
        None => after == before,
    }
}

/// Whether a text is read as the plain cookie that it sets, and a cookie that
/// names its domain and path is kept under these.
pub open spec fn is_taken_as_said(text: Seq<char>, url: Seq<char>) -> bool {
    &&& forall|c: CookieModel| #[trigger] sets(text, c) ==> cookie_parsed(text) == Some(c)
    &&& cookie_parsed(text) matches Some(c) ==> {
        &&& is_domain_cookie(c, kept_domain(c.domain), url) ==> cookie_slot(c, url) == Some(
            home(c, kept_domain(c.domain)->0),
        )
        &&& says_plain_domain(c) && is_domain_cookie(c, c.domain, url) ==> cookie_slot(c, url)
            == Some(home(c, c.domain->0))
    }
}

/// Whether every cookie is in a slot for it, and has parts as they are read.
pub open spec fn is_filed(jar: Map<Slot, CookieModel>) -> bool {
    forall|s: Slot| #[trigger] jar.contains_key(s) ==> fits(s, jar[s]) && is_read(jar[s])
}

/// Whatever is put to the cookies, every cookie is in a slot for it.
pub proof fn law_jars_stay_filed(
    before: Map<Slot, CookieModel>,
    text: Seq<char>,
    url: Seq<char>,
    after: Map<Slot, CookieModel>,
)
    requires
        is_filed(before),
        put_text(before, text, url, after),
    ensures
        is_filed(after),
{
    assert forall|s: Slot| #[trigger] after.contains_key(s) implies fits(s, after[s]) && is_read(
        after[s],
    ) by {
        if before.contains_key(s) {
            assert(fits(s, before[s]) && is_read(before[s]));
        }
    }
}

/// Whether the cookie that a value describes, if it does, is taken as it is
/// described.
pub open spec fn is_imported_as_said(item: JsonModel, default_url: Option<Seq<char>>) -> bool {
    importable(item, default_url) matches Ok((text, url)) ==> is_taken_as_said(text, url)
}

/// How many of the values come before the first that describes no cookie.
pub open spec fn importable_count(items: Seq<JsonModel>, default_url: Option<Seq<char>>) -> nat
    decreases items.len(),
{
    if items.len() == 0 || importable(items[0], default_url) is Err {
        0
    } else {
        1 + importable_count(items.skip(1), default_url)
    }
}

/// How many of the first `n` values describe a text that is a cookie.
pub open spec fn cookie_count(items: Seq<JsonModel>, default_url: Option<Seq<char>>, n: int) -> nat
    decreases n,
{
    if n <= 0 {
        0
    } else {
        cookie_count(items, default_url, n - 1) + (match importable(items[n - 1], default_url) {
            Ok((text, _)) => if cookie_parsed(text) is Some {
                1nat
            } else {
                0nat
            },
            Err(_) => 0nat,
        })
    }
}

/// Whether the cookies may be `after` once the cookie that a value describes
/// was put to those in `before`.
pub open spec fn import_step(
    before: Map<Slot, CookieModel>,
    item: JsonModel,
    default_url: Option<Seq<char>>,
    after: Map<Slot, CookieModel>,
) -> bool {
    match importable(item, default_url) {
        Ok((text, url)) => put_text(before, text, url, after),
        Err(_) => false,
    }
}

/// Whether the cookies went through these states while the first values were
/// put to them, one after the other.
pub open spec fn imports(
    states: Seq<Map<Slot, CookieModel>>,
    items: Seq<JsonModel>,
    default_url: Option<Seq<char>>,
) -> bool {
    forall|i: int|
        0 <= i < states.len() - 1 ==> import_step(
            #[trigger] states[i],
            items[i],
            default_url,
            states[i + 1],
        )
}

/// One more value leads to one more state.
proof fn lemma_imports_push(
    states: Seq<Map<Slot, CookieModel>>,
    items: Seq<JsonModel>,
    default_url: Option<Seq<char>>,
    after: Map<Slot, CookieModel>,
)
    requires
        states.len() > 0,
        imports(states, items, default_url),
        import_step(states.last(), items[states.len() - 1], default_url, after),
    ensures
        imports(states.push(after), items, default_url),
{
    let more = states.push(after);
    assert forall|i: int| 0 <= i < more.len() - 1 implies import_step(
        #[trigger] more[i],
        items[i],
        default_url,
        more[i + 1],
    ) by {
        assert(more[i] == states[i]);
        if i < states.len() - 1 {
            assert(more[i + 1] == states[i + 1]);
        }
    }
}

/// Whether the cookies went through these states while texts that came from
/// one URL were put to them, one after the other.
pub open spec fn receives(
    states: Seq<Map<Slot, CookieModel>>,
    texts: Seq<Seq<char>>,
    url: Seq<char>,
) -> bool {
    forall|i: int|
        0 <= i < states.len() - 1 ==> put_text(#[trigger] states[i], texts[i], url, states[i + 1])
}

/// The names and values as a request sends them.
pub open spec fn header_text(pairs: Seq<(Seq<char>, Seq<char>)>) -> Seq<char>
    decreases pairs.len(),
{
    if pairs.len() == 0 {
        Seq::empty()
    } else {
        let last = pairs.last().0 + "="@ + pairs.last().1;
        if pairs.len() == 1 {
            last
        } else {
            header_text(pairs.drop_last()) + "; "@ + last
        }
    }
}

/// The names and values as a request sends them.
fn build_header(pairs: &Vec<(String, String)>) -> (r: String)
    ensures
        r@ == header_text(pairs_model(pairs@)),
{
    let ghost m = pairs_model(pairs@);
    let mut out = String::new();
    let mut i: usize = 0;
    assert(m.take(0) =~= Seq::empty());
    while i < pairs.len()
        invariant
            i <= pairs.len(),
            m == pairs_model(pairs@),
            out@ == header_text(m.take(i as int)),
        decreases pairs.len() - i,
    {
        proof {
            assert(m.take(i + 1).drop_last() =~= m.take(i as int));
            assert(m.take(i + 1).last() == m[i as int]);
        }
        let pair = concat3(pairs[i].0.as_str(), "=", pairs[i].1.as_str());
        if i > 0 {
            out.append("; ");
            out.append(pair.as_str());
        } else {
            out = pair;
        }
        i = i + 1;
    }
    assert(m.take(i as int) =~= m);
    out
}

/// A cookie in JSON.
pub open spec fn cookie_json(c: CookieModel) -> JsonModel {
    JsonModel::Object(
        seq![
            ("name"@, JsonModel::Text(c.name)),
            ("value"@, JsonModel::Text(c.value)),
            ("domain"@, optional_text(c.domain)),
            ("path"@, optional_text(c.path)),
            ("secure"@, JsonModel::Bool(c.secure)),
            ("http_only"@, JsonModel::Bool(c.http_only)),
        ],
    )
}

impl CookieItem {
    /// The cookie in JSON.
    fn to_json(&self) -> (r: Json)
        ensures
            forall|c: CookieModel| #[trigger] shows(*self, c) ==> r@ == cookie_json(c),
    {
        let mut e = no_entries();
        put(&mut e, "name", json_text_of(self.name.as_str()));
        put(&mut e, "value", json_text_of(self.value.as_str()));
        put(&mut e, "domain", json_optional_text(&self.domain));
        put(&mut e, "path", json_optional_text(&self.path));
        put(&mut e, "secure", Json::Bool(self.secure));
        put(&mut e, "http_only", Json::Bool(self.http_only));
        let r = object(e);
        assert forall|c: CookieModel| #[trigger] shows(*self, c) implies r@ == cookie_json(c) by {
            assert(r@->Object_0 =~= cookie_json(c)->Object_0);
        }
        r
    }
}

/// The cookies of a session.
pub struct CookieJar {
    store: cookie_store::CookieStore,
}

impl View for CookieJar {
    type V = Map<Slot, CookieModel>;

    closed spec fn view(&self) -> Map<Slot, CookieModel> {
        jar_contents(self.store)
    }
}

impl CookieJar {
    /// A jar with no cookie.
    pub fn new() -> (r: CookieJar)
        ensures
            r@ == Map::<Slot, CookieModel>::empty(),
            is_filed(r@),
    {
        CookieJar { store: empty_store() }
    }

    /// Drops all cookies.
    pub fn clear(&mut self)
        ensures
            final(self)@ == Map::<Slot, CookieModel>::empty(),
            is_filed(final(self)@),
    {
        clear_store(&mut self.store);
    }

    /// Puts one text, read as a cookie, to the cookies; says whether it is
    /// one.
    pub fn receive(&mut self, text: &str, url: &str) -> (r: bool)
        requires
            url_parsed(url@) is Ok,
        ensures
            r == (cookie_parsed(text@) is Some),
            put_text(old(self)@, text@, url@, final(self)@),
            forall|c: CookieModel| #[trigger] sets(text@, c) ==> cookie_parsed(text@) == Some(c),
            cookie_parsed(text@) matches Some(c) ==> is_host_cookie(c, url@) ==> is_kept_for(
                cookie_slot(c, url@),
                url_parsed(url@)->Ok_0.host,
                final(self)@,
            ),
            is_taken_as_said(text@, url@),
            is_filed(old(self)@) ==> is_filed(final(self)@),
    {
        let ghost before = self@;
        let r = match parse_cookie(text) {
            Some(c) => {
                store_cookie(&mut self.store, c, url);
                true
            },
            None => false,
        };
        proof {
            if is_filed(before) {
                law_jars_stay_filed(before, text@, url@, self@);
            }
        }
        r
    }

    /// Puts the cookies that a response from a URL sets to those in the jar.
    /// Texts that are no cookies do not count, and of a text that is no URL
    /// nothing comes.
    pub fn set_cookies(&mut self, url: &str, texts: &Vec<String>)
        ensures
            url_parsed(url@) is Err ==> final(self)@ == old(self)@,
            url_parsed(url@) is Ok ==> exists|states: Seq<Map<Slot, CookieModel>>|
                {
                    &&& states.len() == texts@.len() + 1
                    &&& states[0] == old(self)@
                    &&& states.last() == final(self)@
                    &&& #[trigger] receives(states, crate::text::texts_model(texts@), url@)
                },
            is_filed(old(self)@) ==> is_filed(final(self)@),
    {
        if let Err(_) = parse_url(url) {
            return;
        }
        let ghost mut states: Seq<Map<Slot, CookieModel>> = seq![self@];
        let mut i: usize = 0;
        while i < texts.len()
            invariant
                i <= texts.len(),
                url_parsed(url@) is Ok,
                states.len() == i + 1,
                states[0] == old(self)@,
                states.last() == self@,
                is_filed(old(self)@) ==> is_filed(self@),
                receives(states, crate::text::texts_model(texts@), url@),
            decreases texts.len() - i,
        {
            let ghost before = states;
            self.receive(texts[i].as_str(), url);
            proof {
                states = states.push(self@);
                assert forall|k: int| 0 <= k < states.len() - 1 implies put_text(
                    #[trigger] states[k],
                    crate::text::texts_model(texts@)[k],
                    url@,
                    states[k + 1],
                ) by {
                    if k < before.len() - 1 {
                        assert(put_text(
                            before[k],
                            crate::text::texts_model(texts@)[k],
                            url@,
                            before[k + 1],
                        ));
                    }
                }
            }
            i = i + 1;
        }
    }

    /// What a request to a URL says of the cookies; nothing where none goes
    /// with it, or where their text cannot stand in a header.
    pub fn cookies(&self, url: &str) -> (r: Option<String>)
        ensures
            url_parsed(url@) is Err ==> r is None,
            url_parsed(url@) is Ok ==> exists|slots: Seq<Slot>|
                #![trigger slots.no_duplicates()]
                {
                    let text = header_text(
                        Seq::new(slots.len(), |i: int| (self@[slots[i]].name, self@[slots[i]].value)),
                    );
                    &&& names_cookies(
                        slots,
                        self@,
                        |s: Slot| cookie_applies(s, self@[s], url@),
                    )
                    &&& match r {
                        Some(s) => s@ == text && text.len() > 0 && forall|i: int|
                            0 <= i < text.len() ==> is_header_char(#[trigger] text[i]),
                        None => text.len() == 0 || exists|i: int|
                            0 <= i < text.len() && !is_header_char(#[trigger] text[i]),
                    }
                },
    {
        if let Err(_) = parse_url(url) {
            return None;
        }
        let pairs = request_values(&self.store, url);
        let text = build_header(&pairs);
        if text.as_str().unicode_len() == 0 || !is_header_value(text.as_str()) {
            None
        } else {
            Some(text)
        }
    }

    /// The cookies that have not expired, in JSON.
    pub fn export(&self) -> (r: Vec<Json>)
        ensures
            exists|slots: Seq<Slot>|
                #![trigger slots.no_duplicates()]
                {
                    &&& names_cookies(slots, self@, |s: Slot| true)
                    &&& items_model(r@) == Seq::new(
                        slots.len(),
                        |i: int| cookie_json(self@[slots[i]]),
                    )
                },
    {
        let items = unexpired(&self.store);
        let ghost jar = jar_contents(self.store);
        let ghost slots = choose|slots: Seq<Slot>|
            #![trigger slots.no_duplicates()]
            {
                &&& names_cookies(slots, jar, |s: Slot| true)
                &&& slots.len() == items@.len()
                &&& forall|i: int| 0 <= i < items@.len() ==> shows(#[trigger] items@[i], jar[slots[i]])
            };
        let ghost all = Seq::new(slots.len(), |i: int| cookie_json(jar[slots[i]]));
        let mut out: Vec<Json> = Vec::new();
        let mut i: usize = 0;
        while i < items.len()
            invariant
                i <= items.len(),
                slots.len() == items@.len(),
                forall|i: int| 0 <= i < items@.len() ==> shows(#[trigger] items@[i], jar[slots[i]]),
                all == Seq::new(slots.len(), |i: int| cookie_json(jar[slots[i]])),
                items_model(out@) =~= all.take(i as int),
            decreases items.len() - i,
        {
            broadcast use lemma_items_push;

            assert(shows(items@[i as int], jar[slots[i as int]]));
            let j = items[i].to_json();
            out.push(j);
            assert(all.take(i + 1) =~= all.take(i as int).push(all[i as int]));
            i = i + 1;
        }
        assert(all.take(i as int) =~= all);
        assert(slots.no_duplicates());
        out
    }

    /// Puts the cookies that values describe to those in the jar, one after
    /// the other, and counts those that are cookies. The first value that
    /// describes none, or gives no URL, ends it with an error.
    pub fn import(&mut self, items: &Vec<Json>, default_url: Option<&str>) -> (r: Result<
        u64,
        String,
    >)
        ensures
            ({
                let m = items_model(items@);
                let d = borrowed_model(default_url);
                let n = importable_count(m, d);
                &&& match r {
                    Ok(added) => n == m.len() && added == cookie_count(m, d, n as int),
                    Err(e) => n < m.len() && importable(m[n as int], d) == Err::<
                        (Seq<char>, Seq<char>),
                        Seq<char>,
                    >(e@),
                }
                &&& exists|states: Seq<Map<Slot, CookieModel>>|
                    {
                        &&& states.len() == n + 1
                        &&& states[0] == old(self)@
                        &&& states.last() == final(self)@
                        &&& #[trigger] imports(states, m, d)
                    }
                &&& forall|i: int| 0 <= i < n ==> is_imported_as_said(#[trigger] m[i], d)
            }),
            is_filed(old(self)@) ==> is_filed(final(self)@),
    {
        let ghost m = items_model(items@);
        let ghost d = borrowed_model(default_url);
        let ghost mut states: Seq<Map<Slot, CookieModel>> = seq![self@];
        let mut added: u64 = 0;
        let mut i: usize = 0;
        assert(m.skip(0) =~= m);
        while i < items.len()
            invariant
                i <= items.len(),
                m == items_model(items@),
                d == borrowed_model(default_url),
                added <= i,
                added == cookie_count(m, d, i as int),
                importable_count(m, d) == i + importable_count(m.skip(i as int), d),
                states.len() == i + 1,
                states[0] == old(self)@,
                states.last() == self@,
                is_filed(old(self)@) ==> is_filed(self@),
                imports(states, m, d),
                forall|k: int| 0 <= k < i ==> is_imported_as_said(#[trigger] m[k], d),
            decreases items.len() - i,
        {
            proof {
                assert(m.skip(i as int)[0] == m[i as int]);
                assert(m.skip(i as int).skip(1) =~= m.skip(i + 1));
            }
            match read_importable(&items[i], default_url) {
                Err(e) => {
                    return Err(e);
                },
                Ok((text, url)) => {
                    if self.receive(text.as_str(), url.as_str()) {
                        added = added + 1;
                    }
                    proof {
                        assert(import_step(states.last(), m[i as int], d, self@));
                        lemma_imports_push(states, m, d, self@);
                        states = states.push(self@);
                    }
                },
            }
            i = i + 1;
        }
        assert(m.skip(i as int) =~= Seq::empty());
        Ok(added)
    }
}

// ---------------------------------------------------------------------
// What holds of every jar
// ---------------------------------------------------------------------

/// A cookie that came over HTTP, lasts as long as the session and is not
/// refused is afterwards in its slot, and no other slot changed.
pub proof fn law_cookie_is_kept(
    before: Map<Slot, CookieModel>,
    text: Seq<char>,
    url: Seq<char>,
    after: Map<Slot, CookieModel>,
)
    requires
        put_text(before, text, url, after),
        cookie_parsed(text) is Some,
        !cookie_parsed(text)->0.timed,
        is_http(url),
        cookie_slot(cookie_parsed(text)->0, url) is Some,
    ensures
        ({
            let slot = cookie_slot(cookie_parsed(text)->0, url)->0;
            &&& after.contains_key(slot)
            &&& after[slot] == cookie_parsed(text)->0
            &&& forall|s: Slot| s != slot ==> (#[trigger] after.contains_key(s)
                <==> before.contains_key(s)) && (before.contains_key(s) ==> after[s] == before[s])
        }),
{
}

/// Whatever is put to the cookies, no slot but that of the cookie changes.
pub proof fn law_other_slots_unchanged(
    before: Map<Slot, CookieModel>,
    text: Seq<char>,
    url: Seq<char>,
    after: Map<Slot, CookieModel>,
    s: Slot,
)
    requires
        put_text(before, text, url, after),
        cookie_parsed(text) matches Some(c) ==> cookie_slot(c, url) != Some(s),
    ensures
        after.contains_key(s) <==> before.contains_key(s),
        before.contains_key(s) ==> after[s] == before[s],
{
}

/// What is kept for the session is exported.
pub proof fn law_kept_is_exported(
    jar: Map<Slot, CookieModel>,
    slots: Seq<Slot>,
    exported: Seq<JsonModel>,
    s: Slot,
)
    requires
        names_cookies(slots, jar, |s: Slot| true),
        exported == Seq::new(slots.len(), |i: int| cookie_json(jar[slots[i]])),
        jar.contains_key(s),
        !jar[s].timed,
    ensures
        exported.contains(cookie_json(jar[s])),
{
    assert((|s: Slot| true)(s));
    assert(slots.contains(s));
    let i = choose|i: int| 0 <= i < slots.len() && slots[i] == s;
    assert(exported[i] == cookie_json(jar[s]));
}

/// What is kept for the session goes with every request to which it applies.
pub proof fn law_kept_is_sent(
    jar: Map<Slot, CookieModel>,
    slots: Seq<Slot>,
    url: Seq<char>,
    s: Slot,
)
    requires
        names_cookies(slots, jar, |s: Slot| cookie_applies(s, jar[s], url)),
        jar.contains_key(s),
        !jar[s].timed,
        cookie_applies(s, jar[s], url),
    ensures
        slots.contains(s),
{
    assert((|s: Slot| cookie_applies(s, jar[s], url))(s));
}

/// A jar without cookies exports none and sends none.
pub proof fn law_empty_jar_is_silent(slots: Seq<Slot>, wanted: spec_fn(Slot) -> bool)
    requires
        names_cookies(slots, Map::empty(), wanted),
    ensures
        slots.len() == 0,
{
    if slots.len() > 0 {
        assert(Map::<Slot, CookieModel>::empty().contains_key(slots[0]));
    }
}

/// Importing what was exported of a plain cookie sets that cookie again, if
/// it has a domain or a URL is given.
pub proof fn law_export_import(c: CookieModel, default_url: Option<Seq<char>>)
    requires
        is_plain(c),
        c.domain is Some || default_url is Some,
    ensures
        described_cookie(cookie_json(c), default_url) matches Ok((text, url)) && sets(text, c) && (
        c.domain is Some ==> url == (if c.secure {
            "https"@
        } else {
            "http"@
        }) + "://"@ + c.domain->0 + "/"@),
{
    reveal(described_cookie);
    reveal_strlit("name");
    reveal_strlit("value");
    reveal_strlit("domain");
    reveal_strlit("path");
    reveal_strlit("secure");
    reveal_strlit("http_only");
    reveal_strlit("url");
    assert("name"@.len() == 4);
    assert("value"@.len() == 5);
    assert("domain"@.len() == 6);
    assert("path"@.len() == 4);
    assert("secure"@.len() == 6);
    assert("http_only"@.len() == 9);
    assert("url"@.len() == 3);
    assert("name"@[0] != "path"@[0]);
    assert("domain"@[0] != "secure"@[0]);
    let e = cookie_json(c)->Object_0;
    lemma_entry_skip(e, "name"@, 0);
    assert(e.skip(0) =~= e);
    lemma_entry_skip(e, "value"@, 1);
    assert(e.skip(1)[0] == e[1]);
    lemma_entry_skip(e, "domain"@, 2);
    assert(e.skip(2)[0] == e[2]);
    lemma_entry_skip(e, "path"@, 3);
    assert(e.skip(3)[0] == e[3]);
    lemma_entry_skip(e, "secure"@, 4);
    assert(e.skip(4)[0] == e[4]);
    lemma_entry_skip(e, "http_only"@, 5);
    assert(e.skip(5)[0] == e[5]);
    lemma_entry_skip(e, "url"@, 6);
    assert(e.skip(6) =~= Seq::empty());
    if c.domain is Some {
        assert(c.domain->0.skip(leading_dots(c.domain->0) as int) =~= c.domain->0);
    }
}

/// The URL from which a cookie counts as coming that names its domain.
pub open spec fn home_url(c: CookieModel) -> Seq<char> {
    (if c.secure {
        "https"@
    } else {
        "http"@
    }) + "://"@ + c.domain->0 + "/"@
}

/// A cookie as one that lasts as long as the session.
pub open spec fn untimed(c: CookieModel) -> CookieModel {
    CookieModel { timed: false, ..c }
}

/// Whether a cookie is carried from jar to jar by what is exported of it: it
/// says an absolute path, and a domain that is also the host of the URL with
/// that domain. A domain that begins with a dot is not: it would be said
/// without the dot. The time at which it expires is not exported.
pub open spec fn is_carried(c: CookieModel) -> bool {
    &&& c.domain matches Some(d) && d.len() > 0 && d[0] != '.' && !is_space(d[0])
    &&& is_domain_cookie(untimed(c), kept_domain(c.domain), home_url(c))
}

/// What is exported of such a cookie describes it, as coming from the URL of
/// its domain.
proof fn lemma_carried(c: CookieModel)
    requires
        is_read(c),
        is_carried(c),
    ensures
        importable(cookie_json(c), None) matches Ok((text, url)) && sets(text, untimed(c)) && url
            == home_url(c),
{
    let u = untimed(c);
    assert(is_plain(u));
    law_export_import(u, None);
    assert(cookie_json(u) == cookie_json(c));
    assert(home_url(u) == home_url(c));
}

/// Importing all that was exported of a jar, in whatever order, into an empty
/// jar counts every cookie, and gives the same cookies in the same slots, as
/// cookies for the session.
pub proof fn law_exported_jar_is_restored(
    jar: Map<Slot, CookieModel>,
    slots: Seq<Slot>,
    exported: Seq<JsonModel>,
    states: Seq<Map<Slot, CookieModel>>,
)
    requires
        is_filed(jar),
        names_cookies(slots, jar, |s: Slot| true),
        exported == Seq::new(slots.len(), |i: int| cookie_json(jar[slots[i]])),
        forall|i: int| 0 <= i < slots.len() ==> is_carried(jar[#[trigger] slots[i]]),
        forall|i: int| 0 <= i < exported.len() ==> is_imported_as_said(#[trigger] exported[i], None),
        states.len() == exported.len() + 1,
        states[0] == Map::<Slot, CookieModel>::empty(),
        imports(states, exported, None),
    ensures
        importable_count(exported, None) == exported.len(),
        cookie_count(exported, None, exported.len() as int) == exported.len(),
        forall|s: Slot| #[trigger] states.last().contains_key(s) <==> slots.contains(s),
        forall|i: int|
            0 <= i < slots.len() ==> states.last()[#[trigger] slots[i]] == untimed(jar[slots[i]]),
{
    let n = slots.len() as int;
    assert forall|i: int| 0 <= i < n implies importable(#[trigger] exported[i], None) is Ok by {
        assert(jar.contains_key(slots[i]));
        lemma_carried(jar[slots[i]]);
    }
    lemma_all_importable(exported, None);
    lemma_restored(jar, slots, exported, states, n);
    assert(slots.take(n) =~= slots);
    assert forall|i: int| 0 <= i < slots.len() implies states.last()[#[trigger] slots[i]] == untimed(
        jar[slots[i]],
    ) by {
        assert(slots.contains(slots[i]));
        assert(states.last().contains_key(slots[i]));
    }
}

/// What is exported of a jar into which all was imported that was exported of
/// another is that again, but for the order.
pub proof fn law_export_is_restored(
    jar: Map<Slot, CookieModel>,
    slots: Seq<Slot>,
    exported: Seq<JsonModel>,
    states: Seq<Map<Slot, CookieModel>>,
    slots_again: Seq<Slot>,
    exported_again: Seq<JsonModel>,
)
    requires
        is_filed(jar),
        names_cookies(slots, jar, |s: Slot| true),
        exported == Seq::new(slots.len(), |i: int| cookie_json(jar[slots[i]])),
        forall|i: int| 0 <= i < slots.len() ==> is_carried(jar[#[trigger] slots[i]]),
        forall|i: int| 0 <= i < exported.len() ==> is_imported_as_said(#[trigger] exported[i], None),
        states.len() == exported.len() + 1,
        states[0] == Map::<Slot, CookieModel>::empty(),
        imports(states, exported, None),
        names_cookies(slots_again, states.last(), |s: Slot| true),
        exported_again == Seq::new(
            slots_again.len(),
            |i: int| cookie_json(states.last()[slots_again[i]]),
        ),
    ensures
        exported_again.len() == exported.len(),
        exported_again.to_multiset() == exported.to_multiset(),
{
    law_exported_jar_is_restored(jar, slots, exported, states);
    let last = states.last();
    let f = |s: Slot| cookie_json(jar[s]);
    assert forall|s: Slot| slots.contains(s) <==> slots_again.contains(s) by {
        if slots.contains(s) {
            let i = choose|i: int| 0 <= i < slots.len() && slots[i] == s;
            assert(last[slots[i]] == untimed(jar[slots[i]]));
            assert(last.contains_key(s) && !last[s].timed);
            assert((|s: Slot| true)(s));
        }
        if slots_again.contains(s) {
            let i = choose|i: int| 0 <= i < slots_again.len() && slots_again[i] == s;
            assert(last.contains_key(slots_again[i]));
        }
    }
    assert(exported =~= slots.map_values(f));
    assert forall|i: int| 0 <= i < slots_again.len() implies #[trigger] exported_again[i] == f(
        slots_again[i],
    ) by {
        let s = slots_again[i];
        assert(last.contains_key(s));
        let k = choose|k: int| 0 <= k < slots.len() && slots[k] == s;
        assert(last[slots[k]] == untimed(jar[slots[k]]));
        assert(cookie_json(untimed(jar[s])) == cookie_json(jar[s]));
    }
    assert(exported_again =~= slots_again.map_values(f));
    lemma_same_items(slots_again, slots, f);
}

/// The same members in another order give the same items in another order.
proof fn lemma_same_items<A, B>(a: Seq<A>, b: Seq<A>, f: spec_fn(A) -> B)
    requires
        a.no_duplicates(),
        b.no_duplicates(),
        forall|x: A| a.contains(x) <==> b.contains(x),
    ensures
        a.len() == b.len(),
        a.map_values(f).to_multiset() == b.map_values(f).to_multiset(),
    decreases a.len(),
{
    broadcast use vstd::seq_lib::group_to_multiset_ensures;

    if a.len() == 0 {
        if b.len() > 0 {
            assert(b.contains(b[0]));
            assert(a.contains(b[0]));
        }
        assert(a.map_values(f) =~= b.map_values(f));
    } else {
        let x = a.last();
        let front = a.drop_last();
        assert(a.contains(x));
        let k = choose|k: int| 0 <= k < b.len() && b[k] == x;
        let rest = b.remove(k);
        assert forall|i: int| 0 <= i < rest.len() implies #[trigger] rest[i] == (if i < k {
            b[i]
        } else {
            b[i + 1]
        }) by {}
        assert forall|y: A| front.contains(y) <==> rest.contains(y) by {
            if front.contains(y) {
                let i = choose|i: int| 0 <= i < front.len() && front[i] == y;
                assert(a[i] == y && a[i] != a[a.len() - 1]);
                assert(a.contains(y));
                let j = choose|j: int| 0 <= j < b.len() && b[j] == y;
                assert(rest[if j < k {
                    j
                } else {
                    j - 1
                }] == y);
            }
            if rest.contains(y) {
                let i = choose|i: int| 0 <= i < rest.len() && rest[i] == y;
                let j = if i < k {
                    i
                } else {
                    i + 1
                };
                assert(b[j] == y && b[j] != b[k]);
                assert(b.contains(y));
                let m = choose|m: int| 0 <= m < a.len() && a[m] == y;
                assert(front[m] == y);
            }
        }
        lemma_same_items(front, rest, f);
        let (ma, mb) = (a.map_values(f), b.map_values(f));
        assert(ma =~= front.map_values(f).push(f(x)));
        assert(mb.remove(k) =~= rest.map_values(f));
        assert(mb[k] == f(x));
        assert(mb.to_multiset() =~= mb.remove(k).to_multiset().insert(f(x)));
    }
}

/// Where all values describe cookies, none ends the import.
proof fn lemma_all_importable(items: Seq<JsonModel>, default_url: Option<Seq<char>>)
    requires
        forall|i: int| 0 <= i < items.len() ==> importable(#[trigger] items[i], default_url) is Ok,
    ensures
        importable_count(items, default_url) == items.len(),
    decreases items.len(),
{
    if items.len() > 0 {
        assert forall|i: int| 0 <= i < items.skip(1).len() implies importable(
            #[trigger] items.skip(1)[i],
            default_url,
        ) is Ok by {
            assert(items.skip(1)[i] == items[i + 1]);
        }
        lemma_all_importable(items.skip(1), default_url);
    }
}

/// After the first `k` values, the jar holds the first `k` cookies.
proof fn lemma_restored(
    jar: Map<Slot, CookieModel>,
    slots: Seq<Slot>,
    exported: Seq<JsonModel>,
    states: Seq<Map<Slot, CookieModel>>,
    k: int,
)
    requires
        is_filed(jar),
        names_cookies(slots, jar, |s: Slot| true),
        exported == Seq::new(slots.len(), |i: int| cookie_json(jar[slots[i]])),
        forall|i: int| 0 <= i < slots.len() ==> is_carried(jar[#[trigger] slots[i]]),
        forall|i: int| 0 <= i < exported.len() ==> is_imported_as_said(#[trigger] exported[i], None),
        states.len() == exported.len() + 1,
        states[0] == Map::<Slot, CookieModel>::empty(),
        imports(states, exported, None),
        0 <= k <= slots.len(),
    ensures
        forall|s: Slot| #[trigger] states[k].contains_key(s) <==> slots.take(k).contains(s),
        forall|s: Slot| #[trigger] states[k].contains_key(s) ==> states[k][s] == untimed(jar[s]),
        cookie_count(exported, None, k) == k,
    decreases k,
{
    if k == 0 {
        assert(slots.take(0) =~= Seq::empty());
    } else {
        lemma_restored(jar, slots, exported, states, k - 1);
        let s = slots[k - 1];
        assert(jar.contains_key(s));
        lemma_carried(jar[s]);
        assert(exported[k - 1] == cookie_json(jar[s]));
        assert(import_step(states[k - 1], exported[k - 1], None, states[k - 1 + 1]));
        let u = untimed(jar[s]);
        assert(is_imported_as_said(exported[k - 1], None));
        let (text, url) = importable(exported[k - 1], None)->Ok_0;
        assert(cookie_parsed(text) == Some(u));
        assert(kept_domain(u.domain) == Some(s.domain));
        assert(home(u, s.domain) == s);
        assert(states[k] == states[k - 1].insert(s, u));
        let front = slots.take(k - 1);
        assert(slots.take(k) =~= front.push(s));
        assert forall|t: Slot| slots.take(k).contains(t) <==> front.contains(t) || t == s by {
            if slots.take(k).contains(t) {
                let i = choose|i: int| 0 <= i < k && slots.take(k)[i] == t;
                if i < k - 1 {
                    assert(front[i] == t);
                }
            }
            if front.contains(t) {
                let i = choose|i: int| 0 <= i < k - 1 && front[i] == t;
                assert(slots.take(k)[i] == t);
            }
            assert(slots.take(k)[k - 1] == s);
        }
        assert forall|t: Slot| #[trigger] states[k].contains_key(t) <==> slots.take(k).contains(
            t,
        ) by {
            assert(states[k].contains_key(t) <==> states[k - 1].contains_key(t) || t == s);
            assert(slots.take(k).contains(t) <==> front.contains(t) || t == s);
        }
    }
}

/// A request sends every cookie, one behind the other and in their order, each
/// as its name and its value.
pub proof fn law_every_cookie_is_sent(
    a: Seq<(Seq<char>, Seq<char>)>,
    b: Seq<(Seq<char>, Seq<char>)>,
    name: Seq<char>,
    value: Seq<char>,
)
    ensures
        a.len() > 0 && b.len() > 0 ==> header_text(a + b) == header_text(a) + "; "@ + header_text(b),
        header_text(seq![(name, value)]) == name + "="@ + value,
        header_text(Seq::empty()).len() == 0,
    decreases b.len(),
{
    let one = seq![(name, value)];
    assert(one.last() == (name, value));
    if a.len() > 0 && b.len() > 0 {
        let front = b.drop_last();
        assert((a + b).drop_last() =~= a + front);
        assert((a + b).last() == b.last());
        if front.len() == 0 {
            assert(a + front =~= a);
        } else {
            law_every_cookie_is_sent(a, front, name, value);
        }
        assert(header_text(a + b) =~= header_text(a) + "; "@ + header_text(b));
    }
}

/// Each cookie stands in what a request sends.
proof fn lemma_cookie_in_header(pairs: Seq<(Seq<char>, Seq<char>)>, i: int)
    requires
        0 <= i < pairs.len(),
    ensures
        contains_text(header_text(pairs), pairs[i].0 + "="@ + pairs[i].1),
{
    let (name, value) = pairs[i];
    let own = name + "="@ + value;
    let before = pairs.take(i);
    let one = seq![(name, value)];
    let after = pairs.skip(i + 1);
    assert(pairs =~= before + (one + after));
    law_every_cookie_is_sent(one, after, name, value);
    law_every_cookie_is_sent(before, one + after, name, value);
    let rest = header_text(one + after);
    if after.len() == 0 {
        assert(one + after =~= one);
    }
    assert(rest.subrange(0, own.len() as int) =~= own);
    let start = if before.len() == 0 {
        0
    } else {
        (header_text(before) + "; "@).len() as int
    };
    if before.len() == 0 {
        assert(pairs =~= one + after);
    }
    assert(header_text(pairs).subrange(start, start + own.len()) =~= own);
    assert(occurs_at(header_text(pairs), own, start));
}

/// What a request sends can stand in a header if every name and value can.
proof fn lemma_header_chars(pairs: Seq<(Seq<char>, Seq<char>)>)
    requires
        forall|i: int, k: int|
            0 <= i < pairs.len() && 0 <= k < pairs[i].0.len() ==> is_header_char(
                #[trigger] pairs[i].0[k],
            ),
        forall|i: int, k: int|
            0 <= i < pairs.len() && 0 <= k < pairs[i].1.len() ==> is_header_char(
                #[trigger] pairs[i].1[k],
            ),
    ensures
        forall|k: int|
            0 <= k < header_text(pairs).len() ==> is_header_char(#[trigger] header_text(pairs)[k]),
    decreases pairs.len(),
{
    reveal_strlit("=");
    reveal_strlit("; ");
    if pairs.len() > 0 {
        let front = pairs.drop_last();
        let n = pairs.len() - 1;
        let last = pairs[n].0 + "="@ + pairs[n].1;
        assert(pairs.last() == pairs[n]);
        assert forall|k: int| 0 <= k < last.len() implies is_header_char(#[trigger] last[k]) by {
            if k < pairs[n].0.len() {
                assert(last[k] == pairs[n].0[k]);
            } else if k > pairs[n].0.len() {
                assert(last[k] == pairs[n].1[k - pairs[n].0.len() - 1]);
            }
        }
        assert forall|i: int, k: int|
            0 <= i < front.len() && 0 <= k < front[i].0.len() implies is_header_char(
            #[trigger] front[i].0[k],
        ) by {
            assert(front[i] == pairs[i]);
            assert(is_header_char(pairs[i].0[k]));
        }
        assert forall|i: int, k: int|
            0 <= i < front.len() && 0 <= k < front[i].1.len() implies is_header_char(
            #[trigger] front[i].1[k],
        ) by {
            assert(front[i] == pairs[i]);
            assert(is_header_char(pairs[i].1[k]));
        }
        lemma_header_chars(front);
        let all = header_text(pairs);
        let head = header_text(front);
        if pairs.len() > 1 {
            assert(all == head + "; "@ + last);
            assert forall|k: int| 0 <= k < all.len() implies is_header_char(#[trigger] all[k]) by {
                if k < head.len() {
                    assert(all[k] == head[k]);
                } else if k >= head.len() + 2 {
                    assert(all[k] == last[k - head.len() - 2]);
                }
            }
        } else {
            assert(all == last);
        }
    }
}

/// A cookie of the session that applies to a URL goes with every request to it,
/// whatever other cookies there are, as long as all of them can stand in a
/// header.
pub proof fn law_kept_cookies_go_with_requests(
    jar: &CookieJar,
    url: &str,
    r: Option<String>,
    s: Slot,
)
    requires
        call_ensures(CookieJar::cookies, (jar, url), r),
        url_parsed(url@) is Ok,
        jar@.contains_key(s),
        !jar@[s].timed,
        cookie_applies(s, jar@[s], url@),
        forall|t: Slot, k: int| #[trigger]
            jar@.contains_key(t) && 0 <= k < jar@[t].name.len() ==> is_header_char(
                #[trigger] jar@[t].name[k],
            ),
        forall|t: Slot, k: int| #[trigger]
            jar@.contains_key(t) && 0 <= k < jar@[t].value.len() ==> is_header_char(
                #[trigger] jar@[t].value[k],
            ),
    ensures
        r matches Some(text) && contains_text(text@, jar@[s].name + "="@ + jar@[s].value),
{
    let slots = choose|slots: Seq<Slot>|
        #![trigger slots.no_duplicates()]
        {
            let text = header_text(
                Seq::new(slots.len(), |i: int| (jar@[slots[i]].name, jar@[slots[i]].value)),
            );
            &&& names_cookies(slots, jar@, |s: Slot| cookie_applies(s, jar@[s], url@))
            &&& match r {
                Some(s) => s@ == text && text.len() > 0 && forall|i: int|
                    0 <= i < text.len() ==> is_header_char(#[trigger] text[i]),
                None => text.len() == 0 || exists|i: int|
                    0 <= i < text.len() && !is_header_char(#[trigger] text[i]),
            }
        };
    let pairs = Seq::new(slots.len(), |i: int| (jar@[slots[i]].name, jar@[slots[i]].value));
    law_kept_is_sent(jar@, slots, url@, s);
    let i = choose|i: int| 0 <= i < slots.len() && slots[i] == s;
    lemma_cookie_in_header(pairs, i);
    assert(pairs[i] == (jar@[s].name, jar@[s].value));
    assert forall|i: int, k: int|
        0 <= i < pairs.len() && 0 <= k < pairs[i].0.len() implies is_header_char(
        #[trigger] pairs[i].0[k],
    ) by {
        assert(jar@.contains_key(slots[i]));
        assert(is_header_char(jar@[slots[i]].name[k]));
    }
    assert forall|i: int, k: int|
        0 <= i < pairs.len() && 0 <= k < pairs[i].1.len() implies is_header_char(
        #[trigger] pairs[i].1[k],
    ) by {
        assert(jar@.contains_key(slots[i]));
        assert(is_header_char(jar@[slots[i]].value[k]));
    }
    lemma_header_chars(pairs);
    let text = header_text(pairs);
    reveal_strlit("=");
    assert(text.len() > 0) by {
        let own = jar@[s].name + "="@ + jar@[s].value;
        let k = choose|k: int| occurs_at(text, own, k);
        assert(occurs_at(text, own, k));
        assert(own.len() > 0);
    }
}

/// A cookie is set by its name and value, then its path, then its domain if one
/// is given, and then what else holds of it.
pub proof fn law_how_cookies_are_set(
    name: Seq<char>,
    value: Seq<char>,
    path: Seq<char>,
    domain: Option<Seq<char>>,
    d: Seq<char>,
    secure: bool,
)
    ensures
        cookie_text(name, value, path, None, false, false) == name + "="@ + value + "; Path="@
            + path,
        cookie_text(name, value, path, Some(d), false, false) == cookie_text(
            name,
            value,
            path,
            None,
            false,
            false,
        ) + "; Domain="@ + d,
        cookie_text(name, value, path, domain, true, false) == cookie_text(
            name,
            value,
            path,
            domain,
            false,
            false,
        ) + "; Secure"@,
        cookie_text(name, value, path, domain, secure, true) == cookie_text(
            name,
            value,
            path,
            domain,
            secure,
            false,
        ) + "; HttpOnly"@,
{
}

/// A text sets the cookie that it says, for the URL that is given with the
/// list, which it needs.
pub proof fn law_texts_set_cookies(
    item: &Json,
    default_url: Option<&str>,
    r: Result<(String, String), String>,
    s: Seq<char>,
)
    requires
        call_ensures(build_cookie, (item, default_url), r),
        item@ == JsonModel::Text(s),
    ensures
        r is Ok <==> default_url is Some,
        r is Ok ==> r->Ok_0.0@ == s && r->Ok_0.1@ == default_url->0@,
        r is Err ==> r->Err_0@ == "string-form cookie requires 'url' param"@,
{
    reveal(described_cookie);
}

/// An object sets a cookie if it has a name and a URL is to be had: its own, or
/// else that of its domain, or else the one that is given with the list. What
/// it does not say is empty, the path of all pages, or no.
pub proof fn law_objects_set_cookies(
    item: &Json,
    default_url: Option<&str>,
    r: Result<(String, String), String>,
    value: Seq<char>,
    path: Seq<char>,
    http_only: bool,
)
    requires
        call_ensures(build_cookie, (item, default_url), r),
        item@ is Object,
        item@.text_at("value"@) == Some(value) || (item@.text_at("value"@) is None && value
            == ""@),
        item@.text_at("path"@) == Some(path) || (item@.text_at("path"@) is None && path == "/"@),
        http_only == (if item@.get("http_only"@) is Some {
            item@.bool_at("http_only"@) == Some(true)
        } else {
            item@.bool_at("httpOnly"@) == Some(true)
        }),
    ensures
        ({
            let name = item@.text_at("name"@);
            let url = item@.text_at("url"@);
            let domain = item@.text_at("domain"@);
            let secure = item@.bool_at("secure"@) == Some(true);
            &&& r is Ok <==> name is Some && (url is Some || domain is Some || default_url is Some)
            &&& r matches Ok((text, from)) ==> {
                &&& text@ == cookie_text(name->0, value, path, domain, secure, http_only)
                &&& url is Some ==> from@ == url->0
                &&& url is None && domain is None ==> from@ == default_url->0@
                &&& url is None && domain is Some ==> from@ == (if secure {
                    "https://"@
                } else {
                    "http://"@
                }) + domain->0.skip(leading_dots(domain->0) as int) + "/"@
            }
            &&& r is Err && name is None ==> r->Err_0@ == "cookie missing 'name'"@
            &&& r is Err && name is Some ==> r->Err_0@ == "cookie "@ + name->0
                + " has no 'url' or 'domain'"@
        }),
{
    reveal(described_cookie);
    reveal_strlit("https");
    reveal_strlit("http");
    reveal_strlit("://");
    reveal_strlit("https://");
    reveal_strlit("http://");
    assert("https"@ + "://"@ =~= "https://"@);
    assert("http"@ + "://"@ =~= "http://"@);
}

/// Nothing else sets a cookie.
pub proof fn law_nothing_else_sets_cookies(
    item: &Json,
    default_url: Option<&str>,
    r: Result<(String, String), String>,
)
    requires
        call_ensures(build_cookie, (item, default_url), r),
        !(item@ is Object) && !(item@ is Text),
    ensures
        r is Err && r->Err_0@ == "cookie must be string or object"@,
{
    reveal(described_cookie);
}

/// An import ends at the first value that sets no cookie, and counts those
/// before it whose text is one.
pub proof fn law_imports_are_counted(
    items: Seq<JsonModel>,
    default_url: Option<Seq<char>>,
    n: nat,
    i: int,
)
    requires
        n == importable_count(items, default_url),
    ensures
        n <= items.len(),
        0 <= i < n ==> importable(items[i], default_url) is Ok,
        n < items.len() ==> importable(items[n as int], default_url) is Err,
        0 <= i < n && cookie_parsed(importable(items[i], default_url)->Ok_0.0) is Some
            ==> cookie_count(items, default_url, i + 1) == cookie_count(items, default_url, i) + 1,
        0 <= i < n && cookie_parsed(importable(items[i], default_url)->Ok_0.0) is None
            ==> cookie_count(items, default_url, i + 1) == cookie_count(items, default_url, i),
        cookie_count(items, default_url, 0) == 0,
    decreases items.len(),
{
    if items.len() > 0 && importable(items[0], default_url) is Ok {
        let rest = items.skip(1);
        law_imports_are_counted(rest, default_url, (n - 1) as nat, i - 1);
        if 0 < i < n {
            assert(rest[i - 1] == items[i]);
        }
        if n < items.len() {
            assert(rest[n - 1] == items[n as int]);
        }
    }
}

/// What is exported of a cookie says what was said when it was set.
pub proof fn law_what_is_exported_of_a_cookie(c: CookieModel)
    ensures
        cookie_json(c).text_at("name"@) == Some(c.name),
        cookie_json(c).text_at("value"@) == Some(c.value),
        cookie_json(c).bool_at("secure"@) == Some(c.secure),
        cookie_json(c).bool_at("http_only"@) == Some(c.http_only),
        cookie_json(c).text_at("domain"@) == c.domain,
        cookie_json(c).text_at("path"@) == c.path,
{
    reveal_strlit("name");
    reveal_strlit("value");
    reveal_strlit("domain");
    reveal_strlit("path");
    reveal_strlit("secure");
    reveal_strlit("http_only");
    assert("name"@.len() == 4);
    assert("value"@.len() == 5);
    assert("domain"@.len() == 6);
    assert("path"@.len() == 4);
    assert("secure"@.len() == 6);
    assert("http_only"@.len() == 9);
    assert("name"@[0] != "path"@[0]);
    assert("domain"@[0] != "secure"@[0]);
    let e = cookie_json(c)->Object_0;
    lemma_entry_at(e, "name"@, 0);
    lemma_entry_at(e, "value"@, 1);
    lemma_entry_at(e, "domain"@, 2);
    lemma_entry_at(e, "path"@, 3);
    lemma_entry_at(e, "secure"@, 4);
    lemma_entry_at(e, "http_only"@, 5);
}

/// A jar starts without cookies and has none once it was cleared. A text that is
/// a cookie is put into it, one that is none changes nothing; and one that lasts
/// as long as the session, came over HTTP and is not refused is the one in its
/// slot.
pub proof fn law_how_a_jar_receives()
    ensures
        forall|jar: CookieJar| #[trigger] call_ensures(CookieJar::new, (), jar) ==> jar@ == Map::<
            Slot,
            CookieModel,
        >::empty(),
        forall|jar: &mut CookieJar, r: ()| #[trigger]
            call_ensures(CookieJar::clear, (jar,), r) ==> (*final(jar))@ == Map::<
                Slot,
                CookieModel,
            >::empty(),
        forall|jar: &mut CookieJar, text: &str, url: &str, r: bool| #[trigger]
            call_ensures(CookieJar::receive, (jar, text, url), r) ==> {
                let slot = cookie_slot(cookie_parsed(text@)->0, url@);
                &&& r <==> cookie_parsed(text@) is Some
                &&& !r ==> (*final(jar))@ == (*jar)@
                &&& r && slot is None ==> (*final(jar))@ == (*jar)@
                &&& r && slot is Some && !cookie_parsed(text@)->0.timed && is_http(url@)
                    ==> (*final(jar))@ == (*jar)@.insert(slot->0, cookie_parsed(text@)->0)
                &&& r && slot is Some ==> slot->0.name == cookie_parsed(text@)->0.name
            },
        forall|jar: &mut CookieJar, text: &str, url: &str, r: bool, c: CookieModel|
            #![trigger call_ensures(CookieJar::receive, (jar, text, url), r), sets(text@, c)]
            call_ensures(CookieJar::receive, (jar, text, url), r) && sets(text@, c) ==> r
                && cookie_parsed(text@) == Some(c),
{
}

/// The texts of a response are received one after the other, and none where the
/// URL is none.
pub proof fn law_how_responses_set_cookies()
    ensures
        forall|jar: &mut CookieJar, url: &str, texts: &Vec<String>, r: ()| #[trigger]
            call_ensures(CookieJar::set_cookies, (jar, url, texts), r) ==> {
                &&& url_parsed(url@) is Err || texts@.len() == 0 ==> (*final(jar))@ == (*jar)@
                &&& url_parsed(url@) is Ok && texts@.len() == 1 ==> put_text(
                    (*jar)@,
                    texts@[0]@,
                    url@,
                    (*final(jar))@,
                )
                &&& url_parsed(url@) is Ok ==> exists|states: Seq<Map<Slot, CookieModel>>|
                    {
                        &&& states.len() == texts@.len() + 1
                        &&& #[trigger] states[0] == (*jar)@
                        &&& states[texts@.len() as int] == (*final(jar))@
                        &&& forall|i: int|
                            0 <= i < texts@.len() ==> put_text(
                                #[trigger] states[i],
                                texts@[i]@,
                                url@,
                                states[i + 1],
                            )
                    }
            },
{
    assert forall|jar: &mut CookieJar, url: &str, texts: &Vec<String>, r: ()| #[trigger]
        call_ensures(CookieJar::set_cookies, (jar, url, texts), r) implies {
        &&& url_parsed(url@) is Err || texts@.len() == 0 ==> (*final(jar))@ == (*jar)@
        &&& url_parsed(url@) is Ok && texts@.len() == 1 ==> put_text(
            (*jar)@,
            texts@[0]@,
            url@,
            (*final(jar))@,
        )
        &&& url_parsed(url@) is Ok ==> exists|states: Seq<Map<Slot, CookieModel>>|
            {
                &&& states.len() == texts@.len() + 1
                &&& #[trigger] states[0] == (*jar)@
                &&& states[texts@.len() as int] == (*final(jar))@
                &&& forall|i: int|
                    0 <= i < texts@.len() ==> put_text(
                        #[trigger] states[i],
                        texts@[i]@,
                        url@,
                        states[i + 1],
                    )
            }
    } by {
        if url_parsed(url@) is Ok {
            let m = crate::text::texts_model(texts@);
            let states = choose|states: Seq<Map<Slot, CookieModel>>|
                {
                    &&& states.len() == texts@.len() + 1
                    &&& states[0] == (*jar)@
                    &&& states.last() == (*final(jar))@
                    &&& #[trigger] receives(states, m, url@)
                };
            assert(states[0] == (*jar)@);
            assert forall|i: int| 0 <= i < texts@.len() implies put_text(
                #[trigger] states[i],
                texts@[i]@,
                url@,
                states[i + 1],
            ) by {
                assert(m[i] == texts@[i]@);
            }
            if texts@.len() == 1 {
                assert(put_text(states[0], texts@[0]@, url@, states[1]));
            }
        }
    }
}

/// Where the first value stands that describes no cookie.
proof fn lemma_importable_count(items: Seq<JsonModel>, default_url: Option<Seq<char>>)
    ensures
        importable_count(items, default_url) <= items.len(),
        forall|i: int|
            0 <= i < importable_count(items, default_url) ==> importable(
                #[trigger] items[i],
                default_url,
            ) is Ok,
        importable_count(items, default_url) < items.len() ==> importable(
            items[importable_count(items, default_url) as int],
            default_url,
        ) is Err,
    decreases items.len(),
{
    if items.len() > 0 && importable(items[0], default_url) is Ok {
        let rest = items.skip(1);
        lemma_importable_count(rest, default_url);
        let n = importable_count(items, default_url);
        assert forall|i: int| 0 <= i < n implies importable(#[trigger] items[i], default_url) is Ok by {
            if i > 0 {
                assert(items[i] == rest[i - 1]);
            }
        }
        if n < items.len() {
            assert(items[n as int] == rest[n - 1]);
        }
    }
}

/// An import succeeds exactly if every value describes a cookie, and then counts
/// those that are; otherwise it fails for the first that does not. The values
/// before that are put into the jar.
pub proof fn law_how_a_jar_imports()
    ensures
        forall|jar: &mut CookieJar, items: &Vec<Json>, url: Option<&str>, r: Result<u64, String>|
            #[trigger]
            call_ensures(CookieJar::import, (jar, items, url), r) ==> {
                let d = borrowed_model(url);
                &&& r is Ok <==> forall|i: int|
                    0 <= i < items@.len() ==> importable((#[trigger] items@[i])@, d) is Ok
                &&& r matches Ok(n) ==> n == cookie_count(
                    items_model(items@),
                    d,
                    items@.len() as int,
                )
                &&& r matches Err(e) ==> exists|i: int|
                    0 <= i < items@.len() && importable((#[trigger] items@[i])@, d) is Err
                        && importable(items@[i]@, d)->Err_0 == e@ && forall|j: int|
                        0 <= j < i ==> importable((#[trigger] items@[j])@, d) is Ok
                &&& items@.len() == 0 || importable(items@[0]@, d) is Err ==> (*final(jar))@
                    == (*jar)@
                &&& items@.len() == 1 && importable(items@[0]@, d) is Ok ==> put_text(
                    (*jar)@,
                    importable(items@[0]@, d)->Ok_0.0,
                    importable(items@[0]@, d)->Ok_0.1,
                    (*final(jar))@,
                )
            },
{
    assert forall|jar: &mut CookieJar, items: &Vec<Json>, url: Option<&str>, r: Result<u64, String>|
        #[trigger]
        call_ensures(CookieJar::import, (jar, items, url), r) implies {
        let d = borrowed_model(url);
        &&& r is Ok <==> forall|i: int|
            0 <= i < items@.len() ==> importable((#[trigger] items@[i])@, d) is Ok
        &&& r matches Ok(n) ==> n == cookie_count(items_model(items@), d, items@.len() as int)
        &&& r matches Err(e) ==> exists|i: int|
            0 <= i < items@.len() && importable((#[trigger] items@[i])@, d) is Err && importable(
                items@[i]@,
                d,
            )->Err_0 == e@ && forall|j: int|
                0 <= j < i ==> importable((#[trigger] items@[j])@, d) is Ok
        &&& items@.len() == 0 || importable(items@[0]@, d) is Err ==> (*final(jar))@ == (*jar)@
        &&& items@.len() == 1 && importable(items@[0]@, d) is Ok ==> put_text(
            (*jar)@,
            importable(items@[0]@, d)->Ok_0.0,
            importable(items@[0]@, d)->Ok_0.1,
            (*final(jar))@,
        )
    } by {
        let d = borrowed_model(url);
        let m = items_model(items@);
        let n = importable_count(m, d);
        lemma_importable_count(m, d);
        assert(m.len() == items@.len());
        assert(forall|i: int| 0 <= i < m.len() ==> #[trigger] m[i] == items@[i]@);
        assert forall|i: int| 0 <= i < n implies importable((#[trigger] items@[i])@, d) is Ok by {
            assert(importable(m[i], d) is Ok);
        }
        if n < m.len() {
            assert(m[n as int] == items@[n as int]@);
            assert(importable(items@[n as int]@, d) is Err);
        }
        let states = choose|states: Seq<Map<Slot, CookieModel>>|
            {
                &&& states.len() == n + 1
                &&& states[0] == (*jar)@
                &&& states.last() == (*final(jar))@
                &&& #[trigger] imports(states, m, d)
            };
        if items@.len() > 0 {
            assert(m[0] == items@[0]@);
        }
        if n == 1 {
            assert(import_step(states[0], m[0], d, states[1]));
        }
    }
}

/// What is exported are cookies of the jar, each once, and all that last as long
/// as the session are.
pub proof fn law_what_a_jar_exports(jar: &CookieJar, r: Vec<Json>, s: Slot, i: int)
    requires
        call_ensures(CookieJar::export, (jar,), r),
    ensures
        jar@.contains_key(s) && !jar@[s].timed ==> exists|k: int|
            0 <= k < r@.len() && (#[trigger] r@[k])@ == cookie_json(jar@[s]),
        0 <= i < r@.len() ==> exists|t: Slot| #[trigger]
            jar@.contains_key(t) && r@[i]@ == cookie_json(jar@[t]),
{
    let slots = choose|slots: Seq<Slot>|
        #![trigger slots.no_duplicates()]
        {
            &&& names_cookies(slots, jar@, |s: Slot| true)
            &&& items_model(r@) == Seq::new(slots.len(), |i: int| cookie_json(jar@[slots[i]]))
        };
    let m = items_model(r@);
    assert(m.len() == r@.len());
    assert(m.len() == slots.len());
    if jar@.contains_key(s) && !jar@[s].timed {
        assert((|s: Slot| true)(s));
        assert(slots.contains(s));
        let k = choose|k: int| 0 <= k < slots.len() && slots[k] == s;
        assert(m[k] == r@[k]@);
    }
    if 0 <= i < r@.len() {
        assert(m[i] == r@[i]@);
        assert(jar@.contains_key(slots[i]));
    }
}

/// A text sets a cookie exactly if the cookie can be read back and the text names
/// its value, its path and what else is said of it, in that order.
pub proof fn law_what_sets_a_cookie(text: Seq<char>, c: CookieModel)
    ensures
        sets(text, c) <==> {
            &&& c.name.len() > 0 && !c.name.contains('=') && !c.name.contains(';')
            &&& !c.value.contains(';') && !c.timed && c.path is Some
            &&& is_plain(c)
            &&& text == c.name + "="@ + c.value + "; Path="@ + c.path->0 + (if c.domain is Some {
                "; Domain="@ + c.domain->0
            } else {
                Seq::empty()
            }) + (if c.secure {
                "; Secure"@
            } else {
                Seq::empty()
            }) + (if c.http_only {
                "; HttpOnly"@
            } else {
                Seq::empty()
            })
        },
{
    if c.path is Some {
        let whole = c.name + "="@ + c.value + "; Path="@ + c.path->0 + (if c.domain is Some {
            "; Domain="@ + c.domain->0
        } else {
            Seq::empty()
        }) + (if c.secure {
            "; Secure"@
        } else {
            Seq::empty()
        }) + (if c.http_only {
            "; HttpOnly"@
        } else {
            Seq::empty()
        });
        assert(whole =~= cookie_text(
            c.name,
            c.value,
            c.path->0,
            c.domain,
            c.secure,
            c.http_only,
        ));
    }
}

} // verus!

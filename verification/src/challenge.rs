//! Telling a challenge of an anti-bot service from a page.
use vstd::prelude::*;
use vstd::utf8::{encode_utf8, is_ascii_chars, is_ascii_chars_encode_utf8};

use crate::json::{
    array, items_model, json_number, json_text_of, lemma_entry_at, lemma_items_push, no_entries, object, put, Json,
    JsonModel, Number, NumberModel,
};
use crate::text::{
    ascii_lowercase, ascii_uppercase, chars_of, concat3, contains_chars, contains_text, decimal,
    occurs_at, to_decimal, unicode_lowercase, words_model,
};

verus! {

/// The anti-bot services, in the order in which they are looked for: the name,
/// how sure its signs make one in percent and as a decimal fraction, and the
/// cookie that lets a client pass, which is empty where there is none.
pub const VENDORS: [(&'static str, u64, &'static str, &'static str); 12] = [
    ("arkose_labs", 98, "0.98", ""),
    ("cloudflare_turnstile", 97, "0.97", "cf_clearance"),
    ("aws_waf", 96, "0.96", "aws-waf-token"),
    ("recaptcha", 95, "0.95", ""),
    ("perimeterx_block", 94, "0.94", "_px3"),
    ("datadome", 93, "0.93", "datadome"),
    ("press_hold", 92, "0.92", ""),
    ("yahoo_sad_panda", 90, "0.9", ""),
    ("akamai_bmp", 88, "0.88", "_abck"),
    ("imperva", 85, "0.85", "incap_ses_*"),
    ("interstitial", 99, "0.99", ""),
    ("generic_human_verification", 76, "0.76", ""),
];

/// What the pages of services hold, in lowercase, each with the number of the
/// service.
pub const SIGNS: [(usize, &'static str); 58] = [
    (0, "arkoselabs"),
    (0, "funcaptcha"),
    (1, "just a moment"),
    (1, "checking your browser"),
    (1, "verifying you are human"),
    (1, "needs to review the security of your connection"),
    (1, "performance & security by cloudflare"),
    (1, "cf-challenge"),
    (1, "cf_challenge"),
    (1, "turnstile"),
    (1, "__cf_chl_"),
    (1, "cf-mitigated"),
    (2, "awswafcookiedomainlist"),
    (2, "gokuprops"),
    (2, "aws-waf-token"),
    (2, "/awswaf/"),
    (2, "challenge.js"),
    (3, "g-recaptcha"),
    (3, "google recaptcha"),
    (3, "recaptcha/api2"),
    (3, "i'm not a robot"),
    (3, "im not a robot"),
    (4, "px-captcha"),
    (4, "_pxappid"),
    (4, "/_px"),
    (4, "robot or human"),
    (4, "/blocked?url="),
    (5, "datadome"),
    (5, "captcha-delivery"),
    (6, "press & hold"),
    (6, "press and hold"),
    (6, "press&hold"),
    (6, "hold to confirm"),
    (7, "sad-panda"),
    (7, "sorry, the page you requested cannot be found"),
    (7, "yahoo.*nytransit"),
    (8, "_abck="),
    (8, "bm_sz="),
    (8, "akamai bot manager"),
    (9, "_incapsula"),
    (9, "incident_id"),
    (10, "pardon our interruption"),
    (10, "are you a robot"),
    (10, "are you a human"),
    (10, "automated access has been blocked"),
    (10, "your browser has been flagged"),
    (10, "as you were browsing"),
    (11, "verify you are human"),
    (11, "verify that you are human"),
    (11, "verify that you're human"),
    (11, "please wait for verification"),
    (11, "please wait while we verify"),
    (11, "unusual traffic"),
    (11, "access to this page has been denied"),
    (11, "access denied"),
    (11, "automated requests"),
    (11, "sorry, you have been blocked"),
    (11, "you are being rate limited"),
];

/// The signs of a service from the number `i` on that a text holds.
pub open spec fn signs_from(lower: Seq<char>, vendor: int, i: int) -> Seq<Seq<char>>
    decreases SIGNS.len() - i,
{
    if i < 0 || i >= SIGNS.len() {
        Seq::empty()
    } else if SIGNS[i].0 == vendor && contains_text(lower, SIGNS[i].1@) {
        seq![SIGNS[i].1@] + signs_from(lower, vendor, i + 1)
    } else {
        signs_from(lower, vendor, i + 1)
    }
}

/// The signs of a service that a text holds.
pub open spec fn signs_of(lower: Seq<char>, vendor: int) -> Seq<Seq<char>> {
    signs_from(lower, vendor, 0)
}

/// Of the first `n` services with a sign in a text, the one whose signs make
/// the surest; the first of those that are equally sure.
pub open spec fn surest(lower: Seq<char>, n: int) -> Option<int>
    decreases n,
{
    if n <= 0 {
        None
    } else {
        let before = surest(lower, n - 1);
        if signs_of(lower, n - 1).len() > 0 && (before matches Some(b) ==> VENDORS[n - 1].1
            > VENDORS[b].1) {
            Some(n - 1)
        } else {
            before
        }
    }
}

/// Whether a status is one that no page has, but a soft block may.
pub open spec fn is_anomalous(status: u16) -> bool {
    &&& status != 404
    &&& status != 410
    &&& status >= 400 || status == 202
}

/// Texts as a value.
pub open spec fn texts_json(texts: Seq<Seq<char>>) -> JsonModel {
    JsonModel::Array(Seq::new(texts.len(), |i: int| JsonModel::Text(texts[i])))
}

/// A challenge in JSON.
pub open spec fn challenge_json(
    provider: Seq<char>,
    confidence: Seq<char>,
    status: u16,
    matched: Seq<Seq<char>>,
    cookie: Seq<char>,
    reason: Seq<char>,
    hint: Seq<char>,
) -> JsonModel {
    JsonModel::Object(
        seq![
            ("blocked"@, JsonModel::Bool(true)),
            ("provider"@, JsonModel::Text(provider)),
            ("confidence"@, JsonModel::Number(NumberModel::Float(confidence))),
            ("status"@, JsonModel::Number(NumberModel::Unsigned(status as u64))),
            ("matched"@, texts_json(matched)),
            (
                "clearance_cookie"@,
                if cookie.len() == 0 {
                    JsonModel::Null
                } else {
                    JsonModel::Text(cookie)
                },
            ),
            ("reason"@, JsonModel::Text(reason)),
            ("hint"@, JsonModel::Text(hint)),
        ],
    )
}

/// What to do about the challenge of a known service.
pub const SOLVE_HINT: &'static str = "Solve once in real Chrome (or via unchainedsky CLI), copy the clearance cookie via DevTools, paste with cookies_set, then retry navigate. Cookie typically lasts 30 min – 24 h.";

/// What to do about a block by an unknown service.
pub const INSPECT_HINT: &'static str = "Inspect `body` to identify the vendor, escalate to real Chrome to confirm the page renders, or skip this URL.";

/// The challenge that a response is; nothing where it is a page. `size` is how
/// many bytes the body has, `lower` the body in lowercase.
pub open spec fn challenge_of(status: u16, size: nat, lower: Seq<char>) -> Option<JsonModel> {
    if 200 <= status < 300 && size > 80_000 {
        None
    } else {
        match surest(lower, VENDORS.len() as int) {
            Some(v) => Some(
                challenge_json(
                    VENDORS[v].0@,
                    VENDORS[v].2@,
                    status,
                    signs_of(lower, v),
                    VENDORS[v].3@,
                    "Matched "@ + VENDORS[v].0@ + " challenge signatures."@,
                    SOLVE_HINT@,
                ),
            ),
            None => if is_anomalous(status) && size < 5000 {
                Some(
                    challenge_json(
                        "unknown_block"@,
                        "0.55"@,
                        status,
                        Seq::empty(),
                        Seq::empty(),
                        "Tiny body ("@ + decimal(size) + " bytes) on anomalous status "@ + decimal(
                            status as nat,
                        ) + " with no known vendor signature — likely a soft block."@,
                        INSPECT_HINT@,
                    ),
                )
            } else {
                None
            },
        }
    }
}

/// The signs of a service that a text holds.
fn find_signs(lower: &Vec<char>, vendor: usize) -> (r: Vec<&'static str>)
    ensures
        words_model(r@) == signs_of(lower@, vendor as int),
{
    let mut out: Vec<&'static str> = Vec::new();
    let ghost all = signs_of(lower@, vendor as int);
    let mut i: usize = 0;
    assert(words_model(out@) + all =~= all);
    while i < SIGNS.len()
        invariant
            i <= SIGNS.len(),
            all == signs_of(lower@, vendor as int),
            words_model(out@) + signs_from(lower@, vendor as int, i as int) == all,
        decreases SIGNS.len() - i,
    {
        let ghost before = words_model(out@);
        if SIGNS[i].0 == vendor && contains_chars(lower, &chars_of(SIGNS[i].1)) {
            out.push(SIGNS[i].1);
            proof {
                let rest = signs_from(lower@, vendor as int, i + 1);
                assert(words_model(out@) =~= before.push(SIGNS[i as int].1@));
                assert(words_model(out@) + rest =~= before + (seq![SIGNS[i as int].1@] + rest));
            }
        }
        i = i + 1;
    }
    assert(words_model(out@) + Seq::<Seq<char>>::empty() =~= words_model(out@));
    out
}

/// Of the services with a sign in a text, the one whose signs make the surest.
fn find_surest(lower: &Vec<char>) -> (r: Option<(usize, Vec<&'static str>)>)
    ensures
        match r {
            Some((v, signs)) => v < VENDORS.len() && surest(lower@, VENDORS.len() as int) == Some(
                v as int,
            ) && words_model(signs@) == signs_of(lower@, v as int),
            None => surest(lower@, VENDORS.len() as int) is None,
        },
{
    let mut best: Option<(usize, Vec<&'static str>)> = None;
    let mut n: usize = 0;
    while n < VENDORS.len()
        invariant
            n <= VENDORS.len(),
            match best {
                Some((v, signs)) => v < n && surest(lower@, n as int) == Some(v as int)
                    && words_model(signs@) == signs_of(lower@, v as int),
                None => surest(lower@, n as int) is None,
            },
        decreases VENDORS.len() - n,
    {
        let signs = find_signs(lower, n);
        assert(signs@.len() == signs_of(lower@, n as int).len());
        let better = match &best {
            Some((v, _)) => VENDORS[n].1 > VENDORS[*v].1,
            None => true,
        };
        if signs.len() > 0 && better {
            best = Some((n, signs));
        }
        n = n + 1;
    }
    best
}

/// Texts as a value.
fn build_texts(words: &Vec<&'static str>) -> (r: Json)
    ensures
        r@ == texts_json(words_model(words@)),
{
    let ghost all = texts_json(words_model(words@))->Array_0;
    let mut out: Vec<Json> = Vec::new();
    let mut i: usize = 0;
    while i < words.len()
        invariant
            i <= words.len(),
            all == texts_json(words_model(words@))->Array_0,
            items_model(out@) =~= all.take(i as int),
        decreases words.len() - i,
    {
        broadcast use lemma_items_push;

        out.push(json_text_of(words[i]));
        assert(all.take(i + 1) =~= all.take(i as int).push(all[i as int]));
        i = i + 1;
    }
    assert(all.take(i as int) =~= all);
    array(out)
}

/// A challenge in JSON.
fn build_challenge(
    provider: &str,
    confidence: &str,
    status: u16,
    matched: &Vec<&'static str>,
    cookie: &str,
    reason: String,
    hint: &str,
) -> (r: Json)
    ensures
        r@ == challenge_json(
            provider@,
            confidence@,
            status,
            words_model(matched@),
            cookie@,
            reason@,
            hint@,
        ),
{
    let mut e = no_entries();
    put(&mut e, "blocked", Json::Bool(true));
    put(&mut e, "provider", json_text_of(provider));
    put(&mut e, "confidence", Json::Number(Number::Float(confidence.to_owned())));
    put(&mut e, "status", json_number(status as u64));
    put(&mut e, "matched", build_texts(matched));
    put(
        &mut e,
        "clearance_cookie",
        if cookie.unicode_len() == 0 {
            Json::Null
        } else {
            json_text_of(cookie)
        },
    );
    put(&mut e, "reason", json_text_of(reason.as_str()));
    put(&mut e, "hint", json_text_of(hint));
    let r = object(e);
    assert(r@->Object_0 =~= challenge_json(
        provider@,
        confidence@,
        status,
        words_model(matched@),
        cookie@,
        reason@,
        hint@,
    )->Object_0);
    r
}

/// The challenge that a response is, by the size of its body and the body in
/// lowercase.
pub fn detect_in(status: u16, size: usize, lower: &str) -> (r: Option<Json>)
    ensures
        match r {
            Some(j) => challenge_of(status, size as nat, lower@) == Some(j@),
            None => challenge_of(status, size as nat, lower@) is None,
        },
{
    if 200 <= status && status < 300 && size > 80_000 {
        return None;
    }
    let cs = chars_of(lower);
    match find_surest(&cs) {
        Some((v, signs)) => Some(
            build_challenge(
                VENDORS[v].0,
                VENDORS[v].2,
                status,
                &signs,
                VENDORS[v].3,
                concat3("Matched ", VENDORS[v].0, " challenge signatures."),
                SOLVE_HINT,
            ),
        ),
        None => {
            if status != 404 && status != 410 && (status >= 400 || status == 202) && size < 5000 {
                let mut reason = "Tiny body (".to_owned();
                reason.append(to_decimal(size as u64).as_str());
                reason.append(" bytes) on anomalous status ");
                reason.append(to_decimal(status as u64).as_str());
                reason.append(" with no known vendor signature — likely a soft block.");
                let none: Vec<&'static str> = Vec::new();
                assert(words_model(none@) =~= Seq::empty());
                proof {
                    reveal_strlit("");
                    assert(""@ =~= Seq::empty());
                }
                Some(
                    build_challenge("unknown_block", "0.55", status, &none, "", reason, INSPECT_HINT),
                )
            } else {
                None
            }
        },
    }
}

/// The challenge that a response is; nothing where it is a page.
pub fn detect_challenge(status: u16, body: &str) -> (r: Option<Json>)
    ensures
        match r {
            Some(j) => challenge_of(status, encode_utf8(body@).len(), unicode_lowercase(body@))
                == Some(j@),
            None => challenge_of(
                status,
                encode_utf8(body@).len(),
                unicode_lowercase(body@),
            ) is None,
        },
        is_ascii_chars(body@) ==> unicode_lowercase(body@) == ascii_lowercase(body@),
{
    let size: usize = body.as_bytes().len();
    detect_in(status, size, body.to_lowercase().as_str())
}

// ---------------------------------------------------------------------
// What holds of every response
// ---------------------------------------------------------------------

/// Long successful responses are pages, whatever they hold.
pub proof fn law_long_pages_pass(status: u16, size: nat, lower: Seq<char>)
    requires
        200 <= status < 300,
        size > 80_000,
    ensures
        challenge_of(status, size, lower) is None,
{
}

/// The service that is named is one with a sign in the body, and no service
/// with a sign in it makes surer.
pub proof fn law_surest_is_named(lower: Seq<char>, n: int)
    requires
        0 <= n <= VENDORS.len(),
    ensures
        match surest(lower, n) {
            Some(v) => {
                &&& 0 <= v < n
                &&& signs_of(lower, v).len() > 0
                &&& forall|w: int|
                    0 <= w < n && #[trigger] signs_of(lower, w).len() > 0 ==> VENDORS[w].1
                        <= VENDORS[v].1
            },
            None => forall|w: int| 0 <= w < n ==> #[trigger] signs_of(lower, w).len() == 0,
        },
    decreases n,
{
    if n > 0 {
        law_surest_is_named(lower, n - 1);
    }
}

/// Whether a text holds every sign that another one holds.
pub open spec fn has_signs_of(other: Seq<char>, lower: Seq<char>) -> bool {
    forall|i: int|
        0 <= i < SIGNS.len() && contains_text(lower, (#[trigger] SIGNS[i]).1@) ==> contains_text(
            other,
            SIGNS[i].1@,
        )
}

/// More text holds every sign that a part of it holds.
proof fn lemma_more_text_has_signs(lower: Seq<char>, more: Seq<char>)
    ensures
        has_signs_of(lower + more, lower),
{
    assert forall|i: int|
        0 <= i < SIGNS.len() && contains_text(lower, (#[trigger] SIGNS[i]).1@) implies contains_text(
        lower + more,
        SIGNS[i].1@,
    ) by {
        let k = choose|k: int| occurs_at(lower, SIGNS[i].1@, k);
        assert(occurs_at(lower, SIGNS[i].1@, k));
        assert((lower + more).subrange(k, k + SIGNS[i].1@.len()) =~= lower.subrange(
            k,
            k + SIGNS[i].1@.len(),
        ));
        assert(occurs_at(lower + more, SIGNS[i].1@, k));
    }
}

/// A text with all signs of another has no fewer of any service.
proof fn lemma_more_signs(lower: Seq<char>, other: Seq<char>, vendor: int, i: int)
    requires
        has_signs_of(other, lower),
    ensures
        signs_from(lower, vendor, i).len() <= signs_from(other, vendor, i).len(),
        has_signs_of(lower, other) ==> signs_from(lower, vendor, i) == signs_from(other, vendor, i),
    decreases SIGNS.len() - i,
{
    if 0 <= i < SIGNS.len() {
        lemma_more_signs(lower, other, vendor, i + 1);
        assert(contains_text(lower, SIGNS[i].1@) ==> contains_text(other, SIGNS[i].1@));
        assert(has_signs_of(lower, other) && contains_text(other, SIGNS[i].1@) ==> contains_text(
            lower,
            SIGNS[i].1@,
        ));
    }
}

/// Two texts with the same signs name the same service.
proof fn lemma_same_surest(lower: Seq<char>, other: Seq<char>, n: int)
    requires
        has_signs_of(other, lower),
        has_signs_of(lower, other),
    ensures
        surest(lower, n) == surest(other, n),
    decreases n,
{
    if n > 0 {
        lemma_same_surest(lower, other, n - 1);
        lemma_more_signs(lower, other, n - 1, 0);
    }
}

/// Of the text of a response nothing counts but the signs that it holds in
/// lowercase, and its size.
pub proof fn law_only_signs_count(status: u16, size: nat, lower: Seq<char>, other: Seq<char>)
    requires
        has_signs_of(other, lower),
        has_signs_of(lower, other),
    ensures
        challenge_of(status, size, lower) == challenge_of(status, size, other),
{
    let n = VENDORS.len() as int;
    lemma_same_surest(lower, other, n);
    if let Some(v) = surest(lower, n) {
        lemma_more_signs(lower, other, v, 0);
    }
}

/// A text with all signs of a challenge of a known service is the challenge of
/// a known service too, and one that its signs make at least as sure of, unless
/// the response is a long page.
pub proof fn law_more_signs_make_no_less_sure(
    status: u16,
    size: nat,
    lower: Seq<char>,
    other: Seq<char>,
)
    requires
        surest(lower, VENDORS.len() as int) is Some,
        has_signs_of(other, lower),
        !(200 <= status < 300 && size > 80_000),
    ensures
        surest(other, VENDORS.len() as int) matches Some(v) && {
            &&& 0 <= v < VENDORS.len()
            &&& VENDORS[v].1 >= VENDORS[surest(lower, VENDORS.len() as int)->0].1
            &&& challenge_of(status, size, other) == Some(
                challenge_json(
                    VENDORS[v].0@,
                    VENDORS[v].2@,
                    status,
                    signs_of(other, v),
                    VENDORS[v].3@,
                    "Matched "@ + VENDORS[v].0@ + " challenge signatures."@,
                    SOLVE_HINT@,
                ),
            )
        },
{
    let n = VENDORS.len() as int;
    law_surest_is_named(lower, n);
    law_surest_is_named(other, n);
    let v = surest(lower, n)->0;
    lemma_more_signs(lower, other, v, 0);
    assert(signs_of(other, v).len() > 0);
}

/// More text behind the challenge of a known service is the challenge of a
/// known service too, and one that its signs make at least as sure of, unless
/// it makes the response a long page.
pub proof fn law_more_text_makes_no_less_sure(
    status: u16,
    size: nat,
    lower: Seq<char>,
    more: Seq<char>,
)
    requires
        surest(lower, VENDORS.len() as int) is Some,
        !(200 <= status < 300 && size > 80_000),
    ensures
        surest(lower + more, VENDORS.len() as int) matches Some(v) && {
            &&& 0 <= v < VENDORS.len()
            &&& VENDORS[v].1 >= VENDORS[surest(lower, VENDORS.len() as int)->0].1
            &&& challenge_of(status, size, lower + more) == Some(
                challenge_json(
                    VENDORS[v].0@,
                    VENDORS[v].2@,
                    status,
                    signs_of(lower + more, v),
                    VENDORS[v].3@,
                    "Matched "@ + VENDORS[v].0@ + " challenge signatures."@,
                    SOLVE_HINT@,
                ),
            )
        },
{
    lemma_more_text_has_signs(lower, more);
    law_more_signs_make_no_less_sure(status, size, lower, lower + more);
}

/// Behind ASCII text, more ASCII text in lowercase is lowercase text with more
/// behind it.
pub proof fn law_more_text_in_lowercase(text: Seq<char>, more: Seq<char>)
    ensures
        ascii_lowercase(text + more) == ascii_lowercase(text) + ascii_lowercase(more),
{
    assert(ascii_lowercase(text + more) =~= ascii_lowercase(text) + ascii_lowercase(more));
}

/// An ASCII text is the same challenge in capitals: the case of letters does
/// not count.
pub proof fn law_case_is_ignored(status: u16, body: Seq<char>)
    requires
        is_ascii_chars(body),
    ensures
        is_ascii_chars(ascii_uppercase(body)),
        challenge_of(
            status,
            encode_utf8(ascii_uppercase(body)).len(),
            ascii_lowercase(ascii_uppercase(body)),
        ) == challenge_of(status, encode_utf8(body).len(), ascii_lowercase(body)),
{
    let upper = ascii_uppercase(body);
    assert forall|i: int| 0 <= i < upper.len() implies (#[trigger] upper[i] as u32) < 0x80 by {
        assert((body[i] as u32) < 0x80);
    }
    assert(ascii_lowercase(upper) =~= ascii_lowercase(body)) by {
        assert forall|i: int| 0 <= i < body.len() implies ascii_lowercase(upper)[i]
            == ascii_lowercase(body)[i] by {
            assert((body[i] as u32) < 0x80);
        }
    }
    is_ascii_chars_encode_utf8(upper);
    is_ascii_chars_encode_utf8(body);
}

/// A response without a sign of any service, whose status is that of a page,
/// is a page.
pub proof fn law_clean_pages_pass(status: u16, size: nat, lower: Seq<char>)
    requires
        forall|v: int| 0 <= v < VENDORS.len() ==> #[trigger] signs_of(lower, v).len() == 0,
        !is_anomalous(status),
    ensures
        challenge_of(status, size, lower) is None,
{
    law_surest_is_named(lower, VENDORS.len() as int);
    if let Some(v) = surest(lower, VENDORS.len() as int) {
        assert(signs_of(lower, v).len() == 0);
    }
}

/// The services, with how sure their signs make and the cookie that lets a
/// client pass.
pub proof fn law_services()
    ensures
        VENDORS[0].0@ == "arkose_labs"@ && VENDORS[0].1 == 98 && VENDORS[0].2@ == "0.98"@ && VENDORS[0].3@ == ""@,
        VENDORS[1].0@ == "cloudflare_turnstile"@ && VENDORS[1].1 == 97 && VENDORS[1].2@ == "0.97"@ && VENDORS[1].3@ == "cf_clearance"@,
        VENDORS[2].0@ == "aws_waf"@ && VENDORS[2].1 == 96 && VENDORS[2].2@ == "0.96"@ && VENDORS[2].3@ == "aws-waf-token"@,
        VENDORS[3].0@ == "recaptcha"@ && VENDORS[3].1 == 95 && VENDORS[3].2@ == "0.95"@ && VENDORS[3].3@ == ""@,
        VENDORS[4].0@ == "perimeterx_block"@ && VENDORS[4].1 == 94 && VENDORS[4].2@ == "0.94"@ && VENDORS[4].3@ == "_px3"@,
        VENDORS[5].0@ == "datadome"@ && VENDORS[5].1 == 93 && VENDORS[5].2@ == "0.93"@ && VENDORS[5].3@ == "datadome"@,
        VENDORS[6].0@ == "press_hold"@ && VENDORS[6].1 == 92 && VENDORS[6].2@ == "0.92"@ && VENDORS[6].3@ == ""@,
        VENDORS[7].0@ == "yahoo_sad_panda"@ && VENDORS[7].1 == 90 && VENDORS[7].2@ == "0.9"@ && VENDORS[7].3@ == ""@,
        VENDORS[8].0@ == "akamai_bmp"@ && VENDORS[8].1 == 88 && VENDORS[8].2@ == "0.88"@ && VENDORS[8].3@ == "_abck"@,
        VENDORS[9].0@ == "imperva"@ && VENDORS[9].1 == 85 && VENDORS[9].2@ == "0.85"@ && VENDORS[9].3@ == "incap_ses_*"@,
        VENDORS[10].0@ == "interstitial"@ && VENDORS[10].1 == 99 && VENDORS[10].2@ == "0.99"@ && VENDORS[10].3@ == ""@,
        VENDORS[11].0@ == "generic_human_verification"@ && VENDORS[11].1 == 76 && VENDORS[11].2@ == "0.76"@ && VENDORS[11].3@ == ""@,
{
}

/// What tells each service: it has a sign in a text exactly if the text holds
/// one of these.
pub proof fn law_what_tells_each_service(lower: Seq<char>)
    ensures
        signs_of(lower, 0).len() > 0 <==> {
            ||| contains_text(lower, "arkoselabs"@)
            ||| contains_text(lower, "funcaptcha"@)
        },
        signs_of(lower, 1).len() > 0 <==> {
            ||| contains_text(lower, "just a moment"@)
            ||| contains_text(lower, "checking your browser"@)
            ||| contains_text(lower, "verifying you are human"@)
            ||| contains_text(lower, "needs to review the security of your connection"@)
            ||| contains_text(lower, "performance & security by cloudflare"@)
            ||| contains_text(lower, "cf-challenge"@)
            ||| contains_text(lower, "cf_challenge"@)
            ||| contains_text(lower, "turnstile"@)
            ||| contains_text(lower, "__cf_chl_"@)
            ||| contains_text(lower, "cf-mitigated"@)
        },
        signs_of(lower, 2).len() > 0 <==> {
            ||| contains_text(lower, "awswafcookiedomainlist"@)
            ||| contains_text(lower, "gokuprops"@)
            ||| contains_text(lower, "aws-waf-token"@)
            ||| contains_text(lower, "/awswaf/"@)
            ||| contains_text(lower, "challenge.js"@)
        },
        signs_of(lower, 3).len() > 0 <==> {
            ||| contains_text(lower, "g-recaptcha"@)
            ||| contains_text(lower, "google recaptcha"@)
            ||| contains_text(lower, "recaptcha/api2"@)
            ||| contains_text(lower, "i'm not a robot"@)
            ||| contains_text(lower, "im not a robot"@)
        },
        signs_of(lower, 4).len() > 0 <==> {
            ||| contains_text(lower, "px-captcha"@)
            ||| contains_text(lower, "_pxappid"@)
            ||| contains_text(lower, "/_px"@)
            ||| contains_text(lower, "robot or human"@)
            ||| contains_text(lower, "/blocked?url="@)
        },
        signs_of(lower, 5).len() > 0 <==> {
            ||| contains_text(lower, "datadome"@)
            ||| contains_text(lower, "captcha-delivery"@)
        },
        signs_of(lower, 6).len() > 0 <==> {
            ||| contains_text(lower, "press & hold"@)
            ||| contains_text(lower, "press and hold"@)
            ||| contains_text(lower, "press&hold"@)
            ||| contains_text(lower, "hold to confirm"@)
        },
        signs_of(lower, 7).len() > 0 <==> {
            ||| contains_text(lower, "sad-panda"@)
            ||| contains_text(lower, "sorry, the page you requested cannot be found"@)
            ||| contains_text(lower, "yahoo.*nytransit"@)
        },
        signs_of(lower, 8).len() > 0 <==> {
            ||| contains_text(lower, "_abck="@)
            ||| contains_text(lower, "bm_sz="@)
            ||| contains_text(lower, "akamai bot manager"@)
        },
        signs_of(lower, 9).len() > 0 <==> {
            ||| contains_text(lower, "_incapsula"@)
            ||| contains_text(lower, "incident_id"@)
        },
        signs_of(lower, 10).len() > 0 <==> {
            ||| contains_text(lower, "pardon our interruption"@)
            ||| contains_text(lower, "are you a robot"@)
            ||| contains_text(lower, "are you a human"@)
            ||| contains_text(lower, "automated access has been blocked"@)
            ||| contains_text(lower, "your browser has been flagged"@)
            ||| contains_text(lower, "as you were browsing"@)
        },
        signs_of(lower, 11).len() > 0 <==> {
            ||| contains_text(lower, "verify you are human"@)
            ||| contains_text(lower, "verify that you are human"@)
            ||| contains_text(lower, "verify that you're human"@)
            ||| contains_text(lower, "please wait for verification"@)
            ||| contains_text(lower, "please wait while we verify"@)
            ||| contains_text(lower, "unusual traffic"@)
            ||| contains_text(lower, "access to this page has been denied"@)
            ||| contains_text(lower, "access denied"@)
            ||| contains_text(lower, "automated requests"@)
            ||| contains_text(lower, "sorry, you have been blocked"@)
            ||| contains_text(lower, "you are being rate limited"@)
        },
{
    lemma_signs_0(lower);
    lemma_signs_1(lower);
    lemma_signs_2(lower);
    lemma_signs_3(lower);
    lemma_signs_4(lower);
    lemma_signs_5(lower);
    lemma_signs_6(lower);
    lemma_signs_7(lower);
    lemma_signs_8(lower);
    lemma_signs_9(lower);
    lemma_signs_10(lower);
    lemma_signs_11(lower);
}

proof fn lemma_signs_0(lower: Seq<char>)
    ensures
        signs_of(lower, 0).len() > 0 <==> {
            ||| contains_text(lower, "arkoselabs"@)
            ||| contains_text(lower, "funcaptcha"@)
        },
{
    reveal_with_fuel(signs_from, 59);
}

proof fn lemma_signs_1(lower: Seq<char>)
    ensures
        signs_of(lower, 1).len() > 0 <==> {
            ||| contains_text(lower, "just a moment"@)
            ||| contains_text(lower, "checking your browser"@)
            ||| contains_text(lower, "verifying you are human"@)
            ||| contains_text(lower, "needs to review the security of your connection"@)
            ||| contains_text(lower, "performance & security by cloudflare"@)
            ||| contains_text(lower, "cf-challenge"@)
            ||| contains_text(lower, "cf_challenge"@)
            ||| contains_text(lower, "turnstile"@)
            ||| contains_text(lower, "__cf_chl_"@)
            ||| contains_text(lower, "cf-mitigated"@)
        },
{
    reveal_with_fuel(signs_from, 59);
}

proof fn lemma_signs_2(lower: Seq<char>)
    ensures
        signs_of(lower, 2).len() > 0 <==> {
            ||| contains_text(lower, "awswafcookiedomainlist"@)
            ||| contains_text(lower, "gokuprops"@)
            ||| contains_text(lower, "aws-waf-token"@)
            ||| contains_text(lower, "/awswaf/"@)
            ||| contains_text(lower, "challenge.js"@)
        },
{
    reveal_with_fuel(signs_from, 59);
}

proof fn lemma_signs_3(lower: Seq<char>)
    ensures
        signs_of(lower, 3).len() > 0 <==> {
            ||| contains_text(lower, "g-recaptcha"@)
            ||| contains_text(lower, "google recaptcha"@)
            ||| contains_text(lower, "recaptcha/api2"@)
            ||| contains_text(lower, "i'm not a robot"@)
            ||| contains_text(lower, "im not a robot"@)
        },
{
    reveal_with_fuel(signs_from, 59);
}

proof fn lemma_signs_4(lower: Seq<char>)
    ensures
        signs_of(lower, 4).len() > 0 <==> {
            ||| contains_text(lower, "px-captcha"@)
            ||| contains_text(lower, "_pxappid"@)
            ||| contains_text(lower, "/_px"@)
            ||| contains_text(lower, "robot or human"@)
            ||| contains_text(lower, "/blocked?url="@)
        },
{
    reveal_with_fuel(signs_from, 59);
}

proof fn lemma_signs_5(lower: Seq<char>)
    ensures
        signs_of(lower, 5).len() > 0 <==> {
            ||| contains_text(lower, "datadome"@)
            ||| contains_text(lower, "captcha-delivery"@)
        },
{
    reveal_with_fuel(signs_from, 59);
}

proof fn lemma_signs_6(lower: Seq<char>)
    ensures
        signs_of(lower, 6).len() > 0 <==> {
            ||| contains_text(lower, "press & hold"@)
            ||| contains_text(lower, "press and hold"@)
            ||| contains_text(lower, "press&hold"@)
            ||| contains_text(lower, "hold to confirm"@)
        },
{
    reveal_with_fuel(signs_from, 59);
}

proof fn lemma_signs_7(lower: Seq<char>)
    ensures
        signs_of(lower, 7).len() > 0 <==> {
            ||| contains_text(lower, "sad-panda"@)
            ||| contains_text(lower, "sorry, the page you requested cannot be found"@)
            ||| contains_text(lower, "yahoo.*nytransit"@)
        },
{
    reveal_with_fuel(signs_from, 59);
}

proof fn lemma_signs_8(lower: Seq<char>)
    ensures
        signs_of(lower, 8).len() > 0 <==> {
            ||| contains_text(lower, "_abck="@)
            ||| contains_text(lower, "bm_sz="@)
            ||| contains_text(lower, "akamai bot manager"@)
        },
{
    reveal_with_fuel(signs_from, 59);
}

proof fn lemma_signs_9(lower: Seq<char>)
    ensures
        signs_of(lower, 9).len() > 0 <==> {
            ||| contains_text(lower, "_incapsula"@)
            ||| contains_text(lower, "incident_id"@)
        },
{
    reveal_with_fuel(signs_from, 59);
}

proof fn lemma_signs_10(lower: Seq<char>)
    ensures
        signs_of(lower, 10).len() > 0 <==> {
            ||| contains_text(lower, "pardon our interruption"@)
            ||| contains_text(lower, "are you a robot"@)
            ||| contains_text(lower, "are you a human"@)
            ||| contains_text(lower, "automated access has been blocked"@)
            ||| contains_text(lower, "your browser has been flagged"@)
            ||| contains_text(lower, "as you were browsing"@)
        },
{
    reveal_with_fuel(signs_from, 59);
}

proof fn lemma_signs_11(lower: Seq<char>)
    ensures
        signs_of(lower, 11).len() > 0 <==> {
            ||| contains_text(lower, "verify you are human"@)
            ||| contains_text(lower, "verify that you are human"@)
            ||| contains_text(lower, "verify that you're human"@)
            ||| contains_text(lower, "please wait for verification"@)
            ||| contains_text(lower, "please wait while we verify"@)
            ||| contains_text(lower, "unusual traffic"@)
            ||| contains_text(lower, "access to this page has been denied"@)
            ||| contains_text(lower, "access denied"@)
            ||| contains_text(lower, "automated requests"@)
            ||| contains_text(lower, "sorry, you have been blocked"@)
            ||| contains_text(lower, "you are being rate limited"@)
        },
{
    reveal_with_fuel(signs_from, 59);
}

/// The signs that are named are those of the service that the text holds, and
/// all of them.
pub proof fn law_signs_that_are_named(lower: Seq<char>, vendor: int, i: int, sign: Seq<char>)
    requires
        0 <= i <= SIGNS.len(),
    ensures
        signs_from(lower, vendor, i).contains(sign) <==> exists|k: int|
            i <= k < SIGNS.len() && (#[trigger] SIGNS[k]).0 == vendor && SIGNS[k].1@ == sign
                && contains_text(lower, sign),
    decreases SIGNS.len() - i,
{
    if i < SIGNS.len() {
        law_signs_that_are_named(lower, vendor, i + 1, sign);
        let rest = signs_from(lower, vendor, i + 1);
        let head = seq![SIGNS[i].1@];
        if SIGNS[i].0 == vendor && contains_text(lower, SIGNS[i].1@) {
            let all = head + rest;
            assert(signs_from(lower, vendor, i) == all);
            assert(all[0] == SIGNS[i].1@);
            if rest.contains(sign) {
                let m = choose|m: int| 0 <= m < rest.len() && rest[m] == sign;
                assert(all[m + 1] == sign);
            }
            if all.contains(sign) && sign != SIGNS[i].1@ {
                let m = choose|m: int| 0 <= m < all.len() && all[m] == sign;
                assert(rest[m - 1] == sign);
            }
        }
        if exists|k: int|
            i <= k < SIGNS.len() && (#[trigger] SIGNS[k]).0 == vendor && SIGNS[k].1@ == sign
                && contains_text(lower, sign) {
            let k = choose|k: int|
                i <= k < SIGNS.len() && (#[trigger] SIGNS[k]).0 == vendor && SIGNS[k].1@ == sign
                    && contains_text(lower, sign);
            assert(k == i || i + 1 <= k);
        }
    }
}

/// The challenge of a known service names the service, how sure that is, the
/// signs that were found, and the cookie that lets a client pass wherever the
/// service has one.
pub proof fn law_challenge_of_a_known_service(
    status: u16,
    size: nat,
    lower: Seq<char>,
    v: int,
    c: JsonModel,
)
    requires
        surest(lower, VENDORS.len() as int) == Some(v),
        challenge_of(status, size, lower) == Some(c),
    ensures
        c.bool_at("blocked"@) == Some(true),
        c.text_at("provider"@) == Some(VENDORS[v].0@),
        c.get("confidence"@) == Some(JsonModel::Number(NumberModel::Float(VENDORS[v].2@))),
        c.u64_at("status"@) == Some(status as u64),
        c.get("matched"@) == Some(texts_json(signs_of(lower, v))),
        c.text_at("reason"@) == Some("Matched "@ + VENDORS[v].0@ + " challenge signatures."@),
        c.text_at("hint"@) == Some(SOLVE_HINT@),
        VENDORS[v].3@.len() > 0 ==> c.text_at("clearance_cookie"@) == Some(VENDORS[v].3@),
        VENDORS[v].3@.len() == 0 ==> c.get("clearance_cookie"@) == Some(JsonModel::Null),
{
    reveal_strlit("blocked");
    reveal_strlit("provider");
    reveal_strlit("confidence");
    reveal_strlit("status");
    reveal_strlit("matched");
    reveal_strlit("clearance_cookie");
    reveal_strlit("reason");
    reveal_strlit("hint");
    assert("blocked"@.len() == 7);
    assert("provider"@.len() == 8);
    assert("confidence"@.len() == 10);
    assert("status"@.len() == 6);
    assert("matched"@.len() == 7);
    assert("clearance_cookie"@.len() == 16);
    assert("reason"@.len() == 6);
    assert("hint"@.len() == 4);
    assert("blocked"@[0] != "matched"@[0]);
    assert("status"@[0] != "reason"@[0]);
    let e = c->Object_0;
    lemma_entry_at(e, "blocked"@, 0);
    lemma_entry_at(e, "provider"@, 1);
    lemma_entry_at(e, "confidence"@, 2);
    lemma_entry_at(e, "status"@, 3);
    lemma_entry_at(e, "matched"@, 4);
    lemma_entry_at(e, "clearance_cookie"@, 5);
    lemma_entry_at(e, "reason"@, 6);
    lemma_entry_at(e, "hint"@, 7);
}

/// A short response without a sign of any service is a soft block exactly if its
/// status is one that no page has: 202, or 400 and above other than 404 and 410.
pub proof fn law_soft_block_of_an_unknown_service(status: u16, size: nat, lower: Seq<char>, c: JsonModel)
    requires
        surest(lower, VENDORS.len() as int) is None,
        challenge_of(status, size, lower) == Some(c),
    ensures
        c.bool_at("blocked"@) == Some(true),
        c.text_at("provider"@) == Some("unknown_block"@),
        c.get("confidence"@) == Some(JsonModel::Number(NumberModel::Float("0.55"@))),
        c.u64_at("status"@) == Some(status as u64),
        c.get("matched"@) == Some(JsonModel::Array(Seq::empty())),
        c.get("clearance_cookie"@) == Some(JsonModel::Null),
        c.text_at("hint"@) == Some(INSPECT_HINT@),
        size < 5000,
        status == 202 || (status >= 400 && status != 404 && status != 410),
{
    reveal_strlit("blocked");
    reveal_strlit("provider");
    reveal_strlit("confidence");
    reveal_strlit("status");
    reveal_strlit("matched");
    reveal_strlit("clearance_cookie");
    reveal_strlit("reason");
    reveal_strlit("hint");
    assert("blocked"@.len() == 7);
    assert("provider"@.len() == 8);
    assert("confidence"@.len() == 10);
    assert("status"@.len() == 6);
    assert("matched"@.len() == 7);
    assert("clearance_cookie"@.len() == 16);
    assert("reason"@.len() == 6);
    assert("hint"@.len() == 4);
    assert("blocked"@[0] != "matched"@[0]);
    assert("status"@[0] != "reason"@[0]);
    let e = c->Object_0;
    lemma_entry_at(e, "blocked"@, 0);
    lemma_entry_at(e, "provider"@, 1);
    lemma_entry_at(e, "confidence"@, 2);
    lemma_entry_at(e, "status"@, 3);
    lemma_entry_at(e, "matched"@, 4);
    lemma_entry_at(e, "clearance_cookie"@, 5);
    lemma_entry_at(e, "reason"@, 6);
    lemma_entry_at(e, "hint"@, 7);
    assert(texts_json(Seq::empty())->Array_0 =~= Seq::empty());
}

/// A response is a challenge exactly if it is no long page and either has a
/// sign of a known service or is short and has a status that no page has.
pub proof fn law_challenges_are_told(status: u16, size: usize, lower: &str, r: Option<Json>)
    requires
        call_ensures(detect_in, (status, size, lower), r),
    ensures
        r is Some <==> !(200 <= status <= 299 && size > 80_000) && ((exists|v: int|
            0 <= v < VENDORS.len() && #[trigger] signs_of(lower@, v).len() > 0) || (size < 5000 && (
        status == 202 || (status >= 400 && status != 404 && status != 410)))),
        r matches Some(j) ==> challenge_of(status, size as nat, lower@) == Some(j@),
{
    law_surest_is_named(lower@, VENDORS.len() as int);
}

/// A response is told by its size in bytes and by its text in lowercase, and by
/// nothing else of its body.
pub proof fn law_body_counts_in_lowercase(
    status: u16,
    body: &str,
    size: usize,
    lower: &str,
    whole: Option<Json>,
    parts: Option<Json>,
)
    requires
        call_ensures(detect_challenge, (status, body), whole),
        call_ensures(detect_in, (status, size, lower), parts),
        size == encode_utf8(body@).len(),
        lower@ == unicode_lowercase(body@),
    ensures
        whole is Some <==> parts is Some,
        whole is Some ==> whole->0@ == parts->0@,
{
}

/// What tells a service is listed as texts, in its order.
pub proof fn law_signs_are_listed(texts: Seq<Seq<char>>, i: int)
    ensures
        texts_json(texts) is Array,
        texts_json(texts)->Array_0.len() == texts.len(),
        0 <= i < texts.len() ==> texts_json(texts)->Array_0[i] == JsonModel::Text(texts[i]),
{
}

/// A soft block is told with the size and the status that make it one.
pub proof fn law_why_a_page_is_taken_for_a_block(
    status: u16,
    size: nat,
    lower: Seq<char>,
    c: JsonModel,
)
    requires
        surest(lower, VENDORS.len() as int) is None,
        challenge_of(status, size, lower) == Some(c),
    ensures
        c.text_at("reason"@) == Some(
            "Tiny body ("@ + decimal(size) + " bytes) on anomalous status "@ + decimal(
                status as nat,
            ) + " with no known vendor signature — likely a soft block."@,
        ),
{
    reveal_strlit("blocked");
    reveal_strlit("provider");
    reveal_strlit("confidence");
    reveal_strlit("status");
    reveal_strlit("matched");
    reveal_strlit("clearance_cookie");
    reveal_strlit("reason");
    assert("blocked"@.len() == 7);
    assert("provider"@.len() == 8);
    assert("confidence"@.len() == 10);
    assert("status"@.len() == 6);
    assert("matched"@.len() == 7);
    assert("clearance_cookie"@.len() == 16);
    assert("reason"@.len() == 6);
    assert("status"@[0] != "reason"@[0]);
    crate::json::lemma_entry_at(c->Object_0, "reason"@, 6);
}

} // verus!

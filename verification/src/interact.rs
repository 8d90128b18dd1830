//! What follows on a click and on sending a form.
use vstd::prelude::*;

use crate::json::{items_model, Json, JsonModel};
use crate::text::{concat, concat3, has_prefix, same};
use crate::urls::{
    decode_tracker, encode_form, form_encoded, form_fits, option_model, pairs_model, resolve_url,
    resolved, set_query, tracker_target, url_parsed, url_with_query,
};

verus! {

// ---------------------------------------------------------------------
// Clicks
// ---------------------------------------------------------------------

/// What follows on a click.
#[derive(Debug)]
pub enum ClickPlan {
    /// The page's own answer is the answer.
    Answer,
    /// The link leads to this URL.
    Follow(String),
}

/// What a [`ClickPlan`] stands for.
pub enum ClickModel {
    Answer,
    Follow(Seq<char>),
}

/// Whether the page says that something did not work.
pub open spec fn is_refused(answer: JsonModel) -> bool {
    answer.bool_at("ok"@) == Some(false)
}

/// The destination of a URL: what it carries, where it is a result link of a
/// search engine, or the URL itself.
pub open spec fn destination(url: Seq<char>) -> Seq<char> {
    match url_parsed(url) {
        Ok(u) => match tracker_target(u) {
            Some(t) => t,
            None => url,
        },
        Err(_) => url,
    }
}

/// What follows on a click that the page answered so, on the page at
/// `last_url`.
pub open spec fn clicked(answer: JsonModel, last_url: Option<Seq<char>>) -> Result<
    ClickModel,
    Seq<char>,
> {
    if is_refused(answer) {
        Ok(ClickModel::Answer)
    } else {
        match answer.text_at("follow"@) {
            Some(href) => if href.len() > 0 {
                match resolved(last_url, href) {
                    Ok(url) => Ok(ClickModel::Follow(destination(url))),
                    Err(e) => Err(e),
                }
            } else {
                Ok(ClickModel::Answer)
            },
            None => Ok(ClickModel::Answer),
        }
    }
}

/// What the plan for a click stands for.
pub open spec fn click_model(r: Result<ClickPlan, String>) -> Result<ClickModel, Seq<char>> {
    match r {
        Ok(ClickPlan::Answer) => Ok(ClickModel::Answer),
        Ok(ClickPlan::Follow(u)) => Ok(ClickModel::Follow(u@)),
        Err(e) => Err(e@),
    }
}

/// Whether the page says that something did not work.
fn check_refused(answer: &Json) -> (r: bool)
    ensures
        r == is_refused(answer@),
{
    match answer.bool_at("ok") {
        Some(b) => !b,
        None => false,
    }
}

/// What follows on a click that the page answered so.
pub fn click_plan(answer: &Json, last_url: &Option<String>) -> (r: Result<ClickPlan, String>)
    ensures
        click_model(r) == clicked(answer@, option_model(*last_url)),
{
    if check_refused(answer) {
        return Ok(ClickPlan::Answer);
    }
    match answer.text_at("follow") {
        Some(href) => {
            if href.as_str().unicode_len() == 0 {
                return Ok(ClickPlan::Answer);
            }
            match resolve_url(last_url, href.as_str()) {
                Ok(url) => match decode_tracker(url.as_str()) {
                    Some(t) => Ok(ClickPlan::Follow(t)),
                    None => Ok(ClickPlan::Follow(url)),
                },
                Err(e) => Err(e),
            }
        },
        None => Ok(ClickPlan::Answer),
    }
}

// ---------------------------------------------------------------------
// Forms
// ---------------------------------------------------------------------

/// The way in which a form is sent where it says nothing else.
pub const FORM_TYPE: &'static str = "application/x-www-form-urlencoded";

/// What follows on sending a form.
#[derive(Debug)]
pub enum SubmitPlan {
    /// The page's own answer is the answer.
    Answer,
    /// The names and values go into the query of this URL.
    Get(String, Vec<(String, String)>),
    /// This body goes to this URL.
    Post(String, String),
}

/// What a [`SubmitPlan`] stands for.
pub enum SubmitModel {
    Answer,
    Get(Seq<char>, Seq<(Seq<char>, Seq<char>)>),
    Post(Seq<char>, Seq<char>),
}

/// The name and value that a field of a form is; nothing where it is not a
/// list of two texts.
pub open spec fn field_pair(field: JsonModel) -> Option<(Seq<char>, Seq<char>)> {
    match field {
        JsonModel::Array(items) => if items.len() == 2 {
            match (items[0], items[1]) {
                (JsonModel::Text(n), JsonModel::Text(v)) => Some((n, v)),
                _ => None,
            }
        } else {
            None
        },
        _ => None,
    }
}

/// The names and values of fields, in their order.
pub open spec fn field_pairs(fields: Seq<JsonModel>) -> Seq<(Seq<char>, Seq<char>)>
    decreases fields.len(),
{
    if fields.len() == 0 {
        Seq::empty()
    } else {
        let front = field_pairs(fields.drop_last());
        match field_pair(fields.last()) {
            Some(p) => front.push(p),
            None => front,
        }
    }
}

/// The names and values of a form.
pub open spec fn form_pairs(info: JsonModel) -> Seq<(Seq<char>, Seq<char>)> {
    match info.array_at("fields"@) {
        Some(fields) => field_pairs(fields),
        None => Seq::empty(),
    }
}

/// What follows on sending a form that the page describes so, on the page at
/// `last_url`.
pub open spec fn submitted(info: JsonModel, last_url: Option<Seq<char>>) -> Result<
    SubmitModel,
    Seq<char>,
> {
    if is_refused(info) {
        Ok(SubmitModel::Answer)
    } else {
        let action = match info.text_at("action"@) {
            Some(a) => a,
            None => Seq::empty(),
        };
        let method = match info.text_at("method"@) {
            Some(m) => m,
            None => "get"@,
        };
        let enctype = match info.text_at("enctype"@) {
            Some(t) => t,
            None => FORM_TYPE@,
        };
        match resolved(last_url, action) {
            Err(e) => Err(e),
            Ok(url) => if method == "get"@ {
                Ok(SubmitModel::Get(url, form_pairs(info)))
            } else if method == "post"@ {
                if FORM_TYPE@.is_prefix_of(enctype) {
                    Ok(SubmitModel::Post(url, form_encoded(form_pairs(info))))
                } else {
                    Err(
                        "POST enctype '"@ + enctype
                            + "' not supported (only application/x-www-form-urlencoded)"@,
                    )
                }
            } else {
                Err("unsupported form method '"@ + method + "'"@)
            },
        }
    }
}

/// What the plan for a form stands for.
pub open spec fn submit_model(r: Result<SubmitPlan, String>) -> Result<SubmitModel, Seq<char>> {
    match r {
        Ok(SubmitPlan::Answer) => Ok(SubmitModel::Answer),
        Ok(SubmitPlan::Get(u, p)) => Ok(SubmitModel::Get(u@, pairs_model(p@))),
        Ok(SubmitPlan::Post(u, b)) => Ok(SubmitModel::Post(u@, b@)),
        Err(e) => Err(e@),
    }
}

/// The name and value that a field of a form is.
fn read_field(field: &Json) -> (r: Option<(String, String)>)
    ensures
        match r {
            Some((n, v)) => field_pair(field@) == Some((n@, v@)),
            None => field_pair(field@) is None,
        },
{
    match field.as_array() {
        Some(items) => {
            if items.len() != 2 {
                return None;
            }
            assert(items_model(items@)[0] == items@[0]@);
            assert(items_model(items@)[1] == items@[1]@);
            match (items[0].as_text(), items[1].as_text()) {
                (Some(n), Some(v)) => Some((n.clone(), v.clone())),
                _ => None,
            }
        },
        None => None,
    }
}

/// The names and values of a form.
fn read_form_pairs(info: &Json) -> (r: Vec<(String, String)>)
    ensures
        pairs_model(r@) == form_pairs(info@),
{
    let mut out: Vec<(String, String)> = Vec::new();
    assert(pairs_model(out@) =~= Seq::empty());
    match info.array_at("fields") {
        Some(fields) => {
            let ghost m = items_model(fields@);
            let mut i: usize = 0;
            assert(m.take(0) =~= Seq::empty());
            while i < fields.len()
                invariant
                    i <= fields.len(),
                    m == items_model(fields@),
                    pairs_model(out@) == field_pairs(m.take(i as int)),
                decreases fields.len() - i,
            {
                proof {
                    assert(m.take(i + 1).drop_last() =~= m.take(i as int));
                    assert(m.take(i + 1).last() == m[i as int]);
                }
                if let Some((n, v)) = read_field(&fields[i]) {
                    let ghost before = pairs_model(out@);
                    let ghost pair = (n@, v@);
                    out.push((n, v));
                    assert(pairs_model(out@) =~= before.push(pair));
                }
                i = i + 1;
            }
            assert(m.take(i as int) =~= m);
        },
        None => {},
    }
    out
}

/// What follows on sending a form that the page describes so.
pub fn submit_plan(info: &Json, last_url: &Option<String>) -> (r: Result<SubmitPlan, String>)
    ensures
        submit_model(r) == submitted(info@, option_model(*last_url)),
{
    if check_refused(info) {
        return Ok(SubmitPlan::Answer);
    }
    let action: String = match info.text_at("action") {
        Some(a) => a.clone(),
        None => String::new(),
    };
    let method: &str = match info.text_at("method") {
        Some(m) => m.as_str(),
        None => "get",
    };
    let enctype: &str = match info.text_at("enctype") {
        Some(t) => t.as_str(),
        None => FORM_TYPE,
    };
    let pairs = read_form_pairs(info);
    match resolve_url(last_url, action.as_str()) {
        Err(e) => Err(e),
        Ok(url) => {
            if same(method, "get") {
                Ok(SubmitPlan::Get(url, pairs))
            } else if same(method, "post") {
                if has_prefix(enctype, FORM_TYPE) {
                    let body = encode_form(&pairs);
                    Ok(SubmitPlan::Post(url, body))
                } else {
                    Err(
                        concat3(
                            "POST enctype '",
                            enctype,
                            "' not supported (only application/x-www-form-urlencoded)",
                        ),
                    )
                }
            } else {
                Err(concat3("unsupported form method '", method, "'"))
            }
        },
    }
}

/// The URL that a form is sent to with its names and values in the query.
pub fn query_url(target: &str, pairs: &Vec<(String, String)>) -> (r: Result<String, String>)
    requires
        form_fits(target@, pairs_model(pairs@)),
    ensures
        match (r, url_parsed(target@)) {
            (Ok(u), Ok(p)) => u@ == url_with_query(p.text, pairs_model(pairs@)),
            (Err(e), Err(m)) => e@ == "resolve action url: "@ + m,
            _ => false,
        },
{
    match set_query(target, pairs) {
        Ok(u) => Ok(u),
        Err(e) => Err(concat("resolve action url: ", e.as_str())),
    }
}

// ---------------------------------------------------------------------
// What holds of every click and form
// ---------------------------------------------------------------------

/// A click that the page refused, or on what is no link, leads nowhere.
pub proof fn law_click_without_link_stays(answer: JsonModel, last_url: Option<Seq<char>>)
    requires
        is_refused(answer) || answer.text_at("follow"@) is None,
    ensures
        clicked(answer, last_url) == Ok::<ClickModel, Seq<char>>(ClickModel::Answer),
{
}

/// A form keeps its fields in their order: each that is a list of two texts is
/// sent, and nothing else is.
pub proof fn law_fields_in_order(a: Seq<JsonModel>, b: Seq<JsonModel>)
    ensures
        field_pairs(a + b) == field_pairs(a) + field_pairs(b),
    decreases b.len(),
{
    if b.len() == 0 {
        assert(a + b =~= a);
        assert(field_pairs(a) + field_pairs(b) =~= field_pairs(a));
    } else {
        law_fields_in_order(a, b.drop_last());
        assert((a + b).drop_last() =~= a + b.drop_last());
        assert((a + b).last() == b.last());
        assert(field_pairs(a + b) =~= field_pairs(a) + field_pairs(b));
    }
}

/// A field that is a list of a name and a value, both texts, is sent as these,
/// and nothing is sent of any other.
pub proof fn law_what_a_field_is(field: JsonModel, name: Seq<char>, value: Seq<char>)
    ensures
        field_pairs(seq![field]) == seq![(name, value)] <==> field == JsonModel::Array(
            seq![JsonModel::Text(name), JsonModel::Text(value)],
        ),
        field_pairs(seq![field]).len() == 0 || exists|n: Seq<char>, v: Seq<char>|
            field_pairs(seq![field]) == seq![#[trigger] pair_of(n, v)],
{
    let one = seq![field];
    assert(one.drop_last() =~= Seq::empty());
    assert(field_pairs(one.drop_last()) == Seq::<(Seq<char>, Seq<char>)>::empty());
    let pair = JsonModel::Array(seq![JsonModel::Text(name), JsonModel::Text(value)]);
    if let Some(p) = field_pair(field) {
        assert(field_pairs(one) =~= seq![p]);
        assert(field_pairs(one) == seq![pair_of(p.0, p.1)]);
        assert(field->Array_0 =~= seq![JsonModel::Text(p.0), JsonModel::Text(p.1)]);
        if field_pairs(one) == seq![(name, value)] {
            assert(field_pairs(one)[0] == (name, value));
        }
    } else {
        assert(field_pairs(one) =~= Seq::empty());
        assert(seq![(name, value)].len() == 1);
    }
}

/// A name and a value.
pub open spec fn pair_of(name: Seq<char>, value: Seq<char>) -> (Seq<char>, Seq<char>) {
    (name, value)
}

/// A form that the page does not refuse goes to where its action leads. It is
/// sent by GET exactly if it says so or says nothing of a method, with its
/// names and values; by POST exactly if it says so and asks for no other
/// encoding than that of forms. Anything else is an error.
pub proof fn law_how_forms_are_sent(
    info: &Json,
    last_url: &Option<String>,
    r: Result<SubmitPlan, String>,
    action: Seq<char>,
)
    requires
        call_ensures(submit_plan, (info, last_url), r),
        info@.text_at("action"@) == Some(action) || (info@.text_at("action"@) is None && action
            == Seq::<char>::empty()),
    ensures
        ({
            let refused = info@.bool_at("ok"@) == Some(false);
            let target = resolved(option_model(*last_url), action);
            let method = info@.text_at("method"@);
            let get = method is None || method == Some("get"@);
            let post = method == Some("post"@);
            let plain = info@.text_at("enctype"@) matches Some(t)
                ==> "application/x-www-form-urlencoded"@.is_prefix_of(t);
            &&& (r is Ok && r->Ok_0 is Answer) <==> refused
            &&& (r is Ok && r->Ok_0 is Get) <==> !refused && target is Ok && get
            &&& (r is Ok && r->Ok_0 is Post) <==> !refused && target is Ok && post && plain
            &&& r matches Ok(SubmitPlan::Get(url, pairs)) ==> url@ == target->Ok_0 && pairs_model(
                pairs@,
            ) == form_pairs(info@)
            &&& r matches Ok(SubmitPlan::Post(url, body)) ==> url@ == target->Ok_0 && body@
                == form_encoded(form_pairs(info@))
            &&& !refused && target is Err ==> r is Err && r->Err_0@ == target->Err_0
        }),
        info@.array_at("fields"@) matches Some(fields) ==> form_pairs(info@) == field_pairs(fields),
        info@.array_at("fields"@) is None ==> form_pairs(info@).len() == 0,
{
    reveal_strlit("get");
    reveal_strlit("post");
    assert("get"@.len() == 3);
    assert("post"@.len() == 4);
}

/// A click leads somewhere exactly if the page does not refuse it and names a
/// link: to where the link leads on the page, or to what that carries where it
/// is a result link of a search engine. Otherwise the answer of the page is the
/// answer.
pub proof fn law_where_clicks_lead(
    answer: &Json,
    last_url: &Option<String>,
    r: Result<ClickPlan, String>,
    href: Seq<char>,
)
    requires
        call_ensures(click_plan, (answer, last_url), r),
        answer@.text_at("follow"@) == Some(href) || (answer@.text_at("follow"@) is None && href
            == Seq::<char>::empty()),
    ensures
        ({
            let stays = answer@.bool_at("ok"@) == Some(false) || href == Seq::<char>::empty();
            let target = resolved(option_model(*last_url), href);
            &&& (r is Ok && r->Ok_0 is Answer) <==> stays
            &&& (r is Ok && r->Ok_0 is Follow) <==> !stays && target is Ok
            &&& r matches Ok(ClickPlan::Follow(url)) ==> {
                let carried = match url_parsed(target->Ok_0) {
                    Ok(u) => tracker_target(u),
                    Err(_) => None,
                };
                url@ == (if carried is Some {
                    carried->0
                } else {
                    target->Ok_0
                })
            }
            &&& !stays && target is Err ==> r is Err && r->Err_0@ == target->Err_0
        }),
{
    if href.len() == 0 {
        assert(href =~= Seq::empty());
    }
}

/// A form that goes by a URL replaces its query, and fails where the target is no
/// URL.
pub proof fn law_forms_that_go_by_a_url(
    target: &str,
    pairs: &Vec<(String, String)>,
    r: Result<String, String>,
)
    requires
        call_ensures(query_url, (target, pairs), r),
    ensures
        r is Ok <==> url_parsed(target@) is Ok,
        url_parsed(target@) matches Ok(p) ==> r->Ok_0@ == url_with_query(
            p.text,
            pairs_model(pairs@),
        ),
        url_parsed(target@) matches Err(e) ==> r->Err_0@ == "resolve action url: "@ + e,
{
}

} // verus!

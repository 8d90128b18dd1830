//! What a driver says of how its task went.
use vstd::prelude::*;

use crate::events::Event;
use crate::json::{
    as_double, double_of, json_number, json_text_of, lemma_entry_at, no_entries, object,
    optional_text, put, Json, JsonModel, NumberModel,
};
use crate::navigation::NavIds;
use crate::scripts::number_json;
use crate::text::{concat3, same};

verus! {

/// The kinds of tasks.
pub const TASK_CLASSES: [&'static str; 5] = ["extract", "query", "click", "form", "visual"];

/// Whether a text is a kind of task.
pub open spec fn is_task_class(s: Seq<char>) -> bool {
    exists|i: int| 0 <= i < TASK_CLASSES.len() && #[trigger] TASK_CLASSES[i]@ == s
}

/// Whether a text is a kind of task.
fn check_task_class(s: &str) -> (r: bool)
    ensures
        r == is_task_class(s@),
{
    let mut i: usize = 0;
    while i < TASK_CLASSES.len()
        invariant
            i <= TASK_CLASSES.len(),
            forall|j: int| 0 <= j < i ==> (#[trigger] TASK_CLASSES[j])@ != s@,
        decreases TASK_CLASSES.len() - i,
    {
        if same(TASK_CLASSES[i], s) {
            assert(TASK_CLASSES[i as int]@ == s@);
            return true;
        }
        i = i + 1;
    }
    false
}

/// How well a task went, as a value, where it is said; or why it is none.
pub open spec fn quality_of(params: JsonModel) -> Result<JsonModel, Seq<char>> {
    match params.get("quality"@) {
        None => Ok(JsonModel::Null),
        Some(JsonModel::Null) => Ok(JsonModel::Null),
        Some(JsonModel::Number(n)) => match as_double(n) {
            Some(d) => Ok(JsonModel::Number(NumberModel::Float(d))),
            None => Ok(JsonModel::Null),
        },
        Some(_) => Err("'quality' must be number"@),
    }
}

/// The text under a key, where there is one; or why what is there is none.
pub open spec fn text_param(params: JsonModel, key: Seq<char>) -> Result<
    Option<Seq<char>>,
    Seq<char>,
> {
    match params.get(key) {
        None => Ok(None),
        Some(JsonModel::Null) => Ok(None),
        Some(JsonModel::Text(s)) => Ok(Some(s)),
        Some(_) => Err("'"@ + key + "' must be string"@),
    }
}

/// What is told of how a task went, or why nothing is. The navigation has to be
/// one that started in the session, whether the task succeeded has to be said,
/// and what else is said has to be of its kind.
pub open spec fn outcome_of(ids: NavIds, params: JsonModel, nav_id: Seq<char>) -> Result<
    JsonModel,
    Seq<char>,
> {
    if nav_id.len() == 0 {
        Err("missing 'navigation_id' param"@)
    } else if !ids.has_issued(nav_id) {
        Err("unknown navigation_id '"@ + nav_id + "' — never issued by this session"@)
    } else {
        match params.get("success"@) {
            None => Err("missing required 'success' param"@),
            Some(v) => match v.as_bool() {
                None => Err("'success' must be boolean"@),
                Some(success) => match (
                    task_class_of(params),
                    text_param(params, "task_id"@),
                    quality_of(params),
                    text_param(params, "error"@),
                ) {
                    (Err(e), _, _, _) => Err(e),
                    (_, Err(e), _, _) => Err(e),
                    (_, _, Err(e), _) => Err(e),
                    (_, _, _, Err(e)) => Err(e),
                    (Ok(task_class), Ok(task_id), Ok(quality), Ok(error)) => Ok(
                        JsonModel::Object(
                            seq![
                                ("schema_version"@, number_json(1)),
                                ("navigation_id"@, JsonModel::Text(nav_id)),
                                ("task_id"@, optional_text(task_id)),
                                ("task_class"@, optional_text(task_class)),
                                ("success"@, JsonModel::Bool(success)),
                                ("quality"@, quality),
                                ("error"@, optional_text(error)),
                            ],
                        ),
                    ),
                },
            },
        }
    }
}

/// The kind of a task, where it is said; or why it is none.
pub open spec fn task_class_of(params: JsonModel) -> Result<Option<Seq<char>>, Seq<char>> {
    match params.get("task_class"@) {
        None => Ok(None),
        Some(JsonModel::Null) => Ok(None),
        Some(JsonModel::Text(s)) => if is_task_class(s) {
            Ok(Some(s))
        } else {
            Err(
                "'task_class' must be one of [\"extract\", \"query\", \"click\", \"form\", \"visual\"], got '"@
                    + s + "'"@,
            )
        },
        Some(_) => Err("'task_class' must be string"@),
    }
}

/// The kind of a task, where it is said; or why it is none.
fn read_task_class(params: &Json) -> (r: Result<Option<String>, String>)
    ensures
        match (r, task_class_of(params@)) {
            (Ok(c), Ok(m)) => crate::urls::option_model(c) == m,
            (Err(e), Err(m)) => e@ == m,
            _ => false,
        },
{
    match params.get("task_class") {
        None => Ok(None),
        Some(Json::Null) => Ok(None),
        Some(Json::Text(s)) => {
            if check_task_class(s.as_str()) {
                Ok(Some(s.clone()))
            } else {
                Err(
                    concat3(
                        "'task_class' must be one of [\"extract\", \"query\", \"click\", \"form\", \"visual\"], got '",
                        s.as_str(),
                        "'",
                    ),
                )
            }
        },
        Some(_) => Err("'task_class' must be string".to_owned()),
    }
}

/// The text under a key, where there is one; or why what is there is none.
fn read_text_param(params: &Json, key: &str) -> (r: Result<Option<String>, String>)
    ensures
        match (r, text_param(params@, key@)) {
            (Ok(c), Ok(m)) => crate::urls::option_model(c) == m,
            (Err(e), Err(m)) => e@ == m,
            _ => false,
        },
{
    match params.get(key) {
        None => Ok(None),
        Some(Json::Null) => Ok(None),
        Some(Json::Text(s)) => Ok(Some(s.clone())),
        Some(_) => Err(concat3("'", key, "' must be string")),
    }
}

/// How well a task went, as a value, where it is said; or why it is none.
fn read_quality(params: &Json) -> (r: Result<Json, String>)
    ensures
        match (r, quality_of(params@)) {
            (Ok(q), Ok(m)) => q@ == m,
            (Err(e), Err(m)) => e@ == m,
            _ => false,
        },
{
    match params.get("quality") {
        None => Ok(Json::Null),
        Some(Json::Null) => Ok(Json::Null),
        Some(Json::Number(n)) => match double_of(n) {
            Some(d) => Ok(Json::Number(d)),
            None => Ok(Json::Null),
        },
        Some(_) => Err("'quality' must be number".to_owned()),
    }
}

/// Tells how a task went, or says why not.
pub fn validate_outcome(ids: &NavIds, params: &Json, nav_id: &str) -> (r: Result<Event, String>)
    ensures
        match (r, outcome_of(*ids, params@, nav_id@)) {
            (Ok(e), Ok(data)) => e@ == ("outcome_reported"@, data),
            (Err(e), Err(m)) => e@ == m,
            _ => false,
        },
{
    if nav_id.unicode_len() == 0 {
        return Err("missing 'navigation_id' param".to_owned());
    }
    if !ids.nav_id_is_known(nav_id) {
        return Err(
            concat3("unknown navigation_id '", nav_id, "' — never issued by this session"),
        );
    }
    let success = match params.get("success") {
        None => {
            return Err("missing required 'success' param".to_owned());
        },
        Some(v) => match v.as_bool() {
            None => {
                return Err("'success' must be boolean".to_owned());
            },
            Some(b) => b,
        },
    };
    let task_class = match read_task_class(params) {
        Ok(c) => c,
        Err(e) => {
            return Err(e);
        },
    };
    let task_id = match read_text_param(params, "task_id") {
        Ok(t) => t,
        Err(e) => {
            return Err(e);
        },
    };
    let quality = match read_quality(params) {
        Ok(q) => q,
        Err(e) => {
            return Err(e);
        },
    };
    let error = match read_text_param(params, "error") {
        Ok(t) => t,
        Err(e) => {
            return Err(e);
        },
    };
    let mut e = no_entries();
    put(&mut e, "schema_version", json_number(1));
    put(&mut e, "navigation_id", json_text_of(nav_id));
    put(&mut e, "task_id", crate::json::json_optional_text(&task_id));
    put(&mut e, "task_class", crate::json::json_optional_text(&task_class));
    put(&mut e, "success", Json::Bool(success));
    put(&mut e, "quality", quality);
    put(&mut e, "error", crate::json::json_optional_text(&error));
    let data = object(e);
    assert(data@->Object_0 =~= outcome_of(*ids, params@, nav_id@)->Ok_0->Object_0);
    Ok(Event { name: "outcome_reported", data })
}

/// An outcome is told only of navigations that started in the session.
pub proof fn law_unknown_navigation_refused(ids: NavIds, params: JsonModel, nav_id: Seq<char>)
    requires
        !ids.has_issued(nav_id),
    ensures
        outcome_of(ids, params, nav_id) is Err,
{
}

/// Nothing is told of a task of which it is not said whether it succeeded.
pub proof fn law_success_required(ids: NavIds, params: JsonModel, nav_id: Seq<char>)
    requires
        params.bool_at("success"@) is None,
    ensures
        outcome_of(ids, params, nav_id) is Err,
{
}

/// Nothing is told of a task of which something is said that is not of its
/// kind.
pub proof fn law_schema_is_kept(ids: NavIds, params: JsonModel, nav_id: Seq<char>)
    requires
        !(params.get("quality"@) matches Some(q) ==> q is Null || q is Number) || !(params.get(
            "task_id"@,
        ) matches Some(t) ==> t is Null || t is Text) || !(params.get("error"@) matches Some(t)
            ==> t is Null || t is Text) || !(params.get("task_class"@) matches Some(t) ==> t is Null
            || (t matches JsonModel::Text(s) && is_task_class(s))),
    ensures
        outcome_of(ids, params, nav_id) is Err,
{
}

/// What is told of how a task went: it is told exactly if the navigation started
/// in the session, whether the task succeeded is said, and each other thing is
/// missing, null or of its kind; and then it is what was said.
pub proof fn law_what_is_told_of_a_task(
    ids: &NavIds,
    params: &Json,
    nav_id: &str,
    r: Result<Event, String>,
)
    requires
        call_ensures(validate_outcome, (ids, params, nav_id), r),
    ensures
        ({
            let p = params@;
            let (class, task, quality, error) = (
                p.get("task_class"@),
                p.get("task_id"@),
                p.get("quality"@),
                p.get("error"@),
            );
            let known = |s: Seq<char>|
                s == "extract"@ || s == "query"@ || s == "click"@ || s == "form"@ || s == "visual"@;
            &&& r is Ok <==> {
                &&& nav_id@ != Seq::<char>::empty()
                &&& ids.has_issued(nav_id@)
                &&& p.bool_at("success"@) is Some
                &&& class is None || class->0 is Null || (class->0 is Text && known(class->0->Text_0))
                &&& task is None || task->0 is Null || task->0 is Text
                &&& quality is None || quality->0 is Null || quality->0 is Number
                &&& error is None || error->0 is Null || error->0 is Text
            }
            &&& r matches Ok(e) ==> {
                &&& e@.0 == "outcome_reported"@
                &&& e@.1.u64_at("schema_version"@) == Some(1u64)
                &&& e@.1.text_at("navigation_id"@) == Some(nav_id@)
                &&& e@.1.text_at("task_id"@) == p.text_at("task_id"@)
                &&& e@.1.text_at("task_class"@) == p.text_at("task_class"@)
                &&& e@.1.bool_at("success"@) == p.bool_at("success"@)
                &&& e@.1.text_at("error"@) == p.text_at("error"@)
                &&& quality is None || quality->0 is Null ==> e@.1.get("quality"@) == Some(
                    JsonModel::Null,
                )
                &&& quality matches Some(JsonModel::Number(n)) ==> as_double(n) is Some
                    ==> e@.1.get("quality"@) == Some(
                    JsonModel::Number(NumberModel::Float(as_double(n)->0)),
                )
            }
        }),
{
    if nav_id@.len() == 0 {
        assert(nav_id@ =~= Seq::empty());
    }
    lemma_task_classes();
    if let Ok(event) = r {
        reveal_strlit("schema_version");
        reveal_strlit("navigation_id");
        reveal_strlit("task_id");
        reveal_strlit("task_class");
        reveal_strlit("success");
        reveal_strlit("quality");
        reveal_strlit("error");
        assert("schema_version"@.len() == 14);
        assert("navigation_id"@.len() == 13);
        assert("task_id"@.len() == 7);
        assert("task_class"@.len() == 10);
        assert("success"@.len() == 7);
        assert("quality"@.len() == 7);
        assert("error"@.len() == 5);
        assert("task_id"@[0] != "success"@[0]);
        assert("task_id"@[0] != "quality"@[0]);
        assert("success"@[0] != "quality"@[0]);
        let e = event@.1->Object_0;
        lemma_entry_at(e, "schema_version"@, 0);
        lemma_entry_at(e, "navigation_id"@, 1);
        lemma_entry_at(e, "task_id"@, 2);
        lemma_entry_at(e, "task_class"@, 3);
        lemma_entry_at(e, "success"@, 4);
        lemma_entry_at(e, "quality"@, 5);
        lemma_entry_at(e, "error"@, 6);
    }
}

/// The kinds of tasks.
proof fn lemma_task_classes()
    ensures
        forall|s: Seq<char>| #[trigger]
            is_task_class(s) <==> s == "extract"@ || s == "query"@ || s == "click"@ || s == "form"@
                || s == "visual"@,
{
    assert(TASK_CLASSES[0]@ == "extract"@ && TASK_CLASSES[1]@ == "query"@ && TASK_CLASSES[2]@
        == "click"@ && TASK_CLASSES[3]@ == "form"@ && TASK_CLASSES[4]@ == "visual"@);
    assert forall|s: Seq<char>| #[trigger] is_task_class(s) implies s == "extract"@ || s == "query"@
        || s == "click"@ || s == "form"@ || s == "visual"@ by {
        let i = choose|i: int| 0 <= i < TASK_CLASSES.len() && #[trigger] TASK_CLASSES[i]@ == s;
        assert(i == 0 || i == 1 || i == 2 || i == 3 || i == 4);
    }
}

/// Why nothing is told of a task: the first thing that is wrong with what was
/// said is named.
pub proof fn law_why_nothing_is_told(
    ids: &NavIds,
    params: &Json,
    nav_id: &str,
    r: Result<Event, String>,
)
    requires
        call_ensures(validate_outcome, (ids, params, nav_id), r),
        r is Err,
    ensures
        ({
            let p = params@;
            let (class, task, quality) = (p.get("task_class"@), p.get("task_id"@), p.get("quality"@));
            let e = r->Err_0@;
            let named = nav_id@ != Seq::<char>::empty() && ids.has_issued(nav_id@);
            let said = named && p.bool_at("success"@) is Some;
            let class_fine = class is None || class->0 is Null || (class->0 is Text && is_task_class(
                class->0->Text_0,
            ));
            let task_fine = task is None || task->0 is Null || task->0 is Text;
            let quality_fine = quality is None || quality->0 is Null || quality->0 is Number;
            &&& nav_id@ == Seq::<char>::empty() ==> e == "missing 'navigation_id' param"@
            &&& nav_id@ != Seq::<char>::empty() && !named ==> e == "unknown navigation_id '"@
                + nav_id@ + "' — never issued by this session"@
            &&& named && p.get("success"@) is None ==> e == "missing required 'success' param"@
            &&& named && p.get("success"@) is Some && !said ==> e == "'success' must be boolean"@
            &&& said && !class_fine && class->0 is Text ==> e
                == "'task_class' must be one of [\"extract\", \"query\", \"click\", \"form\", \"visual\"], got '"@
                + class->0->Text_0 + "'"@
            &&& said && !class_fine && !(class->0 is Text) ==> e == "'task_class' must be string"@
            &&& said && class_fine && !task_fine ==> e == "'"@ + "task_id"@ + "' must be string"@
            &&& said && class_fine && task_fine && !quality_fine ==> e
                == "'quality' must be number"@
            &&& said && class_fine && task_fine && quality_fine ==> e == "'"@ + "error"@
                + "' must be string"@
        }),
{
    if nav_id@.len() == 0 {
        assert(nav_id@ =~= Seq::empty());
    }
}

} // verus!

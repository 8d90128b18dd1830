//! Events, which tell a driver what happens.
use vstd::prelude::*;

use crate::json::{
    json_printed, json_text_of, lemma_entry_at, no_entries, object, print_json, put,
    with_map_entries, Json, JsonModel,
};

verus! {

/// Something that happened: its name, and what there is to say of it.
#[derive(Debug)]
pub struct Event {
    pub name: &'static str,
    pub data: Json,
}

impl View for Event {
    type V = (Seq<char>, JsonModel);

    open spec fn view(&self) -> (Seq<char>, JsonModel) {
        (self.name@, self.data@)
    }
}

/// What events stand for.
pub open spec fn events_model(events: Seq<Event>) -> Seq<(Seq<char>, JsonModel)> {
    Seq::new(events.len(), |i: int| events[i]@)
}

/// One more event stands for one more.
pub broadcast proof fn lemma_events_push(events: Seq<Event>, e: Event)
    ensures
        (#[trigger] events_model(events.push(e))) == events_model(events).push(e@),
{
    assert(events_model(events.push(e)) =~= events_model(events).push(e@));
}

/// An event in JSON.
pub open spec fn event_json(e: (Seq<char>, JsonModel)) -> JsonModel {
    JsonModel::Object(seq![("event"@, JsonModel::Text(e.0)), ("data"@, e.1)])
}

impl Event {
    /// The line that tells of the event.
    pub fn line(&self) -> (r: String)
        ensures
            r@ == json_printed(with_map_entries(event_json(self@))),
    {
        let mut e = no_entries();
        put(&mut e, "event", json_text_of(self.name));
        put(&mut e, "data", self.data.copy());
        let j = object(e);
        assert(j@->Object_0 =~= event_json(self@)->Object_0);
        print_json(&j)
    }
}

/// The line on an event is the text of an object that holds its name and what
/// there is to say of it, and nothing else.
pub proof fn law_events_are_told(event: &Event, r: String)
    requires
        call_ensures(Event::line, (event,), r),
    ensures
        exists|j: JsonModel|
            {
                &&& r@ == json_printed(#[trigger] with_map_entries(j))
                &&& j is Object && j->Object_0.len() == 2
                &&& j.text_at("event"@) == Some(event@.0)
                &&& j.get("data"@) == Some(event@.1)
            },
{
    reveal_strlit("event");
    reveal_strlit("data");
    assert("event"@.len() == 5);
    assert("data"@.len() == 4);
    let j = event_json(event@);
    lemma_entry_at(j->Object_0, "event"@, 0);
    lemma_entry_at(j->Object_0, "data"@, 1);
    assert(r@ == json_printed(with_map_entries(j)));
}

} // verus!

use vstd::prelude::*;

verus! {

/// What the editor has to show: a buffer line, or a message.
#[derive(Clone, Debug)]
pub enum Event {
    Line(String),
    Message(String),
}

/// The text of an event, and whether it is a buffer line.
pub open spec fn event_view(e: Event) -> (bool, Seq<char>) {
    match e {
        Event::Line(s) => (true, s@),
        Event::Message(s) => (false, s@),
    }
}

pub open spec fn events_view(es: Seq<Event>) -> Seq<(bool, Seq<char>)> {
    es.map_values(|e: Event| event_view(e))
}

} // verus!

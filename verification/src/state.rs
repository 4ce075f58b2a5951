//! The thing being judged: free text or a JSON document.

use vstd::prelude::*;
use crate::json::JsonValue;
use crate::pyjson::{dump_value, dumps};

verus! {

/// Free text, or a JSON document rendered the way Python's `json.dumps` renders it
/// (`json.dumps(state, ensure_ascii=False)`).
#[derive(Debug, Clone)]
pub enum State {
    Text(String),
    Json(JsonValue),
}

impl State {
    /// The text the model sees for this state.
    pub open spec fn render_spec(self) -> Seq<char> {
        match self {
            State::Text(s) => s@,
            State::Json(v) => dump_value(v, false),
        }
    }

    pub fn render(&self) -> (r: String)
        ensures
            r@ == self.render_spec(),
    {
        match self {
            State::Text(s) => s.clone(),
            State::Json(v) => dumps(v, false),
        }
    }

    /// A free-text state.
    pub fn text(s: &str) -> (r: State)
        ensures
            r matches State::Text(t) && t@ == s@,
    {
        State::Text(s.to_owned())
    }

    /// The state a JSON value denotes: a JSON string is free text, anything else a document.
    pub open spec fn from_value_spec(v: JsonValue) -> State {
        match v {
            JsonValue::String(s) => State::Text(s),
            _ => State::Json(v),
        }
    }
}

impl From<String> for State {
    fn from(s: String) -> (r: State) {
        State::Text(s)
    }
}

impl vstd::std_specs::convert::FromSpecImpl<String> for State {
    open spec fn obeys_from_spec() -> bool {
        true
    }

    open spec fn from_spec(s: String) -> State {
        State::Text(s)
    }
}

impl From<JsonValue> for State {
    fn from(v: JsonValue) -> (r: State) {
        match v {
            JsonValue::String(s) => State::Text(s),
            v => State::Json(v),
        }
    }
}

impl vstd::std_specs::convert::FromSpecImpl<JsonValue> for State {
    open spec fn obeys_from_spec() -> bool {
        true
    }

    open spec fn from_spec(v: JsonValue) -> State {
        State::from_value_spec(v)
    }
}

} // verus!

//! Text pieces: a paragraph whose content can be bound to states.
use vstd::prelude::*;

use crate::dynamic_string::{compile_binding, DynamicBindString, SetData, SetDataView};
use crate::error::GameReadError;
use crate::event::Event;
use crate::half_compiled::Outcome;
use crate::pieces::{PieceData, make_piece_id, piece_id_text, register_single_binding, single_binding_register};
use crate::state::State;

verus! {

/// A paragraph.
#[derive(Debug)]
pub struct Text {
    pub id: String,
    pub data: TextData,
    pub states: Vec<State>,
    pub events: Vec<Event>,
}

/// The optional binding of a paragraph's content.
#[derive(Debug)]
pub struct TextData {
    pub text: Option<DynamicBindString>,
}

impl PieceData for TextData {
    open spec fn register(&self) -> Outcome<(Seq<char>, Seq<char>)> {
        match self.text {
            Some(t) => single_binding_register(t, SetDataView::Variable("slf.element.innerHTML"@)),
            None => Outcome::Done((Seq::empty(), Seq::empty())),
        }
    }

    /// The data's initializations and subscriptions: the content is bound to
    /// `slf.element.innerHTML`.
    fn js_register(&self) -> (r: Result<(String, String), GameReadError>) {
        match &self.text {
            Some(text) => {
                let target = "slf.element.innerHTML".to_string();
                register_single_binding(text, SetData::Variable(target))
            },
            None => Ok((String::new(), String::new())),
        }
    }
}

impl Text {
    pub fn states(&self) -> (r: &Vec<State>)
        ensures
            r == &self.states,
    {
        &self.states
    }

    pub fn events(&self) -> (r: &Vec<Event>)
        ensures
            r == &self.events,
    {
        &self.events
    }

    pub fn data(&self) -> (r: &TextData)
        ensures
            r == &self.data,
    {
        &self.data
    }

    /// The element id `Text$id` (escaped: `Text\\$id`).
    pub fn piece_id(&self, escaped_dollar: bool) -> (r: String)
        ensures
            r@ == piece_id_text("Text"@, self.id@, escaped_dollar),
    {
        make_piece_id("Text", &self.id, escaped_dollar)
    }

    pub fn piece_name(&self) -> (r: String)
        ensures
            r@ == "Text"@,
    {
        "Text".to_string()
    }

    pub fn html_tag(&self) -> (r: String)
        ensures
            r@ == "p"@,
    {
        "p".to_string()
    }
}

} // verus!

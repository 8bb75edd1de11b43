//! Sections: plain containers of pieces.
use vstd::prelude::*;

use crate::error::GameReadError;
use crate::event::Event;
use crate::half_compiled::Outcome;
use crate::pieces::{PieceData, collection_children, collection_children_exec, make_piece_id, piece_id_text, Pieces};
use crate::state::State;

verus! {

/// A container of pieces.
#[derive(Debug)]
pub struct Section {
    pub id: String,
    pub data: SectionData,
    pub states: Vec<State>,
    pub events: Vec<Event>,
    pub pieces: Vec<Pieces>,
}

/// A section carries no data.
#[derive(Debug)]
pub struct SectionData {}

impl PieceData for SectionData {
    open spec fn register(&self) -> Outcome<(Seq<char>, Seq<char>)> {
        Outcome::Done((Seq::empty(), Seq::empty()))
    }

    /// No initializations and no subscriptions.
    fn js_register(&self) -> (r: Result<(String, String), GameReadError>) {
        Ok((String::new(), String::new()))
    }
}

impl Section {
    pub fn states(&self) -> (r: &Vec<State>)
        ensures
            r == &self.states,
    {
        &self.states
    }

    pub fn events(&self) -> (r: &Vec<Event>)
        ensures
            r == &self.events,
    {
        &self.events
    }

    pub fn data(&self) -> (r: &SectionData)
        ensures
            r == &self.data,
    {
        &self.data
    }

    /// The element id `Section$id` (escaped: `Section\\$id`).
    pub fn piece_id(&self, escaped_dollar: bool) -> (r: String)
        ensures
            r@ == piece_id_text("Section"@, self.id@, escaped_dollar),
    {
        make_piece_id("Section", &self.id, escaped_dollar)
    }

    pub fn piece_name(&self) -> (r: String)
        ensures
            r@ == "Section"@,
    {
        "Section".to_string()
    }

    pub fn html_tag(&self) -> (r: String)
        ensures
            r@ == "div"@,
    {
        "div".to_string()
    }

    pub fn children(&self) -> (r: &Vec<Pieces>)
        ensures
            r == &self.pieces,
    {
        &self.pieces
    }

    /// The skeletons of the pieces, joined by ` + `, and their load calls, one per line.
    pub fn js_load_children(&self) -> (r: Option<(String, String)>)
        ensures
            r matches Some(p) && (p.0@, p.1@) == collection_children(self.pieces@),
    {
        Some(collection_children_exec(&self.pieces))
    }
}

} // verus!

//! Layouts: containers that place their pieces.
use vstd::prelude::*;

use crate::error::GameReadError;
use crate::event::Event;
use crate::half_compiled::Outcome;
use crate::pieces::{PieceData, collection_children, collection_children_exec, make_piece_id, piece_id_text, Pieces};
use crate::state::State;

verus! {

/// A container that places its pieces.
#[derive(Debug)]
pub struct Layout {
    pub id: String,
    pub data: LayoutData,
    pub states: Vec<State>,
    pub events: Vec<Event>,
    pub pieces: Vec<Pieces>,
}

/// How a layout places its pieces horizontally.
#[derive(Clone, Copy, Debug)]
pub enum PlaceX {
    SpaceEvenly,
}

impl PlaceX {
    pub open spec fn css(self) -> Seq<char> {
        match self {
            PlaceX::SpaceEvenly => "space-evenly"@,
        }
    }

    /// The CSS value of the placement.
    pub fn into_string(self) -> (r: String)
        ensures
            r@ == self.css(),
    {
        match self {
            PlaceX::SpaceEvenly => "space-evenly".to_string(),
        }
    }
}

/// The placement of a layout's pieces.
#[derive(Debug)]
pub struct LayoutData {
    pub place_x: PlaceX,
}

impl PieceData for LayoutData {
    open spec fn register(&self) -> Outcome<(Seq<char>, Seq<char>)> {
        Outcome::Done(
            (
                "slf.element.style.justifyContent = \""@ + self.place_x.css() + "\";"@,
                Seq::empty(),
            ),
        )
    }

    /// The placement as an initialization, and no subscriptions.
    fn js_register(&self) -> (r: Result<(String, String), GameReadError>) {
        let mut init = String::new();
        init.push_str("slf.element.style.justifyContent = \"");
        let value = self.place_x.into_string();
        init.push_str(value.as_str());
        init.push_str("\";");
        proof {
            assert(init@ =~= "slf.element.style.justifyContent = \""@ + self.place_x.css() + "\";"@);
        }
        Ok((init, String::new()))
    }
}

impl Layout {
    pub fn states(&self) -> (r: &Vec<State>)
        ensures
            r == &self.states,
    {
        &self.states
    }

    pub fn events(&self) -> (r: &Vec<Event>)
        ensures
            r == &self.events,
    {
        &self.events
    }

    pub fn data(&self) -> (r: &LayoutData)
        ensures
            r == &self.data,
    {
        &self.data
    }

    /// The element id `Layout$id` (escaped: `Layout\\$id`).
    pub fn piece_id(&self, escaped_dollar: bool) -> (r: String)
        ensures
            r@ == piece_id_text("Layout"@, self.id@, escaped_dollar),
    {
        make_piece_id("Layout", &self.id, escaped_dollar)
    }

    pub fn piece_name(&self) -> (r: String)
        ensures
            r@ == "Layout"@,
    {
        "Layout".to_string()
    }

    pub fn html_tag(&self) -> (r: String)
        ensures
            r@ == "div"@,
    {
        "div".to_string()
    }

    pub fn children(&self) -> (r: &Vec<Pieces>)
        ensures
            r == &self.pieces,
    {
        &self.pieces
    }

    /// The skeletons of the pieces, joined by ` + `, and their load calls, one per line.
    pub fn js_load_children(&self) -> (r: Option<(String, String)>)
        ensures
            r matches Some(p) && (p.0@, p.1@) == collection_children(self.pieces@),
    {
        Some(collection_children_exec(&self.pieces))
    }
}

} // verus!

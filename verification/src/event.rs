//! Piece events.
use vstd::prelude::*;

verus! {

/// An event of a piece; events carry nothing yet.
#[derive(Debug)]
pub struct Event {}

impl Event {
    /// The JavaScript that registers the event: nothing yet.
    pub fn js_register(&self) -> (r: String)
        ensures
            r@ == Seq::<char>::empty(),
    {
        String::new()
    }
}

} // verus!

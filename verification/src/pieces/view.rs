//! Views: containers that show one of their pieces at a time.
use vstd::prelude::*;
use vstd::view::View as _;

use crate::dynamic_string::{DynamicBindString, SetData, SetDataView};
use crate::error::GameReadError;
use crate::event::Event;
use crate::half_compiled::Outcome;
use crate::outside::indent_by;
use crate::pieces::{PieceData, 
    make_piece_id, make_unload_push, piece_id_text, register_single_binding,
    single_binding_register, unload_push_text, Pieces,
};
use crate::state::State;
use crate::text::{decimal, join, join_strings, push_decimal, views};

verus! {

/// A container that shows the piece whose index is bound to its data.
#[derive(Debug)]
pub struct View {
    pub id: String,
    pub data: ViewData,
    pub states: Vec<State>,
    pub events: Vec<Event>,
    pub pieces: Vec<Pieces>,
}

/// The binding of the index of the shown piece.
#[derive(Debug)]
pub struct ViewData {
    pub index: DynamicBindString,
}

impl PieceData for ViewData {
    open spec fn register(&self) -> Outcome<(Seq<char>, Seq<char>)> {
        single_binding_register(self.index, SetDataView::Function("slf.swapView"@))
    }

    /// The data's initializations and subscriptions: the index is handed to `slf.swapView`.
    fn js_register(&self) -> (r: Result<(String, String), GameReadError>) {
        let target = "slf.swapView".to_string();
        register_single_binding(&self.index, SetData::Function(target))
    }
}

/// The branch of `swapView` that shows the piece of index `i`.
pub open spec fn view_option(i: nat, html: Seq<char>, load_call: Seq<char>) -> Seq<char> {
    "if (index == "@ + decimal(i) + ") {\n    this.element.innerHTML = \""@ + html + "\";\n    "@
        + load_call + "\n}"@
}

/// The branches of `swapView`, one per piece.
pub open spec fn view_options(ps: Seq<Pieces>) -> Seq<Seq<char>> {
    Seq::new(
        ps.len(),
        |i: int| view_option(i as nat, ps[i].skeleton(), unload_push_text(ps[i].load_call())),
    )
}

/// The extra properties of a view's `slf`: `swapView` unloads the shown piece
/// and loads the piece of the given index.
pub open spec fn view_props(ps: Seq<Pieces>) -> Seq<char> {
    "unloads: () => {},\ncurr_index: undefined,\nswapView: function(index) {\n    if (index == this.curr_index) {\n        return;\n    }\n\n    this.unloads();\n    let unloads = [];\n\n    this.curr_index = index;\n    "@
        + crate::text::indent_by(4, join(view_options(ps), "\n"@))
        + "\n\n    this.unloads = () => {\n        unloads.forEach((unload) => unload());\n    };\n}"@
}

impl View {
    pub fn states(&self) -> (r: &Vec<State>)
        ensures
            r == &self.states,
    {
        &self.states
    }

    pub fn events(&self) -> (r: &Vec<Event>)
        ensures
            r == &self.events,
    {
        &self.events
    }

    pub fn data(&self) -> (r: &ViewData)
        ensures
            r == &self.data,
    {
        &self.data
    }

    /// The element id `View$id` (escaped: `View\\$id`).
    pub fn piece_id(&self, escaped_dollar: bool) -> (r: String)
        ensures
            r@ == piece_id_text("View"@, self.id@, escaped_dollar),
    {
        make_piece_id("View", &self.id, escaped_dollar)
    }

    pub fn piece_name(&self) -> (r: String)
        ensures
            r@ == "View"@,
    {
        "View".to_string()
    }

    pub fn html_tag(&self) -> (r: String)
        ensures
            r@ == "div"@,
    {
        "div".to_string()
    }

    pub fn children(&self) -> (r: &Vec<Pieces>)
        ensures
            r == &self.pieces,
    {
        &self.pieces
    }

    /// The extra properties of the view's `slf`.
    pub fn extra_slf_props(&self) -> (r: Option<String>)
        ensures
            r matches Some(s) && s@ == view_props(self.pieces@),
    {
        let mut options_load: Vec<String> = Vec::new();
        let mut i: usize = 0;
        let ghost goal = view_options(self.pieces@);
        while i < self.pieces.len()
            invariant
                i <= self.pieces@.len(),
                goal == view_options(self.pieces@),
                views(options_load@) == goal.take(i as int),
            decreases self.pieces.len() - i,
        {
            let html = self.pieces[i].html_skeleton();
            let call = self.pieces[i].js_load_call();
            let load_call = make_unload_push(&call);
            let mut option = String::new();
            option.push_str("if (index == ");
            push_decimal(&mut option, i);
            option.push_str(") {\n    this.element.innerHTML = \"");
            option.push_str(html.as_str());
            option.push_str("\";\n    ");
            option.push_str(load_call.as_str());
            option.push_str("\n}");
            let ghost o = option@;
            assert(o =~= view_option(i as nat, self.pieces@[i as int].skeleton(), unload_push_text(
                self.pieces@[i as int].load_call(),
            )));
            let ghost before = views(options_load@);
            options_load.push(option);
            assert(views(options_load@) =~= before.push(o));
            assert(goal.take(i + 1) =~= goal.take(i as int).push(o));
            i = i + 1;
        }
        assert(goal.take(i as int) =~= goal);
        let joined = join_strings(&options_load, "\n");
        let options = indent_by(4, joined.as_str());
        let mut out = String::new();
        out.push_str(
            "unloads: () => {},\ncurr_index: undefined,\nswapView: function(index) {\n    if (index == this.curr_index) {\n        return;\n    }\n\n    this.unloads();\n    let unloads = [];\n\n    this.curr_index = index;\n    ",
        );
        out.push_str(options.as_str());
        out.push_str(
            "\n\n    this.unloads = () => {\n        unloads.forEach((unload) => unload());\n    };\n}",
        );
        assert(out@ =~= view_props(self.pieces@));
        Some(out)
    }
}

} // verus!

//! Generators: a piece repeated once per item of a bound list.
use vstd::prelude::*;

use crate::dynamic_string::{DynamicBindString, SetData, SetDataView};
use crate::error::GameReadError;
use crate::event::Event;
use crate::half_compiled::Outcome;
use crate::outside::indent_by;
use crate::pieces::{PieceData, 
    make_piece_id, make_unload_push, piece_id_text, register_single_binding,
    single_binding_register, unload_push_text, Pieces,
};
use crate::state::State;

verus! {

/// A piece repeated for every item of a list.
#[derive(Debug)]
pub struct Generator {
    pub id: String,
    pub data: GeneratorData,
    pub states: Vec<State>,
    pub events: Vec<Event>,
    pub base: Box<Pieces>,
}

/// The bound list, and the input names under which each copy of the base sees
/// its index and its item (`_` for none).
#[derive(Debug)]
pub struct GeneratorData {
    pub index: String,
    pub iterator: String,
    pub list: DynamicBindString,
}

impl PieceData for GeneratorData {
    open spec fn register(&self) -> Outcome<(Seq<char>, Seq<char>)> {
        single_binding_register(self.list, SetDataView::Function("slf.update"@))
    }

    /// The data's initializations and subscriptions: the list is handed to `slf.update`.
    fn js_register(&self) -> (r: Result<(String, String), GameReadError>) {
        let target = "slf.update".to_string();
        register_single_binding(&self.list, SetData::Function(target))
    }
}

/// The code that adds one copy of the base piece.
pub open spec fn load_child_text(base: Pieces) -> Seq<char> {
    "let child = document.createElement(null);\nslf.element.appendChild(child);\nchild.outerHTML = "@
        + base.skeleton() + ";\n"@ + unload_push_text(base.load_call())
}

/// The extra properties of a generator's `slf`: `update` unloads all copies
/// and adds one copy of the base per item of the list.
pub open spec fn generator_props(base: Pieces, index: Seq<char>, iterator: Seq<char>) -> Seq<char> {
    "unloads: () => {},\nupdate: function(list) {\n    this.unloads();\n    slf.element.innerHTML = \"\";\n    let unloads = [];\n\n    list.forEach((it, idx) => {\n        let sub_id = crypto.randomUUID().split(\"-\")[0];\n        let inputs = Object.create(null);\n        if (\""@
        + iterator + "\" != \"_\") {\n            inputs."@ + iterator
        + " = it;\n        }\n        if (\""@ + index + "\" != \"_\") {\n            inputs."@
        + index + " = idx;\n        }\n\n        // Base\n        "@
        + crate::text::indent_by(8, load_child_text(base))
        + "\n    });\n\n    this.unloads = () => {\n        unloads.forEach((unload) => unload());\n    };\n}"@
}

impl Generator {
    pub fn states(&self) -> (r: &Vec<State>)
        ensures
            r == &self.states,
    {
        &self.states
    }

    pub fn events(&self) -> (r: &Vec<Event>)
        ensures
            r == &self.events,
    {
        &self.events
    }

    pub fn data(&self) -> (r: &GeneratorData)
        ensures
            r == &self.data,
    {
        &self.data
    }

    /// The element id `Generator$id` (escaped: `Generator\\$id`).
    pub fn piece_id(&self, escaped_dollar: bool) -> (r: String)
        ensures
            r@ == piece_id_text("Generator"@, self.id@, escaped_dollar),
    {
        make_piece_id("Generator", &self.id, escaped_dollar)
    }

    pub fn piece_name(&self) -> (r: String)
        ensures
            r@ == "Generator"@,
    {
        "Generator".to_string()
    }

    pub fn html_tag(&self) -> (r: String)
        ensures
            r@ == "div"@,
    {
        "div".to_string()
    }

    /// The one child: the base piece.
    pub fn children(&self) -> (r: &Pieces)
        ensures
            r == &*self.base,
    {
        &self.base
    }

    /// The extra properties of the generator's `slf`.
    pub fn extra_slf_props(&self) -> (r: Option<String>)
        ensures
            r matches Some(s) && s@ == generator_props(
                *self.base,
                self.data.index@,
                self.data.iterator@,
            ),
    {
        let idx = &self.data.index;
        let it = &self.data.iterator;
        let call = (*self.base).js_load_call();
        let push = make_unload_push(&call);
        let skeleton = (*self.base).html_skeleton();
        let mut child = String::new();
        child.push_str(
            "let child = document.createElement(null);\nslf.element.appendChild(child);\nchild.outerHTML = ",
        );
        child.push_str(skeleton.as_str());
        child.push_str(";\n");
        child.push_str(push.as_str());
        let load_child = indent_by(8, child.as_str());
        let mut out = String::new();
        out.push_str(
            "unloads: () => {},\nupdate: function(list) {\n    this.unloads();\n    slf.element.innerHTML = \"\";\n    let unloads = [];\n\n    list.forEach((it, idx) => {\n        let sub_id = crypto.randomUUID().split(\"-\")[0];\n        let inputs = Object.create(null);\n        if (\"",
        );
        out.push_str(it.as_str());
        out.push_str("\" != \"_\") {\n            inputs.");
        out.push_str(it.as_str());
        out.push_str(" = it;\n        }\n        if (\"");
        out.push_str(idx.as_str());
        out.push_str("\" != \"_\") {\n            inputs.");
        out.push_str(idx.as_str());
        out.push_str(" = idx;\n        }\n\n        // Base\n        ");
        out.push_str(load_child.as_str());
        out.push_str(
            "\n    });\n\n    this.unloads = () => {\n        unloads.forEach((unload) => unload());\n    };\n}",
        );
        Some(out)
    }
}

} // verus!

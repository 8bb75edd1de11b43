//! States: values that pieces and their children share.
use vstd::prelude::*;

use crate::dynamic_string::{
    pair_views, compile_binding, compile_callback, DynamicBindString, DynamicCallbackString, SetData, SetDataView,
};
use crate::error::GameReadError;
use crate::half_compiled::{half_compile, Outcome};
use crate::outside::indent_by;
use crate::text::views;

verus! {

/// A state of a piece.
#[derive(Debug)]
pub struct State {
    pub id: String,
    pub data: StateData,
}

/// A state's data as it is written in a game description.
#[derive(Debug)]
pub struct RawStateData {
    pub initial_value: DynamicBindString,
    pub validate: Option<String>,
}

/// A state's initial value and its optional validation callback.
#[derive(Debug)]
pub struct StateData {
    pub initial_value: DynamicBindString,
    pub validate: Option<DynamicCallbackString>,
}

/// The outcome of compiling the callback `dsc` as the property `name`.
pub open spec fn callback_data(dsc: DynamicCallbackString, name: Seq<char>) -> Outcome<Seq<char>> {
    compile_callback(dsc.source_view(), dsc.params_view(), Seq::empty()).and_then(
        |value: Seq<char>| Outcome::Done(name + ": "@ + value),
    )
}

/// The outcome of the properties of a state's data, one per line.
pub open spec fn json_pairs(data: StateData) -> Outcome<Seq<char>> {
    match data.validate {
        Some(v) => callback_data(v, "validate"@),
        None => Outcome::Done(Seq::empty()),
    }
}

/// The JavaScript that creates the state `id` with the initial value `initial`
/// and the properties `pairs`.
pub open spec fn state_text(id: Seq<char>, initial: Seq<char>, pairs: Seq<char>) -> Seq<char> {
    "slf.states."@ + id + " = State.create("@ + initial + ", {\n    "@ + crate::text::indent_by(
        4,
        pairs,
    ) + "\n})"@
}

/// The outcome of registering a state: its properties are compiled first, then
/// its initial value, whose first value (the entry with the empty key) is used.
pub open spec fn state_register(s: State) -> Outcome<Seq<char>> {
    json_pairs(s.data).and_then(
        |pairs: Seq<char>|
            compile_binding(s.data.initial_value.source_view(), SetDataView::Value).and_then(
                |entries: Seq<(Seq<char>, Seq<char>)>|
                    Outcome::Done(state_text(s.id@, entries.last().1, pairs)),
            ),
    )
}

pub open spec fn subscribing_state_msg(name: Seq<char>) -> Seq<char> {
    "States cannot depend on other states through subscriptions ('"@ + name + "')"@
}

impl State {
    /// The JavaScript that registers the state.
    pub fn js_register(&self) -> (r: Result<String, GameReadError>)
        requires
            !(state_register(*self) is Stuck),
        ensures
            match state_register(*self) {
                Outcome::Done(t) => r matches Ok(s) && s@ == t,
                Outcome::Failed(m) => r matches Err(GameReadError::DynamicString(e)) && e@ == m,
                Outcome::Stuck => false,
            },
    {
        let pairs = self.data.as_json_pairs();
        let pairs = match pairs {
            Ok(p) => p,
            Err(e) => {
                return Err(e);
            },
        };
        let data_obj = indent_by(4, pairs.as_str());
        let compiled = self.data.initial_value.compile(SetData::Value);
        let compiled = match compiled {
            Ok(c) => c,
            Err(e) => {
                return Err(e);
            },
        };
        // The entry with the empty key comes last; it is always there.
        let initial = &compiled[compiled.len() - 1].1;
        let mut out = String::new();
        out.push_str("slf.states.");
        out.push_str(self.id.as_str());
        out.push_str(" = State.create(");
        out.push_str(initial.as_str());
        out.push_str(", {\n    ");
        out.push_str(data_obj.as_str());
        out.push_str("\n})");
        Ok(out)
    }
}

impl StateData {
    /// The state data of `value`: its validation callback takes the new state
    /// as the parameter `newState`.
    pub fn from_raw(value: RawStateData) -> (r: Self)
        ensures
            r.initial_value == value.initial_value,
            match value.validate {
                Some(v) => r.validate matches Some(c) && c.source_view() == v@
                    && c.params_view() == seq!["newState"@],
                None => r.validate is None,
            },
    {
        let validate = match value.validate {
            Some(validate) => {
                let mut params: Vec<String> = Vec::new();
                params.push("newState".to_string());
                let c = DynamicCallbackString::from_source(validate).with_params(params);
                proof {
                    assert(views(params@) =~= seq!["newState"@]);
                }
                Some(c)
            },
            None => None,
        };
        StateData { initial_value: value.initial_value, validate }
    }

    /// The property `name: value` of the compiled callback `dsc`.
    pub fn compile_callback_data(dsc: &DynamicCallbackString, name: &str) -> (r: Result<
        String,
        GameReadError,
    >)
        requires
            !(callback_data(*dsc, name@) is Stuck),
        ensures
            match callback_data(*dsc, name@) {
                Outcome::Done(t) => r matches Ok(s) && s@ == t,
                Outcome::Failed(m) => r matches Err(GameReadError::DynamicString(e)) && e@ == m,
                Outcome::Stuck => false,
            },
    {
        let value = dsc.compile("");
        proof {
            reveal_strlit("");
            assert(""@ =~= Seq::<char>::empty());
        }
        match value {
            Ok(v) => {
                let mut out = String::new();
                out.push_str(name);
                out.push_str(": ");
                out.push_str(v.as_str());
                Ok(out)
            },
            Err(e) => Err(e),
        }
    }

    /// The property `name: value` of the first value of the binding `dsc`, which
    /// must not subscribe to any state.
    pub fn compile_bind_data(dsc: &DynamicBindString, name: &str) -> (r: Result<
        String,
        GameReadError,
    >)
        requires
            !(compile_binding(dsc.source_view(), SetDataView::Value) is Stuck),
        ensures
            match compile_binding(dsc.source_view(), SetDataView::Value) {
                Outcome::Done(entries) => if entries.len() > 1 {
                    r matches Err(GameReadError::State(e)) && e@ == subscribing_state_msg(name@)
                } else {
                    r matches Ok(s) && s@ == name@ + ": "@ + entries.last().1
                },
                Outcome::Failed(m) => r matches Err(GameReadError::DynamicString(e)) && e@ == m,
                Outcome::Stuck => false,
            },
    {
        let compiled = dsc.compile(SetData::Value);
        let compiled = match compiled {
            Ok(c) => c,
            Err(e) => {
                return Err(e);
            },
        };
        assert(pair_views(compiled@).len() == compiled@.len());
        if compiled.len() > 1 {
            let mut msg = String::new();
            msg.push_str("States cannot depend on other states through subscriptions ('");
            msg.push_str(name);
            msg.push_str("')");
            return Err(GameReadError::State(msg));
        }
        let value = &compiled[compiled.len() - 1].1;
        let mut out = String::new();
        out.push_str(name);
        out.push_str(": ");
        out.push_str(value.as_str());
        Ok(out)
    }

    /// The properties of the state's data, one per line.
    pub fn as_json_pairs(&self) -> (r: Result<String, GameReadError>)
        requires
            !(json_pairs(*self) is Stuck),
        ensures
            match json_pairs(*self) {
                Outcome::Done(t) => r matches Ok(s) && s@ == t,
                Outcome::Failed(m) => r matches Err(GameReadError::DynamicString(e)) && e@ == m,
                Outcome::Stuck => false,
            },
    {
        match &self.validate {
            Some(validate) => Self::compile_callback_data(validate, "validate"),
            None => Ok(String::new()),
        }
    }
}

/// Neither dynamic string of the state runs into the slicing panic of the rune scan.
pub open spec fn state_ok(s: State) -> bool {
    &&& !(half_compile(s.data.initial_value.source_view(), true) is Stuck)
    &&& (s.data.validate matches Some(v) ==> !(half_compile(v.source_view(), false) is Stuck))
}

pub proof fn lemma_state_ok(s: State)
    requires
        state_ok(s),
    ensures
        !(state_register(s) is Stuck),
{
}

impl State {
    /// Whether registering the state runs into no slicing panic.
    pub fn compiles_safely(&self) -> (r: bool)
        ensures
            r == state_ok(*self),
    {
        if self.data.initial_value.compile_panics() {
            return false;
        }
        match &self.data.validate {
            Some(v) => !v.compile_panics(),
            None => true,
        }
    }
}

} // verus!

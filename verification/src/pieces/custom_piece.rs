//! Custom pieces: a piece type defined in a game project, with named inputs
//! that each use of the type fills with dynamic strings.
use vstd::prelude::*;

use crate::dynamic_string::{
    compile_binding, compile_callback, pair_views, DynamicBindString, DynamicCallbackString,
    DynamicString, SetData, SetDataView,
};
use crate::error::{Checked, GameReadError};
use crate::event::Event;
use crate::half_compiled::Outcome;
use crate::outside::indent_by;
use crate::pieces::{
    add_bindings, binding_views, bindings_added, compile_bindings, lemma_bindings_added, load_fns,
    register_subscriptions, subscriptions, PieceData, Pieces,
};
use crate::state::State;
use crate::text::{clone_strings, join, join_strings, views};

verus! {

/// An input that a custom piece type declares.
#[derive(Debug)]
pub enum CustomPieceInput {
    /// A callback input, compiled with the given parameters.
    Callback { id: String, required: bool, params: Vec<String> },
    /// A binding input.
    Bind { id: String, required: bool },
}

impl CustomPieceInput {
    pub open spec fn id_view(&self) -> Seq<char> {
        match self {
            CustomPieceInput::Callback { id, .. } => id@,
            CustomPieceInput::Bind { id, .. } => id@,
        }
    }

    pub open spec fn is_required(&self) -> bool {
        match self {
            CustomPieceInput::Callback { required, .. } => *required,
            CustomPieceInput::Bind { required, .. } => *required,
        }
    }

    /// Whether every use of the type must give the input.
    pub fn required(&self) -> (r: bool)
        ensures
            r == self.is_required(),
    {
        match self {
            CustomPieceInput::Bind { required, .. } => *required,
            CustomPieceInput::Callback { required, .. } => *required,
        }
    }

    /// The input's name.
    pub fn id(&self) -> (r: &str)
        ensures
            r@ == self.id_view(),
    {
        match self {
            CustomPieceInput::Bind { id, .. } => id.as_str(),
            CustomPieceInput::Callback { id, .. } => id.as_str(),
        }
    }
}

/// A custom piece type: its inputs and the piece it stands for.
#[derive(Debug)]
pub struct CustomPieceType {
    pub inputs: Vec<CustomPieceInput>,
    pub base: Box<Pieces>,
    /// The load functions of the base were produced already.
    pub base_was_built: bool,
}

/// Index of the last `.` of `s` before index `i`, or -1.
pub open spec fn last_dot(s: Seq<char>, i: int) -> int
    decreases i,
{
    if i <= 0 || i > s.len() {
        -1
    } else if s[i - 1] == '.' {
        i - 1
    } else {
        last_dot(s, i - 1)
    }
}

/// The custom piece type that a file named `name` defines: the name without
/// its extension, when the extension is `yaml`. A name whose only `.` is its
/// first character has no extension.
pub open spec fn type_file_name(name: Seq<char>) -> Option<Seq<char>> {
    let p = last_dot(name, name.len() as int);
    if p > 0 && name.subrange(p + 1, name.len() as int) == "yaml"@ {
        Some(name.subrange(0, p))
    } else {
        None
    }
}

/// The name of the custom piece type that the file `file_name` defines, if it
/// is a `.yaml` file.
pub fn custom_type_name(file_name: &str) -> (r: Option<String>)
    ensures
        match type_file_name(file_name@) {
            Some(n) => r matches Some(t) && t@ == n,
            None => r is None,
        },
{
    let cs = crate::text::chars_of(file_name);
    let mut i: usize = cs.len();
    while i > 0 && cs[i - 1] != '.'
        invariant
            i <= cs@.len(),
            last_dot(cs@, cs@.len() as int) == last_dot(cs@, i as int),
        decreases i,
    {
        i = i - 1;
    }
    if i <= 1 {
        return None;
    }
    let p = i - 1;
    let ext = crate::text::chars_of("yaml");
    if cs.len() - (p + 1) == ext.len() && crate::text::occurs_at(&cs, p + 1, &ext) {
        assert(cs@.subrange(p + 1, cs@.len() as int) =~= ext@);
        Some(crate::text::string_of_range(&cs, 0, p))
    } else {
        assert(cs@.subrange(p + 1, cs@.len() as int) != "yaml"@) by {
            if cs@.subrange(p + 1, cs@.len() as int) == "yaml"@ {
                assert(ext@.is_prefix_of(cs@.skip(p + 1)));
            }
        }
        None
    }
}

/// A use of a custom piece type as written in a game description: its inputs
/// are plain texts, each name once.
#[derive(Debug)]
pub struct RawCustomPiece {
    pub id: String,
    pub piece_type: String,
    pub inputs: Vec<(String, String)>,
}

/// A use of a custom piece type, with its inputs compiled.
#[derive(Debug)]
pub struct CustomPiece {
    pub id: String,
    /// The name of the type.
    pub piece_type: String,
    pub data: CustomPieceData,
}

/// The compiled inputs of a custom piece: their initializations and their
/// subscriptions.
#[derive(Debug)]
pub struct CustomPieceData {
    pub inits: String,
    pub bindings: String,
}

/// The model of an input's dynamic string.
pub enum InputView {
    Callback(Seq<char>, Seq<Seq<char>>),
    Bind(Seq<char>),
}

pub open spec fn input_view(d: DynamicString) -> InputView {
    match d {
        DynamicString::Callback(c) => InputView::Callback(c.source_view(), c.params_view()),
        DynamicString::Bind(b) => InputView::Bind(b.source_view()),
    }
}

pub open spec fn inputs_view(v: Seq<(String, DynamicString)>) -> Seq<(Seq<char>, InputView)> {
    v.map_values(|p: (String, DynamicString)| (p.0@, input_view(p.1)))
}

/// The outcome of compiling the inputs `inputs[i..]`, adding to the
/// initializations `inits` and the bindings `bs`.
pub open spec fn custom_data_from(
    inputs: Seq<(Seq<char>, InputView)>,
    i: int,
    inits: Seq<Seq<char>>,
    bs: Seq<(Seq<char>, Seq<Seq<char>>)>,
) -> Outcome<(Seq<Seq<char>>, Seq<(Seq<char>, Seq<Seq<char>>)>)>
    decreases inputs.len() - i,
{
    if i < 0 || i >= inputs.len() {
        Outcome::Done((inits, bs))
    } else {
        let name = inputs[i].0;
        match inputs[i].1 {
            InputView::Callback(src, params) => match compile_callback(
                src,
                params,
                "inputs."@ + name,
            ) {
                Outcome::Done(t) => custom_data_from(inputs, i + 1, inits.push(t + ";"@), bs),
                Outcome::Failed(m) => Outcome::Failed(m),
                Outcome::Stuck => Outcome::Stuck,
            },
            InputView::Bind(src) => match bindings_added(
                src,
                SetDataView::Variable("inputs."@ + name),
                inits,
                bs,
            ) {
                Outcome::Done((inits2, bs2)) => custom_data_from(inputs, i + 1, inits2, bs2),
                Outcome::Failed(m) => Outcome::Failed(m),
                Outcome::Stuck => Outcome::Stuck,
            },
        }
    }
}

/// The outcome of compiling the inputs: the initializations one per line, and
/// the subscriptions.
pub open spec fn custom_data(inputs: Seq<(Seq<char>, InputView)>) -> Outcome<(Seq<char>, Seq<char>)> {
    custom_data_from(inputs, 0, Seq::empty(), Seq::empty()).and_then(
        |x: (Seq<Seq<char>>, Seq<(Seq<char>, Seq<Seq<char>>)>)|
            Outcome::Done((join(x.0, "\n"@), join(subscriptions(x.1), "\n\n"@))),
    )
}

/// Index of the first entry with the key `key` from index `i` on, or -1.
pub open spec fn find_entry(og: Seq<(Seq<char>, Seq<char>)>, key: Seq<char>, i: int) -> int
    decreases og.len() - i,
{
    if i < 0 || i >= og.len() {
        -1
    } else if og[i].0 == key {
        i
    } else {
        find_entry(og, key, i + 1)
    }
}

pub open spec fn required_msg(input: Seq<char>, kind: Seq<char>, piece: Seq<char>) -> Seq<char> {
    "Input `"@ + input + "` required for custom piece type `"@ + kind + "` (piece '"@ + piece
        + "')"@
}

pub open spec fn undefined_type_msg(kind: Seq<char>) -> Seq<char> {
    "Undefined custom piece type `"@ + kind + "`"@
}

pub open spec fn unknown_inputs_msg(og: Seq<(Seq<char>, Seq<char>)>, piece: Seq<char>) -> Seq<char> {
    "Unknown inputs {"@ + join(
        og.map_values(|e: (Seq<char>, Seq<char>)| "'"@ + e.0 + "'"@),
        ", "@,
    ) + "} found for piece '"@ + piece + "', remove them"@
}

/// How collecting the inputs ended: the collected inputs and the given inputs
/// left over, or the message of a refusal.
pub enum Collected {
    Done(Seq<(Seq<char>, InputView)>, Seq<(Seq<char>, Seq<char>)>),
    Refused(Seq<char>),
}

/// Collects the declared inputs `ty[k..]` from the given inputs `og`: each
/// declared input takes the given input of its name, as a callback or a binding;
/// a required input that is not given refuses the piece.
pub open spec fn collect_inputs(
    ty: Seq<CustomPieceInput>,
    k: int,
    og: Seq<(Seq<char>, Seq<char>)>,
    acc: Seq<(Seq<char>, InputView)>,
    piece: Seq<char>,
    kind: Seq<char>,
) -> Collected
    decreases ty.len() - k,
{
    if k < 0 || k >= ty.len() {
        Collected::Done(acc, og)
    } else {
        let input = ty[k];
        let j = find_entry(og, input.id_view(), 0);
        if j >= 0 {
            let v = match input {
                CustomPieceInput::Callback { params, .. } => InputView::Callback(
                    og[j].1,
                    views(params@),
                ),
                CustomPieceInput::Bind { .. } => InputView::Bind(og[j].1),
            };
            collect_inputs(ty, k + 1, og.remove(j), acc.push((og[j].0, v)), piece, kind)
        } else if input.is_required() {
            Collected::Refused(required_msg(input.id_view(), kind, piece))
        } else {
            collect_inputs(ty, k + 1, og, acc, piece, kind)
        }
    }
}

/// Index of the first type named `name` from index `i` on, or -1.
pub open spec fn type_index(types: Seq<(String, CustomPieceType)>, name: Seq<char>, i: int) -> int
    decreases types.len() - i,
{
    if i < 0 || i >= types.len() {
        -1
    } else if types[i].0@ == name {
        i
    } else {
        type_index(types, name, i + 1)
    }
}

/// The checks of a custom piece against the defined types: its type must be
/// defined, its required inputs given, and no input given that the type does
/// not declare. The collected inputs, or the refusal's message.
pub open spec fn check_custom_piece(raw: RawCustomPiece, types: Seq<(String, CustomPieceType)>) -> Result<
    Seq<(Seq<char>, InputView)>,
    Seq<char>,
> {
    let t = type_index(types, raw.piece_type@, 0);
    if t < 0 {
        Err(undefined_type_msg(raw.piece_type@))
    } else {
        match collect_inputs(
            types[t].1.inputs@,
            0,
            pair_views(raw.inputs@),
            Seq::empty(),
            raw.id@,
            raw.piece_type@,
        ) {
            Collected::Refused(m) => Err(m),
            Collected::Done(acc, og) => if og.len() > 0 {
                Err(unknown_inputs_msg(og, raw.id@))
            } else {
                Ok(acc)
            },
        }
    }
}

/// The load call of a use of a custom piece type: the inputs are initialized
/// in a scope of their own, then the base is loaded.
pub open spec fn custom_load_call(inits: Seq<char>, base: Pieces) -> Seq<char> {
    "{\n    const outer_inputs = inputs;\n\n    {\n        let inputs = Object.create(outer_inputs);\n        "@
        + crate::text::indent_by(8, inits) + "\n\n        unloads.push("@ + base.load_call()
        + ");\n    }\n}"@
}

fn find_entry_exec(og: &Vec<(String, String)>, key: &String) -> (r: Option<usize>)
    ensures
        match r {
            Some(j) => j == find_entry(pair_views(og@), key@, 0),
            None => find_entry(pair_views(og@), key@, 0) == -1,
        },
{
    let mut i: usize = 0;
    while i < og.len()
        invariant
            i <= og@.len(),
            find_entry(pair_views(og@), key@, 0) == find_entry(pair_views(og@), key@, i as int),
        decreases og.len() - i,
    {
        if og[i].0 == *key {
            return Some(i);
        }
        i = i + 1;
    }
    None
}

pub proof fn lemma_find_entry_range(og: Seq<(Seq<char>, Seq<char>)>, key: Seq<char>, i: int)
    requires
        0 <= i,
    ensures
        find_entry(og, key, i) == -1 || (i <= find_entry(og, key, i) < og.len() && og[find_entry(
            og,
            key,
            i,
        )].0 == key),
    decreases og.len() - i,
{
    if i < og.len() && og[i].0 != key {
        lemma_find_entry_range(og, key, i + 1);
    }
}

fn type_index_exec(types: &Vec<(String, CustomPieceType)>, name: &String) -> (r: Option<usize>)
    ensures
        match r {
            Some(t) => t == type_index(types@, name@, 0),
            None => type_index(types@, name@, 0) == -1,
        },
{
    let mut i: usize = 0;
    while i < types.len()
        invariant
            i <= types@.len(),
            type_index(types@, name@, 0) == type_index(types@, name@, i as int),
        decreases types.len() - i,
    {
        if types[i].0 == *name {
            return Some(i);
        }
        i = i + 1;
    }
    None
}

pub proof fn lemma_type_index_range(types: Seq<(String, CustomPieceType)>, name: Seq<char>, i: int)
    requires
        0 <= i,
    ensures
        type_index(types, name, i) == -1 || (i <= type_index(types, name, i) < types.len()),
    decreases types.len() - i,
{
    if i < types.len() && types[i].0@ != name {
        lemma_type_index_range(types, name, i + 1);
    }
}

/// `"inputs."` followed by `name`.
fn input_var(name: &String) -> (r: String)
    ensures
        r@ == "inputs."@ + name@,
{
    let mut r = String::new();
    r.push_str("inputs.");
    r.push_str(name.as_str());
    r
}

impl CustomPieceData {
    /// Compiles the inputs: a callback is set to its variable `inputs.<name>`,
    /// a binding binds its first value and updates to it.
    pub fn new(inputs: Vec<(String, DynamicString)>) -> (r: Result<Self, GameReadError>)
        requires
            !(custom_data(inputs_view(inputs@)) is Stuck),
        ensures
            match custom_data(inputs_view(inputs@)) {
                Outcome::Done((inits, binds)) => r matches Ok(d) && d.inits@ == inits
                    && d.bindings@ == binds,
                Outcome::Failed(m) => r matches Err(GameReadError::DynamicString(e)) && e@ == m,
                Outcome::Stuck => false,
            },
    {
        match Self::new_checked(inputs) {
            Checked::Done(d) => Ok(d),
            Checked::Failed(e) => Err(e),
            Checked::Panics => Err(GameReadError::DynamicString(String::new())),
        }
    }

    /// Compiles the inputs as `new` does; `Panics` on an input on which the
    /// rune scan slices inside a character.
    pub fn new_checked(inputs: Vec<(String, DynamicString)>) -> (r: Checked<Self>)
        ensures
            match custom_data(inputs_view(inputs@)) {
                Outcome::Done((inits, binds)) => r matches Checked::Done(d) && d.inits@ == inits
                    && d.bindings@ == binds,
                Outcome::Failed(m) => r matches Checked::Failed(GameReadError::DynamicString(e))
                    && e@ == m,
                Outcome::Stuck => r is Panics,
            },
    {
        let ghost iv = inputs_view(inputs@);
        let mut inits: Vec<String> = Vec::new();
        let mut bindings: Vec<(String, Vec<String>)> = Vec::new();
        let mut i: usize = 0;
        assert(views(inits@) =~= Seq::<Seq<char>>::empty());
        assert(binding_views(bindings@) =~= Seq::<(Seq<char>, Seq<Seq<char>>)>::empty());
        let ghost total = custom_data_from(iv, 0, Seq::empty(), Seq::empty());
        while i < inputs.len()
            invariant
                i <= inputs@.len(),
                iv == inputs_view(inputs@),
                total == custom_data_from(iv, 0, Seq::empty(), Seq::empty()),
                total == custom_data_from(iv, i as int, views(inits@), binding_views(bindings@)),
            decreases inputs.len() - i,
        {
            let name = &inputs[i].0;
            assert(iv[i as int].0 == name@);
            match &inputs[i].1 {
                DynamicString::Callback(dsc) => {
                    if dsc.compile_panics() {
                        return Checked::Panics;
                    }
                    let var = input_var(name);
                    let compiled = dsc.compile(var.as_str());
                    match compiled {
                        Ok(t) => {
                            let mut line = t;
                            line.push_str(";");
                            let ghost before = views(inits@);
                            let ghost lv = line@;
                            inits.push(line);
                            assert(views(inits@) =~= before.push(lv));
                        },
                        Err(e) => {
                            return Checked::Failed(e);
                        },
                    }
                },
                DynamicString::Bind(dsc) => {
                    if dsc.compile_panics() {
                        return Checked::Panics;
                    }
                    let var = input_var(name);
                    let r = compile_bindings(dsc, &mut inits, SetData::Variable(var), &mut bindings);
                    match r {
                        Ok(()) => {},
                        Err(e) => {
                            return Checked::Failed(e);
                        },
                    }
                },
            }
            i = i + 1;
        }
        let data_subscriptions = register_subscriptions(bindings);
        Checked::Done(
            CustomPieceData {
                inits: join_strings(&inits, "\n"),
                bindings: join_strings(&data_subscriptions, "\n\n"),
            },
        )
    }

}

impl PieceData for CustomPieceData {
    open spec fn register(&self) -> Outcome<(Seq<char>, Seq<char>)> {
        Outcome::Done((Seq::empty(), self.bindings@))
    }

    /// No initializations; the subscriptions of the inputs.
    fn js_register(&self) -> (r: Result<(String, String), GameReadError>) {
        Ok((String::new(), self.bindings.clone()))
    }
}

impl CustomPiece {
    /// Checks `value` against the defined custom piece types `types` (each name
    /// once) and compiles its inputs.
    pub fn try_from(value: RawCustomPiece, types: &Vec<(String, CustomPieceType)>) -> (r: Result<
        Self,
        GameReadError,
    >)
        requires
            check_custom_piece(value, types@) matches Ok(inputs) ==> !(custom_data(inputs) is Stuck),
        ensures
            match check_custom_piece(value, types@) {
                Err(m) => r matches Err(GameReadError::CustomPiece(e)) && e@ == m,
                Ok(inputs) => match custom_data(inputs) {
                    Outcome::Done((inits, binds)) => r matches Ok(p) && p.id@ == value.id@
                        && p.piece_type@ == value.piece_type@ && p.data.inits@ == inits
                        && p.data.bindings@ == binds,
                    Outcome::Failed(m) => r matches Err(GameReadError::DynamicString(e)) && e@
                        == m,
                    Outcome::Stuck => false,
                },
            },
    {
        match Self::try_from_checked(value, types) {
            Checked::Done(p) => Ok(p),
            Checked::Failed(e) => Err(e),
            Checked::Panics => Err(GameReadError::DynamicString(String::new())),
        }
    }

    /// Checks and compiles `value` as `try_from` does, on every input: `Panics`
    /// where the compilation of an input reaches a slice inside a character.
    pub fn try_from_checked(value: RawCustomPiece, types: &Vec<(String, CustomPieceType)>) -> (r: Checked<
        Self,
    >)
        ensures
            match check_custom_piece(value, types@) {
                Err(m) => r matches Checked::Failed(GameReadError::CustomPiece(e)) && e@ == m,
                Ok(inputs) => match custom_data(inputs) {
                    Outcome::Done((inits, binds)) => r matches Checked::Done(p) && p.id@ == value.id@
                        && p.piece_type@ == value.piece_type@ && p.data.inits@ == inits
                        && p.data.bindings@ == binds,
                    Outcome::Failed(m) => r matches Checked::Failed(GameReadError::DynamicString(e))
                        && e@ == m,
                    Outcome::Stuck => r is Panics,
                },
            },
    {
        let t = type_index_exec(types, &value.piece_type);
        proof {
            lemma_type_index_range(types@, value.piece_type@, 0);
        }
        let t = match t {
            Some(t) => t,
            None => {
                let mut msg = String::new();
                msg.push_str("Undefined custom piece type `");
                msg.push_str(value.piece_type.as_str());
                msg.push_str("`");
                return Checked::Failed(GameReadError::CustomPiece(msg));
            },
        };
        let piece_type = &types[t].1;
        let id = value.id;
        let mut og_inputs = value.inputs;
        let mut inputs: Vec<(String, DynamicString)> = Vec::new();
        let mut k: usize = 0;
        assert(inputs_view(inputs@) =~= Seq::<(Seq<char>, InputView)>::empty());
        let ghost goal = collect_inputs(
            piece_type.inputs@,
            0,
            pair_views(og_inputs@),
            Seq::empty(),
            id@,
            value.piece_type@,
        );
        let ghost check = check_custom_piece(value, types@);
        assert(check == match goal {
            Collected::Refused(m) => Err(m),
            Collected::Done(acc, og) => if og.len() > 0 {
                Err(unknown_inputs_msg(og, id@))
            } else {
                Ok(acc)
            },
        });
        while k < piece_type.inputs.len()
            invariant
                k <= piece_type.inputs@.len(),
                check == check_custom_piece(value, types@),
                check == match goal {
                    Collected::Refused(m) => Err(m),
                    Collected::Done(acc, og) => if og.len() > 0 {
                        Err(unknown_inputs_msg(og, id@))
                    } else {
                        Ok(acc)
                    },
                },
                goal == collect_inputs(
                    piece_type.inputs@,
                    k as int,
                    pair_views(og_inputs@),
                    inputs_view(inputs@),
                    id@,
                    value.piece_type@,
                ),
            decreases piece_type.inputs.len() - k,
        {
            let input = &piece_type.inputs[k];
            let key = input.id().to_string();
            let found = find_entry_exec(&og_inputs, &key);
            proof {
                lemma_find_entry_range(pair_views(og_inputs@), input.id_view(), 0);
            }
            match found {
                Some(j) => {
                    let ghost og_before = pair_views(og_inputs@);
                    let (name, og_value) = og_inputs.remove(j);
                    assert(pair_views(og_inputs@) =~= og_before.remove(j as int));
                    let value: DynamicString = match input {
                        CustomPieceInput::Callback { params, .. } => {
                            let ps = clone_strings(params);
                            DynamicString::Callback(
                                DynamicCallbackString::from_source(og_value).with_params(ps),
                            )
                        },
                        CustomPieceInput::Bind { .. } => {
                            DynamicString::Bind(DynamicBindString::from_source(og_value))
                        },
                    };
                    let ghost before = inputs_view(inputs@);
                    let ghost entry = (name@, input_view(value));
                    inputs.push((name, value));
                    assert(inputs_view(inputs@) =~= before.push(entry));
                },
                None => {
                    if input.required() {
                        let mut msg = String::new();
                        msg.push_str("Input `");
                        msg.push_str(input.id());
                        msg.push_str("` required for custom piece type `");
                        msg.push_str(value.piece_type.as_str());
                        msg.push_str("` (piece '");
                        msg.push_str(id.as_str());
                        msg.push_str("')");
                        assert(msg@ =~= required_msg(input.id_view(), value.piece_type@, id@));
                        return Checked::Failed(GameReadError::CustomPiece(msg));
                    }
                },
            }
            k = k + 1;
        }
        if og_inputs.len() > 0 {
            let mut extras: Vec<String> = Vec::new();
            let mut m: usize = 0;
            let ghost quoted = pair_views(og_inputs@).map_values(
                |e: (Seq<char>, Seq<char>)| "'"@ + e.0 + "'"@,
            );
            while m < og_inputs.len()
                invariant
                    m <= og_inputs@.len(),
                    quoted == pair_views(og_inputs@).map_values(
                        |e: (Seq<char>, Seq<char>)| "'"@ + e.0 + "'"@,
                    ),
                    views(extras@) == quoted.take(m as int),
                decreases og_inputs.len() - m,
            {
                let mut q = String::new();
                q.push_str("'");
                q.push_str(og_inputs[m].0.as_str());
                q.push_str("'");
                let ghost before = views(extras@);
                let ghost qv = q@;
                extras.push(q);
                assert(views(extras@) =~= before.push(qv));
                assert(quoted.take(m + 1) =~= quoted.take(m as int).push(qv));
                m = m + 1;
            }
            assert(quoted.take(m as int) =~= quoted);
            let joined = join_strings(&extras, ", ");
            let mut msg = String::new();
            msg.push_str("Unknown inputs {");
            msg.push_str(joined.as_str());
            msg.push_str("} found for piece '");
            msg.push_str(id.as_str());
            msg.push_str("', remove them");
            return Checked::Failed(GameReadError::CustomPiece(msg));
        }
        assert(pair_views(og_inputs@).len() == 0);
        let data = CustomPieceData::new_checked(inputs);
        match data {
            Checked::Done(data) => Checked::Done(CustomPiece { id, piece_type: value.piece_type, data }),
            Checked::Failed(e) => Checked::Failed(e),
            Checked::Panics => Checked::Panics,
        }
    }

    /// A use of a custom piece has no states of its own.
    pub fn states(&self) -> (r: Vec<State>)
        ensures
            r@.len() == 0,
    {
        Vec::new()
    }

    /// A use of a custom piece has no events of its own.
    pub fn events(&self) -> (r: Vec<Event>)
        ensures
            r@.len() == 0,
    {
        Vec::new()
    }

    pub fn data(&self) -> (r: &CustomPieceData)
        ensures
            r == &self.data,
    {
        &self.data
    }

    /// A use of a custom piece has no element id of its own.
    pub fn piece_id(&self) -> (r: String)
        ensures
            r@ == Seq::<char>::empty(),
    {
        String::new()
    }

    pub fn piece_name(&self) -> (r: String)
        ensures
            r@ == Seq::<char>::empty(),
    {
        String::new()
    }

    pub fn html_tag(&self) -> (r: String)
        ensures
            r@ == Seq::<char>::empty(),
    {
        String::new()
    }

    /// The skeleton of the type's base piece.
    pub fn html_skeleton(&self, piece_type: &CustomPieceType) -> (r: String)
        ensures
            r@ == piece_type.base.skeleton(),
    {
        piece_type.base.html_skeleton()
    }

    /// The load functions of the type's base, the first time; nothing after.
    pub fn js_load_fn(&self, piece_type: &mut CustomPieceType) -> (r: Result<String, GameReadError>)
        requires
            !old(piece_type).base_was_built ==> !(load_fns(*old(piece_type).base) is Stuck),
        ensures
            final(piece_type).base_was_built,
            final(piece_type).base == old(piece_type).base,
            final(piece_type).inputs == old(piece_type).inputs,
            old(piece_type).base_was_built ==> (r matches Ok(s) && s@ == Seq::<char>::empty()),
            !old(piece_type).base_was_built ==> match load_fns(*old(piece_type).base) {
                Outcome::Done(t) => r matches Ok(s) && s@ == t,
                Outcome::Failed(m) => r matches Err(GameReadError::DynamicString(e)) && e@ == m,
                Outcome::Stuck => false,
            },
    {
        if !piece_type.base_was_built {
            piece_type.base_was_built = true;
            piece_type.base.js_load_fn()
        } else {
            Ok(String::new())
        }
    }

    /// The load call: the inputs are set up in a scope of their own, then the
    /// type's base is loaded.
    pub fn js_load_call(&self, piece_type: &CustomPieceType) -> (r: String)
        ensures
            r@ == custom_load_call(self.data.inits@, *piece_type.base),
    {
        let input_inits = indent_by(8, self.data.inits.as_str());
        let base_call = piece_type.base.js_load_call();
        let mut out = String::new();
        out.push_str(
            "{\n    const outer_inputs = inputs;\n\n    {\n        let inputs = Object.create(outer_inputs);\n        ",
        );
        out.push_str(input_inits.as_str());
        out.push_str("\n\n        unloads.push(");
        out.push_str(base_call.as_str());
        out.push_str(");\n    }\n}");
        out
    }
}

/// Some entry of `og` has the key `key`.
pub open spec fn has_key(og: Seq<(Seq<char>, Seq<char>)>, key: Seq<char>) -> bool {
    exists|m: int| 0 <= m < og.len() && #[trigger] og[m].0 == key
}

/// Some input of `ty` from index `k` on is named `name`.
pub open spec fn declares(ty: Seq<CustomPieceInput>, k: int, name: Seq<char>) -> bool {
    exists|i: int| k <= i < ty.len() && #[trigger] ty[i].id_view() == name
}

proof fn lemma_collect_inputs(
    ty: Seq<CustomPieceInput>,
    k: int,
    og: Seq<(Seq<char>, Seq<char>)>,
    acc: Seq<(Seq<char>, InputView)>,
    piece: Seq<char>,
    kind: Seq<char>,
)
    requires
        0 <= k,
    ensures
        collect_inputs(ty, k, og, acc, piece, kind) matches Collected::Done(_, og2) ==> {
            &&& forall|x: (Seq<char>, Seq<char>)| og2.contains(x) ==> og.contains(x)
            &&& forall|i: int|
                k <= i < ty.len() && (#[trigger] ty[i]).is_required() ==> has_key(og, ty[i].id_view())
            &&& forall|x: (Seq<char>, Seq<char>)|
                og.contains(x) ==> og2.contains(x) || declares(ty, k, x.0)
        },
    decreases ty.len() - k,
{
    if k < ty.len() {
        let input = ty[k];
        let j = find_entry(og, input.id_view(), 0);
        crate::pieces::custom_piece::lemma_find_entry_range(og, input.id_view(), 0);
        if j >= 0 {
            let v = match input {
                CustomPieceInput::Callback { params, .. } => InputView::Callback(
                    og[j].1,
                    views(params@),
                ),
                CustomPieceInput::Bind { .. } => InputView::Bind(og[j].1),
            };
            let og1 = og.remove(j);
            lemma_collect_inputs(ty, k + 1, og1, acc.push((og[j].0, v)), piece, kind);
            match collect_inputs(ty, k, og, acc, piece, kind) {
                Collected::Done(_, og2) => {
                    assert forall|x: (Seq<char>, Seq<char>)| og1.contains(x) implies og.contains(x) by {
                        let m = choose|m: int| 0 <= m < og1.len() && og1[m] == x;
                        if m < j {
                            assert(og[m] == x);
                        } else {
                            assert(og[m + 1] == x);
                        }
                    }
                    assert forall|i: int|
                        k <= i < ty.len() && (#[trigger] ty[i]).is_required() implies has_key(
                        og,
                        ty[i].id_view(),
                    ) by {
                        if i == k {
                            assert(og[j].0 == ty[i].id_view());
                        } else {
                            assert(has_key(og1, ty[i].id_view()));
                            let m = choose|m: int| 0 <= m < og1.len() && #[trigger] og1[m].0 == ty[i].id_view();
                            assert(og1.contains(og1[m]));
                            let m2 = choose|m2: int| 0 <= m2 < og.len() && og[m2] == og1[m];
                            assert(og[m2].0 == ty[i].id_view());
                        }
                    }
                    assert forall|x: (Seq<char>, Seq<char>)| og.contains(x) implies og2.contains(x)
                        || declares(ty, k, x.0) by {
                        if og1.contains(x) {
                            if !og2.contains(x) {
                                assert(declares(ty, k + 1, x.0));
                                let i = choose|i: int| k + 1 <= i < ty.len() && #[trigger] ty[i].id_view() == x.0;
                                assert(ty[i].id_view() == x.0);
                            }
                        } else {
                            let m = choose|m: int| 0 <= m < og.len() && og[m] == x;
                            if m < j {
                                assert(og1[m] == x);
                            } else if m > j {
                                assert(og1[m - 1] == x);
                            } else {
                                assert(ty[k].id_view() == x.0);
                            }
                        }
                    }
                },
                _ => {},
            }
        } else if !input.is_required() {
            lemma_collect_inputs(ty, k + 1, og, acc, piece, kind);
            match collect_inputs(ty, k, og, acc, piece, kind) {
                Collected::Done(_, og2) => {
                    assert forall|i: int|
                        k <= i < ty.len() && (#[trigger] ty[i]).is_required() implies has_key(
                        og,
                        ty[i].id_view(),
                    ) by {
                        if i == k {
                        }
                    }
                    assert forall|x: (Seq<char>, Seq<char>)| og.contains(x) implies og2.contains(x)
                        || declares(ty, k, x.0) by {
                        if !og2.contains(x) {
                            let i = choose|i: int| k + 1 <= i < ty.len() && #[trigger] ty[i].id_view() == x.0;
                            assert(ty[i].id_view() == x.0);
                        }
                    }
                },
                _ => {},
            }
        }
    }
}

/// A use of a custom piece passes its checks only when its type is defined,
/// every required input of the type is given, and every given input is one
/// that the type declares.
pub proof fn lemma_custom_piece_checks(raw: RawCustomPiece, types: Seq<(String, CustomPieceType)>)
    ensures
        check_custom_piece(raw, types) is Ok ==> {
            let t = type_index(types, raw.piece_type@, 0);
            let ty = types[t].1.inputs@;
            let given = pair_views(raw.inputs@);
            &&& 0 <= t < types.len()
            &&& types[t].0@ == raw.piece_type@
            &&& forall|i: int|
                0 <= i < ty.len() && (#[trigger] ty[i]).is_required() ==> has_key(given, ty[i].id_view())
            &&& forall|m: int| 0 <= m < given.len() ==> declares(ty, 0, (#[trigger] given[m]).0)
        },
{
    let t = type_index(types, raw.piece_type@, 0);
    lemma_type_index_range(types, raw.piece_type@, 0);
    lemma_type_index_found(types, raw.piece_type@, 0);
    if t >= 0 {
        let ty = types[t].1.inputs@;
        let given = pair_views(raw.inputs@);
        lemma_collect_inputs(ty, 0, given, Seq::empty(), raw.id@, raw.piece_type@);
        match collect_inputs(ty, 0, given, Seq::empty(), raw.id@, raw.piece_type@) {
            Collected::Done(_, og2) => {
                if og2.len() == 0 {
                    assert forall|m: int| 0 <= m < given.len() implies declares(
                        ty,
                        0,
                        (#[trigger] given[m]).0,
                    ) by {
                        assert(given.contains(given[m]));
                        assert(!og2.contains(given[m]));
                    }
                }
            },
            _ => {},
        }
    }
}

proof fn lemma_type_index_found(types: Seq<(String, CustomPieceType)>, name: Seq<char>, i: int)
    requires
        0 <= i,
    ensures
        type_index(types, name, i) >= 0 ==> types[type_index(types, name, i)].0@ == name,
    decreases types.len() - i,
{
    if i < types.len() && types[i].0@ != name {
        lemma_type_index_found(types, name, i + 1);
    }
}

/* The refusals of a custom piece */

/// No two inputs of the type have the same name.
pub open spec fn ids_distinct(ty: Seq<CustomPieceInput>) -> bool {
    forall|a: int, b: int|
        0 <= a < ty.len() && 0 <= b < ty.len() && a != b ==> (#[trigger] ty[a]).id_view()
            != (#[trigger] ty[b]).id_view()
}

/// No two given inputs have the same name.
pub open spec fn keys_distinct(og: Seq<(Seq<char>, Seq<char>)>) -> bool {
    forall|a: int, b: int|
        0 <= a < og.len() && 0 <= b < og.len() && a != b ==> (#[trigger] og[a]).0 != (#[trigger] og[b]).0
}

/// Index of the first required input of `ty[k..]` that `og` does not give, or -1.
pub open spec fn first_missing(ty: Seq<CustomPieceInput>, k: int, og: Seq<(Seq<char>, Seq<char>)>) -> int
    decreases ty.len() - k,
{
    if k < 0 || k >= ty.len() {
        -1
    } else if ty[k].is_required() && !has_key(og, ty[k].id_view()) {
        k
    } else {
        first_missing(ty, k + 1, og)
    }
}

proof fn lemma_find_entry_none(og: Seq<(Seq<char>, Seq<char>)>, key: Seq<char>, i: int)
    requires
        0 <= i,
        find_entry(og, key, i) == -1,
    ensures
        forall|m: int| i <= m < og.len() ==> og[m].0 != key,
    decreases og.len() - i,
{
    if i < og.len() {
        lemma_find_entry_none(og, key, i + 1);
    }
}

proof fn lemma_remove_entry(og: Seq<(Seq<char>, Seq<char>)>, j: int)
    requires
        keys_distinct(og),
        0 <= j < og.len(),
    ensures
        keys_distinct(og.remove(j)),
        forall|key: Seq<char>| has_key(og.remove(j), key) <==> has_key(og, key) && key != og[j].0,
        forall|x: (Seq<char>, Seq<char>)|
            og.remove(j).contains(x) <==> og.contains(x) && x.0 != og[j].0,
{
    let r = og.remove(j);
    assert forall|a: int, b: int|
        0 <= a < r.len() && 0 <= b < r.len() && a != b implies (#[trigger] r[a]).0 != (#[trigger] r[b]).0 by {
        let a2 = if a < j { a } else { a + 1 };
        let b2 = if b < j { b } else { b + 1 };
        assert(r[a] == og[a2] && r[b] == og[b2]);
    }
    assert forall|key: Seq<char>| has_key(r, key) <==> has_key(og, key) && key != og[j].0 by {
        if has_key(r, key) {
            let m = choose|m: int| 0 <= m < r.len() && #[trigger] r[m].0 == key;
            let m2 = if m < j { m } else { m + 1 };
            assert(r[m] == og[m2]);
            assert(og[m2].0 == key);
        }
        if has_key(og, key) && key != og[j].0 {
            let m = choose|m: int| 0 <= m < og.len() && #[trigger] og[m].0 == key;
            if m < j {
                assert(r[m] == og[m]);
            } else {
                assert(r[m - 1] == og[m]);
            }
        }
    }
    assert forall|x: (Seq<char>, Seq<char>)| r.contains(x) <==> og.contains(x) && x.0 != og[j].0 by {
        if r.contains(x) {
            let m = choose|m: int| 0 <= m < r.len() && r[m] == x;
            let m2 = if m < j { m } else { m + 1 };
            assert(r[m] == og[m2]);
        }
        if og.contains(x) && x.0 != og[j].0 {
            let m = choose|m: int| 0 <= m < og.len() && og[m] == x;
            if m < j {
                assert(r[m] == og[m]);
            } else {
                assert(r[m - 1] == og[m]);
            }
        }
    }
}

proof fn lemma_first_missing_same(
    ty: Seq<CustomPieceInput>,
    k: int,
    og: Seq<(Seq<char>, Seq<char>)>,
    og2: Seq<(Seq<char>, Seq<char>)>,
)
    requires
        0 <= k,
        forall|i: int| k <= i < ty.len() ==> has_key(og, (#[trigger] ty[i]).id_view()) == has_key(og2, ty[i].id_view()),
    ensures
        first_missing(ty, k, og) == first_missing(ty, k, og2),
    decreases ty.len() - k,
{
    if k < ty.len() {
        assert(has_key(og, ty[k].id_view()) == has_key(og2, ty[k].id_view()));
        lemma_first_missing_same(ty, k + 1, og, og2);
    }
}

proof fn lemma_first_missing_range(ty: Seq<CustomPieceInput>, k: int, og: Seq<(Seq<char>, Seq<char>)>)
    requires
        0 <= k,
    ensures
        first_missing(ty, k, og) == -1 || k <= first_missing(ty, k, og) < ty.len(),
    decreases ty.len() - k,
{
    if k < ty.len() {
        lemma_first_missing_range(ty, k + 1, og);
    }
}

proof fn lemma_collect_exact(
    ty: Seq<CustomPieceInput>,
    k: int,
    og: Seq<(Seq<char>, Seq<char>)>,
    acc: Seq<(Seq<char>, InputView)>,
    piece: Seq<char>,
    kind: Seq<char>,
)
    requires
        0 <= k,
        ids_distinct(ty),
        keys_distinct(og),
    ensures
        match collect_inputs(ty, k, og, acc, piece, kind) {
            Collected::Refused(m) => first_missing(ty, k, og) >= 0 && m == required_msg(
                ty[first_missing(ty, k, og)].id_view(),
                kind,
                piece,
            ),
            Collected::Done(_, og2) => first_missing(ty, k, og) == -1 && keys_distinct(og2)
                && forall|x: (Seq<char>, Seq<char>)|
                og2.contains(x) <==> og.contains(x) && !declares(ty, k, x.0),
        },
    decreases ty.len() - k,
{
    lemma_first_missing_range(ty, k, og);
    if k >= ty.len() {
        assert forall|x: (Seq<char>, Seq<char>)| og.contains(x) <==> og.contains(x) && !declares(ty, k, x.0) by {}
    } else {
        let input = ty[k];
        let j = find_entry(og, input.id_view(), 0);
        lemma_find_entry_range(og, input.id_view(), 0);
        if j >= 0 {
            let v = match input {
                CustomPieceInput::Callback { params, .. } => InputView::Callback(og[j].1, views(params@)),
                CustomPieceInput::Bind { .. } => InputView::Bind(og[j].1),
            };
            let og1 = og.remove(j);
            lemma_remove_entry(og, j);
            lemma_collect_exact(ty, k + 1, og1, acc.push((og[j].0, v)), piece, kind);
            assert forall|i: int| k + 1 <= i < ty.len() implies has_key(og, (#[trigger] ty[i]).id_view())
                == has_key(og1, ty[i].id_view()) by {
                assert(ty[i].id_view() != ty[k].id_view());
            }
            lemma_first_missing_same(ty, k + 1, og, og1);
            assert(has_key(og, ty[k].id_view()));
            match collect_inputs(ty, k, og, acc, piece, kind) {
                Collected::Done(_, og2) => {
                    assert forall|x: (Seq<char>, Seq<char>)|
                        og2.contains(x) <==> og.contains(x) && !declares(ty, k, x.0) by {
                        if declares(ty, k, x.0) && !declares(ty, k + 1, x.0) {
                            let i = choose|i: int| k <= i < ty.len() && #[trigger] ty[i].id_view() == x.0;
                            if i > k {
                                assert(k + 1 <= i < ty.len());
                            }
                        }
                        if declares(ty, k + 1, x.0) {
                            let i = choose|i: int| k + 1 <= i < ty.len() && #[trigger] ty[i].id_view() == x.0;
                            assert(k <= i < ty.len());
                        }
                        if x.0 == og[j].0 {
                            assert(ty[k].id_view() == x.0);
                        }
                    }
                },
                _ => {},
            }
        } else {
            lemma_find_entry_none(og, input.id_view(), 0);
            assert(!has_key(og, input.id_view()));
            lemma_collect_exact(ty, k + 1, og, acc, piece, kind);
            if !input.is_required() {
                match collect_inputs(ty, k, og, acc, piece, kind) {
                    Collected::Done(_, og2) => {
                        assert forall|x: (Seq<char>, Seq<char>)|
                            og2.contains(x) <==> og.contains(x) && !declares(ty, k, x.0) by {
                            if declares(ty, k, x.0) && !declares(ty, k + 1, x.0) && og.contains(x) {
                                let i = choose|i: int| k <= i < ty.len() && #[trigger] ty[i].id_view() == x.0;
                                if i > k {
                                    assert(k + 1 <= i < ty.len());
                                } else {
                                    let m = choose|m: int| 0 <= m < og.len() && og[m] == x;
                                    assert(og[m].0 == ty[k].id_view());
                                }
                            }
                            if declares(ty, k + 1, x.0) {
                                let i = choose|i: int| k + 1 <= i < ty.len() && #[trigger] ty[i].id_view() == x.0;
                                assert(k <= i < ty.len());
                            }
                        }
                    },
                    _ => {},
                }
            }
        }
    }
}

/// Why a use of a custom piece is refused, in the order the checks are made:
/// an undefined type; else the first required input of the type that is not
/// given, named in the message; else the given inputs that the type does not
/// declare, each listed once in the message. With none of these it passes.
/// (Stated where the type names its inputs apart and the use names its inputs
/// apart.)
pub proof fn lemma_custom_piece_refusals(raw: RawCustomPiece, types: Seq<(String, CustomPieceType)>)
    requires
        type_index(types, raw.piece_type@, 0) >= 0 ==> ids_distinct(
            types[type_index(types, raw.piece_type@, 0)].1.inputs@,
        ),
        keys_distinct(pair_views(raw.inputs@)),
    ensures
        ({
            let t = type_index(types, raw.piece_type@, 0);
            let ty = types[t].1.inputs@;
            let given = pair_views(raw.inputs@);
            let fm = first_missing(ty, 0, given);
            let undeclared = exists|m: int| 0 <= m < given.len() && !declares(ty, 0, (#[trigger] given[m]).0);
            &&& t < 0 ==> check_custom_piece(raw, types) == Err::<Seq<(Seq<char>, InputView)>, Seq<char>>(
                undefined_type_msg(raw.piece_type@),
            )
            &&& t >= 0 && fm >= 0 ==> check_custom_piece(raw, types) == Err::<
                Seq<(Seq<char>, InputView)>,
                Seq<char>,
            >(required_msg(ty[fm].id_view(), raw.piece_type@, raw.id@))
            &&& t >= 0 && fm < 0 && undeclared ==> (check_custom_piece(raw, types) matches Err(msg)
                && exists|xs: Seq<(Seq<char>, Seq<char>)>|
                msg == unknown_inputs_msg(xs, raw.id@) && keys_distinct(xs) && forall|
                    x: (Seq<char>, Seq<char>),
                | xs.contains(x) <==> given.contains(x) && !declares(ty, 0, x.0))
            &&& t >= 0 && fm < 0 && !undeclared ==> check_custom_piece(raw, types) is Ok
        }),
{
    let t = type_index(types, raw.piece_type@, 0);
    lemma_type_index_range(types, raw.piece_type@, 0);
    if t >= 0 {
        let ty = types[t].1.inputs@;
        let given = pair_views(raw.inputs@);
        lemma_collect_exact(ty, 0, given, Seq::empty(), raw.id@, raw.piece_type@);
        match collect_inputs(ty, 0, given, Seq::empty(), raw.id@, raw.piece_type@) {
            Collected::Done(_, og2) => {
                if exists|m: int| 0 <= m < given.len() && !declares(ty, 0, (#[trigger] given[m]).0) {
                    let m = choose|m: int| 0 <= m < given.len() && !declares(ty, 0, (#[trigger] given[m]).0);
                    assert(given.contains(given[m]));
                    assert(og2.contains(given[m]));
                } else if og2.len() > 0 {
                    assert(og2.contains(og2[0]));
                    let m = choose|m: int| 0 <= m < given.len() && given[m] == og2[0];
                    assert(!declares(ty, 0, given[m].0));
                }
            },
            _ => {},
        }
    }
}

/// The initialization of one input: a callback's function with a `;`, or the
/// statement that gives a binding its first value.
pub open spec fn input_init(input: (Seq<char>, InputView)) -> Outcome<Seq<char>> {
    match input.1 {
        InputView::Callback(src, params) => match compile_callback(src, params, "inputs."@ + input.0) {
            Outcome::Done(t) => Outcome::Done(t + ";"@),
            Outcome::Failed(m) => Outcome::Failed(m),
            Outcome::Stuck => Outcome::Stuck,
        },
        InputView::Bind(src) => match compile_binding(src, SetDataView::Variable("inputs."@ + input.0)) {
            Outcome::Done(entries) => Outcome::Done(entries.last().1),
            Outcome::Failed(m) => Outcome::Failed(m),
            Outcome::Stuck => Outcome::Stuck,
        },
    }
}

/// The initializations of the inputs `inputs[i..]`.
pub open spec fn input_inits(inputs: Seq<(Seq<char>, InputView)>, i: int) -> Seq<Seq<char>> {
    Seq::new((inputs.len() - i) as nat, |k: int| input_init(inputs[i + k])->Done_0)
}

proof fn lemma_custom_data_inits(
    inputs: Seq<(Seq<char>, InputView)>,
    i: int,
    inits: Seq<Seq<char>>,
    bs: Seq<(Seq<char>, Seq<Seq<char>>)>,
)
    requires
        0 <= i <= inputs.len(),
    ensures
        custom_data_from(inputs, i, inits, bs) matches Outcome::Done((inits2, _)) ==> (forall|k: int|
            i <= k < inputs.len() ==> #[trigger] input_init(inputs[k]) is Done) && inits2 == inits
            + input_inits(inputs, i),
    decreases inputs.len() - i,
{
    if i >= inputs.len() {
        assert(input_inits(inputs, i) =~= Seq::<Seq<char>>::empty());
        assert(inits + Seq::<Seq<char>>::empty() =~= inits);
    } else {
        let name = inputs[i].0;
        match inputs[i].1 {
            InputView::Callback(src, params) => {
                match compile_callback(src, params, "inputs."@ + name) {
                    Outcome::Done(t) => {
                        lemma_custom_data_inits(inputs, i + 1, inits.push(t + ";"@), bs);
                        assert(inits.push(t + ";"@) + input_inits(inputs, i + 1) =~= inits + input_inits(
                            inputs,
                            i,
                        ));
                    },
                    _ => {},
                }
            },
            InputView::Bind(src) => {
                lemma_bindings_added(src, SetDataView::Variable("inputs."@ + name), inits, bs);
                match bindings_added(src, SetDataView::Variable("inputs."@ + name), inits, bs) {
                    Outcome::Done((inits1, bs1)) => {
                        lemma_custom_data_inits(inputs, i + 1, inits1, bs1);
                        assert(inits1 + input_inits(inputs, i + 1) =~= inits + input_inits(inputs, i));
                    },
                    _ => {},
                }
            },
        }
    }
}

/// The initializations of a custom piece's data are those of its inputs, in
/// order, one per line.
pub proof fn lemma_custom_data_inits_joined(inputs: Seq<(Seq<char>, InputView)>)
    ensures
        custom_data(inputs) matches Outcome::Done((inits, _)) ==> (forall|k: int|
            0 <= k < inputs.len() ==> #[trigger] input_init(inputs[k]) is Done) && inits == join(
            input_inits(inputs, 0),
            "\n"@,
        ),
{
    lemma_custom_data_inits(inputs, 0, Seq::empty(), Seq::empty());
    assert(Seq::<Seq<char>>::empty() + input_inits(inputs, 0) =~= input_inits(inputs, 0));
}

} // verus!

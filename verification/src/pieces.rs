//! Pieces: the building blocks of a game's page, each compiled to a JavaScript
//! load function.
use vstd::prelude::*;

use crate::dynamic_string::{compile_binding, pair_views, DynamicBindString, SetData, SetDataView};
use crate::error::GameReadError;
use crate::event::Event;
use crate::half_compiled::{half_compile, Outcome};
use crate::outside::indent_by;
use crate::state::{lemma_state_ok, state_ok, state_register, State};
use crate::text::{concat, join, join_strings, views};

pub mod custom_piece;

pub mod game;
pub mod generator;
pub mod layout;
pub mod section;
pub mod text;
pub mod view;

use generator::Generator;
use layout::Layout;
use section::Section;
use text::Text;


verus! {

/// The data of a piece, registered in the piece's load function.
pub trait PieceData {
    /// The outcome of registering the data: (initializations, subscriptions).
    spec fn register(&self) -> Outcome<(Seq<char>, Seq<char>)>;

    /// The data's initializations and subscriptions.
    fn js_register(&self) -> (r: Result<(String, String), GameReadError>)
        requires
            !(self.register() is Stuck),
        ensures
            match self.register() {
                Outcome::Done((inits, subs)) => r matches Ok(p) && p.0@ == inits && p.1@ == subs,
                Outcome::Failed(m) => r matches Err(GameReadError::DynamicString(e)) && e@ == m,
                Outcome::Stuck => false,
            },
    ;
}

/* Bindings of data to states */

/// The model of collected bindings: each state once, with its update callbacks.
pub open spec fn binding_views(b: Seq<(String, Vec<String>)>) -> Seq<(Seq<char>, Seq<Seq<char>>)> {
    b.map_values(|p: (String, Vec<String>)| (p.0@, views(p.1@)))
}

/// Index of the first binding of `key` from index `i` on, or -1.
pub open spec fn find_key(bs: Seq<(Seq<char>, Seq<Seq<char>>)>, key: Seq<char>, i: int) -> int
    decreases bs.len() - i,
{
    if i < 0 || i >= bs.len() {
        -1
    } else if bs[i].0 == key {
        i
    } else {
        find_key(bs, key, i + 1)
    }
}

/// `bs` with the callback `val` added to the state `key`.
pub open spec fn add_binding(bs: Seq<(Seq<char>, Seq<Seq<char>>)>, key: Seq<char>, val: Seq<char>) -> Seq<
    (Seq<char>, Seq<Seq<char>>),
> {
    let j = find_key(bs, key, 0);
    if j >= 0 {
        bs.update(j, (key, bs[j].1.push(val)))
    } else {
        bs.push((key, seq![val]))
    }
}

/// `bs` with each of the entries added, in order.
pub open spec fn add_bindings(
    bs: Seq<(Seq<char>, Seq<Seq<char>>)>,
    entries: Seq<(Seq<char>, Seq<char>)>,
) -> Seq<(Seq<char>, Seq<Seq<char>>)>
    decreases entries.len(),
{
    if entries.len() == 0 {
        bs
    } else {
        add_bindings(add_binding(bs, entries[0].0, entries[0].1), entries.drop_first())
    }
}

/// The outcome of compiling the binding `source` into `data_var`: the first value is added to
/// the initializations `inits`, the update callbacks to the bindings `bs`.
pub open spec fn bindings_added(
    source: Seq<char>,
    data_var: SetDataView,
    inits: Seq<Seq<char>>,
    bs: Seq<(Seq<char>, Seq<Seq<char>>)>,
) -> Outcome<(Seq<Seq<char>>, Seq<(Seq<char>, Seq<Seq<char>>)>)> {
    compile_binding(source, data_var).and_then(
        |entries: Seq<(Seq<char>, Seq<char>)>|
            Outcome::Done((inits.push(entries.last().1), add_bindings(bs, entries.drop_last()))),
    )
}

/// The JavaScript that subscribes the callbacks `cbs` to the state `sub`.
pub open spec fn subscription_text(sub: Seq<char>, cbs: Seq<Seq<char>>) -> Seq<char> {
    "State.subscribe(slf.states."@ + sub + ", ("@ + sub + ") => {\n    "@ + crate::text::indent_by(
        4,
        join(cbs, "\n\n"@),
    ) + "\n});"@
}

/// The subscriptions of all the bindings.
pub open spec fn subscriptions(bs: Seq<(Seq<char>, Seq<Seq<char>>)>) -> Seq<Seq<char>> {
    bs.map_values(|b: (Seq<char>, Seq<Seq<char>>)| subscription_text(b.0, b.1))
}

/// Index of the binding of `key`, or -1.
fn find_key_exec(bindings: &Vec<(String, Vec<String>)>, key: &String) -> (r: Option<usize>)
    ensures
        match r {
            Some(j) => j == find_key(binding_views(bindings@), key@, 0),
            None => find_key(binding_views(bindings@), key@, 0) == -1,
        },
{
    let mut i: usize = 0;
    while i < bindings.len()
        invariant
            i <= bindings@.len(),
            find_key(binding_views(bindings@), key@, 0) == find_key(
                binding_views(bindings@),
                key@,
                i as int,
            ),
        decreases bindings.len() - i,
    {
        if bindings[i].0 == *key {
            return Some(i);
        }
        i = i + 1;
    }
    None
}

/// Adds the callback `val` to the state `key` in `bindings`.
fn add_binding_exec(bindings: &mut Vec<(String, Vec<String>)>, key: String, val: String)
    ensures
        binding_views(final(bindings)@) == add_binding(binding_views(old(bindings)@), key@, val@),
{
    let ghost bv = binding_views(bindings@);
    let j = find_key_exec(bindings, &key);
    proof {
        lemma_find_key_range(bv, key@, 0);
    }
    if let Some(j) = j {
        let mut entry = bindings.remove(j);
        let ghost old_cbs = views(entry.1@);
        let ghost vv = val@;
        entry.1.push(val);
        assert(views(entry.1@) =~= old_cbs.push(vv));
        bindings.insert(j, entry);
        assert(binding_views(bindings@) =~= bv.update(j as int, (key@, bv[j as int].1.push(vv))));
    } else {
        let mut cbs: Vec<String> = Vec::new();
        let ghost vv = val@;
        cbs.push(val);
        assert(views(cbs@) =~= seq![vv]);
        bindings.push((key, cbs));
        assert(binding_views(bindings@) =~= bv.push((key@, seq![vv])));
    }
}

pub proof fn lemma_find_key_range(bs: Seq<(Seq<char>, Seq<Seq<char>>)>, key: Seq<char>, i: int)
    requires
        0 <= i,
    ensures
        find_key(bs, key, i) == -1 || (i <= find_key(bs, key, i) < bs.len() && bs[find_key(
            bs,
            key,
            i,
        )].0 == key),
    decreases bs.len() - i,
{
    if i < bs.len() && bs[i].0 != key {
        lemma_find_key_range(bs, key, i + 1);
    }
}

/// Compiles `data` into `data_var`: the first value goes to `result`, the update
/// callbacks of each subscribed state to `bindings`.
pub fn compile_bindings(
    data: &DynamicBindString,
    result: &mut Vec<String>,
    data_var: SetData,
    bindings: &mut Vec<(String, Vec<String>)>,
) -> (r: Result<(), GameReadError>)
    requires
        !(compile_binding(data.source_view(), data_var@) is Stuck),
    ensures
        match bindings_added(data.source_view(), data_var@, views(old(result)@), binding_views(old(bindings)@)) {
            Outcome::Done((inits, bs)) => r is Ok && views(final(result)@) == inits
                && binding_views(final(bindings)@) == bs,
            Outcome::Failed(m) => r matches Err(GameReadError::DynamicString(e)) && e@ == m
                && final(result)@ == old(result)@ && final(bindings)@ == old(bindings)@,
            Outcome::Stuck => false,
        },
{
    let ghost dv = data_var@;
    let binds = data.compile(data_var);
    let mut binds = match binds {
        Ok(b) => b,
        Err(e) => {
            return Err(e);
        },
    };
    let ghost entries = pair_views(binds@);
    assert(entries.len() == binds@.len());
    let last = binds.pop().unwrap();
    let ghost before = views(result@);
    result.push(last.1);
    assert(views(result@) =~= before.push(entries.last().1));
    let ghost rest = entries.drop_last();
    assert(pair_views(binds@) =~= rest);
    let ghost bs0 = binding_views(bindings@);
    let mut k: usize = 0;
    assert(rest.skip(0) =~= rest);
    while k < binds.len()
        invariant
            pair_views(binds@) == rest,
            k <= binds@.len(),
            binds@.len() == rest.len(),
            add_bindings(bs0, rest) == add_bindings(binding_views(bindings@), rest.skip(k as int)),
        decreases binds.len() - k,
    {
        let key = binds[k].0.clone();
        let val = binds[k].1.clone();
        assert(key@ == rest[k as int].0);
        add_binding_exec(bindings, key, val);
        assert(rest.skip(k as int).drop_first() =~= rest.skip(k + 1));
        k = k + 1;
    }
    assert(rest.skip(k as int) =~= Seq::<(Seq<char>, Seq<char>)>::empty());
    Ok(())
}

/// The JavaScript subscriptions of the collected bindings.
pub fn register_subscriptions(bindings: Vec<(String, Vec<String>)>) -> (r: Vec<String>)
    ensures
        views(r@) == subscriptions(binding_views(bindings@)),
{
    let mut data_subscriptions: Vec<String> = Vec::new();
    let mut i: usize = 0;
    let ghost goal = subscriptions(binding_views(bindings@));
    while i < bindings.len()
        invariant
            i <= bindings@.len(),
            goal == subscriptions(binding_views(bindings@)),
            views(data_subscriptions@) == goal.take(i as int),
        decreases bindings.len() - i,
    {
        let sub = &bindings[i].0;
        let callbacks = join_strings(&bindings[i].1, "\n\n");
        let callbacks = indent_by(4, callbacks.as_str());
        let mut out = String::new();
        out.push_str("State.subscribe(slf.states.");
        out.push_str(sub.as_str());
        out.push_str(", (");
        out.push_str(sub.as_str());
        out.push_str(") => {\n    ");
        out.push_str(callbacks.as_str());
        out.push_str("\n});");
        let ghost before = views(data_subscriptions@);
        let ghost o = out@;
        data_subscriptions.push(out);
        assert(views(data_subscriptions@) =~= before.push(o));
        assert(goal.take(i + 1) =~= goal.take(i as int).push(o));
        i = i + 1;
    }
    data_subscriptions
}

/// The update callbacks collected for the state `key` (none when it has no binding).
pub open spec fn callbacks_of(bs: Seq<(Seq<char>, Seq<Seq<char>>)>, key: Seq<char>) -> Seq<Seq<char>> {
    let j = find_key(bs, key, 0);
    if j >= 0 {
        bs[j].1
    } else {
        Seq::empty()
    }
}

proof fn lemma_find_key_update(
    bs: Seq<(Seq<char>, Seq<Seq<char>>)>,
    j: int,
    e: (Seq<char>, Seq<Seq<char>>),
    k: Seq<char>,
    i: int,
)
    requires
        0 <= j < bs.len(),
        0 <= i,
        e.0 == bs[j].0,
    ensures
        find_key(bs.update(j, e), k, i) == find_key(bs, k, i),
    decreases bs.len() - i,
{
    if i < bs.len() {
        lemma_find_key_update(bs, j, e, k, i + 1);
    }
}

proof fn lemma_find_key_push(bs: Seq<(Seq<char>, Seq<Seq<char>>)>, e: (Seq<char>, Seq<Seq<char>>), k: Seq<char>, i: int)
    requires
        0 <= i <= bs.len(),
    ensures
        find_key(bs.push(e), k, i) == if find_key(bs, k, i) >= 0 {
            find_key(bs, k, i)
        } else if e.0 == k {
            bs.len() as int
        } else {
            -1
        },
    decreases bs.len() - i,
{
    if i < bs.len() {
        assert(bs.push(e)[i] == bs[i]);
        lemma_find_key_push(bs, e, k, i + 1);
    } else {
        assert(bs.push(e)[i] == e);
        assert(find_key(bs.push(e), k, i + 1) == -1);
    }
}

proof fn lemma_add_binding_callbacks(
    bs: Seq<(Seq<char>, Seq<Seq<char>>)>,
    key: Seq<char>,
    val: Seq<char>,
    k: Seq<char>,
)
    ensures
        callbacks_of(add_binding(bs, key, val), k) == if k == key {
            callbacks_of(bs, k).push(val)
        } else {
            callbacks_of(bs, k)
        },
{
    let j = find_key(bs, key, 0);
    lemma_find_key_range(bs, key, 0);
    lemma_find_key_range(bs, k, 0);
    if j >= 0 {
        lemma_find_key_update(bs, j, (key, bs[j].1.push(val)), k, 0);
        if k == key {
            lemma_find_key_update(bs, j, (key, bs[j].1.push(val)), key, 0);
        }
    } else {
        lemma_find_key_push(bs, (key, seq![val]), k, 0);
    }
}

proof fn lemma_add_bindings_callbacks(
    bs: Seq<(Seq<char>, Seq<Seq<char>>)>,
    entries: Seq<(Seq<char>, Seq<char>)>,
)
    requires
        forall|i: int, j: int|
            0 <= i < entries.len() && 0 <= j < entries.len() && i != j ==> entries[i].0
                != entries[j].0,
    ensures
        forall|i: int|
            0 <= i < entries.len() ==> callbacks_of(add_bindings(bs, entries), #[trigger] entries[i].0)
                == callbacks_of(bs, entries[i].0).push(entries[i].1),
        forall|k: Seq<char>|
            (forall|i: int| 0 <= i < entries.len() ==> entries[i].0 != k) ==> callbacks_of(
                #[trigger] add_bindings(bs, entries),
                k,
            ) == callbacks_of(bs, k),
    decreases entries.len(),
{
    if entries.len() > 0 {
        let e = entries[0];
        let rest = entries.drop_first();
        let bs1 = add_binding(bs, e.0, e.1);
        lemma_add_bindings_callbacks(bs1, rest);
        assert forall|i: int|
            0 <= i < entries.len() implies callbacks_of(add_bindings(bs, entries), #[trigger] entries[i].0)
            == callbacks_of(bs, entries[i].0).push(entries[i].1) by {
            lemma_add_binding_callbacks(bs, e.0, e.1, entries[i].0);
            if i == 0 {
                assert forall|m: int| 0 <= m < rest.len() implies rest[m].0 != e.0 by {
                    assert(rest[m] == entries[m + 1]);
                }
            } else {
                assert(rest[i - 1] == entries[i]);
            }
        }
        assert forall|k: Seq<char>|
            (forall|i: int| 0 <= i < entries.len() ==> entries[i].0 != k) implies callbacks_of(
            #[trigger] add_bindings(bs, entries),
            k,
        ) == callbacks_of(bs, k) by {
            lemma_add_binding_callbacks(bs, e.0, e.1, k);
            assert(entries[0].0 != k);
            assert forall|m: int| 0 <= m < rest.len() implies rest[m].0 != k by {
                assert(rest[m] == entries[m + 1]);
            }
        }
    }
}

/// Compiling a binding into collected bindings adds its first value to the
/// initializations and, for each subscribed state, its update callback after the
/// state's earlier ones; every other state keeps its callbacks.
pub proof fn lemma_bindings_added(
    source: Seq<char>,
    data_var: SetDataView,
    inits: Seq<Seq<char>>,
    bs: Seq<(Seq<char>, Seq<Seq<char>>)>,
)
    ensures
        bindings_added(source, data_var, inits, bs) matches Outcome::Done((inits2, bs2)) ==> {
            &&& compile_binding(source, data_var) matches Outcome::Done(entries)
            &&& inits2 == inits.push(entries.last().1)
            &&& forall|i: int|
                0 <= i < entries.len() - 1 ==> callbacks_of(bs2, #[trigger] entries[i].0)
                    == callbacks_of(bs, entries[i].0).push(entries[i].1)
            &&& forall|k: Seq<char>|
                (forall|i: int| 0 <= i < entries.len() - 1 ==> entries[i].0 != k) ==> callbacks_of(
                    bs2,
                    k,
                ) == callbacks_of(bs, k)
        },
{
    crate::dynamic_string::lemma_binding_keys(source, data_var);
    match compile_binding(source, data_var) {
        Outcome::Done(entries) => {
            let rest = entries.drop_last();
            lemma_add_bindings_callbacks(bs, rest);
            assert forall|i: int| 0 <= i < entries.len() - 1 implies #[trigger] entries[i] == rest[i] by {}
        },
        _ => {},
    }
}

/// Each state with collected callbacks gets one subscription, at the place of
/// its binding, which runs all of its callbacks, in order, separated by blank
/// lines, with the new value under the state's own name.
pub proof fn lemma_subscriptions_run_every_callback(bs: Seq<(Seq<char>, Seq<Seq<char>>)>)
    ensures
        subscriptions(bs).len() == bs.len(),
        forall|k: Seq<char>|
            #![trigger find_key(bs, k, 0)]
            find_key(bs, k, 0) >= 0 ==> find_key(bs, k, 0) < bs.len() && subscriptions(bs)[find_key(
                bs,
                k,
                0,
            )] == "State.subscribe(slf.states."@ + k + ", ("@ + k + ") => {\n    "@
                + crate::text::indent_by(4, join(callbacks_of(bs, k), "\n\n"@)) + "\n});"@,
{
    assert forall|k: Seq<char>|
        #![trigger find_key(bs, k, 0)]
        find_key(bs, k, 0) >= 0 implies find_key(bs, k, 0) < bs.len() && subscriptions(bs)[find_key(
            bs,
            k,
            0,
        )] == "State.subscribe(slf.states."@ + k + ", ("@ + k + ") => {\n    "@
            + crate::text::indent_by(4, join(callbacks_of(bs, k), "\n\n"@)) + "\n});"@ by {
        lemma_find_key_range(bs, k, 0);
    }
}

/// The pair (initializations, subscriptions) of a piece's data that binds
/// `data` to `data_var`.
pub open spec fn single_binding_register(data: DynamicBindString, data_var: SetDataView) -> Outcome<
    (Seq<char>, Seq<char>),
> {
    bindings_added(data.source_view(), data_var, Seq::empty(), Seq::empty()).and_then(
        |x: (Seq<Seq<char>>, Seq<(Seq<char>, Seq<Seq<char>>)>)|
            Outcome::Done((join(x.0, "\n"@), join(subscriptions(x.1), "\n\n"@))),
    )
}

/// Binds `data` to `data_var`: the initializations, then the subscriptions.
pub fn register_single_binding(data: &DynamicBindString, data_var: SetData) -> (r: Result<
    (String, String),
    GameReadError,
>)
    requires
        !(compile_binding(data.source_view(), data_var@) is Stuck),
    ensures
        match single_binding_register(*data, data_var@) {
            Outcome::Done((inits, subs)) => r matches Ok(p) && p.0@ == inits && p.1@ == subs,
            Outcome::Failed(m) => r matches Err(GameReadError::DynamicString(e)) && e@ == m,
            Outcome::Stuck => false,
        },
{
    let mut data_inits: Vec<String> = Vec::new();
    let mut bindings: Vec<(String, Vec<String>)> = Vec::new();
    let ghost dv = data_var@;
    assert(views(data_inits@) =~= Seq::<Seq<char>>::empty());
    assert(binding_views(bindings@) =~= Seq::<(Seq<char>, Seq<Seq<char>>)>::empty());
    let r = compile_bindings(data, &mut data_inits, data_var, &mut bindings);
    match r {
        Err(e) => Err(e),
        Ok(()) => {
            let data_subscriptions = register_subscriptions(bindings);
            Ok(
                (
                    join_strings(&data_inits, "\n"),
                    join_strings(&data_subscriptions, "\n\n"),
                ),
            )
        },
    }
}

/* Identifiers and skeletons */

/// A piece's element id: its kind, `$`, and its id. The escaped form has the
/// `$` preceded by two backslashes, for a CSS selector inside a JavaScript string.
pub open spec fn piece_id_text(name: Seq<char>, id: Seq<char>, escaped: bool) -> Seq<char> {
    name + (if escaped {
        "\\\\$"@
    } else {
        "$"@
    }) + id
}

/// The empty element of a piece, quoted to stand inside a JavaScript string.
pub open spec fn skeleton_text(tag: Seq<char>, piece_id: Seq<char>) -> Seq<char> {
    "<"@ + tag + " id=\\\""@ + piece_id + "\\\"></"@ + tag + ">"@
}

/// The call of a piece's load function.
pub open spec fn load_call_text(piece_id: Seq<char>) -> Seq<char> {
    "load_"@ + piece_id + "(slf);"@
}

/// A load call whose unload function is kept.
pub open spec fn unload_push_text(call: Seq<char>) -> Seq<char> {
    "unloads.push("@ + call + ");"@
}

pub fn make_piece_id(name: &str, id: &String, escaped: bool) -> (r: String)
    ensures
        r@ == piece_id_text(name@, id@, escaped),
{
    let mut r = String::new();
    r.push_str(name);
    if escaped {
        r.push_str("\\\\$");
    } else {
        r.push_str("$");
    }
    r.push_str(id.as_str());
    proof {
        assert(r@ =~= piece_id_text(name@, id@, escaped));
    }
    r
}

pub fn make_skeleton(tag: &str, piece_id: &String) -> (r: String)
    ensures
        r@ == skeleton_text(tag@, piece_id@),
{
    let mut r = String::new();
    r.push_str("<");
    r.push_str(tag);
    r.push_str(" id=\\\"");
    r.push_str(piece_id.as_str());
    r.push_str("\\\"></");
    r.push_str(tag);
    r.push_str(">");
    proof {
        assert(r@ =~= skeleton_text(tag@, piece_id@));
    }
    r
}

pub fn make_load_call(piece_id: &String) -> (r: String)
    ensures
        r@ == load_call_text(piece_id@),
{
    let mut r = String::new();
    r.push_str("load_");
    r.push_str(piece_id.as_str());
    r.push_str("(slf);");
    proof {
        assert(r@ =~= load_call_text(piece_id@));
    }
    r
}

pub fn make_unload_push(call: &String) -> (r: String)
    ensures
        r@ == unload_push_text(call@),
{
    let mut r = String::new();
    r.push_str("unloads.push(");
    r.push_str(call.as_str());
    r.push_str(");");
    proof {
        assert(r@ =~= unload_push_text(call@));
    }
    r
}

/* Pieces and their load functions */

/// Any piece. Collections hold their pieces through this type.
#[derive(Debug)]
pub enum Pieces {
    Text(Text),
    View(view::View),
    Layout(Layout),
    Section(Section),
    Generator(Generator),
}

/// The outcome of registering the states `ss`, one after the other.
pub open spec fn states_register(ss: Seq<State>) -> Outcome<Seq<Seq<char>>>
    decreases ss.len(),
{
    if ss.len() == 0 {
        Outcome::Done(Seq::empty())
    } else {
        states_register(ss.drop_last()).and_then(
            |done: Seq<Seq<char>>|
                state_register(ss.last()).and_then(|t: Seq<char>| Outcome::Done(done.push(t))),
        )
    }
}

/// The registrations of `n` events, one per line.
pub open spec fn events_text(n: nat) -> Seq<char> {
    join(Seq::new(n, |i: int| Seq::<char>::empty()), "\n"@)
}

/// The code that fills a collection with the skeletons `htmls` and loads its
/// pieces with `calls` (nothing when there are no calls).
pub open spec fn children_text(block: Option<(Seq<char>, Seq<char>)>) -> Seq<char> {
    match block {
        Some((htmls, calls)) => crate::text::indent_by(
            4,
            "slf.element.innerHTML = \""@ + htmls + "\";"@ + (if calls.len() > 0 {
                "\n"@ + calls
            } else {
                Seq::empty()
            }),
        ),
        None => Seq::empty(),
    }
}

/// The load function of a piece.
pub open spec fn load_fn_text(
    piece_id: Seq<char>,
    escaped_id: Seq<char>,
    states: Seq<char>,
    events: Seq<char>,
    subscriptions: Seq<char>,
    inits: Seq<char>,
    children: Seq<char>,
) -> Seq<char> {
    "function load_"@ + piece_id
        + "(parent) {\n    let slf = {\n        element: document.querySelector(\"#"@ + escaped_id
        + "\"),\n        states: Object.create(parent.states),\n        events: Object.create(parent.events),\n    };\n\n    // States\n    "@
        + states + "\n\n    // Events\n    "@ + events + "\n\n    // State subscriptions\n    "@
        + subscriptions + "\n\n    // Data initializations\n    "@ + inits
        + "\n\n    // Children\n    "@ + children + "\n}"@
}

/// The skeletons of pieces, joined by ` + `, and their load calls, one per line.
pub open spec fn collection_children(ps: Seq<Pieces>) -> (Seq<char>, Seq<char>) {
    (
        join(ps.map_values(|p: Pieces| p.skeleton()), " + "@),
        join(ps.map_values(|p: Pieces| unload_push_text(p.load_call())), "\n"@),
    )
}

impl Pieces {
    pub open spec fn kind_name(&self) -> Seq<char> {
        match self {
            Pieces::Text(_) => "Text"@,
            Pieces::View(_) => "View"@,
            Pieces::Layout(_) => "Layout"@,
            Pieces::Section(_) => "Section"@,
            Pieces::Generator(_) => "Generator"@,
        }
    }

    pub open spec fn id_view(&self) -> Seq<char> {
        match self {
            Pieces::Text(t) => t.id@,
            Pieces::View(v) => v.id@,
            Pieces::Layout(l) => l.id@,
            Pieces::Section(s) => s.id@,
            Pieces::Generator(g) => g.id@,
        }
    }

    pub open spec fn tag(&self) -> Seq<char> {
        match self {
            Pieces::Text(_) => "p"@,
            _ => "div"@,
        }
    }

    pub open spec fn element_id(&self, escaped: bool) -> Seq<char> {
        piece_id_text(self.kind_name(), self.id_view(), escaped)
    }

    pub open spec fn skeleton(&self) -> Seq<char> {
        skeleton_text(self.tag(), self.element_id(false))
    }

    pub open spec fn load_call(&self) -> Seq<char> {
        load_call_text(self.element_id(false))
    }

    pub open spec fn piece_states(&self) -> Seq<State> {
        match self {
            Pieces::Text(t) => t.states@,
            Pieces::View(v) => v.states@,
            Pieces::Layout(l) => l.states@,
            Pieces::Section(s) => s.states@,
            Pieces::Generator(g) => g.states@,
        }
    }

    pub open spec fn events_count(&self) -> nat {
        match self {
            Pieces::Text(t) => t.events@.len(),
            Pieces::View(v) => v.events@.len(),
            Pieces::Layout(l) => l.events@.len(),
            Pieces::Section(s) => s.events@.len(),
            Pieces::Generator(g) => g.events@.len(),
        }
    }

    pub open spec fn data_register(&self) -> Outcome<(Seq<char>, Seq<char>)> {
        match self {
            Pieces::Text(t) => t.data.register(),
            Pieces::View(v) => v.data.register(),
            Pieces::Layout(l) => l.data.register(),
            Pieces::Section(s) => s.data.register(),
            Pieces::Generator(g) => g.data.register(),
        }
    }

    /// The skeletons and load calls of the children a collection loads itself.
    pub open spec fn children_block(&self) -> Option<(Seq<char>, Seq<char>)> {
        match self {
            Pieces::Layout(l) => Some(collection_children(l.pieces@)),
            Pieces::Section(s) => Some(collection_children(s.pieces@)),
            _ => None,
        }
    }

    /// The outcome of the piece's own load function: its data is registered
    /// first, then its states.
    pub open spec fn own_load_fn(&self) -> Outcome<Seq<char>> {
        self.data_register().and_then(
            |d: (Seq<char>, Seq<char>)|
                states_register(self.piece_states()).and_then(
                    |sts: Seq<Seq<char>>|
                        Outcome::Done(
                            load_fn_text(
                                self.element_id(false),
                                self.element_id(true),
                                crate::text::indent_by(4, join(sts, "\n"@)),
                                crate::text::indent_by(4, events_text(self.events_count())),
                                crate::text::indent_by(4, d.1),
                                crate::text::indent_by(4, d.0),
                                children_text(self.children_block()),
                            ),
                        ),
                ),
        )
    }
}

/// Two outcomes one after the other, their results concatenated.
pub open spec fn concat_outcomes(a: Outcome<Seq<char>>, b: Outcome<Seq<char>>) -> Outcome<Seq<char>> {
    match a {
        Outcome::Done(x) => match b {
            Outcome::Done(y) => Outcome::Done(x + y),
            Outcome::Failed(m) => Outcome::Failed(m),
            Outcome::Stuck => Outcome::Stuck,
        },
        Outcome::Failed(m) => Outcome::Failed(m),
        Outcome::Stuck => Outcome::Stuck,
    }
}

/// The outcome of the load functions of a piece and of all the pieces below it:
/// its own first, then those of its children in order.
pub open spec fn load_fns(p: Pieces) -> Outcome<Seq<char>>
    decreases p, 0int,
{
    match p {
        Pieces::Text(_) => p.own_load_fn(),
        Pieces::View(v) => concat_outcomes(
            p.own_load_fn(),
            children_load_fns(v.pieces@, v.pieces@.len() as int),
        ),
        Pieces::Layout(l) => concat_outcomes(
            p.own_load_fn(),
            children_load_fns(l.pieces@, l.pieces@.len() as int),
        ),
        Pieces::Section(s) => concat_outcomes(
            p.own_load_fn(),
            children_load_fns(s.pieces@, s.pieces@.len() as int),
        ),
        Pieces::Generator(g) => concat_outcomes(p.own_load_fn(), load_fns(*g.base)),
    }
}

/// The outcome of the load functions of the first `n` pieces of `ps`.
pub open spec fn children_load_fns(ps: Seq<Pieces>, n: int) -> Outcome<Seq<char>>
    decreases ps, n,
{
    if n <= 0 || n > ps.len() {
        Outcome::Done(Seq::empty())
    } else {
        concat_outcomes(children_load_fns(ps, n - 1), load_fns(ps[n - 1]))
    }
}

pub proof fn lemma_states_register_prefix(ss: Seq<State>, m: int, k: int)
    requires
        0 <= m <= k <= ss.len(),
        !(states_register(ss.take(m)) is Done),
    ensures
        states_register(ss.take(k)) == states_register(ss.take(m)),
    decreases k - m,
{
    if k > m {
        lemma_states_register_prefix(ss, m, k - 1);
        assert(ss.take(k).drop_last() =~= ss.take(k - 1));
    }
}

/// Registering states keeps every one of them, in order: it succeeds exactly
/// when each state's registration does, and then gives the registration of
/// each state at its place.
pub proof fn lemma_states_register_each(ss: Seq<State>)
    ensures
        states_register(ss) matches Outcome::Done(ts) ==> ts.len() == ss.len() && forall|i: int|
            0 <= i < ss.len() ==> state_register(#[trigger] ss[i]) == Outcome::Done(ts[i]),
        (forall|i: int| 0 <= i < ss.len() ==> (#[trigger] state_register(ss[i])) is Done) ==> states_register(
            ss,
        ) is Done,
    decreases ss.len(),
{
    if ss.len() > 0 {
        let init = ss.drop_last();
        lemma_states_register_each(init);
        assert forall|i: int| 0 <= i < init.len() implies #[trigger] init[i] == ss[i] by {}
        if forall|i: int| 0 <= i < ss.len() ==> (#[trigger] state_register(ss[i])) is Done {
            assert forall|i: int| 0 <= i < init.len() implies (#[trigger] state_register(init[i])) is Done by {
                assert(init[i] == ss[i]);
            }
            assert(state_register(ss[ss.len() - 1]) is Done);
        }
        match states_register(ss) {
            Outcome::Done(ts) => {
                let done = states_register(init)->Done_0;
                assert forall|i: int| 0 <= i < ss.len() implies state_register(#[trigger] ss[i]) == Outcome::Done(ts[i]) by {
                    if i < init.len() {
                        assert(init[i] == ss[i]);
                        assert(ts[i] == done[i]);
                    }
                }
            },
            _ => {},
        }
    }
}

/// Registers the states `states`, one per line.
pub fn register_states(states: &Vec<State>) -> (r: Result<String, GameReadError>)
    requires
        !(states_register(states@) is Stuck),
    ensures
        match states_register(states@) {
            Outcome::Done(ts) => r matches Ok(s) && s@ == join(ts, "\n"@),
            Outcome::Failed(m) => r matches Err(GameReadError::DynamicString(e)) && e@ == m,
            Outcome::Stuck => false,
        },
{
    let mut done: Vec<String> = Vec::new();
    let mut i: usize = 0;
    assert(states@.take(0) =~= Seq::<State>::empty());
    assert(views(done@) =~= Seq::<Seq<char>>::empty());
    while i < states.len()
        invariant
            i <= states@.len(),
            !(states_register(states@) is Stuck),
            states_register(states@.take(i as int)) == Outcome::Done(views(done@)),
        decreases states.len() - i,
    {
        let ghost pre = states@.take(i as int);
        assert(states@.take(i + 1).drop_last() =~= pre);
        assert(states@.take(states@.len() as int) =~= states@);
        let state = &states[i];
        assert(states@.take(i + 1).last() == *state);
        proof {
            if state_register(*state) is Stuck {
                lemma_states_register_prefix(states@, i + 1, states@.len() as int);
            }
        }
        let t = state.js_register();
        match t {
            Err(e) => {
                proof {
                    lemma_states_register_prefix(states@, i + 1, states@.len() as int);
                }
                return Err(e);
            },
            Ok(t) => {
                let ghost before = views(done@);
                let ghost tv = t@;
                done.push(t);
                assert(views(done@) =~= before.push(tv));
            },
        }
        i = i + 1;
    }
    assert(states@.take(i as int) =~= states@);
    Ok(join_strings(&done, "\n"))
}

/// Registers the events `events`, one per line.
pub fn register_events(events: &Vec<Event>) -> (r: String)
    ensures
        r@ == events_text(events@.len()),
{
    let mut done: Vec<String> = Vec::new();
    let mut i: usize = 0;
    while i < events.len()
        invariant
            i <= events@.len(),
            views(done@) =~= Seq::new(i as nat, |j: int| Seq::<char>::empty()),
        decreases events.len() - i,
    {
        let ghost before = views(done@);
        let e = events[i].js_register();
        let ghost ev = e@;
        done.push(e);
        assert(views(done@) =~= before.push(ev));
        i = i + 1;
    }
    join_strings(&done, "\n")
}

/// The children part of a load function.
fn children_text_exec(block: Option<(String, String)>) -> (r: String)
    ensures
        r@ == children_text(
            match block {
                Some((h, c)) => Some((h@, c@)),
                None => None,
            },
        ),
{
    match block {
        Some((htmls, calls)) => {
            let mut inner = String::new();
            inner.push_str("slf.element.innerHTML = \"");
            inner.push_str(htmls.as_str());
            inner.push_str("\";");
            if !calls.as_str().is_empty() {
                inner.push_str("\n");
                inner.push_str(calls.as_str());
            }
            proof {
                assert(inner@ =~= "slf.element.innerHTML = \""@ + htmls@ + "\";"@ + (if calls@.len()
                    > 0 {
                    "\n"@ + calls@
                } else {
                    Seq::<char>::empty()
                }));
            }
            indent_by(4, inner.as_str())
        },
        None => String::new(),
    }
}

/// The skeletons of `ps`, joined by ` + `, and their load calls, one per line.
pub fn collection_children_exec(ps: &Vec<Pieces>) -> (r: (String, String))
    ensures
        (r.0@, r.1@) == collection_children(ps@),
{
    let mut htmls: Vec<String> = Vec::new();
    let mut load_fns: Vec<String> = Vec::new();
    let mut i: usize = 0;
    let ghost hs = ps@.map_values(|p: Pieces| p.skeleton());
    let ghost ls = ps@.map_values(|p: Pieces| unload_push_text(p.load_call()));
    while i < ps.len()
        invariant
            i <= ps@.len(),
            hs == ps@.map_values(|p: Pieces| p.skeleton()),
            ls == ps@.map_values(|p: Pieces| unload_push_text(p.load_call())),
            views(htmls@) == hs.take(i as int),
            views(load_fns@) == ls.take(i as int),
        decreases ps.len() - i,
    {
        let h = ps[i].html_skeleton();
        let call = ps[i].js_load_call();
        let l = make_unload_push(&call);
        let ghost hb = views(htmls@);
        let ghost lb = views(load_fns@);
        let ghost hv = h@;
        let ghost lv = l@;
        htmls.push(h);
        load_fns.push(l);
        assert(views(htmls@) =~= hb.push(hv));
        assert(views(load_fns@) =~= lb.push(lv));
        assert(hs.take(i + 1) =~= hs.take(i as int).push(hv));
        assert(ls.take(i + 1) =~= ls.take(i as int).push(lv));
        i = i + 1;
    }
    assert(hs.take(i as int) =~= hs);
    assert(ls.take(i as int) =~= ls);
    (join_strings(&htmls, " + "), join_strings(&load_fns, "\n"))
}

pub proof fn lemma_children_prefix(ps: Seq<Pieces>, m: int, k: int)
    requires
        0 <= m <= k <= ps.len(),
        !(children_load_fns(ps, m) is Done),
    ensures
        children_load_fns(ps, k) == children_load_fns(ps, m),
    decreases k - m,
{
    if k > m {
        lemma_children_prefix(ps, m, k - 1);
    }
}

impl Pieces {
    /// The element id of the piece.
    pub fn piece_id(&self, escaped_dollar: bool) -> (r: String)
        ensures
            r@ == self.element_id(escaped_dollar),
    {
        match self {
            Pieces::Text(t) => t.piece_id(escaped_dollar),
            Pieces::View(v) => v.piece_id(escaped_dollar),
            Pieces::Layout(l) => l.piece_id(escaped_dollar),
            Pieces::Section(s) => s.piece_id(escaped_dollar),
            Pieces::Generator(g) => g.piece_id(escaped_dollar),
        }
    }

    /// The HTML tag of the piece's element.
    pub fn html_tag(&self) -> (r: String)
        ensures
            r@ == self.tag(),
    {
        match self {
            Pieces::Text(t) => t.html_tag(),
            Pieces::View(v) => v.html_tag(),
            Pieces::Layout(l) => l.html_tag(),
            Pieces::Section(s) => s.html_tag(),
            Pieces::Generator(g) => g.html_tag(),
        }
    }

    /// The empty element of the piece, ready to stand in a JavaScript string.
    pub fn html_skeleton(&self) -> (r: String)
        ensures
            r@ == self.skeleton(),
    {
        let tag = self.html_tag();
        let id = self.piece_id(false);
        make_skeleton(tag.as_str(), &id)
    }

    /// The call of the piece's load function.
    pub fn js_load_call(&self) -> (r: String)
        ensures
            r@ == self.load_call(),
    {
        let id = self.piece_id(false);
        make_load_call(&id)
    }

    /// The piece's own load function.
    fn own_js_load_fn(&self) -> (r: Result<String, GameReadError>)
        requires
            !(self.own_load_fn() is Stuck),
        ensures
            match self.own_load_fn() {
                Outcome::Done(t) => r matches Ok(s) && s@ == t,
                Outcome::Failed(m) => r matches Err(GameReadError::DynamicString(e)) && e@ == m,
                Outcome::Stuck => false,
            },
    {
        let data = match self {
            Pieces::Text(t) => t.data.js_register(),
            Pieces::View(v) => v.data.js_register(),
            Pieces::Layout(l) => l.data.js_register(),
            Pieces::Section(s) => s.data.js_register(),
            Pieces::Generator(g) => g.data.js_register(),
        };
        let (data_inits, data_subscriptions) = match data {
            Ok(d) => d,
            Err(e) => {
                return Err(e);
            },
        };
        let data_inits = indent_by(4, data_inits.as_str());
        let data_subscriptions = indent_by(4, data_subscriptions.as_str());
        let piece_id = self.piece_id(false);
        let escaped_piece_id = self.piece_id(true);
        let (states, events) = match self {
            Pieces::Text(t) => (&t.states, &t.events),
            Pieces::View(v) => (&v.states, &v.events),
            Pieces::Layout(l) => (&l.states, &l.events),
            Pieces::Section(s) => (&s.states, &s.events),
            Pieces::Generator(g) => (&g.states, &g.events),
        };
        let registered = register_states(states);
        let registered = match registered {
            Ok(r) => r,
            Err(e) => {
                return Err(e);
            },
        };
        let register_states = indent_by(4, registered.as_str());
        let events_joined = register_events(events);
        let register_events = indent_by(4, events_joined.as_str());
        let block = match self {
            Pieces::Layout(l) => l.js_load_children(),
            Pieces::Section(s) => s.js_load_children(),
            _ => None,
        };
        let load_children = children_text_exec(block);
        let mut out = String::new();
        out.push_str("function load_");
        out.push_str(piece_id.as_str());
        out.push_str("(parent) {\n    let slf = {\n        element: document.querySelector(\"#");
        out.push_str(escaped_piece_id.as_str());
        out.push_str(
            "\"),\n        states: Object.create(parent.states),\n        events: Object.create(parent.events),\n    };\n\n    // States\n    ",
        );
        out.push_str(register_states.as_str());
        out.push_str("\n\n    // Events\n    ");
        out.push_str(register_events.as_str());
        out.push_str("\n\n    // State subscriptions\n    ");
        out.push_str(data_subscriptions.as_str());
        out.push_str("\n\n    // Data initializations\n    ");
        out.push_str(data_inits.as_str());
        out.push_str("\n\n    // Children\n    ");
        out.push_str(load_children.as_str());
        out.push_str("\n}");
        Ok(out)
    }

    /// The load function of the piece, followed by those of all pieces below
    /// it, its children in order.
    pub fn js_load_fn(&self) -> (r: Result<String, GameReadError>)
        requires
            !(load_fns(*self) is Stuck),
        ensures
            match load_fns(*self) {
                Outcome::Done(t) => r matches Ok(s) && s@ == t,
                Outcome::Failed(m) => r matches Err(GameReadError::DynamicString(e)) && e@ == m,
                Outcome::Stuck => false,
            },
        decreases self,
    {
        let own = self.own_js_load_fn();
        let mut out = match own {
            Ok(o) => o,
            Err(e) => {
                return Err(e);
            },
        };
        if let Pieces::Generator(g) = self {
            let base = (*g.base).js_load_fn();
            match base {
                Ok(b) => {
                    out.push_str(b.as_str());
                    return Ok(out);
                },
                Err(e) => {
                    return Err(e);
                },
            }
        }
        let children: Option<&Vec<Pieces>> = match self {
            Pieces::View(v) => Some(&v.pieces),
            Pieces::Layout(l) => Some(&l.pieces),
            Pieces::Section(s) => Some(&s.pieces),
            _ => None,
        };
        match children {
            None => Ok(out),
            Some(ps) => {
                let ghost own_text = out@;
                let mut i: usize = 0;
                let ghost total = load_fns(*self);
                assert(total == concat_outcomes(
                    Outcome::Done(own_text),
                    children_load_fns(ps@, ps@.len() as int),
                ));
                while i < ps.len()
                    invariant
                        i <= ps@.len(),
                        total == load_fns(*self),
                        !(total is Stuck),
                        total == concat_outcomes(
                            Outcome::Done(own_text),
                            children_load_fns(ps@, ps@.len() as int),
                        ),
                        children_load_fns(ps@, i as int) matches Outcome::Done(t) && out@ == own_text + t,
                        forall|j: int| 0 <= j < ps@.len() ==> decreases_to!(*self => ps@[j]),
                    decreases ps.len() - i,
                {
                    let child = &ps[i];
                    proof {
                        if load_fns(*child) is Stuck {
                            lemma_children_prefix(ps@, i + 1, ps@.len() as int);
                        }
                    }
                    let c = child.js_load_fn();
                    match c {
                        Ok(t) => {
                            out.push_str(t.as_str());
                        },
                        Err(e) => {
                            proof {
                                lemma_children_prefix(ps@, i + 1, ps@.len() as int);
                            }
                            return Err(e);
                        },
                    }
                    i = i + 1;
                }
                Ok(out)
            },
        }
    }
}

/* Inputs on which the rune scan slices inside a character and panics */

/// No state of `ss` runs into the slicing panic.
pub open spec fn states_ok(ss: Seq<State>) -> bool {
    forall|i: int| 0 <= i < ss.len() ==> #[trigger] state_ok(ss[i])
}

impl Pieces {
    /// The dynamic strings of the piece's data run into no slicing panic.
    pub open spec fn data_ok(&self) -> bool {
        match self {
            Pieces::Text(t) => t.data.text matches Some(b) ==> !(half_compile(
                b.source_view(),
                true,
            ) is Stuck),
            Pieces::View(v) => !(half_compile(v.data.index.source_view(), true) is Stuck),
            Pieces::Generator(g) => !(half_compile(g.data.list.source_view(), true) is Stuck),
            _ => true,
        }
    }
}

/// No dynamic string of the piece or of the pieces below it runs into the slicing panic.
pub open spec fn piece_ok(p: Pieces) -> bool
    decreases p, 0int,
{
    &&& p.data_ok()
    &&& states_ok(p.piece_states())
    &&& match p {
        Pieces::Text(_) => true,
        Pieces::View(v) => children_ok(v.pieces@, v.pieces@.len() as int),
        Pieces::Layout(l) => children_ok(l.pieces@, l.pieces@.len() as int),
        Pieces::Section(s) => children_ok(s.pieces@, s.pieces@.len() as int),
        Pieces::Generator(g) => piece_ok(*g.base),
    }
}

/// The first `n` pieces of `ps` are all `piece_ok`.
pub open spec fn children_ok(ps: Seq<Pieces>, n: int) -> bool
    decreases ps, n,
{
    if n <= 0 || n > ps.len() {
        true
    } else {
        children_ok(ps, n - 1) && piece_ok(ps[n - 1])
    }
}

pub proof fn lemma_states_ok(ss: Seq<State>)
    requires
        states_ok(ss),
    ensures
        !(states_register(ss) is Stuck),
    decreases ss.len(),
{
    if ss.len() > 0 {
        lemma_states_ok(ss.drop_last());
        lemma_state_ok(ss.last());
    }
}

proof fn lemma_own_load_fn_ok(p: Pieces)
    requires
        p.data_ok(),
        states_ok(p.piece_states()),
    ensures
        !(p.own_load_fn() is Stuck),
{
    lemma_states_ok(p.piece_states());
}

/// A piece whose dynamic strings run into no slicing panic compiles without
/// one: its load functions are a result or an error.
pub proof fn lemma_load_fns_ok(p: Pieces)
    requires
        piece_ok(p),
    ensures
        !(load_fns(p) is Stuck),
    decreases p, 0int,
{
    lemma_own_load_fn_ok(p);
    match p {
        Pieces::Text(_) => {},
        Pieces::View(v) => {
            lemma_children_ok(v.pieces@, v.pieces@.len() as int);
        },
        Pieces::Layout(l) => {
            lemma_children_ok(l.pieces@, l.pieces@.len() as int);
        },
        Pieces::Section(s) => {
            lemma_children_ok(s.pieces@, s.pieces@.len() as int);
        },
        Pieces::Generator(g) => {
            lemma_load_fns_ok(*g.base);
        },
    }
}

pub proof fn lemma_children_ok(ps: Seq<Pieces>, n: int)
    requires
        children_ok(ps, n),
    ensures
        !(children_load_fns(ps, n) is Stuck),
    decreases ps, n,
{
    if 0 < n <= ps.len() {
        lemma_children_ok(ps, n - 1);
        lemma_load_fns_ok(ps[n - 1]);
    }
}

/// Whether the states `states` register without a slicing panic.
pub fn states_compile_safely(states: &Vec<State>) -> (r: bool)
    ensures
        r == states_ok(states@),
{
    let mut i: usize = 0;
    while i < states.len()
        invariant
            i <= states@.len(),
            forall|j: int| 0 <= j < i ==> #[trigger] state_ok(states@[j]),
        decreases states.len() - i,
    {
        if !states[i].compiles_safely() {
            return false;
        }
        i = i + 1;
    }
    true
}

impl Pieces {
    /// Whether the piece and the pieces below it compile without the slicing
    /// panic of the rune scan.
    pub fn compiles_safely(&self) -> (r: bool)
        ensures
            r == piece_ok(*self),
        decreases self,
    {
        let data_ok = match self {
            Pieces::Text(t) => match &t.data.text {
                Some(b) => !b.compile_panics(),
                None => true,
            },
            Pieces::View(v) => !v.data.index.compile_panics(),
            Pieces::Generator(g) => !g.data.list.compile_panics(),
            _ => true,
        };
        if !data_ok {
            return false;
        }
        let states = match self {
            Pieces::Text(t) => &t.states,
            Pieces::View(v) => &v.states,
            Pieces::Layout(l) => &l.states,
            Pieces::Section(s) => &s.states,
            Pieces::Generator(g) => &g.states,
        };
        if !states_compile_safely(states) {
            return false;
        }
        if let Pieces::Generator(g) = self {
            return (*g.base).compiles_safely();
        }
        let children: Option<&Vec<Pieces>> = match self {
            Pieces::View(v) => Some(&v.pieces),
            Pieces::Layout(l) => Some(&l.pieces),
            Pieces::Section(s) => Some(&s.pieces),
            _ => None,
        };
        match children {
            None => true,
            Some(ps) => {
                let mut i: usize = 0;
                while i < ps.len()
                    invariant
                        i <= ps@.len(),
                        piece_ok(*self) == children_ok(ps@, ps@.len() as int),
                        children_ok(ps@, i as int),
                        forall|j: int| 0 <= j < ps@.len() ==> decreases_to!(*self => ps@[j]),
                    decreases ps.len() - i,
                {
                    if !ps[i].compiles_safely() {
                        proof {
                            lemma_children_ok_prefix(ps@, i + 1, ps@.len() as int);
                        }
                        return false;
                    }
                    i = i + 1;
                }
                true
            },
        }
    }
}

/// Once a piece of `ps` fails the check, every longer prefix fails it too.
pub(crate) proof fn lemma_children_ok_prefix(ps: Seq<Pieces>, m: int, k: int)
    requires
        0 < m <= k <= ps.len(),
        !children_ok(ps, m),
    ensures
        !children_ok(ps, k),
    decreases k - m,
{
    if k > m {
        lemma_children_ok_prefix(ps, m, k - 1);
    }
}

/// The pieces whose load functions follow a piece's own: its children, or the
/// base of a generator.
pub open spec fn sub_pieces(p: Pieces) -> Seq<Pieces> {
    match p {
        Pieces::Text(_) => Seq::empty(),
        Pieces::View(v) => v.pieces@,
        Pieces::Layout(l) => l.pieces@,
        Pieces::Section(s) => s.pieces@,
        Pieces::Generator(g) => seq![*g.base],
    }
}

/// The texts of the load functions of the first `n` pieces of `ps`.
pub open spec fn load_fn_texts(ps: Seq<Pieces>, n: int) -> Seq<Seq<char>> {
    Seq::new(n as nat, |i: int| load_fns(ps[i])->Done_0)
}

/// The start of the load function of the piece `id`, up to the element it
/// looks up by the escaped id `escaped`.
pub open spec fn load_fn_head(id: Seq<char>, escaped: Seq<char>) -> Seq<char> {
    "function load_"@ + id + "(parent) {\n    let slf = {\n        element: document.querySelector(\"#"@
        + escaped
}

pub proof fn lemma_children_load_fns_concat(ps: Seq<Pieces>, n: int)
    requires
        0 <= n <= ps.len(),
    ensures
        children_load_fns(ps, n) matches Outcome::Done(x) ==> (forall|i: int|
            0 <= i < n ==> #[trigger] load_fns(ps[i]) is Done) && x == concat(load_fn_texts(ps, n)),
    decreases n,
{
    if n > 0 {
        lemma_children_load_fns_concat(ps, n - 1);
        assert(load_fn_texts(ps, n).drop_last() =~= load_fn_texts(ps, n - 1));
    } else {
        assert(load_fn_texts(ps, n) =~= Seq::<Seq<char>>::empty());
    }
}

proof fn lemma_load_fn_text_head(
    id: Seq<char>,
    escaped: Seq<char>,
    states: Seq<char>,
    events: Seq<char>,
    subscriptions: Seq<char>,
    inits: Seq<char>,
    children: Seq<char>,
)
    ensures
        load_fn_text(id, escaped, states, events, subscriptions, inits, children).take(
            load_fn_head(id, escaped).len() as int,
        ) == load_fn_head(id, escaped),
{
    let h = load_fn_head(id, escaped);
    let text = load_fn_text(id, escaped, states, events, subscriptions, inits, children);
    assert(text.take(h.len() as int) =~= h);
}

proof fn lemma_own_load_fn_head(p: Pieces)
    ensures
        p.own_load_fn() matches Outcome::Done(own) ==> own.take(
            load_fn_head(p.element_id(false), p.element_id(true)).len() as int,
        ) == load_fn_head(p.element_id(false), p.element_id(true)),
{
    match p.data_register() {
        Outcome::Done(d) => {
            match states_register(p.piece_states()) {
                Outcome::Done(sts) => {
                    lemma_load_fn_text_head(
                        p.element_id(false),
                        p.element_id(true),
                        crate::text::indent_by(4, join(sts, "\n"@)),
                        crate::text::indent_by(4, events_text(p.events_count())),
                        crate::text::indent_by(4, d.1),
                        crate::text::indent_by(4, d.0),
                        children_text(p.children_block()),
                    );
                },
                _ => {},
            }
        },
        _ => {},
    }
}

proof fn lemma_load_fns_split(p: Pieces)
    ensures
        load_fns(p) matches Outcome::Done(t) ==> {
            &&& p.own_load_fn() matches Outcome::Done(own)
            &&& forall|i: int| 0 <= i < sub_pieces(p).len() ==> #[trigger] load_fns(sub_pieces(p)[i]) is Done
            &&& t == own + concat(load_fn_texts(sub_pieces(p), sub_pieces(p).len() as int))
        },
{
    let subs = sub_pieces(p);
    lemma_children_load_fns_concat(subs, subs.len() as int);
    match load_fns(p) {
        Outcome::Done(t) => {
            let own = p.own_load_fn()->Done_0;
            match p {
                Pieces::Generator(g) => {
                    let b = load_fns(*g.base)->Done_0;
                    assert(load_fn_texts(subs, 1) =~= seq![b]);
                    assert(seq![b].drop_last() =~= Seq::<Seq<char>>::empty());
                    assert(concat(Seq::<Seq<char>>::empty()) == Seq::<char>::empty());
                    assert(concat(seq![b]) =~= b);
                    assert(subs[0] == *g.base);
                },
                Pieces::Text(_) => {
                    assert(load_fn_texts(subs, 0) =~= Seq::<Seq<char>>::empty());
                    assert(own + concat(Seq::<Seq<char>>::empty()) =~= own);
                },
                _ => {},
            }
        },
        _ => {},
    }
}

/// The load functions of a piece: its own first, which starts with its name
/// `load_` and its id and looks up its element by the escaped id, then those
/// of its children (or of a generator's base), in order.
pub proof fn lemma_load_fn_order(p: Pieces)
    ensures
        load_fns(p) matches Outcome::Done(t) ==> {
            &&& p.own_load_fn() matches Outcome::Done(own)
            &&& own.take(load_fn_head(p.element_id(false), p.element_id(true)).len() as int)
                == load_fn_head(p.element_id(false), p.element_id(true))
            &&& forall|i: int| 0 <= i < sub_pieces(p).len() ==> #[trigger] load_fns(sub_pieces(p)[i]) is Done
            &&& t == own + concat(load_fn_texts(sub_pieces(p), sub_pieces(p).len() as int))
        },
{
    lemma_own_load_fn_head(p);
    lemma_load_fns_split(p);
}

} // verus!

//! Dynamic strings: callbacks (headed `callback`) and bindings (headed `bind`),
//! compiled to JavaScript.
use vstd::prelude::*;
use vstd::std_specs::convert::{FromSpec, FromSpecImpl};

use crate::error::{Checked, GameReadError};
use crate::half_compiled::{
    half_compile, lemma_half_compile_distinct, lemma_half_compile_subs, line_subs, name_end, section_view, HalfCompiled, HalfCompiledDynamicString, LineSection,
    Outcome,
};
use crate::outside::{indent_by, interleave, interleave_strings};
use crate::runes::{is_name_start, state_name, state_name_char};
use crate::sections::SectionedStrings;
use crate::text::{
    chars_equal, chars_of, clone_strings, concat, concat_strings, join, join_strings, lines,
    occurs_at, push_range, split_lines, views,
};

verus! {

/// The code pieces and literals of a line, back in their order.
pub open spec fn joined_line(strings: Seq<Seq<char>>, dscs: Seq<Seq<char>>, strings_first: bool) -> Seq<
    char,
> {
    concat(
        if strings_first {
            interleave(strings, dscs)
        } else {
            interleave(dscs, strings)
        },
    )
}

/// A line that mutates `state`: the line becomes the new value of the state.
pub open spec fn mutate_block(state: Seq<char>, line: Seq<char>) -> Seq<char> {
    "State.mutate(slf.states."@ + state + ", ("@ + state + ") =>\n    "@ + line + "\n);"@
}

/// A compiled line, wrapped in a mutation when it mutates a state.
pub open spec fn finished_line(mutated: Option<Seq<char>>, line: Seq<char>) -> Seq<char> {
    match mutated {
        Some(state) => mutate_block(state, line),
        None => line,
    }
}

/// The lines of a compiled callback.
pub open spec fn callback_lines(secs: Seq<LineSection>) -> Seq<Seq<char>> {
    secs.map_values(
        |s: LineSection| finished_line(s.mutated, joined_line(s.strings, s.dscs, s.strings_first)),
    )
}

/// The JavaScript of a callback: `data_var` is set to an arrow function with
/// the parameters `params` whose body is the compiled lines.
pub open spec fn callback_text(data_var: Seq<char>, params: Seq<Seq<char>>, h: HalfCompiled) -> Seq<
    char,
> {
    data_var + " = ("@ + join(params, ", "@) + ") => {\n    "@ + crate::text::indent_by(
        4,
        join(callback_lines(h.sections), "\n"@),
    ) + "\n}"@
}

/// The outcome of compiling the callback `source` with parameters `params` into `data_var`.
pub open spec fn compile_callback(source: Seq<char>, params: Seq<Seq<char>>, data_var: Seq<char>) -> Outcome<
    Seq<char>,
> {
    match half_compile(source, false) {
        Outcome::Done(h) => Outcome::Done(callback_text(data_var, params, h)),
        Outcome::Failed(m) => Outcome::Failed(m),
        Outcome::Stuck => Outcome::Stuck,
    }
}

/// The first line of `s`, if it has one.
pub open spec fn first_line(s: Seq<char>) -> Option<Seq<char>> {
    if lines(s).len() > 0 {
        Some(lines(s)[0])
    } else {
        None
    }
}

/// A dynamic string run as a callback.
#[derive(Debug)]
pub struct DynamicCallbackString {
    source: String,
    params: Vec<String>,
}

/// A dynamic string whose value is bound to states.
#[derive(Debug)]
pub struct DynamicBindString {
    source: String,
}

/// What a compiled binding sets: a variable, the argument of a function, or
/// nothing (the compiled value is the expression itself).
#[derive(Debug)]
pub enum SetData {
    Variable(String),
    Function(String),
    Value,
}

/// The model of `SetData`.
pub enum SetDataView {
    Variable(Seq<char>),
    Function(Seq<char>),
    Value,
}

impl SetData {
    pub open spec fn view(&self) -> SetDataView {
        match self {
            SetData::Variable(v) => SetDataView::Variable(v@),
            SetData::Function(f) => SetDataView::Function(f@),
            SetData::Value => SetDataView::Value,
        }
    }
}

/// A dynamic string of either kind.
#[derive(Debug)]
pub enum DynamicString {
    Callback(DynamicCallbackString),
    Bind(DynamicBindString),
}

/// Whether the first line of `value` is exactly `header`.
fn has_header(value: &String, header: &str) -> (r: bool)
    ensures
        r == (first_line(value@) == Some(header@)),
{
    let cs = chars_of(value.as_str());
    let ls = split_lines(&cs);
    assert(ls@.map_values(|l: Vec<char>| l@).len() == ls@.len());
    if ls.len() == 0 {
        return false;
    }
    let h = chars_of(header);
    assert(ls@.map_values(|l: Vec<char>| l@)[0] == ls@[0]@);
    chars_equal(&ls[0], &h)
}

/// Appends the compiled form of a line to `out`.
fn push_finished_line(out: &mut String, mutated: &Option<String>, line: &String)
    ensures
        final(out)@ == old(out)@ + finished_line(crate::runes::opt_view(*mutated), line@),
{
    match mutated {
        Some(state) => {
            out.push_str("State.mutate(slf.states.");
            out.push_str(state.as_str());
            out.push_str(", (");
            out.push_str(state.as_str());
            out.push_str(") =>\n    ");
            out.push_str(line.as_str());
            out.push_str("\n);");
        },
        None => {
            out.push_str(line.as_str());
        },
    }
}

/// The literals and code pieces, back in their order.
fn join_sections(strings: &Vec<String>, dscs: &Vec<String>, strings_first: bool) -> (r: String)
    ensures
        r@ == joined_line(views(strings@), views(dscs@), strings_first),
{
    let a = clone_strings(strings);
    let b = clone_strings(dscs);
    let parts = if strings_first {
        interleave_strings(a, b)
    } else {
        interleave_strings(b, a)
    };
    proof {
        lemma_views_interleave(strings@, dscs@);
        lemma_views_interleave(dscs@, strings@);
    }
    concat_strings(&parts)
}

pub proof fn lemma_views_interleave(a: Seq<String>, b: Seq<String>)
    ensures
        views(interleave(a, b)) == interleave(views(a), views(b)),
    decreases a.len() + b.len(),
{
    if a.len() > 0 {
        lemma_views_interleave(b, a.drop_first());
        assert(views(a).drop_first() =~= views(a.drop_first()));
        assert(views(interleave(a, b)) =~= seq![views(a)[0]] + views(interleave(b, a.drop_first())));
    }
}

/// The compiled lines of a callback.
fn callback_lines_exec(h: &HalfCompiledDynamicString) -> (r: Vec<String>)
    ensures
        views(r@) == callback_lines(h.view().sections),
{
    let mut r: Vec<String> = Vec::new();
    let mut i: usize = 0;
    while i < h.line_sections.len()
        invariant
            i <= h.line_sections@.len(),
            views(r@) == callback_lines(h.view().sections).take(i as int),
        decreases h.line_sections.len() - i,
    {
        let sec = &h.line_sections[i];
        let line = join_sections(&sec.1.strings, &sec.1.dscs, sec.1.is_strings_first);
        let mut out = String::new();
        push_finished_line(&mut out, &sec.0, &line);
        let ghost before = views(r@);
        let ghost s = h.view().sections[i as int];
        assert(s == section_view(h.line_sections@[i as int]));
        assert(out@ == finished_line(s.mutated, joined_line(s.strings, s.dscs, s.strings_first)));
        assert(callback_lines(h.view().sections)[i as int] == out@);
        let ghost o = out@;
        r.push(out);
        assert(views(r@) =~= before.push(o));
        assert(callback_lines(h.view().sections).take(i + 1) =~= callback_lines(
            h.view().sections,
        ).take(i as int).push(o));
        i = i + 1;
    }
    r
}

impl DynamicCallbackString {
    /// A callback from `value`, when its first line is `callback`; `Err(true)` otherwise.
    pub fn try_from(value: String) -> (r: Result<Self, bool>)
        ensures
            first_line(value@) == Some("callback"@) ==> (r matches Ok(d) && d.source_view() == value@
                && d.params_view().len() == 0),
            first_line(value@) != Some("callback"@) ==> r == Err::<Self, bool>(true),
    {
        if !has_header(&value, "callback") {
            return Err(true);
        }
        Ok(DynamicCallbackString { source: value, params: Vec::new() })
    }

    /// A callback whose source is `source` as it is, with no parameters.
    pub fn from_source(source: String) -> (r: Self)
        ensures
            r.source_view() == source@,
            r.params_view().len() == 0,
    {
        DynamicCallbackString { source, params: Vec::new() }
    }

    /// The same callback, taking the parameters `params`.
    pub fn with_params(self, params: Vec<String>) -> (r: Self)
        ensures
            r.source_view() == self.source_view(),
            r.params_view() == views(params@),
    {
        DynamicCallbackString { source: self.source, params }
    }

    /// The source text.
    pub closed spec fn source_view(&self) -> Seq<char> {
        self.source@
    }

    /// The parameters the compiled function takes.
    pub closed spec fn params_view(&self) -> Seq<Seq<char>> {
        views(self.params@)
    }

    /// The source text.
    pub fn source(&self) -> (r: &str)
        ensures
            r@ == self.source_view(),
    {
        self.source.as_str()
    }

    /// Whether compiling the callback runs into an input on which the rune scan
    /// slices inside a character and panics (a `/` in code directly followed by a character of more
    /// than one byte).
    pub fn compile_panics(&self) -> (r: bool)
        ensures
            r == (half_compile(self.source_view(), false) is Stuck),
    {
        match HalfCompiledDynamicString::from_src_checked(self.source.as_str(), false) {
            Checked::Panics => true,
            _ => false,
        }
    }

    /// Compiles the callback into JavaScript that sets `data_var` to it.
    pub fn compile(&self, data_var: &str) -> (r: Result<String, GameReadError>)
        requires
            !(compile_callback(self.source_view(), self.params_view(), data_var@) is Stuck),
        ensures
            match compile_callback(self.source_view(), self.params_view(), data_var@) {
                Outcome::Done(t) => r matches Ok(s) && s@ == t,
                Outcome::Failed(m) => r matches Err(GameReadError::DynamicString(e)) && e@ == m,
                Outcome::Stuck => false,
            },
    {
        let half = HalfCompiledDynamicString::from_src(self.source.as_str(), false);
        match half {
            Err(e) => Err(e),
            Ok(h) => {
                let ls = callback_lines_exec(&h);
                let body = join_strings(&ls, "\n");
                let indented = indent_by(4, body.as_str());
                let mut out = String::new();
                out.push_str(data_var);
                out.push_str(" = (");
                let ps = join_strings(&self.params, ", ");
                out.push_str(ps.as_str());
                out.push_str(") => {\n    ");
                out.push_str(indented.as_str());
                out.push_str("\n}");
                Ok(out)
            },
        }
    }
}

impl From<DynamicCallbackString> for String {
    fn from(value: DynamicCallbackString) -> (r: String) {
        value.source
    }
}

impl FromSpecImpl<DynamicCallbackString> for String {
    open spec fn obeys_from_spec() -> bool {
        true
    }

    closed spec fn from_spec(v: DynamicCallbackString) -> String {
        v.source
    }
}

/// Turning a callback into a `String` gives back its whole source, header line
/// included.
pub proof fn lemma_callback_into_string(d: DynamicCallbackString)
    ensures
        <String as FromSpec<DynamicCallbackString>>::obeys_from_spec(),
        <String as FromSpec<DynamicCallbackString>>::from_spec(d)@ == d.source_view(),
{
}

/// `s` with every occurrence of `pat`, from left to right and not overlapping,
/// replaced by `rep`.
pub open spec fn replace_text(s: Seq<char>, pat: Seq<char>, rep: Seq<char>) -> Seq<char>
    decreases s.len(),
{
    if s.len() == 0 {
        s
    } else if pat.len() > 0 && pat.is_prefix_of(s) {
        rep + replace_text(s.skip(pat.len() as int), pat, rep)
    } else {
        seq![s[0]] + replace_text(s.drop_first(), pat, rep)
    }
}

pub proof fn lemma_name_end_bounds(s: Seq<char>, i: int)
    requires
        0 <= i,
    ensures
        i <= name_end(s, i),
        i <= s.len() ==> name_end(s, i) <= s.len(),
    decreases s.len() - i,
{
    if 0 <= i < s.len() && (is_name_start(s[i]) || crate::runes::is_digit(s[i])) {
        lemma_name_end_bounds(s, i + 1);
    }
}

/// `s` with every subscription `$<name` left in it replaced by a snapshot read
/// `State.snapshot(slf.states.name)`.
pub open spec fn replace_subscriptions(s: Seq<char>) -> Seq<char>
    decreases s.len(),
{
    if s.len() >= 3 && s[0] == '$' && s[1] == '<' && is_name_start(s[2]) {
        proof {
            lemma_name_end_bounds(s, 3);
        }
        let e = name_end(s, 3);
        "State.snapshot(slf.states."@ + s.subrange(2, e) + ")"@ + replace_subscriptions(s.skip(e))
    } else if s.len() == 0 {
        s
    } else {
        seq![s[0]] + replace_subscriptions(s.drop_first())
    }
}

/// A compiled code piece of a binding, for the update on a change of `sub`
/// (or for the first value, when `sub` is empty): `$<sub` reads the new value
/// `sub`, every other subscription reads a snapshot.
pub open spec fn complete_dsc(dsc: Seq<char>, sub: Seq<char>) -> Seq<char> {
    replace_subscriptions(
        if sub.len() > 0 {
            replace_text(dsc, "$<"@ + sub, sub)
        } else {
            dsc
        },
    )
}

/// The lines of a binding for `sub`.
pub open spec fn bind_lines(secs: Seq<LineSection>, sub: Seq<char>) -> Seq<Seq<char>> {
    secs.map_values(
        |s: LineSection|
            finished_line(
                s.mutated,
                joined_line(s.strings, s.dscs.map_values(|d: Seq<char>| complete_dsc(d, sub)), s.strings_first),
            ),
    )
}

/// A binding is simple when its source is its header and one more line that
/// does not start with `return`: that line is an expression.
pub open spec fn is_simple_binding(source: Seq<char>) -> bool {
    lines(source).len() == 2 && !("return"@.is_prefix_of(lines(source)[1]))
}

/// The statement that hands the value `r` to `data_var`; a value that is not
/// simple is the result of a function called at once.
pub open spec fn set_value(data_var: SetDataView, simple: bool, r: Seq<char>) -> Seq<char> {
    if simple {
        match data_var {
            SetDataView::Variable(v) => v + " = "@ + r + ";"@,
            SetDataView::Function(f) => f + "("@ + r + ");"@,
            SetDataView::Value => r,
        }
    } else {
        match data_var {
            SetDataView::Variable(v) => v + " = (() => {\n    "@ + r + "\n})();"@,
            SetDataView::Function(f) => f + "((() => {\n    "@ + r + "\n})());"@,
            SetDataView::Value => "(() => {\n    "@ + r + "\n})()"@,
        }
    }
}

/// The JavaScript that sets `data_var` when `sub` changes (or at first, for an empty `sub`).
pub open spec fn binding_text(data_var: SetDataView, sub: Seq<char>, h: HalfCompiled, simple: bool) -> Seq<
    char,
> {
    set_value(data_var, simple, crate::text::indent_by(4, join(bind_lines(h.sections, sub), "\n"@)))
}

/// The compiled binding: one entry for each subscribed state, in the order they
/// were first met, then the entry with the empty key for the first value.
pub open spec fn compiled_bindings(data_var: SetDataView, h: HalfCompiled, simple: bool) -> Seq<
    (Seq<char>, Seq<char>),
> {
    h.subs.map_values(|sub: Seq<char>| (sub, binding_text(data_var, sub, h, simple))).push(
        (Seq::empty(), binding_text(data_var, Seq::empty(), h, simple)),
    )
}

/// The outcome of compiling the binding `source` into `data_var`.
pub open spec fn compile_binding(source: Seq<char>, data_var: SetDataView) -> Outcome<
    Seq<(Seq<char>, Seq<char>)>,
> {
    match half_compile(source, true) {
        Outcome::Done(h) => Outcome::Done(
            compiled_bindings(data_var, h, is_simple_binding(source)),
        ),
        Outcome::Failed(m) => Outcome::Failed(m),
        Outcome::Stuck => Outcome::Stuck,
    }
}

/// The views of pairs of texts.
pub open spec fn pair_views(v: Seq<(String, String)>) -> Seq<(Seq<char>, Seq<char>)> {
    v.map_values(|p: (String, String)| (p.0@, p.1@))
}

/// `s` with every occurrence of `pat` replaced by `rep`.
fn replace_text_exec(s: &Vec<char>, pat: &Vec<char>, rep: &str) -> (r: String)
    ensures
        r@ == replace_text(s@, pat@, rep@),
{
    let mut out = String::new();
    let mut i: usize = 0;
    assert(s@.skip(0) =~= s@);
    while i < s.len()
        invariant
            i <= s@.len(),
            replace_text(s@, pat@, rep@) == out@ + replace_text(s@.skip(i as int), pat@, rep@),
        decreases s.len() - i,
    {
        let ghost t = s@.skip(i as int);
        if pat.len() > 0 && occurs_at(s, i, pat) {
            out.push_str(rep);
            assert(t.skip(pat@.len() as int) =~= s@.skip(i + pat@.len()));
            i = i + pat.len();
        } else {
            out.push(s[i]);
            assert(t.drop_first() =~= s@.skip(i + 1));
            i = i + 1;
        }
    }
    assert(s@.skip(i as int) =~= Seq::<char>::empty());
    out
}

fn name_end_of(s: &Vec<char>, i: usize) -> (r: usize)
    requires
        i <= s@.len(),
    ensures
        r == name_end(s@, i as int),
        i <= r <= s@.len(),
{
    let mut j = i;
    while j < s.len() && (('a' <= s[j] && s[j] <= 'z') || ('A' <= s[j] && s[j] <= 'Z') || s[j]
        == '_' || ('0' <= s[j] && s[j] <= '9'))
        invariant
            i <= j <= s@.len(),
            name_end(s@, i as int) == name_end(s@, j as int),
        decreases s.len() - j,
    {
        j = j + 1;
    }
    j
}

pub proof fn lemma_name_end_skip(s: Seq<char>, i: int, k: int)
    requires
        0 <= i <= k,
        i <= s.len(),
    ensures
        name_end(s.skip(i), k - i) == name_end(s, k) - i,
    decreases s.len() - k,
{
    if 0 <= k < s.len() && (is_name_start(s[k]) || crate::runes::is_digit(s[k])) {
        lemma_name_end_skip(s, i, k + 1);
    }
}

/// `s` with its subscriptions replaced by snapshot reads.
fn replace_subscriptions_exec(s: &Vec<char>) -> (r: String)
    ensures
        r@ == replace_subscriptions(s@),
{
    let mut out = String::new();
    let mut i: usize = 0;
    assert(s@.skip(0) =~= s@);
    while i < s.len()
        invariant
            i <= s@.len(),
            replace_subscriptions(s@) == out@ + replace_subscriptions(s@.skip(i as int)),
        decreases s.len() - i,
    {
        let ghost t = s@.skip(i as int);
        if s.len() - i >= 3 && s[i] == '$' && s[i + 1] == '<' && (('a' <= s[i + 2] && s[i + 2]
            <= 'z') || ('A' <= s[i + 2] && s[i + 2] <= 'Z') || s[i + 2] == '_') {
            let e = name_end_of(s, i + 3);
            proof {
                lemma_name_end_skip(s@, i as int, i + 3);
            }
            out.push_str("State.snapshot(slf.states.");
            push_range(&mut out, s, i + 2, e);
            out.push_str(")");
            assert(t.subrange(2, e - i) =~= s@.subrange(i + 2, e as int));
            assert(t.skip(e - i) =~= s@.skip(e as int));
            i = e;
        } else {
            out.push(s[i]);
            assert(t.drop_first() =~= s@.skip(i + 1));
            i = i + 1;
        }
    }
    assert(s@.skip(i as int) =~= Seq::<char>::empty());
    out
}

/// A compiled code piece of a binding, for the update on a change of `sub`.
fn complete_dsc_exec(dsc: &String, sub: &str) -> (r: String)
    ensures
        r@ == complete_dsc(dsc@, sub@),
{
    let cs = chars_of(dsc.as_str());
    if sub.is_empty() {
        replace_subscriptions_exec(&cs)
    } else {
        let mut pat = String::new();
        pat.push_str("$<");
        pat.push_str(sub);
        let pat_cs = chars_of(pat.as_str());
        let replaced = replace_text_exec(&cs, &pat_cs, sub);
        let replaced_cs = chars_of(replaced.as_str());
        replace_subscriptions_exec(&replaced_cs)
    }
}

/// The lines of a binding for `sub`.
fn bind_lines_exec(h: &HalfCompiledDynamicString, sub: &str) -> (r: Vec<String>)
    ensures
        views(r@) == bind_lines(h.view().sections, sub@),
{
    let mut r: Vec<String> = Vec::new();
    let mut i: usize = 0;
    while i < h.line_sections.len()
        invariant
            i <= h.line_sections@.len(),
            views(r@) == bind_lines(h.view().sections, sub@).take(i as int),
        decreases h.line_sections.len() - i,
    {
        let sec = &h.line_sections[i];
        let mut complete: Vec<String> = Vec::new();
        let mut j: usize = 0;
        while j < sec.1.dscs.len()
            invariant
                j <= sec.1.dscs@.len(),
                views(complete@) == views(sec.1.dscs@).map_values(
                    |d: Seq<char>| complete_dsc(d, sub@),
                ).take(j as int),
            decreases sec.1.dscs.len() - j,
        {
            let ghost before = views(complete@);
            let c = complete_dsc_exec(&sec.1.dscs[j], sub);
            let ghost cv = c@;
            complete.push(c);
            assert(views(complete@) =~= before.push(cv));
            assert(views(sec.1.dscs@).map_values(|d: Seq<char>| complete_dsc(d, sub@)).take(j + 1)
                =~= before.push(cv));
            j = j + 1;
        }
        let line = join_sections(&sec.1.strings, &complete, sec.1.is_strings_first);
        let mut out = String::new();
        push_finished_line(&mut out, &sec.0, &line);
        let ghost before = views(r@);
        let ghost s = h.view().sections[i as int];
        assert(s == section_view(h.line_sections@[i as int]));
        assert(views(complete@) =~= s.dscs.map_values(|d: Seq<char>| complete_dsc(d, sub@)));
        assert(bind_lines(h.view().sections, sub@)[i as int] == out@);
        let ghost o = out@;
        r.push(out);
        assert(views(r@) =~= before.push(o));
        assert(bind_lines(h.view().sections, sub@).take(i + 1) =~= bind_lines(
            h.view().sections,
            sub@,
        ).take(i as int).push(o));
        i = i + 1;
    }
    r
}

/// The statement that hands `r` to `data_var`.
fn set_value_exec(data_var: &SetData, simple: bool, r: &String) -> (out: String)
    ensures
        out@ == set_value(data_var@, simple, r@),
{
    let mut out = String::new();
    if simple {
        match data_var {
            SetData::Variable(v) => {
                out.push_str(v.as_str());
                out.push_str(" = ");
                out.push_str(r.as_str());
                out.push_str(";");
            },
            SetData::Function(f) => {
                out.push_str(f.as_str());
                out.push_str("(");
                out.push_str(r.as_str());
                out.push_str(");");
            },
            SetData::Value => {
                out.push_str(r.as_str());
            },
        }
    } else {
        match data_var {
            SetData::Variable(v) => {
                out.push_str(v.as_str());
                out.push_str(" = (() => {\n    ");
                out.push_str(r.as_str());
                out.push_str("\n})();");
            },
            SetData::Function(f) => {
                out.push_str(f.as_str());
                out.push_str("((() => {\n    ");
                out.push_str(r.as_str());
                out.push_str("\n})());");
            },
            SetData::Value => {
                out.push_str("(() => {\n    ");
                out.push_str(r.as_str());
                out.push_str("\n})()");
            },
        }
    }
    out
}

/// The JavaScript that sets `data_var` when `sub` changes.
fn finish_sectioned_line(
    data_var: &SetData,
    sub_state: &str,
    half: &HalfCompiledDynamicString,
    is_simple_binding: bool,
) -> (r: String)
    ensures
        r@ == binding_text(data_var@, sub_state@, half.view(), is_simple_binding),
{
    let ls = bind_lines_exec(half, sub_state);
    let body = join_strings(&ls, "\n");
    let indented = indent_by(4, body.as_str());
    set_value_exec(data_var, is_simple_binding, &indented)
}

/// Whether a binding source is its header and one line that is not a `return`.
fn simple_binding(source: &String) -> (r: bool)
    ensures
        r == is_simple_binding(source@),
{
    let cs = chars_of(source.as_str());
    let ls = split_lines(&cs);
    assert(ls@.map_values(|l: Vec<char>| l@).len() == ls@.len());
    if ls.len() != 2 {
        return false;
    }
    assert(ls@.map_values(|l: Vec<char>| l@)[1] == ls@[1]@);
    let ret = chars_of("return");
    !occurs_at(&ls[1], 0, &ret)
}

impl DynamicBindString {
    /// A binding from `value`, when its first line is `bind`; `Err(true)` otherwise.
    pub fn try_from(value: String) -> (r: Result<Self, bool>)
        ensures
            first_line(value@) == Some("bind"@) ==> (r matches Ok(d) && d.source_view()
                == value@),
            first_line(value@) != Some("bind"@) ==> r == Err::<Self, bool>(true),
    {
        if !has_header(&value, "bind") {
            return Err(true);
        }
        Ok(DynamicBindString { source: value })
    }

    /// A binding whose source is `source` as it is.
    pub fn from_source(source: String) -> (r: Self)
        ensures
            r.source_view() == source@,
    {
        DynamicBindString { source }
    }

    /// The source text.
    pub closed spec fn source_view(&self) -> Seq<char> {
        self.source@
    }

    /// The source text.
    pub fn source(&self) -> (r: &str)
        ensures
            r@ == self.source_view(),
    {
        self.source.as_str()
    }

    /// Whether compiling the binding runs into an input on which the rune scan
    /// slices inside a character and panics (a `/` in code directly followed by a character of more
    /// than one byte).
    pub fn compile_panics(&self) -> (r: bool)
        ensures
            r == (half_compile(self.source_view(), true) is Stuck),
    {
        match HalfCompiledDynamicString::from_src_checked(self.source.as_str(), true) {
            Checked::Panics => true,
            _ => false,
        }
    }

    /// Compiles the binding: for each subscribed state (in the order first met)
    /// the JavaScript run when it changes, with the state itself as key, then
    /// the JavaScript of the first value, with the empty key.
    pub fn compile(&self, data_var: SetData) -> (r: Result<Vec<(String, String)>, GameReadError>)
        requires
            !(compile_binding(self.source_view(), data_var@) is Stuck),
        ensures
            match compile_binding(self.source_view(), data_var@) {
                Outcome::Done(entries) => r matches Ok(v) && pair_views(v@) == entries,
                Outcome::Failed(m) => r matches Err(GameReadError::DynamicString(e)) && e@ == m,
                Outcome::Stuck => false,
            },
    {
        let is_simple = simple_binding(&self.source);
        let half = HalfCompiledDynamicString::from_src(self.source.as_str(), true);
        match half {
            Err(e) => Err(e),
            Ok(h) => {
                let ghost hv = h.view();
                let ghost goal = compiled_bindings(data_var@, hv, is_simple);
                let mut entries: Vec<(String, String)> = Vec::new();
                let mut i: usize = 0;
                assert(pair_views(entries@) =~= Seq::<(Seq<char>, Seq<char>)>::empty());
                while i < h.referenced_subs.len()
                    invariant
                        hv == h.view(),
                        goal == compiled_bindings(data_var@, hv, is_simple),
                        i <= h.referenced_subs@.len(),
                        pair_views(entries@) == goal.take(i as int),
                    decreases h.referenced_subs.len() - i,
                {
                    let sub = &h.referenced_subs[i];
                    let text = finish_sectioned_line(&data_var, sub.as_str(), &h, is_simple);
                    let ghost before = pair_views(entries@);
                    let ghost pv = (sub@, text@);
                    entries.push((sub.clone(), text));
                    assert(hv.subs[i as int] == sub@);
                    assert(pair_views(entries@) =~= before.push(pv));
                    assert(goal.take(i + 1) =~= goal.take(i as int).push(pv));
                    i = i + 1;
                }
                let text = finish_sectioned_line(&data_var, "", &h, is_simple);
                let ghost before = pair_views(entries@);
                let ghost pv = (Seq::<char>::empty(), text@);
                let key = String::new();
                entries.push((key, text));
                proof {
                    reveal_strlit("");
                }
                assert(""@ =~= Seq::<char>::empty());
                assert(text@ == binding_text(data_var@, Seq::empty(), hv, is_simple));
                assert(pair_views(entries@) =~= before.push(pv));
                assert(goal.len() == i + 1);
                assert(goal[i as int] == pv);
                assert(goal =~= goal.take(i as int).push(pv));
                Ok(entries)
            },
        }
    }
}

impl From<DynamicBindString> for String {
    fn from(value: DynamicBindString) -> (r: String) {
        value.source
    }
}

impl FromSpecImpl<DynamicBindString> for String {
    open spec fn obeys_from_spec() -> bool {
        true
    }

    closed spec fn from_spec(v: DynamicBindString) -> String {
        v.source
    }
}

/// Turning a binding into a `String` gives back its whole source, header line
/// included.
pub proof fn lemma_binding_into_string(d: DynamicBindString)
    ensures
        <String as FromSpec<DynamicBindString>>::obeys_from_spec(),
        <String as FromSpec<DynamicBindString>>::from_spec(d)@ == d.source_view(),
{
}

/// A compiled binding has one entry per subscribed state, each state once and
/// none under the empty key; the entry of the first value, under the empty
/// key, is always there, and last.
pub proof fn lemma_binding_keys(source: Seq<char>, data_var: SetDataView)
    ensures
        compile_binding(source, data_var) matches Outcome::Done(entries) ==> {
            &&& entries.len() >= 1
            &&& entries.last().0.len() == 0
            &&& forall|i: int| 0 <= i < entries.len() - 1 ==> #[trigger] entries[i].0.len() > 0
            &&& forall|i: int, j: int|
                0 <= i < entries.len() && 0 <= j < entries.len() && i != j ==> entries[i].0
                    != entries[j].0
        },
{
    lemma_half_compile_distinct(source, true);
    match half_compile(source, true) {
        Outcome::Done(h) => {
            let entries = compiled_bindings(data_var, h, is_simple_binding(source));
            assert(entries.len() == h.subs.len() + 1);
            assert forall|i: int| 0 <= i < entries.len() - 1 implies #[trigger] entries[i].0.len()
                > 0 by {
                assert(entries[i].0 == h.subs[i]);
            }
            assert forall|i: int, j: int|
                0 <= i < entries.len() && 0 <= j < entries.len() && i != j implies entries[i].0
                != entries[j].0 by {
                if i < h.subs.len() && j < h.subs.len() {
                    assert(entries[i].0 == h.subs[i] && entries[j].0 == h.subs[j]);
                } else if i < h.subs.len() {
                    assert(entries[i].0 == h.subs[i]);
                    assert(h.subs[i].len() > 0);
                } else {
                    assert(entries[j].0 == h.subs[j]);
                    assert(h.subs[j].len() > 0);
                }
            }
        },
        _ => {},
    }
}

proof fn lemma_compiled_bindings_keys(data_var: SetDataView, h: HalfCompiled, simple: bool)
    ensures
        forall|n: Seq<char>|
            (exists|i: int|
                0 <= i < compiled_bindings(data_var, h, simple).len() && #[trigger] compiled_bindings(
                    data_var,
                    h,
                    simple,
                )[i].0 == n) <==> (n.len() == 0 || h.subs.contains(n)),
{
    let entries = compiled_bindings(data_var, h, simple);
    assert(entries.len() == h.subs.len() + 1);
    assert(entries[h.subs.len() as int].0 == Seq::<char>::empty());
    assert forall|n: Seq<char>|
        (exists|i: int| 0 <= i < entries.len() && #[trigger] entries[i].0 == n) <==> (n.len() == 0
            || h.subs.contains(n)) by {
        if exists|i: int| 0 <= i < entries.len() && #[trigger] entries[i].0 == n {
            let i = choose|i: int| 0 <= i < entries.len() && #[trigger] entries[i].0 == n;
            if i < h.subs.len() {
                assert(entries[i].0 == h.subs[i]);
                assert(h.subs.contains(n));
            }
        }
        if n.len() == 0 {
            assert(entries[h.subs.len() as int].0 == n);
        } else if h.subs.contains(n) {
            let i = choose|i: int| 0 <= i < h.subs.len() && h.subs[i] == n;
            assert(entries[i].0 == n);
        }
    }
}

/// The keys of a compiled binding are the empty key, for the first value, and
/// the states that its lines after the header subscribe to with `$<`.
pub proof fn lemma_binding_key_set(source: Seq<char>, data_var: SetDataView)
    ensures
        compile_binding(source, data_var) matches Outcome::Done(entries) ==> forall|n: Seq<char>|
            (exists|i: int| 0 <= i < entries.len() && #[trigger] entries[i].0 == n) <==> (n.len() == 0
                || exists|l: int|
                1 <= l < lines(source).len() && #[trigger] line_subs(lines(source)[l], true).contains(n)),
{
    match compile_binding(source, data_var) {
        Outcome::Done(entries) => {
            lemma_binding_half_compile(source, data_var);
            let h = half_compile(source, true)->Done_0;
            lemma_half_compile_subs(source, true);
            lemma_compiled_bindings_keys(data_var, h, is_simple_binding(source));
        },
        _ => {},
    }
}

proof fn lemma_binding_half_compile(source: Seq<char>, data_var: SetDataView)
    ensures
        compile_binding(source, data_var) matches Outcome::Done(entries) ==> half_compile(
            source,
            true,
        ) matches Outcome::Done(h) && entries == compiled_bindings(data_var, h, is_simple_binding(source)),
{
}

/* Where a binding's value goes */

proof fn lemma_set_value_forms(simple: bool, r: Seq<char>, v: Seq<char>, f: Seq<char>)
    ensures
        set_value(SetDataView::Variable(v), simple, r) == v + " = "@ + set_value(
            SetDataView::Value,
            simple,
            r,
        ) + ";"@,
        set_value(SetDataView::Function(f), simple, r) == f + "("@ + set_value(
            SetDataView::Value,
            simple,
            r,
        ) + ");"@,
        !simple ==> set_value(SetDataView::Value, simple, r) == "(() => {\n    "@ + r + "\n})()"@,
{
    reveal_strlit(" = ");
    reveal_strlit(";");
    reveal_strlit("(");
    reveal_strlit(");");
    reveal_strlit(" = (() => {\n    ");
    reveal_strlit("\n})();");
    reveal_strlit("((() => {\n    ");
    reveal_strlit("\n})());");
    reveal_strlit("(() => {\n    ");
    reveal_strlit("\n})()");
    if !simple {
        assert(v + " = (() => {\n    "@ + r + "\n})();"@ =~= v + " = "@ + ("(() => {\n    "@ + r
            + "\n})()"@) + ";"@);
        assert(f + "((() => {\n    "@ + r + "\n})());"@ =~= f + "("@ + ("(() => {\n    "@ + r
            + "\n})()"@) + ");"@);
    }
}

/// A compiled binding hands the same value to every kind of target: compiled
/// as a value, each entry is an expression `X`; compiled into a variable `v`,
/// the entry with the same key is `v = X;`, and compiled into a function `f`,
/// it is `f(X);`. When the binding is not simple, `X` is a function that is
/// called at once, so its result is what is handed over.
pub proof fn lemma_binding_targets(source: Seq<char>, v: Seq<char>, f: Seq<char>)
    ensures
        compile_binding(source, SetDataView::Value) matches Outcome::Done(ev) ==> {
            &&& compile_binding(source, SetDataView::Variable(v)) matches Outcome::Done(evv)
            &&& compile_binding(source, SetDataView::Function(f)) matches Outcome::Done(ef)
            &&& evv.len() == ev.len() && ef.len() == ev.len()
            &&& forall|i: int|
                0 <= i < ev.len() ==> evv[i].0 == (#[trigger] ev[i]).0 && evv[i].1 == v + " = "@ + ev[i].1
                    + ";"@ && ef[i].0 == ev[i].0 && ef[i].1 == f + "("@ + ev[i].1 + ");"@
            &&& !is_simple_binding(source) ==> forall|i: int|
                0 <= i < ev.len() ==> (#[trigger] ev[i]).1.len() >= 18 && ev[i].1 == "(() => {\n    "@
                    + ev[i].1.subrange(13, ev[i].1.len() - 5) + "\n})()"@
        },
        compile_binding(source, SetDataView::Value) is Done <==> compile_binding(
            source,
            SetDataView::Function(f),
        ) is Done,
{
    match half_compile(source, true) {
        Outcome::Done(h) => {
            let simple = is_simple_binding(source);
            let ev = compiled_bindings(SetDataView::Value, h, simple);
            let evv = compiled_bindings(SetDataView::Variable(v), h, simple);
            let ef = compiled_bindings(SetDataView::Function(f), h, simple);
            assert(ev.len() == h.subs.len() + 1 && evv.len() == ev.len() && ef.len() == ev.len());
            assert forall|i: int|
                0 <= i < ev.len() implies evv[i].0 == (#[trigger] ev[i]).0 && evv[i].1 == v + " = "@
                + ev[i].1 + ";"@ && ef[i].0 == ev[i].0 && ef[i].1 == f + "("@ + ev[i].1 + ");"@ by {
                let sub = if i < h.subs.len() { h.subs[i] } else { Seq::empty() };
                let r = crate::text::indent_by(4, join(bind_lines(h.sections, sub), "\n"@));
                lemma_set_value_forms(simple, r, v, f);
                assert(ev[i] == (sub, binding_text(SetDataView::Value, sub, h, simple)));
                assert(evv[i] == (sub, binding_text(SetDataView::Variable(v), sub, h, simple)));
                assert(ef[i] == (sub, binding_text(SetDataView::Function(f), sub, h, simple)));
            }
            if !simple {
                assert forall|i: int| 0 <= i < ev.len() implies (#[trigger] ev[i]).1.len() >= 18 && ev[i].1
                    == "(() => {\n    "@ + ev[i].1.subrange(13, ev[i].1.len() - 5) + "\n})()"@ by {
                    let sub = if i < h.subs.len() { h.subs[i] } else { Seq::empty() };
                    let r = crate::text::indent_by(4, join(bind_lines(h.sections, sub), "\n"@));
                    lemma_set_value_forms(simple, r, v, f);
                    reveal_strlit("(() => {\n    ");
                    reveal_strlit("\n})()");
                    assert(ev[i] == (sub, binding_text(SetDataView::Value, sub, h, simple)));
                    assert(ev[i].1 == "(() => {\n    "@ + r + "\n})()"@);
                    assert(ev[i].1.subrange(13, ev[i].1.len() - 5) =~= r);
                }
            }
            assert(compile_binding(source, SetDataView::Value) == Outcome::Done(ev));
            assert(compile_binding(source, SetDataView::Variable(v)) == Outcome::Done(evv));
            assert(compile_binding(source, SetDataView::Function(f)) == Outcome::Done(ef));
        },
        _ => {},
    }
}

proof fn lemma_name_end_to(s: Seq<char>, p: int, q: int)
    requires
        0 <= p <= q <= s.len(),
        forall|k: int| p <= k < q ==> is_name_start(s[k]) || crate::runes::is_digit(s[k]),
        q < s.len() ==> !is_name_start(s[q]) && !crate::runes::is_digit(s[q]),
    ensures
        name_end(s, p) == q,
    decreases q - p,
{
    if p < q {
        lemma_name_end_to(s, p + 1, q);
    }
}

/// A subscription left in a binding reads a snapshot of the whole state name,
/// capitals and digits included: `$<n` followed by anything that does not go
/// on with a name character becomes `State.snapshot(slf.states.n)`.
pub proof fn lemma_subscription_snapshot(n: Seq<char>, rest: Seq<char>)
    requires
        state_name(n),
        rest.len() > 0 ==> !state_name_char(rest[0]),
    ensures
        replace_subscriptions("$<"@ + n + rest) == "State.snapshot(slf.states."@ + n + ")"@
            + replace_subscriptions(rest),
{
    reveal_strlit("$<");
    let s = "$<"@ + n + rest;
    let e: int = 2 + n.len() as int;
    assert(s[0] == '$' && s[1] == '<');
    assert forall|k: int| 2 <= k < e implies s[k] == n[k - 2] by {}
    assert(state_name_char(n[0]));
    assert(s[2] == n[0]);
    assert forall|k: int| 3 <= k < e implies is_name_start(s[k]) || crate::runes::is_digit(s[k]) by {
        assert(s[k] == n[k - 2]);
        assert(state_name_char(n[k - 2]));
    }
    if rest.len() > 0 {
        assert(s[e] == rest[0]);
    }
    lemma_name_end_to(s, 3, e);
    assert(s.subrange(2, e) =~= n);
    assert(s.skip(e) =~= rest);
}

} // verus!

//! The first compilation pass of a dynamic string: every line after the header
//! is cut into string literals and code, and the runes of the code are replaced.
use vstd::prelude::*;

use crate::error::{Checked, GameReadError};
use crate::runes::{
    add_name, add_sub, distinct_names, lemma_add_sub_distinct, lemma_replace_refs_distinct, is_digit, is_name_start, opt_view, replace_refs, ReplacedRefsDsc,
    ScanOutcome, state_name, state_name_char,
};
use crate::sections::{literal_at, sections, SectionedStrings};
use crate::text::{chars_of, lines, spaces, split_lines, string_of, string_of_range, views};

verus! {

/// First index from `i` on that does not hold a space.
pub open spec fn skip_spaces(s: Seq<char>, i: int) -> int
    decreases s.len() - i,
{
    if 0 <= i < s.len() && s[i] == ' ' {
        skip_spaces(s, i + 1)
    } else {
        i
    }
}

/// First index from `i` on that does not hold a character of a state name.
pub open spec fn name_end(s: Seq<char>, i: int) -> int
    decreases s.len() - i,
{
    if 0 <= i < s.len() && (is_name_start(s[i]) || is_digit(s[i])) {
        name_end(s, i + 1)
    } else {
        i
    }
}

/// First index from `i` on that holds a line feed, or the length of `s`.
pub open spec fn newline_from(s: Seq<char>, i: int) -> int
    decreases s.len() - i,
{
    if 0 <= i < s.len() && s[i] != '\n' {
        newline_from(s, i + 1)
    } else {
        i
    }
}

/// A line of the form `<spaces>$>name<spaces>:<spaces>rest`: the mutated state
/// and the rest of the line (up to a line feed).
pub open spec fn mutation_header(line: Seq<char>) -> Option<(Seq<char>, Seq<char>)> {
    let a = skip_spaces(line, 0);
    if a + 2 < line.len() && line[a] == '$' && line[a + 1] == '>' && is_name_start(line[a + 2]) {
        let e = name_end(line, a + 3);
        let b = skip_spaces(line, e);
        if b < line.len() && line[b] == ':' {
            let r = skip_spaces(line, b + 1);
            Some((line.subrange(a + 2, e), line.subrange(r, newline_from(line, r))))
        } else {
            None
        }
    } else {
        None
    }
}

/// A compiled line: the state it mutates, its literals, its compiled code pieces,
/// and whether it began with a literal.
pub struct LineSection {
    pub mutated: Option<Seq<char>>,
    pub strings: Seq<Seq<char>>,
    pub dscs: Seq<Seq<char>>,
    pub strings_first: bool,
}

/// The result of the first pass over a whole dynamic string.
pub struct HalfCompiled {
    pub sections: Seq<LineSection>,
    pub subs: Seq<Seq<char>>,
}

/// A result of the first pass, or its error message, or an input on which the
/// rune scan slices inside a character and panics.
pub enum Outcome<T> {
    Done(T),
    Failed(Seq<char>),
    Stuck,
}

impl<T> Outcome<T> {
    /// Goes on with `f` after a result; a failure or a panic stays as it is.
    pub open spec fn and_then<U>(self, f: spec_fn(T) -> Outcome<U>) -> Outcome<U> {
        match self {
            Outcome::Done(t) => f(t),
            Outcome::Failed(m) => Outcome::Failed(m),
            Outcome::Stuck => Outcome::Stuck,
        }
    }
}

/// `subs` with each of `new` added by `add_sub`, in order.
pub open spec fn add_subs(subs: Seq<Seq<char>>, new: Seq<Seq<char>>) -> Seq<Seq<char>>
    decreases new.len(),
{
    if new.len() == 0 {
        subs
    } else {
        add_subs(add_sub(subs, new[0]), new.drop_first())
    }
}

pub open spec fn callback_subscription_msg(dsc: Seq<char>) -> Seq<char> {
    "state subscription rune $< found in dynamic callback string `"@ + dsc + "`"@
}

/// Compiles the code pieces `dscs[j..]` of the line body `body`. Once a comment
/// was met, the pieces are kept as they are.
pub open spec fn compile_dscs_from(
    dscs: Seq<Seq<char>>,
    j: int,
    body: Seq<char>,
    is_bind: bool,
    has_comment: bool,
    mutated: Option<Seq<char>>,
    compiled: Seq<Seq<char>>,
    subs: Seq<Seq<char>>,
) -> Outcome<(Option<Seq<char>>, Seq<Seq<char>>, Seq<Seq<char>>)>
    decreases dscs.len() - j,
{
    if j < 0 || j >= dscs.len() {
        Outcome::Done((mutated, compiled, subs))
    } else if has_comment {
        compile_dscs_from(
            dscs,
            j + 1,
            body,
            is_bind,
            has_comment,
            mutated,
            compiled.push(dscs[j]),
            subs,
        )
    } else {
        match replace_refs(dscs[j], body, mutated) {
            ScanOutcome::Finished(st) => if !is_bind && st.subs.len() > 0 {
                Outcome::Failed(callback_subscription_msg(dscs[j]))
            } else {
                compile_dscs_from(
                    dscs,
                    j + 1,
                    body,
                    is_bind,
                    st.has_comment,
                    st.mutated,
                    compiled.push(st.out),
                    if is_bind {
                        add_subs(subs, st.subs)
                    } else {
                        subs
                    },
                )
            },
            ScanOutcome::Failed(m) => Outcome::Failed(m),
            _ => Outcome::Stuck,
        }
    }
}

/// The part of a line that is compiled: what follows a mutation header, or the whole line.
pub open spec fn line_body(line: Seq<char>) -> Seq<char> {
    match mutation_header(line) {
        Some((_, rest)) => rest,
        None => line,
    }
}

/// The state that a mutation header names.
pub open spec fn header_state(line: Seq<char>) -> Option<Seq<char>> {
    match mutation_header(line) {
        Some((name, _)) => Some(name),
        None => None,
    }
}

/// Compiles one line; `subs` are the subscriptions found before it.
pub open spec fn compile_line(line: Seq<char>, is_bind: bool, subs: Seq<Seq<char>>) -> Outcome<
    (LineSection, Seq<Seq<char>>),
> {
    let body = line_body(line);
    let secs = sections(body);
    match compile_dscs_from(secs.1, 0, body, is_bind, false, header_state(line), Seq::empty(), subs) {
        Outcome::Done((mutated, compiled, subs2)) => Outcome::Done(
            (
                LineSection {
                    mutated,
                    strings: secs.0,
                    dscs: compiled,
                    strings_first: literal_at(body, 0) is Some,
                },
                subs2,
            ),
        ),
        Outcome::Failed(m) => Outcome::Failed(m),
        Outcome::Stuck => Outcome::Stuck,
    }
}

/// Compiles the lines `ls[k..]`.
pub open spec fn compile_lines_from(
    ls: Seq<Seq<char>>,
    k: int,
    is_bind: bool,
    acc: Seq<LineSection>,
    subs: Seq<Seq<char>>,
) -> Outcome<HalfCompiled>
    decreases ls.len() - k,
{
    if k < 0 || k >= ls.len() {
        Outcome::Done(HalfCompiled { sections: acc, subs })
    } else {
        match compile_line(ls[k], is_bind, subs) {
            Outcome::Done((sec, subs2)) => compile_lines_from(ls, k + 1, is_bind, acc.push(sec), subs2),
            Outcome::Failed(m) => Outcome::Failed(m),
            Outcome::Stuck => Outcome::Stuck,
        }
    }
}

/// The first pass over `src`: all lines but the first (the header) are compiled.
/// Subscriptions are collected for a binding and refused in a callback.
pub open spec fn half_compile(src: Seq<char>, is_bind: bool) -> Outcome<HalfCompiled> {
    compile_lines_from(lines(src), 1, is_bind, Seq::empty(), Seq::empty())
}

/// The view of a compiled line.
pub open spec fn section_view(x: (Option<String>, SectionedStrings)) -> LineSection {
    LineSection {
        mutated: opt_view(x.0),
        strings: views(x.1.strings@),
        dscs: views(x.1.dscs@),
        strings_first: x.1.is_strings_first,
    }
}

/// The first pass over a dynamic string.
#[derive(Debug)]
pub struct HalfCompiledDynamicString {
    pub line_sections: Vec<(Option<String>, SectionedStrings)>,
    /// The subscribed states, each once, in the order first met.
    pub referenced_subs: Vec<String>,
}

impl HalfCompiledDynamicString {
    pub open spec fn view(&self) -> HalfCompiled {
        HalfCompiled {
            sections: self.line_sections@.map_values(|x: (Option<String>, SectionedStrings)| section_view(x)),
            subs: views(self.referenced_subs@),
        }
    }
}

/// Counts the spaces in `s` from index `i` on.
fn skip_spaces_exec(s: &Vec<char>, i: usize) -> (r: usize)
    requires
        i <= s@.len(),
    ensures
        r == skip_spaces(s@, i as int),
        i <= r <= s@.len(),
{
    let mut j = i;
    while j < s.len() && s[j] == ' '
        invariant
            i <= j <= s@.len(),
            skip_spaces(s@, i as int) == skip_spaces(s@, j as int),
        decreases s.len() - j,
    {
        j = j + 1;
    }
    j
}

fn name_end_exec(s: &Vec<char>, i: usize) -> (r: usize)
    requires
        i <= s@.len(),
    ensures
        r == name_end(s@, i as int),
        i <= r <= s@.len(),
{
    let mut j = i;
    while j < s.len() && (('a' <= s[j] && s[j] <= 'z') || ('A' <= s[j] && s[j] <= 'Z') || s[j]
        == '_' || ('0' <= s[j] && s[j] <= '9'))
        invariant
            i <= j <= s@.len(),
            name_end(s@, i as int) == name_end(s@, j as int),
        decreases s.len() - j,
    {
        j = j + 1;
    }
    j
}

fn newline_from_exec(s: &Vec<char>, i: usize) -> (r: usize)
    requires
        i <= s@.len(),
    ensures
        r == newline_from(s@, i as int),
        i <= r <= s@.len(),
{
    let mut j = i;
    while j < s.len() && s[j] != '\n'
        invariant
            i <= j <= s@.len(),
            newline_from(s@, i as int) == newline_from(s@, j as int),
        decreases s.len() - j,
    {
        j = j + 1;
    }
    j
}

/// Reads a mutation header: the state's name and the rest of the line.
fn parse_mutation_header(line: &Vec<char>) -> (r: Option<(String, String)>)
    ensures
        match mutation_header(line@) {
            Some((name, rest)) => r matches Some((n, t)) && n@ == name && t@ == rest,
            None => r is None,
        },
{
    let a = skip_spaces_exec(line, 0);
    if a < line.len() && line.len() - a > 2 && line[a] == '$' && line[a + 1] == '>' && (('a' <= line[a + 2]
        && line[a + 2] <= 'z') || ('A' <= line[a + 2] && line[a + 2] <= 'Z') || line[a + 2]
        == '_') {
        let e = name_end_exec(line, a + 3);
        let b = skip_spaces_exec(line, e);
        if b < line.len() && line[b] == ':' {
            let r = skip_spaces_exec(line, b + 1);
            let n = newline_from_exec(line, r);
            return Some((string_of_range(line, a + 2, e), string_of_range(line, r, n)));
        }
    }
    None
}

/// `subs` with each of `new` added, in order, unless it is in already.
fn add_names(subs: &mut Vec<String>, new: Vec<String>)
    ensures
        views(final(subs)@) == add_subs(views(old(subs)@), views(new@)),
{
    let mut k: usize = 0;
    let mut new = new;
    let ghost all_new = views(new@);
    assert(all_new.skip(0) =~= all_new);
    while k < new.len()
        invariant
            k <= new@.len(),
            all_new == views(new@),
            add_subs(views(old(subs)@), all_new) == add_subs(views(subs@), all_new.skip(k as int)),
        decreases new.len() - k,
    {
        let name = new[k].clone();
        let ghost before = views(subs@);
        add_name(subs, name);
        assert(all_new.skip(k as int).drop_first() =~= all_new.skip(k + 1));
        k = k + 1;
    }
    assert(all_new.skip(k as int) =~= Seq::<Seq<char>>::empty());
}

/// Compiles the line `line` for the first pass.
fn compile_line_exec(line: &Vec<char>, is_bind: bool, subs: &mut Vec<String>) -> (r: Checked<
    (Option<String>, SectionedStrings),
>)
    ensures
        match compile_line(line@, is_bind, views(old(subs)@)) {
            Outcome::Done((sec, subs2)) => r matches Checked::Done(x) && section_view(x) == sec
                && views(final(subs)@) == subs2,
            Outcome::Failed(m) => r matches Checked::Failed(GameReadError::DynamicString(e)) && e@
                == m,
            Outcome::Stuck => r is Panics,
        },
{
    let ghost subs0 = views(subs@);
    let header = parse_mutation_header(line);
    let mut mutated: Option<String> = None;
    let body = match header {
        Some((name, rest)) => {
            mutated = Some(name);
            rest
        },
        None => string_of(line),
    };
    assert(body@ == line_body(line@));
    assert(opt_view(mutated) == header_state(line@));
    let sectioned = SectionedStrings::new(body.as_str());
    let ghost secs = sections(body@);
    let mut compiled: Vec<String> = Vec::new();
    let mut has_comment = false;
    let mut j: usize = 0;
    assert(views(compiled@) =~= Seq::<Seq<char>>::empty());
    let ghost goal = compile_dscs_from(
        secs.1,
        0,
        body@,
        is_bind,
        false,
        header_state(line@),
        Seq::empty(),
        subs0,
    );
    while j < sectioned.dscs.len()
        invariant
            views(sectioned.dscs@) == secs.1,
            secs == sections(body@),
            body@ == line_body(line@),
            subs0 == views(old(subs)@),
            goal == compile_dscs_from(
                secs.1,
                0,
                body@,
                is_bind,
                false,
                header_state(line@),
                Seq::empty(),
                subs0,
            ),
            j <= secs.1.len(),
            goal == compile_dscs_from(
                secs.1,
                j as int,
                body@,
                is_bind,
                has_comment,
                opt_view(mutated),
                views(compiled@),
                views(subs@),
            ),
        decreases sectioned.dscs.len() - j,
    {
        let dsc = &sectioned.dscs[j];
        assert(dsc@ == secs.1[j as int]);
        let ghost before = views(compiled@);
        if has_comment {
            compiled.push(dsc.clone());
            assert(views(compiled@) =~= before.push(secs.1[j as int]));
        } else {
            let replaced = ReplacedRefsDsc::try_new_checked(dsc.as_str(), body.as_str(), mutated);
            match replaced {
                Checked::Panics => {
                    return Checked::Panics;
                },
                Checked::Failed(e) => {
                    return Checked::Failed(e);
                },
                Checked::Done(rep) => {
                    if !is_bind && rep.referenced_subs.len() > 0 {
                        let mut msg = String::new();
                        msg.push_str("state subscription rune $< found in dynamic callback string `");
                        msg.push_str(dsc.as_str());
                        msg.push_str("`");
                        assert(msg@ =~= callback_subscription_msg(secs.1[j as int]));
                        return Checked::Failed(GameReadError::DynamicString(msg));
                    }
                    if is_bind {
                        add_names(subs, rep.referenced_subs);
                    }
                    has_comment = rep.has_comment;
                    mutated = rep.mutated_state;
                    compiled.push(rep.replaced_dsc);
                    assert(views(compiled@) =~= before.push(compiled@.last()@));
                },
            }
        }
        j = j + 1;
    }
    Checked::Done(
        (
            mutated,
            SectionedStrings {
                strings: sectioned.strings,
                dscs: compiled,
                is_strings_first: sectioned.is_strings_first,
            },
        ),
    )
}

impl HalfCompiledDynamicString {
    /// The first pass over `src`; `is_bind` tells a binding from a callback.
    /// `Panics` on an input on which the rune scan slices inside a character.
    pub fn from_src_checked(src: &str, is_bind: bool) -> (r: Checked<Self>)
        ensures
            match half_compile(src@, is_bind) {
                Outcome::Done(h) => r matches Checked::Done(v) && v.view() == h,
                Outcome::Failed(m) => r matches Checked::Failed(GameReadError::DynamicString(e))
                    && e@ == m,
                Outcome::Stuck => r is Panics,
            },
    {
        let cs = chars_of(src);
        let ls = split_lines(&cs);
        let ghost lv = ls@.map_values(|l: Vec<char>| l@);
        let mut line_sections: Vec<(Option<String>, SectionedStrings)> = Vec::new();
        let mut subs: Vec<String> = Vec::new();
        let ghost goal = half_compile(src@, is_bind);
        assert(line_sections@.map_values(|x: (Option<String>, SectionedStrings)| section_view(x))
            =~= Seq::<LineSection>::empty());
        assert(views(subs@) =~= Seq::<Seq<char>>::empty());
        let mut k: usize = 1;
        while k < ls.len()
            invariant
                lv == ls@.map_values(|l: Vec<char>| l@),
                lv == lines(src@),
                goal == half_compile(src@, is_bind),
                1 <= k,
                goal == compile_lines_from(
                    lv,
                    k as int,
                    is_bind,
                    line_sections@.map_values(|x: (Option<String>, SectionedStrings)| section_view(x)),
                    views(subs@),
                ),
            decreases ls.len() - k,
        {
            assert(ls@[k as int]@ == lv[k as int]);
            let ghost before = line_sections@.map_values(
                |x: (Option<String>, SectionedStrings)| section_view(x),
            );
            let sec = compile_line_exec(&ls[k], is_bind, &mut subs);
            match sec {
                Checked::Panics => {
                    return Checked::Panics;
                },
                Checked::Failed(e) => {
                    return Checked::Failed(e);
                },
                Checked::Done(x) => {
                    line_sections.push(x);
                    assert(line_sections@.map_values(
                        |x: (Option<String>, SectionedStrings)| section_view(x),
                    ) =~= before.push(section_view(line_sections@.last())));
                },
            }
            k = k + 1;
        }
        Checked::Done(HalfCompiledDynamicString { line_sections, referenced_subs: subs })
    }

    /// The first pass over `src`; `is_bind` tells a binding from a callback.
    pub fn from_src(src: &str, is_bind: bool) -> (r: Result<Self, GameReadError>)
        requires
            !(half_compile(src@, is_bind) is Stuck),
        ensures
            match half_compile(src@, is_bind) {
                Outcome::Done(h) => r matches Ok(v) && v.view() == h,
                Outcome::Failed(m) => r matches Err(GameReadError::DynamicString(e)) && e@ == m,
                Outcome::Stuck => false,
            },
    {
        match Self::from_src_checked(src, is_bind) {
            Checked::Done(v) => Ok(v),
            Checked::Failed(e) => Err(e),
            Checked::Panics => Err(GameReadError::DynamicString(String::new())),
        }
    }
}

pub proof fn lemma_add_subs_distinct(subs: Seq<Seq<char>>, new: Seq<Seq<char>>)
    requires
        distinct_names(subs),
        distinct_names(new),
    ensures
        distinct_names(add_subs(subs, new)),
    decreases new.len(),
{
    if new.len() > 0 {
        assert(new[0].len() > 0);
        lemma_add_sub_distinct(subs, new[0]);
        let rest = new.drop_first();
        assert forall|a: int, b: int| 0 <= a < rest.len() && 0 <= b < rest.len() && a != b implies rest[a]
            != rest[b] by {
            assert(rest[a] == new[a + 1] && rest[b] == new[b + 1]);
        }
        assert forall|k: int| 0 <= k < rest.len() implies #[trigger] rest[k].len() > 0 by {
            assert(rest[k] == new[k + 1]);
        }
        lemma_add_subs_distinct(add_sub(subs, new[0]), rest);
    }
}

proof fn lemma_compile_dscs_distinct(
    dscs: Seq<Seq<char>>,
    j: int,
    body: Seq<char>,
    is_bind: bool,
    has_comment: bool,
    mutated: Option<Seq<char>>,
    compiled: Seq<Seq<char>>,
    subs: Seq<Seq<char>>,
)
    requires
        distinct_names(subs),
    ensures
        compile_dscs_from(dscs, j, body, is_bind, has_comment, mutated, compiled, subs) matches Outcome::Done(
            (_, _, subs2),
        ) ==> distinct_names(subs2),
    decreases dscs.len() - j,
{
    if 0 <= j < dscs.len() {
        if has_comment {
            lemma_compile_dscs_distinct(
                dscs,
                j + 1,
                body,
                is_bind,
                has_comment,
                mutated,
                compiled.push(dscs[j]),
                subs,
            );
        } else {
            lemma_replace_refs_distinct(dscs[j], body, mutated);
            match replace_refs(dscs[j], body, mutated) {
                ScanOutcome::Finished(st) => {
                    if is_bind {
                        lemma_add_subs_distinct(subs, st.subs);
                    }
                    lemma_compile_dscs_distinct(
                        dscs,
                        j + 1,
                        body,
                        is_bind,
                        st.has_comment,
                        st.mutated,
                        compiled.push(st.out),
                        if is_bind {
                            add_subs(subs, st.subs)
                        } else {
                            subs
                        },
                    );
                },
                _ => {},
            }
        }
    }
}

proof fn lemma_compile_lines_distinct(
    ls: Seq<Seq<char>>,
    k: int,
    is_bind: bool,
    acc: Seq<LineSection>,
    subs: Seq<Seq<char>>,
)
    requires
        distinct_names(subs),
    ensures
        compile_lines_from(ls, k, is_bind, acc, subs) matches Outcome::Done(h) ==> distinct_names(
            h.subs,
        ),
    decreases ls.len() - k,
{
    if 0 <= k < ls.len() {
        let line = ls[k];
        let body = line_body(line);
        let secs = sections(body);
        lemma_compile_dscs_distinct(secs.1, 0, body, is_bind, false, header_state(line), Seq::empty(), subs);
        match compile_line(line, is_bind, subs) {
            Outcome::Done((sec, subs2)) => {
                lemma_compile_lines_distinct(ls, k + 1, is_bind, acc.push(sec), subs2);
            },
            _ => {},
        }
    }
}

/// The subscriptions found by the first pass are distinct and named.
pub proof fn lemma_half_compile_distinct(src: Seq<char>, is_bind: bool)
    ensures
        half_compile(src, is_bind) matches Outcome::Done(h) ==> distinct_names(h.subs),
{
    lemma_compile_lines_distinct(lines(src), 1, is_bind, Seq::empty(), Seq::empty());
}

proof fn lemma_compile_dscs_callback(
    dscs: Seq<Seq<char>>,
    j: int,
    body: Seq<char>,
    has_comment: bool,
    mutated: Option<Seq<char>>,
    compiled: Seq<Seq<char>>,
    subs: Seq<Seq<char>>,
)
    ensures
        compile_dscs_from(dscs, j, body, false, has_comment, mutated, compiled, subs) matches Outcome::Done(
            (_, _, subs2),
        ) ==> subs2 == subs,
    decreases dscs.len() - j,
{
    if 0 <= j < dscs.len() {
        if has_comment {
            lemma_compile_dscs_callback(dscs, j + 1, body, has_comment, mutated, compiled.push(dscs[j]), subs);
        } else {
            match replace_refs(dscs[j], body, mutated) {
                ScanOutcome::Finished(st) => {
                    lemma_compile_dscs_callback(
                        dscs,
                        j + 1,
                        body,
                        st.has_comment,
                        st.mutated,
                        compiled.push(st.out),
                        subs,
                    );
                },
                _ => {},
            }
        }
    }
}

proof fn lemma_compile_lines_callback(
    ls: Seq<Seq<char>>,
    k: int,
    acc: Seq<LineSection>,
    subs: Seq<Seq<char>>,
)
    ensures
        compile_lines_from(ls, k, false, acc, subs) matches Outcome::Done(h) ==> h.subs == subs,
    decreases ls.len() - k,
{
    if 0 <= k < ls.len() {
        let line = ls[k];
        let body = line_body(line);
        let secs = sections(body);
        lemma_compile_dscs_callback(secs.1, 0, body, false, header_state(line), Seq::empty(), subs);
        match compile_line(line, false, subs) {
            Outcome::Done((sec, subs2)) => {
                lemma_compile_lines_callback(ls, k + 1, acc.push(sec), subs2);
            },
            _ => {},
        }
    }
}

/// A callback never subscribes to a state: its first pass records no subscription.
pub proof fn lemma_callback_has_no_subscriptions(src: Seq<char>)
    ensures
        half_compile(src, false) matches Outcome::Done(h) ==> h.subs.len() == 0,
{
    lemma_compile_lines_callback(lines(src), 1, Seq::empty(), Seq::empty());
}

/// The section that the line `line` compiles to on its own.
pub open spec fn line_section(line: Seq<char>, is_bind: bool) -> LineSection {
    match compile_line(line, is_bind, Seq::empty()) {
        Outcome::Done((sec, _)) => sec,
        _ => arbitrary(),
    }
}

/// The states that the line `line` subscribes to, found on its own.
pub open spec fn line_subs(line: Seq<char>, is_bind: bool) -> Seq<Seq<char>> {
    match compile_line(line, is_bind, Seq::empty()) {
        Outcome::Done((_, subs)) => subs,
        _ => Seq::empty(),
    }
}

proof fn lemma_add_subs_contains(subs: Seq<Seq<char>>, new: Seq<Seq<char>>, n: Seq<char>)
    ensures
        add_subs(subs, new).contains(n) <==> subs.contains(n) || new.contains(n),
    decreases new.len(),
{
    if new.len() > 0 {
        let s1 = add_sub(subs, new[0]);
        lemma_add_subs_contains(s1, new.drop_first(), n);
        if !subs.contains(new[0]) {
            if s1.contains(n) && !subs.contains(n) {
                let i = choose|i: int| 0 <= i < s1.len() && s1[i] == n;
                assert(i == subs.len());
            }
            if subs.contains(n) {
                let i = choose|i: int| 0 <= i < subs.len() && subs[i] == n;
                assert(s1[i] == n);
            }
            assert(s1[subs.len() as int] == new[0]);
        }
        if new.contains(n) && !new.drop_first().contains(n) {
            let i = choose|i: int| 0 <= i < new.len() && new[i] == n;
            if i > 0 {
                assert(new.drop_first()[i - 1] == n);
            }
        }
        if new.drop_first().contains(n) {
            let i = choose|i: int| 0 <= i < new.drop_first().len() && new.drop_first()[i] == n;
            assert(new[i + 1] == n);
        }
    }
}

/// The outcome of compiling code pieces with the subscriptions `subs` found
/// before is the one found from none, with `subs` joined to its subscriptions.
proof fn lemma_compile_dscs_subs(
    dscs: Seq<Seq<char>>,
    j: int,
    body: Seq<char>,
    is_bind: bool,
    has_comment: bool,
    mutated: Option<Seq<char>>,
    compiled: Seq<Seq<char>>,
    subs: Seq<Seq<char>>,
)
    ensures
        match compile_dscs_from(dscs, j, body, is_bind, has_comment, mutated, compiled, subs) {
            Outcome::Done((m, c, s)) => compile_dscs_from(
                dscs,
                j,
                body,
                is_bind,
                has_comment,
                mutated,
                compiled,
                Seq::empty(),
            ) matches Outcome::Done((m0, c0, s0)) && m == m0 && c == c0 && forall|n: Seq<char>|
                s.contains(n) <==> subs.contains(n) || s0.contains(n),
            Outcome::Failed(msg) => compile_dscs_from(
                dscs,
                j,
                body,
                is_bind,
                has_comment,
                mutated,
                compiled,
                Seq::empty(),
            ) == Outcome::<(Option<Seq<char>>, Seq<Seq<char>>, Seq<Seq<char>>)>::Failed(msg),
            Outcome::Stuck => compile_dscs_from(
                dscs,
                j,
                body,
                is_bind,
                has_comment,
                mutated,
                compiled,
                Seq::empty(),
            ) is Stuck,
        },
    decreases dscs.len() - j,
{
    if 0 <= j < dscs.len() {
        if has_comment {
            lemma_compile_dscs_subs(dscs, j + 1, body, is_bind, has_comment, mutated, compiled.push(dscs[j]), subs);
            lemma_compile_dscs_subs(
                dscs,
                j + 1,
                body,
                is_bind,
                has_comment,
                mutated,
                compiled.push(dscs[j]),
                Seq::empty(),
            );
        } else {
            match replace_refs(dscs[j], body, mutated) {
                ScanOutcome::Finished(st) => {
                    let a = if is_bind {
                        add_subs(subs, st.subs)
                    } else {
                        subs
                    };
                    let b = if is_bind {
                        add_subs(Seq::empty(), st.subs)
                    } else {
                        Seq::empty()
                    };
                    lemma_compile_dscs_subs(dscs, j + 1, body, is_bind, st.has_comment, st.mutated, compiled.push(st.out), a);
                    lemma_compile_dscs_subs(dscs, j + 1, body, is_bind, st.has_comment, st.mutated, compiled.push(st.out), b);
                    lemma_compile_dscs_subs(
                        dscs,
                        j + 1,
                        body,
                        is_bind,
                        st.has_comment,
                        st.mutated,
                        compiled.push(st.out),
                        Seq::empty(),
                    );
                    assert forall|n: Seq<char>| a.contains(n) <==> subs.contains(n) || b.contains(n) by {
                        if is_bind {
                            lemma_add_subs_contains(subs, st.subs, n);
                            lemma_add_subs_contains(Seq::empty(), st.subs, n);
                        }
                    }
                },
                _ => {},
            }
        }
    }
}

proof fn lemma_compile_line_subs(line: Seq<char>, is_bind: bool, subs: Seq<Seq<char>>)
    ensures
        match compile_line(line, is_bind, subs) {
            Outcome::Done((sec, s)) => compile_line(line, is_bind, Seq::empty()) matches Outcome::Done(
                (sec0, s0),
            ) && sec == sec0 && forall|n: Seq<char>| s.contains(n) <==> subs.contains(n) || s0.contains(n),
            Outcome::Failed(msg) => compile_line(line, is_bind, Seq::empty())
                == Outcome::<(LineSection, Seq<Seq<char>>)>::Failed(msg),
            Outcome::Stuck => compile_line(line, is_bind, Seq::empty()) is Stuck,
        },
{
    let body = line_body(line);
    let secs = sections(body);
    lemma_compile_dscs_subs(secs.1, 0, body, is_bind, false, header_state(line), Seq::empty(), subs);
}

proof fn lemma_compile_lines_laws(
    ls: Seq<Seq<char>>,
    k: int,
    is_bind: bool,
    acc: Seq<LineSection>,
    subs: Seq<Seq<char>>,
)
    requires
        0 <= k <= ls.len(),
    ensures
        compile_lines_from(ls, k, is_bind, acc, subs) matches Outcome::Done(h) ==> {
            &&& h.sections.len() == acc.len() + ls.len() - k
            &&& forall|i: int| 0 <= i < acc.len() ==> h.sections[i] == acc[i]
            &&& forall|i: int|
                k <= i < ls.len() ==> h.sections[acc.len() + i - k] == line_section(ls[i], is_bind)
            &&& forall|n: Seq<char>|
                h.subs.contains(n) <==> subs.contains(n) || exists|i: int|
                    k <= i < ls.len() && #[trigger] line_subs(ls[i], is_bind).contains(n)
        },
    decreases ls.len() - k,
{
    if k < ls.len() {
        lemma_compile_line_subs(ls[k], is_bind, subs);
        match compile_line(ls[k], is_bind, subs) {
            Outcome::Done((sec, subs2)) => {
                lemma_compile_lines_laws(ls, k + 1, is_bind, acc.push(sec), subs2);
                match compile_lines_from(ls, k + 1, is_bind, acc.push(sec), subs2) {
                    Outcome::Done(h) => {
                        assert forall|i: int| 0 <= i < acc.len() implies h.sections[i] == acc[i] by {
                            assert(acc.push(sec)[i] == acc[i]);
                        }
                        assert(h.sections[acc.len() as int] == acc.push(sec)[acc.len() as int]);
                        assert forall|n: Seq<char>|
                            h.subs.contains(n) <==> subs.contains(n) || exists|i: int|
                                k <= i < ls.len() && #[trigger] line_subs(ls[i], is_bind).contains(n) by {
                            if line_subs(ls[k], is_bind).contains(n) {
                                assert(k <= k < ls.len());
                            }
                            if exists|i: int| k + 1 <= i < ls.len() && #[trigger] line_subs(ls[i], is_bind).contains(n) {
                                let i = choose|i: int| k + 1 <= i < ls.len() && #[trigger] line_subs(ls[i], is_bind).contains(n);
                                assert(k <= i < ls.len());
                            }
                            if exists|i: int| k <= i < ls.len() && #[trigger] line_subs(ls[i], is_bind).contains(n) {
                                let i = choose|i: int| k <= i < ls.len() && #[trigger] line_subs(ls[i], is_bind).contains(n);
                                if i > k {
                                    assert(k + 1 <= i < ls.len());
                                }
                            }
                        }
                    },
                    _ => {},
                }
            },
            _ => {},
        }
    }
}

/// The states the first pass subscribes to are those its lines after the
/// header subscribe to.
pub proof fn lemma_half_compile_subs(src: Seq<char>, is_bind: bool)
    ensures
        half_compile(src, is_bind) matches Outcome::Done(h) ==> forall|n: Seq<char>|
            h.subs.contains(n) <==> exists|i: int|
                1 <= i < lines(src).len() && #[trigger] line_subs(lines(src)[i], is_bind).contains(n),
{
    lemma_half_compile_lines(src, is_bind);
}

/// The first pass gives one section per line after the header, in order, each
/// the one its line compiles to on its own; the states it subscribes to are
/// those that its lines subscribe to, and none for a callback.
pub proof fn lemma_half_compile_lines(src: Seq<char>, is_bind: bool)
    ensures
        half_compile(src, is_bind) matches Outcome::Done(h) ==> {
            &&& h.sections.len() == if lines(src).len() >= 1 {
                lines(src).len() - 1
            } else {
                0
            }
            &&& forall|i: int|
                0 <= i < h.sections.len() ==> h.sections[i] == line_section(lines(src)[i + 1], is_bind)
            &&& forall|n: Seq<char>|
                h.subs.contains(n) <==> exists|i: int|
                    1 <= i < lines(src).len() && #[trigger] line_subs(lines(src)[i], is_bind).contains(n)
            &&& !is_bind ==> h.subs.len() == 0
        },
{
    let ls = lines(src);
    lemma_callback_has_no_subscriptions(src);
    if ls.len() >= 1 {
        lemma_compile_lines_laws(ls, 1, is_bind, Seq::empty(), Seq::empty());
        match half_compile(src, is_bind) {
            Outcome::Done(h) => {
                assert forall|i: int|
                    0 <= i < h.sections.len() implies h.sections[i] == line_section(ls[i + 1], is_bind) by {
                    assert(1 <= i + 1 < ls.len());
                }
                assert forall|n: Seq<char>|
                    h.subs.contains(n) <==> exists|i: int|
                        1 <= i < ls.len() && #[trigger] line_subs(ls[i], is_bind).contains(n) by {
                    assert(!Seq::<Seq<char>>::empty().contains(n));
                }
            },
            _ => {},
        }
    }
}

/* Mutation headers */

proof fn lemma_skip_spaces_run(s: Seq<char>, p: int, q: int)
    requires
        0 <= p <= q <= s.len(),
        forall|k: int| p <= k < q ==> s[k] == ' ',
        q < s.len() ==> s[q] != ' ',
    ensures
        skip_spaces(s, p) == q,
    decreases q - p,
{
    if p < q {
        lemma_skip_spaces_run(s, p + 1, q);
    }
}

proof fn lemma_name_end_run(s: Seq<char>, p: int, q: int)
    requires
        0 <= p <= q <= s.len(),
        forall|k: int| p <= k < q ==> is_name_start(s[k]) || is_digit(s[k]),
        q < s.len() ==> !is_name_start(s[q]) && !is_digit(s[q]),
    ensures
        name_end(s, p) == q,
    decreases q - p,
{
    if p < q {
        lemma_name_end_run(s, p + 1, q);
    }
}

proof fn lemma_newline_run(s: Seq<char>, p: int)
    requires
        0 <= p <= s.len(),
        forall|k: int| p <= k < s.len() ==> s[k] != '\n',
    ensures
        newline_from(s, p) == s.len(),
    decreases s.len() - p,
{
    if p < s.len() {
        lemma_newline_run(s, p + 1);
    }
}

/// A mutation header is read whatever spaces surround it: a line made of
/// spaces, `$>`, a state name `n`, spaces, `:`, spaces and the value `rest`
/// mutates `n` to `rest`, and compiles as the same line without the spaces
/// in front of `$>`.
pub proof fn lemma_mutation_header_spaces(k: nat, n: Seq<char>, j: nat, l: nat, rest: Seq<char>)
    requires
        state_name(n),
        rest.len() > 0 ==> rest[0] != ' ',
        forall|i: int| 0 <= i < rest.len() ==> rest[i] != '\n',
    ensures
        mutation_header(spaces(k) + "$>"@ + n + spaces(j) + ":"@ + spaces(l) + rest) == Some((n, rest)),
        forall|is_bind: bool, subs: Seq<Seq<char>>|
            #[trigger] compile_line(spaces(k) + "$>"@ + n + spaces(j) + ":"@ + spaces(l) + rest, is_bind, subs)
                == compile_line("$>"@ + n + ":"@ + rest, is_bind, subs),
{
    lemma_mutation_header_form(k, n, j, l, rest);
    lemma_mutation_header_form(0, n, 0, 0, rest);
    assert(spaces(0) + "$>"@ + n + spaces(0) + ":"@ + spaces(0) + rest =~= "$>"@ + n + ":"@ + rest);
}

proof fn lemma_mutation_header_form(k: nat, n: Seq<char>, j: nat, l: nat, rest: Seq<char>)
    requires
        state_name(n),
        rest.len() > 0 ==> rest[0] != ' ',
        forall|i: int| 0 <= i < rest.len() ==> rest[i] != '\n',
    ensures
        mutation_header(spaces(k) + "$>"@ + n + spaces(j) + ":"@ + spaces(l) + rest) == Some((n, rest)),
{
    reveal_strlit("$>");
    reveal_strlit(":");
    let line = spaces(k) + "$>"@ + n + spaces(j) + ":"@ + spaces(l) + rest;
    let a: int = k as int;
    let e: int = a + 2 + n.len();
    let c: int = e + j;
    let r: int = c + 1 + l;
    assert(line.len() == r + rest.len());
    assert forall|i: int| 0 <= i < a implies line[i] == ' ' by {}
    assert(line[a] == '$' && line[a + 1] == '>');
    assert forall|i: int| a + 2 <= i < e implies line[i] == n[i - a - 2] by {}
    assert forall|i: int| e <= i < c implies line[i] == ' ' by {}
    assert(line[c] == ':');
    assert forall|i: int| c + 1 <= i < r implies line[i] == ' ' by {}
    assert forall|i: int| r <= i < line.len() implies line[i] == rest[i - r] by {}
    lemma_skip_spaces_run(line, 0, a);
    assert(state_name_char(n[0]));
    assert(line[a + 2] == n[0]);
    assert forall|i: int| a + 3 <= i < e implies is_name_start(line[i]) || is_digit(line[i]) by {
        assert(line[i] == n[i - a - 2]);
        assert(state_name_char(n[i - a - 2]));
    }
    lemma_name_end_run(line, a + 3, e);
    lemma_skip_spaces_run(line, e, c);
    lemma_skip_spaces_run(line, c + 1, r);
    assert forall|i: int| r <= i < line.len() implies line[i] != '\n' by {
        assert(line[i] == rest[i - r]);
    }
    lemma_newline_run(line, r);
    assert(line.subrange(a + 2, e) =~= n);
    assert(line.subrange(r, line.len() as int) =~= rest);
}

} // verus!

//! Replacing the state runes of one piece of DSC code.
//!
//! `$>name` mutates the state `name` (at most one per line) and becomes `name`,
//! `$<name` subscribes to it and stays as it is for now, `$name` reads a
//! snapshot of it, `$$` is a literal `$`, and `//` starts a comment, after which
//! nothing is replaced. The scan is a transducer over the characters of the code
//! followed by a `\0`; `scan_step` is one of its steps.
use vstd::prelude::*;

use crate::error::{Checked, GameReadError};
use crate::text::views;

verus! {

/// The kind of the rune being read.
#[derive(Clone, Copy)]
pub enum Rune {
    Mutation,
    Subscription,
    Snapshot,
}

/// A character that can start a state name.
pub open spec fn is_name_start(c: char) -> bool {
    ('a' <= c && c <= 'z') || ('A' <= c && c <= 'Z') || c == '_'
}

/// A decimal digit.
pub open spec fn is_digit(c: char) -> bool {
    '0' <= c && c <= '9'
}

/// What the scan has read so far.
pub struct ScanState {
    /// Start of the text not yet copied to `out`.
    pub window_left: int,
    /// A `$` was just read.
    pub runing: bool,
    /// The rune whose state name is being read.
    pub rune: Option<Rune>,
    pub out: Seq<char>,
    /// The subscribed states, each once, in the order first met.
    pub subs: Seq<Seq<char>>,
    pub mutated: Option<Seq<char>>,
    pub has_comment: bool,
}

/// Where a scan stands after a step, or how it ended.
pub enum ScanOutcome {
    Running(ScanState),
    Finished(ScanState),
    Failed(Seq<char>),
    /// Slicing the code at the next byte offset would panic here: a `/` is followed
    /// by a character of more than one byte.
    Stuck,
}

/// `prefix`, then the line in backquotes.
pub open spec fn located(prefix: Seq<char>, line: Seq<char>) -> Seq<char> {
    prefix + line + "`"@
}

pub open spec fn floating_dollar_msg(line: Seq<char>) -> Seq<char> {
    located("floating '$' found in `"@, line)
}

pub open spec fn unterminated_rune_msg(line: Seq<char>) -> Seq<char> {
    located("unknown rune '$\"' found in `"@, line)
}

pub open spec fn unknown_rune_msg(c: char, line: Seq<char>) -> Seq<char> {
    located("unknown rune '$"@ + seq![c] + "' found in `"@, line)
}

pub open spec fn floating_rune_msg(line: Seq<char>) -> Seq<char> {
    located("floating rune found in `"@, line)
}

pub open spec fn many_mutations_msg(line: Seq<char>) -> Seq<char> {
    located("more than one mutated state found in `"@, line)
}

/// `subs` with `name` added at the end unless it is in already.
pub open spec fn add_sub(subs: Seq<Seq<char>>, name: Seq<char>) -> Seq<Seq<char>> {
    if subs.contains(name) {
        subs
    } else {
        subs.push(name)
    }
}

/// The scan's state after the name `state` of rune `r` ended at index `i`.
pub open spec fn end_of_name(
    line: Seq<char>,
    st: ScanState,
    r: Rune,
    state: Seq<char>,
    i: int,
) -> ScanOutcome {
    let base = ScanState { window_left: i, rune: None, ..st };
    match r {
        Rune::Mutation => match st.mutated {
            Some(m) => if m != state {
                ScanOutcome::Failed(many_mutations_msg(line))
            } else {
                ScanOutcome::Running(ScanState { out: st.out + state, ..base })
            },
            None => ScanOutcome::Running(
                ScanState { out: st.out + state, mutated: Some(state), ..base },
            ),
        },
        Rune::Subscription => ScanOutcome::Running(
            ScanState { out: st.out + "$<"@ + state, subs: add_sub(st.subs, state), ..base },
        ),
        Rune::Snapshot => ScanOutcome::Running(
            ScanState { out: st.out + "State.snapshot(slf.states."@ + state + ")"@, ..base },
        ),
    }
}

/// One step of the scan: reading `d[i]` in state `st`. `d` ends with `\0`.
pub open spec fn scan_step(d: Seq<char>, line: Seq<char>, st: ScanState, i: int) -> ScanOutcome {
    let c = d[i];
    let rest = d.subrange(st.window_left, d.len() - 1);
    if c == '$' {
        if st.runing {
            ScanOutcome::Running(
                ScanState { runing: false, out: st.out.push('$'), window_left: i + 1, ..st },
            )
        } else {
            ScanOutcome::Running(
                ScanState { runing: true, out: st.out + d.subrange(st.window_left, i), ..st },
            )
        }
    } else if st.runing {
        if c == '<' {
            ScanOutcome::Running(
                ScanState {
                    rune: Some(Rune::Subscription),
                    runing: false,
                    window_left: i + 1,
                    ..st
                },
            )
        } else if c == '>' {
            ScanOutcome::Running(
                ScanState { rune: Some(Rune::Mutation), runing: false, window_left: i + 1, ..st },
            )
        } else if is_name_start(c) {
            ScanOutcome::Running(
                ScanState { rune: Some(Rune::Snapshot), runing: false, window_left: i, ..st },
            )
        } else if c == ' ' {
            ScanOutcome::Failed(floating_dollar_msg(line))
        } else if c == '\0' {
            ScanOutcome::Failed(unterminated_rune_msg(line))
        } else {
            ScanOutcome::Failed(unknown_rune_msg(c, line))
        }
    } else if st.rune is Some {
        if !is_name_start(c) {
            if i == st.window_left {
                ScanOutcome::Failed(floating_rune_msg(line))
            } else if !is_digit(c) {
                end_of_name(line, st, st.rune->0, d.subrange(st.window_left, i), i)
            } else {
                ScanOutcome::Running(st)
            }
        } else {
            ScanOutcome::Running(st)
        }
    } else if c == '/' && i + 1 < d.len() {
        if d[i + 1] == '/' {
            ScanOutcome::Finished(ScanState { out: st.out + rest, has_comment: true, ..st })
        } else if (d[i + 1] as u32) >= 0x80 {
            ScanOutcome::Stuck
        } else {
            ScanOutcome::Running(st)
        }
    } else if c == '\0' {
        ScanOutcome::Finished(ScanState { out: st.out + rest, ..st })
    } else {
        ScanOutcome::Running(st)
    }
}

/// The scan of `d` from index `i` on, in state `st`.
pub open spec fn scan(d: Seq<char>, line: Seq<char>, st: ScanState, i: int) -> ScanOutcome
    decreases d.len() - i,
{
    if i < 0 || i >= d.len() {
        ScanOutcome::Finished(st)
    } else {
        match scan_step(d, line, st, i) {
            ScanOutcome::Running(next) => scan(d, line, next, i + 1),
            other => other,
        }
    }
}

/// The state a scan starts in.
pub open spec fn initial_state(mutated: Option<Seq<char>>) -> ScanState {
    ScanState {
        window_left: 0,
        runing: false,
        rune: None,
        out: Seq::empty(),
        subs: Seq::empty(),
        mutated,
        has_comment: false,
    }
}

/// The outcome of replacing the runes of `dsc`, a piece of the line `line`,
/// when `mutated` is the state the line mutates so far.
pub open spec fn replace_refs(dsc: Seq<char>, line: Seq<char>, mutated: Option<Seq<char>>) -> ScanOutcome {
    scan(dsc.push('\0'), line, initial_state(mutated), 0)
}

/// The view of an optional text.
pub open spec fn opt_view(o: Option<String>) -> Option<Seq<char>> {
    match o {
        Some(s) => Some(s@),
        None => None,
    }
}

/// A piece of code with its runes replaced.
#[derive(Debug)]
pub struct ReplacedRefsDsc {
    pub replaced_dsc: String,
    /// The states subscribed to, each once.
    pub referenced_subs: Vec<String>,
    pub mutated_state: Option<String>,
    pub has_comment: bool,
}

/// `out` with `prefix`, `line` and a backquote appended.
fn push_located(out: &mut String, prefix: &str, line: &str)
    ensures
        final(out)@ == old(out)@ + located(prefix@, line@),
{
    out.push_str(prefix);
    out.push_str(line);
    out.push_str("`");
}

/// Whether `names` holds a text equal to `name`.
pub fn contains_name(names: &Vec<String>, name: &String) -> (r: bool)
    ensures
        r == views(names@).contains(name@),
{
    let mut i: usize = 0;
    while i < names.len()
        invariant
            i <= names@.len(),
            forall|j: int| 0 <= j < i ==> names@[j]@ != name@,
        decreases names.len() - i,
    {
        if names[i] == *name {
            assert(views(names@)[i as int] == name@);
            return true;
        }
        i = i + 1;
    }
    assert forall|j: int| 0 <= j < views(names@).len() implies views(names@)[j] != name@ by {
        assert(names@[j]@ != name@);
    }
    false
}

/// `subs` with `name` added unless it holds it already.
pub fn add_name(subs: &mut Vec<String>, name: String)
    ensures
        views(final(subs)@) == add_sub(views(old(subs)@), name@),
{
    if !contains_name(subs, &name) {
        let ghost before = views(subs@);
        subs.push(name);
        assert(views(subs@) =~= before.push(subs@.last()@));
    }
}

impl ReplacedRefsDsc {
    /// Replaces the runes of `dsc`, a piece of the line `src_line`, where
    /// `mutated_state` is the state the line mutates so far; `Panics` on an
    /// input on which the scan slices inside a character.
    pub fn try_new_checked(dsc: &str, src_line: &str, mutated_state: Option<String>) -> (r: Checked<
        Self,
    >)
        ensures
            match replace_refs(dsc@, src_line@, opt_view(mutated_state)) {
                ScanOutcome::Finished(st) => r matches Checked::Done(v) && v.replaced_dsc@
                    == st.out && views(v.referenced_subs@) == st.subs && opt_view(
                    v.mutated_state,
                ) == st.mutated && v.has_comment == st.has_comment,
                ScanOutcome::Failed(m) => r matches Checked::Failed(GameReadError::DynamicString(e))
                    && e@ == m,
                ScanOutcome::Stuck => r is Panics,
                _ => false,
            },
    {
        let mut d = crate::text::chars_of(dsc);
        d.push('\0');
        let ghost dv = dsc@.push('\0');
        assert(d@ =~= dv);
        let mut mutated = mutated_state;
        let mut subs: Vec<String> = Vec::new();
        let mut out = String::new();
        let mut has_comment = false;
        let mut window_left: usize = 0;
        let mut runing = false;
        let mut rune: Option<Rune> = None;
        let ghost goal = replace_refs(dsc@, src_line@, opt_view(mutated_state));
        assert(views(subs@) =~= Seq::<Seq<char>>::empty());
        let mut i: usize = 0;
        while i < d.len()
            invariant
                d@ == dv,
                dv.len() >= 1,
                dv.last() == '\0',
                i <= d@.len(),
                window_left <= i,
                window_left <= d@.len() - 1,
                goal == replace_refs(dsc@, src_line@, opt_view(mutated_state)),
                goal == scan(
                    dv,
                    src_line@,
                    ScanState {
                        window_left: window_left as int,
                        runing,
                        rune,
                        out: out@,
                        subs: views(subs@),
                        mutated: opt_view(mutated),
                        has_comment,
                    },
                    i as int,
                ),
            decreases d.len() - i,
        {
            let c = d[i];
            let ghost st = ScanState {
                window_left: window_left as int,
                runing,
                rune,
                out: out@,
                subs: views(subs@),
                mutated: opt_view(mutated),
                has_comment,
            };
            if c == '$' {
                if runing {
                    runing = false;
                    out.push('$');
                    window_left = i + 1;
                } else {
                    runing = true;
                    crate::text::push_range(&mut out, &d, window_left, i);
                }
            } else if runing {
                if c == '<' {
                    rune = Some(Rune::Subscription);
                    runing = false;
                    window_left = i + 1;
                } else if c == '>' {
                    rune = Some(Rune::Mutation);
                    runing = false;
                    window_left = i + 1;
                } else if ('a' <= c && c <= 'z') || ('A' <= c && c <= 'Z') || c == '_' {
                    rune = Some(Rune::Snapshot);
                    runing = false;
                    window_left = i;
                } else {
                    let mut msg = String::new();
                    if c == ' ' {
                        push_located(&mut msg, "floating '$' found in `", src_line);
                    } else if c == '\0' {
                        push_located(&mut msg, "unknown rune '$\"' found in `", src_line);
                    } else {
                        msg.push_str("unknown rune '$");
                        msg.push(c);
                        msg.push_str("' found in `");
                        msg.push_str(src_line);
                        msg.push_str("`");
                        assert(msg@ =~= unknown_rune_msg(c, src_line@));
                    }
                    return Checked::Failed(GameReadError::DynamicString(msg));
                }
            } else if let Some(r) = rune {
                if !(('a' <= c && c <= 'z') || ('A' <= c && c <= 'Z') || c == '_') {
                    if i == window_left {
                        let mut msg = String::new();
                        push_located(&mut msg, "floating rune found in `", src_line);
                        return Checked::Failed(GameReadError::DynamicString(msg));
                    } else if !('0' <= c && c <= '9') {
                        let state = crate::text::string_of_range(&d, window_left, i);
                        window_left = i;
                        rune = None;
                        match r {
                            Rune::Mutation => {
                                match &mutated {
                                    Some(m) => {
                                        if !(*m == state) {
                                            let mut msg = String::new();
                                            push_located(
                                                &mut msg,
                                                "more than one mutated state found in `",
                                                src_line,
                                            );
                                            return Checked::Failed(GameReadError::DynamicString(msg));
                                        }
                                    },
                                    None => {
                                        mutated = Some(state.clone());
                                    },
                                }
                                out.push_str(state.as_str());
                            },
                            Rune::Subscription => {
                                out.push_str("$<");
                                out.push_str(state.as_str());
                                add_name(&mut subs, state);
                            },
                            Rune::Snapshot => {
                                out.push_str("State.snapshot(slf.states.");
                                out.push_str(state.as_str());
                                out.push_str(")");
                            },
                        }
                    }
                }
            } else if c == '/' && i + 1 < d.len() && d[i + 1] == '/' {
                has_comment = true;
                crate::text::push_range(&mut out, &d, window_left, d.len() - 1);
                let ghost fin = ScanState {
                    window_left: window_left as int,
                    runing,
                    rune,
                    out: out@,
                    subs: views(subs@),
                    mutated: opt_view(mutated),
                    has_comment,
                };
                assert(scan_step(dv, src_line@, st, i as int) == ScanOutcome::Finished(fin));
                return Checked::Done(
                    ReplacedRefsDsc {
                        replaced_dsc: out,
                        referenced_subs: subs,
                        mutated_state: mutated,
                        has_comment,
                    },
                );
            } else if c == '/' && i + 1 < d.len() && (d[i + 1] as u32) >= 0x80 {
                return Checked::Panics;
            } else if c == '\0' {
                crate::text::push_range(&mut out, &d, window_left, d.len() - 1);
                let ghost fin = ScanState {
                    window_left: window_left as int,
                    runing,
                    rune,
                    out: out@,
                    subs: views(subs@),
                    mutated: opt_view(mutated),
                    has_comment,
                };
                assert(scan_step(dv, src_line@, st, i as int) == ScanOutcome::Finished(fin));
                return Checked::Done(
                    ReplacedRefsDsc {
                        replaced_dsc: out,
                        referenced_subs: subs,
                        mutated_state: mutated,
                        has_comment,
                    },
                );
            }
            let ghost next = ScanState {
                window_left: window_left as int,
                runing,
                rune,
                out: out@,
                subs: views(subs@),
                mutated: opt_view(mutated),
                has_comment,
            };
            assert(scan_step(dv, src_line@, st, i as int) == ScanOutcome::Running(next));
            i = i + 1;
        }
        Checked::Done(
            ReplacedRefsDsc {
                replaced_dsc: out,
                referenced_subs: subs,
                mutated_state: mutated,
                has_comment,
            },
        )
    }

    /// Replaces the runes of `dsc`, a piece of the line `src_line`, where
    /// `mutated_state` is the state the line mutates so far.
    pub fn try_new(dsc: &str, src_line: &str, mutated_state: Option<String>) -> (r: Result<
        Self,
        GameReadError,
    >)
        requires
            !(replace_refs(dsc@, src_line@, opt_view(mutated_state)) is Stuck),
        ensures
            match replace_refs(dsc@, src_line@, opt_view(mutated_state)) {
                ScanOutcome::Finished(st) => r matches Ok(v) && v.replaced_dsc@ == st.out
                    && views(v.referenced_subs@) == st.subs && opt_view(v.mutated_state)
                    == st.mutated && v.has_comment == st.has_comment,
                ScanOutcome::Failed(m) => r matches Err(GameReadError::DynamicString(e)) && e@
                    == m,
                _ => false,
            },
    {
        match Self::try_new_checked(dsc, src_line, mutated_state) {
            Checked::Done(v) => Ok(v),
            Checked::Failed(e) => Err(e),
            Checked::Panics => Err(GameReadError::DynamicString(String::new())),
        }
    }
}

proof fn lemma_plain_scan(d: Seq<char>, line: Seq<char>, st: ScanState, i: int)
    requires
        0 <= i < d.len(),
        d.last() == '\0',
        forall|k: int| 0 <= k < d.len() - 1 ==> d[k] != '$' && d[k] != '/' && d[k] != '\0',
        st.window_left == 0,
        !st.runing,
        st.rune is None,
        st.out.len() == 0,
    ensures
        scan(d, line, st, i) == ScanOutcome::Finished(
            ScanState { out: d.subrange(0, d.len() - 1), ..st },
        ),
    decreases d.len() - i,
{
    if i < d.len() - 1 {
        assert(scan_step(d, line, st, i) == ScanOutcome::Running(st));
        lemma_plain_scan(d, line, st, i + 1);
    } else {
        assert(st.out + d.subrange(0, d.len() - 1) =~= d.subrange(0, d.len() - 1));
    }
}

/// Code without runes, comments or `\0` is left as it is: nothing is
/// subscribed, the mutated state stays, and no comment is found.
pub proof fn lemma_plain_code_unchanged(dsc: Seq<char>, line: Seq<char>, mutated: Option<Seq<char>>)
    requires
        forall|k: int| 0 <= k < dsc.len() ==> dsc[k] != '$' && dsc[k] != '/' && dsc[k] != '\0',
    ensures
        replace_refs(dsc, line, mutated) matches ScanOutcome::Finished(st) && st.out == dsc
            && st.subs.len() == 0 && st.mutated == mutated && !st.has_comment,
{
    let d = dsc.push('\0');
    lemma_plain_scan(d, line, initial_state(mutated), 0);
    assert(d.subrange(0, d.len() - 1) =~= dsc);
}

/// Each subscribed state once, none with an empty name.
pub open spec fn distinct_names(subs: Seq<Seq<char>>) -> bool {
    &&& subs.no_duplicates()
    &&& forall|k: int| 0 <= k < subs.len() ==> #[trigger] subs[k].len() > 0
}

pub proof fn lemma_add_sub_distinct(subs: Seq<Seq<char>>, name: Seq<char>)
    requires
        distinct_names(subs),
        name.len() > 0,
    ensures
        distinct_names(add_sub(subs, name)),
{
    if !subs.contains(name) {
        let r = subs.push(name);
        assert forall|a: int, b: int| 0 <= a < r.len() && 0 <= b < r.len() && a != b implies r[a]
            != r[b] by {
            if a == subs.len() as int {
                assert(r[b] == subs[b]);
            } else if b == subs.len() as int {
                assert(r[a] == subs[a]);
            }
        }
    }
}

proof fn lemma_scan_distinct(d: Seq<char>, line: Seq<char>, st: ScanState, i: int)
    requires
        0 <= i,
        0 <= st.window_left <= i,
        distinct_names(st.subs),
    ensures
        scan(d, line, st, i) matches ScanOutcome::Finished(fin) ==> distinct_names(fin.subs),
    decreases d.len() - i,
{
    if i < d.len() {
        let c = d[i];
        if !(c == '$') && !st.runing && st.rune is Some && !is_name_start(c) && i
            != st.window_left && !is_digit(c) && st.rune->0 is Subscription {
            lemma_add_sub_distinct(st.subs, d.subrange(st.window_left, i));
        }
        match scan_step(d, line, st, i) {
            ScanOutcome::Running(next) => {
                lemma_scan_distinct(d, line, next, i + 1);
            },
            _ => {},
        }
    }
}

/// The subscriptions that a piece of code yields are distinct and named.
pub proof fn lemma_replace_refs_distinct(dsc: Seq<char>, line: Seq<char>, mutated: Option<Seq<char>>)
    ensures
        replace_refs(dsc, line, mutated) matches ScanOutcome::Finished(fin) ==> distinct_names(
            fin.subs,
        ),
{
    lemma_scan_distinct(dsc.push('\0'), line, initial_state(mutated), 0);
}

/* Mutation runes and the errors of the scan */

/// Whether reading `d[i]` in state `st` ends the name of a `$>` rune.
pub open spec fn ends_mutation(d: Seq<char>, st: ScanState, i: int) -> bool {
    &&& d[i] != '$'
    &&& !st.runing
    &&& st.rune == Some(Rune::Mutation)
    &&& !is_name_start(d[i])
    &&& i != st.window_left
    &&& !is_digit(d[i])
}

/// The names of the `$>` runes that the scan of `d` reads from index `i` on,
/// in order, up to where it stops.
pub open spec fn mutation_names(d: Seq<char>, line: Seq<char>, st: ScanState, i: int) -> Seq<Seq<char>>
    decreases d.len() - i,
{
    if i < 0 || i >= d.len() {
        Seq::empty()
    } else {
        let here = if ends_mutation(d, st, i) {
            seq![d.subrange(st.window_left, i)]
        } else {
            Seq::empty()
        };
        match scan_step(d, line, st, i) {
            ScanOutcome::Running(next) => here + mutation_names(d, line, next, i + 1),
            _ => here,
        }
    }
}

/// The state named by an optional mutation, as a sequence of at most one name.
pub open spec fn opt_seq(m: Option<Seq<char>>) -> Seq<Seq<char>> {
    match m {
        Some(x) => seq![x],
        None => Seq::empty(),
    }
}

/// All the names are the same.
pub open spec fn all_same(s: Seq<Seq<char>>) -> bool {
    forall|k: int| 0 <= k < s.len() ==> #[trigger] s[k] == s[0]
}

/// The first name, if any.
pub open spec fn first_of(s: Seq<Seq<char>>) -> Option<Seq<char>> {
    if s.len() > 0 {
        Some(s[0])
    } else {
        None
    }
}

/// `msg` is the error of a rune that goes wrong at `d[i]`: a `$` followed by a
/// space, by the end of the code or by a character that starts no rune; or a
/// `$<`, `$>` or `$$` followed by no name.
pub open spec fn rune_error_at(d: Seq<char>, line: Seq<char>, i: int, msg: Seq<char>) -> bool {
    &&& 1 <= i < d.len()
    &&& {
        ||| d[i - 1] == '$' && d[i] == ' ' && msg == floating_dollar_msg(line)
        ||| d[i - 1] == '$' && d[i] == '\0' && msg == unterminated_rune_msg(line)
        ||| d[i - 1] == '$' && d[i] != '<' && d[i] != '>' && d[i] != '$' && !is_name_start(d[i])
            && d[i] != ' ' && d[i] != '\0' && msg == unknown_rune_msg(d[i], line)
        ||| (d[i - 1] == '<' || d[i - 1] == '>' || d[i - 1] == '$') && d[i] != '$'
            && !is_name_start(d[i]) && msg == floating_rune_msg(line)
    }
}

proof fn lemma_scan_mutations(d: Seq<char>, line: Seq<char>, st: ScanState, i: int)
    requires
        0 <= i,
        0 <= st.window_left <= i,
        st.runing ==> 1 <= i && d[i - 1] == '$',
        st.rune is Some && st.window_left == i ==> 1 <= i && (d[i - 1] == '<' || d[i - 1] == '>'
            || d[i - 1] == '$'),
    ensures
        ({
            let all = opt_seq(st.mutated) + mutation_names(d, line, st, i);
            &&& scan(d, line, st, i) matches ScanOutcome::Finished(fin) ==> all_same(all)
                && fin.mutated == first_of(all)
            &&& scan(d, line, st, i) matches ScanOutcome::Failed(msg) ==> (msg == many_mutations_msg(
                line,
            ) && !all_same(all)) || (all_same(all) && exists|k: int| rune_error_at(d, line, k, msg))
        }),
    decreases d.len() - i,
{
    let all = opt_seq(st.mutated) + mutation_names(d, line, st, i);
    if i >= d.len() {
        assert(all == opt_seq(st.mutated));
    } else {
        let c = d[i];
        let here = if ends_mutation(d, st, i) {
            seq![d.subrange(st.window_left, i)]
        } else {
            Seq::<Seq<char>>::empty()
        };
        match scan_step(d, line, st, i) {
            ScanOutcome::Running(next) => {
                lemma_scan_mutations(d, line, next, i + 1);
                let all2 = opt_seq(next.mutated) + mutation_names(d, line, next, i + 1);
                let rest = mutation_names(d, line, next, i + 1);
                assert(all == opt_seq(st.mutated) + here + rest);
                if ends_mutation(d, st, i) {
                    let x = d.subrange(st.window_left, i);
                    match st.mutated {
                        Some(m) => {
                            assert(m == x);
                            assert(next.mutated == Some(m));
                            assert(all_same(all) <==> all_same(all2)) by {
                                if all_same(all2) {
                                    assert forall|k: int| 0 <= k < all.len() implies #[trigger] all[k] == all[0] by {
                                        if k >= 2 {
                                            assert(all2[k - 1] == all2[0]);
                                        }
                                    }
                                }
                                if all_same(all) {
                                    assert forall|k: int| 0 <= k < all2.len() implies #[trigger] all2[k] == all2[0] by {
                                        if k >= 1 {
                                            assert(all[k + 1] == all[0]);
                                        }
                                    }
                                }
                            }
                        },
                        None => {
                            assert(next.mutated == Some(x));
                            assert(all =~= all2);
                        },
                    }
                } else {
                    assert(next.mutated == st.mutated);
                    assert(all =~= all2);
                }
            },
            ScanOutcome::Failed(msg) => {
                if ends_mutation(d, st, i) && st.mutated is Some && st.mutated->0 != d.subrange(st.window_left, i) {
                    assert(all[1] == d.subrange(st.window_left, i));
                } else {
                    if ends_mutation(d, st, i) {
                        assert(st.mutated is None || st.mutated->0 == d.subrange(st.window_left, i));
                    }
                    assert(rune_error_at(d, line, i, msg));
                }
            },
            _ => {},
        }
    }
}

/// A line mutates at most one state. The `$>` runes of a piece of code must
/// all name the state the line mutates so far (or, when there is none yet, the
/// first of them, which it then mutates); otherwise the scan fails with the
/// "more than one mutated state" error. Every other failure is the error of a
/// rune that goes wrong at some character of the code.
pub proof fn lemma_one_mutated_state(dsc: Seq<char>, line: Seq<char>, mutated: Option<Seq<char>>)
    ensures
        ({
            let d = dsc.push('\0');
            let all = opt_seq(mutated) + mutation_names(d, line, initial_state(mutated), 0);
            &&& replace_refs(dsc, line, mutated) matches ScanOutcome::Finished(st) ==> all_same(all)
                && st.mutated == first_of(all)
            &&& replace_refs(dsc, line, mutated) matches ScanOutcome::Failed(msg) ==> (msg
                == many_mutations_msg(line) && !all_same(all)) || (all_same(all) && exists|k: int|
                rune_error_at(d, line, k, msg))
        }),
{
    lemma_scan_mutations(dsc.push('\0'), line, initial_state(mutated), 0);
}

/* State names */

/// A character that may stand in a state name: an ASCII letter, a digit or `_`.
pub open spec fn state_name_char(c: char) -> bool {
    ('a' <= c && c <= 'z') || ('A' <= c && c <= 'Z') || c == '_' || ('0' <= c && c <= '9')
}

/// A state name: `[a-zA-Z_][a-zA-Z0-9_]*`.
pub open spec fn state_name(n: Seq<char>) -> bool {
    &&& n.len() > 0
    &&& !('0' <= n[0] && n[0] <= '9')
    &&& forall|i: int| 0 <= i < n.len() ==> state_name_char(#[trigger] n[i])
}

/// Code in which nothing is replaced: no `$`, no `/` and no `\0`.
pub open spec fn plain_code(s: Seq<char>) -> bool {
    forall|i: int| 0 <= i < s.len() ==> #[trigger] s[i] != '$' && s[i] != '/' && s[i] != '\0'
}

proof fn lemma_scan_plain_tail(d: Seq<char>, line: Seq<char>, st: ScanState, i: int)
    requires
        d.len() >= 1,
        d.last() == '\0',
        0 <= st.window_left <= i <= d.len(),
        i == d.len() ==> st.window_left == d.len() - 1,
        forall|k: int| i <= k < d.len() - 1 ==> d[k] != '$' && d[k] != '/' && d[k] != '\0',
        !st.runing,
        st.rune is None,
    ensures
        scan(d, line, st, i) == ScanOutcome::Finished(
            ScanState { out: st.out + d.subrange(st.window_left, d.len() - 1), ..st },
        ),
    decreases d.len() - i,
{
    if i >= d.len() {
        assert(st.out + d.subrange(st.window_left, d.len() - 1) =~= st.out);
    } else if i < d.len() - 1 {
        assert(scan_step(d, line, st, i) == ScanOutcome::Running(st));
        lemma_scan_plain_tail(d, line, st, i + 1);
    }
}

proof fn lemma_scan_name_run(d: Seq<char>, line: Seq<char>, st: ScanState, i: int, e: int)
    requires
        0 <= st.window_left < i <= e < d.len(),
        st.rune is Some,
        !st.runing,
        forall|k: int| i <= k < e ==> is_name_start(d[k]) || is_digit(d[k]),
        forall|k: int| i <= k < e ==> d[k] != '$',
    ensures
        scan(d, line, st, i) == scan(d, line, st, e),
    decreases e - i,
{
    if i < e {
        assert(scan_step(d, line, st, i) == ScanOutcome::Running(st));
        lemma_scan_name_run(d, line, st, i + 1, e);
    }
}

proof fn lemma_name_chars(n: Seq<char>)
    requires
        state_name(n),
    ensures
        is_name_start(n[0]),
        forall|i: int| 0 <= i < n.len() ==> is_name_start(#[trigger] n[i]) || is_digit(n[i]),
{
    assert forall|i: int| 0 <= i < n.len() implies is_name_start(#[trigger] n[i]) || is_digit(n[i]) by {
        assert(state_name_char(n[i]));
    }
    assert(state_name_char(n[0]));
}

proof fn lemma_rest_ends_name(rest: Seq<char>, d: Seq<char>, e: int)
    requires
        plain_code(rest),
        rest.len() > 0 ==> !state_name_char(rest[0]),
        0 <= e < d.len(),
        d.len() == e + rest.len() + 1,
        d.last() == '\0',
        forall|k: int| e <= k < d.len() - 1 ==> d[k] == rest[k - e],
    ensures
        !is_name_start(d[e]) && !is_digit(d[e]) && d[e] != '$',
        forall|k: int| e + 1 <= k < d.len() - 1 ==> d[k] != '$' && d[k] != '/' && d[k] != '\0',
{
    if rest.len() > 0 {
        assert(d[e] == rest[0]);
        assert(rest[0] != '$');
    }
    assert forall|k: int| e + 1 <= k < d.len() - 1 implies d[k] != '$' && d[k] != '/' && d[k] != '\0' by {
        assert(d[k] == rest[k - e]);
    }
}

proof fn lemma_snapshot_rune(n: Seq<char>, rest: Seq<char>, line: Seq<char>, mutated: Option<Seq<char>>)
    requires
        state_name(n),
        plain_code(rest),
        rest.len() > 0 ==> !state_name_char(rest[0]),
    ensures
        replace_refs("$"@ + n + rest, line, mutated) matches ScanOutcome::Finished(st) && st.out
            == "State.snapshot(slf.states."@ + n + ")"@ + rest && st.subs.len() == 0 && st.mutated
            == mutated && !st.has_comment,
{
    reveal_strlit("$");
    lemma_name_chars(n);
    let st0 = initial_state(mutated);
    let src = "$"@ + n + rest;
    let d = src.push('\0');
    let e: int = 1 + n.len() as int;
    assert(d[0] == '$');
    assert forall|k: int| 1 <= k < e implies d[k] == n[k - 1] by {}
    assert forall|k: int| e <= k < d.len() - 1 implies d[k] == rest[k - e] by {}
    lemma_rest_ends_name(rest, d, e);
    let st1 = ScanState { runing: true, out: st0.out + d.subrange(0, 0), ..st0 };
    assert(scan_step(d, line, st0, 0) == ScanOutcome::Running(st1));
    assert(scan(d, line, st0, 0) == scan(d, line, st1, 1));
    let st2 = ScanState { rune: Some(Rune::Snapshot), runing: false, window_left: 1, ..st1 };
    assert(d[1] == n[0]);
    assert(scan_step(d, line, st1, 1) == ScanOutcome::Running(st2));
    assert(scan(d, line, st1, 1) == scan(d, line, st2, 2));
    if n.len() > 1 {
        assert forall|k: int| 2 <= k < e implies is_name_start(d[k]) || is_digit(d[k]) by {
            assert(d[k] == n[k - 1]);
        }
        lemma_scan_name_run(d, line, st2, 2, e);
    }
    assert(d.subrange(1, e) =~= n);
    let st3 = ScanState {
        window_left: e,
        rune: None,
        out: st2.out + "State.snapshot(slf.states."@ + n + ")"@,
        ..st2
    };
    assert(scan_step(d, line, st2, e) == ScanOutcome::Running(st3));
    assert(scan(d, line, st2, e) == scan(d, line, st3, e + 1));
    lemma_scan_plain_tail(d, line, st3, e + 1);
    assert(st3.out + d.subrange(e, d.len() - 1) =~= "State.snapshot(slf.states."@ + n + ")"@ + rest);
}

proof fn lemma_subscription_rune(n: Seq<char>, rest: Seq<char>, line: Seq<char>, mutated: Option<Seq<char>>)
    requires
        state_name(n),
        plain_code(rest),
        rest.len() > 0 ==> !state_name_char(rest[0]),
    ensures
        replace_refs("$<"@ + n + rest, line, mutated) matches ScanOutcome::Finished(st) && st.out
            == "$<"@ + n + rest && st.subs == seq![n] && st.mutated == mutated && !st.has_comment,
{
    reveal_strlit("$<");
    lemma_name_chars(n);
    let st0 = initial_state(mutated);
    let d = ("$<"@ + n + rest).push('\0');
    let e: int = 2 + n.len() as int;
    assert(d[0] == '$' && d[1] == '<');
    assert forall|k: int| 2 <= k < e implies d[k] == n[k - 2] by {}
    assert forall|k: int| e <= k < d.len() - 1 implies d[k] == rest[k - e] by {}
    lemma_rest_ends_name(rest, d, e);
    let st1 = ScanState { runing: true, out: st0.out + d.subrange(0, 0), ..st0 };
    assert(scan_step(d, line, st0, 0) == ScanOutcome::Running(st1));
    assert(scan(d, line, st0, 0) == scan(d, line, st1, 1));
    let st2 = ScanState { rune: Some(Rune::Subscription), runing: false, window_left: 2, ..st1 };
    assert(scan_step(d, line, st1, 1) == ScanOutcome::Running(st2));
    assert(scan(d, line, st1, 1) == scan(d, line, st2, 2));
    assert(d[2] == n[0]);
    assert(scan_step(d, line, st2, 2) == ScanOutcome::Running(st2));
    assert(scan(d, line, st2, 2) == scan(d, line, st2, 3));
    if n.len() > 1 {
        assert forall|k: int| 3 <= k < e implies is_name_start(d[k]) || is_digit(d[k]) by {
            assert(d[k] == n[k - 2]);
        }
        lemma_scan_name_run(d, line, st2, 3, e);
    }
    assert(d.subrange(2, e) =~= n);
    let st3 = ScanState {
        window_left: e,
        rune: None,
        out: st2.out + "$<"@ + n,
        subs: add_sub(st2.subs, n),
        ..st2
    };
    assert(scan_step(d, line, st2, e) == ScanOutcome::Running(st3));
    assert(scan(d, line, st2, e) == scan(d, line, st3, e + 1));
    assert(add_sub(Seq::empty(), n) =~= seq![n]);
    lemma_scan_plain_tail(d, line, st3, e + 1);
    assert(st3.out + d.subrange(e, d.len() - 1) =~= "$<"@ + n + rest);
}

proof fn lemma_mutation_rune(n: Seq<char>, rest: Seq<char>, line: Seq<char>, mutated: Option<Seq<char>>)
    requires
        state_name(n),
        plain_code(rest),
        rest.len() > 0 ==> !state_name_char(rest[0]),
        mutated is None || mutated == Some(n),
    ensures
        replace_refs("$>"@ + n + rest, line, mutated) matches ScanOutcome::Finished(st) && st.out == n
            + rest && st.subs.len() == 0 && st.mutated == Some(n) && !st.has_comment,
{
    reveal_strlit("$>");
    lemma_name_chars(n);
    let st0 = initial_state(mutated);
    let d = ("$>"@ + n + rest).push('\0');
    let e: int = 2 + n.len() as int;
    assert(d[0] == '$' && d[1] == '>');
    assert forall|k: int| 2 <= k < e implies d[k] == n[k - 2] by {}
    assert forall|k: int| e <= k < d.len() - 1 implies d[k] == rest[k - e] by {}
    lemma_rest_ends_name(rest, d, e);
    let st1 = ScanState { runing: true, out: st0.out + d.subrange(0, 0), ..st0 };
    assert(scan_step(d, line, st0, 0) == ScanOutcome::Running(st1));
    assert(scan(d, line, st0, 0) == scan(d, line, st1, 1));
    let st2 = ScanState { rune: Some(Rune::Mutation), runing: false, window_left: 2, ..st1 };
    assert(scan_step(d, line, st1, 1) == ScanOutcome::Running(st2));
    assert(scan(d, line, st1, 1) == scan(d, line, st2, 2));
    assert(d[2] == n[0]);
    assert(scan_step(d, line, st2, 2) == ScanOutcome::Running(st2));
    assert(scan(d, line, st2, 2) == scan(d, line, st2, 3));
    if n.len() > 1 {
        assert forall|k: int| 3 <= k < e implies is_name_start(d[k]) || is_digit(d[k]) by {
            assert(d[k] == n[k - 2]);
        }
        lemma_scan_name_run(d, line, st2, 3, e);
    }
    assert(d.subrange(2, e) =~= n);
    let st3 = ScanState { window_left: e, rune: None, out: st2.out + n, mutated: Some(n), ..st2 };
    assert(scan_step(d, line, st2, e) == ScanOutcome::Running(st3));
    assert(scan(d, line, st2, e) == scan(d, line, st3, e + 1));
    lemma_scan_plain_tail(d, line, st3, e + 1);
    assert(st3.out + d.subrange(e, d.len() - 1) =~= n + rest);
}

/// State names are read whole, capitals and digits included: for a state name
/// `n` followed by plain code `rest` that does not go on with a name
/// character, `$n` becomes a snapshot read of `n`, `$>n` becomes `n` and makes
/// `n` the mutated state, and `$<n` subscribes to `n` and stays as it is.
pub proof fn lemma_state_name_runes(
    n: Seq<char>,
    rest: Seq<char>,
    line: Seq<char>,
    mutated: Option<Seq<char>>,
)
    requires
        state_name(n),
        plain_code(rest),
        rest.len() > 0 ==> !state_name_char(rest[0]),
    ensures
        replace_refs("$"@ + n + rest, line, mutated) matches ScanOutcome::Finished(st) && st.out
            == "State.snapshot(slf.states."@ + n + ")"@ + rest && st.subs.len() == 0 && st.mutated
            == mutated && !st.has_comment,
        replace_refs("$<"@ + n + rest, line, mutated) matches ScanOutcome::Finished(st) && st.out
            == "$<"@ + n + rest && st.subs == seq![n] && st.mutated == mutated && !st.has_comment,
        mutated is None || mutated == Some(n) ==> (replace_refs("$>"@ + n + rest, line, mutated) matches ScanOutcome::Finished(
            st,
        ) && st.out == n + rest && st.subs.len() == 0 && st.mutated == Some(n) && !st.has_comment),
{
    lemma_snapshot_rune(n, rest, line, mutated);
    lemma_subscription_rune(n, rest, line, mutated);
    if mutated is None || mutated == Some(n) {
        lemma_mutation_rune(n, rest, line, mutated);
    }
}

} // verus!

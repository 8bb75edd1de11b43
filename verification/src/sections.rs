//! Splitting a line of DSC into its string literals and the code between them.
//!
//! A string literal opens with `"` and closes with the first `"` that follows
//! a character other than a backslash and an even number of backslashes after
//! it; its body holds at least one character and no line feed before that
//! closing character. Literals are found from left to right, each search
//! starting where the previous literal ended.
use vstd::prelude::*;

use crate::outside::interleave;
use crate::text::{concat, push_range, string_of_range, views};

verus! {

/// Number of consecutive backslashes in `s` from index `i` on.
pub open spec fn backslash_run(s: Seq<char>, i: int) -> nat
    decreases s.len() - i,
{
    if 0 <= i < s.len() && s[i] == '\\' {
        1 + backslash_run(s, i + 1)
    } else {
        0
    }
}

/// A literal can close with the character at `q`: it is no backslash, and an
/// even number of backslashes follows it, then a quotation mark.
pub open spec fn closes_at(s: Seq<char>, q: int) -> bool {
    &&& 0 <= q < s.len()
    &&& s[q] != '\\'
    &&& backslash_run(s, q + 1) % 2 == 0
    &&& q + 1 + backslash_run(s, q + 1) < s.len()
    &&& s[q + 1 + backslash_run(s, q + 1)] == '"'
}

/// End (exclusive) of the literal opened at `p`, trying bodies of `k + 1`
/// characters and more, shortest first.
pub open spec fn literal_end_from(s: Seq<char>, p: int, k: int) -> Option<int>
    decreases s.len() - (p + 1 + k),
{
    let q = p + 1 + k;
    if k < 0 || q < 0 || q >= s.len() {
        None
    } else if closes_at(s, q) {
        Some(q + 2 + backslash_run(s, q + 1))
    } else if s[q] == '\n' {
        None
    } else {
        literal_end_from(s, p, k + 1)
    }
}

/// End (exclusive) of the string literal that starts at `p`, if one does.
pub open spec fn literal_at(s: Seq<char>, p: int) -> Option<int> {
    if 0 <= p < s.len() && s[p] == '"' {
        literal_end_from(s, p, 0)
    } else {
        None
    }
}

pub proof fn lemma_literal_end_from_bounds(s: Seq<char>, p: int, k: int)
    requires
        0 <= p,
        0 <= k,
    ensures
        literal_end_from(s, p, k) matches Some(e) ==> p + 3 + k <= e <= s.len(),
    decreases s.len() - (p + 1 + k),
{
    let q = p + 1 + k;
    if q < s.len() && !closes_at(s, q) && s[q] != '\n' {
        lemma_literal_end_from_bounds(s, p, k + 1);
    }
}

pub proof fn lemma_literal_at_bounds(s: Seq<char>, p: int)
    ensures
        literal_at(s, p) matches Some(e) ==> 0 <= p && p + 3 <= e <= s.len(),
{
    if 0 <= p < s.len() && s[p] == '"' {
        lemma_literal_end_from_bounds(s, p, 0);
    }
}

/// `t` as a one-element sequence when it is not empty, else nothing.
pub open spec fn keep_nonempty(t: Seq<char>) -> Seq<Seq<char>> {
    if t.len() > 0 {
        seq![t]
    } else {
        Seq::empty()
    }
}

/// The literals of `s` found from index `from` on, and the non-empty pieces of
/// code from `start` on, the first of which runs from `start` to the next literal.
pub open spec fn sections_from(s: Seq<char>, from: int, start: int) -> (
    Seq<Seq<char>>,
    Seq<Seq<char>>,
)
    decreases s.len() - from,
{
    if from < 0 || from >= s.len() {
        (Seq::empty(), keep_nonempty(s.subrange(start, s.len() as int)))
    } else {
        match literal_at(s, from) {
            Some(e) => {
                proof {
                    lemma_literal_at_bounds(s, from);
                }
                let rest = sections_from(s, e, e);
                (
                    seq![s.subrange(from, e)] + rest.0,
                    keep_nonempty(s.subrange(start, from)) + rest.1,
                )
            },
            None => sections_from(s, from + 1, start),
        }
    }
}

/// The string literals of `s` in order, and the non-empty pieces of code around them.
pub open spec fn sections(s: Seq<char>) -> (Seq<Seq<char>>, Seq<Seq<char>>) {
    sections_from(s, 0, 0)
}

/// A line cut into string literals and the (non-empty) code between them.
#[derive(Debug)]
pub struct SectionedStrings {
    pub strings: Vec<String>,
    pub dscs: Vec<String>,
    pub is_strings_first: bool,
}

/// Counts the backslashes in `cs` from index `i` on.
fn count_backslashes(cs: &Vec<char>, i: usize) -> (r: usize)
    requires
        i <= cs@.len(),
    ensures
        r == backslash_run(cs@, i as int),
        i + r <= cs@.len(),
{
    let mut j = i;
    while j < cs.len() && cs[j] == '\\'
        invariant
            i <= j <= cs@.len(),
            backslash_run(cs@, i as int) == (j - i) + backslash_run(cs@, j as int),
        decreases cs.len() - j,
    {
        j = j + 1;
    }
    j - i
}

/// End (exclusive) of the string literal that starts at `p` in `cs`, if one does.
fn find_literal_at(cs: &Vec<char>, p: usize) -> (r: Option<usize>)
    requires
        p <= cs@.len(),
    ensures
        r matches Some(e) ==> literal_at(cs@, p as int) == Some(e as int),
        r is None ==> literal_at(cs@, p as int) is None,
        r matches Some(e) ==> p + 3 <= e <= cs@.len(),
{
    proof {
        lemma_literal_at_bounds(cs@, p as int);
    }
    if p >= cs.len() || cs[p] != '"' {
        return None;
    }
    let mut k: usize = 0;
    while p + 1 + k < cs.len()
        invariant
            p < cs@.len(),
            p + 1 + k <= cs@.len(),
            cs@[p as int] == '"',
            literal_at(cs@, p as int) == literal_end_from(cs@, p as int, k as int),
        decreases cs.len() - (p + 1 + k),
    {
        let q = p + 1 + k;
        if cs[q] != '\\' {
            let run = count_backslashes(cs, q + 1);
            if run % 2 == 0 && q + 1 + run < cs.len() && cs[q + 1 + run] == '"' {
                return Some(q + 2 + run);
            }
        }
        if cs[q] == '\n' {
            return None;
        }
        k = k + 1;
    }
    None
}

impl SectionedStrings {
    /// Cuts `line` into its string literals and the non-empty code between them.
    pub fn new(line: &str) -> (r: Self)
        ensures
            views(r.strings@) == sections(line@).0,
            views(r.dscs@) == sections(line@).1,
            r.is_strings_first == (literal_at(line@, 0) is Some),
    {
        let cs = crate::text::chars_of(line);
        let mut strings: Vec<String> = Vec::new();
        let mut dscs: Vec<String> = Vec::new();
        let mut from: usize = 0;
        let mut start: usize = 0;
        let first = find_literal_at(&cs, 0);
        assert(views(strings@) =~= Seq::<Seq<char>>::empty());
        assert(views(dscs@) =~= Seq::<Seq<char>>::empty());
        while from < cs.len()
            invariant
                start <= from <= cs@.len(),
                sections(cs@).0 == views(strings@) + sections_from(cs@, from as int, start as int).0,
                sections(cs@).1 == views(dscs@) + sections_from(cs@, from as int, start as int).1,
            decreases cs.len() - from,
        {
            match find_literal_at(&cs, from) {
                Some(e) => {
                    let ghost old_strings = views(strings@);
                    let ghost old_dscs = views(dscs@);
                    let ghost rest = sections_from(cs@, e as int, e as int);
                    strings.push(string_of_range(&cs, from, e));
                    if from > start {
                        dscs.push(string_of_range(&cs, start, from));
                    }
                    assert(views(strings@) =~= old_strings + seq![cs@.subrange(from as int, e as int)]);
                    assert(views(dscs@) =~= old_dscs + keep_nonempty(
                        cs@.subrange(start as int, from as int),
                    ));
                    assert(sections(cs@).0 =~= views(strings@) + rest.0);
                    assert(sections(cs@).1 =~= views(dscs@) + rest.1);
                    from = e;
                    start = e;
                },
                None => {
                    from = from + 1;
                },
            }
        }
        let ghost old_dscs = views(dscs@);
        if start < cs.len() {
            dscs.push(string_of_range(&cs, start, cs.len()));
        }
        assert(views(dscs@) =~= old_dscs + keep_nonempty(
            cs@.subrange(start as int, cs@.len() as int),
        ));
        assert(sections(cs@).0 =~= views(strings@));
        SectionedStrings { strings, dscs, is_strings_first: first.is_some() }
    }
}

/// No string literal found in `s` from index `from` on starts right where the
/// previous one ended: between two literals there is always some code.
pub open spec fn literals_apart_from(s: Seq<char>, from: int) -> bool
    decreases s.len() - from,
{
    if from < 0 || from >= s.len() {
        true
    } else {
        match literal_at(s, from) {
            Some(e) => {
                proof {
                    lemma_literal_at_bounds(s, from);
                }
                literal_at(s, e) is None && literals_apart_from(s, e)
            },
            None => literals_apart_from(s, from + 1),
        }
    }
}

pub proof fn lemma_concat_prepend(x: Seq<char>, rest: Seq<Seq<char>>)
    ensures
        concat(seq![x] + rest) == x + concat(rest),
    decreases rest.len(),
{
    if rest.len() == 0 {
        assert(seq![x] + rest =~= seq![x]);
        assert(seq![x].drop_last() =~= Seq::<Seq<char>>::empty());
        assert(concat(seq![x]) == concat(Seq::<Seq<char>>::empty()) + x);
        assert(Seq::<char>::empty() + x =~= x);
        assert(x + Seq::<char>::empty() =~= x);
    } else {
        lemma_concat_prepend(x, rest.drop_last());
        assert((seq![x] + rest).drop_last() =~= seq![x] + rest.drop_last());
        assert((seq![x] + rest).last() == rest.last());
        assert(x + concat(rest.drop_last()) + rest.last() =~= x + (concat(rest.drop_last())
            + rest.last()));
    }
}

proof fn lemma_sections_rebuild(s: Seq<char>, from: int, start: int)
    requires
        0 <= start <= from <= s.len(),
        forall|p: int| start <= p < from ==> literal_at(s, p) is None,
        literals_apart_from(s, from),
    ensures
        ({
            let r = sections_from(s, from, start);
            concat(
                if literal_at(s, start) is Some {
                    interleave(r.0, r.1)
                } else {
                    interleave(r.1, r.0)
                },
            ) == s.subrange(start, s.len() as int)
        }),
    decreases s.len() - from,
{
    let r = sections_from(s, from, start);
    if from >= s.len() {
        let piece = s.subrange(start, s.len() as int);
        assert(r.0 =~= Seq::<Seq<char>>::empty());
        if piece.len() > 0 {
            assert(r.1 =~= seq![piece]);
            assert(literal_at(s, start) is None);
            assert(interleave(r.1, r.0) =~= seq![piece] + interleave(r.0, r.1.drop_first()));
            assert(interleave(r.0, r.1.drop_first()) =~= Seq::<Seq<char>>::empty());
            lemma_concat_prepend(piece, Seq::empty());
            assert(piece + Seq::<char>::empty() =~= piece);
        } else {
            assert(r.1 =~= Seq::<Seq<char>>::empty());
            assert(start == s.len());
            assert(concat(Seq::<Seq<char>>::empty()) =~= piece);
        }
    } else {
        match literal_at(s, from) {
            Some(e) => {
                lemma_literal_at_bounds(s, from);
                let lit = s.subrange(from, e);
                let rest = sections_from(s, e, e);
                lemma_sections_rebuild(s, e, e);
                assert(literal_at(s, e) is None);
                let tail = concat(interleave(rest.1, rest.0));
                assert(tail == s.subrange(e, s.len() as int));
                if start < from {
                    let piece = s.subrange(start, from);
                    assert(literal_at(s, start) is None);
                    assert(r.1 =~= seq![piece] + rest.1);
                    assert(r.0 =~= seq![lit] + rest.0);
                    assert((seq![piece] + rest.1).drop_first() =~= rest.1);
                    assert((seq![lit] + rest.0).drop_first() =~= rest.0);
                    assert(interleave(r.1, r.0) =~= seq![piece] + interleave(r.0, rest.1));
                    assert(interleave(r.0, rest.1) =~= seq![lit] + interleave(rest.1, rest.0));
                    lemma_concat_prepend(lit, interleave(rest.1, rest.0));
                    lemma_concat_prepend(piece, seq![lit] + interleave(rest.1, rest.0));
                    assert(piece + (lit + tail) =~= s.subrange(start, s.len() as int));
                } else {
                    assert(s.subrange(start, from) =~= Seq::<char>::empty());
                    assert(r.1 =~= rest.1);
                    assert(r.0 =~= seq![lit] + rest.0);
                    assert((seq![lit] + rest.0).drop_first() =~= rest.0);
                    assert(interleave(r.0, r.1) =~= seq![lit] + interleave(rest.1, rest.0));
                    lemma_concat_prepend(lit, interleave(rest.1, rest.0));
                    assert(lit + tail =~= s.subrange(start, s.len() as int));
                }
            },
            None => {
                lemma_sections_rebuild(s, from + 1, start);
            },
        }
    }
}

/// Cutting a line into literals and code loses nothing: putting the pieces
/// back in their order gives the line, as long as no two literals touch.
pub proof fn lemma_sections_round_trip(line: Seq<char>)
    requires
        literals_apart_from(line, 0),
    ensures
        concat(
            if literal_at(line, 0) is Some {
                interleave(sections(line).0, sections(line).1)
            } else {
                interleave(sections(line).1, sections(line).0)
            },
        ) == line,
{
    lemma_sections_rebuild(line, 0, 0);
    assert(line.subrange(0, line.len() as int) =~= line);
}

} // verus!

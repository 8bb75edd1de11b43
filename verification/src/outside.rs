//! The calls into outside crates, each behind one trusted item whose contract
//! states what the crate's source does.
use vstd::prelude::*;

use crate::text;

verus! {

/// Alternation of two sequences: first `a[0]`, then `b[0]`, then `a[1]`, and so
/// on; once one of them runs out, the rest of the other follows.
pub open spec fn interleave<T>(a: Seq<T>, b: Seq<T>) -> Seq<T>
    decreases a.len() + b.len(),
{
    if a.len() == 0 {
        b
    } else {
        seq![a[0]] + interleave(b, a.drop_first())
    }
}

/// Calls `indent::indent_by`. Its source splits `input` with `str::lines`, joins
/// the lines again with `\n`, puts `number_of_spaces` spaces before every
/// non-empty line from the second on, and appends `\n` when `input` ends with one.
#[verifier::external_body]
pub(crate) fn indent_by(number_of_spaces: usize, input: &str) -> (r: String)
    ensures
        r@ == text::indent_by(number_of_spaces as nat, input@),
{
    indent::indent_by(number_of_spaces, input)
}

/// Calls `itertools::interleave` and collects the items: its iterator takes
/// items from `first` and `second` in turn, starting with `first`, and goes on
/// with the other one once one of them is exhausted.
#[verifier::external_body]
pub(crate) fn interleave_strings(first: Vec<String>, second: Vec<String>) -> (r: Vec<String>)
    ensures
        r@ == interleave(first@, second@),
{
    itertools::interleave(first, second).collect()
}

} // verus!

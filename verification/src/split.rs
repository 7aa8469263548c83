//! Splitting a string into its dot-separated components.
//!
//! The split follows the usual separator semantics: an empty string yields
//! one empty component, and a separator at either end, or two adjacent
//! separators, yield empty components.

use vstd::prelude::*;
use vstd::string::*;

verus! {

/// Index of the first `'.'` in `s`, or `s.len()` when there is none.
pub open spec fn first_dot(s: Seq<char>) -> int
    decreases s.len(),
{
    if s.len() == 0 {
        0
    } else if s[0] == '.' {
        0
    } else {
        1 + first_dot(s.drop_first())
    }
}

/// `first_dot` points at the first dot: it is in bounds, everything before
/// it is not a dot, and it is a dot unless the string has none.
pub proof fn lemma_first_dot_bounds(s: Seq<char>)
    ensures
        0 <= first_dot(s) <= s.len(),
        first_dot(s) < s.len() ==> s[first_dot(s)] == '.',
        forall|j: int| 0 <= j < first_dot(s) ==> s[j] != '.',
    decreases s.len(),
{
    if s.len() > 0 && s[0] != '.' {
        lemma_first_dot_bounds(s.drop_first());
        assert forall|j: int| 0 <= j < first_dot(s) implies s[j] != '.' by {
            if j > 0 {
                assert(s.drop_first()[j - 1] == s[j]);
                assert(s.drop_first()[j - 1] != '.');
            }
        }
    }
}

/// The position with no dot before it and a dot (or the end) at it is
/// exactly `first_dot`.
pub proof fn lemma_first_dot_is(s: Seq<char>, k: int)
    requires
        0 <= k <= s.len(),
        forall|j: int| 0 <= j < k ==> s[j] != '.',
        k == s.len() || s[k] == '.',
    ensures
        first_dot(s) == k,
    decreases k,
{
    if k > 0 {
        assert(s[0] != '.');
        assert(forall|j: int|
            0 <= j < s.drop_first().len() ==> s.drop_first()[j] == s[j + 1]);
        lemma_first_dot_is(s.drop_first(), k - 1);
    }
}

#[via_fn]
proof fn split_dots_decreases(s: Seq<char>) {
    lemma_first_dot_bounds(s);
}

/// The dot-separated components of `s`, in order.
pub open spec fn split_dots(s: Seq<char>) -> Seq<Seq<char>>
    decreases s.len(),
        via split_dots_decreases
{
    let i = first_dot(s);
    if i == s.len() {
        seq![s]
    } else {
        seq![s.take(i)] + split_dots(s.skip(i + 1))
    }
}

/// A string without dots is its own single component.
pub proof fn lemma_split_dots_no_dot(s: Seq<char>)
    requires
        forall|j: int| 0 <= j < s.len() ==> s[j] != '.',
    ensures
        split_dots(s) == seq![s],
{
    lemma_first_dot_is(s, s.len() as int);
}

/// Splitting `a + "." + b` where `a` has no dot peels `a` off the front.
pub proof fn lemma_split_dots_sep(a: Seq<char>, b: Seq<char>)
    requires
        forall|j: int| 0 <= j < a.len() ==> a[j] != '.',
    ensures
        split_dots(a + seq!['.'] + b) == seq![a] + split_dots(b),
{
    let s = a + seq!['.'] + b;
    assert(forall|j: int| 0 <= j < a.len() ==> s[j] == a[j]);
    assert(s[a.len() as int] == '.');
    lemma_first_dot_is(s, a.len() as int);
    assert(s.take(a.len() as int) =~= a);
    assert(s.skip(a.len() as int + 1) =~= b);
}

/// The views of a sequence of owned strings.
pub open spec fn views_of(parts: Seq<String>) -> Seq<Seq<char>> {
    parts.map_values(|p: String| p@)
}

/// Splits `s` on `'.'` into owned components.
pub fn split_dots_exec(s: &str) -> (parts: Vec<String>)
    ensures
        views_of(parts@) == split_dots(s@),
{
    let n: usize = s.unicode_len();
    let mut parts: Vec<String> = Vec::new();
    let mut start: usize = 0;
    let mut i: usize = 0;
    proof {
        assert(s@.skip(0) =~= s@);
        assert(views_of(parts@) + split_dots(s@) =~= split_dots(s@));
    }
    while i < n
        invariant
            n == s@.len(),
            0 <= start <= i <= n,
            forall|j: int| start <= j < i ==> s@[j] != '.',
            split_dots(s@) == views_of(parts@) + split_dots(s@.skip(start as int)),
        decreases n - i,
    {
        let c = s.get_char(i);
        if c == '.' {
            let piece = s.substring_char(start, i).to_owned();
            proof {
                let rest = s@.skip(start as int);
                assert(forall|j: int|
                    0 <= j < rest.len() ==> rest[j] == s@[j + start]);
                lemma_first_dot_is(rest, i - start);
                assert(rest.take(i - start) =~= piece@);
                assert(rest.skip(i - start + 1) =~= s@.skip(i + 1));
                assert(split_dots(rest) == seq![piece@] + split_dots(s@.skip(i + 1)));
                assert(views_of(parts@.push(piece)) =~= views_of(parts@) + seq![piece@]);
                assert(views_of(parts@.push(piece)) + split_dots(s@.skip(i + 1)) =~= views_of(
                    parts@,
                ) + split_dots(rest));
            }
            parts.push(piece);
            start = i + 1;
        }
        i += 1;
    }
    let piece = s.substring_char(start, n).to_owned();
    proof {
        let rest = s@.skip(start as int);
        assert(forall|j: int| 0 <= j < rest.len() ==> rest[j] == s@[j + start]);
        lemma_first_dot_is(rest, rest.len() as int);
        assert(piece@ =~= rest);
        assert(views_of(parts@.push(piece)) =~= views_of(parts@) + seq![rest]);
        assert(views_of(parts@.push(piece)) =~= split_dots(s@));
    }
    parts.push(piece);
    parts
}

} // verus!

//! Lexicographic ordering of strings, character by character.
//!
//! Two strings are ordered by the code points of their first differing
//! characters; a proper prefix comes before any extension of it. This is
//! deliberately textual: it never interprets the characters as numbers.

use vstd::prelude::*;
use vstd::string::*;

verus! {

/// Strict lexicographic order on character sequences by code point.
pub open spec fn lex_lt(a: Seq<char>, b: Seq<char>) -> bool
    decreases a.len(),
{
    if b.len() == 0 {
        false
    } else if a.len() == 0 {
        true
    } else if (a[0] as int) < (b[0] as int) {
        true
    } else if a[0] == b[0] {
        lex_lt(a.drop_first(), b.drop_first())
    } else {
        false
    }
}

/// The order is strict: a lesser sequence is neither equal to nor greater
/// than the other.
pub proof fn lemma_lex_lt_asym(a: Seq<char>, b: Seq<char>)
    requires
        lex_lt(a, b),
    ensures
        a != b,
        !lex_lt(b, a),
    decreases a.len(),
{
    if a.len() == 0 {
        assert(a != b);
    } else if (a[0] as int) < (b[0] as int) {
        assert(a != b);
    } else {
        assert(a[0] == b[0]);
        lemma_lex_lt_asym(a.drop_first(), b.drop_first());
        assert(a != b) by {
            if a == b {
                assert(a.drop_first() == b.drop_first());
            }
        }
    }
}

/// Any two sequences are comparable: less, equal, or greater.
pub proof fn lemma_lex_lt_connected(a: Seq<char>, b: Seq<char>)
    ensures
        lex_lt(a, b) || a == b || lex_lt(b, a),
    decreases a.len(),
{
    if a.len() == 0 && b.len() == 0 {
        assert(a =~= b);
    } else if a.len() > 0 && b.len() > 0 {
        if a[0] as int == b[0] as int {
            assert(a[0] == b[0]);
            lemma_lex_lt_connected(a.drop_first(), b.drop_first());
            if a.drop_first() == b.drop_first() {
                assert(a.drop_first().len() == b.drop_first().len());
                assert(a.len() == b.len());
                assert forall|j: int| 0 <= j < a.len() implies a[j] == b[j] by {
                    if j > 0 {
                        assert(a.drop_first()[j - 1] == a[j]);
                        assert(b.drop_first()[j - 1] == b[j]);
                    }
                }
                assert(a =~= b);
            }
        }
    }
}

/// Sequences that agree on a common prefix compare as their remainders do.
pub proof fn lemma_lex_lt_common_prefix(a: Seq<char>, b: Seq<char>, i: int)
    requires
        0 <= i <= a.len(),
        i <= b.len(),
        forall|j: int| 0 <= j < i ==> a[j] == b[j],
    ensures
        lex_lt(a, b) == lex_lt(a.skip(i), b.skip(i)),
    decreases i,
{
    if i == 0 {
        assert(a.skip(0) =~= a);
        assert(b.skip(0) =~= b);
    } else {
        assert(a[0] == b[0]);
        assert(a.drop_first() =~= a.skip(1));
        assert(b.drop_first() =~= b.skip(1));
        assert(forall|j: int|
            0 <= j < i - 1 ==> a.drop_first()[j] == a[j + 1] && b.drop_first()[j] == b[j + 1]);
        lemma_lex_lt_common_prefix(a.drop_first(), b.drop_first(), i - 1);
        assert(a.drop_first().skip(i - 1) =~= a.skip(i));
        assert(b.drop_first().skip(i - 1) =~= b.skip(i));
    }
}

/// Result of a three-way lexicographic comparison.
#[derive(Clone, Copy, Debug, PartialEq, Eq, Structural)]
pub enum LexOrd {
    Less,
    Equal,
    Greater,
}

/// Three-way lexicographic comparison of two strings by code point.
pub fn lex_cmp(a: &str, b: &str) -> (o: LexOrd)
    ensures
        (o == LexOrd::Less) == lex_lt(a@, b@),
        (o == LexOrd::Equal) == (a@ == b@),
        (o == LexOrd::Greater) == lex_lt(b@, a@),
{
    let an: usize = a.unicode_len();
    let bn: usize = b.unicode_len();
    let mut i: usize = 0;
    while i < an && i < bn
        invariant
            an == a@.len(),
            bn == b@.len(),
            0 <= i <= an,
            i <= bn,
            forall|j: int| 0 <= j < i ==> a@[j] == b@[j],
        decreases an - i,
    {
        let ca = a.get_char(i);
        let cb = b.get_char(i);
        if (ca as u32) < (cb as u32) {
            proof {
                lemma_lex_lt_common_prefix(a@, b@, i as int);
                assert(a@.skip(i as int)[0] == ca && b@.skip(i as int)[0] == cb);
                assert(lex_lt(a@.skip(i as int), b@.skip(i as int)));
                lemma_lex_lt_asym(a@, b@);
            }
            return LexOrd::Less;
        }
        if (cb as u32) < (ca as u32) {
            proof {
                lemma_lex_lt_common_prefix(b@, a@, i as int);
                assert(b@.skip(i as int)[0] == cb && a@.skip(i as int)[0] == ca);
                assert(lex_lt(b@.skip(i as int), a@.skip(i as int)));
                lemma_lex_lt_asym(b@, a@);
            }
            return LexOrd::Greater;
        }
        proof {
            assert(ca as int == cb as int);
            assert(ca == cb);
        }
        i += 1;
    }
    if an == bn {
        proof {
            assert(a@ =~= b@);
            if lex_lt(a@, b@) {
                lemma_lex_lt_asym(a@, b@);
            }
            if lex_lt(b@, a@) {
                lemma_lex_lt_asym(b@, a@);
            }
        }
        LexOrd::Equal
    } else if an < bn {
        proof {
            lemma_lex_lt_common_prefix(a@, b@, i as int);
            assert(a@.skip(i as int).len() == 0);
            assert(b@.skip(i as int).len() > 0);
            assert(lex_lt(a@, b@));
            lemma_lex_lt_asym(a@, b@);
        }
        LexOrd::Less
    } else {
        proof {
            lemma_lex_lt_common_prefix(b@, a@, i as int);
            assert(b@.skip(i as int).len() == 0);
            assert(a@.skip(i as int).len() > 0);
            assert(lex_lt(b@, a@));
            lemma_lex_lt_asym(b@, a@);
        }
        LexOrd::Greater
    }
}

} // verus!

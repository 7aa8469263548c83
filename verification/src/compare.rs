//! The comparator: evaluates a relational operator on two raw version
//! strings.
//!
//! Comparison is lexicographic on the strings exactly as given — it never
//! parses them into numbers. `"0.6" > "0.1"` holds because `'6' > '1'`,
//! but `"0.10" > "0.9"` does not, because `'1' < '9'`.

use vstd::prelude::*;

use crate::order::LexOrd;
use crate::order::lemma_lex_lt_asym;
use crate::order::lemma_lex_lt_connected;
use crate::order::lex_cmp;
use crate::order::lex_lt;

verus! {

/// Comparison operators enum.
#[derive(Debug, Copy, Clone, PartialEq, Eq, Hash, Structural)]
pub enum Cmp {
    /// Equal (`==`, `=`).
    /// When version `A` is equal to `B`.
    Eq,
    /// Not equal (`!=`, `!`, `<>`).
    /// When version `A` is not equal to `B`.
    Ne,
    /// Less than (`<`).
    /// When version `A` is less than `B` but not equal.
    Lt,
    /// Less or equal (`<=`).
    /// When version `A` is less than or equal to `B`.
    Le,
    /// Greater or equal (`>=`).
    /// When version `A` is greater than or equal to `B`.
    Ge,
    /// Greater than (`>`).
    /// When version `A` is greater than `B` but not equal.
    Gt,
}

/// What each operator means on the raw strings: string equality, and
/// strict lexicographic order by code point.
pub open spec fn compare_spec(a: Seq<char>, test: Cmp, b: Seq<char>) -> bool {
    match test {
        Cmp::Eq => a == b,
        Cmp::Ne => a != b,
        Cmp::Lt => lex_lt(a, b),
        Cmp::Le => lex_lt(a, b) || a == b,
        Cmp::Ge => lex_lt(b, a) || a == b,
        Cmp::Gt => lex_lt(b, a),
    }
}

/// Evaluates `test` between the raw strings `a` and `b` lexicographically.
/// No parsing occurs: malformed version strings are compared exactly as
/// given, and no error is possible.
pub fn compare_version(a: &str, test: Cmp, b: &str) -> (r: bool)
    ensures
        r == compare_spec(a@, test, b@),
{
    let o = lex_cmp(a, b);
    match test {
        Cmp::Eq => match o {
            LexOrd::Equal => true,
            _ => false,
        },
        Cmp::Ne => match o {
            LexOrd::Equal => false,
            _ => true,
        },
        Cmp::Lt => match o {
            LexOrd::Less => true,
            _ => false,
        },
        Cmp::Le => match o {
            LexOrd::Less => true,
            LexOrd::Equal => true,
            LexOrd::Greater => false,
        },
        Cmp::Ge => match o {
            LexOrd::Greater => true,
            LexOrd::Equal => true,
            LexOrd::Less => false,
        },
        Cmp::Gt => match o {
            LexOrd::Greater => true,
            _ => false,
        },
    }
}

/// Complement law: on any two non-empty strings, `Lt` holds exactly when
/// `Ge` does not, because both read the same underlying string order.
pub proof fn lemma_lt_ge_complement(a: Seq<char>, b: Seq<char>)
    requires
        a.len() > 0,
        b.len() > 0,
    ensures
        compare_spec(a, Cmp::Lt, b) == !compare_spec(a, Cmp::Ge, b),
{
    lemma_lex_lt_connected(a, b);
    if lex_lt(a, b) {
        lemma_lex_lt_asym(a, b);
    }
    if lex_lt(b, a) {
        lemma_lex_lt_asym(b, a);
    }
}

} // verus!

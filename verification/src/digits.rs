//! Decimal numerals: digit characters, the value of a digit string, and
//! verified conversions between `u32`/`u64` values and their decimal text.

use vstd::prelude::*;
use vstd::string::*;

verus! {

/// True when `c` is an ASCII decimal digit.
pub open spec fn is_digit_char(c: char) -> bool {
    '0' as int <= c as int <= '9' as int
}

/// Numeric value of a digit character.
pub open spec fn digit_val(c: char) -> int {
    c as int - '0' as int
}

/// The digit character for a value in `0..=9`.
pub open spec fn digit_char(d: int) -> char {
    if d == 0 {
        '0'
    } else if d == 1 {
        '1'
    } else if d == 2 {
        '2'
    } else if d == 3 {
        '3'
    } else if d == 4 {
        '4'
    } else if d == 5 {
        '5'
    } else if d == 6 {
        '6'
    } else if d == 7 {
        '7'
    } else if d == 8 {
        '8'
    } else {
        '9'
    }
}

/// Every character of `s` is a decimal digit.
pub open spec fn all_digits(s: Seq<char>) -> bool {
    forall|i: int| 0 <= i < s.len() ==> is_digit_char(s[i])
}

/// `s` is a well-formed decimal numeral: non-empty and made of digits only.
pub open spec fn is_numeral(s: Seq<char>) -> bool {
    s.len() > 0 && all_digits(s)
}

/// The value of `s` read as a base-10 numeral (0 when empty).
pub open spec fn numeral_val(s: Seq<char>) -> int
    decreases s.len(),
{
    if s.len() == 0 {
        0
    } else {
        numeral_val(s.drop_last()) * 10 + digit_val(s.last())
    }
}

/// What parsing a `u32` from text yields: the numeral's value when `s` is a
/// numeral whose value fits, and nothing otherwise.
pub open spec fn parse_u32_spec(s: Seq<char>) -> Option<u32> {
    if is_numeral(s) && numeral_val(s) <= u32::MAX {
        Some(numeral_val(s) as u32)
    } else {
        None
    }
}

/// A digit string's value is non-negative.
pub proof fn lemma_numeral_val_nonneg(s: Seq<char>)
    requires
        all_digits(s),
    ensures
        numeral_val(s) >= 0,
    decreases s.len(),
{
    if s.len() > 0 {
        assert(all_digits(s.drop_last())) by {
            assert(forall|i: int|
                0 <= i < s.drop_last().len() ==> s.drop_last()[i] == s[i]);
        }
        lemma_numeral_val_nonneg(s.drop_last());
        assert(is_digit_char(s.last()));
    }
}

/// Appending a digit multiplies the value by ten and adds the digit.
pub proof fn lemma_numeral_val_push(s: Seq<char>, c: char)
    ensures
        numeral_val(s.push(c)) == numeral_val(s) * 10 + digit_val(c),
{
    assert(s.push(c).drop_last() =~= s);
    assert(s.push(c).last() == c);
}

/// A prefix of a digit string has a value no greater than the whole.
pub proof fn lemma_numeral_val_take_le(s: Seq<char>, k: int)
    requires
        all_digits(s),
        0 <= k <= s.len(),
    ensures
        numeral_val(s.take(k)) <= numeral_val(s),
    decreases s.len(),
{
    if k == s.len() {
        assert(s.take(k) =~= s);
    } else {
        assert(all_digits(s.drop_last())) by {
            assert(forall|i: int|
                0 <= i < s.drop_last().len() ==> s.drop_last()[i] == s[i]);
        }
        assert(s.take(k) =~= s.drop_last().take(k));
        lemma_numeral_val_take_le(s.drop_last(), k);
        lemma_numeral_val_nonneg(s.drop_last());
        assert(is_digit_char(s.last()));
        assert(numeral_val(s.drop_last()) <= numeral_val(s));
    }
}

/// Decimal rendering of a non-negative integer, most significant digit first,
/// with no sign and no leading zeros (zero itself renders as one digit).
pub open spec fn dec_str(n: int) -> Seq<char>
    decreases n,
{
    if n < 10 {
        seq![digit_char(n)]
    } else {
        dec_str(n / 10).push(digit_char(n % 10))
    }
}

/// A rendered numeral is non-empty and made of digits only.
pub proof fn lemma_dec_str_digits(n: int)
    requires
        n >= 0,
    ensures
        is_numeral(dec_str(n)),
    decreases n,
{
    if n < 10 {
        assert(is_digit_char(dec_str(n)[0]));
    } else {
        lemma_dec_str_digits(n / 10);
        assert(is_digit_char(digit_char(n % 10)));
        assert(forall|i: int|
            0 <= i < dec_str(n / 10).len() ==> dec_str(n)[i] == dec_str(n / 10)[i]);
    }
}

/// Rendering then reading a value back is the identity.
pub proof fn lemma_dec_str_val(n: int)
    requires
        n >= 0,
    ensures
        numeral_val(dec_str(n)) == n,
    decreases n,
{
    if n < 10 {
        assert(numeral_val(dec_str(n)) == numeral_val(seq![digit_char(n)].drop_last()) * 10
            + digit_val(digit_char(n)));
        assert(seq![digit_char(n)].drop_last() =~= Seq::<char>::empty());
        assert(digit_val(digit_char(n)) == n);
    } else {
        lemma_dec_str_val(n / 10);
        lemma_numeral_val_push(dec_str(n / 10), digit_char(n % 10));
        assert(digit_val(digit_char(n % 10)) == n % 10);
        vstd::arithmetic::div_mod::lemma_fundamental_div_mod(n, 10);
    }
}

/// The one-character string for a digit value.
fn digit_literal(d: u64) -> (r: &'static str)
    requires
        d < 10,
    ensures
        r@ == seq![digit_char(d as int)],
{
    let r: &'static str = if d == 0 {
        proof { reveal_strlit("0"); }
        "0"
    } else if d == 1 {
        proof { reveal_strlit("1"); }
        "1"
    } else if d == 2 {
        proof { reveal_strlit("2"); }
        "2"
    } else if d == 3 {
        proof { reveal_strlit("3"); }
        "3"
    } else if d == 4 {
        proof { reveal_strlit("4"); }
        "4"
    } else if d == 5 {
        proof { reveal_strlit("5"); }
        "5"
    } else if d == 6 {
        proof { reveal_strlit("6"); }
        "6"
    } else if d == 7 {
        proof { reveal_strlit("7"); }
        "7"
    } else if d == 8 {
        proof { reveal_strlit("8"); }
        "8"
    } else {
        proof { reveal_strlit("9"); }
        "9"
    };
    proof {
        assert(r@ =~= seq![digit_char(d as int)]);
    }
    r
}

/// Appends the decimal rendering of `n` to `out`.
pub fn push_dec_u64(n: u64, out: &mut String)
    ensures
        final(out)@ == old(out)@ + dec_str(n as int),
    decreases n,
{
    if n >= 10 {
        push_dec_u64(n / 10, out);
        let digit = digit_literal(n % 10);
        out.append(digit);
        proof {
            assert(out@ =~= old(out)@ + dec_str(n as int));
        }
    } else {
        let digit = digit_literal(n);
        out.append(digit);
        proof {
            assert(out@ =~= old(out)@ + dec_str(n as int));
        }
    }
}

/// The decimal rendering of `n` as a fresh string.
pub fn u64_to_dec_string(n: u64) -> (r: String)
    ensures
        r@ == dec_str(n as int),
{
    let mut r = String::new();
    push_dec_u64(n, &mut r);
    proof {
        assert(r@ =~= dec_str(n as int));
    }
    r
}

/// Parses a non-negative decimal numeral into a `u32`.
///
/// Succeeds exactly on non-empty all-digit strings whose value fits in
/// `u32`: no sign, no whitespace, no other characters; leading zeros are
/// accepted.
pub fn parse_u32(s: &str) -> (r: Option<u32>)
    ensures
        r == parse_u32_spec(s@),
{
    let n: usize = s.unicode_len();
    if n == 0 {
        return None;
    }
    let mut acc: u32 = 0;
    let mut i: usize = 0;
    while i < n
        invariant
            n == s@.len(),
            0 <= i <= n,
            forall|j: int| 0 <= j < i ==> is_digit_char(s@[j]),
            acc == numeral_val(s@.take(i as int)),
        decreases n - i,
    {
        let c = s.get_char(i);
        let cv: u32 = c as u32;
        if cv < 48 || cv > 57 {
            assert(!is_digit_char(s@[i as int]));
            return None;
        }
        let d: u32 = cv - 48;
        assert(is_digit_char(s@[i as int]) && digit_val(s@[i as int]) == d);
        if acc > (u32::MAX - d) / 10 {
            proof {
                let t = s@.take(i + 1);
                assert(t =~= s@.take(i as int).push(s@[i as int]));
                lemma_numeral_val_push(s@.take(i as int), s@[i as int]);
                let q = (u32::MAX - d) as int / 10;
                vstd::arithmetic::div_mod::lemma_fundamental_div_mod(
                    (u32::MAX - d) as int,
                    10,
                );
                assert(numeral_val(t) > u32::MAX);
                if all_digits(s@) {
                    lemma_numeral_val_take_le(s@, i + 1);
                    assert(numeral_val(s@) > u32::MAX);
                }
            }
            return None;
        }
        proof {
            let q = (u32::MAX - d) as int / 10;
            vstd::arithmetic::div_mod::lemma_fundamental_div_mod((u32::MAX - d) as int, 10);
            assert(acc * 10 + d <= u32::MAX);
            assert(s@.take(i + 1) =~= s@.take(i as int).push(s@[i as int]));
            lemma_numeral_val_push(s@.take(i as int), s@[i as int]);
        }
        acc = acc * 10 + d;
        i += 1;
    }
    proof {
        assert(s@.take(n as int) =~= s@);
    }
    Some(acc)
}

} // verus!

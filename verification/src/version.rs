//! The structured version value: parsing from text and canonical rendering.

use vstd::prelude::*;
use vstd::string::*;

use crate::digits::dec_str;
use crate::digits::is_digit_char;
use crate::digits::lemma_dec_str_digits;
use crate::digits::lemma_dec_str_val;
use crate::digits::parse_u32;
use crate::digits::parse_u32_spec;
use crate::digits::push_dec_u64;
use crate::split::lemma_split_dots_no_dot;
use crate::split::lemma_split_dots_sep;
use crate::split::split_dots;
use crate::split::split_dots_exec;
use crate::split::views_of;

verus! {

/// A structured version: three non-negative components. Equality is
/// structural, and the canonical rendering is `"major.minor.patch"`.
#[derive(Debug, PartialEq, Eq, Structural)]
pub struct Version {
    pub major: u32,
    pub minor: u32,
    pub patch: u32,
}

/// Why a version string was rejected.
#[derive(Debug)]
pub enum ParseError {
    /// The dot-split did not yield one, two, or three components; carries
    /// the count that was found.
    ComponentCount(usize),
    /// The first (leftmost) component that is not a plain decimal `u32`
    /// numeral; carries that component verbatim.
    InvalidComponent(String),
}

impl PartialEq for ParseError {
    fn eq(&self, other: &ParseError) -> (r: bool) {
        match (self, other) {
            (ParseError::ComponentCount(a), ParseError::ComponentCount(b)) => a == b,
            (ParseError::InvalidComponent(s), ParseError::InvalidComponent(t)) => *s == *t,
            _ => false,
        }
    }
}

impl vstd::std_specs::cmp::PartialEqSpecImpl for ParseError {
    open spec fn obeys_eq_spec() -> bool {
        true
    }

    open spec fn eq_spec(&self, other: &ParseError) -> bool {
        match (self, other) {
            (ParseError::ComponentCount(a), ParseError::ComponentCount(b)) => a == b,
            (ParseError::InvalidComponent(s), ParseError::InvalidComponent(t)) => s@ == t@,
            _ => false,
        }
    }
}

/// The descriptive text for each rejection.
pub open spec fn message_spec(e: ParseError) -> Seq<char> {
    match e {
        ParseError::ComponentCount(n) => "Invalid version format: expected 3 components, got "@
            + dec_str(n as int) + "."@,
        ParseError::InvalidComponent(t) => "Invalid version format: expected integer, got '"@ + t@
            + "'."@,
    }
}

impl ParseError {
    /// The error as a descriptive message for the caller to surface.
    pub fn message(&self) -> (r: String)
        ensures
            r@ == message_spec(*self),
    {
        match self {
            ParseError::ComponentCount(n) => {
                let mut r = String::from_str(
                    "Invalid version format: expected 3 components, got ",
                );
                push_dec_u64(*n as u64, &mut r);
                r.append(".");
                proof {
                    assert(r@ =~= message_spec(*self));
                }
                r
            },
            ParseError::InvalidComponent(t) => {
                let mut r = String::from_str(
                    "Invalid version format: expected integer, got '",
                );
                r.append(t.as_str());
                r.append("'.");
                proof {
                    assert(r@ =~= message_spec(*self));
                }
                r
            },
        }
    }
}

/// The dot-split of `s` has an accepted number of components.
pub open spec fn count_ok(s: Seq<char>) -> bool {
    1 <= split_dots(s).len() <= 3
}

/// Every component of `s` parses as a `u32` numeral.
pub open spec fn components_ok(s: Seq<char>) -> bool {
    forall|i: int| 0 <= i < split_dots(s).len() ==> parse_u32_spec(split_dots(s)[i]) is Some
}

/// Index of the first component that fails to parse (the length when all
/// components parse).
pub open spec fn first_bad_component(parts: Seq<Seq<char>>) -> int
    decreases parts.len(),
{
    if parts.len() == 0 {
        0
    } else if parse_u32_spec(parts[0]) is None {
        0
    } else {
        1 + first_bad_component(parts.drop_first())
    }
}

/// The position whose components all parse before it and whose own
/// component fails (or the end) is exactly `first_bad_component`.
pub proof fn lemma_first_bad_component_is(parts: Seq<Seq<char>>, k: int)
    requires
        0 <= k <= parts.len(),
        forall|j: int| 0 <= j < k ==> parse_u32_spec(parts[j]) is Some,
        k == parts.len() || parse_u32_spec(parts[k]) is None,
    ensures
        first_bad_component(parts) == k,
    decreases k,
{
    if k > 0 {
        assert(parse_u32_spec(parts[0]) is Some);
        assert(forall|j: int|
            0 <= j < parts.drop_first().len() ==> parts.drop_first()[j] == parts[j + 1]);
        lemma_first_bad_component_is(parts.drop_first(), k - 1);
    }
}

/// The value of component `i`, with omitted trailing components read as zero.
pub open spec fn component_val(s: Seq<char>, i: int) -> u32 {
    if i < split_dots(s).len() {
        parse_u32_spec(split_dots(s)[i])->0
    } else {
        0
    }
}

/// The version a well-formed string denotes.
pub open spec fn version_of(s: Seq<char>) -> Version {
    Version {
        major: component_val(s, 0),
        minor: component_val(s, 1),
        patch: component_val(s, 2),
    }
}

/// The canonical rendering `"major.minor.patch"`.
pub open spec fn render_spec(v: Version) -> Seq<char> {
    dec_str(v.major as int) + seq!['.'] + dec_str(v.minor as int) + seq!['.'] + dec_str(
        v.patch as int,
    )
}

impl Version {
    /// Parses a version string: one to three dot-separated decimal `u32`
    /// components, with omitted minor and patch components defaulting to
    /// zero. Any other component count is rejected with its count; the
    /// first component that is not a plain decimal numeral is rejected
    /// verbatim.
    pub fn from_str(s: &str) -> (r: Result<Version, ParseError>)
        ensures
            r is Ok <==> count_ok(s@) && components_ok(s@),
            match r {
                Ok(v) => count_ok(s@) && components_ok(s@) && v == version_of(s@),
                Err(e) => match e {
                    ParseError::ComponentCount(n) => !count_ok(s@) && n == split_dots(s@).len(),
                    ParseError::InvalidComponent(t) => count_ok(s@) && !components_ok(s@) && t@
                        == split_dots(s@)[first_bad_component(split_dots(s@))],
                },
            },
    {
        let parts = split_dots_exec(s);
        let k: usize = parts.len();
        proof {
            assert(views_of(parts@).len() == parts@.len());
            assert(forall|i: int| 0 <= i < parts@.len() ==> views_of(parts@)[i] == parts@[i]@);
        }
        if k < 1 || k > 3 {
            return Err(ParseError::ComponentCount(k));
        }
        let major: u32 = match parse_u32(parts[0].as_str()) {
            Some(v) => v,
            None => {
                proof {
                    lemma_first_bad_component_is(split_dots(s@), 0);
                }
                return Err(ParseError::InvalidComponent(parts[0].clone()));
            },
        };
        let minor: u32 = if k >= 2 {
            match parse_u32(parts[1].as_str()) {
                Some(v) => v,
                None => {
                    proof {
                        lemma_first_bad_component_is(split_dots(s@), 1);
                    }
                    return Err(ParseError::InvalidComponent(parts[1].clone()));
                },
            }
        } else {
            0
        };
        let patch: u32 = if k >= 3 {
            match parse_u32(parts[2].as_str()) {
                Some(v) => v,
                None => {
                    proof {
                        lemma_first_bad_component_is(split_dots(s@), 2);
                    }
                    return Err(ParseError::InvalidComponent(parts[2].clone()));
                },
            }
        } else {
            0
        };
        proof {
            assert(components_ok(s@)) by {
                assert(forall|i: int|
                    0 <= i < split_dots(s@).len() ==> parse_u32_spec(split_dots(s@)[i]) is Some);
            }
        }
        Ok(Version { major, minor, patch })
    }

    /// Renders the version as `"major.minor.patch"`.
    pub fn render(&self) -> (r: String)
        ensures
            r@ == render_spec(*self),
    {
        let mut r = String::new();
        push_dec_u64(self.major as u64, &mut r);
        r.append(".");
        push_dec_u64(self.minor as u64, &mut r);
        r.append(".");
        push_dec_u64(self.patch as u64, &mut r);
        proof {
            reveal_strlit(".");
            assert(r@ =~= render_spec(*self));
        }
        r
    }
}

/// Round trip: rendering a version and parsing the text back accepts it
/// and yields the same version.
pub proof fn lemma_render_then_parse(v: Version)
    ensures
        count_ok(render_spec(v)),
        components_ok(render_spec(v)),
        version_of(render_spec(v)) == v,
{
    let ma = dec_str(v.major as int);
    let mi = dec_str(v.minor as int);
    let pa = dec_str(v.patch as int);
    lemma_dec_str_digits(v.major as int);
    lemma_dec_str_digits(v.minor as int);
    lemma_dec_str_val(v.major as int);
    lemma_dec_str_val(v.minor as int);
    lemma_dec_str_digits(v.patch as int);
    lemma_dec_str_val(v.patch as int);
    assert forall|j: int| 0 <= j < ma.len() implies ma[j] != '.' by {
        assert(is_digit_char(ma[j]));
    }
    assert forall|j: int| 0 <= j < mi.len() implies mi[j] != '.' by {
        assert(is_digit_char(mi[j]));
    }
    assert forall|j: int| 0 <= j < pa.len() implies pa[j] != '.' by {
        assert(is_digit_char(pa[j]));
    }
    let s = render_spec(v);
    let tail = mi + seq!['.'] + pa;
    assert(s =~= ma + seq!['.'] + tail);
    lemma_split_dots_sep(ma, tail);
    lemma_split_dots_sep(mi, pa);
    lemma_split_dots_no_dot(pa);
    assert(split_dots(s) =~= seq![ma, mi, pa]);
    assert(parse_u32_spec(ma) == Some(v.major));
    assert(parse_u32_spec(mi) == Some(v.minor));
    assert(parse_u32_spec(pa) == Some(v.patch));
    assert(version_of(s) == v);
}

} // verus!

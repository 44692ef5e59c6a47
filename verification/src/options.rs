//! Validated option values: the resampling-filter names and the decimal
//! size arguments. The surrounding argument parser hands strings in; these
//! functions decide, with exact contracts, which strings are acceptable.

use vstd::prelude::*;

verus! {

/// The resampling filters the renderer can ask the resizer for. The
/// downscaling itself happens outside the core; the core only fixes the
/// closed set of valid choices, so that no unconstrained string travels
/// further.
#[derive(Clone, Copy, PartialEq, Eq, Structural, Debug)]
pub enum Filter {
    Nearest,
    Triangle,
    Gaussian,
    CatmullRom,
    Lanczos3,
}

/// Character-by-character string comparison: true exactly when the two
/// views agree.
fn str_equal(a: &str, b: &str) -> (r: bool)
    ensures
        r <==> a@ == b@,
{
    let la = a.unicode_len();
    let lb = b.unicode_len();
    if la != lb {
        proof {
            assert(a@.len() != b@.len());
        }
        return false;
    }
    let mut i: usize = 0;
    while i < la
        invariant
            la == a@.len(),
            la == b@.len(),
            i <= la,
            forall|j: int| 0 <= j < i ==> a@[j] == b@[j],
        decreases la - i,
    {
        if a.get_char(i) != b.get_char(i) {
            return false;
        }
        i += 1;
    }
    proof {
        assert(a@ =~= b@);
    }
    true
}

/// Maps a filter name to its filter, and anything else to `None`: exactly
/// the five spelled-out names are accepted.
pub fn determine_filter(filter_str: &str) -> (r: Option<Filter>)
    ensures
        r == Some(Filter::Nearest) <==> filter_str@ == "nearest"@,
        r == Some(Filter::Triangle) <==> filter_str@ == "triangle"@,
        r == Some(Filter::Gaussian) <==> filter_str@ == "gaussian"@,
        r == Some(Filter::CatmullRom) <==> filter_str@ == "catmullrom"@,
        r == Some(Filter::Lanczos3) <==> filter_str@ == "lanczos3"@,
        r is None <==> (filter_str@ != "nearest"@ && filter_str@ != "triangle"@ && filter_str@
            != "gaussian"@ && filter_str@ != "catmullrom"@ && filter_str@ != "lanczos3"@),
{
    proof {
        reveal_strlit("nearest");
        reveal_strlit("triangle");
        reveal_strlit("gaussian");
        reveal_strlit("catmullrom");
        reveal_strlit("lanczos3");
        assert("nearest"@[0] == 'n' && "triangle"@[0] == 't' && "gaussian"@[0] == 'g'
            && "catmullrom"@[0] == 'c' && "lanczos3"@[0] == 'l');
    }
    if str_equal(filter_str, "nearest") {
        Some(Filter::Nearest)
    } else if str_equal(filter_str, "triangle") {
        Some(Filter::Triangle)
    } else if str_equal(filter_str, "gaussian") {
        Some(Filter::Gaussian)
    } else if str_equal(filter_str, "catmullrom") {
        Some(Filter::CatmullRom)
    } else if str_equal(filter_str, "lanczos3") {
        Some(Filter::Lanczos3)
    } else {
        None
    }
}

/// How an attempt to read a string as a decimal `u16` ends: the string is
/// empty, a character is no decimal digit (a lone sign counts here too),
/// the value exceeds the type, or the read succeeds.
#[derive(Clone, Copy, PartialEq, Eq, Structural, Debug)]
pub enum ParseOutcome {
    Empty,
    InvalidDigit,
    TooLarge,
    Valid,
}

/// Whether `c` is one of the ten ASCII decimal digits.
pub open spec fn is_dec_digit(c: char) -> bool {
    48 <= c as u32 <= 57
}

/// The numeric value of a decimal digit.
pub open spec fn digit_value(c: char) -> int {
    c as u32 - 48
}

/// Reads digits left to right from position `i` with the value `acc`
/// already accumulated: the first non-digit fails the read, and a digit
/// that would push the value past the largest `u16` fails it first.
pub open spec fn scan_digits(s: Seq<char>, i: int, acc: int) -> ParseOutcome
    decreases s.len() - i,
{
    if i < 0 || i >= s.len() {
        ParseOutcome::Valid
    } else if !is_dec_digit(s[i]) {
        ParseOutcome::InvalidDigit
    } else if acc * 10 + digit_value(s[i]) > 65535 {
        ParseOutcome::TooLarge
    } else {
        scan_digits(s, i + 1, acc * 10 + digit_value(s[i]))
    }
}

/// How the whole string reads as a decimal `u16`: empty fails as empty; an
/// optional leading `+` is allowed, but a sign with nothing after it is an
/// invalid digit; the rest must be digits whose value fits.
pub open spec fn parse_u16_outcome(s: Seq<char>) -> ParseOutcome {
    if s.len() == 0 {
        ParseOutcome::Empty
    } else {
        let start: int = if s[0] == '+' {
            1
        } else {
            0
        };
        if s.len() == start {
            ParseOutcome::InvalidDigit
        } else {
            scan_digits(s, start, 0)
        }
    }
}

/// Checks that a string holds a decimal `u16`, reporting failures with the
/// standard wording: `Ok` exactly when the string reads as a `u16`, and
/// otherwise the message matching the outcome.
pub fn is_u16(s: String) -> (r: Result<(), String>)
    ensures
        parse_u16_outcome(s@) is Valid <==> r is Ok,
        parse_u16_outcome(s@) is Empty ==> (r matches Err(m) && m@
            == "cannot parse integer from empty string"@),
        parse_u16_outcome(s@) is InvalidDigit ==> (r matches Err(m) && m@
            == "invalid digit found in string"@),
        parse_u16_outcome(s@) is TooLarge ==> (r matches Err(m) && m@
            == "number too large to fit in target type"@),
{
    let st = s.as_str();
    let n = st.unicode_len();
    if n == 0 {
        return Err(String::from_str("cannot parse integer from empty string"));
    }
    let first = st.get_char(0);
    let start: usize = if first == '+' {
        1
    } else {
        0
    };
    if n == start {
        return Err(String::from_str("invalid digit found in string"));
    }
    let mut i: usize = start;
    let mut acc: u32 = 0;
    while i < n
        invariant
            n == s@.len(),
            st@ == s@,
            i <= n,
            acc <= 65535,
            parse_u16_outcome(s@) == scan_digits(s@, i as int, acc as int),
        decreases n - i,
    {
        let c = st.get_char(i);
        let cv = c as u32;
        if cv < 48 || cv > 57 {
            return Err(String::from_str("invalid digit found in string"));
        }
        let d = cv - 48;
        let next = acc * 10 + d;
        if next > 65535 {
            return Err(String::from_str("number too large to fit in target type"));
        }
        acc = next;
        i += 1;
    }
    Ok(())
}

} // verus!

//! The year recognizer: exactly four ASCII digits, optionally followed by an
//! open range marker `-` or by a closed range `-YYYY`.

use vstd::prelude::*;

use crate::ast::wf_year;
use crate::ast::LexError;
use crate::ast::LexErrorKind;
use crate::ast::Year;
use crate::chars::is_ascii_digit;
use crate::chars::DASH;

verus! {

/// Exactly four ASCII digits stand at `i` inside `[i, hi)`.
pub open spec fn four_digits_at(s: Seq<u8>, i: int, hi: int) -> bool {
    &&& i + 4 <= hi
    &&& is_ascii_digit(s[i])
    &&& is_ascii_digit(s[i + 1])
    &&& is_ascii_digit(s[i + 2])
    &&& is_ascii_digit(s[i + 3])
}

/// Numeric value of the four digits at `i`.
pub open spec fn year_value(s: Seq<u8>, i: int) -> u16 {
    (1000 * (s[i] - 0x30) + 100 * (s[i + 1] - 0x30) + 10 * (s[i + 2] - 0x30) + (s[i + 3]
        - 0x30)) as u16
}

/// Lex a year at offset `i` of the window `[i, hi)`: four digits, then
/// optionally a range marker, then optionally four more digits. Fails with
/// `InvalidYear` at `i` when fewer than four digits stand at `i`, and at the
/// start of the end year when a closed range's end year is short. On success
/// returns the year and the offset just past it.
pub open spec fn spec_lex_year(s: Seq<u8>, i: int, hi: int) -> Result<(Year, int), LexError>
    recommends
        0 <= i <= hi <= s.len(),
{
    if !four_digits_at(s, i, hi) {
        Err(LexError { kind: LexErrorKind::InvalidYear, offset: i as usize })
    } else {
        let v = year_value(s, i);
        if i + 4 < hi && s[i + 4] == DASH {
            if i + 5 < hi && is_ascii_digit(s[i + 5]) {
                if four_digits_at(s, i + 5, hi) {
                    Ok((Year::Closed(v, year_value(s, i + 5)), i + 9))
                } else {
                    Err(LexError { kind: LexErrorKind::InvalidYear, offset: (i + 5) as usize })
                }
            } else {
                Ok((Year::Open(v), i + 5))
            }
        } else {
            Ok((Year::Bare(v), i + 4))
        }
    }
}

/// Whether exactly four digits stand at `i` of `[i, hi)`.
pub fn check_four_digits(s: &Vec<u8>, i: usize, hi: usize) -> (b: bool)
    requires
        i <= hi <= s@.len(),
    ensures
        b == four_digits_at(s@, i as int, hi as int),
{
    hi - i >= 4 && is_digit_byte(s[i]) && is_digit_byte(s[i + 1]) && is_digit_byte(s[i + 2])
        && is_digit_byte(s[i + 3])
}

/// Whether `c` is an ASCII digit.
pub fn is_digit_byte(c: u8) -> (b: bool)
    ensures
        b == is_ascii_digit(c),
{
    0x30 <= c && c <= 0x39
}

/// Numeric value of the four digits at `i`.
fn read_year_value(s: &Vec<u8>, i: usize) -> (v: u16)
    requires
        i + 4 <= s@.len(),
        four_digits_at(s@, i as int, s@.len() as int),
    ensures
        v == year_value(s@, i as int),
        v <= 9999,
{
    let n = s.len();
    assert(i + 4 <= n);
    proof {
        assert(is_ascii_digit(s@[i as int]));
        assert(is_ascii_digit(s@[i as int + 1]));
        assert(is_ascii_digit(s@[i as int + 2]));
        assert(is_ascii_digit(s@[i as int + 3]));
    }
    1000 * ((s[i] - 0x30) as u16) + 100 * ((s[i + 1] - 0x30) as u16) + 10 * ((s[i + 2]
        - 0x30) as u16) + ((s[i + 3] - 0x30) as u16)
}

/// Lex a year at offset `i` of the window `[i, hi)`.
pub fn lex_year(s: &Vec<u8>, i: usize, hi: usize) -> (r: Result<(Year, usize), LexError>)
    requires
        i <= hi <= s@.len(),
    ensures
        match r {
            Ok((y, e)) => spec_lex_year(s@, i as int, hi as int) == Ok::<(Year, int), LexError>(
                (y, e as int),
            ) && i <= e <= hi,
            Err(er) => spec_lex_year(s@, i as int, hi as int) == Err::<(Year, int), LexError>(er),
        },
{
    if !check_four_digits(s, i, hi) {
        return Err(LexError { kind: LexErrorKind::InvalidYear, offset: i });
    }
    let v = read_year_value(s, i);
    if i + 4 < hi && s[i + 4] == DASH {
        if i + 5 < hi && is_digit_byte(s[i + 5]) {
            if check_four_digits(s, i + 5, hi) {
                let w = read_year_value(s, i + 5);
                Ok((Year::Closed(v, w), i + 9))
            } else {
                Err(LexError { kind: LexErrorKind::InvalidYear, offset: i + 5 })
            }
        } else {
            Ok((Year::Open(v), i + 5))
        }
    } else {
        Ok((Year::Bare(v), i + 4))
    }
}

/// Result of recognizing a whole buffer as one year token: the token must
/// cover the buffer exactly, so `02` and `02-24` fail at offset 0 and a year
/// followed by trailing bytes fails at the first byte past the token.
pub open spec fn spec_recognize_year(s: Seq<u8>) -> Result<Year, LexError> {
    match spec_lex_year(s, 0, s.len() as int) {
        Ok((y, e)) => if e == s.len() {
            Ok(y)
        } else {
            Err(LexError { kind: LexErrorKind::InvalidYear, offset: e as usize })
        },
        Err(er) => Err(er),
    }
}

/// Recognize the whole buffer as one year token.
pub fn recognize_year(s: &Vec<u8>) -> (r: Result<Year, LexError>)
    ensures
        r == spec_recognize_year(s@),
        r is Ok ==> wf_year(r->Ok_0),
{
    proof {
        lemma_lex_year_wf(s@, 0, s@.len() as int);
    }
    match lex_year(s, 0, s.len()) {
        Ok((y, e)) => {
            if e == s.len() {
                Ok(y)
            } else {
                Err(LexError { kind: LexErrorKind::InvalidYear, offset: e })
            }
        },
        Err(er) => Err(er),
    }
}

/// A lexed year always fits in four digits.
pub proof fn lemma_lex_year_wf(s: Seq<u8>, i: int, hi: int)
    requires
        0 <= i <= hi <= s.len(),
    ensures
        spec_lex_year(s, i, hi) is Ok ==> wf_year(spec_lex_year(s, i, hi)->Ok_0.0),
{
}

} // verus!

//! Parsing of the two textual field shapes a document carries: counts as
//! non-negative 32-bit integers and `date` attributes as ISO-8601 dates.

use vstd::prelude::*;
use crate::day::{date_wf, spec_days_in_month, days_in_month, Date};

verus! {

/// Whether `c` is an ASCII decimal digit.
pub open spec fn is_digit(c: char) -> bool {
    48 <= c as u32 && c as u32 <= 57
}

/// The numeric value of a digit character.
pub open spec fn digit_val(c: char) -> int {
    c as u32 - 48
}

pub open spec fn all_digits(s: Seq<char>) -> bool {
    forall|i: int| 0 <= i < s.len() ==> is_digit(s[i])
}

/// The value of a digit string read in base 10.
pub open spec fn digits_val(s: Seq<char>) -> int
    decreases s.len(),
{
    if s.len() == 0 {
        0
    } else {
        digits_val(s.drop_last()) * 10 + digit_val(s.last())
    }
}

/// What parsing character content as a non-negative integer yields: an
/// optional leading `+`, then at least one decimal digit, and a value that
/// fits in 32 bits; anything else is rejected.
pub open spec fn spec_parse_u32(s: Seq<char>) -> Option<u32> {
    let t = if s.len() > 0 && s[0] == '+' {
        s.skip(1)
    } else {
        s
    };
    if t.len() > 0 && all_digits(t) && digits_val(t) <= u32::MAX {
        Some(digits_val(t) as u32)
    } else {
        None
    }
}

proof fn lemma_digits_val_nonneg(s: Seq<char>)
    requires
        all_digits(s),
    ensures
        digits_val(s) >= 0,
    decreases s.len(),
{
    if s.len() > 0 {
        assert(all_digits(s.drop_last())) by {
            assert(forall|i: int| 0 <= i < s.len() - 1 ==> s.drop_last()[i] == s[i]);
        }
        lemma_digits_val_nonneg(s.drop_last());
    }
}

/// A digit string's value never shrinks when more digits follow.
proof fn lemma_digits_val_prefix_le(s: Seq<char>, j: int)
    requires
        all_digits(s),
        0 <= j <= s.len(),
    ensures
        digits_val(s.take(j)) <= digits_val(s),
    decreases s.len() - j,
{
    if j < s.len() {
        let t = s.take(j + 1);
        assert(t.drop_last() =~= s.take(j));
        assert(all_digits(t.drop_last()) && all_digits(t)) by {
            assert(forall|i: int| 0 <= i < j + 1 ==> t[i] == s[i]);
        }
        lemma_digits_val_nonneg(s.take(j));
        assert(digits_val(t) == digits_val(s.take(j)) * 10 + digit_val(t.last()));
        assert(digit_val(t.last()) >= 0);
        assert(digits_val(s.take(j)) * 10 >= digits_val(s.take(j)));
        lemma_digits_val_prefix_le(s, j + 1);
    } else {
        assert(s.take(j) =~= s);
    }
}

/// Parses character content as a non-negative 32-bit integer, exactly as
/// [`spec_parse_u32`] describes.
pub fn parse_u32(s: &str) -> (r: Option<u32>)
    ensures
        r == spec_parse_u32(s@),
{
    let n = s.unicode_len();
    let start: usize = if n > 0 && s.get_char(0) == '+' {
        1
    } else {
        0
    };
    let ghost t = if s@.len() > 0 && s@[0] == '+' {
        s@.skip(1)
    } else {
        s@
    };
    assert(t.len() == n - start);
    assert(forall|i: int| 0 <= i < t.len() ==> t[i] == s@[i + start]);
    if n == start {
        return None;
    }
    let mut acc: u32 = 0;
    let mut i: usize = start;
    while i < n
        invariant
            start <= i <= n,
            n == s@.len(),
            start + t.len() == n,
            t == (if s@.len() > 0 && s@[0] == '+' {
                s@.skip(1)
            } else {
                s@
            }),
            forall|j: int| 0 <= j < t.len() ==> t[j] == s@[j + start],
            all_digits(t.take(i - start)),
            acc == digits_val(t.take(i - start)),
        decreases n - i,
    {
        let c = s.get_char(i);
        let cv = c as u32;
        if cv < 48 || cv > 57 {
            proof {
                assert(!is_digit(t[i - start]));
                assert(!all_digits(t));
            }
            return None;
        }
        let d: u32 = cv - 48;
        proof {
            assert(t.take(i - start + 1).drop_last() =~= t.take(i - start));
            assert(t.take(i - start + 1).last() == t[i - start]);
            assert(is_digit(t[i - start]) && digit_val(t[i - start]) == d);
        }
        let next = match acc.checked_mul(10) {
            Some(m) => m.checked_add(d),
            None => None,
        };
        match next {
            Some(v) => {
                acc = v;
            },
            None => {
                proof {
                    assert(digits_val(t.take(i - start + 1)) > u32::MAX);
                    if all_digits(t) {
                        lemma_digits_val_prefix_le(t, i - start + 1);
                    }
                }
                return None;
            },
        }
        i = i + 1;
    }
    proof {
        assert(t.take(n - start) =~= t);
    }
    Some(acc)
}

/// What parsing a `date` attribute yields. The recognized shape is an
/// ISO-8601 calendar date `YYYY-MM-DD`, either alone or followed by a time
/// part introduced by `T` or a space; the named month and day must exist in
/// the named year.
pub open spec fn spec_parse_date(s: Seq<char>) -> Option<Date> {
    if s.len() < 10 {
        None
    } else if !(is_digit(s[0]) && is_digit(s[1]) && is_digit(s[2]) && is_digit(s[3]) && s[4] == '-'
        && is_digit(s[5]) && is_digit(s[6]) && s[7] == '-' && is_digit(s[8]) && is_digit(s[9])) {
        None
    } else if s.len() > 10 && !(s[10] == 'T' || s[10] == ' ') {
        None
    } else {
        let year = digit_val(s[0]) * 1000 + digit_val(s[1]) * 100 + digit_val(s[2]) * 10
            + digit_val(s[3]);
        let month = digit_val(s[5]) * 10 + digit_val(s[6]);
        let day = digit_val(s[8]) * 10 + digit_val(s[9]);
        if 1 <= month && month <= 12 && 1 <= day && day <= spec_days_in_month(
            year as i32,
            month as u32,
        ) {
            Some(Date { year: year as i32, month: month as u32, day: day as u32 })
        } else {
            None
        }
    }
}

/// Every date that the parser accepts is well-formed.
pub proof fn lemma_parse_date_wf(s: Seq<char>)
    ensures
        spec_parse_date(s) matches Some(d) ==> date_wf(d),
{
}

/// Parses an ISO-8601 date string, exactly as [`spec_parse_date`] describes.
pub fn parse_date(s: &str) -> (r: Option<Date>)
    ensures
        r == spec_parse_date(s@),
{
    let n = s.unicode_len();
    if n < 10 {
        return None;
    }
    let c0 = s.get_char(0) as u32;
    let c1 = s.get_char(1) as u32;
    let c2 = s.get_char(2) as u32;
    let c3 = s.get_char(3) as u32;
    let c5 = s.get_char(5) as u32;
    let c6 = s.get_char(6) as u32;
    let c8 = s.get_char(8) as u32;
    let c9 = s.get_char(9) as u32;
    let digits_ok = 48 <= c0 && c0 <= 57 && 48 <= c1 && c1 <= 57 && 48 <= c2 && c2 <= 57 && 48
        <= c3 && c3 <= 57 && 48 <= c5 && c5 <= 57 && 48 <= c6 && c6 <= 57 && 48 <= c8 && c8 <= 57
        && 48 <= c9 && c9 <= 57;
    if !digits_ok || s.get_char(4) != '-' || s.get_char(7) != '-' {
        return None;
    }
    if n > 10 {
        let sep = s.get_char(10);
        if !(sep == 'T' || sep == ' ') {
            return None;
        }
    }
    let year: u32 = (c0 - 48) * 1000 + (c1 - 48) * 100 + (c2 - 48) * 10 + (c3 - 48);
    let month: u32 = (c5 - 48) * 10 + (c6 - 48);
    let day: u32 = (c8 - 48) * 10 + (c9 - 48);
    if 1 <= month && month <= 12 && 1 <= day && day <= days_in_month(year as i32, month) {
        Some(Date { year: year as i32, month, day })
    } else {
        None
    }
}

} // verus!

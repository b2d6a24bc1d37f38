//! Display formatting of the tracker's timestamps: an RFC 3339 timestamp
//! such as `2024-05-03T10:00:00Z` is shown as `May 03, 2024`.
use crate::text::str_to_chars;
use vstd::prelude::*;

verus! {

pub open spec fn is_digit(c: char) -> bool {
    '0' <= c && c <= '9'
}

pub open spec fn digit_val(c: char) -> int {
    (c as u32) as int - ('0' as u32) as int
}

/// Whether `s` begins with a well-formed `YYYY-MM-DD` calendar date.
pub open spec fn has_iso_date_prefix(s: Seq<char>) -> bool {
    &&& s.len() >= 10
    &&& (forall|i: int|
        (0 <= i < 4 || 5 <= i < 7 || 8 <= i < 10) ==> is_digit(#[trigger] s[i]))
    &&& s[4] == '-'
    &&& s[7] == '-'
    &&& 1 <= month_of(s) <= 12
}

/// The month number of a timestamp's date.
pub open spec fn month_of(s: Seq<char>) -> int {
    10 * digit_val(s[5]) + digit_val(s[6])
}

/// The English name of a month.
pub open spec fn month_name(m: int) -> Seq<char> {
    if m == 1 {
        "January"@
    } else if m == 2 {
        "February"@
    } else if m == 3 {
        "March"@
    } else if m == 4 {
        "April"@
    } else if m == 5 {
        "May"@
    } else if m == 6 {
        "June"@
    } else if m == 7 {
        "July"@
    } else if m == 8 {
        "August"@
    } else if m == 9 {
        "September"@
    } else if m == 10 {
        "October"@
    } else if m == 11 {
        "November"@
    } else {
        "December"@
    }
}

/// A timestamp's display form, `<month name> <day>, <year>`; a string
/// without a well-formed date prefix is shown unchanged.
pub open spec fn formatted_date_of(s: Seq<char>) -> Seq<char> {
    if has_iso_date_prefix(s) {
        month_name(month_of(s)) + seq![' '] + s.subrange(8, 10) + seq![',', ' '] + s.subrange(0, 4)
    } else {
        s
    }
}

fn month_name_exec(m: u32) -> (r: String)
    requires
        1 <= m <= 12,
    ensures
        r@ == month_name(m as int),
{
    if m == 1 {
        String::from_str("January")
    } else if m == 2 {
        String::from_str("February")
    } else if m == 3 {
        String::from_str("March")
    } else if m == 4 {
        String::from_str("April")
    } else if m == 5 {
        String::from_str("May")
    } else if m == 6 {
        String::from_str("June")
    } else if m == 7 {
        String::from_str("July")
    } else if m == 8 {
        String::from_str("August")
    } else if m == 9 {
        String::from_str("September")
    } else if m == 10 {
        String::from_str("October")
    } else if m == 11 {
        String::from_str("November")
    } else {
        String::from_str("December")
    }
}

fn is_digit_exec(c: char) -> (r: bool)
    ensures
        r == is_digit(c),
{
    '0' <= c && c <= '9'
}

/// Formats a timestamp for display, as `formatted_date_of` describes.
pub fn format_publish_date(s: &str) -> (r: String)
    ensures
        r@ == formatted_date_of(s@),
{
    let v = str_to_chars(s);
    let well_formed = v.len() >= 10 && is_digit_exec(v[0]) && is_digit_exec(v[1]) && is_digit_exec(
        v[2],
    ) && is_digit_exec(v[3]) && v[4] == '-' && is_digit_exec(v[5]) && is_digit_exec(v[6]) && v[7]
        == '-' && is_digit_exec(v[8]) && is_digit_exec(v[9]);
    if !well_formed {
        proof {
            if s@.len() >= 10 {
                assert(!has_iso_date_prefix(s@)) by {
                    if has_iso_date_prefix(s@) {
                        assert(is_digit(s@[0]) && is_digit(s@[1]) && is_digit(s@[2]) && is_digit(
                            s@[3],
                        ) && is_digit(s@[5]) && is_digit(s@[6]) && is_digit(s@[8]) && is_digit(
                            s@[9],
                        ));
                    }
                }
            }
        }
        return String::from_str(s);
    }
    let m: u32 = 10 * ((v[5] as u32) - ('0' as u32)) + ((v[6] as u32) - ('0' as u32));
    if m < 1 || m > 12 {
        proof {
            assert(!has_iso_date_prefix(s@));
        }
        return String::from_str(s);
    }
    proof {
        assert forall|i: int| (0 <= i < 4 || 5 <= i < 7 || 8 <= i < 10) implies is_digit(
            #[trigger] s@[i],
        ) by {
            assert(is_digit(s@[0]) && is_digit(s@[1]) && is_digit(s@[2]) && is_digit(s@[3])
                && is_digit(s@[5]) && is_digit(s@[6]) && is_digit(s@[8]) && is_digit(s@[9]));
        }
        assert(has_iso_date_prefix(s@));
    }
    let mut out = month_name_exec(m);
    out.append(" ");
    let mut day: Vec<char> = Vec::new();
    day.push(v[8]);
    day.push(v[9]);
    let day_s = crate::text::chars_to_string(&day);
    out.append(day_s.as_str());
    out.append(", ");
    let mut year: Vec<char> = Vec::new();
    year.push(v[0]);
    year.push(v[1]);
    year.push(v[2]);
    year.push(v[3]);
    let year_s = crate::text::chars_to_string(&year);
    out.append(year_s.as_str());
    proof {
        reveal_strlit(" ");
        reveal_strlit(", ");
        assert(day@ =~= s@.subrange(8, 10));
        assert(year@ =~= s@.subrange(0, 4));
        assert(" "@ =~= seq![' ']);
        assert(", "@ =~= seq![',', ' ']);
        assert(out@ =~= formatted_date_of(s@));
    }
    out
}

} // verus!

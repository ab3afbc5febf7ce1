//! The `year-month-day` date literal and its renderings.

use vstd::prelude::*;
use vstd::string::StrSliceExecFns;
use vstd::string::StringExecFns;

use vstd::std_specs::cmp::PartialOrdSpec;

use crate::error::ParsingError;
use crate::text;

verus! {

/// `c` is an ASCII decimal digit.
pub open spec fn is_digit(c: char) -> bool {
    '0' <= c && c <= '9'
}

/// The numeric value of a digit character.
pub open spec fn digit_val(c: char) -> int {
    c as int - '0' as int
}

/// Every character of `s` is a decimal digit.
pub open spec fn all_digits(s: Seq<char>) -> bool {
    forall|i: int| 0 <= i < s.len() ==> is_digit(s[i])
}

/// The value of `s` read as a decimal numeral.
pub open spec fn dec_val(s: Seq<char>) -> int
    decreases s.len(),
{
    if s.len() == 0 {
        0
    } else {
        dec_val(s.drop_last()) * 10 + digit_val(s.last())
    }
}

/// The digits of an unsigned decimal literal, an optional leading `+`
/// removed.
pub open spec fn uint_digits(s: Seq<char>) -> Seq<char> {
    if s.len() > 0 && s[0] == '+' {
        s.drop_first()
    } else {
        s
    }
}

/// What parsing text as a `u16` accepts: an optional `+`, then at least
/// one digit, with the value within range.
pub open spec fn spec_parse_u16(s: Seq<char>) -> Option<u16> {
    let d = uint_digits(s);
    if d.len() > 0 && all_digits(d) && dec_val(d) <= u16::MAX {
        Some(dec_val(d) as u16)
    } else {
        None
    }
}

/// Reads `s` as an unsigned 16-bit decimal numeral.
pub fn parse_u16(s: &str) -> (r: Option<u16>)
    ensures
        r == spec_parse_u16(s@),
{
    let n = s.unicode_len();
    let start: usize = if n > 0 && s.get_char(0) == '+' {
        1
    } else {
        0
    };
    let ghost d = uint_digits(s@);
    proof {
        assert(d =~= s@.subrange(start as int, n as int));
    }
    if start == n {
        return None;
    }
    let mut acc: u32 = 0;
    let mut i: usize = start;
    while i < n
        invariant
            n == s@.len(),
            start <= i <= n,
            start < n,
            d == uint_digits(s@),
            d == s@.subrange(start as int, n as int),
            all_digits(s@.subrange(start as int, i as int)),
            acc <= 655359,
            dec_val(s@.subrange(start as int, i as int)) <= u16::MAX ==> acc == dec_val(
                s@.subrange(start as int, i as int),
            ),
            dec_val(s@.subrange(start as int, i as int)) > u16::MAX ==> acc > u16::MAX,
        decreases n - i,
    {
        let c = s.get_char(i);
        let cv = c as u32;
        if !(cv >= 48 && cv <= 57) {
            proof {
                assert(!is_digit(d[i - start]));
                assert(!all_digits(d));
            }
            return None;
        }
        let ghost pre = s@.subrange(start as int, i as int);
        let ghost post = s@.subrange(start as int, i + 1);
        proof {
            assert(post.drop_last() =~= pre);
            assert(post.last() == s@[i as int]);
        }
        let dv: u32 = cv - 48;
        if acc <= 65535 {
            acc = acc * 10 + dv;
        }
        i += 1;
    }
    proof {
        assert(s@.subrange(start as int, n as int) == d);
    }
    if acc <= 65535 {
        Some(acc as u16)
    } else {
        None
    }
}

/// The digit character for a value below ten.
pub open spec fn digit_char(d: int) -> char {
    if d == 0 {
        '0'
    } else if d == 1 {
        '1'
    } else if d == 2 {
        '2'
    } else if d == 3 {
        '3'
    } else if d == 4 {
        '4'
    } else if d == 5 {
        '5'
    } else if d == 6 {
        '6'
    } else if d == 7 {
        '7'
    } else if d == 8 {
        '8'
    } else {
        '9'
    }
}

/// The decimal numeral for `n`, in plain form without padding.
pub open spec fn dec_str(n: int) -> Seq<char>
    decreases n,
{
    if n < 10 {
        seq![digit_char(n)]
    } else {
        dec_str(n / 10).push(digit_char(n % 10))
    }
}

/// The single-character numeral for a digit.
fn digit_str(d: u16) -> (r: &'static str)
    requires
        d < 10,
    ensures
        r@ == seq![digit_char(d as int)],
{
    if d == 0 {
        proof {
            reveal_strlit("0");
            assert("0"@ =~= seq!['0']);
        }
        "0"
    } else if d == 1 {
        proof {
            reveal_strlit("1");
            assert("1"@ =~= seq!['1']);
        }
        "1"
    } else if d == 2 {
        proof {
            reveal_strlit("2");
            assert("2"@ =~= seq!['2']);
        }
        "2"
    } else if d == 3 {
        proof {
            reveal_strlit("3");
            assert("3"@ =~= seq!['3']);
        }
        "3"
    } else if d == 4 {
        proof {
            reveal_strlit("4");
            assert("4"@ =~= seq!['4']);
        }
        "4"
    } else if d == 5 {
        proof {
            reveal_strlit("5");
            assert("5"@ =~= seq!['5']);
        }
        "5"
    } else if d == 6 {
        proof {
            reveal_strlit("6");
            assert("6"@ =~= seq!['6']);
        }
        "6"
    } else if d == 7 {
        proof {
            reveal_strlit("7");
            assert("7"@ =~= seq!['7']);
        }
        "7"
    } else if d == 8 {
        proof {
            reveal_strlit("8");
            assert("8"@ =~= seq!['8']);
        }
        "8"
    } else {
        proof {
            reveal_strlit("9");
            assert("9"@ =~= seq!['9']);
        }
        "9"
    }
}

/// Renders `n` as a plain decimal numeral.
pub fn u16_string(n: u16) -> (r: String)
    ensures
        r@ == dec_str(n as int),
    decreases n,
{
    if n < 10 {
        String::from_str(digit_str(n))
    } else {
        proof {
            assert(n / 10 < n) by (nonlinear_arith)
                requires
                    n >= 10,
            ;
        }
        let mut r = u16_string(n / 10);
        r.append(digit_str(n % 10));
        proof {
            assert(r@ =~= dec_str((n / 10) as int).push(digit_char((n % 10) as int)));
        }
        r
    }
}

/// The twelve month names, selected by number.
pub open spec fn spec_month_name(m: u16) -> Seq<char> {
    if m == 1 {
        "January"@
    } else if m == 2 {
        "February"@
    } else if m == 3 {
        "March"@
    } else if m == 4 {
        "April"@
    } else if m == 5 {
        "May"@
    } else if m == 6 {
        "June"@
    } else if m == 7 {
        "July"@
    } else if m == 8 {
        "August"@
    } else if m == 9 {
        "September"@
    } else if m == 10 {
        "October"@
    } else if m == 11 {
        "November"@
    } else {
        "December"@
    }
}

/// What a date literal parses to: the text is split at its first two
/// `-` characters, the three parts are read as unsigned numbers, and
/// the month must lie in `1..=12`.
pub open spec fn spec_parse_date(s: Seq<char>) -> Option<(u16, u16, u16)> {
    match text::spec_find(s, seq!['-']) {
        None => None,
        Some(i) => {
            let year_t = s.subrange(0, i);
            let rest = s.subrange(i + 1, s.len() as int);
            match text::spec_find(rest, seq!['-']) {
                None => None,
                Some(j) => {
                    let month_t = rest.subrange(0, j);
                    let day_t = rest.subrange(j + 1, rest.len() as int);
                    match (spec_parse_u16(year_t), spec_parse_u16(month_t), spec_parse_u16(
                        day_t,
                    )) {
                        (Some(y), Some(m), Some(d)) => {
                            if 1 <= m && m <= 12 {
                                Some((y, m, d))
                            } else {
                                None
                            }
                        },
                        _ => None,
                    }
                },
            }
        },
    }
}

/// A calendar date as parsed from `year-month-day` text.
///
/// The month is in `1..=12` when the value comes out of [`Date::parse`];
/// year and day are taken as parsed, without range validation.  The
/// ordering is lexicographic by `(year, month, day)`, so sorting posts
/// by date sorts them chronologically.
#[derive(Debug, PartialEq, Eq, Ord, Structural)]
pub struct Date {
    pub year: u16,
    pub month: u16,
    pub day: u16,
}

impl PartialOrd for Date {
    fn partial_cmp(&self, other: &Self) -> (r: Option<core::cmp::Ordering>) {
        if self.year != other.year {
            if self.year < other.year {
                Some(core::cmp::Ordering::Less)
            } else {
                Some(core::cmp::Ordering::Greater)
            }
        } else if self.month != other.month {
            if self.month < other.month {
                Some(core::cmp::Ordering::Less)
            } else {
                Some(core::cmp::Ordering::Greater)
            }
        } else if self.day != other.day {
            if self.day < other.day {
                Some(core::cmp::Ordering::Less)
            } else {
                Some(core::cmp::Ordering::Greater)
            }
        } else {
            Some(core::cmp::Ordering::Equal)
        }
    }
}

impl vstd::std_specs::cmp::PartialOrdSpecImpl for Date {
    open spec fn obeys_partial_cmp_spec() -> bool {
        true
    }

    open spec fn partial_cmp_spec(&self, other: &Self) -> Option<core::cmp::Ordering> {
        if self.year != other.year {
            if self.year < other.year {
                Some(core::cmp::Ordering::Less)
            } else {
                Some(core::cmp::Ordering::Greater)
            }
        } else if self.month != other.month {
            if self.month < other.month {
                Some(core::cmp::Ordering::Less)
            } else {
                Some(core::cmp::Ordering::Greater)
            }
        } else if self.day != other.day {
            if self.day < other.day {
                Some(core::cmp::Ordering::Less)
            } else {
                Some(core::cmp::Ordering::Greater)
            }
        } else {
            Some(core::cmp::Ordering::Equal)
        }
    }
}

/// Law: the order on dates is lexicographic by year, then month, then
/// day, and two dates compare equal exactly when their fields agree.
pub proof fn lemma_date_order_lexicographic(a: Date, b: Date)
    ensures
        a.partial_cmp_spec(&b) == Some(core::cmp::Ordering::Less) <==> (a.year < b.year || (
        a.year == b.year && (a.month < b.month || (a.month == b.month && a.day < b.day)))),
        a.partial_cmp_spec(&b) == Some(core::cmp::Ordering::Equal) <==> a == b,
{
}

impl Date {
    /// Packs the three fields into a date, unvalidated.
    pub fn new(year: u16, month: u16, day: u16) -> (r: Self)
        ensures
            r.year == year,
            r.month == month,
            r.day == day,
    {
        Self { year, month, day }
    }

    /// Reads a `year-month-day` literal.  Any malformed component, and a
    /// month outside `1..=12`, is rejected with the original text.
    pub fn parse(date: &str) -> (r: Result<Date, ParsingError>)
        ensures
            r matches Ok(d) ==> spec_parse_date(date@) == Some((d.year, d.month, d.day)) && 1
                <= d.month <= 12,
            r matches Err(e) ==> spec_parse_date(date@) is None && (e matches
                ParsingError::InvalidDate(o) && o@ == date@),
    {
        proof {
            reveal_strlit("-");
            assert("-"@ =~= seq!['-']);
        }
        let (year_t, rest) = match text::split_once_at(date, "-") {
            Some(p) => p,
            None => {
                return Err(ParsingError::InvalidDate(date.to_owned()));
            },
        };
        let (month_t, day_t) = match text::split_once_at(rest, "-") {
            Some(p) => p,
            None => {
                return Err(ParsingError::InvalidDate(date.to_owned()));
            },
        };
        let month = match parse_u16(month_t) {
            Some(m) => m,
            None => {
                return Err(ParsingError::InvalidDate(date.to_owned()));
            },
        };
        if month < 1 || month > 12 {
            return Err(ParsingError::InvalidDate(date.to_owned()));
        }
        let year = match parse_u16(year_t) {
            Some(y) => y,
            None => {
                return Err(ParsingError::InvalidDate(date.to_owned()));
            },
        };
        let day = match parse_u16(day_t) {
            Some(d) => d,
            None => {
                return Err(ParsingError::InvalidDate(date.to_owned()));
            },
        };
        Ok(Date { year, month, day })
    }

    /// The English month name.
    pub fn month_name(&self) -> (r: &'static str)
        requires
            1 <= self.month <= 12,
        ensures
            r@ == spec_month_name(self.month),
    {
        if self.month == 1 {
            "January"
        } else if self.month == 2 {
            "February"
        } else if self.month == 3 {
            "March"
        } else if self.month == 4 {
            "April"
        } else if self.month == 5 {
            "May"
        } else if self.month == 6 {
            "June"
        } else if self.month == 7 {
            "July"
        } else if self.month == 8 {
            "August"
        } else if self.month == 9 {
            "September"
        } else if self.month == 10 {
            "October"
        } else if self.month == 11 {
            "November"
        } else {
            "December"
        }
    }

    /// Renders as `MonthName day, year`.
    pub fn pretty(&self) -> (r: String)
        requires
            1 <= self.month <= 12,
        ensures
            r@ == spec_month_name(self.month) + " "@ + dec_str(self.day as int) + ", "@ + dec_str(
                self.year as int,
            ),
    {
        let mut r = String::from_str(self.month_name());
        r.append(" ");
        let day = u16_string(self.day);
        r.append(day.as_str());
        r.append(", ");
        let year = u16_string(self.year);
        r.append(year.as_str());
        proof {
            assert(r@ =~= spec_month_name(self.month) + " "@ + dec_str(self.day as int) + ", "@
                + dec_str(self.year as int));
        }
        r
    }

    /// Renders as `MonthName year`, without the day.
    pub fn pretty_no_day(&self) -> (r: String)
        requires
            1 <= self.month <= 12,
        ensures
            r@ == spec_month_name(self.month) + " "@ + dec_str(self.year as int),
    {
        let mut r = String::from_str(self.month_name());
        r.append(" ");
        let year = u16_string(self.year);
        r.append(year.as_str());
        proof {
            assert(r@ =~= spec_month_name(self.month) + " "@ + dec_str(self.year as int));
        }
        r
    }

    /// Renders as `year-month-day`, plain decimal with no zero padding.
    pub fn iso_8601(&self) -> (r: String)
        ensures
            r@ == dec_str(self.year as int) + "-"@ + dec_str(self.month as int) + "-"@ + dec_str(
                self.day as int,
            ),
    {
        let mut r = u16_string(self.year);
        r.append("-");
        let month = u16_string(self.month);
        r.append(month.as_str());
        r.append("-");
        let day = u16_string(self.day);
        r.append(day.as_str());
        proof {
            assert(r@ =~= dec_str(self.year as int) + "-"@ + dec_str(self.month as int) + "-"@
                + dec_str(self.day as int));
        }
        r
    }

    /// Renders as `day Mon year 00:00:00 -0700`: the day, the first
    /// three characters of the month name, the year, and a fixed
    /// time-and-offset suffix.
    pub fn rfc2822(&self) -> (r: String)
        requires
            1 <= self.month <= 12,
        ensures
            r@ == dec_str(self.day as int) + " "@ + spec_month_name(self.month).subrange(0, 3)
                + " "@ + dec_str(self.year as int) + " 00:00:00 -0700"@,
    {
        proof {
            reveal_strlit("January");
            reveal_strlit("February");
            reveal_strlit("March");
            reveal_strlit("April");
            reveal_strlit("May");
            reveal_strlit("June");
            reveal_strlit("July");
            reveal_strlit("August");
            reveal_strlit("September");
            reveal_strlit("October");
            reveal_strlit("November");
            reveal_strlit("December");
        }
        let name = self.month_name();
        let short_month = name.substring_char(0, 3);
        let mut r = u16_string(self.day);
        r.append(" ");
        r.append(short_month);
        r.append(" ");
        let year = u16_string(self.year);
        r.append(year.as_str());
        r.append(" 00:00:00 -0700");
        proof {
            assert(r@ =~= dec_str(self.day as int) + " "@ + spec_month_name(
                self.month,
            ).subrange(0, 3) + " "@ + dec_str(self.year as int) + " 00:00:00 -0700"@);
        }
        r
    }
}

} // verus!

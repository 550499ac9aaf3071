//! The sort key of an issue: the first `YYYY-MM-DD` date in its file name.
use vstd::prelude::*;
use regex::Regex;
use crate::text::chars_of;

verus! {

/// Year, month and day, compared in that order.
#[derive(Clone, Copy, Debug, PartialEq, Eq, Structural)]
pub struct DateKey {
    pub year: i32,
    pub month: u32,
    pub day: u32,
}

/// The key of a file name that holds no date.
pub open spec fn undated_key() -> DateKey {
    DateKey { year: 0, month: 1, day: 1 }
}

/// `a` comes strictly before `b` in calendar order.
pub open spec fn key_lt(a: DateKey, b: DateKey) -> bool {
    ||| a.year < b.year
    ||| a.year == b.year && a.month < b.month
    ||| a.year == b.year && a.month == b.month && a.day < b.day
}

/// The year, month and day groups of the leftmost match of the date pattern
/// in `s`, as the regex engine finds it.
pub uninterp spec fn date_match(s: Seq<char>) -> Option<(Seq<char>, Seq<char>, Seq<char>)>;

/// The groups as character sequences.
pub open spec fn groups_view(g: Option<(String, String, String)>) -> Option<(Seq<char>, Seq<char>, Seq<char>)> {
    match g {
        Some((y, m, d)) => Some((y@, m@, d@)),
        None => None,
    }
}

pub open spec fn is_ascii_digit(c: char) -> bool {
    '0' <= c && c <= '9'
}

/// Four ASCII digits, a hyphen, two digits, a hyphen and two digits start at `i`.
pub open spec fn ascii_date_at(s: Seq<char>, i: int) -> bool {
    &&& 0 <= i && i + 10 <= s.len()
    &&& forall|j: int| 0 <= j < 10 && j != 4 && j != 7 ==> is_ascii_digit(#[trigger] s[i + j])
    &&& s[i + 4] == '-' && s[i + 7] == '-'
}

/// Relies on regex's `Regex::new` and `Regex::captures` with the pattern
/// `(\d{4})-(\d{2})-(\d{2})`: the three groups of the leftmost match. `\d` is
/// any Unicode decimal digit, so an ASCII date anywhere always gives a match.
#[verifier::external_body]
fn find_date(s: &str) -> (r: Option<(String, String, String)>)
    ensures
        groups_view(r) == date_match(s@),
        r is None ==> forall|i: int| !ascii_date_at(s@, i),
{
    let re = Regex::new(r"(\d{4})-(\d{2})-(\d{2})").unwrap();
    match re.captures(s) {
        Some(c) => Some((c[1].to_string(), c[2].to_string(), c[3].to_string())),
        None => None,
    }
}

pub open spec fn all_ascii_digits(s: Seq<char>) -> bool {
    forall|i: int| 0 <= i < s.len() ==> is_ascii_digit(#[trigger] s[i])
}

/// The number that a string of ASCII digits writes in base ten.
pub open spec fn decimal_value(s: Seq<char>) -> nat
    decreases s.len(),
{
    if s.len() == 0 {
        0
    } else {
        decimal_value(s.drop_last()) * 10 + (s.last() as nat - '0' as nat) as nat
    }
}

/// The value of `s` read as a decimal number no larger than `max`, if it is one.
pub open spec fn parse_decimal(s: Seq<char>, max: nat) -> Option<nat> {
    if s.len() > 0 && all_ascii_digits(s) && decimal_value(s) <= max {
        Some(decimal_value(s))
    } else {
        None
    }
}

/// Reads `s` as a decimal number of ASCII digits that does not exceed `max`.
pub fn parse_number(s: &str, max: u32) -> (r: Option<u32>)
    ensures
        r == (match parse_decimal(s@, max as nat) {
            Some(v) => Some(v as u32),
            None => None,
        }),
{
    let cs = chars_of(s);
    if cs.len() == 0 {
        return None;
    }
    let mut acc: u32 = 0;
    let mut i: usize = 0;
    while i < cs.len()
        invariant
            cs@ == s@,
            i <= cs.len(),
            all_ascii_digits(cs@.subrange(0, i as int)),
            acc as nat == decimal_value(cs@.subrange(0, i as int)),
            acc <= max,
        decreases cs.len() - i,
    {
        let c = cs[i];
        let ghost pre = cs@.subrange(0, i as int);
        let ghost next = cs@.subrange(0, i + 1);
        assert(next.drop_last() =~= pre);
        if !('0' <= c && c <= '9') {
            assert(!is_ascii_digit(s@[i as int]));
            return None;
        }
        let d = (c as u32) - ('0' as u32);
        if d > max || acc > (max - d) / 10 {
            assert(decimal_value(next) > max as nat) by (nonlinear_arith)
                requires
                    decimal_value(next) == acc as nat * 10 + d as nat,
                    d > max || acc as int > (max as int - d as int) / 10,
            ;
            proof {
                lemma_decimal_value_grows(cs@, i as int + 1);
            }
            return None;
        }
        assert(acc * 10 + d <= max) by (nonlinear_arith)
            requires
                acc <= (max - d) / 10,
                d <= max,
        ;
        acc = acc * 10 + d;
        i = i + 1;
    }
    assert(cs@.subrange(0, i as int) =~= s@);
    Some(acc)
}

/// Extending a string of digits never lowers its value.
proof fn lemma_decimal_value_grows(s: Seq<char>, k: int)
    requires
        0 <= k <= s.len(),
    ensures
        all_ascii_digits(s) ==> decimal_value(s) >= decimal_value(s.subrange(0, k)),
    decreases s.len() - k,
{
    if k < s.len() {
        lemma_decimal_value_grows(s, k + 1);
        assert(s.subrange(0, k + 1).drop_last() =~= s.subrange(0, k));
    } else {
        assert(s.subrange(0, k) =~= s);
    }
}

/// The key of the date groups `g`: each part read as a number, with 0 for
/// a year and 1 for a month or day that cannot be read; no groups give the
/// undated key.
pub open spec fn key_of_groups(g: Option<(Seq<char>, Seq<char>, Seq<char>)>) -> DateKey {
    match g {
        Some((y, m, d)) => DateKey {
            year: match parse_decimal(y, i32::MAX as nat) {
                Some(v) => v as i32,
                None => 0,
            },
            month: match parse_decimal(m, u32::MAX as nat) {
                Some(v) => v as u32,
                None => 1,
            },
            day: match parse_decimal(d, u32::MAX as nat) {
                Some(v) => v as u32,
                None => 1,
            },
        },
        None => undated_key(),
    }
}

/// The sort key of a file name.
pub open spec fn date_key(pdf: Seq<char>) -> DateKey {
    key_of_groups(date_match(pdf))
}

/// The key of the date groups that a search found.
pub fn key_from_groups(g: &Option<(String, String, String)>) -> (r: DateKey)
    ensures
        r == key_of_groups(groups_view(*g)),
{
    match g {
        Some((y, m, d)) => {
            let year = match parse_number(y.as_str(), 2147483647u32) {
                Some(v) => v as i32,
                None => 0,
            };
            let month = match parse_number(m.as_str(), 4294967295u32) {
                Some(v) => v,
                None => 1,
            };
            let day = match parse_number(d.as_str(), 4294967295u32) {
                Some(v) => v,
                None => 1,
            };
            DateKey { year, month, day }
        },
        None => DateKey { year: 0, month: 1, day: 1 },
    }
}

/// The sort key of the file name `pdf`.
pub fn date_key_of(pdf: &str) -> (r: DateKey)
    ensures
        r == date_key(pdf@),
{
    let g = find_date(pdf);
    key_from_groups(&g)
}

/// Whether `a` comes strictly before `b` in calendar order.
pub fn is_older(a: &DateKey, b: &DateKey) -> (r: bool)
    ensures
        r == key_lt(*a, *b),
{
    a.year < b.year || (a.year == b.year && (a.month < b.month || (a.month == b.month
        && a.day < b.day)))
}

} // verus!

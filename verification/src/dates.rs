//! Calendar dates and the date-string formats the service accepts.
//!
//! A cache key is a calendar date; the canonical text form is `DD/MM/YYYY`.
//! Requests may also write a date as `YYYY-MM-DD`, `MM/DD/YYYY`, `DD-MM-YYYY`
//! or `YYYY/MM/DD`; the formats are tried in that order, after the canonical
//! one. A day or month field is one or two digits, a year field exactly four,
//! and the whole string must be consumed.

use vstd::prelude::*;

use crate::strutil::push_char;

verus! {

/// A calendar date in the proleptic Gregorian calendar, years 1 through 9999.
#[derive(Debug, Clone, Copy, PartialEq, Eq, Structural)]
pub struct Date {
    pub year: u32,
    pub month: u32,
    pub day: u32,
}

/// A year divisible by 4 is a leap year, except century years not divisible by 400.
pub open spec fn spec_is_leap_year(y: int) -> bool {
    (y % 4 == 0 && y % 100 != 0) || y % 400 == 0
}

/// Days in a month of a given year; 0 for a month outside 1..=12.
pub open spec fn spec_days_in_month(y: int, m: int) -> int {
    if m == 1 || m == 3 || m == 5 || m == 7 || m == 8 || m == 10 || m == 12 {
        31
    } else if m == 4 || m == 6 || m == 9 || m == 11 {
        30
    } else if m == 2 {
        if spec_is_leap_year(y) {
            29
        } else {
            28
        }
    } else {
        0
    }
}

pub fn is_leap_year(y: u32) -> (r: bool)
    ensures
        r == spec_is_leap_year(y as int),
{
    (y % 4 == 0 && y % 100 != 0) || y % 400 == 0
}

pub fn days_in_month(y: u32, m: u32) -> (r: u32)
    ensures
        r == spec_days_in_month(y as int, m as int),
{
    if m == 1 || m == 3 || m == 5 || m == 7 || m == 8 || m == 10 || m == 12 {
        31
    } else if m == 4 || m == 6 || m == 9 || m == 11 {
        30
    } else if m == 2 {
        if is_leap_year(y) {
            29
        } else {
            28
        }
    } else {
        0
    }
}

impl Date {
    /// A well-formed date: fields name an existing calendar day.
    pub open spec fn wf(self) -> bool {
        &&& 1 <= self.year <= 9999
        &&& 1 <= self.month <= 12
        &&& 1 <= self.day <= spec_days_in_month(self.year as int, self.month as int)
    }

    /// Chronological order, as lexicographic order on (year, month, day).
    pub open spec fn spec_le(self, other: Date) -> bool {
        if self.year != other.year {
            self.year < other.year
        } else if self.month != other.month {
            self.month < other.month
        } else {
            self.day <= other.day
        }
    }

    pub open spec fn spec_lt(self, other: Date) -> bool {
        self.spec_le(other) && self != other
    }

    /// The last representable date; the only well-formed date without a successor.
    pub open spec fn is_last_representable(self) -> bool {
        self.year == 9999 && self.month == 12 && self.day == 31
    }

    /// The next calendar day.
    pub open spec fn spec_succ(self) -> Date {
        if self.day < spec_days_in_month(self.year as int, self.month as int) {
            Date { year: self.year, month: self.month, day: (self.day + 1) as u32 }
        } else if self.month < 12 {
            Date { year: self.year, month: (self.month + 1) as u32, day: 1 }
        } else {
            Date { year: (self.year + 1) as u32, month: 1, day: 1 }
        }
    }

    /// Whether the fields name an existing calendar day.
    pub fn is_wf(&self) -> (r: bool)
        ensures
            r == self.wf(),
    {
        1 <= self.year && self.year <= 9999 && 1 <= self.month && self.month <= 12 && 1 <= self.day
            && self.day <= days_in_month(self.year, self.month)
    }

    pub fn le(&self, other: &Date) -> (r: bool)
        ensures
            r == self.spec_le(*other),
    {
        if self.year != other.year {
            self.year < other.year
        } else if self.month != other.month {
            self.month < other.month
        } else {
            self.day <= other.day
        }
    }

    pub fn succ(&self) -> (r: Date)
        requires
            self.wf(),
            !self.is_last_representable(),
        ensures
            r == self.spec_succ(),
            r.wf(),
            self.spec_lt(r),
    {
        let dim = days_in_month(self.year, self.month);
        if self.day < dim {
            Date { year: self.year, month: self.month, day: self.day + 1 }
        } else if self.month < 12 {
            Date { year: self.year, month: self.month + 1, day: 1 }
        } else {
            Date { year: self.year + 1, month: 1, day: 1 }
        }
    }
}

/// The successor of a well-formed date is strictly later, and is the least
/// date strictly later: no well-formed date lies between `d` and `d.spec_succ()`.
pub proof fn lemma_succ_is_next(d: Date, e: Date)
    requires
        d.wf(),
        e.wf(),
        d.spec_lt(e),
    ensures
        d.spec_succ().spec_le(e),
{
}

/// The successor of a well-formed, non-final date is a well-formed, strictly
/// later date.
pub proof fn lemma_succ_wf(d: Date)
    requires
        d.wf(),
        !d.is_last_representable(),
    ensures
        d.spec_succ().wf(),
        d.spec_lt(d.spec_succ()),
{
}

/// Every calendar day from `from` through `to`, in chronological order;
/// empty when `from` is after `to` or either bound is malformed.
pub open spec fn spec_date_range(from: Date, to: Date) -> Seq<Date>
    decreases to.year - from.year, 13 - from.month, 32 - from.day,
{
    if !(from.wf() && to.wf() && from.spec_le(to)) {
        Seq::empty()
    } else if from == to {
        seq![from]
    } else {
        seq![from] + spec_date_range(from.spec_succ(), to)
    }
}

/// Unfolding a non-empty range at the front.
pub proof fn lemma_date_range_step(from: Date, to: Date)
    requires
        from.wf(),
        to.wf(),
        from.spec_le(to),
    ensures
        spec_date_range(from, to) == seq![from] + spec_date_range(from.spec_succ(), to),
{
    if from == to {
        assert(!from.spec_succ().spec_le(to) || !from.spec_succ().wf());
        assert(spec_date_range(from.spec_succ(), to) == Seq::<Date>::empty());
        assert(spec_date_range(from, to) =~= seq![from] + spec_date_range(from.spec_succ(), to));
    }
}

/// Extending a range by one day appends the successor of its end.
pub proof fn lemma_date_range_extend(from: Date, to: Date)
    requires
        from.wf(),
        to.wf(),
        from.spec_le(to),
        !to.is_last_representable(),
    ensures
        spec_date_range(from, to.spec_succ()) == spec_date_range(from, to).push(to.spec_succ()),
    decreases to.year - from.year, 13 - from.month, 32 - from.day,
{
    lemma_succ_wf(to);
    if from == to {
        lemma_date_range_step(from, to.spec_succ());
        assert(spec_date_range(to.spec_succ(), to.spec_succ()) =~= seq![to.spec_succ()]);
        assert(spec_date_range(from, to.spec_succ()) =~= spec_date_range(from, to).push(
            to.spec_succ(),
        ));
    } else {
        lemma_succ_wf(from);
        lemma_succ_is_next(from, to);
        lemma_date_range_step(from, to);
        lemma_date_range_step(from, to.spec_succ());
        lemma_date_range_extend(from.spec_succ(), to);
        assert(spec_date_range(from, to.spec_succ()) =~= spec_date_range(from, to).push(
            to.spec_succ(),
        ));
    }
}

/// Every date of a range is well-formed and lies between the bounds.
pub proof fn lemma_date_range_wf(from: Date, to: Date)
    requires
        from.wf(),
        to.wf(),
    ensures
        forall|i: int|
            0 <= i < spec_date_range(from, to).len() ==> (#[trigger] spec_date_range(from, to)[i]).wf()
                && from.spec_le(spec_date_range(from, to)[i]) && spec_date_range(from, to)[i].spec_le(to),
    decreases to.year - from.year, 13 - from.month, 32 - from.day,
{
    if !(from.spec_le(to)) {
    } else if from == to {
    } else {
        lemma_succ_wf(from);
        lemma_date_range_wf(from.spec_succ(), to);
        assert forall|i: int| 0 <= i < spec_date_range(from, to).len() implies (
        #[trigger] spec_date_range(from, to)[i]).wf() && from.spec_le(spec_date_range(from, to)[i])
            && spec_date_range(from, to)[i].spec_le(to) by {
            if i == 0 {
                assert(spec_date_range(from, to)[0] == from);
            } else {
                assert(spec_date_range(from, to)[i] == spec_date_range(from.spec_succ(), to)[i - 1]);
            }
        }
    }
}

/// The dates of a range are strictly increasing.
pub proof fn lemma_date_range_increasing(from: Date, to: Date)
    requires
        from.wf(),
        to.wf(),
    ensures
        forall|i: int, j: int|
            0 <= i < j < spec_date_range(from, to).len() ==> (#[trigger] spec_date_range(
                from,
                to,
            )[i]).spec_lt(#[trigger] spec_date_range(from, to)[j]),
    decreases to.year - from.year, 13 - from.month, 32 - from.day,
{
    if !(from.spec_le(to)) {
    } else if from == to {
    } else {
        lemma_succ_wf(from);
        lemma_date_range_increasing(from.spec_succ(), to);
        lemma_date_range_wf(from.spec_succ(), to);
        assert forall|i: int, j: int|
            0 <= i < j < spec_date_range(from, to).len() implies (#[trigger] spec_date_range(
            from,
            to,
        )[i]).spec_lt(#[trigger] spec_date_range(from, to)[j]) by {
            let rest = spec_date_range(from.spec_succ(), to);
            assert(spec_date_range(from, to)[j] == rest[j - 1]);
            if i == 0 {
                assert(spec_date_range(from, to)[0] == from);
                assert(from.spec_succ().spec_le(rest[j - 1]));
            } else {
                assert(spec_date_range(from, to)[i] == rest[i - 1]);
                assert(rest[i - 1].spec_lt(rest[j - 1]));
            }
        }
    }
}

/// Consecutive dates of a range are consecutive calendar days.
pub proof fn lemma_date_range_consecutive(from: Date, to: Date)
    requires
        from.wf(),
        to.wf(),
    ensures
        forall|i: int|
            0 <= i && i + 1 < spec_date_range(from, to).len()
                ==> #[trigger] spec_date_range(from, to)[i + 1] == spec_date_range(
                from,
                to,
            )[i].spec_succ(),
    decreases to.year - from.year, 13 - from.month, 32 - from.day,
{
    if !(from.spec_le(to)) {
    } else if from == to {
    } else {
        lemma_succ_wf(from);
        lemma_succ_is_next(from, to);
        lemma_date_range_consecutive(from.spec_succ(), to);
        lemma_date_range_step(from.spec_succ(), to);
        assert forall|i: int| 0 <= i && i + 1 < spec_date_range(from, to).len() implies
        #[trigger] spec_date_range(from, to)[i + 1] == spec_date_range(from, to)[i].spec_succ() by {
            if i == 0 {
                assert(spec_date_range(from, to)[0] == from);
                assert(spec_date_range(from, to)[1] == spec_date_range(from.spec_succ(), to)[0]);
            } else {
                assert(spec_date_range(from, to)[i] == spec_date_range(from.spec_succ(), to)[i - 1]);
                assert(spec_date_range(from, to)[i + 1] == spec_date_range(from.spec_succ(), to)[(i
                    - 1) + 1]);
                assert(spec_date_range(from.spec_succ(), to)[(i - 1) + 1] == spec_date_range(
                    from.spec_succ(),
                    to,
                )[i - 1].spec_succ());
            }
        }
    }
}

/// The calendar days from `from` through `to` as a vector.
pub fn date_range_vec(from: &Date, to: &Date) -> (r: Vec<Date>)
    requires
        from.wf(),
        to.wf(),
    ensures
        r@ == spec_date_range(*from, *to),
{
    let mut r: Vec<Date> = Vec::new();
    if !from.le(to) {
        assert(r@ =~= spec_date_range(*from, *to));
        return r;
    }
    let mut cur: Date = *from;
    loop
        invariant
            from.wf(),
            to.wf(),
            cur.wf(),
            cur.spec_le(*to),
            spec_date_range(*from, *to) =~= r@ + spec_date_range(cur, *to),
        decreases to.year - cur.year, 13 - cur.month, 32 - cur.day,
    {
        r.push(cur);
        proof {
            lemma_date_range_step(cur, *to);
        }
        if cur.year == to.year && cur.month == to.month && cur.day == to.day {
            assert(cur == *to);
            assert(!cur.spec_succ().spec_le(*to));
            assert(spec_date_range(cur.spec_succ(), *to) =~= Seq::<Date>::empty());
            assert(r@ =~= spec_date_range(*from, *to));
            return r;
        }
        assert(cur != *to);
        cur = cur.succ();
    }
}

// ---------------------------------------------------------------------------
// Digits and text forms
// ---------------------------------------------------------------------------

pub open spec fn is_digit(c: char) -> bool {
    48 <= c as int <= 57
}

pub open spec fn digit_val(c: char) -> int {
    c as int - 48
}

pub open spec fn all_digits(s: Seq<char>) -> bool {
    forall|i: int| 0 <= i < s.len() ==> is_digit(#[trigger] s[i])
}

/// The number written by a sequence of decimal digits, most significant first.
pub open spec fn digits_val(s: Seq<char>) -> int
    decreases s.len(),
{
    if s.len() == 0 {
        0
    } else {
        digits_val(s.drop_last()) * 10 + digit_val(s.last())
    }
}

/// The decimal digit character for a value 0 through 9 ('0' for anything else).
pub open spec fn digit_char(v: int) -> char {
    if v == 1 {
        '1'
    } else if v == 2 {
        '2'
    } else if v == 3 {
        '3'
    } else if v == 4 {
        '4'
    } else if v == 5 {
        '5'
    } else if v == 6 {
        '6'
    } else if v == 7 {
        '7'
    } else if v == 8 {
        '8'
    } else if v == 9 {
        '9'
    } else {
        '0'
    }
}

pub fn digit_char_exec(v: u32) -> (c: char)
    ensures
        c == digit_char(v as int),
{
    if v == 1 {
        '1'
    } else if v == 2 {
        '2'
    } else if v == 3 {
        '3'
    } else if v == 4 {
        '4'
    } else if v == 5 {
        '5'
    } else if v == 6 {
        '6'
    } else if v == 7 {
        '7'
    } else if v == 8 {
        '8'
    } else if v == 9 {
        '9'
    } else {
        '0'
    }
}

/// A value 0 through 99 as two digits, zero-padded.
pub open spec fn render2(v: int) -> Seq<char> {
    seq![digit_char(v / 10 % 10), digit_char(v % 10)]
}

/// A value 0 through 9999 as four digits, zero-padded.
pub open spec fn render4(v: int) -> Seq<char> {
    seq![
        digit_char(v / 1000 % 10),
        digit_char(v / 100 % 10),
        digit_char(v / 10 % 10),
        digit_char(v % 10),
    ]
}

/// The canonical `DD/MM/YYYY` form of a date.
pub open spec fn render_dmy(d: Date) -> Seq<char> {
    render2(d.day as int) + seq!['/'] + render2(d.month as int) + seq!['/'] + render4(d.year as int)
}

/// Appends a value 0 through 99 as two zero-padded digits.
fn push2(s: &mut String, v: u32)
    requires
        v <= 99,
    ensures
        final(s)@ == old(s)@ + render2(v as int),
{
    push_char(s, digit_char_exec(v / 10 % 10));
    push_char(s, digit_char_exec(v % 10));
    assert(final(s)@ =~= old(s)@ + render2(v as int));
}

/// Appends a value 0 through 9999 as four zero-padded digits.
fn push4(s: &mut String, v: u32)
    requires
        v <= 9999,
    ensures
        final(s)@ == old(s)@ + render4(v as int),
{
    push_char(s, digit_char_exec(v / 1000 % 10));
    push_char(s, digit_char_exec(v / 100 % 10));
    push_char(s, digit_char_exec(v / 10 % 10));
    push_char(s, digit_char_exec(v % 10));
    assert(final(s)@ =~= old(s)@ + render4(v as int));
}

/// The canonical `DD/MM/YYYY` text of a date.
pub fn format_dmy(d: &Date) -> (r: String)
    requires
        d.wf(),
    ensures
        r@ == render_dmy(*d),
{
    let mut s = String::new();
    push2(&mut s, d.day);
    push_char(&mut s, '/');
    push2(&mut s, d.month);
    push_char(&mut s, '/');
    push4(&mut s, d.year);
    assert(s@ =~= render_dmy(*d));
    s
}

// ---------------------------------------------------------------------------
// Parsing
// ---------------------------------------------------------------------------

/// The order in which a format writes the three fields of a date.
#[derive(Debug, Clone, Copy, PartialEq, Eq, Structural)]
pub enum DateOrder {
    DayMonthYear,
    MonthDayYear,
    YearMonthDay,
}

/// `s` consists of exactly three separator-free parts, with the separator at
/// positions `i` and `j` and nowhere else.
pub open spec fn split3_at(s: Seq<char>, sep: char, i: int, j: int) -> bool {
    &&& 0 <= i < j < s.len()
    &&& s[i] == sep
    &&& s[j] == sep
    &&& forall|k: int| 0 <= k < s.len() && k != i && k != j ==> s[k] != sep
}

/// The two separator positions of a three-part split are unique.
pub proof fn lemma_split3_at_unique(s: Seq<char>, sep: char, i: int, j: int, i2: int, j2: int)
    requires
        split3_at(s, sep, i, j),
        split3_at(s, sep, i2, j2),
    ensures
        i == i2,
        j == j2,
{
}

/// A one- or two-digit day or month field.
pub open spec fn field2_val(s: Seq<char>) -> Option<int> {
    if 1 <= s.len() <= 2 && all_digits(s) {
        Some(digits_val(s))
    } else {
        None
    }
}

/// A four-digit year field.
pub open spec fn field4_val(s: Seq<char>) -> Option<int> {
    if s.len() == 4 && all_digits(s) {
        Some(digits_val(s))
    } else {
        None
    }
}

/// The date named by a (year, month, day) triple, if it exists.
pub open spec fn spec_make_date(y: int, m: int, d: int) -> Option<Date> {
    if 1 <= y <= 9999 && 1 <= m <= 12 && 1 <= d <= spec_days_in_month(y, m) {
        Some(Date { year: y as u32, month: m as u32, day: d as u32 })
    } else {
        None
    }
}

/// Reads three split parts as date fields in the given order.
pub open spec fn spec_interp_parts(a: Seq<char>, b: Seq<char>, c: Seq<char>, order: DateOrder) -> Option<
    Date,
> {
    match order {
        DateOrder::DayMonthYear => match (field2_val(a), field2_val(b), field4_val(c)) {
            (Some(d), Some(m), Some(y)) => spec_make_date(y, m, d),
            _ => None,
        },
        DateOrder::MonthDayYear => match (field2_val(a), field2_val(b), field4_val(c)) {
            (Some(m), Some(d), Some(y)) => spec_make_date(y, m, d),
            _ => None,
        },
        DateOrder::YearMonthDay => match (field4_val(a), field2_val(b), field2_val(c)) {
            (Some(y), Some(m), Some(d)) => spec_make_date(y, m, d),
            _ => None,
        },
    }
}

/// Parses `s` as three fields around `sep`, read in the given order.
pub open spec fn spec_parse_with(s: Seq<char>, sep: char, order: DateOrder) -> Option<Date> {
    if exists|i: int, j: int| split3_at(s, sep, i, j) {
        let (i, j) = choose|i: int, j: int| split3_at(s, sep, i, j);
        spec_interp_parts(
            s.subrange(0, i),
            s.subrange(i + 1, j),
            s.subrange(j + 1, s.len() as int),
            order,
        )
    } else {
        None
    }
}

/// The formats the service accepts, tried in order: `DD/MM/YYYY`,
/// `YYYY-MM-DD`, `MM/DD/YYYY`, `DD-MM-YYYY`, `YYYY/MM/DD`.
pub open spec fn spec_parse_date(s: Seq<char>) -> Option<Date> {
    if spec_parse_with(s, '/', DateOrder::DayMonthYear) is Some {
        spec_parse_with(s, '/', DateOrder::DayMonthYear)
    } else if spec_parse_with(s, '-', DateOrder::YearMonthDay) is Some {
        spec_parse_with(s, '-', DateOrder::YearMonthDay)
    } else if spec_parse_with(s, '/', DateOrder::MonthDayYear) is Some {
        spec_parse_with(s, '/', DateOrder::MonthDayYear)
    } else if spec_parse_with(s, '-', DateOrder::DayMonthYear) is Some {
        spec_parse_with(s, '-', DateOrder::DayMonthYear)
    } else if spec_parse_with(s, '/', DateOrder::YearMonthDay) is Some {
        spec_parse_with(s, '/', DateOrder::YearMonthDay)
    } else {
        None
    }
}

/// The first position at or after `from` where `c` occurs in `s`.
fn find_char_from(s: &str, len: usize, from: usize, c: char) -> (r: Option<usize>)
    requires
        len == s@.len(),
        from <= len,
    ensures
        match r {
            Some(i) => from <= i < len && s@[i as int] == c && forall|k: int|
                from <= k < i ==> s@[k] != c,
            None => forall|k: int| from <= k < len ==> s@[k] != c,
        },
{
    let mut i: usize = from;
    while i < len
        invariant
            len == s@.len(),
            from <= i <= len,
            forall|k: int| from <= k < i ==> s@[k] != c,
        decreases len - i,
    {
        if s.get_char(i) == c {
            return Some(i);
        }
        i += 1;
    }
    None
}

/// A one- or two-digit field value, 0 through 99.
fn parse_field2(s: &str) -> (r: Option<u32>)
    ensures
        match field2_val(s@) {
            Some(v) => r == Some(v as u32) && 0 <= v <= 99,
            None => r is None,
        },
{
    let len = s.unicode_len();
    if len != 1 && len != 2 {
        return None;
    }
    let c0 = s.get_char(0);
    if !(c0 >= '0' && c0 <= '9') {
        return None;
    }
    let d0 = c0 as u32 - 48;
    if len == 1 {
        proof {
            assert(s@.drop_last() =~= Seq::<char>::empty());
            assert(digits_val(Seq::<char>::empty()) == 0);
            assert(s@.last() == s@[0]);
            assert(digits_val(s@) == d0);
        }
        return Some(d0);
    }
    let c1 = s.get_char(1);
    if !(c1 >= '0' && c1 <= '9') {
        return None;
    }
    let d1 = c1 as u32 - 48;
    proof {
        assert(s@.drop_last().drop_last() =~= Seq::<char>::empty());
        assert(digits_val(Seq::<char>::empty()) == 0);
        assert(digits_val(s@.drop_last()) == digits_val(s@.drop_last().drop_last()) * 10
            + digit_val(s@.drop_last().last()));
        assert(s@.drop_last().last() == s@[0]);
        assert(digits_val(s@.drop_last()) == d0);
        assert(s@.last() == s@[1]);
        assert(digits_val(s@) == d0 * 10 + d1);
    }
    Some(d0 * 10 + d1)
}

/// A four-digit field value, 0 through 9999.
fn parse_field4(s: &str) -> (r: Option<u32>)
    ensures
        match field4_val(s@) {
            Some(v) => r == Some(v as u32) && 0 <= v <= 9999,
            None => r is None,
        },
{
    let len = s.unicode_len();
    if len != 4 {
        return None;
    }
    let mut v: u32 = 0;
    let mut i: usize = 0;
    while i < 4
        invariant
            s@.len() == 4,
            i <= 4,
            all_digits(s@.subrange(0, i as int)),
            v == digits_val(s@.subrange(0, i as int)),
            v <= (if i == 0 {
                0int
            } else if i == 1 {
                9int
            } else if i == 2 {
                99int
            } else if i == 3 {
                999int
            } else {
                9999int
            }),
        decreases 4 - i,
    {
        let c = s.get_char(i);
        if !(c >= '0' && c <= '9') {
            assert(!all_digits(s@)) by {
                assert(!is_digit(s@[i as int]));
            }
            return None;
        }
        proof {
            assert(s@.subrange(0, i + 1).drop_last() =~= s@.subrange(0, i as int));
            assert(s@.subrange(0, i + 1).last() == s@[i as int]);
        }
        v = v * 10 + (c as u32 - 48);
        i += 1;
    }
    proof {
        assert(s@.subrange(0, 4) =~= s@);
    }
    Some(v)
}

/// The date named by a (year, month, day) triple, if the triple is a real
/// calendar day.
pub fn make_date(y: u32, m: u32, d: u32) -> (r: Option<Date>)
    ensures
        r == spec_make_date(y as int, m as int, d as int),
        r matches Some(dt) ==> dt.wf(),
{
    if 1 <= y && y <= 9999 && 1 <= m && m <= 12 && 1 <= d && d <= days_in_month(y, m) {
        Some(Date { year: y, month: m, day: d })
    } else {
        None
    }
}

/// Parses `s` as three fields around `sep`, read in the given order.
fn parse_with(s: &str, sep: char, order: DateOrder) -> (r: Option<Date>)
    ensures
        r == spec_parse_with(s@, sep, order),
{
    let len = s.unicode_len();
    let i = match find_char_from(s, len, 0, sep) {
        Some(i) => i,
        None => {
            proof {
                assert(forall|i2: int, j2: int| !split3_at(s@, sep, i2, j2));
            }
            return None;
        },
    };
    let j = match find_char_from(s, len, i + 1, sep) {
        Some(j) => j,
        None => {
            proof {
                assert forall|i2: int, j2: int| !split3_at(s@, sep, i2, j2) by {
                    if split3_at(s@, sep, i2, j2) {
                        assert(i2 == i);
                    }
                }
            }
            return None;
        },
    };
    match find_char_from(s, len, j + 1, sep) {
        Some(k) => {
            proof {
                assert forall|i2: int, j2: int| !split3_at(s@, sep, i2, j2) by {
                    if split3_at(s@, sep, i2, j2) {
                        assert(s@[k as int] == sep);
                    }
                }
            }
            return None;
        },
        None => {},
    }
    proof {
        assert(split3_at(s@, sep, i as int, j as int));
        let (ci, cj) = choose|ci: int, cj: int| split3_at(s@, sep, ci, cj);
        lemma_split3_at_unique(s@, sep, ci, cj, i as int, j as int);
    }
    let a = s.substring_char(0, i);
    let b = s.substring_char(i + 1, j);
    let c = s.substring_char(j + 1, len);
    match order {
        DateOrder::DayMonthYear => {
            match (parse_field2(a), parse_field2(b), parse_field4(c)) {
                (Some(d), Some(m), Some(y)) => make_date(y, m, d),
                _ => None,
            }
        },
        DateOrder::MonthDayYear => {
            match (parse_field2(a), parse_field2(b), parse_field4(c)) {
                (Some(m), Some(d), Some(y)) => make_date(y, m, d),
                _ => None,
            }
        },
        DateOrder::YearMonthDay => {
            match (parse_field4(a), parse_field2(b), parse_field2(c)) {
                (Some(y), Some(m), Some(d)) => make_date(y, m, d),
                _ => None,
            }
        },
    }
}

/// A date string that none of the accepted formats matches.
#[derive(Debug, Clone, Copy, PartialEq, Eq, Structural)]
pub struct DateParseError;

/// Date-string parsing and formatting, over the formats the service accepts.
pub struct DateService;

impl DateService {
    /// Tries the accepted formats in order and returns the first match.
    pub fn parse_date(date_str: &str) -> (r: Result<Date, DateParseError>)
        ensures
            match spec_parse_date(date_str@) {
                Some(d) => r == Ok::<Date, DateParseError>(d),
                None => r == Err::<Date, DateParseError>(DateParseError),
            },
            r matches Ok(d) ==> d.wf(),
    {
        if let Some(d) = parse_with(date_str, '/', DateOrder::DayMonthYear) {
            return Ok(d);
        }
        if let Some(d) = parse_with(date_str, '-', DateOrder::YearMonthDay) {
            return Ok(d);
        }
        if let Some(d) = parse_with(date_str, '/', DateOrder::MonthDayYear) {
            return Ok(d);
        }
        if let Some(d) = parse_with(date_str, '-', DateOrder::DayMonthYear) {
            return Ok(d);
        }
        if let Some(d) = parse_with(date_str, '/', DateOrder::YearMonthDay) {
            return Ok(d);
        }
        Err(DateParseError)
    }

    /// Rewrites any accepted date text in the canonical `DD/MM/YYYY` form.
    pub fn normalize_date_for_api(date_str: &str) -> (r: Result<String, DateParseError>)
        ensures
            match spec_parse_date(date_str@) {
                Some(d) => r matches Ok(t) && t@ == render_dmy(d),
                None => r == Err::<String, DateParseError>(DateParseError),
            },
    {
        match Self::parse_date(date_str) {
            Ok(d) => Ok(format_dmy(&d)),
            Err(e) => Err(e),
        }
    }

    /// Every day from `from` through `to`, each in canonical form; empty when
    /// `from` is after `to`.
    pub fn get_date_range(from: &str, to: &str) -> (r: Result<Vec<String>, DateParseError>)
        ensures
            match (spec_parse_date(from@), spec_parse_date(to@)) {
                (Some(d1), Some(d2)) => r matches Ok(v) && v@.len() == spec_date_range(d1, d2).len()
                    && forall|k: int|
                    0 <= k < v@.len() ==> (#[trigger] v@[k])@ == render_dmy(
                        spec_date_range(d1, d2)[k],
                    ),
                _ => r matches Err(_),
            },
    {
        let d1 = match Self::parse_date(from) {
            Ok(d) => d,
            Err(e) => {
                return Err(e);
            },
        };
        let d2 = match Self::parse_date(to) {
            Ok(d) => d,
            Err(e) => {
                return Err(e);
            },
        };
        let dates = date_range_vec(&d1, &d2);
        proof {
            lemma_date_range_wf(d1, d2);
        }
        let mut out: Vec<String> = Vec::new();
        let mut i: usize = 0;
        while i < dates.len()
            invariant
                dates@ == spec_date_range(d1, d2),
                forall|k: int| 0 <= k < dates@.len() ==> (#[trigger] dates@[k]).wf(),
                i <= dates@.len(),
                out@.len() == i,
                forall|k: int| 0 <= k < i ==> (#[trigger] out@[k])@ == render_dmy(dates@[k]),
            decreases dates@.len() - i,
        {
            out.push(format_dmy(&dates[i]));
            i += 1;
        }
        Ok(out)
    }

    /// The canonical form of a date text, percent-encoded for a query string.
    pub fn format_for_api(date_str: &str) -> (r: Result<String, DateParseError>)
        ensures
            match spec_parse_date(date_str@) {
                Some(d) => r matches Ok(t) && t@ == crate::strutil::url_encoded_of(render_dmy(d)),
                None => r == Err::<String, DateParseError>(DateParseError),
            },
    {
        match Self::normalize_date_for_api(date_str) {
            Ok(n) => Ok(crate::strutil::url_encode(n.as_str())),
            Err(e) => Err(e),
        }
    }
}

} // verus!

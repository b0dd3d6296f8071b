//! Civil dates in the proleptic Gregorian calendar.

use vstd::prelude::*;
use crate::text::{push_zero_padded, zero_padded};

verus! {

/// The mathematical content of a [`Date`].
pub struct DateView {
    pub year: int,
    pub month: int,
    pub day: int,
}

pub open spec fn is_leap_year(year: int) -> bool {
    year % 4 == 0 && (year % 100 != 0 || year % 400 == 0)
}

pub open spec fn month_length(year: int, month: int) -> int {
    if month == 2 {
        if is_leap_year(year) { 29 } else { 28 }
    } else if month == 4 || month == 6 || month == 9 || month == 11 {
        30
    } else {
        31
    }
}

/// The years that a date may have.
pub open spec fn year_in_range(year: int) -> bool {
    -9999 <= year <= 9999
}

pub open spec fn is_valid_ymd(year: int, month: int, day: int) -> bool {
    &&& year_in_range(year)
    &&& 1 <= month <= 12
    &&& 1 <= day <= month_length(year, month)
}

/// Number of days from 1970-01-01 to the given date (negative before it).
pub open spec fn days_from_civil(year: int, month: int, day: int) -> int {
    let y = if month <= 2 { year - 1 } else { year };
    let shifted_month = (month + 9) % 12;
    365 * y + y / 4 - y / 100 + y / 400 + (153 * shifted_month + 2) / 5 + day - 1 - 719468
}

/// Day of the week, counted from Monday (0) to Sunday (6).
pub open spec fn weekday_of(year: int, month: int, day: int) -> int {
    (days_from_civil(year, month, day) + 3) % 7
}

impl DateView {
    pub open spec fn is_valid(self) -> bool {
        is_valid_ymd(self.year, self.month, self.day)
    }

    pub open spec fn weekday(self) -> int {
        weekday_of(self.year, self.month, self.day)
    }

    pub open spec fn day_number(self) -> int {
        days_from_civil(self.year, self.month, self.day)
    }

    pub open spec fn first_of_month(self) -> DateView {
        DateView { year: self.year, month: self.month, day: 1 }
    }

    /// Strict chronological order.
    pub open spec fn before(self, other: DateView) -> bool {
        ||| self.year < other.year
        ||| self.year == other.year && self.month < other.month
        ||| self.year == other.year && self.month == other.month && self.day < other.day
    }

    /// The components fit the machine integers of [`Date`].
    pub open spec fn fits_machine(self) -> bool {
        &&& -32768 <= self.year < 32768
        &&& -128 <= self.month < 128
        &&& -128 <= self.day < 128
    }

    /// A number that orders dates chronologically and tells them apart.
    pub open spec fn rank(self) -> int {
        ((self.year + 32768) * 256 + (self.month + 128)) * 256 + (self.day + 128)
    }
}

/// Dates whose components fit the machine integers of [`Date`] have distinct ranks.
pub proof fn lemma_rank_injective(a: DateView, b: DateView)
    requires
        a.fits_machine(),
        b.fits_machine(),
        a.rank() == b.rank(),
    ensures
        a == b,
{
    let (ya, ma, da) = (a.year + 32768, a.month + 128, a.day + 128);
    let (yb, mb, db) = (b.year + 32768, b.month + 128, b.day + 128);
    lemma_mixed_radix(ya * 256 + ma, da, yb * 256 + mb, db);
    lemma_mixed_radix(ya, ma, yb, mb);
}

proof fn lemma_mixed_radix(q1: int, r1: int, q2: int, r2: int)
    requires
        0 <= r1 < 256,
        0 <= r2 < 256,
        q1 * 256 + r1 == q2 * 256 + r2,
    ensures
        q1 == q2,
        r1 == r2,
{
    assert(q1 == q2) by (nonlinear_arith)
        requires
            0 <= r1 < 256,
            0 <= r2 < 256,
            q1 * 256 + r1 == q2 * 256 + r2,
    ;
}

/// Ranks are positive and below 2^32.
pub proof fn lemma_rank_bounds(a: DateView)
    requires
        a.fits_machine(),
    ensures
        0 <= a.rank() < 0x1_0000_0000,
{
    let (y, m, d) = (a.year + 32768, a.month + 128, a.day + 128);
    assert(0 <= ((y * 256 + m) * 256 + d) < 0x1_0000_0000) by (nonlinear_arith)
        requires
            0 <= y < 65536,
            0 <= m < 256,
            0 <= d < 256,
    ;
}

/// A valid civil date between the years -9999 and 9999.
#[derive(Clone, Copy, Debug, PartialEq, Eq, Structural)]
pub struct Date {
    year: i16,
    month: i8,
    day: i8,
}

impl View for Date {
    type V = DateView;

    closed spec fn view(&self) -> DateView {
        DateView { year: self.year as int, month: self.month as int, day: self.day as int }
    }
}

/// Every date's components fit the machine integers that hold them.
pub broadcast proof fn lemma_date_bounds(d: Date)
    ensures
        #[trigger] d@.fits_machine(),
{
}

/// Two dates are the same exactly when their contents are.
pub broadcast proof fn lemma_date_view_injective(a: Date, b: Date)
    ensures
        #![trigger a@, b@]
        a@ == b@ <==> a == b,
{
}

/// Weekday as reported by jiff, Monday being 0.
#[verifier::external_body]
fn jiff_weekday(year: i16, month: i8, day: i8) -> (w: i8)
    requires
        is_valid_ymd(year as int, month as int, day as int),
    ensures
        w as int == weekday_of(year as int, month as int, day as int),
{
    jiff::civil::date(year, month, day).weekday().to_monday_zero_offset()
}

pub fn is_leap(year: i16) -> (b: bool)
    requires
        year_in_range(year as int),
    ensures
        b == is_leap_year(year as int),
{
    // Shifting by a multiple of 400 keeps every remainder and makes the year positive.
    let shifted: i32 = year as i32 + 10000;
    assert(shifted % 4 == year % 4 && shifted % 100 == year % 100 && shifted % 400 == year % 400) by {
        assert(10000int == 400 * 25);
    }
    shifted % 4 == 0 && (shifted % 100 != 0 || shifted % 400 == 0)
}

pub fn days_in_month(year: i16, month: i8) -> (n: i8)
    requires
        year_in_range(year as int),
        1 <= month <= 12,
    ensures
        n as int == month_length(year as int, month as int),
        28 <= n <= 31,
{
    if month == 2 {
        if is_leap(year) { 29 } else { 28 }
    } else if month == 4 || month == 6 || month == 9 || month == 11 {
        30
    } else {
        31
    }
}

impl Date {
    #[verifier::type_invariant]
    spec fn inv(self) -> bool {
        is_valid_ymd(self.year as int, self.month as int, self.day as int)
    }

    /// The date with the given components, if there is such a date.
    pub fn new(year: i16, month: i8, day: i8) -> (res: Option<Date>)
        ensures
            res is Some <==> is_valid_ymd(year as int, month as int, day as int),
            res matches Some(d) ==> d@ == (DateView { year: year as int, month: month as int, day: day as int }),
    {
        if year < -9999 || year > 9999 || month < 1 || month > 12 || day < 1 {
            return None;
        }
        if day > days_in_month(year, month) {
            return None;
        }
        Some(Date { year, month, day })
    }

    pub fn year(&self) -> (y: i16)
        ensures
            y as int == self@.year,
            year_in_range(y as int),
    {
        proof { use_type_invariant(self); }
        self.year
    }

    pub fn month(&self) -> (m: i8)
        ensures
            m as int == self@.month,
            1 <= m <= 12,
    {
        proof { use_type_invariant(self); }
        self.month
    }

    pub fn day(&self) -> (d: i8)
        ensures
            d as int == self@.day,
            1 <= d <= month_length(self@.year, self@.month),
    {
        proof { use_type_invariant(self); }
        self.day
    }

    /// Day of the week, Monday being 0 and Sunday 6.
    pub fn weekday(&self) -> (w: i8)
        ensures
            w as int == self@.weekday(),
    {
        proof { use_type_invariant(self); }
        jiff_weekday(self.year, self.month, self.day)
    }
}

/// The year as an ISO 8601 date writes it: four digits, and for years before
/// year 0 a minus sign and two more zeros.
pub open spec fn iso_year_text(year: int) -> Seq<char> {
    if year < 0 {
        "-00"@ + zero_padded((-year) as nat, 4)
    } else {
        zero_padded(year as nat, 4)
    }
}

/// The date as `YYYY-MM-DD`.
pub open spec fn iso_date_text(d: DateView) -> Seq<char> {
    iso_year_text(d.year) + "-"@ + zero_padded(d.month as nat, 2) + "-"@ + zero_padded(d.day as nat, 2)
}

/// The year as the `%Y` directive writes it: at least four characters, a minus
/// sign counting as one of them.
pub open spec fn padded_year_text(year: int) -> Seq<char> {
    if year < 0 {
        "-"@ + zero_padded((-year) as nat, 3)
    } else {
        zero_padded(year as nat, 4)
    }
}

/// The year with a sign when negative and zeros up to four digits, e.g.
/// `2025` or `-0001`.
pub open spec fn signed_year_text(year: int) -> Seq<char> {
    if year < 0 {
        "-"@ + zero_padded((-year) as nat, 4)
    } else {
        zero_padded(year as nat, 4)
    }
}

/// Abbreviated weekday name, Monday being 0.
pub open spec fn weekday_abbreviation(w: int) -> Seq<char> {
    if w == 0 { "Mon"@ }
    else if w == 1 { "Tue"@ }
    else if w == 2 { "Wed"@ }
    else if w == 3 { "Thu"@ }
    else if w == 4 { "Fri"@ }
    else if w == 5 { "Sat"@ }
    else { "Sun"@ }
}

pub open spec fn month_name(m: int) -> Seq<char> {
    if m == 1 { "January"@ }
    else if m == 2 { "February"@ }
    else if m == 3 { "March"@ }
    else if m == 4 { "April"@ }
    else if m == 5 { "May"@ }
    else if m == 6 { "June"@ }
    else if m == 7 { "July"@ }
    else if m == 8 { "August"@ }
    else if m == 9 { "September"@ }
    else if m == 10 { "October"@ }
    else if m == 11 { "November"@ }
    else { "December"@ }
}

/// The English names of the months, in calendar order.
pub open spec fn english_month_names() -> Seq<Seq<char>> {
    seq![
        "January"@, "February"@, "March"@, "April"@, "May"@, "June"@,
        "July"@, "August"@, "September"@, "October"@, "November"@, "December"@,
    ]
}

/// A month is labelled by its English name: the `m`-th in calendar order,
/// distinct months by distinct names. Thirty days have September, April,
/// June and November; February alone has 29 days in a leap year.
pub proof fn lemma_month_names(m: int, n: int)
    requires
        1 <= m <= 12,
        1 <= n <= 12,
    ensures
        month_name(m) == english_month_names()[m - 1],
        month_name(m) == month_name(n) ==> m == n,
        month_length(2025, m) == 30 <==> (month_name(m) == "September"@ || month_name(m) == "April"@
            || month_name(m) == "June"@ || month_name(m) == "November"@),
        month_length(2024, m) == 29 <==> month_name(m) == "February"@,
{
    reveal_strlit("January");
    reveal_strlit("February");
    reveal_strlit("March");
    reveal_strlit("April");
    reveal_strlit("May");
    reveal_strlit("June");
    reveal_strlit("July");
    reveal_strlit("August");
    reveal_strlit("September");
    reveal_strlit("October");
    reveal_strlit("November");
    reveal_strlit("December");
    let names = english_month_names();
    assert(names[0] == "January"@ && names[1] == "February"@ && names[2] == "March"@ && names[3] == "April"@
        && names[4] == "May"@ && names[5] == "June"@ && names[6] == "July"@ && names[7] == "August"@
        && names[8] == "September"@ && names[9] == "October"@ && names[10] == "November"@ && names[11] == "December"@);
    if month_name(m) == month_name(n) && m != n {
        let (a, b) = (month_name(m), month_name(n));
        assert(a.len() != b.len() || a[0] != b[0] || a[1] != b[1] || a[2] != b[2]);
    }
    let a = month_name(m);
    if a == "September"@ || a == "April"@ || a == "June"@ || a == "November"@ || a == "February"@ {
        let x = if a == "September"@ { "September"@ } else if a == "April"@ { "April"@ }
            else if a == "June"@ { "June"@ } else if a == "November"@ { "November"@ } else { "February"@ };
        assert(a.len() == x.len() && a[0] == x[0] && a[1] == x[1] && a[2] == x[2]);
    }
}

/// A weekday is labelled by the first three letters of its English name,
/// Monday first; distinct weekdays by distinct labels; 1 January 1970 was a
/// Thursday.
pub proof fn lemma_weekday_abbreviations(w: int, v: int)
    requires
        0 <= w < 7,
        0 <= v < 7,
    ensures
        weekday_abbreviation(w) == seq!["Mon"@, "Tue"@, "Wed"@, "Thu"@, "Fri"@, "Sat"@, "Sun"@][w],
        weekday_abbreviation(w) == weekday_abbreviation(v) ==> w == v,
        weekday_abbreviation((DateView { year: 1970, month: 1, day: 1 }).weekday()) == "Thu"@,
{
    reveal_strlit("Mon");
    reveal_strlit("Tue");
    reveal_strlit("Wed");
    reveal_strlit("Thu");
    reveal_strlit("Fri");
    reveal_strlit("Sat");
    reveal_strlit("Sun");
    let names = seq!["Mon"@, "Tue"@, "Wed"@, "Thu"@, "Fri"@, "Sat"@, "Sun"@];
    assert(names[0] == "Mon"@ && names[1] == "Tue"@ && names[2] == "Wed"@ && names[3] == "Thu"@
        && names[4] == "Fri"@ && names[5] == "Sat"@ && names[6] == "Sun"@);
    if weekday_abbreviation(w) == weekday_abbreviation(v) && w != v {
        let (a, b) = (weekday_abbreviation(w), weekday_abbreviation(v));
        assert(a[0] != b[0] || a[1] != b[1]);
    }
}

impl Date {
    /// Appends the date as `YYYY-MM-DD`.
    pub fn push_iso(&self, s: &mut String)
        ensures
            final(s)@ == old(s)@ + iso_date_text(self@),
    {
        let y = self.year();
        if y < 0 {
            s.append("-00");
            push_zero_padded(s, (-(y as i32)) as u64, 4);
        } else {
            push_zero_padded(s, y as u64, 4);
        }
        s.append("-");
        push_zero_padded(s, self.month() as u64, 2);
        s.append("-");
        push_zero_padded(s, self.day() as u64, 2);
        proof {
            assert(s@ =~= old(s)@ + iso_date_text(self@));
        }
    }

    /// The date as `YYYY-MM-DD`.
    pub fn to_iso(&self) -> (t: String)
        ensures
            t@ == iso_date_text(self@),
    {
        let mut s = String::new();
        self.push_iso(&mut s);
        proof { assert(s@ =~= iso_date_text(self@)); }
        s
    }

    /// Appends the year as the `%Y` directive writes it.
    pub fn push_padded_year(&self, s: &mut String)
        ensures
            final(s)@ == old(s)@ + padded_year_text(self@.year),
    {
        let y = self.year();
        if y < 0 {
            s.append("-");
            push_zero_padded(s, (-(y as i32)) as u64, 3);
        } else {
            push_zero_padded(s, y as u64, 4);
        }
        proof {
            assert(s@ =~= old(s)@ + padded_year_text(self@.year));
        }
    }
}

impl Date {
    /// Appends the year, signed when negative, padded to four digits.
    pub fn push_signed_year(&self, s: &mut String)
        ensures
            final(s)@ == old(s)@ + signed_year_text(self@.year),
    {
        let y = self.year();
        if y < 0 {
            s.append("-");
            push_zero_padded(s, (-(y as i32)) as u64, 4);
        } else {
            push_zero_padded(s, y as u64, 4);
        }
        proof {
            assert(s@ =~= old(s)@ + signed_year_text(self@.year));
        }
    }
}

pub fn weekday_abbreviation_str(w: i8) -> (t: &'static str)
    ensures
        t@ == weekday_abbreviation(w as int),
{
    match w {
        0 => "Mon",
        1 => "Tue",
        2 => "Wed",
        3 => "Thu",
        4 => "Fri",
        5 => "Sat",
        _ => "Sun",
    }
}

pub fn month_name_str(m: i8) -> (t: &'static str)
    ensures
        t@ == month_name(m as int),
{
    match m {
        1 => "January",
        2 => "February",
        3 => "March",
        4 => "April",
        5 => "May",
        6 => "June",
        7 => "July",
        8 => "August",
        9 => "September",
        10 => "October",
        11 => "November",
        _ => "December",
    }
}

/// Months counted from year 0: January of year 0 is month 0.
pub open spec fn month_index(d: DateView) -> int {
    d.year * 12 + d.month - 1
}

/// The first day of the month with the given index.
pub open spec fn month_start(index: int) -> DateView {
    DateView { year: index / 12, month: index % 12 + 1, day: 1 }
}

/// Earlier dates rank lower.
pub proof fn lemma_rank_chronological(a: DateView, b: DateView)
    requires
        a.fits_machine(),
        b.fits_machine(),
    ensures
        a.before(b) <==> a.rank() < b.rank(),
{
    let (ya, ma, da) = (a.year + 32768, a.month + 128, a.day + 128);
    let (yb, mb, db) = (b.year + 32768, b.month + 128, b.day + 128);
    lemma_radix_order(ya * 256 + ma, da, yb * 256 + mb, db);
    lemma_radix_order(ya, ma, yb, mb);
}

proof fn lemma_radix_order(q1: int, r1: int, q2: int, r2: int)
    requires
        0 <= r1 < 256,
        0 <= r2 < 256,
    ensures
        q1 * 256 + r1 < q2 * 256 + r2 <==> (q1 < q2 || (q1 == q2 && r1 < r2)),
{
    assert(q1 * 256 + r1 < q2 * 256 + r2 <==> (q1 < q2 || (q1 == q2 && r1 < r2))) by (nonlinear_arith)
        requires
            0 <= r1 < 256,
            0 <= r2 < 256,
    ;
}

impl Date {
    /// The first day of this date's month.
    pub fn first_of_month(&self) -> (d: Date)
        ensures
            d@ == self@.first_of_month(),
    {
        proof { use_type_invariant(self); }
        Date { year: self.year, month: self.month, day: 1 }
    }

    /// The date's rank (see [`DateView::rank`]) as a machine integer.
    pub fn rank(&self) -> (r: u64)
        ensures
            r as int == self@.rank(),
            r < 0x1_0000_0000,
    {
        proof { lemma_rank_bounds(self@); }
        let y: u64 = (self.year as i32 + 32768) as u64;
        let m: u64 = (self.month as i32 + 128) as u64;
        let d: u64 = (self.day as i32 + 128) as u64;
        (y * 256 + m) * 256 + d
    }
}

} // verus!

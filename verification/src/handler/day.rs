//! Which dates are working days: weekends and the bank holidays of England & Wales.

use vstd::prelude::*;
use crate::date::{Date, DateView};
use crate::model::{Category, WeekendDay};

verus! {

/// The bank holidays of England & Wales, 2018 to 2027.
pub open spec fn is_bank_holiday_ymd(year: int, month: int, day: int) -> bool {
    if year == 2018 {
        (month == 1 && day == 1)
            || (month == 3 && day == 30)
            || (month == 4 && day == 2)
            || (month == 5 && day == 7)
            || (month == 5 && day == 28)
            || (month == 8 && day == 27)
            || (month == 12 && day == 25)
            || (month == 12 && day == 26)
    } else if year == 2019 {
        (month == 1 && day == 1)
            || (month == 4 && day == 19)
            || (month == 4 && day == 22)
            || (month == 5 && day == 6)
            || (month == 5 && day == 27)
            || (month == 8 && day == 26)
            || (month == 12 && day == 25)
            || (month == 12 && day == 26)
    } else if year == 2020 {
        (month == 1 && day == 1)
            || (month == 4 && day == 10)
            || (month == 4 && day == 13)
            || (month == 5 && day == 8)
            || (month == 5 && day == 25)
            || (month == 8 && day == 31)
            || (month == 12 && day == 25)
            || (month == 12 && day == 28)
    } else if year == 2021 {
        (month == 1 && day == 1)
            || (month == 4 && day == 2)
            || (month == 4 && day == 5)
            || (month == 5 && day == 3)
            || (month == 5 && day == 31)
            || (month == 8 && day == 30)
            || (month == 12 && day == 27)
            || (month == 12 && day == 28)
    } else if year == 2022 {
        (month == 1 && day == 3)
            || (month == 4 && day == 15)
            || (month == 4 && day == 18)
            || (month == 5 && day == 2)
            || (month == 6 && day == 2)
            || (month == 6 && day == 3)
            || (month == 8 && day == 29)
            || (month == 9 && day == 19)
            || (month == 12 && day == 26)
            || (month == 12 && day == 27)
    } else if year == 2023 {
        (month == 1 && day == 2)
            || (month == 4 && day == 7)
            || (month == 4 && day == 10)
            || (month == 5 && day == 1)
            || (month == 5 && day == 8)
            || (month == 5 && day == 29)
            || (month == 8 && day == 28)
            || (month == 12 && day == 25)
            || (month == 12 && day == 26)
    } else if year == 2024 {
        (month == 1 && day == 1)
            || (month == 3 && day == 29)
            || (month == 4 && day == 1)
            || (month == 5 && day == 6)
            || (month == 5 && day == 27)
            || (month == 8 && day == 26)
            || (month == 12 && day == 25)
            || (month == 12 && day == 26)
    } else if year == 2025 {
        (month == 1 && day == 1)
            || (month == 4 && day == 18)
            || (month == 4 && day == 21)
            || (month == 5 && day == 5)
            || (month == 5 && day == 26)
            || (month == 8 && day == 25)
            || (month == 12 && day == 25)
            || (month == 12 && day == 26)
    } else if year == 2026 {
        (month == 1 && day == 1)
            || (month == 4 && day == 3)
            || (month == 4 && day == 6)
            || (month == 5 && day == 4)
            || (month == 5 && day == 25)
            || (month == 8 && day == 31)
            || (month == 12 && day == 25)
            || (month == 12 && day == 28)
    } else if year == 2027 {
        (month == 1 && day == 1)
            || (month == 3 && day == 26)
            || (month == 3 && day == 29)
            || (month == 5 && day == 3)
            || (month == 5 && day == 31)
            || (month == 8 && day == 30)
            || (month == 12 && day == 27)
            || (month == 12 && day == 28)
    } else {
        false
    }
}

/// The bank holidays of England & Wales from 2018 to 2027, as published
/// (substitute days included), by year, month and day.
pub open spec fn england_and_wales_bank_holidays() -> Set<(int, int, int)> {
    set![
        (2018, 1, 1), (2018, 3, 30), (2018, 4, 2), (2018, 5, 7), (2018, 5, 28), (2018, 8, 27), (2018, 12, 25), (2018, 12, 26),
        (2019, 1, 1), (2019, 4, 19), (2019, 4, 22), (2019, 5, 6), (2019, 5, 27), (2019, 8, 26), (2019, 12, 25), (2019, 12, 26),
        (2020, 1, 1), (2020, 4, 10), (2020, 4, 13), (2020, 5, 8), (2020, 5, 25), (2020, 8, 31), (2020, 12, 25), (2020, 12, 28),
        (2021, 1, 1), (2021, 4, 2), (2021, 4, 5), (2021, 5, 3), (2021, 5, 31), (2021, 8, 30), (2021, 12, 27), (2021, 12, 28),
        (2022, 1, 3), (2022, 4, 15), (2022, 4, 18), (2022, 5, 2), (2022, 6, 2), (2022, 6, 3), (2022, 8, 29), (2022, 9, 19), (2022, 12, 26), (2022, 12, 27),
        (2023, 1, 2), (2023, 4, 7), (2023, 4, 10), (2023, 5, 1), (2023, 5, 8), (2023, 5, 29), (2023, 8, 28), (2023, 12, 25), (2023, 12, 26),
        (2024, 1, 1), (2024, 3, 29), (2024, 4, 1), (2024, 5, 6), (2024, 5, 27), (2024, 8, 26), (2024, 12, 25), (2024, 12, 26),
        (2025, 1, 1), (2025, 4, 18), (2025, 4, 21), (2025, 5, 5), (2025, 5, 26), (2025, 8, 25), (2025, 12, 25), (2025, 12, 26),
        (2026, 1, 1), (2026, 4, 3), (2026, 4, 6), (2026, 5, 4), (2026, 5, 25), (2026, 8, 31), (2026, 12, 25), (2026, 12, 28),
        (2027, 1, 1), (2027, 3, 26), (2027, 3, 29), (2027, 5, 3), (2027, 5, 31), (2027, 8, 30), (2027, 12, 27), (2027, 12, 28),
    ]
}

/// A date is a bank holiday exactly when it is on the published list of
/// England & Wales bank holidays and is not a Saturday or a Sunday.
pub proof fn lemma_bank_holidays_listed(d: DateView)
    ensures
        category_of(d) == Category::BankHoliday <==> (england_and_wales_bank_holidays().contains((d.year, d.month, d.day))
            && d.weekday() != 5 && d.weekday() != 6),
{
}

/// New Year's Day, Christmas Day and Boxing Day are bank holidays in every
/// year from 2018 to 2027 in which they fall on a weekday.
pub proof fn lemma_fixed_bank_holidays(year: int)
    requires
        2018 <= year <= 2027,
    ensures
        (DateView { year, month: 1, day: 1 }).weekday() < 5 ==> category_of(DateView { year, month: 1, day: 1 }) == Category::BankHoliday,
        (DateView { year, month: 12, day: 25 }).weekday() < 5 ==> category_of(DateView { year, month: 12, day: 25 }) == Category::BankHoliday,
        (DateView { year, month: 12, day: 26 }).weekday() < 5 ==> category_of(DateView { year, month: 12, day: 26 }) == Category::BankHoliday,
{
    if year == 2018 {} else if year == 2019 {} else if year == 2020 {} else if year == 2021 {}
    else if year == 2022 {} else if year == 2023 {} else if year == 2024 {} else if year == 2025 {}
    else if year == 2026 {} else {}
}

/// The category of a date: Saturday and Sunday are weekend days, then bank
/// holidays, and every other date is a workday.
pub open spec fn category_of(d: DateView) -> Category {
    if d.weekday() == 5 {
        Category::Weekend(WeekendDay::Saturday)
    } else if d.weekday() == 6 {
        Category::Weekend(WeekendDay::Sunday)
    } else if is_bank_holiday_ymd(d.year, d.month, d.day) {
        Category::BankHoliday
    } else {
        Category::Workday
    }
}

fn is_bank_holiday_parts(year: i16, month: i8, day: i8) -> (b: bool)
    ensures
        b == is_bank_holiday_ymd(year as int, month as int, day as int),
{
    match year {
        2018 => (month == 1 && day == 1)
                || (month == 3 && day == 30)
                || (month == 4 && day == 2)
                || (month == 5 && day == 7)
                || (month == 5 && day == 28)
                || (month == 8 && day == 27)
                || (month == 12 && day == 25)
                || (month == 12 && day == 26),
        2019 => (month == 1 && day == 1)
                || (month == 4 && day == 19)
                || (month == 4 && day == 22)
                || (month == 5 && day == 6)
                || (month == 5 && day == 27)
                || (month == 8 && day == 26)
                || (month == 12 && day == 25)
                || (month == 12 && day == 26),
        2020 => (month == 1 && day == 1)
                || (month == 4 && day == 10)
                || (month == 4 && day == 13)
                || (month == 5 && day == 8)
                || (month == 5 && day == 25)
                || (month == 8 && day == 31)
                || (month == 12 && day == 25)
                || (month == 12 && day == 28),
        2021 => (month == 1 && day == 1)
                || (month == 4 && day == 2)
                || (month == 4 && day == 5)
                || (month == 5 && day == 3)
                || (month == 5 && day == 31)
                || (month == 8 && day == 30)
                || (month == 12 && day == 27)
                || (month == 12 && day == 28),
        2022 => (month == 1 && day == 3)
                || (month == 4 && day == 15)
                || (month == 4 && day == 18)
                || (month == 5 && day == 2)
                || (month == 6 && day == 2)
                || (month == 6 && day == 3)
                || (month == 8 && day == 29)
                || (month == 9 && day == 19)
                || (month == 12 && day == 26)
                || (month == 12 && day == 27),
        2023 => (month == 1 && day == 2)
                || (month == 4 && day == 7)
                || (month == 4 && day == 10)
                || (month == 5 && day == 1)
                || (month == 5 && day == 8)
                || (month == 5 && day == 29)
                || (month == 8 && day == 28)
                || (month == 12 && day == 25)
                || (month == 12 && day == 26),
        2024 => (month == 1 && day == 1)
                || (month == 3 && day == 29)
                || (month == 4 && day == 1)
                || (month == 5 && day == 6)
                || (month == 5 && day == 27)
                || (month == 8 && day == 26)
                || (month == 12 && day == 25)
                || (month == 12 && day == 26),
        2025 => (month == 1 && day == 1)
                || (month == 4 && day == 18)
                || (month == 4 && day == 21)
                || (month == 5 && day == 5)
                || (month == 5 && day == 26)
                || (month == 8 && day == 25)
                || (month == 12 && day == 25)
                || (month == 12 && day == 26),
        2026 => (month == 1 && day == 1)
                || (month == 4 && day == 3)
                || (month == 4 && day == 6)
                || (month == 5 && day == 4)
                || (month == 5 && day == 25)
                || (month == 8 && day == 31)
                || (month == 12 && day == 25)
                || (month == 12 && day == 28),
        2027 => (month == 1 && day == 1)
                || (month == 3 && day == 26)
                || (month == 3 && day == 29)
                || (month == 5 && day == 3)
                || (month == 5 && day == 31)
                || (month == 8 && day == 30)
                || (month == 12 && day == 27)
                || (month == 12 && day == 28),
        _ => false,
    }
}

pub fn is_bank_holiday(date: &Date) -> (b: bool)
    ensures
        b == is_bank_holiday_ymd(date@.year, date@.month, date@.day),
{
    is_bank_holiday_parts(date.year(), date.month(), date.day())
}

/// Categorises a date.
pub fn category(date: &Date) -> (c: Category)
    ensures
        c == category_of(date@),
{
    let weekday = date.weekday();
    if weekday == 5 {
        Category::Weekend(WeekendDay::Saturday)
    } else if weekday == 6 {
        Category::Weekend(WeekendDay::Sunday)
    } else if is_bank_holiday(date) {
        Category::BankHoliday
    } else {
        Category::Workday
    }
}

} // verus!

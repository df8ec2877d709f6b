//! US government bond market calendar.

use vstd::prelude::*;

use crate::calendar::Calendar;
use crate::date::{Date, Month, Ordinal, Weekday, Year, serial_of, year_start, ymd_of};
use crate::easter::{EasterMethod, easter_monday, easter_monday_doy};
use crate::rules::{CustomRule, EasterOffset, FixedDate, LastWeekday, NthWeekday, OneOff, Rule, WeekendShift};
use crate::weekend::Weekend;
use crate::year_range::YearRange;

verus! {

/// `true` iff serial `s` is Good Friday in 1996 or later, on a day of
/// the month after the 7th (early-month Good Fridays coincide with the
/// payrolls release and the bond market stays open).
pub open spec fn good_friday_post_1996_holds(s: int) -> bool {
    let t = ymd_of(s);
    let em = easter_monday_doy(t.0, EasterMethod::Western);
    &&& t.0 >= 1996
    &&& t.2 > 7
    &&& em >= 3
    &&& s - year_start(t.0) + 1 + 3 == em
}

/// Good Friday from 1996 on, except when it falls in a month's first week.
pub fn good_friday_post_1996(d: Date) -> (r: bool)
    ensures
        r == good_friday_post_1996_holds(d@),
{
    let year = d.year();
    let y = year.get();
    if y < 1996 || d.day() <= 7 {
        return false;
    }
    let em_doy = easter_monday(year, EasterMethod::Western);
    em_doy >= 3 && d.day_of_year() + 3 == em_doy
}

/// The US government bond market calendar: Saturday and Sunday weekends and the rules below.
pub fn government_bond() -> (c: Calendar)
    ensures
        c.name@ == "US government bond market"@,
        forall|n: int| c.weekend.has(n) <==> (n == 6 || n == 7),
        c.rules@.len() == 20,
        ({
            let rules = c.rules@;
            &&& rules[0] matches Rule::Fixed(f) && f@ == (Month::Jan, 1int, WeekendShift::SunForward, (1901int, 2199int))
            &&& rules[1] matches Rule::NthWeekday(f) && f@ == (Ordinal::Third, Weekday::Mon, Month::Jan, (1983int, 2199int))
            &&& rules[2] matches Rule::Fixed(f) && f@ == (Month::Feb, 22int, WeekendShift::SatBackSunForward, (1901int, 1970int))
            &&& rules[3] matches Rule::NthWeekday(f) && f@ == (Ordinal::Third, Weekday::Mon, Month::Feb, (1971int, 2199int))
            &&& rules[4] matches Rule::Easter(f) && f@ == (-2int, EasterMethod::Western, (1901int, 1995int))
            &&& rules[5] == Rule::Custom(CustomRule::GoodFridayPost1996)
            &&& rules[6] matches Rule::Fixed(f) && f@ == (Month::May, 30int, WeekendShift::SatBackSunForward, (1901int, 1970int))
            &&& rules[7] matches Rule::LastWeekday(f) && f@ == (Weekday::Mon, Month::May, (1971int, 2199int))
            &&& rules[8] matches Rule::Fixed(f) && f@ == (Month::Jun, 19int, WeekendShift::SatBackSunForward, (2022int, 2199int))
            &&& rules[9] matches Rule::Fixed(f) && f@ == (Month::Jul, 4int, WeekendShift::SatBackSunForward, (1901int, 2199int))
            &&& rules[10] matches Rule::NthWeekday(f) && f@ == (Ordinal::First, Weekday::Mon, Month::Sep, (1901int, 2199int))
            &&& rules[11] matches Rule::NthWeekday(f) && f@ == (Ordinal::Second, Weekday::Mon, Month::Oct, (1971int, 2199int))
            &&& rules[12] matches Rule::Fixed(f) && f@ == (Month::Nov, 11int, WeekendShift::SunForward, (1901int, 1970int))
            &&& rules[13] matches Rule::NthWeekday(f) && f@ == (Ordinal::Fourth, Weekday::Mon, Month::Oct, (1971int, 1977int))
            &&& rules[14] matches Rule::Fixed(f) && f@ == (Month::Nov, 11int, WeekendShift::SunForward, (1978int, 2199int))
            &&& rules[15] matches Rule::NthWeekday(f) && f@ == (Ordinal::Fourth, Weekday::Thu, Month::Nov, (1901int, 2199int))
            &&& rules[16] matches Rule::Fixed(f) && f@ == (Month::Dec, 25int, WeekendShift::SatBackSunForward, (1901int, 2199int))
            &&& rules[17] matches Rule::OneOff(f) && f@ == serial_of(2004, 6, 11)
            &&& rules[18] matches Rule::OneOff(f) && f@ == serial_of(2012, 10, 30)
            &&& rules[19] matches Rule::OneOff(f) && f@ == serial_of(2018, 12, 5)
        }),
{
    let mut rules: Vec<Rule> = Vec::new();
    rules.push(Rule::Fixed(FixedDate::new(Month::Jan, 1).shift(WeekendShift::SunForward)));
    rules.push(Rule::NthWeekday(NthWeekday::new(Ordinal::Third, Weekday::Mon, Month::Jan).from_year(Year::literal(1983))));
    rules.push(Rule::Fixed(FixedDate::new(Month::Feb, 22).shift(WeekendShift::SatBackSunForward).years(YearRange::literal_through(1970))));
    rules.push(Rule::NthWeekday(NthWeekday::new(Ordinal::Third, Weekday::Mon, Month::Feb).from_year(Year::literal(1971))));
    rules.push(Rule::Easter(EasterOffset::good_friday().years(YearRange::literal_through(1995))));
    rules.push(Rule::Custom(CustomRule::GoodFridayPost1996));
    rules.push(Rule::Fixed(FixedDate::new(Month::May, 30).shift(WeekendShift::SatBackSunForward).years(YearRange::literal_through(1970))));
    rules.push(Rule::LastWeekday(LastWeekday::new(Weekday::Mon, Month::May).from_year(Year::literal(1971))));
    rules.push(Rule::Fixed(FixedDate::new(Month::Jun, 19).shift(WeekendShift::SatBackSunForward).from_year(Year::literal(2022))));
    rules.push(Rule::Fixed(FixedDate::new(Month::Jul, 4).shift(WeekendShift::SatBackSunForward)));
    rules.push(Rule::NthWeekday(NthWeekday::new(Ordinal::First, Weekday::Mon, Month::Sep)));
    rules.push(Rule::NthWeekday(NthWeekday::new(Ordinal::Second, Weekday::Mon, Month::Oct).from_year(Year::literal(1971))));
    rules.push(Rule::Fixed(FixedDate::new(Month::Nov, 11).shift(WeekendShift::SunForward).years(YearRange::literal_through(1970))));
    rules.push(Rule::NthWeekday(NthWeekday::new(Ordinal::Fourth, Weekday::Mon, Month::Oct).years(YearRange::literal_between(1971, 1977))));
    rules.push(Rule::Fixed(FixedDate::new(Month::Nov, 11).shift(WeekendShift::SunForward).from_year(Year::literal(1978))));
    rules.push(Rule::NthWeekday(NthWeekday::new(Ordinal::Fourth, Weekday::Thu, Month::Nov)));
    rules.push(Rule::Fixed(FixedDate::new(Month::Dec, 25).shift(WeekendShift::SatBackSunForward)));
    rules.push(Rule::OneOff(OneOff::new(Date::literal(2004, Month::Jun, 11))));
    rules.push(Rule::OneOff(OneOff::new(Date::literal(2012, Month::Oct, 30))));
    rules.push(Rule::OneOff(OneOff::new(Date::literal(2018, Month::Dec, 5))));
    Calendar { name: "US government bond market".to_owned(), weekend: Weekend::sat_sun(), rules }
}

/// The bond market's Good Friday from 1996: exactly the days the plain
/// Western Good Friday rule names, in 1996 or later, past the 7th of the
/// month. A Good Friday on any of the days 1 to 7 (the 7th included) is
/// not a holiday of this rule.
pub proof fn lemma_bond_good_friday(gf: EasterOffset, s: int)
    requires
        crate::date::valid_serial(s),
        gf@ == (-2int, EasterMethod::Western, (1901int, 2199int)),
    ensures
        good_friday_post_1996_holds(s) <==> (ymd_of(s).0 >= 1996 && ymd_of(s).2 > 7 && gf.holds(s)),
{
    crate::date::lemma_ymd_of(s);
    let t = ymd_of(s);
    crate::date::lemma_serial_of_bounds(t.0, t.1, t.2);
}

/// A calendar with the post-1996 Good Friday rule, as the bond market
/// calendar has, closes on every Good Friday from 1996 that falls past the
/// 7th of its month.
pub proof fn lemma_bond_good_fridays_are_holidays(cal: &Calendar, i: int, gf: EasterOffset, s: int)
    requires
        0 <= i < cal.rules@.len(),
        cal.rules@[i] == Rule::Custom(CustomRule::GoodFridayPost1996),
        gf@ == (-2int, EasterMethod::Western, (1901int, 2199int)),
        crate::date::valid_serial(s),
        gf.holds(s),
        ymd_of(s).0 >= 1996,
        ymd_of(s).2 > 7,
    ensures
        cal.natural_at(s),
        cal.holiday_at(s),
{
    lemma_bond_good_friday(gf, s);
    assert(cal.rules@[i].holds(s));
}

} // verus!

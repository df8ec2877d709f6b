//! New York Stock Exchange calendar.

use vstd::prelude::*;

use crate::calendar::Calendar;
use crate::date::{Date, Month, Ordinal, Weekday, Year, serial_of, weekday_of, year_start, ymd_of};
use crate::easter::EasterMethod;
use crate::rules::{CustomRule, EasterOffset, FixedDate, LastWeekday, NthWeekday, OneOff, Rule, WeekendShift};
use crate::weekend::Weekend;
use crate::year_range::YearRange;

verus! {

/// `true` iff serial `s` is a presidential election day the NYSE closed
/// for: the first Tuesday after the first Monday of November, every year
/// through 1968, then in 1972, 1976 and 1980.
pub open spec fn election_day_holds(s: int) -> bool {
    let t = ymd_of(s);
    &&& t.1 == 11
    &&& t.2 <= 7
    &&& weekday_of(s) == 2
    &&& (t.0 <= 1968 || (t.0 <= 1980 && t.0 % 4 == 0))
}

/// `true` iff serial `s` is one of the Wednesdays from June 12 1968 to the
/// end of that year, when the NYSE closed to clear its paperwork backlog.
pub open spec fn paperwork_crisis_1968_holds(s: int) -> bool {
    let y = ymd_of(s).0;
    &&& y == 1968
    &&& s - year_start(y) + 1 >= 163
    &&& weekday_of(s) == 3
}

/// Presidential election days observed by the NYSE.
pub fn election_day(d: Date) -> (r: bool)
    ensures
        r == election_day_holds(d@),
{
    let (y, m, day) = d.to_ymd();
    if m.get() != 11 {
        return false;
    }
    if day > 7 {
        return false;
    }
    if d.weekday().get() != 2 {
        return false;
    }
    let y = y.get();
    y <= 1968 || (y <= 1980 && y % 4 == 0)
}

/// The 1968 paperwork-crisis Wednesdays.
pub fn paperwork_crisis_1968(d: Date) -> (r: bool)
    ensures
        r == paperwork_crisis_1968_holds(d@),
{
    d.year().get() == 1968 && d.day_of_year() >= 163 && d.weekday().get() == 3
}

/// The New York stock exchange calendar: Saturday and Sunday weekends and the rules below.
pub fn nyse() -> (c: Calendar)
    ensures
        c.name@ == "New York stock exchange"@,
        forall|n: int| c.weekend.has(n) <==> (n == 6 || n == 7),
        c.rules@.len() == 40,
        ({
            let rules = c.rules@;
            &&& rules[0] matches Rule::Fixed(f) && f@ == (Month::Jan, 1int, WeekendShift::SunForward, (1901int, 2199int))
            &&& rules[1] matches Rule::NthWeekday(f) && f@ == (Ordinal::Third, Weekday::Mon, Month::Jan, (1998int, 2199int))
            &&& rules[2] matches Rule::Fixed(f) && f@ == (Month::Feb, 22int, WeekendShift::SatBackSunForward, (1901int, 1970int))
            &&& rules[3] matches Rule::NthWeekday(f) && f@ == (Ordinal::Third, Weekday::Mon, Month::Feb, (1971int, 2199int))
            &&& rules[4] matches Rule::Easter(f) && f@ == (-2int, EasterMethod::Western, (1901int, 2199int))
            &&& rules[5] matches Rule::Fixed(f) && f@ == (Month::May, 30int, WeekendShift::SatBackSunForward, (1901int, 1970int))
            &&& rules[6] matches Rule::LastWeekday(f) && f@ == (Weekday::Mon, Month::May, (1971int, 2199int))
            &&& rules[7] matches Rule::Fixed(f) && f@ == (Month::Jun, 19int, WeekendShift::SatBackSunForward, (2022int, 2199int))
            &&& rules[8] matches Rule::Fixed(f) && f@ == (Month::Jul, 4int, WeekendShift::SatBackSunForward, (1901int, 2199int))
            &&& rules[9] matches Rule::NthWeekday(f) && f@ == (Ordinal::First, Weekday::Mon, Month::Sep, (1901int, 2199int))
            &&& rules[10] matches Rule::NthWeekday(f) && f@ == (Ordinal::Fourth, Weekday::Thu, Month::Nov, (1901int, 2199int))
            &&& rules[11] matches Rule::Fixed(f) && f@ == (Month::Dec, 25int, WeekendShift::SatBackSunForward, (1901int, 2199int))
            &&& rules[12] == Rule::Custom(CustomRule::ElectionDay)
            &&& rules[13] matches Rule::Fixed(f) && f@ == (Month::Oct, 29int, WeekendShift::NoShift, (2012int, 2012int))
            &&& rules[14] matches Rule::Fixed(f) && f@ == (Month::Oct, 30int, WeekendShift::NoShift, (2012int, 2012int))
            &&& rules[15] matches Rule::Fixed(f) && f@ == (Month::Sep, 11int, WeekendShift::NoShift, (2001int, 2001int))
            &&& rules[16] matches Rule::Fixed(f) && f@ == (Month::Sep, 12int, WeekendShift::NoShift, (2001int, 2001int))
            &&& rules[17] matches Rule::Fixed(f) && f@ == (Month::Sep, 13int, WeekendShift::NoShift, (2001int, 2001int))
            &&& rules[18] matches Rule::Fixed(f) && f@ == (Month::Sep, 14int, WeekendShift::NoShift, (2001int, 2001int))
            &&& rules[19] matches Rule::OneOff(f) && f@ == serial_of(1954, 12, 24)
            &&& rules[20] matches Rule::OneOff(f) && f@ == serial_of(1956, 12, 24)
            &&& rules[21] matches Rule::OneOff(f) && f@ == serial_of(1958, 12, 26)
            &&& rules[22] matches Rule::OneOff(f) && f@ == serial_of(1961, 5, 29)
            &&& rules[23] matches Rule::OneOff(f) && f@ == serial_of(1963, 11, 25)
            &&& rules[24] matches Rule::OneOff(f) && f@ == serial_of(1965, 12, 24)
            &&& rules[25] matches Rule::OneOff(f) && f@ == serial_of(1968, 4, 9)
            &&& rules[26] matches Rule::OneOff(f) && f@ == serial_of(1968, 7, 5)
            &&& rules[27] matches Rule::OneOff(f) && f@ == serial_of(1969, 2, 10)
            &&& rules[28] matches Rule::OneOff(f) && f@ == serial_of(1969, 3, 31)
            &&& rules[29] matches Rule::OneOff(f) && f@ == serial_of(1969, 7, 21)
            &&& rules[30] matches Rule::OneOff(f) && f@ == serial_of(1972, 12, 28)
            &&& rules[31] matches Rule::OneOff(f) && f@ == serial_of(1973, 1, 25)
            &&& rules[32] matches Rule::OneOff(f) && f@ == serial_of(1977, 7, 14)
            &&& rules[33] matches Rule::OneOff(f) && f@ == serial_of(1985, 9, 27)
            &&& rules[34] matches Rule::OneOff(f) && f@ == serial_of(1994, 4, 27)
            &&& rules[35] matches Rule::OneOff(f) && f@ == serial_of(2004, 6, 11)
            &&& rules[36] matches Rule::OneOff(f) && f@ == serial_of(2007, 1, 2)
            &&& rules[37] matches Rule::OneOff(f) && f@ == serial_of(2018, 12, 5)
            &&& rules[38] matches Rule::OneOff(f) && f@ == serial_of(2025, 1, 9)
            &&& rules[39] == Rule::Custom(CustomRule::PaperworkCrisis1968)
        }),
{
    let mut rules: Vec<Rule> = Vec::new();
    rules.push(Rule::Fixed(FixedDate::new(Month::Jan, 1).shift(WeekendShift::SunForward)));
    rules.push(Rule::NthWeekday(NthWeekday::new(Ordinal::Third, Weekday::Mon, Month::Jan).from_year(Year::literal(1998))));
    rules.push(Rule::Fixed(FixedDate::new(Month::Feb, 22).shift(WeekendShift::SatBackSunForward).years(YearRange::literal_through(1970))));
    rules.push(Rule::NthWeekday(NthWeekday::new(Ordinal::Third, Weekday::Mon, Month::Feb).from_year(Year::literal(1971))));
    rules.push(Rule::Easter(EasterOffset::good_friday()));
    rules.push(Rule::Fixed(FixedDate::new(Month::May, 30).shift(WeekendShift::SatBackSunForward).years(YearRange::literal_through(1970))));
    rules.push(Rule::LastWeekday(LastWeekday::new(Weekday::Mon, Month::May).from_year(Year::literal(1971))));
    rules.push(Rule::Fixed(FixedDate::new(Month::Jun, 19).shift(WeekendShift::SatBackSunForward).from_year(Year::literal(2022))));
    rules.push(Rule::Fixed(FixedDate::new(Month::Jul, 4).shift(WeekendShift::SatBackSunForward)));
    rules.push(Rule::NthWeekday(NthWeekday::new(Ordinal::First, Weekday::Mon, Month::Sep)));
    rules.push(Rule::NthWeekday(NthWeekday::new(Ordinal::Fourth, Weekday::Thu, Month::Nov)));
    rules.push(Rule::Fixed(FixedDate::new(Month::Dec, 25).shift(WeekendShift::SatBackSunForward)));
    rules.push(Rule::Custom(CustomRule::ElectionDay));
    rules.push(Rule::Fixed(FixedDate::new(Month::Oct, 29).years(YearRange::literal_between(2012, 2012))));
    rules.push(Rule::Fixed(FixedDate::new(Month::Oct, 30).years(YearRange::literal_between(2012, 2012))));
    rules.push(Rule::Fixed(FixedDate::new(Month::Sep, 11).years(YearRange::literal_between(2001, 2001))));
    rules.push(Rule::Fixed(FixedDate::new(Month::Sep, 12).years(YearRange::literal_between(2001, 2001))));
    rules.push(Rule::Fixed(FixedDate::new(Month::Sep, 13).years(YearRange::literal_between(2001, 2001))));
    rules.push(Rule::Fixed(FixedDate::new(Month::Sep, 14).years(YearRange::literal_between(2001, 2001))));
    rules.push(Rule::OneOff(OneOff::new(Date::literal(1954, Month::Dec, 24))));
    rules.push(Rule::OneOff(OneOff::new(Date::literal(1956, Month::Dec, 24))));
    rules.push(Rule::OneOff(OneOff::new(Date::literal(1958, Month::Dec, 26))));
    rules.push(Rule::OneOff(OneOff::new(Date::literal(1961, Month::May, 29))));
    rules.push(Rule::OneOff(OneOff::new(Date::literal(1963, Month::Nov, 25))));
    rules.push(Rule::OneOff(OneOff::new(Date::literal(1965, Month::Dec, 24))));
    rules.push(Rule::OneOff(OneOff::new(Date::literal(1968, Month::Apr, 9))));
    rules.push(Rule::OneOff(OneOff::new(Date::literal(1968, Month::Jul, 5))));
    rules.push(Rule::OneOff(OneOff::new(Date::literal(1969, Month::Feb, 10))));
    rules.push(Rule::OneOff(OneOff::new(Date::literal(1969, Month::Mar, 31))));
    rules.push(Rule::OneOff(OneOff::new(Date::literal(1969, Month::Jul, 21))));
    rules.push(Rule::OneOff(OneOff::new(Date::literal(1972, Month::Dec, 28))));
    rules.push(Rule::OneOff(OneOff::new(Date::literal(1973, Month::Jan, 25))));
    rules.push(Rule::OneOff(OneOff::new(Date::literal(1977, Month::Jul, 14))));
    rules.push(Rule::OneOff(OneOff::new(Date::literal(1985, Month::Sep, 27))));
    rules.push(Rule::OneOff(OneOff::new(Date::literal(1994, Month::Apr, 27))));
    rules.push(Rule::OneOff(OneOff::new(Date::literal(2004, Month::Jun, 11))));
    rules.push(Rule::OneOff(OneOff::new(Date::literal(2007, Month::Jan, 2))));
    rules.push(Rule::OneOff(OneOff::new(Date::literal(2018, Month::Dec, 5))));
    rules.push(Rule::OneOff(OneOff::new(Date::literal(2025, Month::Jan, 9))));
    rules.push(Rule::Custom(CustomRule::PaperworkCrisis1968));
    Calendar { name: "New York stock exchange".to_owned(), weekend: Weekend::sat_sun(), rules }
}

/// NYSE election days by year: through 1968 every Tuesday in the first
/// seven days of November, whatever the year; from 1969 through 1980 only
/// in years divisible by four (1972, 1976, 1980); never after 1980.
pub proof fn lemma_election_days_by_year(s: int)
    requires
        crate::date::valid_serial(s),
    ensures
        ymd_of(s).0 <= 1968 ==> (election_day_holds(s) <==> (ymd_of(s).1 == 11 && 1 <= ymd_of(s).2
            <= 7 && weekday_of(s) == 2)),
        1968 < ymd_of(s).0 <= 1980 ==> (election_day_holds(s) <==> (ymd_of(s).0 % 4 == 0 && ymd_of(
            s,
        ).1 == 11 && 1 <= ymd_of(s).2 <= 7 && weekday_of(s) == 2)),
        ymd_of(s).0 > 1980 ==> !election_day_holds(s),
{
    crate::date::lemma_ymd_of(s);
}

/// A calendar with the election-day rule, as the NYSE calendar has, closes
/// on every November Tuesday of days 1 to 7 through 1968.
pub proof fn lemma_election_days_are_holidays(cal: &Calendar, i: int, s: int)
    requires
        0 <= i < cal.rules@.len(),
        cal.rules@[i] == Rule::Custom(CustomRule::ElectionDay),
        crate::date::valid_serial(s),
        ymd_of(s).0 <= 1968,
        ymd_of(s).1 == 11,
        ymd_of(s).2 <= 7,
        weekday_of(s) == 2,
    ensures
        cal.natural_at(s),
        cal.holiday_at(s),
{
    assert(cal.rules@[i].holds(s));
}

/// The NYSE's 1968 paperwork-crisis closings: exactly the Wednesdays of
/// 1968 from June 12 (a Wednesday) onwards.
pub proof fn lemma_paperwork_crisis_days(s: int)
    requires
        crate::date::valid_serial(s),
    ensures
        paperwork_crisis_1968_holds(s) <==> (ymd_of(s).0 == 1968 && weekday_of(s) == 3 && s
            >= serial_of(1968, 6, 12)),
{
    crate::date::lemma_ymd_of(s);
    let t = ymd_of(s);
    crate::date::lemma_serial_of_bounds(t.0, t.1, t.2);
    assert(serial_of(1968, 6, 12) == year_start(1968) + 163);
    assert(weekday_of(serial_of(1968, 6, 11)) == 2);
}

} // verus!

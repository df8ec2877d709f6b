# fasti

Dates, business-day calendars, schedules and day-count fractions for
financial code, written in Verus: every operation carries a contract
over an integer model of the calendar, and Verus proves the code meets it.

- Dates are serial day numbers from 1901-01-01 to 2199-12-31; the
  (year, month, day) view, weekdays, month ends and period arithmetic are
  specified over that serial.
- Holiday rules (fixed dates with weekend shifts, n-th and last weekdays,
  Easter offsets, one-off dates) and calendars built from them, with the
  built-in TARGET, UK, US and French calendars under `calendars`.
- Business-day conventions, `adjust` and `advance`, and schedule
  generation forward or backward with stubs and end-of-month rolling.
- Day counts returning exact reduced fractions: ACT/360, ACT/365F,
  ACT/ACT (ISDA), ACT/ACT (ICMA, plain or bound to a schedule) and the
  30/360 family.

Besides the per-function contracts, `src/` states the library's laws as
proof functions: round trips of dates through text, (year, month, day)
and chrono; additivity of the ACT-family conventions across splits
(including ACT/ACT (ICMA) bound to a schedule with stubs); sign reversal;
the idempotence and ordering facts of business-day adjustment; and the
Easter computus landing on the right weekday.

Layout: `src/` is the verified library, `tests/` its tests, and `app/`
the ordinary Rust around it (the `serde` and `thiserror` forms of the
library's types).

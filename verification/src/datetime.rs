//! The decisions of the runtime date and time formatter: which fields it
//! shows, at which length, in which calendar, with which time zone, and
//! whether the date and time it is given exist at all.
use vstd::prelude::*;
use crate::number::opt_str_v;
use crate::text::{push_str, str_eq, string_of};
use icu_calendar::{Date, Gregorian};
use icu_datetime::fieldsets::{zone, YMD, YMDE, YMDET, YMDT};
use icu_datetime::options::{Length, YearStyle};
use icu_datetime::options::TimePrecision::{Minute, Second};
use icu_datetime::{DateTimeFormatter, FixedCalendarDateTimeFormatter};
use icu_locale_core::Locale;
use icu_time::zone::TimeZoneInfo;
use icu_time::{DateTime, Time, TimeZone, ZonedDateTime};

verus! {

/// Length of the date fields (in the order of icu_datetime's `Length::VALUES`).
#[derive(Clone, Copy, Debug, PartialEq, Eq, Structural)]
pub enum DtLength {
    Long,
    Medium,
    Short,
}

/// How the year is shown (in the order of icu_datetime's `YearStyle::VALUES`).
#[derive(Clone, Copy, Debug, PartialEq, Eq, Structural)]
pub enum YearStyleV {
    Auto,
    Full,
    WithEra,
}

/// The smallest time field shown (minute first, as the renderers index
/// icu_datetime's time precisions by it).
#[derive(Clone, Copy, Debug, PartialEq, Eq, Structural)]
pub enum PrecisionV {
    Minute,
    Second,
}

/// How the time zone is named.
#[derive(Clone, Copy, Debug, PartialEq, Eq, Structural)]
pub enum ZoneStyle {
    SpecificShort,
    SpecificLong,
}

/// The date fields of a pattern: whether the weekday is shown, their
/// length, and the year style when one is asked for.
#[derive(Clone, Copy, Debug, PartialEq, Eq, Structural)]
pub struct DateFields {
    pub weekday: bool,
    pub length: DtLength,
    pub year_style: Option<YearStyleV>,
}

/// What the formatter writes. A date alone is written in the Gregorian
/// calendar; a date with a time, or with a zone, in the locale's calendar.
#[derive(Clone, Copy, Debug, PartialEq, Eq, Structural)]
pub enum DtPlan {
    /// Nothing: the date or the time does not exist.
    Nothing,
    Date { year: i32, month: u8, day: u8, fields: DateFields },
    DateTime { year: i32, month: u8, day: u8, hour: u8, minute: u8, second: u8, fields: DateFields,
        precision: PrecisionV },
    /// A date with a time zone, taken at midnight.
    ZonedDate { year: i32, month: u8, day: u8, fields: DateFields, zone: ZoneStyle },
    ZonedDateTime { year: i32, month: u8, day: u8, hour: u8, minute: u8, second: u8, fields: DateFields,
        precision: PrecisionV, zone: ZoneStyle },
}

// ---------------------------------------------------------------------
// Validity of dates and times
// ---------------------------------------------------------------------

/// A leap year of the proleptic Gregorian calendar.
pub open spec fn is_leap(y: int) -> bool {
    y % 4 == 0 && (y % 100 != 0 || y % 400 == 0)
}

pub open spec fn days_in_month(y: int, m: int) -> int {
    if m == 2 {
        if is_leap(y) { 29 } else { 28 }
    } else if m == 4 || m == 6 || m == 9 || m == 11 {
        30
    } else {
        31
    }
}

/// A Gregorian date that can be constructed: a year in `-9999..=9999`, a
/// month in `1..=12` and a day of that month.
pub open spec fn gregorian_valid(y: i32, m: u8, d: u8) -> bool {
    -9999 <= y <= 9999 && 1 <= m <= 12 && 1 <= d <= days_in_month(y as int, m as int)
}

/// A time of day that can be constructed (a second of 60 is a leap second).
pub open spec fn time_valid(h: u8, m: u8, s: u8) -> bool {
    h <= 23 && m <= 59 && s <= 60
}

/// `icu_calendar::Date::try_new_gregorian`: succeeds exactly for a year in
/// `-9999..=9999`, a month in `1..=12` and a day within that month (the
/// documented year range, and the month lengths of its source).
#[verifier::external_body]
fn gregorian_date_ok(y: i32, m: u8, d: u8) -> (res: bool)
    ensures
        res == gregorian_valid(y, m, d),
{
    icu_calendar::Date::try_new_gregorian(y, m, d).is_ok()
}

/// `icu_time::Time::try_new` with no nanoseconds: succeeds exactly when the
/// hour is at most 23, the minute at most 59 and the second at most 60
/// (the bounds of its unit types).
#[verifier::external_body]
fn time_ok(h: u8, m: u8, s: u8) -> (res: bool)
    ensures
        res == time_valid(h, m, s),
{
    icu_time::Time::try_new(h, m, s, 0).is_ok()
}

// ---------------------------------------------------------------------
// Rendering
// ---------------------------------------------------------------------

/// What `render_ymd` writes.
pub uninterp spec fn ymd_text(tag: Seq<char>, y: i32, m: u8, d: u8, l: DtLength, ys: Option<YearStyleV>) -> Seq<char>;

/// What `render_ymde` writes.
pub uninterp spec fn ymde_text(tag: Seq<char>, y: i32, m: u8, d: u8, l: DtLength, ys: Option<YearStyleV>) -> Seq<char>;

/// What `render_ymdt` writes.
pub uninterp spec fn ymdt_text(tag: Seq<char>, y: i32, m: u8, d: u8, h: u8, mi: u8, s: u8, l: DtLength, ys: Option<YearStyleV>, p: PrecisionV) -> Seq<char>;

/// What `render_ymdet` writes.
pub uninterp spec fn ymdet_text(tag: Seq<char>, y: i32, m: u8, d: u8, h: u8, mi: u8, s: u8, l: DtLength, ys: Option<YearStyleV>, p: PrecisionV) -> Seq<char>;

/// What `render_ymd_short` writes.
pub uninterp spec fn ymd_short_text(tag: Seq<char>, y: i32, m: u8, d: u8, l: DtLength, ys: Option<YearStyleV>, tz: Option<Seq<char>>) -> Seq<char>;

/// What `render_ymd_long` writes.
pub uninterp spec fn ymd_long_text(tag: Seq<char>, y: i32, m: u8, d: u8, l: DtLength, ys: Option<YearStyleV>, tz: Option<Seq<char>>) -> Seq<char>;

/// What `render_ymde_short` writes.
pub uninterp spec fn ymde_short_text(tag: Seq<char>, y: i32, m: u8, d: u8, l: DtLength, ys: Option<YearStyleV>, tz: Option<Seq<char>>) -> Seq<char>;

/// What `render_ymde_long` writes.
pub uninterp spec fn ymde_long_text(tag: Seq<char>, y: i32, m: u8, d: u8, l: DtLength, ys: Option<YearStyleV>, tz: Option<Seq<char>>) -> Seq<char>;

/// What `render_ymdt_short` writes.
pub uninterp spec fn ymdt_short_text(tag: Seq<char>, y: i32, m: u8, d: u8, h: u8, mi: u8, s: u8, l: DtLength, ys: Option<YearStyleV>, p: PrecisionV, tz: Option<Seq<char>>) -> Seq<char>;

/// What `render_ymdt_long` writes.
pub uninterp spec fn ymdt_long_text(tag: Seq<char>, y: i32, m: u8, d: u8, h: u8, mi: u8, s: u8, l: DtLength, ys: Option<YearStyleV>, p: PrecisionV, tz: Option<Seq<char>>) -> Seq<char>;

/// What `render_ymdet_short` writes.
pub uninterp spec fn ymdet_short_text(tag: Seq<char>, y: i32, m: u8, d: u8, h: u8, mi: u8, s: u8, l: DtLength, ys: Option<YearStyleV>, p: PrecisionV, tz: Option<Seq<char>>) -> Seq<char>;

/// What `render_ymdet_long` writes.
pub uninterp spec fn ymdet_long_text(tag: Seq<char>, y: i32, m: u8, d: u8, h: u8, mi: u8, s: u8, l: DtLength, ys: Option<YearStyleV>, p: PrecisionV, tz: Option<Seq<char>>) -> Seq<char>;

/// The text that icu_datetime's `FixedCalendarDateTimeFormatter` over the Gregorian calendar writes
/// for the `YMD` field set (year, month and day) at length `l` and year
/// style `ys`, for the date,
/// and for the locale `tag` (the default locale when the tag does not parse):
/// named by `ymd_text`. The date and time must exist; with compiled data
/// building the formatter does not fail.
#[verifier::external_body]
fn render_ymd(tag: &str, y: i32, m: u8, d: u8, l: DtLength, ys: Option<YearStyleV>) -> (res: String)
    requires
        gregorian_valid(y, m, d),
    ensures
        res@ == ymd_text(tag@, y, m, d, l, ys),
{
    let date = Date::try_new_gregorian(y, m, d).unwrap();
    let mut fs = YMD::for_length(Length::VALUES[l as usize]);
    fs.year_style = ys.map(|v| YearStyle::VALUES[v as usize]);
    FixedCalendarDateTimeFormatter::<Gregorian, _>::try_new(Locale::try_from_str(tag).map(Into::into).unwrap_or_default(), fs).unwrap().format(&date).to_string()
}

/// The text that icu_datetime's `FixedCalendarDateTimeFormatter` over the Gregorian calendar writes
/// for the `YMDE` field set (year, month, day and weekday) at length `l` and year
/// style `ys`, for the date,
/// and for the locale `tag` (the default locale when the tag does not parse):
/// named by `ymde_text`. The date and time must exist; with compiled data
/// building the formatter does not fail.
#[verifier::external_body]
fn render_ymde(tag: &str, y: i32, m: u8, d: u8, l: DtLength, ys: Option<YearStyleV>) -> (res: String)
    requires
        gregorian_valid(y, m, d),
    ensures
        res@ == ymde_text(tag@, y, m, d, l, ys),
{
    let date = Date::try_new_gregorian(y, m, d).unwrap();
    let mut fs = YMDE::for_length(Length::VALUES[l as usize]);
    fs.year_style = ys.map(|v| YearStyle::VALUES[v as usize]);
    FixedCalendarDateTimeFormatter::<Gregorian, _>::try_new(Locale::try_from_str(tag).map(Into::into).unwrap_or_default(), fs).unwrap().format(&date).to_string()
}

/// The text that icu_datetime's `DateTimeFormatter` (in the locale's calendar) writes
/// for the `YMDT` field set (year, month, day and time) at length `l` and year
/// style `ys`, for the date and time, to the second or the minute by `p`,
/// and for the locale `tag` (the default locale when the tag does not parse):
/// named by `ymdt_text`. The date and time must exist; with compiled data
/// building the formatter does not fail.
#[verifier::external_body]
fn render_ymdt(tag: &str, y: i32, m: u8, d: u8, h: u8, mi: u8, s: u8, l: DtLength, ys: Option<YearStyleV>, p: PrecisionV) -> (res: String)
    requires
        gregorian_valid(y, m, d),
        time_valid(h, mi, s),
    ensures
        res@ == ymdt_text(tag@, y, m, d, h, mi, s, l, ys, p),
{
    let dt = DateTime { date: Date::try_new_gregorian(y, m, d).unwrap(), time: Time::try_new(h, mi, s, 0).unwrap() };
    let mut fs = YMDT::for_length(Length::VALUES[l as usize]).with_time_precision([Minute, Second][p as usize]);
    fs.year_style = ys.map(|v| YearStyle::VALUES[v as usize]);
    DateTimeFormatter::try_new(Locale::try_from_str(tag).map(Into::into).unwrap_or_default(), fs).unwrap().format(&dt).to_string()
}

/// The text that icu_datetime's `DateTimeFormatter` (in the locale's calendar) writes
/// for the `YMDET` field set (year, month, day, weekday and time) at length `l` and year
/// style `ys`, for the date and time, to the second or the minute by `p`,
/// and for the locale `tag` (the default locale when the tag does not parse):
/// named by `ymdet_text`. The date and time must exist; with compiled data
/// building the formatter does not fail.
#[verifier::external_body]
fn render_ymdet(tag: &str, y: i32, m: u8, d: u8, h: u8, mi: u8, s: u8, l: DtLength, ys: Option<YearStyleV>, p: PrecisionV) -> (res: String)
    requires
        gregorian_valid(y, m, d),
        time_valid(h, mi, s),
    ensures
        res@ == ymdet_text(tag@, y, m, d, h, mi, s, l, ys, p),
{
    let dt = DateTime { date: Date::try_new_gregorian(y, m, d).unwrap(), time: Time::try_new(h, mi, s, 0).unwrap() };
    let mut fs = YMDET::for_length(Length::VALUES[l as usize]).with_time_precision([Minute, Second][p as usize]);
    fs.year_style = ys.map(|v| YearStyle::VALUES[v as usize]);
    DateTimeFormatter::try_new(Locale::try_from_str(tag).map(Into::into).unwrap_or_default(), fs).unwrap().format(&dt).to_string()
}

/// The text that icu_datetime's `DateTimeFormatter` (in the locale's calendar) writes
/// for the `YMD` field set (year, month and day) at length `l` and year
/// style `ys`, for the date at midnight,
/// in the time zone `tz` (UTC when none), the zone named in its specific short form,
/// and for the locale `tag` (the default locale when the tag does not parse):
/// named by `ymd_short_text`. The date and time must exist; with compiled data
/// building the formatter does not fail.
#[verifier::external_body]
fn render_ymd_short(tag: &str, y: i32, m: u8, d: u8, l: DtLength, ys: Option<YearStyleV>, tz: Option<&str>) -> (res: String)
    requires
        gregorian_valid(y, m, d),
    ensures
        res@ == ymd_short_text(tag@, y, m, d, l, ys, opt_str_v(tz)),
{
    let (date, time) = (Date::try_new_gregorian(y, m, d).unwrap(), Time::start_of_day());
    let zone = tz.map_or(TimeZoneInfo::utc(), |id| TimeZone::from_iana_id(id).without_offset());
    let zd = ZonedDateTime { date, time, zone: zone.at_date_time(DateTime { date, time }) };
    let mut fs = YMD::for_length(Length::VALUES[l as usize]);
    fs.year_style = ys.map(|v| YearStyle::VALUES[v as usize]);
    DateTimeFormatter::try_new(Locale::try_from_str(tag).map(Into::into).unwrap_or_default(), fs.with_zone(zone::SpecificShort)).unwrap().format(&zd).to_string()
}

/// The text that icu_datetime's `DateTimeFormatter` (in the locale's calendar) writes
/// for the `YMD` field set (year, month and day) at length `l` and year
/// style `ys`, for the date at midnight,
/// in the time zone `tz` (UTC when none), the zone named in its specific long form,
/// and for the locale `tag` (the default locale when the tag does not parse):
/// named by `ymd_long_text`. The date and time must exist; with compiled data
/// building the formatter does not fail.
#[verifier::external_body]
fn render_ymd_long(tag: &str, y: i32, m: u8, d: u8, l: DtLength, ys: Option<YearStyleV>, tz: Option<&str>) -> (res: String)
    requires
        gregorian_valid(y, m, d),
    ensures
        res@ == ymd_long_text(tag@, y, m, d, l, ys, opt_str_v(tz)),
{
    let (date, time) = (Date::try_new_gregorian(y, m, d).unwrap(), Time::start_of_day());
    let zone = tz.map_or(TimeZoneInfo::utc(), |id| TimeZone::from_iana_id(id).without_offset());
    let zd = ZonedDateTime { date, time, zone: zone.at_date_time(DateTime { date, time }) };
    let mut fs = YMD::for_length(Length::VALUES[l as usize]);
    fs.year_style = ys.map(|v| YearStyle::VALUES[v as usize]);
    DateTimeFormatter::try_new(Locale::try_from_str(tag).map(Into::into).unwrap_or_default(), fs.with_zone(zone::SpecificLong)).unwrap().format(&zd).to_string()
}

/// The text that icu_datetime's `DateTimeFormatter` (in the locale's calendar) writes
/// for the `YMDE` field set (year, month, day and weekday) at length `l` and year
/// style `ys`, for the date at midnight,
/// in the time zone `tz` (UTC when none), the zone named in its specific short form,
/// and for the locale `tag` (the default locale when the tag does not parse):
/// named by `ymde_short_text`. The date and time must exist; with compiled data
/// building the formatter does not fail.
#[verifier::external_body]
fn render_ymde_short(tag: &str, y: i32, m: u8, d: u8, l: DtLength, ys: Option<YearStyleV>, tz: Option<&str>) -> (res: String)
    requires
        gregorian_valid(y, m, d),
    ensures
        res@ == ymde_short_text(tag@, y, m, d, l, ys, opt_str_v(tz)),
{
    let (date, time) = (Date::try_new_gregorian(y, m, d).unwrap(), Time::start_of_day());
    let zone = tz.map_or(TimeZoneInfo::utc(), |id| TimeZone::from_iana_id(id).without_offset());
    let zd = ZonedDateTime { date, time, zone: zone.at_date_time(DateTime { date, time }) };
    let mut fs = YMDE::for_length(Length::VALUES[l as usize]);
    fs.year_style = ys.map(|v| YearStyle::VALUES[v as usize]);
    DateTimeFormatter::try_new(Locale::try_from_str(tag).map(Into::into).unwrap_or_default(), fs.with_zone(zone::SpecificShort)).unwrap().format(&zd).to_string()
}

/// The text that icu_datetime's `DateTimeFormatter` (in the locale's calendar) writes
/// for the `YMDE` field set (year, month, day and weekday) at length `l` and year
/// style `ys`, for the date at midnight,
/// in the time zone `tz` (UTC when none), the zone named in its specific long form,
/// and for the locale `tag` (the default locale when the tag does not parse):
/// named by `ymde_long_text`. The date and time must exist; with compiled data
/// building the formatter does not fail.
#[verifier::external_body]
fn render_ymde_long(tag: &str, y: i32, m: u8, d: u8, l: DtLength, ys: Option<YearStyleV>, tz: Option<&str>) -> (res: String)
    requires
        gregorian_valid(y, m, d),
    ensures
        res@ == ymde_long_text(tag@, y, m, d, l, ys, opt_str_v(tz)),
{
    let (date, time) = (Date::try_new_gregorian(y, m, d).unwrap(), Time::start_of_day());
    let zone = tz.map_or(TimeZoneInfo::utc(), |id| TimeZone::from_iana_id(id).without_offset());
    let zd = ZonedDateTime { date, time, zone: zone.at_date_time(DateTime { date, time }) };
    let mut fs = YMDE::for_length(Length::VALUES[l as usize]);
    fs.year_style = ys.map(|v| YearStyle::VALUES[v as usize]);
    DateTimeFormatter::try_new(Locale::try_from_str(tag).map(Into::into).unwrap_or_default(), fs.with_zone(zone::SpecificLong)).unwrap().format(&zd).to_string()
}

/// The text that icu_datetime's `DateTimeFormatter` (in the locale's calendar) writes
/// for the `YMDT` field set (year, month, day and time) at length `l` and year
/// style `ys`, for the date and time, to the second or the minute by `p`,
/// in the time zone `tz` (UTC when none), the zone named in its specific short form,
/// and for the locale `tag` (the default locale when the tag does not parse):
/// named by `ymdt_short_text`. The date and time must exist; with compiled data
/// building the formatter does not fail.
#[verifier::external_body]
fn render_ymdt_short(tag: &str, y: i32, m: u8, d: u8, h: u8, mi: u8, s: u8, l: DtLength, ys: Option<YearStyleV>, p: PrecisionV, tz: Option<&str>) -> (res: String)
    requires
        gregorian_valid(y, m, d),
        time_valid(h, mi, s),
    ensures
        res@ == ymdt_short_text(tag@, y, m, d, h, mi, s, l, ys, p, opt_str_v(tz)),
{
    let (date, time) = (Date::try_new_gregorian(y, m, d).unwrap(), Time::try_new(h, mi, s, 0).unwrap());
    let zone = tz.map_or(TimeZoneInfo::utc(), |id| TimeZone::from_iana_id(id).without_offset());
    let zd = ZonedDateTime { date, time, zone: zone.at_date_time(DateTime { date, time }) };
    let mut fs = YMDT::for_length(Length::VALUES[l as usize]).with_time_precision([Minute, Second][p as usize]);
    fs.year_style = ys.map(|v| YearStyle::VALUES[v as usize]);
    DateTimeFormatter::try_new(Locale::try_from_str(tag).map(Into::into).unwrap_or_default(), fs.with_zone(zone::SpecificShort)).unwrap().format(&zd).to_string()
}

/// The text that icu_datetime's `DateTimeFormatter` (in the locale's calendar) writes
/// for the `YMDT` field set (year, month, day and time) at length `l` and year
/// style `ys`, for the date and time, to the second or the minute by `p`,
/// in the time zone `tz` (UTC when none), the zone named in its specific long form,
/// and for the locale `tag` (the default locale when the tag does not parse):
/// named by `ymdt_long_text`. The date and time must exist; with compiled data
/// building the formatter does not fail.
#[verifier::external_body]
fn render_ymdt_long(tag: &str, y: i32, m: u8, d: u8, h: u8, mi: u8, s: u8, l: DtLength, ys: Option<YearStyleV>, p: PrecisionV, tz: Option<&str>) -> (res: String)
    requires
        gregorian_valid(y, m, d),
        time_valid(h, mi, s),
    ensures
        res@ == ymdt_long_text(tag@, y, m, d, h, mi, s, l, ys, p, opt_str_v(tz)),
{
    let (date, time) = (Date::try_new_gregorian(y, m, d).unwrap(), Time::try_new(h, mi, s, 0).unwrap());
    let zone = tz.map_or(TimeZoneInfo::utc(), |id| TimeZone::from_iana_id(id).without_offset());
    let zd = ZonedDateTime { date, time, zone: zone.at_date_time(DateTime { date, time }) };
    let mut fs = YMDT::for_length(Length::VALUES[l as usize]).with_time_precision([Minute, Second][p as usize]);
    fs.year_style = ys.map(|v| YearStyle::VALUES[v as usize]);
    DateTimeFormatter::try_new(Locale::try_from_str(tag).map(Into::into).unwrap_or_default(), fs.with_zone(zone::SpecificLong)).unwrap().format(&zd).to_string()
}

/// The text that icu_datetime's `DateTimeFormatter` (in the locale's calendar) writes
/// for the `YMDET` field set (year, month, day, weekday and time) at length `l` and year
/// style `ys`, for the date and time, to the second or the minute by `p`,
/// in the time zone `tz` (UTC when none), the zone named in its specific short form,
/// and for the locale `tag` (the default locale when the tag does not parse):
/// named by `ymdet_short_text`. The date and time must exist; with compiled data
/// building the formatter does not fail.
#[verifier::external_body]
fn render_ymdet_short(tag: &str, y: i32, m: u8, d: u8, h: u8, mi: u8, s: u8, l: DtLength, ys: Option<YearStyleV>, p: PrecisionV, tz: Option<&str>) -> (res: String)
    requires
        gregorian_valid(y, m, d),
        time_valid(h, mi, s),
    ensures
        res@ == ymdet_short_text(tag@, y, m, d, h, mi, s, l, ys, p, opt_str_v(tz)),
{
    let (date, time) = (Date::try_new_gregorian(y, m, d).unwrap(), Time::try_new(h, mi, s, 0).unwrap());
    let zone = tz.map_or(TimeZoneInfo::utc(), |id| TimeZone::from_iana_id(id).without_offset());
    let zd = ZonedDateTime { date, time, zone: zone.at_date_time(DateTime { date, time }) };
    let mut fs = YMDET::for_length(Length::VALUES[l as usize]).with_time_precision([Minute, Second][p as usize]);
    fs.year_style = ys.map(|v| YearStyle::VALUES[v as usize]);
    DateTimeFormatter::try_new(Locale::try_from_str(tag).map(Into::into).unwrap_or_default(), fs.with_zone(zone::SpecificShort)).unwrap().format(&zd).to_string()
}

/// The text that icu_datetime's `DateTimeFormatter` (in the locale's calendar) writes
/// for the `YMDET` field set (year, month, day, weekday and time) at length `l` and year
/// style `ys`, for the date and time, to the second or the minute by `p`,
/// in the time zone `tz` (UTC when none), the zone named in its specific long form,
/// and for the locale `tag` (the default locale when the tag does not parse):
/// named by `ymdet_long_text`. The date and time must exist; with compiled data
/// building the formatter does not fail.
#[verifier::external_body]
fn render_ymdet_long(tag: &str, y: i32, m: u8, d: u8, h: u8, mi: u8, s: u8, l: DtLength, ys: Option<YearStyleV>, p: PrecisionV, tz: Option<&str>) -> (res: String)
    requires
        gregorian_valid(y, m, d),
        time_valid(h, mi, s),
    ensures
        res@ == ymdet_long_text(tag@, y, m, d, h, mi, s, l, ys, p, opt_str_v(tz)),
{
    let (date, time) = (Date::try_new_gregorian(y, m, d).unwrap(), Time::try_new(h, mi, s, 0).unwrap());
    let zone = tz.map_or(TimeZoneInfo::utc(), |id| TimeZone::from_iana_id(id).without_offset());
    let zd = ZonedDateTime { date, time, zone: zone.at_date_time(DateTime { date, time }) };
    let mut fs = YMDET::for_length(Length::VALUES[l as usize]).with_time_precision([Minute, Second][p as usize]);
    fs.year_style = ys.map(|v| YearStyle::VALUES[v as usize]);
    DateTimeFormatter::try_new(Locale::try_from_str(tag).map(Into::into).unwrap_or_default(), fs.with_zone(zone::SpecificLong)).unwrap().format(&zd).to_string()
}

// ---------------------------------------------------------------------
// The plan
// ---------------------------------------------------------------------

pub open spec fn length_word(s: Seq<char>) -> Option<DtLength> {
    if s == "long"@ {
        Some(DtLength::Long)
    } else if s == "short"@ || s == "narrow"@ || s == "2-digit"@ {
        Some(DtLength::Short)
    } else {
        None
    }
}

/// The length of the date fields: that named by the first of the year,
/// month, day and weekday options that names one (`long`; `short`,
/// `narrow` or `2-digit` for short), medium when none does.
pub open spec fn pick_length_spec(opts: Seq<Option<Seq<char>>>) -> DtLength
    decreases opts.len(),
{
    if opts.len() == 0 {
        DtLength::Medium
    } else {
        match opts[0] {
            Some(s) => match length_word(s) {
                Some(l) => l,
                None => pick_length_spec(opts.drop_first()),
            },
            None => pick_length_spec(opts.drop_first()),
        }
    }
}

/// A long era asks for at least a long date.
pub open spec fn era_length(era: Option<Seq<char>>, l: DtLength) -> DtLength {
    match era {
        Some(e) => if e == "long"@ && l != DtLength::Long { DtLength::Long } else { l },
        None => l,
    }
}

/// The year style an era option asks for.
pub open spec fn year_style_spec(era: Option<Seq<char>>) -> Option<YearStyleV> {
    match era {
        Some(e) => Some(if e == "long"@ {
            YearStyleV::Full
        } else if e == "short"@ {
            YearStyleV::WithEra
        } else {
            YearStyleV::Auto
        }),
        None => None,
    }
}

/// Date and time lengths of the style options.
pub open spec fn style_pair(ds: Seq<char>, ts: Seq<char>) -> (DtLength, PrecisionV) {
    if ds == "long"@ {
        if ts == "long"@ { (DtLength::Long, PrecisionV::Second) } else { (DtLength::Long, PrecisionV::Minute) }
    } else if ds == "short"@ {
        if ts == "short"@ { (DtLength::Short, PrecisionV::Minute) } else { (DtLength::Short, PrecisionV::Second) }
    } else {
        (DtLength::Medium, PrecisionV::Second)
    }
}

pub open spec fn date_style_length(ds: Seq<char>) -> DtLength {
    if ds == "long"@ {
        DtLength::Long
    } else if ds == "short"@ {
        DtLength::Short
    } else {
        DtLength::Medium
    }
}

pub open spec fn zone_style_spec(tz_name: Option<Seq<char>>) -> ZoneStyle {
    if tz_name == Some("short"@) { ZoneStyle::SpecificShort } else { ZoneStyle::SpecificLong }
}

/// The date, time and zone parts of a plan put together.
pub open spec fn plan_of(y: i32, mo: u8, d: u8, time: Option<(u8, u8, u8)>, f: DateFields, p: PrecisionV,
    zone: Option<ZoneStyle>) -> DtPlan
{
    match (time, zone) {
        (None, None) => DtPlan::Date { year: y, month: mo, day: d, fields: f },
        (Some(t), None) => DtPlan::DateTime { year: y, month: mo, day: d, hour: t.0, minute: t.1, second: t.2,
            fields: f, precision: p },
        (None, Some(z)) => DtPlan::ZonedDate { year: y, month: mo, day: d, fields: f, zone: z },
        (Some(t), Some(z)) => DtPlan::ZonedDateTime { year: y, month: mo, day: d, hour: t.0, minute: t.1,
            second: t.2, fields: f, precision: p, zone: z },
    }
}

/// The options of a `DATETIME()` call, as its generated code passes them.
pub struct DtOptions<'a> {
    pub year: Option<i64>,
    pub month: Option<i64>,
    pub day: Option<i64>,
    pub hour: Option<i64>,
    pub minute: Option<i64>,
    pub second: Option<i64>,
    pub date_style: Option<&'a str>,
    pub time_style: Option<&'a str>,
    pub weekday: Option<&'a str>,
    pub era: Option<&'a str>,
    pub year_format: Option<&'a str>,
    pub month_format: Option<&'a str>,
    pub day_format: Option<&'a str>,
    pub hour_format: Option<&'a str>,
    pub minute_format: Option<&'a str>,
    pub second_format: Option<&'a str>,
    pub time_zone_name: Option<&'a str>,
    pub hour12: Option<bool>,
    pub time_zone: Option<&'a str>,
}

pub open spec fn opt_or(o: Option<i64>, d: i64) -> i64 {
    match o {
        Some(v) => v,
        None => d,
    }
}

/// The date the options name: a missing year is 0, a missing month or day
/// is 1, each cut to the width the calendar takes.
pub open spec fn date_parts(o: DtOptions) -> (i32, u8, u8) {
    (opt_or(o.year, 0) as i32, opt_or(o.month, 1) as u8, opt_or(o.day, 1) as u8)
}

/// The time the options name, missing fields being 0.
pub open spec fn time_parts(o: DtOptions) -> (u8, u8, u8) {
    (opt_or(o.hour, 0) as u8, opt_or(o.minute, 0) as u8, opt_or(o.second, 0) as u8)
}

/// Whether any field option (rather than a style) is given.
pub open spec fn has_individual(o: DtOptions) -> bool {
    o.year_format is Some || o.month_format is Some || o.day_format is Some || o.weekday is Some
        || o.era is Some || o.hour_format is Some || o.minute_format is Some || o.second_format is Some
}

pub open spec fn has_time(o: DtOptions) -> bool {
    o.hour is Some || o.minute is Some || o.second is Some
}

pub open spec fn has_zone(o: DtOptions) -> bool {
    o.time_zone_name is Some || o.time_zone is Some
}

/// What the formatter writes for a set of options.
///
/// With field options: the date fields at the length the options ask
/// for, with the weekday when one is asked for; the time too when a time
/// field or a time option is given, to the second when seconds are asked
/// for; the zone when one is. With styles only (medium by default): the
/// date at the date style, the time too when a time field or a time style
/// is given. A date or time that does not exist gives nothing.
pub open spec fn plan_spec(o: DtOptions) -> DtPlan {
    let (y, mo, d) = date_parts(o);
    let (h, mi, s) = time_parts(o);
    let zone = if has_zone(o) { Some(zone_style_spec(opt_str_v(o.time_zone_name))) } else { None };
    if !gregorian_valid(y, mo, d) {
        DtPlan::Nothing
    } else if has_individual(o) {
        let l = era_length(opt_str_v(o.era), pick_length_spec(seq![opt_str_v(o.year_format),
            opt_str_v(o.month_format), opt_str_v(o.day_format), opt_str_v(o.weekday)]));
        let f = DateFields { weekday: o.weekday is Some, length: l, year_style: year_style_spec(opt_str_v(o.era)) };
        let p = if o.second_format is Some { PrecisionV::Second } else { PrecisionV::Minute };
        if has_time(o) || o.hour_format is Some || o.minute_format is Some || o.second_format is Some {
            if time_valid(h, mi, s) { plan_of(y, mo, d, Some((h, mi, s)), f, p, zone) } else { DtPlan::Nothing }
        } else {
            plan_of(y, mo, d, None, f, p, zone)
        }
    } else {
        let ds = match opt_str_v(o.date_style) { Some(x) => x, None => "medium"@ };
        let ts = match opt_str_v(o.time_style) { Some(x) => x, None => "medium"@ };
        if has_time(o) || o.time_style is Some {
            let (l, p) = style_pair(ds, ts);
            let f = DateFields { weekday: false, length: l, year_style: None };
            if time_valid(h, mi, s) { plan_of(y, mo, d, Some((h, mi, s)), f, p, zone) } else { DtPlan::Nothing }
        } else {
            let f = DateFields { weekday: false, length: date_style_length(ds), year_style: None };
            plan_of(y, mo, d, None, f, PrecisionV::Minute, zone)
        }
    }
}

fn length_word_exec(s: &str) -> (res: Option<DtLength>)
    ensures
        res == length_word(s@),
{
    if str_eq(s, "long") {
        Some(DtLength::Long)
    } else if str_eq(s, "short") || str_eq(s, "narrow") || str_eq(s, "2-digit") {
        Some(DtLength::Short)
    } else {
        None
    }
}

/// The length of the date fields named by the year, month, day and
/// weekday options.
pub fn pick_length(yf: Option<&str>, mf: Option<&str>, df: Option<&str>, wd: Option<&str>) -> (res: DtLength)
    ensures
        res == pick_length_spec(seq![opt_str_v(yf), opt_str_v(mf), opt_str_v(df), opt_str_v(wd)]),
{
    let ghost opts = seq![opt_str_v(yf), opt_str_v(mf), opt_str_v(df), opt_str_v(wd)];
    proof {
        reveal_with_fuel(pick_length_spec, 5);
    }
    assert(opts.drop_first() =~= seq![opt_str_v(mf), opt_str_v(df), opt_str_v(wd)]);
    assert(opts.drop_first().drop_first() =~= seq![opt_str_v(df), opt_str_v(wd)]);
    assert(opts.drop_first().drop_first().drop_first() =~= seq![opt_str_v(wd)]);
    assert(opts.drop_first().drop_first().drop_first().drop_first() =~= Seq::<Option<Seq<char>>>::empty());
    if let Some(s) = yf {
        if let Some(l) = length_word_exec(s) {
            return l;
        }
    }
    if let Some(s) = mf {
        if let Some(l) = length_word_exec(s) {
            return l;
        }
    }
    if let Some(s) = df {
        if let Some(l) = length_word_exec(s) {
            return l;
        }
    }
    if let Some(s) = wd {
        if let Some(l) = length_word_exec(s) {
            return l;
        }
    }
    DtLength::Medium
}

/// Date length and time precision of a date style and a time style.
pub fn style_lengths(ds: &str, ts: &str) -> (res: (DtLength, PrecisionV))
    ensures
        res == style_pair(ds@, ts@),
{
    if str_eq(ds, "long") {
        if str_eq(ts, "long") { (DtLength::Long, PrecisionV::Second) } else { (DtLength::Long, PrecisionV::Minute) }
    } else if str_eq(ds, "short") {
        if str_eq(ts, "short") { (DtLength::Short, PrecisionV::Minute) } else { (DtLength::Short, PrecisionV::Second) }
    } else {
        (DtLength::Medium, PrecisionV::Second)
    }
}

fn date_style_length_exec(ds: &str) -> (res: DtLength)
    ensures
        res == date_style_length(ds@),
{
    if str_eq(ds, "long") {
        DtLength::Long
    } else if str_eq(ds, "short") {
        DtLength::Short
    } else {
        DtLength::Medium
    }
}

fn year_style_of(era: Option<&str>) -> (res: Option<YearStyleV>)
    ensures
        res == year_style_spec(opt_str_v(era)),
{
    match era {
        Some(e) => Some(if str_eq(e, "long") {
            YearStyleV::Full
        } else if str_eq(e, "short") {
            YearStyleV::WithEra
        } else {
            YearStyleV::Auto
        }),
        None => None,
    }
}

fn era_length_exec(era: Option<&str>, l: DtLength) -> (res: DtLength)
    ensures
        res == era_length(opt_str_v(era), l),
{
    match era {
        Some(e) => if str_eq(e, "long") && l != DtLength::Long { DtLength::Long } else { l },
        None => l,
    }
}

fn plan_of_exec(y: i32, mo: u8, d: u8, time: Option<(u8, u8, u8)>, f: DateFields, p: PrecisionV,
    zone: Option<ZoneStyle>) -> (res: DtPlan)
    ensures
        res == plan_of(y, mo, d, time, f, p, zone),
{
    match (time, zone) {
        (None, None) => DtPlan::Date { year: y, month: mo, day: d, fields: f },
        (Some(t), None) => DtPlan::DateTime { year: y, month: mo, day: d, hour: t.0, minute: t.1, second: t.2,
            fields: f, precision: p },
        (None, Some(z)) => DtPlan::ZonedDate { year: y, month: mo, day: d, fields: f, zone: z },
        (Some(t), Some(z)) => DtPlan::ZonedDateTime { year: y, month: mo, day: d, hour: t.0, minute: t.1,
            second: t.2, fields: f, precision: p, zone: z },
    }
}

fn opt_or_exec(o: Option<i64>, d: i64) -> (res: i64)
    ensures
        res == opt_or(o, d),
{
    match o {
        Some(v) => v,
        None => d,
    }
}

/// Decides what the formatter writes for a set of options.
pub fn plan_datetime(o: &DtOptions) -> (res: DtPlan)
    ensures
        res == plan_spec(*o),
{
    proof {
        reveal_strlit("medium");
        reveal_strlit("short");
    }
    let y = opt_or_exec(o.year, 0) as i32;
    let mo = opt_or_exec(o.month, 1) as u8;
    let d = opt_or_exec(o.day, 1) as u8;
    let h = opt_or_exec(o.hour, 0) as u8;
    let mi = opt_or_exec(o.minute, 0) as u8;
    let s = opt_or_exec(o.second, 0) as u8;
    let zone = if o.time_zone_name.is_some() || o.time_zone.is_some() {
        let short = match o.time_zone_name {
            Some(n) => str_eq(n, "short"),
            None => false,
        };
        Some(if short { ZoneStyle::SpecificShort } else { ZoneStyle::SpecificLong })
    } else {
        None
    };
    if !gregorian_date_ok(y, mo, d) {
        return DtPlan::Nothing;
    }
    let individual = o.year_format.is_some() || o.month_format.is_some() || o.day_format.is_some()
        || o.weekday.is_some() || o.era.is_some() || o.hour_format.is_some() || o.minute_format.is_some()
        || o.second_format.is_some();
    let time_given = o.hour.is_some() || o.minute.is_some() || o.second.is_some();
    if individual {
        let l = era_length_exec(o.era, pick_length(o.year_format, o.month_format, o.day_format, o.weekday));
        let f = DateFields { weekday: o.weekday.is_some(), length: l, year_style: year_style_of(o.era) };
        let p = if o.second_format.is_some() { PrecisionV::Second } else { PrecisionV::Minute };
        if time_given || o.hour_format.is_some() || o.minute_format.is_some() || o.second_format.is_some() {
            if time_ok(h, mi, s) { plan_of_exec(y, mo, d, Some((h, mi, s)), f, p, zone) } else { DtPlan::Nothing }
        } else {
            plan_of_exec(y, mo, d, None, f, p, zone)
        }
    } else {
        let ds = match o.date_style { Some(x) => x, None => "medium" };
        let ts = match o.time_style { Some(x) => x, None => "medium" };
        if time_given || o.time_style.is_some() {
            let (l, p) = style_lengths(ds, ts);
            let f = DateFields { weekday: false, length: l, year_style: None };
            if time_ok(h, mi, s) { plan_of_exec(y, mo, d, Some((h, mi, s)), f, p, zone) } else { DtPlan::Nothing }
        } else {
            let f = DateFields { weekday: false, length: date_style_length_exec(ds), year_style: None };
            plan_of_exec(y, mo, d, None, f, PrecisionV::Minute, zone)
        }
    }
}

/// The locale tag the formatter is built for: with `hour12` set, the tag
/// asks for a 12-hour (`-u-hc-h12`) or 24-hour (`-u-hc-h23`) clock.
pub fn datetime_locale_tag(locale: &str, hour12: Option<bool>) -> (res: String)
    ensures
        res@ == locale_tag_spec(locale@, hour12),
{
    let mut res = string_of(locale);
    match hour12 {
        Some(true) => push_str(&mut res, "-u-hc-h12"),
        Some(false) => push_str(&mut res, "-u-hc-h23"),
        None => {},
    }
    res
}

/// A plan whose date (and time) exist.
pub open spec fn plan_valid(p: DtPlan) -> bool {
    match p {
        DtPlan::Nothing => true,
        DtPlan::Date { year, month, day, .. } => gregorian_valid(year, month, day),
        DtPlan::DateTime { year, month, day, hour, minute, second, .. } =>
            gregorian_valid(year, month, day) && time_valid(hour, minute, second),
        DtPlan::ZonedDate { year, month, day, .. } => gregorian_valid(year, month, day),
        DtPlan::ZonedDateTime { year, month, day, hour, minute, second, .. } =>
            gregorian_valid(year, month, day) && time_valid(hour, minute, second),
    }
}

/// Every plan names a date and time that exist.
pub proof fn lemma_plan_valid(o: DtOptions)
    ensures
        plan_valid(plan_spec(o)),
{
}

/// What the formatter writes for a plan: the field set with or without the
/// weekday, in the zone style the plan asks for; nothing for no plan.
pub open spec fn render_spec(p: DtPlan, tag: Seq<char>, tz: Option<Seq<char>>) -> Seq<char> {
    match p {
        DtPlan::Nothing => Seq::empty(),
        DtPlan::Date { year: y, month: m, day: d, fields: f } =>
            if f.weekday { ymde_text(tag, y, m, d, f.length, f.year_style) } else { ymd_text(tag, y, m, d, f.length, f.year_style) },
        DtPlan::DateTime { year: y, month: m, day: d, hour: h, minute: mi, second: s, fields: f, precision: pr } =>
            if f.weekday {
                ymdet_text(tag, y, m, d, h, mi, s, f.length, f.year_style, pr)
            } else {
                ymdt_text(tag, y, m, d, h, mi, s, f.length, f.year_style, pr)
            },
        DtPlan::ZonedDate { year: y, month: m, day: d, fields: f, zone: z } => match (f.weekday, z) {
            (true, ZoneStyle::SpecificShort) => ymde_short_text(tag, y, m, d, f.length, f.year_style, tz),
            (true, ZoneStyle::SpecificLong) => ymde_long_text(tag, y, m, d, f.length, f.year_style, tz),
            (false, ZoneStyle::SpecificShort) => ymd_short_text(tag, y, m, d, f.length, f.year_style, tz),
            (false, ZoneStyle::SpecificLong) => ymd_long_text(tag, y, m, d, f.length, f.year_style, tz),
        },
        DtPlan::ZonedDateTime { year: y, month: m, day: d, hour: h, minute: mi, second: s, fields: f, precision: pr,
            zone: z } => match (f.weekday, z) {
            (true, ZoneStyle::SpecificShort) => ymdet_short_text(tag, y, m, d, h, mi, s, f.length, f.year_style, pr, tz),
            (true, ZoneStyle::SpecificLong) => ymdet_long_text(tag, y, m, d, h, mi, s, f.length, f.year_style, pr, tz),
            (false, ZoneStyle::SpecificShort) => ymdt_short_text(tag, y, m, d, h, mi, s, f.length, f.year_style, pr, tz),
            (false, ZoneStyle::SpecificLong) => ymdt_long_text(tag, y, m, d, h, mi, s, f.length, f.year_style, pr, tz),
        },
    }
}

/// Writes a plan for the locale `tag`, in the time zone `tz`.
pub fn render_plan(p: DtPlan, tag: &str, tz: Option<&str>) -> (res: String)
    requires
        plan_valid(p),
    ensures
        res@ == render_spec(p, tag@, opt_str_v(tz)),
{
    match p {
        DtPlan::Nothing => String::new(),
        DtPlan::Date { year: y, month: m, day: d, fields: f } =>
            if f.weekday { render_ymde(tag, y, m, d, f.length, f.year_style) } else { render_ymd(tag, y, m, d, f.length, f.year_style) },
        DtPlan::DateTime { year: y, month: m, day: d, hour: h, minute: mi, second: s, fields: f, precision: pr } =>
            if f.weekday {
                render_ymdet(tag, y, m, d, h, mi, s, f.length, f.year_style, pr)
            } else {
                render_ymdt(tag, y, m, d, h, mi, s, f.length, f.year_style, pr)
            },
        DtPlan::ZonedDate { year: y, month: m, day: d, fields: f, zone: z } => match (f.weekday, z) {
            (true, ZoneStyle::SpecificShort) => render_ymde_short(tag, y, m, d, f.length, f.year_style, tz),
            (true, ZoneStyle::SpecificLong) => render_ymde_long(tag, y, m, d, f.length, f.year_style, tz),
            (false, ZoneStyle::SpecificShort) => render_ymd_short(tag, y, m, d, f.length, f.year_style, tz),
            (false, ZoneStyle::SpecificLong) => render_ymd_long(tag, y, m, d, f.length, f.year_style, tz),
        },
        DtPlan::ZonedDateTime { year: y, month: m, day: d, hour: h, minute: mi, second: s, fields: f, precision: pr,
            zone: z } => match (f.weekday, z) {
            (true, ZoneStyle::SpecificShort) => render_ymdet_short(tag, y, m, d, h, mi, s, f.length, f.year_style, pr, tz),
            (true, ZoneStyle::SpecificLong) => render_ymdet_long(tag, y, m, d, h, mi, s, f.length, f.year_style, pr, tz),
            (false, ZoneStyle::SpecificShort) => render_ymdt_short(tag, y, m, d, h, mi, s, f.length, f.year_style, pr, tz),
            (false, ZoneStyle::SpecificLong) => render_ymdt_long(tag, y, m, d, h, mi, s, f.length, f.year_style, pr, tz),
        },
    }
}

/// The locale tag of a locale and an hour-cycle option.
pub open spec fn locale_tag_spec(locale: Seq<char>, hour12: Option<bool>) -> Seq<char> {
    match hour12 {
        Some(true) => locale + "-u-hc-h12"@,
        Some(false) => locale + "-u-hc-h23"@,
        None => locale,
    }
}

/// The runtime date formatter of `DATETIME()`: appends what the options
/// ask for, in the locale `locale` (a language tag); nothing when the date
/// or time does not exist.
pub fn format_datetime(year: Option<i64>, month: Option<i64>, day: Option<i64>, hour: Option<i64>,
    minute: Option<i64>, second: Option<i64>, date_style: Option<&str>, time_style: Option<&str>,
    weekday: Option<&str>, era: Option<&str>, year_format: Option<&str>, month_format: Option<&str>,
    day_format: Option<&str>, hour_format: Option<&str>, minute_format: Option<&str>, second_format: Option<&str>,
    time_zone_name: Option<&str>, hour12: Option<bool>, time_zone: Option<&str>, out: &mut String, locale: &str)
    ensures
        final(out)@ == old(out)@ + render_spec(plan_spec(DtOptions { year, month, day, hour, minute, second,
            date_style, time_style, weekday, era, year_format, month_format, day_format, hour_format, minute_format,
            second_format, time_zone_name, hour12, time_zone }), locale_tag_spec(locale@, hour12), opt_str_v(time_zone)),
{
    let o = DtOptions {
        year,
        month,
        day,
        hour,
        minute,
        second,
        date_style,
        time_style,
        weekday,
        era,
        year_format,
        month_format,
        day_format,
        hour_format,
        minute_format,
        second_format,
        time_zone_name,
        hour12,
        time_zone,
    };
    let plan = plan_datetime(&o);
    proof {
        lemma_plan_valid(o);
    }
    let tag = datetime_locale_tag(locale, hour12);
    let text = render_plan(plan, tag.as_str(), time_zone);
    push_str(out, text.as_str());
}

} // verus!

use ftl::datetime::{datetime_locale_tag, pick_length, plan_datetime, style_lengths, DateFields, DtLength, DtOptions,
    DtPlan, PrecisionV, YearStyleV, ZoneStyle};

fn date(y: i64, m: i64, d: i64) -> DtOptions<'static> {
    DtOptions {
        year: Some(y),
        month: Some(m),
        day: Some(d),
        hour: None,
        minute: None,
        second: None,
        date_style: None,
        time_style: None,
        weekday: None,
        era: None,
        year_format: None,
        month_format: None,
        day_format: None,
        hour_format: None,
        minute_format: None,
        second_format: None,
        time_zone_name: None,
        hour12: None,
        time_zone: None,
    }
}

fn fields(weekday: bool, length: DtLength, year_style: Option<YearStyleV>) -> DateFields {
    DateFields { weekday, length, year_style }
}

#[test]
fn plan_date_medium_by_default() {
    assert_eq!(
        plan_datetime(&date(2024, 5, 17)),
        DtPlan::Date { year: 2024, month: 5, day: 17, fields: fields(false, DtLength::Medium, None) }
    );
}

#[test]
fn plan_invalid_date_writes_nothing() {
    assert_eq!(plan_datetime(&date(2024, 2, 30)), DtPlan::Nothing);
    assert_eq!(plan_datetime(&date(2023, 2, 29)), DtPlan::Nothing);
    assert_eq!(plan_datetime(&date(10000, 1, 1)), DtPlan::Nothing);
    assert_eq!(plan_datetime(&date(2024, 13, 1)), DtPlan::Nothing);
}

#[test]
fn plan_leap_day_exists() {
    assert!(matches!(plan_datetime(&date(2024, 2, 29)), DtPlan::Date { .. }));
    assert!(matches!(plan_datetime(&date(2000, 2, 29)), DtPlan::Date { .. }));
    assert_eq!(plan_datetime(&date(1900, 2, 29)), DtPlan::Nothing);
}

#[test]
fn plan_missing_fields_default() {
    let mut o = date(0, 0, 0);
    o.year = None;
    o.month = None;
    o.day = None;
    assert_eq!(plan_datetime(&o), DtPlan::Date { year: 0, month: 1, day: 1, fields: fields(false, DtLength::Medium, None) });
}

#[test]
fn plan_styles_with_time() {
    let mut o = date(2024, 5, 17);
    o.hour = Some(14);
    o.minute = Some(30);
    o.date_style = Some("long");
    o.time_style = Some("long");
    assert_eq!(
        plan_datetime(&o),
        DtPlan::DateTime {
            year: 2024, month: 5, day: 17, hour: 14, minute: 30, second: 0,
            fields: fields(false, DtLength::Long, None), precision: PrecisionV::Second,
        }
    );
}

#[test]
fn plan_time_style_alone_adds_midnight() {
    let mut o = date(2024, 5, 17);
    o.time_style = Some("short");
    assert_eq!(
        plan_datetime(&o),
        DtPlan::DateTime {
            year: 2024, month: 5, day: 17, hour: 0, minute: 0, second: 0,
            fields: fields(false, DtLength::Medium, None), precision: PrecisionV::Second,
        }
    );
}

#[test]
fn plan_invalid_time_writes_nothing() {
    let mut o = date(2024, 5, 17);
    o.hour = Some(24);
    assert_eq!(plan_datetime(&o), DtPlan::Nothing);
    o.hour = Some(23);
    o.second = Some(60);
    assert!(matches!(plan_datetime(&o), DtPlan::DateTime { second: 60, .. }));
}

#[test]
fn plan_individual_fields() {
    let mut o = date(2024, 5, 17);
    o.weekday = Some("long");
    o.era = Some("short");
    assert_eq!(
        plan_datetime(&o),
        DtPlan::Date { year: 2024, month: 5, day: 17, fields: fields(true, DtLength::Long, Some(YearStyleV::WithEra)) }
    );
    let mut o = date(2024, 5, 17);
    o.year_format = Some("numeric");
    o.month_format = Some("2-digit");
    o.era = Some("long");
    assert_eq!(
        plan_datetime(&o),
        DtPlan::Date { year: 2024, month: 5, day: 17, fields: fields(false, DtLength::Long, Some(YearStyleV::Full)) }
    );
}

#[test]
fn plan_individual_time_precision() {
    let mut o = date(2024, 5, 17);
    o.hour = Some(10);
    o.minute = Some(20);
    o.year_format = Some("numeric");
    assert_eq!(
        plan_datetime(&o),
        DtPlan::DateTime {
            year: 2024, month: 5, day: 17, hour: 10, minute: 20, second: 0,
            fields: fields(false, DtLength::Medium, None), precision: PrecisionV::Minute,
        }
    );
    o.second_format = Some("numeric");
    assert!(matches!(plan_datetime(&o), DtPlan::DateTime { precision: PrecisionV::Second, .. }));
}

#[test]
fn plan_zones() {
    let mut o = date(2024, 5, 17);
    o.time_zone = Some("Europe/London");
    assert_eq!(
        plan_datetime(&o),
        DtPlan::ZonedDate {
            year: 2024, month: 5, day: 17, fields: fields(false, DtLength::Medium, None), zone: ZoneStyle::SpecificLong,
        }
    );
    let mut o = date(2024, 5, 17);
    o.hour = Some(14);
    o.time_zone_name = Some("short");
    o.date_style = Some("short");
    o.time_style = Some("medium");
    assert_eq!(
        plan_datetime(&o),
        DtPlan::ZonedDateTime {
            year: 2024, month: 5, day: 17, hour: 14, minute: 0, second: 0,
            fields: fields(false, DtLength::Short, None), precision: PrecisionV::Second, zone: ZoneStyle::SpecificShort,
        }
    );
}

#[test]
fn pick_length_takes_first_named_length() {
    assert_eq!(pick_length(Some("numeric"), Some("short"), Some("long"), None), DtLength::Short);
    assert_eq!(pick_length(None, None, Some("narrow"), Some("long")), DtLength::Short);
    assert_eq!(pick_length(None, None, None, Some("long")), DtLength::Long);
    assert_eq!(pick_length(Some("numeric"), None, None, None), DtLength::Medium);
}

#[test]
fn style_lengths_table() {
    assert_eq!(style_lengths("long", "long"), (DtLength::Long, PrecisionV::Second));
    assert_eq!(style_lengths("long", "medium"), (DtLength::Long, PrecisionV::Minute));
    assert_eq!(style_lengths("short", "short"), (DtLength::Short, PrecisionV::Minute));
    assert_eq!(style_lengths("short", "long"), (DtLength::Short, PrecisionV::Second));
    assert_eq!(style_lengths("medium", "short"), (DtLength::Medium, PrecisionV::Second));
}

#[test]
fn locale_tag_with_hour_cycle() {
    assert_eq!(datetime_locale_tag("en", Some(true)), "en-u-hc-h12");
    assert_eq!(datetime_locale_tag("de-DE", Some(false)), "de-DE-u-hc-h23");
    assert_eq!(datetime_locale_tag("ja", None), "ja");
}

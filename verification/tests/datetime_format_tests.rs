use ftl::datetime::{datetime_locale_tag, format_datetime};

fn fmt(args: &[(&str, i64)], ds: Option<&str>, ts: Option<&str>, loc: &str) -> String {
    let mut out = String::new();
    let (mut y, mut m, mut d, mut hh, mut mm, mut ss) = (None, None, None, None, None, None);
    for &(k, v) in args {
        match k {
            "year" => y = Some(v),
            "month" => m = Some(v),
            "day" => d = Some(v),
            "hour" => hh = Some(v),
            "min" => mm = Some(v),
            "sec" => ss = Some(v),
            _ => {}
        }
    }
    format_datetime(
        y, m, d, hh, mm, ss, ds, ts, None, None, None, None, None, None, None, None, None, None, None, &mut out, loc,
    );
    out
}

#[test]
fn date_medium() {
    let r = fmt(
        &[("year", 2024), ("month", 5), ("day", 17)],
        None,
        None,
        "en",
    );
    assert!(r.contains("May"), "got: {r}");
}
#[test]
fn date_long() {
    let r = fmt(
        &[("year", 2024), ("month", 5), ("day", 17)],
        Some("long"),
        None,
        "en",
    );
    assert!(r.contains("May"), "got: {r}");
}
#[test]
fn date_short() {
    let r = fmt(
        &[("year", 2024), ("month", 5), ("day", 17)],
        Some("short"),
        None,
        "en",
    );
    assert!(r.contains("24"), "got: {r}");
}
#[test]
fn date_invalid() {
    let mut out = String::new();
    format_datetime(
        Some(2024),
        Some(2),
        Some(30),
        None,
        None,
        None,
        None,
        None,
        None,
        None,
        None,
        None,
        None,
        None,
        None,
        None,
        None,
        None,
        None,
        &mut out,
        "en",
    );
    assert_eq!(out, "");
}
#[test]
fn date_de() {
    let r = fmt(
        &[("year", 2024), ("month", 12), ("day", 25)],
        Some("long"),
        None,
        "de",
    );
    assert!(r.contains("Dezember"), "got: {r}");
}
#[test]
fn datetime_default() {
    let r = fmt(
        &[
            ("year", 2024),
            ("month", 5),
            ("day", 17),
            ("hour", 14),
            ("min", 30),
        ],
        None,
        None,
        "en",
    );
    assert!(r.contains("2024"), "got: {r}");
}
#[test]
fn datetime_long_long() {
    let r = fmt(
        &[
            ("year", 2024),
            ("month", 5),
            ("day", 17),
            ("hour", 14),
            ("min", 30),
            ("sec", 5),
        ],
        Some("long"),
        Some("long"),
        "en",
    );
    assert!(r.contains("2024"), "got: {r}");
}
#[test]
fn datetime_bad_time() {
    let mut out = String::new();
    format_datetime(
        Some(2024),
        Some(5),
        Some(17),
        Some(99),
        None,
        None,
        None,
        None,
        None,
        None,
        None,
        None,
        None,
        None,
        None,
        None,
        None,
        None,
        None,
        &mut out,
        "en",
    );
    assert_eq!(out, "");
}
#[test]
fn hour_triggers_time() {
    let r = fmt(
        &[("year", 2024), ("month", 5), ("day", 17), ("hour", 9)],
        None,
        None,
        "en",
    );
    assert!(r.contains("9"), "got: {r}");
}
#[test]
fn to_prefs_ok() {
    let tag = datetime_locale_tag("de", None);
    let loc: icu_locale_core::Locale = tag.parse().unwrap();
    assert!(icu_datetime::DateTimeFormatter::try_new(loc.into(), icu_datetime::fieldsets::YMD::medium()).is_ok());
}

#[test]
fn ind_month_long() {
    let mut out = String::new();
    format_datetime(
        Some(2024),
        Some(5),
        Some(17),
        None,
        None,
        None,
        None,
        None,
        None,
        None,
        None,
        Some("long"),
        None,
        None,
        None,
        None,
        None,
        None,
        None,
        &mut out,
        "en",
    );
    assert!(out.contains("May"), "got: {out}");
}
#[test]
fn ind_year_2digit() {
    let mut out = String::new();
    format_datetime(
        Some(2024),
        Some(5),
        Some(17),
        None,
        None,
        None,
        None,
        None,
        None,
        None,
        Some("2-digit"),
        None,
        None,
        None,
        None,
        None,
        None,
        None,
        None,
        &mut out,
        "en",
    );
    assert!(out.contains("24"), "got: {out}");
}
#[test]
fn ind_weekday() {
    let mut out = String::new();
    format_datetime(
        Some(2024),
        Some(5),
        Some(17),
        None,
        None,
        None,
        None,
        None,
        Some("long"),
        None,
        None,
        None,
        None,
        None,
        None,
        None,
        None,
        None,
        None,
        &mut out,
        "en",
    );
    assert!(out.contains("Fri") || out.contains("Friday"), "got: {out}");
}
#[test]
fn ind_no_params() {
    let mut out = String::new();
    format_datetime(
        Some(2024),
        Some(5),
        Some(17),
        None,
        None,
        None,
        None,
        None,
        None,
        None,
        None,
        None,
        None,
        None,
        None,
        None,
        None,
        None,
        None,
        &mut out,
        "en",
    );
    assert!(out.contains("May"), "got: {out}");
}
#[test]
fn ind_weekday_time() {
    let mut out = String::new();
    format_datetime(
        Some(2024),
        Some(5),
        Some(17),
        Some(14),
        Some(30),
        None,
        None,
        None,
        Some("short"),
        None,
        None,
        None,
        None,
        None,
        None,
        None,
        None,
        None,
        None,
        &mut out,
        "en",
    );
    assert!(out.contains("Fri"), "got: {out}");
}
#[test]
fn ind_second_precision() {
    let mut out = String::new();
    format_datetime(
        Some(2024),
        Some(5),
        Some(17),
        Some(14),
        Some(30),
        Some(45),
        None,
        None,
        None,
        None,
        None,
        None,
        None,
        None,
        None,
        Some("numeric"),
        None,
        None,
        None,
        &mut out,
        "en",
    );
    assert!(out.contains("45"), "got: {out}");
}
#[test]
fn ind_era_long() {
    let mut out = String::new();
    format_datetime(
        Some(2024),
        Some(5),
        Some(17),
        None,
        None,
        None,
        None,
        None,
        None,
        Some("long"),
        None,
        None,
        None,
        None,
        None,
        None,
        None,
        None,
        None,
        &mut out,
        "en",
    );
    assert!(out.contains("AD") || out.contains("May"), "got: {out}");
}
#[test]
fn ind_era_short() {
    let mut out = String::new();
    format_datetime(
        Some(2024),
        Some(5),
        Some(17),
        None,
        None,
        None,
        None,
        None,
        None,
        Some("short"),
        None,
        None,
        None,
        None,
        None,
        None,
        None,
        None,
        None,
        &mut out,
        "en",
    );
    assert!(out.contains("2024"), "got: {out}");
}
#[test]
fn ind_era_narrow() {
    let mut out = String::new();
    format_datetime(
        Some(2024),
        Some(5),
        Some(17),
        None,
        None,
        None,
        None,
        None,
        None,
        Some("narrow"),
        None,
        None,
        None,
        None,
        None,
        None,
        None,
        None,
        None,
        &mut out,
        "en",
    );
    assert!(out.contains("2024"), "got: {out}");
}
#[test]
fn ind_bad_time_wd() {
    let mut out = String::new();
    format_datetime(
        Some(2024),
        Some(5),
        Some(17),
        Some(99),
        None,
        None,
        None,
        None,
        Some("long"),
        None,
        None,
        None,
        None,
        None,
        None,
        None,
        None,
        None,
        None,
        &mut out,
        "en",
    );
    assert_eq!(out, "");
}
#[test]
fn ind_time_no_wd() {
    let mut out = String::new();
    format_datetime(
        Some(2024),
        Some(5),
        Some(17),
        Some(10),
        Some(20),
        None,
        None,
        None,
        None,
        None,
        None,
        None,
        None,
        None,
        None,
        None,
        None,
        None,
        None,
        &mut out,
        "en",
    );
    assert!(out.contains("10"), "got: {out}");
}
#[test]
fn style_date_long() {
    let mut out = String::new();
    format_datetime(
        Some(2024),
        Some(5),
        Some(17),
        None,
        None,
        None,
        Some("long"),
        None,
        None,
        None,
        None,
        None,
        None,
        None,
        None,
        None,
        None,
        None,
        None,
        &mut out,
        "en",
    );
    assert!(out.contains("May"), "got: {out}");
}
#[test]
fn style_time_short() {
    let mut out = String::new();
    format_datetime(
        Some(2024),
        Some(5),
        Some(17),
        Some(14),
        Some(30),
        None,
        Some("long"),
        Some("short"),
        None,
        None,
        None,
        None,
        None,
        None,
        None,
        None,
        None,
        None,
        None,
        &mut out,
        "en",
    );
    assert!(out.contains("PM") || out.contains("14"), "got: {out}");
}
#[test]
fn style_short_short() {
    let mut out = String::new();
    format_datetime(
        Some(2024),
        Some(5),
        Some(17),
        Some(14),
        Some(30),
        None,
        Some("short"),
        Some("short"),
        None,
        None,
        None,
        None,
        None,
        None,
        None,
        None,
        None,
        None,
        None,
        &mut out,
        "en",
    );
    assert!(
        out.contains("24") && (out.contains("PM") || out.contains("14")),
        "got: {out}"
    );
}
#[test]
fn style_short_med() {
    let mut out = String::new();
    format_datetime(
        Some(2024),
        Some(5),
        Some(17),
        Some(14),
        Some(30),
        None,
        Some("short"),
        Some("medium"),
        None,
        None,
        None,
        None,
        None,
        None,
        None,
        None,
        None,
        None,
        None,
        &mut out,
        "en",
    );
    assert!(
        out.contains("24") && (out.contains("PM") || out.contains("14")),
        "got: {out}"
    );
}
#[test]
fn hour12_true() {
    let mut out = String::new();
    format_datetime(
        Some(2024),
        Some(5),
        Some(17),
        Some(13),
        Some(0),
        None,
        None,
        None,
        None,
        None,
        None,
        None,
        None,
        None,
        None,
        None,
        None,
        Some(true),
        None,
        &mut out,
        "en",
    );
    assert!(out.contains("1") && out.contains("PM"), "got: {out}");
}
#[test]
fn hour12_false() {
    let mut out = String::new();
    format_datetime(
        Some(2024),
        Some(5),
        Some(17),
        Some(13),
        Some(0),
        None,
        None,
        None,
        None,
        None,
        None,
        None,
        None,
        None,
        None,
        None,
        None,
        Some(false),
        None,
        &mut out,
        "en",
    );
    assert!(out.contains("13"), "got: {out}");
}

#[test]
fn zone_date_only() {
    let mut out = String::new();
    format_datetime(
        Some(2024),
        Some(5),
        Some(17),
        None,
        None,
        None,
        None,
        None,
        None,
        None,
        None,
        None,
        None,
        None,
        None,
        None,
        Some("long"),
        None,
        None,
        &mut out,
        "en",
    );
    assert!(out.contains("2024") || out.contains("UTC"), "got: {out}");
}
#[test]
fn zone_datetime() {
    let mut out = String::new();
    format_datetime(
        Some(2024),
        Some(5),
        Some(17),
        Some(14),
        Some(30),
        None,
        None,
        None,
        None,
        None,
        None,
        None,
        None,
        None,
        None,
        None,
        Some("short"),
        None,
        None,
        &mut out,
        "en",
    );
    assert!(out.contains("2024") || out.contains("UTC"), "got: {out}");
}
#[test]
fn zone_ind_time() {
    let mut out = String::new();
    format_datetime(
        Some(2024),
        Some(5),
        Some(17),
        Some(10),
        Some(20),
        None,
        None,
        None,
        None,
        None,
        None,
        None,
        None,
        None,
        None,
        None,
        None,
        None,
        Some("Asia/Shanghai"),
        &mut out,
        "en",
    );
    assert!(out.contains("2024") || out.contains("UTC"), "got: {out}");
}
#[test]
fn zone_ind_no_time() {
    let mut out = String::new();
    format_datetime(
        Some(2024),
        Some(5),
        Some(17),
        None,
        None,
        None,
        None,
        None,
        None,
        None,
        Some("numeric"),
        None,
        None,
        None,
        None,
        None,
        None,
        None,
        Some("UTC"),
        &mut out,
        "en",
    );
    assert!(out.contains("2024") || out.contains("UTC"), "got: {out}");
}
#[test]
fn zone_ind_wd_time() {
    let mut out = String::new();
    format_datetime(
        Some(2024),
        Some(5),
        Some(17),
        Some(14),
        Some(30),
        None,
        None,
        None,
        Some("long"),
        None,
        None,
        None,
        None,
        None,
        None,
        None,
        None,
        None,
        Some("America/New_York"),
        &mut out,
        "en",
    );
    assert!(out.contains("2024") || out.contains("UTC"), "got: {out}");
}
#[test]
fn zone_style_time() {
    let mut out = String::new();
    format_datetime(
        Some(2024),
        Some(5),
        Some(17),
        Some(14),
        Some(30),
        None,
        Some("long"),
        Some("short"),
        None,
        None,
        None,
        None,
        None,
        None,
        None,
        None,
        Some("short"),
        None,
        None,
        &mut out,
        "en",
    );
    assert!(out.contains("2024") || out.contains("UTC"), "got: {out}");
}

#[test]
fn zone_ind_has_zone_time() {
    let mut out = String::new();
    format_datetime(
        Some(2024),
        Some(5),
        Some(17),
        Some(10),
        Some(20),
        None,
        None,
        None,
        None,
        None,
        Some("numeric"),
        None,
        None,
        None,
        None,
        None,
        Some("long"),
        None,
        None,
        &mut out,
        "en",
    );
    assert!(out.contains("2024") || out.contains("UTC"), "got: {out}");
}
#[test]
fn zone_ind_no_time_tz() {
    let mut out = String::new();
    format_datetime(
        Some(2024),
        Some(5),
        Some(17),
        None,
        None,
        None,
        None,
        None,
        None,
        None,
        Some("numeric"),
        None,
        None,
        None,
        None,
        None,
        Some("short"),
        None,
        Some("Europe/London"),
        &mut out,
        "en",
    );
    assert!(out.contains("2024") || out.contains("UTC"), "got: {out}");
}
#[test]
fn zone_ind_wd_no_time_tz() {
    let mut out = String::new();
    format_datetime(
        Some(2024),
        Some(5),
        Some(17),
        None,
        None,
        None,
        None,
        None,
        Some("long"),
        None,
        None,
        None,
        None,
        None,
        None,
        None,
        Some("long"),
        None,
        None,
        &mut out,
        "en",
    );
    assert!(out.contains("2024") || out.contains("UTC"), "got: {out}");
}
#[test]
fn zone_ind_wd_time_tz() {
    let mut out = String::new();
    format_datetime(
        Some(2024),
        Some(5),
        Some(17),
        Some(10),
        Some(20),
        Some(30),
        None,
        None,
        Some("long"),
        None,
        None,
        Some("long"),
        None,
        None,
        None,
        Some("numeric"),
        None,
        None,
        Some("Asia/Tokyo"),
        &mut out,
        "en",
    );
    assert!(out.contains("2024") || out.contains("UTC"), "got: {out}");
}
#[test]
fn zone_style_tz() {
    let mut out = String::new();
    format_datetime(
        Some(2024),
        Some(5),
        Some(17),
        Some(14),
        Some(30),
        None,
        Some("long"),
        Some("short"),
        None,
        None,
        None,
        None,
        None,
        None,
        None,
        None,
        None,
        None,
        Some("America/Chicago"),
        &mut out,
        "en",
    );
    assert!(out.contains("2024") || out.contains("UTC"), "got: {out}");
}

#[test]
fn zone_ind_wd_no_time_short() {
    let mut out = String::new();
    format_datetime(
        Some(2024),
        Some(5),
        Some(17),
        None,
        None,
        None,
        None,
        None,
        Some("long"),
        None,
        None,
        None,
        None,
        None,
        None,
        None,
        Some("short"),
        None,
        None,
        &mut out,
        "en",
    );
    assert!(out.contains("2024") || out.contains("UTC"), "got: {out}");
}
#[test]
fn zone_ind_time_short() {
    let mut out = String::new();
    format_datetime(
        Some(2024),
        Some(5),
        Some(17),
        Some(10),
        Some(20),
        None,
        None,
        None,
        None,
        None,
        Some("numeric"),
        None,
        None,
        None,
        None,
        None,
        Some("short"),
        None,
        None,
        &mut out,
        "en",
    );
    assert!(out.contains("2024") || out.contains("UTC"), "got: {out}");
}
#[test]
fn zone_ind_wd_time_short() {
    let mut out = String::new();
    format_datetime(
        Some(2024),
        Some(5),
        Some(17),
        Some(10),
        Some(20),
        None,
        None,
        None,
        Some("long"),
        None,
        None,
        None,
        None,
        None,
        None,
        None,
        Some("short"),
        None,
        None,
        &mut out,
        "en",
    );
    assert!(out.contains("2024") || out.contains("UTC"), "got: {out}");
}

#[test]
fn ind_wd_era_time() {
    let mut out = String::new();
    format_datetime(
        Some(2024),
        Some(5),
        Some(17),
        Some(14),
        Some(30),
        None,
        None,
        None,
        Some("long"),
        Some("long"),
        None,
        None,
        None,
        None,
        None,
        None,
        None,
        None,
        None,
        &mut out,
        "en",
    );
    assert!(out.contains("2024"), "got: {out}");
}
#[test]
fn ind_wd_era_no_time() {
    let mut out = String::new();
    format_datetime(
        Some(2024),
        Some(5),
        Some(17),
        None,
        None,
        None,
        None,
        None,
        Some("long"),
        Some("long"),
        None,
        None,
        None,
        None,
        None,
        None,
        None,
        None,
        None,
        &mut out,
        "en",
    );
    assert!(out.contains("2024"), "got: {out}");
}
#[test]
fn ind_era_time() {
    let mut out = String::new();
    format_datetime(
        Some(2024),
        Some(5),
        Some(17),
        Some(14),
        Some(30),
        None,
        None,
        None,
        None,
        Some("long"),
        None,
        None,
        None,
        None,
        None,
        None,
        None,
        None,
        None,
        &mut out,
        "en",
    );
    assert!(out.contains("2024"), "got: {out}");
}

#[test]
fn z_date_long() {
    let mut out = String::new();
    format_datetime(
        Some(2024),
        Some(5),
        Some(17),
        None,
        None,
        None,
        Some("long"),
        None,
        None,
        None,
        None,
        None,
        None,
        None,
        None,
        None,
        Some("long"),
        None,
        None,
        &mut out,
        "en",
    );
    assert!(out.contains("24"), "got:{out}");
}
#[test]
fn z_date_short() {
    let mut out = String::new();
    format_datetime(
        Some(2024),
        Some(5),
        Some(17),
        None,
        None,
        None,
        Some("short"),
        None,
        None,
        None,
        None,
        None,
        None,
        None,
        None,
        None,
        Some("short"),
        None,
        None,
        &mut out,
        "en",
    );
    assert!(out.contains("24"), "got:{out}");
}
#[test]
fn z_long_long() {
    let mut out = String::new();
    format_datetime(
        Some(2024),
        Some(5),
        Some(17),
        Some(14),
        Some(30),
        Some(15),
        Some("long"),
        Some("long"),
        None,
        None,
        None,
        None,
        None,
        None,
        None,
        None,
        Some("long"),
        None,
        None,
        &mut out,
        "en",
    );
    assert!(out.contains("24"), "got:{out}");
}
#[test]
fn z_short_short() {
    let mut out = String::new();
    format_datetime(
        Some(2024),
        Some(5),
        Some(17),
        Some(14),
        Some(30),
        None,
        Some("short"),
        Some("short"),
        None,
        None,
        None,
        None,
        None,
        None,
        None,
        None,
        Some("short"),
        None,
        None,
        &mut out,
        "en",
    );
    assert!(out.contains("24"), "got:{out}");
}
#[test]
fn z_short_med() {
    let mut out = String::new();
    format_datetime(
        Some(2024),
        Some(5),
        Some(17),
        Some(14),
        Some(30),
        None,
        Some("short"),
        Some("medium"),
        None,
        None,
        None,
        None,
        None,
        None,
        None,
        None,
        Some("short"),
        None,
        None,
        &mut out,
        "en",
    );
    assert!(out.contains("24"), "got:{out}");
}

#[test]
fn z_wd_era_no_time() {
    let mut out = String::new();
    format_datetime(
        Some(2024),
        Some(5),
        Some(17),
        None,
        None,
        None,
        None,
        None,
        Some("long"),
        Some("long"),
        None,
        None,
        None,
        None,
        None,
        None,
        Some("long"),
        None,
        Some("UTC"),
        &mut out,
        "en",
    );
    assert!(out.contains("24"), "got:{out}");
}
#[test]
fn z_wd_era_time() {
    let mut out = String::new();
    format_datetime(
        Some(2024),
        Some(5),
        Some(17),
        Some(14),
        Some(30),
        None,
        None,
        None,
        Some("long"),
        Some("long"),
        None,
        None,
        None,
        None,
        None,
        None,
        Some("long"),
        None,
        Some("UTC"),
        &mut out,
        "en",
    );
    assert!(out.contains("24"), "got:{out}");
}
#[test]
fn z_era_no_wd_time() {
    let mut out = String::new();
    format_datetime(
        Some(2024),
        Some(5),
        Some(17),
        Some(14),
        Some(30),
        None,
        None,
        None,
        None,
        Some("long"),
        None,
        None,
        None,
        None,
        None,
        None,
        Some("long"),
        None,
        Some("UTC"),
        &mut out,
        "en",
    );
    assert!(out.contains("2024") || out.contains("UTC"), "got:{out}");
}
#[test]
fn z_era_no_wd_no_time() {
    let mut out = String::new();
    format_datetime(
        Some(2024),
        Some(5),
        Some(17),
        None,
        None,
        None,
        None,
        None,
        None,
        Some("long"),
        None,
        None,
        None,
        None,
        None,
        None,
        Some("long"),
        None,
        Some("UTC"),
        &mut out,
        "en",
    );
    assert!(out.contains("2024") || out.contains("UTC"), "got:{out}");
}

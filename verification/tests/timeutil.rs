use pv_probability::timeutil::{
    day_to_date, for_each_hour_slice, format_day, format_instant, in_units, local_day, local_midnight,
    local_parts, local_time, parse_ha_datetime, parse_local_date, resolve_timezone,
    tz_name_from_zoneinfo_path, MachineZone, TimeError, Zone, FIRST_DAY, FIRST_INSTANT, LAST_DAY,
    LAST_INSTANT,
};

fn ts(text: &str) -> i64 {
    parse_ha_datetime(text).expect("test timestamp parses")
}

fn berlin() -> Zone {
    Zone::named("Europe/Berlin").expect("a known zone")
}

/// A machine that says nothing about where it stands.
fn silent_machine() -> MachineZone {
    MachineZone { variable: None, timezone_file: None, localtime_link: None }
}

#[test]
fn resolves_named_timezones() {
    let machine = silent_machine();
    assert_eq!(
        resolve_timezone(Some("Europe/Berlin"), &machine).unwrap().name(),
        berlin().name()
    );
    assert!(resolve_timezone(Some("Middle/Earth"), &machine).is_err());
}

#[test]
fn resolves_local_timezone_from_tz_env() {
    // Without a name it must never fail, whatever the machine looks like.
    let machines = vec![
        silent_machine(),
        MachineZone { variable: Some("Europe/Berlin".to_string()), ..silent_machine() },
        MachineZone { variable: Some(":nonsense".to_string()), ..silent_machine() },
        MachineZone { timezone_file: Some("Asia/Tokyo\n".to_string()), ..silent_machine() },
        MachineZone { localtime_link: Some("/nowhere".to_string()), ..silent_machine() },
    ];
    for machine in &machines {
        assert!(resolve_timezone(None, machine).is_ok());
        assert!(resolve_timezone(Some("local"), machine).is_ok());
    }
}

#[test]
fn the_machine_is_asked_in_order() {
    let machine = MachineZone {
        variable: Some(" Europe/Berlin\n".to_string()),
        timezone_file: Some("Asia/Tokyo\n".to_string()),
        localtime_link: Some("/usr/share/zoneinfo/America/New_York".to_string()),
    };
    assert_eq!(resolve_timezone(None, &machine).unwrap().name(), "Europe/Berlin");
    let machine = MachineZone { variable: Some("gibberish".to_string()), ..machine };
    assert_eq!(resolve_timezone(None, &machine).unwrap().name(), "Asia/Tokyo");
    let machine = MachineZone { timezone_file: None, ..machine };
    assert_eq!(resolve_timezone(None, &machine).unwrap().name(), "America/New_York");
    let machine = MachineZone { localtime_link: None, ..machine };
    assert_eq!(resolve_timezone(None, &machine).unwrap().name(), "UTC");
}

#[test]
fn extracts_zone_name_from_localtime_link() {
    assert_eq!(
        tz_name_from_zoneinfo_path("/usr/share/zoneinfo/Europe/Berlin").as_deref(),
        Some("Europe/Berlin")
    );
    assert_eq!(
        tz_name_from_zoneinfo_path("../usr/share/zoneinfo/posix/UTC").as_deref(),
        Some("UTC")
    );
    assert_eq!(tz_name_from_zoneinfo_path("/etc/localtime"), None);
}

#[test]
fn converts_utc_instants_to_local_parts() {
    // 2024-06-21 10:30 UTC is 12:30 in Berlin (CEST, +2).
    let parts = local_parts(ts("2024-06-21 10:30:00"), &berlin());
    assert_eq!(parts.hour, 12);
    assert_eq!(parts.month, 6);
    assert_eq!(parts.year, 2024);
    assert_eq!(parts.iso_week, 25);

    // In winter Berlin is +1.
    let parts = local_parts(ts("2024-12-21 10:30:00"), &berlin());
    assert_eq!(parts.hour, 11);
    assert_eq!(parts.month, 12);
}

#[test]
fn iso_week_wraps_across_the_year_boundary() {
    // 2021-01-01 belongs to ISO week 53 of 2020.
    let parts = local_parts(ts("2021-01-01 12:00:00"), &Zone::utc());
    assert_eq!(parts.iso_week, 53);
    assert_eq!(parts.iso_year, 2020);
    assert_eq!(parts.year, 2021);

    // 2019-12-30 already belongs to ISO week 1 of 2020.
    let parts = local_parts(ts("2019-12-30 12:00:00"), &Zone::utc());
    assert_eq!(parts.iso_week, 1);
    assert_eq!(parts.iso_year, 2020);
    assert_eq!(parts.year, 2019);
}

fn collect_slices(start: i64, end: i64, tz: &Zone) -> Vec<(u8, f64)> {
    for_each_hour_slice(start, end, tz)
        .iter()
        .map(|slice| (slice.parts.hour, slice.seconds as f64))
        .collect()
}

#[test]
fn splits_an_interval_at_local_hour_boundaries() {
    // 13:50 -> 14:20 local time in Berlin (summer, so 11:50 -> 12:20 UTC).
    let slices = collect_slices(ts("2024-06-21 11:50:00"), ts("2024-06-21 12:20:00"), &berlin());
    assert_eq!(slices, vec![(13, 600.0), (14, 1200.0)]);
}

#[test]
fn does_not_split_an_interval_inside_one_hour() {
    let slices = collect_slices(ts("2024-06-21 11:05:00"), ts("2024-06-21 11:35:00"), &berlin());
    assert_eq!(slices, vec![(13, 1800.0)]);
}

#[test]
fn ignores_empty_and_inverted_intervals() {
    assert!(collect_slices(1000, 1000, &Zone::utc()).is_empty());
    assert!(collect_slices(2000, 1000, &Zone::utc()).is_empty());
}

#[test]
fn slice_durations_always_sum_to_the_interval_length() {
    let start = ts("2024-03-31 00:00:00");
    let end = start + 6 * 3600 + 137;
    let total: f64 = collect_slices(start, end, &berlin()).iter().map(|(_, s)| s).sum();
    assert_eq!(total, (end - start) as f64);
}

#[test]
fn spring_forward_skips_the_missing_local_hour() {
    // Berlin jumps 02:00 -> 03:00 local on 2024-03-31, i.e. 01:00 UTC.
    // Cover 00:30 UTC (01:30 local) to 02:30 UTC (04:30 local).
    let slices = collect_slices(ts("2024-03-31 00:30:00"), ts("2024-03-31 02:30:00"), &berlin());
    let hours: Vec<u8> = slices.iter().map(|(h, _)| *h).collect();
    // Local hour 2 does not exist that day.
    assert!(!hours.contains(&2), "hours were {hours:?}");
    assert_eq!(hours, vec![1, 3, 4]);
    assert_eq!(slices[0], (1, 1800.0));
    assert_eq!(slices[1], (3, 3600.0));
    assert_eq!(slices[2], (4, 1800.0));
}

#[test]
fn fall_back_gives_the_repeated_local_hour_double_weight() {
    // Berlin falls back 03:00 -> 02:00 local on 2024-10-27, i.e. 01:00 UTC.
    // Cover 00:00 UTC (02:00 local, CEST) to 03:00 UTC (04:00 local, CET).
    let slices = collect_slices(ts("2024-10-27 00:00:00"), ts("2024-10-27 03:00:00"), &berlin());
    let mut hour_two = 0.0;
    for (hour, seconds) in &slices {
        if *hour == 2 {
            hour_two += seconds;
        }
    }
    assert_eq!(hour_two, 7200.0, "local hour 2 happens twice: {slices:?}");
    let total: f64 = slices.iter().map(|(_, s)| s).sum();
    assert_eq!(total, 3.0 * 3600.0);
}

#[test]
fn parses_recorder_timestamp_formats() {
    assert_eq!(parse_ha_datetime("1970-01-01 00:00:00"), Some(0));
    assert_eq!(parse_ha_datetime("1970-01-01 00:00:00.000000"), Some(0));
    assert_eq!(parse_ha_datetime("1970-01-01T00:00:00Z"), Some(0));
    assert_eq!(parse_ha_datetime("1970-01-01T00:00:00+00:00"), Some(0));
    assert_eq!(parse_ha_datetime("1970-01-01T01:00:00+01:00"), Some(0));
    assert_eq!(parse_ha_datetime("2023-06-01 12:00:00"), Some(1_685_620_800));
    assert_eq!(parse_ha_datetime(""), None);
    assert_eq!(parse_ha_datetime("not a date"), None);
}

#[test]
fn recorder_timestamps_are_trimmed() {
    assert_eq!(parse_ha_datetime("  1970-01-01 00:01:00\n"), Some(60));
    assert_eq!(parse_ha_datetime("1970-01-01T00:01:00"), Some(60));
}

#[test]
fn parses_cli_dates_as_local_midnight() {
    // Local midnight in Berlin in summer is 22:00 UTC the previous day.
    assert_eq!(
        parse_local_date("2024-06-21", &berlin()).unwrap(),
        ts("2024-06-20 22:00:00")
    );
    assert_eq!(
        parse_local_date("2024-06-21", &Zone::utc()).unwrap(),
        ts("2024-06-21 00:00:00")
    );
    assert!(parse_local_date("21.06.2024", &Zone::utc()).is_err());
}

#[test]
fn a_date_without_a_midnight_starts_an_hour_later() {
    // Sao Paulo used to spring forward at midnight: 2018-11-04 starts at 01:00 (-2).
    let zone = Zone::named("America/Sao_Paulo").unwrap();
    assert_eq!(parse_local_date("2018-11-04", &zone).unwrap(), ts("2018-11-04 03:00:00"));
}

#[test]
fn a_date_that_a_zone_skipped_is_refused() {
    // Samoa crossed the date line at the end of 2011-12-29.
    let zone = Zone::named("Pacific/Apia").unwrap();
    let error = parse_local_date("2011-12-30", &zone).unwrap_err();
    assert!(matches!(&error, TimeError::SkippedDate(date) if date == "2011-12-30"));
    assert_eq!(error.message(zone.name()), "date 2011-12-30 does not exist in timezone Pacific/Apia");
}

#[test]
fn time_errors_name_what_was_given() {
    let error = resolve_timezone(Some("Middle/Earth"), &silent_machine()).unwrap_err();
    assert!(matches!(&error, TimeError::UnknownZone(name) if name == "Middle/Earth"));
    assert!(error.message("").contains("Middle/Earth"), "{}", error.message(""));
    let error = parse_local_date("21.06.2024", &Zone::utc()).unwrap_err();
    assert!(matches!(&error, TimeError::InvalidDate(date) if date == "21.06.2024"));
    assert!(error.message("UTC").contains("21.06.2024"), "{}", error.message("UTC"));
}

#[test]
fn local_days_are_counted_from_the_first_one() {
    let utc = Zone::utc();
    let day = local_day(0, &utc);
    assert_eq!(local_day(86_399, &utc), day);
    assert_eq!(local_day(86_400, &utc), day + 1);
    assert_eq!(local_day(-1, &utc), day - 1);
    let date = day_to_date(day).unwrap();
    assert_eq!(date.to_string(), "1970-01-01");
    assert_eq!(local_midnight(day, &utc), Some(0));
    // 23:30 UTC is already the next day in Berlin.
    let late = ts("2024-06-20 23:30:00");
    assert_eq!(day_to_date(local_day(late, &berlin())).unwrap().to_string(), "2024-06-21");
    assert_eq!(local_midnight(local_day(late, &berlin()), &berlin()),
        Some(ts("2024-06-20 22:00:00")));
}

#[test]
fn instants_are_written_in_local_time() {
    let instant = ts("2024-06-20 23:30:00");
    assert_eq!(format_instant(instant, &berlin()), "2024-06-21 01:30");
    assert_eq!(format_day(instant, &berlin()), "2024-06-21");
    assert_eq!(format_day(instant, &Zone::utc()), "2024-06-20");
    let time = local_time(instant, &berlin());
    assert_eq!((time.parts.hour, time.parts.month), (1, 6));
}

/// The clock and the calendar have to tell the same date.
fn agrees_with_the_calendar(instant: i64, zone: &Zone) {
    let time = local_time(instant, zone);
    assert!(time.parts.hour < 24 && time.minute < 60 && time.second < 60);
    assert!((FIRST_DAY - 1..=LAST_DAY + 1).contains(&time.parts.day));
    match day_to_date(time.parts.day) {
        Some(date) => {
            assert_eq!((date.year, date.month), (time.parts.year, time.parts.month));
            assert_eq!((date.month_day, date.iso_week), (time.month_day, time.parts.iso_week));
        }
        None => assert!(time.parts.day < FIRST_DAY || time.parts.day > LAST_DAY),
    }
}

#[test]
fn the_calendar_has_two_ends() {
    for name in ["UTC", "Asia/Tokyo", "America/New_York", "Pacific/Kiritimati", "Etc/GMT+12"] {
        let zone = Zone::named(name).unwrap();
        for instant in [FIRST_INSTANT, FIRST_INSTANT + 1, LAST_INSTANT - 1, LAST_INSTANT] {
            agrees_with_the_calendar(instant, &zone);
        }
        // Beyond them an instant stands for the epoch.
        assert_eq!(local_time(FIRST_INSTANT - 1, &zone), local_time(0, &zone));
        assert_eq!(local_time(LAST_INSTANT + 1, &zone), local_time(0, &zone));
        assert_eq!(format_instant(LAST_INSTANT + 1, &zone), "?");
    }
    assert_eq!(day_to_date(FIRST_DAY).unwrap().to_string(), "-262143-01-01");
    assert_eq!(day_to_date(LAST_DAY).unwrap().to_string(), "+262142-12-31");
    assert_eq!(day_to_date(FIRST_DAY - 1), None);
    assert_eq!(day_to_date(LAST_DAY + 1), None);
}

#[test]
fn clocks_and_calendars_tell_the_same_date() {
    for name in ["UTC", "Europe/Berlin", "Pacific/Apia", "America/St_Johns"] {
        let zone = Zone::named(name).unwrap();
        let start = ts("2011-12-20 00:00:00");
        for step in 0..2_000 {
            agrees_with_the_calendar(start + step * 7_000, &zone);
        }
    }
}

#[test]
fn durations_are_cut_to_whole_units() {
    assert_eq!(in_units(3_599, 60), 59);
    assert_eq!(in_units(-3_599, 60), -59);
    assert_eq!(in_units(0, 3_600), 0);
    assert_eq!(in_units(i64::MIN, 1), i64::MIN);
}

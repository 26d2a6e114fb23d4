use chrono::{DateTime, Datelike, Timelike, Utc};
use rsys_log::{set_global_level, ColorResolver, ColorScheme, Level, LogBuilder, LogState, Timestamp};

fn stamp(ts: DateTime<Utc>) -> Timestamp {
    Timestamp::from_parts(
        ts.year(),
        ts.month(),
        ts.day(),
        ts.hour(),
        ts.minute(),
        ts.second(),
        ts.nanosecond(),
    )
    .unwrap()
}

fn fixed_time() -> Timestamp {
    stamp(DateTime::parse_from_rfc3339("2025-12-05T10:15:30Z").unwrap().with_timezone(&Utc))
}

fn plain(_level: Level) -> ColorScheme<'static> {
    ColorScheme { level: "1", header: "2", context: "3", cid: "4", msg: "5", key: "6", value: "7" }
}

#[test]
fn build_basic_line() {
    let ts = DateTime::parse_from_rfc3339("2025-12-05T10:15:30Z").unwrap().with_timezone(&Utc);
    let line = LogBuilder::new("db", "migrator", Level::Info, "Migration applied")
        .timestamp(stamp(ts))
        .cid("op12")
        .data("name", "2025-12-01-001-rbac")
        .data("dur_ms", "214")
        .colorize(false)
        .build(&ColorResolver::gruvbox());
    assert_eq!(
        line,
        "2025.1205.10:15:30|SSYS=db|CTRL=migrator|LVL=INFO|CID=op12|MSG=Migration applied|name:2025-12-01-001-rbac dur_ms:214"
    );
}

#[test]
fn build_with_details() {
    let ts = DateTime::parse_from_rfc3339("2025-12-05T10:15:30Z").unwrap().with_timezone(&Utc);
    let line = LogBuilder::new("auth", "jwt", Level::Error, "JWT verify failed")
        .timestamp(stamp(ts))
        .cid("ab7c")
        .data("code", "401")
        .colorize(false)
        .detail("token: eyJhbGciOi...")
        .detail("hint: refresh token")
        .build(&ColorResolver::gruvbox());
    let expected = "\
2025.1205.10:15:30|SSYS=auth|CTRL=jwt|LVL=ERROR|CID=ab7c|MSG=JWT verify failed|code:401
  > token: eyJhbGciOi...
  > hint: refresh token";
    assert_eq!(line, expected);
}

#[test]
fn example_chain_from_msg() {
    let mut state = LogState::new();
    set_global_level(&mut state, Level::Info);
    let ts = DateTime::parse_from_rfc3339("2025-12-05T10:15:30Z").unwrap().with_timezone(&Utc);
    let log = LogBuilder::msg("Сообщени лога")
        .ssys("db")
        .ctrl("db_info")
        .cid("123")
        .info()
        .timestamp(stamp(ts))
        .colorize(false)
        .build(state.resolver());
    assert_eq!(log, "2025.1205.10:15:30|SSYS=db|CTRL=db_info|LVL=INFO|CID=123|MSG=Сообщени лога");
}

#[test]
fn colorize_enabled_by_default() {
    let mut state = LogState::new();
    set_global_level(&mut state, Level::Info);
    let ts = DateTime::parse_from_rfc3339("2025-12-05T10:15:30Z").unwrap().with_timezone(&Utc);
    let line = LogBuilder::new("db", "demo", Level::Warn, "Цветная строка")
        .timestamp(stamp(ts))
        .build(state.resolver());
    assert!(
        line.contains("\u{1b}[38;5;246m2025.1205.10:15:30\u{1b}[0m"),
        "ожидается ANSI раскраска timestamp"
    );
    assert!(
        line.contains("LVL=WARNING") || line.contains("LVL=WARN"),
        "уровень должен присутствовать"
    );
}

#[test]
fn no_pairs_means_no_trailing_block() {
    let line = LogBuilder::new("db", "migrator", Level::Info, "Migration applied")
        .timestamp(fixed_time())
        .cid("op12")
        .colorize(false)
        .build(&ColorResolver::gruvbox());
    assert_eq!(line, "2025.1205.10:15:30|SSYS=db|CTRL=migrator|LVL=INFO|CID=op12|MSG=Migration applied");
    assert_eq!(line.matches('|').count(), 5);
}

#[test]
fn details_add_one_line_each() {
    let builder = LogBuilder::new("s", "c", Level::Debug, "m")
        .timestamp(fixed_time())
        .colorize(false)
        .detail("one")
        .detail("")
        .detail("three");
    let lines = builder.build_lines(&ColorResolver::gruvbox());
    assert_eq!(
        lines,
        vec![
            "2025.1205.10:15:30|SSYS=s|CTRL=c|LVL=DEBUG|CID=-|MSG=m".to_string(),
            "  > one".to_string(),
            "  > ".to_string(),
            "  > three".to_string(),
        ]
    );
    assert_eq!(builder.build(&ColorResolver::gruvbox()).lines().count(), 4);
}

#[test]
fn defaults_of_new_and_msg() {
    let a = LogBuilder::new("s", "c", Level::Trace, "m")
        .timestamp(fixed_time())
        .colorize(false)
        .build(&ColorResolver::gruvbox());
    assert_eq!(a, "2025.1205.10:15:30|SSYS=s|CTRL=c|LVL=TRACE|CID=-|MSG=m");
    let b = LogBuilder::msg("only")
        .timestamp(fixed_time())
        .colorize(false)
        .build(&ColorResolver::gruvbox());
    assert_eq!(b, "2025.1205.10:15:30|SSYS=-|CTRL=-|LVL=INFO|CID=-|MSG=only");
}

#[test]
fn severity_shorthands_set_the_name() {
    let base = || LogBuilder::msg("m").timestamp(fixed_time()).colorize(false);
    let r = ColorResolver::gruvbox();
    assert!(base().trace().build(&r).contains("|LVL=TRACE|"));
    assert!(base().debug().build(&r).contains("|LVL=DEBUG|"));
    assert!(base().info().build(&r).contains("|LVL=INFO|"));
    assert!(base().warn().build(&r).contains("|LVL=WARN|"));
    assert!(base().error().build(&r).contains("|LVL=ERROR|"));
    assert_eq!(base().error().level(), Level::Error);
}

#[test]
fn repeated_keys_keep_their_order() {
    let line = LogBuilder::msg("m")
        .timestamp(fixed_time())
        .colorize(false)
        .data("k", "1")
        .data("a", "2")
        .data("k", "3")
        .build(&ColorResolver::gruvbox());
    assert_eq!(line, "2025.1205.10:15:30|SSYS=-|CTRL=-|LVL=INFO|CID=-|MSG=m|k:1 a:2 k:3");
}

#[test]
fn colored_line_is_exact() {
    let line = LogBuilder::new("db", "migrator", Level::Info, "Migration applied")
        .timestamp(fixed_time())
        .cid("op12")
        .data("name", "2025-12-01-001-rbac")
        .data("dur_ms", "214")
        .build(&ColorResolver::gruvbox());
    let expected = "\u{1b}[38;5;246m2025.1205.10:15:30\u{1b}[0m|\
\u{1b}[38;5;222mSSYS=db\u{1b}[0m|\
\u{1b}[38;5;222mCTRL=migrator\u{1b}[0m|\
\u{1b}[38;5;142mLVL=INFO\u{1b}[0m|\
\u{1b}[38;5;175mCID=op12\u{1b}[0m|\
\u{1b}[38;5;223mMSG=Migration applied\u{1b}[0m|\
\u{1b}[38;5;208mname\u{1b}[0m:\u{1b}[38;5;223m2025-12-01-001-rbac\u{1b}[0m \
\u{1b}[38;5;208mdur_ms\u{1b}[0m:\u{1b}[38;5;223m214\u{1b}[0m";
    assert_eq!(line, expected);
}

#[test]
fn details_are_never_colored() {
    let lines = LogBuilder::new("s", "c", Level::Error, "m")
        .timestamp(fixed_time())
        .detail("k:v | MSG=x")
        .build_lines(&ColorResolver::gruvbox());
    assert_eq!(lines.len(), 2);
    assert!(lines[0].starts_with("\u{1b}[38;5;246m"));
    assert_eq!(lines[1], "  > k:v | MSG=x");
}

#[test]
fn custom_resolver_colors_by_severity() {
    fn by_level(level: Level) -> ColorScheme<'static> {
        let code = if level == Level::Error { "31" } else { "32" };
        ColorScheme { level: code, ..plain(level) }
    }
    let resolver = ColorResolver::from_fn(by_level);
    let err = LogBuilder::new("s", "c", Level::Error, "m")
        .timestamp(fixed_time())
        .build(&resolver);
    assert_eq!(
        err,
        "\u{1b}[2m2025.1205.10:15:30\u{1b}[0m|\u{1b}[3mSSYS=s\u{1b}[0m|\u{1b}[3mCTRL=c\u{1b}[0m|\
\u{1b}[31mLVL=ERROR\u{1b}[0m|\u{1b}[4mCID=-\u{1b}[0m|\u{1b}[5mMSG=m\u{1b}[0m"
    );
    let info = LogBuilder::new("s", "c", Level::Info, "m").timestamp(fixed_time()).build(&resolver);
    assert!(info.contains("\u{1b}[32mLVL=INFO\u{1b}[0m"));
    assert_eq!(resolver.resolve(Level::Warn).key, "6");
}

#[test]
fn words_of_the_tail_are_split_at_the_first_colon() {
    let r = ColorResolver::from_fn(plain);
    let out = rsys_log::recolor::apply_colors("t|url:http://x:80  plain\t:v k:|", Level::Info, &r);
    assert_eq!(
        out,
        "\u{1b}[2mt\u{1b}[0m|\u{1b}[6murl\u{1b}[0m:\u{1b}[7mhttp://x:80\u{1b}[0m plain \
\u{1b}[6m\u{1b}[0m:\u{1b}[7mv\u{1b}[0m \u{1b}[6mk\u{1b}[0m:\u{1b}[7m\u{1b}[0m|"
    );
}

#[test]
fn pipes_in_a_message_open_new_spans() {
    let r = ColorResolver::from_fn(plain);
    let out = rsys_log::recolor::apply_colors("t|MSG=a|b|LVL=x|CID=|SSYS=|CTRL=y|LVLx", Level::Info, &r);
    assert_eq!(
        out,
        "\u{1b}[2mt\u{1b}[0m|\u{1b}[5mMSG=a\u{1b}[0m|b|\u{1b}[1mLVL=x\u{1b}[0m|\u{1b}[4mCID=\u{1b}[0m|\
\u{1b}[3mSSYS=\u{1b}[0m|\u{1b}[3mCTRL=y\u{1b}[0m|LVLx"
    );
}

#[test]
fn empty_line_is_one_colored_empty_span() {
    let r = ColorResolver::from_fn(plain);
    assert_eq!(rsys_log::recolor::apply_colors("", Level::Info, &r), "\u{1b}[2m\u{1b}[0m");
    assert_eq!(rsys_log::recolor::apply_colors("|", Level::Info, &r), "\u{1b}[2m\u{1b}[0m|");
}

#[test]
fn first_span_is_the_header_whatever_it_holds() {
    let r = ColorResolver::from_fn(plain);
    assert_eq!(
        rsys_log::recolor::apply_colors("MSG=x|k:v", Level::Info, &r),
        "\u{1b}[2mMSG=x\u{1b}[0m|\u{1b}[6mk\u{1b}[0m:\u{1b}[7mv\u{1b}[0m"
    );
}

#[test]
fn white_space_is_what_std_calls_white_space() {
    let mut c = 0u32;
    while c <= 0x10ffff {
        if let Some(ch) = char::from_u32(c) {
            assert_eq!(rsys_log::text::is_space_char(ch), ch.is_whitespace(), "U+{:04X}", c);
        }
        c += 1;
    }
}

#[test]
fn lower_casing_is_that_of_std() {
    let mut c = 0u32;
    while c <= 0x10ffff {
        if let Some(ch) = char::from_u32(c) {
            assert_eq!(rsys_log::text::to_lower_char(ch), ch.to_ascii_lowercase(), "U+{:04X}", c);
        }
        c += 1;
    }
}

#[test]
fn timestamp_years_outside_four_digits() {
    let r = ColorResolver::gruvbox();
    let at = |y: i32| Timestamp::from_parts(y, 1, 2, 3, 4, 5, 0).unwrap();
    let head = |y: i32| LogBuilder::msg("m").timestamp(at(y)).colorize(false).build(&r);
    assert!(head(7).starts_with("0007.0102.03:04:05|"));
    assert!(head(0).starts_with("0000.0102.03:04:05|"));
    assert!(head(9999).starts_with("9999.0102.03:04:05|"));
    assert!(head(10000).starts_with("+10000.0102.03:04:05|"));
    assert!(head(262142).starts_with("+262142.0102.03:04:05|"));
    assert!(head(-1).starts_with("-0001.0102.03:04:05|"));
    assert!(head(-44).starts_with("-0044.0102.03:04:05|"));
    assert!(head(-262143).starts_with("-262143.0102.03:04:05|"));
    assert_eq!(at(1999).render(), "1999.0102.03:04:05");
}

#[test]
fn timestamp_leap_second_is_second_sixty() {
    let ts = Timestamp::from_parts(2016, 12, 31, 23, 59, 59, 1_000_000_000).unwrap();
    assert_eq!(ts.render(), "2016.1231.23:59:60");
    let ts = Timestamp::from_parts(2016, 12, 31, 23, 59, 59, 999_999_999).unwrap();
    assert_eq!(ts.render(), "2016.1231.23:59:59");
}

#[test]
fn timestamp_accepts_what_the_calendar_has() {
    assert!(Timestamp::from_parts(2024, 2, 29, 0, 0, 0, 0).is_some());
    assert!(Timestamp::from_parts(2023, 2, 29, 0, 0, 0, 0).is_none());
    assert!(Timestamp::from_parts(1900, 2, 29, 0, 0, 0, 0).is_none());
    assert!(Timestamp::from_parts(2000, 2, 29, 0, 0, 0, 0).is_some());
    assert!(Timestamp::from_parts(-4, 2, 29, 0, 0, 0, 0).is_some());
    assert!(Timestamp::from_parts(-100, 2, 29, 0, 0, 0, 0).is_none());
    assert!(Timestamp::from_parts(-400, 2, 29, 0, 0, 0, 0).is_some());
    assert!(Timestamp::from_parts(2023, 4, 31, 0, 0, 0, 0).is_none());
    assert!(Timestamp::from_parts(2023, 0, 1, 0, 0, 0, 0).is_none());
    assert!(Timestamp::from_parts(2023, 13, 1, 0, 0, 0, 0).is_none());
    assert!(Timestamp::from_parts(2023, 1, 0, 0, 0, 0, 0).is_none());
    assert!(Timestamp::from_parts(2023, 1, 1, 24, 0, 0, 0).is_none());
    assert!(Timestamp::from_parts(2023, 1, 1, 0, 60, 0, 0).is_none());
    assert!(Timestamp::from_parts(2023, 1, 1, 0, 0, 60, 0).is_none());
    assert!(Timestamp::from_parts(2023, 1, 1, 0, 0, 58, 1_000_000_000).is_none());
    assert!(Timestamp::from_parts(2023, 1, 1, 0, 0, 59, 2_000_000_000).is_none());
    assert!(Timestamp::from_parts(262143, 1, 1, 0, 0, 0, 0).is_none());
    assert!(Timestamp::from_parts(-262144, 1, 1, 0, 0, 0, 0).is_none());
    let ts = Timestamp::from_parts(2025, 12, 5, 10, 15, 30, 7).unwrap();
    assert_eq!(
        (ts.year(), ts.month(), ts.day(), ts.hour(), ts.minute(), ts.second(), ts.nanosecond()),
        (2025, 12, 5, 10, 15, 30, 7)
    );
}

#[test]
fn timestamp_agrees_with_the_calendar_of_chrono() {
    let mut year = -401;
    while year <= 2401 {
        let mut month = 0;
        while month <= 13 {
            let mut day = 0;
            while day <= 32 {
                let ours = Timestamp::from_parts(year, month, day, 1, 2, 3, 0);
                let theirs = chrono::NaiveDate::from_ymd_opt(year, month, day);
                assert_eq!(ours.is_some(), theirs.is_some(), "{year}-{month}-{day}");
                if let (Some(ts), Some(date)) = (ours, theirs) {
                    let want = date.and_hms_opt(1, 2, 3).unwrap().format("%Y.%m%d.%H:%M:%S");
                    assert_eq!(ts.render(), want.to_string());
                }
                day += 1;
            }
            month += 1;
        }
        year += 1;
    }
}

#[test]
fn a_record_without_timestamp_is_stamped_with_the_clock() {
    let before = Utc::now();
    let line = LogBuilder::msg("m").colorize(false).build(&ColorResolver::gruvbox());
    let after = Utc::now();
    let (stamp, rest) = line.split_once('|').unwrap();
    assert_eq!(rest, "SSYS=-|CTRL=-|LVL=INFO|CID=-|MSG=m");
    let low = before.format("%Y.%m%d.%H:%M:%S").to_string();
    let high = after.format("%Y.%m%d.%H:%M:%S").to_string();
    assert!(low.as_str() <= stamp && stamp <= high.as_str(), "{low} <= {stamp} <= {high}");
}

#[test]
fn clock_reading_becomes_the_moment_so_long_after_1970() {
    let want = DateTime::parse_from_rfc3339("2025-12-05T10:15:30Z").unwrap().with_timezone(&Utc);
    let ts = Timestamp::from_reading(Some((want.timestamp() as u64, 123)));
    assert_eq!(ts, stamp(want + chrono::TimeDelta::nanoseconds(123)));
    assert_eq!(ts.render(), "2025.1205.10:15:30");
    assert_eq!(ts.nanosecond(), 123);
    assert_eq!(Timestamp::from_reading(Some((0, 0))), Timestamp::unix_epoch());
    assert_eq!(Timestamp::from_reading(Some((86_399, 999_999_999))).render(), "1970.0101.23:59:59");
    assert_eq!(Timestamp::from_reading(Some((86_400, 0))).render(), "1970.0102.00:00:00");
}

#[test]
fn clock_reading_without_a_moment_is_the_first_moment_of_1970() {
    let epoch = Timestamp::unix_epoch();
    assert_eq!(epoch.render(), "1970.0101.00:00:00");
    assert_eq!(epoch, Timestamp::from_parts(1970, 1, 1, 0, 0, 0, 0).unwrap());
    assert_eq!(Timestamp::from_reading(None), epoch);
    assert_eq!(Timestamp::from_reading(Some((u64::MAX, 0))), epoch);
    assert_eq!(Timestamp::from_reading(Some((i64::MAX as u64, 0))), epoch);
    assert_eq!(Timestamp::from_reading(Some((i64::MAX as u64 + 1, 0))), epoch);
    assert_eq!(Timestamp::from_reading(Some((1, 2_000_000_000))), epoch);
    let last = DateTime::<Utc>::MAX_UTC;
    assert_eq!(
        Timestamp::from_reading(Some((last.timestamp() as u64, 0))).render(),
        "+262142.1231.23:59:59"
    );
    assert_eq!(Timestamp::from_reading(Some((last.timestamp() as u64 + 1, 0))), epoch);
}

#[test]
fn now_is_the_reading_of_the_clock() {
    let before = Utc::now();
    let now = Timestamp::now();
    let after = Utc::now();
    let low = before.format("%Y.%m%d.%H:%M:%S").to_string();
    let high = after.format("%Y.%m%d.%H:%M:%S").to_string();
    let got = now.render();
    assert!(low <= got && got <= high, "{low} <= {got} <= {high}");
}

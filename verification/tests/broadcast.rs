use chrono::{DateTime, Datelike, Timelike, Utc};
use rsys_log::{
    broadcast_log_line, global_level, log_line, log_line_at, set_color_scheme, set_global_level,
    subscribe_logs, ColorResolver, ColorScheme, Level, LogBuilder, LogState, Registry, Subscription,
    Timestamp,
};
use std::time::{Duration, Instant};

fn stamp(ts: DateTime<Utc>) -> Timestamp {
    Timestamp::from_parts(
        ts.year(),
        ts.month(),
        ts.day(),
        ts.hour(),
        ts.minute(),
        ts.second(),
        ts.nanosecond(),
    )
    .unwrap()
}

fn fixed_time() -> Timestamp {
    stamp(DateTime::parse_from_rfc3339("2025-12-05T10:15:30Z").unwrap().with_timezone(&Utc))
}

fn recv_timeout(state: &mut LogState, sub: &Subscription, timeout: Duration) -> Option<String> {
    let deadline = Instant::now() + timeout;
    loop {
        if let Some(line) = state.try_recv(sub) {
            return Some(line);
        }
        if Instant::now() >= deadline {
            return None;
        }
    }
}

fn record(level: Level, msg: &str) -> LogBuilder {
    LogBuilder::new("s", "c", level, msg).timestamp(fixed_time()).colorize(false)
}

fn text(level: &str, msg: &str) -> String {
    format!("2025.1205.10:15:30|SSYS=s|CTRL=c|LVL={}|CID=-|MSG={}", level, msg)
}

#[test]
fn broadcasts_log_line_to_subscribers() {
    let mut state = LogState::new();
    set_global_level(&mut state, Level::Info);
    let ts = DateTime::parse_from_rfc3339("2025-12-05T10:15:30Z").unwrap().with_timezone(&Utc);
    let receiver = subscribe_logs(&mut state);
    let expected_line = "2025.1205.10:15:30|SSYS=db|CTRL=db_info|LVL=INFO|CID=123|MSG=Лог для канала";
    let line = log_line(
        &mut state,
        LogBuilder::new("db", "db_info", Level::Info, "Лог для канала")
            .timestamp(stamp(ts))
            .cid("123")
            .colorize(false),
    )
    .unwrap();
    assert_eq!(line, expected_line);
    let received = recv_timeout(&mut state, &receiver, Duration::from_millis(100))
        .expect("Должны получить строку лога из канала");
    assert_eq!(received, expected_line);
}

#[test]
fn initial_state_has_the_defaults() {
    let state = LogState::new();
    assert_eq!(global_level(&state), Level::Info);
    assert_eq!(state.issued(), 0);
    assert!(!state.holds(0));
    assert_eq!(state.resolver().resolve(Level::Trace).level, "38;5;109");
    assert_eq!(state.resolver().resolve(Level::Debug).level, "38;5;108");
    assert_eq!(state.resolver().resolve(Level::Info).level, "38;5;142");
    assert_eq!(state.resolver().resolve(Level::Warn).level, "38;5;214");
    assert_eq!(state.resolver().resolve(Level::Error).level, "38;5;167");
    for level in [Level::Trace, Level::Debug, Level::Info, Level::Warn, Level::Error] {
        let p = rsys_log::gruvbox_dark(level);
        assert_eq!(
            (p.header, p.context, p.cid, p.msg, p.key, p.value),
            ("38;5;246", "38;5;222", "38;5;175", "38;5;223", "38;5;208", "38;5;223")
        );
    }
}

#[test]
fn subscriber_receives_the_enabled_emits_in_order() {
    let mut state = LogState::new();
    set_global_level(&mut state, Level::Warn);
    assert_eq!(log_line(&mut state, record(Level::Error, "before")), Some(text("ERROR", "before")));
    let sub = subscribe_logs(&mut state);
    assert_eq!(log_line(&mut state, record(Level::Warn, "one")), Some(text("WARN", "one")));
    assert_eq!(log_line(&mut state, record(Level::Info, "skipped")), None);
    assert_eq!(log_line(&mut state, record(Level::Error, "two")), Some(text("ERROR", "two")));
    assert_eq!(log_line(&mut state, record(Level::Debug, "skipped")), None);
    assert_eq!(log_line(&mut state, record(Level::Warn, "three")), Some(text("WARN", "three")));
    assert_eq!(state.pending(&sub), 3);
    assert_eq!(state.try_recv(&sub), Some(text("WARN", "one")));
    assert_eq!(state.try_recv(&sub), Some(text("ERROR", "two")));
    assert_eq!(state.try_recv(&sub), Some(text("WARN", "three")));
    assert_eq!(state.try_recv(&sub), None);
    assert_eq!(state.pending(&sub), 0);
}

#[test]
fn every_subscriber_gets_every_line() {
    let mut state = LogState::new();
    let first = subscribe_logs(&mut state);
    broadcast_log_line(&mut state, "a");
    let second = subscribe_logs(&mut state);
    broadcast_log_line(&mut state, "b");
    assert_eq!((first.id(), second.id()), (0, 1));
    assert_eq!(state.try_recv(&second), Some("b".to_string()));
    assert_eq!(state.try_recv(&second), None);
    assert_eq!(state.try_recv(&first), Some("a".to_string()));
    assert_eq!(state.try_recv(&first), Some("b".to_string()));
    assert_eq!(state.try_recv(&first), None);
}

#[test]
fn dropped_subscriber_is_pruned_by_the_next_broadcast() {
    let mut state = LogState::new();
    let gone = subscribe_logs(&mut state);
    let stays = subscribe_logs(&mut state);
    let gone_id = gone.id();
    broadcast_log_line(&mut state, "first");
    state.unsubscribe(gone);
    assert!(state.holds(gone_id), "pruning waits for a delivery attempt");
    broadcast_log_line(&mut state, "second");
    assert!(!state.holds(gone_id));
    assert!(state.holds(stays.id()));
    assert_eq!(state.try_recv(&stays), Some("first".to_string()));
    assert_eq!(state.try_recv(&stays), Some("second".to_string()));
    assert_eq!(state.issued(), 2);
    let next = subscribe_logs(&mut state);
    assert_eq!(next.id(), 2);
}

#[test]
fn broadcast_without_subscribers_does_nothing() {
    let mut state = LogState::new();
    broadcast_log_line(&mut state, "nobody listens");
    assert_eq!(state.issued(), 0);
    let mut registry = Registry::new();
    registry.broadcast("nobody listens");
    assert_eq!(registry.issued(), 0);
    let sub = registry.subscribe();
    assert_eq!(registry.try_recv(&sub), None);
    registry.broadcast("x");
    assert_eq!(registry.pending(&sub), 1);
    assert!(registry.holds(sub.id()));
    registry.unsubscribe(sub);
    registry.broadcast("y");
    assert!(!registry.holds(0));
}

#[test]
fn error_threshold_lets_only_errors_through() {
    let mut state = LogState::new();
    set_global_level(&mut state, Level::Error);
    assert_eq!(global_level(&state), Level::Error);
    let sub = subscribe_logs(&mut state);
    assert_eq!(log_line(&mut state, record(Level::Trace, "t")), None);
    assert_eq!(log_line(&mut state, record(Level::Debug, "d")), None);
    assert_eq!(log_line(&mut state, record(Level::Info, "i")), None);
    assert_eq!(log_line(&mut state, record(Level::Warn, "w")), None);
    assert_eq!(state.pending(&sub), 0);
    assert_eq!(log_line(&mut state, record(Level::Error, "e")), Some(text("ERROR", "e")));
    assert_eq!(state.try_recv(&sub), Some(text("ERROR", "e")));
    assert_eq!(state.try_recv(&sub), None);
}

#[test]
fn trace_threshold_lets_everything_through() {
    let mut state = LogState::new();
    set_global_level(&mut state, Level::Trace);
    let sub = subscribe_logs(&mut state);
    for (level, name) in [
        (Level::Trace, "TRACE"),
        (Level::Debug, "DEBUG"),
        (Level::Info, "INFO"),
        (Level::Warn, "WARN"),
        (Level::Error, "ERROR"),
    ] {
        assert_eq!(log_line(&mut state, record(level, "m")), Some(text(name, "m")));
        assert_eq!(state.try_recv(&sub), Some(text(name, "m")));
    }
}

#[test]
fn default_threshold_is_info() {
    let mut state = LogState::new();
    assert_eq!(log_line(&mut state, record(Level::Debug, "d")), None);
    assert_eq!(log_line(&mut state, record(Level::Info, "i")), Some(text("INFO", "i")));
}

#[test]
fn emit_at_a_given_moment_stamps_records_without_timestamp() {
    let mut state = LogState::new();
    let sub = subscribe_logs(&mut state);
    let now = Timestamp::from_parts(2031, 1, 2, 3, 4, 5, 0).unwrap();
    let out = log_line_at(&mut state, LogBuilder::msg("m").colorize(false), now);
    assert_eq!(out, Some("2031.0102.03:04:05|SSYS=-|CTRL=-|LVL=INFO|CID=-|MSG=m".to_string()));
    let out = log_line_at(&mut state, record(Level::Info, "own"), now);
    assert_eq!(out, Some(text("INFO", "own")));
    assert_eq!(log_line_at(&mut state, record(Level::Debug, "low"), now), None);
    assert_eq!(state.pending(&sub), 2);
}

#[test]
fn emitted_text_joins_the_lines_with_line_feeds() {
    let mut state = LogState::new();
    let sub = subscribe_logs(&mut state);
    let out = log_line(&mut state, record(Level::Error, "m").detail("d1").detail("d2")).unwrap();
    assert_eq!(out, format!("{}\n  > d1\n  > d2", text("ERROR", "m")));
    assert_eq!(state.try_recv(&sub), Some(out));
}

#[test]
fn replaced_color_scheme_colors_later_emits() {
    fn mono(_level: Level) -> ColorScheme<'static> {
        ColorScheme { level: "1", header: "1", context: "1", cid: "1", msg: "1", key: "1", value: "1" }
    }
    let mut state = LogState::new();
    let colored = LogBuilder::new("s", "c", Level::Info, "m").timestamp(fixed_time());
    let before = log_line(&mut state, colored.clone()).unwrap();
    assert!(before.starts_with("\u{1b}[38;5;246m2025.1205.10:15:30\u{1b}[0m|"));
    set_color_scheme(&mut state, ColorResolver::from_fn(mono));
    let after = log_line(&mut state, colored).unwrap();
    assert_eq!(
        after,
        "\u{1b}[1m2025.1205.10:15:30\u{1b}[0m|\u{1b}[1mSSYS=s\u{1b}[0m|\u{1b}[1mCTRL=c\u{1b}[0m|\
\u{1b}[1mLVL=INFO\u{1b}[0m|\u{1b}[1mCID=-\u{1b}[0m|\u{1b}[1mMSG=m\u{1b}[0m"
    );
}

#[test]
fn receiving_for_a_stranger_gives_nothing() {
    let mut a = LogState::new();
    let mut b = LogState::new();
    let sub = subscribe_logs(&mut a);
    broadcast_log_line(&mut a, "x");
    assert_eq!(b.try_recv(&sub), None);
    assert_eq!(b.pending(&sub), 0);
    b.unsubscribe(sub);
    assert!(!b.holds(0));
    assert!(a.holds(0));
}

#[test]
fn emitted_lines_are_the_text_cut_at_line_feeds() {
    let mut state = LogState::new();
    let sub = subscribe_logs(&mut state);
    let lines = rsys_log::log_lines(&mut state, record(Level::Error, "m").detail("d1").detail("d2"));
    assert_eq!(
        lines,
        Some(vec![text("ERROR", "m"), "  > d1".to_string(), "  > d2".to_string()])
    );
    assert_eq!(state.try_recv(&sub), Some(format!("{}\n  > d1\n  > d2", text("ERROR", "m"))));
    assert_eq!(rsys_log::log_lines(&mut state, record(Level::Debug, "low")), None);
    assert_eq!(state.pending(&sub), 0);
    let lines = rsys_log::log_lines(&mut state, record(Level::Info, "two\nlines"));
    assert_eq!(lines, Some(vec![text("INFO", "two"), "lines".to_string()]));
}

#[test]
fn a_subscription_adds_one_subscriber_and_touches_no_queue() {
    let mut state = LogState::new();
    assert_eq!(state.subscriber_count(), 0);
    let first = subscribe_logs(&mut state);
    broadcast_log_line(&mut state, "a");
    broadcast_log_line(&mut state, "b");
    assert_eq!(state.subscriber_count(), 1);
    assert!(!state.holds(state.issued()));
    let second = subscribe_logs(&mut state);
    assert_eq!(state.subscriber_count(), 2);
    assert_eq!(state.pending(&first), 2);
    assert_eq!(state.pending(&second), 0);
    assert_eq!(state.try_recv(&second), None);
    assert_eq!(state.try_recv(&first), Some("a".to_string()));
    assert_eq!(state.try_recv(&first), Some("b".to_string()));
    state.unsubscribe(first);
    assert_eq!(state.subscriber_count(), 2);
    broadcast_log_line(&mut state, "c");
    assert_eq!(state.subscriber_count(), 1);
    assert!(!state.holds(state.issued()));
    let mut registry = Registry::new();
    assert_eq!(registry.len(), 0);
    let sub = registry.subscribe();
    assert_eq!((registry.len(), sub.id(), registry.issued()), (1, 0, 1));
}

#[test]
fn rendering_is_gated_without_a_registry() {
    let resolver = ColorResolver::gruvbox();
    let now = Timestamp::from_parts(2031, 1, 2, 3, 4, 5, 0).unwrap();
    assert_eq!(
        rsys_log::render_enabled_at(Level::Warn, &resolver, record(Level::Warn, "w"), now),
        Some(text("WARN", "w"))
    );
    assert_eq!(
        rsys_log::render_enabled_at(Level::Warn, &resolver, record(Level::Info, "i"), now),
        None
    );
    assert_eq!(
        rsys_log::render_enabled_at(
            Level::Trace,
            &resolver,
            LogBuilder::msg("m").colorize(false),
            now
        ),
        Some("2031.0102.03:04:05|SSYS=-|CTRL=-|LVL=INFO|CID=-|MSG=m".to_string())
    );
    assert_eq!(
        rsys_log::render_enabled(Level::Error, &resolver, record(Level::Error, "e")),
        Some(text("ERROR", "e"))
    );
    assert_eq!(rsys_log::render_enabled(Level::Error, &resolver, record(Level::Warn, "w")), None);
}

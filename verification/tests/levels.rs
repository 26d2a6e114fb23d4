use rsys_log::Level;

const ALL: [Level; 5] = [Level::Trace, Level::Debug, Level::Info, Level::Warn, Level::Error];

#[test]
fn parses_level_from_str() {
    assert_eq!(Level::from_str("trace"), Some(Level::Trace));
    assert_eq!(Level::from_str("DEBUG"), Some(Level::Debug));
    assert_eq!(Level::from_str("Info"), Some(Level::Info));
    assert_eq!(Level::from_str("Warn"), Some(Level::Warn));
    assert_eq!(Level::from_str("warning"), Some(Level::Warn));
    assert_eq!(Level::from_str("ERROR"), Some(Level::Error));
    assert_eq!(Level::from_str("unknown"), None);
}

#[test]
fn enabled_follows_the_rank_order() {
    for (i, a) in ALL.iter().enumerate() {
        for (j, b) in ALL.iter().enumerate() {
            assert_eq!(a.enabled(*b), i >= j, "{:?} against {:?}", a, b);
        }
    }
}

#[test]
fn names_round_trip() {
    for level in ALL {
        assert_eq!(Level::from_str(level.as_str()), Some(level));
        assert_eq!(Level::from_str(&level.as_str().to_lowercase()), Some(level));
    }
    assert_eq!(Level::Trace.as_str(), "TRACE");
    assert_eq!(Level::Debug.as_str(), "DEBUG");
    assert_eq!(Level::Info.as_str(), "INFO");
    assert_eq!(Level::Warn.as_str(), "WARN");
    assert_eq!(Level::Error.as_str(), "ERROR");
}

#[test]
fn parsing_ignores_ascii_case_only() {
    assert_eq!(Level::from_str("wArNiNg"), Some(Level::Warn));
    assert_eq!(Level::from_str("TrAcE"), Some(Level::Trace));
    assert_eq!(Level::from_str("eRROR"), Some(Level::Error));
    assert_eq!(Level::from_str(""), None);
    assert_eq!(Level::from_str(" info"), None);
    assert_eq!(Level::from_str("info "), None);
    assert_eq!(Level::from_str("warn1"), None);
    assert_eq!(Level::from_str("warnin"), None);
    // U+212A (Kelvin sign) lower-cases to `k` in Unicode, not in ASCII.
    assert_eq!(Level::from_str("debu\u{212a}"), None);
    assert_eq!(Level::from_str("ınfo"), None);
}

#[test]
fn machine_codes_are_the_ranks() {
    for (i, level) in ALL.iter().enumerate() {
        assert_eq!(level.code() as usize, i);
        assert_eq!(Level::from_code(level.code()), *level);
    }
    assert_eq!(Level::from_code(4), Level::Error);
    assert_eq!(Level::from_code(5), Level::Error);
    assert_eq!(Level::from_code(255), Level::Error);
}

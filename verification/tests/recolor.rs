use rsys_log::recolor::{apply_colors, recolor_line};
use rsys_log::{ColorResolver, ColorScheme, Level};

fn scheme(_level: Level) -> ColorScheme<'static> {
    ColorScheme {
        level: "38;5;1",
        header: "38;5;2",
        context: "38;5;3",
        cid: "38;5;4",
        msg: "38;5;5",
        key: "38;5;6",
        value: "38;5;7",
    }
}

/// The colouring written with the string functions of the standard library.
fn with_std(line: &str, p: &ColorScheme) -> String {
    let mut out = String::new();
    for (idx, part) in line.split('|').enumerate() {
        if idx > 0 {
            out.push('|');
        }
        let colored = if idx == 0 {
            format!("\x1b[{}m{}\x1b[0m", p.header, part)
        } else if part.starts_with("SSYS=") || part.starts_with("CTRL=") {
            format!("\x1b[{}m{}\x1b[0m", p.context, part)
        } else if part.starts_with("LVL=") {
            format!("\x1b[{}m{}\x1b[0m", p.level, part)
        } else if part.starts_with("CID=") {
            format!("\x1b[{}m{}\x1b[0m", p.cid, part)
        } else if part.starts_with("MSG=") {
            format!("\x1b[{}m{}\x1b[0m", p.msg, part)
        } else {
            part.split_whitespace()
                .map(|token| match token.split_once(':') {
                    Some((k, v)) => {
                        format!("\x1b[{}m{}\x1b[0m:\x1b[{}m{}\x1b[0m", p.key, k, p.value, v)
                    }
                    None => token.to_string(),
                })
                .collect::<Vec<_>>()
                .join(" ")
        };
        out.push_str(&colored);
    }
    out
}

struct Dice(u64);

impl Dice {
    fn roll(&mut self, sides: usize) -> usize {
        self.0 = self.0.wrapping_mul(6364136223846793005).wrapping_add(1442695040888963407);
        ((self.0 >> 33) as usize) % sides
    }
}

const PIECES: [&str; 24] = [
    "|", "|", "|", ":", ":", " ", " ", "\t", "\u{a0}", "\u{2003}", "\n", "SSYS=", "CTRL=", "LVL=",
    "CID=", "MSG=", "SSYS", "=", "a", "key", "ж", "値", "\u{1b}[0m", "0",
];

#[test]
fn recolor_agrees_with_the_standard_string_functions() {
    let p = scheme(Level::Info);
    let mut dice = Dice(2025);
    for _ in 0..20000 {
        let n = dice.roll(12);
        let mut line = String::new();
        for _ in 0..n {
            line.push_str(PIECES[dice.roll(PIECES.len())]);
        }
        assert_eq!(recolor_line(&line, &p), with_std(&line, &p), "{:?}", line);
    }
}

#[test]
fn recolor_of_a_rendered_head() {
    let p = scheme(Level::Info);
    let line = "2025.1205.10:15:30|SSYS=db|CTRL=migrator|LVL=INFO|CID=op12|MSG=Migration applied|name:2025-12-01-001-rbac dur_ms:214";
    let got = recolor_line(line, &p);
    assert_eq!(got, with_std(line, &p));
    assert_eq!(
        got,
        "\u{1b}[38;5;2m2025.1205.10:15:30\u{1b}[0m|\u{1b}[38;5;3mSSYS=db\u{1b}[0m|\
\u{1b}[38;5;3mCTRL=migrator\u{1b}[0m|\u{1b}[38;5;1mLVL=INFO\u{1b}[0m|\u{1b}[38;5;4mCID=op12\u{1b}[0m|\
\u{1b}[38;5;5mMSG=Migration applied\u{1b}[0m|\
\u{1b}[38;5;6mname\u{1b}[0m:\u{1b}[38;5;7m2025-12-01-001-rbac\u{1b}[0m \
\u{1b}[38;5;6mdur_ms\u{1b}[0m:\u{1b}[38;5;7m214\u{1b}[0m"
    );
}

#[test]
fn recolor_is_not_idempotent() {
    let p = scheme(Level::Info);
    let once = recolor_line("t|k:v", &p);
    let twice = recolor_line(&once, &p);
    assert_ne!(once, twice);
    assert_eq!(twice, with_std(&once, &p));
}

#[test]
fn apply_colors_takes_the_palette_of_the_severity() {
    fn by_level(level: Level) -> ColorScheme<'static> {
        match level {
            Level::Trace => ColorScheme { header: "10", ..scheme(level) },
            Level::Debug => ColorScheme { header: "11", ..scheme(level) },
            Level::Info => ColorScheme { header: "12", ..scheme(level) },
            Level::Warn => ColorScheme { header: "13", ..scheme(level) },
            Level::Error => ColorScheme { header: "14", ..scheme(level) },
        }
    }
    let resolver = ColorResolver::from_fn(by_level);
    assert_eq!(apply_colors("t", Level::Trace, &resolver), "\u{1b}[10mt\u{1b}[0m");
    assert_eq!(apply_colors("t", Level::Debug, &resolver), "\u{1b}[11mt\u{1b}[0m");
    assert_eq!(apply_colors("t", Level::Info, &resolver), "\u{1b}[12mt\u{1b}[0m");
    assert_eq!(apply_colors("t", Level::Warn, &resolver), "\u{1b}[13mt\u{1b}[0m");
    assert_eq!(apply_colors("t", Level::Error, &resolver), "\u{1b}[14mt\u{1b}[0m");
}

#[test]
fn split_text_agrees_with_the_standard_split() {
    let mut dice = Dice(7);
    for _ in 0..5000 {
        let n = dice.roll(10);
        let mut line = String::new();
        for _ in 0..n {
            line.push_str(PIECES[dice.roll(PIECES.len())]);
        }
        for sep in ['|', '\n', ':', 'ж'] {
            let want: Vec<String> = line.split(sep).map(|s| s.to_string()).collect();
            assert_eq!(rsys_log::text::split_text(&line, sep), want, "{:?} at {:?}", line, sep);
        }
    }
    assert_eq!(rsys_log::text::split_text("", '|'), vec!["".to_string()]);
    assert_eq!(rsys_log::text::split_text("a|", '|'), vec!["a".to_string(), "".to_string()]);
}

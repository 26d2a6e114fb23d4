//! Conveniences around the builder: a short constructor, the minimum
//! severity read from a setting, and the shortening of long values.

use crate::builder::{LogBuilder, Record};
use crate::level::{parse_level, Level};
use crate::text::{
    chars_of, first_hit, is_space, is_space_char, lemma_first_hit, lemma_first_hit_is, push_range,
    scan, Mark,
};
use vstd::prelude::*;
use vstd::string::StringExecFns;

verus! {

/// A record of severity `level` with the given subsystem, controller and
/// message, and the defaults of `LogBuilder::new` for the rest.
pub fn log(ssys: &str, ctrl: &str, level: Level, msg: &str) -> (b: LogBuilder)
    ensures
        b@ == (Record {
            timestamp: None,
            subsystem: ssys@,
            controller: ctrl@,
            level: level,
            cid: "-"@,
            msg: msg@,
            data: Seq::empty(),
            details: Seq::empty(),
            colorize: true,
        }),
{
    LogBuilder::new(ssys, ctrl, level, msg)
}

/// A value of at most `max` characters as it is; a longer one cut to its
/// first `max` characters, with three dots behind them.
pub open spec fn compact_text(value: Seq<char>, max: nat) -> Seq<char> {
    if value.len() <= max {
        value
    } else {
        value.take(max as int) + "..."@
    }
}

/// Shortens a value to at most `max` characters, marking the cut with three
/// dots.
pub fn compact(value: &str, max: usize) -> (out: String)
    ensures
        out@ == compact_text(value@, max as nat),
{
    let chars = chars_of(value);
    if chars.len() <= max {
        value.to_owned()
    } else {
        let mut out = String::new();
        push_range(&mut out, chars.as_slice(), 0, max);
        out.append("...");
        assert(out@ =~= value@.take(max as int) + "..."@);
        out
    }
}

/// What a cut value is made of: it is the value when that is short enough,
/// and otherwise begins with the first `max` characters of the value and is
/// three characters longer than `max`.
pub proof fn lemma_compact_length(value: Seq<char>, max: nat)
    ensures
        value.len() <= max ==> compact_text(value, max) == value,
        value.len() > max ==> compact_text(value, max).len() == max + 3,
        value.len() > max ==> compact_text(value, max).take(max as int) == value.take(max as int),
        compact_text(value, max).len() <= max + 3,
{
    reveal_strlit("...");
    if value.len() > max {
        assert(compact_text(value, max).take(max as int) =~= value.take(max as int));
    }
}

/// The number of white-space characters at the end of `s`.
pub open spec fn trailing_spaces(s: Seq<char>) -> nat {
    first_hit(s.reverse(), Mark::NonSpace)
}

/// `s` without the white space at its two ends.
pub open spec fn trimmed(s: Seq<char>) -> Seq<char> {
    let from = first_hit(s, Mark::NonSpace) as int;
    let to = s.len() - trailing_spaces(s);
    if from < to {
        s.subrange(from, to)
    } else {
        Seq::empty()
    }
}

/// The text of a setting before its first comma.
pub open spec fn first_entry(setting: Seq<char>) -> Seq<char> {
    setting.take(first_hit(setting, Mark::Is(',')) as int)
}

/// The minimum severity that a setting asks for: the severity named by its
/// first comma-separated entry, white space around the entry aside; info
/// when there is no setting or the entry names no severity.
pub open spec fn setting_level(setting: Option<Seq<char>>) -> Level {
    match setting {
        Some(text) => match parse_level(trimmed(first_entry(text))) {
            Some(level) => level,
            None => Level::Info,
        },
        None => Level::Info,
    }
}

/// The bounds of `chars[from..to]` without the white space at its two ends.
fn trim_bounds(chars: &[char], from: usize, to: usize) -> (r: (usize, usize))
    requires
        from <= to <= chars@.len(),
    ensures
        from <= r.0 <= r.1 <= to,
        chars@.subrange(r.0 as int, r.1 as int) == trimmed(chars@.subrange(from as int, to as int)),
{
    let ghost s = chars@.subrange(from as int, to as int);
    let start = scan(chars, from, to, Mark::NonSpace);
    let mut end: usize = to;
    while end > start && is_space_char(chars[end - 1])
        invariant
            from <= start <= end <= to <= chars@.len(),
            forall|j: int| end <= j < to ==> is_space(#[trigger] chars@[j]),
        decreases end,
    {
        end -= 1;
    }
    proof {
        lemma_first_hit(s, Mark::NonSpace);
        let back = s.reverse();
        let k = to - end;
        if start == to {
            // Nothing but white space.
            assert forall|j: int| 0 <= j < back.len() implies !Mark::NonSpace.hits(
                #[trigger] back[j],
            ) by {
                assert(back[j] == s[s.len() - 1 - j]);
            }
            lemma_first_hit_is(back, Mark::NonSpace, back.len() as int);
            assert(chars@.subrange(start as int, end as int) =~= Seq::<char>::empty());
        } else {
            assert(!is_space(s[start - from]));
            assert(end > start);
            assert forall|j: int| 0 <= j < k implies !Mark::NonSpace.hits(#[trigger] back[j]) by {
                assert(back[j] == s[s.len() - 1 - j]);
                assert(s[s.len() - 1 - j] == chars@[to - 1 - j]);
            }
            assert(back[k as int] == s[s.len() - 1 - k]);
            assert(s[s.len() - 1 - k] == chars@[end - 1]);
            lemma_first_hit_is(back, Mark::NonSpace, k as int);
            assert(chars@.subrange(start as int, end as int) =~= s.subrange(
                start - from,
                s.len() - k,
            ));
        }
    }
    (start, end)
}

/// The minimum severity that a setting asks for. A setting is a
/// comma-separated list of which the first entry counts.
pub fn level_from_setting(setting: Option<&str>) -> (level: Level)
    ensures
        level == setting_level(
            match setting {
                Some(text) => Some(text@),
                None => None,
            },
        ),
{
    match setting {
        None => Level::Info,
        Some(text) => {
            let chars = chars_of(text);
            let comma = scan(chars.as_slice(), 0, chars.len(), Mark::Is(','));
            assert(chars@.subrange(0, chars@.len() as int) =~= text@);
            let (from, to) = trim_bounds(chars.as_slice(), 0, comma);
            let mut entry = String::new();
            push_range(&mut entry, chars.as_slice(), from, to);
            assert(chars@.subrange(0, comma as int) =~= first_entry(text@));
            assert(entry@ =~= trimmed(first_entry(text@)));
            match Level::from_str(entry.as_str()) {
                Some(level) => level,
                None => Level::Info,
            }
        },
    }
}

} // verus!

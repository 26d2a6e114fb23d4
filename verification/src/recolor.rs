//! Colouring of a composed head line: every span between two pipes is
//! wrapped in the colour of what it holds, the pipes themselves stay plain.

use crate::colorscheme::{ColorResolver, ColorScheme, Palette};
use crate::level::Level;
use crate::text::{
    chars_of, first_hit, join, lemma_first_hit, lemma_join_push, push_range, scan, split,
    starts_with, words, Mark,
};
use vstd::prelude::*;
use vstd::string::StringExecFns;

verus! {

/// `text` between the escape that selects the colour `code` and the escape
/// that resets it.
pub open spec fn paint(code: Seq<char>, text: Seq<char>) -> Seq<char> {
    "\x1b["@ + code + "m"@ + text + "\x1b[0m"@
}

/// One word of the key/value block. A word with a colon is a key and a value
/// around its first colon, each painted in its colour; a word without one is
/// left as it is.
pub open spec fn paint_word(word: Seq<char>, p: Palette) -> Seq<char> {
    let i = first_hit(word, Mark::Is(':')) as int;
    if 0 <= i < word.len() {
        paint(p.key, word.take(i)) + ":"@ + paint(p.value, word.skip(i + 1))
    } else {
        word
    }
}

/// The words of a key/value block, each painted.
pub open spec fn paint_words(ws: Seq<Seq<char>>, p: Palette) -> Seq<Seq<char>> {
    Seq::new(ws.len(), |i: int| paint_word(ws[i], p))
}

/// A key/value block: its words, each painted, with one blank between them.
pub open spec fn paint_fields(segment: Seq<char>, p: Palette) -> Seq<char> {
    join(paint_words(words(segment), p), " "@)
}

/// One span of the line. The first span is the timestamp; a later one is
/// told by how it begins, and is a key/value block when it begins with none
/// of the known tags.
pub open spec fn paint_segment(first: bool, segment: Seq<char>, p: Palette) -> Seq<char> {
    if first {
        paint(p.header, segment)
    } else if "SSYS="@.is_prefix_of(segment) || "CTRL="@.is_prefix_of(segment) {
        paint(p.context, segment)
    } else if "LVL="@.is_prefix_of(segment) {
        paint(p.level, segment)
    } else if "CID="@.is_prefix_of(segment) {
        paint(p.cid, segment)
    } else if "MSG="@.is_prefix_of(segment) {
        paint(p.msg, segment)
    } else {
        paint_fields(segment, p)
    }
}

/// The spans of a line, each painted.
pub open spec fn paint_segments(segments: Seq<Seq<char>>, p: Palette) -> Seq<Seq<char>> {
    Seq::new(segments.len(), |i: int| paint_segment(i == 0, segments[i], p))
}

/// The line with its spans painted and its pipes left plain.
pub open spec fn recolor(line: Seq<char>, p: Palette) -> Seq<char> {
    join(paint_segments(split(line, '|'), p), "|"@)
}

/// Appends `chars[from..to]` painted in the colour `code`.
fn push_painted(out: &mut String, code: &str, chars: &[char], from: usize, to: usize)
    requires
        from <= to <= chars@.len(),
    ensures
        final(out)@ == old(out)@ + paint(code@, chars@.subrange(from as int, to as int)),
{
    out.append("\x1b[");
    out.append(code);
    out.append("m");
    push_range(out, chars, from, to);
    out.append("\x1b[0m");
    assert(out@ =~= old(out)@ + paint(code@, chars@.subrange(from as int, to as int)));
}

/// Appends the word `chars[from..to]` of a key/value block, painted.
fn push_word(out: &mut String, chars: &[char], from: usize, to: usize, scheme: &ColorScheme)
    requires
        from <= to <= chars@.len(),
    ensures
        final(out)@ == old(out)@ + paint_word(chars@.subrange(from as int, to as int), scheme@),
{
    let ghost word = chars@.subrange(from as int, to as int);
    let colon = scan(chars, from, to, Mark::Is(':'));
    if colon < to {
        push_painted(out, scheme.key, chars, from, colon);
        out.append(":");
        push_painted(out, scheme.value, chars, colon + 1, to);
        assert(word.take(colon - from) =~= chars@.subrange(from as int, colon as int));
        assert(word.skip(colon - from + 1) =~= chars@.subrange(colon + 1, to as int));
        assert(out@ =~= old(out)@ + paint_word(word, scheme@));
    } else {
        push_range(out, chars, from, to);
    }
}

/// Appends the key/value block `chars[from..to]`, painted word by word.
fn push_fields(out: &mut String, chars: &[char], from: usize, to: usize, scheme: &ColorScheme)
    requires
        from <= to <= chars@.len(),
    ensures
        final(out)@ == old(out)@ + paint_fields(chars@.subrange(from as int, to as int), scheme@),
{
    let ghost segment = chars@.subrange(from as int, to as int);
    let ghost p = scheme@;
    let ghost mut done: Seq<Seq<char>> = Seq::empty();
    let mut pos: usize = from;
    let mut first = true;
    assert(segment.skip(0) =~= segment);
    assert(done + words(segment.skip(0)) =~= words(segment));
    assert(paint_words(done, p) =~= Seq::<Seq<char>>::empty());
    assert(out@ =~= old(out)@ + join(paint_words(done, p), " "@));
    loop
        invariant_except_break
            from <= pos <= to <= chars@.len(),
            segment == chars@.subrange(from as int, to as int),
            p == scheme@,
            first == (done.len() == 0),
            done + words(segment.skip(pos - from)) == words(segment),
            out@ == old(out)@ + join(paint_words(done, p), " "@),
        ensures
            out@ == old(out)@ + paint_fields(segment, p),
        decreases to - pos,
    {
        let ghost rest = segment.skip(pos - from);
        let start = scan(chars, pos, to, Mark::NonSpace);
        assert(chars@.subrange(pos as int, to as int) =~= rest);
        if start >= to {
            assert(words(rest) =~= Seq::<Seq<char>>::empty());
            assert(done =~= words(segment));
            break;
        }
        let end = scan(chars, start, to, Mark::Space);
        let ghost tail = rest.skip(start - pos);
        let ghost word = chars@.subrange(start as int, end as int);
        assert(chars@.subrange(start as int, to as int) =~= tail);
        proof {
            lemma_first_hit(tail, Mark::Space);
            lemma_first_hit(rest, Mark::NonSpace);
            assert(tail[0] == rest[start - pos]);
            assert(end > start);
            assert(tail.take(end - start) =~= word);
            assert(tail.skip(end - start) =~= segment.skip(end - from));
            assert(words(rest) == seq![word] + words(segment.skip(end - from)));
        }
        let ghost before = out@;
        if !first {
            out.append(" ");
        }
        push_word(out, chars, start, end, scheme);
        proof {
            lemma_join_push(paint_words(done, p), paint_word(word, p), " "@);
            assert(paint_words(done.push(word), p) =~= paint_words(done, p).push(
                paint_word(word, p),
            ));
            assert(out@ =~= old(out)@ + join(paint_words(done.push(word), p), " "@));
            assert(done.push(word) + words(segment.skip(end - from)) =~= done + words(rest));
            done = done.push(word);
        }
        first = false;
        pos = end;
    }
}

/// Appends the span `chars[from..to]` of a line, painted as what it holds.
fn push_segment(
    out: &mut String,
    first: bool,
    chars: &[char],
    from: usize,
    to: usize,
    scheme: &ColorScheme,
)
    requires
        from <= to <= chars@.len(),
    ensures
        final(out)@ == old(out)@ + paint_segment(
            first,
            chars@.subrange(from as int, to as int),
            scheme@,
        ),
{
    if first {
        push_painted(out, scheme.header, chars, from, to);
    } else if starts_with(chars, from, to, "SSYS=") || starts_with(chars, from, to, "CTRL=") {
        push_painted(out, scheme.context, chars, from, to);
    } else if starts_with(chars, from, to, "LVL=") {
        push_painted(out, scheme.level, chars, from, to);
    } else if starts_with(chars, from, to, "CID=") {
        push_painted(out, scheme.cid, chars, from, to);
    } else if starts_with(chars, from, to, "MSG=") {
        push_painted(out, scheme.msg, chars, from, to);
    } else {
        push_fields(out, chars, from, to, scheme);
    }
}

/// Paints a composed head line with the colours of `scheme`.
pub fn recolor_line(line: &str, scheme: &ColorScheme) -> (out: String)
    ensures
        out@ == recolor(line@, scheme@),
{
    let chars = chars_of(line);
    let n = chars.len();
    let ghost p = scheme@;
    let ghost mut done: Seq<Seq<char>> = Seq::empty();
    let mut out = String::new();
    let mut pos: usize = 0;
    let mut first = true;
    assert(line@.skip(0) =~= line@);
    assert(done + split(line@.skip(0), '|') =~= split(line@, '|'));
    assert(paint_segments(done, p) =~= Seq::<Seq<char>>::empty());
    assert(out@ =~= join(paint_segments(done, p), "|"@));
    loop
        invariant_except_break
            chars@ == line@,
            n == chars@.len(),
            p == scheme@,
            pos <= n,
            first == (done.len() == 0),
            done + split(line@.skip(pos as int), '|') == split(line@, '|'),
            out@ == join(paint_segments(done, p), "|"@),
        ensures
            out@ == recolor(line@, p),
        decreases n - pos,
    {
        let ghost rest = line@.skip(pos as int);
        let bar = scan(chars.as_slice(), pos, n, Mark::Is('|'));
        let ghost segment = chars@.subrange(pos as int, bar as int);
        assert(chars@.subrange(pos as int, n as int) =~= rest);
        if !first {
            out.append("|");
        }
        push_segment(&mut out, first, chars.as_slice(), pos, bar, scheme);
        proof {
            lemma_join_push(paint_segments(done, p), paint_segment(first, segment, p), "|"@);
            assert(paint_segments(done.push(segment), p) =~= paint_segments(done, p).push(
                paint_segment(first, segment, p),
            ));
            assert(out@ =~= join(paint_segments(done.push(segment), p), "|"@));
        }
        if bar >= n {
            proof {
                assert(segment =~= rest);
                assert(split(rest, '|') =~= seq![rest]);
                assert(done.push(segment) =~= split(line@, '|'));
            }
            break;
        }
        proof {
            assert(rest.take(bar - pos) =~= segment);
            assert(rest.skip(bar - pos + 1) =~= line@.skip(bar + 1));
            assert(done.push(segment) + split(line@.skip(bar + 1), '|') =~= done + split(
                rest,
                '|',
            ));
            done = done.push(segment);
        }
        first = false;
        pos = bar + 1;
    }
    out
}

/// Paints a composed head line with the palette that `resolver` answers
/// with for `level`.
pub fn apply_colors(line: &str, level: Level, resolver: &ColorResolver) -> (out: String)
    ensures
        out@ == recolor(line@, resolver.palette(level)),
{
    let scheme = resolver.resolve(level);
    recolor_line(line, &scheme)
}

} // verus!

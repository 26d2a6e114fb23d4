//! Small verified helpers over character sequences.

use vstd::prelude::*;

verus! {

/// The lower-case form of an ASCII capital; every other character is itself.
pub open spec fn lower_char(c: char) -> char {
    if 'A' <= c && c <= 'Z' {
        ((c as u8 + 32) as u8) as char
    } else {
        c
    }
}

/// `s` with every ASCII capital replaced by its lower-case form.
pub open spec fn ascii_lower(s: Seq<char>) -> Seq<char> {
    s.map_values(|c: char| lower_char(c))
}

/// Lower-cases one character when it is an ASCII capital.
pub fn to_lower_char(c: char) -> (r: char)
    ensures
        r == lower_char(c),
{
    let n: u32 = c as u32;
    if 65 <= n && n <= 90 {
        let b: u8 = c as u8;
        (b + 32) as char
    } else {
        c
    }
}

/// The texts of a list of strings.
pub open spec fn texts(lines: Seq<String>) -> Seq<Seq<char>> {
    Seq::new(lines.len(), |i: int| lines[i]@)
}

/// `String::push` of the standard library: the text afterwards is the text
/// before with `ch` appended as its last character.
pub assume_specification[ String::push ](s: &mut String, ch: char)
    ensures
        final(s)@ == old(s)@.push(ch),
;

/// Appends the characters `chars[from..to]` to `out`.
pub fn push_range(out: &mut String, chars: &[char], from: usize, to: usize)
    requires
        from <= to <= chars@.len(),
    ensures
        final(out)@ == old(out)@ + chars@.subrange(from as int, to as int),
{
    let mut i: usize = from;
    while i < to
        invariant
            from <= i <= to <= chars@.len(),
            out@ == old(out)@ + chars@.subrange(from as int, i as int),
        decreases to - i,
    {
        out.push(chars[i]);
        assert(chars@.subrange(from as int, i + 1) == chars@.subrange(from as int, i as int).push(
            chars@[i as int],
        ));
        i += 1;
    }
}

/// Whether `chars[from..to]` begins with the characters of `pat`.
pub fn starts_with(chars: &[char], from: usize, to: usize, pat: &str) -> (r: bool)
    requires
        from <= to <= chars@.len(),
    ensures
        r == pat@.is_prefix_of(chars@.subrange(from as int, to as int)),
{
    let p = chars_of(pat);
    let n = p.len();
    if n > to - from {
        return false;
    }
    let ghost seg = chars@.subrange(from as int, to as int);
    let mut i: usize = 0;
    while i < n
        invariant
            from <= to <= chars@.len(),
            p@ == pat@,
            n == p@.len(),
            n <= to - from,
            i <= n,
            seg == chars@.subrange(from as int, to as int),
            forall|j: int| 0 <= j < i ==> p@[j] == #[trigger] seg[j],
        decreases n - i,
    {
        if p[i] != chars[from + i] {
            assert(seg[i as int] == chars@[from + i]);
            assert(seg.subrange(0, p@.len() as int)[i as int] == seg[i as int]);
            assert(!(p@ =~= seg.subrange(0, p@.len() as int)));
            return false;
        }
        assert(seg[i as int] == chars@[from + i]);
        i += 1;
    }
    assert(p@ =~= seg.subrange(0, n as int));
    true
}

/// The characters of `s`, in order.
pub fn chars_of(s: &str) -> (v: Vec<char>)
    ensures
        v@ == s@,
{
    let mut v: Vec<char> = Vec::new();
    for c in it: s.chars()
        invariant
            it.seq() == s@,
            v@ == s@.take(it.index() as int),
    {
        v.push(c);
    }
    v
}

/// Whether two slices hold the same characters in the same order.
pub fn same_chars(a: &[char], b: &[char]) -> (r: bool)
    ensures
        r == (a@ == b@),
{
    if a.len() != b.len() {
        return false;
    }
    let mut i: usize = 0;
    while i < a.len()
        invariant
            a.len() == b.len(),
            i <= a.len(),
            a@.take(i as int) == b@.take(i as int),
        decreases a.len() - i,
    {
        if a[i] != b[i] {
            return false;
        }
        assert(a@.take(i + 1) == a@.take(i as int).push(a@[i as int]));
        assert(b@.take(i + 1) == b@.take(i as int).push(b@[i as int]));
        i += 1;
    }
    assert(a@.take(i as int) == a@);
    assert(b@.take(i as int) == b@);
    true
}

/// The characters of `s` with every ASCII capital lower-cased.
pub fn lowered_chars(s: &str) -> (v: Vec<char>)
    ensures
        v@ == ascii_lower(s@),
{
    let mut v: Vec<char> = Vec::new();
    for c in it: s.chars()
        invariant
            it.seq() == s@,
            v@ == ascii_lower(s@.take(it.index() as int)),
    {
        assert(s@.take(it.index() + 1) == s@.take(it.index() as int).push(c));
        v.push(to_lower_char(c));
        assert(v@ == ascii_lower(s@.take(it.index() + 1)));
    }
    assert(s@.take(s@.len() as int) == s@);
    v
}

/// Whether `v` holds exactly the characters of `lit`.
pub fn is_text(v: &Vec<char>, lit: &str) -> (r: bool)
    ensures
        r == (v@ == lit@),
{
    let w = chars_of(lit);
    same_chars(v.as_slice(), w.as_slice())
}

/// Whether `c` is white space: one of the characters that Unicode marks
/// `White_Space`.
pub open spec fn is_space(c: char) -> bool {
    let n = c as u32;
    ||| 0x09 <= n <= 0x0d
    ||| n == 0x20
    ||| n == 0x85
    ||| n == 0xa0
    ||| n == 0x1680
    ||| 0x2000 <= n <= 0x200a
    ||| n == 0x2028
    ||| n == 0x2029
    ||| n == 0x202f
    ||| n == 0x205f
    ||| n == 0x3000
}

/// Tests a character for white space.
pub fn is_space_char(c: char) -> (b: bool)
    ensures
        b == is_space(c),
{
    let n: u32 = c as u32;
    (0x09 <= n && n <= 0x0d) || n == 0x20 || n == 0x85 || n == 0xa0 || n == 0x1680 || (0x2000 <= n
        && n <= 0x200a) || n == 0x2028 || n == 0x2029 || n == 0x202f || n == 0x205f || n == 0x3000
}

/// What a scan over text looks for.
#[derive(Debug, Clone, Copy)]
pub enum Mark {
    /// One given character.
    Is(char),
    /// Any white space.
    Space,
    /// Anything but white space.
    NonSpace,
}

impl Mark {
    /// Whether `c` is what the scan looks for.
    pub open spec fn hits(self, c: char) -> bool {
        match self {
            Mark::Is(d) => c == d,
            Mark::Space => is_space(c),
            Mark::NonSpace => !is_space(c),
        }
    }

    /// Tests one character.
    pub fn test(&self, c: char) -> (b: bool)
        ensures
            b == self.hits(c),
    {
        match self {
            Mark::Is(d) => c == *d,
            Mark::Space => is_space_char(c),
            Mark::NonSpace => !is_space_char(c),
        }
    }
}

/// The index of the first character of `s` that `mark` hits, or the length
/// of `s` when it hits none.
pub open spec fn first_hit(s: Seq<char>, mark: Mark) -> nat
    decreases s.len(),
{
    if s.len() == 0 || mark.hits(s[0]) {
        0
    } else {
        1 + first_hit(s.skip(1), mark)
    }
}

/// `first_hit` lies within the text, nothing before it is hit, and the
/// character at it, if there is one, is hit.
pub proof fn lemma_first_hit(s: Seq<char>, mark: Mark)
    ensures
        first_hit(s, mark) <= s.len(),
        forall|j: int| 0 <= j < first_hit(s, mark) ==> !mark.hits(#[trigger] s[j]),
        first_hit(s, mark) < s.len() ==> mark.hits(s[first_hit(s, mark) as int]),
    decreases s.len(),
{
    if s.len() == 0 || mark.hits(s[0]) {
    } else {
        let t = s.skip(1);
        lemma_first_hit(t, mark);
        assert forall|j: int| 0 <= j < first_hit(s, mark) implies !mark.hits(#[trigger] s[j]) by {
            if j > 0 {
                assert(s[j] == t[j - 1]);
            }
        }
        if first_hit(s, mark) < s.len() {
            assert(s[first_hit(s, mark) as int] == t[first_hit(t, mark) as int]);
        }
    }
}

/// An index that nothing before it hits, and that is itself hit or the end of
/// the text, is `first_hit`.
pub proof fn lemma_first_hit_is(s: Seq<char>, mark: Mark, k: int)
    requires
        0 <= k <= s.len(),
        forall|j: int| 0 <= j < k ==> !mark.hits(#[trigger] s[j]),
        k < s.len() ==> mark.hits(s[k]),
    ensures
        first_hit(s, mark) == k,
{
    lemma_first_hit(s, mark);
    let i = first_hit(s, mark) as int;
    if i < k {
        assert(!mark.hits(s[i]));
    } else if k < i {
        assert(mark.hits(s[k]));
    }
}

/// The index at or after `from`, and at most `to`, of the first character
/// that `mark` hits; `to` when it hits none in that range.
pub fn scan(chars: &[char], from: usize, to: usize, mark: Mark) -> (k: usize)
    requires
        from <= to <= chars@.len(),
    ensures
        from <= k <= to,
        k - from == first_hit(chars@.subrange(from as int, to as int), mark),
{
    let mut k: usize = from;
    while k < to && !mark.test(chars[k])
        invariant
            from <= k <= to <= chars@.len(),
            forall|j: int| from <= j < k ==> !mark.hits(#[trigger] chars@[j]),
        decreases to - k,
    {
        k += 1;
    }
    proof {
        let s = chars@.subrange(from as int, to as int);
        assert forall|j: int| 0 <= j < k - from implies !mark.hits(#[trigger] s[j]) by {
            assert(s[j] == chars@[from + j]);
        }
        lemma_first_hit_is(s, mark, k - from);
    }
    k
}

/// The pieces of `s` between the occurrences of `sep`: one more piece than
/// there are occurrences, so the empty text has one empty piece.
pub open spec fn split(s: Seq<char>, sep: char) -> Seq<Seq<char>>
    decreases s.len(),
{
    let i = first_hit(s, Mark::Is(sep)) as int;
    if 0 <= i < s.len() {
        seq![s.take(i)] + split(s.skip(i + 1), sep)
    } else {
        seq![s]
    }
}

/// A text without `sep` is its own single piece.
pub proof fn lemma_split_whole(s: Seq<char>, sep: char)
    requires
        !s.contains(sep),
    ensures
        split(s, sep) == seq![s],
{
    lemma_first_hit(s, Mark::Is(sep));
    let i = first_hit(s, Mark::Is(sep)) as int;
    if i < s.len() {
        assert(s[i] == sep);
        assert(s.contains(sep));
    }
}

/// Splitting `a`, `sep`, `b` written one after the other, where `a` holds no
/// `sep`: the first piece is `a`, the others are the pieces of `b`.
pub proof fn lemma_split_first(a: Seq<char>, b: Seq<char>, sep: char)
    requires
        !a.contains(sep),
    ensures
        split(a + seq![sep] + b, sep) == seq![a] + split(b, sep),
{
    let s = a + seq![sep] + b;
    let k = a.len() as int;
    assert forall|j: int| 0 <= j < k implies !Mark::Is(sep).hits(#[trigger] s[j]) by {
        assert(s[j] == a[j]);
        if a[j] == sep {
            assert(a.contains(sep));
        }
    }
    assert(s[k] == sep);
    lemma_first_hit_is(s, Mark::Is(sep), k);
    assert(s.take(k) =~= a);
    assert(s.skip(k + 1) =~= b);
}

/// The pieces of a text, joined by the separator again, are the text.
pub proof fn lemma_join_split(s: Seq<char>, sep: char)
    ensures
        join(split(s, sep), seq![sep]) == s,
    decreases s.len(),
{
    lemma_first_hit(s, Mark::Is(sep));
    let i = first_hit(s, Mark::Is(sep)) as int;
    if i < s.len() {
        let rest = s.skip(i + 1);
        lemma_join_split(rest, sep);
        lemma_join_prepend(s.take(i), split(rest, sep), seq![sep]);
        lemma_split_nonempty(rest, sep);
        assert(s.take(i) + seq![sep] + rest =~= s);
    }
}

/// A text has at least one piece, and no piece holds the separator.
pub proof fn lemma_split_nonempty(s: Seq<char>, sep: char)
    ensures
        split(s, sep).len() >= 1,
        forall|k: int| 0 <= k < split(s, sep).len() ==> !(#[trigger] split(s, sep)[k]).contains(sep),
    decreases s.len(),
{
    lemma_first_hit(s, Mark::Is(sep));
    let i = first_hit(s, Mark::Is(sep)) as int;
    if i < s.len() {
        let rest = s.skip(i + 1);
        lemma_split_nonempty(rest, sep);
        let head = s.take(i);
        assert(!head.contains(sep)) by {
            if head.contains(sep) {
                let j = choose|j: int| 0 <= j < head.len() && head[j] == sep;
                assert(s[j] == sep);
            }
        }
        assert forall|k: int| 0 <= k < split(s, sep).len() implies !(#[trigger] split(
            s,
            sep,
        )[k]).contains(sep) by {
            if k > 0 {
                assert(split(s, sep)[k] == split(rest, sep)[k - 1]);
            }
        }
    } else {
        assert(!s.contains(sep)) by {
            if s.contains(sep) {
                let j = choose|j: int| 0 <= j < s.len() && s[j] == sep;
                assert(Mark::Is(sep).hits(s[j]));
            }
        }
    }
}

/// Joining with one more part in front: the separator follows it unless it
/// is the only part.
pub proof fn lemma_join_prepend(part: Seq<char>, parts: Seq<Seq<char>>, sep: Seq<char>)
    ensures
        join(seq![part] + parts, sep) == if parts.len() == 0 {
            part
        } else {
            part + sep + join(parts, sep)
        },
    decreases parts.len(),
{
    let all = seq![part] + parts;
    if parts.len() == 0 {
        assert(all =~= seq![part]);
    } else {
        assert(all.drop_last() =~= seq![part] + parts.drop_last());
        assert(all.last() == parts.last());
        lemma_join_prepend(part, parts.drop_last(), sep);
        if parts.len() == 1 {
            assert(parts.drop_last().len() == 0);
            assert(join(all, sep) =~= part + sep + parts.last());
        } else {
            assert(join(all, sep) =~= part + sep + join(parts, sep));
        }
    }
}

/// Cuts `s` at every `sep` into its pieces.
pub fn split_text(s: &str, sep: char) -> (pieces: Vec<String>)
    ensures
        texts(pieces@) == split(s@, sep),
{
    let chars = chars_of(s);
    let n = chars.len();
    let mut pieces: Vec<String> = Vec::new();
    let mut pos: usize = 0;
    assert(s@.skip(0) =~= s@);
    assert(texts(pieces@) + split(s@.skip(0), sep) =~= split(s@, sep));
    loop
        invariant_except_break
            chars@ == s@,
            n == chars@.len(),
            pos <= n,
            texts(pieces@) + split(s@.skip(pos as int), sep) == split(s@, sep),
        ensures
            texts(pieces@) == split(s@, sep),
        decreases n - pos,
    {
        let ghost rest = s@.skip(pos as int);
        let ghost done = texts(pieces@);
        let cut = scan(chars.as_slice(), pos, n, Mark::Is(sep));
        let mut piece = String::new();
        push_range(&mut piece, chars.as_slice(), pos, cut);
        pieces.push(piece);
        proof {
            assert(chars@.subrange(pos as int, n as int) =~= rest);
            assert(texts(pieces@) =~= done.push(chars@.subrange(pos as int, cut as int)));
        }
        if cut >= n {
            proof {
                assert(chars@.subrange(pos as int, cut as int) =~= rest);
                assert(split(rest, sep) =~= seq![rest]);
                assert(texts(pieces@) =~= done + split(rest, sep));
            }
            break;
        }
        proof {
            assert(rest.take(cut - pos) =~= chars@.subrange(pos as int, cut as int));
            assert(rest.skip(cut - pos + 1) =~= s@.skip(cut + 1));
            assert(texts(pieces@) + split(s@.skip(cut + 1), sep) =~= done + split(rest, sep));
        }
        pos = cut + 1;
    }
    pieces
}

/// The maximal runs of characters of `s` that are not white space, in order.
pub open spec fn words(s: Seq<char>) -> Seq<Seq<char>>
    decreases s.len(),
{
    let a = first_hit(s, Mark::NonSpace);
    if a < s.len() {
        let rest = s.skip(a as int);
        let n = first_hit(rest, Mark::Space);
        if 0 < n <= rest.len() {
            seq![rest.take(n as int)] + words(rest.skip(n as int))
        } else {
            Seq::empty()
        }
    } else {
        Seq::empty()
    }
}

/// The parts written one after the other with `sep` between neighbours.
pub open spec fn join(parts: Seq<Seq<char>>, sep: Seq<char>) -> Seq<char>
    decreases parts.len(),
{
    if parts.len() == 0 {
        Seq::empty()
    } else if parts.len() == 1 {
        parts[0]
    } else {
        join(parts.drop_last(), sep) + sep + parts.last()
    }
}

/// Joining one more part: the separator comes first unless the part is the
/// first one.
pub proof fn lemma_join_push(parts: Seq<Seq<char>>, part: Seq<char>, sep: Seq<char>)
    ensures
        join(parts.push(part), sep) == if parts.len() == 0 {
            part
        } else {
            join(parts, sep) + sep + part
        },
{
    let all = parts.push(part);
    assert(all.drop_last() =~= parts);
    assert(all.last() == part);
    if parts.len() == 0 {
        assert(all[0] == part);
    }
}

} // verus!

//! The record builder and the rendering of a record as text.

use crate::colorscheme::{ColorResolver, Palette};
use crate::level::{lemma_name_chars, Level};
use crate::recolor::{apply_colors, paint, paint_segment, paint_segments, recolor};
use crate::text::{join, lemma_join_push, lemma_split_first, lemma_split_whole, split, texts};
use crate::timestamp::{epoch, is_stamp_char, lemma_stamp_text, stamp_text, Civil, Timestamp};
use vstd::prelude::*;
use vstd::string::StringExecFns;

verus! {

/// One log record as plain values: what a `LogBuilder` stands for in
/// contracts.
pub struct Record {
    /// The moment of the record; `None` stands for the moment of rendering.
    pub timestamp: Option<Civil>,
    pub subsystem: Seq<char>,
    pub controller: Seq<char>,
    pub level: Level,
    pub cid: Seq<char>,
    pub msg: Seq<char>,
    /// Key/value pairs in the order they were added; a key may repeat.
    pub data: Seq<(Seq<char>, Seq<char>)>,
    /// Free-text detail lines in the order they were added.
    pub details: Seq<Seq<char>>,
    pub colorize: bool,
}

/// The moment that a record is rendered with: its own, or `now` if it has
/// none.
pub open spec fn resolved_time(r: Record, now: Civil) -> Civil {
    match r.timestamp {
        Some(t) => t,
        None => now,
    }
}

/// One key/value pair as `key:value`.
pub open spec fn field_text(pair: (Seq<char>, Seq<char>)) -> Seq<char> {
    pair.0 + ":"@ + pair.1
}

/// The pairs as text, each as `key:value`.
pub open spec fn field_texts(data: Seq<(Seq<char>, Seq<char>)>) -> Seq<Seq<char>> {
    Seq::new(data.len(), |i: int| field_text(data[i]))
}

/// The head line up to and including the message.
pub open spec fn base_text(r: Record, at: Civil) -> Seq<char> {
    stamp_text(at) + "|SSYS="@ + r.subsystem + "|CTRL="@ + r.controller + "|LVL="@ + r.level.name()
        + "|CID="@ + r.cid + "|MSG="@ + r.msg
}

/// The head line without colours. The key/value block and the pipe before
/// it are there only when the record has pairs.
pub open spec fn plain_head(r: Record, at: Civil) -> Seq<char> {
    if r.data.len() == 0 {
        base_text(r, at)
    } else {
        base_text(r, at) + "|"@ + join(field_texts(r.data), " "@)
    }
}

/// The head line as it is rendered: coloured when the record asks for it.
pub open spec fn head_text(r: Record, at: Civil, p: Palette) -> Seq<char> {
    if r.colorize {
        recolor(plain_head(r, at), p)
    } else {
        plain_head(r, at)
    }
}

/// One detail as a line of output.
pub open spec fn detail_text(detail: Seq<char>) -> Seq<char> {
    "  > "@ + detail
}

/// The lines of a rendered record: the head, then one line per detail.
pub open spec fn render_lines(r: Record, at: Civil, p: Palette) -> Seq<Seq<char>> {
    seq![head_text(r, at, p)] + Seq::new(r.details.len(), |i: int| detail_text(r.details[i]))
}

/// The rendered record as one text, its lines joined by line feeds.
pub open spec fn render(r: Record, at: Civil, p: Palette) -> Seq<char> {
    join(render_lines(r, at, p), "\n"@)
}

/// Whether a text holds no pipe.
pub open spec fn pipe_free(s: Seq<char>) -> bool {
    !s.contains('|')
}

/// Whether none of the texts of a record holds a pipe.
pub open spec fn record_pipe_free(r: Record) -> bool {
    &&& pipe_free(r.subsystem)
    &&& pipe_free(r.controller)
    &&& pipe_free(r.cid)
    &&& pipe_free(r.msg)
    &&& forall|i: int|
        0 <= i < r.data.len() ==> pipe_free(#[trigger] r.data[i].0) && pipe_free(r.data[i].1)
}

/// The spans of a head line: the timestamp and the five tagged fields, and
/// the key/value block when the record has pairs.
pub open spec fn head_segments(r: Record, at: Civil) -> Seq<Seq<char>> {
    let tagged = seq![
        stamp_text(at),
        "SSYS="@ + r.subsystem,
        "CTRL="@ + r.controller,
        "LVL="@ + r.level.name(),
        "CID="@ + r.cid,
        "MSG="@ + r.msg,
    ];
    if r.data.len() == 0 {
        tagged
    } else {
        tagged.push(join(field_texts(r.data), " "@))
    }
}

/// The spans of a head line, each in its colour.
pub open spec fn painted_segments(r: Record, at: Civil, p: Palette) -> Seq<Seq<char>> {
    let tagged = seq![
        paint(p.header, stamp_text(at)),
        paint(p.context, "SSYS="@ + r.subsystem),
        paint(p.context, "CTRL="@ + r.controller),
        paint(p.level, "LVL="@ + r.level.name()),
        paint(p.cid, "CID="@ + r.cid),
        paint(p.msg, "MSG="@ + r.msg),
    ];
    if r.data.len() == 0 {
        tagged
    } else {
        tagged.push(paint_segment(false, join(field_texts(r.data), " "@), p))
    }
}

/// A record without pairs has no key/value block: its head line ends with
/// the message tag and the message.
pub proof fn lemma_no_pairs_no_block(r: Record, at: Civil)
    requires
        r.data.len() == 0,
    ensures
        plain_head(r, at) == base_text(r, at),
        ("|MSG="@ + r.msg).is_suffix_of(plain_head(r, at)),
{
    let head = plain_head(r, at);
    let tail = "|MSG="@ + r.msg;
    assert(head.subrange(head.len() - tail.len(), head.len() as int) =~= tail);
}

/// A record with pairs has the block behind one more pipe: the pairs as
/// `key:value`, in the order they were added, one blank between them.
pub proof fn lemma_pairs_block(r: Record, at: Civil)
    requires
        r.data.len() > 0,
    ensures
        plain_head(r, at) == base_text(r, at) + "|"@ + join(field_texts(r.data), " "@),
        field_texts(r.data).len() == r.data.len(),
        forall|i: int|
            0 <= i < r.data.len() ==> #[trigger] field_texts(r.data)[i] == r.data[i].0 + ":"@
                + r.data[i].1,
{
}

/// A record with N details is rendered as N + 1 lines: the head, then each
/// detail in the order it was added, behind two blanks, `>` and a blank.
pub proof fn lemma_detail_lines(r: Record, at: Civil, p: Palette)
    ensures
        render_lines(r, at, p).len() == r.details.len() + 1,
        render_lines(r, at, p)[0] == head_text(r, at, p),
        forall|i: int|
            0 <= i < r.details.len() ==> #[trigger] render_lines(r, at, p)[i + 1] == seq![
                ' ',
                ' ',
                '>',
                ' ',
            ] + r.details[i],
{
    reveal_strlit("  > ");
    assert("  > "@ =~= seq![' ', ' ', '>', ' ']);
}

/// What the tags and separators of a head line are made of.
proof fn reveal_tags()
    ensures
        "|"@ =~= seq!['|'],
        "SSYS="@ =~= seq!['S', 'S', 'Y', 'S', '='],
        "CTRL="@ =~= seq!['C', 'T', 'R', 'L', '='],
        "LVL="@ =~= seq!['L', 'V', 'L', '='],
        "CID="@ =~= seq!['C', 'I', 'D', '='],
        "MSG="@ =~= seq!['M', 'S', 'G', '='],
        "|SSYS="@ =~= seq!['|'] + "SSYS="@,
        "|CTRL="@ =~= seq!['|'] + "CTRL="@,
        "|LVL="@ =~= seq!['|'] + "LVL="@,
        "|CID="@ =~= seq!['|'] + "CID="@,
        "|MSG="@ =~= seq!['|'] + "MSG="@,
        ":"@ =~= seq![':'],
        " "@ =~= seq![' '],
{
    reveal_strlit("|");
    reveal_strlit("SSYS=");
    reveal_strlit("CTRL=");
    reveal_strlit("LVL=");
    reveal_strlit("CID=");
    reveal_strlit("MSG=");
    reveal_strlit("|SSYS=");
    reveal_strlit("|CTRL=");
    reveal_strlit("|LVL=");
    reveal_strlit("|CID=");
    reveal_strlit("|MSG=");
    reveal_strlit(":");
    reveal_strlit(" ");
}

/// Two texts without a pipe, written one after the other, hold no pipe.
proof fn lemma_pipe_free_concat(a: Seq<char>, b: Seq<char>)
    requires
        pipe_free(a),
        pipe_free(b),
    ensures
        pipe_free(a + b),
{
    let s = a + b;
    if s.contains('|') {
        let j = choose|j: int| 0 <= j < s.len() && s[j] == '|';
        if j < a.len() {
            assert(a[j] == '|');
        } else {
            assert(b[j - a.len()] == '|');
        }
    }
}

/// The key/value block of pairs without pipes holds no pipe.
proof fn lemma_block_pipe_free(data: Seq<(Seq<char>, Seq<char>)>, n: int)
    requires
        0 <= n <= data.len(),
        forall|i: int| 0 <= i < data.len() ==> pipe_free(#[trigger] data[i].0) && pipe_free(data[i].1),
    ensures
        pipe_free(join(field_texts(data).take(n), " "@)),
    decreases n,
{
    reveal_tags();
    let parts = field_texts(data).take(n);
    if n == 0 {
        assert(join(parts, " "@) =~= Seq::empty());
    } else {
        let last = field_text(data[n - 1]);
        assert(pipe_free(":"@)) by {
            if ":"@.contains('|') {
                let j = choose|j: int| 0 <= j < ":"@.len() && ":"@[j] == '|';
            }
        }
        assert(pipe_free(" "@)) by {
            if " "@.contains('|') {
                let j = choose|j: int| 0 <= j < " "@.len() && " "@[j] == '|';
            }
        }
        lemma_pipe_free_concat(data[n - 1].0, ":"@);
        lemma_pipe_free_concat(data[n - 1].0 + ":"@, data[n - 1].1);
        assert(parts.last() == last);
        if n == 1 {
            assert(join(parts, " "@) == last);
        } else {
            lemma_block_pipe_free(data, n - 1);
            assert(parts.drop_last() =~= field_texts(data).take(n - 1));
            lemma_pipe_free_concat(join(parts.drop_last(), " "@), " "@);
            lemma_pipe_free_concat(join(parts.drop_last(), " "@) + " "@, last);
        }
    }
}

/// A tag and a text without a pipe, written one after the other, hold no
/// pipe.
proof fn lemma_tagged_pipe_free(r: Record, at: Civil)
    requires
        at.valid(),
        record_pipe_free(r),
    ensures
        pipe_free(stamp_text(at)),
        pipe_free("SSYS="@ + r.subsystem),
        pipe_free("CTRL="@ + r.controller),
        pipe_free("LVL="@ + r.level.name()),
        pipe_free("CID="@ + r.cid),
        pipe_free("MSG="@ + r.msg),
{
    reveal_tags();
    lemma_stamp_text(at);
    lemma_name_chars(r.level);
    let stamp = stamp_text(at);
    if stamp.contains('|') {
        let j = choose|j: int| 0 <= j < stamp.len() && stamp[j] == '|';
        assert(is_stamp_char(stamp[j]));
    }
    let name = r.level.name();
    if name.contains('|') {
        let j = choose|j: int| 0 <= j < name.len() && name[j] == '|';
        assert('A' <= name[j] && name[j] <= 'Z');
    }
    assert(pipe_free("SSYS="@)) by {
        if "SSYS="@.contains('|') {
            let j = choose|j: int| 0 <= j < "SSYS="@.len() && "SSYS="@[j] == '|';
        }
    }
    assert(pipe_free("CTRL="@)) by {
        if "CTRL="@.contains('|') {
            let j = choose|j: int| 0 <= j < "CTRL="@.len() && "CTRL="@[j] == '|';
        }
    }
    assert(pipe_free("LVL="@)) by {
        if "LVL="@.contains('|') {
            let j = choose|j: int| 0 <= j < "LVL="@.len() && "LVL="@[j] == '|';
        }
    }
    assert(pipe_free("CID="@)) by {
        if "CID="@.contains('|') {
            let j = choose|j: int| 0 <= j < "CID="@.len() && "CID="@[j] == '|';
        }
    }
    assert(pipe_free("MSG="@)) by {
        if "MSG="@.contains('|') {
            let j = choose|j: int| 0 <= j < "MSG="@.len() && "MSG="@[j] == '|';
        }
    }
    lemma_pipe_free_concat("SSYS="@, r.subsystem);
    lemma_pipe_free_concat("CTRL="@, r.controller);
    lemma_pipe_free_concat("LVL="@, name);
    lemma_pipe_free_concat("CID="@, r.cid);
    lemma_pipe_free_concat("MSG="@, r.msg);
}

/// The head line as a chain: each span, a pipe, and the spans after it.
proof fn lemma_head_chain(r: Record, at: Civil)
    ensures
        plain_head(r, at) == stamp_text(at) + seq!['|'] + (("SSYS="@ + r.subsystem) + seq!['|'] + ((
            "CTRL="@ + r.controller) + seq!['|'] + (("LVL="@ + r.level.name()) + seq!['|'] + ((
            "CID="@ + r.cid) + seq!['|'] + last_spans(r))))),
{
    reveal_tags();
    let h = stamp_text(at) + seq!['|'] + (("SSYS="@ + r.subsystem) + seq!['|'] + (("CTRL="@
        + r.controller) + seq!['|'] + (("LVL="@ + r.level.name()) + seq!['|'] + (("CID="@ + r.cid)
        + seq!['|'] + last_spans(r)))));
    assert(plain_head(r, at) =~= h);
}

/// The message span, and the key/value block behind it when there is one.
spec fn last_spans(r: Record) -> Seq<char> {
    if r.data.len() == 0 {
        "MSG="@ + r.msg
    } else {
        ("MSG="@ + r.msg) + seq!['|'] + join(field_texts(r.data), " "@)
    }
}

proof fn lemma_last_spans(r: Record)
    requires
        pipe_free("MSG="@ + r.msg),
        forall|i: int|
            0 <= i < r.data.len() ==> pipe_free(#[trigger] r.data[i].0) && pipe_free(r.data[i].1),
    ensures
        split(last_spans(r), '|') == if r.data.len() == 0 {
            seq!["MSG="@ + r.msg]
        } else {
            seq!["MSG="@ + r.msg, join(field_texts(r.data), " "@)]
        },
{
    let t5 = "MSG="@ + r.msg;
    if r.data.len() == 0 {
        lemma_split_whole(t5, '|');
    } else {
        let block = join(field_texts(r.data), " "@);
        lemma_block_pipe_free(r.data, r.data.len() as int);
        assert(field_texts(r.data).take(r.data.len() as int) =~= field_texts(r.data));
        lemma_split_whole(block, '|');
        lemma_split_first(t5, block, '|');
        assert(seq![t5] + seq![block] =~= seq![t5, block]);
    }
}

/// The head line of a record whose texts hold no pipe falls apart at its
/// pipes into the timestamp and the five tagged fields, in that order, and
/// the key/value block after them exactly when the record has pairs.
pub proof fn lemma_head_segments(r: Record, at: Civil)
    requires
        at.valid(),
        record_pipe_free(r),
    ensures
        split(plain_head(r, at), '|') == head_segments(r, at),
        head_segments(r, at).len() == if r.data.len() == 0 {
            6int
        } else {
            7int
        },
{
    lemma_tagged_pipe_free(r, at);
    lemma_head_chain(r, at);
    lemma_last_spans(r);
    let t0 = stamp_text(at);
    let t1 = "SSYS="@ + r.subsystem;
    let t2 = "CTRL="@ + r.controller;
    let t3 = "LVL="@ + r.level.name();
    let t4 = "CID="@ + r.cid;
    let h5 = last_spans(r);
    let h4 = t4 + seq!['|'] + h5;
    let h3 = t3 + seq!['|'] + h4;
    let h2 = t2 + seq!['|'] + h3;
    let h1 = t1 + seq!['|'] + h2;
    lemma_split_first(t4, h5, '|');
    lemma_split_first(t3, h4, '|');
    lemma_split_first(t2, h3, '|');
    lemma_split_first(t1, h2, '|');
    lemma_split_first(t0, h1, '|');
    assert(split(h4, '|') =~= seq![t4] + split(h5, '|'));
    assert(split(h3, '|') =~= seq![t3, t4] + split(h5, '|'));
    assert(split(h2, '|') =~= seq![t2, t3, t4] + split(h5, '|'));
    assert(split(h1, '|') =~= seq![t1, t2, t3, t4] + split(h5, '|'));
    assert(split(plain_head(r, at), '|') =~= seq![t0, t1, t2, t3, t4] + split(h5, '|'));
    assert(seq![t0, t1, t2, t3, t4] + split(h5, '|') =~= head_segments(r, at));
}

/// The coloured head line of a record whose texts hold no pipe: the
/// timestamp in the header colour, subsystem and controller in the context
/// colour, the severity in the level colour, the correlation id and the
/// message in theirs, the key/value block painted word by word, and plain
/// pipes between them.
pub proof fn lemma_colored_head(r: Record, at: Civil, p: Palette)
    requires
        at.valid(),
        record_pipe_free(r),
    ensures
        recolor(plain_head(r, at), p) == join(painted_segments(r, at, p), "|"@),
{
    reveal_tags();
    lemma_head_segments(r, at);
    let segs = head_segments(r, at);
    let t1 = "SSYS="@ + r.subsystem;
    let t2 = "CTRL="@ + r.controller;
    let t3 = "LVL="@ + r.level.name();
    let t4 = "CID="@ + r.cid;
    let t5 = "MSG="@ + r.msg;
    assert("SSYS="@.is_prefix_of(t1)) by {
        assert(t1.subrange(0, 5) =~= "SSYS="@);
    }
    assert("CTRL="@.is_prefix_of(t2)) by {
        assert(t2.subrange(0, 5) =~= "CTRL="@);
    }
    assert("LVL="@.is_prefix_of(t3)) by {
        assert(t3.subrange(0, 4) =~= "LVL="@);
    }
    assert("CID="@.is_prefix_of(t4)) by {
        assert(t4.subrange(0, 4) =~= "CID="@);
    }
    assert("MSG="@.is_prefix_of(t5)) by {
        assert(t5.subrange(0, 4) =~= "MSG="@);
    }
    assert(!"SSYS="@.is_prefix_of(t3) && !"CTRL="@.is_prefix_of(t3)) by {
        assert(t3[0] == 'L');
        if "SSYS="@.is_prefix_of(t3) {
            assert(t3.subrange(0, 5)[0] == t3[0]);
        }
        if "CTRL="@.is_prefix_of(t3) {
            assert(t3.subrange(0, 5)[0] == t3[0]);
        }
    }
    assert(!"SSYS="@.is_prefix_of(t4) && !"CTRL="@.is_prefix_of(t4) && !"LVL="@.is_prefix_of(t4))
        by {
        assert(t4[1] == 'I');
        if "SSYS="@.is_prefix_of(t4) {
            assert(t4.subrange(0, 5)[1] == t4[1]);
        }
        if "CTRL="@.is_prefix_of(t4) {
            assert(t4.subrange(0, 5)[1] == t4[1]);
        }
        if "LVL="@.is_prefix_of(t4) {
            assert(t4.subrange(0, 4)[1] == t4[1]);
        }
    }
    assert(!"SSYS="@.is_prefix_of(t5) && !"CTRL="@.is_prefix_of(t5) && !"LVL="@.is_prefix_of(t5)
        && !"CID="@.is_prefix_of(t5)) by {
        assert(t5[0] == 'M');
        if "SSYS="@.is_prefix_of(t5) {
            assert(t5.subrange(0, 5)[0] == t5[0]);
        }
        if "CTRL="@.is_prefix_of(t5) {
            assert(t5.subrange(0, 5)[0] == t5[0]);
        }
        if "LVL="@.is_prefix_of(t5) {
            assert(t5.subrange(0, 4)[0] == t5[0]);
        }
        if "CID="@.is_prefix_of(t5) {
            assert(t5.subrange(0, 4)[0] == t5[0]);
        }
    }
    assert(paint_segments(segs, p) =~= painted_segments(r, at, p));
}

/// The pairs of a builder as plain values.
pub open spec fn pairs_view(data: Seq<(String, String)>) -> Seq<(Seq<char>, Seq<char>)> {
    Seq::new(data.len(), |i: int| (data[i].0@, data[i].1@))
}

/// Builder of one log record.
#[derive(Debug, Clone)]
pub struct LogBuilder {
    timestamp: Option<Timestamp>,
    subsystem: String,
    controller: String,
    level: Level,
    cid: String,
    msg: String,
    data: Vec<(String, String)>,
    details: Vec<String>,
    colorize: bool,
}

impl View for LogBuilder {
    type V = Record;

    closed spec fn view(&self) -> Record {
        Record {
            timestamp: match self.timestamp {
                Some(t) => Some(t@),
                None => None,
            },
            subsystem: self.subsystem@,
            controller: self.controller@,
            level: self.level,
            cid: self.cid@,
            msg: self.msg@,
            data: pairs_view(self.data@),
            details: texts(self.details@),
            colorize: self.colorize,
        }
    }
}

/// The texts joined with `sep` between neighbours.
pub fn join_texts(parts: &Vec<String>, sep: &str) -> (out: String)
    ensures
        out@ == join(texts(parts@), sep@),
{
    let mut out = String::new();
    let mut i: usize = 0;
    assert(texts(parts@).take(0) =~= Seq::<Seq<char>>::empty());
    while i < parts.len()
        invariant
            i <= parts.len(),
            out@ == join(texts(parts@).take(i as int), sep@),
        decreases parts.len() - i,
    {
        if i > 0 {
            out.append(sep);
        }
        out.append(parts[i].as_str());
        proof {
            let done = texts(parts@).take(i as int);
            lemma_join_push(done, parts@[i as int]@, sep@);
            assert(texts(parts@).take(i + 1) =~= done.push(parts@[i as int]@));
        }
        i += 1;
    }
    assert(texts(parts@).take(i as int) =~= texts(parts@));
    out
}

impl LogBuilder {
    /// A record of severity `level` with the given subsystem, controller and
    /// message; no timestamp of its own, correlation id `-`, no pairs, no
    /// details, colours on.
    pub fn new(subsystem: &str, controller: &str, level: Level, msg: &str) -> (b: LogBuilder)
        ensures
            b@ == (Record {
                timestamp: None,
                subsystem: subsystem@,
                controller: controller@,
                level: level,
                cid: "-"@,
                msg: msg@,
                data: Seq::empty(),
                details: Seq::empty(),
                colorize: true,
            }),
    {
        let b = LogBuilder {
            timestamp: None,
            subsystem: subsystem.to_owned(),
            controller: controller.to_owned(),
            level,
            cid: "-".to_owned(),
            msg: msg.to_owned(),
            data: Vec::new(),
            details: Vec::new(),
            colorize: true,
        };
        assert(b@.data =~= Seq::empty());
        assert(b@.details =~= Seq::empty());
        b
    }

    /// A record with only a message: subsystem and controller `-`, severity
    /// info, and the defaults of `new` for the rest.
    pub fn msg(msg: &str) -> (b: LogBuilder)
        ensures
            b@ == (Record {
                timestamp: None,
                subsystem: "-"@,
                controller: "-"@,
                level: Level::Info,
                cid: "-"@,
                msg: msg@,
                data: Seq::empty(),
                details: Seq::empty(),
                colorize: true,
            }),
    {
        LogBuilder::new("-", "-", Level::Info, msg)
    }

    /// Sets the subsystem.
    pub fn ssys(self, subsystem: &str) -> (b: LogBuilder)
        ensures
            b@ == (Record { subsystem: subsystem@, ..self@ }),
    {
        let mut b = self;
        b.subsystem = subsystem.to_owned();
        b
    }

    /// Sets the controller.
    pub fn ctrl(self, controller: &str) -> (b: LogBuilder)
        ensures
            b@ == (Record { controller: controller@, ..self@ }),
    {
        let mut b = self;
        b.controller = controller.to_owned();
        b
    }

    /// Sets the severity.
    fn with_level(self, level: Level) -> (b: LogBuilder)
        ensures
            b@ == (Record { level: level, ..self@ }),
    {
        let mut b = self;
        b.level = level;
        b
    }

    /// Sets the severity to info.
    pub fn info(self) -> (b: LogBuilder)
        ensures
            b@ == (Record { level: Level::Info, ..self@ }),
    {
        self.with_level(Level::Info)
    }

    /// Sets the severity to warn.
    pub fn warn(self) -> (b: LogBuilder)
        ensures
            b@ == (Record { level: Level::Warn, ..self@ }),
    {
        self.with_level(Level::Warn)
    }

    /// Sets the severity to error.
    pub fn error(self) -> (b: LogBuilder)
        ensures
            b@ == (Record { level: Level::Error, ..self@ }),
    {
        self.with_level(Level::Error)
    }

    /// Sets the severity to debug.
    pub fn debug(self) -> (b: LogBuilder)
        ensures
            b@ == (Record { level: Level::Debug, ..self@ }),
    {
        self.with_level(Level::Debug)
    }

    /// Sets the severity to trace.
    pub fn trace(self) -> (b: LogBuilder)
        ensures
            b@ == (Record { level: Level::Trace, ..self@ }),
    {
        self.with_level(Level::Trace)
    }

    /// Sets the correlation id.
    pub fn cid(self, cid: &str) -> (b: LogBuilder)
        ensures
            b@ == (Record { cid: cid@, ..self@ }),
    {
        let mut b = self;
        b.cid = cid.to_owned();
        b
    }

    /// Adds one key/value pair after those already there.
    pub fn data(self, key: &str, value: &str) -> (b: LogBuilder)
        ensures
            b@ == (Record { data: self@.data.push((key@, value@)), ..self@ }),
    {
        let mut b = self;
        b.data.push((key.to_owned(), value.to_owned()));
        assert(b@.data =~= self@.data.push((key@, value@)));
        b
    }

    /// Adds one detail line after those already there.
    pub fn detail(self, line: &str) -> (b: LogBuilder)
        ensures
            b@ == (Record { details: self@.details.push(line@), ..self@ }),
    {
        let mut b = self;
        b.details.push(line.to_owned());
        assert(b@.details =~= self@.details.push(line@));
        b
    }

    /// Gives the record a timestamp of its own.
    pub fn timestamp(self, ts: Timestamp) -> (b: LogBuilder)
        ensures
            b@ == (Record { timestamp: Some(ts@), ..self@ }),
    {
        let mut b = self;
        b.timestamp = Some(ts);
        b
    }

    /// Turns the colours of the head line on or off.
    pub fn colorize(self, enabled: bool) -> (b: LogBuilder)
        ensures
            b@ == (Record { colorize: enabled, ..self@ }),
    {
        let mut b = self;
        b.colorize = enabled;
        b
    }

    /// The severity of the record.
    pub fn level(&self) -> (level: Level)
        ensures
            level == self@.level,
    {
        self.level
    }

    /// The rendered record at the moment `now`, which counts only when the
    /// record has no timestamp of its own.
    pub fn build_at(self, now: Timestamp, resolver: &ColorResolver) -> (text: String)
        ensures
            text@ == render(self@, resolved_time(self@, now@), resolver.palette(self@.level)),
            resolved_time(self@, now@).valid(),
    {
        let lines = self.build_lines_at(now, resolver);
        join_texts(&lines, "\n")
    }

    /// The rendered record, its lines joined by line feeds. A record without
    /// a timestamp of its own is rendered with the current moment, as
    /// `Timestamp::now` gives it.
    pub fn build(self, resolver: &ColorResolver) -> (text: String)
        ensures
            exists|now: Civil|
                now.valid() && text@ == render(
                    self@,
                    resolved_time(self@, now),
                    resolver.palette(self@.level),
                ),
    {
        let lines = self.build_lines(resolver);
        let text = join_texts(&lines, "\n");
        proof {
            let now = choose|now: Civil|
                now.valid() && texts(lines@) == render_lines(
                    self@,
                    resolved_time(self@, now),
                    resolver.palette(self@.level),
                );
            assert(now.valid() && text@ == render(
                self@,
                resolved_time(self@, now),
                resolver.palette(self@.level),
            ));
        }
        text
    }

    /// The lines of the record rendered at the moment `now`, which counts
    /// only when the record has no timestamp of its own.
    pub fn build_lines_at(&self, now: Timestamp, resolver: &ColorResolver) -> (lines: Vec<String>)
        ensures
            texts(lines@) == render_lines(
                self@,
                resolved_time(self@, now@),
                resolver.palette(self@.level),
            ),
            lines@.len() == self@.details.len() + 1,
            resolved_time(self@, now@).valid(),
    {
        let at = match self.timestamp {
            Some(t) => t,
            None => now,
        };
        let ghost r = self@;
        let ghost p = resolver.palette(self.level);
        let mut base = at.render();
        base.append("|SSYS=");
        base.append(self.subsystem.as_str());
        base.append("|CTRL=");
        base.append(self.controller.as_str());
        base.append("|LVL=");
        base.append(self.level.as_str());
        base.append("|CID=");
        base.append(self.cid.as_str());
        base.append("|MSG=");
        base.append(self.msg.as_str());
        assert(base@ =~= base_text(r, at@));
        if self.data.len() > 0 {
            base.append("|");
            let mut i: usize = 0;
            assert(field_texts(r.data).take(0) =~= Seq::<Seq<char>>::empty());
            assert(base@ =~= base_text(r, at@) + "|"@ + join(field_texts(r.data).take(0), " "@));
            while i < self.data.len()
                invariant
                    i <= self.data.len(),
                    r == self@,
                    base@ == base_text(r, at@) + "|"@ + join(
                        field_texts(r.data).take(i as int),
                        " "@,
                    ),
                decreases self.data.len() - i,
            {
                if i > 0 {
                    base.append(" ");
                }
                base.append(self.data[i].0.as_str());
                base.append(":");
                base.append(self.data[i].1.as_str());
                proof {
                    let done = field_texts(r.data).take(i as int);
                    let next = field_text(r.data[i as int]);
                    lemma_join_push(done, next, " "@);
                    assert(field_texts(r.data).take(i + 1) =~= done.push(next));
                    assert(base@ =~= base_text(r, at@) + "|"@ + join(done.push(next), " "@));
                }
                i += 1;
            }
            assert(field_texts(r.data).take(i as int) =~= field_texts(r.data));
        }
        assert(base@ == plain_head(r, at@));
        if self.colorize {
            base = apply_colors(base.as_str(), self.level, resolver);
        }
        assert(base@ == head_text(r, at@, p));
        let mut lines: Vec<String> = Vec::new();
        lines.push(base);
        let mut k: usize = 0;
        while k < self.details.len()
            invariant
                k <= self.details.len(),
                r == self@,
                lines@.len() == k + 1,
                lines@[0]@ == head_text(r, at@, p),
                forall|j: int|
                    1 <= j <= k ==> (#[trigger] lines@[j])@ == detail_text(r.details[j - 1]),
            decreases self.details.len() - k,
        {
            let mut line = String::new();
            line.append("  > ");
            line.append(self.details[k].as_str());
            assert(line@ =~= detail_text(r.details[k as int]));
            lines.push(line);
            k += 1;
        }
        assert(texts(lines@) =~= render_lines(r, at@, p));
        lines
    }

    /// The lines of the record. A record without a timestamp of its own is
    /// rendered with the current moment, as `Timestamp::now` gives it.
    pub fn build_lines(&self, resolver: &ColorResolver) -> (lines: Vec<String>)
        ensures
            exists|now: Civil|
                now.valid() && texts(lines@) == render_lines(
                    self@,
                    resolved_time(self@, now),
                    resolver.palette(self@.level),
                ),
            lines@.len() == self@.details.len() + 1,
    {
        match self.timestamp {
            Some(t) => {
                let lines = self.build_lines_at(t, resolver);
                proof {
                    let any = epoch();
                    assert(resolved_time(self@, any) == resolved_time(self@, t@));
                    assert(any.valid() && texts(lines@) == render_lines(
                        self@,
                        resolved_time(self@, any),
                        resolver.palette(self@.level),
                    ));
                }
                lines
            },
            None => {
                let now = Timestamp::now();
                let lines = self.build_lines_at(now, resolver);
                assert(now@.valid() && texts(lines@) == render_lines(
                    self@,
                    resolved_time(self@, now@),
                    resolver.palette(self@.level),
                ));
                lines
            },
        }
    }
}

} // verus!

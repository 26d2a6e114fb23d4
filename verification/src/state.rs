//! The state that every emit reads: the minimum severity, the colour
//! resolver and the subscriber registry; and the emit itself.

use crate::builder::{render, resolved_time, LogBuilder, Record};
use crate::colorscheme::{gruvbox_palette, ColorResolver};
use crate::hub::{
    lemma_receive_in_order, received_lines, MailboxView, Registry, RegistryView, Subscription,
};
use crate::level::{is_enabled, Level};
use crate::text::{split, split_text, texts};
use crate::timestamp::{epoch, Civil, Timestamp};
use vstd::prelude::*;

verus! {

/// The logging state as plain values: what a `LogState` stands for in
/// contracts.
pub struct StateView {
    /// The minimum severity: records below it are not emitted.
    pub level: Level,
    /// The active colour resolver.
    pub resolver: ColorResolver,
    /// The subscribers and what is pending for them.
    pub registry: RegistryView,
}

/// The text that an emit of `r` produces in state `s` at the moment `now`.
pub open spec fn output(s: StateView, r: Record, now: Civil) -> Seq<char> {
    render(r, resolved_time(r, now), s.resolver.palette(r.level))
}

/// What an emit of `r` returns in state `s`: the rendered text when the
/// severity of `r` passes the minimum, nothing otherwise.
pub open spec fn emit_result(s: StateView, r: Record, now: Civil) -> Option<Seq<char>> {
    if is_enabled(r.level, s.level) {
        Some(output(s, r, now))
    } else {
        None
    }
}

/// The state after an emit of `r`: the rendered text is broadcast when the
/// severity of `r` passes the minimum; otherwise nothing changes.
pub open spec fn emitted(s: StateView, r: Record, now: Civil) -> StateView {
    if is_enabled(r.level, s.level) {
        StateView { registry: s.registry.delivered(output(s, r, now)), ..s }
    } else {
        s
    }
}

/// The text of an optional string.
pub open spec fn text_of(r: Option<String>) -> Option<Seq<char>> {
    match r {
        Some(s) => Some(s@),
        None => None,
    }
}

/// One emit: the record and the reading of the clock at that moment.
pub struct Emit {
    pub record: Record,
    pub now: Civil,
}

/// The state after the emits of `emits`, one after the other.
pub open spec fn emitted_all(s: StateView, emits: Seq<Emit>) -> StateView
    decreases emits.len(),
{
    if emits.len() == 0 {
        s
    } else {
        emitted(emitted_all(s, emits.drop_last()), emits.last().record, emits.last().now)
    }
}

/// The texts that the emits of `emits` produce in state `s`, in the order
/// of the emits: one for each record that passes the minimum severity.
pub open spec fn outputs(s: StateView, emits: Seq<Emit>) -> Seq<Seq<char>>
    decreases emits.len(),
{
    if emits.len() == 0 {
        Seq::empty()
    } else {
        let before = outputs(s, emits.drop_last());
        let last = emits.last();
        if is_enabled(last.record.level, s.level) {
            before.push(output(s, last.record, last.now))
        } else {
            before
        }
    }
}

/// Emits change neither the minimum severity nor the colour resolver, and
/// make no subscription.
pub proof fn lemma_emits_keep_configuration(s: StateView, emits: Seq<Emit>)
    ensures
        emitted_all(s, emits).level == s.level,
        emitted_all(s, emits).resolver == s.resolver,
        emitted_all(s, emits).registry.issued == s.registry.issued,
    decreases emits.len(),
{
    if emits.len() > 0 {
        lemma_emits_keep_configuration(s, emits.drop_last());
    }
}

/// An open subscriber gets, behind what was pending for it, exactly the
/// texts of the emits that pass the minimum severity, in the order of the
/// emits; an emit below the minimum adds nothing.
pub proof fn lemma_subscriber_gets_outputs_in_order(s: StateView, id: nat, emits: Seq<Emit>)
    requires
        s.registry.boxes.contains_key(id),
        s.registry.boxes[id].open,
    ensures
        emitted_all(s, emits).registry.boxes.contains_key(id),
        emitted_all(s, emits).registry.boxes[id].open,
        emitted_all(s, emits).registry.boxes[id].pending == s.registry.boxes[id].pending + outputs(
            s,
            emits,
        ),
    decreases emits.len(),
{
    if emits.len() == 0 {
        assert(s.registry.boxes[id].pending + outputs(s, emits) =~= s.registry.boxes[id].pending);
    } else {
        let head = emits.drop_last();
        let last = emits.last();
        let mid = emitted_all(s, head);
        lemma_subscriber_gets_outputs_in_order(s, id, head);
        lemma_emits_keep_configuration(s, head);
        if is_enabled(last.record.level, s.level) {
            assert(output(mid, last.record, last.now) == output(s, last.record, last.now));
            assert(emitted_all(s, emits).registry.boxes[id].pending =~= s.registry.boxes[id].pending
                + outputs(s, emits));
        }
    }
}

/// A subscriber made just before a run of emits has pending, after them,
/// exactly the texts of the emits that pass the minimum severity, in the
/// order of the emits. Receiving takes them in that order.
pub proof fn lemma_new_subscriber_receives_emits(s: StateView, emits: Seq<Emit>)
    ensures
        ({
            let id = s.registry.issued;
            let start = StateView { registry: s.registry.subscribed(), ..s };
            let end = emitted_all(start, emits);
            &&& end.registry.boxes.contains_key(id)
            &&& end.registry.boxes[id].open
            &&& end.registry.boxes[id].pending == outputs(s, emits)
            &&& received_lines(end.registry, id, outputs(s, emits).len()) == outputs(s, emits)
        }),
{
    let id = s.registry.issued;
    let start = StateView { registry: s.registry.subscribed(), ..s };
    let end = emitted_all(start, emits);
    lemma_subscriber_gets_outputs_in_order(start, id, emits);
    lemma_outputs_depend_on_configuration(start, s, emits);
    assert(Seq::<Seq<char>>::empty() + outputs(s, emits) =~= outputs(s, emits));
    lemma_receive_in_order(end.registry, id);
}

/// The texts of a run of emits depend on the minimum severity and on the
/// colour resolver, not on the subscribers.
pub proof fn lemma_outputs_depend_on_configuration(a: StateView, b: StateView, emits: Seq<Emit>)
    requires
        a.level == b.level,
        a.resolver == b.resolver,
    ensures
        outputs(a, emits) == outputs(b, emits),
    decreases emits.len(),
{
    if emits.len() > 0 {
        lemma_outputs_depend_on_configuration(a, b, emits.drop_last());
    }
}

/// When every record of a run passes the minimum severity there is one text
/// per emit, the text of that emit; when none passes there is no text.
pub proof fn lemma_outputs_all_or_none(s: StateView, emits: Seq<Emit>)
    ensures
        (forall|i: int| 0 <= i < emits.len() ==> is_enabled(emits[i].record.level, s.level))
            ==> outputs(s, emits) == Seq::new(
            emits.len(),
            |i: int| output(s, emits[i].record, emits[i].now),
        ),
        (forall|i: int| 0 <= i < emits.len() ==> !is_enabled(emits[i].record.level, s.level))
            ==> outputs(s, emits) == Seq::<Seq<char>>::empty(),
        outputs(s, emits).len() <= emits.len(),
    decreases emits.len(),
{
    if emits.len() > 0 {
        let head = emits.drop_last();
        lemma_outputs_all_or_none(s, head);
        if forall|i: int| 0 <= i < emits.len() ==> is_enabled(emits[i].record.level, s.level) {
            assert forall|i: int| 0 <= i < head.len() implies is_enabled(
                head[i].record.level,
                s.level,
            ) by {
                assert(head[i] == emits[i]);
            }
            assert(outputs(s, emits) =~= Seq::new(
                emits.len(),
                |i: int| output(s, emits[i].record, emits[i].now),
            ));
        }
        if forall|i: int| 0 <= i < emits.len() ==> !is_enabled(emits[i].record.level, s.level) {
            assert forall|i: int| 0 <= i < head.len() implies !is_enabled(
                head[i].record.level,
                s.level,
            ) by {
                assert(head[i] == emits[i]);
            }
            assert(!is_enabled(emits[emits.len() - 1].record.level, s.level));
        }
    } else {
        assert(outputs(s, emits) =~= Seq::new(
            emits.len(),
            |i: int| output(s, emits[i].record, emits[i].now),
        ));
    }
}

/// With the minimum severity at error, an emit below error returns nothing
/// and changes nothing, so nothing is broadcast; an emit of severity error
/// returns the rendered text and broadcasts it.
pub proof fn lemma_error_threshold(s: StateView, r: Record, now: Civil)
    requires
        s.level == Level::Error,
    ensures
        r.level != Level::Error ==> emit_result(s, r, now) is None && emitted(s, r, now) == s,
        r.level == Level::Error ==> emit_result(s, r, now) == Some(output(s, r, now)) && emitted(
            s,
            r,
            now,
        ) == (StateView { registry: s.registry.delivered(output(s, r, now)), ..s }),
{
}

/// Whatever the minimum severity: an emit returns a text exactly when the
/// severity of the record passes it, and only then is anything broadcast.
pub proof fn lemma_emit_is_gated(s: StateView, r: Record, now: Civil)
    ensures
        emit_result(s, r, now) is Some <==> r.level.rank() >= s.level.rank(),
        emit_result(s, r, now) is None ==> emitted(s, r, now) == s,
        emit_result(s, r, now) is Some ==> emitted(s, r, now).registry == s.registry.delivered(
            emit_result(s, r, now)->0,
        ),
{
}

/// The logging state.
pub struct LogState {
    level: Level,
    resolver: ColorResolver,
    registry: Registry,
}

impl View for LogState {
    type V = StateView;

    closed spec fn view(&self) -> StateView {
        StateView { level: self.level, resolver: self.resolver, registry: self.registry@ }
    }
}

impl LogState {
    /// The initial state: minimum severity info, the built-in dark palette,
    /// no subscribers.
    pub fn new() -> (state: LogState)
        ensures
            state@.level == Level::Info,
            forall|level: Level| #[trigger]
                state@.resolver.palette(level) == gruvbox_palette(level),
            state@.registry == RegistryView::empty(),
    {
        LogState { level: Level::Info, resolver: ColorResolver::gruvbox(), registry: Registry::new() }
    }

    /// The active colour resolver.
    pub fn resolver(&self) -> (resolver: &ColorResolver)
        ensures
            *resolver == self@.resolver,
    {
        &self.resolver
    }

    /// Whether subscriber `id` is in the registry.
    pub fn holds(&self, id: u64) -> (b: bool)
        ensures
            b == self@.registry.boxes.contains_key(id as nat),
    {
        self.registry.holds(id)
    }

    /// How many subscriptions were made so far. The subscribers in the
    /// registry have numbers below it.
    pub fn issued(&self) -> (n: u64)
        ensures
            n == self@.registry.issued,
            forall|id: nat| self@.registry.boxes.contains_key(id) ==> id < self@.registry.issued,
    {
        self.registry.issued()
    }

    /// How many subscribers are in the registry, the closed ones that no
    /// broadcast has dropped yet among them.
    pub fn subscriber_count(&self) -> (n: usize)
        ensures
            self@.registry.boxes.dom().finite(),
            n == self@.registry.boxes.dom().len(),
    {
        self.registry.len()
    }

    /// How many lines are pending for the subscriber; zero when it is not in
    /// the registry.
    pub fn pending(&self, sub: &Subscription) -> (n: usize)
        ensures
            n == if self@.registry.boxes.contains_key(sub@) {
                self@.registry.boxes[sub@].pending.len()
            } else {
                0
            },
    {
        self.registry.pending(sub)
    }

    /// Takes the oldest pending line of the subscriber, if it has one.
    pub fn try_recv(&mut self, sub: &Subscription) -> (r: Option<String>)
        ensures
            final(self)@ == (StateView {
                registry: old(self)@.registry.received(sub@),
                ..old(self)@
            }),
            match r {
                Some(line) => old(self)@.registry.can_receive(sub@) && line@ == old(
                    self,
                )@.registry.boxes[sub@].pending[0],
                None => !old(self)@.registry.can_receive(sub@),
            },
    {
        self.registry.try_recv(sub)
    }

    /// Gives up the handle: the subscriber is closed, what was pending for
    /// it is dropped, and the next broadcast takes it out of the registry.
    pub fn unsubscribe(&mut self, sub: Subscription)
        ensures
            final(self)@ == (StateView {
                registry: old(self)@.registry.closed(sub@),
                ..old(self)@
            }),
    {
        self.registry.unsubscribe(sub)
    }
}

/// Sets the minimum severity.
pub fn set_global_level(state: &mut LogState, level: Level)
    ensures
        final(state)@ == (StateView { level: level, ..old(state)@ }),
{
    state.level = level;
}

/// The minimum severity.
pub fn global_level(state: &LogState) -> (level: Level)
    ensures
        level == state@.level,
{
    state.level
}

/// Replaces the colour resolver. Records rendered from now on are coloured
/// with the palettes of `resolver`.
pub fn set_color_scheme(state: &mut LogState, resolver: ColorResolver)
    ensures
        final(state)@ == (StateView { resolver: resolver, ..old(state)@ }),
{
    state.resolver = resolver;
}

/// Registers a new subscriber and returns its handle. The subscriber
/// receives every line that is broadcast from now on.
pub fn subscribe_logs(state: &mut LogState) -> (sub: Subscription)
    requires
        old(state)@.registry.issued < u64::MAX,
    ensures
        sub@ == old(state)@.registry.issued,
        final(state)@ == (StateView {
            registry: old(state)@.registry.subscribed(),
            ..old(state)@
        }),
        !old(state)@.registry.boxes.contains_key(sub@),
        final(state)@.registry.boxes[sub@] == (MailboxView { open: true, pending: Seq::empty() }),
        forall|id: nat|
            old(state)@.registry.boxes.contains_key(id) ==> final(state)@.registry.boxes.contains_key(
                id,
            ) && #[trigger] final(state)@.registry.boxes[id] == old(state)@.registry.boxes[id],
        final(state)@.registry.boxes.dom().finite(),
        final(state)@.registry.boxes.dom().len() == old(state)@.registry.boxes.dom().len() + 1,
{
    state.registry.subscribe()
}

/// Delivers `line` to every open subscriber and drops the closed ones.
pub fn broadcast_log_line(state: &mut LogState, line: &str)
    ensures
        final(state)@ == (StateView {
            registry: old(state)@.registry.delivered(line@),
            ..old(state)@
        }),
{
    state.registry.broadcast(line);
}

/// The text of the record at the moment `now` when its severity passes the
/// minimum `threshold`, nothing otherwise. This is the part of an emit that
/// needs no registry: what it returns is then broadcast.
pub fn render_enabled_at(
    threshold: Level,
    resolver: &ColorResolver,
    builder: LogBuilder,
    now: Timestamp,
) -> (r: Option<String>)
    ensures
        text_of(r) == if is_enabled(builder@.level, threshold) {
            Some(render(builder@, resolved_time(builder@, now@), resolver.palette(builder@.level)))
        } else {
            None
        },
{
    if builder.level().enabled(threshold) {
        Some(builder.build_at(now, resolver))
    } else {
        None
    }
}

/// The text of the record when its severity passes the minimum
/// `threshold`, nothing otherwise. A record without a timestamp of its own
/// is rendered with the current moment, as `Timestamp::now` gives it; the
/// clock is not read for a record below the minimum.
pub fn render_enabled(threshold: Level, resolver: &ColorResolver, builder: LogBuilder) -> (r:
    Option<String>)
    ensures
        exists|now: Civil|
            now.valid() && text_of(r) == if is_enabled(builder@.level, threshold) {
                Some(render(builder@, resolved_time(builder@, now), resolver.palette(builder@.level)))
            } else {
                None
            },
{
    if builder.level().enabled(threshold) {
        let ghost record = builder@;
        let line = builder.build(resolver);
        proof {
            let now = choose|now: Civil|
                now.valid() && line@ == render(
                    record,
                    resolved_time(record, now),
                    resolver.palette(record.level),
                );
            assert(now.valid() && Some(line@) == if is_enabled(record.level, threshold) {
                Some(render(record, resolved_time(record, now), resolver.palette(record.level)))
            } else {
                None
            });
        }
        Some(line)
    } else {
        proof {
            let now = epoch();
            assert(now.valid() && None::<Seq<char>> == if is_enabled(builder@.level, threshold) {
                Some(
                    render(builder@, resolved_time(builder@, now), resolver.palette(builder@.level)),
                )
            } else {
                None
            });
        }
        None
    }
}

/// Emits the record at the moment `now`, which counts only when the record
/// has no timestamp of its own. A record below the minimum severity is not
/// rendered and changes nothing; any other is rendered, broadcast and
/// returned.
pub fn log_line_at(state: &mut LogState, builder: LogBuilder, now: Timestamp) -> (r: Option<
    String,
>)
    ensures
        text_of(r) == emit_result(old(state)@, builder@, now@),
        final(state)@ == emitted(old(state)@, builder@, now@),
{
    match render_enabled_at(state.level, &state.resolver, builder, now) {
        Some(line) => {
            state.registry.broadcast(line.as_str());
            Some(line)
        },
        None => None,
    }
}

/// Emits the record. A record below the minimum severity is not rendered
/// and changes nothing; any other is rendered, broadcast and returned. A
/// record without a timestamp of its own is rendered with the current
/// moment, as `Timestamp::now` gives it.
pub fn log_line(state: &mut LogState, builder: LogBuilder) -> (r: Option<String>)
    ensures
        exists|now: Civil|
            now.valid() && text_of(r) == emit_result(old(state)@, builder@, now) && final(state)@
                == emitted(old(state)@, builder@, now),
{
    let ghost record = builder@;
    let r = render_enabled(state.level, &state.resolver, builder);
    let ghost now = choose|now: Civil|
        now.valid() && text_of(r) == if is_enabled(record.level, old(state)@.level) {
            Some(render(record, resolved_time(record, now), old(state)@.resolver.palette(record.level)))
        } else {
            None
        };
    match r {
        Some(line) => {
            state.registry.broadcast(line.as_str());
            assert(now.valid() && Some(line@) == emit_result(old(state)@, record, now) && state@
                == emitted(old(state)@, record, now));
            Some(line)
        },
        None => {
            assert(now.valid() && None::<Seq<char>> == emit_result(old(state)@, record, now)
                && state@ == emitted(old(state)@, record, now));
            None
        },
    }
}

/// The lines that an emit writes out: the returned text cut at its line
/// feeds.
pub open spec fn lines_of(text: Option<Seq<char>>) -> Option<Seq<Seq<char>>> {
    match text {
        Some(t) => Some(split(t, '\n')),
        None => None,
    }
}

/// The texts of an optional list of strings.
pub open spec fn texts_of(lines: Option<Vec<String>>) -> Option<Seq<Seq<char>>> {
    match lines {
        Some(v) => Some(texts(v@)),
        None => None,
    }
}

/// Emits the record as `log_line` does and returns the lines to write out,
/// one for each line of the emitted text.
pub fn log_lines(state: &mut LogState, builder: LogBuilder) -> (r: Option<Vec<String>>)
    ensures
        exists|now: Civil|
            now.valid() && texts_of(r) == lines_of(emit_result(old(state)@, builder@, now))
                && final(state)@ == emitted(old(state)@, builder@, now),
{
    let ghost record = builder@;
    match log_line(state, builder) {
        Some(text) => {
            let lines = split_text(text.as_str(), '\n');
            proof {
                let now = choose|now: Civil|
                    now.valid() && Some(text@) == emit_result(old(state)@, record, now) && state@
                        == emitted(old(state)@, record, now);
                assert(now.valid() && Some(texts(lines@)) == lines_of(
                    emit_result(old(state)@, record, now),
                ) && state@ == emitted(old(state)@, record, now));
            }
            Some(lines)
        },
        None => {
            proof {
                let now = choose|now: Civil|
                    now.valid() && None::<Seq<char>> == emit_result(old(state)@, record, now)
                        && state@ == emitted(old(state)@, record, now);
                assert(now.valid() && None::<Seq<Seq<char>>> == lines_of(
                    emit_result(old(state)@, record, now),
                ) && state@ == emitted(old(state)@, record, now));
            }
            None
        },
    }
}

} // verus!

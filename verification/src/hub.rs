//! The subscriber registry: one queue of rendered lines per subscriber.
//!
//! A line that is broadcast goes to the back of the queue of every open
//! subscriber. A subscriber whose handle was given up is closed at once and
//! leaves the registry at the next broadcast.

use crate::text::texts;
use std::collections::VecDeque;
use vstd::prelude::*;

verus! {

/// The state of one subscriber as plain values.
pub struct MailboxView {
    /// Whether the consuming handle is still held.
    pub open: bool,
    /// The lines delivered and not yet received, oldest first.
    pub pending: Seq<Seq<char>>,
}

/// A registry as plain values: what a `Registry` stands for in contracts.
pub struct RegistryView {
    /// The registered subscribers by their number.
    pub boxes: Map<nat, MailboxView>,
    /// How many subscriptions were ever made; the next subscriber's number.
    pub issued: nat,
}

impl RegistryView {
    /// The registry with no subscriber and no subscription made.
    pub open spec fn empty() -> RegistryView {
        RegistryView { boxes: Map::empty(), issued: 0 }
    }

    /// The registry after one more subscription: a new open subscriber with
    /// nothing pending, under the next number.
    pub open spec fn subscribed(self) -> RegistryView {
        RegistryView {
            boxes: self.boxes.insert(
                self.issued,
                MailboxView { open: true, pending: Seq::empty() },
            ),
            issued: self.issued + 1,
        }
    }

    /// The registry after a broadcast of `line`: the closed subscribers are
    /// gone, and every open one has `line` as its newest pending line.
    pub open spec fn delivered(self, line: Seq<char>) -> RegistryView {
        RegistryView {
            boxes: Map::new(
                |id: nat| self.boxes.contains_key(id) && self.boxes[id].open,
                |id: nat| MailboxView { open: true, pending: self.boxes[id].pending.push(line) },
            ),
            issued: self.issued,
        }
    }

    /// The registry after the handle of subscriber `id` was given up: the
    /// subscriber is closed and what was pending for it is dropped.
    pub open spec fn closed(self, id: nat) -> RegistryView {
        if self.boxes.contains_key(id) {
            RegistryView {
                boxes: self.boxes.insert(id, MailboxView { open: false, pending: Seq::empty() }),
                issued: self.issued,
            }
        } else {
            self
        }
    }

    /// Whether a line can be received for subscriber `id`.
    pub open spec fn can_receive(self, id: nat) -> bool {
        self.boxes.contains_key(id) && self.boxes[id].open && self.boxes[id].pending.len() > 0
    }

    /// The registry after an attempt to receive for subscriber `id`: the
    /// oldest pending line is taken, if there is one.
    pub open spec fn received(self, id: nat) -> RegistryView {
        if self.can_receive(id) {
            RegistryView {
                boxes: self.boxes.insert(
                    id,
                    MailboxView { open: true, pending: self.boxes[id].pending.drop_first() },
                ),
                issued: self.issued,
            }
        } else {
            self
        }
    }
}

/// A subscriber whose handle was given up is out of the registry after the
/// next broadcast, whatever line is broadcast. Every other subscriber fares
/// as if nothing had been given up.
pub proof fn lemma_closed_subscriber_is_pruned(reg: RegistryView, id: nat, line: Seq<char>)
    ensures
        !reg.closed(id).delivered(line).boxes.contains_key(id),
        reg.closed(id).delivered(line).issued == reg.issued,
        forall|other: nat|
            other != id ==> (#[trigger] reg.closed(id).delivered(line).boxes.contains_key(other)
                <==> reg.delivered(line).boxes.contains_key(other)),
        forall|other: nat|
            other != id && reg.delivered(line).boxes.contains_key(other) ==> #[trigger] reg.closed(
                id,
            ).delivered(line).boxes[other] == reg.delivered(line).boxes[other],
{
}

/// Giving up a handle does not by itself take the subscriber out of the
/// registry: it stays, closed and with nothing pending, until a broadcast.
pub proof fn lemma_pruning_is_lazy(reg: RegistryView, id: nat)
    requires
        reg.boxes.contains_key(id),
    ensures
        reg.closed(id).boxes.contains_key(id),
        !reg.closed(id).boxes[id].open,
        reg.closed(id).boxes[id].pending.len() == 0,
        reg.closed(id).boxes.dom() == reg.boxes.dom(),
{
    assert(reg.closed(id).boxes.dom() =~= reg.boxes.dom());
}

/// A broadcast reaches exactly the open subscribers: each of them has the
/// line as its newest pending line behind what was pending before, and no
/// one else is left in the registry.
pub proof fn lemma_broadcast_reaches_open_subscribers(reg: RegistryView, line: Seq<char>)
    ensures
        forall|id: nat| #[trigger]
            reg.delivered(line).boxes.contains_key(id) <==> reg.boxes.contains_key(id)
                && reg.boxes[id].open,
        forall|id: nat|
            reg.boxes.contains_key(id) && reg.boxes[id].open ==> (#[trigger] reg.delivered(
                line,
            ).boxes[id]) == (MailboxView {
                open: true,
                pending: reg.boxes[id].pending.push(line),
            }),
{
}

/// A broadcast to a registry without subscribers changes nothing.
pub proof fn lemma_broadcast_to_nobody(issued: nat, line: Seq<char>)
    ensures
        (RegistryView { boxes: Map::empty(), issued }).delivered(line) == (RegistryView {
            boxes: Map::empty(),
            issued,
        }),
{
    let reg = RegistryView { boxes: Map::empty(), issued };
    assert(reg.delivered(line).boxes =~= Map::<nat, MailboxView>::empty());
}

/// A new subscriber is open, has nothing pending, and gets a number that no
/// subscriber in the registry has, provided the numbers in the registry
/// were handed out by it.
pub proof fn lemma_subscribed_is_fresh(reg: RegistryView)
    requires
        forall|id: nat| reg.boxes.contains_key(id) ==> id < reg.issued,
    ensures
        !reg.boxes.contains_key(reg.issued),
        reg.subscribed().boxes.contains_key(reg.issued),
        reg.subscribed().boxes[reg.issued] == (MailboxView { open: true, pending: Seq::empty() }),
        forall|id: nat|
            reg.boxes.contains_key(id) ==> reg.subscribed().boxes.contains_key(id)
                && #[trigger] reg.subscribed().boxes[id] == reg.boxes[id],
        forall|id: nat| reg.subscribed().boxes.contains_key(id) ==> id < reg.subscribed().issued,
{
}

/// The lines that `count` receives in a row take for subscriber `id`.
pub open spec fn received_lines(reg: RegistryView, id: nat, count: nat) -> Seq<Seq<char>>
    decreases count,
{
    if count == 0 || !reg.can_receive(id) {
        Seq::empty()
    } else {
        seq![reg.boxes[id].pending[0]] + received_lines(reg.received(id), id, (count - 1) as nat)
    }
}

/// The registry after `count` receives in a row for subscriber `id`.
pub open spec fn received_times(reg: RegistryView, id: nat, count: nat) -> RegistryView
    decreases count,
{
    if count == 0 {
        reg
    } else {
        received_times(reg.received(id), id, (count - 1) as nat)
    }
}

/// Receiving is first in, first out: as many receives as there are pending
/// lines take exactly the pending lines, oldest first, and leave nothing
/// pending.
pub proof fn lemma_receive_in_order(reg: RegistryView, id: nat)
    requires
        reg.boxes.contains_key(id),
        reg.boxes[id].open,
    ensures
        received_lines(reg, id, reg.boxes[id].pending.len()) == reg.boxes[id].pending,
        received_times(reg, id, reg.boxes[id].pending.len()).boxes.contains_key(id),
        received_times(reg, id, reg.boxes[id].pending.len()).boxes[id] == (MailboxView {
            open: true,
            pending: Seq::empty(),
        }),
        !received_times(reg, id, reg.boxes[id].pending.len()).can_receive(id),
    decreases reg.boxes[id].pending.len(),
{
    let pending = reg.boxes[id].pending;
    if pending.len() == 0 {
        assert(reg.boxes[id].pending =~= Seq::empty());
    } else {
        let next = reg.received(id);
        assert(next.boxes[id].pending == pending.drop_first());
        lemma_receive_in_order(next, id);
        assert(seq![pending[0]] + pending.drop_first() =~= pending);
    }
}

/// One subscriber in the registry: its number, whether its handle is still
/// held, and the lines waiting for it, oldest first.
struct Mailbox {
    id: u64,
    open: bool,
    queue: VecDeque<String>,
}

impl Mailbox {
    /// The mailbox without its number.
    spec fn state(self) -> MailboxView {
        MailboxView { open: self.open, pending: texts(self.queue@) }
    }
}

/// The consuming end of one subscription. There is one handle per
/// subscription, and giving it up ends the subscription.
#[derive(Debug)]
pub struct Subscription {
    id: u64,
}

impl View for Subscription {
    type V = nat;

    closed spec fn view(&self) -> nat {
        self.id as nat
    }
}

impl Subscription {
    /// The number of the subscriber.
    pub fn id(&self) -> (id: u64)
        ensures
            id == self@,
    {
        self.id
    }
}

/// Whether the numbers of the mailboxes ascend strictly and stay below
/// `bound`.
spec fn ascending(boxes: Seq<Mailbox>, bound: int) -> bool {
    &&& forall|i: int, j: int| 0 <= i < j < boxes.len() ==> boxes[i].id < boxes[j].id
    &&& forall|i: int| 0 <= i < boxes.len() ==> boxes[i].id < bound
}

/// Whether a mailbox with the number `id` is among `boxes`.
spec fn listed(boxes: Seq<Mailbox>, id: nat) -> bool {
    exists|i: int| 0 <= i < boxes.len() && boxes[i].id == id
}

/// The place among `boxes` of the mailbox with the number `id`.
spec fn slot(boxes: Seq<Mailbox>, id: nat) -> int {
    choose|i: int| 0 <= i < boxes.len() && boxes[i].id == id
}

/// The mailboxes as a map from their numbers to their states.
spec fn boxes_view(boxes: Seq<Mailbox>) -> Map<nat, MailboxView> {
    Map::new(|id: nat| listed(boxes, id), |id: nat| boxes[slot(boxes, id)].state())
}

/// With ascending numbers, the mailbox with the number of the one at place
/// `i` is the one at place `i`.
proof fn lemma_slot(boxes: Seq<Mailbox>, bound: int, i: int)
    requires
        ascending(boxes, bound),
        0 <= i < boxes.len(),
    ensures
        listed(boxes, boxes[i].id as nat),
        slot(boxes, boxes[i].id as nat) == i,
{
    let id = boxes[i].id as nat;
    let k = slot(boxes, id);
    assert(0 <= k < boxes.len() && boxes[k].id == id);
    if k < i {
        assert(boxes[k].id < boxes[i].id);
    } else if i < k {
        assert(boxes[i].id < boxes[k].id);
    }
}

/// A mailbox with a number above all others, added at the end, is one more
/// entry of the map.
proof fn lemma_view_push(boxes: Seq<Mailbox>, b: Mailbox)
    requires
        ascending(boxes, b.id as int),
    ensures
        ascending(boxes.push(b), b.id + 1),
        !listed(boxes, b.id as nat),
        boxes_view(boxes.push(b)) == boxes_view(boxes).insert(b.id as nat, b.state()),
{
    let more = boxes.push(b);
    assert(ascending(more, b.id + 1));
    assert forall|id: nat| listed(more, id) <==> (listed(boxes, id) || id == b.id) by {
        if listed(more, id) {
            let k = slot(more, id);
            if k < boxes.len() {
                assert(boxes[k].id == id);
            }
        }
        if listed(boxes, id) {
            let k = slot(boxes, id);
            assert(more[k].id == id);
        }
        if id == b.id {
            assert(more[boxes.len() as int].id == id);
        }
    }
    assert forall|id: nat| listed(more, id) implies #[trigger] boxes_view(more)[id] == boxes_view(
        boxes,
    ).insert(b.id as nat, b.state())[id] by {
        let k = slot(more, id);
        lemma_slot(more, b.id + 1, k);
        if id != b.id {
            let j = slot(boxes, id);
            assert(more[j].id == id);
            lemma_slot(more, b.id + 1, j);
        } else {
            lemma_slot(more, b.id + 1, boxes.len() as int);
        }
    }
    assert(boxes_view(more) =~= boxes_view(boxes).insert(b.id as nat, b.state()));
}

/// A mailbox replaced by one with the same number is a replaced entry of
/// the map.
proof fn lemma_view_update(boxes: Seq<Mailbox>, bound: int, i: int, b: Mailbox)
    requires
        ascending(boxes, bound),
        0 <= i < boxes.len(),
        b.id == boxes[i].id,
    ensures
        ascending(boxes.update(i, b), bound),
        boxes_view(boxes.update(i, b)) == boxes_view(boxes).insert(b.id as nat, b.state()),
{
    let after = boxes.update(i, b);
    assert(ascending(after, bound));
    assert forall|id: nat| listed(after, id) <==> listed(boxes, id) by {
        if listed(after, id) {
            let k = slot(after, id);
            assert(boxes[k].id == id);
        }
        if listed(boxes, id) {
            let k = slot(boxes, id);
            assert(after[k].id == id);
        }
    }
    lemma_slot(boxes, bound, i);
    assert forall|id: nat| listed(after, id) implies #[trigger] boxes_view(after)[id] == boxes_view(
        boxes,
    ).insert(b.id as nat, b.state())[id] by {
        let k = slot(after, id);
        lemma_slot(after, bound, k);
        assert(boxes[k].id == id);
        lemma_slot(boxes, bound, k);
    }
    assert(boxes_view(after) =~= boxes_view(boxes).insert(b.id as nat, b.state()));
}

/// With ascending numbers below `bound`, every number in the map is below
/// `bound`, and the map has as many entries as there are mailboxes.
proof fn lemma_view_size(boxes: Seq<Mailbox>, bound: int)
    requires
        ascending(boxes, bound),
    ensures
        forall|id: nat| boxes_view(boxes).contains_key(id) ==> id < bound,
        boxes_view(boxes).dom().finite(),
        boxes_view(boxes).dom().len() == boxes.len(),
    decreases boxes.len(),
{
    assert forall|id: nat| boxes_view(boxes).contains_key(id) implies id < bound by {
        let k = slot(boxes, id);
        assert(boxes[k].id == id);
    }
    if boxes.len() == 0 {
        assert(boxes_view(boxes).dom() =~= Set::<nat>::empty());
    } else {
        let head = boxes.drop_last();
        let last = boxes.last();
        assert(ascending(head, last.id as int));
        lemma_view_size(head, last.id as int);
        lemma_view_push(head, last);
        assert(head.push(last) =~= boxes);
        assert(boxes_view(boxes).dom() =~= boxes_view(head).dom().insert(last.id as nat));
        assert(!boxes_view(head).dom().contains(last.id as nat));
    }
}

/// The broadcast on the map of subscribers alone.
spec fn delivered_boxes(boxes: Map<nat, MailboxView>, line: Seq<char>) -> Map<nat, MailboxView> {
    (RegistryView { boxes, issued: 0 }).delivered(line).boxes
}

/// A broadcast after one more subscriber was entered: an open one is
/// entered with the line behind what it had pending, a closed one is not
/// entered at all.
proof fn lemma_delivered_insert(
    boxes: Map<nat, MailboxView>,
    id: nat,
    state: MailboxView,
    line: Seq<char>,
)
    requires
        !boxes.contains_key(id),
    ensures
        delivered_boxes(boxes.insert(id, state), line) == if state.open {
            delivered_boxes(boxes, line).insert(
                id,
                MailboxView { open: true, pending: state.pending.push(line) },
            )
        } else {
            delivered_boxes(boxes, line)
        },
{
    if state.open {
        assert(delivered_boxes(boxes.insert(id, state), line) =~= delivered_boxes(
            boxes,
            line,
        ).insert(id, MailboxView { open: true, pending: state.pending.push(line) }));
    } else {
        assert(delivered_boxes(boxes.insert(id, state), line) =~= delivered_boxes(boxes, line));
    }
}

/// The registry of subscribers.
pub struct Registry {
    boxes: Vec<Mailbox>,
    issued: u64,
}

impl View for Registry {
    type V = RegistryView;

    closed spec fn view(&self) -> RegistryView {
        RegistryView { boxes: boxes_view(self.boxes@), issued: self.issued as nat }
    }
}

impl Registry {
    /// The numbers of the mailboxes ascend and were all handed out.
    #[verifier::type_invariant]
    spec fn well_formed(self) -> bool {
        ascending(self.boxes@, self.issued as int)
    }

    /// A registry without subscribers.
    pub fn new() -> (registry: Registry)
        ensures
            registry@ == RegistryView::empty(),
    {
        let registry = Registry { boxes: Vec::new(), issued: 0 };
        assert(registry@.boxes =~= Map::empty());
        registry
    }

    /// How many subscriptions were made so far. The subscribers in the
    /// registry have numbers below it: numbers are handed out in order, and
    /// none is handed out twice.
    pub fn issued(&self) -> (n: u64)
        ensures
            n == self@.issued,
            forall|id: nat| self@.boxes.contains_key(id) ==> id < self@.issued,
    {
        proof {
            use_type_invariant(self);
            lemma_view_size(self.boxes@, self.issued as int);
        }
        self.issued
    }

    /// How many subscribers are in the registry, the closed ones that no
    /// broadcast has dropped yet among them.
    pub fn len(&self) -> (n: usize)
        ensures
            self@.boxes.dom().finite(),
            n == self@.boxes.dom().len(),
    {
        proof {
            use_type_invariant(self);
            lemma_view_size(self.boxes@, self.issued as int);
        }
        self.boxes.len()
    }

    /// The place of the mailbox with the number `id`, if there is one.
    fn find(&self, id: u64) -> (r: Option<usize>)
        ensures
            match r {
                Some(i) => i < self.boxes@.len() && self.boxes@[i as int].id == id,
                None => !listed(self.boxes@, id as nat),
            },
    {
        let mut i: usize = 0;
        while i < self.boxes.len()
            invariant
                i <= self.boxes@.len(),
                forall|j: int| 0 <= j < i ==> self.boxes@[j].id != id,
            decreases self.boxes@.len() - i,
        {
            if self.boxes[i].id == id {
                return Some(i);
            }
            i += 1;
        }
        None
    }

    /// Whether subscriber `id` is in the registry.
    pub fn holds(&self, id: u64) -> (b: bool)
        ensures
            b == self@.boxes.contains_key(id as nat),
    {
        self.find(id).is_some()
    }

    /// Moves the mailboxes out, leaving none behind, so that they can be
    /// worked on and put back as a whole.
    fn take_boxes(&mut self) -> (boxes: Vec<Mailbox>)
        ensures
            boxes == old(self).boxes,
            final(self).boxes@ == Seq::<Mailbox>::empty(),
            final(self).issued == old(self).issued,
            ascending(boxes@, old(self).issued as int),
    {
        proof {
            use_type_invariant(&*self);
        }
        let mut boxes: Vec<Mailbox> = Vec::new();
        core::mem::swap(&mut self.boxes, &mut boxes);
        boxes
    }

    /// Registers one new subscriber, open and with nothing pending, and
    /// returns its handle.
    pub fn subscribe(&mut self) -> (sub: Subscription)
        requires
            old(self)@.issued < u64::MAX,
        ensures
            sub@ == old(self)@.issued,
            final(self)@ == old(self)@.subscribed(),
            !old(self)@.boxes.contains_key(sub@),
            final(self)@.boxes[sub@] == (MailboxView { open: true, pending: Seq::empty() }),
            forall|id: nat|
                old(self)@.boxes.contains_key(id) ==> final(self)@.boxes.contains_key(id)
                    && #[trigger] final(self)@.boxes[id] == old(self)@.boxes[id],
            final(self)@.boxes.dom() == old(self)@.boxes.dom().insert(sub@),
            final(self)@.boxes.dom().finite(),
            final(self)@.boxes.dom().len() == old(self)@.boxes.dom().len() + 1,
    {
        let id = self.issued;
        let mut boxes = self.take_boxes();
        let mailbox = Mailbox { id, open: true, queue: VecDeque::new() };
        proof {
            lemma_view_push(boxes@, mailbox);
            assert(mailbox.state().pending =~= Seq::empty());
            lemma_view_size(boxes@, id as int);
            lemma_view_size(boxes@.push(mailbox), id + 1);
            assert(boxes_view(boxes@.push(mailbox)).dom() =~= boxes_view(boxes@).dom().insert(
                id as nat,
            ));
        }
        boxes.push(mailbox);
        self.issued = id + 1;
        self.boxes = boxes;
        Subscription { id }
    }

    /// Delivers `line` to every open subscriber and drops the closed ones
    /// from the registry.
    pub fn broadcast(&mut self, line: &str)
        ensures
            final(self)@ == old(self)@.delivered(line@),
    {
        let all = self.take_boxes();
        let ghost before = all@;
        let ghost bound = self.issued as int;
        let mut kept: Vec<Mailbox> = Vec::new();
        proof {
            assert(before.take(0) =~= Seq::<Mailbox>::empty());
            assert(boxes_view(kept@) =~= delivered_boxes(boxes_view(before.take(0)), line@));
        }
        for mailbox in it: all
            invariant
                it.seq() == before,
                ascending(before, bound),
                ascending(kept@, bound),
                forall|j: int, i: int|
                    0 <= j < kept@.len() && it.index() <= i < before.len() ==> kept@[j].id
                        < before[i].id,
                boxes_view(kept@) == delivered_boxes(
                    boxes_view(before.take(it.index() as int)),
                    line@,
                ),
        {
            let ghost n = it.index() as int;
            let ghost seen = before.take(n);
            proof {
                assert(before.take(n + 1) =~= seen.push(mailbox));
                assert(ascending(seen, mailbox.id as int));
                lemma_view_push(seen, mailbox);
                lemma_delivered_insert(boxes_view(seen), mailbox.id as nat, mailbox.state(), line@);
            }
            if mailbox.open {
                let mut mailbox = mailbox;
                mailbox.queue.push_back(line.to_owned());
                proof {
                    assert(ascending(kept@, mailbox.id as int));
                    lemma_view_push(kept@, mailbox);
                    assert(mailbox.state().pending =~= before[n].state().pending.push(line@));
                }
                kept.push(mailbox);
            }
        }
        proof {
            assert(before.take(before.len() as int) =~= before);
        }
        self.boxes = kept;
    }

    /// Gives up the handle: the subscriber is closed, what was pending for
    /// it is dropped, and the next broadcast takes it out of the registry.
    pub fn unsubscribe(&mut self, sub: Subscription)
        ensures
            final(self)@ == old(self)@.closed(sub@),
    {
        match self.find(sub.id) {
            Some(i) => {
                let mut boxes = self.take_boxes();
                let ghost before = boxes@;
                boxes[i].open = false;
                boxes[i].queue.clear();
                proof {
                    lemma_slot(before, self.issued as int, i as int);
                    lemma_view_update(before, self.issued as int, i as int, boxes@[i as int]);
                    assert(boxes@ =~= before.update(i as int, boxes@[i as int]));
                    assert(boxes@[i as int].state().pending =~= Seq::empty());
                }
                self.boxes = boxes;
            },
            None => {},
        }
    }

    /// Takes the oldest pending line of the subscriber, if it has one.
    pub fn try_recv(&mut self, sub: &Subscription) -> (r: Option<String>)
        ensures
            final(self)@ == old(self)@.received(sub@),
            match r {
                Some(line) => old(self)@.can_receive(sub@) && line@ == old(
                    self,
                )@.boxes[sub@].pending[0],
                None => !old(self)@.can_receive(sub@),
            },
    {
        match self.find(sub.id) {
            Some(i) => {
                proof {
                    use_type_invariant(&*self);
                    lemma_slot(self.boxes@, self.issued as int, i as int);
                }
                if !self.boxes[i].open {
                    return None;
                }
                let mut boxes = self.take_boxes();
                let ghost before = boxes@;
                let r = boxes[i].queue.pop_front();
                proof {
                    assert(boxes@ =~= before.update(i as int, boxes@[i as int]));
                    lemma_view_update(before, self.issued as int, i as int, boxes@[i as int]);
                    if r is Some {
                        assert(boxes@[i as int].state().pending =~= before[i as int].state().pending.drop_first());
                    } else {
                        assert(boxes@[i as int].state() == before[i as int].state());
                        assert(boxes_view(before).insert(sub@, before[i as int].state())
                            =~= boxes_view(before));
                    }
                }
                self.boxes = boxes;
                r
            },
            None => None,
        }
    }

    /// How many lines are pending for the subscriber; zero when it is not in
    /// the registry.
    pub fn pending(&self, sub: &Subscription) -> (n: usize)
        ensures
            n == if self@.boxes.contains_key(sub@) {
                self@.boxes[sub@].pending.len()
            } else {
                0
            },
    {
        match self.find(sub.id) {
            Some(i) => {
                proof {
                    use_type_invariant(self);
                    lemma_slot(self.boxes@, self.issued as int, i as int);
                }
                self.boxes[i].queue.len()
            },
            None => 0,
        }
    }
}

} // verus!

use vstd::prelude::*;

use crate::event::{same_records, CollectedEvent};
use crate::filter::{is_prefix_of, AllowedTargets};
use crate::level::Level;
use crate::retention::{keep_last, lemma_keep_last_len, lemma_keep_last_push, push_bounded};

verus! {

/// Collects events that pass a severity and an origin filter, keeping the most
/// recent ones, oldest first.
///
/// Every operation takes the collector whole; to share one among threads, put
/// it behind a single lock, so that the eviction and the append of `collect`
/// stay one indivisible step.
pub struct EventCollector {
    allowed_targets: AllowedTargets,
    level: Level,
    events: Vec<CollectedEvent>,
    max_events: Option<usize>,
}

impl EventCollector {
    /// The least severe level that is still kept.
    pub closed spec fn threshold(&self) -> Level {
        self.level
    }

    /// The origin filter.
    pub closed spec fn origin_filter(&self) -> AllowedTargets {
        self.allowed_targets
    }

    /// The most events kept at once, if bounded.
    pub closed spec fn capacity(&self) -> Option<usize> {
        self.max_events
    }

    /// The events kept, oldest first.
    pub closed spec fn buffer(&self) -> Seq<CollectedEvent> {
        self.events@
    }

    /// Whether two collectors have the same configuration.
    pub open spec fn same_config(&self, other: &EventCollector) -> bool {
        &&& self.threshold() == other.threshold()
        &&& self.origin_filter().same_as(other.origin_filter())
        &&& self.capacity() == other.capacity()
    }

    /// Whether an event passes both filters.
    pub open spec fn spec_accepts(&self, event: CollectedEvent) -> bool {
        event.spec_level().spec_within(self.threshold()) && self.origin_filter().admits(
            event.spec_target(),
        )
    }

    /// The buffer after one event is offered to it: unchanged if the event is
    /// filtered out, else the event appended and the oldest entries evicted
    /// down to the capacity.
    pub open spec fn spec_record(&self, buffer: Seq<CollectedEvent>, event: CollectedEvent) -> Seq<
        CollectedEvent,
    > {
        if self.spec_accepts(event) {
            keep_last(buffer.push(event), self.capacity())
        } else {
            buffer
        }
    }

    /// The buffer after the events of `events` are offered to it in order.
    pub open spec fn replay(&self, buffer: Seq<CollectedEvent>, events: Seq<CollectedEvent>) -> Seq<
        CollectedEvent,
    >
        decreases events.len(),
    {
        if events.len() == 0 {
            buffer
        } else {
            self.spec_record(self.replay(buffer, events.drop_last()), events.last())
        }
    }

    /// The events of `events` that pass both filters, in order.
    pub open spec fn accepted(&self, events: Seq<CollectedEvent>) -> Seq<CollectedEvent>
        decreases events.len(),
    {
        if events.len() == 0 {
            Seq::empty()
        } else {
            let earlier = self.accepted(events.drop_last());
            if self.spec_accepts(events.last()) {
                earlier.push(events.last())
            } else {
                earlier
            }
        }
    }

    /// A collector that keeps every event, with no bound and an empty buffer.
    pub fn new() -> (r: EventCollector)
        ensures
            r.threshold() == Level::Trace,
            r.origin_filter() == AllowedTargets::All,
            r.capacity() == None::<usize>,
            r.buffer() == Seq::<CollectedEvent>::empty(),
    {
        EventCollector {
            allowed_targets: AllowedTargets::All,
            level: Level::Trace,
            events: Vec::new(),
            max_events: None,
        }
    }

    /// Sets the least severe level that is kept.
    pub fn with_level(self, level: Level) -> (r: EventCollector)
        ensures
            r.threshold() == level,
            r.origin_filter() == self.origin_filter(),
            r.capacity() == self.capacity(),
            r.buffer() == self.buffer(),
    {
        EventCollector { level, ..self }
    }

    /// Bounds the number of events kept. Events already kept beyond the bound
    /// stay until the next insertion.
    pub fn with_max_events(self, max_events: usize) -> (r: EventCollector)
        requires
            max_events > 0,
        ensures
            r.threshold() == self.threshold(),
            r.origin_filter() == self.origin_filter(),
            r.capacity() == Some(max_events),
            r.buffer() == self.buffer(),
    {
        EventCollector { max_events: Some(max_events), ..self }
    }

    /// Replaces the origin filter.
    pub fn allowed_targets(self, allowed_targets: AllowedTargets) -> (r: EventCollector)
        ensures
            r.threshold() == self.threshold(),
            r.origin_filter() == allowed_targets,
            r.capacity() == self.capacity(),
            r.buffer() == self.buffer(),
    {
        EventCollector { allowed_targets, ..self }
    }

    /// Whether `event` passes the severity filter and the origin filter.
    pub fn accepts(&self, event: &CollectedEvent) -> (r: bool)
        ensures
            r == self.spec_accepts(*event),
    {
        event.level().is_within(&self.level) && self.allowed_targets.allows(event.target())
    }

    /// Offers `event` to the collector: if it passes both filters, the oldest
    /// events are evicted until there is room under the capacity, and it is
    /// appended; otherwise nothing changes.
    pub fn collect(&mut self, event: CollectedEvent)
        ensures
            final(self).threshold() == old(self).threshold(),
            final(self).origin_filter() == old(self).origin_filter(),
            final(self).capacity() == old(self).capacity(),
            final(self).buffer() == old(self).spec_record(old(self).buffer(), event),
            old(self).spec_accepts(event) ==> final(self).buffer() == keep_last(
                old(self).buffer().push(event),
                old(self).capacity(),
            ),
            !old(self).spec_accepts(event) ==> final(self).buffer() == old(self).buffer(),
            old(self).capacity() matches Some(n) ==> (old(self).buffer().len() <= n
                ==> final(self).buffer().len() <= n),
    {
        proof {
            lemma_keep_last_len(self.events@.push(event), self.max_events);
        }
        if self.accepts(&event) {
            push_bounded(&mut self.events, self.max_events, event);
        }
    }

    /// A copy of the events kept, oldest first.
    pub fn events(&self) -> (r: Vec<CollectedEvent>)
        ensures
            same_records(r@, self.buffer()),
    {
        let mut snapshot: Vec<CollectedEvent> = Vec::new();
        let mut i: usize = 0;
        while i < self.events.len()
            invariant
                i <= self.events@.len(),
                snapshot@.len() == i,
                forall|j: int| 0 <= j < i ==> (#[trigger] snapshot@[j]).same_as(self.events@[j]),
            decreases self.events@.len() - i,
        {
            snapshot.push(self.events[i].clone());
            i = i + 1;
        }
        snapshot
    }

    /// Discards every event kept; the configuration stays.
    pub fn clear(&mut self)
        ensures
            final(self).threshold() == old(self).threshold(),
            final(self).origin_filter() == old(self).origin_filter(),
            final(self).capacity() == old(self).capacity(),
            final(self).buffer() == Seq::<CollectedEvent>::empty(),
    {
        self.events = Vec::new();
    }
}

impl Default for EventCollector {
    /// The same as [`EventCollector::new`]: every event is kept, without bound.
    fn default() -> (r: EventCollector)
        ensures
            r.threshold() == Level::Trace,
            r.origin_filter() == AllowedTargets::All,
            r.capacity() == None::<usize>,
            r.buffer() == Seq::<CollectedEvent>::empty(),
    {
        EventCollector::new()
    }
}

impl Clone for EventCollector {
    /// A collector with the same configuration and a copy of the events kept.
    fn clone(&self) -> (r: EventCollector)
        ensures
            r.same_config(self),
            same_records(r.buffer(), self.buffer()),
    {
        EventCollector {
            allowed_targets: self.allowed_targets.clone(),
            level: self.level,
            events: self.events(),
            max_events: self.max_events,
        }
    }
}

/// Offering events one by one to a buffer that is within the capacity leaves
/// exactly the most recent accepted events, oldest first: all of them when there
/// is no capacity, the last `capacity` of them otherwise; so never more than
/// `capacity` events.
pub proof fn lemma_keeps_most_recent(
    c: EventCollector,
    buffer: Seq<CollectedEvent>,
    events: Seq<CollectedEvent>,
)
    requires
        keep_last(buffer, c.capacity()) == buffer,
    ensures
        c.replay(buffer, events) == keep_last(buffer + c.accepted(events), c.capacity()),
        c.capacity() matches Some(n) ==> c.replay(buffer, events).len() <= n,
    decreases events.len(),
{
    if events.len() == 0 {
        assert(buffer + c.accepted(events) =~= buffer);
    } else {
        let rest = events.drop_last();
        let e = events.last();
        lemma_keeps_most_recent(c, buffer, rest);
        if c.spec_accepts(e) {
            assert(buffer + c.accepted(events) =~= (buffer + c.accepted(rest)).push(e));
            lemma_keep_last_push(buffer + c.accepted(rest), c.capacity(), e);
        }
    }
    lemma_keep_last_len(buffer + c.accepted(events), c.capacity());
}

/// An event that fails the severity filter or the origin filter leaves the
/// buffer as it was.
pub proof fn lemma_rejected_event_ignored(
    c: EventCollector,
    buffer: Seq<CollectedEvent>,
    event: CollectedEvent,
)
    requires
        !event.spec_level().spec_within(c.threshold()) || !c.origin_filter().admits(
            event.spec_target(),
        ),
    ensures
        c.spec_record(buffer, event) == buffer,
{
}

/// Starting from an empty buffer, every event ever kept passes both filters:
/// in particular none is more verbose than the threshold.
pub proof fn lemma_kept_events_pass_filters(c: EventCollector, events: Seq<CollectedEvent>)
    ensures
        forall|i: int|
            0 <= i < c.replay(Seq::empty(), events).len() ==> {
                let kept = #[trigger] c.replay(Seq::empty(), events)[i];
                &&& kept.spec_level().spec_within(c.threshold())
                &&& c.origin_filter().admits(kept.spec_target())
            },
    decreases events.len(),
{
    if events.len() > 0 {
        let rest = events.drop_last();
        let e = events.last();
        lemma_kept_events_pass_filters(c, rest);
        let before = c.replay(Seq::empty(), rest);
        if c.spec_accepts(e) {
            let grown = before.push(e);
            assert forall|i: int| 0 <= i < grown.len() implies c.spec_accepts(#[trigger] grown[i]) by {
                if i < before.len() {
                    assert(grown[i] == before[i]);
                }
            }
            assert forall|i: int| 0 <= i < keep_last(grown, c.capacity()).len() implies c.spec_accepts(
                #[trigger] keep_last(grown, c.capacity())[i],
            ) by {
                let kept = keep_last(grown, c.capacity());
                let skipped = grown.len() - kept.len();
                assert(kept[i] == grown[i + skipped]);
            }
        }
    }
}

/// An event that passes both filters becomes the newest entry of the buffer;
/// when the buffer has room for it, nothing else changes.
pub proof fn lemma_accepted_event_appended(
    c: EventCollector,
    buffer: Seq<CollectedEvent>,
    event: CollectedEvent,
)
    requires
        c.capacity() != Some(0usize),
        event.spec_level().spec_within(c.threshold()),
        c.origin_filter().admits(event.spec_target()),
    ensures
        c.spec_record(buffer, event).len() > 0,
        c.spec_record(buffer, event).last() == event,
        (c.capacity() matches Some(n) ==> buffer.len() < n) ==> c.spec_record(buffer, event)
            == buffer.push(event),
{
}

/// With the default configuration every event is kept, without bound.
pub proof fn lemma_default_keeps_everything(
    c: EventCollector,
    buffer: Seq<CollectedEvent>,
    events: Seq<CollectedEvent>,
)
    requires
        c.threshold() == Level::Trace,
        c.origin_filter() == AllowedTargets::All,
        c.capacity() == None::<usize>,
    ensures
        c.replay(buffer, events) == buffer + events,
    decreases events.len(),
{
    if events.len() == 0 {
        assert(buffer + events =~= buffer);
    } else {
        lemma_default_keeps_everything(c, buffer, events.drop_last());
        assert(buffer + events =~= (buffer + events.drop_last()).push(events.last()));
    }
}

/// Moving the threshold toward the verbose end, or letting more origins in,
/// only widens what is accepted.
pub proof fn lemma_wider_filter_accepts_more(
    narrow: EventCollector,
    wide: EventCollector,
    event: CollectedEvent,
)
    requires
        narrow.threshold().verbosity() <= wide.threshold().verbosity(),
        wide.origin_filter() is All || (narrow.origin_filter() is Selected && wide.origin_filter() is Selected
            && forall|i: int|
            0 <= i < narrow.origin_filter()->Selected_0@.len() ==> wide.origin_filter()->Selected_0@.contains(
                #[trigger] narrow.origin_filter()->Selected_0@[i],
            )),
        narrow.spec_accepts(event),
    ensures
        wide.spec_accepts(event),
{
    if wide.origin_filter() is Selected {
        let narrow_list = narrow.origin_filter()->Selected_0@;
        let wide_list = wide.origin_filter()->Selected_0@;
        let i = choose|i: int| 0 <= i < narrow_list.len() && #[trigger] is_prefix_of(narrow_list[i]@, event.spec_target());
        assert(wide_list.contains(narrow_list[i]));
        let j = choose|j: int| 0 <= j < wide_list.len() && wide_list[j] == narrow_list[i];
        assert(is_prefix_of(wide_list[j]@, event.spec_target()));
    }
}

/// A collector whose buffer is what the events of `history` made of an empty
/// one (as after `new` or `clear`, then one `collect` per event) holds exactly
/// the most recent accepted events of `history`, oldest first, never more than
/// its capacity, and none that fails a filter.
pub proof fn lemma_snapshot_from_history(c: EventCollector, history: Seq<CollectedEvent>)
    requires
        c.buffer() == c.replay(Seq::empty(), history),
    ensures
        c.buffer() == keep_last(c.accepted(history), c.capacity()),
        c.capacity() matches Some(n) ==> c.buffer().len() <= n,
        forall|i: int|
            0 <= i < c.buffer().len() ==> {
                let kept = #[trigger] c.buffer()[i];
                &&& kept.spec_level().spec_within(c.threshold())
                &&& c.origin_filter().admits(kept.spec_target())
            },
{
    let empty = Seq::<CollectedEvent>::empty();
    assert(keep_last(empty, c.capacity()) == empty);
    lemma_keeps_most_recent(c, empty, history);
    assert(empty + c.accepted(history) =~= c.accepted(history));
    lemma_kept_events_pass_filters(c, history);
}

} // verus!

//! The playback clock: a position on a timeline of scheduled events.
//!
//! The clock owns only its position, pause flag and a cursor; the event
//! sequence itself is owned by the caller and handed to every call that needs
//! it. All times are in nanoseconds. Each event carries its offset from the
//! nominal start of musical time; the clock shifts every offset by a fixed
//! lead-in chosen at construction, so the first events fire only after the
//! lead-in has elapsed.

use vstd::prelude::*;

verus! {

/// Number of nanoseconds in one millisecond.
pub const NANOS_PER_MILLI: u64 = 1_000_000;

/// The payload of a timed event: a note starting or ending on some key, or
/// any other message that merely passes through to the output.
#[derive(Clone, Copy, Debug, PartialEq, Eq, Structural)]
pub enum EventKind {
    NoteOn { key: u8 },
    NoteOff { key: u8 },
    Other,
}

/// One scheduled event of the immutable sequence a playback session plays.
#[derive(Clone, Copy, Debug, PartialEq, Eq, Structural)]
pub struct TimedEvent {
    /// Offset from the nominal start of musical time, in nanoseconds,
    /// not counting the lead-in.
    pub timestamp: u64,
    /// MIDI channel the event belongs to; channel 9 is percussion.
    pub channel: u8,
    pub kind: EventKind,
}

/// The offset on the clock's timeline at which an event fires: its own
/// offset shifted by the fixed lead-in.
pub open spec fn sched_offset(lead_in: u64, e: TimedEvent) -> int {
    e.timestamp + lead_in
}

/// The event sequence is ordered by offset; every call that walks the
/// sequence relies on this.
pub open spec fn events_sorted(events: Seq<TimedEvent>) -> bool {
    forall|i: int, j: int|
        0 <= i < j < events.len() ==> #[trigger] events[i].timestamp <= #[trigger] events[j].timestamp
}

/// A playback position within a timeline of scheduled events.
pub struct PlaybackClock {
    /// Fixed preparation offset added to every event's offset.
    pub lead_in: u64,
    /// Offset of the end of the timeline: the last event's scheduled offset.
    pub length: u64,
    /// Current position on the timeline, lead-in included.
    pub current_time: u64,
    pub paused: bool,
    /// Index of the first event not yet delivered.
    pub cursor: usize,
}

impl PlaybackClock {
    /// Scheduled offset of the end of the timeline: the last event's offset
    /// plus the lead-in, or the bare lead-in when there are no events.
    pub open spec fn spec_length(lead_in: u64, events: Seq<TimedEvent>) -> int {
        if events.len() == 0 {
            lead_in as int
        } else {
            events.last().timestamp + lead_in
        }
    }

    /// The cursor sits exactly at the boundary of the current position:
    /// every event before it fires strictly before `current_time`, every
    /// event at or after it fires at `current_time` or later. Together with
    /// a sorted sequence this pins the cursor to the first event whose
    /// scheduled offset is at least `current_time`.
    pub open spec fn cursor_settled(self, events: Seq<TimedEvent>) -> bool {
        &&& self.cursor <= events.len()
        &&& forall|i: int|
            0 <= i < self.cursor ==> sched_offset(self.lead_in, #[trigger] events[i])
                < self.current_time
        &&& forall|i: int|
            self.cursor <= i < events.len() ==> sched_offset(self.lead_in, #[trigger] events[i])
                >= self.current_time
    }

    /// A fresh clock at position zero, not paused, with the cursor at the
    /// start of the sequence.
    pub fn new(lead_in: u64, events: &Vec<TimedEvent>) -> (clock: PlaybackClock)
        requires
            Self::spec_length(lead_in, events@) <= u64::MAX,
        ensures
            clock.lead_in == lead_in,
            clock.length == Self::spec_length(lead_in, events@),
            clock.current_time == 0,
            !clock.paused,
            clock.cursor == 0,
            clock.cursor_settled(events@),
    {
        let length: u64 = if events.len() == 0 {
            lead_in
        } else {
            events[events.len() - 1].timestamp + lead_in
        };
        PlaybackClock { lead_in, length, current_time: 0, paused: false, cursor: 0 }
    }

    pub fn time(&self) -> (t: u64)
        ensures
            t == self.current_time,
    {
        self.current_time
    }

    pub fn length(&self) -> (l: u64)
        ensures
            l == self.length,
    {
        self.length
    }

    pub fn lead_in(&self) -> (l: u64)
        ensures
            l == self.lead_in,
    {
        self.lead_in
    }

    pub fn is_paused(&self) -> (p: bool)
        ensures
            p == self.paused,
    {
        self.paused
    }

    /// Stops the flow of time; position and cursor stay where they are.
    pub fn pause(&mut self)
        ensures
            *final(self) == (PlaybackClock { paused: true, ..*old(self) }),
    {
        self.paused = true;
    }

    /// Lets time flow again; position and cursor stay where they are.
    pub fn resume(&mut self)
        ensures
            *final(self) == (PlaybackClock { paused: false, ..*old(self) }),
    {
        self.paused = false;
    }

    /// Moves the position forward by `elapsed` and returns, in sequence
    /// order, exactly the events whose scheduled offsets the move crossed:
    /// those in `[old position, new position)`. While paused, nothing moves
    /// and nothing is returned. An advance by zero returns nothing: no
    /// event at the cursor fires strictly before the unchanged position.
    #[verifier::loop_isolation(false)]
    pub fn advance(&mut self, events: &Vec<TimedEvent>, elapsed: u64) -> (crossed: Vec<
        TimedEvent,
    >)
        requires
            events_sorted(events@),
            old(self).cursor_settled(events@),
            !old(self).paused ==> old(self).current_time + elapsed <= u64::MAX,
        ensures
            old(self).paused ==> *final(self) == *old(self) && crossed@ == Seq::<
                TimedEvent,
            >::empty(),
            !old(self).paused ==> *final(self) == (PlaybackClock {
                current_time: (old(self).current_time + elapsed) as u64,
                cursor: final(self).cursor,
                ..*old(self)
            }),
            !old(self).paused ==> old(self).cursor <= final(self).cursor,
            !old(self).paused ==> final(self).cursor_settled(events@),
            !old(self).paused ==> crossed@ == events@.subrange(
                old(self).cursor as int,
                final(self).cursor as int,
            ),
    {
        if self.paused {
            return Vec::new();
        }
        self.current_time = self.current_time + elapsed;
        let mut crossed: Vec<TimedEvent> = Vec::new();
        while self.cursor < events.len() && self.current_time > self.lead_in
            && events[self.cursor].timestamp < self.current_time - self.lead_in
            invariant
                old(self).cursor <= self.cursor <= events@.len(),
                self.current_time == old(self).current_time + elapsed,
                self.paused == old(self).paused,
                self.lead_in == old(self).lead_in,
                self.length == old(self).length,
                forall|i: int|
                    0 <= i < self.cursor ==> sched_offset(self.lead_in, #[trigger] events@[i])
                        < self.current_time,
                crossed@ == events@.subrange(old(self).cursor as int, self.cursor as int),
            decreases events@.len() - self.cursor,
        {
            crossed.push(events[self.cursor]);
            self.cursor = self.cursor + 1;
            proof {
                assert(crossed@ =~= events@.subrange(
                    old(self).cursor as int,
                    self.cursor as int,
                ));
            }
        }
        proof {
            if self.cursor < events@.len() {
                assert forall|i: int|
                    self.cursor <= i < events@.len() implies sched_offset(
                    self.lead_in,
                    #[trigger] events@[i],
                ) >= self.current_time by {
                    assert(events@[self.cursor as int].timestamp <= events@[i].timestamp);
                }
            }
        }
        crossed
    }

    /// Jumps to an absolute position and repositions the cursor by a full
    /// rescan from the start of the sequence; nothing is delivered. Events
    /// before the new position will never fire again, events at or after it
    /// are all still due, wherever the clock stood before.
    #[verifier::loop_isolation(false)]
    pub fn seek(&mut self, events: &Vec<TimedEvent>, time: u64)
        requires
            events_sorted(events@),
        ensures
            *final(self) == (PlaybackClock {
                current_time: time,
                cursor: final(self).cursor,
                ..*old(self)
            }),
            final(self).cursor_settled(events@),
    {
        self.current_time = time;
        self.cursor = 0;
        while self.cursor < events.len() && self.current_time > self.lead_in
            && events[self.cursor].timestamp < self.current_time - self.lead_in
            invariant
                self.cursor <= events@.len(),
                self.current_time == time,
                self.paused == old(self).paused,
                self.lead_in == old(self).lead_in,
                self.length == old(self).length,
                forall|i: int|
                    0 <= i < self.cursor ==> sched_offset(self.lead_in, #[trigger] events@[i])
                        < self.current_time,
            decreases events@.len() - self.cursor,
        {
            self.cursor = self.cursor + 1;
        }
        proof {
            if self.cursor < events@.len() {
                assert forall|i: int|
                    self.cursor <= i < events@.len() implies sched_offset(
                    self.lead_in,
                    #[trigger] events@[i],
                ) >= self.current_time by {
                    assert(events@[self.cursor as int].timestamp <= events@[i].timestamp);
                }
            }
        }
    }

    /// Jumps by a signed delta relative to the current position, saturating
    /// at zero on the way down and at the largest representable time on the
    /// way up, then seeks there.
    pub fn rewind(&mut self, events: &Vec<TimedEvent>, delta: i64)
        requires
            events_sorted(events@),
        ensures
            *final(self) == (PlaybackClock {
                current_time: rewind_target(old(self).current_time, delta),
                cursor: final(self).cursor,
                ..*old(self)
            }),
            final(self).cursor_settled(events@),
    {
        // the magnitude of the most negative delta does not fit in i64
        let magnitude: u64 = if delta >= 0 {
            delta as u64
        } else if delta == i64::MIN {
            0x8000_0000_0000_0000u64
        } else {
            (-delta) as u64
        };
        let time: u64 = if delta >= 0 {
            self.current_time.saturating_add(magnitude)
        } else {
            self.current_time.saturating_sub(magnitude)
        };
        self.seek(events, time);
    }
}

/// Magnitude of a signed time delta, as a mathematical integer.
pub open spec fn delta_magnitude(delta: i64) -> int {
    if delta >= 0 {
        delta as int
    } else {
        -(delta as int)
    }
}

/// The position a relative jump by `delta` lands on, from `time`: forward
/// deltas saturate at the largest representable time, backward deltas
/// saturate at zero and never produce an invalid position.
pub open spec fn rewind_target(time: u64, delta: i64) -> u64 {
    if delta >= 0 {
        if time + delta_magnitude(delta) <= u64::MAX {
            (time + delta_magnitude(delta)) as u64
        } else {
            u64::MAX
        }
    } else {
        if time >= delta_magnitude(delta) {
            (time - delta_magnitude(delta)) as u64
        } else {
            0
        }
    }
}

/// Of two settled clocks over one sorted sequence, the one further along in
/// time is also further along in the sequence.
pub proof fn lemma_cursor_monotone(a: PlaybackClock, b: PlaybackClock, events: Seq<TimedEvent>)
    requires
        events_sorted(events),
        a.cursor_settled(events),
        b.cursor_settled(events),
        a.lead_in == b.lead_in,
        a.current_time <= b.current_time,
    ensures
        a.cursor <= b.cursor,
{
    if b.cursor < a.cursor {
        assert(sched_offset(a.lead_in, events[b.cursor as int]) < a.current_time);
        assert(sched_offset(b.lead_in, events[b.cursor as int]) >= b.current_time);
    }
}

/// A sorted sequence settles the cursor uniquely: two settled clocks at the
/// same position stand at the same cursor.
pub proof fn lemma_settled_cursor_unique(a: PlaybackClock, b: PlaybackClock, events: Seq<
    TimedEvent,
>)
    requires
        events_sorted(events),
        a.cursor_settled(events),
        b.cursor_settled(events),
        a.lead_in == b.lead_in,
        a.current_time == b.current_time,
    ensures
        a.cursor == b.cursor,
{
    lemma_cursor_monotone(a, b, events);
    lemma_cursor_monotone(b, a, events);
}

/// The slice of the sequence between the cursors of two settled clocks holds
/// exactly the events whose scheduled offsets lie in the half-open window
/// between their positions: what an advance from `a` to `b` delivers is every
/// such event, once, and no event at or past `b`'s position comes early.
pub proof fn lemma_delivery_window(a: PlaybackClock, b: PlaybackClock, events: Seq<TimedEvent>)
    requires
        events_sorted(events),
        a.cursor_settled(events),
        b.cursor_settled(events),
        a.lead_in == b.lead_in,
        a.current_time <= b.current_time,
    ensures
        a.cursor <= b.cursor <= events.len(),
        forall|i: int|
            0 <= i < events.len() ==> ((a.cursor <= i < b.cursor) <==> (a.current_time
                <= sched_offset(a.lead_in, #[trigger] events[i]) < b.current_time)),
{
    lemma_cursor_monotone(a, b, events);
}

/// Monotonic delivery: across any chain of advances — settled positions with
/// nondecreasing times — the delivered slices are consecutive and disjoint,
/// so every event is delivered at most once, in ascending offset order, each
/// within the window of the advance that crossed it.
pub proof fn lemma_monotonic_delivery(
    a: PlaybackClock,
    b: PlaybackClock,
    c: PlaybackClock,
    events: Seq<TimedEvent>,
)
    requires
        events_sorted(events),
        a.cursor_settled(events),
        b.cursor_settled(events),
        c.cursor_settled(events),
        a.lead_in == b.lead_in,
        b.lead_in == c.lead_in,
        a.current_time <= b.current_time,
        b.current_time <= c.current_time,
    ensures
        a.cursor <= b.cursor <= c.cursor <= events.len(),
        forall|i: int|
            a.cursor <= i < b.cursor ==> a.current_time <= sched_offset(
                a.lead_in,
                #[trigger] events[i],
            ) < b.current_time,
        forall|i: int|
            b.cursor <= i < c.cursor ==> b.current_time <= sched_offset(
                b.lead_in,
                #[trigger] events[i],
            ) < c.current_time,
        forall|i: int, j: int|
            a.cursor <= i < j < c.cursor ==> #[trigger] events[i].timestamp
                <= #[trigger] events[j].timestamp,
{
    lemma_delivery_window(a, b, events);
    lemma_delivery_window(b, c, events);
}

/// Seek correctness: a seek settles the cursor for its target position, so
/// the flushing zero-elapsed advance that follows it — two settled clocks at
/// one position — delivers nothing; residual events are discarded by the
/// rescan, never redelivered. What a later advance delivers is then exactly
/// the window from the seek target, by `lemma_delivery_window`.
pub proof fn lemma_flush_after_seek_empty(
    a: PlaybackClock,
    b: PlaybackClock,
    events: Seq<TimedEvent>,
)
    requires
        events_sorted(events),
        a.cursor_settled(events),
        b.cursor_settled(events),
        a.lead_in == b.lead_in,
        a.current_time == b.current_time,
    ensures
        events.subrange(a.cursor as int, b.cursor as int) == Seq::<TimedEvent>::empty(),
{
    lemma_settled_cursor_unique(a, b, events);
    assert(events.subrange(a.cursor as int, b.cursor as int) =~= Seq::<TimedEvent>::empty());
}

/// Rewind saturation: a backward jump larger than the current position lands
/// exactly on zero, never on an invalid position.
pub proof fn lemma_rewind_saturation(time: u64, delta: i64)
    requires
        delta < 0,
        delta_magnitude(delta) > time,
    ensures
        rewind_target(time, delta) == 0,
{
}

/// Turns a wall-clock frame delta into the elapsed time handed to
/// [`PlaybackClock::advance`], scaled by a speed multiplier given in tenths.
/// The delta is first cut into coarse tenth-buckets and the whole buckets
/// are multiplied back up, so identical runs drift identically whatever the
/// frame rate: the same quantization every frame, no accumulating rounding.
pub fn scaled_elapsed(delta: u64, speed_times_ten: u32) -> (r: u64)
    requires
        (delta / 10) * speed_times_ten <= u64::MAX,
    ensures
        r == (delta / 10) * speed_times_ten,
{
    (delta / 10) * (speed_times_ten as u64)
}

} // verus!

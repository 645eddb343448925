//! The play-along engine: reconciling user key presses with required notes.

use vstd::prelude::*;

verus! {

use crate::clock::EventKind;
use crate::clock::NANOS_PER_MILLI;
use crate::clock::TimedEvent;

/// Length of the leeway window, in nanoseconds: a user press older than this
/// can no longer satisfy a note the sequence asks for.
pub const LEEWAY_NANOS: u64 = 500 * NANOS_PER_MILLI;

/// Who reported a key press: the played sequence itself, or the user at the
/// keyboard.
#[derive(Clone, Copy, Debug, PartialEq, Eq, Structural)]
pub enum KeyPressSource {
    File,
    User,
}

/// The inclusive range of note numbers the user's keyboard covers. Notes
/// outside it are not the play-along engine's business at all.
#[derive(Clone, Copy, Debug, PartialEq, Eq, Structural)]
pub struct KeyboardRange {
    pub lowest: u8,
    pub highest: u8,
}

impl KeyboardRange {
    pub open spec fn spec_contains(self, note_id: u8) -> bool {
        self.lowest <= note_id && note_id <= self.highest
    }

    pub fn new(lowest: u8, highest: u8) -> (range: KeyboardRange)
        ensures
            range.lowest == lowest,
            range.highest == highest,
    {
        KeyboardRange { lowest, highest }
    }

    pub fn contains(&self, note_id: u8) -> (r: bool)
        ensures
            r == self.spec_contains(note_id),
    {
        self.lowest <= note_id && note_id <= self.highest
    }
}

/// A user key press still inside the leeway window, waiting to be matched
/// against a note the sequence asks for.
#[derive(Clone, Copy, Debug, PartialEq, Eq, Structural)]
pub struct UserPress {
    /// When the key went down, in nanoseconds of the session clock.
    pub timestamp: u64,
    pub note_id: u8,
}

/// A press has left the leeway window: it is older than [`LEEWAY_NANOS`].
pub open spec fn press_expired(press: UserPress, now: u64) -> bool {
    now - press.timestamp > LEEWAY_NANOS
}

/// Some still-queued press is for this note.
pub open spec fn has_press(presses: Seq<UserPress>, note_id: u8) -> bool {
    exists|i: int| 0 <= i < presses.len() && (#[trigger] presses[i]).note_id == note_id
}

/// Index of the earliest still-queued press for this note, or a negative
/// value when there is none.
pub open spec fn find_press(presses: Seq<UserPress>, note_id: u8) -> int
    decreases presses.len(),
{
    if presses.len() == 0 {
        -1
    } else if presses[0].note_id == note_id {
        0
    } else if find_press(presses.drop_first(), note_id) < 0 {
        -1
    } else {
        1 + find_press(presses.drop_first(), note_id)
    }
}

/// The note sequence has no duplicates: it stands for a set.
pub open spec fn nodup(notes: Seq<u8>) -> bool {
    forall|i: int, j: int| 0 <= i < j < notes.len() ==> notes[i] != notes[j]
}

/// Presses are queued oldest first: insertion order equals timestamp order.
pub open spec fn presses_ordered(presses: Seq<UserPress>) -> bool {
    forall|i: int, j: int|
        0 <= i < j < presses.len() ==> (#[trigger] presses[i]).timestamp
            <= (#[trigger] presses[j]).timestamp
}

/// The abstract state of the play-along engine: the notes the user still
/// owes, and the queue of recent unmatched user presses, oldest first.
#[verifier::ext_equal]
pub struct PlayAlongModel {
    pub range: KeyboardRange,
    pub required: Seq<u8>,
    pub presses: Seq<UserPress>,
}

impl PlayAlongModel {
    /// The required notes stand for a set and the press queue is in
    /// timestamp order, so a front-only sweep can expire it.
    pub open spec fn wf(self) -> bool {
        nodup(self.required) && presses_ordered(self.presses)
    }
}

/// A user key-down: the press joins the back of the queue, and if the note
/// was owed, pressing early always satisfies it on the spot.
pub open spec fn user_press_on(m: PlayAlongModel, note_id: u8, now: u64) -> PlayAlongModel {
    PlayAlongModel {
        required: m.required.remove_value(note_id),
        presses: m.presses.push(UserPress { timestamp: now, note_id }),
        ..m
    }
}

/// The sequence sounds a note: the earliest queued press for it, if any,
/// is consumed and the note is never owed; with no press queued, the user
/// now owes the note.
pub open spec fn file_press_on(m: PlayAlongModel, note_id: u8) -> PlayAlongModel {
    if has_press(m.presses, note_id) {
        PlayAlongModel { presses: m.presses.remove(find_press(m.presses, note_id)), ..m }
    } else if m.required.contains(note_id) {
        m
    } else {
        PlayAlongModel { required: m.required.push(note_id), ..m }
    }
}

/// The sequence ends a note: the requirement lapses whether or not the user
/// ever satisfied it.
pub open spec fn file_press_off(m: PlayAlongModel, note_id: u8) -> PlayAlongModel {
    PlayAlongModel { required: m.required.remove_value(note_id), ..m }
}

/// A key event from the sequence, already inside the keyboard range.
pub open spec fn file_press(m: PlayAlongModel, note_id: u8, active: bool) -> PlayAlongModel {
    if active {
        file_press_on(m, note_id)
    } else {
        file_press_off(m, note_id)
    }
}

/// A key event from the sequence, range filter included.
pub open spec fn file_key_step(m: PlayAlongModel, note_id: u8, active: bool) -> PlayAlongModel {
    if !m.range.spec_contains(note_id) {
        m
    } else {
        file_press(m, note_id, active)
    }
}

/// What one `press_key` call does to the abstract state: nothing at all for
/// a note outside the keyboard range; otherwise the reconciliation rule of
/// the reporting side. A user key release is a no-op.
pub open spec fn press_key_step(
    m: PlayAlongModel,
    src: KeyPressSource,
    note_id: u8,
    active: bool,
    now: u64,
) -> PlayAlongModel {
    if !m.range.spec_contains(note_id) {
        m
    } else {
        match src {
            KeyPressSource::User => if active {
                user_press_on(m, note_id, now)
            } else {
                m
            },
            KeyPressSource::File => file_press(m, note_id, active),
        }
    }
}

/// What the expiry sweep does: drop presses from the front of the queue for
/// as long as the front press has left the leeway window.
pub open spec fn expire_step(m: PlayAlongModel, now: u64) -> PlayAlongModel
    decreases m.presses.len(),
{
    if m.presses.len() > 0 && press_expired(m.presses[0], now) {
        expire_step(PlayAlongModel { presses: m.presses.drop_first(), ..m }, now)
    } else {
        m
    }
}

/// What one crossed event does to the play-along state: percussion
/// (channel 9) and passthrough events leave it alone; note events are key
/// events reported by the sequence.
pub open spec fn feed_event(m: PlayAlongModel, e: TimedEvent) -> PlayAlongModel {
    if e.channel == 9 {
        m
    } else {
        match e.kind {
            EventKind::NoteOn { key } => file_key_step(m, key, true),
            EventKind::NoteOff { key } => file_key_step(m, key, false),
            EventKind::Other => m,
        }
    }
}

/// What a whole slice of crossed events does, in order.
pub open spec fn feed_events_model(m: PlayAlongModel, events: Seq<TimedEvent>) -> PlayAlongModel
    decreases events.len(),
{
    if events.len() == 0 {
        m
    } else {
        feed_events_model(feed_event(m, events[0]), events.drop_first())
    }
}

/// Feeding one more event at the back is feeding the slice, then the event.
pub proof fn lemma_feed_events_snoc(m: PlayAlongModel, events: Seq<TimedEvent>, e: TimedEvent)
    ensures
        feed_events_model(m, events.push(e)) == feed_event(feed_events_model(m, events), e),
    decreases events.len(),
{
    let snoc = events.push(e);
    assert(feed_events_model(m, snoc) == feed_events_model(feed_event(m, snoc[0]), snoc.drop_first()));
    if events.len() == 0 {
        assert(snoc[0] == e);
        assert(snoc.drop_first().len() == 0);
        assert(feed_events_model(feed_event(m, e), snoc.drop_first()) == feed_event(m, e));
        assert(feed_events_model(m, events) == m);
    } else {
        assert(snoc[0] == events[0]);
        assert(snoc.drop_first() =~= events.drop_first().push(e));
        lemma_feed_events_snoc(feed_event(m, events[0]), events.drop_first(), e);
        assert(feed_events_model(m, events) == feed_events_model(
            feed_event(m, events[0]),
            events.drop_first(),
        ));
    }
}

/// For a note that occurs at most once, removing its first occurrence
/// removes it entirely and leaves every other note in place.
pub proof fn lemma_remove_value_nodup(notes: Seq<u8>, note_id: u8)
    requires
        nodup(notes),
    ensures
        nodup(notes.remove_value(note_id)),
        !notes.remove_value(note_id).contains(note_id),
        !notes.contains(note_id) ==> notes.remove_value(note_id) == notes,
        notes.contains(note_id) ==> notes.remove_value(note_id).len() == notes.len() - 1,
        forall|v: u8| v != note_id ==> notes.remove_value(note_id).contains(v) == notes.contains(v),
{
    notes.index_of_first_ensures(note_id);
    match notes.index_of_first(note_id) {
        Some(idx) => {
            let r = notes.remove(idx);
            notes.remove_ensures(idx);
            assert forall|v: u8| v != note_id implies r.contains(v) == notes.contains(v) by {
                if r.contains(v) {
                    let k = choose|k: int| 0 <= k < r.len() && r[k] == v;
                    if k < idx {
                        assert(notes[k] == v);
                    } else {
                        assert(notes[k + 1] == v);
                    }
                }
                if notes.contains(v) {
                    let k = choose|k: int| 0 <= k < notes.len() && notes[k] == v;
                    if k < idx {
                        assert(r[k] == v);
                    } else {
                        assert(k != idx);
                        assert(r[k - 1] == v);
                    }
                }
            }
            assert(!r.contains(note_id)) by {
                if r.contains(note_id) {
                    let k = choose|k: int| 0 <= k < r.len() && r[k] == note_id;
                    if k < idx {
                        assert(notes[k] == note_id);
                    } else {
                        assert(notes[k + 1] == note_id);
                    }
                }
            }
        },
        None => {},
    }
}

/// `find_press` does what its name says: a negative result means no queued
/// press is for the note; otherwise it is the index of the earliest one.
pub proof fn lemma_find_press(presses: Seq<UserPress>, note_id: u8)
    ensures
        find_press(presses, note_id) < 0 ==> !has_press(presses, note_id),
        has_press(presses, note_id) ==> {
            let idx = find_press(presses, note_id);
            &&& 0 <= idx < presses.len()
            &&& presses[idx].note_id == note_id
            &&& forall|j: int| 0 <= j < idx ==> (#[trigger] presses[j]).note_id != note_id
        },
    decreases presses.len(),
{
    if presses.len() == 0 {
    } else if presses[0].note_id == note_id {
    } else {
        lemma_find_press(presses.drop_first(), note_id);
        assert forall|i: int|
            0 <= i < presses.len() && (#[trigger] presses[i]).note_id
                == note_id implies has_press(presses.drop_first(), note_id) by {
            assert(presses.drop_first()[i - 1] == presses[i]);
        }
        assert(forall|j: int|
            0 <= j < presses.drop_first().len() ==> #[trigger] presses.drop_first()[j]
                == presses[j + 1]);
        if has_press(presses, note_id) {
            let idx = find_press(presses.drop_first(), note_id);
            assert(presses[idx + 1] == presses.drop_first()[idx]);
            assert forall|j: int| 0 <= j < idx + 1 implies (#[trigger] presses[j]).note_id
                != note_id by {
                if j > 0 {
                    assert(presses[j] == presses.drop_first()[j - 1]);
                }
            }
        }
    }
}

/// Removing one press keeps the rest of the queue in timestamp order.
pub proof fn lemma_remove_press_ordered(presses: Seq<UserPress>, idx: int)
    requires
        presses_ordered(presses),
        0 <= idx < presses.len(),
    ensures
        presses_ordered(presses.remove(idx)),
{
    presses.remove_ensures(idx);
    let r = presses.remove(idx);
    assert forall|i: int, j: int|
        0 <= i < j < r.len() implies (#[trigger] r[i]).timestamp <= (#[trigger] r[j]).timestamp by {
        if i < idx {
            assert(r[i] == presses[i]);
        } else {
            assert(r[i] == presses[i + 1]);
        }
        if j < idx {
            assert(r[j] == presses[j]);
        } else {
            assert(r[j] == presses[j + 1]);
        }
    }
}

/// Removes the first occurrence of a note, if any; the executable face of
/// `Seq::remove_value` on a duplicate-free vector.
fn remove_note(notes: &mut Vec<u8>, note_id: u8)
    ensures
        final(notes)@ == old(notes)@.remove_value(note_id),
{
    let mut i: usize = 0;
    while i < notes.len()
        invariant
            i <= notes@.len(),
            notes@ == old(notes)@,
            forall|k: int| 0 <= k < i ==> notes@[k] != note_id,
        decreases notes@.len() - i,
    {
        if notes[i] == note_id {
            proof {
                old(notes)@.index_of_first_ensures(note_id);
                assert(old(notes)@.contains(note_id)) by {
                    assert(old(notes)@[i as int] == note_id);
                }
            }
            notes.remove(i);
            return ;
        }
        i = i + 1;
    }
    proof {
        old(notes)@.index_of_first_ensures(note_id);
        if old(notes)@.contains(note_id) {
            let k = choose|k: int| 0 <= k < old(notes)@.len() && old(notes)@[k] == note_id;
            assert(false);
        }
    }
}

/// Whether the vector holds the note.
fn holds_note(notes: &Vec<u8>, note_id: u8) -> (r: bool)
    ensures
        r == notes@.contains(note_id),
{
    let mut i: usize = 0;
    while i < notes.len()
        invariant
            i <= notes@.len(),
            forall|k: int| 0 <= k < i ==> notes@[k] != note_id,
        decreases notes@.len() - i,
    {
        if notes[i] == note_id {
            return true;
        }
        i = i + 1;
    }
    false
}

/// Consumes the earliest queued press for the note, reporting whether there
/// was one.
fn take_matching_press(presses: &mut Vec<UserPress>, note_id: u8) -> (found: bool)
    ensures
        found == has_press(old(presses)@, note_id),
        found ==> final(presses)@ == old(presses)@.remove(find_press(old(presses)@, note_id)),
        !found ==> final(presses)@ == old(presses)@,
{
    let mut i: usize = 0;
    while i < presses.len()
        invariant
            i <= presses@.len(),
            presses@ == old(presses)@,
            forall|k: int| 0 <= k < i ==> (#[trigger] presses@[k]).note_id != note_id,
        decreases presses@.len() - i,
    {
        if presses[i].note_id == note_id {
            proof {
                lemma_find_press(old(presses)@, note_id);
                assert(has_press(old(presses)@, note_id)) by {
                    assert(old(presses)@[i as int].note_id == note_id);
                }
            }
            presses.remove(i);
            return true;
        }
        i = i + 1;
    }
    false
}

/// The play-along engine: given note events tagged by who reported them, it
/// tracks which notes the sequence has sounded that the user has not yet
/// pressed, and a short queue of recent unmatched user presses, so the two
/// sides can arrive in either order within the leeway window.
pub struct PlayAlong {
    pub user_keyboard_range: KeyboardRange,
    pub required_notes: Vec<u8>,
    pub user_pressed_recently: Vec<UserPress>,
}

impl View for PlayAlong {
    type V = PlayAlongModel;

    open spec fn view(&self) -> PlayAlongModel {
        PlayAlongModel {
            range: self.user_keyboard_range,
            required: self.required_notes@,
            presses: self.user_pressed_recently@,
        }
    }
}

impl PlayAlong {
    pub open spec fn wf(self) -> bool {
        self@.wf()
    }

    /// A fresh engine: nothing owed, nothing queued.
    pub fn new(user_keyboard_range: KeyboardRange) -> (p: PlayAlong)
        ensures
            p@.range == user_keyboard_range,
            p@.required == Seq::<u8>::empty(),
            p@.presses == Seq::<UserPress>::empty(),
            p.wf(),
    {
        PlayAlong {
            user_keyboard_range,
            required_notes: Vec::new(),
            user_pressed_recently: Vec::new(),
        }
    }

    /// The per-tick expiry sweep: drops queued presses older than the leeway
    /// window. It scans from the front only: the queue is in timestamp
    /// order, so the first press still inside the window proves every press
    /// behind it is too.
    #[verifier::loop_isolation(false)]
    pub fn update(&mut self, now: u64)
        requires
            old(self).wf(),
            forall|i: int|
                0 <= i < old(self)@.presses.len() ==> (#[trigger] old(
                    self,
                )@.presses[i]).timestamp <= now,
        ensures
            final(self)@ == expire_step(old(self)@, now),
            final(self).wf(),
    {
        while self.user_pressed_recently.len() > 0 && now - self.user_pressed_recently[0].timestamp
            > LEEWAY_NANOS
            invariant
                self.user_keyboard_range == old(self).user_keyboard_range,
                self.required_notes@ == old(self).required_notes@,
                presses_ordered(self.user_pressed_recently@),
                forall|i: int|
                    0 <= i < self.user_pressed_recently@.len() ==> (#[trigger] self
                        .user_pressed_recently@[i]).timestamp <= now,
                expire_step(old(self)@, now) == expire_step(self@, now),
            decreases self.user_pressed_recently@.len(),
        {
            let ghost pre = self@;
            self.user_pressed_recently.remove(0);
            proof {
                assert(self.user_pressed_recently@ =~= pre.presses.drop_first());
                assert(self@ =~= (PlayAlongModel { presses: pre.presses.drop_first(), ..pre }));
            }
        }
    }

    fn user_press_key(&mut self, note_id: u8, active: bool, now: u64)
        requires
            old(self).wf(),
            active ==> forall|i: int|
                0 <= i < old(self)@.presses.len() ==> (#[trigger] old(
                    self,
                )@.presses[i]).timestamp <= now,
        ensures
            active ==> final(self)@ == user_press_on(old(self)@, note_id, now),
            !active ==> *final(self) == *old(self),
            final(self).wf(),
    {
        if active {
            self.user_pressed_recently.push(UserPress { timestamp: now, note_id });
            remove_note(&mut self.required_notes, note_id);
            proof {
                lemma_remove_value_nodup(old(self)@.required, note_id);
            }
        }
    }

    fn file_press_key(&mut self, note_id: u8, active: bool)
        requires
            old(self).wf(),
        ensures
            final(self)@ == file_press(old(self)@, note_id, active),
            final(self).wf(),
    {
        if active {
            let found = take_matching_press(&mut self.user_pressed_recently, note_id);
            if found {
                proof {
                    lemma_find_press(old(self)@.presses, note_id);
                    lemma_remove_press_ordered(
                        old(self)@.presses,
                        find_press(old(self)@.presses, note_id),
                    );
                }
            } else {
                if !holds_note(&self.required_notes, note_id) {
                    self.required_notes.push(note_id);
                    proof {
                        let pre = old(self)@.required;
                        assert forall|i: int, j: int|
                            0 <= i < j < pre.push(note_id).len() implies pre.push(note_id)[i]
                            != pre.push(note_id)[j] by {
                            if j < pre.len() {
                            } else {
                                assert(pre.push(note_id)[j] == note_id);
                                assert(pre[i] != note_id) by {
                                    if pre[i] == note_id {
                                        assert(pre.contains(note_id));
                                    }
                                }
                            }
                        }
                    }
                }
            }
        } else {
            remove_note(&mut self.required_notes, note_id);
            proof {
                lemma_remove_value_nodup(old(self)@.required, note_id);
            }
        }
    }

    /// One reported key event. A note outside the keyboard range is ignored
    /// entirely; inside it, the reconciliation rule of the reporting side
    /// applies. `now` matters only for a user key-down, which joins the
    /// queue with that timestamp.
    pub fn press_key(&mut self, src: KeyPressSource, note_id: u8, active: bool, now: u64)
        requires
            old(self).wf(),
            src == KeyPressSource::User && active ==> forall|i: int|
                0 <= i < old(self)@.presses.len() ==> (#[trigger] old(
                    self,
                )@.presses[i]).timestamp <= now,
        ensures
            final(self)@ == press_key_step(old(self)@, src, note_id, active, now),
            final(self).wf(),
    {
        if !self.user_keyboard_range.contains(note_id) {
            return ;
        }
        match src {
            KeyPressSource::User => self.user_press_key(note_id, active, now),
            KeyPressSource::File => self.file_press_key(note_id, active),
        }
    }

    /// True exactly when the user owes no note: what a strict play-along
    /// mode consults before letting playback move on.
    pub fn are_required_keys_pressed(&self) -> (r: bool)
        ensures
            r == (self@.required.len() == 0),
    {
        self.required_notes.len() == 0
    }

    /// Feeds a slice of crossed events into the engine, in order: each
    /// non-percussion note event is a key event reported by the sequence.
    #[verifier::loop_isolation(false)]
    pub fn feed_file_events(&mut self, events: &Vec<TimedEvent>)
        requires
            old(self).wf(),
        ensures
            final(self)@ == feed_events_model(old(self)@, events@),
            final(self).wf(),
    {
        let mut i: usize = 0;
        while i < events.len()
            invariant
                i <= events@.len(),
                self.wf(),
                self@ == feed_events_model(old(self)@, events@.take(i as int)),
            decreases events@.len() - i,
        {
            let e = events[i];
            if e.channel != 9 {
                match e.kind {
                    // the timestamp argument matters only for user presses
                    EventKind::NoteOn { key } => self.press_key(KeyPressSource::File, key, true, 0),
                    EventKind::NoteOff { key } => self.press_key(
                        KeyPressSource::File,
                        key,
                        false,
                        0,
                    ),
                    EventKind::Other => {},
                }
            }
            proof {
                assert(events@.take(i + 1) =~= events@.take(i as int).push(events@[i as int]));
                lemma_feed_events_snoc(old(self)@, events@.take(i as int), events@[i as int]);
            }
            i = i + 1;
        }
        proof {
            assert(events@.take(events@.len() as int) =~= events@);
        }
    }
}

/// The expiry sweep only ever shortens the queue from the front: what is
/// left is an in-order suffix, every press of it still inside the leeway
/// window, and the owed notes are untouched.
pub proof fn lemma_expire_step_props(m: PlayAlongModel, now: u64)
    requires
        presses_ordered(m.presses),
    ensures
        ({
            let r = expire_step(m, now);
            &&& r.range == m.range
            &&& r.required == m.required
            &&& r.presses.len() <= m.presses.len()
            &&& r.presses == m.presses.skip(m.presses.len() - r.presses.len())
            &&& presses_ordered(r.presses)
            &&& forall|i: int| 0 <= i < r.presses.len() ==> !press_expired(#[trigger] r.presses[i], now)
            &&& forall|i: int|
                0 <= i < m.presses.len() - r.presses.len() ==> press_expired(
                    #[trigger] m.presses[i],
                    now,
                )
        }),
    decreases m.presses.len(),
{
    if m.presses.len() > 0 && press_expired(m.presses[0], now) {
        let m1 = PlayAlongModel { presses: m.presses.drop_first(), ..m };
        assert(forall|j: int|
            0 <= j < m1.presses.len() ==> #[trigger] m1.presses[j] == m.presses[j + 1]);
        lemma_expire_step_props(m1, now);
        let r = expire_step(m, now);
        assert(r == expire_step(m1, now));
        assert(r.presses =~= m.presses.skip(m.presses.len() - r.presses.len()));
        assert forall|i: int|
            0 <= i < m.presses.len() - r.presses.len() implies press_expired(
            #[trigger] m.presses[i],
            now,
        ) by {
            if i > 0 {
                assert(m1.presses[i - 1] == m.presses[i]);
                assert(press_expired(m1.presses[i - 1], now));
            }
        }
    } else {
        let r = expire_step(m, now);
        assert(r.presses =~= m.presses.skip(0));
        if m.presses.len() > 0 {
            assert forall|i: int|
                0 <= i < r.presses.len() implies !press_expired(#[trigger] r.presses[i], now) by {
                assert(m.presses[0].timestamp <= m.presses[i].timestamp);
            }
        }
    }
}

/// Play-along early press: a user press for a note with no press already
/// queued, followed by the sequence sounding that note, leaves the note not
/// owed — the early press satisfied it — and consumes the press, so it
/// cannot satisfy a second occurrence of the note.
pub proof fn lemma_early_press_matched(m: PlayAlongModel, note_id: u8, now: u64, later: u64)
    requires
        m.wf(),
        m.range.spec_contains(note_id),
        !has_press(m.presses, note_id),
    ensures
        ({
            let after = press_key_step(
                press_key_step(m, KeyPressSource::User, note_id, true, now),
                KeyPressSource::File,
                note_id,
                true,
                later,
            );
            &&& !after.required.contains(note_id)
            &&& !has_press(after.presses, note_id)
            &&& after.presses == m.presses
        }),
{
    let m1 = press_key_step(m, KeyPressSource::User, note_id, true, now);
    lemma_remove_value_nodup(m.required, note_id);
    let queued = m.presses.push(UserPress { timestamp: now, note_id });
    assert(m1.presses == queued);
    assert(has_press(queued, note_id)) by {
        assert(queued[m.presses.len() as int].note_id == note_id);
    }
    lemma_find_press(queued, note_id);
    let idx = find_press(queued, note_id);
    assert(idx == m.presses.len()) by {
        if idx < m.presses.len() {
            assert(queued[idx] == m.presses[idx]);
            assert(m.presses[idx].note_id == note_id);
            assert(has_press(m.presses, note_id));
        }
    }
    let after = press_key_step(m1, KeyPressSource::File, note_id, true, later);
    assert(after.presses =~= m.presses);
}

/// Play-along late press: when the sequence sounds a note no queued press
/// covers, the user owes it and playback may stall; the user's press then
/// settles the debt, and with no other note outstanding playback may move
/// on again.
pub proof fn lemma_late_press(m: PlayAlongModel, note_id: u8, now: u64, later: u64)
    requires
        m.wf(),
        m.range.spec_contains(note_id),
        !has_press(m.presses, note_id),
        m.required.len() == 0,
    ensures
        ({
            let owed = press_key_step(m, KeyPressSource::File, note_id, true, now);
            let settled = press_key_step(owed, KeyPressSource::User, note_id, true, later);
            &&& owed.required.contains(note_id)
            &&& owed.required.len() > 0
            &&& !settled.required.contains(note_id)
            &&& settled.required.len() == 0
        }),
{
    let owed = press_key_step(m, KeyPressSource::File, note_id, true, now);
    assert(owed.required == m.required.push(note_id));
    assert(owed.required.contains(note_id)) by {
        assert(owed.required[0] == note_id);
    }
    assert(nodup(owed.required));
    lemma_remove_value_nodup(owed.required, note_id);
}

/// Expiry: once every queued press for a note has left the leeway window,
/// the sweep evicts them all, and the sequence sounding that note afterwards
/// finds no press to consume — the note is owed.
pub proof fn lemma_expiry(m: PlayAlongModel, note_id: u8, now: u64)
    requires
        m.wf(),
        forall|i: int|
            0 <= i < m.presses.len() && (#[trigger] m.presses[i]).note_id == note_id
                ==> press_expired(m.presses[i], now),
    ensures
        !has_press(expire_step(m, now).presses, note_id),
        m.range.spec_contains(note_id) ==> file_key_step(
            expire_step(m, now),
            note_id,
            true,
        ).required.contains(note_id),
{
    lemma_expire_step_props(m, now);
    let r = expire_step(m, now);
    let cut = m.presses.len() - r.presses.len();
    assert(!has_press(r.presses, note_id)) by {
        if has_press(r.presses, note_id) {
            let i = choose|i: int|
                0 <= i < r.presses.len() && (#[trigger] r.presses[i]).note_id == note_id;
            assert(r.presses[i] == m.presses[i + cut]);
            assert(press_expired(m.presses[i + cut], now));
        }
    }
    if m.range.spec_contains(note_id) {
        let after = file_key_step(r, note_id, true);
        if !r.required.contains(note_id) {
            assert(after.required[r.required.len() as int] == note_id);
        }
    }
}

/// Range filtering: a key event for a note outside the keyboard range has no
/// effect at all, whoever reported it.
pub proof fn lemma_range_filtering(
    m: PlayAlongModel,
    src: KeyPressSource,
    note_id: u8,
    active: bool,
    now: u64,
)
    requires
        !m.range.spec_contains(note_id),
    ensures
        press_key_step(m, src, note_id, active, now) == m,
{
}

/// No note is both owed and already satisfied by a queued press.
pub open spec fn sides_disjoint(m: PlayAlongModel) -> bool {
    forall|i: int|
        0 <= i < m.presses.len() ==> !m.required.contains((#[trigger] m.presses[i]).note_id)
}

/// A match removes both sides atomically, so a note is never at once owed
/// and covered by a still-queued press: every key event and every expiry
/// sweep preserves the separation.
pub proof fn lemma_sides_stay_disjoint(
    m: PlayAlongModel,
    src: KeyPressSource,
    note_id: u8,
    active: bool,
    now: u64,
)
    requires
        m.wf(),
        sides_disjoint(m),
    ensures
        sides_disjoint(press_key_step(m, src, note_id, active, now)),
        sides_disjoint(expire_step(m, now)),
{
    lemma_remove_value_nodup(m.required, note_id);
    let r = press_key_step(m, src, note_id, active, now);
    if m.range.spec_contains(note_id) {
        match src {
            KeyPressSource::User => {
                if active {
                    assert forall|i: int|
                        0 <= i < r.presses.len() implies !r.required.contains(
                        (#[trigger] r.presses[i]).note_id,
                    ) by {
                        if i < m.presses.len() {
                            assert(r.presses[i] == m.presses[i]);
                        } else {
                            assert(r.presses[i].note_id == note_id);
                        }
                    }
                }
            },
            KeyPressSource::File => {
                if active {
                    if has_press(m.presses, note_id) {
                        lemma_find_press(m.presses, note_id);
                        let idx = find_press(m.presses, note_id);
                        m.presses.remove_ensures(idx);
                        assert forall|i: int|
                            0 <= i < r.presses.len() implies !r.required.contains(
                            (#[trigger] r.presses[i]).note_id,
                        ) by {
                            if i < idx {
                                assert(r.presses[i] == m.presses[i]);
                            } else {
                                assert(r.presses[i] == m.presses[i + 1]);
                            }
                        }
                    } else if !m.required.contains(note_id) {
                        assert forall|i: int|
                            0 <= i < r.presses.len() implies !r.required.contains(
                            (#[trigger] r.presses[i]).note_id,
                        ) by {
                            let v = r.presses[i].note_id;
                            assert(v != note_id);
                            if r.required.contains(v) {
                                let k = choose|k: int|
                                    0 <= k < r.required.len() && r.required[k] == v;
                                assert(k < m.required.len());
                                assert(m.required.contains(v));
                            }
                        }
                    }
                }
            },
        }
    }
    lemma_expire_step_props(m, now);
    let e = expire_step(m, now);
    let cut = m.presses.len() - e.presses.len();
    assert forall|i: int|
        0 <= i < e.presses.len() implies !e.required.contains(
        (#[trigger] e.presses[i]).note_id,
    ) by {
        assert(e.presses[i] == m.presses[i + cut]);
    }
}

/// Note-off clears the requirement: when the sequence ends a note, the note
/// is no longer owed, whether or not the user ever pressed it, and the press
/// queue is untouched.
pub proof fn lemma_note_off_clears(m: PlayAlongModel, note_id: u8, now: u64)
    requires
        m.wf(),
        m.range.spec_contains(note_id),
    ensures
        !press_key_step(m, KeyPressSource::File, note_id, false, now).required.contains(note_id),
        press_key_step(m, KeyPressSource::File, note_id, false, now).presses == m.presses,
{
    lemma_remove_value_nodup(m.required, note_id);
}

} // verus!

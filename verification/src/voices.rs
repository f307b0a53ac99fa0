use rand_pcg::Lcg64Xsh32;
use vstd::prelude::*;

use crate::fallback::{compute_fallback_voice_id, fallback_voice_id};
use crate::rng::{pcg32_seeded, seeded_pcg32};

verus! {

/// The number of simultaneous voices of the synthesizer.
pub const NUM_VOICES: u32 = 16;

/// What the voice pool knows of one sounding voice.
#[derive(Debug, Clone, Copy, PartialEq, Eq, Structural)]
pub struct Voice {
    /// The identifier that links polyphonic modulation events to this voice.
    pub voice_id: i32,
    /// The note's channel.
    pub channel: u8,
    /// The note's key.
    pub note: u8,
    /// Each voice gets an internal ID one higher than the previous one; the
    /// lowest one in use marks the oldest voice.
    pub internal_voice_id: u64,
    /// Whether the key has been released and the voice is fading out.
    pub releasing: bool,
}

/// A voice that has ended, to be reported to the host.
#[derive(Debug, Clone, Copy, PartialEq, Eq, Structural)]
pub struct TerminatedVoice {
    pub timing: u32,
    pub voice_id: i32,
    pub channel: u8,
    pub note: u8,
}

/// The voice that a note-on event starts.
pub open spec fn new_voice(voice_id: Option<i32>, channel: u8, note: u8, internal: u64) -> Voice {
    Voice {
        voice_id: match voice_id {
            Some(id) => id,
            None => fallback_voice_id(note, channel) as i32,
        },
        channel,
        note,
        internal_voice_id: internal,
        releasing: false,
    }
}

/// `x.wrapping_add(1)`.
pub open spec fn wrapping_next(x: u64) -> u64 {
    if x == u64::MAX {
        0
    } else {
        (x + 1) as u64
    }
}

/// The report of a voice that ends at `timing`.
pub open spec fn voice_terminated(timing: u32, v: Voice) -> TerminatedVoice {
    TerminatedVoice { timing, voice_id: v.voice_id, channel: v.channel, note: v.note }
}

/// A slot holds a voice with this ID.
pub open spec fn has_voice_id(s: Option<Voice>, voice_id: i32) -> bool {
    s matches Some(v) && v.voice_id == voice_id
}

/// `k` is the first slot that holds a voice with this ID.
pub open spec fn is_first_with_id(s: Seq<Option<Voice>>, k: int, voice_id: i32) -> bool {
    &&& 0 <= k < s.len()
    &&& has_voice_id(s[k], voice_id)
    &&& forall|j: int| 0 <= j < k ==> !has_voice_id(#[trigger] s[j], voice_id)
}

/// Every slot is empty.
pub open spec fn all_empty(s: Seq<Option<Voice>>) -> bool {
    forall|i: int| 0 <= i < s.len() ==> #[trigger] s[i] is None
}

/// Every active voice has an internal ID below `next`, and no two active
/// voices share one.
pub open spec fn ids_fresh(s: Seq<Option<Voice>>, next: u64) -> bool {
    &&& forall|i: int|
        0 <= i < s.len() && (#[trigger] s[i]) is Some ==> s[i].unwrap().internal_voice_id < next
    &&& forall|i: int, j: int|
        0 <= i < s.len() && 0 <= j < s.len() && i != j && (#[trigger] s[i]) is Some
            && (#[trigger] s[j]) is Some ==> s[i].unwrap().internal_voice_id
            != s[j].unwrap().internal_voice_id
}

/// Some slot is empty.
pub open spec fn has_free_slot(s: Seq<Option<Voice>>) -> bool {
    exists|k: int| 0 <= k < s.len() && #[trigger] s[k] is None
}

/// `k` is the first empty slot.
pub open spec fn is_first_free(s: Seq<Option<Voice>>, k: int) -> bool {
    &&& 0 <= k < s.len()
    &&& s[k] is None
    &&& forall|j: int| 0 <= j < k ==> #[trigger] s[j] is Some
}

/// `k` holds the oldest voice: none has a lower internal ID, and every voice
/// before it has a higher one.
pub open spec fn is_oldest(s: Seq<Option<Voice>>, k: int) -> bool {
    &&& 0 <= k < s.len()
    &&& s[k] is Some
    &&& forall|j: int|
        0 <= j < s.len() && (#[trigger] s[j]) is Some ==> s[k].unwrap().internal_voice_id
            <= s[j].unwrap().internal_voice_id
    &&& forall|j: int|
        0 <= j < k && (#[trigger] s[j]) is Some ==> s[k].unwrap().internal_voice_id
            < s[j].unwrap().internal_voice_id
}

/// A voice answers a note-off or choke event for `voice_id`, or for the note
/// on the channel.
pub open spec fn note_matches(v: Voice, voice_id: Option<i32>, channel: u8, note: u8) -> bool {
    voice_id == Some(v.voice_id) || (channel == v.channel && note == v.note)
}

/// A slot holds a voice that answers the event.
pub open spec fn slot_matches(s: Option<Voice>, voice_id: Option<i32>, channel: u8, note: u8) -> bool {
    s matches Some(v) && note_matches(v, voice_id, channel, note)
}

/// No slot answers the event.
pub open spec fn no_match(s: Seq<Option<Voice>>, voice_id: Option<i32>, channel: u8, note: u8) -> bool {
    forall|j: int| 0 <= j < s.len() ==> !slot_matches(#[trigger] s[j], voice_id, channel, note)
}

/// `k` is the first slot that answers the event.
pub open spec fn is_first_match(
    s: Seq<Option<Voice>>,
    k: int,
    voice_id: Option<i32>,
    channel: u8,
    note: u8,
) -> bool {
    &&& 0 <= k < s.len()
    &&& slot_matches(s[k], voice_id, channel, note)
    &&& forall|j: int| 0 <= j < k ==> !slot_matches(#[trigger] s[j], voice_id, channel, note)
}

/// The slots, in order, among the first `n` that answer the event.
pub open spec fn matching_slots(
    s: Seq<Option<Voice>>,
    voice_id: Option<i32>,
    channel: u8,
    note: u8,
    n: nat,
) -> Seq<usize>
    decreases n,
{
    if n == 0 {
        seq![]
    } else {
        let before = matching_slots(s, voice_id, channel, note, (n - 1) as nat);
        if slot_matches(s[n - 1], voice_id, channel, note) {
            before.push((n - 1) as usize)
        } else {
            before
        }
    }
}

/// The voice once its key has been released.
pub open spec fn released(v: Voice) -> Voice {
    Voice {
        voice_id: v.voice_id,
        channel: v.channel,
        note: v.note,
        internal_voice_id: v.internal_voice_id,
        releasing: true,
    }
}

/// Every voice that answers the event starts its release.
pub open spec fn release_matching(s: Seq<Option<Voice>>, channel: u8, note: u8) -> Seq<Option<Voice>> {
    Seq::new(
        s.len(),
        |i: int|
            if slot_matches(s[i], None, channel, note) {
                Some(released(s[i].unwrap()))
            } else {
                s[i]
            },
    )
}

/// The report of a choked voice: its voice ID, with the event's channel and
/// note.
pub open spec fn choke_report(timing: u32, v: Voice, channel: u8, note: u8) -> TerminatedVoice {
    TerminatedVoice { timing, voice_id: v.voice_id, channel, note }
}

/// Every voice that answers the event is removed.
pub open spec fn choke_matching(s: Seq<Option<Voice>>, channel: u8, note: u8) -> Seq<Option<Voice>> {
    Seq::new(
        s.len(),
        |i: int|
            if slot_matches(s[i], None, channel, note) {
                None
            } else {
                s[i]
            },
    )
}

/// The reports, in slot order, of the voices among the first `n` slots that
/// a choke event removes.
pub open spec fn choke_reports(
    s: Seq<Option<Voice>>,
    voice_id: Option<i32>,
    channel: u8,
    note: u8,
    timing: u32,
    n: nat,
) -> Seq<TerminatedVoice>
    decreases n,
{
    if n == 0 {
        seq![]
    } else {
        let before = choke_reports(s, voice_id, channel, note, timing, (n - 1) as nat);
        if slot_matches(s[n - 1], voice_id, channel, note) {
            before.push(choke_report(timing, s[n - 1].unwrap(), channel, note))
        } else {
            before
        }
    }
}

/// A slot holds a releasing voice whose envelope has faded out.
pub open spec fn is_finished(s: Option<Voice>, faded: bool) -> bool {
    s matches Some(v) && v.releasing && faded
}

/// Every finished voice is removed.
pub open spec fn remove_finished(s: Seq<Option<Voice>>, faded: Seq<bool>) -> Seq<Option<Voice>> {
    Seq::new(
        s.len(),
        |i: int|
            if is_finished(s[i], faded[i]) {
                None
            } else {
                s[i]
            },
    )
}

/// The reports, in slot order, of the finished voices among the first `n`
/// slots.
pub open spec fn finished_reports(
    s: Seq<Option<Voice>>,
    faded: Seq<bool>,
    timing: u32,
    n: nat,
) -> Seq<TerminatedVoice>
    decreases n,
{
    if n == 0 {
        seq![]
    } else {
        let before = finished_reports(s, faded, timing, (n - 1) as nat);
        if is_finished(s[n - 1], faded[n - 1]) {
            before.push(voice_terminated(timing, s[n - 1].unwrap()))
        } else {
            before
        }
    }
}

/// The slots, in order, among the first `n` whose voice has finished.
pub open spec fn finished_slots(s: Seq<Option<Voice>>, faded: Seq<bool>, n: nat) -> Seq<usize>
    decreases n,
{
    if n == 0 {
        seq![]
    } else {
        let before = finished_slots(s, faded, (n - 1) as nat);
        if is_finished(s[n - 1], faded[n - 1]) {
            before.push((n - 1) as usize)
        } else {
            before
        }
    }
}

/// Fresh IDs stay fresh when voices are only removed or have their other
/// fields changed.
proof fn lemma_fresh_when_ids_kept(s: Seq<Option<Voice>>, t: Seq<Option<Voice>>, next: u64)
    requires
        ids_fresh(s, next),
        s.len() == t.len(),
        forall|i: int|
            0 <= i < t.len() && (#[trigger] t[i]) is Some ==> s[i] is Some
                && t[i].unwrap().internal_voice_id == s[i].unwrap().internal_voice_id,
    ensures
        ids_fresh(t, next),
{
    assert forall|i: int, j: int|
        0 <= i < t.len() && 0 <= j < t.len() && i != j && (#[trigger] t[i]) is Some
            && (#[trigger] t[j]) is Some implies t[i].unwrap().internal_voice_id
            != t[j].unwrap().internal_voice_id by {
        assert(s[i] is Some && s[j] is Some);
    }
}

/// Putting a voice with internal ID `next` into any slot keeps the IDs fresh
/// below `next + 1`.
proof fn lemma_fresh_after_insert(s: Seq<Option<Voice>>, next: u64, k: int, v: Voice)
    requires
        ids_fresh(s, next),
        0 <= k < s.len(),
        v.internal_voice_id == next,
        next < u64::MAX,
    ensures
        ids_fresh(s.update(k, Some(v)), (next + 1) as u64),
{
    let t = s.update(k, Some(v));
    assert forall|i: int| 0 <= i < t.len() && (#[trigger] t[i]) is Some implies t[i].unwrap().internal_voice_id < next + 1 by {
        if i != k {
            assert(s[i] is Some);
        }
    }
    assert forall|i: int, j: int|
        0 <= i < t.len() && 0 <= j < t.len() && i != j && (#[trigger] t[i]) is Some
            && (#[trigger] t[j]) is Some implies t[i].unwrap().internal_voice_id
            != t[j].unwrap().internal_voice_id by {
        if i != k && j != k {
            assert(s[i] is Some && s[j] is Some);
        } else if i == k {
            assert(s[j] is Some);
        } else {
            assert(s[i] is Some);
        }
    }
}

/// An empty pool has fresh internal IDs, whatever the next ID is.
pub proof fn lemma_empty_pool_is_fresh(s: Seq<Option<Voice>>, next: u64)
    requires
        all_empty(s),
    ensures
        ids_fresh(s, next),
{
}

/// With fresh internal IDs, the voice that is stolen when every slot is in
/// use is strictly older than every other voice.
pub proof fn lemma_stolen_voice_is_strictly_oldest(s: Seq<Option<Voice>>, next: u64, k: int)
    requires
        ids_fresh(s, next),
        is_oldest(s, k),
    ensures
        forall|j: int|
            0 <= j < s.len() && j != k && (#[trigger] s[j]) is Some ==> s[k].unwrap().internal_voice_id
                < s[j].unwrap().internal_voice_id,
{
    assert forall|j: int|
        0 <= j < s.len() && j != k && (#[trigger] s[j]) is Some implies s[k].unwrap().internal_voice_id
            < s[j].unwrap().internal_voice_id by {
        assert(s[k] is Some);
    }
}

/// A voice started with a host voice ID that no earlier slot holds is the
/// one that a lookup of that ID finds.
pub proof fn lemma_started_voice_is_found(
    s: Seq<Option<Voice>>,
    idx: int,
    voice_id: i32,
    channel: u8,
    note: u8,
    internal: u64,
)
    requires
        0 <= idx < s.len(),
        forall|j: int| 0 <= j < idx ==> !has_voice_id(#[trigger] s[j], voice_id),
    ensures
        is_first_with_id(
            s.update(idx, Some(new_voice(Some(voice_id), channel, note, internal))),
            idx,
            voice_id,
        ),
{
}

/// A note-off event for a note on a channel, without a voice ID, releases a
/// voice that was started for that note on that channel, wherever it stands.
pub proof fn lemma_note_off_releases_started_voice(
    s: Seq<Option<Voice>>,
    idx: int,
    voice_id: Option<i32>,
    channel: u8,
    note: u8,
    internal: u64,
)
    requires
        0 <= idx < s.len(),
    ensures
        release_matching(
            s.update(idx, Some(new_voice(voice_id, channel, note, internal))),
            channel,
            note,
        )[idx] == Some(released(new_voice(voice_id, channel, note, internal))),
{
}

/// Releasing voices neither starts nor ends any: a slot is in use after a
/// note-off event exactly when it was before.
pub proof fn lemma_release_keeps_voices(s: Seq<Option<Voice>>, channel: u8, note: u8)
    ensures
        release_matching(s, channel, note).len() == s.len(),
        forall|i: int|
            0 <= i < s.len() ==> (#[trigger] release_matching(s, channel, note)[i] is Some) == (
            s[i] is Some),
{
}

/// After a choke event without a voice ID, no voice plays the note on the
/// channel any more.
pub proof fn lemma_choke_silences_note(s: Seq<Option<Voice>>, channel: u8, note: u8)
    ensures
        no_match(choke_matching(s, channel, note), None, channel, note),
{
}

/// Only releasing voices end when their envelope has faded: every voice
/// whose key is still held stays where it is.
pub proof fn lemma_held_voices_survive(s: Seq<Option<Voice>>, faded: Seq<bool>)
    requires
        faded.len() == s.len(),
    ensures
        forall|i: int|
            0 <= i < s.len() && (#[trigger] s[i]) is Some && !s[i].unwrap().releasing
                ==> remove_finished(s, faded)[i] == s[i],
{
}

/// Every voice that a choke event without a voice ID removes is reported to
/// the host, once, in slot order: there is one report for each matching
/// slot, carrying that slot's voice ID, and a slot is among the matching ones
/// exactly when its voice answers the event.
pub proof fn lemma_choked_voices_are_reported(
    s: Seq<Option<Voice>>,
    channel: u8,
    note: u8,
    timing: u32,
    n: nat,
)
    requires
        n <= s.len(),
        n <= usize::MAX,
    ensures
        ({
            let slots = matching_slots(s, None, channel, note, n);
            let reports = choke_reports(s, None, channel, note, timing, n);
            &&& reports.len() == slots.len()
            &&& forall|k: int|
                0 <= k < slots.len() ==> #[trigger] reports[k] == choke_report(
                    timing,
                    s[slots[k] as int].unwrap(),
                    channel,
                    note,
                )
            &&& forall|k: int| 0 <= k < slots.len() ==> #[trigger] slots[k] < n
            &&& forall|i: int|
                0 <= i < n ==> (slot_matches(s[i], None, channel, note) <==> #[trigger] slots.contains(
                    i as usize,
                ))
        }),
    decreases n,
{
    if n > 0 {
        let m = (n - 1) as nat;
        lemma_choked_voices_are_reported(s, channel, note, timing, m);
        let before = matching_slots(s, None, channel, note, m);
        let after = matching_slots(s, None, channel, note, n);
        if slot_matches(s[m as int], None, channel, note) {
            assert(after == before.push(m as usize));
            assert forall|i: int| 0 <= i < n implies (slot_matches(s[i], None, channel, note)
                <==> #[trigger] after.contains(i as usize)) by {
                if i < m {
                    if before.contains(i as usize) {
                        let k = choose|k: int| 0 <= k < before.len() && before[k] == i as usize;
                        assert(after[k] == i as usize);
                    }
                    if after.contains(i as usize) {
                        let k = choose|k: int| 0 <= k < after.len() && after[k] == i as usize;
                        if k < before.len() {
                            assert(before[k] == i as usize);
                        }
                    }
                } else {
                    assert(after[before.len() as int] == i as usize);
                }
            }
        } else {
            assert(after == before);
            assert forall|i: int| 0 <= i < n implies (slot_matches(s[i], None, channel, note)
                <==> #[trigger] after.contains(i as usize)) by {
                if i == m && after.contains(i as usize) {
                    let k = choose|k: int| 0 <= k < after.len() && after[k] == i as usize;
                    assert(before[k] < m);
                }
            }
        }
    }
}

/// Every voice that ends because its envelope has faded is reported to the
/// host, once, in slot order: there is one report for each finished slot,
/// carrying that slot's voice, and a slot is among the finished ones exactly
/// when its voice was releasing and has faded.
pub proof fn lemma_finished_voices_are_reported(
    s: Seq<Option<Voice>>,
    faded: Seq<bool>,
    timing: u32,
    n: nat,
)
    requires
        n <= s.len(),
        n <= faded.len(),
        n <= usize::MAX,
    ensures
        ({
            let slots = finished_slots(s, faded, n);
            let reports = finished_reports(s, faded, timing, n);
            &&& reports.len() == slots.len()
            &&& forall|k: int|
                0 <= k < slots.len() ==> #[trigger] reports[k] == voice_terminated(
                    timing,
                    s[slots[k] as int].unwrap(),
                )
            &&& forall|k: int| 0 <= k < slots.len() ==> #[trigger] slots[k] < n
            &&& forall|i: int|
                0 <= i < n ==> (is_finished(s[i], faded[i]) <==> #[trigger] slots.contains(
                    i as usize,
                ))
        }),
    decreases n,
{
    if n > 0 {
        let m = (n - 1) as nat;
        lemma_finished_voices_are_reported(s, faded, timing, m);
        let before = finished_slots(s, faded, m);
        let after = finished_slots(s, faded, n);
        if is_finished(s[m as int], faded[m as int]) {
            assert(after == before.push(m as usize));
            assert forall|i: int| 0 <= i < n implies (is_finished(s[i], faded[i])
                <==> #[trigger] after.contains(i as usize)) by {
                if i < m {
                    if before.contains(i as usize) {
                        let k = choose|k: int| 0 <= k < before.len() && before[k] == i as usize;
                        assert(after[k] == i as usize);
                    }
                    if after.contains(i as usize) {
                        let k = choose|k: int| 0 <= k < after.len() && after[k] == i as usize;
                        if k < before.len() {
                            assert(before[k] == i as usize);
                        }
                    }
                } else {
                    assert(after[before.len() as int] == i as usize);
                }
            }
        } else {
            assert(after == before);
            assert forall|i: int| 0 <= i < n implies (is_finished(s[i], faded[i])
                <==> #[trigger] after.contains(i as usize)) by {
                if i == m && after.contains(i as usize) {
                    let k = choose|k: int| 0 <= k < after.len() && after[k] == i as usize;
                    assert(before[k] < m);
                }
            }
        }
    }
}

/// The synthesizer's voice pool: a fixed number of slots, each empty or
/// holding a voice, the next internal voice ID, and a pseudo-random number
/// generator that is reseeded with the same seed whenever the synth is reset.
pub struct TripleOsc {
    voices: Vec<Option<Voice>>,
    next_internal_voice_id: u64,
    prng: Lcg64Xsh32,
}

impl TripleOsc {
    /// The pool has its fixed number of slots.
    pub open spec fn wf(&self) -> bool {
        self.slots().len() == NUM_VOICES
    }

    /// The slots of the pool, in order.
    pub closed spec fn slots(&self) -> Seq<Option<Voice>> {
        self.voices@
    }

    /// The internal ID that the next started voice gets.
    pub closed spec fn next_id(&self) -> u64 {
        self.next_internal_voice_id
    }

    /// The pool's pseudo-random number generator.
    pub closed spec fn generator(&self) -> Lcg64Xsh32 {
        self.prng
    }

    fn empty_slots() -> (v: Vec<Option<Voice>>)
        ensures
            v@.len() == NUM_VOICES,
            all_empty(v@),
    {
        let mut v: Vec<Option<Voice>> = Vec::new();
        let mut i: u32 = 0;
        while i < NUM_VOICES
            invariant
                i <= NUM_VOICES,
                v@.len() == i,
                all_empty(v@),
            decreases NUM_VOICES - i,
        {
            v.push(None);
            i = i + 1;
        }
        v
    }

    /// A pool with every slot empty, internal IDs starting at zero and the
    /// generator seeded with state 420 on stream 1337.
    pub fn new() -> (r: Self)
        ensures
            r.wf(),
            all_empty(r.slots()),
            r.next_id() == 0,
            r.generator() == pcg32_seeded(420, 1337),
    {
        TripleOsc {
            voices: Self::empty_slots(),
            next_internal_voice_id: 0,
            prng: seeded_pcg32(420, 1337),
        }
    }

    /// Empties every slot, restarts internal IDs at zero and reseeds the
    /// generator with the seed of `new`, so that rendering is deterministic.
    pub fn reset(&mut self)
        ensures
            final(self).wf(),
            all_empty(final(self).slots()),
            final(self).next_id() == 0,
            final(self).generator() == pcg32_seeded(420, 1337),
    {
        self.prng = seeded_pcg32(420, 1337);
        self.voices = Self::empty_slots();
        self.next_internal_voice_id = 0;
    }

    /// The index of the first slot that holds a voice with this voice ID.
    pub fn get_voice_idx(&self, voice_id: i32) -> (r: Option<usize>)
        ensures
            r is None <==> forall|j: int|
                0 <= j < self.slots().len() ==> !has_voice_id(#[trigger] self.slots()[j], voice_id),
            r matches Some(k) ==> is_first_with_id(self.slots(), k as int, voice_id),
    {
        let n = self.voices.len();
        let mut i: usize = 0;
        while i < n
            invariant
                n == self.voices@.len(),
                i <= n,
                forall|j: int| 0 <= j < i ==> !has_voice_id(#[trigger] self.voices@[j], voice_id),
            decreases n - i,
        {
            match self.voices[i] {
                Some(v) => {
                    if v.voice_id == voice_id {
                        assert(has_voice_id(self.slots()[i as int], voice_id));
                        return Some(i);
                    }
                },
                None => {},
            }
            i = i + 1;
        }
        None
    }
    /// Starts a voice for a note. It takes the first empty slot; when every
    /// slot is in use, the oldest voice is stolen and reported as terminated
    /// at `sample_offset`, so that the host can reuse its modulation
    /// resources. Without a host voice ID, the voice gets the fallback ID of
    /// its note and channel. Returns the slot and the stolen voice's report.
    pub fn start_voice(&mut self, sample_offset: u32, voice_id: Option<i32>, channel: u8, note: u8) -> (r: (usize, Option<TerminatedVoice>))
        requires
            old(self).wf(),
        ensures
            final(self).generator() == old(self).generator(),
            final(self).wf(),
            r.0 < NUM_VOICES,
            final(self).slots() == old(self).slots().update(
                r.0 as int,
                Some(new_voice(voice_id, channel, note, old(self).next_id())),
            ),
            final(self).next_id() == wrapping_next(old(self).next_id()),
            has_free_slot(old(self).slots()) ==> is_first_free(old(self).slots(), r.0 as int)
                && r.1 is None,
            !has_free_slot(old(self).slots()) ==> is_oldest(old(self).slots(), r.0 as int)
                && r.1 == Some(voice_terminated(sample_offset, old(self).slots()[r.0 as int].unwrap())),
            ids_fresh(old(self).slots(), old(self).next_id()) && old(self).next_id() < u64::MAX
                ==> ids_fresh(final(self).slots(), final(self).next_id()),
    {
        let id = match voice_id {
            Some(id) => id,
            None => compute_fallback_voice_id(note, channel),
        };
        let voice = Voice {
            voice_id: id,
            channel,
            note,
            internal_voice_id: self.next_internal_voice_id,
            releasing: false,
        };
        assert(voice == new_voice(voice_id, channel, note, self.next_internal_voice_id));
        let ghost old_slots = self.voices@;
        let ghost old_next = self.next_internal_voice_id;
        self.next_internal_voice_id = self.next_internal_voice_id.wrapping_add(1);
        assert(self.next_internal_voice_id == wrapping_next(old_next));
        let n = self.voices.len();
        let mut i: usize = 0;
        while i < n
            invariant
                n == self.voices@.len(),
                n == NUM_VOICES,
                self.voices@ == old_slots,
                self.next_internal_voice_id == wrapping_next(old_next),
                voice == new_voice(voice_id, channel, note, old_next),
                old_slots == old(self).voices@,
                self.prng == old(self).prng,
                old_next == old(self).next_internal_voice_id,
                i <= n,
                forall|j: int| 0 <= j < i ==> #[trigger] self.voices@[j] is Some,
            decreases n - i,
        {
            if self.voices[i].is_none() {
                self.voices.set(i, Some(voice));
                proof {
                    assert(old_slots[i as int] is None);
                    assert(is_first_free(old_slots, i as int));
                    if ids_fresh(old_slots, old_next) && old_next < u64::MAX {
                        lemma_fresh_after_insert(old_slots, old_next, i as int, voice);
                    }
                }
                return (i, None);
            }
            i = i + 1;
        }
        assert(!has_free_slot(old_slots));
        let mut oldest: usize = 0;
        let mut oldest_id: u64 = match self.voices[0] {
            Some(v) => v.internal_voice_id,
            None => 0,
        };
        let mut i: usize = 1;
        while i < n
            invariant
                n == self.voices@.len(),
                n == NUM_VOICES,
                self.voices@ == old_slots,
                forall|j: int| 0 <= j < n ==> #[trigger] old_slots[j] is Some,
                1 <= i <= n,
                oldest < i,
                oldest_id == old_slots[oldest as int].unwrap().internal_voice_id,
                forall|j: int| 0 <= j < i ==> oldest_id <= (#[trigger] old_slots[j]).unwrap().internal_voice_id,
                forall|j: int| 0 <= j < oldest ==> oldest_id < (#[trigger] old_slots[j]).unwrap().internal_voice_id,
            decreases n - i,
        {
            let candidate = match self.voices[i] {
                Some(v) => v.internal_voice_id,
                None => 0,
            };
            if candidate < oldest_id {
                oldest = i;
                oldest_id = candidate;
            }
            i = i + 1;
        }
        let stolen = match self.voices[oldest] {
            Some(v) => TerminatedVoice {
                timing: sample_offset,
                voice_id: v.voice_id,
                channel: v.channel,
                note: v.note,
            },
            None => TerminatedVoice { timing: sample_offset, voice_id: 0, channel: 0, note: 0 },
        };
        self.voices.set(oldest, Some(voice));
        proof {
            assert(is_oldest(old_slots, oldest as int));
            if ids_fresh(old_slots, old_next) && old_next < u64::MAX {
                lemma_fresh_after_insert(old_slots, old_next, oldest as int, voice);
            }
        }
        (oldest, Some(stolen))
    }
    /// Starts the release of the voices that answer a note-off event: the
    /// voice with `voice_id`, or any voice playing `note` on `channel`. With
    /// a voice ID only the first such voice is released; without one, every
    /// such voice is. Returns the released slots, in order; their envelopes
    /// are to fade out from now on.
    pub fn start_release_for_voices(&mut self, voice_id: Option<i32>, channel: u8, note: u8) -> (r: Vec<usize>)
        requires
            old(self).wf(),
        ensures
            final(self).generator() == old(self).generator(),
            final(self).wf(),
            final(self).next_id() == old(self).next_id(),
            voice_id is None ==> final(self).slots() == release_matching(old(self).slots(), channel, note)
                && r@ == matching_slots(old(self).slots(), None, channel, note, NUM_VOICES as nat),
            voice_id is Some ==> forall|k: int|
                #[trigger] is_first_match(old(self).slots(), k, voice_id, channel, note)
                    ==> final(self).slots() == old(self).slots().update(
                    k,
                    Some(released(old(self).slots()[k].unwrap())),
                ) && r@ == seq![k as usize],
            voice_id is Some && no_match(old(self).slots(), voice_id, channel, note)
                ==> final(self).slots() == old(self).slots() && r@.len() == 0,
            ids_fresh(old(self).slots(), old(self).next_id()) ==> ids_fresh(
                final(self).slots(),
                final(self).next_id(),
            ),
    {
        let ghost old_slots = self.voices@;
        let mut out: Vec<usize> = Vec::new();
        let n = self.voices.len();
        let mut i: usize = 0;
        while i < n
            invariant
                n == self.voices@.len(),
                n == NUM_VOICES,
                i <= n,
                old_slots == old(self).voices@,
                self.prng == old(self).prng,
                old_slots.len() == n,
                self.next_internal_voice_id == old(self).next_internal_voice_id,
                voice_id is None ==> forall|j: int|
                    0 <= j < i ==> #[trigger] self.voices@[j] == release_matching(old_slots, channel, note)[j],
                voice_id is None ==> out@ == matching_slots(old_slots, None, channel, note, i as nat),
                voice_id is Some ==> self.voices@ == old_slots && out@.len() == 0,
                voice_id is Some ==> forall|j: int|
                    0 <= j < i ==> !slot_matches(#[trigger] old_slots[j], voice_id, channel, note),
                forall|j: int| i <= j < n ==> #[trigger] self.voices@[j] == old_slots[j],
            decreases n - i,
        {
            match self.voices[i] {
                Some(v) => {
                    let by_id = match voice_id {
                        Some(id) => id == v.voice_id,
                        None => false,
                    };
                    if by_id || (channel == v.channel && note == v.note) {
                        let ghost before = self.voices@;
                        self.voices.set(
                            i,
                            Some(
                                Voice {
                                    voice_id: v.voice_id,
                                    channel: v.channel,
                                    note: v.note,
                                    internal_voice_id: v.internal_voice_id,
                                    releasing: true,
                                },
                            ),
                        );
                        out.push(i);
                        if voice_id.is_some() {
                            proof {
                                assert(is_first_match(old_slots, i as int, voice_id, channel, note));
                                assert forall|k: int|
                                    #[trigger] is_first_match(old_slots, k, voice_id, channel, note)
                                        implies k == i by {
                                    if k < i {
                                        assert(!slot_matches(old_slots[k], voice_id, channel, note));
                                    } else if k > i {
                                        assert(!slot_matches(old_slots[i as int], voice_id, channel, note));
                                    }
                                }
                                assert(out@ =~= seq![i]);
                                if ids_fresh(old_slots, self.next_internal_voice_id) {
                                    lemma_fresh_when_ids_kept(old_slots, self.voices@, self.next_internal_voice_id);
                                }
                            }
                            return out;
                        }
                    }
                },
                None => {},
            }
            assert(voice_id is None ==> self.voices@[i as int] == release_matching(
                old_slots,
                channel,
                note,
            )[i as int]);
            i = i + 1;
        }
        proof {
            if voice_id is None {
                assert(self.voices@ =~= release_matching(old_slots, channel, note));
            } else {
                assert(no_match(old_slots, voice_id, channel, note));
                assert forall|k: int|
                    #[trigger] is_first_match(old_slots, k, voice_id, channel, note) implies false by {
                    assert(!slot_matches(old_slots[k], voice_id, channel, note));
                }
            }
            if ids_fresh(old_slots, self.next_internal_voice_id) {
                lemma_fresh_when_ids_kept(old_slots, self.voices@, self.next_internal_voice_id);
            }
        }
        out
    }
    /// Immediately removes the voices that answer a choke event: the voice
    /// with `voice_id`, or any voice playing `note` on `channel`. With a voice
    /// ID only the first such voice is removed; without one, every such voice
    /// is. Returns, in slot order, the reports to send to the host: each
    /// carries the removed voice's ID and the event's channel and note.
    pub fn choke_voices(&mut self, sample_offset: u32, voice_id: Option<i32>, channel: u8, note: u8) -> (r: Vec<TerminatedVoice>)
        requires
            old(self).wf(),
        ensures
            final(self).generator() == old(self).generator(),
            final(self).wf(),
            final(self).next_id() == old(self).next_id(),
            voice_id is None ==> final(self).slots() == choke_matching(old(self).slots(), channel, note)
                && r@ == choke_reports(old(self).slots(), None, channel, note, sample_offset, NUM_VOICES as nat),
            voice_id is Some ==> forall|k: int|
                #[trigger] is_first_match(old(self).slots(), k, voice_id, channel, note)
                    ==> final(self).slots() == old(self).slots().update(k, None)
                    && r@ == seq![choke_report(sample_offset, old(self).slots()[k].unwrap(), channel, note)],
            voice_id is Some && no_match(old(self).slots(), voice_id, channel, note)
                ==> final(self).slots() == old(self).slots() && r@.len() == 0,
            ids_fresh(old(self).slots(), old(self).next_id()) ==> ids_fresh(
                final(self).slots(),
                final(self).next_id(),
            ),
    {
        let ghost old_slots = self.voices@;
        let mut out: Vec<TerminatedVoice> = Vec::new();
        let n = self.voices.len();
        let mut i: usize = 0;
        while i < n
            invariant
                n == self.voices@.len(),
                n == NUM_VOICES,
                i <= n,
                old_slots == old(self).voices@,
                self.prng == old(self).prng,
                old_slots.len() == n,
                self.next_internal_voice_id == old(self).next_internal_voice_id,
                voice_id is None ==> forall|j: int|
                    0 <= j < i ==> #[trigger] self.voices@[j] == choke_matching(old_slots, channel, note)[j],
                voice_id is None ==> out@ == choke_reports(old_slots, None, channel, note, sample_offset, i as nat),
                voice_id is Some ==> self.voices@ == old_slots && out@.len() == 0,
                voice_id is Some ==> forall|j: int|
                    0 <= j < i ==> !slot_matches(#[trigger] old_slots[j], voice_id, channel, note),
                forall|j: int| i <= j < n ==> #[trigger] self.voices@[j] == old_slots[j],
            decreases n - i,
        {
            match self.voices[i] {
                Some(v) => {
                    let by_id = match voice_id {
                        Some(id) => id == v.voice_id,
                        None => false,
                    };
                    if by_id || (channel == v.channel && note == v.note) {
                        out.push(
                            TerminatedVoice { timing: sample_offset, voice_id: v.voice_id, channel, note },
                        );
                        self.voices.set(i, None);
                        if voice_id.is_some() {
                            proof {
                                assert(is_first_match(old_slots, i as int, voice_id, channel, note));
                                assert forall|k: int|
                                    #[trigger] is_first_match(old_slots, k, voice_id, channel, note)
                                        implies k == i by {
                                    if k < i {
                                        assert(!slot_matches(old_slots[k], voice_id, channel, note));
                                    } else if k > i {
                                        assert(!slot_matches(old_slots[i as int], voice_id, channel, note));
                                    }
                                }
                                assert(out@ =~= seq![choke_report(sample_offset, old_slots[i as int].unwrap(), channel, note)]);
                                if ids_fresh(old_slots, self.next_internal_voice_id) {
                                    lemma_fresh_when_ids_kept(old_slots, self.voices@, self.next_internal_voice_id);
                                }
                            }
                            return out;
                        }
                    }
                },
                None => {},
            }
            assert(voice_id is None ==> self.voices@[i as int] == choke_matching(
                old_slots,
                channel,
                note,
            )[i as int]);
            i = i + 1;
        }
        proof {
            if voice_id is None {
                assert(self.voices@ =~= choke_matching(old_slots, channel, note));
            } else {
                assert(no_match(old_slots, voice_id, channel, note));
                assert forall|k: int|
                    #[trigger] is_first_match(old_slots, k, voice_id, channel, note) implies false by {
                    assert(!slot_matches(old_slots[k], voice_id, channel, note));
                }
            }
            if ids_fresh(old_slots, self.next_internal_voice_id) {
                lemma_fresh_when_ids_kept(old_slots, self.voices@, self.next_internal_voice_id);
            }
        }
        out
    }

    /// Removes every releasing voice whose envelope has faded out to silence,
    /// `faded[i]` telling whether the envelope of slot `i` has reached zero.
    /// Returns, in slot order, the reports to send to the host, each with
    /// the removed voice's own ID, channel and note.
    pub fn terminate_finished_voices(&mut self, faded: &Vec<bool>, timing: u32) -> (r: Vec<TerminatedVoice>)
        requires
            old(self).wf(),
            faded@.len() == NUM_VOICES,
        ensures
            final(self).generator() == old(self).generator(),
            final(self).wf(),
            final(self).next_id() == old(self).next_id(),
            final(self).slots() == remove_finished(old(self).slots(), faded@),
            r@ == finished_reports(old(self).slots(), faded@, timing, NUM_VOICES as nat),
            ids_fresh(old(self).slots(), old(self).next_id()) ==> ids_fresh(
                final(self).slots(),
                final(self).next_id(),
            ),
    {
        let ghost old_slots = self.voices@;
        let mut out: Vec<TerminatedVoice> = Vec::new();
        let n = self.voices.len();
        let mut i: usize = 0;
        while i < n
            invariant
                n == self.voices@.len(),
                n == NUM_VOICES,
                n == faded@.len(),
                i <= n,
                old_slots == old(self).voices@,
                self.prng == old(self).prng,
                old_slots.len() == n,
                self.next_internal_voice_id == old(self).next_internal_voice_id,
                forall|j: int|
                    0 <= j < i ==> #[trigger] self.voices@[j] == remove_finished(old_slots, faded@)[j],
                out@ == finished_reports(old_slots, faded@, timing, i as nat),
                forall|j: int| i <= j < n ==> #[trigger] self.voices@[j] == old_slots[j],
            decreases n - i,
        {
            match self.voices[i] {
                Some(v) => {
                    if v.releasing && faded[i] {
                        out.push(
                            TerminatedVoice {
                                timing,
                                voice_id: v.voice_id,
                                channel: v.channel,
                                note: v.note,
                            },
                        );
                        self.voices.set(i, None);
                    }
                },
                None => {},
            }
            assert(self.voices@[i as int] == remove_finished(old_slots, faded@)[i as int]);
            i = i + 1;
        }
        proof {
            assert(self.voices@ =~= remove_finished(old_slots, faded@));
            if ids_fresh(old_slots, self.next_internal_voice_id) {
                lemma_fresh_when_ids_kept(old_slots, self.voices@, self.next_internal_voice_id);
            }
        }
        out
    }
    /// What slot `idx` holds.
    pub fn voice(&self, idx: usize) -> (r: Option<Voice>)
        requires
            self.wf(),
            idx < NUM_VOICES,
        ensures
            r == self.slots()[idx as int],
    {
        self.voices[idx]
    }

    /// The pool's pseudo-random number generator.
    pub fn prng(&self) -> (r: &Lcg64Xsh32)
        ensures
            *r == self.generator(),
    {
        &self.prng
    }

    /// The internal ID that the next started voice gets.
    pub fn next_internal_voice_id(&self) -> (r: u64)
        ensures
            r == self.next_id(),
    {
        self.next_internal_voice_id
    }

    /// Whether slot `idx` holds a voice started at or after the voice with
    /// internal ID `first_id`. A polyphonic modulation event for such a voice,
    /// started in the current block, takes effect at once instead of fading
    /// in.
    pub fn voice_started_since(&self, idx: usize, first_id: u64) -> (r: bool)
        requires
            self.wf(),
            idx < NUM_VOICES,
        ensures
            r == (self.slots()[idx as int] matches Some(v) && v.internal_voice_id >= first_id),
    {
        match self.voices[idx] {
            Some(v) => v.internal_voice_id >= first_id,
            None => false,
        }
    }
}

impl Default for TripleOsc {
    /// The pool of `TripleOsc::new`.
    fn default() -> (r: Self)
        ensures
            r.wf(),
            all_empty(r.slots()),
            r.next_id() == 0,
            r.generator() == pcg32_seeded(420, 1337),
    {
        Self::new()
    }
}

} // verus!

//! What the pool's operations do, stated over the fields of the voices in
//! the slots: which voices an event reaches, which slots change and how, and
//! which reports the host receives.

use vstd::prelude::*;

use crate::blocks::block_end_after;
use crate::fallback::fallback_voice_id;
use crate::voices::{
    Voice, TerminatedVoice, choke_matching, choke_report, choke_reports, finished_reports,
    finished_slots, has_free_slot, has_voice_id, is_finished, is_first_free, is_first_match,
    is_first_with_id, is_oldest, matching_slots, new_voice, no_match, release_matching, released,
    slot_matches, voice_terminated, wrapping_next,
};

verus! {

/// A voice answers a note-off or choke event exactly when it has the event's
/// voice ID or plays the event's note on the event's channel, whether or not
/// it is releasing; an empty slot answers no event.
pub proof fn law_event_reaches_voice(v: Voice, voice_id: Option<i32>, channel: u8, note: u8)
    ensures
        slot_matches(Some(v), voice_id, channel, note) <==> (voice_id == Some(v.voice_id) || (
        v.channel == channel && v.note == note)),
        !slot_matches(None, voice_id, channel, note),
{
}

/// The voice a note-off or choke event with a voice ID acts on is the first
/// slot whose voice has that ID or plays the note on the channel, releasing
/// or not; the event acts on nothing exactly when no slot holds such a voice.
pub proof fn law_first_voice_reached(
    s: Seq<Option<Voice>>,
    k: int,
    voice_id: Option<i32>,
    channel: u8,
    note: u8,
)
    ensures
        is_first_match(s, k, voice_id, channel, note) <==> {
            &&& 0 <= k < s.len()
            &&& s[k] is Some
            &&& (voice_id == Some(s[k].unwrap().voice_id) || (s[k].unwrap().channel == channel
                && s[k].unwrap().note == note))
            &&& forall|j: int|
                0 <= j < k ==> #[trigger] s[j] is None || !(voice_id == Some(s[j].unwrap().voice_id)
                    || (s[j].unwrap().channel == channel && s[j].unwrap().note == note))
        },
        no_match(s, voice_id, channel, note) <==> forall|j: int|
            0 <= j < s.len() ==> #[trigger] s[j] is None || !(voice_id == Some(s[j].unwrap().voice_id)
                || (s[j].unwrap().channel == channel && s[j].unwrap().note == note)),
{
    if is_first_match(s, k, voice_id, channel, note) {
        assert forall|j: int| 0 <= j < k implies #[trigger] s[j] is None || !(voice_id == Some(
            s[j].unwrap().voice_id,
        ) || (s[j].unwrap().channel == channel && s[j].unwrap().note == note)) by {
            assert(!slot_matches(s[j], voice_id, channel, note));
        }
    }
    if no_match(s, voice_id, channel, note) {
        assert forall|j: int| 0 <= j < s.len() implies #[trigger] s[j] is None || !(voice_id
            == Some(s[j].unwrap().voice_id) || (s[j].unwrap().channel == channel && s[j].unwrap().note
            == note)) by {
            assert(!slot_matches(s[j], voice_id, channel, note));
        }
    }
}

/// The slots an event reaches, listed in increasing order, each once: every
/// listed slot holds a voice with the event's voice ID or playing its note on
/// its channel, and every such slot among the first `n` is listed.
pub proof fn law_reached_slots(
    s: Seq<Option<Voice>>,
    voice_id: Option<i32>,
    channel: u8,
    note: u8,
    n: nat,
)
    requires
        n <= s.len(),
        n <= usize::MAX,
    ensures
        ({
            let slots = matching_slots(s, voice_id, channel, note, n);
            &&& forall|k: int|
                0 <= k < slots.len() ==> {
                    let i = #[trigger] slots[k] as int;
                    &&& i < n
                    &&& s[i] is Some
                    &&& (voice_id == Some(s[i].unwrap().voice_id) || (s[i].unwrap().channel
                        == channel && s[i].unwrap().note == note))
                }
            &&& forall|a: int, b: int|
                0 <= a < b < slots.len() ==> #[trigger] slots[a] < #[trigger] slots[b]
            &&& forall|i: int|
                0 <= i < n && (#[trigger] s[i]) is Some && (voice_id == Some(s[i].unwrap().voice_id)
                    || (s[i].unwrap().channel == channel && s[i].unwrap().note == note))
                    ==> slots.contains(i as usize)
        }),
    decreases n,
{
    if n > 0 {
        let m = (n - 1) as nat;
        law_reached_slots(s, voice_id, channel, note, m);
        let before = matching_slots(s, voice_id, channel, note, m);
        let after = matching_slots(s, voice_id, channel, note, n);
        if slot_matches(s[m as int], voice_id, channel, note) {
            assert(after == before.push(m as usize));
            assert forall|i: int|
                0 <= i < n && (#[trigger] s[i]) is Some && (voice_id == Some(s[i].unwrap().voice_id)
                    || (s[i].unwrap().channel == channel && s[i].unwrap().note == note))
                implies after.contains(i as usize) by {
                if i < m {
                    let k = choose|k: int| 0 <= k < before.len() && before[k] == i as usize;
                    assert(after[k] == i as usize);
                } else {
                    assert(after[before.len() as int] == i as usize);
                }
            }
        } else {
            assert(after == before);
            assert forall|i: int|
                0 <= i < n && (#[trigger] s[i]) is Some && (voice_id == Some(s[i].unwrap().voice_id)
                    || (s[i].unwrap().channel == channel && s[i].unwrap().note == note))
                implies after.contains(i as usize) by {
                if i == m {
                    assert(slot_matches(s[i], voice_id, channel, note));
                }
            }
        }
    }
}

/// A note-off event without a voice ID puts into release every voice that
/// plays the note on the channel, releasing or not, keeping its voice ID,
/// note, channel and internal ID; every other slot is left as it was. The
/// released slots are listed in increasing order, each once.
pub proof fn law_note_off_releases_exactly_the_note(s: Seq<Option<Voice>>, channel: u8, note: u8)
    requires
        s.len() <= usize::MAX,
    ensures
        ({
            let t = release_matching(s, channel, note);
            &&& t.len() == s.len()
            &&& forall|i: int|
                0 <= i < s.len() && (#[trigger] s[i]) is Some && s[i].unwrap().channel == channel
                    && s[i].unwrap().note == note ==> t[i] == Some(
                    Voice {
                        voice_id: s[i].unwrap().voice_id,
                        channel: s[i].unwrap().channel,
                        note: s[i].unwrap().note,
                        internal_voice_id: s[i].unwrap().internal_voice_id,
                        releasing: true,
                    },
                )
            &&& forall|i: int|
                0 <= i < s.len() && !((#[trigger] s[i]) is Some && s[i].unwrap().channel == channel
                    && s[i].unwrap().note == note) ==> t[i] == s[i]
        }),
        ({
            let slots = matching_slots(s, None, channel, note, s.len());
            &&& forall|k: int|
                0 <= k < slots.len() ==> {
                    let i = #[trigger] slots[k] as int;
                    &&& i < s.len()
                    &&& s[i] is Some
                    &&& s[i].unwrap().channel == channel
                    &&& s[i].unwrap().note == note
                }
            &&& forall|a: int, b: int|
                0 <= a < b < slots.len() ==> #[trigger] slots[a] < #[trigger] slots[b]
            &&& forall|i: int|
                0 <= i < s.len() && (#[trigger] s[i]) is Some && s[i].unwrap().channel == channel
                    && s[i].unwrap().note == note ==> slots.contains(i as usize)
        }),
{
    law_reached_slots(s, None, channel, note, s.len());
    let t = release_matching(s, channel, note);
    assert forall|i: int|
        0 <= i < s.len() && !((#[trigger] s[i]) is Some && s[i].unwrap().channel == channel
            && s[i].unwrap().note == note) implies t[i] == s[i] by {
        assert(!slot_matches(s[i], None, channel, note));
    }
}

/// A choke event without a voice ID removes every voice that plays the note
/// on the channel, releasing or not, and leaves every other slot as it was.
/// Each removed voice is reported once, in slot order, with its voice ID and
/// the event's channel and note, and nothing else is reported.
pub proof fn law_choke_removes_exactly_the_note(
    s: Seq<Option<Voice>>,
    channel: u8,
    note: u8,
    timing: u32,
)
    requires
        s.len() <= usize::MAX,
    ensures
        ({
            let t = choke_matching(s, channel, note);
            &&& t.len() == s.len()
            &&& forall|i: int|
                0 <= i < s.len() && (#[trigger] s[i]) is Some && s[i].unwrap().channel == channel
                    && s[i].unwrap().note == note ==> t[i] is None
            &&& forall|i: int|
                0 <= i < s.len() && !((#[trigger] s[i]) is Some && s[i].unwrap().channel == channel
                    && s[i].unwrap().note == note) ==> t[i] == s[i]
        }),
        ({
            let slots = matching_slots(s, None, channel, note, s.len());
            let reports = choke_reports(s, None, channel, note, timing, s.len());
            &&& reports.len() == slots.len()
            &&& forall|k: int|
                0 <= k < slots.len() ==> {
                    let i = #[trigger] slots[k] as int;
                    &&& i < s.len()
                    &&& s[i] is Some
                    &&& s[i].unwrap().channel == channel
                    &&& s[i].unwrap().note == note
                    &&& reports[k] == TerminatedVoice {
                        timing,
                        voice_id: s[i].unwrap().voice_id,
                        channel,
                        note,
                    }
                }
            &&& forall|a: int, b: int|
                0 <= a < b < slots.len() ==> #[trigger] slots[a] < #[trigger] slots[b]
            &&& forall|i: int|
                0 <= i < s.len() && (#[trigger] s[i]) is Some && s[i].unwrap().channel == channel
                    && s[i].unwrap().note == note ==> slots.contains(i as usize)
        }),
{
    law_reached_slots(s, None, channel, note, s.len());
    crate::voices::lemma_choked_voices_are_reported(s, channel, note, timing, s.len());
    let t = choke_matching(s, channel, note);
    assert forall|i: int|
        0 <= i < s.len() && !((#[trigger] s[i]) is Some && s[i].unwrap().channel == channel
            && s[i].unwrap().note == note) implies t[i] == s[i] by {
        assert(!slot_matches(s[i], None, channel, note));
    }
}

/// Ending faded voices empties exactly the slots whose voice is releasing
/// and has faded, and leaves every other slot as it was. Each ended voice is
/// reported once, in slot order, with its own voice ID, channel and note, and
/// nothing else is reported.
pub proof fn law_faded_voices_end(s: Seq<Option<Voice>>, faded: Seq<bool>, timing: u32)
    requires
        s.len() <= usize::MAX,
        faded.len() == s.len(),
    ensures
        ({
            let t = crate::voices::remove_finished(s, faded);
            &&& t.len() == s.len()
            &&& forall|i: int|
                0 <= i < s.len() && (#[trigger] s[i]) is Some && s[i].unwrap().releasing
                    && faded[i] ==> t[i] is None
            &&& forall|i: int|
                0 <= i < s.len() && !((#[trigger] s[i]) is Some && s[i].unwrap().releasing
                    && faded[i]) ==> t[i] == s[i]
        }),
        ({
            let slots = finished_slots(s, faded, s.len());
            let reports = finished_reports(s, faded, timing, s.len());
            &&& reports.len() == slots.len()
            &&& forall|k: int|
                0 <= k < slots.len() ==> {
                    let i = #[trigger] slots[k] as int;
                    &&& i < s.len()
                    &&& s[i] is Some
                    &&& s[i].unwrap().releasing
                    &&& faded[i]
                    &&& reports[k] == TerminatedVoice {
                        timing,
                        voice_id: s[i].unwrap().voice_id,
                        channel: s[i].unwrap().channel,
                        note: s[i].unwrap().note,
                    }
                }
            &&& forall|a: int, b: int|
                0 <= a < b < slots.len() ==> #[trigger] slots[a] < #[trigger] slots[b]
            &&& forall|i: int|
                0 <= i < s.len() && (#[trigger] s[i]) is Some && s[i].unwrap().releasing && faded[i]
                    ==> slots.contains(i as usize)
        }),
{
    law_finished_slots_ordered(s, faded, s.len());
    crate::voices::lemma_finished_voices_are_reported(s, faded, timing, s.len());
    let t = crate::voices::remove_finished(s, faded);
    let slots = finished_slots(s, faded, s.len());
    assert forall|i: int|
        0 <= i < s.len() && (#[trigger] s[i]) is Some && s[i].unwrap().releasing && faded[i]
        implies t[i] is None by {
        assert(is_finished(s[i], faded[i]));
    }
    assert forall|i: int|
        0 <= i < s.len() && (#[trigger] s[i]) is Some && s[i].unwrap().releasing && faded[i]
        implies slots.contains(i as usize) by {
        assert(is_finished(s[i], faded[i]));
    }
}

/// The finished slots among the first `n` are listed in increasing order,
/// and each holds a releasing voice that has faded.
proof fn law_finished_slots_ordered(s: Seq<Option<Voice>>, faded: Seq<bool>, n: nat)
    requires
        n <= s.len(),
        n <= faded.len(),
        n <= usize::MAX,
    ensures
        ({
            let slots = finished_slots(s, faded, n);
            &&& forall|k: int|
                0 <= k < slots.len() ==> {
                    let i = #[trigger] slots[k] as int;
                    &&& i < n
                    &&& s[i] is Some
                    &&& s[i].unwrap().releasing
                    &&& faded[i]
                }
            &&& forall|a: int, b: int|
                0 <= a < b < slots.len() ==> #[trigger] slots[a] < #[trigger] slots[b]
        }),
    decreases n,
{
    if n > 0 {
        let m = (n - 1) as nat;
        law_finished_slots_ordered(s, faded, m);
        let before = finished_slots(s, faded, m);
        let after = finished_slots(s, faded, n);
        if is_finished(s[m as int], faded[m as int]) {
            assert(after == before.push(m as usize));
        } else {
            assert(after == before);
        }
    }
}

/// A lookup by voice ID finds the first slot whose voice has that ID,
/// whether the voice is releasing or not, and finds nothing exactly when no
/// slot holds a voice with that ID.
pub proof fn law_lookup_by_voice_id(s: Seq<Option<Voice>>, k: int, voice_id: i32)
    ensures
        is_first_with_id(s, k, voice_id) <==> {
            &&& 0 <= k < s.len()
            &&& s[k] is Some
            &&& s[k].unwrap().voice_id == voice_id
            &&& forall|j: int|
                0 <= j < k ==> #[trigger] s[j] is None || s[j].unwrap().voice_id != voice_id
        },
        (forall|j: int| 0 <= j < s.len() ==> !has_voice_id(#[trigger] s[j], voice_id)) <==> (
        forall|j: int|
            0 <= j < s.len() ==> #[trigger] s[j] is None || s[j].unwrap().voice_id != voice_id),
{
    if forall|j: int| 0 <= j < s.len() ==> #[trigger] s[j] is None || s[j].unwrap().voice_id != voice_id {
        assert forall|j: int| 0 <= j < s.len() implies !has_voice_id(#[trigger] s[j], voice_id) by {
            assert(s[j] is None || s[j].unwrap().voice_id != voice_id);
        }
    }
    if forall|j: int| 0 <= j < s.len() ==> !has_voice_id(#[trigger] s[j], voice_id) {
        assert forall|j: int| 0 <= j < s.len() implies #[trigger] s[j] is None || s[j].unwrap().voice_id
            != voice_id by {
            assert(!has_voice_id(s[j], voice_id));
        }
    }
    if is_first_with_id(s, k, voice_id) {
        assert forall|j: int| 0 <= j < k implies #[trigger] s[j] is None || s[j].unwrap().voice_id
            != voice_id by {
            assert(!has_voice_id(s[j], voice_id));
        }
    }
    if 0 <= k < s.len() && s[k] is Some && s[k].unwrap().voice_id == voice_id && forall|j: int|
        0 <= j < k ==> #[trigger] s[j] is None || s[j].unwrap().voice_id != voice_id {
        assert forall|j: int| 0 <= j < k implies !has_voice_id(#[trigger] s[j], voice_id) by {
            assert(s[j] is None || s[j].unwrap().voice_id != voice_id);
        }
    }
}

/// A note-on event starts a voice with the host's voice ID, or else the
/// note plus the channel times 65536, with the event's note and channel, the
/// next internal ID, and its key held; the next internal ID then goes up by
/// one, from the largest value back to zero.
pub proof fn law_started_voice(voice_id: Option<i32>, channel: u8, note: u8, internal: u64)
    ensures
        new_voice(voice_id, channel, note, internal).voice_id == match voice_id {
            Some(id) => id as int,
            None => note + channel * 65536,
        },
        new_voice(voice_id, channel, note, internal).channel == channel,
        new_voice(voice_id, channel, note, internal).note == note,
        new_voice(voice_id, channel, note, internal).internal_voice_id == internal,
        !new_voice(voice_id, channel, note, internal).releasing,
        internal < u64::MAX ==> wrapping_next(internal) == internal + 1,
        internal == u64::MAX ==> wrapping_next(internal) == 0,
{
}

/// A new voice takes the first empty slot: the slot chosen is empty and
/// every slot before it is in use, so at most one slot qualifies; a free
/// slot exists exactly when some slot is empty.
pub proof fn law_first_free_slot(s: Seq<Option<Voice>>, k: int, k2: int)
    ensures
        is_first_free(s, k) <==> (0 <= k < s.len() && s[k] is None && forall|j: int|
            0 <= j < k ==> #[trigger] s[j] is Some),
        is_first_free(s, k) && is_first_free(s, k2) ==> k == k2,
        has_free_slot(s) <==> exists|j: int| 0 <= j < s.len() && #[trigger] s[j] is None,
{
    if is_first_free(s, k) && is_first_free(s, k2) {
        if k < k2 {
            assert(s[k] is Some);
        } else if k2 < k {
            assert(s[k2] is Some);
        }
    }
}

/// When every slot is in use, the voice stolen is the one with the lowest
/// internal ID, and among voices sharing it the first: at most one slot
/// qualifies, and one always does.
pub proof fn law_oldest_voice(s: Seq<Option<Voice>>, k: int, k2: int)
    requires
        forall|j: int| 0 <= j < s.len() ==> #[trigger] s[j] is Some,
    ensures
        is_oldest(s, k) <==> {
            &&& 0 <= k < s.len()
            &&& forall|j: int|
                0 <= j < s.len() ==> s[k].unwrap().internal_voice_id <= (
                #[trigger] s[j]).unwrap().internal_voice_id
            &&& forall|j: int|
                0 <= j < k ==> s[k].unwrap().internal_voice_id < (
                #[trigger] s[j]).unwrap().internal_voice_id
        },
        is_oldest(s, k) && is_oldest(s, k2) ==> k == k2,
        s.len() > 0 ==> exists|j: int| #[trigger] is_oldest(s, j),
{
    if is_oldest(s, k) && is_oldest(s, k2) {
        if k < k2 {
            assert(s[k] is Some);
        } else if k2 < k {
            assert(s[k2] is Some);
        }
    }
    if s.len() > 0 {
        let j = oldest_among(s, s.len() as nat);
        assert(is_oldest(s, j));
    }
}

/// The first slot holding the lowest internal ID among the first `n` slots.
proof fn oldest_among(s: Seq<Option<Voice>>, n: nat) -> (k: int)
    requires
        0 < n <= s.len(),
        forall|j: int| 0 <= j < s.len() ==> #[trigger] s[j] is Some,
    ensures
        0 <= k < n,
        forall|j: int|
            0 <= j < n ==> s[k].unwrap().internal_voice_id <= (
            #[trigger] s[j]).unwrap().internal_voice_id,
        forall|j: int|
            0 <= j < k ==> s[k].unwrap().internal_voice_id < (
            #[trigger] s[j]).unwrap().internal_voice_id,
    decreases n,
{
    if n == 1 {
        0
    } else {
        let k = oldest_among(s, (n - 1) as nat);
        let last = (n - 1) as int;
        assert(s[last] is Some);
        if s[last].unwrap().internal_voice_id < s[k].unwrap().internal_voice_id {
            last
        } else {
            k
        }
    }
}

/// What the host is told of an ended voice: a voice that fades out or is
/// stolen is reported with its own voice ID, channel and note; a choked voice
/// with its own voice ID and the choke event's channel and note. A released
/// voice keeps everything but its release flag, which is set.
pub proof fn law_reports_and_release(timing: u32, v: Voice, channel: u8, note: u8)
    ensures
        voice_terminated(timing, v) == (TerminatedVoice {
            timing,
            voice_id: v.voice_id,
            channel: v.channel,
            note: v.note,
        }),
        choke_report(timing, v, channel, note) == (TerminatedVoice {
            timing,
            voice_id: v.voice_id,
            channel,
            note,
        }),
        released(v).voice_id == v.voice_id && released(v).channel == v.channel && released(v).note
            == v.note && released(v).internal_voice_id == v.internal_voice_id
            && released(v).releasing,
{
}

/// A block ends at most 64 samples after its start and never past the end
/// of the buffer; it ends before the end of the buffer only when it is a
/// full 64 samples long.
pub proof fn law_block_length(start: int, num_samples: int)
    requires
        0 <= start <= num_samples,
    ensures
        start <= block_end_after(start, num_samples) <= num_samples,
        block_end_after(start, num_samples) - start <= 64,
        block_end_after(start, num_samples) < num_samples ==> block_end_after(start, num_samples)
            == start + 64,
        start < num_samples ==> start < block_end_after(start, num_samples),
{
}

} // verus!

use vstd::prelude::*;

verus! {

/// The voice ID that stands for a note on a channel when the host gives none.
pub open spec fn fallback_voice_id(note: u8, channel: u8) -> int {
    note + channel * 65536
}

/// Computes a voice ID in case the host doesn't provide one: the note in the
/// low bits and the channel from bit 16 up.
pub fn compute_fallback_voice_id(note: u8, channel: u8) -> (id: i32)
    ensures
        id == fallback_voice_id(note, channel),
        id >= 0,
{
    let n: i32 = note as i32;
    let c: i32 = channel as i32;
    assert(n | (c << 16u32) == n + c * 65536) by (bit_vector)
        requires
            0 <= n < 256,
            0 <= c < 256,
    ;
    n | (c << 16u32)
}

/// Distinct notes or channels never share a fallback voice ID.
pub proof fn lemma_fallback_voice_id_injective(n1: u8, c1: u8, n2: u8, c2: u8)
    requires
        fallback_voice_id(n1, c1) == fallback_voice_id(n2, c2),
    ensures
        n1 == n2,
        c1 == c2,
{
}

} // verus!

use rand_pcg::Pcg32;
use triple_osc::fallback::compute_fallback_voice_id;
use triple_osc::modulation::PolyModId;
use triple_osc::voices::{TerminatedVoice, TripleOsc, Voice, NUM_VOICES};
use triple_osc::wave::Wave;

fn active(pool: &TripleOsc) -> Vec<Option<Voice>> {
    (0..NUM_VOICES as usize).map(|i| pool.voice(i)).collect()
}

#[test]
fn fallback_id_puts_channel_above_note() {
    assert_eq!(compute_fallback_voice_id(60, 1), 65596);
    assert_eq!(compute_fallback_voice_id(0, 0), 0);
    assert_eq!(compute_fallback_voice_id(255, 255), 255 + 255 * 65536);
    assert_ne!(compute_fallback_voice_id(1, 0), compute_fallback_voice_id(0, 1));
}

#[test]
fn new_pool_is_empty() {
    let pool = TripleOsc::new();
    assert!(active(&pool).iter().all(|v| v.is_none()));
    assert_eq!(pool.next_internal_voice_id(), 0);
    let pool = TripleOsc::default();
    assert!(active(&pool).iter().all(|v| v.is_none()));
}

#[test]
fn voices_fill_free_slots_in_order() {
    let mut pool = TripleOsc::new();
    for k in 0..NUM_VOICES as usize {
        let (idx, stolen) = pool.start_voice(0, Some(k as i32 + 100), 0, k as u8);
        assert_eq!(idx, k);
        assert_eq!(stolen, None);
    }
    assert_eq!(pool.next_internal_voice_id(), NUM_VOICES as u64);
    assert_eq!(
        pool.voice(3),
        Some(Voice { voice_id: 103, channel: 0, note: 3, internal_voice_id: 3, releasing: false })
    );
}

#[test]
fn full_pool_steals_the_oldest_voice() {
    let mut pool = TripleOsc::new();
    for k in 0..NUM_VOICES as usize {
        pool.start_voice(0, Some(k as i32), 2, 40 + k as u8);
    }
    // Free slot 5 and fill it again: slot 5 now holds the youngest voice.
    pool.choke_voices(0, Some(5), 2, 0);
    let (idx, stolen) = pool.start_voice(1, Some(50), 2, 90);
    assert_eq!((idx, stolen), (5, None));
    // Every slot is in use: the voice in slot 0 (internal ID 0) is the oldest.
    let (idx, stolen) = pool.start_voice(7, None, 3, 64);
    assert_eq!(idx, 0);
    assert_eq!(stolen, Some(TerminatedVoice { timing: 7, voice_id: 0, channel: 2, note: 40 }));
    assert_eq!(
        pool.voice(0),
        Some(Voice {
            voice_id: compute_fallback_voice_id(64, 3),
            channel: 3,
            note: 64,
            internal_voice_id: 17,
            releasing: false,
        })
    );
    // Next oldest is slot 1.
    let (idx, stolen) = pool.start_voice(8, Some(9), 0, 1);
    assert_eq!(idx, 1);
    assert_eq!(stolen, Some(TerminatedVoice { timing: 8, voice_id: 1, channel: 2, note: 41 }));
}

#[test]
fn lookup_finds_first_voice_with_id() {
    let mut pool = TripleOsc::new();
    pool.start_voice(0, Some(7), 0, 1);
    pool.start_voice(0, Some(8), 0, 2);
    pool.start_voice(0, Some(8), 0, 3);
    assert_eq!(pool.get_voice_idx(8), Some(1));
    assert_eq!(pool.get_voice_idx(7), Some(0));
    assert_eq!(pool.get_voice_idx(9), None);
}

#[test]
fn note_off_with_id_releases_first_match_only() {
    let mut pool = TripleOsc::new();
    pool.start_voice(0, Some(1), 0, 60);
    pool.start_voice(0, Some(2), 0, 60);
    let released = pool.start_release_for_voices(Some(2), 0, 60);
    // Slot 0 plays the same note on the same channel, so it matches first.
    assert_eq!(released, vec![0]);
    assert!(pool.voice(0).unwrap().releasing);
    assert!(!pool.voice(1).unwrap().releasing);
}

#[test]
fn note_off_without_id_releases_all_matches() {
    let mut pool = TripleOsc::new();
    pool.start_voice(0, None, 0, 60);
    pool.start_voice(0, None, 1, 60);
    pool.start_voice(0, None, 0, 60);
    let released = pool.start_release_for_voices(None, 0, 60);
    assert_eq!(released, vec![0, 2]);
    assert!(pool.voice(0).unwrap().releasing);
    assert!(!pool.voice(1).unwrap().releasing);
    assert!(pool.voice(2).unwrap().releasing);
    assert_eq!(pool.start_release_for_voices(Some(99), 5, 5), Vec::<usize>::new());
}

#[test]
fn choke_reports_voice_id_and_event_note() {
    let mut pool = TripleOsc::new();
    pool.start_voice(0, Some(11), 4, 70);
    pool.start_voice(0, Some(12), 4, 71);
    let reports = pool.choke_voices(9, Some(12), 0, 0);
    assert_eq!(reports, vec![TerminatedVoice { timing: 9, voice_id: 12, channel: 0, note: 0 }]);
    assert_eq!(pool.voice(1), None);
    assert!(pool.voice(0).is_some());
}

#[test]
fn choke_without_id_removes_all_matches() {
    let mut pool = TripleOsc::new();
    pool.start_voice(0, Some(1), 4, 70);
    pool.start_voice(0, Some(2), 4, 71);
    pool.start_voice(0, Some(3), 4, 70);
    let reports = pool.choke_voices(2, None, 4, 70);
    assert_eq!(
        reports,
        vec![
            TerminatedVoice { timing: 2, voice_id: 1, channel: 4, note: 70 },
            TerminatedVoice { timing: 2, voice_id: 3, channel: 4, note: 70 },
        ]
    );
    assert_eq!(pool.voice(0), None);
    assert!(pool.voice(1).is_some());
    assert_eq!(pool.voice(2), None);
    assert!(pool.choke_voices(2, None, 4, 70).is_empty());
}

#[test]
fn only_faded_releasing_voices_end() {
    let mut pool = TripleOsc::new();
    pool.start_voice(0, Some(1), 0, 10);
    pool.start_voice(0, Some(2), 0, 11);
    pool.start_voice(0, Some(3), 0, 12);
    pool.start_release_for_voices(Some(1), 9, 9);
    pool.start_release_for_voices(Some(2), 9, 9);
    let mut faded = vec![false; NUM_VOICES as usize];
    faded[0] = true;
    faded[2] = true;
    let reports = pool.terminate_finished_voices(&faded, 64);
    assert_eq!(reports, vec![TerminatedVoice { timing: 64, voice_id: 1, channel: 0, note: 10 }]);
    assert_eq!(pool.voice(0), None);
    assert!(pool.voice(1).unwrap().releasing);
    assert!(pool.voice(2).is_some());
}

#[test]
fn reset_empties_pool_and_restarts_ids() {
    let mut pool = TripleOsc::new();
    pool.start_voice(0, Some(1), 0, 10);
    pool.start_voice(0, Some(2), 0, 11);
    pool.reset();
    assert!(active(&pool).iter().all(|v| v.is_none()));
    assert_eq!(pool.next_internal_voice_id(), 0);
    assert_eq!(pool.start_voice(0, Some(3), 0, 12), (0, None));
    assert_eq!(pool.voice(0).unwrap().internal_voice_id, 0);
}

#[test]
fn voices_started_in_block_are_recognised() {
    let mut pool = TripleOsc::new();
    pool.start_voice(0, Some(1), 0, 10);
    let first = pool.next_internal_voice_id();
    pool.start_voice(0, Some(2), 0, 11);
    assert!(!pool.voice_started_since(0, first));
    assert!(pool.voice_started_since(1, first));
    assert!(!pool.voice_started_since(2, first));
}

#[test]
fn poly_mod_ids_round_trip() {
    let all = [
        PolyModId::Gain,
        PolyModId::Osc1Gain,
        PolyModId::Osc2Gain,
        PolyModId::Osc3Gain,
        PolyModId::Osc1Detune,
        PolyModId::Osc2Detune,
        PolyModId::Osc3Detune,
    ];
    for (n, m) in all.iter().enumerate() {
        assert_eq!(m.id(), n as u32);
        assert_eq!(PolyModId::from_id(n as u32), Some(*m));
    }
    assert_eq!(PolyModId::from_id(7), None);
    assert_eq!(PolyModId::Gain.id(), 0);
}

#[test]
fn waves_are_distinct() {
    let waves = [Wave::Saw, Wave::Triangle, Wave::Sin, Wave::Pulse];
    for i in 0..4 {
        for j in 0..4 {
            assert_eq!(waves[i] == waves[j], i == j);
        }
    }
}

#[test]
fn pool_generator_is_seeded_with_420_on_stream_1337() {
    let mut pool = TripleOsc::new();
    assert!(*pool.prng() == Pcg32::new(420, 1337));
    assert!(*pool.prng() != Pcg32::new(0, 0));
    assert!(*TripleOsc::default().prng() == Pcg32::new(420, 1337));
    pool.start_voice(0, Some(1), 0, 10);
    pool.reset();
    assert!(*pool.prng() == Pcg32::new(420, 1337));
}

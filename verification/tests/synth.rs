use polysine::bank::MixFrame;
use polysine::bank::VoiceBank;
use polysine::oscillator::Oscillator;
use polysine::pitch::pitch_mapping;
use polysine::shared::SharedVoiceState;

/// Mixes one frame the way the audio callback does: the average of
/// `sin(2 * pi * offset / sample_rate)` over the active voices, and exactly
/// zero when no voice is active.
fn amplitude(frame: &MixFrame, sample_rate: u32) -> f32 {
    if frame.offsets.is_empty() {
        return 0.0;
    }
    let sum: f32 = frame
        .offsets
        .iter()
        .map(|&o| ((o as f32) / (sample_rate as f32) * 2.0 * std::f32::consts::PI).sin())
        .sum();
    sum / (frame.offsets.len() as f32)
}

#[test]
fn pitch_reference_and_minor_third() {
    assert_eq!(pitch_mapping(0), 440);
    assert_eq!(pitch_mapping(3), 523);
}

#[test]
fn pitch_matches_equal_tempered_formula() {
    for slot in 0..12 {
        let expected = (440.0_f64 * 2.0_f64.powf(slot as f64 / 12.0)).round() as u32;
        assert_eq!(pitch_mapping(slot), expected);
    }
}

#[test]
fn oscillator_starts_at_zero_phase() {
    let osc = Oscillator::new(440);
    assert_eq!(osc.frequency, 440);
    assert_eq!(osc.phase_clock, 0);
}

#[test]
fn oscillator_phase_wraps_at_sample_rate() {
    let mut osc = Oscillator::new(440);
    let mut seen = Vec::new();
    for _ in 0..5 {
        osc.advance(4);
        seen.push(osc.phase_clock);
    }
    assert_eq!(seen, vec![1, 2, 3, 0, 1]);
}

#[test]
fn oscillator_cycle_offset_after_one_sample() {
    let mut osc = Oscillator::new(440);
    osc.advance(44100);
    assert_eq!(osc.cycle_offset(44100), 440);
}

#[test]
fn silence_when_idle() {
    for sample_rate in [1, 8000, 44100, 48000, 192000] {
        let mut bank = VoiceBank::new();
        let frame = bank.render_sample(sample_rate);
        assert!(frame.offsets.is_empty());
        assert_eq!(amplitude(&frame, sample_rate), 0.0);
    }
}

#[test]
fn single_note_exact_pitch_periodicity() {
    // One full period of the 440 Hz reference voice at 44.1 kHz is
    // round(44100 / 440) = 100 samples; after them the voice is back
    // within one sample period (440 cycle units, so 220 on either side
    // of the wrap) of its starting phase.
    let sample_rate = 44100;
    let period = ((sample_rate as f64) / 440.0).round() as u32;
    assert_eq!(period, 100);
    let mut bank = VoiceBank::new();
    bank.note_on(0);
    let mut last = None;
    for _ in 0..period {
        last = Some(bank.render_sample(sample_rate));
    }
    let frame = last.unwrap();
    assert_eq!(frame.offsets.len(), 1);
    let offset = frame.offsets[0];
    assert!(offset <= 220 || offset >= (sample_rate as u64) - 220);
}

#[test]
fn note_on_is_idempotent() {
    let sample_rate = 44100;
    let mut once = VoiceBank::new();
    once.note_on(5);
    let mut twice = VoiceBank::new();
    twice.note_on(5);
    twice.note_on(5);
    for _ in 0..50 {
        let a = once.render_sample(sample_rate);
        let b = twice.render_sample(sample_rate);
        assert_eq!(a.offsets, b.offsets);
        assert_eq!(amplitude(&a, sample_rate), amplitude(&b, sample_rate));
    }
}

#[test]
fn note_on_preserves_phase_of_held_note() {
    let sample_rate = 44100;
    let mut bank = VoiceBank::new();
    bank.note_on(5);
    for _ in 0..30 {
        bank.render_sample(sample_rate);
    }
    // a key-repeat press must not reset the running phase
    bank.note_on(5);
    let frame = bank.render_sample(sample_rate);
    let freq = pitch_mapping(5) as u64;
    assert_eq!(frame.offsets, vec![31 * freq % (sample_rate as u64)]);
}

#[test]
fn mix_of_two_notes_is_their_average() {
    let sample_rate = 44100;
    let mut bank = VoiceBank::new();
    bank.note_on(0);
    bank.note_on(4);
    let f0 = pitch_mapping(0) as u64;
    let f4 = pitch_mapping(4) as u64;
    let sr = sample_rate as u64;
    for n in 1..=1000u64 {
        let frame = bank.render_sample(sample_rate);
        let value = amplitude(&frame, sample_rate);
        assert!(value <= 1.0 && value >= -1.0);
        // reference: both voices advanced n times from zero phase
        let phase = n % sr;
        let expected_offsets = vec![phase * f0 % sr, phase * f4 % sr];
        assert_eq!(frame.offsets, expected_offsets);
        let reference = (((expected_offsets[0] as f32) / (sample_rate as f32)
            * 2.0
            * std::f32::consts::PI)
            .sin()
            + ((expected_offsets[1] as f32) / (sample_rate as f32) * 2.0 * std::f32::consts::PI)
                .sin())
            / 2.0;
        assert!((value - reference).abs() < 1e-5);
    }
}

#[test]
fn note_off_clears_contribution() {
    let sample_rate = 44100;
    let mut bank = VoiceBank::new();
    bank.note_on(0);
    for _ in 0..100 {
        bank.render_sample(sample_rate);
    }
    bank.note_off(0);
    let frame = bank.render_sample(sample_rate);
    assert!(frame.offsets.is_empty());
    assert_eq!(amplitude(&frame, sample_rate), 0.0);
}

#[test]
fn note_off_of_idle_slot_is_harmless() {
    let sample_rate = 48000;
    let mut bank = VoiceBank::new();
    bank.note_off(7);
    bank.note_on(2);
    bank.note_off(7);
    let frame = bank.render_sample(sample_rate);
    assert_eq!(frame.offsets.len(), 1);
}

#[test]
fn active_count_tracks_held_slots() {
    let mut bank = VoiceBank::new();
    assert_eq!(bank.active_count(), 0);
    bank.note_on(0);
    bank.note_on(4);
    bank.note_on(4);
    assert_eq!(bank.active_count(), 2);
    bank.note_off(0);
    assert_eq!(bank.active_count(), 1);
}

#[test]
fn active_pairs_report_slot_and_pitch() {
    let mut bank = VoiceBank::new();
    bank.note_on(4);
    bank.note_on(0);
    let pairs = bank.active_pairs();
    assert_eq!(pairs, vec![(0, 440), (4, 554)]);
}

#[test]
fn shared_state_key_events_and_render() {
    let state = SharedVoiceState::new(44100);
    assert_eq!(state.sample_rate(), 44100);
    let pairs = state.key_changed(0, true);
    assert_eq!(pairs, vec![(0, 440)]);
    let pairs = state.key_changed(4, true);
    assert_eq!(pairs, vec![(0, 440), (4, 554)]);
    let frame = state.render_sample();
    assert_eq!(frame.offsets.len(), 2);
    let pairs = state.key_changed(0, false);
    assert_eq!(pairs, vec![(4, 554)]);
    state.note_off(4);
    let frame = state.render_sample();
    assert!(frame.offsets.is_empty());
    assert_eq!(amplitude(&frame, 44100), 0.0);
}

#[test]
fn shared_render_block_gives_one_frame_per_output_frame() {
    let state = SharedVoiceState::new(48000);
    state.note_on(0);
    let frames = state.render_block(64);
    assert_eq!(frames.len(), 64);
    for (n, frame) in frames.iter().enumerate() {
        assert_eq!(frame.offsets.len(), 1);
        assert_eq!(frame.offsets[0], ((n as u64) + 1) * 440 % 48000);
    }
    let empty = state.render_block(0);
    assert!(empty.is_empty());
}

#[test]
fn render_sample_into_clears_and_refills_the_buffer() {
    let mut bank = VoiceBank::new();
    bank.note_on(0);
    let mut offsets = vec![7, 7, 7];
    bank.render_sample_into(44100, &mut offsets);
    assert_eq!(offsets, vec![440]);
    bank.note_off(0);
    bank.render_sample_into(44100, &mut offsets);
    assert!(offsets.is_empty());
}

#[test]
fn render_block_into_reuses_the_buffer() {
    let state = SharedVoiceState::new(48000);
    state.note_on(0);
    let mut frames = Vec::new();
    state.render_block_into(8, &mut frames);
    assert_eq!(frames.len(), 8);
    for (n, frame) in frames.iter().enumerate() {
        assert_eq!(frame.offsets, vec![((n as u64) + 1) * 440 % 48000]);
    }
    // a smaller next buffer shrinks the same storage and refills it in place
    state.render_block_into(3, &mut frames);
    assert_eq!(frames.len(), 3);
    for (n, frame) in frames.iter().enumerate() {
        assert_eq!(frame.offsets, vec![((n as u64) + 9) * 440 % 48000]);
    }
}

#[test]
fn key_changed_reports_presses_and_hides_releases() {
    let state = SharedVoiceState::new(44100);
    let pairs = state.key_changed(7, true);
    assert!(pairs.iter().any(|pair| pair.0 == 7));
    let pairs = state.key_changed(7, false);
    assert!(pairs.iter().all(|pair| pair.0 != 7));
    assert!(pairs.is_empty());
}

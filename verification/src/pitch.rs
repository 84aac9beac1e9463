//! Equal-tempered pitch mapping from a note slot to a fundamental frequency.

use vstd::prelude::*;

verus! {

/// Number of note slots: one octave of twelve semitones.
pub const SLOT_COUNT: usize = 12;

/// Reference pitch in hertz (concert A, A4), the frequency of slot 0.
pub const REFERENCE_PITCH_HZ: u32 = 440;

/// Frequency in hertz of the semitone `slot` steps above the reference
/// pitch: `440 * 2^(slot / 12)`, rounded to the nearest whole hertz.
pub open spec fn spec_pitch(slot: int) -> u32 {
    if slot == 0 {
        440
    } else if slot == 1 {
        466
    } else if slot == 2 {
        494
    } else if slot == 3 {
        523
    } else if slot == 4 {
        554
    } else if slot == 5 {
        587
    } else if slot == 6 {
        622
    } else if slot == 7 {
        659
    } else if slot == 8 {
        698
    } else if slot == 9 {
        740
    } else if slot == 10 {
        784
    } else {
        831
    }
}

/// Maps a note slot to its fundamental frequency on the equal-tempered
/// scale anchored at the reference pitch: `440 * 2^(slot / 12)` hertz,
/// rounded to the nearest whole hertz. Slots at or above `SLOT_COUNT`
/// are a contract violation of the caller, not a runtime condition.
pub fn pitch_mapping(slot: usize) -> (freq: u32)
    requires
        slot < SLOT_COUNT,
    ensures
        freq == spec_pitch(slot as int),
{
    if slot == 0 {
        440
    } else if slot == 1 {
        466
    } else if slot == 2 {
        494
    } else if slot == 3 {
        523
    } else if slot == 4 {
        554
    } else if slot == 5 {
        587
    } else if slot == 6 {
        622
    } else if slot == 7 {
        659
    } else if slot == 8 {
        698
    } else if slot == 9 {
        740
    } else if slot == 10 {
        784
    } else {
        831
    }
}

} // verus!

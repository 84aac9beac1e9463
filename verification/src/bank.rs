//! The Voice Bank: a fixed array of twelve optional oscillators, one per
//! note slot, with activation, release, and a deterministic per-sample mix.

use vstd::prelude::*;

use crate::oscillator::Oscillator;
use crate::pitch::{pitch_mapping, spec_pitch, SLOT_COUNT};

verus! {

/// The bank after pressing `slot`: a fresh zero-phase voice at the slot's
/// pitch if the slot was empty, the bank unchanged (phase preserved) if the
/// slot was already held.
pub open spec fn spec_note_on(slots: Seq<Option<Oscillator>>, slot: int) -> Seq<
    Option<Oscillator>,
> {
    if slots[slot] is Some {
        slots
    } else {
        slots.update(slot, Some(Oscillator { frequency: spec_pitch(slot), phase_clock: 0 }))
    }
}

/// The bank after releasing `slot`: the slot is cleared unconditionally.
pub open spec fn spec_note_off(slots: Seq<Option<Oscillator>>, slot: int) -> Seq<
    Option<Oscillator>,
> {
    slots.update(slot, None)
}

/// Every occupied slot advanced by one sample period at `sample_rate`.
pub open spec fn spec_advanced_slots(slots: Seq<Option<Oscillator>>, sample_rate: int) -> Seq<
    Option<Oscillator>,
> {
    slots.map_values(
        |o: Option<Oscillator>|
            match o {
                Some(osc) => Some(osc.spec_advanced(sample_rate)),
                None => None,
            },
    )
}

/// How many slots are occupied.
pub open spec fn spec_active_count(slots: Seq<Option<Oscillator>>) -> nat
    decreases slots.len(),
{
    if slots.len() == 0 {
        0
    } else {
        spec_active_count(slots.drop_last()) + (if slots.last() is Some {
            1nat
        } else {
            0nat
        })
    }
}

/// The cycle offsets of the occupied slots, in slot order: one entry per
/// occupied slot, each the voice's exact position within its sine cycle.
pub open spec fn spec_mix_offsets(slots: Seq<Option<Oscillator>>, sample_rate: int) -> Seq<u64>
    decreases slots.len(),
{
    if slots.len() == 0 {
        Seq::empty()
    } else {
        spec_mix_offsets(slots.drop_last(), sample_rate) + (match slots.last() {
            Some(osc) => seq![osc.spec_cycle_offset(sample_rate) as u64],
            None => Seq::empty(),
        })
    }
}

/// The active (slot, frequency) pairs, in slot order.
pub open spec fn spec_active_pairs(slots: Seq<Option<Oscillator>>) -> Seq<(usize, u32)>
    decreases slots.len(),
{
    if slots.len() == 0 {
        Seq::empty()
    } else {
        spec_active_pairs(slots.drop_last()) + (match slots.last() {
            Some(osc) => seq![(((slots.len() - 1) as usize), osc.frequency)],
            None => Seq::empty(),
        })
    }
}

/// One rendered sample, described exactly: `offsets` holds the cycle offset
/// of every active voice after it advanced, in slot order. The mixed mono
/// amplitude is the average of `sin(2 * pi * offset / sample_rate)` over the
/// entries, and exactly zero when there are none.
pub struct MixFrame {
    /// Cycle offset of each active voice, each below the sample rate.
    pub offsets: Vec<u64>,
}

/// A fixed-size bank of optional oscillators, indexed by note slot.
pub struct VoiceBank {
    slots: Vec<Option<Oscillator>>,
}

impl View for VoiceBank {
    type V = Seq<Option<Oscillator>>;

    closed spec fn view(&self) -> Seq<Option<Oscillator>> {
        self.slots@
    }
}

impl VoiceBank {
    /// The bank's structural invariant: twelve slots, and every occupied
    /// slot holds a voice at that slot's pitch.
    pub open spec fn well_formed(self) -> bool {
        &&& self@.len() == SLOT_COUNT
        &&& forall|i: int|
            #![trigger self@[i]]
            0 <= i < self@.len() ==> (self@[i] matches Some(osc) ==> osc.frequency == spec_pitch(
                i,
            ))
    }

    /// Every occupied slot's phase clock lies in `[0, sample_rate)`.
    pub open spec fn phase_bounded(self, sample_rate: int) -> bool {
        forall|i: int|
            #![trigger self@[i]]
            0 <= i < self@.len() ==> (self@[i] matches Some(osc) ==> osc.phase_clock < sample_rate)
    }

    /// A fresh bank with every slot empty.
    pub fn new() -> (bank: VoiceBank)
        ensures
            bank.well_formed(),
            forall|i: int| 0 <= i < bank@.len() ==> bank@[i] is None,
            spec_active_count(bank@) == 0,
            forall|sr: int| bank.phase_bounded(sr),
    {
        let mut slots: Vec<Option<Oscillator>> = Vec::new();
        let mut i: usize = 0;
        while i < SLOT_COUNT
            invariant
                i <= SLOT_COUNT,
                slots@.len() == i,
                forall|k: int| 0 <= k < i ==> slots@[k] is None,
            decreases SLOT_COUNT - i,
        {
            slots.push(None);
            i = i + 1;
        }
        let bank = VoiceBank { slots };
        proof {
            lemma_all_empty_active_count(bank@);
        }
        bank
    }

    /// Presses `slot`: starts a fresh zero-phase voice at the slot's pitch
    /// if the slot is empty; preserves the existing voice (and its phase)
    /// if the slot is already held.
    pub fn note_on(&mut self, slot: usize)
        requires
            slot < SLOT_COUNT,
            old(self).well_formed(),
        ensures
            final(self)@ == spec_note_on(old(self)@, slot as int),
            final(self).well_formed(),
            forall|sr: int|
                sr >= 1 && old(self).phase_bounded(sr) ==> final(self).phase_bounded(sr),
    {
        if self.slots[slot].is_none() {
            let freq = pitch_mapping(slot);
            self.slots[slot] = Some(Oscillator::new(freq));
        }
        proof {
            assert(self@ =~= spec_note_on(old(self)@, slot as int));
        }
    }

    /// Releases `slot`: clears it unconditionally. Releasing an already
    /// empty slot is a harmless no-op.
    pub fn note_off(&mut self, slot: usize)
        requires
            slot < SLOT_COUNT,
            old(self).well_formed(),
        ensures
            final(self)@ == spec_note_off(old(self)@, slot as int),
            final(self).well_formed(),
            forall|sr: int|
                sr >= 1 && old(self).phase_bounded(sr) ==> final(self).phase_bounded(sr),
    {
        self.slots[slot] = None;
        proof {
            assert(self@ =~= spec_note_off(old(self)@, slot as int));
        }
    }

    /// How many slots are currently held.
    pub fn active_count(&self) -> (n: usize)
        requires
            self.well_formed(),
        ensures
            n == spec_active_count(self@),
    {
        let mut n: usize = 0;
        let mut i: usize = 0;
        while i < self.slots.len()
            invariant
                i <= self@.len(),
                self@.len() == SLOT_COUNT,
                n == spec_active_count(self@.subrange(0, i as int)),
                n <= i,
            decreases self@.len() - i,
        {
            proof {
                assert(self@.subrange(0, i + 1).drop_last() =~= self@.subrange(0, i as int));
                assert(self@.subrange(0, i + 1).last() == self@[i as int]);
            }
            if self.slots[i].is_some() {
                n = n + 1;
            }
            i = i + 1;
        }
        proof {
            assert(self@.subrange(0, self@.len() as int) =~= self@);
        }
        n
    }

    /// The currently active (slot, frequency) pairs, in slot order.
    pub fn active_pairs(&self) -> (pairs: Vec<(usize, u32)>)
        requires
            self.well_formed(),
        ensures
            pairs@ == spec_active_pairs(self@),
    {
        let mut pairs: Vec<(usize, u32)> = Vec::new();
        let mut i: usize = 0;
        while i < self.slots.len()
            invariant
                i <= self@.len(),
                self@.len() == SLOT_COUNT,
                pairs@ == spec_active_pairs(self@.subrange(0, i as int)),
            decreases self@.len() - i,
        {
            proof {
                assert(self@.subrange(0, i + 1).drop_last() =~= self@.subrange(0, i as int));
                assert(self@.subrange(0, i + 1).last() == self@[i as int]);
            }
            let cur: Option<Oscillator> = self.slots[i];
            match cur {
                Some(osc) => {
                    pairs.push((i, osc.frequency));
                    proof {
                        assert(pairs@ =~= spec_active_pairs(self@.subrange(0, i + 1)));
                    }
                },
                None => {
                    proof {
                        assert(pairs@ =~= spec_active_pairs(self@.subrange(0, i + 1)));
                    }
                },
            }
            i = i + 1;
        }
        proof {
            assert(self@.subrange(0, self@.len() as int) =~= self@);
        }
        pairs
    }

    /// Renders one sample into a caller-supplied offset buffer, which is
    /// cleared first: advances every occupied voice by one sample period,
    /// then writes each advanced voice's exact cycle offset, in slot order.
    /// Reusing one buffer keeps the per-sample render path free of
    /// allocation once the buffer has grown to the twelve-slot capacity.
    /// The mixed mono amplitude is the average of
    /// `sin(2 * pi * offset / sample_rate)` over the offsets, and exactly
    /// zero when no slot is held.
    pub fn render_sample_into(&mut self, sample_rate: u32, offsets: &mut Vec<u64>)
        requires
            sample_rate >= 1,
            old(self).well_formed(),
            old(self).phase_bounded(sample_rate as int),
        ensures
            final(self)@ == spec_advanced_slots(old(self)@, sample_rate as int),
            final(self).well_formed(),
            final(self).phase_bounded(sample_rate as int),
            final(offsets)@ == spec_mix_offsets(final(self)@, sample_rate as int),
            final(offsets)@.len() == spec_active_count(old(self)@),
            forall|k: int|
                0 <= k < final(offsets)@.len() ==> (#[trigger] final(offsets)@[k]) < sample_rate,
    {
        let ghost target = spec_advanced_slots(old(self)@, sample_rate as int);
        offsets.clear();
        let mut i: usize = 0;
        while i < self.slots.len()
            invariant
                sample_rate >= 1,
                i <= self@.len(),
                self@.len() == old(self)@.len(),
                old(self).well_formed(),
                old(self).phase_bounded(sample_rate as int),
                target == spec_advanced_slots(old(self)@, sample_rate as int),
                self@.subrange(0, i as int) == target.subrange(0, i as int),
                forall|k: int| i <= k < self@.len() ==> self@[k] == old(self)@[k],
                offsets@ == spec_mix_offsets(self@.subrange(0, i as int), sample_rate as int),
                forall|k: int| 0 <= k < offsets@.len() ==> offsets@[k] < sample_rate,
            decreases self@.len() - i,
        {
            let ghost before = self@;
            let cur: Option<Oscillator> = self.slots[i];
            match cur {
                Some(mut osc) => {
                    osc.advance(sample_rate);
                    let off = osc.cycle_offset(sample_rate);
                    self.slots[i] = Some(osc);
                    offsets.push(off);
                },
                None => {},
            }
            proof {
                assert(self@.subrange(0, i as int) =~= before.subrange(0, i as int));
                assert(self@.subrange(0, i + 1) =~= target.subrange(0, i + 1));
                assert(self@.subrange(0, i + 1).drop_last() =~= self@.subrange(0, i as int));
                assert(self@.subrange(0, i + 1).last() == self@[i as int]);
                assert(offsets@ =~= spec_mix_offsets(self@.subrange(0, i + 1), sample_rate as int));
            }
            i = i + 1;
        }
        proof {
            assert(self@.subrange(0, self@.len() as int) =~= self@);
            assert(target.subrange(0, target.len() as int) =~= target);
            assert(self@ == target);
            lemma_mix_offsets_len(self@, sample_rate as int);
            lemma_advanced_preserves_active_count(old(self)@, sample_rate as int);
        }
    }

    /// Renders one sample as a fresh mix frame: `render_sample_into` on a
    /// new buffer.
    pub fn render_sample(&mut self, sample_rate: u32) -> (frame: MixFrame)
        requires
            sample_rate >= 1,
            old(self).well_formed(),
            old(self).phase_bounded(sample_rate as int),
        ensures
            final(self)@ == spec_advanced_slots(old(self)@, sample_rate as int),
            final(self).well_formed(),
            final(self).phase_bounded(sample_rate as int),
            frame.offsets@ == spec_mix_offsets(final(self)@, sample_rate as int),
            frame.offsets@.len() == spec_active_count(old(self)@),
            forall|k: int|
                0 <= k < frame.offsets@.len() ==> (#[trigger] frame.offsets@[k]) < sample_rate,
    {
        let mut offsets: Vec<u64> = Vec::new();
        self.render_sample_into(sample_rate, &mut offsets);
        MixFrame { offsets }
    }
}

/// The mix reports exactly one offset per occupied slot.
pub proof fn lemma_mix_offsets_len(slots: Seq<Option<Oscillator>>, sample_rate: int)
    ensures
        spec_mix_offsets(slots, sample_rate).len() == spec_active_count(slots),
    decreases slots.len(),
{
    if slots.len() > 0 {
        lemma_mix_offsets_len(slots.drop_last(), sample_rate);
    }
}

/// Advancing the bank by one sample occupies exactly the slots that were
/// occupied before.
pub proof fn lemma_advanced_preserves_active_count(
    slots: Seq<Option<Oscillator>>,
    sample_rate: int,
)
    ensures
        spec_advanced_slots(slots, sample_rate).len() == slots.len(),
        spec_active_count(spec_advanced_slots(slots, sample_rate)) == spec_active_count(slots),
    decreases slots.len(),
{
    if slots.len() > 0 {
        assert(spec_advanced_slots(slots, sample_rate).drop_last() =~= spec_advanced_slots(
            slots.drop_last(),
            sample_rate,
        ));
        lemma_advanced_preserves_active_count(slots.drop_last(), sample_rate);
    }
}

/// At most one voice per slot: the active count never exceeds the number
/// of slots.
pub proof fn lemma_active_count_le_len(slots: Seq<Option<Oscillator>>)
    ensures
        spec_active_count(slots) <= slots.len(),
    decreases slots.len(),
{
    if slots.len() > 0 {
        lemma_active_count_le_len(slots.drop_last());
    }
}

/// Silence when idle: a bank with no active slot contributes no offsets,
/// so the mixed sample is exactly zero.
pub proof fn lemma_silence_when_idle(slots: Seq<Option<Oscillator>>, sample_rate: int)
    requires
        spec_active_count(slots) == 0,
    ensures
        spec_mix_offsets(slots, sample_rate) == Seq::<u64>::empty(),
    decreases slots.len(),
{
    if slots.len() > 0 {
        lemma_silence_when_idle(slots.drop_last(), sample_rate);
        assert(spec_mix_offsets(slots, sample_rate) =~= Seq::<u64>::empty());
    } else {
        assert(spec_mix_offsets(slots, sample_rate) =~= Seq::<u64>::empty());
    }
}

/// Idempotent note-on: pressing a slot that is already held leaves the
/// bank exactly as a single press left it; in particular the held voice's
/// phase is preserved, never reset.
pub proof fn lemma_note_on_idempotent(slots: Seq<Option<Oscillator>>, slot: int)
    requires
        0 <= slot < slots.len(),
    ensures
        spec_note_on(spec_note_on(slots, slot), slot) == spec_note_on(slots, slot),
{
    assert(spec_note_on(slots, slot)[slot] is Some);
}

/// A bank with no occupied slot has an active count of zero.
proof fn lemma_all_empty_active_count(slots: Seq<Option<Oscillator>>)
    requires
        forall|i: int| 0 <= i < slots.len() ==> slots[i] is None,
    ensures
        spec_active_count(slots) == 0,
    decreases slots.len(),
{
    if slots.len() > 0 {
        assert(forall|i: int| 0 <= i < slots.drop_last().len() ==> slots.drop_last()[i] is None);
        lemma_all_empty_active_count(slots.drop_last());
    }
}

} // verus!

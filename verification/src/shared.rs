//! The Shared Voice State: the Voice Bank behind a mutual-exclusion
//! boundary, jointly owned by an event producer and an audio consumer.
//!
//! Every value ever stored in the lock satisfies the bank invariant for the
//! stream's fixed sample rate, so each side finds a well-formed, phase-bounded
//! bank whenever it acquires access, whatever the other side did meanwhile.
//! The render side holds the lock exactly for the duration of one buffer's
//! mix: a bounded amount of pure arithmetic, with no allocation of shared
//! state and no I/O inside the critical section.

use vstd::prelude::*;
use vstd::rwlock::RwLock;
use vstd::rwlock::RwLockPredicate;

use crate::bank::spec_active_pairs;
use crate::bank::spec_advanced_slots;
use crate::bank::spec_mix_offsets;
use crate::bank::MixFrame;
use crate::bank::VoiceBank;
use crate::oscillator::Oscillator;
use crate::pitch::spec_pitch;
use crate::pitch::SLOT_COUNT;

verus! {

/// The lock invariant: every bank stored in the shared lock is well formed
/// and has all phase clocks bounded by the stream's sample rate.
pub struct BankPred {
    pub sample_rate: u32,
}

impl RwLockPredicate<VoiceBank> for BankPred {
    open spec fn inv(self, bank: VoiceBank) -> bool {
        &&& self.sample_rate >= 1
        &&& bank.well_formed()
        &&& bank.phase_bounded(self.sample_rate as int)
    }
}

/// A mix that some well-formed, phase-bounded bank would report after its
/// voices advanced by one sample: everything the shared render entry points
/// hand out is of this shape, whatever the event thread does meanwhile.
pub open spec fn spec_renderable_frame(offsets: Seq<u64>, sample_rate: int) -> bool {
    exists|b: VoiceBank|
        #![trigger b.well_formed()]
        b.well_formed() && b.phase_bounded(sample_rate) && offsets == spec_mix_offsets(
            spec_advanced_slots(b@, sample_rate),
            sample_rate,
        )
}

/// The Voice Bank behind a lock, shared between the event thread and the
/// audio render thread. The sample rate is fixed for the state's lifetime.
pub struct SharedVoiceState {
    sample_rate: u32,
    lock: RwLock<VoiceBank, BankPred>,
}

impl SharedVoiceState {
    /// The state is tied to one stream-lifetime sample rate, and the lock
    /// admits exactly the banks that are well formed and phase-bounded for
    /// that rate.
    pub closed spec fn wf(self) -> bool {
        &&& self.sample_rate >= 1
        &&& self.lock.pred() == (BankPred { sample_rate: self.sample_rate })
    }

    /// The stream's fixed sample rate.
    pub closed spec fn spec_sample_rate(self) -> u32 {
        self.sample_rate
    }

    /// Creates the shared state for a stream at `sample_rate`, with every
    /// slot initially silent.
    pub fn new(sample_rate: u32) -> (state: SharedVoiceState)
        requires
            sample_rate >= 1,
        ensures
            state.wf(),
            state.spec_sample_rate() == sample_rate,
    {
        let bank = VoiceBank::new();
        let lock = RwLock::new(bank, Ghost(BankPred { sample_rate }));
        SharedVoiceState { sample_rate, lock }
    }

    /// The stream's fixed sample rate.
    pub fn sample_rate(&self) -> (sr: u32)
        requires
            self.wf(),
        ensures
            sr == self.spec_sample_rate(),
            sr >= 1,
    {
        self.sample_rate
    }

    /// Presses `slot` under the lock: a short, bounded mutation on the
    /// event side. Pressing an already-held slot preserves its phase.
    pub fn note_on(&self, slot: usize)
        requires
            self.wf(),
            slot < SLOT_COUNT,
    {
        let (mut bank, handle) = self.lock.acquire_write();
        bank.note_on(slot);
        handle.release_write(bank);
    }

    /// Releases `slot` under the lock: a short, bounded mutation on the
    /// event side. Releasing an empty slot is a harmless no-op.
    pub fn note_off(&self, slot: usize)
        requires
            self.wf(),
            slot < SLOT_COUNT,
    {
        let (mut bank, handle) = self.lock.acquire_write();
        bank.note_off(slot);
        handle.release_write(bank);
    }

    /// Applies one key event — press starts the slot's voice, release
    /// clears it — and reports the set of active (slot, frequency) pairs
    /// left behind, for best-effort diagnostics. Whatever the other thread
    /// did meanwhile, every reported pair is a valid slot sounding at that
    /// slot's equal-tempered pitch, in strictly ascending slot order.
    pub fn key_changed(&self, slot: usize, pressed: bool) -> (pairs: Vec<(usize, u32)>)
        requires
            self.wf(),
            slot < SLOT_COUNT,
        ensures
            pairs@.len() <= SLOT_COUNT,
            forall|k: int|
                0 <= k < pairs@.len() ==> (#[trigger] pairs@[k]).0 < SLOT_COUNT && pairs@[k].1
                    == spec_pitch(pairs@[k].0 as int),
            forall|k: int| 0 < k < pairs@.len() ==> pairs@[k - 1].0 < (#[trigger] pairs@[k]).0,
            pressed ==> exists|k: int|
                #![trigger pairs@[k]]
                0 <= k < pairs@.len() && pairs@[k].0 == slot,
            !pressed ==> forall|k: int| 0 <= k < pairs@.len() ==> (#[trigger] pairs@[k]).0 != slot,
    {
        let (mut bank, handle) = self.lock.acquire_write();
        if pressed {
            bank.note_on(slot);
        } else {
            bank.note_off(slot);
        }
        let pairs = bank.active_pairs();
        proof {
            lemma_active_pairs_sound(bank@);
            if pressed {
                assert(bank@[slot as int] is Some);
            } else {
                assert(bank@[slot as int] is None);
            }
        }
        handle.release_write(bank);
        pairs
    }

    /// Renders one mixed sample under the lock: advances every active
    /// voice and returns its cycle offset. Whatever the event thread did
    /// meanwhile, at most one offset per slot comes back, each of them
    /// below the sample rate.
    pub fn render_sample(&self) -> (frame: MixFrame)
        requires
            self.wf(),
        ensures
            frame.offsets@.len() <= SLOT_COUNT,
            forall|k: int|
                0 <= k < frame.offsets@.len() ==> (#[trigger] frame.offsets@[k])
                    < self.spec_sample_rate(),
            spec_renderable_frame(frame.offsets@, self.spec_sample_rate() as int),
    {
        let (mut bank, handle) = self.lock.acquire_write();
        let ghost before = bank;
        proof {
            crate::bank::lemma_active_count_le_len(bank@);
        }
        let frame = bank.render_sample(self.sample_rate);
        proof {
            assert(before.well_formed() && before.phase_bounded(self.spec_sample_rate() as int)
                && frame.offsets@ == spec_mix_offsets(
                spec_advanced_slots(before@, self.spec_sample_rate() as int),
                self.spec_sample_rate() as int,
            ));
        }
        handle.release_write(bank);
        frame
    }

    /// Renders one buffer's worth of samples while holding the lock once,
    /// so a whole buffer sees one atomic bank state: the only operation the
    /// audio callback performs against shared state. Returns exactly one
    /// mix frame per requested output frame, in time order.
    pub fn render_block(&self, frame_count: usize) -> (frames: Vec<MixFrame>)
        requires
            self.wf(),
        ensures
            frames@.len() == frame_count,
            forall|j: int|
                0 <= j < frames@.len() ==> (#[trigger] frames@[j]).offsets@.len() <= SLOT_COUNT,
            forall|j: int, k: int|
                #![trigger frames@[j].offsets@[k]]
                0 <= j < frames@.len() && 0 <= k < frames@[j].offsets@.len()
                    ==> frames@[j].offsets@[k] < self.spec_sample_rate(),
            forall|j: int|
                0 <= j < frames@.len() ==> spec_renderable_frame(
                    (#[trigger] frames@[j]).offsets@,
                    self.spec_sample_rate() as int,
                ),
    {
        let mut frames: Vec<MixFrame> = Vec::new();
        self.render_block_into(frame_count, &mut frames);
        frames
    }

    /// Renders one buffer's worth of samples into a caller-supplied frame
    /// buffer, resized to one mix frame per output frame and refilled in
    /// place: a callback that hands the same buffer in every time keeps the
    /// whole audio path free of allocation once the buffer has grown to the
    /// stream's frame count. The lock is held once for the whole buffer, so
    /// the buffer sees one atomic bank state.
    pub fn render_block_into(&self, frame_count: usize, frames: &mut Vec<MixFrame>)
        requires
            self.wf(),
        ensures
            final(frames)@.len() == frame_count,
            forall|j: int|
                0 <= j < final(frames)@.len() ==> (#[trigger] final(frames)@[j]).offsets@.len()
                    <= SLOT_COUNT,
            forall|j: int, k: int|
                #![trigger final(frames)@[j].offsets@[k]]
                0 <= j < final(frames)@.len() && 0 <= k < final(frames)@[j].offsets@.len()
                    ==> final(frames)@[j].offsets@[k] < self.spec_sample_rate(),
            forall|j: int|
                0 <= j < final(frames)@.len() ==> spec_renderable_frame(
                    (#[trigger] final(frames)@[j]).offsets@,
                    self.spec_sample_rate() as int,
                ),
    {
        while frames.len() > frame_count
            decreases frames@.len(),
        {
            frames.pop();
        }
        while frames.len() < frame_count
            invariant
                frames@.len() <= frame_count,
            decreases frame_count - frames@.len(),
        {
            frames.push(MixFrame { offsets: Vec::new() });
        }
        let (mut bank, handle) = self.lock.acquire_write();
        let mut i: usize = 0;
        while i < frame_count
            invariant
                self.wf(),
                i <= frame_count,
                frames@.len() == frame_count,
                bank.well_formed(),
                bank.phase_bounded(self.spec_sample_rate() as int),
                forall|j: int|
                    0 <= j < i ==> (#[trigger] frames@[j]).offsets@.len() <= SLOT_COUNT,
                forall|j: int, k: int|
                    #![trigger frames@[j].offsets@[k]]
                    0 <= j < i && 0 <= k < frames@[j].offsets@.len() ==> frames@[j].offsets@[k]
                        < self.spec_sample_rate(),
                forall|j: int|
                    0 <= j < i ==> spec_renderable_frame(
                        (#[trigger] frames@[j]).offsets@,
                        self.spec_sample_rate() as int,
                    ),
            decreases frame_count - i,
        {
            let ghost before = bank;
            proof {
                crate::bank::lemma_active_count_le_len(bank@);
            }
            bank.render_sample_into(self.sample_rate, &mut frames[i].offsets);
            proof {
                assert(before.well_formed() && before.phase_bounded(
                    self.spec_sample_rate() as int,
                ) && frames@[i as int].offsets@ == spec_mix_offsets(
                    spec_advanced_slots(before@, self.spec_sample_rate() as int),
                    self.spec_sample_rate() as int,
                ));
            }
            i = i + 1;
        }
        handle.release_write(bank);
    }
}

/// In a well-formed bank the reported active pairs are sound: each names a
/// valid occupied slot at that slot's pitch, in strictly ascending order.
pub proof fn lemma_active_pairs_sound(slots: Seq<Option<Oscillator>>)
    requires
        slots.len() <= usize::MAX,
        forall|i: int|
            #![trigger slots[i]]
            0 <= i < slots.len() ==> (slots[i] matches Some(osc) ==> osc.frequency == spec_pitch(
                i,
            )),
    ensures
        spec_active_pairs(slots).len() <= slots.len(),
        forall|k: int|
            0 <= k < spec_active_pairs(slots).len() ==> (#[trigger] spec_active_pairs(slots)[k]).0
                < slots.len() && spec_active_pairs(slots)[k].1 == spec_pitch(
                spec_active_pairs(slots)[k].0 as int,
            ),
        forall|k: int|
            0 < k < spec_active_pairs(slots).len() ==> spec_active_pairs(slots)[k - 1].0 < (
            #[trigger] spec_active_pairs(slots)[k]).0,
        forall|k: int|
            0 <= k < spec_active_pairs(slots).len() ==> slots[(#[trigger] spec_active_pairs(
                slots,
            )[k]).0 as int] is Some,
        forall|i: int|
            #![trigger slots[i]]
            0 <= i < slots.len() && slots[i] is Some ==> exists|k: int|
                #![trigger spec_active_pairs(slots)[k]]
                0 <= k < spec_active_pairs(slots).len() && spec_active_pairs(slots)[k].0 == i,
    decreases slots.len(),
{
    if slots.len() > 0 {
        let dl = slots.drop_last();
        lemma_active_pairs_sound(dl);
        let p = spec_active_pairs(slots);
        let pd = spec_active_pairs(dl);
        assert(forall|j: int| 0 <= j < dl.len() ==> #[trigger] dl[j] == slots[j]);
        match slots.last() {
            Some(osc) => {
                assert(slots[slots.len() - 1] == slots.last());
                assert(p == pd + seq![(((slots.len() - 1) as usize), osc.frequency)]);
                assert forall|k: int|
                    0 <= k < p.len() implies (#[trigger] p[k]).0 < slots.len() && p[k].1
                    == spec_pitch(p[k].0 as int) by {
                    if k < pd.len() {
                        assert(p[k] == pd[k]);
                    } else {
                        assert(p[k] == (((slots.len() - 1) as usize), osc.frequency));
                    }
                }
                assert forall|k: int| 0 < k < p.len() implies p[k - 1].0 < (#[trigger] p[k]).0 by {
                    if k < pd.len() {
                        assert(p[k] == pd[k] && p[k - 1] == pd[k - 1]);
                    } else {
                        assert(p[k - 1].0 < dl.len());
                    }
                }
                assert forall|k: int| 0 <= k < p.len() implies slots[(#[trigger] p[k]).0 as int]
                    is Some by {
                    if k < pd.len() {
                        assert(p[k] == pd[k]);
                        assert(dl[pd[k].0 as int] is Some);
                    } else {
                        assert(p[k].0 == slots.len() - 1);
                    }
                }
                assert forall|i: int|
                    0 <= i < slots.len() && (#[trigger] slots[i]) is Some implies exists|k: int|
                    #![trigger p[k]]
                    0 <= k < p.len() && p[k].0 == i by {
                    if i < dl.len() {
                        assert(dl[i] is Some);
                        let k = choose|k: int|
                            #![trigger pd[k]]
                            0 <= k < pd.len() && pd[k].0 == i;
                        assert(p[k] == pd[k]);
                        assert(0 <= k < p.len() && p[k].0 == i);
                    } else {
                        let k = pd.len() as int;
                        assert(0 <= k < p.len() && p[k].0 == i);
                    }
                }
            },
            None => {
                assert(p =~= pd);
                assert forall|k: int| 0 <= k < p.len() implies slots[(#[trigger] p[k]).0 as int]
                    is Some by {
                    assert(p[k] == pd[k]);
                    assert(dl[pd[k].0 as int] is Some);
                }
                assert forall|i: int|
                    0 <= i < slots.len() && (#[trigger] slots[i]) is Some implies exists|k: int|
                    #![trigger p[k]]
                    0 <= k < p.len() && p[k].0 == i by {
                    assert(i < dl.len());
                    assert(dl[i] is Some);
                    let k = choose|k: int|
                        #![trigger pd[k]]
                        0 <= k < pd.len() && pd[k].0 == i;
                    assert(p[k] == pd[k]);
                    assert(0 <= k < p.len() && p[k].0 == i);
                }
            },
        }
    }
}

} // verus!

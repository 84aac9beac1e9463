//! A single self-advancing sine generator with persistent phase.

use vstd::prelude::*;

verus! {

/// One active sine voice. `phase_clock` counts elapsed samples since the
/// voice last wrapped, and is kept in `[0, sample_rate)` by `advance` so the
/// phase stays numerically bounded over an unbounded run.
#[derive(Clone, Copy, PartialEq, Eq, Structural, Debug)]
pub struct Oscillator {
    /// Fundamental frequency in whole hertz; always positive.
    pub frequency: u32,
    /// Elapsed samples since the last wrap, in `[0, sample_rate)`.
    pub phase_clock: u32,
}

impl Oscillator {
    /// The oscillator after one more sample period at `sample_rate`.
    pub open spec fn spec_advanced(self, sample_rate: int) -> Oscillator {
        Oscillator {
            frequency: self.frequency,
            phase_clock: (((self.phase_clock + 1) % sample_rate) as u32),
        }
    }

    /// Position within the sine cycle, in units of `1 / sample_rate` of a
    /// full turn: the oscillator's instantaneous amplitude is
    /// `sin(2 * pi * spec_cycle_offset / sample_rate)`.
    pub open spec fn spec_cycle_offset(self, sample_rate: int) -> int {
        (self.phase_clock * self.frequency) % sample_rate
    }

    /// A fresh voice at `frequency` hertz with zero initial phase.
    pub fn new(frequency: u32) -> (osc: Oscillator)
        ensures
            osc.frequency == frequency,
            osc.phase_clock == 0,
    {
        Oscillator { frequency, phase_clock: 0 }
    }

    /// Moves the phase clock forward by exactly one sample period, then
    /// wraps it back into `[0, sample_rate)`.
    pub fn advance(&mut self, sample_rate: u32)
        requires
            sample_rate >= 1,
            old(self).phase_clock < sample_rate,
        ensures
            *final(self) == old(self).spec_advanced(sample_rate as int),
            final(self).phase_clock < sample_rate,
            final(self).frequency == old(self).frequency,
    {
        self.phase_clock = (self.phase_clock + 1) % sample_rate;
    }

    /// The exact position within the sine cycle at the current phase: the
    /// amplitude of this voice is `sin(2 * pi * offset / sample_rate)`.
    pub fn cycle_offset(&self, sample_rate: u32) -> (offset: u64)
        requires
            sample_rate >= 1,
        ensures
            offset == self.spec_cycle_offset(sample_rate as int),
            offset < sample_rate,
    {
        proof {
            assert((self.phase_clock as int) * (self.frequency as int) <= 0xFFFF_FFFF * 0xFFFF_FFFF)
                by (nonlinear_arith)
                requires
                    self.phase_clock <= 0xFFFF_FFFF,
                    self.frequency <= 0xFFFF_FFFF,
            ;
        }
        let product: u64 = (self.phase_clock as u64) * (self.frequency as u64);
        product % (sample_rate as u64)
    }
}

/// The oscillator after `k` successive one-sample advances.
pub open spec fn spec_advanced_times(osc: Oscillator, sample_rate: int, k: nat) -> Oscillator
    decreases k,
{
    if k == 0 {
        osc
    } else {
        spec_advanced_times(osc, sample_rate, (k - 1) as nat).spec_advanced(sample_rate)
    }
}

/// Starting from zero phase, `k` advances leave the frequency untouched and
/// the phase clock at `k % sample_rate`.
pub proof fn lemma_phase_after_advances(frequency: u32, sample_rate: int, k: nat)
    requires
        1 <= sample_rate <= u32::MAX,
    ensures
        spec_advanced_times(
            Oscillator { frequency, phase_clock: 0 },
            sample_rate,
            k,
        ).frequency == frequency,
        spec_advanced_times(
            Oscillator { frequency, phase_clock: 0 },
            sample_rate,
            k,
        ).phase_clock == k as int % sample_rate,
    decreases k,
{
    if k == 0 {
        assert(0int % sample_rate == 0) by {
            vstd::arithmetic::div_mod::lemma_small_mod(0, sample_rate as nat);
        }
    } else {
        lemma_phase_after_advances(frequency, sample_rate, (k - 1) as nat);
        let prev = spec_advanced_times(
            Oscillator { frequency, phase_clock: 0 },
            sample_rate,
            (k - 1) as nat,
        );
        vstd::arithmetic::div_mod::lemma_mod_bound((k - 1) as int, sample_rate);
        vstd::arithmetic::div_mod::lemma_add_mod_noop((k - 1) as int, 1, sample_rate);
        if sample_rate == 1 {
            vstd::arithmetic::div_mod::lemma_mod_bound(prev.phase_clock + 1, sample_rate);
            vstd::arithmetic::div_mod::lemma_mod_bound(k as int, sample_rate);
        } else {
            vstd::arithmetic::div_mod::lemma_small_mod(1, sample_rate as nat);
        }
    }
}

/// Single-note periodicity: a reference-pitch voice started at zero phase
/// and advanced over one full period — `sample_rate / 440` samples, rounded
/// to the nearest whole sample — comes back to within one sample period of
/// its start: its cycle offset then lies within half a per-sample step
/// (220 cycle units, where one sample moves the offset by 440) of the
/// cycle start, on either side of the wrap.
pub proof fn lemma_full_period_returns_to_start(sample_rate: u32)
    requires
        sample_rate >= 440,
    ensures
        ({
            let sr = sample_rate as int;
            let period = if 2 * (sr % 440) >= 440 {
                sr / 440 + 1
            } else {
                sr / 440
            };
            let osc = spec_advanced_times(
                Oscillator { frequency: 440, phase_clock: 0 },
                sr,
                period as nat,
            );
            osc.spec_cycle_offset(sr) <= 220 || osc.spec_cycle_offset(sr) >= sr - 220
        }),
{
    let sr = sample_rate as int;
    let q = sr / 440;
    let r = sr % 440;
    let period = if 2 * r >= 440 {
        q + 1
    } else {
        q
    };
    vstd::arithmetic::div_mod::lemma_fundamental_div_mod(sr, 440);
    vstd::arithmetic::div_mod::lemma_mod_bound(sr, 440);
    assert(sr == 440 * q + r);
    assert(1 <= q);
    assert(1 <= period < sr);
    lemma_phase_after_advances(440, sr, period as nat);
    let osc = spec_advanced_times(Oscillator { frequency: 440, phase_clock: 0 }, sr, period as nat);
    assert(osc.phase_clock == period) by {
        vstd::arithmetic::div_mod::lemma_small_mod(period as nat, sr as nat);
    }
    if 2 * r >= 440 {
        let d = 440 - r;
        assert(period * 440 == sr + d);
        assert(1 <= d <= 220);
        assert((sr + d) % sr == d % sr) by {
            vstd::arithmetic::div_mod::lemma_mod_add_multiples_vanish(d, sr);
        }
        assert(d % sr == d) by {
            vstd::arithmetic::div_mod::lemma_small_mod(d as nat, sr as nat);
        }
        assert(osc.spec_cycle_offset(sr) == d);
    } else if r == 0 {
        assert(period * 440 == sr);
        assert(sr % sr == 0) by {
            vstd::arithmetic::div_mod::lemma_mod_self_0(sr);
        }
        assert(osc.spec_cycle_offset(sr) == 0);
    } else {
        assert(period * 440 == sr - r);
        assert(1 <= r <= 219);
        assert((sr - r) % sr == sr - r) by {
            vstd::arithmetic::div_mod::lemma_small_mod((sr - r) as nat, sr as nat);
        }
        assert(osc.spec_cycle_offset(sr) == sr - r);
    }
}

} // verus!

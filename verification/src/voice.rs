//! One oscillator plus envelope: a stateful per-sample generator.
//!
//! All quantities are fixed-point integers.  Samples and gains are Q15
//! (`GAIN_ONE` is full scale / unit gain), oscillator phase runs from 0 to
//! `PHASE_ONE` per cycle, frequency is in millihertz, envelope stage lengths
//! are in milliseconds and `env_phase` counts samples since the last trigger.

use vstd::prelude::*;
use vstd::arithmetic::div_mod::lemma_div_by_multiple;
use vstd::arithmetic::div_mod::lemma_div_is_ordered;
use vstd::arithmetic::div_mod::lemma_div_pos_is_pos;
use vstd::arithmetic::div_mod::lemma_multiply_divide_le;
use vstd::arithmetic::div_mod::lemma_multiply_divide_lt;
use vstd::arithmetic::mul::lemma_mul_inequality;
use vstd::arithmetic::mul::lemma_mul_nonnegative;
use vstd::arithmetic::mul::lemma_mul_upper_bound;

verus! {

/// Q15 unit: the fixed-point value standing for 1.0 in gains and samples.
pub const GAIN_ONE: u32 = 32768;

/// Fixed-point units in one full oscillator cycle.
pub const PHASE_ONE: u64 = 16777216;

/// Half a cycle, in phase units.
pub const PHASE_HALF: u64 = 8388608;

/// A quarter cycle, in phase units.
pub const PHASE_QUARTER: u64 = 4194304;

/// Largest supported sample rate, in Hz.
pub const MAX_SAMPLE_RATE: u32 = 1000000;

/// Largest supported envelope stage length, in milliseconds.
pub const MAX_STAGE_MS: u32 = 60000;

/// Largest supported oscillator frequency, in millihertz.
pub const MAX_FREQ_MILLIHZ: u64 = 1000000000;

#[derive(Clone, Copy, Debug, PartialEq, Eq, Structural)]
pub enum Waveform {
    Sine,
    Saw,
    Square,
    Triangle,
}

#[derive(Clone, Copy, Debug, PartialEq, Eq, Structural)]
pub struct Voice {
    /// Position within one oscillation cycle, in `0 .. PHASE_ONE`.
    pub phase: u64,
    /// Oscillator frequency in millihertz.
    pub frequency: u64,
    pub waveform: Waveform,
    /// Fixed output gain, Q15.
    pub amp: u32,
    /// Attack length in milliseconds.
    pub attack: u32,
    /// Decay length in milliseconds.
    pub decay: u32,
    /// Sustain level, Q15 gain in `0 ..= GAIN_ONE`.
    pub sustain: u32,
    /// Release length in milliseconds; carried by the model but never
    /// consulted: the engine re-triggers voices instead of releasing them.
    pub release: u32,
    /// Samples elapsed since the last trigger.
    pub env_phase: u64,
}

pub open spec fn voice_wf(v: Voice) -> bool {
    &&& v.phase < PHASE_ONE
    &&& v.frequency <= MAX_FREQ_MILLIHZ
    &&& v.amp <= GAIN_ONE
    &&& v.sustain <= GAIN_ONE
    &&& v.attack <= MAX_STAGE_MS
    &&& v.decay <= MAX_STAGE_MS
}

/// The raw waveform value at a given phase, Q15.
///
/// Sine is a piecewise-parabola approximation `8p(1-2p)` of `sin(2*pi*p)`,
/// exact at the zero crossings and the peaks.  Triangle is `1 - |4(p-1/4)|`,
/// which dips below -1 in the last quarter of the cycle; every other
/// waveform stays within one unit.
pub open spec fn spec_wave(w: Waveform, phase: int) -> int {
    match w {
        Waveform::Saw => (phase * 2 * GAIN_ONE) / (PHASE_ONE as int) - GAIN_ONE,
        Waveform::Sine => if phase < PHASE_HALF {
            (8 * phase * (PHASE_ONE - 2 * phase) * GAIN_ONE) / (PHASE_ONE * PHASE_ONE)
        } else {
            -((8 * (phase - PHASE_HALF) * (PHASE_ONE - 2 * (phase - PHASE_HALF)) * GAIN_ONE) / (
            PHASE_ONE * PHASE_ONE))
        },
        Waveform::Square => if phase < PHASE_HALF {
            GAIN_ONE as int
        } else {
            -(GAIN_ONE as int)
        },
        Waveform::Triangle => GAIN_ONE - (if phase >= PHASE_QUARTER {
            (4 * (phase - PHASE_QUARTER) * GAIN_ONE) / (PHASE_ONE as int)
        } else {
            (4 * (PHASE_QUARTER - phase) * GAIN_ONE) / (PHASE_ONE as int)
        }),
    }
}

/// Length in samples of an envelope stage given in milliseconds.
pub open spec fn spec_stage_samples(ms: int, sr: int) -> int {
    ms * sr / 1000
}

/// Envelope gain (Q15) after `t` samples: a linear ramp 0 to 1 over the
/// attack, a linear ramp 1 down to `sustain` over the decay, then `sustain`
/// held forever.  A zero-length stage is skipped by the branch structure,
/// so no division by zero can arise.
pub open spec fn spec_envelope(t: int, sr: int, attack_ms: int, decay_ms: int, sustain: int) -> int {
    let a = spec_stage_samples(attack_ms, sr);
    let d = spec_stage_samples(decay_ms, sr);
    if t < a {
        t * GAIN_ONE / a
    } else if t < a + d {
        GAIN_ONE - (t - a) * (GAIN_ONE - sustain) / d
    } else {
        sustain
    }
}

/// Scales a Q15 waveform value by a Q30 gain, rounding toward zero.
pub open spec fn spec_scaled(w: int, gain: int) -> int {
    if w >= 0 {
        w * gain / (GAIN_ONE * GAIN_ONE)
    } else {
        -((-w) * gain / (GAIN_ONE * GAIN_ONE))
    }
}

pub open spec fn spec_voice_env(v: Voice, sr: int) -> int {
    spec_envelope(v.env_phase as int, sr, v.attack as int, v.decay as int, v.sustain as int)
}

/// The sample a voice produces: waveform times amplitude times envelope.
pub open spec fn spec_voice_sample(v: Voice, sr: int) -> int {
    spec_scaled(spec_wave(v.waveform, v.phase as int), v.amp * spec_voice_env(v, sr))
}

/// Phase advance per sample, in phase units.
pub open spec fn spec_phase_inc(freq: int, sr: int) -> int {
    freq * PHASE_ONE / (sr * 1000)
}

/// The voice state after producing one sample: phase advanced and wrapped,
/// envelope clock one sample further (held at its ceiling rather than
/// wrapping), everything else untouched.
pub open spec fn spec_voice_after(v: Voice, sr: int) -> Voice {
    Voice {
        phase: ((v.phase + spec_phase_inc(v.frequency as int, sr)) % (PHASE_ONE as int)) as u64,
        env_phase: if v.env_phase < u64::MAX {
            (v.env_phase + 1) as u64
        } else {
            v.env_phase
        },
        ..v
    }
}

/// The state every new voice starts in: A4 saw wave at modest gain, a 10 ms
/// attack, 100 ms decay to a 0.3 sustain.
pub open spec fn spec_default_voice() -> Voice {
    Voice {
        phase: 0,
        frequency: 440000,
        waveform: Waveform::Saw,
        amp: 4915,
        attack: 10,
        decay: 100,
        sustain: 9830,
        release: 100,
        env_phase: 0,
    }
}

/// `8h(one - 2h) <= one^2` for every integer `h`: the parabola peaks at
/// `h = one/4` with value exactly `one^2 / 2 * 2`.
proof fn lemma_parabola_bound(h: int, one: int)
    by (nonlinear_arith)
    ensures
        8 * h * (one - 2 * h) <= one * one,
{
}

/// Every waveform stays within one unit above and strictly within two units
/// below zero; every waveform except Triangle stays within one unit on both
/// sides.  (Triangle, `1 - |4(p - 1/4)|`, reaches down toward -2 in the last
/// quarter of its cycle.)
pub proof fn lemma_wave_bounds(w: Waveform, phase: int)
    requires
        0 <= phase < PHASE_ONE,
    ensures
        -2 * GAIN_ONE < spec_wave(w, phase) <= GAIN_ONE,
        w != Waveform::Triangle ==> -GAIN_ONE <= spec_wave(w, phase),
{
    let one = PHASE_ONE as int;
    let g = GAIN_ONE as int;
    match w {
        Waveform::Saw => {
            lemma_div_pos_is_pos(phase * 2 * g, one);
            lemma_multiply_divide_lt(phase * 2 * g, one, 2 * g);
        },
        Waveform::Sine => {
            let h = if phase < PHASE_HALF {
                phase
            } else {
                phase - PHASE_HALF
            };
            lemma_parabola_bound(h, one);
            lemma_mul_nonnegative(8 * h, one - 2 * h);
            lemma_div_pos_is_pos(8 * h * (one - 2 * h) * g, one * one);
            lemma_mul_inequality(8 * h * (one - 2 * h), one * one, g);
            lemma_div_is_ordered(8 * h * (one - 2 * h) * g, one * one * g, one * one);
        },
        Waveform::Square => {},
        Waveform::Triangle => {
            let d = if phase >= PHASE_QUARTER {
                phase - PHASE_QUARTER
            } else {
                PHASE_QUARTER - phase
            };
            lemma_mul_nonnegative(4 * d, g);
            lemma_div_pos_is_pos(4 * d * g, one);
            lemma_multiply_divide_lt(4 * d * g, one, 3 * g);
        },
    }
}

/// The envelope gain always lies between zero and unit gain.
pub proof fn lemma_envelope_bounds(t: int, sr: int, attack_ms: int, decay_ms: int, sustain: int)
    requires
        0 <= t,
        1 <= sr,
        0 <= attack_ms,
        0 <= decay_ms,
        0 <= sustain <= GAIN_ONE,
    ensures
        0 <= spec_envelope(t, sr, attack_ms, decay_ms, sustain) <= GAIN_ONE,
{
    let g = GAIN_ONE as int;
    let a = spec_stage_samples(attack_ms, sr);
    let d = spec_stage_samples(decay_ms, sr);
    lemma_mul_nonnegative(attack_ms, sr);
    lemma_div_pos_is_pos(attack_ms * sr, 1000);
    lemma_mul_nonnegative(decay_ms, sr);
    lemma_div_pos_is_pos(decay_ms * sr, 1000);
    if t < a {
        lemma_mul_nonnegative(t, g);
        lemma_div_pos_is_pos(t * g, a);
        lemma_multiply_divide_lt(t * g, a, g);
    } else if t < a + d {
        lemma_mul_nonnegative(t - a, g - sustain);
        lemma_div_pos_is_pos((t - a) * (g - sustain), d);
        lemma_mul_inequality(t - a, d, g - sustain);
        lemma_multiply_divide_le((t - a) * (g - sustain), d, g - sustain);
    }
}

/// A voice's output sample never exceeds its amplitude in magnitude, except
/// through the Triangle waveform's overshoot, where twice the amplitude is
/// the ceiling.
pub proof fn lemma_sample_bounded(v: Voice, sr: int)
    requires
        voice_wf(v),
        1 <= sr,
    ensures
        -2 * (v.amp as int) <= spec_voice_sample(v, sr) <= v.amp as int,
        v.waveform != Waveform::Triangle ==> -(v.amp as int) <= spec_voice_sample(v, sr),
{
    let g = GAIN_ONE as int;
    let w = spec_wave(v.waveform, v.phase as int);
    let env = spec_voice_env(v, sr);
    let gain = v.amp * env;
    lemma_wave_bounds(v.waveform, v.phase as int);
    lemma_envelope_bounds(v.env_phase as int, sr, v.attack as int, v.decay as int,
        v.sustain as int);
    lemma_mul_nonnegative(v.amp as int, env);
    assert(v.amp * env <= v.amp * g) by (nonlinear_arith)
        requires
            0 <= v.amp,
            env <= g,
    ;
    if w >= 0 {
        lemma_mul_nonnegative(w, gain);
        lemma_div_pos_is_pos(w * gain, g * g);
        lemma_mul_upper_bound(w, g, gain, v.amp * g);
        assert(g * (v.amp * g) == v.amp * (g * g)) by (nonlinear_arith);
        lemma_div_is_ordered(w * gain, v.amp * (g * g), g * g);
        lemma_div_by_multiple(v.amp as int, g * g);
    } else {
        let nw = -w;
        lemma_mul_nonnegative(nw, gain);
        lemma_div_pos_is_pos(nw * gain, g * g);
        if v.waveform != Waveform::Triangle {
            lemma_mul_upper_bound(nw, g, gain, v.amp * g);
            assert(g * (v.amp * g) == v.amp * (g * g)) by (nonlinear_arith);
            lemma_div_is_ordered(nw * gain, v.amp * (g * g), g * g);
            lemma_div_by_multiple(v.amp as int, g * g);
        }
        lemma_mul_upper_bound(nw, 2 * g, gain, v.amp * g);
        assert((2 * g) * (v.amp * g) == (2 * v.amp) * (g * g)) by (nonlinear_arith);
        lemma_div_is_ordered(nw * gain, (2 * v.amp) * (g * g), g * g);
        lemma_div_by_multiple(2 * v.amp as int, g * g);
    }
}

/// Envelope monotonicity: while the clock stays inside the attack the gain
/// never falls, while it stays inside the decay the gain never rises, and
/// from the end of the decay onward the gain is exactly the sustain level.
pub proof fn lemma_envelope_monotonic(
    t1: int,
    t2: int,
    sr: int,
    attack_ms: int,
    decay_ms: int,
    sustain: int,
)
    requires
        0 <= t1 <= t2,
        1 <= sr,
        0 <= attack_ms,
        0 <= decay_ms,
        0 <= sustain <= GAIN_ONE,
    ensures
        t2 < spec_stage_samples(attack_ms, sr) ==> spec_envelope(t1, sr, attack_ms, decay_ms,
            sustain) <= spec_envelope(t2, sr, attack_ms, decay_ms, sustain),
        spec_stage_samples(attack_ms, sr) <= t1 && t2 < spec_stage_samples(attack_ms, sr)
            + spec_stage_samples(decay_ms, sr) ==> spec_envelope(t1, sr, attack_ms, decay_ms,
            sustain) >= spec_envelope(t2, sr, attack_ms, decay_ms, sustain),
        spec_stage_samples(attack_ms, sr) + spec_stage_samples(decay_ms, sr) <= t1
            ==> spec_envelope(t1, sr, attack_ms, decay_ms, sustain) == sustain,
{
    let g = GAIN_ONE as int;
    let a = spec_stage_samples(attack_ms, sr);
    let d = spec_stage_samples(decay_ms, sr);
    if t2 < a {
        lemma_mul_inequality(t1, t2, g);
        lemma_div_is_ordered(t1 * g, t2 * g, a);
    } else if a <= t1 && t2 < a + d {
        lemma_mul_inequality(t1 - a, t2 - a, g - sustain);
        lemma_div_is_ordered((t1 - a) * (g - sustain), (t2 - a) * (g - sustain), d);
    }
}

impl Voice {
    pub fn new() -> (v: Voice)
        ensures
            v == spec_default_voice(),
            voice_wf(v),
    {
        Voice {
            phase: 0,
            frequency: 440000,
            waveform: Waveform::Saw,
            amp: 4915,
            attack: 10,
            decay: 100,
            sustain: 9830,
            release: 100,
            env_phase: 0,
        }
    }

    pub fn set_frequency(&mut self, freq: u64)
        requires
            freq <= MAX_FREQ_MILLIHZ,
        ensures
            *final(self) == (Voice { frequency: freq, ..*old(self) }),
    {
        self.frequency = freq;
    }

    pub fn reset_env(&mut self)
        ensures
            *final(self) == (Voice { env_phase: 0, ..*old(self) }),
    {
        self.env_phase = 0;
    }

    /// Renders one sample and advances phase and envelope clock by one
    /// sample period.  The returned sample is Q15, scaled by amplitude and
    /// envelope.
    pub fn process(&mut self, sample_rate: u32) -> (r: i64)
        requires
            voice_wf(*old(self)),
            1 <= sample_rate <= MAX_SAMPLE_RATE,
        ensures
            r == spec_voice_sample(*old(self), sample_rate as int),
            *final(self) == spec_voice_after(*old(self), sample_rate as int),
            voice_wf(*final(self)),
    {
        let g64: u64 = GAIN_ONE as u64;
        let wave: i64 = match self.waveform {
            Waveform::Saw => ((self.phase * 2 * g64 / PHASE_ONE) as i64) - (GAIN_ONE as i64),
            Waveform::Sine => {
                if self.phase < PHASE_HALF {
                    let h = self.phase;
                    proof {
                        lemma_mul_upper_bound(8 * h as int, 8 * PHASE_HALF as int, (PHASE_ONE - 2
                            * h) as int, PHASE_ONE as int);
                        lemma_parabola_bound(h as int, PHASE_ONE as int);
                        lemma_mul_nonnegative(8 * h as int, (PHASE_ONE - 2 * h) as int);
                        lemma_div_pos_is_pos(8 * (h as int) * ((PHASE_ONE - 2 * h) as int) * (
                        GAIN_ONE as int), (PHASE_ONE * PHASE_ONE) as int);
                        lemma_div_is_ordered(8 * (h as int) * ((PHASE_ONE - 2 * h) as int) * (
                        GAIN_ONE as int), (PHASE_ONE as int) * (PHASE_ONE as int) * (
                        GAIN_ONE as int), (PHASE_ONE * PHASE_ONE) as int);
                    }
                    (8 * h * (PHASE_ONE - 2 * h) * g64 / (PHASE_ONE * PHASE_ONE)) as i64
                } else {
                    let h = self.phase - PHASE_HALF;
                    proof {
                        lemma_mul_upper_bound(8 * h as int, 8 * PHASE_HALF as int, (PHASE_ONE - 2
                            * h) as int, PHASE_ONE as int);
                        lemma_parabola_bound(h as int, PHASE_ONE as int);
                        lemma_mul_nonnegative(8 * h as int, (PHASE_ONE - 2 * h) as int);
                        lemma_div_pos_is_pos(8 * (h as int) * ((PHASE_ONE - 2 * h) as int) * (
                        GAIN_ONE as int), (PHASE_ONE * PHASE_ONE) as int);
                        lemma_div_is_ordered(8 * (h as int) * ((PHASE_ONE - 2 * h) as int) * (
                        GAIN_ONE as int), (PHASE_ONE as int) * (PHASE_ONE as int) * (
                        GAIN_ONE as int), (PHASE_ONE * PHASE_ONE) as int);
                    }
                    -((8 * h * (PHASE_ONE - 2 * h) * g64 / (PHASE_ONE * PHASE_ONE)) as i64)
                }
            },
            Waveform::Square => {
                if self.phase < PHASE_HALF {
                    GAIN_ONE as i64
                } else {
                    -(GAIN_ONE as i64)
                }
            },
            Waveform::Triangle => {
                let excursion: u64 = if self.phase >= PHASE_QUARTER {
                    4 * (self.phase - PHASE_QUARTER) * g64 / PHASE_ONE
                } else {
                    4 * (PHASE_QUARTER - self.phase) * g64 / PHASE_ONE
                };
                proof {
                    let d: int = if self.phase >= PHASE_QUARTER {
                        self.phase - PHASE_QUARTER
                    } else {
                        PHASE_QUARTER - self.phase
                    };
                    lemma_multiply_divide_lt(4 * d * (GAIN_ONE as int), PHASE_ONE as int, 3 * (
                    GAIN_ONE as int));
                    lemma_mul_nonnegative(4 * d, GAIN_ONE as int);
                    lemma_div_pos_is_pos(4 * d * (GAIN_ONE as int), PHASE_ONE as int);
                }
                (GAIN_ONE as i64) - (excursion as i64)
            },
        };

        proof {
            assert(-2 * (GAIN_ONE as int) < wave <= GAIN_ONE as int);
        }

        // Advance the phase by frequency / sample_rate of a cycle, wrapping.
        let inc: u64 = self.frequency * PHASE_ONE / (sample_rate as u64 * 1000);
        self.phase = (self.phase + inc) % PHASE_ONE;

        // Envelope gain from the time since the last trigger.
        let t: u64 = self.env_phase;
        proof {
            lemma_mul_upper_bound(self.attack as int, MAX_STAGE_MS as int, sample_rate as int,
                MAX_SAMPLE_RATE as int);
            lemma_mul_upper_bound(self.decay as int, MAX_STAGE_MS as int, sample_rate as int,
                MAX_SAMPLE_RATE as int);
        }
        let attack_samples: u64 = (self.attack as u64) * (sample_rate as u64) / 1000;
        let decay_samples: u64 = (self.decay as u64) * (sample_rate as u64) / 1000;
        let env: u64 = if t < attack_samples {
            proof {
                lemma_multiply_divide_lt(t * (GAIN_ONE as int), attack_samples as int,
                    GAIN_ONE as int);
                lemma_div_pos_is_pos(t * (GAIN_ONE as int), attack_samples as int);
            }
            t * g64 / attack_samples
        } else if t < attack_samples + decay_samples {
            let diff: u64 = t - attack_samples;
            let gap: u64 = g64 - (self.sustain as u64);
            proof {
                lemma_mul_upper_bound(diff as int, 60000000000, gap as int, GAIN_ONE as int);
                lemma_mul_inequality(diff as int, decay_samples as int, gap as int);
                lemma_multiply_divide_le(diff * gap, decay_samples as int, gap as int);
                lemma_mul_nonnegative(diff as int, gap as int);
                lemma_div_pos_is_pos(diff * gap, decay_samples as int);
            }
            g64 - diff * gap / decay_samples
        } else {
            self.sustain as u64
        };
        if self.env_phase < u64::MAX {
            self.env_phase = self.env_phase + 1;
        }

        // Scale the waveform by amplitude and envelope (Q30 gain).
        proof {
            lemma_mul_upper_bound(self.amp as int, GAIN_ONE as int, env as int, GAIN_ONE as int);
        }
        let gain: u64 = (self.amp as u64) * env;
        if wave >= 0 {
            let w: u64 = wave as u64;
            proof {
                lemma_mul_upper_bound(w as int, 2 * GAIN_ONE, gain as int, (GAIN_ONE as int) * (
                GAIN_ONE as int));
                lemma_mul_nonnegative(w as int, gain as int);
                lemma_div_pos_is_pos(w as int * gain as int, (GAIN_ONE * GAIN_ONE) as int);
                lemma_div_is_ordered(w as int * gain as int, 2 * (GAIN_ONE as int) * (
                GAIN_ONE as int) * (GAIN_ONE as int), (GAIN_ONE as int) * (GAIN_ONE as int));
            }
            (w * gain / ((GAIN_ONE as u64) * (GAIN_ONE as u64))) as i64
        } else {
            let w: u64 = (-wave) as u64;
            proof {
                lemma_mul_upper_bound(w as int, 2 * GAIN_ONE, gain as int, (GAIN_ONE as int) * (
                GAIN_ONE as int));
                lemma_mul_nonnegative(w as int, gain as int);
                lemma_div_pos_is_pos(w as int * gain as int, (GAIN_ONE * GAIN_ONE) as int);
                lemma_div_is_ordered(w as int * gain as int, 2 * (GAIN_ONE as int) * (
                GAIN_ONE as int) * (GAIN_ONE as int), (GAIN_ONE as int) * (GAIN_ONE as int));
            }
            -((w * gain / ((GAIN_ONE as u64) * (GAIN_ONE as u64))) as i64)
        }
    }
}

} // verus!

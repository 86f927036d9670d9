use stepsynth::voice::GAIN_ONE;
use stepsynth::voice::PHASE_ONE;
use stepsynth::Voice;
use stepsynth::Waveform;

#[test]
fn new_voice_defaults() {
    let v = Voice::new();
    assert_eq!(v.phase, 0);
    assert_eq!(v.frequency, 440_000);
    assert!(matches!(v.waveform, Waveform::Saw));
    assert_eq!(v.amp, 4915);
    assert_eq!(v.attack, 10);
    assert_eq!(v.decay, 100);
    assert_eq!(v.sustain, 9830);
    assert_eq!(v.env_phase, 0);
}

#[test]
fn set_frequency_and_reset_env() {
    let mut v = Voice::new();
    v.set_frequency(220_000);
    assert_eq!(v.frequency, 220_000);
    v.process(44100);
    v.process(44100);
    assert_eq!(v.env_phase, 2);
    v.reset_env();
    assert_eq!(v.env_phase, 0);
}

#[test]
fn output_stays_within_amplitude() {
    // Sine, saw and square never exceed the amplitude in magnitude.
    for waveform in [Waveform::Sine, Waveform::Saw, Waveform::Square] {
        let mut v = Voice::new();
        v.waveform = waveform;
        v.set_frequency(997_123);
        for _ in 0..5000 {
            let s = v.process(44100);
            assert!(s <= v.amp as i64);
            assert!(s >= -(v.amp as i64));
        }
    }
}

#[test]
fn triangle_output_stays_within_twice_amplitude() {
    // The triangle formula `1 - |4(p - 1/4)|` overshoots below -1 late in
    // the cycle, but never past twice the amplitude.
    let mut v = Voice::new();
    v.waveform = Waveform::Triangle;
    v.set_frequency(997_123);
    let mut seen_overshoot = false;
    for _ in 0..50000 {
        let s = v.process(44100);
        assert!(s <= v.amp as i64);
        assert!(s >= -2 * (v.amp as i64));
        if s < -(v.amp as i64) {
            seen_overshoot = true;
        }
    }
    assert!(seen_overshoot);
}

#[test]
fn phase_stays_in_cycle() {
    let mut v = Voice::new();
    v.set_frequency(123_456_789);
    for _ in 0..10000 {
        v.process(48000);
        assert!(v.phase < PHASE_ONE);
    }
}

#[test]
fn envelope_ramps_up_then_down_then_sustains() {
    // A frequency of zero pins the phase at zero, so a square wave gives a
    // constant +1 waveform and the raw envelope shape shows in the output:
    // a 10 ms attack is 10 samples at 1 kHz, a 100 ms decay is 100.
    let mut v = Voice::new();
    v.waveform = Waveform::Square;
    v.set_frequency(0);

    let mut outputs: Vec<i64> = Vec::new();
    for _ in 0..300 {
        outputs.push(v.process(1000));
    }
    // Attack: env_phase 0..9 -> non-decreasing.
    for t in 0..9 {
        assert!(outputs[t] <= outputs[t + 1]);
    }
    // Decay: env_phase 10..109 -> non-increasing.
    for t in 10..109 {
        assert!(outputs[t] >= outputs[t + 1]);
    }
    // Sustain: constant amp * sustain / GAIN_ONE from env_phase 110 on.
    let sustain_out = (4915 * 9830 / GAIN_ONE as i64) as i64;
    for t in 110..300 {
        assert_eq!(outputs[t], sustain_out);
    }
}

#[test]
fn zero_attack_jumps_to_full_gain() {
    let mut v = Voice::new();
    v.waveform = Waveform::Square;
    v.set_frequency(0);
    v.attack = 0;
    // First sample: env_phase 0 falls into the decay ramp at full gain.
    let s = v.process(1000);
    assert_eq!(s, v.amp as i64);
}

#[test]
fn zero_attack_and_decay_sustain_immediately() {
    let mut v = Voice::new();
    v.waveform = Waveform::Square;
    v.set_frequency(0);
    v.attack = 0;
    v.decay = 0;
    let s = v.process(1000);
    assert_eq!(s, 4915 * 9830 / GAIN_ONE as i64);
}

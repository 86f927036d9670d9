use stepsynth::minor_scale;
use stepsynth::ProjectData;
use stepsynth::Sequencer;
use stepsynth::Track;
use stepsynth::Voice;
use stepsynth::Waveform;

#[test]
fn new_sequencer_defaults() {
    let s = Sequencer::new(44100);
    assert_eq!(s.tracks.len(), 1);
    assert_eq!(s.tracks[0].name, "Main");
    assert_eq!(s.tracks[0].pattern, vec![0]);
    assert_eq!(s.tracks[0].waveform, Waveform::Saw);
    assert_eq!(s.tracks[0].octave, 3);
    assert_eq!(s.tracks[0].transpose, 0);
    assert_eq!(s.tracks[0].voice_spread, 7);
    assert_eq!(s.scale, vec![7, 9, 10, 12, 14, 15, 17]);
    assert_eq!(s.voices.len(), 1);
    assert_eq!(s.voices[0].len(), 3);
    assert_eq!(s.samples_per_step, 11025);
    assert_eq!(s.step, 0);
    assert_eq!(s.sample_counter, 0);
}

#[test]
fn single_voice_mix_passes_through() {
    // With exactly one track of one voice, the mixed output equals what the
    // same voice produces on its own.
    let mut reference = Voice::new();
    let mut s = Sequencer {
        tracks: vec![Track::new("solo")],
        scale: minor_scale("c"),
        voices: vec![vec![Voice::new()]],
        sample_rate: 44100,
        step: 0,
        samples_per_step: 1_000_000,
        sample_counter: 0,
    };
    for _ in 0..2000 {
        let expected = reference.process(44100);
        assert_eq!(s.process(), expected);
    }
}

#[test]
fn quarter_second_step_scenario() {
    // 44100 Hz, 11025 samples per step (quarter-second steps), one track:
    // pattern [0, -1, 3] over the G minor scale, octave 3, one voice.
    // Arranged so the very first sample crosses a step boundary into
    // pattern index 0.
    let mut track = Track::new("lead");
    track.pattern = vec![0, -1, 3];
    track.octave = 3;
    track.transpose = 0;
    track.voice_spread = 7;
    let mut s = Sequencer {
        tracks: vec![track],
        scale: minor_scale("g"),
        voices: vec![vec![Voice::new()]],
        sample_rate: 44100,
        step: 2,
        samples_per_step: 11025,
        sample_counter: 11024,
    };

    // Sample 0: trigger of pattern index 0 -> degree 0 -> scale note 7 ->
    // MIDI 7 + 3*12 = 43 -> 98 Hz.
    s.process();
    assert_eq!(s.step, 0);
    assert_eq!(s.voices[0][0].frequency, 98_000);
    assert_eq!(s.voices[0][0].env_phase, 1);

    // Samples 1..=11024: inside the step, no re-trigger.
    for _ in 0..11024 {
        s.process();
    }
    assert_eq!(s.step, 0);
    assert_eq!(s.voices[0][0].frequency, 98_000);
    assert_eq!(s.voices[0][0].env_phase, 11025);

    // Sample 11025: the step advances to index 1, a rest: the voice keeps
    // both its frequency and its envelope clock.
    s.process();
    assert_eq!(s.step, 1);
    assert_eq!(s.voices[0][0].frequency, 98_000);
    assert_eq!(s.voices[0][0].env_phase, 11026);

    for _ in 0..11024 {
        s.process();
    }

    // Sample 22050: index 2, degree 3 -> scale note 12 -> MIDI 48 ->
    // about 130.8 Hz, and the envelope restarts.
    s.process();
    assert_eq!(s.step, 2);
    assert_eq!(s.voices[0][0].frequency, 130_816);
    assert_eq!(s.voices[0][0].env_phase, 1);
}

#[test]
fn empty_scale_never_triggers() {
    let mut track = Track::new("mute");
    track.pattern = vec![0, 1];
    let mut s = Sequencer {
        tracks: vec![track],
        scale: Vec::new(),
        voices: vec![vec![Voice::new()]],
        sample_rate: 44100,
        step: 0,
        samples_per_step: 2,
        sample_counter: 0,
    };
    let before = s.voices[0][0].frequency;
    for _ in 0..10 {
        s.process();
    }
    assert_eq!(s.voices[0][0].frequency, before);
    assert_eq!(s.voices[0][0].env_phase, 10);
}

#[test]
fn sequencer_with_no_tracks_is_silent() {
    let mut s = Sequencer::new(44100);
    s.clear_tracks();
    assert_eq!(s.tracks.len(), 0);
    assert_eq!(s.voices.len(), 0);
    for _ in 0..100 {
        assert_eq!(s.process(), 0);
    }
}

#[test]
fn add_track_keeps_collections_aligned() {
    let mut s = Sequencer::new(44100);
    s.add_track(Track::new("bass"));
    s.add_track(Track::new("lead"));
    assert_eq!(s.tracks.len(), 3);
    assert_eq!(s.voices.len(), 3);
    assert_eq!(s.voices[2].len(), 3);
    assert_eq!(s.tracks[1].name, "bass");
}

#[test]
fn upsert_replaces_by_name() {
    let mut s = Sequencer::new(44100);
    s.add_track(Track::new("bass"));
    let mut replacement = Track::new("bass");
    replacement.pattern = vec![5, 5, 5];
    replacement.waveform = Waveform::Sine;
    let updated = s.upsert_track(replacement);
    assert!(updated);
    assert_eq!(s.tracks.len(), 2);
    assert_eq!(s.voices.len(), 2);
    assert_eq!(s.tracks[1].pattern, vec![5, 5, 5]);

    let added = s.upsert_track(Track::new("pad"));
    assert!(!added);
    assert_eq!(s.tracks.len(), 3);
    assert_eq!(s.voices.len(), 3);
}

#[test]
fn remove_track_by_name() {
    let mut s = Sequencer::new(44100);
    s.add_track(Track::new("bass"));
    s.add_track(Track::new("lead"));
    assert!(s.remove_track("bass"));
    assert_eq!(s.tracks.len(), 2);
    assert_eq!(s.voices.len(), 2);
    assert_eq!(s.tracks[0].name, "Main");
    assert_eq!(s.tracks[1].name, "lead");
    assert!(!s.remove_track("bass"));
    assert_eq!(s.tracks.len(), 2);
}

#[test]
fn from_project_derives_step_length_from_tempo() {
    let project = ProjectData {
        tracks: vec![Track::new("a"), Track::new("b")],
        scale: minor_scale("c"),
        bpm: 120,
    };
    let s = Sequencer::from_project(project, 44100);
    // 44100 * 60 / 120 / 4 = 5512 (sixteenth notes at 120 bpm).
    assert_eq!(s.samples_per_step, 5512);
    assert_eq!(s.tracks.len(), 2);
    assert_eq!(s.voices.len(), 2);
    assert_eq!(s.voices[1].len(), 3);
    assert_eq!(s.step, 0);
}

#[test]
fn from_project_zero_tempo_never_steps() {
    let project = ProjectData { tracks: vec![Track::new("a")], scale: minor_scale("c"), bpm: 0 };
    let s = Sequencer::from_project(project, 44100);
    assert_eq!(s.samples_per_step, usize::MAX);
}

#[test]
fn to_project_snapshots_tracks_and_scale() {
    let mut s = Sequencer::new(44100);
    let mut t = Track::new("bass");
    t.pattern = vec![0, -1, 2];
    t.octave = 2;
    s.add_track(t);
    let p = s.to_project(128);
    assert_eq!(p.bpm, 128);
    assert_eq!(p.scale, s.scale);
    assert_eq!(p.tracks.len(), 2);
    assert_eq!(p.tracks[1].name, "bass");
    assert_eq!(p.tracks[1].pattern, vec![0, -1, 2]);
    assert_eq!(p.tracks[1].octave, 2);
}

#[test]
fn mixed_output_is_bounded_by_amplitude_overshoot() {
    let mut s = Sequencer::new(44100);
    let mut extra = Track::new("tri");
    extra.waveform = Waveform::Triangle;
    extra.pattern = vec![0, 2, 4, 5];
    s.add_track(extra);
    for _ in 0..30000 {
        let out = s.process();
        assert!(out.abs() <= 2 * 4915);
    }
}

#[test]
fn voice_spread_stacks_fifths() {
    // One track, three voices, spread 7: the voices land 7 semitones apart.
    let mut track = Track::new("chord");
    track.pattern = vec![0];
    track.octave = 3;
    track.voice_spread = 7;
    let mut s = Sequencer {
        tracks: vec![track],
        scale: minor_scale("g"),
        voices: vec![vec![Voice::new(), Voice::new(), Voice::new()]],
        sample_rate: 44100,
        step: 0,
        samples_per_step: 10,
        sample_counter: 9,
    };
    s.process();
    // Base note MIDI 43; 50 and 57 above it.
    assert_eq!(s.voices[0][0].frequency, stepsynth::midi_to_freq(43));
    assert_eq!(s.voices[0][1].frequency, stepsynth::midi_to_freq(50));
    assert_eq!(s.voices[0][2].frequency, stepsynth::midi_to_freq(57));
}

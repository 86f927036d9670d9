use stepsynth::midi_to_freq;
use stepsynth::minor_scale;
use stepsynth::note_to_semitone;

#[test]
fn minor_scale_of_c() {
    assert_eq!(minor_scale("c"), vec![0, 2, 3, 5, 7, 8, 10]);
}

#[test]
fn minor_scale_of_g() {
    assert_eq!(minor_scale("g"), vec![7, 9, 10, 12, 14, 15, 17]);
}

#[test]
fn minor_scale_case_insensitive() {
    assert_eq!(minor_scale("G"), minor_scale("g"));
    assert_eq!(minor_scale("Eb"), minor_scale("d#"));
}

#[test]
fn note_names_map_to_semitones() {
    assert_eq!(note_to_semitone("c"), 0);
    assert_eq!(note_to_semitone("c#"), 1);
    assert_eq!(note_to_semitone("db"), 1);
    assert_eq!(note_to_semitone("d"), 2);
    assert_eq!(note_to_semitone("d#"), 3);
    assert_eq!(note_to_semitone("eb"), 3);
    assert_eq!(note_to_semitone("e"), 4);
    assert_eq!(note_to_semitone("f"), 5);
    assert_eq!(note_to_semitone("f#"), 6);
    assert_eq!(note_to_semitone("gb"), 6);
    assert_eq!(note_to_semitone("g"), 7);
    assert_eq!(note_to_semitone("g#"), 8);
    assert_eq!(note_to_semitone("ab"), 8);
    assert_eq!(note_to_semitone("a"), 9);
    assert_eq!(note_to_semitone("a#"), 10);
    assert_eq!(note_to_semitone("bb"), 10);
    assert_eq!(note_to_semitone("b"), 11);
}

#[test]
fn note_names_upper_case() {
    assert_eq!(note_to_semitone("C#"), 1);
    assert_eq!(note_to_semitone("DB"), 1);
    assert_eq!(note_to_semitone("B"), 11);
}

#[test]
fn unknown_note_names_fall_back_to_zero() {
    assert_eq!(note_to_semitone(""), 0);
    assert_eq!(note_to_semitone("x"), 0);
    assert_eq!(note_to_semitone("c##"), 0);
    assert_eq!(note_to_semitone("h"), 0);
}

#[test]
fn concert_a_is_440_hz() {
    assert_eq!(midi_to_freq(69), 440_000);
}

#[test]
fn octave_up_doubles_frequency() {
    assert_eq!(midi_to_freq(81), 880_000);
    assert_eq!(midi_to_freq(57), 220_000);
    for n in 0..119 {
        assert_eq!(midi_to_freq(n + 12), 2 * midi_to_freq(n));
    }
}

#[test]
fn low_notes_have_exact_table_values() {
    // MIDI 43 (G2) and 48 (C3), as the step scenario uses them.
    assert_eq!(midi_to_freq(43), 98_000);
    assert_eq!(midi_to_freq(48), 130_816);
}

#[test]
fn out_of_range_notes_are_clamped() {
    assert_eq!(midi_to_freq(-5), midi_to_freq(0));
    assert_eq!(midi_to_freq(0), 8_176);
    assert_eq!(midi_to_freq(500), midi_to_freq(131));
}

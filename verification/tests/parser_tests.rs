use stepsynth::parse_i32;
use stepsynth::parse_pattern;
use stepsynth::parse_track_line;
use stepsynth::Waveform;

#[test]
fn parse_full_track_line() {
    let t = parse_track_line("n\"0 3 5 7\" .o(4) .s(\"sine\") .trans(5)").unwrap();
    assert_eq!(t.name, "Untitled");
    assert_eq!(t.pattern, vec![0, 3, 5, 7]);
    assert_eq!(t.octave, 4);
    assert_eq!(t.transpose, 5);
    assert_eq!(t.waveform, Waveform::Sine);
    assert_eq!(t.voice_spread, 7);
}

#[test]
fn parse_line_with_rests() {
    let t = parse_track_line("n\"0 0 -1 0\" .o(2) .s(\"sine\")").unwrap();
    assert_eq!(t.pattern, vec![0, 0, -1, 0]);
    assert_eq!(t.octave, 2);
    assert_eq!(t.waveform, Waveform::Sine);
    assert_eq!(t.transpose, 0);
}

#[test]
fn parse_line_without_clauses_keeps_defaults() {
    let t = parse_track_line("garbage").unwrap();
    assert_eq!(t.pattern, vec![0]);
    assert_eq!(t.octave, 3);
    assert_eq!(t.transpose, 0);
    assert_eq!(t.waveform, Waveform::Saw);
}

#[test]
fn parse_unterminated_pattern_keeps_default() {
    let t = parse_track_line("n\"0 3 5").unwrap();
    assert_eq!(t.pattern, vec![0]);
}

#[test]
fn parse_waveform_variants() {
    assert_eq!(parse_track_line("n\"1\" .s(\"square\")").unwrap().waveform, Waveform::Square);
    assert_eq!(parse_track_line("n\"1\" .s(\"triangle\")").unwrap().waveform, Waveform::Triangle);
    assert_eq!(parse_track_line("n\"1\" .s(\"saw\")").unwrap().waveform, Waveform::Saw);
    // Without an .s( clause the waveform stays the default.
    assert_eq!(parse_track_line("n\"1\" sine").unwrap().waveform, Waveform::Saw);
}

#[test]
fn pattern_splits_on_whitespace_and_drops_non_integers() {
    assert_eq!(parse_pattern("0 -1 7x 3"), vec![0, -1, 3]);
    assert_eq!(parse_pattern(""), Vec::<i32>::new());
    assert_eq!(parse_pattern("   "), Vec::<i32>::new());
    assert_eq!(parse_pattern("  12\t -5 "), vec![12, -5]);
    assert_eq!(parse_pattern("+4 --3"), vec![4]);
}

#[test]
fn parse_i32_accepts_signed_decimals() {
    assert_eq!(parse_i32("42"), Some(42));
    assert_eq!(parse_i32("-7"), Some(-7));
    assert_eq!(parse_i32("+3"), Some(3));
    assert_eq!(parse_i32("0"), Some(0));
    assert_eq!(parse_i32("007"), Some(7));
}

#[test]
fn parse_i32_rejects_junk() {
    assert_eq!(parse_i32(""), None);
    assert_eq!(parse_i32("-"), None);
    assert_eq!(parse_i32("+"), None);
    assert_eq!(parse_i32("12a"), None);
    assert_eq!(parse_i32("1 2"), None);
    assert_eq!(parse_i32("3.5"), None);
}

#[test]
fn parse_i32_respects_the_integer_range() {
    assert_eq!(parse_i32("2147483647"), Some(i32::MAX));
    assert_eq!(parse_i32("2147483648"), None);
    assert_eq!(parse_i32("-2147483648"), Some(i32::MIN));
    assert_eq!(parse_i32("-2147483649"), None);
    assert_eq!(parse_i32("99999999999999999999"), None);
}

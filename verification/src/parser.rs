//! The one-line track language: `n"0 3 5 7" .o(3) .trans(5) .s("saw")`.
//!
//! A line holds a quoted pattern of whitespace-separated integers and
//! optional octave, transpose and waveform clauses.  Parsing is forgiving,
//! as the synthesizer wants it: malformed clauses simply leave the track's
//! defaults in place, and a token that is not an integer is dropped from
//! the pattern.

use vstd::prelude::*;
use vstd::string::StrSliceExecFns;
use crate::track::Track;
use crate::voice::Waveform;

verus! {

/// ASCII whitespace, as the pattern splitter understands it.
pub open spec fn spec_is_ws(c: char) -> bool {
    c == ' ' || c == '\t' || c == '\n' || c == '\r' || c == '\u{b}' || c == '\u{c}'
}

pub open spec fn spec_is_digit(c: char) -> bool {
    c == '0' || c == '1' || c == '2' || c == '3' || c == '4' || c == '5' || c == '6' || c == '7'
        || c == '8' || c == '9'
}

pub open spec fn spec_digit_val(c: char) -> int {
    if c == '0' {
        0
    } else if c == '1' {
        1
    } else if c == '2' {
        2
    } else if c == '3' {
        3
    } else if c == '4' {
        4
    } else if c == '5' {
        5
    } else if c == '6' {
        6
    } else if c == '7' {
        7
    } else if c == '8' {
        8
    } else {
        9
    }
}

pub open spec fn spec_all_digits(s: Seq<char>) -> bool {
    forall|i: int| 0 <= i < s.len() ==> spec_is_digit(#[trigger] s[i])
}

/// The number named by a digit string, most significant digit first.
pub open spec fn spec_digits_val(s: Seq<char>) -> int
    decreases s.len(),
{
    if s.len() == 0 {
        0
    } else {
        spec_digits_val(s.drop_last()) * 10 + spec_digit_val(s.last())
    }
}

/// What parsing a signed decimal integer yields: an optional sign, then at
/// least one digit and nothing else, and the value must fit the type —
/// otherwise nothing.
pub open spec fn spec_parse_i32(s: Seq<char>) -> Option<i32> {
    if s.len() == 0 {
        None
    } else {
        let neg = s[0] == '-';
        let body = if s[0] == '-' || s[0] == '+' {
            s.drop_first()
        } else {
            s
        };
        if body.len() == 0 || !spec_all_digits(body) {
            None
        } else {
            let v = if neg {
                -spec_digits_val(body)
            } else {
                spec_digits_val(body)
            };
            if i32::MIN <= v <= i32::MAX {
                Some(v as i32)
            } else {
                None
            }
        }
    }
}

fn char_is_ws(c: char) -> (r: bool)
    ensures
        r == spec_is_ws(c),
{
    c == ' ' || c == '\t' || c == '\n' || c == '\r' || c == '\u{b}' || c == '\u{c}'
}

/// The value of a digit character, or 10 for anything else.
fn digit_of(c: char) -> (r: u32)
    ensures
        spec_is_digit(c) ==> r == spec_digit_val(c),
        !spec_is_digit(c) ==> r == 10,
{
    if c == '0' {
        0
    } else if c == '1' {
        1
    } else if c == '2' {
        2
    } else if c == '3' {
        3
    } else if c == '4' {
        4
    } else if c == '5' {
        5
    } else if c == '6' {
        6
    } else if c == '7' {
        7
    } else if c == '8' {
        8
    } else if c == '9' {
        9
    } else {
        10
    }
}

/// Parses the character range `from .. to` of `s` as a signed decimal
/// integer, exactly as `spec_parse_i32` describes.
#[verifier::loop_isolation(false)]
fn parse_i32_range(s: &str, from: usize, to: usize) -> (r: Option<i32>)
    requires
        from <= to <= s@.len(),
    ensures
        r == spec_parse_i32(s@.subrange(from as int, to as int)),
{
    let ghost sub = s@.subrange(from as int, to as int);
    if from == to {
        return None;
    }
    let first = s.get_char(from);
    let neg = first == '-';
    let signed = first == '-' || first == '+';
    let bs: usize = if signed {
        from + 1
    } else {
        from
    };
    let ghost body = if signed {
        sub.drop_first()
    } else {
        sub
    };
    proof {
        assert(body =~= s@.subrange(bs as int, to as int));
    }
    if bs == to {
        return None;
    }
    let mut i: usize = bs;
    let mut val: u64 = 0;
    let mut big = false;
    while i < to
        invariant
            bs <= i <= to,
            to <= s@.len(),
            body == s@.subrange(bs as int, to as int),
            forall|k: int| bs <= k < i ==> spec_is_digit(#[trigger] s@[k]),
            !big ==> val == spec_digits_val(s@.subrange(bs as int, i as int)) && val <= 0x80000000,
            big ==> spec_digits_val(s@.subrange(bs as int, i as int)) > 0x80000000,
        decreases to - i,
    {
        let c = s.get_char(i);
        let d = digit_of(c);
        if d == 10 {
            proof {
                assert(body[i - bs] == s@[i as int]);
                assert(!spec_is_digit(body[i - bs]));
                assert(!spec_all_digits(body));
            }
            return None;
        }
        proof {
            assert(s@.subrange(bs as int, i as int + 1).drop_last() =~= s@.subrange(
                bs as int,
                i as int,
            ));
            assert(s@.subrange(bs as int, i as int + 1).last() == s@[i as int]);
        }
        if !big {
            val = val * 10 + (d as u64);
            if val > 0x80000000 {
                big = true;
            }
        }
        i = i + 1;
    }
    proof {
        assert(forall|k: int| 0 <= k < body.len() ==> spec_is_digit(#[trigger] body[k]));
        assert(spec_all_digits(body));
    }
    if big {
        return None;
    }
    if neg {
        Some((-(val as i64)) as i32)
    } else {
        if val <= 0x7fffffff {
            Some(val as i32)
        } else {
            None
        }
    }
}

/// Parses a whole string as a signed decimal integer.
pub fn parse_i32(s: &str) -> (r: Option<i32>)
    ensures
        r == spec_parse_i32(s@),
{
    let n = s.unicode_len();
    let r = parse_i32_range(s, 0, n);
    proof {
        assert(s@.subrange(0, s@.len() as int) =~= s@);
    }
    r
}

/// Index of the first whitespace character at or after `from`, or the
/// string's length if there is none.
pub open spec fn spec_first_ws(s: Seq<char>, from: int) -> int
    decreases s.len() - from,
{
    if from >= s.len() {
        s.len() as int
    } else if spec_is_ws(s[from]) {
        from
    } else {
        spec_first_ws(s, from + 1)
    }
}

proof fn lemma_first_ws_bounds(s: Seq<char>, from: int)
    requires
        from <= s.len(),
    ensures
        from <= spec_first_ws(s, from) <= s.len(),
    decreases s.len() - from,
{
    if from < s.len() && !spec_is_ws(s[from]) {
        lemma_first_ws_bounds(s, from + 1);
    }
}

/// The integers named by the whitespace-separated tokens from `from` on;
/// a token that is not an integer contributes nothing.
pub open spec fn spec_pattern_values(s: Seq<char>, from: int) -> Seq<i32>
    decreases s.len() - from,
        via spec_pattern_values_decreases
{
    if from >= s.len() {
        Seq::empty()
    } else if spec_is_ws(s[from]) {
        spec_pattern_values(s, from + 1)
    } else {
        let end = spec_first_ws(s, from);
        let rest = spec_pattern_values(s, end);
        match spec_parse_i32(s.subrange(from, end)) {
            Some(v) => seq![v] + rest,
            None => rest,
        }
    }
}

#[via_fn]
proof fn spec_pattern_values_decreases(s: Seq<char>, from: int) {
    if from < s.len() && !spec_is_ws(s[from]) {
        lemma_first_ws_bounds(s, from + 1);
        assert(spec_first_ws(s, from) == spec_first_ws(s, from + 1));
    }
}

/// Justifies the token scan: a run of non-whitespace from `from` up to a
/// whitespace character (or the end) is exactly what `spec_first_ws` names.
proof fn lemma_first_ws_at(s: Seq<char>, from: int, j: int)
    requires
        0 <= from <= j <= s.len(),
        forall|k: int| from <= k < j ==> !spec_is_ws(#[trigger] s[k]),
        j == s.len() || spec_is_ws(s[j]),
    ensures
        spec_first_ws(s, from) == j,
    decreases j - from,
{
    if from < j {
        lemma_first_ws_at(s, from + 1, j);
    }
}

/// Splits the string on whitespace and keeps every token that parses as an
/// integer, in order.
#[verifier::loop_isolation(false)]
pub fn parse_pattern(s: &str) -> (r: Vec<i32>)
    ensures
        r@ == spec_pattern_values(s@, 0),
{
    let n = s.unicode_len();
    let mut out: Vec<i32> = Vec::new();
    let mut i: usize = 0;
    proof {
        assert(out@ + spec_pattern_values(s@, 0) =~= spec_pattern_values(s@, 0));
    }
    while i < n
        invariant
            i <= n,
            n == s@.len(),
            out@ + spec_pattern_values(s@, i as int) == spec_pattern_values(s@, 0),
        decreases n - i,
    {
        let c = s.get_char(i);
        if char_is_ws(c) {
            i = i + 1;
        } else {
            let mut j: usize = i + 1;
            while j < n && !char_is_ws(s.get_char(j))
                invariant
                    i < j <= n,
                    n == s@.len(),
                    forall|k: int| i <= k < j ==> !spec_is_ws(#[trigger] s@[k]),
                decreases n - j,
            {
                j = j + 1;
            }
            proof {
                lemma_first_ws_at(s@, i as int, j as int);
            }
            let ghost prev = out@;
            match parse_i32_range(s, i, j) {
                Some(v) => {
                    out.push(v);
                    proof {
                        assert(out@ + spec_pattern_values(s@, j as int) =~= prev + (seq![v]
                            + spec_pattern_values(s@, j as int)));
                    }
                },
                None => {},
            }
            i = j;
        }
    }
    proof {
        assert(spec_pattern_values(s@, n as int) =~= Seq::<i32>::empty());
        assert(out@ + Seq::<i32>::empty() =~= out@);
    }
    out
}

/// Whether `pat` occurs in `s` starting at position `i`.
pub open spec fn spec_matches_at(s: Seq<char>, pat: Seq<char>, i: int) -> bool {
    &&& 0 <= i
    &&& i + pat.len() <= s.len()
    &&& s.subrange(i, i + pat.len()) == pat
}

/// The first occurrence of `pat` in `s` at or after `from`, if any.
pub open spec fn spec_find_from(s: Seq<char>, pat: Seq<char>, from: int) -> Option<int>
    decreases s.len() + 1 - from,
{
    if from + pat.len() > s.len() {
        None
    } else if spec_matches_at(s, pat, from) {
        Some(from)
    } else {
        spec_find_from(s, pat, from + 1)
    }
}

pub proof fn lemma_find_from_first(s: Seq<char>, pat: Seq<char>, from: int)
    requires
        0 <= from,
    ensures
        match spec_find_from(s, pat, from) {
            Some(i) => from <= i && i + pat.len() <= s.len() && spec_matches_at(s, pat, i),
            None => true,
        },
    decreases s.len() + 1 - from,
{
    if from + pat.len() <= s.len() && !spec_matches_at(s, pat, from) {
        lemma_find_from_first(s, pat, from + 1);
    }
}

#[verifier::loop_isolation(false)]
fn match_at(s: &str, pat: &str, i: usize) -> (b: bool)
    requires
        i + pat@.len() <= s@.len(),
    ensures
        b == spec_matches_at(s@, pat@, i as int),
{
    let slen = s.unicode_len();
    let plen = pat.unicode_len();
    let mut j: usize = 0;
    while j < plen
        invariant
            j <= plen,
            plen == pat@.len(),
            slen == s@.len(),
            i + plen <= slen,
            forall|k: int| 0 <= k < j ==> s@[i + k] == pat@[k],
        decreases plen - j,
    {
        if s.get_char(i + j) != pat.get_char(j) {
            proof {
                assert(s@.subrange(i as int, i as int + pat@.len() as int)[j as int] == s@[i as int
                    + j]);
            }
            return false;
        }
        j = j + 1;
    }
    proof {
        assert(s@.subrange(i as int, i as int + pat@.len() as int) =~= pat@);
    }
    true
}

/// The first occurrence of `pat` in `s` at or after `from`, scanning
/// position by position.
#[verifier::loop_isolation(false)]
pub fn find_from(s: &str, pat: &str, from: usize) -> (r: Option<usize>)
    requires
        from <= s@.len(),
    ensures
        match spec_find_from(s@, pat@, from as int) {
            Some(i) => r == Some(i as usize),
            None => r is None,
        },
{
    let slen = s.unicode_len();
    let plen = pat.unicode_len();
    if plen > slen {
        return None;
    }
    if plen == 0 {
        proof {
            assert(s@.subrange(from as int, from as int) =~= pat@);
        }
        return Some(from);
    }
    if from > slen - plen {
        return None;
    }
    let mut i: usize = from;
    while i <= slen - plen
        invariant
            from <= i,
            plen <= slen,
            slen == s@.len(),
            plen == pat@.len(),
            i <= slen - plen + 1,
            spec_find_from(s@, pat@, from as int) == spec_find_from(s@, pat@, i as int),
        decreases slen - i,
    {
        if match_at(s, pat, i) {
            return Some(i);
        }
        i = i + 1;
    }
    None
}

/// The pattern named by a line: the integers inside the first `n"..."`
/// group, or the default one-step pattern when the group is absent or
/// unterminated.
pub open spec fn spec_pattern_field(line: Seq<char>) -> Seq<i32> {
    match spec_find_from(line, "n\""@, 0) {
        Some(start) => match spec_find_from(line, "\""@, start + 2) {
            Some(endq) => spec_pattern_values(line.subrange(start + 2, endq), 0),
            None => seq![0i32],
        },
        None => seq![0i32],
    }
}

/// The integer named by a clause such as `.o(3)`: the characters between
/// the clause opener (`pat`, of length `skip`) and the next `)`, or the
/// default when the clause is absent, unclosed, or not an integer.
pub open spec fn spec_num_field(line: Seq<char>, pat: Seq<char>, skip: int, dflt: int) -> int {
    match spec_find_from(line, pat, 0) {
        Some(open) => match spec_find_from(line, ")"@, open) {
            Some(close) => if open + skip <= close {
                match spec_parse_i32(line.subrange(open + skip, close)) {
                    Some(v) => v as int,
                    None => dflt,
                }
            } else {
                dflt
            },
            None => dflt,
        },
        None => dflt,
    }
}

pub open spec fn spec_contains(s: Seq<char>, pat: Seq<char>) -> bool {
    spec_find_from(s, pat, 0) is Some
}

/// The waveform named by a line with an `.s(` clause: the first of saw,
/// sine, square, triangle whose name occurs anywhere in the line, or the
/// default saw.
pub open spec fn spec_wave_field(line: Seq<char>) -> Waveform {
    if spec_contains(line, ".s("@) {
        if spec_contains(line, "saw"@) {
            Waveform::Saw
        } else if spec_contains(line, "sine"@) {
            Waveform::Sine
        } else if spec_contains(line, "square"@) {
            Waveform::Square
        } else if spec_contains(line, "triangle"@) {
            Waveform::Triangle
        } else {
            Waveform::Saw
        }
    } else {
        Waveform::Saw
    }
}

/// Parses one line of the track language onto a fresh default track.
/// Every clause is optional and a malformed clause leaves its default in
/// place, so a track always comes back.
pub fn parse_track_line(line: &str) -> (r: Option<Track>)
    ensures
        r is Some,
        r.unwrap().name@ == "Untitled"@,
        r.unwrap().pattern@ == spec_pattern_field(line@),
        r.unwrap().octave == spec_num_field(line@, ".o("@, 3, 3),
        r.unwrap().transpose == spec_num_field(line@, ".trans("@, 7, 0),
        r.unwrap().waveform == spec_wave_field(line@),
        r.unwrap().voice_spread == 7,
{
    let _total = line.unicode_len();
    let mut track = Track::new("Untitled");
    proof {
        assert(track.pattern@ =~= seq![0i32]);
    }

    // Pattern group: n"0 3 5 7"
    match find_from(line, "n\"", 0) {
        Some(start) => {
            proof {
                reveal_strlit("n\"");
                lemma_find_from_first(line@, "n\""@, 0);
            }
            match find_from(line, "\"", start + 2) {
                Some(endq) => {
                    proof {
                        reveal_strlit("\"");
                        lemma_find_from_first(line@, "\""@, start as int + 2);
                    }
                    let inside = line.substring_char(start + 2, endq);
                    track.pattern = parse_pattern(inside);
                },
                None => {},
            }
        },
        None => {},
    }

    // Octave clause: .o(3)
    match find_from(line, ".o(", 0) {
        Some(open) => {
            proof {
                reveal_strlit(".o(");
                lemma_find_from_first(line@, ".o("@, 0);
            }
            match find_from(line, ")", open) {
                Some(close) => {
                    proof {
                        reveal_strlit(")");
                        lemma_find_from_first(line@, ")"@, open as int);
                    }
                    if open + 3 <= close {
                        match parse_i32_range(line, open + 3, close) {
                            Some(v) => {
                                track.octave = v;
                            },
                            None => {},
                        }
                    }
                },
                None => {},
            }
        },
        None => {},
    }

    // Transpose clause: .trans(5)
    match find_from(line, ".trans(", 0) {
        Some(open) => {
            proof {
                reveal_strlit(".trans(");
                lemma_find_from_first(line@, ".trans("@, 0);
            }
            match find_from(line, ")", open) {
                Some(close) => {
                    proof {
                        reveal_strlit(")");
                        lemma_find_from_first(line@, ")"@, open as int);
                    }
                    if open + 7 <= close {
                        match parse_i32_range(line, open + 7, close) {
                            Some(v) => {
                                track.transpose = v;
                            },
                            None => {},
                        }
                    }
                },
                None => {},
            }
        },
        None => {},
    }

    // Waveform clause: .s("saw")
    if find_from(line, ".s(", 0).is_some() {
        if find_from(line, "saw", 0).is_some() {
            track.waveform = Waveform::Saw;
        } else if find_from(line, "sine", 0).is_some() {
            track.waveform = Waveform::Sine;
        } else if find_from(line, "square", 0).is_some() {
            track.waveform = Waveform::Square;
        } else if find_from(line, "triangle", 0).is_some() {
            track.waveform = Waveform::Triangle;
        }
    }

    Some(track)
}

} // verus!

//! Musical pitch mapping: note names to semitones, semitones to frequency.
//!
//! Frequencies are fixed-point integers in millihertz.  The equal-tempered
//! mapping `440 * 2^((n - 69) / 12)` Hz is realised by a table of the twelve
//! lowest semitone frequencies (MIDI notes 0 to 11, rounded to the nearest
//! millihertz) shifted up by whole octaves, so that going up an octave doubles
//! the frequency exactly.

use vstd::prelude::*;
use vstd::string::StrSliceExecFns;

verus! {

/// Largest MIDI note number the mapping represents: eleven full octaves,
/// covering the whole MIDI range 0..=127 with headroom.  Notes outside
/// `0 ..= MIDI_MAX` are clamped to the nearest end.
pub const MIDI_MAX: i64 = 131;

/// Frequency of MIDI note 69 (concert A), in millihertz.
pub const CONCERT_A_MILLIHZ: u64 = 440000;

pub open spec fn spec_pow2(e: nat) -> nat
    decreases e,
{
    if e == 0 {
        1
    } else {
        2 * spec_pow2((e - 1) as nat)
    }
}

/// Frequency in millihertz of MIDI notes 0 to 11: `440000 * 2^((s - 69)/12)`
/// rounded to the nearest integer.
pub open spec fn spec_base_millihz(s: int) -> int {
    if s == 0 {
        8176
    } else if s == 1 {
        8662
    } else if s == 2 {
        9177
    } else if s == 3 {
        9723
    } else if s == 4 {
        10301
    } else if s == 5 {
        10913
    } else if s == 6 {
        11562
    } else if s == 7 {
        12250
    } else if s == 8 {
        12978
    } else if s == 9 {
        13750
    } else if s == 10 {
        14568
    } else {
        15434
    }
}

pub open spec fn spec_midi_clamp(n: int) -> int {
    if n < 0 {
        0
    } else if n > MIDI_MAX {
        MIDI_MAX as int
    } else {
        n
    }
}

/// The frequency, in millihertz, assigned to MIDI note `n` (clamped to
/// `0 ..= MIDI_MAX`): the base semitone frequency shifted up by the octave.
pub open spec fn spec_midi_to_freq(n: int) -> int {
    let k = spec_midi_clamp(n);
    spec_base_millihz(k % 12) * spec_pow2((k / 12) as nat)
}

/// Equal-tempered pitch mapping, A4 = 440 Hz at MIDI note 69, in
/// millihertz.
///
/// A note outside `0 ..= MIDI_MAX` — reachable through large octave or
/// transpose settings — is clamped to the nearest end and plays that
/// boundary pitch.  This is the engine's usual silent normalization of
/// out-of-range input: a wrong note is preferred to a failure on the
/// audio path.  The cost is that relations between notes (octave
/// doubling, monotonicity) hold only inside the represented range; no
/// finite fixed-point range could carry them everywhere.
pub fn midi_to_freq(n: i64) -> (r: u64)
    ensures
        r == spec_midi_to_freq(n as int),
        r <= 15804416,
{
    let k: i64 = if n < 0 {
        0
    } else if n > MIDI_MAX {
        MIDI_MAX
    } else {
        n
    };
    let ku: u32 = k as u32;
    let s: u32 = ku % 12;
    let oct: u32 = ku / 12;
    let base: u64 = if s == 0 {
        8176
    } else if s == 1 {
        8662
    } else if s == 2 {
        9177
    } else if s == 3 {
        9723
    } else if s == 4 {
        10301
    } else if s == 5 {
        10913
    } else if s == 6 {
        11562
    } else if s == 7 {
        12250
    } else if s == 8 {
        12978
    } else if s == 9 {
        13750
    } else if s == 10 {
        14568
    } else {
        15434
    };
    let mult: u64 = if oct == 0 {
        1
    } else if oct == 1 {
        2
    } else if oct == 2 {
        4
    } else if oct == 3 {
        8
    } else if oct == 4 {
        16
    } else if oct == 5 {
        32
    } else if oct == 6 {
        64
    } else if oct == 7 {
        128
    } else if oct == 8 {
        256
    } else if oct == 9 {
        512
    } else {
        1024
    };
    proof {
        reveal_with_fuel(spec_pow2, 12);
        assert(oct == (spec_midi_clamp(n as int) / 12) as nat);
        assert(mult == spec_pow2((spec_midi_clamp(n as int) / 12) as nat));
    }
    base * mult
}

/// The mapping stays within the audible-and-then-some band: nonnegative and
/// at most the top supported note's frequency.
pub proof fn lemma_midi_freq_bounds(n: int)
    ensures
        0 <= spec_midi_to_freq(n) <= 15804416,
{
    reveal_with_fuel(spec_pow2, 12);
    let k = spec_midi_clamp(n);
    let e = k / 12;
    assert(0 <= e <= 10);
    let p = spec_pow2(e as nat) as int;
    assert(p <= 1024) by {
        if e == 0 {
        } else if e == 1 {
        } else if e == 2 {
        } else if e == 3 {
        } else if e == 4 {
        } else if e == 5 {
        } else if e == 6 {
        } else if e == 7 {
        } else if e == 8 {
        } else if e == 9 {
        } else {
            assert(e == 10);
        }
    }
    let b = spec_base_millihz(k % 12);
    assert(0 <= b <= 15434);
    vstd::arithmetic::mul::lemma_mul_nonnegative(b, p);
    vstd::arithmetic::mul::lemma_mul_upper_bound(b, 15434, p, 1024);
}

/// Going up one octave doubles the frequency exactly, throughout the
/// represented range.  Outside it the mapping clamps, so at the range's
/// ends the relation ends with it: the requires bounds name exactly the
/// notes for which both pitches are represented.
pub proof fn lemma_octave_up_doubles(n: int)
    requires
        0 <= n,
        n + 12 <= MIDI_MAX,
    ensures
        spec_midi_to_freq(n + 12) == 2 * spec_midi_to_freq(n),
{
    vstd::arithmetic::div_mod::lemma_mod_add_multiples_vanish(n, 12);
    vstd::arithmetic::div_mod::lemma_div_plus_one(n, 12);
    assert((n + 12) % 12 == n % 12);
    assert((n + 12) / 12 == n / 12 + 1);
    let b = spec_base_millihz(n % 12);
    let p = spec_pow2((n / 12) as nat);
    assert(spec_pow2((n / 12 + 1) as nat) == 2 * p);
    assert(b * (2 * p) == 2 * (b * p)) by (nonlinear_arith);
}

/// Lower-case letter for the upper-case note letters; other characters are
/// left alone.
pub open spec fn spec_lower(c: char) -> char {
    if c == 'A' {
        'a'
    } else if c == 'B' {
        'b'
    } else if c == 'C' {
        'c'
    } else if c == 'D' {
        'd'
    } else if c == 'E' {
        'e'
    } else if c == 'F' {
        'f'
    } else if c == 'G' {
        'g'
    } else {
        c
    }
}

/// Semitone offset, 0 to 11 relative to C, of a case-insensitive note name.
/// Sharp and flat spellings are both accepted ("c#" and "db" are 1);
/// anything unrecognized falls back to 0.
pub open spec fn spec_note_to_semitone(s: Seq<char>) -> int {
    if s.len() == 1 {
        let c = spec_lower(s[0]);
        if c == 'c' {
            0
        } else if c == 'd' {
            2
        } else if c == 'e' {
            4
        } else if c == 'f' {
            5
        } else if c == 'g' {
            7
        } else if c == 'a' {
            9
        } else if c == 'b' {
            11
        } else {
            0
        }
    } else if s.len() == 2 {
        let c0 = spec_lower(s[0]);
        let c1 = spec_lower(s[1]);
        if c1 == '#' {
            if c0 == 'c' {
                1
            } else if c0 == 'd' {
                3
            } else if c0 == 'f' {
                6
            } else if c0 == 'g' {
                8
            } else if c0 == 'a' {
                10
            } else {
                0
            }
        } else if c1 == 'b' {
            if c0 == 'd' {
                1
            } else if c0 == 'e' {
                3
            } else if c0 == 'g' {
                6
            } else if c0 == 'a' {
                8
            } else if c0 == 'b' {
                10
            } else {
                0
            }
        } else {
            0
        }
    } else {
        0
    }
}

fn lower(c: char) -> (r: char)
    ensures
        r == spec_lower(c),
{
    if c == 'A' {
        'a'
    } else if c == 'B' {
        'b'
    } else if c == 'C' {
        'c'
    } else if c == 'D' {
        'd'
    } else if c == 'E' {
        'e'
    } else if c == 'F' {
        'f'
    } else if c == 'G' {
        'g'
    } else {
        c
    }
}

/// Maps a case-insensitive note name to its semitone offset from C
/// (0 to 11); unrecognized input maps to 0 rather than failing.
pub fn note_to_semitone(name: &str) -> (r: i32)
    ensures
        r == spec_note_to_semitone(name@),
        0 <= r <= 11,
{
    let n = name.unicode_len();
    if n == 1 {
        let c = lower(name.get_char(0));
        if c == 'c' {
            0
        } else if c == 'd' {
            2
        } else if c == 'e' {
            4
        } else if c == 'f' {
            5
        } else if c == 'g' {
            7
        } else if c == 'a' {
            9
        } else if c == 'b' {
            11
        } else {
            0
        }
    } else if n == 2 {
        let c0 = lower(name.get_char(0));
        let c1 = lower(name.get_char(1));
        if c1 == '#' {
            if c0 == 'c' {
                1
            } else if c0 == 'd' {
                3
            } else if c0 == 'f' {
                6
            } else if c0 == 'g' {
                8
            } else if c0 == 'a' {
                10
            } else {
                0
            }
        } else if c1 == 'b' {
            if c0 == 'd' {
                1
            } else if c0 == 'e' {
                3
            } else if c0 == 'g' {
                6
            } else if c0 == 'a' {
                8
            } else if c0 == 'b' {
                10
            } else {
                0
            }
        } else {
            0
        }
    } else {
        0
    }
}

/// Interval pattern of the natural minor scale, in semitones from the root.
pub open spec fn spec_minor_interval(i: int) -> int {
    if i == 0 {
        0
    } else if i == 1 {
        2
    } else if i == 2 {
        3
    } else if i == 3 {
        5
    } else if i == 4 {
        7
    } else if i == 5 {
        8
    } else {
        10
    }
}

/// The natural minor scale rooted at the given note name: the seven
/// interval offsets {0,2,3,5,7,8,10} each raised by the root's semitone.
pub fn minor_scale(root: &str) -> (r: Vec<i32>)
    ensures
        r@.len() == 7,
        forall|i: int|
            0 <= i < 7 ==> r@[i] == spec_minor_interval(i) + spec_note_to_semitone(root@),
{
    let root_semitone = note_to_semitone(root);
    let mut r: Vec<i32> = Vec::new();
    r.push(root_semitone);
    r.push(root_semitone + 2);
    r.push(root_semitone + 3);
    r.push(root_semitone + 5);
    r.push(root_semitone + 7);
    r.push(root_semitone + 8);
    r.push(root_semitone + 10);
    r
}

} // verus!

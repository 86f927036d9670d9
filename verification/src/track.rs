//! A named musical part: a pattern of scale-degree steps plus the tone
//! parameters its voices are triggered with.

use vstd::prelude::*;
use vstd::string::StrSliceExecFns;
use crate::voice::Waveform;

verus! {

/// Character-for-character string comparison.
pub fn str_eq(a: &str, b: &str) -> (r: bool)
    ensures
        r == (a@ == b@),
{
    let la = a.unicode_len();
    let lb = b.unicode_len();
    if la != lb {
        return false;
    }
    let mut i: usize = 0;
    while i < la
        invariant
            i <= la,
            la == a@.len(),
            la == b@.len(),
            forall|k: int| 0 <= k < i ==> a@[k] == b@[k],
        decreases la - i,
    {
        if a.get_char(i) != b.get_char(i) {
            return false;
        }
        i = i + 1;
    }
    proof {
        assert(a@ =~= b@);
    }
    true
}

/// Scale-degree steps below zero stand for a rest: the step triggers
/// nothing and the track's voices keep their state.
pub struct Track {
    /// Key of the track within a sequencer; uniqueness is the editing
    /// caller's business, not enforced here.
    pub name: String,
    /// Scale-degree indices; a negative entry is a rest.
    pub pattern: Vec<i32>,
    /// Octave offset: each octave raises the note by twelve semitones.
    pub octave: i32,
    /// Transpose offset in semitones.
    pub transpose: i32,
    /// Waveform applied to all of this track's voices.
    pub waveform: Waveform,
    /// Semitone interval stacking additional voices above the base note.
    pub voice_spread: i32,
}

/// Copies a vector of steps element by element.
pub fn copy_pattern(v: &Vec<i32>) -> (r: Vec<i32>)
    ensures
        r@ == v@,
{
    let mut r: Vec<i32> = Vec::new();
    let mut i: usize = 0;
    while i < v.len()
        invariant
            i <= v.len(),
            r@ == v@.subrange(0, i as int),
        decreases v.len() - i,
    {
        r.push(v[i]);
        i = i + 1;
        proof {
            assert(r@ =~= v@.subrange(0, i as int));
        }
    }
    proof {
        assert(v@.subrange(0, v@.len() as int) =~= v@);
    }
    r
}

impl Track {
    /// A fresh track: a one-step pattern of degree zero, octave 3, no
    /// transpose, saw wave, voices stacked in fifths.
    pub fn new(name: &str) -> (t: Track)
        ensures
            t.name@ == name@,
            t.pattern@ == seq![0i32],
            t.octave == 3,
            t.transpose == 0,
            t.waveform == Waveform::Saw,
            t.voice_spread == 7,
    {
        let mut pattern: Vec<i32> = Vec::new();
        pattern.push(0);
        proof {
            assert(pattern@ =~= seq![0i32]);
        }
        Track {
            name: name.to_owned(),
            pattern,
            octave: 3,
            transpose: 0,
            waveform: Waveform::Saw,
            voice_spread: 7,
        }
    }

    /// A field-for-field copy of the track.
    pub fn duplicate(&self) -> (r: Track)
        ensures
            r.name@ == self.name@,
            r.pattern@ == self.pattern@,
            r.octave == self.octave,
            r.transpose == self.transpose,
            r.waveform == self.waveform,
            r.voice_spread == self.voice_spread,
    {
        Track {
            name: self.name.clone(),
            pattern: copy_pattern(&self.pattern),
            octave: self.octave,
            transpose: self.transpose,
            waveform: self.waveform,
            voice_spread: self.voice_spread,
        }
    }
}

} // verus!

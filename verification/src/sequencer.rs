//! The step clock and mixer: an ordered set of tracks, each bound to a
//! fixed stack of voices, driven one output sample at a time.
//!
//! `process` advances a sample counter; when the counter crosses the step
//! length the step index advances (modulo the longest pattern) and every
//! track with a playable step pushes frequency, waveform and an envelope
//! reset into its voices.  Every voice then renders one sample and the mean
//! of all of them is the output.  Edge cases degrade silently — an empty
//! pattern, an empty scale or a rest step simply triggers nothing — so the
//! audio path never fails.

use vstd::prelude::*;
use crate::pitch::midi_to_freq;
use crate::pitch::minor_scale;
use crate::pitch::spec_midi_to_freq;
use crate::pitch::spec_note_to_semitone;
use crate::track::Track;
use crate::track::copy_pattern;
use crate::track::str_eq;
use crate::voice::MAX_SAMPLE_RATE;
use crate::voice::Voice;
use crate::voice::Waveform;
use crate::voice::spec_default_voice;
use crate::voice::spec_voice_after;
use crate::voice::spec_voice_sample;
use crate::voice::voice_wf;

verus! {

/// Most tracks a sequencer will hold; adding beyond the cap is ignored so
/// that the mixing sum stays comfortably inside machine integers.
pub const MAX_TRACKS: usize = 1048576;

/// Cap on the voices a single track's stack may hold.
pub const MAX_VOICES_PER_TRACK: usize = 16;

/// Voices allocated to each track: base note plus two spread notes.
pub const VOICES_PER_TRACK: usize = 3;

/// Tempo-independent description of a whole arrangement: what a sequencer
/// needs to be rebuilt, with the tempo in beats per minute.
pub struct ProjectData {
    pub tracks: Vec<Track>,
    pub scale: Vec<i32>,
    pub bpm: u32,
}

pub struct Sequencer {
    /// The tracks, in insertion order.
    pub tracks: Vec<Track>,
    /// Semitone offsets that scale degrees index into.
    pub scale: Vec<i32>,
    /// One voice stack per track, index-aligned with `tracks`.
    pub voices: Vec<Vec<Voice>>,
    /// Samples per second, fixed for the engine's lifetime.
    pub sample_rate: u32,
    /// Index into the step timeline.
    pub step: usize,
    /// Samples in one musical step.
    pub samples_per_step: usize,
    /// Samples elapsed since the last step boundary.
    pub sample_counter: usize,
}

pub open spec fn seq_wf(s: Sequencer) -> bool {
    &&& s.voices@.len() == s.tracks@.len()
    &&& s.tracks@.len() <= MAX_TRACKS
    &&& forall|i: int|
        0 <= i < s.voices@.len() ==> (#[trigger] s.voices@[i])@.len() <= MAX_VOICES_PER_TRACK
    &&& forall|i: int, j: int|
        0 <= i < s.voices@.len() && 0 <= j < s.voices@[i]@.len() ==> voice_wf(
            #[trigger] s.voices@[i]@[j],
        )
    &&& 1 <= s.sample_rate <= MAX_SAMPLE_RATE
    &&& 1 <= s.samples_per_step
    &&& s.sample_counter < s.samples_per_step
    &&& s.step < usize::MAX
}

/// Longest pattern over all tracks; zero when there are no patterns at all.
pub open spec fn spec_max_pattern_len(tracks: Seq<Track>) -> int
    decreases tracks.len(),
{
    if tracks.len() == 0 {
        0
    } else {
        let rest = spec_max_pattern_len(tracks.drop_last());
        let last = tracks.last().pattern@.len() as int;
        if last > rest {
            last
        } else {
            rest
        }
    }
}

/// The modulus the step index advances under: the longest pattern, with a
/// floor of one so stepping is always defined.
pub open spec fn spec_step_modulus(tracks: Seq<Track>) -> int {
    if spec_max_pattern_len(tracks) == 0 {
        1
    } else {
        spec_max_pattern_len(tracks)
    }
}

/// Whether a track sounds at the given step: it needs a pattern step to
/// read, a scale to map the degree through, and the step must not be a rest.
pub open spec fn spec_track_triggers(t: Track, scale: Seq<i32>, step: int) -> bool {
    &&& t.pattern@.len() > 0
    &&& scale.len() > 0
    &&& t.pattern@[step % (t.pattern@.len() as int)] >= 0
}

/// The MIDI note a triggering track plays at the given step: the scale
/// entry for the degree, transposed and shifted by octaves.
pub open spec fn spec_midi_base(t: Track, scale: Seq<i32>, step: int) -> int {
    let note = t.pattern@[step % (t.pattern@.len() as int)] as int;
    scale[note % (scale.len() as int)] + t.transpose + t.octave * 12
}

/// What a trigger does to the voice at stack position `vi`: new frequency
/// (spread upward per position), the track's waveform, envelope restarted.
/// Phase and the other parameters are left alone.
pub open spec fn spec_triggered_voice(v: Voice, t: Track, scale: Seq<i32>, step: int, vi: int) -> Voice {
    Voice {
        frequency: spec_midi_to_freq(spec_midi_base(t, scale, step) + vi * t.voice_spread) as u64,
        waveform: t.waveform,
        env_phase: 0,
        ..v
    }
}

/// The voice stacks as a sequence of sequences.
pub open spec fn grid_view(voices: Seq<Vec<Voice>>) -> Seq<Seq<Voice>> {
    voices.map_values(|stack: Vec<Voice>| stack@)
}

/// Whether the next `process` call crosses a step boundary.
pub open spec fn spec_boundary(s: Sequencer) -> bool {
    s.sample_counter + 1 >= s.samples_per_step
}

/// The step index in force while the next sample is rendered.
pub open spec fn spec_next_step(s: Sequencer) -> int {
    if spec_boundary(s) {
        (s.step + 1) % spec_step_modulus(s.tracks@)
    } else {
        s.step as int
    }
}

/// The voice at stack slot `(ti, vi)` after the step clock has acted and
/// before the sample is rendered: re-triggered at a boundary when its track
/// sounds, untouched otherwise.
pub open spec fn spec_mid_voice(s: Sequencer, ti: int, vi: int) -> Voice {
    let v = s.voices@[ti]@[vi];
    if spec_boundary(s) && ti < s.tracks@.len() && spec_track_triggers(
        s.tracks@[ti],
        s.scale@,
        spec_next_step(s),
    ) {
        spec_triggered_voice(v, s.tracks@[ti], s.scale@, spec_next_step(s), vi)
    } else {
        v
    }
}

/// All voices after the step clock has acted, before rendering.
pub open spec fn spec_mid_grid(s: Sequencer) -> Seq<Seq<Voice>> {
    Seq::new(
        s.voices@.len(),
        |ti: int| Seq::new(s.voices@[ti]@.len(), |vi: int| spec_mid_voice(s, ti, vi)),
    )
}

/// Every voice advanced by one rendered sample.
pub open spec fn spec_advance_grid(g: Seq<Seq<Voice>>, sr: int) -> Seq<Seq<Voice>> {
    g.map_values(|row: Seq<Voice>| row.map_values(|v: Voice| spec_voice_after(v, sr)))
}

pub open spec fn spec_row_sum(row: Seq<Voice>, sr: int) -> int
    decreases row.len(),
{
    if row.len() == 0 {
        0
    } else {
        spec_row_sum(row.drop_last(), sr) + spec_voice_sample(row.last(), sr)
    }
}

pub open spec fn spec_grid_sum(g: Seq<Seq<Voice>>, sr: int) -> int
    decreases g.len(),
{
    if g.len() == 0 {
        0
    } else {
        spec_grid_sum(g.drop_last(), sr) + spec_row_sum(g.last(), sr)
    }
}

pub open spec fn spec_grid_count(g: Seq<Seq<Voice>>) -> int
    decreases g.len(),
{
    if g.len() == 0 {
        0
    } else {
        spec_grid_count(g.drop_last()) + g.last().len()
    }
}

/// Signed division rounding toward zero, over a positive divisor.
pub open spec fn spec_sdiv(x: int, d: int) -> int {
    if x >= 0 {
        x / d
    } else {
        -((-x) / d)
    }
}

/// The mixed output: the straight average of every voice's sample, or zero
/// when there are no voices at all.
pub open spec fn spec_mix(g: Seq<Seq<Voice>>, sr: int) -> int {
    if spec_grid_count(g) == 0 {
        0
    } else {
        spec_sdiv(spec_grid_sum(g, sr), spec_grid_count(g))
    }
}

/// Mixing a single voice passes its sample straight through: the average
/// over one voice is that voice's output.
pub proof fn lemma_mix_single_voice(g: Seq<Seq<Voice>>, sr: int)
    requires
        g.len() == 1,
        g[0].len() == 1,
    ensures
        spec_mix(g, sr) == spec_voice_sample(g[0][0], sr),
{
    assert(g.drop_last().len() == 0);
    assert(spec_grid_count(g.drop_last()) == 0);
    assert(spec_grid_sum(g.drop_last(), sr) == 0);
    assert(g.last() == g[0]);
    assert(g[0].drop_last().len() == 0);
    assert(spec_row_sum(g[0].drop_last(), sr) == 0);
    assert(g[0].last() == g[0][0]);
    assert(spec_grid_count(g) == 1);
    assert(spec_row_sum(g[0], sr) == spec_voice_sample(g[0][0], sr));
    assert(spec_grid_sum(g, sr) == spec_voice_sample(g[0][0], sr));
}

/// A rest (or an empty pattern, or an empty scale) leaves a track's voices
/// untouched by the step trigger: the frequency survives the sample and
/// the envelope clock advances instead of restarting.
pub proof fn lemma_rest_leaves_voices(s: Sequencer, ti: int, vi: int)
    requires
        seq_wf(s),
        0 <= ti < s.voices@.len(),
        0 <= vi < s.voices@[ti]@.len(),
        !spec_track_triggers(s.tracks@[ti], s.scale@, spec_next_step(s)),
    ensures
        spec_mid_grid(s)[ti][vi] == s.voices@[ti]@[vi],
        spec_advance_grid(spec_mid_grid(s), s.sample_rate as int)[ti][vi].frequency
            == s.voices@[ti]@[vi].frequency,
        spec_advance_grid(spec_mid_grid(s), s.sample_rate as int)[ti][vi].env_phase == (if s.voices@[ti]@[vi].env_phase
            < u64::MAX {
            s.voices@[ti]@[vi].env_phase + 1
        } else {
            u64::MAX as int
        }),
{
    assert(spec_mid_grid(s)[ti][vi] == spec_mid_voice(s, ti, vi));
}

/// First track with the given name, if any.
pub open spec fn spec_find_track(tracks: Seq<Track>, name: Seq<char>) -> Option<int>
    decreases tracks.len(),
{
    if tracks.len() == 0 {
        None
    } else if tracks[0].name@ == name {
        Some(0int)
    } else {
        match spec_find_track(tracks.drop_first(), name) {
            Some(i) => Some(i + 1),
            None => None,
        }
    }
}

/// `spec_find_track` returns the first match: a match at its index and no
/// match before it, or no match anywhere.
pub proof fn lemma_find_track_first(tracks: Seq<Track>, name: Seq<char>)
    ensures
        match spec_find_track(tracks, name) {
            Some(i) => 0 <= i < tracks.len() && tracks[i].name@ == name && forall|k: int|
                0 <= k < i ==> (#[trigger] tracks[k]).name@ != name,
            None => forall|k: int| 0 <= k < tracks.len() ==> (#[trigger] tracks[k]).name@ != name,
        },
    decreases tracks.len(),
{
    if tracks.len() > 0 && tracks[0].name@ != name {
        lemma_find_track_first(tracks.drop_first(), name);
        assert forall|k: int| 0 <= k < tracks.len() && k >= 1 implies tracks.drop_first()[k - 1]
            == tracks[k] by {}
    }
}

fn default_voice_stack() -> (r: Vec<Voice>)
    ensures
        r@.len() == VOICES_PER_TRACK,
        forall|j: int| 0 <= j < r@.len() ==> r@[j] == spec_default_voice(),
{
    let mut r: Vec<Voice> = Vec::new();
    r.push(Voice::new());
    r.push(Voice::new());
    r.push(Voice::new());
    r
}

/// Samples per step for a tempo, at sixteenth-note resolution: a quarter of
/// a beat, floored at one sample; a zero tempo pins the clock just short of
/// ever stepping.
pub open spec fn spec_samples_per_step(sr: int, bpm: int) -> int {
    if bpm == 0 {
        usize::MAX as int
    } else if sr * 60 / bpm / 4 == 0 {
        1
    } else {
        sr * 60 / bpm / 4
    }
}

fn samples_per_step_of(sample_rate: u32, bpm: u32) -> (r: usize)
    requires
        sample_rate <= MAX_SAMPLE_RATE,
    ensures
        r == spec_samples_per_step(sample_rate as int, bpm as int),
        1 <= r,
{
    if bpm == 0 {
        usize::MAX
    } else {
        let v: u64 = (sample_rate as u64) * 60 / (bpm as u64) / 4;
        if v == 0 {
            1
        } else {
            v as usize
        }
    }
}

impl Sequencer {
    /// A sequencer holding one default track over a G natural-minor scale,
    /// stepping four times a second.
    pub fn new(sample_rate: u32) -> (r: Sequencer)
        requires
            1 <= sample_rate <= MAX_SAMPLE_RATE,
        ensures
            seq_wf(r),
            r.tracks@.len() == 1,
            r.tracks@[0].name@ == "Main"@,
            r.tracks@[0].pattern@ == seq![0i32],
            r.tracks@[0].octave == 3,
            r.tracks@[0].transpose == 0,
            r.tracks@[0].waveform == Waveform::Saw,
            r.tracks@[0].voice_spread == 7,
            r.scale@ == seq![7i32, 9i32, 10i32, 12i32, 14i32, 15i32, 17i32],
            r.voices@.len() == 1,
            r.voices@[0]@.len() == VOICES_PER_TRACK,
            forall|j: int| 0 <= j < r.voices@[0]@.len() ==> r.voices@[0]@[j] == spec_default_voice(),
            r.sample_rate == sample_rate,
            r.step == 0,
            r.sample_counter == 0,
            r.samples_per_step == (if sample_rate / 4 == 0 {
                1int
            } else {
                (sample_rate / 4) as int
            }),
    {
        let mut tracks: Vec<Track> = Vec::new();
        tracks.push(Track::new("Main"));
        let scale = minor_scale("g");
        proof {
            reveal_strlit("g");
            assert(spec_note_to_semitone("g"@) == 7);
            assert(scale@ =~= seq![7i32, 9i32, 10i32, 12i32, 14i32, 15i32, 17i32]);
        }
        let mut voices: Vec<Vec<Voice>> = Vec::new();
        voices.push(default_voice_stack());
        let quarter = sample_rate / 4;
        Sequencer {
            tracks,
            scale,
            voices,
            sample_rate,
            step: 0,
            samples_per_step: if quarter == 0 {
                1
            } else {
                quarter as usize
            },
            sample_counter: 0,
        }
    }

    /// Rebuilds a sequencer from a project description: the tracks and
    /// scale are taken over, every track gets a fresh default voice stack,
    /// and the step length is derived from the tempo.
    pub fn from_project(project: ProjectData, sample_rate: u32) -> (r: Sequencer)
        requires
            1 <= sample_rate <= MAX_SAMPLE_RATE,
            project.tracks@.len() <= MAX_TRACKS,
        ensures
            seq_wf(r),
            r.tracks@ == project.tracks@,
            r.scale@ == project.scale@,
            r.voices@.len() == project.tracks@.len(),
            forall|i: int, j: int|
                0 <= i < r.voices@.len() && 0 <= j < r.voices@[i]@.len() ==> r.voices@[i]@[j]
                    == spec_default_voice(),
            forall|i: int| 0 <= i < r.voices@.len() ==> (#[trigger] r.voices@[i])@.len()
                == VOICES_PER_TRACK,
            r.sample_rate == sample_rate,
            r.step == 0,
            r.sample_counter == 0,
            r.samples_per_step == spec_samples_per_step(sample_rate as int, project.bpm as int),
    {
        let num_tracks = project.tracks.len();
        let mut voices: Vec<Vec<Voice>> = Vec::new();
        let mut i: usize = 0;
        while i < num_tracks
            invariant
                i <= num_tracks,
                voices@.len() == i,
                forall|k: int| 0 <= k < i ==> (#[trigger] voices@[k])@.len() == VOICES_PER_TRACK,
                forall|k: int, j: int|
                    0 <= k < i && 0 <= j < voices@[k]@.len() ==> voices@[k]@[j]
                        == spec_default_voice(),
            decreases num_tracks - i,
        {
            voices.push(default_voice_stack());
            i = i + 1;
        }
        Sequencer {
            tracks: project.tracks,
            scale: project.scale,
            voices,
            sample_rate,
            step: 0,
            samples_per_step: samples_per_step_of(sample_rate, project.bpm),
            sample_counter: 0,
        }
    }

    /// Appends a track with a fresh default voice stack, keeping the two
    /// collections aligned.  At the track cap the call leaves the sequencer
    /// unchanged rather than failing.
    pub fn add_track(&mut self, track: Track)
        requires
            seq_wf(*old(self)),
        ensures
            seq_wf(*final(self)),
            old(self).tracks@.len() < MAX_TRACKS ==> {
                &&& final(self).tracks@ == old(self).tracks@.push(track)
                &&& final(self).voices@.len() == old(self).voices@.len() + 1
                &&& forall|i: int|
                    0 <= i < old(self).voices@.len() ==> final(self).voices@[i] == old(self).voices@[i]
                &&& final(self).voices@.last()@.len() == VOICES_PER_TRACK
                &&& forall|j: int|
                    0 <= j < VOICES_PER_TRACK ==> final(self).voices@.last()@[j]
                        == spec_default_voice()
            },
            old(self).tracks@.len() >= MAX_TRACKS ==> *final(self) == *old(self),
            final(self).scale == old(self).scale,
            final(self).sample_rate == old(self).sample_rate,
            final(self).step == old(self).step,
            final(self).samples_per_step == old(self).samples_per_step,
            final(self).sample_counter == old(self).sample_counter,
    {
        if self.tracks.len() < MAX_TRACKS {
            self.tracks.push(track);
            self.voices.push(default_voice_stack());
        }
    }

    /// Removes the first track with the given name, and its voice stack
    /// with it; reports whether one was found.
    pub fn remove_track(&mut self, name: &str) -> (removed: bool)
        requires
            seq_wf(*old(self)),
        ensures
            seq_wf(*final(self)),
            removed == (spec_find_track(old(self).tracks@, name@) is Some),
            match spec_find_track(old(self).tracks@, name@) {
                Some(i) => final(self).tracks@ == old(self).tracks@.remove(i) && final(self).voices@ == old(self).voices@.remove(i),
                None => *final(self) == *old(self),
            },
            final(self).scale == old(self).scale,
            final(self).sample_rate == old(self).sample_rate,
            final(self).step == old(self).step,
            final(self).samples_per_step == old(self).samples_per_step,
            final(self).sample_counter == old(self).sample_counter,
    {
        proof {
            lemma_find_track_first(old(self).tracks@, name@);
        }
        match self.find_track_index(name) {
            Some(i) => {
                self.tracks.remove(i);
                self.voices.remove(i);
                true
            },
            None => false,
        }
    }

    /// Index of the first track with the given name.
    fn find_track_index(&self, name: &str) -> (r: Option<usize>)
        ensures
            match spec_find_track(self.tracks@, name@) {
                Some(i) => r == Some(i as usize),
                None => r is None,
            },
    {
        proof {
            lemma_find_track_first(self.tracks@, name@);
        }
        let n = self.tracks.len();
        let mut i: usize = 0;
        while i < n
            invariant
                n == self.tracks@.len(),
                i <= n,
                forall|k: int| 0 <= k < i ==> (#[trigger] self.tracks@[k]).name@ != name@,
                match spec_find_track(self.tracks@, name@) {
                    Some(f) => 0 <= f < n && self.tracks@[f].name@ == name@ && forall|k: int|
                        0 <= k < f ==> (#[trigger] self.tracks@[k]).name@ != name@,
                    None => forall|k: int|
                        0 <= k < n ==> (#[trigger] self.tracks@[k]).name@ != name@,
                },
            decreases n - i,
        {
            if str_eq(self.tracks[i].name.as_str(), name) {
                return Some(i);
            }
            i = i + 1;
        }
        None
    }

    /// Replaces the first track with the same name, leaving its playing
    /// voices alone, or appends the track if the name is new.  Returns
    /// whether an existing track was updated.
    pub fn upsert_track(&mut self, track: Track) -> (updated: bool)
        requires
            seq_wf(*old(self)),
        ensures
            seq_wf(*final(self)),
            updated == (spec_find_track(old(self).tracks@, track.name@) is Some),
            match spec_find_track(old(self).tracks@, track.name@) {
                Some(i) => final(self).tracks@ == old(self).tracks@.update(i, track) && final(self).voices == old(self).voices,
                None => {
                    &&& old(self).tracks@.len() < MAX_TRACKS ==> {
                        &&& final(self).tracks@ == old(self).tracks@.push(track)
                        &&& final(self).voices@.len() == old(self).voices@.len() + 1
                        &&& forall|i: int|
                            0 <= i < old(self).voices@.len() ==> final(self).voices@[i] == old(self).voices@[i]
                        &&& final(self).voices@.last()@.len() == VOICES_PER_TRACK
                        &&& forall|j: int|
                            0 <= j < VOICES_PER_TRACK ==> final(self).voices@.last()@[j]
                                == spec_default_voice()
                    }
                    &&& old(self).tracks@.len() >= MAX_TRACKS ==> *final(self) == *old(self)
                },
            },
            final(self).scale == old(self).scale,
            final(self).sample_rate == old(self).sample_rate,
            final(self).step == old(self).step,
            final(self).samples_per_step == old(self).samples_per_step,
            final(self).sample_counter == old(self).sample_counter,
    {
        proof {
            lemma_find_track_first(old(self).tracks@, track.name@);
        }
        let found = self.find_track_index(track.name.as_str());
        match found {
            Some(i) => {
                self.tracks[i] = track;
                true
            },
            None => {
                self.add_track(track);
                false
            },
        }
    }

    /// Removes every track and every voice stack.
    pub fn clear_tracks(&mut self)
        requires
            seq_wf(*old(self)),
        ensures
            seq_wf(*final(self)),
            final(self).tracks@.len() == 0,
            final(self).voices@.len() == 0,
            final(self).scale == old(self).scale,
            final(self).sample_rate == old(self).sample_rate,
            final(self).step == old(self).step,
            final(self).samples_per_step == old(self).samples_per_step,
            final(self).sample_counter == old(self).sample_counter,
    {
        self.tracks.clear();
        self.voices.clear();
    }

    /// Snapshots the arrangement into a project description at the given
    /// tempo.
    pub fn to_project(&self, bpm: u32) -> (r: ProjectData)
        ensures
            r.bpm == bpm,
            r.scale@ == self.scale@,
            r.tracks@.len() == self.tracks@.len(),
            forall|i: int|
                0 <= i < r.tracks@.len() ==> {
                    &&& (#[trigger] r.tracks@[i]).name@ == self.tracks@[i].name@
                    &&& r.tracks@[i].pattern@ == self.tracks@[i].pattern@
                    &&& r.tracks@[i].octave == self.tracks@[i].octave
                    &&& r.tracks@[i].transpose == self.tracks@[i].transpose
                    &&& r.tracks@[i].waveform == self.tracks@[i].waveform
                    &&& r.tracks@[i].voice_spread == self.tracks@[i].voice_spread
                },
    {
        let mut tracks: Vec<Track> = Vec::new();
        let n = self.tracks.len();
        let mut i: usize = 0;
        while i < n
            invariant
                n == self.tracks@.len(),
                i <= n,
                tracks@.len() == i,
                forall|k: int|
                    0 <= k < i ==> {
                        &&& (#[trigger] tracks@[k]).name@ == self.tracks@[k].name@
                        &&& tracks@[k].pattern@ == self.tracks@[k].pattern@
                        &&& tracks@[k].octave == self.tracks@[k].octave
                        &&& tracks@[k].transpose == self.tracks@[k].transpose
                        &&& tracks@[k].waveform == self.tracks@[k].waveform
                        &&& tracks@[k].voice_spread == self.tracks@[k].voice_spread
                    },
            decreases n - i,
        {
            tracks.push(self.tracks[i].duplicate());
            i = i + 1;
        }
        ProjectData { tracks, scale: copy_pattern(&self.scale), bpm }
    }

    /// The modulus the step index advances under: the longest pattern
    /// length over all tracks, floored at one.
    fn get_max_pattern_len(&self) -> (r: usize)
        ensures
            r == spec_step_modulus(self.tracks@),
            1 <= r,
    {
        let n = self.tracks.len();
        let mut m: usize = 0;
        let mut i: usize = 0;
        while i < n
            invariant
                n == self.tracks@.len(),
                i <= n,
                m == spec_max_pattern_len(self.tracks@.subrange(0, i as int)),
            decreases n - i,
        {
            let l = self.tracks[i].pattern.len();
            if l > m {
                m = l;
            }
            i = i + 1;
            proof {
                assert(self.tracks@.subrange(0, i as int).drop_last() =~= self.tracks@.subrange(
                    0,
                    i as int - 1,
                ));
            }
        }
        proof {
            assert(self.tracks@.subrange(0, n as int) =~= self.tracks@);
        }
        if m == 0 {
            1
        } else {
            m
        }
    }

    /// Runs the per-step triggering: every track with a playable (non-rest,
    /// non-empty) step at the current index pushes a fresh frequency, its
    /// waveform and an envelope reset into each of its voices; resting and
    /// empty tracks leave their voices alone.
    #[verifier::loop_isolation(false)]
    fn trigger_step(&mut self)
        requires
            seq_wf(*old(self)),
        ensures
            seq_wf(*final(self)),
            final(self).tracks == old(self).tracks,
            final(self).scale == old(self).scale,
            final(self).sample_rate == old(self).sample_rate,
            final(self).step == old(self).step,
            final(self).samples_per_step == old(self).samples_per_step,
            final(self).sample_counter == old(self).sample_counter,
            final(self).voices@.len() == old(self).voices@.len(),
            forall|i: int|
                0 <= i < old(self).voices@.len() ==> (#[trigger] final(self).voices@[i])@.len()
                    == old(self).voices@[i]@.len(),
            forall|i: int, j: int|
                0 <= i < old(self).voices@.len() && 0 <= j < old(self).voices@[i]@.len() ==> (
                #[trigger] final(self).voices@[i]@[j]) == (if spec_track_triggers(
                    old(self).tracks@[i],
                    old(self).scale@,
                    old(self).step as int,
                ) {
                    spec_triggered_voice(
                        old(self).voices@[i]@[j],
                        old(self).tracks@[i],
                        old(self).scale@,
                        old(self).step as int,
                        j,
                    )
                } else {
                    old(self).voices@[i]@[j]
                }),
    {
        let nt = self.tracks.len();
        let mut ti: usize = 0;
        while ti < nt
            invariant
                ti <= nt,
                self.tracks == old(self).tracks,
                self.scale == old(self).scale,
                self.sample_rate == old(self).sample_rate,
                self.step == old(self).step,
                self.samples_per_step == old(self).samples_per_step,
                self.sample_counter == old(self).sample_counter,
                self.voices@.len() == old(self).voices@.len(),
                forall|i: int|
                    0 <= i < old(self).voices@.len() ==> (#[trigger] self.voices@[i])@.len() == old(
                        self,
                    ).voices@[i]@.len(),
                forall|i: int, j: int|
                    0 <= i < ti && 0 <= j < old(self).voices@[i]@.len() ==> (
                    #[trigger] self.voices@[i]@[j]) == (if spec_track_triggers(
                        old(self).tracks@[i],
                        old(self).scale@,
                        old(self).step as int,
                    ) {
                        spec_triggered_voice(
                            old(self).voices@[i]@[j],
                            old(self).tracks@[i],
                            old(self).scale@,
                            old(self).step as int,
                            j,
                        )
                    } else {
                        old(self).voices@[i]@[j]
                    }),
                forall|i: int, j: int|
                    ti <= i < old(self).voices@.len() && 0 <= j < old(self).voices@[i]@.len() ==> (
                    #[trigger] self.voices@[i]@[j]) == old(self).voices@[i]@[j],
                forall|i: int, j: int|
                    0 <= i < self.voices@.len() && 0 <= j < self.voices@[i]@.len() ==> voice_wf(
                        #[trigger] self.voices@[i]@[j],
                    ),
            decreases nt - ti,
        {
            let plen = self.tracks[ti].pattern.len();
            let slen = self.scale.len();
            if plen > 0 && slen > 0 {
                let note = self.tracks[ti].pattern[self.step % plen];
                if note >= 0 {
                    let scale_note = self.scale[(note as usize) % slen];
                    let transpose = self.tracks[ti].transpose;
                    let octave = self.tracks[ti].octave;
                    let wave = self.tracks[ti].waveform;
                    let spread = self.tracks[ti].voice_spread;
                    let base: i64 = scale_note as i64 + transpose as i64 + (octave as i64) * 12;
                    let nv = self.voices[ti].len();
                    let ghost snap = self.voices@;
                    let mut vi: usize = 0;
                    while vi < nv
                        invariant
                            vi <= nv,
                            nv == snap[ti as int]@.len(),
                            self.tracks == old(self).tracks,
                            self.scale == old(self).scale,
                            self.sample_rate == old(self).sample_rate,
                            self.step == old(self).step,
                            self.samples_per_step == old(self).samples_per_step,
                            self.sample_counter == old(self).sample_counter,
                            self.voices@.len() == snap.len(),
                            forall|i: int|
                                0 <= i < snap.len() ==> (#[trigger] self.voices@[i])@.len()
                                    == snap[i]@.len(),
                            forall|i: int|
                                0 <= i < snap.len() && i != ti ==> (#[trigger] self.voices@[i])
                                    == snap[i],
                            forall|j: int|
                                0 <= j < vi ==> (#[trigger] self.voices@[ti as int]@[j])
                                    == spec_triggered_voice(
                                    snap[ti as int]@[j],
                                    old(self).tracks@[ti as int],
                                    old(self).scale@,
                                    old(self).step as int,
                                    j,
                                ),
                            forall|j: int|
                                vi <= j < nv ==> (#[trigger] self.voices@[ti as int]@[j])
                                    == snap[ti as int]@[j],
                            forall|i: int, j: int|
                                0 <= i < self.voices@.len() && 0 <= j < self.voices@[i]@.len()
                                    ==> voice_wf(#[trigger] self.voices@[i]@[j]),
                        decreases nv - vi,
                    {
                        proof {
                            assert((vi as int) * (spread as int) <= 16 * 0x80000000i64
                                && -(16 * 0x80000000i64) <= (vi as int) * (spread as int)) by (
                            nonlinear_arith)
                                requires
                                    0 <= vi <= 16,
                                    -0x80000000 <= spread <= 0x7fffffff,
                            ;
                        }
                        let freq = midi_to_freq(base + (vi as i64) * (spread as i64));
                        proof {
                            crate::pitch::lemma_midi_freq_bounds(
                                base as int + (vi as int) * (spread as int),
                            );
                        }
                        let mut v: Voice = self.voices[ti][vi];
                        v.set_frequency(freq);
                        v.waveform = wave;
                        v.reset_env();
                        self.voices[ti][vi] = v;
                        vi = vi + 1;
                    }
                }
            }
            ti = ti + 1;
        }
    }

    /// Renders one output sample.  Advances the sample counter; at a step
    /// boundary resets it, advances the step index modulo the longest
    /// pattern and triggers the tracks.  Then every voice renders one
    /// sample and the output is their straight average (zero if there are
    /// no voices).
    #[verifier::loop_isolation(false)]
    pub fn process(&mut self) -> (r: i64)
        requires
            seq_wf(*old(self)),
        ensures
            seq_wf(*final(self)),
            final(self).tracks == old(self).tracks,
            final(self).scale == old(self).scale,
            final(self).sample_rate == old(self).sample_rate,
            final(self).samples_per_step == old(self).samples_per_step,
            final(self).sample_counter == (if spec_boundary(*old(self)) {
                0int
            } else {
                old(self).sample_counter + 1
            }),
            final(self).step == spec_next_step(*old(self)),
            grid_view(final(self).voices@) == spec_advance_grid(
                spec_mid_grid(*old(self)),
                old(self).sample_rate as int,
            ),
            r == spec_mix(spec_mid_grid(*old(self)), old(self).sample_rate as int),
    {
        self.sample_counter = self.sample_counter + 1;
        if self.sample_counter >= self.samples_per_step {
            self.sample_counter = 0;
            let m = self.get_max_pattern_len();
            self.step = (self.step + 1) % m;
            self.trigger_step();
        }
        let ghost mid = spec_mid_grid(*old(self));
        proof {
            assert forall|i: int| 0 <= i < mid.len() implies self.voices@[i]@ == mid[i] by {
                assert forall|j: int| 0 <= j < mid[i].len() implies self.voices@[i]@[j] == mid[i][j]
                by {
                    assert(mid[i][j] == spec_mid_voice(*old(self), i, j));
                }
                assert(self.voices@[i]@ =~= mid[i]);
            }
        }

        // Mix: every voice renders one sample; sum and count them all.
        let sr = self.sample_rate;
        let nt = self.voices.len();
        let mut sum: i64 = 0;
        let mut count: usize = 0;
        let mut ti: usize = 0;
        while ti < nt
            invariant
                ti <= nt,
                nt == mid.len(),
                self.voices@.len() == mid.len(),
                self.tracks == old(self).tracks,
                self.scale == old(self).scale,
                self.sample_rate == old(self).sample_rate,
                self.step == spec_next_step(*old(self)),
                self.samples_per_step == old(self).samples_per_step,
                self.sample_counter == (if spec_boundary(*old(self)) {
                    0int
                } else {
                    old(self).sample_counter + 1
                }),
                forall|i: int|
                    0 <= i < mid.len() ==> (#[trigger] self.voices@[i])@.len() == mid[i].len(),
                forall|i: int|
                    0 <= i < ti ==> (#[trigger] self.voices@[i])@ == mid[i].map_values(
                        |v: Voice| spec_voice_after(v, sr as int),
                    ),
                forall|i: int| ti <= i < mid.len() ==> (#[trigger] self.voices@[i])@ == mid[i],
                forall|i: int, j: int|
                    0 <= i < mid.len() && 0 <= j < self.voices@[i]@.len() ==> voice_wf(
                        #[trigger] self.voices@[i]@[j],
                    ),
                count == spec_grid_count(mid.subrange(0, ti as int)),
                count <= ti * (MAX_VOICES_PER_TRACK as int),
                sum == spec_grid_sum(mid.subrange(0, ti as int), sr as int),
                -(count as int) * 65536 <= sum <= (count as int) * 65536,
            decreases nt - ti,
        {
            let nv = self.voices[ti].len();
            let mut vi: usize = 0;
            while vi < nv
                invariant
                    vi <= nv,
                    nv == mid[ti as int].len(),
                    self.tracks == old(self).tracks,
                    self.scale == old(self).scale,
                    self.sample_rate == old(self).sample_rate,
                    self.step == spec_next_step(*old(self)),
                    self.samples_per_step == old(self).samples_per_step,
                    self.sample_counter == (if spec_boundary(*old(self)) {
                        0int
                    } else {
                        old(self).sample_counter + 1
                    }),
                    self.voices@.len() == mid.len(),
                    forall|i: int|
                        0 <= i < mid.len() ==> (#[trigger] self.voices@[i])@.len() == mid[i].len(),
                    forall|i: int|
                        0 <= i < ti ==> (#[trigger] self.voices@[i])@ == mid[i].map_values(
                            |v: Voice| spec_voice_after(v, sr as int),
                        ),
                    forall|i: int| ti < i < mid.len() ==> (#[trigger] self.voices@[i])@ == mid[i],
                    forall|j: int|
                        0 <= j < vi ==> (#[trigger] self.voices@[ti as int]@[j])
                            == spec_voice_after(mid[ti as int][j], sr as int),
                    forall|j: int|
                        vi <= j < nv ==> (#[trigger] self.voices@[ti as int]@[j])
                            == mid[ti as int][j],
                    forall|i: int, j: int|
                        0 <= i < mid.len() && 0 <= j < self.voices@[i]@.len() ==> voice_wf(
                            #[trigger] self.voices@[i]@[j],
                        ),
                    count == spec_grid_count(mid.subrange(0, ti as int)) + vi,
                    count <= ti * (MAX_VOICES_PER_TRACK as int) + vi,
                    sum == spec_grid_sum(mid.subrange(0, ti as int), sr as int) + spec_row_sum(
                        mid[ti as int].subrange(0, vi as int),
                        sr as int,
                    ),
                    -(count as int) * 65536 <= sum <= (count as int) * 65536,
                decreases nv - vi,
            {
                let mut v: Voice = self.voices[ti][vi];
                let s = v.process(sr);
                self.voices[ti][vi] = v;
                proof {
                    crate::voice::lemma_sample_bounded(mid[ti as int][vi as int], sr as int);
                    assert(mid[ti as int].subrange(0, vi as int + 1).drop_last() =~= mid[
                        ti as int].subrange(0, vi as int));
                }
                sum = sum + s;
                count = count + 1;
                vi = vi + 1;
            }
            proof {
                assert(mid[ti as int].subrange(0, nv as int) =~= mid[ti as int]);
                assert(mid.subrange(0, ti as int + 1).drop_last() =~= mid.subrange(0, ti as int));
                assert(self.voices@[ti as int]@ =~= mid[ti as int].map_values(
                    |v: Voice| spec_voice_after(v, sr as int),
                ));
            }
            ti = ti + 1;
        }
        proof {
            assert(mid.subrange(0, nt as int) =~= mid);
            assert forall|i: int| 0 <= i < mid.len() implies grid_view(self.voices@)[i]
                == spec_advance_grid(mid, sr as int)[i] by {}
            assert(grid_view(self.voices@) =~= spec_advance_grid(mid, sr as int));
        }
        if count > 0 {
            if sum >= 0 {
                ((sum as u64) / (count as u64)) as i64
            } else {
                -((((-sum) as u64) / (count as u64)) as i64)
            }
        } else {
            0
        }
    }
}

} // verus!

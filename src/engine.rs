//! The polyphonic voice pool: admits voices on note-on, releases them on
//! note-off, advances every envelope once per sample, removes silent voices,
//! and renders one sample from the voices that remain.
use vstd::prelude::*;
use crate::envelope::{Voice, fresh_voice, step, step_voice, voice_in_range, rate_in_range, EPSILON};
use crate::mixer::{draw_white, mix, mix_sample, readings_in_range, reading_within_one};
use crate::params::MixParameters;

verus! {

/// MIDI status byte of a note-on on the first channel.
pub const NOTE_ON: u8 = 144;

/// MIDI status byte of a note-off on the first channel.
pub const NOTE_OFF: u8 = 128;

/// Highest note number; note events above it are ignored.
pub const MAX_PITCH: u8 = 127;

/// Every voice with pitch `pitch` marked released, the others as they were.
pub open spec fn released_all(vs: Seq<Voice>, pitch: u8) -> Seq<Voice> {
    vs.map_values(|v: Voice| if v.pitch == pitch { Voice { released: true, ..v } } else { v })
}

/// Every voice after one sample of its envelope.
pub open spec fn advanced(vs: Seq<Voice>, attack: int, release: int) -> Seq<Voice> {
    vs.map_values(|v: Voice| step_voice(v, attack, release))
}

/// The voices that still sound: those whose level is above zero.
pub open spec fn reaped(vs: Seq<Voice>) -> Seq<Voice> {
    vs.filter(|v: Voice| v.level > 0)
}

/// Releasing a pitch never changes the number of voices; where no held voice
/// has that pitch, it changes nothing at all.
pub proof fn lemma_release_keeps_voices(vs: Seq<Voice>, pitch: u8)
    ensures
        released_all(vs, pitch).len() == vs.len(),
        (forall|i: int| 0 <= i < vs.len() && #[trigger] vs[i].pitch == pitch ==> vs[i].released)
            ==> released_all(vs, pitch) == vs,
{
    if forall|i: int| 0 <= i < vs.len() && #[trigger] vs[i].pitch == pitch ==> vs[i].released {
        assert(released_all(vs, pitch) =~= vs);
    }
}

/// After one sample every remaining voice has a level above zero, and a voice
/// remains exactly when its new level is above zero: a voice is gone in the
/// first sample in which its level reaches zero or below, and every voice that
/// remains is one that was there before, advanced by one sample.
pub proof fn lemma_reap_exact(vs: Seq<Voice>, attack: int, release: int)
    ensures
        forall|j: int| 0 <= j < reaped(advanced(vs, attack, release)).len()
            ==> #[trigger] reaped(advanced(vs, attack, release))[j].level > 0,
        forall|i: int| 0 <= i < vs.len() ==> (
            #[trigger] step_voice(vs[i], attack, release).level > 0
                <==> reaped(advanced(vs, attack, release)).contains(step_voice(vs[i], attack, release))),
        reaped(advanced(vs, attack, release)).len() <= vs.len(),
        forall|j: int| 0 <= j < reaped(advanced(vs, attack, release)).len()
            ==> advanced(vs, attack, release).contains(#[trigger] reaped(advanced(vs, attack, release))[j]),
{
    let stepped = advanced(vs, attack, release);
    let pred = |v: Voice| v.level > 0;
    stepped.lemma_filter_len(pred);
    assert forall|j: int| 0 <= j < reaped(stepped).len() implies #[trigger] reaped(stepped)[j].level > 0 by {
        stepped.lemma_filter_pred(pred, j);
    }
    assert forall|i: int| 0 <= i < vs.len() implies (
        #[trigger] step_voice(vs[i], attack, release).level > 0
            <==> reaped(stepped).contains(step_voice(vs[i], attack, release))) by {
        assert(stepped[i] == step_voice(vs[i], attack, release));
        if step_voice(vs[i], attack, release).level > 0 {
            stepped.lemma_filter_contains(pred, i);
        }
        if reaped(stepped).contains(step_voice(vs[i], attack, release)) {
            let j = choose|j: int| 0 <= j < reaped(stepped).len() && reaped(stepped)[j] == step_voice(vs[i], attack, release);
            stepped.lemma_filter_pred(pred, j);
        }
    }
    assert forall|j: int| 0 <= j < reaped(stepped).len() implies stepped.contains(#[trigger] reaped(stepped)[j]) by {
        stepped.lemma_filter_contains_rev(pred, reaped(stepped)[j]);
        assert(reaped(stepped).contains(reaped(stepped)[j]));
    }
}

/// The voice pool and the count of samples rendered while any voice sounded.
pub struct VoiceEngine {
    voices: Vec<Voice>,
    time: u64,
}

impl VoiceEngine {
    /// The voices, in the order in which their notes began.
    pub closed spec fn voices_spec(&self) -> Seq<Voice> {
        self.voices@
    }

    /// Samples rendered while at least one voice was present, modulo 2^64.
    pub closed spec fn time_spec(&self) -> u64 {
        self.time
    }

    /// Every voice's level lies between silence and the largest level, and
    /// every voice's pitch is at most `MAX_PITCH`.
    pub closed spec fn wf(&self) -> bool {
        forall|i: int| 0 <= i < self.voices@.len()
            ==> voice_in_range(#[trigger] self.voices@[i]) && self.voices@[i].pitch <= MAX_PITCH
    }

    /// What a well-formed engine holds: every voice's level between silence and
    /// the largest level, and its pitch at most `MAX_PITCH`.
    pub proof fn lemma_wf_voices(&self)
        requires
            self.wf(),
        ensures
            forall|i: int| 0 <= i < self.voices_spec().len() ==> voice_in_range(#[trigger] self.voices_spec()[i]),
            forall|i: int| 0 <= i < self.voices_spec().len() ==> #[trigger] self.voices_spec()[i].pitch <= MAX_PITCH,
    {
    }

    /// An engine with no voices and a time of zero.
    pub fn new() -> (r: VoiceEngine)
        ensures
            r.wf(),
            r.voices_spec() == Seq::<Voice>::empty(),
            r.time_spec() == 0,
    {
        VoiceEngine { voices: Vec::new(), time: 0 }
    }

    /// The voices, in the order in which their notes began.
    pub fn voices(&self) -> (r: &Vec<Voice>)
        ensures
            r@ == self.voices_spec(),
    {
        &self.voices
    }

    /// Number of voices present.
    pub fn voice_count(&self) -> (r: usize)
        ensures
            r == self.voices_spec().len(),
    {
        self.voices.len()
    }

    /// Samples rendered while at least one voice was present.
    pub fn time(&self) -> (r: u64)
        ensures
            r == self.time_spec(),
    {
        self.time
    }

    /// Starts a new, silent, held voice at `pitch`, beside any voice already at
    /// that pitch; a pitch above `MAX_PITCH` is ignored.
    pub fn note_on(&mut self, pitch: u8)
        requires
            old(self).wf(),
        ensures
            final(self).wf(),
            pitch <= MAX_PITCH ==> final(self).voices_spec() == old(self).voices_spec().push(fresh_voice(pitch)),
            pitch > MAX_PITCH ==> final(self).voices_spec() == old(self).voices_spec(),
            final(self).time_spec() == old(self).time_spec(),
    {
        if pitch <= MAX_PITCH {
            self.voices.push(Voice { pitch, level: 0, released: false });
        }
    }

    /// Marks every voice at `pitch` released; with none, nothing changes. A
    /// pitch above `MAX_PITCH` is ignored.
    pub fn note_off(&mut self, pitch: u8)
        requires
            old(self).wf(),
        ensures
            final(self).wf(),
            pitch <= MAX_PITCH ==> final(self).voices_spec() == released_all(old(self).voices_spec(), pitch),
            pitch > MAX_PITCH ==> final(self).voices_spec() == old(self).voices_spec(),
            final(self).time_spec() == old(self).time_spec(),
    {
        if pitch > MAX_PITCH {
            return;
        }
        let ghost start = self.voices@;
        let mut i: usize = 0;
        while i < self.voices.len()
            invariant
                i <= self.voices.len(),
                self.voices.len() == start.len(),
                self.time == old(self).time,
                forall|k: int| 0 <= k < i ==> #[trigger] self.voices@[k] == released_all(start, pitch)[k],
                forall|k: int| i <= k < start.len() ==> #[trigger] self.voices@[k] == start[k],
                forall|k: int| 0 <= k < start.len() ==> voice_in_range(#[trigger] start[k]) && start[k].pitch <= MAX_PITCH,
            decreases self.voices.len() - i,
        {
            if self.voices[i].pitch == pitch {
                let v = self.voices[i];
                self.voices[i] = Voice { released: true, ..v };
            }
            i = i + 1;
        }
        assert(self.voices@ =~= released_all(start, pitch));
    }

    /// Applies a decoded MIDI message: a note-on starts a voice, a note-off
    /// releases voices, and any other status, or a key above `MAX_PITCH`,
    /// changes nothing.
    pub fn apply_midi(&mut self, status: u8, key: u8)
        requires
            old(self).wf(),
        ensures
            final(self).wf(),
            final(self).time_spec() == old(self).time_spec(),
            final(self).voices_spec() == if key > MAX_PITCH {
                old(self).voices_spec()
            } else if status == NOTE_ON {
                old(self).voices_spec().push(fresh_voice(key))
            } else if status == NOTE_OFF {
                released_all(old(self).voices_spec(), key)
            } else {
                old(self).voices_spec()
            },
    {
        if status == NOTE_ON {
            self.note_on(key);
        } else if status == NOTE_OFF {
            self.note_off(key);
        }
    }

    /// Advances every voice's envelope by one sample, then removes every voice
    /// whose level has reached zero or below.
    pub fn advance_and_reap(&mut self, attack: i64, release: i64)
        requires
            old(self).wf(),
            rate_in_range(attack as int),
            rate_in_range(release as int),
        ensures
            final(self).wf(),
            final(self).voices_spec() == reaped(advanced(old(self).voices_spec(), attack as int, release as int)),
            final(self).time_spec() == old(self).time_spec(),
    {
        let ghost start = self.voices@;
        let ghost stepped = advanced(start, attack as int, release as int);
        let n = self.voices.len();
        let mut i: usize = 0;
        let mut kept: usize = 0;
        while i < n
            invariant
                kept <= i <= n,
                n == start.len(),
                self.voices.len() == n,
                self.time == old(self).time,
                stepped == advanced(start, attack as int, release as int),
                rate_in_range(attack as int),
                rate_in_range(release as int),
                forall|k: int| 0 <= k < n ==> voice_in_range(#[trigger] start[k]) && start[k].pitch <= MAX_PITCH,
                self.voices@.subrange(0, kept as int) == reaped(stepped.subrange(0, i as int)),
                forall|k: int| i <= k < n ==> #[trigger] self.voices@[k] == start[k],
            decreases n - i,
        {
            let v = step(self.voices[i], attack, release);
            proof {
                assert(stepped.subrange(0, i + 1) =~= stepped.subrange(0, i as int).push(stepped[i as int]));
                stepped.subrange(0, i as int).lemma_filter_push(stepped[i as int], |v: Voice| v.level > 0);
            }
            if v.level > 0 {
                let ghost before = self.voices@;
                self.voices[kept] = v;
                assert(self.voices@.subrange(0, kept + 1) =~= before.subrange(0, kept as int).push(v));
            }
            if v.level > 0 {
                kept = kept + 1;
            }
            i = i + 1;
        }
        self.voices.truncate(kept);
        assert(stepped.subrange(0, n as int) =~= stepped);
        assert(self.voices@ =~= reaped(stepped));
        proof {
            assert forall|k: int| 0 <= k < self.voices@.len()
                implies voice_in_range(#[trigger] self.voices@[k]) && self.voices@[k].pitch <= MAX_PITCH by {
                stepped.lemma_filter_contains_rev(|v: Voice| v.level > 0, self.voices@[k]);
                assert(stepped.filter(|v: Voice| v.level > 0).contains(self.voices@[k]));
            }
        }
    }

    /// Renders one sample. With no voices the sample is 0 and nothing changes.
    /// Otherwise slot 0 of each row of `readings`, the white-noise reading, is
    /// filled with a fresh draw where white noise is audible for that voice; the
    /// sample is the mix of all voices with those readings; and time advances by
    /// one sample.
    pub fn render_sample(&mut self, p: &MixParameters, readings: &mut Vec<[i32; 10]>) -> (r: i128)
        requires
            old(self).wf(),
            p.wf(),
            old(readings).len() == old(self).voices_spec().len(),
            forall|i: int| 0 <= i < old(readings).len() ==> readings_in_range(#[trigger] old(readings)[i]),
        ensures
            final(self).wf(),
            final(self).voices_spec() == old(self).voices_spec(),
            final(readings).len() == old(readings).len(),
            forall|i: int| 0 <= i < final(readings).len() ==> readings_in_range(#[trigger] final(readings)[i]),
            forall|i: int, s: int| 0 <= i < final(readings).len() && 1 <= s < 10
                ==> #[trigger] final(readings)[i][s] == old(readings)[i][s],
            forall|i: int| 0 <= i < final(readings).len() && !(p.enabled(0) && old(self).voices_spec()[i].level > EPSILON)
                ==> #[trigger] final(readings)[i][0] == old(readings)[i][0],
            forall|i: int| 0 <= i < final(readings).len() && p.enabled(0) && old(self).voices_spec()[i].level > EPSILON
                ==> reading_within_one(#[trigger] final(readings)[i][0] as int),
            old(self).voices_spec().len() == 0 ==> r == 0 && final(self).time_spec() == old(self).time_spec()
                && *final(readings) == *old(readings),
            old(self).voices_spec().len() > 0 ==> r == mix(old(self).voices_spec(), *p, final(readings)@)
                && final(self).time_spec() == (if old(self).time_spec() == u64::MAX { 0 } else { old(self).time_spec() + 1 }),
    {
        if self.voices.len() == 0 {
            return 0;
        }
        let white_on = p.is_enabled(0);
        let mut i: usize = 0;
        while i < readings.len()
            invariant
                i <= readings.len(),
                readings.len() == old(readings).len(),
                readings.len() == self.voices.len(),
                forall|k: int| 0 <= k < readings.len() ==> readings_in_range(#[trigger] readings[k]),
                forall|k: int, s: int| 0 <= k < readings.len() && 1 <= s < 10
                    ==> #[trigger] readings[k][s] == old(readings)[k][s],
                white_on == p.enabled(0),
                forall|k: int| 0 <= k < readings.len() && !(p.enabled(0) && self.voices@[k].level > EPSILON)
                    ==> #[trigger] readings[k][0] == old(readings)[k][0],
                forall|k: int| 0 <= k < i && p.enabled(0) && self.voices@[k].level > EPSILON
                    ==> reading_within_one(#[trigger] readings[k][0] as int),
            decreases readings.len() - i,
        {
            if white_on && self.voices[i].level > EPSILON {
                let mut row = readings[i];
                let w = draw_white();
                row[0] = w;
                assert(readings_in_range(row));
                readings[i] = row;
            }
            i = i + 1;
        }
        let sample = mix_sample(&self.voices, p, readings);
        self.time = if self.time == u64::MAX { 0 } else { self.time + 1 };
        sample
    }
}

} // verus!

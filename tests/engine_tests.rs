use whisper::engine::{VoiceEngine, MAX_PITCH, NOTE_OFF, NOTE_ON};
use whisper::envelope::{Voice, UNIT};
use whisper::mixer::{NOISE_ONE, SAMPLE_ONE};
use whisper::params::MixParameters;

#[test]
fn note_on_adds_a_silent_held_voice() {
    let mut e = VoiceEngine::new();
    e.note_on(64);
    assert_eq!(e.voices().clone(), vec![Voice { pitch: 64, level: 0, released: false }]);
}

#[test]
fn repeated_note_on_makes_two_voices() {
    let mut e = VoiceEngine::new();
    e.note_on(64);
    e.note_on(64);
    assert_eq!(e.voice_count(), 2);
}

#[test]
fn note_off_releases_every_voice_at_pitch() {
    let mut e = VoiceEngine::new();
    e.note_on(64);
    e.note_on(65);
    e.note_on(64);
    e.note_off(64);
    let v = e.voices();
    assert!(v[0].released);
    assert!(!v[1].released);
    assert!(v[2].released);
}

#[test]
fn unmatched_note_off_keeps_voice_count() {
    let mut e = VoiceEngine::new();
    e.note_on(60);
    e.note_on(62);
    let before = e.voices().clone();
    e.note_off(70);
    assert_eq!(e.voice_count(), 2);
    assert_eq!(e.voices().clone(), before);
    e.note_off(60);
    let once = e.voices().clone();
    e.note_off(60);
    assert_eq!(e.voices().clone(), once);
    assert_eq!(e.voice_count(), 2);
}

#[test]
fn midi_messages_are_decoded() {
    let mut e = VoiceEngine::new();
    e.apply_midi(NOTE_ON, 50);
    e.apply_midi(0xB0, 50);
    assert_eq!(e.voice_count(), 1);
    e.apply_midi(NOTE_OFF, 50);
    assert!(e.voices()[0].released);
}

#[test]
fn voice_removed_in_first_sample_at_or_below_zero() {
    let mut e = VoiceEngine::new();
    e.note_on(60);
    e.advance_and_reap(300, 100);
    e.advance_and_reap(300, 100);
    assert_eq!(e.voices()[0].level, 600);
    e.note_off(60);
    for _ in 0..5 {
        e.advance_and_reap(300, 100);
    }
    assert_eq!(e.voices()[0].level, 100);
    e.advance_and_reap(300, 100);
    assert_eq!(e.voice_count(), 0);
}

#[test]
fn released_before_attack_is_removed_at_once() {
    let mut e = VoiceEngine::new();
    e.note_on(60);
    e.note_off(60);
    e.advance_and_reap(300, 100);
    assert_eq!(e.voice_count(), 0);
}

#[test]
fn silent_render_is_zero_and_keeps_time() {
    let p = MixParameters::new();
    let mut e = VoiceEngine::new();
    let mut rows: Vec<[i32; 10]> = Vec::new();
    assert_eq!(e.render_sample(&p, &mut rows), 0);
    assert_eq!(e.time(), 0);
    assert_eq!(e.render_sample(&p, &mut rows), 0);
    assert_eq!(e.time(), 0);
}

#[test]
fn render_advances_time_while_voices_sound() {
    let p = MixParameters::new();
    let mut e = VoiceEngine::new();
    e.note_on(60);
    e.advance_and_reap(1000, 1000);
    let mut rows = vec![[0i32; 10]];
    e.render_sample(&p, &mut rows);
    e.render_sample(&p, &mut rows);
    assert_eq!(e.time(), 2);
}

#[test]
fn single_white_voice_at_full_level_stays_within_one() {
    let p = MixParameters::new();
    let mut e = VoiceEngine::new();
    e.note_on(69);
    e.advance_and_reap(UNIT, UNIT);
    assert_eq!(e.voices()[0].level, UNIT);
    let mut seen_distinct = false;
    let mut first: Option<i128> = None;
    for _ in 0..200 {
        let mut rows = vec![[0i32; 10]];
        let s = e.render_sample(&p, &mut rows);
        assert!(s >= -SAMPLE_ONE && s <= SAMPLE_ONE);
        assert!(rows[0][0] >= -NOISE_ONE && rows[0][0] <= NOISE_ONE);
        assert_eq!(s, rows[0][0] as i128 * UNIT as i128);
        match first {
            None => first = Some(s),
            Some(f) => {
                if f != s {
                    seen_distinct = true;
                }
            }
        }
    }
    assert!(seen_distinct);
}

#[test]
fn field_readings_are_kept_and_weighted() {
    let mut p = MixParameters::new();
    p.set_parameter(0, 0);
    p.set_parameter(1, 500_000);
    let mut e = VoiceEngine::new();
    e.note_on(60);
    e.note_on(72);
    e.advance_and_reap(UNIT, UNIT);
    let mut rows = vec![[7, 1000, 5, 0, 0, 0, 0, 0, 0, 0], [7, -200, 5, 0, 0, 0, 0, 0, 0, 0]];
    let s = e.render_sample(&p, &mut rows);
    assert_eq!(rows[0], [7, 1000, 5, 0, 0, 0, 0, 0, 0, 0]);
    assert_eq!(s, (1000 - 200) as i128 * 500_000);
}

#[test]
fn pitch_above_range_is_ignored() {
    let mut e = VoiceEngine::new();
    e.note_on(200);
    assert_eq!(e.voice_count(), 0);
    e.apply_midi(NOTE_ON, 128);
    assert_eq!(e.voice_count(), 0);
    e.note_on(MAX_PITCH);
    assert_eq!(e.voice_count(), 1);
    e.apply_midi(NOTE_OFF, 255);
    e.note_off(200);
    assert!(!e.voices()[0].released);
    e.apply_midi(NOTE_OFF, MAX_PITCH);
    assert!(e.voices()[0].released);
}

#[test]
fn readings_beyond_one_are_mixed() {
    let p = MixParameters::new();
    let mut q = p;
    q.set_parameter(0, 0);
    q.set_parameter(5, UNIT as u32);
    let mut e = VoiceEngine::new();
    e.note_on(60);
    e.advance_and_reap(UNIT, UNIT);
    let mut rows = vec![[0, 0, 0, 0, 0, -3 * NOISE_ONE, 0, 0, 0, 0]];
    assert_eq!(e.render_sample(&q, &mut rows), -3 * SAMPLE_ONE);
}

use organn::config::{Config, Tables};
use organn::env::State;
use organn::message::Message;
use organn::multi::{Multi, MultiMidiConn, VoiceGroup};
use organn::oscillator::{FREQ_ONE, WAVE_LEN};
use organn::sample::ONE;
use organn::voice::{Voice, MIX_MAX};
use pitch_calc::Step;

fn tables() -> Tables {
    let wave: Vec<i32> = (0..WAVE_LEN)
        .map(|i| {
            let x = (i as f64) / (WAVE_LEN as f64) * std::f64::consts::PI * 2.0;
            (x.sin() * ONE as f64).round() as i32
        })
        .collect();
    let pitches: Vec<u64> = (0..128)
        .map(|n| (Step(n as f32).to_hz().hz() as f64 * FREQ_ONE as f64).round() as u64)
        .collect();
    Tables::new(wave, pitches).unwrap()
}

#[test]
fn round_robin_steals_the_oldest_voice() {
    let mut conn = MultiMidiConn::new(4);
    let notes = [60u8, 62, 64, 65, 67];
    let mut picked = Vec::new();
    for &n in notes.iter() {
        let to = conn.midi_message(&Message::NoteOn(0, n, 100));
        assert_eq!(to.len(), 1);
        picked.push(to[0]);
    }
    assert_eq!(picked, vec![1, 2, 3, 0, 1]);
    assert_eq!(conn.note_of(1), Some(67));
    // the first note's voice has moved on: its note off reaches nobody
    let to = conn.midi_message(&Message::NoteOff(0, 60, 0));
    assert!(to.is_empty());
    assert_eq!(conn.note_of(1), Some(67));
    assert_eq!(conn.note_of(2), Some(62));
}

#[test]
fn round_robin_steal_in_pools_of_any_size() {
    for n in [1usize, 3, 6] {
        let mut conn = MultiMidiConn::new(n);
        let mut first = None;
        for k in 0..n {
            let to = conn.midi_message(&Message::NoteOn(0, 40 + k as u8, 90));
            if k == 0 {
                first = Some(to[0]);
            }
        }
        let to = conn.midi_message(&Message::NoteOn(0, 100, 90));
        assert_eq!(Some(to[0]), first);
        assert!(conn.midi_message(&Message::NoteOff(0, 40, 0)).is_empty());
        assert_eq!(conn.note_of(to[0]), Some(100));
    }
}

#[test]
fn released_voice_is_preferred_to_stealing() {
    let mut conn = MultiMidiConn::new(4);
    for &n in [60u8, 62, 64, 65].iter() {
        conn.midi_message(&Message::NoteOn(0, n, 100));
    }
    let to = conn.midi_message(&Message::NoteOff(0, 64, 0));
    assert_eq!(to, vec![3]);
    assert_eq!(conn.note_of(3), None);
    let to = conn.midi_message(&Message::NoteOn(0, 67, 100));
    assert_eq!(to, vec![3]);
    assert_eq!(conn.note_of(1), Some(60));
}

#[test]
fn note_on_then_off_frees_the_voice() {
    let mut conn = MultiMidiConn::new(3);
    let to = conn.midi_message(&Message::NoteOn(0, 60, 100));
    let v = to[0];
    assert_eq!(conn.midi_message(&Message::NoteOff(0, 60, 0)), vec![v]);
    assert_eq!(conn.note_of(v), None);
}

#[test]
fn duplicate_notes_are_all_released() {
    let mut conn = MultiMidiConn::new(3);
    conn.midi_message(&Message::NoteOn(0, 60, 100));
    conn.midi_message(&Message::NoteOn(0, 60, 100));
    assert_eq!(conn.midi_message(&Message::NoteOff(0, 60, 0)), vec![1, 2]);
}

#[test]
fn controllers_go_to_every_voice_and_others_to_none() {
    let mut conn = MultiMidiConn::new(3);
    assert_eq!(conn.midi_message(&Message::ControlChange(0, 2, 0)), vec![0, 1, 2]);
    assert!(conn.midi_message(&Message::AllNotesOff(0)).is_empty());
}

#[test]
fn voice_note_on_tunes_and_starts_envelope() {
    let t = tables();
    let c = Config::new(44100, 16, 1, 1, 20).unwrap();
    let mut v = Voice::new(&c);
    assert_eq!(v.run(&t), vec![0; 16]);
    v.midi_message(&Message::NoteOn(0, 69, 100), &t);
    assert_eq!(v.note(), Some(69));
    assert_eq!(v.env().state(), State::Up);
    let out = v.run(&t);
    assert!(out.iter().any(|&s| s != 0));
    assert_eq!(v.env().position(), 16);
}

#[test]
fn voice_ignores_stale_note_off() {
    let t = tables();
    let c = Config::new(44100, 16, 1, 1, 20).unwrap();
    let mut v = Voice::new(&c);
    v.midi_message(&Message::NoteOn(0, 60, 100), &t);
    v.midi_message(&Message::NoteOff(0, 61, 0), &t);
    assert_eq!(v.env().state(), State::Up);
    v.midi_message(&Message::NoteOff(0, 60, 0), &t);
    assert_eq!(v.env().state(), State::Down);
    v.midi_message(&Message::NoteOn(0, 62, 100), &t);
    v.midi_message(&Message::AllNotesOff(0), &t);
    assert_eq!(v.env().state(), State::Down);
}

#[test]
fn voice_drawbars() {
    let t = tables();
    let c = Config::new(44100, 16, 1, 1, 20).unwrap();
    let mut v = Voice::new(&c);
    assert_eq!(v.level(0), MIX_MAX);
    assert_eq!(v.level(1), 762);
    v.midi_message(&Message::ControlChange(0, 2, 127), &t);
    assert_eq!(v.level(0), 0);
    v.midi_message(&Message::ControlChange(0, 13, 0), &t);
    assert_eq!(v.level(8), MIX_MAX);
    v.midi_message(&Message::ControlChange(0, 5, 27), &t);
    assert_eq!(v.level(3), 1000);
    v.midi_message(&Message::ControlChange(0, 7, 0), &t);
    for slot in 0..9 {
        assert!(v.level(slot) <= MIX_MAX);
    }
}

#[test]
fn group_mixes_its_voices() {
    let t = tables();
    let c = Config::new(44100, 16, 2, 1, 20).unwrap();
    let mut g = VoiceGroup::new(&c, 2);
    let mut a = Voice::new(&c);
    let mut b = Voice::new(&c);
    let m1 = Message::NoteOn(0, 60, 100);
    let m2 = Message::NoteOn(0, 67, 100);
    g.midi_message(0, &m1, &t);
    g.midi_message(1, &m2, &t);
    a.midi_message(&m1, &t);
    b.midi_message(&m2, &t);
    for _ in 0..3 {
        let out = g.run(&t);
        let xa = a.run(&t);
        let xb = b.run(&t);
        for k in 0..16 {
            assert_eq!(out[k], xa[k] + xb[k]);
        }
    }
    assert_eq!(g.note(1), Some(67));
}

#[test]
fn end_to_end_note_attack_and_release() {
    let c = Config::new(44100, 16, 2, 1, 20).unwrap();
    let mut multi = Multi::new(c, tables());
    let ramp = 882;
    for _ in 0..10 {
        assert_eq!(multi.run(), vec![0; 16]);
    }
    multi.midi_message(&Message::NoteOn(0, 60, 100));
    let mut heard = false;
    for _ in 0..50 {
        let block = multi.run();
        assert_eq!(block.len(), 16);
        heard |= block.iter().any(|&s| s != 0);
    }
    assert!(heard);
    multi.midi_message(&Message::NoteOff(0, 60, 0));
    let mut tail = Vec::new();
    for _ in 0..((ramp + 16 * 20) / 16) {
        tail.extend(multi.run());
    }
    // 800 samples into an attack of 882, the release takes 800 samples
    assert!(tail[..799].iter().any(|&s| s != 0));
    assert!(tail[800..].iter().all(|&s| s == 0));
    assert!(tail[ramp..].iter().all(|&s| s == 0));
    for _ in 0..10 {
        assert_eq!(multi.run(), vec![0; 16]);
    }
}

#[test]
fn release_decays_linearly() {
    // a single drawbar at a constant waveform shows the envelope's shape
    let mut wave = vec![ONE; WAVE_LEN];
    wave[0] = ONE;
    let t = Tables::new(wave, vec![0; 128]).unwrap();
    let c = Config::new(1000, 4, 1, 1, 8).unwrap();
    let mut v = Voice::new(&c);
    for slot in [2u8, 3, 4, 5, 6, 8, 9, 12] {
        v.midi_message(&Message::ControlChange(0, slot, 127), &t);
    }
    v.midi_message(&Message::ControlChange(0, 13, 0), &t);
    v.midi_message(&Message::NoteOn(0, 60, 100), &t);
    v.run(&t);
    v.run(&t);
    v.midi_message(&Message::NoteOff(0, 60, 0), &t);
    let mut out = v.run(&t);
    out.extend(v.run(&t));
    let full = ONE / 4;
    let want: Vec<i32> = (0..8).map(|k| ((full as i64 * (7 - k)) / 8) as i32).collect();
    assert_eq!(out, want);
}

#[test]
fn pool_spreads_voices_over_groups() {
    let c = Config::new(44100, 16, 5, 2, 20).unwrap();
    let mut multi = Multi::new(c, tables());
    for n in 60u8..65 {
        multi.midi_message(&Message::NoteOn(0, n, 100));
    }
    assert_eq!(multi.note_of(0), Some(64));
    assert_eq!(multi.note_of(4), Some(63));
    let out = multi.run();
    assert_eq!(out.len(), 16);
    multi.midi_message(&Message::NoteOn(0, 70, 100));
    assert_eq!(multi.note_of(1), Some(70));
}

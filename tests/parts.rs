use organn::config::{Config, ConfigError, Tables};
use organn::env::{Env, State};
use organn::handoff::{Handoff, Stride};
use organn::message::{parse_midi_bytes, Message};
use organn::mixer::{silence, Mixer};
use organn::oscillator::{wave_at_phase, Oscillator, FREQ_ONE, WAVE_LEN};
use organn::sample::{interpolate, level_down, scale_sample, LEVEL_ONE, ONE};

fn sine_table() -> Vec<i32> {
    (0..WAVE_LEN)
        .map(|i| {
            let x = (i as f64) / (WAVE_LEN as f64) * std::f64::consts::PI * 2.0;
            (x.sin() * ONE as f64).round() as i32
        })
        .collect()
}

fn hz(f: f64) -> u64 {
    (f * FREQ_ONE as f64).round() as u64
}

#[test]
fn envelope_full_note_cycle() {
    // 10 ms at 1000 Hz: a ramp of 10 samples
    let mut env = Env::new(10, 1000);
    assert_eq!(env.ramp_length(), 10);
    assert_eq!(env.state(), State::Off);
    env.note_on();
    let out = env.run(&vec![ONE; 10]);
    assert_eq!(env.position(), 10);
    assert_eq!(out[9], ONE);
    for k in 0..10 {
        assert_eq!(out[k], ONE / 10 * 0 + ((ONE as i64 * (k as i64 + 1)) / 10) as i32);
    }
    env.note_off();
    let out = env.run(&vec![ONE; 10]);
    assert_eq!(env.position(), 0);
    assert_eq!(out[9], 0);
    for k in 0..10 {
        assert_eq!(out[k], ((ONE as i64 * (9 - k as i64)) / 10) as i32);
    }
    let out = env.run(&vec![ONE; 20]);
    assert!(out.iter().all(|&s| s == 0));
    assert_eq!(env.state(), State::Off);
}

#[test]
fn envelope_reaches_sustain_after_top() {
    let mut env = Env::new(4, 1000);
    env.note_on();
    env.run(&vec![0; 4]);
    assert_eq!(env.state(), State::Up);
    env.process(0);
    assert_eq!(env.state(), State::On);
    assert_eq!(env.position(), 4);
}

#[test]
fn envelope_retrigger_resumes_from_position() {
    let mut env = Env::new(10, 1000);
    env.note_on();
    env.run(&vec![0; 10]);
    env.note_off();
    env.run(&vec![0; 4]);
    assert_eq!(env.position(), 6);
    assert_eq!(env.state(), State::Down);
    env.note_on();
    assert_eq!(env.position(), 6);
    assert_eq!(env.process(ONE), ((ONE as i64 * 7) / 10) as i32);
    assert_eq!(env.position(), 7);
}

#[test]
fn envelope_negative_samples_round_toward_zero() {
    let mut env = Env::new(3, 1000);
    env.note_on();
    assert_eq!(env.process(-10), -3);
    assert_eq!(env.process(10), 6);
}

#[test]
fn mix_two_sources_any_order() {
    let m = Mixer::new(vec![LEVEL_ONE / 2, LEVEL_ONE / 4], 4);
    let out = m.run(&vec![vec![ONE; 4], vec![2 * ONE; 4]]);
    assert_eq!(out, vec![ONE; 4]);
    let swapped = Mixer::new(vec![LEVEL_ONE / 4, LEVEL_ONE / 2], 4);
    let out2 = swapped.run(&vec![vec![2 * ONE; 4], vec![ONE; 4]]);
    assert_eq!(out2, out);
}

#[test]
fn mix_has_no_normalisation_and_saturates() {
    let m = Mixer::new(vec![LEVEL_ONE, LEVEL_ONE, LEVEL_ONE], 2);
    let out = m.run(&vec![vec![ONE, -ONE], vec![ONE, -ONE], vec![ONE, -ONE]]);
    assert_eq!(out, vec![3 * ONE, -3 * ONE]);
    let loud = Mixer::new(vec![LEVEL_ONE * 4], 2);
    let out = loud.run(&vec![vec![i32::MAX, i32::MIN]]);
    assert_eq!(out, vec![i32::MAX, i32::MIN]);
}

#[test]
fn mix_set_level_replaces_one_gain() {
    let mut m = Mixer::new(vec![LEVEL_ONE, LEVEL_ONE], 1);
    m.set_level(1, 0);
    assert_eq!(m.level(1), 0);
    assert_eq!(m.level(0), LEVEL_ONE);
    assert_eq!(m.run(&vec![vec![100], vec![1000]]), vec![100]);
}

#[test]
fn mix_with_no_sources_is_silent() {
    let m = Mixer::new(vec![], 3);
    assert_eq!(m.run(&vec![]), vec![0, 0, 0]);
}

#[test]
fn mix_substitutes_silence_for_missing_blocks() {
    let m = Mixer::new(vec![1270, 1270], 2);
    let out = m.run_or_silence(&vec![Some(vec![4 * ONE, 8]), None]);
    assert_eq!(out, vec![ONE, 2]);
    assert_eq!(silence(3), vec![0, 0, 0]);
}

#[test]
fn level_down_rounds_toward_zero() {
    assert_eq!(level_down(5079), 0);
    assert_eq!(level_down(-5079), 0);
    assert_eq!(level_down(-10160), -2);
    assert_eq!(level_down(i128::MAX), i32::MAX);
}

#[test]
fn scale_and_interpolate() {
    assert_eq!(scale_sample(-7, 1, 2), -3);
    assert_eq!(scale_sample(i32::MIN, 1, 1), i32::MIN);
    assert_eq!(interpolate(10, 20, 1, 4), 12);
    assert_eq!(interpolate(20, 10, 1, 4), 18);
    assert_eq!(interpolate(i32::MIN, i32::MAX, 1, 1), i32::MAX);
}

#[test]
fn wavetable_lookup_interpolates_between_entries() {
    let mut table = vec![0; WAVE_LEN];
    table[1] = 1000;
    assert_eq!(wave_at_phase(&table, 0x10_0000), 1000);
    assert_eq!(wave_at_phase(&table, 0x08_0000), 500);
    assert_eq!(wave_at_phase(&table, 0x18_0000), 500);
    table[0] = 400;
    // the last entry leads back to the first
    assert_eq!(wave_at_phase(&table, 0xFFF0_0000 + 0x08_0000), 200);
}

#[test]
fn oscillator_out_of_range_frequencies_are_silent() {
    let table = sine_table();
    for f in [0u64, hz(22050.0), hz(21000.0), u64::MAX] {
        let mut osc = Oscillator::new(44100);
        osc.set_freq(hz(1000.0));
        osc.run(&table, 7);
        osc.set_freq(f);
        assert!(osc.run(&table, 32).iter().all(|&s| s == 0));
    }
    let mut osc = Oscillator::new(44100);
    osc.set_freq(hz(20999.0));
    assert!(osc.run(&table, 32).iter().any(|&s| s != 0));
}

#[test]
fn oscillator_steady_state_is_periodic() {
    let table = sine_table();
    let mut osc = Oscillator::new(44100);
    osc.set_freq(hz(441.0));
    let out = osc.run(&table, 1000);
    for n in 0..900 {
        assert!((out[n + 100] - out[n]).abs() <= 4, "sample {}", n);
    }
    // a quarter period in, the sine is at its peak
    assert!((out[25] - ONE).abs() <= 4);
    assert_eq!(out[0], 0);
}

#[test]
fn oscillator_with_exact_period_repeats_exactly() {
    // 512 Hz at 32768 Hz: an increment of 2^26, a period of 64 samples
    let table = sine_table();
    let mut osc = Oscillator::new(32768);
    osc.set_freq(512 * FREQ_ONE);
    let out = osc.run(&table, 256);
    for k in 0..192 {
        assert_eq!(out[k + 64], out[k]);
    }
    assert_eq!(out[16], ONE);
    assert_eq!(out[48], -ONE);
}

#[test]
fn oscillator_tracks_sine() {
    let table = sine_table();
    let mut osc = Oscillator::new(48000);
    osc.set_freq(hz(1234.5));
    let out = osc.run(&table, 500);
    for (n, &s) in out.iter().enumerate() {
        let want = ((n as f64) * 1234.5 / 48000.0 * std::f64::consts::PI * 2.0).sin() * ONE as f64;
        assert!((s as f64 - want).abs() < 8.0, "sample {}: {} vs {}", n, s, want);
    }
}

#[test]
fn oscillator_frequency_change_is_click_free() {
    let table = sine_table();
    let mut osc = Oscillator::new(44100);
    osc.set_freq(hz(300.0));
    let before = osc.run(&table, 37);
    osc.set_freq(hz(1700.0));
    let after = osc.run(&table, 37);
    let mut plain = Oscillator::new(44100);
    plain.set_freq(hz(300.0));
    let unchanged = plain.run(&table, 38);
    // the first sample after the change is where it would have been anyway
    assert_eq!(after[0], unchanged[37]);
    // and the jump across the change is no more than one ordinary step
    let step = (after[0] - before[36]).abs() as f64;
    let bound = 2.0 * std::f64::consts::PI * 300.0 / 44100.0 * ONE as f64 + 8.0;
    assert!(step <= bound);
}

#[test]
fn parse_note_and_control_messages() {
    assert_eq!(parse_midi_bytes(&[0x93, 60, 100]), Some(Message::NoteOn(3, 60, 100)));
    assert_eq!(parse_midi_bytes(&[0x9F, 60, 0]), Some(Message::NoteOff(15, 60, 0)));
    assert_eq!(parse_midi_bytes(&[0x80, 61, 5]), Some(Message::NoteOff(0, 61, 5)));
    assert_eq!(parse_midi_bytes(&[0xB2, 7, 127, 9]), Some(Message::ControlChange(2, 7, 127)));
}

#[test]
fn parse_refuses_other_packets() {
    assert_eq!(parse_midi_bytes(&[]), None);
    assert_eq!(parse_midi_bytes(&[0x90, 60]), None);
    assert_eq!(parse_midi_bytes(&[0xC0, 5, 5]), None);
    assert_eq!(parse_midi_bytes(&[0xE0, 0, 64]), None);
    assert_eq!(parse_midi_bytes(&[0x90, 200, 64]), None);
    assert_eq!(parse_midi_bytes(&[0x90, 60, 128]), None);
}

#[test]
fn config_errors() {
    assert_eq!(Config::new(0, 16, 2, 1, 20), Err(ConfigError::ZeroSampleRate));
    assert_eq!(Config::new(44100, 0, 2, 1, 20), Err(ConfigError::ZeroBlockSize));
    assert_eq!(Config::new(44100, 16, 0, 1, 20), Err(ConfigError::ZeroPolyphony));
    assert_eq!(Config::new(44100, 16, 2, 0, 20), Err(ConfigError::ZeroThreads));
    assert_eq!(Config::new(44100, 16, 2, 1, 0), Err(ConfigError::RampTooShort));
    assert_eq!(Config::new(500, 16, 2, 1, 1), Err(ConfigError::RampTooShort));
    assert_eq!(Config::new(u32::MAX, 16, 2, 1, u32::MAX), Err(ConfigError::RampTooLong));
    let c = Config::new(44100, 16, 2, 1, 20).unwrap();
    assert_eq!(c.sample_rate, 44100);
    assert_eq!(c.ramp_ms, 20);
}

#[test]
fn tables_errors() {
    assert_eq!(Tables::new(vec![0; 10], vec![0; 128]).err(), Some(ConfigError::WaveTableLength));
    assert_eq!(Tables::new(vec![0; WAVE_LEN], vec![0; 12]).err(), Some(ConfigError::PitchTableLength));
    let t = Tables::new(vec![0; WAVE_LEN], (0..128u64).collect()).unwrap();
    assert_eq!(t.pitch(69), 69);
}

#[test]
fn group_layout() {
    let c = Config::new(44100, 16, 10, 4, 20).unwrap();
    assert_eq!(c.group_size(0), 4);
    assert_eq!(c.group_size(3), 2);
    assert_eq!(c.group_start(1), 4);
    assert_eq!(c.group_start(4), 10);
    assert_eq!(c.locate(0), (0, 0));
    assert_eq!(c.locate(3), (0, 3));
    assert_eq!(c.locate(4), (1, 0));
    assert_eq!(c.locate(9), (3, 1));
    let even = Config::new(44100, 16, 32, 4, 20).unwrap();
    assert_eq!(even.group_size(0), 8);
    assert_eq!(even.locate(31), (3, 7));
}

#[test]
fn handoff_cell_takes_and_clears() {
    let mut h = Handoff::new();
    assert!(!h.is_primed());
    h.supply_audio(vec![1, 2]);
    h.supply_audio(vec![3, 4]);
    assert!(h.is_primed());
    assert_eq!(h.get_audio(), vec![3, 4]);
    assert!(!h.is_primed());
}

#[test]
fn stride_walks_blocks() {
    let mut s = Stride::new();
    assert!(s.needs_block());
    s.refill(vec![5, 6]);
    assert!(!s.needs_block());
    assert_eq!(s.next_sample(), 5);
    assert_eq!(s.next_sample(), 6);
    assert!(s.needs_block());
}

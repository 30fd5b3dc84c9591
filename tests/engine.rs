use squaresynth::engine::{release, Channel, Context, Tone, Voice, CENTRE_PAN, DEFAULT_TEMPO, DEFAULT_VOLUME, TICK_ONE};
use squaresynth::event::Event;

const RATE: u32 = 44100;

fn step_table(sample_rate: u32) -> Vec<u32> {
    (0..128)
        .map(|n| {
            let freq = 440.0 * 2f64.powf((n as f64 - 69.0) / 12.0);
            (freq / sample_rate as f64 * 4294967296.0) as u32
        })
        .collect()
}

fn context(events: Vec<Event>) -> Context {
    Context::new(events, RATE, 480, step_table(RATE))
}

#[test]
fn event_tick_of_each_kind() {
    assert_eq!(Event::On { tick: 3, channel: 1, notenum: 60, velocity: 90 }.tick(), 3);
    assert_eq!(Event::Off { tick: 4, channel: 1, notenum: 60 }.tick(), 4);
    assert_eq!(Event::Volume { tick: 5, channel: 2, volume: 10 }.tick(), 5);
    assert_eq!(Event::Pan { tick: 6, channel: 2, pan: 0 }.tick(), 6);
    assert_eq!(Event::Tempo { tick: 7, tempo: 400000 }.tick(), 7);
    assert_eq!(Event::Tempo { tick: 7, tempo: 400000 }.channel(), 0);
    assert_eq!(Event::Pan { tick: 6, channel: 2, pan: 0 }.channel(), 2);
}

#[test]
fn new_sizes_channels_from_largest_index() {
    let c = context(vec![
        Event::On { tick: 0, channel: 3, notenum: 60, velocity: 100 },
        Event::Volume { tick: 0, channel: 1, volume: 50 },
    ]);
    assert_eq!(c.channels.len(), 4);
    for ch in &c.channels {
        assert_eq!(*ch, Channel { volume: DEFAULT_VOLUME, pan: CENTRE_PAN });
    }
    assert_eq!(c.tempo, DEFAULT_TEMPO);
    assert_eq!(c.now, 0);
    assert_eq!(c.position, 0);
    assert!(c.voices.is_empty());
    assert!(!c.is_end());
}

#[test]
fn new_with_no_events_has_one_channel_and_is_finished() {
    let c = context(vec![]);
    assert_eq!(c.channels.len(), 1);
    assert!(c.is_end());
}

#[test]
fn note_on_and_off_on_one_tick_leave_no_voice() {
    let mut c = context(vec![
        Event::On { tick: 0, channel: 0, notenum: 60, velocity: 127 },
        Event::Off { tick: 0, channel: 0, notenum: 60 },
    ]);
    let tones = c.sample();
    assert!(tones.is_empty());
    assert!(c.voices.is_empty());
    assert!(c.is_end());
}

#[test]
fn stacked_notes_release_the_oldest_first() {
    let mut c = context(vec![
        Event::On { tick: 0, channel: 0, notenum: 60, velocity: 10 },
        Event::On { tick: 0, channel: 0, notenum: 60, velocity: 20 },
        Event::Off { tick: 0, channel: 0, notenum: 60 },
    ]);
    let tones = c.sample();
    assert_eq!(tones.len(), 1);
    assert_eq!(tones[0].velocity, 20);
    assert_eq!(c.voices.len(), 1);
    assert_eq!(c.voices[0].velocity, 20);
}

#[test]
fn note_off_between_two_note_ons_leaves_one_voice() {
    let mut c = context(vec![
        Event::On { tick: 0, channel: 2, notenum: 64, velocity: 10 },
        Event::Off { tick: 0, channel: 2, notenum: 64 },
        Event::On { tick: 0, channel: 2, notenum: 64, velocity: 30 },
    ]);
    c.sample();
    assert_eq!(c.voices.len(), 1);
    assert_eq!(c.voices[0].velocity, 30);
}

#[test]
fn dangling_note_off_is_ignored() {
    let mut c = context(vec![
        Event::On { tick: 0, channel: 0, notenum: 60, velocity: 10 },
        Event::Off { tick: 0, channel: 0, notenum: 61 },
        Event::Off { tick: 0, channel: 1, notenum: 60 },
    ]);
    c.sample();
    assert_eq!(c.voices.len(), 1);
    assert!(c.is_end());
}

#[test]
fn end_to_end_single_note() {
    let steps = step_table(RATE);
    let mut c = Context::new(
        vec![
            Event::Tempo { tick: 0, tempo: 500000 },
            Event::On { tick: 0, channel: 0, notenum: 69, velocity: 127 },
            Event::Off { tick: 960, channel: 0, notenum: 69 },
        ],
        RATE,
        480,
        steps.clone(),
    );
    let first = c.sample();
    assert_eq!(first.len(), 1);
    assert_eq!(c.voices[0].step, steps[69]);
    let increment = c.voices[0].step as f64 / 4294967296.0;
    assert!((increment - 440.0 / 44100.0).abs() < 1e-9);
    assert!((increment - 0.00998).abs() < 1e-5);
    let mut sounding: u64 = 1;
    let mut n: u64 = 1;
    while !c.is_end() {
        let tones = c.sample();
        if !tones.is_empty() {
            sounding += 1;
        }
        n += 1;
        assert!(n < 100000);
    }
    // two beats at 120 beats per minute: one second
    assert!(n >= 44100 && n <= 44102, "ended after {} samples", n);
    assert!(c.voices.is_empty());
    assert_eq!(sounding, n - 1);
    for _ in 0..10 {
        assert!(c.sample().is_empty());
    }
}

#[test]
fn is_end_twice_gives_the_same_answer() {
    let mut c = context(vec![
        Event::On { tick: 0, channel: 0, notenum: 60, velocity: 10 },
        Event::Off { tick: 1, channel: 0, notenum: 60 },
    ]);
    assert_eq!(c.is_end(), c.is_end());
    c.sample();
    assert!(!c.is_end());
    assert_eq!(c.is_end(), c.is_end());
}

fn render(n: usize) -> Vec<Vec<Tone>> {
    let mut c = context(vec![
        Event::On { tick: 0, channel: 0, notenum: 60, velocity: 100 },
        Event::Pan { tick: 10, channel: 0, pan: 20 },
        Event::On { tick: 12, channel: 1, notenum: 67, velocity: 80 },
        Event::Tempo { tick: 20, tempo: 300000 },
        Event::Off { tick: 40, channel: 0, notenum: 60 },
    ]);
    (0..n).map(|_| c.sample()).collect()
}

#[test]
fn output_is_deterministic() {
    assert_eq!(render(3000), render(3000));
}

#[test]
fn phase_after_n_samples_is_n_steps_modulo_a_cycle() {
    let mut c = context(vec![Event::On { tick: 0, channel: 0, notenum: 100, velocity: 100 }]);
    let step = step_table(RATE)[100];
    let n: u64 = 5000;
    let mut highs = 0;
    for _ in 0..n {
        if c.sample()[0].high {
            highs += 1;
        }
    }
    assert_eq!(c.voices[0].phase as u64, (n * step as u64) % (1u64 << 32));
    assert!(highs > 0 && highs < n);
}

#[test]
fn tones_follow_channel_settings_and_age() {
    let mut c = context(vec![
        Event::On { tick: 0, channel: 1, notenum: 60, velocity: 99 },
        Event::Volume { tick: 0, channel: 1, volume: 40 },
        Event::Pan { tick: 0, channel: 1, pan: 127 },
    ]);
    let first = c.sample();
    assert_eq!(
        first[0],
        Tone { high: true, volume: 40, velocity: 99, pan: 127, age: 0 }
    );
    c.sample();
    let third = c.sample();
    assert_eq!(third[0].age, 2);
    assert_eq!(c.channels[0], Channel { volume: DEFAULT_VOLUME, pan: CENTRE_PAN });
}

#[test]
fn note_begins_at_the_sample_that_reaches_its_tick() {
    let mut c = context(vec![Event::On { tick: 1, channel: 0, notenum: 60, velocity: 1 }]);
    let step = c.position;
    assert_eq!(step, 0);
    let mut n: u64 = 0;
    while c.sample().is_empty() {
        n += 1;
        assert!(n < 1000);
    }
    // one tick of 480 per half second: 45.9375 samples
    assert_eq!(n, 46);
    assert_eq!(c.voices[0].start, 46);
}

#[test]
fn position_moves_by_the_tempo_in_force() {
    let mut c = context(vec![
        Event::Tempo { tick: 0, tempo: 1000000 },
        Event::On { tick: 1000, channel: 0, notenum: 60, velocity: 1 },
    ]);
    c.sample();
    let per_sample = 480u128 * 1_000_000 * TICK_ONE / (1_000_000u128 * 44100);
    assert_eq!(c.position, per_sample);
    assert_eq!(c.tempo, 1000000);
    c.sample();
    assert_eq!(c.position, 2 * per_sample);
    assert_eq!(c.now, 2);
}

#[test]
fn zero_tempo_reaches_every_event_at_once() {
    let mut c = context(vec![
        Event::Tempo { tick: 0, tempo: 0 },
        Event::On { tick: 1_000_000, channel: 0, notenum: 60, velocity: 1 },
    ]);
    c.sample();
    assert_eq!(c.position, u128::MAX);
    assert!(!c.is_end());
    assert_eq!(c.sample().len(), 1);
    assert!(c.is_end());
    c.sample();
    assert_eq!(c.position, u128::MAX);
}

#[test]
fn release_takes_out_only_the_first_match() {
    let v = |channel: u8, notenum: u8, velocity: u8| Voice {
        start: 0,
        channel,
        notenum,
        velocity,
        phase: 0,
        step: 1,
    };
    let mut voices = vec![v(0, 60, 1), v(1, 60, 2), v(0, 60, 3), v(0, 61, 4)];
    release(&mut voices, 0, 60);
    assert_eq!(voices, vec![v(1, 60, 2), v(0, 60, 3), v(0, 61, 4)]);
    release(&mut voices, 5, 5);
    assert_eq!(voices.len(), 3);
}

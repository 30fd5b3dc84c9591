use squaresynth::event::Event;
use squaresynth::score::{load, message_event, Message, TrackEvent};

fn ev(delta: u32, message: Message) -> TrackEvent {
    TrackEvent { delta, message }
}

#[test]
fn deltas_add_up_within_a_track() {
    let tracks = vec![vec![
        ev(0, Message::NoteOn { channel: 0, key: 60, vel: 100 }),
        ev(240, Message::NoteOff { channel: 0, key: 60 }),
        ev(240, Message::Tempo { micros: 400000 }),
    ]];
    assert_eq!(
        load(&tracks),
        vec![
            Event::On { tick: 0, channel: 0, notenum: 60, velocity: 100 },
            Event::Off { tick: 240, channel: 0, notenum: 60 },
            Event::Tempo { tick: 480, tempo: 400000 },
        ]
    );
}

#[test]
fn only_volume_and_pan_controllers_become_events() {
    let tracks = vec![vec![
        ev(1, Message::Controller { channel: 3, controller: 7, value: 90 }),
        ev(1, Message::Controller { channel: 3, controller: 10, value: 0 }),
        ev(1, Message::Controller { channel: 3, controller: 64, value: 127 }),
        ev(1, Message::Other),
        ev(1, Message::NoteOn { channel: 3, key: 1, vel: 2 }),
    ]];
    assert_eq!(
        load(&tracks),
        vec![
            Event::Volume { tick: 1, channel: 3, volume: 90 },
            Event::Pan { tick: 2, channel: 3, pan: 0 },
            Event::On { tick: 5, channel: 3, notenum: 1, velocity: 2 },
        ]
    );
}

#[test]
fn tracks_merge_by_tick_keeping_order_of_ties() {
    let tracks = vec![
        vec![
            ev(0, Message::NoteOn { channel: 0, key: 60, vel: 1 }),
            ev(10, Message::NoteOff { channel: 0, key: 60 }),
        ],
        vec![
            ev(0, Message::Tempo { micros: 600000 }),
            ev(5, Message::NoteOn { channel: 1, key: 62, vel: 2 }),
            ev(5, Message::NoteOn { channel: 1, key: 64, vel: 3 }),
        ],
    ];
    assert_eq!(
        load(&tracks),
        vec![
            Event::On { tick: 0, channel: 0, notenum: 60, velocity: 1 },
            Event::Tempo { tick: 0, tempo: 600000 },
            Event::On { tick: 5, channel: 1, notenum: 62, velocity: 2 },
            Event::Off { tick: 10, channel: 0, notenum: 60 },
            Event::On { tick: 10, channel: 1, notenum: 64, velocity: 3 },
        ]
    );
}

#[test]
fn empty_score_loads_no_events() {
    assert!(load(&vec![]).is_empty());
    assert!(load(&vec![vec![], vec![ev(3, Message::Other)]]).is_empty());
}

#[test]
fn message_event_maps_each_message() {
    assert_eq!(message_event(&Message::Other, 9), None);
    assert_eq!(
        message_event(&Message::Tempo { micros: 1 }, 9),
        Some(Event::Tempo { tick: 9, tempo: 1 })
    );
    assert_eq!(
        message_event(&Message::Controller { channel: 0, controller: 11, value: 1 }, 9),
        None
    );
}

#[test]
fn long_tracks_sum_their_deltas() {
    let mut track = vec![ev(u32::MAX, Message::Other); 4];
    for _ in 0..4 {
        track.extend(vec![ev(u32::MAX, Message::Other); 1 << 20]);
    }
    track.push(ev(1, Message::NoteOff { channel: 0, key: 1 }));
    let events = load(&vec![track]);
    assert_eq!(events.len(), 1);
    assert_eq!(events[0].tick(), (4 + 4 * (1u64 << 20)) * u32::MAX as u64 + 1);
}

use vstd::prelude::*;
use crate::event::{Event, sorted_by_tick};

verus! {

/// The controller that sets a channel's volume.
pub const VOLUME_CONTROLLER: u8 = 7;

/// The controller that sets a channel's pan.
pub const PAN_CONTROLLER: u8 = 10;

/// A channel or meta message of a score track, reduced to the values the
/// synthesiser reads. Everything else a track may hold is `Other`.
#[derive(Clone, Copy, Debug, PartialEq, Eq, Structural)]
pub enum Message {
    NoteOn { channel: u8, key: u8, vel: u8 },
    NoteOff { channel: u8, key: u8 },
    Controller { channel: u8, controller: u8, value: u8 },
    /// A tempo meta message: microseconds per quarter note.
    Tempo { micros: u32 },
    Other,
}

/// A message and its distance in ticks from the previous one of its track.
#[derive(Clone, Copy, Debug, PartialEq, Eq, Structural)]
pub struct TrackEvent {
    pub delta: u32,
    pub message: Message,
}

/// The score event a message becomes at the given tick, if any.
pub open spec fn event_of(m: Message, tick: u64) -> Option<Event> {
    match m {
        Message::NoteOn { channel, key, vel } => Some(
            Event::On { tick, channel, notenum: key, velocity: vel },
        ),
        Message::NoteOff { channel, key } => Some(Event::Off { tick, channel, notenum: key }),
        Message::Controller { channel, controller, value } => if controller == VOLUME_CONTROLLER {
            Some(Event::Volume { tick, channel, volume: value })
        } else if controller == PAN_CONTROLLER {
            Some(Event::Pan { tick, channel, pan: value })
        } else {
            None
        },
        Message::Tempo { micros } => Some(Event::Tempo { tick, tempo: micros }),
        Message::Other => None,
    }
}

pub open spec fn option_seq(o: Option<Event>) -> Seq<Event> {
    match o {
        Some(e) => seq![e],
        None => Seq::empty(),
    }
}

/// A track's running position after a further `delta` ticks, held at the
/// largest `u64` rather than wrapping.
pub open spec fn next_beat(beat: u64, delta: u32) -> u64 {
    if beat + delta > u64::MAX {
        u64::MAX
    } else {
        (beat + delta) as u64
    }
}

/// The events of `track` from index `i` on, where `beat` is the position
/// reached before index `i`.
pub open spec fn track_from(track: Seq<TrackEvent>, i: int, beat: u64) -> Seq<Event>
    decreases track.len() - i,
{
    if i < 0 || i >= track.len() {
        Seq::empty()
    } else {
        let b = next_beat(beat, track[i].delta);
        option_seq(event_of(track[i].message, b)) + track_from(track, i + 1, b)
    }
}

/// The events of the tracks from index `j` on, track after track.
pub open spec fn tracks_from(tracks: Seq<Vec<TrackEvent>>, j: int) -> Seq<Event>
    decreases tracks.len() - j,
{
    if j < 0 || j >= tracks.len() {
        Seq::empty()
    } else {
        track_from(tracks[j]@, 0, 0) + tracks_from(tracks, j + 1)
    }
}

/// The events of `s` at tick `t`, in their order in `s`.
pub open spec fn at_tick(s: Seq<Event>, t: u64) -> Seq<Event> {
    s.filter(|e: Event| e.tick_of() == t)
}

/// `r` is `s` sorted by tick, with the events of one tick kept in their
/// order in `s`.
pub open spec fn stably_sorted(r: Seq<Event>, s: Seq<Event>) -> bool {
    &&& sorted_by_tick(r)
    &&& forall|t: u64| #[trigger] at_tick(r, t) == at_tick(s, t)
}

/// Relies on `slice::sort_by_key`, a stable sort: the result is ordered by
/// the key and equal keys keep their order.
#[verifier::external_body]
fn sort_by_tick(v: &mut Vec<Event>)
    ensures
        stably_sorted(final(v)@, old(v)@),
{
    v.sort_by_key(|e| e.tick());
}

pub fn message_event(m: &Message, tick: u64) -> (r: Option<Event>)
    ensures
        r == event_of(*m, tick),
{
    match *m {
        Message::NoteOn { channel, key, vel } => Some(
            Event::On { tick, channel, notenum: key, velocity: vel },
        ),
        Message::NoteOff { channel, key } => Some(Event::Off { tick, channel, notenum: key }),
        Message::Controller { channel, controller, value } => if controller == VOLUME_CONTROLLER {
            Some(Event::Volume { tick, channel, volume: value })
        } else if controller == PAN_CONTROLLER {
            Some(Event::Pan { tick, channel, pan: value })
        } else {
            None
        },
        Message::Tempo { micros } => Some(Event::Tempo { tick, tempo: micros }),
        Message::Other => None,
    }
}

/// The score's events, each track's deltas summed into positions, sorted
/// by tick; events of one tick keep their order, track after track.
pub fn load(tracks: &Vec<Vec<TrackEvent>>) -> (r: Vec<Event>)
    ensures
        stably_sorted(r@, tracks_from(tracks@, 0)),
{
    let mut out: Vec<Event> = Vec::new();
    let mut j: usize = 0;
    while j < tracks.len()
        invariant
            j <= tracks.len(),
            out@ + tracks_from(tracks@, j as int) == tracks_from(tracks@, 0),
        decreases tracks.len() - j,
    {
        let track = &tracks[j];
        let mut beat: u64 = 0;
        let mut i: usize = 0;
        while i < track.len()
            invariant
                i <= track.len(),
                j < tracks.len(),
                track@ == tracks@[j as int]@,
                out@ + track_from(track@, i as int, beat) + tracks_from(tracks@, j + 1)
                    == tracks_from(tracks@, 0),
            decreases track.len() - i,
        {
            let te = &track[i];
            let ghost before = out@;
            let ghost old_beat = beat;
            beat = beat.saturating_add(te.delta as u64);
            match message_event(&te.message, beat) {
                Some(e) => out.push(e),
                None => {},
            }
            proof {
                let head = option_seq(event_of(te.message, beat));
                let rest = track_from(track@, i + 1, beat);
                let others = tracks_from(tracks@, j + 1);
                assert(beat == next_beat(old_beat, te.delta));
                assert(track_from(track@, i as int, old_beat) == head + rest);
                assert(out@ =~= before + head);
                assert(before + (head + rest) + others =~= out@ + rest + others);
            }
            i += 1;
        }
        j += 1;
    }
    sort_by_tick(&mut out);
    out
}

} // verus!

use vstd::prelude::*;

verus! {

/// One score event. Every value is held exactly, as the score gives it:
/// - `tick` is a position in the score's own ticks (a quarter note is
///   the score's ticks-per-beat);
/// - `velocity` and `volume` are levels out of 127;
/// - `pan` is a pan controller value: 64 is the centre, 1 and below hard
///   left, 127 hard right;
/// - `tempo` is the length of a quarter note in microseconds.
#[derive(Clone, Copy, Debug, PartialEq, Eq, Structural)]
pub enum Event {
    On { tick: u64, channel: u8, notenum: u8, velocity: u8 },
    Off { tick: u64, channel: u8, notenum: u8 },
    Volume { tick: u64, channel: u8, volume: u8 },
    Pan { tick: u64, channel: u8, pan: u8 },
    Tempo { tick: u64, tempo: u32 },
}

impl Event {
    /// The score position of the event.
    pub open spec fn tick_of(self) -> u64 {
        match self {
            Event::On { tick, .. } => tick,
            Event::Off { tick, .. } => tick,
            Event::Volume { tick, .. } => tick,
            Event::Pan { tick, .. } => tick,
            Event::Tempo { tick, .. } => tick,
        }
    }

    /// The channel the event addresses; a tempo change addresses none and
    /// counts as channel 0.
    pub open spec fn channel_of(self) -> u8 {
        match self {
            Event::On { channel, .. } => channel,
            Event::Off { channel, .. } => channel,
            Event::Volume { channel, .. } => channel,
            Event::Pan { channel, .. } => channel,
            Event::Tempo { .. } => 0,
        }
    }

    pub fn tick(&self) -> (r: u64)
        ensures
            r == self.tick_of(),
    {
        match self {
            Event::On { tick, .. } => *tick,
            Event::Off { tick, .. } => *tick,
            Event::Volume { tick, .. } => *tick,
            Event::Pan { tick, .. } => *tick,
            Event::Tempo { tick, .. } => *tick,
        }
    }

    pub fn channel(&self) -> (r: u8)
        ensures
            r == self.channel_of(),
    {
        match self {
            Event::On { channel, .. } => *channel,
            Event::Off { channel, .. } => *channel,
            Event::Volume { channel, .. } => *channel,
            Event::Pan { channel, .. } => *channel,
            Event::Tempo { .. } => 0,
        }
    }
}

/// Every event at index below `j` comes no later than the one at `j`.
pub open spec fn sorted_by_tick(s: Seq<Event>) -> bool {
    forall|i: int, j: int| 0 <= i <= j < s.len() ==> s[i].tick_of() <= s[j].tick_of()
}

} // verus!

use vstd::prelude::*;
use crate::event::{Event, sorted_by_tick};

verus! {

/// A channel's volume when no volume change has reached it, out of 127.
pub const DEFAULT_VOLUME: u8 = 100;

/// A centred pan controller value.
pub const CENTRE_PAN: u8 = 64;

/// The tempo before any tempo change: 500000 microseconds per quarter note,
/// which is 120 beats per minute.
pub const DEFAULT_TEMPO: u32 = 500000;

/// One unit of score position, in the fixed-point units of the context's
/// position.
pub const TICK_ONE: u128 = 0x1_0000_0000;

/// Mixing settings of one channel.
#[derive(Clone, Copy, Debug, PartialEq, Eq, Structural)]
pub struct Channel {
    /// Out of 127.
    pub volume: u8,
    /// A pan controller value (see [`Event`]).
    pub pan: u8,
}

/// One sounding note. `phase` runs over a whole cycle of the square wave
/// as it runs over all `u32` values; `step` is what it advances by each
/// sample.
#[derive(Clone, Copy, Debug, PartialEq, Eq, Structural)]
pub struct Voice {
    /// The sample at which the note began.
    pub start: u64,
    pub channel: u8,
    pub notenum: u8,
    pub velocity: u8,
    pub phase: u32,
    pub step: u32,
}

impl Voice {
    pub open spec fn plays(self, channel: u8, notenum: u8) -> bool {
        self.channel == channel && self.notenum == notenum
    }
}

/// What one voice contributes to one sample.
#[derive(Clone, Copy, Debug, PartialEq, Eq, Structural)]
pub struct Tone {
    /// The square wave is at its upper level (the first half of the cycle).
    pub high: bool,
    /// The channel's volume, out of 127.
    pub volume: u8,
    /// The note's velocity, out of 127.
    pub velocity: u8,
    /// The channel's pan controller value.
    pub pan: u8,
    /// Samples since the note began.
    pub age: u64,
}

/// `voices` without its first voice that plays `notenum` on `channel`;
/// `voices` itself where none does.
pub open spec fn remove_first(voices: Seq<Voice>, channel: u8, notenum: u8) -> Seq<Voice>
    decreases voices.len(),
{
    if voices.len() == 0 {
        voices
    } else if voices[0].plays(channel, notenum) {
        voices.drop_first()
    } else {
        seq![voices[0]] + remove_first(voices.drop_first(), channel, notenum)
    }
}

proof fn lemma_remove_first_at(voices: Seq<Voice>, channel: u8, notenum: u8, i: int)
    requires
        0 <= i < voices.len(),
        voices[i].plays(channel, notenum),
        forall|k: int| 0 <= k < i ==> !(#[trigger] voices[k]).plays(channel, notenum),
    ensures
        remove_first(voices, channel, notenum) == voices.remove(i),
    decreases i,
{
    if i > 0 {
        let tail = voices.drop_first();
        assert forall|k: int| 0 <= k < i - 1 implies !(#[trigger] tail[k]).plays(channel, notenum) by {
            assert(tail[k] == voices[k + 1]);
        }
        lemma_remove_first_at(tail, channel, notenum, i - 1);
        assert(!voices[0].plays(channel, notenum));
        assert(seq![voices[0]] + tail.remove(i - 1) =~= voices.remove(i));
    }
}

proof fn lemma_remove_first_none(voices: Seq<Voice>, channel: u8, notenum: u8)
    requires
        forall|k: int| 0 <= k < voices.len() ==> !(#[trigger] voices[k]).plays(channel, notenum),
    ensures
        remove_first(voices, channel, notenum) == voices,
    decreases voices.len(),
{
    if voices.len() > 0 {
        let tail = voices.drop_first();
        assert forall|k: int| 0 <= k < tail.len() implies !(#[trigger] tail[k]).plays(channel, notenum) by {
            assert(tail[k] == voices[k + 1]);
        }
        lemma_remove_first_none(tail, channel, notenum);
        assert(!voices[0].plays(channel, notenum));
        assert(seq![voices[0]] + tail =~= voices);
    }
}

proof fn lemma_remove_first_subset(voices: Seq<Voice>, channel: u8, notenum: u8)
    ensures
        forall|k: int| 0 <= k < remove_first(voices, channel, notenum).len()
            ==> exists|j: int| 0 <= j < voices.len()
                && #[trigger] remove_first(voices, channel, notenum)[k] == voices[j],
    decreases voices.len(),
{
    if voices.len() > 0 {
        let tail = voices.drop_first();
        lemma_remove_first_subset(tail, channel, notenum);
        let r = remove_first(voices, channel, notenum);
        assert forall|k: int| 0 <= k < r.len() implies exists|j: int| 0 <= j < voices.len()
            && #[trigger] r[k] == voices[j] by {
            if voices[0].plays(channel, notenum) {
                assert(r[k] == voices[k + 1]);
            } else if k == 0 {
                assert(r[0] == voices[0]);
            } else {
                let rt = remove_first(tail, channel, notenum);
                assert(r[k] == rt[k - 1]);
                let j = choose|j: int| 0 <= j < tail.len() && rt[k - 1] == tail[j];
                assert(r[k] == voices[j + 1]);
            }
        }
    }
}

/// Takes out the first voice that plays `notenum` on `channel`, if any.
pub fn release(voices: &mut Vec<Voice>, channel: u8, notenum: u8)
    ensures
        final(voices)@ == remove_first(old(voices)@, channel, notenum),
{
    let mut i: usize = 0;
    while i < voices.len()
        invariant
            i <= voices.len(),
            voices@ == old(voices)@,
            forall|k: int| 0 <= k < i ==> !(#[trigger] voices@[k]).plays(channel, notenum),
        decreases voices.len() - i,
    {
        if voices[i].channel == channel && voices[i].notenum == notenum {
            proof {
                lemma_remove_first_at(voices@, channel, notenum, i as int);
            }
            voices.remove(i);
            return;
        }
        i += 1;
    }
    proof {
        lemma_remove_first_none(voices@, channel, notenum);
    }
}

/// The part of a context's state that score events change.
pub struct Mix {
    pub channels: Seq<Channel>,
    pub voices: Seq<Voice>,
    pub tempo: u32,
    /// The index of the next event to apply.
    pub next: int,
}

/// The state after applying event `e` at sample `now`, where `steps` gives
/// the phase step of each note number.
pub open spec fn apply(m: Mix, e: Event, now: u64, steps: Seq<u32>) -> Mix {
    let next = m.next + 1;
    match e {
        Event::On { channel, notenum, velocity, .. } => Mix {
            voices: m.voices.push(
                Voice { start: now, channel, notenum, velocity, phase: 0, step: steps[notenum as int] },
            ),
            next,
            ..m
        },
        Event::Off { channel, notenum, .. } => Mix {
            voices: remove_first(m.voices, channel, notenum),
            next,
            ..m
        },
        Event::Volume { channel, volume, .. } => Mix {
            channels: m.channels.update(
                channel as int,
                Channel { volume, pan: m.channels[channel as int].pan },
            ),
            next,
            ..m
        },
        Event::Pan { channel, pan, .. } => Mix {
            channels: m.channels.update(
                channel as int,
                Channel { volume: m.channels[channel as int].volume, pan },
            ),
            next,
            ..m
        },
        Event::Tempo { tempo, .. } => Mix { tempo, next, ..m },
    }
}

/// An event is due once the position has reached its tick.
pub open spec fn due(e: Event, position: u128) -> bool {
    e.tick_of() * TICK_ONE <= position
}

/// The state after applying, in order, every event from `m.next` on that is
/// due at `position`, up to the first that is not.
pub open spec fn dispatched(m: Mix, events: Seq<Event>, position: u128, now: u64, steps: Seq<u32>) -> Mix
    decreases events.len() - m.next,
{
    if 0 <= m.next < events.len() && due(events[m.next], position) {
        dispatched(apply(m, events[m.next], now, steps), events, position, now, steps)
    } else {
        m
    }
}

/// How far the position moves in one sample: `ticks_per_beat` ticks per
/// quarter note, `tempo` microseconds per quarter note, `sample_rate`
/// samples per second, in units of `1 / TICK_ONE` tick, rounded down. A
/// tempo of zero is an endless one and moves it as far as it goes.
pub open spec fn step_of(ticks_per_beat: u16, sample_rate: u32, tempo: u32) -> u128 {
    if tempo == 0 {
        u128::MAX
    } else {
        ((ticks_per_beat * 1_000_000 * TICK_ONE) / (tempo * sample_rate)) as u128
    }
}

/// `position` moved on by `step`, held at the largest `u128`.
pub open spec fn moved(position: u128, step: u128) -> u128 {
    if position + step > u128::MAX {
        u128::MAX
    } else {
        (position + step) as u128
    }
}

/// The phase after one more sample.
pub open spec fn advanced(v: Voice) -> Voice {
    Voice { phase: ((v.phase + v.step) % 0x1_0000_0000) as u32, ..v }
}

/// What voice `v` contributes to the sample at `now`.
pub open spec fn tone_of(v: Voice, channels: Seq<Channel>, now: u64) -> Tone {
    Tone {
        high: v.phase < 0x8000_0000,
        volume: channels[v.channel as int].volume,
        velocity: v.velocity,
        pan: channels[v.channel as int].pan,
        age: (now - v.start) as u64,
    }
}

/// A note-on event's note number has a phase step in a table of `n`.
pub open spec fn note_in_table(e: Event, n: int) -> bool {
    match e {
        Event::On { notenum, .. } => notenum < n,
        _ => true,
    }
}

/// The largest channel that an event of `s` addresses; 0 for none.
pub open spec fn max_channel(s: Seq<Event>) -> u8
    decreases s.len(),
{
    if s.len() == 0 {
        0
    } else {
        let m = max_channel(s.drop_last());
        if s.last().channel_of() > m {
            s.last().channel_of()
        } else {
            m
        }
    }
}

fn position_step(ticks_per_beat: u16, sample_rate: u32, tempo: u32) -> (r: u128)
    requires
        sample_rate > 0,
    ensures
        r == step_of(ticks_per_beat, sample_rate, tempo),
{
    if tempo == 0 {
        u128::MAX
    } else {
        let tpb = ticks_per_beat as u128;
        let num: u128 = tpb * 1_000_000 * TICK_ONE;
        let t = tempo as u128;
        let r = sample_rate as u128;
        assert(t * r <= 0xffff_ffff * 0xffff_ffff) by (nonlinear_arith)
            requires t <= 0xffff_ffff, r <= 0xffff_ffff;
        let den: u128 = t * r;
        assert(den > 0) by (nonlinear_arith)
            requires tempo > 0, sample_rate > 0, den == tempo * sample_rate;
        num / den
    }
}

/// The synthesis state of one render.
pub struct Context {
    /// Samples per second.
    pub sample_rate: u32,
    /// Score ticks per quarter note.
    pub ticks_per_beat: u16,
    /// The phase step of each note number.
    pub steps: Vec<u32>,
    /// The score, sorted by tick.
    pub events: Vec<Event>,
    /// The index of the next event to apply.
    pub next: usize,
    pub channels: Vec<Channel>,
    /// The sounding voices, oldest first.
    pub voices: Vec<Voice>,
    /// The index of the next sample.
    pub now: u64,
    /// Microseconds per quarter note.
    pub tempo: u32,
    /// The score position, in units of `1 / TICK_ONE` tick.
    pub position: u128,
}

impl Context {
    /// Every event's channel exists and every note-on's note number has a
    /// phase step; every voice's channel exists and its note began no later
    /// than now.
    pub open spec fn wf(self) -> bool {
        &&& self.sample_rate > 0
        &&& self.next <= self.events@.len()
        &&& forall|i: int| 0 <= i < self.events@.len()
            ==> (#[trigger] self.events@[i]).channel_of() < self.channels@.len()
                && note_in_table(self.events@[i], self.steps@.len() as int)
        &&& forall|i: int| 0 <= i < self.voices@.len()
            ==> (#[trigger] self.voices@[i]).channel < self.channels@.len()
                && self.voices@[i].start <= self.now
    }

    /// The state that score events change.
    pub open spec fn mix(self) -> Mix {
        Mix {
            channels: self.channels@,
            voices: self.voices@,
            tempo: self.tempo,
            next: self.next as int,
        }
    }

    /// The state after the events due at the current position.
    pub open spec fn after_due(self) -> Mix {
        dispatched(self.mix(), self.events@, self.position, self.now, self.steps@)
    }

    /// Every event of the score has been applied.
    pub open spec fn finished(self) -> bool {
        self.next == self.events@.len()
    }

    /// The two contexts agree on all but the state that events change.
    pub open spec fn same_clock(self, other: Context) -> bool {
        &&& self.sample_rate == other.sample_rate
        &&& self.ticks_per_beat == other.ticks_per_beat
        &&& self.steps@ == other.steps@
        &&& self.events@ == other.events@
        &&& self.now == other.now
        &&& self.position == other.position
    }

    /// A context at the start of `events`, with one channel for each index
    /// up to the largest that an event addresses, all at the default volume
    /// and centred, and the default tempo. `steps` gives the phase step of
    /// each note number.
    pub fn new(events: Vec<Event>, sample_rate: u32, ticks_per_beat: u16, steps: Vec<u32>) -> (r: Context)
        requires
            sample_rate > 0,
            forall|i: int| 0 <= i < events@.len() ==> note_in_table(#[trigger] events@[i], steps@.len() as int),
        ensures
            r.wf(),
            r.sample_rate == sample_rate,
            r.ticks_per_beat == ticks_per_beat,
            r.steps@ == steps@,
            r.events@ == events@,
            r.next == 0,
            r.channels@ == Seq::new(
                (max_channel(events@) + 1) as nat,
                |i: int| Channel { volume: DEFAULT_VOLUME, pan: CENTRE_PAN },
            ),
            r.voices@.len() == 0,
            r.now == 0,
            r.tempo == DEFAULT_TEMPO,
            r.position == 0,
    {
        let mut top: u8 = 0;
        let mut i: usize = 0;
        while i < events.len()
            invariant
                i <= events@.len(),
                top == max_channel(events@.subrange(0, i as int)),
                forall|k: int| 0 <= k < i ==> (#[trigger] events@[k]).channel_of() <= top,
            decreases events@.len() - i,
        {
            assert(events@.subrange(0, i as int + 1).drop_last() =~= events@.subrange(0, i as int));
            let c = events[i].channel();
            if c > top {
                top = c;
            }
            i += 1;
        }
        assert(events@.subrange(0, events@.len() as int) =~= events@);
        let count: usize = top as usize + 1;
        let mut channels: Vec<Channel> = Vec::new();
        let mut k: usize = 0;
        while k < count
            invariant
                k <= count,
                channels@ =~= Seq::new(
                    k as nat,
                    |i: int| Channel { volume: DEFAULT_VOLUME, pan: CENTRE_PAN },
                ),
            decreases count - k,
        {
            channels.push(Channel { volume: DEFAULT_VOLUME, pan: CENTRE_PAN });
            k += 1;
        }
        Context {
            sample_rate,
            ticks_per_beat,
            steps,
            events,
            next: 0,
            channels,
            voices: Vec::new(),
            now: 0,
            tempo: DEFAULT_TEMPO,
            position: 0,
        }
    }

    /// Produces the next sample: applies the events due at the current
    /// position, reports what each voice then contributes, advances every
    /// voice's phase, moves the position on at the tempo now in force, and
    /// moves to the next sample.
    pub fn sample(&mut self) -> (r: Vec<Tone>)
        requires
            old(self).wf(),
            old(self).now < u64::MAX,
        ensures
            final(self).wf(),
            final(self).sample_rate == old(self).sample_rate,
            final(self).ticks_per_beat == old(self).ticks_per_beat,
            final(self).steps@ == old(self).steps@,
            final(self).events@ == old(self).events@,
            final(self).channels@ == old(self).after_due().channels,
            final(self).tempo == old(self).after_due().tempo,
            final(self).next == old(self).after_due().next,
            final(self).voices@ == old(self).after_due().voices.map_values(|v: Voice| advanced(v)),
            r@ == old(self).after_due().voices.map_values(
                |v: Voice| tone_of(v, old(self).after_due().channels, old(self).now),
            ),
            final(self).position == moved(
                old(self).position,
                step_of(old(self).ticks_per_beat, old(self).sample_rate, old(self).after_due().tempo),
            ),
            final(self).now == old(self).now + 1,
    {
        self.dispatch();
        let ghost due_voices = self.voices@;
        let mut tones: Vec<Tone> = Vec::new();
        let mut i: usize = 0;
        while i < self.voices.len()
            invariant
                self.wf(),
                self.same_clock(*old(self)),
                self.channels@ == old(self).after_due().channels,
                self.tempo == old(self).after_due().tempo,
                self.next == old(self).after_due().next,
                due_voices == old(self).after_due().voices,
                self.voices@.len() == due_voices.len(),
                i <= self.voices@.len(),
                forall|k: int| 0 <= k < i ==> #[trigger] self.voices@[k] == advanced(due_voices[k]),
                forall|k: int| i <= k < self.voices@.len() ==> #[trigger] self.voices@[k] == due_voices[k],
                tones@.len() == i,
                forall|k: int| 0 <= k < i ==> #[trigger] tones@[k] == tone_of(
                    due_voices[k],
                    self.channels@,
                    self.now,
                ),
            decreases self.voices@.len() - i,
        {
            let v = self.voices[i];
            let c = self.channels[v.channel as usize];
            tones.push(Tone {
                high: v.phase < 0x8000_0000,
                volume: c.volume,
                velocity: v.velocity,
                pan: c.pan,
                age: self.now - v.start,
            });
            self.voices.set(i, Voice { phase: v.phase.wrapping_add(v.step), ..v });
            i += 1;
        }
        let step = position_step(self.ticks_per_beat, self.sample_rate, self.tempo);
        if self.position > u128::MAX - step {
            self.position = u128::MAX;
        } else {
            self.position = self.position + step;
        }
        self.now = self.now + 1;
        assert(self.voices@ =~= due_voices.map_values(|v: Voice| advanced(v)));
        assert(tones@ =~= due_voices.map_values(|v: Voice| tone_of(v, self.channels@, old(self).now)));
        tones
    }

    /// Whether every event of the score has been applied.
    pub fn is_end(&self) -> (r: bool)
        ensures
            r == self.finished(),
    {
        self.next == self.events.len()
    }

    fn apply_next(&mut self)
        requires
            old(self).wf(),
            old(self).next < old(self).events@.len(),
        ensures
            final(self).wf(),
            final(self).same_clock(*old(self)),
            final(self).mix() == apply(
                old(self).mix(),
                old(self).events@[old(self).next as int],
                old(self).now,
                old(self).steps@,
            ),
    {
        let n = self.next;
        let len = self.events.len();
        assert(n < len);
        let e = self.events[n];
        assert(self.events@[self.next as int].channel_of() < self.channels@.len());
        match e {
            Event::On { channel, notenum, velocity, .. } => {
                assert(note_in_table(self.events@[self.next as int], self.steps@.len() as int));
                let step = self.steps[notenum as usize];
                self.voices.push(Voice { start: self.now, channel, notenum, velocity, phase: 0, step });
            },
            Event::Off { channel, notenum, .. } => {
                let ghost before = self.voices@;
                release(&mut self.voices, channel, notenum);
                proof {
                    lemma_remove_first_subset(before, channel, notenum);
                }
            },
            Event::Volume { channel, volume, .. } => {
                let c = self.channels[channel as usize];
                self.channels.set(channel as usize, Channel { volume, pan: c.pan });
            },
            Event::Pan { channel, pan, .. } => {
                let c = self.channels[channel as usize];
                self.channels.set(channel as usize, Channel { volume: c.volume, pan });
            },
            Event::Tempo { tempo, .. } => {
                self.tempo = tempo;
            },
        }
        self.next = n + 1;
    }

    fn next_due(&self) -> (r: bool)
        ensures
            r == (self.next < self.events@.len() && due(self.events@[self.next as int], self.position)),
    {
        if self.next < self.events.len() {
            let t = self.events[self.next].tick();
            (t as u128) * TICK_ONE <= self.position
        } else {
            false
        }
    }

    /// Applies every event that is due at the current position.
    fn dispatch(&mut self)
        requires
            old(self).wf(),
        ensures
            final(self).wf(),
            final(self).same_clock(*old(self)),
            final(self).mix() == old(self).after_due(),
    {
        let ghost target = self.after_due();
        while self.next_due()
            invariant
                self.wf(),
                self.same_clock(*old(self)),
                self.after_due() == target,
            decreases self.events@.len() - self.next,
        {
            self.apply_next();
        }
        assert(self.after_due() == self.mix());
    }
}

/// The voice after `n` more samples.
pub open spec fn after_samples(v: Voice, n: nat) -> Voice
    decreases n,
{
    if n == 0 {
        v
    } else {
        advanced(after_samples(v, (n - 1) as nat))
    }
}

/// The phase wraps: after `n` samples a voice's phase is its starting
/// phase plus `n` steps, taken modulo a whole cycle. In particular a voice
/// that starts at phase 0 is at the fractional part of `n * step` cycles.
pub proof fn lemma_phase_wraps(v: Voice, n: nat)
    ensures
        after_samples(v, n).phase == (v.phase + n * v.step) % 0x1_0000_0000,
        after_samples(v, n).step == v.step,
    decreases n,
{
    if n > 0 {
        let m = (n - 1) as nat;
        lemma_phase_wraps(v, m);
        let c: int = 0x1_0000_0000;
        let x = v.phase + m * v.step;
        vstd::arithmetic::div_mod::lemma_small_mod(v.step as nat, c as nat);
        vstd::arithmetic::div_mod::lemma_add_mod_noop(x, v.step as int, c);
        assert(after_samples(v, n).phase == (x % c + v.step) % c);
        assert(x + v.step == v.phase + n * v.step) by (nonlinear_arith)
            requires m + 1 == n, x == v.phase + m * v.step;
        assert((x % c + (v.step as int) % c) % c == (x + v.step) % c);
        assert(after_samples(v, n).phase == (v.phase + n * v.step) % c);
    } else {
        vstd::arithmetic::div_mod::lemma_small_mod(v.phase as nat, 0x1_0000_0000);
    }
}

/// A note-on followed by its note-off for the same channel and note, with
/// no voice of that note sounding before, leaves the voices as they were;
/// from silence, none sounds.
pub proof fn lemma_on_off_cancel(m: Mix, on: Event, off: Event, now: u64, steps: Seq<u32>)
    requires
        on matches Event::On { .. },
        off matches Event::Off { .. },
        on->On_channel == off->Off_channel,
        on->On_notenum == off->Off_notenum,
        forall|k: int| 0 <= k < m.voices.len()
            ==> !(#[trigger] m.voices[k]).plays(off->Off_channel, off->Off_notenum),
    ensures
        apply(apply(m, on, now, steps), off, now, steps).voices == m.voices,
        m.voices.len() == 0 ==> apply(apply(m, on, now, steps), off, now, steps).voices.len() == 0,
{
    let s = apply(m, on, now, steps).voices;
    let (c, n) = (off->Off_channel, off->Off_notenum);
    assert forall|k: int| 0 <= k < m.voices.len() implies !(#[trigger] s[k]).plays(c, n) by {
        assert(s[k] == m.voices[k]);
    }
    lemma_remove_first_at(s, c, n, m.voices.len() as int);
    assert(s.remove(m.voices.len() as int) =~= m.voices);
}

/// Two note-ons of one channel and note, then one note-off of it, with no
/// voice of that note sounding before: the first voice is taken out and
/// the second stays, so exactly one voice of that note sounds.
pub proof fn lemma_stacked_then_released(
    m: Mix,
    first: Event,
    second: Event,
    off: Event,
    now: u64,
    steps: Seq<u32>,
)
    requires
        first matches Event::On { .. },
        second matches Event::On { .. },
        off matches Event::Off { .. },
        first->On_channel == off->Off_channel,
        first->On_notenum == off->Off_notenum,
        second->On_channel == off->Off_channel,
        second->On_notenum == off->Off_notenum,
        forall|k: int| 0 <= k < m.voices.len()
            ==> !(#[trigger] m.voices[k]).plays(off->Off_channel, off->Off_notenum),
    ensures
        ({
            let r = apply(apply(apply(m, first, now, steps), second, now, steps), off, now, steps).voices;
            &&& r == m.voices.push(apply(m, second, now, steps).voices.last())
            &&& r.len() == m.voices.len() + 1
            &&& forall|k: int| 0 <= k < r.len() && (#[trigger] r[k]).plays(off->Off_channel, off->Off_notenum)
                ==> k == m.voices.len()
        }),
{
    let s = apply(apply(m, first, now, steps), second, now, steps).voices;
    let (c, n) = (off->Off_channel, off->Off_notenum);
    let len = m.voices.len() as int;
    assert forall|k: int| 0 <= k < len implies !(#[trigger] s[k]).plays(c, n) by {
        assert(s[k] == m.voices[k]);
    }
    lemma_remove_first_at(s, c, n, len);
    assert(s.remove(len) =~= m.voices.push(apply(m, second, now, steps).voices.last()));
}

/// Dispatch applies exactly the due events: every event it passes over was
/// due, and it stops at the end of the score or at the first event not yet
/// due; on a score sorted by tick no later event is due either.
pub proof fn lemma_dispatch_applies_due(m: Mix, events: Seq<Event>, position: u128, now: u64, steps: Seq<u32>)
    requires
        0 <= m.next <= events.len(),
    ensures
        ({
            let r = dispatched(m, events, position, now, steps);
            &&& m.next <= r.next <= events.len()
            &&& forall|k: int| m.next <= k < r.next ==> due(#[trigger] events[k], position)
            &&& r.next == events.len() || !due(events[r.next], position)
            &&& sorted_by_tick(events) ==> forall|k: int| r.next <= k < events.len()
                ==> !due(#[trigger] events[k], position)
        }),
    decreases events.len() - m.next,
{
    let r = dispatched(m, events, position, now, steps);
    if m.next < events.len() && due(events[m.next], position) {
        lemma_dispatch_applies_due(apply(m, events[m.next], now, steps), events, position, now, steps);
    }
    if sorted_by_tick(events) && r.next < events.len() {
        assert forall|k: int| r.next <= k < events.len() implies !due(#[trigger] events[k], position) by {
            assert(events[r.next].tick_of() <= events[k].tick_of());
            assert(events[r.next].tick_of() * TICK_ONE <= events[k].tick_of() * TICK_ONE) by (nonlinear_arith)
                requires events[r.next].tick_of() <= events[k].tick_of();
        }
    }
}

} // verus!

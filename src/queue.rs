//! Commands deferred to a musical boundary: the next loop start, beat or bar.
use vstd::prelude::*;

verus! {

/// The boundary a queued command waits for.
#[derive(Clone, Copy, PartialEq, Eq, Structural, Hash, Debug)]
pub enum MidiQueueTiming {
    Loop,
    Bar,
    Beat,
}

/// Whether a command stays queued after it fires.
#[derive(Clone, Copy, PartialEq, Eq, Structural, Hash, Debug)]
pub enum MidiQueueLooping {
    Loop,
    Once,
}

/// What a command does when it fires.
#[derive(PartialEq, Eq, Debug)]
pub enum MidiQueueEventType {
    Play,
    Stop,
    /// Queues the inner command.
    Queue(Box<MidiQueueEvent>),
}

/// A command waiting in a track's queue.
#[derive(PartialEq, Eq, Debug)]
pub struct MidiQueueEvent {
    pub event: MidiQueueEventType,
    pub timing: MidiQueueTiming,
    pub looping: MidiQueueLooping,
}

impl MidiQueueEvent {
    /// A copy of the command.
    pub fn duplicate(&self) -> (r: MidiQueueEvent)
        ensures
            r == *self,
        decreases self,
    {
        let event = match &self.event {
            MidiQueueEventType::Play => MidiQueueEventType::Play,
            MidiQueueEventType::Stop => MidiQueueEventType::Stop,
            MidiQueueEventType::Queue(inner) => MidiQueueEventType::Queue(Box::new(inner.duplicate())),
        };
        MidiQueueEvent { event, timing: self.timing, looping: self.looping }
    }
}

impl Clone for MidiQueueEvent {
    fn clone(&self) -> (r: MidiQueueEvent)
        ensures
            r == *self,
    {
        self.duplicate()
    }
}

/// The boundaries met in one output frame.
#[derive(Clone, Copy, PartialEq, Eq, Structural, Debug)]
pub struct TimingSet {
    pub on_loop: bool,
    pub on_bar: bool,
    pub on_beat: bool,
}

impl TimingSet {
    pub fn empty() -> (r: TimingSet)
        ensures
            !r.on_loop && !r.on_bar && !r.on_beat,
    {
        TimingSet { on_loop: false, on_bar: false, on_beat: false }
    }

    pub open spec fn spec_contains(self, t: MidiQueueTiming) -> bool {
        match t {
            MidiQueueTiming::Loop => self.on_loop,
            MidiQueueTiming::Bar => self.on_bar,
            MidiQueueTiming::Beat => self.on_beat,
        }
    }

    pub fn contains(&self, t: MidiQueueTiming) -> (r: bool)
        ensures
            r == self.spec_contains(t),
    {
        match t {
            MidiQueueTiming::Loop => self.on_loop,
            MidiQueueTiming::Bar => self.on_bar,
            MidiQueueTiming::Beat => self.on_beat,
        }
    }
}

pub open spec fn fires(e: MidiQueueEvent, t: TimingSet) -> bool {
    t.spec_contains(e.timing)
}

/// The commands among the first `n` that stay queued: those that do not
/// fire, and those that fire and repeat.
pub open spec fn kept(q: Seq<MidiQueueEvent>, t: TimingSet, n: int) -> Seq<MidiQueueEvent>
    decreases n,
{
    if n <= 0 {
        seq![]
    } else {
        let prev = kept(q, t, n - 1);
        let e = q[n - 1];
        if fires(e, t) && e.looping == MidiQueueLooping::Once {
            prev
        } else {
            prev.push(e)
        }
    }
}

/// The commands that the firing `Queue` commands among the first `n` add.
pub open spec fn added(q: Seq<MidiQueueEvent>, t: TimingSet, n: int) -> Seq<MidiQueueEvent>
    decreases n,
{
    if n <= 0 {
        seq![]
    } else {
        let prev = added(q, t, n - 1);
        let e = q[n - 1];
        match e.event {
            MidiQueueEventType::Queue(inner) => if fires(e, t) {
                prev.push(*inner)
            } else {
                prev
            },
            _ => prev,
        }
    }
}

/// Whether the track plays after the first `n` commands had their turn:
/// the last firing `Play` or `Stop` decides.
pub open spec fn playing_after(q: Seq<MidiQueueEvent>, t: TimingSet, n: int, playing: bool) -> bool
    decreases n,
{
    if n <= 0 {
        playing
    } else {
        let prev = playing_after(q, t, n - 1, playing);
        let e = q[n - 1];
        if fires(e, t) {
            match e.event {
                MidiQueueEventType::Play => true,
                MidiQueueEventType::Stop => false,
                _ => prev,
            }
        } else {
            prev
        }
    }
}

/// The queue after one frame: what stays, then what was queued anew.
pub open spec fn spec_next_queue(q: Seq<MidiQueueEvent>, t: TimingSet) -> Seq<MidiQueueEvent> {
    kept(q, t, q.len() as int) + added(q, t, q.len() as int)
}

/// Applies the commands of `queue` that fire on the boundaries of `timings`,
/// in order, and gives the queue that remains.
pub fn apply_queue(queue: &Vec<MidiQueueEvent>, timings: &TimingSet, is_playing: &mut bool) -> (r: Vec<MidiQueueEvent>)
    ensures
        r@ == spec_next_queue(queue@, *timings),
        *final(is_playing) == playing_after(queue@, *timings, queue@.len() as int, *old(is_playing)),
{
    let ghost p0 = *is_playing;
    let mut keep: Vec<MidiQueueEvent> = Vec::new();
    let mut add: Vec<MidiQueueEvent> = Vec::new();
    let mut i: usize = 0;
    while i < queue.len()
        invariant
            i <= queue.len(),
            keep@ == kept(queue@, *timings, i as int),
            add@ == added(queue@, *timings, i as int),
            *is_playing == playing_after(queue@, *timings, i as int, p0),
        decreases queue.len() - i,
    {
        let e = &queue[i];
        let f = timings.contains(e.timing);
        if f {
            match &e.event {
                MidiQueueEventType::Play => {
                    *is_playing = true;
                },
                MidiQueueEventType::Stop => {
                    *is_playing = false;
                },
                MidiQueueEventType::Queue(inner) => {
                    add.push(inner.duplicate());
                },
            }
        }
        if !(f && e.looping == MidiQueueLooping::Once) {
            keep.push(e.duplicate());
        }
        i = i + 1;
    }
    keep.append(&mut add);
    keep
}

/// A command that fires and does not repeat is gone from the queue
/// afterwards; one that repeats stays, at its place among those that stay.
pub proof fn lemma_fired_once_leaves(q: Seq<MidiQueueEvent>, t: TimingSet, n: int)
    requires
        0 <= n <= q.len(),
    ensures
        forall|k: int| 0 <= k < kept(q, t, n).len() ==> !(fires(kept(q, t, n)[k], t)
            && kept(q, t, n)[k].looping == MidiQueueLooping::Once),
        forall|i: int| 0 <= i < n && q[i].looping == MidiQueueLooping::Loop ==> kept(q, t, n).contains(q[i]),
    decreases n,
{
    if n > 0 {
        lemma_fired_once_leaves(q, t, n - 1);
        let prev = kept(q, t, n - 1);
        let cur = kept(q, t, n);
        assert forall|i: int| 0 <= i < n && q[i].looping == MidiQueueLooping::Loop implies cur.contains(q[i]) by {
            if i < n - 1 {
                let k = choose|k: int| 0 <= k < prev.len() && prev[k] == q[i];
                assert(cur[k] == prev[k]);
            } else {
                assert(cur[prev.len() as int] == q[i]);
            }
        }
    }
}

} // verus!

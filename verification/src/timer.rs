//! The repeating timer: elapsed time that wraps at a fixed interval, the
//! three-state machine that decides whether it runs, and the one-frame
//! marker that tells the rest of the game that an interval has ended.
//!
//! All times are whole nanoseconds.

use vstd::prelude::*;

verus! {

/// Nanoseconds in one second.
pub const NANOS_PER_SECOND: u64 = 1_000_000_000;

/// Whether a timer is about to start, runs, or rests.
#[derive(Clone, Copy, Debug, PartialEq, Eq, Structural)]
pub enum TimerState {
    /// The next frame resets the timer and sets it running.
    Started,
    /// Every frame advances the timer.
    Running,
    /// Frames pass the timer by.
    Paused,
}

impl Default for TimerState {
    /// A timer is created in the `Started` state.
    fn default() -> (state: TimerState)
        ensures
            state == TimerState::Started,
    {
        TimerState::Started
    }
}

/// The marker that a timer carries for the frame in which it completed at
/// least one interval.
#[derive(Clone, Copy, Debug, PartialEq, Eq, Structural)]
pub struct JustFinished {
    /// How many intervals that frame's tick completed.
    pub finishes: u32,
}

/// What one tick did to a timer.
#[derive(Clone, Copy, Debug, PartialEq, Eq, Structural)]
pub struct Tick {
    /// Time on the timer after the tick, short of a full interval.
    pub elapsed: u64,
    /// Whether the tick completed an interval.
    pub just_finished: bool,
    /// How many intervals the tick completed.
    pub finishes: u32,
}

/// Time left on a repeating timer after a tick: what remains of the time
/// gathered once all full intervals are taken out. A timer without length
/// keeps nothing.
pub open spec fn elapsed_after(interval: u64, elapsed: u64, delta: u64) -> int {
    if interval == 0 {
        0
    } else {
        (elapsed + delta) % (interval as int)
    }
}

/// Intervals that fit into the time gathered by a tick, before the count is
/// cut to 32 bits.
pub open spec fn intervals_completed(interval: u64, elapsed: u64, delta: u64) -> int
    recommends
        interval > 0,
{
    (elapsed + delta) / (interval as int)
}

/// Intervals that a tick reports as completed: the full count cut to its
/// low 32 bits. A timer without length reports the largest count.
pub open spec fn finishes_in(interval: u64, elapsed: u64, delta: u64) -> int {
    if interval == 0 {
        0xffff_ffff
    } else {
        intervals_completed(interval, elapsed, delta) % 0x1_0000_0000
    }
}

/// The outcome of ticking a repeating timer of length `interval` that
/// holds `elapsed` by `delta`.
pub open spec fn tick_of(interval: u64, elapsed: u64, delta: u64) -> Tick {
    Tick {
        elapsed: elapsed_after(interval, elapsed, delta) as u64,
        just_finished: finishes_in(interval, elapsed, delta) > 0,
        finishes: finishes_in(interval, elapsed, delta) as u32,
    }
}

/// Ticks a repeating `bevy::time::Timer` of length `interval` whose
/// stopwatch stands at `elapsed` by `delta`, through `Timer::tick`, and
/// reads back `elapsed`, `just_finished` and `times_finished_this_tick`.
///
/// The contract restates the engine's rule for an unpaused repeating timer:
/// the stopwatch gains `delta`; the number of times finished is the
/// gathered time divided by the length, cut to 32 bits, and the stopwatch
/// keeps the remainder; a timer of length zero reports `u32::MAX` and keeps
/// nothing; `just_finished` says whether the reported number is positive.
#[verifier::external_body]
fn tick_repeating(interval: u64, elapsed: u64, delta: u64) -> (tick: Tick)
    ensures
        tick == tick_of(interval, elapsed, delta),
{
    let length = std::time::Duration::from_nanos(interval);
    let mut timer = bevy::time::Timer::new(length, bevy::time::TimerMode::Repeating);
    timer.set_elapsed(std::time::Duration::from_nanos(elapsed));
    timer.tick(std::time::Duration::from_nanos(delta));
    Tick {
        elapsed: timer.elapsed().as_nanos() as u64,
        just_finished: timer.just_finished(),
        finishes: timer.times_finished_this_tick(),
    }
}

/// A repeating timer: the length of its interval and the time gathered
/// towards the next end of an interval.
#[derive(Clone, Copy, Debug, PartialEq, Eq, Structural)]
pub struct PeriodicTimer {
    /// Length of one interval.
    pub interval: u64,
    /// Time gathered since the interval began.
    pub elapsed: u64,
}

impl PeriodicTimer {
    /// A timer of the given interval with no time on it.
    pub fn new(interval: u64) -> (timer: PeriodicTimer)
        ensures
            timer == (PeriodicTimer { interval, elapsed: 0 }),
    {
        PeriodicTimer { interval, elapsed: 0 }
    }

    /// Takes all gathered time off the timer.
    pub fn reset(&mut self)
        ensures
            *final(self) == (PeriodicTimer { interval: old(self).interval, elapsed: 0 }),
    {
        self.elapsed = 0;
    }

    /// Advances the timer by `delta` and says what happened: how many
    /// intervals ended within this one tick, however long the tick was, and
    /// what is left on the timer.
    pub fn tick(&mut self, delta: u64) -> (tick: Tick)
        ensures
            tick == tick_of(old(self).interval, old(self).elapsed, delta),
            final(self).interval == old(self).interval,
            final(self).elapsed == tick.elapsed,
    {
        let tick = tick_repeating(self.interval, self.elapsed, delta);
        self.elapsed = tick.elapsed;
        tick
    }
}

/// A timer together with what the game keeps beside it: its state, the
/// marker of the last frame, and whether it is the timer that drives the
/// cards' re-orientation.
#[derive(Clone, Copy, Debug, PartialEq, Eq, Structural)]
pub struct TimerUnit {
    pub timer: PeriodicTimer,
    pub state: TimerState,
    pub just_finished: Option<JustFinished>,
    pub drives_rotation: bool,
}

/// The marker that a tick leaves behind: present exactly when the tick
/// completed an interval.
pub open spec fn marker_of(tick: Tick) -> Option<JustFinished> {
    if tick.just_finished {
        Some(JustFinished { finishes: tick.finishes })
    } else {
        None
    }
}

impl TimerUnit {
    /// The timer of one second that drives the cards, newly created.
    pub open spec fn rotation_timer() -> TimerUnit {
        TimerUnit {
            timer: PeriodicTimer { interval: NANOS_PER_SECOND, elapsed: 0 },
            state: TimerState::Started,
            just_finished: None,
            drives_rotation: true,
        }
    }

    /// Creates the timer of one second that drives the cards.
    pub fn new_rotation_timer() -> (unit: TimerUnit)
        ensures
            unit == TimerUnit::rotation_timer(),
    {
        TimerUnit {
            timer: PeriodicTimer::new(NANOS_PER_SECOND),
            state: TimerState::Started,
            just_finished: None,
            drives_rotation: true,
        }
    }

    /// The unit one frame of length `delta` later.
    ///
    /// A marker left by the frame before is taken away first. A started
    /// timer is reset, set running and ticked; a running timer is ticked; a
    /// paused timer is left alone. A tick that completes an interval leaves
    /// a fresh marker with the number of intervals completed.
    pub open spec fn stepped(self, delta: u64) -> TimerUnit {
        match self.state {
            TimerState::Started => {
                let tick = tick_of(self.timer.interval, 0, delta);
                TimerUnit {
                    timer: PeriodicTimer { interval: self.timer.interval, elapsed: tick.elapsed },
                    state: TimerState::Running,
                    just_finished: marker_of(tick),
                    drives_rotation: self.drives_rotation,
                }
            },
            TimerState::Running => {
                let tick = tick_of(self.timer.interval, self.timer.elapsed, delta);
                TimerUnit {
                    timer: PeriodicTimer { interval: self.timer.interval, elapsed: tick.elapsed },
                    state: TimerState::Running,
                    just_finished: marker_of(tick),
                    drives_rotation: self.drives_rotation,
                }
            },
            TimerState::Paused => TimerUnit {
                timer: self.timer,
                state: TimerState::Paused,
                just_finished: None,
                drives_rotation: self.drives_rotation,
            },
        }
    }

    /// Whether a frame of length `delta` completes an interval of the
    /// unit's timer, as far as the 32-bit count shows it: a started timer
    /// begins the frame empty, a running one with what it has gathered, and
    /// a paused one completes nothing.
    pub open spec fn fires_in(self, delta: u64) -> bool {
        match self.state {
            TimerState::Started => finishes_in(self.timer.interval, 0, delta) > 0,
            TimerState::Running => finishes_in(self.timer.interval, self.timer.elapsed, delta) > 0,
            TimerState::Paused => false,
        }
    }

    /// Carries the unit through one frame of length `delta`.
    pub fn step(self, delta: u64) -> (next: TimerUnit)
        ensures
            next == self.stepped(delta),
    {
        let mut timer = self.timer;
        match self.state {
            TimerState::Started => {
                timer.reset();
                let tick = timer.tick(delta);
                TimerUnit {
                    timer,
                    state: TimerState::Running,
                    just_finished: marker_after(tick),
                    drives_rotation: self.drives_rotation,
                }
            },
            TimerState::Running => {
                let tick = timer.tick(delta);
                TimerUnit {
                    timer,
                    state: TimerState::Running,
                    just_finished: marker_after(tick),
                    drives_rotation: self.drives_rotation,
                }
            },
            TimerState::Paused => TimerUnit {
                timer,
                state: TimerState::Paused,
                just_finished: None,
                drives_rotation: self.drives_rotation,
            },
        }
    }
}

/// The marker to attach after a tick, if any.
pub fn marker_after(tick: Tick) -> (marker: Option<JustFinished>)
    ensures
        marker == marker_of(tick),
{
    if tick.just_finished {
        Some(JustFinished { finishes: tick.finishes })
    } else {
        None
    }
}

/// A tick reports the whole intervals that fit into the gathered time and
/// keeps the rest: with `count` intervals fitting, and `count` within 32
/// bits, the tick reports `count` and leaves the gathered time less
/// `count` intervals.
pub proof fn lemma_tick_counts_whole_intervals(interval: u64, elapsed: u64, delta: u64, count: int)
    requires
        interval > 0,
        0 <= count < 0x1_0000_0000,
        count * interval <= elapsed + delta < (count + 1) * interval,
    ensures
        tick_of(interval, elapsed, delta).finishes == count,
        tick_of(interval, elapsed, delta).just_finished == (count > 0),
        tick_of(interval, elapsed, delta).elapsed == elapsed + delta - count * interval,
{
    let total = elapsed + delta;
    let length = interval as int;
    assert(total / length == count && total % length == total - count * length) by (nonlinear_arith)
        requires
            length > 0,
            count * length <= total < (count + 1) * length,
    ;
    assert(count % 0x1_0000_0000 == count);
}

/// One tick as long as two and a half intervals, on a timer with nothing
/// gathered, completes two intervals, not one, and keeps the half.
pub proof fn lemma_two_and_a_half_intervals(interval: u64, delta: u64)
    requires
        interval > 0,
        2 * delta == 5 * interval,
    ensures
        tick_of(interval, 0, delta).just_finished,
        tick_of(interval, 0, delta).finishes == 2,
        2 * tick_of(interval, 0, delta).elapsed == interval,
{
    lemma_tick_counts_whole_intervals(interval, 0, delta, 2);
}

/// A started timer that meets a frame at least one interval long is running
/// afterwards and carries a marker that counts at least one interval. The
/// count is kept in 32 bits, so a frame of an exact multiple of 2^32
/// intervals is left out.
pub proof fn lemma_started_timer_fires(unit: TimerUnit, delta: u64)
    requires
        unit.state == TimerState::Started,
        unit.timer.interval > 0,
        delta >= unit.timer.interval,
        intervals_completed(unit.timer.interval, 0, delta) % 0x1_0000_0000 != 0,
    ensures
        unit.stepped(delta).state == TimerState::Running,
        unit.stepped(delta).just_finished is Some,
        unit.stepped(delta).just_finished->Some_0.finishes >= 1,
{
}

/// The marker marks the frame: whatever a unit carried before, after a
/// frame it carries a marker if and only if that frame completed an
/// interval of its timer, and the marker gives the number completed.
pub proof fn lemma_marker_marks_the_frame(unit: TimerUnit, delta: u64)
    ensures
        unit.stepped(delta).just_finished is Some <==> unit.fires_in(delta),
        unit.state == TimerState::Started && unit.fires_in(delta) ==> unit.stepped(
            delta,
        ).just_finished->Some_0.finishes == finishes_in(unit.timer.interval, 0, delta),
        unit.state == TimerState::Running && unit.fires_in(delta) ==> unit.stepped(
            delta,
        ).just_finished->Some_0.finishes == finishes_in(
            unit.timer.interval,
            unit.timer.elapsed,
            delta,
        ),
{
}

/// The marker lasts one frame: whatever a unit carried, after a frame in
/// which its timer completes no interval it carries no marker.
pub proof fn lemma_marker_lasts_one_frame(unit: TimerUnit, delta: u64)
    requires
        !unit.fires_in(delta),
    ensures
        unit.stepped(delta).just_finished is None,
{
    lemma_marker_marks_the_frame(unit, delta);
}

/// A started timer fires in the frame that completes its first interval and
/// is quiet in the next: after a first frame at least one interval long the
/// unit runs and carries a marker, and after a second frame that completes
/// no interval the marker is gone.
pub proof fn lemma_fires_for_one_frame(unit: TimerUnit, first: u64, second: u64)
    requires
        unit.state == TimerState::Started,
        unit.timer.interval > 0,
        first >= unit.timer.interval,
        intervals_completed(unit.timer.interval, 0, first) % 0x1_0000_0000 != 0,
        !unit.stepped(first).fires_in(second),
    ensures
        unit.stepped(first).state == TimerState::Running,
        unit.stepped(first).just_finished is Some,
        unit.stepped(first).just_finished->Some_0.finishes >= 1,
        unit.stepped(first).stepped(second).state == TimerState::Running,
        unit.stepped(first).stepped(second).just_finished is None,
{
    lemma_started_timer_fires(unit, first);
    lemma_marker_lasts_one_frame(unit.stepped(first), second);
}

/// The unit after frames of the given lengths, one after the other.
pub open spec fn stepped_through(unit: TimerUnit, deltas: Seq<u64>) -> TimerUnit
    decreases deltas.len(),
{
    if deltas.len() == 0 {
        unit
    } else {
        stepped_through(unit, deltas.drop_last()).stepped(deltas.last())
    }
}

/// The length of all the frames together.
pub open spec fn total(deltas: Seq<u64>) -> int
    decreases deltas.len(),
{
    if deltas.len() == 0 {
        0
    } else {
        total(deltas.drop_last()) + deltas.last()
    }
}

/// Whether the unit carries a marker after one of the first `upto` frames.
pub open spec fn fires_within(unit: TimerUnit, deltas: Seq<u64>, upto: int) -> bool {
    exists|k: int|
        1 <= k <= upto && (#[trigger] stepped_through(unit, deltas.take(k))).just_finished is Some
}

/// A started timer keeps count across frames. Carried through frames that
/// are each short of 2^32 - 1 intervals, it is running afterwards, and
/// either it has carried a marker after one of the frames, or the frames
/// together are shorter than one interval and the timer holds their sum.
pub proof fn lemma_timer_gathers_until_it_fires(unit: TimerUnit, deltas: Seq<u64>)
    requires
        unit.state == TimerState::Started,
        unit.timer.interval > 0,
        deltas.len() > 0,
        forall|k: int| 0 <= k < deltas.len() ==> (#[trigger] deltas[k]) < unit.timer.interval * 0xffff_ffff,
    ensures
        stepped_through(unit, deltas).state == TimerState::Running,
        stepped_through(unit, deltas).timer.interval == unit.timer.interval,
        stepped_through(unit, deltas).timer.elapsed < unit.timer.interval,
        fires_within(unit, deltas, deltas.len() as int) || (total(deltas) < unit.timer.interval
            && stepped_through(unit, deltas).timer.elapsed == total(deltas)),
    decreases deltas.len(),
{
    let interval = unit.timer.interval;
    let length = interval as int;
    let earlier = deltas.drop_last();
    let delta = deltas.last();
    let before = stepped_through(unit, earlier);
    let gathered: int = if earlier.len() == 0 {
        0
    } else {
        before.timer.elapsed as int
    };
    if earlier.len() > 0 {
        assert forall|k: int| 0 <= k < earlier.len() implies (#[trigger] earlier[k]) < interval
            * 0xffff_ffff by {
            assert(earlier[k] == deltas[k]);
        }
        lemma_timer_gathers_until_it_fires(unit, earlier);
    } else {
        assert(total(earlier) == 0);
    }
    assert(gathered < length);
    let sum = gathered + delta;
    assert(delta == deltas[deltas.len() - 1]);
    assert(sum < length * 0x1_0000_0000);
    assert(0 <= sum % length < length && (sum >= length ==> 1 <= sum / length < 0x1_0000_0000) && (sum
        < length ==> sum / length == 0 && sum % length == sum)) by (nonlinear_arith)
        requires
            length > 0,
            0 <= sum < length * 0x1_0000_0000,
    ;
    let after = stepped_through(unit, deltas);
    assert(after == before.stepped(delta));
    assert(deltas.take(deltas.len() as int) =~= deltas);
    if sum >= length {
        assert(after.just_finished is Some);
        assert(stepped_through(unit, deltas.take(deltas.len() as int)).just_finished is Some);
    } else if earlier.len() > 0 && fires_within(unit, earlier, earlier.len() as int) {
        let k = choose|k: int|
            1 <= k <= earlier.len() && (#[trigger] stepped_through(unit, earlier.take(k))).just_finished is Some;
        assert(earlier.take(k) =~= deltas.take(k));
        assert(stepped_through(unit, deltas.take(k)).just_finished is Some);
    } else {
        assert(total(deltas) == total(earlier) + delta);
    }
}

/// A started timer has fired by the time a full interval has passed: if
/// the frames together are at least as long as one interval, the unit
/// carried a marker after one of them.
pub proof fn lemma_timer_fires_within_an_interval(unit: TimerUnit, deltas: Seq<u64>)
    requires
        unit.state == TimerState::Started,
        unit.timer.interval > 0,
        deltas.len() > 0,
        forall|k: int| 0 <= k < deltas.len() ==> (#[trigger] deltas[k]) < unit.timer.interval * 0xffff_ffff,
        total(deltas) >= unit.timer.interval,
    ensures
        stepped_through(unit, deltas).state == TimerState::Running,
        fires_within(unit, deltas, deltas.len() as int),
{
    lemma_timer_gathers_until_it_fires(unit, deltas);
}

} // verus!

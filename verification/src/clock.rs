//! Time: how many ticks a frame runs, and when the statistics are shown.

use vstd::prelude::*;
use crate::sim::MAX_TICKS_PER_FRAME;
#[allow(unused_imports)]
use crate::sim::min_int;

verus! {

/// Fixed simulation rate, in ticks per second. Decoupled from the display: a
/// faster screen draws more often rather than simulating faster, so the physics
/// runs at the same speed on every machine.
///
/// This constant sets the speed of *everything*. A 2x2 block can only ever move
/// material one cell per tick, so fall speed, avalanche speed and how fast
/// water levels are all exactly `SIM_HZ` cells per second.
pub const SIM_HZ: u64 = 240;

/// Length of a tick in nanoseconds.
pub const TICK: u64 = 1_000_000_000 / SIM_HZ;

/// If we fall further behind than this, drop the backlog instead of trying to
/// catch up. Catching up after a stall only makes the next frame later still.
pub const MAX_LAG: u64 = 250_000_000;

/// How often the statistics are shown, in nanoseconds.
pub const TITLE_PERIOD: u128 = 250_000_000;

/// The simulation's clock. Times are in nanoseconds.
#[derive(Copy, Clone, Debug, PartialEq, Eq, Structural)]
pub struct Clock {
    /// Time that has passed and not been simulated yet.
    pub accumulator: u64,
    pub paused: bool,
    /// Run a single tick while paused.
    pub step_once: bool,
}

impl Clock {
    /// Less than a tick is outstanding.
    pub open spec fn wf(self) -> bool {
        self.accumulator < TICK
    }

    /// Time to be simulated in a running frame that comes `elapsed` after the
    /// last one.
    pub open spec fn owed(self, elapsed: nat) -> int {
        self.accumulator + min_int(elapsed as int, MAX_LAG as int)
    }

    /// How many ticks the frame runs, and the clock after it.
    pub open spec fn frame(self, elapsed: nat) -> (int, Clock) {
        if self.paused {
            if self.step_once {
                (1, Clock { step_once: false, ..self })
            } else {
                (0, self)
            }
        } else {
            let owed = self.owed(elapsed);
            let ticks = owed / (TICK as int);
            if ticks > MAX_TICKS_PER_FRAME {
                (MAX_TICKS_PER_FRAME as int, Clock { accumulator: 0, ..self })
            } else {
                (ticks, Clock { accumulator: (owed % (TICK as int)) as u64, ..self })
            }
        }
    }

    pub fn new() -> (c: Clock)
        ensures
            c.wf(),
            c == (Clock { accumulator: 0, paused: false, step_once: false }),
    {
        Clock { accumulator: 0, paused: false, step_once: false }
    }

    /// Counts the ticks of a frame that comes `elapsed` nanoseconds after the
    /// last one.
    pub fn ticks(&mut self, elapsed: u128) -> (ticks: usize)
        requires
            old(self).wf(),
        ensures
            final(self).wf(),
            ticks <= MAX_TICKS_PER_FRAME,
            (ticks as int, *final(self)) == old(self).frame(elapsed as nat),
    {
        if self.paused {
            if self.step_once {
                self.step_once = false;
                return 1;
            }
            return 0;
        }
        let lag: u64 = if elapsed < MAX_LAG as u128 {
            elapsed as u64
        } else {
            MAX_LAG
        };
        let owed: u64 = self.accumulator + lag;
        let ticks: u64 = owed / TICK;
        if ticks > MAX_TICKS_PER_FRAME as u64 {
            self.accumulator = 0;
            MAX_TICKS_PER_FRAME
        } else {
            self.accumulator = owed % TICK;
            ticks as usize
        }
    }
}

/// Ticks run over a row of frames that come the given times after one another,
/// and the clock after them.
pub open spec fn frames(c: Clock, elapsed: Seq<nat>) -> (int, Clock)
    decreases elapsed.len(),
{
    if elapsed.len() == 0 {
        (0, c)
    } else {
        let before = frames(c, elapsed.drop_last());
        let last = before.1.frame(elapsed.last());
        (before.0 + last.0, last.1)
    }
}

pub open spec fn total(elapsed: Seq<nat>) -> int
    decreases elapsed.len(),
{
    if elapsed.len() == 0 {
        0
    } else {
        total(elapsed.drop_last()) + elapsed.last()
    }
}

/// The physics runs at the same speed however often frames come: as long as no
/// frame is later than the ticks it may run, the ticks are those of the time
/// that passed, no matter how it is split into frames.
pub proof fn law_speed_does_not_depend_on_frame_rate(c: Clock, elapsed: Seq<nat>)
    requires
        c.wf(),
        !c.paused,
        forall|i: int| 0 <= i < elapsed.len() ==> elapsed[i] <= MAX_TICKS_PER_FRAME * TICK,
    ensures
        frames(c, elapsed).0 == (c.accumulator + total(elapsed)) / (TICK as int),
        frames(c, elapsed).1.accumulator == (c.accumulator + total(elapsed)) % (TICK as int),
        frames(c, elapsed).1.wf(),
        !frames(c, elapsed).1.paused,
    decreases elapsed.len(),
{
    if elapsed.len() > 0 {
        law_speed_does_not_depend_on_frame_rate(c, elapsed.drop_last());
    }
}

/// A running frame loses no time unless it hits the limit of ticks or the
/// limit of lag: what it owed is either run or carried over.
pub proof fn law_time_is_run_or_carried_over(c: Clock, elapsed: nat)
    requires
        c.wf(),
        !c.paused,
        elapsed <= MAX_TICKS_PER_FRAME * TICK,
    ensures
        c.frame(elapsed).0 * TICK + c.frame(elapsed).1.accumulator == c.accumulator + elapsed,
{
    vstd::arithmetic::div_mod::lemma_fundamental_div_mod(c.owed(elapsed), TICK as int);
}

/// However long a stall, the next frame runs no more than its limit and leaves
/// no backlog of a tick or more.
pub proof fn law_stalls_do_not_pile_up(c: Clock, elapsed: nat)
    requires
        c.wf(),
    ensures
        0 <= c.frame(elapsed).0 <= MAX_TICKS_PER_FRAME,
        c.frame(elapsed).1.wf(),
{
}

/// While paused no time passes: only single steps run, one per request.
pub proof fn law_pause_stops_time(c: Clock, elapsed: nat)
    requires
        c.paused,
    ensures
        c.frame(elapsed).1.accumulator == c.accumulator,
        c.frame(elapsed).0 == (if c.step_once {
            1int
        } else {
            0
        }),
        !c.frame(elapsed).1.step_once,
        c.frame(elapsed).1.paused,
{
}

/// Frame statistics since they were last shown. Times are in nanoseconds.
#[derive(Copy, Clone, Debug, PartialEq, Eq, Structural)]
pub struct Stats {
    pub frame_accum: u128,
    pub frames: u32,
    pub title_timer: u128,
}

/// The statistics to show: how many frames took how long.
#[derive(Copy, Clone, Debug, PartialEq, Eq, Structural)]
pub struct Report {
    pub frames: u32,
    pub elapsed: u128,
}

impl Stats {
    pub open spec fn empty() -> Stats {
        Stats { frame_accum: 0, frames: 0, title_timer: 0 }
    }

    pub fn new() -> (s: Stats)
        ensures
            s == Stats::empty(),
    {
        Stats { frame_accum: 0, frames: 0, title_timer: 0 }
    }

    /// The statistics with one more frame counted, before they are shown.
    pub open spec fn counted(self, elapsed: u128) -> Stats {
        Stats {
            frame_accum: (self.frame_accum + elapsed) as u128,
            frames: (self.frames + 1) as u32,
            title_timer: (self.title_timer + elapsed) as u128,
        }
    }

    /// What recording a frame gives: what to show, if it is time, and the
    /// statistics after it.
    pub open spec fn recorded(self, elapsed: u128) -> (Option<Report>, Stats) {
        let counted = self.counted(elapsed);
        if counted.title_timer >= TITLE_PERIOD {
            (
                Some(Report { frames: counted.frames, elapsed: counted.frame_accum }),
                Stats::empty(),
            )
        } else {
            (None, counted)
        }
    }

    /// Counts a frame that took `elapsed`. Four times a second the statistics
    /// are due and start over.
    pub fn record(&mut self, elapsed: u128) -> (r: Option<Report>)
        requires
            old(self).frames < u32::MAX,
            old(self).frame_accum + elapsed <= u128::MAX,
            old(self).title_timer + elapsed <= u128::MAX,
        ensures
            if old(self).title_timer + elapsed >= TITLE_PERIOD {
                &&& r == Some(
                    Report {
                        frames: (old(self).frames + 1) as u32,
                        elapsed: (old(self).frame_accum + elapsed) as u128,
                    },
                )
                &&& *final(self) == Stats::empty()
            } else {
                &&& r is None
                &&& final(self).frames == old(self).frames + 1
                &&& final(self).frame_accum == old(self).frame_accum + elapsed
                &&& final(self).title_timer == old(self).title_timer + elapsed
            },
            (r, *final(self)) == old(self).recorded(elapsed),
    {
        self.frame_accum = self.frame_accum + elapsed;
        self.frames = self.frames + 1;
        self.title_timer = self.title_timer + elapsed;
        if self.title_timer >= TITLE_PERIOD {
            let report = Report { frames: self.frames, elapsed: self.frame_accum };
            self.frame_accum = 0;
            self.frames = 0;
            self.title_timer = 0;
            return Some(report);
        }
        None
    }
}

/// World seed when the clock cannot be read.
pub const FALLBACK_SEED: u32 = 0x5EED;

/// The seed that a time gives.
pub open spec fn clock_seed(since_epoch: Option<(u64, u32)>) -> u32 {
    match since_epoch {
        Some((secs, nanos)) => nanos ^ ((secs % 0x1_0000_0000) as u32),
        None => FALLBACK_SEED,
    }
}

/// A world seed from the time since the epoch, in seconds and nanoseconds;
/// `None` if the clock stands before it.
pub fn seed_from_clock(since_epoch: Option<(u64, u32)>) -> (seed: u32)
    ensures
        seed == (match since_epoch {
            Some((secs, nanos)) => nanos ^ ((secs % 0x1_0000_0000) as u32),
            None => FALLBACK_SEED,
        }),
        seed == clock_seed(since_epoch),
{
    match since_epoch {
        Some((secs, nanos)) => nanos ^ ((secs % 0x1_0000_0000) as u32),
        None => FALLBACK_SEED,
    }
}

/// The seed of the next world.
pub open spec fn following_seed(seed: u32) -> u32 {
    seed.wrapping_mul(1_664_525).wrapping_add(1_013_904_223)
}

pub fn next_seed(seed: u32) -> (r: u32)
    ensures
        r == following_seed(seed),
{
    seed.wrapping_mul(1_664_525).wrapping_add(1_013_904_223)
}

/// A frame that owes more than twelve ticks runs twelve and drops the rest.
pub proof fn law_late_frames_drop_the_backlog(c: Clock, elapsed: nat)
    requires
        c.wf(),
        !c.paused,
        c.accumulator + elapsed >= 13 * 4_166_666,
    ensures
        c.frame(elapsed).0 == 12,
        c.frame(elapsed).1.accumulator == 0,
{
}

/// A frame changes neither the pause nor, while running, a step that was asked
/// for.
pub proof fn law_frames_leave_the_switches(c: Clock, elapsed: nat)
    ensures
        c.frame(elapsed).1.paused == c.paused,
        !c.paused ==> c.frame(elapsed).1.step_once == c.step_once,
{
}

/// A running frame runs as many whole ticks of 4 166 666 ns as have passed, up
/// to twelve: never one too many, and less than one is left over.
pub proof fn law_ticks_are_whole(c: Clock, elapsed: nat)
    requires
        c.wf(),
        !c.paused,
        c.accumulator + elapsed < 13 * 4_166_666,
    ensures
        ({
            let (ticks, after) = c.frame(elapsed);
            &&& ticks * 4_166_666 <= c.accumulator + elapsed < (ticks + 1) * 4_166_666
            &&& after.accumulator == c.accumulator + elapsed - ticks * 4_166_666
        }),
{
}

proof fn lemma_seed_rule(seed: u32)
    ensures
        following_seed(seed) == (seed * 1_664_525 + 1_013_904_223) % 0x1_0000_0000,
{
    let product: u32 = seed.wrapping_mul(1_664_525);
    assert(product == (seed * 1_664_525) % 0x1_0000_0000);
    lemma_step_round(seed * 1_664_525, 1_013_904_223);
}

proof fn lemma_step_round(x: int, step: int)
    requires
        0 <= step < 0x1_0000_0000,
    ensures
        (x + step) % 0x1_0000_0000 == (if x % 0x1_0000_0000 + step >= 0x1_0000_0000 {
            x % 0x1_0000_0000 + step - 0x1_0000_0000
        } else {
            x % 0x1_0000_0000 + step
        }),
{
}

/// The next seed is 1664525 times the seed plus 1013904223, modulo 2^32: one
/// more in the seed is 1664525 more in the next.
pub proof fn law_seeds_follow_a_linear_rule(seed: u32)
    ensures
        following_seed(seed) == (seed * 1_664_525 + 1_013_904_223) % 0x1_0000_0000,
        seed < u32::MAX ==> following_seed((seed + 1) as u32) == (following_seed(seed) + 1_664_525)
            % 0x1_0000_0000,
{
    lemma_seed_rule(seed);
    if seed < u32::MAX {
        lemma_seed_rule((seed + 1) as u32);
        lemma_step_round(seed * 1_664_525 + 1_013_904_223, 1_664_525);
        lemma_step_round(following_seed(seed) as int, 1_664_525);
    }
}

/// No two seeds have the same next one, so regenerating never merges worlds.
pub proof fn law_seeds_do_not_merge(a: u32, b: u32)
    requires
        following_seed(a) == following_seed(b),
    ensures
        a == b,
{
    let p: u32 = a.wrapping_mul(1_664_525);
    let q: u32 = b.wrapping_mul(1_664_525);
    assert(p == q);
    assert(p == (a * 1_664_525) % 0x1_0000_0000);
    assert(q == (b * 1_664_525) % 0x1_0000_0000);
    assert((a * 1_664_525) % 0x1_0000_0000 == (b * 1_664_525) % 0x1_0000_0000 ==> a == b)
        by (bit_vector);
}

/// Statistics are shown exactly when a quarter of a second or more has passed
/// since they last were, over all frames since then, and start from nothing
/// again.
pub proof fn law_statistics_cover_a_quarter_second(s: Stats, elapsed: u128)
    requires
        s.frames < u32::MAX,
        s.frame_accum + elapsed <= u128::MAX,
        s.title_timer + elapsed <= u128::MAX,
    ensures
        s.recorded(elapsed).0 is Some <==> s.title_timer + elapsed >= 250_000_000,
        s.recorded(elapsed).0 matches Some(report) ==> {
            &&& report.frames == s.frames + 1
            &&& report.elapsed == s.frame_accum + elapsed
            &&& s.recorded(elapsed).1.frames == 0
            &&& s.recorded(elapsed).1.frame_accum == 0
            &&& s.recorded(elapsed).1.title_timer == 0
        },
        s.recorded(elapsed).0 is None ==> {
            &&& s.recorded(elapsed).1.frames == s.frames + 1
            &&& s.recorded(elapsed).1.frame_accum == s.frame_accum + elapsed
            &&& s.recorded(elapsed).1.title_timer == s.title_timer + elapsed
        },
{
}

/// Two times in the same second give different seeds unless they are the same,
/// and seconds count modulo 2^32. Without a clock the seed is always the same.
pub proof fn law_seeds_tell_times_apart(secs: u64, a: u32, b: u32, other: Option<(u64, u32)>)
    ensures
        clock_seed(Some((secs, a))) == clock_seed(Some((secs, b))) <==> a == b,
        clock_seed(Some((secs, a))) ^ a == secs % 0x1_0000_0000,
        other is None ==> clock_seed(other) == 0x5EED,
{
    let low: u32 = (secs % 0x1_0000_0000) as u32;
    assert((a ^ low) == (b ^ low) <==> a == b) by (bit_vector);
    assert((a ^ low) ^ a == low) by (bit_vector);
}

} // verus!

//! Headless capture: run the simulation for a number of ticks and write a PNG.

use vstd::prelude::*;
#[allow(unused_imports)]
use crate::bytes::word_bytes;
use crate::camera::{Camera, SURFACE, WORLD_MIDDLE};
use crate::path::frame_path;
#[allow(unused_imports)]
use crate::path::{law_frames_do_not_collide, law_numbered_is_another_file, numbered};
#[allow(unused_imports)]
use crate::picture::fault;
use crate::render::view_uniform;
#[allow(unused_imports)]
use crate::render::view_params;
use crate::sim::{div_ceil, Stroke};
#[allow(unused_imports)]
use crate::sim::{ceil_div, lemma_ceil_div_is, min_int};
use crate::single::{Point, Single, ONE};
use crate::world::Scene;

verus! {

pub struct ShotOptions {
    pub width: u32,
    pub height: u32,
    pub ticks: u32,
    pub zoom: Single,
    pub centre: Option<Point>,
    pub seed: u32,
    pub strokes: Vec<Stroke>,
    pub out: String,
    pub scene: Scene,
    /// Also write a frame every this many ticks, numbered into the file name,
    /// beside the one that goes to `out`.
    pub every: Option<u32>,
}

/// The contents of [`ShotOptions`].
pub ghost struct Shot {
    pub width: u32,
    pub height: u32,
    pub ticks: u32,
    pub zoom: Single,
    pub centre: Option<Point>,
    pub seed: u32,
    pub strokes: Seq<Stroke>,
    pub out: Seq<char>,
    pub scene: Scene,
    pub every: Option<u32>,
}

impl View for ShotOptions {
    type V = Shot;

    open spec fn view(&self) -> Shot {
        Shot {
            width: self.width,
            height: self.height,
            ticks: self.ticks,
            zoom: self.zoom,
            centre: self.centre,
            seed: self.seed,
            strokes: self.strokes@,
            out: self.out@,
            scene: self.scene,
            every: self.every,
        }
    }
}

// --- the sequence of a capture -----------------------------------------------

/// What a capture does next.
#[derive(Copy, Clone, Debug, PartialEq, Eq, Structural)]
pub enum Step {
    /// Stamp this stroke into the world.
    Stamp(Stroke),
    /// Draw the world: into the numbered frame with this number, or into the
    /// file of the shot itself.
    Draw(Option<u32>),
    /// Run the simulation for this many ticks.
    Run(u32),
    Done,
}

/// How far a capture has got.
#[derive(Copy, Clone, Debug, PartialEq, Eq, Structural)]
pub struct Capture {
    /// Strokes that were stamped.
    pub stamped: usize,
    /// Ticks that were run.
    pub tick: u32,
    /// Numbered frames that were drawn.
    pub frames: u64,
    /// Whether a numbered frame is to be drawn now.
    pub due: bool,
    /// Whether the file of the shot itself was drawn.
    pub finished: bool,
}

/// Ticks from one numbered frame to the next: at least one.
pub open spec fn stride(every: u32) -> int {
    if every == 0 {
        1
    } else {
        every as int
    }
}

impl Capture {
    /// Nothing was run or drawn before all strokes were stamped. Every numbered
    /// frame but the first was preceded by at least one tick, and the file of
    /// the shot itself comes after all ticks.
    pub open spec fn wf(self, o: Shot) -> bool {
        &&& self.stamped <= o.strokes.len() <= usize::MAX
        &&& self.stamped < o.strokes.len() ==> self.tick == 0 && self.frames == 0
        &&& self.tick <= o.ticks
        &&& self.frames <= self.tick + (if self.due {
            0int
        } else {
            1
        })
        &&& self.finished ==> self.tick == o.ticks && self.stamped == o.strokes.len()
    }

    /// A capture that has not done anything yet. The first numbered frame is
    /// drawn before the first tick.
    pub open spec fn fresh(o: Shot) -> Capture {
        Capture { stamped: 0, tick: 0, frames: 0, due: o.every is Some, finished: false }
    }

    /// Ticks up to the next frame, with `left` ticks to go.
    pub open spec fn leg(left: int, every: Option<u32>) -> int {
        match every {
            None => left,
            Some(every) => min_int(stride(every), left),
        }
    }

    /// The next step, and the capture after it.
    pub open spec fn step(self, o: Shot) -> (Step, Capture) {
        if self.stamped < o.strokes.len() {
            (
                Step::Stamp(o.strokes[self.stamped as int]),
                Capture { stamped: (self.stamped + 1) as usize, ..self },
            )
        } else if self.due {
            (
                Step::Draw(Some(self.frames as u32)),
                Capture { frames: (self.frames + 1) as u64, due: false, ..self },
            )
        } else if self.tick < o.ticks {
            let n = Capture::leg(o.ticks - self.tick, o.every);
            (
                Step::Run(n as u32),
                Capture { tick: (self.tick + n) as u32, due: o.every is Some, ..self },
            )
        } else if !self.finished {
            (Step::Draw(None), Capture { finished: true, ..self })
        } else {
            (Step::Done, self)
        }
    }

    pub fn new(o: &ShotOptions) -> (c: Capture)
        ensures
            c == Capture::fresh(o@),
            c.wf(o@),
    {
        assert(o.strokes.len() == o.strokes@.len());
        Capture { stamped: 0, tick: 0, frames: 0, due: o.every.is_some(), finished: false }
    }

    /// Decides on the next step. The strokes come first, so they have time to
    /// fall; then one continuous run, so consecutive frames show the same
    /// grains moving.
    pub fn next(&mut self, o: &ShotOptions) -> (r: Step)
        requires
            old(self).wf(o@),
        ensures
            final(self).wf(o@),
            (r, *final(self)) == old(self).step(o@),
    {
        if self.stamped < o.strokes.len() {
            let stroke: Stroke = o.strokes[self.stamped];
            self.stamped = self.stamped + 1;
            Step::Stamp(stroke)
        } else if self.due {
            let frame: u32 = self.frames as u32;
            self.frames = self.frames + 1;
            self.due = false;
            Step::Draw(Some(frame))
        } else if self.tick < o.ticks {
            let left: u32 = o.ticks - self.tick;
            let n: u32 = match o.every {
                None => left,
                Some(every) => {
                    let every: u32 = if every == 0 {
                        1
                    } else {
                        every
                    };
                    if every < left {
                        every
                    } else {
                        left
                    }
                },
            };
            self.tick = self.tick + n;
            self.due = o.every.is_some();
            Step::Run(n)
        } else if !self.finished {
            self.finished = true;
            Step::Draw(None)
        } else {
            Step::Done
        }
    }
}

/// The file that a frame of the shot `out` goes to: beside `out` with its
/// number in the name, or `out` itself.
pub open spec fn frame_file(out: Seq<char>, frame: Option<u32>) -> Seq<char> {
    match frame {
        Some(frame) => numbered(out, frame as nat),
        None => out,
    }
}

pub fn shot_path(out: &str, frame: Option<u32>) -> (r: String)
    ensures
        r@ == frame_file(out@, frame),
{
    match frame {
        Some(frame) => frame_path(out, frame),
        None => out.to_owned(),
    }
}

/// Distance of a capture from its end, beyond strokes and ticks.
pub open spec fn tail(c: Capture) -> nat {
    if c.due {
        2
    } else if !c.finished {
        1
    } else {
        0
    }
}

/// The steps of a capture from here to its end.
pub open spec fn steps(c: Capture, o: Shot) -> Seq<Step>
    decreases o.strokes.len() - c.stamped, o.ticks - c.tick, tail(c),
    when c.wf(o)
{
    let (step, after) = c.step(o);
    if step == Step::Done {
        seq![]
    } else {
        seq![step] + steps(after, o)
    }
}

/// A picture: the file it goes to, and what was done to the world it shows.
pub ghost struct Picture {
    pub file: Seq<char>,
    /// The strokes that were stamped, in order, all of them before the first
    /// tick.
    pub strokes: Seq<Stroke>,
    /// The ticks that were run.
    pub ticks: u32,
}

/// The pictures that a capture writes from here to its end, in order.
pub open spec fn written(c: Capture, o: Shot) -> Seq<Picture>
    decreases o.strokes.len() - c.stamped, o.ticks - c.tick, tail(c),
    when c.wf(o)
{
    let (step, after) = c.step(o);
    match step {
        Step::Draw(frame) => seq![
            Picture {
                file: frame_file(o.out, frame),
                strokes: o.strokes.take(c.stamped as int),
                ticks: c.tick,
            },
        ] + written(after, o),
        Step::Done => seq![],
        _ => written(after, o),
    }
}

/// A capture whose strokes are all stamped.
pub open spec fn stamped_all(c: Capture, o: Shot) -> Capture {
    Capture { stamped: o.strokes.len() as usize, ..c }
}

proof fn lemma_stamping(c: Capture, o: Shot)
    requires
        c.wf(o),
        !c.finished,
    ensures
        stamped_all(c, o).wf(o),
        steps(c, o) == Seq::new(
            (o.strokes.len() - c.stamped) as nat,
            |i: int| Step::Stamp(o.strokes[c.stamped + i]),
        ) + steps(stamped_all(c, o), o),
        written(c, o) == written(stamped_all(c, o), o),
    decreases o.strokes.len() - c.stamped,
{
    let stamps = Seq::new(
        (o.strokes.len() - c.stamped) as nat,
        |i: int| Step::Stamp(o.strokes[c.stamped + i]),
    );
    if c.stamped < o.strokes.len() {
        let (_, after) = c.step(o);
        lemma_stamping(after, o);
        let fewer = Seq::new(
            (o.strokes.len() - after.stamped) as nat,
            |i: int| Step::Stamp(o.strokes[after.stamped + i]),
        );
        assert(stamps =~= seq![Step::Stamp(o.strokes[c.stamped as int])] + fewer);
        assert(steps(c, o) =~= stamps + steps(stamped_all(c, o), o));
    } else {
        assert(c == stamped_all(c, o));
        assert(steps(c, o) =~= stamps + steps(c, o));
    }
}

proof fn lemma_no_more_stamps(c: Capture, o: Shot)
    requires
        c.wf(o),
        c.stamped == o.strokes.len(),
    ensures
        forall|i: int| 0 <= i < steps(c, o).len() ==> !(#[trigger] steps(c, o)[i] is Stamp),
    decreases o.ticks - c.tick, tail(c),
{
    let (step, after) = c.step(o);
    if step != Step::Done {
        lemma_no_more_stamps(after, o);
        let rest = steps(after, o);
        assert forall|i: int| 0 <= i < steps(c, o).len() implies !(#[trigger] steps(
            c,
            o,
        )[i] is Stamp) by {
            assert(steps(c, o) == seq![step] + rest);
            if i > 0 {
                assert(steps(c, o)[i] == rest[i - 1]);
            }
        }
    }
}

/// A capture starts by stamping all strokes, each once and in order; from the
/// first tick and the first picture on it stamps none.
pub proof fn law_strokes_come_first(o: Shot)
    requires
        o.strokes.len() <= usize::MAX,
    ensures
        ({
            let all = steps(Capture::fresh(o), o);
            let n = o.strokes.len() as int;
            &&& n <= all.len()
            &&& forall|i: int| 0 <= i < n ==> #[trigger] all[i] == Step::Stamp(o.strokes[i])
            &&& forall|i: int| n <= i < all.len() ==> !(#[trigger] all[i] is Stamp)
        }),
{
    let c = Capture::fresh(o);
    let rest = steps(stamped_all(c, o), o);
    let n = o.strokes.len() as int;
    lemma_stamping(c, o);
    lemma_no_more_stamps(stamped_all(c, o), o);
    let all = steps(c, o);
    assert forall|i: int| n <= i < all.len() implies !(#[trigger] all[i] is Stamp) by {
        assert(all[i] == rest[i - n]);
    }
}

/// Numbered frame `k` of a shot with a frame every `every` ticks.
pub open spec fn numbered_frame(o: Shot, every: u32, k: int) -> Picture {
    Picture {
        file: numbered(o.out, k as nat),
        strokes: o.strokes,
        ticks: min_int(k * stride(every), o.ticks as int) as u32,
    }
}

/// The picture that goes to the file of the shot itself: all strokes, then all
/// ticks.
pub open spec fn final_picture(o: Shot) -> Picture {
    Picture { file: o.out, strokes: o.strokes, ticks: o.ticks }
}

/// With numbered frames, frame `k` shows tick `k * every`, or the end if that
/// comes first, up to the one that shows the world after all ticks; then comes
/// the file of the shot itself, which shows that too.
pub proof fn law_numbered_frames_come_beside_the_file(o: Shot, every: u32)
    requires
        o.strokes.len() <= usize::MAX,
        o.every == Some(every),
    ensures
        written(Capture::fresh(o), o) == Seq::new(
            (ceil_div(o.ticks as int, stride(every)) + 1) as nat,
            |k: int| numbered_frame(o, every, k),
        ) + seq![final_picture(o)],
{
    let c = Capture::fresh(o);
    lemma_stamping(c, o);
    lemma_frames_from(stamped_all(c, o), o, every, 0);
    let frames = Seq::new(
        (ceil_div(o.ticks as int, stride(every)) + 1) as nat,
        |k: int| numbered_frame(o, every, k),
    );
    assert(written(c, o) =~= frames + seq![final_picture(o)]);
}

proof fn lemma_frames_from(c: Capture, o: Shot, every: u32, j: int)
    requires
        c.wf(o),
        c.stamped == o.strokes.len(),
        o.every == Some(every),
        c.due,
        !c.finished,
        0 <= j,
        c.frames == j,
        c.tick == min_int(j * stride(every), o.ticks as int),
        (j - 1) * stride(every) < o.ticks || j == 0,
    ensures
        ceil_div(o.ticks as int, stride(every)) >= j,
        written(c, o) == Seq::new(
            (ceil_div(o.ticks as int, stride(every)) + 1 - j) as nat,
            |k: int| numbered_frame(o, every, j + k),
        ) + seq![final_picture(o)],
    decreases o.ticks - c.tick,
{
    let s = stride(every);
    let t = o.ticks as int;
    let want = Seq::new(
        (ceil_div(t, s) + 1 - j) as nat,
        |k: int| numbered_frame(o, every, j + k),
    ) + seq![final_picture(o)];
    let (_, drawn) = c.step(o);
    let head = seq![numbered_frame(o, every, j)];
    assert(o.strokes.take(c.stamped as int) =~= o.strokes);
    assert(j * s == (j - 1) * s + s) by (nonlinear_arith);
    assert((j + 1) * s == j * s + s) by (nonlinear_arith);
    let rest = written(drawn, o);
    assert(written(c, o) == head + rest);
    if c.tick >= o.ticks {
        if j == 0 {
            assert(0 * s == 0);
        }
        lemma_ceil_div_is(t, s, j);
        let (_, finished) = drawn.step(o);
        assert(written(finished, o) =~= seq![]);
        assert(rest =~= seq![final_picture(o)]);
        assert(head + rest =~= want);
    } else {
        let (_, after) = drawn.step(o);
        lemma_frames_from(after, o, every, j + 1);
        assert(rest == written(after, o));
        assert forall|k: int| 0 <= k < want.len() implies #[trigger] (head + rest)[k] == want[k] by {
            if 0 < k < want.len() - 1 {
                assert(rest[k - 1] == numbered_frame(o, every, j + 1 + (k - 1)));
            }
        }
        assert(head + rest =~= want);
    }
}

/// Without numbered frames there is exactly one picture, in the file of the
/// shot itself, and it shows the world after all strokes and all ticks.
pub proof fn law_single_frame_comes_last(o: Shot)
    requires
        o.strokes.len() <= usize::MAX,
        o.every is None,
    ensures
        written(Capture::fresh(o), o) == seq![final_picture(o)],
{
    let c = Capture::fresh(o);
    lemma_stamping(c, o);
    reveal_with_fuel(written, 4);
    assert(o.strokes.take(o.strokes.len() as int) =~= o.strokes);
    assert(written(stamped_all(c, o), o) =~= seq![final_picture(o)]);
}

/// No file of a capture is written twice: numbered frames neither share a file
/// with each other nor take that of the shot itself.
pub proof fn law_no_file_is_written_twice(o: Shot, i: int, j: int)
    requires
        o.strokes.len() <= usize::MAX,
        0 <= i < j < written(Capture::fresh(o), o).len(),
    ensures
        written(Capture::fresh(o), o)[i].file != written(Capture::fresh(o), o)[j].file,
{
    match o.every {
        None => {
            law_single_frame_comes_last(o);
        },
        Some(every) => {
            law_numbered_frames_come_beside_the_file(o, every);
            law_numbered_is_another_file(o.out, i as nat);
            if numbered(o.out, i as nat) == numbered(o.out, j as nat) {
                law_frames_do_not_collide(o.out, i as nat, j as nat);
            }
        },
    }
}

/// The ticks that a row of steps has the simulation run: its runs, added up.
pub open spec fn ticks_run(steps: Seq<Step>) -> int
    decreases steps.len(),
{
    if steps.len() == 0 {
        0
    } else {
        (match steps[0] {
            Step::Run(n) => n as int,
            _ => 0,
        }) + ticks_run(steps.skip(1))
    }
}

/// The strokes that a row of steps stamps, in order.
pub open spec fn strokes_stamped(steps: Seq<Step>) -> Seq<Stroke>
    decreases steps.len(),
{
    if steps.len() == 0 {
        seq![]
    } else {
        (match steps[0] {
            Step::Stamp(stroke) => seq![stroke],
            _ => seq![],
        }) + strokes_stamped(steps.skip(1))
    }
}

/// The frames that a row of steps draws, in order.
pub open spec fn frames_drawn(steps: Seq<Step>) -> Seq<Option<u32>>
    decreases steps.len(),
{
    if steps.len() == 0 {
        seq![]
    } else {
        (match steps[0] {
            Step::Draw(frame) => seq![frame],
            _ => seq![],
        }) + frames_drawn(steps.skip(1))
    }
}

/// The next frame comes where it belongs: the numbered frame `k` after `k` legs.
spec fn on_time(c: Capture, o: Shot) -> bool {
    match o.every {
        None => !c.due && c.frames == 0,
        Some(every) => if c.due {
            c.tick == min_int(c.frames * stride(every), o.ticks as int)
        } else {
            c.frames >= 1 && c.tick == min_int((c.frames - 1) * stride(every), o.ticks as int)
        },
    }
}

proof fn lemma_on_time(c: Capture, o: Shot)
    requires
        c.wf(o),
        on_time(c, o),
    ensures
        c.step(o).1.wf(o),
        on_time(c.step(o).1, o),
{
    match o.every {
        None => {},
        Some(every) => {
            let s = stride(every);
            let f = c.frames as int;
            assert(f * s == (f - 1) * s + s) by (nonlinear_arith);
        },
    }
}

proof fn lemma_shown(c: Capture, o: Shot, i: int)
    requires
        c.wf(o),
        on_time(c, o),
        0 <= i < steps(c, o).len(),
        steps(c, o)[i] is Draw,
    ensures
        ({
            let before = steps(c, o).take(i);
            let ticks = c.tick + ticks_run(before);
            &&& o.strokes.take(c.stamped as int) + strokes_stamped(before) == o.strokes
            &&& match steps(c, o)[i]->Draw_0 {
                None => ticks == o.ticks,
                Some(k) => o.every is Some && ticks == min_int(
                    k * stride(o.every->0),
                    o.ticks as int,
                ),
            }
        }),
    decreases i,
{
    let (step, after) = c.step(o);
    lemma_on_time(c, o);
    let rest = steps(after, o);
    assert(steps(c, o) == seq![step] + rest);
    let before = steps(c, o).take(i);
    if i == 0 {
        assert(steps(c, o)[0] == step);
        assert(before =~= seq![]);
        assert(o.strokes.take(c.stamped as int) =~= o.strokes);
        assert(o.strokes.take(c.stamped as int) + strokes_stamped(before) =~= o.strokes);
    } else {
        assert(steps(c, o)[i] == rest[i - 1]);
        lemma_shown(after, o, i - 1);
        assert(before[0] == step);
        assert(before.skip(1) =~= rest.take(i - 1));
        if c.stamped < o.strokes.len() {
            assert(o.strokes.take(after.stamped as int) =~= o.strokes.take(c.stamped as int)
                + seq![o.strokes[c.stamped as int]]);
            assert(o.strokes.take(c.stamped as int) + strokes_stamped(before) =~= o.strokes);
        } else {
            assert(strokes_stamped(before) =~= strokes_stamped(rest.take(i - 1)));
        }
    }
}

/// A picture shows what the steps before it did. When a frame is drawn, all
/// strokes were stamped, and the runs handed out so far add up to all the ticks
/// asked for where it is the file of the shot itself, and to `k` times `every`
/// (at least one each, no more than all) where it is numbered frame `k`.
pub proof fn law_pictures_show_the_ticks_run(o: Shot, i: int)
    requires
        o.strokes.len() <= usize::MAX,
        0 <= i < steps(Capture::fresh(o), o).len(),
        steps(Capture::fresh(o), o)[i] is Draw,
    ensures
        ({
            let before = steps(Capture::fresh(o), o).take(i);
            &&& strokes_stamped(before) == o.strokes
            &&& match steps(Capture::fresh(o), o)[i]->Draw_0 {
                None => ticks_run(before) == o.ticks,
                Some(k) => match o.every {
                    None => false,
                    Some(every) => {
                        let due = k * (if every >= 1 {
                            every as int
                        } else {
                            1
                        });
                        ticks_run(before) == (if due < o.ticks {
                            due
                        } else {
                            o.ticks as int
                        })
                    },
                },
            }
        }),
{
    let c = Capture::fresh(o);
    assert(on_time(c, o)) by {
        if o.every is Some {
            assert(0 * stride(o.every->0) == 0) by (nonlinear_arith);
        }
    }
    lemma_shown(c, o, i);
    let before = steps(c, o).take(i);
    assert(o.strokes.take(0) + strokes_stamped(before) =~= strokes_stamped(before));
}

proof fn lemma_runs_end(c: Capture, o: Shot)
    requires
        c.wf(o),
    ensures
        c.tick + ticks_run(steps(c, o)) == o.ticks,
        forall|i: int|
            0 <= i < steps(c, o).len() ==> (#[trigger] steps(c, o)[i] matches Step::Run(n) ==> n
                > 0),
    decreases o.strokes.len() - c.stamped, o.ticks - c.tick, tail(c),
{
    let (step, after) = c.step(o);
    if step != Step::Done {
        lemma_runs_end(after, o);
        let rest = steps(after, o);
        assert(steps(c, o) == seq![step] + rest);
        assert(steps(c, o).skip(1) =~= rest);
        assert forall|i: int| 0 <= i < steps(c, o).len() implies (#[trigger] steps(
            c,
            o,
        )[i] matches Step::Run(n) ==> n > 0) by {
            if i > 0 {
                assert(steps(c, o)[i] == rest[i - 1]);
            }
        }
    }
}

/// Over the whole capture the simulation runs exactly the ticks asked for, with
/// no empty runs in between.
pub proof fn law_all_ticks_are_run(o: Shot)
    requires
        o.strokes.len() <= usize::MAX,
    ensures
        ticks_run(steps(Capture::fresh(o), o)) == o.ticks,
        forall|i: int|
            0 <= i < steps(Capture::fresh(o), o).len() ==> (#[trigger] steps(
                Capture::fresh(o),
                o,
            )[i] matches Step::Run(n) ==> n > 0),
{
    lemma_runs_end(Capture::fresh(o), o);
}

proof fn lemma_draws_from(c: Capture, o: Shot, last: int)
    requires
        c.wf(o),
        !c.finished,
        on_time(c, o),
        match o.every {
            None => last == -1,
            Some(every) => {
                &&& 0 <= last
                &&& (last - 1) * stride(every) < o.ticks || last == 0
                &&& o.ticks <= last * stride(every)
                &&& c.frames <= last + 1
                &&& c.due ==> c.frames <= last
            },
        },
    ensures
        frames_drawn(steps(c, o)) == Seq::new(
            (last + 1 - c.frames) as nat,
            |k: int| Some((c.frames + k) as u32),
        ) + seq![None::<u32>],
    decreases o.strokes.len() - c.stamped, o.ticks - c.tick, tail(c),
{
    let (step, after) = c.step(o);
    lemma_on_time(c, o);
    let rest = steps(after, o);
    assert(steps(c, o) == seq![step] + rest);
    assert(steps(c, o).skip(1) =~= rest);
    let want = Seq::new((last + 1 - c.frames) as nat, |k: int| Some((c.frames + k) as u32)) + seq![
        None::<u32>,
    ];
    let f = c.frames as int;
    if step == Step::Draw(None) {
        if o.every is Some {
            let s = stride(o.every->0);
            if f <= last {
                assert((f - 1) * s <= (last - 1) * s) by (nonlinear_arith)
                    requires
                        f <= last,
                        s >= 1,
                ;
                assert(last == 0);
            }
        }
        assert(rest =~= seq![]);
        assert(steps(c, o)[0] == step);
        assert(frames_drawn(rest) =~= seq![]);
        assert(frames_drawn(steps(c, o)) =~= seq![None::<u32>]);
        assert(last + 1 - f == 0);
        assert(frames_drawn(steps(c, o)) =~= want);
    } else {
        if o.every is Some && !c.due && c.stamped == o.strokes.len() && f == last + 1 {
            assert(c.tick == o.ticks);
        }
        lemma_draws_from(after, o, last);
        if c.due && c.stamped == o.strokes.len() {
            assert(frames_drawn(steps(c, o)) == seq![Some(f as u32)] + frames_drawn(rest));
            let fewer = Seq::new(
                (last + 1 - after.frames) as nat,
                |k: int| Some((after.frames + k) as u32),
            );
            assert(seq![Some(f as u32)] + (fewer + seq![None::<u32>]) =~= want);
        } else {
            assert(frames_drawn(steps(c, o)) =~= frames_drawn(rest));
        }
        assert(frames_drawn(steps(c, o)) =~= want);
    }
}

/// The frames are drawn in order, each once: the numbered ones up to the first
/// that shows all ticks, if there are any, and then the file of the shot itself.
pub proof fn law_frames_are_drawn_in_order(o: Shot, last: int)
    requires
        o.strokes.len() <= usize::MAX,
        match o.every {
            None => last == -1,
            Some(every) => {
                let apart = if every >= 1 {
                    every as int
                } else {
                    1
                };
                &&& 0 <= last
                &&& (last - 1) * apart < o.ticks || last == 0
                &&& o.ticks <= last * apart
            },
        },
    ensures
        frames_drawn(steps(Capture::fresh(o), o)) == Seq::new(
            (last + 1) as nat,
            |k: int| Some(k as u32),
        ) + seq![None::<u32>],
{
    let c = Capture::fresh(o);
    assert(on_time(c, o)) by {
        if o.every is Some {
            assert(0 * stride(o.every->0) == 0) by (nonlinear_arith);
        }
    }
    lemma_draws_from(c, o, last);
    assert(frames_drawn(steps(c, o)) =~= Seq::new((last + 1) as nat, |k: int| Some(k as u32))
        + seq![None::<u32>]);
}

// --- the view ----------------------------------------------------------------

/// What a shot looks at: its own centre if it has one, else where a camera
/// starts, with its own zoom.
pub open spec fn view_of(o: Shot) -> Camera {
    Camera {
        centre: match o.centre {
            Some(centre) => centre,
            None => Point { x: Single { bits: WORLD_MIDDLE }, y: Single { bits: SURFACE } },
        },
        zoom: o.zoom,
    }
}

pub fn shot_camera(o: &ShotOptions) -> (c: Camera)
    ensures
        c == view_of(o@),
        c.zoom == o.zoom,
        c.centre == (match o.centre {
            Some(p) => p,
            None => Point { x: Single { bits: WORLD_MIDDLE }, y: Single { bits: SURFACE } },
        }),
{
    let mut camera: Camera = Camera::new(Single { bits: ONE });
    camera.zoom = o.zoom;
    match o.centre {
        Some(centre) => {
            camera.centre = centre;
        },
        None => {},
    }
    camera
}

/// The view's uniforms for every picture of a shot, on a target of the given
/// size: seen with the shot's camera, and without a brush ring.
pub fn shot_view(o: &ShotOptions, screen: Point, little: bool) -> (bytes: Vec<u8>)
    ensures
        ({
            let zero = Single { bits: 0 };
            bytes@ == word_bytes(
                view_params(screen, view_of(o@), Point { x: zero, y: zero }, zero, false),
                little,
            )
        }),
{
    let zero = Single { bits: 0 };
    view_uniform(screen, &shot_camera(o), Point { x: zero, y: zero }, zero, false, little)
}

/// A shot is seen with its own zoom, at its own centre if it names one, and over
/// the surface in the middle of the world, at (2048, 620), if not.
pub proof fn law_shots_keep_their_view(o: Shot)
    ensures
        view_of(o).zoom == o.zoom,
        o.centre is Some ==> view_of(o).centre == o.centre->0,
        o.centre is None ==> view_of(o).centre.x.bits == 0x4500_0000 && view_of(o).centre.y.bits
            == 0x441b_0000,
{
}

/// A numbered frame goes to the numbered file, any other to the file itself.
pub proof fn law_only_numbered_frames_are_renamed(out: Seq<char>, frame: u32)
    ensures
        frame_file(out, None) == out,
        frame_file(out, Some(frame)) == numbered(out, frame as nat),
{
}

// --- reading the picture back ------------------------------------------------

/// Bytes per row of pixels, and per row of the readback buffer: copies from a
/// texture require rows padded to 256 bytes.
#[derive(Copy, Clone, Debug, PartialEq, Eq, Structural)]
pub struct Layout {
    pub unpadded: u32,
    pub padded: u32,
    pub height: u32,
}

pub open spec fn padded_row(width: int) -> int {
    ceil_div(4 * width, 256) * 256
}

impl Layout {
    /// Rows of whole pixels, padded to the next multiple of 256 bytes, all of
    /// them within 32 bits.
    pub open spec fn wf(self) -> bool {
        &&& self.unpadded <= self.padded
        &&& self.padded * self.height <= u32::MAX
    }

    /// `None` if the padded rows take more bytes than 32 bits can count.
    pub fn new(width: u32, height: u32) -> (r: Option<Layout>)
        ensures
            match r {
                Some(l) => {
                    &&& l.wf()
                    &&& l.height == height
                    &&& l.unpadded == 4 * width
                    &&& l.padded == padded_row(width as int)
                },
                None => {
                    ||| padded_row(width as int) > u32::MAX
                    ||| padded_row(width as int) * height > u32::MAX
                },
            },
    {
        if width > 0x3fff_ffff {
            return None;
        }
        let unpadded: u32 = width * 4;
        let blocks: u32 = div_ceil(unpadded, 256);
        let padded: u64 = blocks as u64 * 256;
        if padded > u32::MAX as u64 {
            return None;
        }
        assert(padded * height <= 0xffff_ffff * 0xffff_ffff) by (nonlinear_arith)
            requires
                padded <= 0xffff_ffff,
                height <= 0xffff_ffff,
        ;
        if padded * height as u64 > u32::MAX as u64 {
            return None;
        }
        Some(Layout { unpadded, padded: padded as u32, height })
    }

    /// Size of the readback buffer.
    pub fn buffer_size(&self) -> (r: u64)
        requires
            self.wf(),
        ensures
            r == self.padded * self.height,
    {
        self.padded as u64 * self.height as u64
    }

    /// The pixels of the first `rows` rows of a readback buffer.
    pub open spec fn kept(self, mapped: Seq<u8>, rows: int) -> Seq<u8>
        decreases rows,
    {
        if rows <= 0 {
            seq![]
        } else {
            let start = (rows - 1) * self.padded;
            self.kept(mapped, rows - 1) + mapped.subrange(start, start + self.unpadded)
        }
    }

    /// Drops the padding at the end of every row.
    pub fn unpad(&self, mapped: &[u8]) -> (pixels: Vec<u8>)
        requires
            self.wf(),
            mapped@.len() >= self.padded * self.height,
        ensures
            pixels@ == self.kept(mapped@, self.height as int),
            pixels@.len() == self.height * self.unpadded,
    {
        let mut pixels: Vec<u8> = Vec::new();
        let mut row: u32 = 0;
        while row < self.height
            invariant
                row <= self.height,
                self.wf(),
                mapped@.len() >= self.padded * self.height,
                pixels@ == self.kept(mapped@, row as int),
            decreases self.height - row,
        {
            assert((row + 1) * self.padded <= self.padded * self.height && (row + 1) * self.padded
                == row * self.padded + self.padded) by (nonlinear_arith)
                requires
                    row < self.height,
            ;
            let start: usize = (row * self.padded) as usize;
            let line: &[u8] = vstd::slice::slice_subrange(
                mapped,
                start,
                start + self.unpadded as usize,
            );
            pixels.extend_from_slice(line);
            assert(pixels@ =~= self.kept(mapped@, row as int) + line@);
            row += 1;
        }
        proof {
            lemma_kept_len(*self, mapped@, self.height as int);
        }
        pixels
    }
}

proof fn lemma_kept_len(l: Layout, mapped: Seq<u8>, rows: int)
    requires
        l.wf(),
        0 <= rows <= l.height,
        mapped.len() >= l.padded * l.height,
    ensures
        l.kept(mapped, rows).len() == rows * l.unpadded,
    decreases rows,
{
    if rows > 0 {
        lemma_kept_len(l, mapped, rows - 1);
        let start = (rows - 1) * l.padded;
        assert(0 <= start && start + l.padded <= l.padded * l.height) by (nonlinear_arith)
            requires
                start == (rows - 1) * l.padded,
                1 <= rows <= l.height,
        ;
        assert(rows * l.unpadded == (rows - 1) * l.unpadded + l.unpadded) by (nonlinear_arith);
    } else {
        assert(0 * l.unpadded == 0) by (nonlinear_arith);
    }
}

/// What is left of a readback buffer without its padding is a whole picture:
/// it can be written as a PNG unless it has no width or no height.
pub proof fn law_unpadded_pictures_can_be_written(
    l: Layout,
    width: u32,
    height: u32,
    mapped: Seq<u8>,
)
    requires
        l.wf(),
        l.unpadded == 4 * width,
        l.height == height,
        mapped.len() >= l.padded * l.height,
    ensures
        l.kept(mapped, height as int).len() == 4 * width * height,
        width > 0 && height > 0 ==> fault(
            width,
            height,
            l.kept(mapped, height as int).len(),
        ) is None,
{
    lemma_kept_len(l, mapped, height as int);
    assert(height * (4 * width) == 4 * width * height) by (nonlinear_arith);
}

proof fn lemma_kept(l: Layout, mapped: Seq<u8>, rows: int, row: int, column: int)
    requires
        l.wf(),
        0 <= row < rows <= l.height,
        0 <= column < l.unpadded,
        mapped.len() >= l.padded * l.height,
    ensures
        l.kept(mapped, rows).len() == rows * l.unpadded,
        0 <= row * l.unpadded + column < rows * l.unpadded,
        l.kept(mapped, rows)[row * l.unpadded + column] == mapped[row * l.padded + column],
    decreases rows,
{
    let start = (rows - 1) * l.padded;
    assert(0 <= start && start + l.padded <= l.padded * l.height) by (nonlinear_arith)
        requires
            start == (rows - 1) * l.padded,
            1 <= rows <= l.height,
    ;
    assert(rows * l.unpadded == (rows - 1) * l.unpadded + l.unpadded) by (nonlinear_arith);
    assert(row * l.unpadded >= 0 && (row < rows - 1 ==> row * l.unpadded + l.unpadded <= (rows - 1)
        * l.unpadded)) by (nonlinear_arith)
        requires
            0 <= row,
            l.unpadded >= 0,
    ;
    if rows > 1 {
        lemma_kept(
            l,
            mapped,
            rows - 1,
            if row < rows - 1 {
                row
            } else {
                0
            },
            column,
        );
    } else {
        assert(l.kept(mapped, 0) =~= Seq::<u8>::empty());
        assert(0 * l.unpadded == 0) by (nonlinear_arith);
    }
}

/// Dropping the padding keeps every byte of every pixel in its place: column
/// `column` of row `row` is what the buffer held there.
pub proof fn law_unpadding_keeps_pixels(l: Layout, mapped: Seq<u8>, row: int, column: int)
    requires
        l.wf(),
        0 <= row < l.height,
        0 <= column < l.unpadded,
        mapped.len() >= l.padded * l.height,
    ensures
        l.kept(mapped, l.height as int).len() == l.height * l.unpadded,
        l.kept(mapped, l.height as int)[row * l.unpadded + column] == mapped[row * l.padded
            + column],
{
    lemma_kept(l, mapped, l.height as int, row, column);
}

/// Rows are padded to the next multiple of 256 bytes and no further.
pub proof fn law_rows_are_padded_no_further_than_needed(width: u32)
    ensures
        padded_row(width as int) % 256 == 0,
        4 * width <= padded_row(width as int) < 4 * width + 256,
{
}

} // verus!

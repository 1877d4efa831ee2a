//! Simulation bookkeeping: the chunk grid, the partition phases, the uniforms
//! staged for a frame's ticks, and the brush.

use vstd::prelude::*;
use crate::bytes::{bytes_in_order, image_in_order, words_in_order};
#[allow(unused_imports)]
use crate::bytes::{law_what_is_written_is_read, word_bytes};
use crate::single::{Point, Single};
use crate::world::{temperature_of, CELL_COUNT, CHUNK, HEIGHT, WIDTH};
#[allow(unused_imports)]
use crate::world::placed_temperature;

verus! {

/// The four Margolus partition phases.
///
/// The **y component must flip on every tick**. A cell can only fall when it
/// sits in the top row of its block, so if y holds still for two ticks in a row
/// everything falls at half speed: it drops one cell, lands in a bottom row,
/// and is stuck until the partition moves again. Cycling y as 0,1,0,1 keeps
/// every falling cell in a top row every tick.
///
/// x cycles on a period of four instead, which varies which neighbour a grain
/// can slump into without disturbing the vertical cadence.
pub const OFFSETS: [(u32, u32); 4] = [(0, 0), (1, 1), (1, 0), (0, 1)];

/// Upper bound on catch-up ticks in one frame. Past this the sim deliberately
/// runs slow rather than spiralling: trying to catch up after a stall just
/// makes the next frame later still.
///
/// Steady state at 240 Hz on a 60 Hz display is four; the headroom absorbs a
/// dropped frame or two without the world visibly lurching.
pub const MAX_TICKS_PER_FRAME: usize = 12;

/// Wake bits of a chunk: simulated on this tick, and on the next one.
pub const WAKE_NOW: u32 = 1;

pub const WAKE_NEXT: u32 = 2;

/// Dynamic uniform offsets must be a multiple of
/// `min_uniform_buffer_offset_alignment`, which is 256 in the default limits.
pub const UNIFORM_STRIDE: u32 = 256;

/// The stride in words.
pub const STRIDE_WORDS: usize = 64;

/// Words in one tick's uniforms.
pub const SIM_PARAM_WORDS: usize = 8;

// Sizes in bytes of the uniforms of a tick, of a frame's ticks, of a stroke and
// of the pass that rotates the wake bits.
pub const SIM_PARAM_BYTES: u64 = 32;

pub const STAGING_BYTES: u64 = 3072;

pub const PAINT_PARAM_BYTES: u64 = 56;

pub const CHUNK_PARAM_BYTES: u64 = 16;

/// A brush stroke, as a swept segment in cell coordinates.
#[derive(Copy, Clone, Debug, PartialEq, Eq, Structural)]
pub struct Stroke {
    pub from: Point,
    pub to: Point,
    pub radius: Single,
    pub material: u8,
}

/// `a / b`, rounded up.
pub open spec fn ceil_div(a: int, b: int) -> int {
    (a + b - 1) / b
}

pub fn div_ceil(a: u32, b: u32) -> (r: u32)
    requires
        b > 0,
    ensures
        r == ceil_div(a as int, b as int),
{
    let r: u32 = if a % b == 0 {
        a / b
    } else {
        proof {
            lemma_rounded_up(a as int, b as int);
        }
        a / b + 1
    };
    proof {
        lemma_rounded_up(a as int, b as int);
    }
    r
}

proof fn lemma_rounded_up(a: int, b: int)
    requires
        0 <= a,
        0 < b,
    ensures
        a % b == 0 ==> ceil_div(a, b) == a / b,
        a % b != 0 ==> ceil_div(a, b) == a / b + 1,
        a % b != 0 ==> a / b < a,
{
    let q = a / b;
    let m = a % b;
    vstd::arithmetic::div_mod::lemma_fundamental_div_mod(a, b);
    if m == 0 {
        assert(a + b - 1 == q * b + (b - 1)) by (nonlinear_arith)
            requires
                a == b * q,
        ;
        vstd::arithmetic::div_mod::lemma_fundamental_div_mod_converse(a + b - 1, b, q, b - 1);
    } else {
        assert(a + b - 1 == (q + 1) * b + (m - 1)) by (nonlinear_arith)
            requires
                a == b * q + m,
        ;
        vstd::arithmetic::div_mod::lemma_fundamental_div_mod_converse(
            a + b - 1,
            b,
            q + 1,
            m - 1,
        );
        assert(q < a) by (nonlinear_arith)
            requires
                a == b * q + m,
                m > 0,
                b > 0,
                q >= 0,
        ;
        assert(q >= 0) by (nonlinear_arith)
            requires
                q == a / b,
                a >= 0,
                b > 0,
        ;
    }
}

/// `ceil_div(a, b)` is the one number `q` of blocks of `b` that cover `a` while
/// one block less does not.
pub proof fn lemma_ceil_div_is(a: int, b: int, q: int)
    requires
        0 < b,
        (q - 1) * b < a <= q * b,
    ensures
        ceil_div(a, b) == q,
{
    let r = a + b - 1 - q * b;
    assert(0 <= r < b) by (nonlinear_arith)
        requires
            r == a + b - 1 - q * b,
            (q - 1) * b < a <= q * b,
    ;
    vstd::arithmetic::div_mod::lemma_fundamental_div_mod_converse(a + b - 1, b, q, r);
}

/// The uniforms of one tick: world size, partition offset, chunk grid, the
/// tick itself, and a word of padding.
pub open spec fn tick_params(chunks: (u32, u32), tick: u32) -> Seq<u32> {
    let offset = OFFSETS[tick as int % 4];
    seq![WIDTH, HEIGHT, offset.0, offset.1, chunks.0, chunks.1, tick, 0u32]
}

/// The uniforms of `ticks` consecutive ticks, each at the start of a stride of
/// its own and padded with zeros.
pub open spec fn staged_params(chunks: (u32, u32), tick: u32, ticks: nat) -> Seq<u32> {
    Seq::new(
        ticks * STRIDE_WORDS as nat,
        |i: int|
            {
                let slot = i / (STRIDE_WORDS as int);
                let word = i % (STRIDE_WORDS as int);
                if word < SIM_PARAM_WORDS {
                    tick_params(chunks, tick.wrapping_add(slot as u32))[word]
                } else {
                    0
                }
            },
    )
}

/// What to hand the GPU for one tick.
#[derive(Copy, Clone, Debug, PartialEq, Eq)]
pub struct TickPass {
    /// Dynamic offset of this tick's uniforms.
    pub offset: u32,
    /// Workgroups of the simulation pass: one per chunk.
    pub sim_groups: (u32, u32),
    /// Workgroups of the pass that rotates the wake bits, one thread per chunk.
    pub rotate_groups: u32,
}

/// What to hand the GPU for one stroke.
pub struct PaintPass {
    pub params: Vec<u8>,
    /// Workgroups of 8x8 threads.
    pub groups: (u32, u32),
}

/// One batch of a run of ticks.
pub struct Batch {
    pub staging: Vec<u8>,
    pub passes: Vec<TickPass>,
    /// Ticks of the run that are left after this batch.
    pub remaining: u32,
}

/// What to upload when a world starts.
pub struct Upload {
    pub cells: Vec<u8>,
    pub wake: Vec<u8>,
}

impl Upload {
    /// The cells as they are and every chunk awake, in the given byte order.
    pub open spec fn starts(self, cells: Seq<u32>, little: bool, chunk_count: nat) -> bool {
        &&& self.cells@ == word_bytes(cells, little)
        &&& self.wake@ == word_bytes(
            Seq::new(chunk_count, |i: int| WAKE_NOW | WAKE_NEXT),
            little,
        )
    }
}

/// The rectangle of cells that a stroke can touch.
#[derive(Copy, Clone, Debug, PartialEq, Eq, Structural)]
pub struct Rect {
    pub x: i32,
    pub y: i32,
    pub width: u32,
    pub height: u32,
}

impl Rect {
    pub open spec fn contains(self, x: int, y: int) -> bool {
        self.x <= x < self.x + self.width && self.y <= y < self.y + self.height
    }
}

pub open spec fn max_int(a: int, b: int) -> int {
    if a > b {
        a
    } else {
        b
    }
}

pub open spec fn min_int(a: int, b: int) -> int {
    if a < b {
        a
    } else {
        b
    }
}

/// The part of a box, both corners included, that lies in the world.
pub open spec fn visible_part(lo: (i32, i32), hi: (i32, i32)) -> Option<Rect> {
    let x = max_int(lo.0 as int, 0);
    let y = max_int(lo.1 as int, 0);
    let right = min_int(hi.0 as int, WIDTH - 1);
    let bottom = min_int(hi.1 as int, HEIGHT - 1);
    if right < x || bottom < y {
        None
    } else {
        Some(
            Rect {
                x: x as i32,
                y: y as i32,
                width: (right - x + 1) as u32,
                height: (bottom - y + 1) as u32,
            },
        )
    }
}

/// Clips a box to the world.
pub fn clip(lo: (i32, i32), hi: (i32, i32)) -> (r: Option<Rect>)
    ensures
        r == visible_part(lo, hi),
{
    let x: i32 = if lo.0 > 0 {
        lo.0
    } else {
        0
    };
    let y: i32 = if lo.1 > 0 {
        lo.1
    } else {
        0
    };
    let right: i32 = if hi.0 < WIDTH as i32 - 1 {
        hi.0
    } else {
        WIDTH as i32 - 1
    };
    let bottom: i32 = if hi.1 < HEIGHT as i32 - 1 {
        hi.1
    } else {
        HEIGHT as i32 - 1
    };
    if right < x || bottom < y {
        return None;
    }
    Some(Rect { x, y, width: (right - x + 1) as u32, height: (bottom - y + 1) as u32 })
}

/// The uniforms of a stroke: world size, chunk grid, origin of the rectangle,
/// the segment's two ends, brush radius, material, temperature and tick.
pub open spec fn paint_params(chunks: (u32, u32), tick: u32, rect: Rect, s: Stroke) -> Seq<u32> {
    seq![
        WIDTH,
        HEIGHT,
        chunks.0,
        chunks.1,
        rect.x as u32,
        rect.y as u32,
        s.from.x.bits,
        s.from.y.bits,
        s.to.x.bits,
        s.to.y.bits,
        s.radius.bits,
        s.material as u32,
        placed_temperature(s.material) as u32,
        tick,
    ]
}

/// How many ticks the next batch of a run takes.
pub open spec fn batch_size(remaining: u32) -> int {
    min_int(remaining as int, MAX_TICKS_PER_FRAME as int)
}

pub struct Sim {
    pub tick: u32,
    /// World size in chunks; also the sim dispatch dimensions.
    pub chunks: (u32, u32),
    /// Whether the buffers hold the least significant byte of a word first.
    pub little: bool,
}

impl Sim {
    /// The chunk grid covers the world.
    pub open spec fn wf(self) -> bool {
        &&& self.chunks.0 == ceil_div(WIDTH as int, CHUNK as int)
        &&& self.chunks.1 == ceil_div(HEIGHT as int, CHUNK as int)
    }

    pub open spec fn chunk_total(self) -> int {
        self.chunks.0 * self.chunks.1
    }

    /// What slot `slot` of a frame asks of the GPU.
    pub open spec fn pass(self, slot: int) -> TickPass {
        TickPass {
            offset: (slot * UNIFORM_STRIDE) as u32,
            sim_groups: self.chunks,
            rotate_groups: ceil_div(self.chunk_total(), 256) as u32,
        }
    }

    /// Starts a simulation of the given cells at tick 0.
    ///
    /// Everything starts awake; the first few ticks put to sleep whatever was
    /// already settled at generation time.
    pub fn new(cells: &[u32]) -> (r: (Sim, Upload))
        ensures
            r.0.wf(),
            r.0.tick == 0,
            r.1.starts(cells@, r.0.little, r.0.chunk_total() as nat),
    {
        let chunks: (u32, u32) = (div_ceil(WIDTH, CHUNK), div_ceil(HEIGHT, CHUNK));
        let (image, little): (Vec<u8>, bool) = image_in_order(cells);
        let sim = Sim { tick: 0, chunks, little };
        let upload = Upload { cells: image, wake: sim.all_awake() };
        (sim, upload)
    }

    /// The wake bits with every chunk awake.
    fn all_awake(&self) -> (wake: Vec<u8>)
        requires
            self.wf(),
        ensures
            wake@ == word_bytes(
                Seq::new(self.chunk_total() as nat, |i: int| WAKE_NOW | WAKE_NEXT),
                self.little,
            ),
    {
        let wake: Vec<u32> = vec![WAKE_NOW | WAKE_NEXT; self.chunk_count() as usize];
        assert(wake@ =~= Seq::new(self.chunk_total() as nat, |i: int| WAKE_NOW | WAKE_NEXT));
        bytes_in_order(wake.as_slice(), self.little)
    }

    pub fn chunk_count(&self) -> (r: u32)
        requires
            self.wf(),
        ensures
            r == self.chunk_total(),
    {
        proof {
            self.lemma_grid();
        }
        self.chunks.0 * self.chunks.1
    }

    proof fn lemma_grid(self)
        requires
            self.wf(),
        ensures
            self.chunks == (128u32, 64u32),
            self.chunk_total() == 8192,
    {
        assert(self.chunks.0 * self.chunks.1 == 8192) by (nonlinear_arith)
            requires
                self.chunks.0 == 128,
                self.chunks.1 == 64,
        ;
    }

    /// The uniforms of the pass that rotates the wake bits.
    pub fn chunk_params(&self) -> (bytes: Vec<u8>)
        requires
            self.wf(),
        ensures
            bytes@ == word_bytes(seq![self.chunk_total() as u32, 0, 0, 0], self.little),
    {
        let words: Vec<u32> = vec![self.chunk_count(), 0, 0, 0];
        assert(words@ =~= seq![self.chunk_total() as u32, 0, 0, 0]);
        bytes_in_order(words.as_slice(), self.little)
    }

    /// Back to tick 0 with the given cells and every chunk awake.
    pub fn reset(&mut self, cells: &[u32]) -> (r: Upload)
        requires
            old(self).wf(),
        ensures
            *final(self) == (Sim { tick: 0, ..*old(self) }),
            r.starts(cells@, old(self).little, old(self).chunk_total() as nat),
    {
        self.tick = 0;
        Upload { cells: bytes_in_order(cells, self.little), wake: self.all_awake() }
    }

    /// The cells that a copy of the whole cell buffer holds.
    pub fn read_cells(&self, mapped: &[u8]) -> (cells: Vec<u32>)
        requires
            mapped@.len() == 4 * CELL_COUNT,
        ensures
            cells@.len() == CELL_COUNT,
            mapped@ == word_bytes(cells@, self.little),
    {
        words_in_order(mapped, self.little)
    }

    /// Stage the uniforms for every tick this frame will run.
    ///
    /// Buffer writes are ordered against *submission*, not against passes
    /// inside an encoder -- writing between two encoded passes would leave both
    /// reading the last value written. Staging all the ticks up front and
    /// selecting between them with a dynamic offset keeps the whole frame to a
    /// single write and a single submit.
    pub fn prepare(&self, ticks: usize) -> (staging: Vec<u8>)
        requires
            ticks <= MAX_TICKS_PER_FRAME,
        ensures
            staging@ == word_bytes(
                staged_params(self.chunks, self.tick, ticks as nat),
                self.little,
            ),
    {
        let ghost whole = staged_params(self.chunks, self.tick, ticks as nat);
        let mut words: Vec<u32> = Vec::new();
        let mut slot: usize = 0;
        while slot < ticks
            invariant
                slot <= ticks <= MAX_TICKS_PER_FRAME,
                whole == staged_params(self.chunks, self.tick, ticks as nat),
                words@ =~= whole.take(slot * STRIDE_WORDS),
            decreases ticks - slot,
        {
            let tick: u32 = self.tick.wrapping_add(slot as u32);
            let offset: (u32, u32) = OFFSETS[(tick % 4) as usize];
            words.push(WIDTH);
            words.push(HEIGHT);
            words.push(offset.0);
            words.push(offset.1);
            words.push(self.chunks.0);
            words.push(self.chunks.1);
            words.push(tick);
            words.push(0);
            let mut word: usize = SIM_PARAM_WORDS;
            assert forall|i: int| slot * STRIDE_WORDS <= i < words@.len() implies words@[i]
                == whole[i] by {
                assert(i / (STRIDE_WORDS as int) == slot);
            }
            while word < STRIDE_WORDS
                invariant
                    SIM_PARAM_WORDS <= word <= STRIDE_WORDS,
                    slot < ticks <= MAX_TICKS_PER_FRAME,
                    whole == staged_params(self.chunks, self.tick, ticks as nat),
                    words@ =~= whole.take(slot * STRIDE_WORDS + word),
                decreases STRIDE_WORDS - word,
            {
                proof {
                    let i = slot * STRIDE_WORDS + word;
                    assert(i / (STRIDE_WORDS as int) == slot && i % (STRIDE_WORDS as int) == word);
                }
                words.push(0);
                word += 1;
            }
            slot += 1;
        }
        assert(words@ =~= whole);
        bytes_in_order(words.as_slice(), self.little)
    }

    /// The two passes of one tick: the tick itself, and a separate one that
    /// observes every wake bit the tick just set.
    pub fn encode_tick(&self, slot: usize) -> (r: TickPass)
        requires
            self.wf(),
            slot < MAX_TICKS_PER_FRAME,
        ensures
            r == self.pass(slot as int),
    {
        TickPass {
            offset: slot as u32 * UNIFORM_STRIDE,
            sim_groups: self.chunks,
            rotate_groups: div_ceil(self.chunk_count(), 256),
        }
    }

    /// Stamp a stroke into the world. `lo` and `hi` are the corners of the
    /// segment's bounding box, brush included, rounded outwards to cells; the
    /// dispatch covers only its part inside the world, so brush cost scales
    /// with the brush, not the world.
    pub fn paint(&self, lo: (i32, i32), hi: (i32, i32), s: &Stroke) -> (r: Option<PaintPass>)
        ensures
            match visible_part(lo, hi) {
                None => r is None,
                Some(rect) => {
                    &&& r is Some
                    &&& r->0.params@ == word_bytes(
                        paint_params(self.chunks, self.tick, rect, *s),
                        self.little,
                    )
                    &&& r->0.groups.0 == ceil_div(rect.width as int, 8)
                    &&& r->0.groups.1 == ceil_div(rect.height as int, 8)
                },
            },
    {
        let rect: Rect = match clip(lo, hi) {
            None => {
                return None;
            },
            Some(rect) => rect,
        };
        let words: Vec<u32> = vec![
            WIDTH,
            HEIGHT,
            self.chunks.0,
            self.chunks.1,
            rect.x as u32,
            rect.y as u32,
            s.from.x.bits,
            s.from.y.bits,
            s.to.x.bits,
            s.to.y.bits,
            s.radius.bits,
            s.material as u32,
            temperature_of(s.material) as u32,
            self.tick,
        ];
        assert(words@ =~= paint_params(self.chunks, self.tick, rect, *s));
        Some(
            PaintPass {
                params: bytes_in_order(words.as_slice(), self.little),
                groups: (div_ceil(rect.width, 8), div_ceil(rect.height, 8)),
            },
        )
    }

    /// Counts `ticks` ticks as done.
    pub fn advance(&mut self, ticks: usize)
        requires
            ticks <= MAX_TICKS_PER_FRAME,
        ensures
            *final(self) == (Sim {
                tick: old(self).tick.wrapping_add(ticks as u32),
                ..*old(self)
            }),
    {
        self.tick = self.tick.wrapping_add(ticks as u32);
    }

    /// Takes the next batch, of at most [`MAX_TICKS_PER_FRAME`] ticks, off a
    /// run with `remaining` ticks to go. `None` when the run is over.
    pub fn run(&mut self, remaining: u32) -> (r: Option<Batch>)
        requires
            old(self).wf(),
        ensures
            *final(self) == (Sim {
                tick: old(self).tick.wrapping_add(batch_size(remaining) as u32),
                ..*old(self)
            }),
            r is None <==> remaining == 0,
            r matches Some(batch) ==> {
                let n = batch_size(remaining);
                &&& batch.staging@ == word_bytes(
                    staged_params(old(self).chunks, old(self).tick, n as nat),
                    old(self).little,
                )
                &&& batch.passes@ == Seq::new(n as nat, |slot: int| old(self).pass(slot))
                &&& batch.remaining == remaining - n
            },
    {
        if remaining == 0 {
            return None;
        }
        let batch: u32 = if remaining < MAX_TICKS_PER_FRAME as u32 {
            remaining
        } else {
            MAX_TICKS_PER_FRAME as u32
        };
        let staging: Vec<u8> = self.prepare(batch as usize);
        let mut passes: Vec<TickPass> = Vec::new();
        let mut slot: usize = 0;
        while slot < batch as usize
            invariant
                slot <= batch <= MAX_TICKS_PER_FRAME,
                self.wf(),
                passes@ =~= Seq::new(slot as nat, |k: int| self.pass(k)),
            decreases batch - slot,
        {
            passes.push(self.encode_tick(slot));
            slot += 1;
        }
        self.advance(batch as usize);
        Some(Batch { staging, passes, remaining: remaining - batch })
    }
}

// --- laws --------------------------------------------------------------------

/// The partition offset of a tick.
pub open spec fn phase(tick: u32) -> (u32, u32) {
    OFFSETS[tick as int % 4]
}

/// The y component of the partition flips on every tick, also when the tick
/// counter wraps around.
pub proof fn law_phase_flips_y_every_tick(tick: u32)
    ensures
        phase(tick.wrapping_add(1)).1 == 1 - phase(tick).1,
{
}

proof fn lemma_phase_index(tick: u32, k: u32)
    ensures
        tick.wrapping_add(k) as int % 4 == (tick as int % 4 + k) % 4,
{
}

/// Four ticks in a row go through all four partitions, and the fifth starts
/// over.
pub proof fn law_phases_have_period_four(tick: u32, offset: (u32, u32))
    requires
        offset.0 <= 1,
        offset.1 <= 1,
    ensures
        exists|k: u32| k < 4 && #[trigger] phase(tick.wrapping_add(k)) == offset,
        phase(tick.wrapping_add(4)) == phase(tick),
{
    let first = tick as int % 4;
    assert(OFFSETS[0] == (0u32, 0u32) && OFFSETS[1] == (1u32, 1u32) && OFFSETS[2] == (1u32, 0u32)
        && OFFSETS[3] == (0u32, 1u32));
    let wanted: int = if offset.0 == 0 && offset.1 == 0 {
        0
    } else if offset.0 == 1 && offset.1 == 1 {
        1
    } else if offset.0 == 1 {
        2
    } else {
        3
    };
    let k = ((wanted - first + 4) % 4) as u32;
    lemma_phase_index(tick, k);
    lemma_phase_index(tick, 4);
    assert(phase(tick.wrapping_add(k)) == offset);
}

/// The chunk grid has a chunk for every cell of the world, the simulation pass
/// a workgroup for every chunk, and the rotating pass a thread for each.
pub proof fn law_chunks_cover_the_world(sim: Sim, x: int, y: int)
    requires
        sim.wf(),
        0 <= x < WIDTH,
        0 <= y < HEIGHT,
    ensures
        0 <= x / (CHUNK as int) < sim.chunks.0,
        0 <= y / (CHUNK as int) < sim.chunks.1,
        sim.chunk_total() == 8192,
        forall|slot: int| (#[trigger] sim.pass(slot)).sim_groups == sim.chunks,
        forall|slot: int| 256 * (#[trigger] sim.pass(slot)).rotate_groups >= sim.chunk_total(),
{
    sim.lemma_grid();
}

/// The dynamic offset of a slot selects the uniforms of that slot's tick.
pub proof fn law_offset_selects_its_tick(sim: Sim, ticks: nat, slot: int)
    requires
        sim.wf(),
        0 <= slot < ticks <= MAX_TICKS_PER_FRAME,
    ensures
        ({
            let staged = staged_params(sim.chunks, sim.tick, ticks);
            let at = sim.pass(slot).offset as int / 4;
            &&& sim.pass(slot).offset % UNIFORM_STRIDE == 0
            &&& at + SIM_PARAM_WORDS <= staged.len()
            &&& staged.subrange(at, at + SIM_PARAM_WORDS) == tick_params(
                sim.chunks,
                sim.tick.wrapping_add(slot as u32),
            )
        }),
{
    assert(sim.pass(slot).offset as int / 4 == slot * STRIDE_WORDS);
    lemma_slot(sim.chunks, sim.tick, ticks, slot);
}

proof fn lemma_slot(chunks: (u32, u32), tick: u32, ticks: nat, slot: int)
    requires
        0 <= slot < ticks,
    ensures
        slot * STRIDE_WORDS + SIM_PARAM_WORDS <= staged_params(chunks, tick, ticks).len(),
        staged_params(chunks, tick, ticks).subrange(
            slot * STRIDE_WORDS,
            slot * STRIDE_WORDS + SIM_PARAM_WORDS,
        ) == tick_params(chunks, tick.wrapping_add(slot as u32)),
{
    let at = slot * STRIDE_WORDS;
    let params = tick_params(chunks, tick.wrapping_add(slot as u32));
    let here = staged_params(chunks, tick, ticks).subrange(at, at + SIM_PARAM_WORDS);
    assert forall|k: int| 0 <= k < SIM_PARAM_WORDS implies #[trigger] here[k] == params[k] by {
        assert((at + k) / (STRIDE_WORDS as int) == slot && (at + k) % (STRIDE_WORDS as int) == k);
    }
    assert(here =~= params);
}

/// What is staged for a frame, for a stroke and for the pass that rotates the
/// wake bits fits the buffer made for it.
pub proof fn law_uniforms_fit_their_buffers(
    sim: Sim,
    ticks: nat,
    rect: Rect,
    s: Stroke,
    little: bool,
)
    requires
        ticks <= MAX_TICKS_PER_FRAME,
    ensures
        word_bytes(tick_params(sim.chunks, sim.tick), little).len() == SIM_PARAM_BYTES,
        word_bytes(staged_params(sim.chunks, sim.tick, ticks), little).len() == ticks
            * UNIFORM_STRIDE <= STAGING_BYTES,
        word_bytes(paint_params(sim.chunks, sim.tick, rect, s), little).len()
            == PAINT_PARAM_BYTES,
        word_bytes(seq![sim.chunk_total() as u32, 0, 0, 0], little).len() == CHUNK_PARAM_BYTES,
{
}

/// A whole run, batch by batch: the tick counter after it, the number of
/// batches, and the uniforms they stage, one batch behind the other.
pub open spec fn whole_run(chunks: (u32, u32), tick: u32, remaining: u32) -> (u32, nat, Seq<u32>)
    decreases remaining,
{
    if remaining == 0 {
        (tick, 0, seq![])
    } else {
        let n = batch_size(remaining);
        let rest = whole_run(chunks, tick.wrapping_add(n as u32), (remaining - n) as u32);
        (rest.0, rest.1 + 1, staged_params(chunks, tick, n as nat) + rest.2)
    }
}

/// A run goes exactly as many ticks as were asked for, in as few batches as
/// the limit per frame allows.
pub proof fn law_run_goes_all_the_way(chunks: (u32, u32), tick: u32, ticks: u32)
    ensures
        whole_run(chunks, tick, ticks).0 == tick.wrapping_add(ticks),
        whole_run(chunks, tick, ticks).1 == ceil_div(ticks as int, MAX_TICKS_PER_FRAME as int),
    decreases ticks,
{
    if ticks > 0 {
        let n = batch_size(ticks);
        law_run_goes_all_the_way(chunks, tick.wrapping_add(n as u32), (ticks - n) as u32);
    }
}

/// What is staged for some ticks and then for those that follow is what is
/// staged for all of them.
proof fn lemma_staged_join(chunks: (u32, u32), tick: u32, a: nat, b: nat)
    requires
        a + b <= u32::MAX,
    ensures
        staged_params(chunks, tick, a) + staged_params(chunks, tick.wrapping_add(a as u32), b)
            == staged_params(chunks, tick, a + b),
{
    let first = staged_params(chunks, tick, a);
    let second = staged_params(chunks, tick.wrapping_add(a as u32), b);
    let whole = staged_params(chunks, tick, a + b);
    let words = STRIDE_WORDS as int;
    assert forall|i: int| 0 <= i < whole.len() implies #[trigger] (first + second)[i]
        == whole[i] by {
        if i >= first.len() {
            let k = i - first.len();
            assert(k / words == i / words - a && k % words == i % words);
            let slot = k / words;
            assert(0 <= slot < b);
            assert(tick.wrapping_add(a as u32).wrapping_add(slot as u32) == tick.wrapping_add(
                (slot + a) as u32,
            ));
        }
    }
    assert(first + second =~= whole);
}

/// The batches of a run stage the ticks from the counter on, each of them once
/// and in order, as if all were staged at once.
pub proof fn law_run_stages_every_tick_once(chunks: (u32, u32), tick: u32, ticks: u32)
    ensures
        whole_run(chunks, tick, ticks).2 == staged_params(chunks, tick, ticks as nat),
        forall|k: int|
            0 <= k < ticks ==> (#[trigger] whole_run(chunks, tick, ticks).2.subrange(
                k * STRIDE_WORDS,
                k * STRIDE_WORDS + SIM_PARAM_WORDS,
            )) == tick_params(chunks, tick.wrapping_add(k as u32)),
    decreases ticks,
{
    let staged = staged_params(chunks, tick, ticks as nat);
    if ticks > 0 {
        let n = batch_size(ticks);
        let next = tick.wrapping_add(n as u32);
        law_run_stages_every_tick_once(chunks, next, (ticks - n) as u32);
        lemma_staged_join(chunks, tick, n as nat, (ticks - n) as nat);
    }
    assert(whole_run(chunks, tick, ticks).2 =~= staged);
    assert forall|k: int| 0 <= k < ticks implies (#[trigger] staged.subrange(
        k * STRIDE_WORDS,
        k * STRIDE_WORDS + SIM_PARAM_WORDS,
    )) == tick_params(chunks, tick.wrapping_add(k as u32)) by {
        lemma_slot(chunks, tick, ticks as nat, k);
    }
}

/// A run followed by another stages the same ticks as one run of both lengths.
pub proof fn law_runs_join_up(chunks: (u32, u32), tick: u32, a: u32, b: u32)
    requires
        a + b <= u32::MAX,
    ensures
        whole_run(chunks, tick, a).2 + whole_run(chunks, whole_run(chunks, tick, a).0, b).2
            == whole_run(chunks, tick, (a + b) as u32).2,
        whole_run(chunks, whole_run(chunks, tick, a).0, b).0 == whole_run(
            chunks,
            tick,
            (a + b) as u32,
        ).0,
{
    let middle = tick.wrapping_add(a);
    law_run_goes_all_the_way(chunks, tick, a);
    law_run_goes_all_the_way(chunks, middle, b);
    law_run_goes_all_the_way(chunks, tick, (a + b) as u32);
    law_run_stages_every_tick_once(chunks, tick, a);
    law_run_stages_every_tick_once(chunks, middle, b);
    law_run_stages_every_tick_once(chunks, tick, (a + b) as u32);
    lemma_staged_join(chunks, tick, a as nat, b as nat);
}

/// A world that nothing has touched reads back as it was built: a copy of the
/// cell buffer with the bytes of the upload holds the very cells, however often
/// it is read.
pub proof fn law_untouched_cells_read_back(
    sim: Sim,
    upload: Upload,
    built: Seq<u32>,
    mapped: Seq<u8>,
    read: Seq<u32>,
)
    requires
        upload.starts(built, sim.little, sim.chunk_total() as nat),
        mapped == upload.cells@,
        mapped == word_bytes(read, sim.little),
    ensures
        read == built,
{
    law_what_is_written_is_read(built, read, sim.little);
}

/// A stroke is dispatched over exactly the cells of its box that lie in the
/// world; 8x8 workgroups cover them all.
pub proof fn law_paint_covers_its_box(lo: (i32, i32), hi: (i32, i32), x: int, y: int)
    requires
        0 <= x < WIDTH,
        0 <= y < HEIGHT,
    ensures
        match visible_part(lo, hi) {
            None => !(lo.0 <= x <= hi.0 && lo.1 <= y <= hi.1),
            Some(rect) => {
                &&& rect.contains(x, y) <==> (lo.0 <= x <= hi.0 && lo.1 <= y <= hi.1)
                &&& 0 <= rect.x && rect.x + rect.width <= WIDTH
                &&& 0 <= rect.y && rect.y + rect.height <= HEIGHT
                &&& rect.width <= 8 * ceil_div(rect.width as int, 8) < rect.width + 8
                &&& rect.height <= 8 * ceil_div(rect.height as int, 8) < rect.height + 8
            },
        },
{
}

// --- what the uniforms tell the shaders --------------------------------------

/// In the uniforms of consecutive ticks the y word of the partition offset is 0
/// and 1 in turn, so a falling cell finds itself in a top row on every tick.
pub proof fn law_staged_y_flips_every_tick(chunks: (u32, u32), tick: u32)
    ensures
        tick_params(chunks, tick)[3] == 0 || tick_params(chunks, tick)[3] == 1,
        tick_params(chunks, tick.wrapping_add(1))[3] == 1 - tick_params(chunks, tick)[3],
        (tick_params(chunks, tick)[2], tick_params(chunks, tick)[3]) == phase(tick),
{
    assert(OFFSETS[0] == (0u32, 0u32) && OFFSETS[1] == (1u32, 1u32) && OFFSETS[2] == (1u32, 0u32)
        && OFFSETS[3] == (0u32, 1u32));
}

/// The uniforms of any four consecutive ticks carry the four partition offsets,
/// each once, and four ticks on the same one comes round again. The cycle starts
/// at the origin, then moves diagonally, then x stays for one tick.
pub proof fn law_staged_offsets_cycle(chunks: (u32, u32), tick: u32)
    ensures
        ({
            let at = |k: u32|
                {
                    let w = tick_params(chunks, tick.wrapping_add(k));
                    (w[2], w[3])
                };
            &&& at(0) != at(1) && at(0) != at(2) && at(0) != at(3)
            &&& at(1) != at(2) && at(1) != at(3) && at(2) != at(3)
            &&& at(4) == at(0)
            &&& forall|k: u32| #[trigger] at(k).0 <= 1 && at(k).1 <= 1
            &&& at(1).0 == (if at(0).1 == 0 {
                1 - at(0).0
            } else {
                at(0).0 as int
            })
        }),
        tick == 0 ==> tick_params(chunks, tick)[2] == 0 && tick_params(chunks, tick)[3] == 0,
{
    assert(OFFSETS[0] == (0u32, 0u32) && OFFSETS[1] == (1u32, 1u32) && OFFSETS[2] == (1u32, 0u32)
        && OFFSETS[3] == (0u32, 1u32));
    lemma_phase_index(tick, 0);
    lemma_phase_index(tick, 1);
    lemma_phase_index(tick, 2);
    lemma_phase_index(tick, 3);
    lemma_phase_index(tick, 4);
}

/// Besides the offset a tick's uniforms carry the world's size in cells and in
/// chunks and the tick itself, so no two ticks have the same ones.
pub proof fn law_uniforms_name_their_tick(chunks: (u32, u32), tick: u32, other: u32)
    ensures
        tick_params(chunks, tick).len() == 8,
        tick_params(chunks, tick)[0] == 4096,
        tick_params(chunks, tick)[1] == 2048,
        tick_params(chunks, tick)[4] == chunks.0,
        tick_params(chunks, tick)[5] == chunks.1,
        tick_params(chunks, tick)[6] == tick,
        tick_params(chunks, tick) == tick_params(chunks, other) ==> tick == other,
{
    if tick_params(chunks, tick) == tick_params(chunks, other) {
        assert(tick_params(chunks, tick)[6] == tick_params(chunks, other)[6]);
    }
}

/// A frame stages one stride of 64 words per tick: the tick's eight words, in
/// the order of the ticks from the counter on, and zeros behind them.
pub proof fn law_each_tick_has_a_stride(chunks: (u32, u32), tick: u32, ticks: nat, slot: int)
    requires
        0 <= slot < ticks <= MAX_TICKS_PER_FRAME,
    ensures
        staged_params(chunks, tick, ticks).len() == 64 * ticks,
        forall|k: int|
            0 <= k < 8 ==> #[trigger] staged_params(chunks, tick, ticks)[64 * slot + k]
                == tick_params(chunks, tick.wrapping_add(slot as u32))[k],
        forall|k: int|
            8 <= k < 64 ==> #[trigger] staged_params(chunks, tick, ticks)[64 * slot + k] == 0,
        staged_params(chunks, tick, ticks)[64 * slot + 6] == (tick + slot) % 0x1_0000_0000,
{
    assert forall|k: int| 0 <= k < 64 implies (64 * slot + k) / 64 == slot && #[trigger] ((64 * slot
        + k) % 64) == k by {}
    let staged = staged_params(chunks, tick, ticks);
    assert forall|k: int| 0 <= k < 8 implies #[trigger] staged[64 * slot + k] == tick_params(
        chunks,
        tick.wrapping_add(slot as u32),
    )[k] by {
        assert((64 * slot + k) % 64 == k);
    }
    assert forall|k: int| 8 <= k < 64 implies #[trigger] staged[64 * slot + k] == 0 by {
        assert((64 * slot + k) % 64 == k);
    }
    assert(staged[64 * slot + 6] == tick_params(chunks, tick.wrapping_add(slot as u32))[6]);
}

/// Every tick is dispatched over the whole chunk grid, at the byte where its
/// stride starts: 128 by 64 workgroups to simulate, 32 of 256 threads to rotate
/// the wake bits of 8192 chunks.
pub proof fn law_every_pass_covers_all_chunks(sim: Sim, slot: int)
    requires
        sim.wf(),
        0 <= slot < MAX_TICKS_PER_FRAME,
    ensures
        sim.pass(slot).offset == 256 * slot,
        sim.pass(slot).sim_groups == (128u32, 64u32),
        sim.pass(slot).rotate_groups == 32,
        sim.chunk_total() == 8192,
{
    sim.lemma_grid();
}

/// The next batch of a run is never empty before the end, never longer than a
/// frame allows, and only the last one is shorter than that.
pub proof fn law_batches_are_full(remaining: u32)
    ensures
        remaining > 0 ==> 0 < batch_size(remaining) <= 12,
        batch_size(remaining) <= remaining,
        batch_size(remaining) < 12 ==> batch_size(remaining) == remaining,
{
}

/// In a world that starts, every chunk is awake on this tick and on the next:
/// its word has both bits and no other.
pub proof fn law_every_chunk_starts_awake(upload: Upload, cells: Seq<u32>, little: bool, n: nat, i: int)
    requires
        upload.starts(cells, little, n),
        0 <= i < n,
    ensures
        upload.wake@.len() == 4 * n,
        crate::bytes::word_at(upload.wake@, i, little) == 3,
{
    let wake = Seq::new(n, |i: int| WAKE_NOW | WAKE_NEXT);
    crate::bytes::law_words_read_back(wake, i, little);
    assert(1u32 | 2u32 == 3u32) by (bit_vector);
    assert(wake[i] == 3);
}

/// In a world that starts, every cell reads back from the upload.
pub proof fn law_every_cell_is_uploaded(upload: Upload, cells: Seq<u32>, little: bool, n: nat, i: int)
    requires
        upload.starts(cells, little, n),
        0 <= i < cells.len(),
    ensures
        upload.cells@.len() == 4 * cells.len(),
        crate::bytes::word_at(upload.cells@, i, little) == cells[i],
{
    crate::bytes::law_words_read_back(cells, i, little);
}

/// The uniforms of a stroke say what to paint and where: segment, radius,
/// material and the corner of the rectangle, next to the world's size and the
/// tick. Lava is painted at 1500 K, everything else at 293 K.
pub proof fn law_stroke_uniforms_describe_the_stroke(
    chunks: (u32, u32),
    tick: u32,
    rect: Rect,
    s: Stroke,
)
    requires
        0 <= rect.x,
        0 <= rect.y,
    ensures
        ({
            let w = paint_params(chunks, tick, rect, s);
            &&& w.len() == 14
            &&& w[0] == 4096 && w[1] == 2048
            &&& w[2] == chunks.0 && w[3] == chunks.1
            &&& w[4] == rect.x && w[5] == rect.y
            &&& w[6] == s.from.x.bits && w[7] == s.from.y.bits
            &&& w[8] == s.to.x.bits && w[9] == s.to.y.bits
            &&& w[10] == s.radius.bits
            &&& w[11] == s.material
            &&& w[12] == (if s.material == 13 {
                1500int
            } else {
                293
            })
            &&& w[13] == tick
        }),
{
}

/// Strokes that differ in anything have different uniforms.
pub proof fn law_strokes_are_told_apart(
    chunks: (u32, u32),
    tick: u32,
    rect: Rect,
    a: Stroke,
    b: Stroke,
)
    requires
        paint_params(chunks, tick, rect, a) == paint_params(chunks, tick, rect, b),
    ensures
        a == b,
{
    let p = paint_params(chunks, tick, rect, a);
    let q = paint_params(chunks, tick, rect, b);
    assert(p[6] == q[6] && p[7] == q[7] && p[8] == q[8] && p[9] == q[9] && p[10] == q[10] && p[11]
        == q[11]);
}

} // verus!

use swarf::bytes::{bytes_in_order, image_in_order, words_in_order};
use swarf::sim::{
    clip, div_ceil, Rect, Sim, Stroke, CHUNK_PARAM_BYTES, MAX_TICKS_PER_FRAME, OFFSETS,
    PAINT_PARAM_BYTES, SIM_PARAM_BYTES, STAGING_BYTES, UNIFORM_STRIDE,
};
use swarf::single::{Point, Single};
use swarf::world::{generate, Scene, CELL_COUNT, CHUNK, HEIGHT, WIDTH};

fn single(f: f32) -> Single {
    Single { bits: f.to_bits() }
}

fn point(x: f32, y: f32) -> Point {
    Point { x: single(x), y: single(y) }
}

fn word(bytes: &[u8], i: usize) -> u32 {
    u32::from_ne_bytes([bytes[4 * i], bytes[4 * i + 1], bytes[4 * i + 2], bytes[4 * i + 3]])
}

fn words_of(bytes: &[u8]) -> Vec<u32> {
    assert_eq!(bytes.len() % 4, 0);
    (0..bytes.len() / 4).map(|i| word(bytes, i)).collect()
}

fn fresh() -> Sim {
    Sim::new(&[]).0
}

// --- memory images --------------------------------------------------------------

#[test]
fn words_become_their_memory_image() {
    let words = [0x1234_5678, 0, u32::MAX, 7];
    let little: Vec<u8> = words.iter().flat_map(|w: &u32| w.to_le_bytes()).collect();
    let big: Vec<u8> = words.iter().flat_map(|w: &u32| w.to_be_bytes()).collect();
    assert_eq!(bytes_in_order(&words, true), little);
    assert_eq!(bytes_in_order(&words, false), big);
    assert!(bytes_in_order(&[], true).is_empty());
    assert!(bytes_in_order(&[], false).is_empty());
}

#[test]
fn memory_images_become_words() {
    let bytes: Vec<u8> = (0..32).map(|i| i * 7 + 1).collect();
    // Every alignment is fine.
    for start in 0..4 {
        let image = &bytes[start..start + 28];
        let little = words_in_order(image, true);
        let big = words_in_order(image, false);
        assert_eq!((little.len(), big.len()), (7, 7));
        for i in 0..7 {
            let four = [image[4 * i], image[4 * i + 1], image[4 * i + 2], image[4 * i + 3]];
            assert_eq!(little[i], u32::from_le_bytes(four));
            assert_eq!(big[i], u32::from_be_bytes(four));
        }
    }
    assert_eq!(words_in_order(&[1, 2, 3, 4], true), [0x0403_0201]);
    assert_eq!(words_in_order(&[1, 2, 3, 4], false), [0x0102_0304]);
    assert!(words_in_order(&[], true).is_empty());
}

#[test]
fn images_know_their_byte_order() {
    for words in [&[0x1234_5678u32, 1, 0x0100_0000][..], &[], &[0], &[u32::MAX]] {
        let (bytes, little) = image_in_order(words);
        let native: Vec<u8> = words.iter().flat_map(|w| w.to_ne_bytes()).collect();
        assert_eq!(bytes, native);
        assert_eq!(little, 1u32.to_ne_bytes()[0] == 1);
    }
}

#[test]
fn what_is_written_is_read_back() {
    let words: Vec<u32> = (0..100u32).map(|i| i.wrapping_mul(2_654_435_761)).collect();
    let (bytes, little) = image_in_order(&words);
    assert_eq!(words_in_order(&bytes, little), words);
}

#[test]
fn cells_survive_the_upload() {
    let cells = generate(1, Scene::Lab, &[]);
    let (mut sim, upload) = Sim::new(&cells);
    let back = sim.read_cells(&upload.cells);
    assert_eq!(back.len(), CELL_COUNT);
    assert!(back == cells);
    assert!(sim.read_cells(&upload.cells) == cells);
    let again = generate(2, Scene::Lab, &[]);
    let upload = sim.reset(&again);
    assert!(sim.read_cells(&upload.cells) == again);
}

#[test]
fn all_buffers_share_one_byte_order() {
    let (mut sim, _) = Sim::new(&[]);
    // Whatever order a world was started in, everything keeps to it.
    for little in [true, false] {
        sim.little = little;
        let read = |bytes: &[u8]| words_in_order(bytes, little);
        assert_eq!(read(&sim.chunk_params()), [8192, 0, 0, 0]);
        assert_eq!(read(&sim.prepare(1))[..2], [4096, 2048]);
        let stroke =
            Stroke { from: point(1.0, 1.0), to: point(1.0, 1.0), radius: single(1.0), material: 4 };
        let stamp = sim.paint((0, 0), (3, 3), &stroke).unwrap();
        assert_eq!(read(&stamp.params)[11..13], [4, 293]);
        assert_eq!(read(&sim.run(1).unwrap().staging)[..2], [4096, 2048]);
        let upload = sim.reset(&[0x0102_0304]);
        assert_eq!(read(&upload.cells), [0x0102_0304]);
        assert_eq!(read(&upload.wake), vec![3; 8192]);
        assert_eq!(sim.little, little);
    }
}

// --- the chunk grid ---------------------------------------------------------------

#[test]
fn division_rounds_up() {
    assert_eq!(div_ceil(0, 8), 0);
    assert_eq!(div_ceil(1, 8), 1);
    assert_eq!(div_ceil(8, 8), 1);
    assert_eq!(div_ceil(9, 8), 2);
    assert_eq!(div_ceil(u32::MAX, 1), u32::MAX);
    assert_eq!(div_ceil(u32::MAX, 2), 0x8000_0000);
    assert_eq!(div_ceil(u32::MAX, u32::MAX), 1);
}

#[test]
fn chunks_cover_the_world() {
    let sim = fresh();
    assert_eq!(sim.chunks, (128, 64));
    assert_eq!(sim.chunk_count(), 8192);
    assert_eq!(sim.chunks.0 * CHUNK, WIDTH);
    assert_eq!(sim.chunks.1 * CHUNK, HEIGHT);
}

#[test]
fn a_world_starts_awake_at_tick_zero() {
    let (sim, upload) = Sim::new(&[1, 2, 3]);
    assert_eq!(sim.tick, 0);
    assert_eq!(words_of(&upload.cells), [1, 2, 3]);
    assert_eq!(words_of(&upload.wake), vec![3; 8192]);
    let params = sim.chunk_params();
    assert_eq!(params.len() as u64, CHUNK_PARAM_BYTES);
    assert_eq!(words_of(&params), [8192, 0, 0, 0]);
}

#[test]
fn reset_starts_over() {
    let mut sim = fresh();
    sim.advance(12);
    assert_eq!(sim.tick, 12);
    let upload = sim.reset(&[9]);
    assert_eq!(sim.tick, 0);
    assert_eq!(sim.chunks, (128, 64));
    assert_eq!(words_of(&upload.cells), [9]);
    assert_eq!(words_of(&upload.wake), vec![3; 8192]);
}

// --- ticks --------------------------------------------------------------------------

#[test]
fn y_flips_every_tick() {
    for i in 0..4 {
        assert_eq!(OFFSETS[(i + 1) % 4].1, 1 - OFFSETS[i].1);
    }
    let mut seen = OFFSETS.to_vec();
    seen.sort();
    assert_eq!(seen, [(0, 0), (0, 1), (1, 0), (1, 1)]);
}

#[test]
fn staged_uniforms() {
    let mut sim = fresh();
    sim.tick = 6;
    let staging = sim.prepare(3);
    assert_eq!(staging.len(), 3 * UNIFORM_STRIDE as usize);
    for slot in 0..3usize {
        let pass = sim.encode_tick(slot);
        assert_eq!(pass.offset as usize, slot * 256);
        assert_eq!(pass.sim_groups, (128, 64));
        assert_eq!(pass.rotate_groups, 32);
        let at = pass.offset as usize;
        let params = &staging[at..at + SIM_PARAM_BYTES as usize];
        let (x, y) = [(1, 0), (0, 1), (0, 0)][slot];
        assert_eq!(words_of(params), [4096, 2048, x, y, 128, 64, 6 + slot as u32, 0]);
        assert!(staging[at + SIM_PARAM_BYTES as usize..at + 256].iter().all(|b| *b == 0));
    }
    assert!(sim.prepare(0).is_empty());
    assert_eq!(sim.prepare(MAX_TICKS_PER_FRAME).len() as u64, STAGING_BYTES);
}

#[test]
fn tick_counter_wraps_around() {
    let mut sim = fresh();
    sim.tick = u32::MAX;
    let staging = sim.prepare(2);
    assert_eq!(word(&staging, 6), u32::MAX);
    assert_eq!((word(&staging, 2), word(&staging, 3)), (0, 1));
    assert_eq!(word(&staging, 64 + 6), 0);
    assert_eq!((word(&staging, 64 + 2), word(&staging, 64 + 3)), (0, 0));
    sim.advance(2);
    assert_eq!(sim.tick, 1);
}

#[test]
fn a_run_goes_all_the_way_in_batches() {
    let mut sim = fresh();
    sim.tick = 5;
    let mut remaining = 29;
    let mut sizes = Vec::new();
    while let Some(batch) = sim.run(remaining) {
        let n = batch.passes.len();
        assert_eq!(batch.staging.len(), n * 256);
        assert_eq!(word(&batch.staging, 6), 5 + 29 - remaining);
        for (slot, pass) in batch.passes.iter().enumerate() {
            assert_eq!(*pass, sim.encode_tick(slot));
        }
        assert_eq!(batch.remaining, remaining - n as u32);
        remaining = batch.remaining;
        sizes.push(n);
    }
    assert_eq!(sizes, [12, 12, 5]);
    assert_eq!(sim.tick, 34);
    assert!(sim.run(0).is_none());
    assert_eq!(sim.tick, 34);
}

/// The ticks that a whole run stages.
fn run_ticks(sim: &mut Sim, ticks: u32) -> Vec<u32> {
    let mut staged = Vec::new();
    let mut remaining = ticks;
    while let Some(batch) = sim.run(remaining) {
        for pass in &batch.passes {
            staged.push(word(&batch.staging, pass.offset as usize / 4 + 6));
        }
        remaining = batch.remaining;
    }
    staged
}

#[test]
fn a_run_stages_every_tick_once() {
    let mut sim = fresh();
    sim.tick = u32::MAX - 10;
    let want: Vec<u32> = (0..40).map(|k| (u32::MAX - 10).wrapping_add(k)).collect();
    assert_eq!(run_ticks(&mut sim, 40), want);
    assert!(run_ticks(&mut sim, 0).is_empty());
}

#[test]
fn runs_join_up() {
    let (mut once, mut twice) = (fresh(), fresh());
    let whole = run_ticks(&mut once, 30);
    let mut parts = run_ticks(&mut twice, 17);
    parts.extend(run_ticks(&mut twice, 13));
    assert_eq!(parts, whole);
    assert_eq!(twice.tick, once.tick);
}

// --- the brush ----------------------------------------------------------------------

#[test]
fn boxes_are_clipped_to_the_world() {
    assert_eq!(
        clip((10, 20), (12, 20)),
        Some(Rect { x: 10, y: 20, width: 3, height: 1 })
    );
    assert_eq!(
        clip((-5, -7), (0, 3)),
        Some(Rect { x: 0, y: 0, width: 1, height: 4 })
    );
    assert_eq!(
        clip((4090, 2040), (9000, 9000)),
        Some(Rect { x: 4090, y: 2040, width: 6, height: 8 })
    );
    assert_eq!(
        clip((i32::MIN, i32::MIN), (i32::MAX, i32::MAX)),
        Some(Rect { x: 0, y: 0, width: 4096, height: 2048 })
    );
    assert_eq!(clip((-5, 0), (-1, 10)), None);
    assert_eq!(clip((4096, 0), (5000, 10)), None);
    assert_eq!(clip((0, 2048), (10, 3000)), None);
    assert_eq!(clip((5, 5), (4, 5)), None);
}

#[test]
fn stroke_uniforms() {
    let mut sim = fresh();
    sim.tick = 77;
    let stroke =
        Stroke { from: point(1.5, 2.5), to: point(10.0, -3.0), radius: single(6.0), material: 13 };
    let stamp = sim.paint((-7, -11), (18, 11), &stroke).unwrap();
    assert_eq!(stamp.params.len() as u64, PAINT_PARAM_BYTES);
    assert_eq!(
        words_of(&stamp.params),
        [
            4096,
            2048,
            128,
            64,
            0,
            0,
            1.5f32.to_bits(),
            2.5f32.to_bits(),
            10f32.to_bits(),
            (-3f32).to_bits(),
            6f32.to_bits(),
            13,
            1500,
            77,
        ]
    );
    // 19 x 12 cells in workgroups of 8 x 8.
    assert_eq!(stamp.groups, (3, 2));
    let cold = Stroke { material: 4, ..stroke };
    assert_eq!(word(&sim.paint((5, 6), (5, 6), &cold).unwrap().params, 12), 293);
    assert_eq!(word(&sim.paint((5, 6), (5, 6), &cold).unwrap().params, 4), 5);
    assert_eq!(word(&sim.paint((5, 6), (5, 6), &cold).unwrap().params, 5), 6);
    assert!(sim.paint((-9, 0), (-1, 4), &stroke).is_none());
}

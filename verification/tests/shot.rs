use swarf::camera::Camera;
use swarf::picture::{check_picture, encode_png, PngError};
use swarf::shot::{shot_camera, shot_path, shot_view, Capture, Layout, ShotOptions, Step};
use swarf::sim::Stroke;
use swarf::single::{Point, Single};
use swarf::world::Scene;

fn single(f: f32) -> Single {
    Single { bits: f.to_bits() }
}

fn point(x: f32, y: f32) -> Point {
    Point { x: single(x), y: single(y) }
}

fn disc(material: u8) -> Stroke {
    Stroke { from: point(5.0, 6.0), to: point(5.0, 6.0), radius: single(2.0), material }
}

fn options(ticks: u32, every: Option<u32>) -> ShotOptions {
    ShotOptions {
        width: 64,
        height: 64,
        ticks,
        zoom: single(1.0),
        centre: None,
        seed: 1,
        strokes: Vec::new(),
        out: "out.png".to_string(),
        scene: Scene::Lab,
        every,
    }
}

fn steps_of(o: &ShotOptions) -> Vec<Step> {
    let mut capture = Capture::new(o);
    let mut steps = Vec::new();
    loop {
        let step = capture.next(o);
        if step == Step::Done {
            assert_eq!(capture.next(o), Step::Done);
            return steps;
        }
        steps.push(step);
    }
}

fn steps(ticks: u32, every: Option<u32>) -> Vec<Step> {
    steps_of(&options(ticks, every))
}

/// The files that a capture of `out.png` writes, with their ticks.
fn files(ticks: u32, every: Option<u32>) -> Vec<(String, u32)> {
    let mut tick = 0;
    let mut files = Vec::new();
    for step in steps(ticks, every) {
        match step {
            Step::Draw(frame) => files.push((shot_path("out.png", frame), tick)),
            Step::Run(n) => tick += n,
            Step::Stamp(_) | Step::Done => unreachable!(),
        }
    }
    files
}

#[test]
fn a_single_frame_comes_last() {
    assert_eq!(steps(600, None), [Step::Run(600), Step::Draw(None)]);
    assert_eq!(steps(0, None), [Step::Draw(None)]);
    assert_eq!(files(600, None), [("out.png".to_string(), 600)]);
}

#[test]
fn numbered_frames_come_beside_the_file() {
    assert_eq!(
        steps(10, Some(4)),
        [
            Step::Draw(Some(0)),
            Step::Run(4),
            Step::Draw(Some(1)),
            Step::Run(4),
            Step::Draw(Some(2)),
            Step::Run(2),
            Step::Draw(Some(3)),
            Step::Draw(None),
        ]
    );
    assert_eq!(
        files(10, Some(4)),
        [
            ("out-0000.png".to_string(), 0),
            ("out-0001.png".to_string(), 4),
            ("out-0002.png".to_string(), 8),
            ("out-0003.png".to_string(), 10),
            ("out.png".to_string(), 10),
        ]
    );
}

#[test]
fn numbered_frames_are_evenly_spaced() {
    assert_eq!(
        steps(20, Some(10)),
        [
            Step::Draw(Some(0)),
            Step::Run(10),
            Step::Draw(Some(1)),
            Step::Run(10),
            Step::Draw(Some(2)),
            Step::Draw(None),
        ]
    );
    assert_eq!(steps(0, Some(10)), [Step::Draw(Some(0)), Step::Draw(None)]);
    assert_eq!(
        steps(3, Some(100)),
        [Step::Draw(Some(0)), Step::Run(3), Step::Draw(Some(1)), Step::Draw(None)]
    );
}

#[test]
fn frames_are_at_least_a_tick_apart() {
    assert_eq!(
        steps(2, Some(0)),
        [
            Step::Draw(Some(0)),
            Step::Run(1),
            Step::Draw(Some(1)),
            Step::Run(1),
            Step::Draw(Some(2)),
            Step::Draw(None),
        ]
    );
}

#[test]
fn the_largest_stride_does_not_overflow() {
    assert_eq!(
        steps(u32::MAX, Some(u32::MAX - 1)),
        [
            Step::Draw(Some(0)),
            Step::Run(u32::MAX - 1),
            Step::Draw(Some(1)),
            Step::Run(1),
            Step::Draw(Some(2)),
            Step::Draw(None),
        ]
    );
}

#[test]
fn strokes_come_first_and_in_order() {
    let mut o = options(10, None);
    o.strokes = vec![disc(4), disc(8), disc(13)];
    assert_eq!(
        steps_of(&o),
        [
            Step::Stamp(disc(4)),
            Step::Stamp(disc(8)),
            Step::Stamp(disc(13)),
            Step::Run(10),
            Step::Draw(None),
        ]
    );
    o.every = Some(6);
    assert_eq!(
        steps_of(&o),
        [
            Step::Stamp(disc(4)),
            Step::Stamp(disc(8)),
            Step::Stamp(disc(13)),
            Step::Draw(Some(0)),
            Step::Run(6),
            Step::Draw(Some(1)),
            Step::Run(4),
            Step::Draw(Some(2)),
            Step::Draw(None),
        ]
    );
}

#[test]
fn a_shot_is_seen_with_its_own_camera() {
    let mut o = options(0, None);
    o.zoom = single(0.1);
    assert_eq!(
        shot_camera(&o),
        Camera { centre: point(2048.0, 620.0), zoom: single(0.1) }
    );
    o.centre = Some(point(-3.0, 9000.0));
    assert_eq!(
        shot_camera(&o),
        Camera { centre: point(-3.0, 9000.0), zoom: single(0.1) }
    );
}

#[test]
fn a_shot_shows_no_brush_ring() {
    let mut o = options(0, None);
    o.zoom = single(3.0);
    let words = [
        4096,
        2048,
        64f32.to_bits(),
        32f32.to_bits(),
        2048f32.to_bits(),
        620f32.to_bits(),
        3f32.to_bits(),
        0,
        0,
        0,
        0,
        0u32,
    ];
    let little: Vec<u8> = words.iter().flat_map(|w| w.to_le_bytes()).collect();
    let big: Vec<u8> = words.iter().flat_map(|w| w.to_be_bytes()).collect();
    assert_eq!(shot_view(&o, point(64.0, 32.0), true), little);
    assert_eq!(shot_view(&o, point(64.0, 32.0), false), big);
}

#[test]
fn no_file_is_written_twice() {
    let mut names: Vec<String> = files(1000, Some(3)).into_iter().map(|(name, _)| name).collect();
    assert_eq!(names.len(), 336);
    names.sort();
    names.dedup();
    assert_eq!(names.len(), 336);
}

#[test]
fn only_numbered_frames_have_a_number() {
    assert_eq!(shot_path("out.png", None), "out.png");
    assert_eq!(shot_path("out.png", Some(3)), "out-0003.png");
    for out in ["", ".", "a/.", "shot-0003.png", "a/shot-0003.png//."] {
        assert_ne!(shot_path(out, Some(3)), out);
    }
}

#[test]
fn rows_are_padded_to_256_bytes() {
    assert_eq!(Layout::new(1280, 720), Some(Layout { unpadded: 5120, padded: 5120, height: 720 }));
    assert_eq!(Layout::new(1, 3), Some(Layout { unpadded: 4, padded: 256, height: 3 }));
    assert_eq!(Layout::new(65, 2), Some(Layout { unpadded: 260, padded: 512, height: 2 }));
    assert_eq!(Layout::new(65, 2).unwrap().buffer_size(), 1024);
    assert_eq!(Layout::new(0, 0), Some(Layout { unpadded: 0, padded: 0, height: 0 }));
}

#[test]
fn pictures_too_large_to_count_are_refused() {
    assert_eq!(Layout::new(0x4000_0000, 1), None);
    assert_eq!(Layout::new(0x3fff_ffff, 1), None);
    assert_eq!(Layout::new(0x3fff_ffff, 0), None);
    assert_eq!(Layout::new(65_536, 16_384), None);
    assert!(Layout::new(65_536, 16_383).is_some());
}

#[test]
fn unpadding_keeps_the_pixels() {
    let layout = Layout::new(65, 3).unwrap();
    let mapped: Vec<u8> = (0..layout.buffer_size()).map(|i| (i % 251) as u8).collect();
    let pixels = layout.unpad(&mapped);
    assert_eq!(pixels.len(), 3 * 260);
    for row in 0..3 {
        assert_eq!(&pixels[row * 260..(row + 1) * 260], &mapped[row * 512..row * 512 + 260]);
    }
    // What follows the last row does not matter.
    let mut longer = mapped.clone();
    longer.push(1);
    assert_eq!(layout.unpad(&longer), pixels);
}

#[test]
fn unpadded_pictures_can_be_written() {
    for (width, height) in [(1, 1), (65, 3), (64, 2)] {
        let layout = Layout::new(width, height).unwrap();
        let mapped = vec![9; layout.buffer_size() as usize];
        assert_eq!(check_picture(width, height, layout.unpad(&mapped).len()), None);
    }
    // Empty pictures leave nothing.
    assert!(Layout::new(0, 3).unwrap().unpad(&[]).is_empty());
    assert!(Layout::new(3, 0).unwrap().unpad(&[]).is_empty());
}

#[test]
fn pictures_are_checked() {
    assert_eq!(check_picture(2, 3, 24), None);
    assert_eq!(check_picture(0, 3, 0), Some(PngError::ZeroWidth));
    assert_eq!(check_picture(0, 0, 0), Some(PngError::ZeroWidth));
    assert_eq!(check_picture(2, 0, 0), Some(PngError::ZeroHeight));
    assert_eq!(check_picture(2, 3, 23), Some(PngError::BufferSize));
    assert_eq!(check_picture(u32::MAX, u32::MAX, 4), Some(PngError::BufferSize));
}

#[test]
fn pictures_are_written_as_png() {
    let rgba: Vec<u8> = (0..5 * 3 * 4).map(|i| i * 4 + 3).collect();
    let file = encode_png(5, 3, &rgba).unwrap();
    assert_eq!(
        &file[..29],
        [
            137, 80, 78, 71, 13, 10, 26, 10, 0, 0, 0, 13, 73, 72, 68, 82, 0, 0, 0, 5, 0, 0, 0, 3,
            8, 6, 0, 0, 0
        ]
    );
    // The file is complete.
    assert_eq!(&file[file.len() - 8..file.len() - 4], b"IEND");

    let decoder = png::Decoder::new(std::io::Cursor::new(file));
    let mut reader = decoder.read_info().unwrap();
    let mut pixels = vec![0; reader.output_buffer_size().unwrap()];
    let info = reader.next_frame(&mut pixels).unwrap();
    assert_eq!((info.width, info.height), (5, 3));
    assert_eq!(info.color_type, png::ColorType::Rgba);
    assert_eq!(info.bit_depth, png::BitDepth::Eight);
    assert_eq!(pixels, rgba);
    assert_eq!(reader.info().srgb, Some(png::SrgbRenderingIntent::Perceptual));
}

#[test]
fn faulty_pictures_are_not_written() {
    assert_eq!(encode_png(0, 1, &[]), Err(PngError::ZeroWidth));
    assert_eq!(encode_png(1, 0, &[]), Err(PngError::ZeroHeight));
    assert_eq!(encode_png(1, 1, &[1, 2, 3]), Err(PngError::BufferSize));
    assert_eq!(encode_png(1, 1, &[1, 2, 3, 4, 5]), Err(PngError::BufferSize));
}

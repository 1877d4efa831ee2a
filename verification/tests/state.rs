use swarf::camera::{
    Camera, MAX_ZOOM, MIN_ZOOM, SURFACE, WORLD_BOTTOM, WORLD_MIDDLE, WORLD_RIGHT,
};
use swarf::clock::{
    next_seed, seed_from_clock, Clock, Report, Stats, FALLBACK_SEED, MAX_LAG, SIM_HZ, TICK,
    TITLE_PERIOD,
};
use swarf::gpu::{shader_source, Acquired, Extent, Response};
use swarf::materials::HOTBAR;
use swarf::render::{view_uniform, VIEW_WORDS};
use swarf::single::{Point, Single};
use swarf::state::{Action, Button, Event, Key, State, MAX_BRUSH, MIN_BRUSH, START_BRUSH};

fn single(f: f32) -> Single {
    Single { bits: f.to_bits() }
}

fn point(x: f32, y: f32) -> Point {
    Point { x: single(x), y: single(y) }
}

fn press(s: &mut State, key: Key) -> Action {
    s.window_event(Event::KeyboardInput(key, true))
}

fn release(s: &mut State, key: Key) -> Action {
    s.window_event(Event::KeyboardInput(key, false))
}

// --- time ---------------------------------------------------------------------------

#[test]
fn a_tick_is_a_240th_of_a_second() {
    assert_eq!(SIM_HZ, 240);
    assert_eq!(TICK, 4_166_666);
    assert_eq!(MAX_LAG, 250_000_000);
    assert_eq!(TITLE_PERIOD, 250_000_000);
}

#[test]
fn a_60_hz_frame_runs_four_ticks() {
    let mut clock = Clock::new();
    assert_eq!(clock.ticks(16_666_667), 4);
    assert_eq!(clock.accumulator, 3);
    assert_eq!(clock.ticks(4_166_662), 0);
    assert_eq!(clock.accumulator, 4_166_665);
    assert_eq!(clock.ticks(1), 1);
    assert_eq!(clock.accumulator, 0);
}

#[test]
fn speed_does_not_depend_on_the_frame_rate() {
    for frame in [1_000_000u128, 6_944_444, 16_666_666, 33_333_333, 49_999_992] {
        let mut clock = Clock::new();
        let mut ticks = 0;
        for _ in 0..240 {
            ticks += clock.ticks(frame);
        }
        assert_eq!(ticks as u128, frame * 240 / TICK as u128, "frames of {frame} ns");
    }
}

#[test]
fn stalls_do_not_pile_up() {
    let mut clock = Clock::new();
    assert_eq!(clock.ticks(u128::MAX), 12);
    assert_eq!(clock.accumulator, 0);
    // Twelve ticks are not too many, thirteen are.
    assert_eq!(clock.ticks(12 * TICK as u128 + 5), 12);
    assert_eq!(clock.accumulator, 5);
    assert_eq!(clock.ticks(13 * TICK as u128), 12);
    assert_eq!(clock.accumulator, 0);
}

#[test]
fn pause_stops_time() {
    let mut clock = Clock { accumulator: 7, paused: true, step_once: false };
    assert_eq!(clock.ticks(1_000_000_000), 0);
    clock.step_once = true;
    assert_eq!(clock.ticks(1_000_000_000), 1);
    assert_eq!(clock.ticks(1_000_000_000), 0);
    assert_eq!(clock, Clock { accumulator: 7, paused: true, step_once: false });
    // A step that was asked for while running waits for the next pause.
    let mut running = Clock { accumulator: 0, paused: false, step_once: true };
    assert_eq!(running.ticks(0), 0);
    assert!(running.step_once);
}

#[test]
fn statistics_are_shown_four_times_a_second() {
    let mut stats = Stats::new();
    assert_eq!(stats.record(100_000_000), None);
    assert_eq!(stats.record(100_000_000), None);
    assert_eq!(stats, Stats { frame_accum: 200_000_000, frames: 2, title_timer: 200_000_000 });
    assert_eq!(stats.record(50_000_000), Some(Report { frames: 3, elapsed: 250_000_000 }));
    assert_eq!(stats, Stats::new());
}

#[test]
fn seeds() {
    assert_eq!(seed_from_clock(None), FALLBACK_SEED);
    assert_eq!(FALLBACK_SEED, 0x5EED);
    assert_eq!(seed_from_clock(Some((0x1_0000_0003, 5))), 6);
    assert_eq!(next_seed(0), 1_013_904_223);
    assert_eq!(next_seed(1), 1_015_568_748);
    assert_eq!(
        next_seed(u32::MAX),
        u32::MAX.wrapping_mul(1_664_525).wrapping_add(1_013_904_223)
    );
}

// --- keys and mouse --------------------------------------------------------------------

#[test]
fn the_start() {
    let s = State::new(42);
    assert_eq!(s.material, 4);
    assert_eq!(f32::from_bits(s.brush.bits), 12.0);
    assert_eq!(s.seed, 42);
    assert_eq!(s.clock, Clock::new());
    assert_eq!((s.painting, s.stroke_from), (None, None));
    assert!(!s.cursor_in_window);
}

#[test]
fn digits_choose_from_the_hotbar() {
    let keys = [
        Key::Digit1,
        Key::Digit2,
        Key::Digit3,
        Key::Digit4,
        Key::Digit5,
        Key::Digit6,
        Key::Digit7,
        Key::Digit8,
        Key::Digit9,
        Key::Digit0,
    ];
    let mut s = State::new(0);
    for (key, material) in keys.into_iter().zip(HOTBAR) {
        assert_eq!(press(&mut s, key), Action::Nothing);
        assert_eq!(s.material, material);
        release(&mut s, key);
        assert_eq!(s.material, material);
    }
}

#[test]
fn cycling_goes_round_both_ways() {
    let mut s = State::new(0);
    let start = s;
    press(&mut s, Key::E);
    assert_eq!(s.material, 5);
    press(&mut s, Key::Q);
    assert_eq!(s, start);
    s.material = 15;
    press(&mut s, Key::E);
    assert_eq!(s.material, 0);
    press(&mut s, Key::Q);
    assert_eq!(s.material, 15);
}

#[test]
fn pausing_and_stepping() {
    let mut s = State::new(0);
    let start = s;
    press(&mut s, Key::P);
    assert!(s.clock.paused);
    release(&mut s, Key::P);
    assert!(s.clock.paused);
    press(&mut s, Key::N);
    assert_eq!(s.frame(1_000_000_000, point(0.0, 0.0)), (1, None));
    assert_eq!(s.frame(1_000_000_000, point(0.0, 0.0)), (0, None));
    press(&mut s, Key::P);
    assert_eq!(s, start);
}

#[test]
fn regenerating_takes_the_next_seed() {
    let mut s = State::new(0);
    assert_eq!(press(&mut s, Key::R), Action::Regenerate);
    assert_eq!(s.seed, 1_013_904_223);
    assert_eq!(release(&mut s, Key::R), Action::Nothing);
    assert_eq!(s.seed, 1_013_904_223);
}

#[test]
fn what_keys_ask_for() {
    let mut s = State::new(0);
    assert_eq!(press(&mut s, Key::BracketLeft), Action::ShrinkBrush);
    assert_eq!(release(&mut s, Key::BracketLeft), Action::Nothing);
    assert_eq!(press(&mut s, Key::BracketRight), Action::GrowBrush);
    assert_eq!(release(&mut s, Key::BracketRight), Action::Nothing);
    assert_eq!(press(&mut s, Key::Escape), Action::Exit);
    assert_eq!(release(&mut s, Key::Escape), Action::Exit);
    assert_eq!(press(&mut s, Key::Other), Action::Nothing);
    assert_eq!(s, State::new(0));
}

#[test]
fn held_keys_pan() {
    let mut s = State::new(0);
    assert_eq!(s.pan_direction(), (0, 0));
    press(&mut s, Key::A);
    assert_eq!(s.pan_direction(), (-1, 0));
    press(&mut s, Key::ArrowRight);
    assert_eq!(s.pan_direction(), (0, 0));
    release(&mut s, Key::ArrowLeft);
    press(&mut s, Key::W);
    assert_eq!(s.pan_direction(), (1, -1));
    release(&mut s, Key::ArrowUp);
    press(&mut s, Key::ArrowDown);
    assert_eq!(s.pan_direction(), (1, 1));
    release(&mut s, Key::S);
    release(&mut s, Key::D);
    assert_eq!(s, State::new(0));
}

#[test]
fn dragging_pans_with_the_space_bar_or_the_middle_button() {
    let mut s = State::new(0);
    assert_eq!(s.window_event(Event::CursorMoved), Action::Nothing);
    assert!(s.cursor_in_window);
    press(&mut s, Key::Space);
    assert_eq!(s.window_event(Event::CursorMoved), Action::PanCamera);
    release(&mut s, Key::Space);
    s.window_event(Event::MouseInput(Button::Middle, true));
    assert_eq!(s.window_event(Event::CursorMoved), Action::PanCamera);
    s.window_event(Event::MouseInput(Button::Middle, false));
    assert_eq!(s.window_event(Event::CursorMoved), Action::Nothing);
    assert_eq!(s.window_event(Event::CursorLeft), Action::Nothing);
    assert_eq!(s, State::new(0));
}

#[test]
fn strokes_join_up() {
    let mut s = State::new(0);
    let (a, b, c) = (point(1.0, 2.0), point(3.0, 4.0), point(5.0, 6.0));
    assert_eq!(s.stroke(a), None);
    assert_eq!(s.window_event(Event::MouseInput(Button::Left, true)), Action::Nothing);
    let first = s.stroke(a).unwrap();
    assert_eq!((first.from, first.to, first.material), (a, a, 4));
    assert_eq!(first.radius, single(12.0));
    let (ticks, second) = s.frame(16_666_667, b);
    assert_eq!(ticks, 4);
    assert_eq!((second.unwrap().from, second.unwrap().to), (a, b));
    // The material is fixed when the button goes down.
    press(&mut s, Key::Digit2);
    assert_eq!(s.stroke(c).unwrap().material, 4);
    s.window_event(Event::MouseInput(Button::Left, false));
    assert_eq!(s.stroke(a), None);
    // A new stroke starts at the cursor.
    s.window_event(Event::MouseInput(Button::Left, true));
    let third = s.stroke(a).unwrap();
    assert_eq!((third.from, third.material), (a, 8));
}

#[test]
fn the_right_button_erases() {
    let mut s = State::new(0);
    s.window_event(Event::MouseInput(Button::Right, true));
    assert_eq!(s.stroke(point(1.0, 1.0)).unwrap().material, 0);
    // Releasing any painting button ends the stroke.
    s.window_event(Event::MouseInput(Button::Left, false));
    assert_eq!(s.stroke(point(1.0, 1.0)), None);
    s.window_event(Event::MouseInput(Button::Other, true));
    assert_eq!(s.stroke(point(1.0, 1.0)), None);
}

#[test]
fn the_brush_has_limits() {
    assert_eq!(f32::from_bits(MIN_BRUSH), 1.0);
    assert_eq!(f32::from_bits(MAX_BRUSH), 400.0);
    assert_eq!(f32::from_bits(START_BRUSH), 12.0);
    let mut s = State::new(0);
    s.shrink_brush(single(8.5));
    assert_eq!(s.brush, single(8.5));
    s.shrink_brush(single(0.7));
    assert_eq!(s.brush, single(1.0));
    s.grow_brush(single(399.0));
    assert_eq!(s.brush, single(399.0));
    s.grow_brush(single(558.6));
    assert_eq!(s.brush, single(400.0));
}

// --- camera and screen --------------------------------------------------------------------

#[test]
fn camera_limits_are_the_numbers_they_stand_for() {
    assert_eq!(f32::from_bits(MIN_ZOOM), 0.25);
    assert_eq!(f32::from_bits(MAX_ZOOM), 32.0);
    assert_eq!(f32::from_bits(WORLD_RIGHT), 4096.0);
    assert_eq!(f32::from_bits(WORLD_BOTTOM), 2048.0);
    assert_eq!(f32::from_bits(WORLD_MIDDLE), 2048.0);
    assert_eq!(f32::from_bits(SURFACE), 620.0);
}

#[test]
fn the_camera_starts_at_the_surface() {
    let camera = Camera::new(single(2.0));
    assert_eq!(camera.centre, point(2048.0, 620.0));
    assert_eq!(camera.zoom, single(2.0));
    assert_eq!(Camera::new(single(0.5)).zoom, single(1.0));
}

#[test]
fn the_camera_stays_over_the_world() {
    let mut camera = Camera::new(single(1.0));
    camera.centre = point(-5.0, 3000.0);
    camera.clamp();
    assert_eq!(camera.centre, point(0.0, 2048.0));
    camera.centre = point(4096.5, 17.25);
    camera.clamp();
    assert_eq!(camera.centre, point(4096.0, 17.25));
    let settled = camera;
    camera.clamp();
    assert_eq!(camera, settled);
}

#[test]
fn zoom_has_limits() {
    let mut camera = Camera::new(single(1.0));
    for (asked, got) in [(0.1, 0.25), (0.25, 0.25), (5.0, 5.0), (33.0, 32.0), (f32::INFINITY, 32.0)] {
        camera.zoom_to(single(asked));
        assert_eq!(camera.zoom, single(got));
    }
    assert_eq!(camera.centre, point(2048.0, 620.0));
}

#[test]
fn view_uniforms() {
    let camera = Camera::new(single(3.0));
    let expected = |show: u32| -> Vec<u8> {
        [
            4096,
            2048,
            1600f32.to_bits(),
            950f32.to_bits(),
            2048f32.to_bits(),
            620f32.to_bits(),
            3f32.to_bits(),
            12f32.to_bits(),
            7f32.to_bits(),
            8f32.to_bits(),
            show,
            0,
        ]
        .iter()
        .flat_map(|w| w.to_le_bytes())
        .collect()
    };
    let screen = point(1600.0, 950.0);
    let brush = point(7.0, 8.0);
    assert_eq!(view_uniform(screen, &camera, brush, single(12.0), true, true), expected(1));
    assert_eq!(view_uniform(screen, &camera, brush, single(12.0), false, true), expected(0));
    assert_eq!(expected(0).len(), VIEW_WORDS * 4);
}

#[test]
fn surfaces_are_never_empty() {
    assert_eq!(Extent::of_window(0, 0), Extent { width: 1, height: 1 });
    assert_eq!(Extent::of_window(1600, 0), Extent { width: 1600, height: 1 });
    let mut extent = Extent::of_window(1600, 950);
    assert!(!extent.resize(0, 5));
    assert!(!extent.resize(5, 0));
    assert_eq!(extent, Extent { width: 1600, height: 950 });
    assert!(extent.resize(5, 6));
    assert_eq!(extent, Extent { width: 5, height: 6 });
}

#[test]
fn surface_outcomes() {
    for (acquired, response) in [
        (Acquired::Success, Response::Draw),
        (Acquired::Suboptimal, Response::Draw),
        (Acquired::Outdated, Response::Reconfigure),
        (Acquired::Lost, Response::Reconfigure),
        (Acquired::Timeout, Response::Skip),
        (Acquired::Occluded, Response::Skip),
        (Acquired::Validation, Response::Report),
    ] {
        assert_eq!(acquired.response(), response);
    }
}

#[test]
fn shaders_start_with_the_prelude() {
    assert_eq!(shader_source("a\nb", "c"), "a\nb\nc");
    assert_eq!(shader_source("", ""), "\n");
}

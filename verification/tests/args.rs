use swarf::args::{number_texts, parse_shot, Invocation, ShotError};
use swarf::shot::ShotOptions;
use swarf::single::{Point, Single};
use swarf::world::Scene;

const SEED: u32 = 99;

fn single(f: f32) -> Single {
    Single { bits: f.to_bits() }
}

fn point(x: f32, y: f32) -> Point {
    Point { x: single(x), y: single(y) }
}

fn run(line: &[&str]) -> Result<Invocation, ShotError> {
    let args: Vec<String> = line.iter().map(|a| a.to_string()).collect();
    let numbers: Vec<Option<Single>> =
        number_texts(&args).iter().map(|t| t.parse::<f32>().ok().map(single)).collect();
    parse_shot(&args, &numbers, SEED)
}

fn shot(line: &[&str]) -> ShotOptions {
    match run(line) {
        Ok(Invocation::Shot(o)) => o,
        Ok(_) => panic!("no shot"),
        Err(e) => panic!("{e:?}"),
    }
}

fn error(line: &[&str]) -> ShotError {
    match run(line) {
        Err(e) => e,
        Ok(_) => panic!("accepted"),
    }
}

#[test]
fn without_a_shot_it_is_interactive() {
    assert!(matches!(run(&[]), Ok(Invocation::Interactive)));
    assert!(matches!(run(&["--ticks", "5"]), Ok(Invocation::Interactive)));
    assert!(matches!(run(&["nonsense"]), Ok(Invocation::Interactive)));
}

#[test]
fn help_is_asked_for_in_two_ways() {
    assert!(matches!(run(&["--help"]), Ok(Invocation::Help)));
    assert!(matches!(run(&["-h"]), Ok(Invocation::Help)));
    assert!(matches!(run(&["x", "-h"]), Ok(Invocation::Help)));
    // A shot wins over help, which is then no flag.
    assert_eq!(error(&["--shot", "a.png", "--help"]), ShotError::UnknownArgument(2));
}

#[test]
fn defaults_of_a_shot() {
    let o = shot(&["--shot", "a.png"]);
    assert_eq!((o.width, o.height, o.ticks), (1280, 720, 0));
    assert_eq!(o.zoom, single(1.0));
    assert_eq!(o.centre, None);
    assert_eq!(o.seed, SEED);
    assert!(o.strokes.is_empty());
    assert_eq!(o.out, "a.png");
    assert!(matches!(o.scene, Scene::Terrain));
    assert_eq!(o.every, None);
}

#[test]
fn lab_heap_command_line() {
    let o = shot(&[
        "--shot", "out.png", "--scene", "lab", "--ticks", "6000", "--zoom", "1", "--centre",
        "2100,1090", "--drop", "sand@2100,850,60",
    ]);
    assert_eq!(o.out, "out.png");
    assert!(matches!(o.scene, Scene::Lab));
    assert_eq!(o.ticks, 6000);
    assert_eq!(o.zoom, single(1.0));
    assert_eq!(o.centre, Some(point(2100.0, 1090.0)));
    assert_eq!(o.strokes.len(), 1);
    let s = o.strokes[0];
    assert_eq!(s.from, point(2100.0, 850.0));
    assert_eq!(s.to, s.from);
    assert_eq!(s.radius, single(60.0));
    assert_eq!(s.material, 4);
}

#[test]
fn all_other_options() {
    let o = shot(&[
        "--size", "640x480", "--zoom", "0.5", "--center", "-1.5,2e3", "--seed", "+7", "--every",
        "0", "--scene", "terrain", "--shot", "x",
    ]);
    assert_eq!((o.width, o.height), (640, 480));
    assert_eq!(o.zoom, single(0.5));
    assert_eq!(o.centre, Some(point(-1.5, 2000.0)));
    assert_eq!(o.seed, 7);
    assert_eq!(o.every, Some(0));
    assert!(matches!(o.scene, Scene::Terrain));
    assert_eq!(o.out, "x");
}

#[test]
fn drops_add_up() {
    let o = shot(&[
        "--shot", "x", "--drop", "Iron Ore@1,2,3", "--ticks", "1", "--drop", "13@4,5,6", "--drop",
        "200@7,8,9",
    ]);
    let materials: Vec<u8> = o.strokes.iter().map(|s| s.material).collect();
    assert_eq!(materials, [7, 13, 200]);
    assert_eq!(o.strokes[1].from, point(4.0, 5.0));
    assert_eq!(o.strokes[2].radius, single(9.0));
}

#[test]
fn the_later_setting_wins() {
    let o = shot(&[
        "--shot", "a", "--ticks", "1", "--shot", "b", "--ticks", "2", "--centre", "1,1",
        "--center", "2,2",
    ]);
    assert_eq!(o.out, "b");
    assert_eq!(o.ticks, 2);
    assert_eq!(o.centre, Some(point(2.0, 2.0)));
}

#[test]
fn numbers_to_read_are_listed_in_order() {
    let args: Vec<String> = [
        "--shot", "1", "--zoom", "2", "--ticks", "3", "--drop", "4@5,6,7", "--centre", "8,9,10",
        "--bogus", "--zoom", "11",
    ]
    .iter()
    .map(|a| a.to_string())
    .collect();
    assert_eq!(number_texts(&args), ["2", "5", "6", "7", "8", "9,10"]);
    assert!(number_texts(&args[2..]).is_empty());
}

#[test]
fn every_option_needs_a_value() {
    for flag in [
        "--shot", "--ticks", "--zoom", "--every", "--seed", "--scene", "--size", "--centre",
        "--center", "--drop",
    ] {
        assert_eq!(error(&["--shot", "x", flag]), ShotError::MissingValue(2));
    }
    assert_eq!(error(&["--shot"]), ShotError::MissingValue(0));
}

#[test]
fn unknown_arguments_are_refused() {
    assert_eq!(error(&["--shot", "x", "--tick", "5"]), ShotError::UnknownArgument(2));
    assert_eq!(error(&["y", "--shot"]), ShotError::UnknownArgument(0));
    assert_eq!(error(&["--shot", "x", ""]), ShotError::UnknownArgument(2));
    assert_eq!(error(&["--shot", "x", "--Ticks", "5"]), ShotError::UnknownArgument(2));
}

#[test]
fn whole_numbers_are_checked() {
    assert_eq!(error(&["--shot", "x", "--ticks", "-1"]), ShotError::Ticks);
    assert_eq!(error(&["--shot", "x", "--ticks", "4294967296"]), ShotError::Ticks);
    assert_eq!(error(&["--shot", "x", "--every", "1.5"]), ShotError::Every);
    assert_eq!(error(&["--shot", "x", "--seed", ""]), ShotError::Seed);
}

#[test]
fn scenes_are_checked() {
    assert_eq!(error(&["--shot", "x", "--scene", "Lab"]), ShotError::UnknownScene(3));
}

#[test]
fn sizes_are_checked() {
    assert_eq!(error(&["--shot", "x", "--size", "640"]), ShotError::Size);
    assert_eq!(error(&["--shot", "x", "--size", "640X480"]), ShotError::Size);
    assert_eq!(error(&["--shot", "x", "--size", "ax480"]), ShotError::BadWidth);
    assert_eq!(error(&["--shot", "x", "--size", "ax"]), ShotError::BadWidth);
    assert_eq!(error(&["--shot", "x", "--size", "640x"]), ShotError::BadHeight);
    assert_eq!(error(&["--shot", "x", "--size", "1x2x3"]), ShotError::BadHeight);
    // No size is checked for being empty.
    assert_eq!(shot(&["--shot", "x", "--size", "0x0"]).width, 0);
}

#[test]
fn centre_is_checked() {
    assert_eq!(error(&["--shot", "x", "--centre", "5"]), ShotError::Centre);
    assert_eq!(error(&["--shot", "x", "--centre", "a,5"]), ShotError::BadX);
    assert_eq!(error(&["--shot", "x", "--centre", "5,"]), ShotError::BadY);
    assert_eq!(error(&["--shot", "x", "--centre", "1,2,3"]), ShotError::BadY);
    assert_eq!(error(&["--shot", "x", "--centre", "a,b"]), ShotError::BadX);
}

#[test]
fn zoom_is_checked() {
    assert_eq!(error(&["--shot", "x", "--zoom", "big"]), ShotError::Zoom);
}

#[test]
fn drops_are_checked() {
    for bad in ["sand", "sand@", "sand@1", "sand@1,2", "sand@1,2,3,4", "sand@1,2,3,", "1,2,3"] {
        assert_eq!(error(&["--shot", "x", "--drop", bad]), ShotError::Drop, "{bad}");
    }
    assert_eq!(error(&["--shot", "x", "--drop", "sand@a,2,3"]), ShotError::BadX);
    assert_eq!(error(&["--shot", "x", "--drop", "sand@1,b,3"]), ShotError::BadY);
    assert_eq!(error(&["--shot", "x", "--drop", "sand@1,2,c"]), ShotError::BadRadius);
    assert_eq!(error(&["--shot", "x", "--drop", "mud@1,2,3"]), ShotError::UnknownMaterial(3));
    assert_eq!(error(&["--shot", "x", "--drop", "@1,2,3"]), ShotError::UnknownMaterial(3));
    // A coordinate comes before the material.
    assert_eq!(error(&["--shot", "x", "--drop", "mud@a,2,3"]), ShotError::BadX);
    assert_eq!(error(&["--shot", "x", "--drop", "sand@1@2,3,4"]), ShotError::BadX);
}

#[test]
fn the_first_mistake_is_reported() {
    assert_eq!(
        error(&["--shot", "x", "--zoom", "big", "--ticks", "many"]),
        ShotError::Zoom
    );
    assert_eq!(
        error(&["--shot", "x", "--ticks", "many", "--zoom", "big"]),
        ShotError::Ticks
    );
}

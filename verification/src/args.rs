//! Command line.
//!
//! Minimal flag parsing: every option is a flag followed by one value.
//! Fractional numbers are read by the caller. [`number_texts`] says which
//! texts it has to read, [`parse_shot`] takes what they read as.

use vstd::prelude::*;
use crate::materials::parse_material;
#[allow(unused_imports)]
use crate::materials::material_id;
use crate::shot::ShotOptions;
#[allow(unused_imports)]
use crate::shot::Shot;
use crate::sim::Stroke;
use crate::single::{Point, Single, ONE};
use crate::text::{parse_u32, same_text, split_once};
#[allow(unused_imports)]
use crate::text::{
    all_digits, decimal_value, digits_of, law_joined_texts_split_again,
    law_numbers_are_read_in_decimal, law_split_parts_make_up_the_text, split_first, unsigned_text,
};
use crate::world::Scene;

verus! {

/// What is wrong with a command line. Positions count the arguments from 0.
#[derive(Copy, Clone, Debug, PartialEq, Eq, Structural)]
pub enum ShotError {
    /// The flag at this position needs a value.
    MissingValue(usize),
    /// The argument at this position is no flag.
    UnknownArgument(usize),
    /// `--ticks` expects an integer.
    Ticks,
    /// `--zoom` expects a number.
    Zoom,
    /// `--every` expects an integer.
    Every,
    /// `--seed` expects an integer.
    Seed,
    /// The value at this position names no scene.
    UnknownScene(usize),
    /// `--size` expects WxH.
    Size,
    BadWidth,
    BadHeight,
    /// `--centre` expects X,Y.
    Centre,
    /// `--drop` expects MAT@X,Y,R.
    Drop,
    BadX,
    BadY,
    BadRadius,
    /// The value at this position names no material.
    UnknownMaterial(usize),
}

/// One option of the command line. Texts that stand for fractional numbers are
/// left unread.
#[derive(Debug)]
pub enum Setting<T> {
    Out(T),
    Ticks(u32),
    Zoom(T),
    Every(u32),
    Seed(u32),
    Scene(Scene),
    Size(u32, u32),
    Centre(T, T),
    Drop { material: T, x: T, y: T, radius: T },
}

/// What the command line asks for.
pub enum Invocation {
    Interactive,
    Help,
    Shot(ShotOptions),
}

/// The arguments as texts.
pub open spec fn texts(args: Seq<String>) -> Seq<Seq<char>> {
    args.map_values(|s: String| s@)
}

impl<'a> Setting<&'a str> {
    /// The setting with its texts.
    pub open spec fn content(self) -> Setting<Seq<char>> {
        match self {
            Setting::Out(t) => Setting::Out(t@),
            Setting::Ticks(n) => Setting::Ticks(n),
            Setting::Zoom(t) => Setting::Zoom(t@),
            Setting::Every(n) => Setting::Every(n),
            Setting::Seed(n) => Setting::Seed(n),
            Setting::Scene(s) => Setting::Scene(s),
            Setting::Size(w, h) => Setting::Size(w, h),
            Setting::Centre(x, y) => Setting::Centre(x@, y@),
            Setting::Drop { material, x, y, radius } => Setting::Drop {
                material: material@,
                x: x@,
                y: y@,
                radius: radius@,
            },
        }
    }
}

pub open spec fn number(s: Seq<char>) -> Option<u32> {
    match unsigned_text(s, u32::MAX as int) {
        Some(v) => Some(v as u32),
        None => None,
    }
}

pub open spec fn is_flag(s: Seq<char>) -> bool {
    ||| s == "--shot"@
    ||| s == "--ticks"@
    ||| s == "--zoom"@
    ||| s == "--every"@
    ||| s == "--seed"@
    ||| s == "--scene"@
    ||| s == "--size"@
    ||| s == "--centre"@
    ||| s == "--center"@
    ||| s == "--drop"@
}

/// `--size` takes `WxH`.
pub open spec fn size_setting(v: Seq<char>) -> Result<Setting<Seq<char>>, ShotError> {
    match split_first(v, 'x') {
        None => Err(ShotError::Size),
        Some((w, h)) => match (number(w), number(h)) {
            (None, _) => Err(ShotError::BadWidth),
            (Some(_), None) => Err(ShotError::BadHeight),
            (Some(w), Some(h)) => Ok(Setting::Size(w, h)),
        },
    }
}

/// `--drop` takes `MAT@X,Y,R`, with exactly three parts after the `@`.
pub open spec fn drop_setting(v: Seq<char>) -> Result<Setting<Seq<char>>, ShotError> {
    match split_first(v, '@') {
        None => Err(ShotError::Drop),
        Some((material, rest)) => match split_first(rest, ',') {
            None => Err(ShotError::Drop),
            Some((x, rest)) => match split_first(rest, ',') {
                None => Err(ShotError::Drop),
                Some((y, radius)) => if radius.contains(',') {
                    Err(ShotError::Drop)
                } else {
                    Ok(Setting::Drop { material, x, y, radius })
                },
            },
        },
    }
}

/// What the flag at position `i` and its value set.
pub open spec fn setting_at(args: Seq<Seq<char>>, i: int) -> Result<Setting<Seq<char>>, ShotError> {
    let flag = args[i];
    let v = args[i + 1];
    if !is_flag(flag) {
        Err(ShotError::UnknownArgument(i as usize))
    } else if i + 1 >= args.len() {
        Err(ShotError::MissingValue(i as usize))
    } else if flag == "--shot"@ {
        Ok(Setting::Out(v))
    } else if flag == "--ticks"@ {
        match number(v) {
            Some(n) => Ok(Setting::Ticks(n)),
            None => Err(ShotError::Ticks),
        }
    } else if flag == "--zoom"@ {
        Ok(Setting::Zoom(v))
    } else if flag == "--every"@ {
        match number(v) {
            Some(n) => Ok(Setting::Every(n)),
            None => Err(ShotError::Every),
        }
    } else if flag == "--seed"@ {
        match number(v) {
            Some(n) => Ok(Setting::Seed(n)),
            None => Err(ShotError::Seed),
        }
    } else if flag == "--scene"@ {
        if v == "terrain"@ {
            Ok(Setting::Scene(Scene::Terrain))
        } else if v == "lab"@ {
            Ok(Setting::Scene(Scene::Lab))
        } else {
            Err(ShotError::UnknownScene((i + 1) as usize))
        }
    } else if flag == "--size"@ {
        size_setting(v)
    } else if flag == "--drop"@ {
        drop_setting(v)
    } else {
        match split_first(v, ',') {
            Some((x, y)) => Ok(Setting::Centre(x, y)),
            None => Err(ShotError::Centre),
        }
    }
}

/// `r` is the outcome `want`, text by text.
pub open spec fn same_outcome(
    r: Result<Setting<&str>, ShotError>,
    want: Result<Setting<Seq<char>>, ShotError>,
) -> bool {
    match r {
        Ok(s) => want == Ok::<Setting<Seq<char>>, ShotError>(s.content()),
        Err(e) => want == Err::<Setting<Seq<char>>, ShotError>(e),
    }
}

fn read_size(v: &str) -> (r: Result<Setting<&str>, ShotError>)
    ensures
        same_outcome(r, size_setting(v@)),
{
    match split_once(v, 'x') {
        None => Err(ShotError::Size),
        Some((w, h)) => match parse_u32(w) {
            None => Err(ShotError::BadWidth),
            Some(w) => match parse_u32(h) {
                None => Err(ShotError::BadHeight),
                Some(h) => Ok(Setting::Size(w, h)),
            },
        },
    }
}

fn read_drop(v: &str) -> (r: Result<Setting<&str>, ShotError>)
    ensures
        same_outcome(r, drop_setting(v@)),
{
    let (material, rest): (&str, &str) = match split_once(v, '@') {
        None => {
            return Err(ShotError::Drop);
        },
        Some(p) => p,
    };
    let (x, rest): (&str, &str) = match split_once(rest, ',') {
        None => {
            return Err(ShotError::Drop);
        },
        Some(p) => p,
    };
    let (y, radius): (&str, &str) = match split_once(rest, ',') {
        None => {
            return Err(ShotError::Drop);
        },
        Some(p) => p,
    };
    proof {
        radius@.index_of_first_ensures(',');
    }
    match split_once(radius, ',') {
        None => Ok(Setting::Drop { material, x, y, radius }),
        Some(_) => Err(ShotError::Drop),
    }
}

fn read_number(v: &str) -> (r: Option<u32>)
    ensures
        r == number(v@),
{
    parse_u32(v)
}

/// Reads the option whose flag stands at position `i`.
fn read_setting(args: &[String], i: usize) -> (r: Result<Setting<&str>, ShotError>)
    requires
        i < args@.len(),
    ensures
        same_outcome(r, setting_at(texts(args@), i as int)),
{
    let flag: &str = args[i].as_str();
    assert(texts(args@)[i as int] == flag@);
    if !known_flag(flag) {
        return Err(ShotError::UnknownArgument(i));
    }
    if i + 1 >= args.len() {
        return Err(ShotError::MissingValue(i));
    }
    let v: &str = args[i + 1].as_str();
    assert(texts(args@)[i + 1] == v@);
    if same_text(flag, "--shot") {
        Ok(Setting::Out(v))
    } else if same_text(flag, "--ticks") {
        match read_number(v) {
            Some(n) => Ok(Setting::Ticks(n)),
            None => Err(ShotError::Ticks),
        }
    } else if same_text(flag, "--zoom") {
        Ok(Setting::Zoom(v))
    } else if same_text(flag, "--every") {
        match read_number(v) {
            Some(n) => Ok(Setting::Every(n)),
            None => Err(ShotError::Every),
        }
    } else if same_text(flag, "--seed") {
        match read_number(v) {
            Some(n) => Ok(Setting::Seed(n)),
            None => Err(ShotError::Seed),
        }
    } else if same_text(flag, "--scene") {
        if same_text(v, "terrain") {
            Ok(Setting::Scene(Scene::Terrain))
        } else if same_text(v, "lab") {
            Ok(Setting::Scene(Scene::Lab))
        } else {
            Err(ShotError::UnknownScene(i + 1))
        }
    } else if same_text(flag, "--size") {
        read_size(v)
    } else if same_text(flag, "--drop") {
        read_drop(v)
    } else {
        match split_once(v, ',') {
            Some((x, y)) => Ok(Setting::Centre(x, y)),
            None => Err(ShotError::Centre),
        }
    }
}

fn known_flag(s: &str) -> (r: bool)
    ensures
        r == is_flag(s@),
{
    same_text(s, "--shot") || same_text(s, "--ticks") || same_text(s, "--zoom") || same_text(
        s,
        "--every",
    ) || same_text(s, "--seed") || same_text(s, "--scene") || same_text(s, "--size") || same_text(
        s,
        "--centre",
    ) || same_text(s, "--center") || same_text(s, "--drop")
}

/// The texts of a setting that stand for fractional numbers, in the order in
/// which they are read.
pub open spec fn numbers_in(s: Setting<Seq<char>>) -> Seq<Seq<char>> {
    match s {
        Setting::Zoom(t) => seq![t],
        Setting::Centre(x, y) => seq![x, y],
        Setting::Drop { material, x, y, radius } => seq![x, y, radius],
        _ => seq![],
    }
}

/// The fractional numbers of the options from position `i` on, up to the first
/// option that is wrong in itself.
pub open spec fn numbers_from(args: Seq<Seq<char>>, i: int) -> Seq<Seq<char>>
    decreases args.len() - i,
{
    if i >= args.len() {
        seq![]
    } else {
        match setting_at(args, i) {
            Err(_) => seq![],
            Ok(s) => numbers_in(s) + numbers_from(args, i + 2),
        }
    }
}

/// All texts of a command line that have to be read as fractional numbers.
pub open spec fn numbers_wanted(args: Seq<Seq<char>>) -> Seq<Seq<char>> {
    if args.contains("--shot"@) {
        numbers_from(args, 0)
    } else {
        seq![]
    }
}

/// The options before any flag is read.
pub open spec fn default_shot(seed: u32) -> Shot {
    Shot {
        width: 1280,
        height: 720,
        ticks: 0,
        zoom: Single { bits: ONE },
        centre: None,
        seed,
        strokes: seq![],
        out: "shot.png"@,
        scene: Scene::Terrain,
        every: None,
    }
}

/// A stroke that stamps a disc.
pub open spec fn disc(x: Single, y: Single, radius: Single, material: u8) -> Stroke {
    Stroke { from: Point { x, y }, to: Point { x, y }, radius, material }
}

/// The options after one more setting, whose flag stands at position `i` and
/// whose fractional numbers read as `n`.
pub open spec fn with_setting(
    o: Shot,
    s: Setting<Seq<char>>,
    i: int,
    n: Seq<Option<Single>>,
) -> Result<Shot, ShotError> {
    match s {
        Setting::Out(t) => Ok(Shot { out: t, ..o }),
        Setting::Ticks(ticks) => Ok(Shot { ticks, ..o }),
        Setting::Zoom(_) => match n[0] {
            Some(zoom) => Ok(Shot { zoom, ..o }),
            None => Err(ShotError::Zoom),
        },
        Setting::Every(every) => Ok(Shot { every: Some(every), ..o }),
        Setting::Seed(seed) => Ok(Shot { seed, ..o }),
        Setting::Scene(scene) => Ok(Shot { scene, ..o }),
        Setting::Size(width, height) => Ok(Shot { width, height, ..o }),
        Setting::Centre(_, _) => match (n[0], n[1]) {
            (None, _) => Err(ShotError::BadX),
            (Some(_), None) => Err(ShotError::BadY),
            (Some(x), Some(y)) => Ok(Shot { centre: Some(Point { x, y }), ..o }),
        },
        Setting::Drop { material, .. } => match (n[0], n[1], n[2], material_id(material)) {
            (None, _, _, _) => Err(ShotError::BadX),
            (Some(_), None, _, _) => Err(ShotError::BadY),
            (Some(_), Some(_), None, _) => Err(ShotError::BadRadius),
            (Some(_), Some(_), Some(_), None) => Err(ShotError::UnknownMaterial((i + 1) as usize)),
            (Some(x), Some(y), Some(radius), Some(id)) => Ok(
                Shot { strokes: o.strokes.push(disc(x, y, radius, id as u8)), ..o },
            ),
        },
    }
}

/// The options after all settings from position `i` on, left to right; the
/// first thing wrong ends it.
pub open spec fn shot_from(
    args: Seq<Seq<char>>,
    i: int,
    numbers: Seq<Option<Single>>,
    o: Shot,
) -> Result<Shot, ShotError>
    decreases args.len() - i,
{
    if i >= args.len() {
        Ok(o)
    } else {
        match setting_at(args, i) {
            Err(e) => Err(e),
            Ok(s) => match with_setting(o, s, i, numbers) {
                Err(e) => Err(e),
                Ok(o) => shot_from(args, i + 2, numbers.skip(numbers_in(s).len() as int), o),
            },
        }
    }
}

fn has_arg(args: &[String], flag: &str) -> (r: bool)
    ensures
        r == texts(args@).contains(flag@),
{
    let mut i: usize = 0;
    while i < args.len()
        invariant
            i <= args@.len(),
            forall|j: int| 0 <= j < i ==> texts(args@)[j] != flag@,
        decreases args@.len() - i,
    {
        assert(texts(args@)[i as int] == args@[i as int]@);
        if same_text(args[i].as_str(), flag) {
            return true;
        }
        i += 1;
    }
    false
}

/// The texts that the caller has to read as fractional numbers before it calls
/// [`parse_shot`].
pub fn number_texts(args: &[String]) -> (r: Vec<String>)
    ensures
        texts(r@) == numbers_wanted(texts(args@)),
{
    let mut r: Vec<String> = Vec::new();
    if !has_arg(args, "--shot") {
        assert(texts(r@) =~= numbers_wanted(texts(args@)));
        return r;
    }
    let ghost all = texts(args@);
    let mut i: usize = 0;
    assert(texts(r@) + numbers_from(all, 0) =~= numbers_wanted(all));
    while i < args.len()
        invariant
            all == texts(args@),
            i <= args@.len(),
            texts(r@) + numbers_from(all, i as int) =~= numbers_wanted(all),
        decreases args@.len() - i,
    {
        let ghost before = texts(r@);
        match read_setting(args, i) {
            Err(_) => {
                assert(texts(r@) =~= numbers_wanted(all));
                return r;
            },
            Ok(s) => {
                match s {
                    Setting::Zoom(t) => {
                        r.push(t.to_owned());
                    },
                    Setting::Centre(x, y) => {
                        r.push(x.to_owned());
                        r.push(y.to_owned());
                    },
                    Setting::Drop { material: _, x, y, radius } => {
                        r.push(x.to_owned());
                        r.push(y.to_owned());
                        r.push(radius.to_owned());
                    },
                    _ => {},
                }
                assert(texts(r@) =~= before + numbers_in(s.content()));
            },
        }
        i += 2;
    }
    assert(texts(r@) =~= numbers_wanted(all));
    r
}

/// Takes one setting into the options; `n` holds what its fractional numbers
/// read as.
fn apply_setting(o: &mut ShotOptions, s: Setting<&str>, i: usize, n: &[Option<Single>]) -> (r:
    Result<(), ShotError>)
    requires
        n@.len() >= numbers_in(s.content()).len(),
        i < usize::MAX,
    ensures
        match r {
            Ok(_) => with_setting(old(o)@, s.content(), i as int, n@) == Ok::<Shot, ShotError>(
                final(o)@,
            ),
            Err(e) => with_setting(old(o)@, s.content(), i as int, n@) == Err::<Shot, ShotError>(e),
        },
{
    match s {
        Setting::Out(t) => {
            o.out = t.to_owned();
        },
        Setting::Ticks(ticks) => {
            o.ticks = ticks;
        },
        Setting::Zoom(_) => match n[0] {
            Some(zoom) => {
                o.zoom = zoom;
            },
            None => {
                return Err(ShotError::Zoom);
            },
        },
        Setting::Every(every) => {
            o.every = Some(every);
        },
        Setting::Seed(seed) => {
            o.seed = seed;
        },
        Setting::Scene(scene) => {
            o.scene = scene;
        },
        Setting::Size(width, height) => {
            o.width = width;
            o.height = height;
        },
        Setting::Centre(_, _) => match (n[0], n[1]) {
            (None, _) => {
                return Err(ShotError::BadX);
            },
            (Some(_), None) => {
                return Err(ShotError::BadY);
            },
            (Some(x), Some(y)) => {
                o.centre = Some(Point { x, y });
            },
        },
        Setting::Drop { material, x: _, y: _, radius: _ } => match (n[0], n[1], n[2]) {
            (None, _, _) => {
                return Err(ShotError::BadX);
            },
            (Some(_), None, _) => {
                return Err(ShotError::BadY);
            },
            (Some(_), Some(_), None) => {
                return Err(ShotError::BadRadius);
            },
            (Some(x), Some(y), Some(radius)) => match parse_material(material) {
                None => {
                    return Err(ShotError::UnknownMaterial(i + 1));
                },
                Some(material) => {
                    let at = Point { x, y };
                    o.strokes.push(Stroke { from: at, to: at, radius, material });
                },
            },
        },
    }
    Ok(())
}

/// Reads the command line. `numbers` holds what the texts of [`number_texts`]
/// read as, in order; `seed` is the world seed unless a flag sets one.
pub fn parse_shot(args: &[String], numbers: &[Option<Single>], seed: u32) -> (r: Result<
    Invocation,
    ShotError,
>)
    requires
        numbers@.len() == numbers_wanted(texts(args@)).len(),
    ensures
        ({
            let all = texts(args@);
            let read = shot_from(all, 0, numbers@, default_shot(seed));
            if all.contains("--shot"@) {
                match r {
                    Ok(Invocation::Shot(o)) => read == Ok::<Shot, ShotError>(o@),
                    Ok(_) => false,
                    Err(e) => read == Err::<Shot, ShotError>(e),
                }
            } else if all.contains("--help"@) || all.contains("-h"@) {
                r matches Ok(Invocation::Help)
            } else {
                r matches Ok(Invocation::Interactive)
            }
        }),
{
    if !has_arg(args, "--shot") {
        if has_arg(args, "--help") || has_arg(args, "-h") {
            return Ok(Invocation::Help);
        }
        return Ok(Invocation::Interactive);
    }
    let mut o = ShotOptions {
        width: 1280,
        height: 720,
        ticks: 0,
        zoom: Single { bits: ONE },
        centre: None,
        seed,
        strokes: Vec::new(),
        out: "shot.png".to_owned(),
        scene: Scene::Terrain,
        every: None,
    };
    let ghost all = texts(args@);
    let ghost want = shot_from(all, 0, numbers@, default_shot(seed));
    assert(o@.strokes =~= seq![]);
    assert(numbers@.skip(0) =~= numbers@);
    let mut i: usize = 0;
    let mut k: usize = 0;
    while i < args.len()
        invariant
            all == texts(args@),
            i <= args@.len(),
            k <= numbers@.len(),
            numbers@.len() - k == numbers_from(all, i as int).len(),
            want == shot_from(all, i as int, numbers@.skip(k as int), o@),
            all.contains("--shot"@),
            want == shot_from(all, 0, numbers@, default_shot(seed)),
        decreases args@.len() - i,
    {
        let s: Setting<&str> = match read_setting(args, i) {
            Err(e) => {
                return Err(e);
            },
            Ok(s) => s,
        };
        let used: usize = match s {
            Setting::Zoom(_) => 1,
            Setting::Centre(_, _) => 2,
            Setting::Drop { .. } => 3,
            _ => 0,
        };
        let here: &[Option<Single>] = vstd::slice::slice_subrange(numbers, k, numbers.len());
        assert(here@ =~= numbers@.skip(k as int));
        match apply_setting(&mut o, s, i, here) {
            Err(e) => {
                return Err(e);
            },
            Ok(_) => {},
        }
        assert(here@.skip(used as int) =~= numbers@.skip(k + used));
        k += used;
        i += 2;
    }
    Ok(Invocation::Shot(o))
}

// --- laws --------------------------------------------------------------------

/// How many of the options from position `i` on are drops.
pub open spec fn drops_from(args: Seq<Seq<char>>, i: int) -> nat
    decreases args.len() - i,
{
    if i >= args.len() {
        0
    } else {
        match setting_at(args, i) {
            Err(_) => 0,
            Ok(Setting::Drop { .. }) => 1 + drops_from(args, i + 2),
            Ok(_) => drops_from(args, i + 2),
        }
    }
}

/// `--drop` can be repeated: every drop adds one stroke behind the earlier
/// ones, and no other option touches the strokes.
pub proof fn law_drops_add_up(
    args: Seq<Seq<char>>,
    i: int,
    numbers: Seq<Option<Single>>,
    o: Shot,
)
    ensures
        shot_from(args, i, numbers, o) matches Ok(r) ==> {
            &&& r.strokes.len() == o.strokes.len() + drops_from(args, i)
            &&& o.strokes.is_prefix_of(r.strokes)
        },
    decreases args.len() - i,
{
    if i < args.len() {
        match setting_at(args, i) {
            Err(_) => {},
            Ok(s) => match with_setting(o, s, i, numbers) {
                Err(_) => {},
                Ok(o2) => {
                    let rest = numbers.skip(numbers_in(s).len() as int);
                    law_drops_add_up(args, i + 2, rest, o2);
                    assert(o.strokes.is_prefix_of(o2.strokes));
                    match shot_from(args, i + 2, rest, o2) {
                        Err(_) => {},
                        Ok(r) => {
                            assert(o.strokes =~= r.strokes.take(o.strokes.len() as int));
                        },
                    }
                },
            },
        }
    }
}

/// Options come in pairs of flag and value, so a command line of an odd length
/// is never accepted.
pub proof fn law_options_come_in_pairs(
    args: Seq<Seq<char>>,
    i: int,
    numbers: Seq<Option<Single>>,
    o: Shot,
)
    requires
        0 <= i <= args.len(),
        (args.len() - i) % 2 == 1,
    ensures
        shot_from(args, i, numbers, o) is Err,
    decreases args.len() - i,
{
    match setting_at(args, i) {
        Err(_) => {},
        Ok(s) => match with_setting(o, s, i, numbers) {
            Err(_) => {},
            Ok(o2) => {
                law_options_come_in_pairs(
                    args,
                    i + 2,
                    numbers.skip(numbers_in(s).len() as int),
                    o2,
                );
            },
        },
    }
}

/// Two settings made by the same flag; drops are left out, since they add up.
pub open spec fn same_flag(a: Setting<Seq<char>>, b: Setting<Seq<char>>) -> bool {
    match (a, b) {
        (Setting::Out(_), Setting::Out(_)) => true,
        (Setting::Ticks(_), Setting::Ticks(_)) => true,
        (Setting::Zoom(_), Setting::Zoom(_)) => true,
        (Setting::Every(_), Setting::Every(_)) => true,
        (Setting::Seed(_), Setting::Seed(_)) => true,
        (Setting::Scene(_), Setting::Scene(_)) => true,
        (Setting::Size(_, _), Setting::Size(_, _)) => true,
        (Setting::Centre(_, _), Setting::Centre(_, _)) => true,
        _ => false,
    }
}

/// Of two settings of one flag the later wins: the earlier leaves no trace.
pub proof fn law_later_setting_wins(
    o: Shot,
    a: Setting<Seq<char>>,
    i: int,
    n: Seq<Option<Single>>,
    b: Setting<Seq<char>>,
    j: int,
    m: Seq<Option<Single>>,
)
    requires
        same_flag(a, b),
        with_setting(o, a, i, n) is Ok,
    ensures
        with_setting(with_setting(o, a, i, n)->Ok_0, b, j, m) == with_setting(o, b, j, m),
{
}

/// `--centre` can be spelled `--center`.
pub proof fn law_two_spellings_of_centre(args: Seq<Seq<char>>, i: int)
    requires
        0 <= i < args.len(),
        args[i] == "--centre"@,
    ensures
        setting_at(args.update(i, "--center"@), i) == setting_at(args, i),
{
    reveal_strlit("--centre");
    reveal_strlit("--center");
    reveal_strlit("--shot");
    reveal_strlit("--ticks");
    reveal_strlit("--zoom");
    reveal_strlit("--every");
    reveal_strlit("--seed");
    reveal_strlit("--scene");
    reveal_strlit("--size");
    reveal_strlit("--drop");
    let a = "--centre"@;
    let b = "--center"@;
    assert(a[2] == 'c' && b[2] == 'c');
    assert("--shot"@[2] == 's' && "--ticks"@[2] == 't' && "--zoom"@[2] == 'z' && "--every"@[2]
        == 'e' && "--seed"@[2] == 's' && "--scene"@[2] == 's' && "--size"@[2] == 's'
        && "--drop"@[2] == 'd');
    let other = args.update(i, b);
    assert(other[i] == b);
    assert(other.len() == args.len());
    assert(i + 1 < args.len() ==> other[i + 1] == args[i + 1]);
}

/// No two flags are spelled alike: length and two letters tell all but the two
/// spellings of one of them apart.
proof fn lemma_flags_differ()
    ensures
        "--shot"@.len() == 6 && "--shot"@[2] == 's' && "--shot"@[3] == 'h',
        "--ticks"@.len() == 7 && "--ticks"@[2] == 't' && "--ticks"@[3] == 'i',
        "--zoom"@.len() == 6 && "--zoom"@[2] == 'z' && "--zoom"@[3] == 'o',
        "--every"@.len() == 7 && "--every"@[2] == 'e' && "--every"@[3] == 'v',
        "--seed"@.len() == 6 && "--seed"@[2] == 's' && "--seed"@[3] == 'e',
        "--scene"@.len() == 7 && "--scene"@[2] == 's' && "--scene"@[3] == 'c',
        "--size"@.len() == 6 && "--size"@[2] == 's' && "--size"@[3] == 'i',
        "--drop"@.len() == 6 && "--drop"@[2] == 'd' && "--drop"@[3] == 'r',
        "--centre"@.len() == 8 && "--centre"@[2] == 'c' && "--centre"@[6] == 'r',
        "--center"@.len() == 8 && "--center"@[2] == 'c' && "--center"@[6] == 'e',
{
    reveal_strlit("--shot");
    reveal_strlit("--ticks");
    reveal_strlit("--zoom");
    reveal_strlit("--every");
    reveal_strlit("--seed");
    reveal_strlit("--scene");
    reveal_strlit("--size");
    reveal_strlit("--drop");
    reveal_strlit("--centre");
    reveal_strlit("--center");
}

/// A flag followed by a number in decimal sets its own option to that number and
/// leaves all others alone.
pub proof fn law_numbers_go_where_their_flag_says(
    args: Seq<Seq<char>>,
    i: int,
    o: Shot,
    n: Seq<Option<Single>>,
)
    requires
        0 <= i,
        i + 1 < args.len(),
        args[i + 1].len() > 0,
        all_digits(args[i + 1]),
        decimal_value(args[i + 1]) <= 0xFFFF_FFFF,
    ensures
        ({
            let k = decimal_value(args[i + 1]) as u32;
            let set = |s: Result<Setting<Seq<char>>, ShotError>, r: Shot|
                s is Ok && with_setting(o, s->Ok_0, i, n) == Ok::<Shot, ShotError>(r);
            &&& args[i] == "--every"@ ==> set(
                setting_at(args, i),
                Shot { every: Some(k), ..o },
            )
            &&& args[i] == "--ticks"@ ==> set(setting_at(args, i), Shot { ticks: k, ..o })
            &&& args[i] == "--seed"@ ==> set(setting_at(args, i), Shot { seed: k, ..o })
        }),
{
    lemma_flags_differ();
    law_numbers_are_read_in_decimal(args[i + 1], 0xFFFF_FFFF);
}

/// A number flag refuses every value that is not a number in decimal of at most
/// 32 bits.
pub proof fn law_number_flags_refuse_the_rest(args: Seq<Seq<char>>, i: int)
    requires
        0 <= i,
        i + 1 < args.len(),
        unsigned_text(args[i + 1], 0xFFFF_FFFF) is None,
    ensures
        args[i] == "--every"@ ==> setting_at(args, i) == Err::<Setting<Seq<char>>, ShotError>(
            ShotError::Every,
        ),
        args[i] == "--ticks"@ ==> setting_at(args, i) == Err::<Setting<Seq<char>>, ShotError>(
            ShotError::Ticks,
        ),
        args[i] == "--seed"@ ==> setting_at(args, i) == Err::<Setting<Seq<char>>, ShotError>(
            ShotError::Seed,
        ),
{
    lemma_flags_differ();
}

/// `--size` followed by two numbers in decimal with an `x` between them sets
/// width and height, in this order, and nothing else.
pub proof fn law_size_sets_width_and_height(
    args: Seq<Seq<char>>,
    i: int,
    w: Seq<char>,
    h: Seq<char>,
    o: Shot,
    n: Seq<Option<Single>>,
)
    requires
        0 <= i,
        i + 1 < args.len(),
        args[i] == "--size"@,
        args[i + 1] == w + seq!['x'] + h,
        w.len() > 0 && all_digits(w) && decimal_value(w) <= 0xFFFF_FFFF,
        h.len() > 0 && all_digits(h) && decimal_value(h) <= 0xFFFF_FFFF,
    ensures
        setting_at(args, i) is Ok,
        with_setting(o, setting_at(args, i)->Ok_0, i, n) == Ok::<Shot, ShotError>(
            Shot { width: decimal_value(w) as u32, height: decimal_value(h) as u32, ..o },
        ),
{
    lemma_flags_differ();
    assert(!w.contains('x')) by {
        if w.contains('x') {
            let j = choose|j: int| 0 <= j < w.len() && w[j] == 'x';
            assert(crate::text::is_digit(w[j]));
        }
    }
    law_joined_texts_split_again(w, 'x', h);
    law_numbers_are_read_in_decimal(w, 0xFFFF_FFFF);
    law_numbers_are_read_in_decimal(h, 0xFFFF_FFFF);
}

/// `--shot` takes any value as the file; `--scene` takes the two scene names and
/// nothing else. Neither touches any other option.
pub proof fn law_file_and_scene_are_taken_by_name(
    args: Seq<Seq<char>>,
    i: int,
    o: Shot,
    n: Seq<Option<Single>>,
)
    requires
        0 <= i,
        i + 1 < args.len(),
    ensures
        args[i] == "--shot"@ ==> setting_at(args, i) is Ok && with_setting(
            o,
            setting_at(args, i)->Ok_0,
            i,
            n,
        ) == Ok::<Shot, ShotError>(Shot { out: args[i + 1], ..o }),
        args[i] == "--scene"@ && args[i + 1] == "lab"@ ==> setting_at(args, i) is Ok
            && with_setting(o, setting_at(args, i)->Ok_0, i, n) == Ok::<Shot, ShotError>(
            Shot { scene: Scene::Lab, ..o },
        ),
        args[i] == "--scene"@ && args[i + 1] == "terrain"@ ==> setting_at(args, i) is Ok
            && with_setting(o, setting_at(args, i)->Ok_0, i, n) == Ok::<Shot, ShotError>(
            Shot { scene: Scene::Terrain, ..o },
        ),
        args[i] == "--scene"@ && args[i + 1] != "lab"@ && args[i + 1] != "terrain"@ ==> setting_at(
            args,
            i,
        ) is Err,
{
    lemma_flags_differ();
    reveal_strlit("lab");
    reveal_strlit("terrain");
    assert("lab"@.len() == 3 && "terrain"@.len() == 7);
}

/// The text of `--zoom` is read as one number, which becomes the zoom; without
/// one the option is refused.
pub proof fn law_zoom_is_the_number_read(
    args: Seq<Seq<char>>,
    i: int,
    o: Shot,
    n: Seq<Option<Single>>,
)
    requires
        0 <= i,
        i + 1 < args.len(),
        args[i] == "--zoom"@,
    ensures
        setting_at(args, i) is Ok,
        numbers_in(setting_at(args, i)->Ok_0) == seq![args[i + 1]],
        match n[0] {
            Some(zoom) => with_setting(o, setting_at(args, i)->Ok_0, i, n) == Ok::<
                Shot,
                ShotError,
            >(Shot { zoom, ..o }),
            None => with_setting(o, setting_at(args, i)->Ok_0, i, n) == Err::<Shot, ShotError>(
                ShotError::Zoom,
            ),
        },
{
    lemma_flags_differ();
}

/// The text of `--centre X,Y` is read as two numbers, up to the first comma and
/// after it, which become the centre's x and y.
pub proof fn law_centre_is_the_two_numbers_read(
    args: Seq<Seq<char>>,
    i: int,
    x: Seq<char>,
    y: Seq<char>,
    o: Shot,
    n: Seq<Option<Single>>,
)
    requires
        0 <= i,
        i + 1 < args.len(),
        args[i] == "--centre"@ || args[i] == "--center"@,
        args[i + 1] == x + seq![','] + y,
        !x.contains(','),
    ensures
        setting_at(args, i) is Ok,
        numbers_in(setting_at(args, i)->Ok_0) == seq![x, y],
        n[0] is Some && n[1] is Some ==> with_setting(o, setting_at(args, i)->Ok_0, i, n) == Ok::<
            Shot,
            ShotError,
        >(Shot { centre: Some(Point { x: n[0]->0, y: n[1]->0 }), ..o }),
        n[0] is None || n[1] is None ==> with_setting(
            o,
            setting_at(args, i)->Ok_0,
            i,
            n,
        ) is Err,
{
    lemma_flags_differ();
    law_joined_texts_split_again(x, ',', y);
}

/// The text of `--drop MAT@X,Y,R` is read as three numbers and a material, and
/// adds one disc of that material behind the strokes there are: at (X, Y), with
/// radius R.
pub proof fn law_drop_is_a_disc_of_its_material(
    args: Seq<Seq<char>>,
    i: int,
    material: Seq<char>,
    x: Seq<char>,
    y: Seq<char>,
    radius: Seq<char>,
    o: Shot,
    n: Seq<Option<Single>>,
)
    requires
        0 <= i,
        i + 1 < args.len(),
        args[i] == "--drop"@,
        args[i + 1] == material + seq!['@'] + (x + seq![','] + (y + seq![','] + radius)),
        !material.contains('@'),
        !x.contains(','),
        !y.contains(','),
        !radius.contains(','),
    ensures
        setting_at(args, i) is Ok,
        numbers_in(setting_at(args, i)->Ok_0) == seq![x, y, radius],
        n[0] is Some && n[1] is Some && n[2] is Some && material_id(material) is Some
            ==> with_setting(o, setting_at(args, i)->Ok_0, i, n) == Ok::<Shot, ShotError>(
            Shot {
                strokes: o.strokes.push(
                    Stroke {
                        from: Point { x: n[0]->0, y: n[1]->0 },
                        to: Point { x: n[0]->0, y: n[1]->0 },
                        radius: n[2]->0,
                        material: material_id(material)->0 as u8,
                    },
                ),
                ..o
            },
        ),
        !(n[0] is Some && n[1] is Some && n[2] is Some && material_id(material) is Some)
            ==> with_setting(o, setting_at(args, i)->Ok_0, i, n) is Err,
{
    lemma_flags_differ();
    law_joined_texts_split_again(material, '@', x + seq![','] + (y + seq![','] + radius));
    law_joined_texts_split_again(x, ',', y + seq![','] + radius);
    law_joined_texts_split_again(y, ',', radius);
}

/// No option from position `i` on has this flag.
pub open spec fn flag_absent(args: Seq<Seq<char>>, i: int, flag: Seq<char>) -> bool {
    forall|p: int| i <= p < args.len() && (p - i) % 2 == 0 ==> #[trigger] args[p] != flag
}

/// How many drops stand from position `i` up to position `j`.
pub open spec fn drops_between(args: Seq<Seq<char>>, i: int, j: int) -> nat
    decreases j - i + 1,
{
    if i >= j {
        0
    } else {
        (if args[i] == "--drop"@ {
            1nat
        } else {
            0
        }) + drops_between(args, i + 2, j)
    }
}

proof fn lemma_flag_absent_further(args: Seq<Seq<char>>, i: int, flag: Seq<char>)
    requires
        0 <= i < args.len(),
        flag_absent(args, i, flag),
    ensures
        args[i] != flag,
        flag_absent(args, i + 2, flag),
{
    assert forall|p: int| i + 2 <= p < args.len() && (p - (i + 2)) % 2 == 0 implies #[trigger] args[p]
        != flag by {
        assert((p - i) % 2 == 0);
    }
}

/// An option that is never named stays as it was.
proof fn lemma_absent_flags_change_nothing(
    args: Seq<Seq<char>>,
    i: int,
    numbers: Seq<Option<Single>>,
    o: Shot,
)
    requires
        0 <= i,
    ensures
        shot_from(args, i, numbers, o) matches Ok(r) ==> {
            &&& flag_absent(args, i, "--shot"@) ==> r.out == o.out
            &&& flag_absent(args, i, "--ticks"@) ==> r.ticks == o.ticks
            &&& flag_absent(args, i, "--zoom"@) ==> r.zoom == o.zoom
            &&& flag_absent(args, i, "--every"@) ==> r.every == o.every
            &&& flag_absent(args, i, "--seed"@) ==> r.seed == o.seed
            &&& flag_absent(args, i, "--scene"@) ==> r.scene == o.scene
            &&& flag_absent(args, i, "--size"@) ==> r.width == o.width && r.height == o.height
            &&& flag_absent(args, i, "--centre"@) && flag_absent(args, i, "--center"@) ==> r.centre
                == o.centre
            &&& flag_absent(args, i, "--drop"@) ==> r.strokes == o.strokes
        },
    decreases args.len() - i,
{
    if i < args.len() {
        match setting_at(args, i) {
            Err(_) => {},
            Ok(s) => match with_setting(o, s, i, numbers) {
                Err(_) => {},
                Ok(o2) => {
                    lemma_absent_flags_change_nothing(
                        args,
                        i + 2,
                        numbers.skip(numbers_in(s).len() as int),
                        o2,
                    );
                    if flag_absent(args, i, "--shot"@) {
                        lemma_flag_absent_further(args, i, "--shot"@);
                    }
                    if flag_absent(args, i, "--ticks"@) {
                        lemma_flag_absent_further(args, i, "--ticks"@);
                    }
                    if flag_absent(args, i, "--zoom"@) {
                        lemma_flag_absent_further(args, i, "--zoom"@);
                    }
                    if flag_absent(args, i, "--every"@) {
                        lemma_flag_absent_further(args, i, "--every"@);
                    }
                    if flag_absent(args, i, "--seed"@) {
                        lemma_flag_absent_further(args, i, "--seed"@);
                    }
                    if flag_absent(args, i, "--scene"@) {
                        lemma_flag_absent_further(args, i, "--scene"@);
                    }
                    if flag_absent(args, i, "--size"@) {
                        lemma_flag_absent_further(args, i, "--size"@);
                    }
                    if flag_absent(args, i, "--centre"@) && flag_absent(args, i, "--center"@) {
                        lemma_flag_absent_further(args, i, "--centre"@);
                        lemma_flag_absent_further(args, i, "--center"@);
                    }
                    if flag_absent(args, i, "--drop"@) {
                        lemma_flag_absent_further(args, i, "--drop"@);
                    }
                },
            },
        }
    }
}

/// What an accepted command line does from one position on, it does from every
/// later one, with the options so far and the numbers that are left.
proof fn lemma_later_position(
    args: Seq<Seq<char>>,
    i: int,
    j: int,
    numbers: Seq<Option<Single>>,
    o: Shot,
) -> (r: (int, Shot))
    requires
        0 <= i <= j <= args.len(),
        (j - i) % 2 == 0,
        shot_from(args, i, numbers, o) is Ok,
        numbers.len() == numbers_from(args, i).len(),
    ensures
        0 <= r.0 <= numbers.len(),
        numbers_from(args, i).skip(r.0) == numbers_from(args, j),
        numbers.len() - r.0 == numbers_from(args, j).len(),
        shot_from(args, j, numbers.skip(r.0), r.1) == shot_from(args, i, numbers, o),
        r.1.strokes.len() == o.strokes.len() + drops_between(args, i, j),
    decreases j - i,
{
    if i == j {
        assert(numbers.skip(0) =~= numbers);
        assert(numbers_from(args, i).skip(0) =~= numbers_from(args, i));
        (0, o)
    } else {
        let s = setting_at(args, i)->Ok_0;
        let used = numbers_in(s).len() as int;
        let o2 = with_setting(o, s, i, numbers)->Ok_0;
        let rest = numbers_from(args, i + 2);
        assert(numbers_from(args, i) == numbers_in(s) + rest);
        let (k, o3) = lemma_later_position(args, i + 2, j, numbers.skip(used), o2);
        assert(numbers.skip(used).skip(k) =~= numbers.skip(used + k));
        assert(numbers_from(args, i).skip(used + k) =~= rest.skip(k));
        lemma_flags_differ();
        (used + k, o3)
    }
}

/// The text is a row of digits, after at most one `+`, that denotes `n`.
pub open spec fn denotes(text: Seq<char>, n: u32) -> bool {
    digits_of(text).len() > 0 && all_digits(digits_of(text)) && decimal_value(digits_of(text)) == n
}

proof fn lemma_number_denotes(text: Seq<char>)
    ensures
        number(text) matches Some(n) ==> denotes(text, n),
{
    crate::text::lemma_decimal_value_positive(digits_of(text));
}

/// An accepted command line does what its options say. Of the options of one
/// flag the last one counts: the number behind `--ticks`, `--every` and `--seed`,
/// the two numbers behind `--size`, the name behind `--scene` and the file behind
/// `--shot` are found in the result as they were written.
pub proof fn law_last_option_counts(
    args: Seq<Seq<char>>,
    j: int,
    numbers: Seq<Option<Single>>,
    seed: u32,
)
    requires
        numbers.len() == numbers_from(args, 0).len(),
        shot_from(args, 0, numbers, default_shot(seed)) is Ok,
        0 <= j < args.len(),
        j % 2 == 0,
        flag_absent(args, j + 2, args[j]),
    ensures
        j + 1 < args.len(),
        ({
            let r = shot_from(args, 0, numbers, default_shot(seed))->Ok_0;
            let v = args[j + 1];
            &&& args[j] == "--every"@ ==> r.every is Some && denotes(v, r.every->0)
            &&& args[j] == "--ticks"@ ==> denotes(v, r.ticks)
            &&& args[j] == "--seed"@ ==> denotes(v, r.seed)
            &&& args[j] == "--shot"@ ==> r.out == v
            &&& args[j] == "--scene"@ ==> v == (match r.scene {
                Scene::Terrain => "terrain"@,
                Scene::Lab => "lab"@,
            })
            &&& args[j] == "--size"@ ==> exists|w: Seq<char>, h: Seq<char>|
                v == #[trigger] (w + seq!['x'] + h) && denotes(w, r.width) && denotes(
                    h,
                    r.height,
                )
        }),
{
    let (k, o) = lemma_later_position(args, 0, j, numbers, default_shot(seed));
    let n = numbers.skip(k);
    let s = setting_at(args, j)->Ok_0;
    let o2 = with_setting(o, s, j, n)->Ok_0;
    lemma_absent_flags_change_nothing(args, j + 2, n.skip(numbers_in(s).len() as int), o2);
    lemma_flags_differ();
    let v = args[j + 1];
    lemma_number_denotes(v);
    if args[j] == "--size"@ {
        law_split_parts_make_up_the_text(v, 'x');
        let (w, h) = split_first(v, 'x')->0;
        assert(v == w + seq!['x'] + h);
        lemma_number_denotes(w);
        lemma_number_denotes(h);
    }
}

/// In an accepted command line the numbers read are used where their texts
/// stand: the last `--zoom` and the last `--centre` are found in the result as
/// what their texts read as.
pub proof fn law_numbers_read_are_used_in_place(
    args: Seq<Seq<char>>,
    j: int,
    numbers: Seq<Option<Single>>,
    seed: u32,
)
    requires
        numbers.len() == numbers_from(args, 0).len(),
        shot_from(args, 0, numbers, default_shot(seed)) is Ok,
        0 <= j < args.len(),
        j % 2 == 0,
    ensures
        ({
            let r = shot_from(args, 0, numbers, default_shot(seed))->Ok_0;
            let texts = numbers_from(args, 0);
            let v = args[j + 1];
            &&& args[j] == "--zoom"@ && flag_absent(args, j + 2, "--zoom"@) ==> exists|k: int|
                0 <= k < texts.len() && #[trigger] texts[k] == v && numbers[k] == Some(r.zoom)
            &&& (args[j] == "--centre"@ || args[j] == "--center"@) && flag_absent(
                args,
                j + 2,
                "--centre"@,
            ) && flag_absent(args, j + 2, "--center"@) ==> exists|k: int|
                0 <= k < texts.len() - 1 && #[trigger] texts[k] + seq![','] + texts[k + 1] == v
                    && r.centre is Some && numbers[k] == Some(r.centre->0.x) && numbers[k + 1]
                    == Some(r.centre->0.y)
        }),
{
    let texts = numbers_from(args, 0);
    let (k, o) = lemma_later_position(args, 0, j, numbers, default_shot(seed));
    let n = numbers.skip(k);
    let s = setting_at(args, j)->Ok_0;
    let o2 = with_setting(o, s, j, n)->Ok_0;
    lemma_absent_flags_change_nothing(args, j + 2, n.skip(numbers_in(s).len() as int), o2);
    lemma_flags_differ();
    assert(numbers_from(args, j) == numbers_in(s) + numbers_from(args, j + 2));
    let v = args[j + 1];
    if args[j] == "--zoom"@ {
        assert(texts.skip(k)[0] == v);
        assert(texts[k] == v && numbers[k] == n[0]);
    }
    if args[j] == "--centre"@ || args[j] == "--center"@ {
        law_split_parts_make_up_the_text(v, ',');
        let (x, y) = split_first(v, ',')->0;
        assert(texts.skip(k)[0] == x && texts.skip(k)[1] == y);
        assert(texts[k] == x && texts[k + 1] == y);
        assert(numbers[k] == n[0] && numbers[k + 1] == n[1]);
        assert(texts[k] + seq![','] + texts[k + 1] == v);
    }
}

/// In an accepted command line every drop has its disc, in the order of the
/// drops: at the numbers its texts read as, of the material it names.
pub proof fn law_every_drop_has_its_disc(
    args: Seq<Seq<char>>,
    j: int,
    numbers: Seq<Option<Single>>,
    seed: u32,
)
    requires
        numbers.len() == numbers_from(args, 0).len(),
        shot_from(args, 0, numbers, default_shot(seed)) is Ok,
        0 <= j < args.len(),
        j % 2 == 0,
        args[j] == "--drop"@,
    ensures
        ({
            let r = shot_from(args, 0, numbers, default_shot(seed))->Ok_0;
            let texts = numbers_from(args, 0);
            let d = drops_between(args, 0, j) as int;
            let stroke = r.strokes[d];
            &&& d < r.strokes.len()
            &&& stroke.from == stroke.to
            &&& exists|material: Seq<char>, k: int|
                {
                    &&& 0 <= k < texts.len() - 2
                    &&& args[j + 1] == material + seq!['@'] + (#[trigger] texts[k] + seq![','] + (
                    texts[k + 1] + seq![','] + texts[k + 2]))
                    &&& #[trigger] material_id(material) == Some(stroke.material as int)
                    &&& numbers[k] == Some(stroke.from.x)
                    &&& numbers[k + 1] == Some(stroke.from.y)
                    &&& numbers[k + 2] == Some(stroke.radius)
                }
        }),
{
    let texts = numbers_from(args, 0);
    let (k, o) = lemma_later_position(args, 0, j, numbers, default_shot(seed));
    let n = numbers.skip(k);
    let s = setting_at(args, j)->Ok_0;
    let o2 = with_setting(o, s, j, n)->Ok_0;
    let rest = n.skip(numbers_in(s).len() as int);
    law_drops_add_up(args, j + 2, rest, o2);
    lemma_flags_differ();
    assert(numbers_from(args, j) == numbers_in(s) + numbers_from(args, j + 2));
    let r = shot_from(args, j + 2, rest, o2)->Ok_0;
    let v = args[j + 1];
    law_split_parts_make_up_the_text(v, '@');
    let (material, numbers_text) = split_first(v, '@')->0;
    law_split_parts_make_up_the_text(numbers_text, ',');
    let (x, tail) = split_first(numbers_text, ',')->0;
    law_split_parts_make_up_the_text(tail, ',');
    let (y, radius) = split_first(tail, ',')->0;
    assert(texts.skip(k)[0] == x && texts.skip(k)[1] == y && texts.skip(k)[2] == radius);
    assert(texts[k] == x && texts[k + 1] == y && texts[k + 2] == radius);
    assert(numbers[k] == n[0] && numbers[k + 1] == n[1] && numbers[k + 2] == n[2]);
    let d = o.strokes.len() as int;
    assert(d == drops_between(args, 0, j));
    assert(r.strokes[d] == o2.strokes[d]);
    crate::materials::lemma_material_id_fits(material);
    assert(material_id(material) == Some(r.strokes[d].material as int));
}

/// What a command line never names keeps its default: 1280 by 720 pixels, no
/// ticks, a zoom of one, no centre of its own, the seed handed in, no strokes, no
/// numbered frames, and terrain.
pub proof fn law_unnamed_options_keep_their_defaults(
    args: Seq<Seq<char>>,
    numbers: Seq<Option<Single>>,
    seed: u32,
)
    requires
        shot_from(args, 0, numbers, default_shot(seed)) is Ok,
    ensures
        ({
            let r = shot_from(args, 0, numbers, default_shot(seed))->Ok_0;
            &&& flag_absent(args, 0, "--ticks"@) ==> r.ticks == 0
            &&& flag_absent(args, 0, "--zoom"@) ==> r.zoom.bits == 0x3f80_0000
            &&& flag_absent(args, 0, "--every"@) ==> r.every is None
            &&& flag_absent(args, 0, "--seed"@) ==> r.seed == seed
            &&& flag_absent(args, 0, "--scene"@) ==> r.scene == Scene::Terrain
            &&& flag_absent(args, 0, "--size"@) ==> r.width == 1280 && r.height == 720
            &&& flag_absent(args, 0, "--centre"@) && flag_absent(args, 0, "--center"@)
                ==> r.centre is None
            &&& flag_absent(args, 0, "--drop"@) ==> r.strokes.len() == 0
            &&& flag_absent(args, 0, "--shot"@) ==> r.out == "shot.png"@
        }),
{
    lemma_absent_flags_change_nothing(args, 0, numbers, default_shot(seed));
}

/// Only the ten flags start an option: a command line with anything else where a
/// flag belongs is refused.
pub proof fn law_only_flags_start_options(
    args: Seq<Seq<char>>,
    j: int,
    numbers: Seq<Option<Single>>,
    seed: u32,
)
    requires
        numbers.len() == numbers_from(args, 0).len(),
        0 <= j < args.len(),
        j % 2 == 0,
        args[j] != "--shot"@,
        args[j] != "--ticks"@,
        args[j] != "--zoom"@,
        args[j] != "--every"@,
        args[j] != "--seed"@,
        args[j] != "--scene"@,
        args[j] != "--size"@,
        args[j] != "--centre"@,
        args[j] != "--center"@,
        args[j] != "--drop"@,
    ensures
        shot_from(args, 0, numbers, default_shot(seed)) is Err,
{
    if shot_from(args, 0, numbers, default_shot(seed)) is Ok {
        let (k, o) = lemma_later_position(args, 0, j, numbers, default_shot(seed));
    }
}

/// Only `--zoom`, `--centre` and `--drop` have numbers to read, and nothing is
/// read without `--shot`.
pub proof fn law_other_flags_need_no_numbers(args: Seq<Seq<char>>, i: int)
    ensures
        !args.contains("--shot"@) ==> numbers_wanted(args).len() == 0,
        args.contains("--shot"@) ==> numbers_wanted(args) == numbers_from(args, 0),
        0 <= i < args.len() && setting_at(args, i) is Ok && args[i] != "--zoom"@ && args[i]
            != "--centre"@ && args[i] != "--center"@ && args[i] != "--drop"@ ==> numbers_in(
            setting_at(args, i)->Ok_0,
        ).len() == 0,
{
}

/// A flag at the very end has no value; what is no flag is named as such.
pub proof fn law_missing_values_and_strangers_are_named(args: Seq<Seq<char>>, i: int)
    requires
        0 <= i < args.len() <= usize::MAX,
    ensures
        setting_at(args, i) == Err::<Setting<Seq<char>>, ShotError>(
            ShotError::MissingValue(i as usize),
        ) <==> i == args.len() - 1 && (args[i] == "--shot"@ || args[i] == "--ticks"@ || args[i]
            == "--zoom"@ || args[i] == "--every"@ || args[i] == "--seed"@ || args[i] == "--scene"@
            || args[i] == "--size"@ || args[i] == "--centre"@ || args[i] == "--center"@ || args[i]
            == "--drop"@),
        setting_at(args, i) == Err::<Setting<Seq<char>>, ShotError>(
            ShotError::UnknownArgument(i as usize),
        ) <==> !(args[i] == "--shot"@ || args[i] == "--ticks"@ || args[i] == "--zoom"@ || args[i]
            == "--every"@ || args[i] == "--seed"@ || args[i] == "--scene"@ || args[i] == "--size"@
            || args[i] == "--centre"@ || args[i] == "--center"@ || args[i] == "--drop"@),
{
}

/// The options from `i` up to `j` are each right in themselves, and drops name
/// known materials.
pub open spec fn options_right(args: Seq<Seq<char>>, i: int, j: int) -> bool {
    forall|p: int|
        i <= p < j && (p - i) % 2 == 0 ==> (#[trigger] setting_at(args, p) matches Ok(s) && (
        s matches Setting::Drop { material, .. } ==> material_id(material) is Some))
}

proof fn lemma_right_options(
    args: Seq<Seq<char>>,
    i: int,
    j: int,
    numbers: Seq<Option<Single>>,
    o: Shot,
)
    requires
        0 <= i <= j,
        (j - i) % 2 == 0,
        options_right(args, i, j),
        numbers.len() == numbers_from(args, i).len(),
        forall|k: int| 0 <= k < numbers.len() ==> (#[trigger] numbers[k]) is Some,
        j >= args.len() || setting_at(args, j) is Err,
    ensures
        j >= args.len() ==> shot_from(args, i, numbers, o) is Ok,
        j < args.len() ==> shot_from(args, i, numbers, o) == Err::<Shot, ShotError>(
            setting_at(args, j)->Err_0,
        ),
    decreases j - i,
{
    if i < j && i < args.len() {
        assert(setting_at(args, i) is Ok);
        let s = setting_at(args, i)->Ok_0;
        let used = numbers_in(s).len() as int;
        assert(numbers_from(args, i) == numbers_in(s) + numbers_from(args, i + 2));
        let rest = numbers.skip(used);
        assert forall|k: int| 0 <= k < rest.len() implies (#[trigger] rest[k]) is Some by {
            assert(rest[k] == numbers[used + k]);
        }
        assert(forall|k: int| 0 <= k < used ==> (#[trigger] numbers[k]) is Some);
        let o2 = with_setting(o, s, i, numbers)->Ok_0;
        assert(options_right(args, i + 2, j)) by {
            assert forall|p: int| i + 2 <= p < j && (p - (i + 2)) % 2 == 0 implies (
            #[trigger] setting_at(args, p) matches Ok(s) && (s matches Setting::Drop {
                material,
                ..
            } ==> material_id(material) is Some)) by {
                assert((p - i) % 2 == 0);
            }
        }
        lemma_right_options(args, i + 2, j, rest, o2);
    }
}

/// A command line whose options are all right in themselves, whose numbers all
/// read and whose drops name known materials is accepted.
pub proof fn law_right_command_lines_are_accepted(
    args: Seq<Seq<char>>,
    numbers: Seq<Option<Single>>,
    seed: u32,
)
    requires
        args.len() % 2 == 0,
        options_right(args, 0, args.len() as int),
        numbers.len() == numbers_from(args, 0).len(),
        forall|k: int| 0 <= k < numbers.len() ==> (#[trigger] numbers[k]) is Some,
    ensures
        shot_from(args, 0, numbers, default_shot(seed)) is Ok,
{
    lemma_right_options(args, 0, args.len() as int, numbers, default_shot(seed));
}

/// The first option that is wrong in itself is the one reported.
pub proof fn law_first_wrong_option_is_reported(
    args: Seq<Seq<char>>,
    j: int,
    numbers: Seq<Option<Single>>,
    seed: u32,
)
    requires
        0 <= j < args.len(),
        j % 2 == 0,
        options_right(args, 0, j),
        setting_at(args, j) is Err,
        numbers.len() == numbers_from(args, 0).len(),
        forall|k: int| 0 <= k < numbers.len() ==> (#[trigger] numbers[k]) is Some,
    ensures
        shot_from(args, 0, numbers, default_shot(seed)) == Err::<Shot, ShotError>(
            setting_at(args, j)->Err_0,
        ),
{
    lemma_right_options(args, 0, j, numbers, default_shot(seed));
}

} // verus!

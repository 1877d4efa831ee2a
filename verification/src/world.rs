//! World dimensions, cell packing, and terrain generation.

use vstd::prelude::*;
use crate::materials::Material;
use crate::single::Single;

verus! {

/// Which world to build.
#[derive(Copy, Clone, Debug, PartialEq, Eq, Structural)]
pub enum Scene {
    /// The real thing: terrain, caves, ore, flooded caverns.
    Terrain,
    /// A bare rig for judging the physics: a flat floor, a step, and a sealed
    /// vessel with known-good answers.
    Lab,
}

/// World size in cells.
///
/// At 4 bytes a cell this is 32 MB -- large enough that the whole thing does
/// not fit on screen at 1:1, small enough to stay comfortably inside the
/// default 128 MB storage-buffer binding limit.
pub const WIDTH: u32 = 4096;

pub const HEIGHT: u32 = 2048;

/// Simulation chunk edge, in cells. One compute workgroup covers one chunk:
/// 32x32 cells == 16x16 Margolus blocks == 256 threads.
pub const CHUNK: u32 = 32;

pub const CELL_COUNT: usize = 8_388_608;

/// Ambient temperature, Kelvin. Roughly 20 C.
pub const AMBIENT_K: u16 = 293;

/// Temperature of lava as it is placed, Kelvin.
pub const LAVA_K: u16 = 1500;

// --- cells -------------------------------------------------------------------

/// A cell holds its material in the low byte, its colour variant in the next
/// one and its temperature in the upper half.
pub open spec fn cell(material: u8, variant: u8, temperature: u16) -> u32 {
    (material + 0x100 * variant + 0x1_0000 * temperature) as u32
}

pub fn pack(material: u8, variant: u8, temperature: u16) -> (r: u32)
    ensures
        r == cell(material, variant, temperature),
{
    let m: u32 = material as u32;
    let v: u32 = variant as u32;
    let t: u32 = temperature as u32;
    assert(m | (v << 8) | (t << 16) == m + 0x100 * v + 0x1_0000 * t) by (bit_vector)
        requires
            m < 0x100,
            v < 0x100,
            t < 0x1_0000,
    ;
    m | (v << 8) | (t << 16)
}

/// Packing loses nothing: each field can be read back from its own bits, and
/// so no two different cells pack alike.
pub proof fn law_cell_fields(material: u8, variant: u8, temperature: u16)
    ensures
        cell(material, variant, temperature) & 0xFF == material,
        (cell(material, variant, temperature) >> 8) & 0xFF == variant,
        cell(material, variant, temperature) >> 16 == temperature,
{
    let m: u32 = material as u32;
    let v: u32 = variant as u32;
    let t: u32 = temperature as u32;
    let c: u32 = cell(material, variant, temperature);
    assert(c & 0xFF == m && (c >> 8) & 0xFF == v && c >> 16 == t) by (bit_vector)
        requires
            m < 0x100,
            v < 0x100,
            t < 0x1_0000,
            c == m + 0x100 * v + 0x1_0000 * t,
    ;
}

// --- lattice hash ------------------------------------------------------------

/// The 24 random bits of a lattice point.
pub open spec fn lattice_bits(x: i32, y: i32, seed: u32) -> u32 {
    let a = (x as u32).wrapping_mul(73_856_093) ^ (y as u32).wrapping_mul(19_349_663)
        ^ seed.wrapping_mul(83_492_791);
    let b = (a ^ (a >> 16)).wrapping_mul(0x7feb_352d);
    let c = (b ^ (b >> 15)).wrapping_mul(0x846c_a68b);
    (c ^ (c >> 16)) & 0x00FF_FFFF
}

/// The hash under the value noise, before it is scaled to 0..1: a number from
/// 0 to 0xFFFFFF.
pub fn hash(x: i32, y: i32, seed: u32) -> (r: u32)
    ensures
        r == lattice_bits(x, y, seed),
        r <= 0x00FF_FFFF,
{
    let mut h: u32 = (x as u32).wrapping_mul(73_856_093) ^ (y as u32).wrapping_mul(19_349_663)
        ^ seed.wrapping_mul(83_492_791);
    h = h ^ (h >> 16);
    h = h.wrapping_mul(0x7feb_352d);
    h = h ^ (h >> 15);
    h = h.wrapping_mul(0x846c_a68b);
    h = h ^ (h >> 16);
    assert(h & 0x00FF_FFFF <= 0x00FF_FFFF) by (bit_vector);
    h & 0x00FF_FFFF
}

/// The colour variant of a cell: the hash, scaled from 0..=0xFFFFFF down to
/// 0..=255 and rounded down.
pub open spec fn variant_at(x: int, y: int, seed: u32) -> u8 {
    (lattice_bits(x as i32, y as i32, seed ^ 0xABCD) * 255 / 0xFF_FFFF) as u8
}

fn variant(x: u32, y: u32, seed: u32) -> (r: u8)
    requires
        x <= i32::MAX,
        y <= i32::MAX,
    ensures
        r == variant_at(x as int, y as int, seed),
{
    let h: u32 = hash(x as i32, y as i32, seed ^ 0xABCD);
    assert(h * 255 / 0xFF_FFFF == h / 65_793);
    (h / 65_793) as u8
}

// --- generation --------------------------------------------------------------

pub const SEA_LEVEL: u32 = 640;

pub const BEDROCK_MARGIN: u32 = 3;

/// Floor height for [`Scene::Lab`].
pub const LAB_FLOOR: u32 = 1200;

// The lab's vessel: the inner faces of its two walls, and how thick they are.
pub const VESSEL_LEFT: u32 = 900;

pub const VESSEL_RIGHT: u32 = 1700;

pub const WALL: u32 = 8;

/// The indestructible shell around the world.
pub open spec fn on_border(x: int, y: int) -> bool {
    x < BEDROCK_MARGIN || x >= WIDTH - BEDROCK_MARGIN || y < BEDROCK_MARGIN || y >= HEIGHT
        - BEDROCK_MARGIN
}

fn is_border(x: u32, y: u32) -> (r: bool)
    ensures
        r == on_border(x as int, y as int),
{
    x < BEDROCK_MARGIN || x >= WIDTH - BEDROCK_MARGIN || y < BEDROCK_MARGIN || y >= HEIGHT
        - BEDROCK_MARGIN
}

/// The solid parts of the lab: the floor, a step for heaps to slump over, and
/// a vessel of two walls and a base, open at the top.
pub open spec fn lab_solid(x: int, y: int) -> bool {
    let floor = LAB_FLOOR as int;
    let step = 2600 <= x < 3200 && y >= floor - 120;
    let wall = VESSEL_LEFT - WALL <= x <= VESSEL_LEFT || VESSEL_RIGHT <= x <= VESSEL_RIGHT + WALL;
    let base = VESSEL_LEFT <= x <= VESSEL_RIGHT && y >= floor - WALL;
    let vessel = floor - 400 <= y < floor && (wall || base);
    y >= floor || step || vessel
}

pub open spec fn lab_material(x: int, y: int) -> u8 {
    if on_border(x, y) {
        Material::BEDROCK
    } else if lab_solid(x, y) {
        Material::STONE
    } else {
        Material::AIR
    }
}

/// The cell of the lab at column `x`, row `y`.
pub open spec fn lab_cell(x: int, y: int, seed: u32) -> u32 {
    cell(lab_material(x, y), variant_at(x, y, seed), AMBIENT_K)
}

/// Fills row `y` of the lab.
pub fn fill_row_lab(row: &mut [u32], y: u32, seed: u32)
    requires
        old(row)@.len() <= i32::MAX,
        y <= i32::MAX,
    ensures
        final(row)@ == Seq::new(old(row)@.len(), |x: int| lab_cell(x, y as int, seed)),
{
    let width: usize = row.len();
    let mut i: usize = 0;
    while i < width
        invariant
            i <= width,
            width <= i32::MAX,
            y <= i32::MAX,
            row@.len() == width,
            forall|k: int| 0 <= k < i ==> row@[k] == lab_cell(k, y as int, seed),
        decreases width - i,
    {
        let x: u32 = i as u32;

        // A step, so heaps have an edge to slump over.
        let step: bool = 2600 <= x && x < 3200 && y >= LAB_FLOOR - 120;

        // Sealed vessel: two walls and a base, open at the top.
        let in_vessel_span: bool = y >= LAB_FLOOR - 400 && y < LAB_FLOOR;
        let on_vessel_wall: bool = (VESSEL_LEFT - WALL <= x && x <= VESSEL_LEFT) || (VESSEL_RIGHT
            <= x && x <= VESSEL_RIGHT + WALL);
        let on_vessel_base: bool = VESSEL_LEFT <= x && x <= VESSEL_RIGHT && y >= LAB_FLOOR - WALL;
        let vessel: bool = in_vessel_span && (on_vessel_wall || on_vessel_base);

        let material: u8 = if is_border(x, y) {
            Material::BEDROCK
        } else if y >= LAB_FLOOR || step || vessel {
            Material::STONE
        } else {
            Material::AIR
        };

        row[i] = pack(material, variant(x, y, seed), AMBIENT_K);
        i += 1;
    }
    assert(row@ =~= Seq::new(width as nat, |x: int| lab_cell(x, y as int, seed)));
}

/// What the noise says about one cell of terrain.
#[derive(Copy, Clone, Debug, PartialEq, Eq, Structural)]
pub struct TerrainSample {
    /// Cells below the surface; negative above ground.
    pub depth: Single,
    /// Thickness of the soil.
    pub soil: Single,
    /// Where beaches and deserts lie.
    pub beach: Single,
    /// Distance of the surface from sea level.
    pub shore: Single,
    pub cave: Single,
    pub coal: Single,
    pub iron: Single,
    pub gravel: Single,
    pub lava: Single,
}

// Noise thresholds and depths, as the bits of the singles named on the right.
pub const BEACH_ABOVE: u32 = 0x3f14_7ae1;  // 0.58
pub const SHORE_WITHIN: u32 = 0x41d0_0000;  // 26.0
pub const CAVE_BELOW: u32 = 0x4160_0000;  // 14.0
pub const CAVE_ABOVE: u32 = 0x3f1d_70a4;  // 0.615
pub const COAL_BELOW: u32 = 0x4220_0000;  // 40.0
pub const COAL_ABOVE: u32 = 0x3f33_3333;  // 0.70
pub const IRON_BELOW: u32 = 0x4316_0000;  // 150.0
pub const IRON_ABOVE: u32 = 0x3f39_999a;  // 0.725
pub const GRAVEL_BELOW: u32 = 0x42b4_0000;  // 90.0
pub const GRAVEL_ABOVE: u32 = 0x3f3d_70a4;  // 0.74
pub const LAVA_ABOVE: u32 = 0x3f05_1eb8;  // 0.52

/// `noise > threshold`, the threshold given by its bits.
pub open spec fn over(noise: Single, threshold: u32) -> bool {
    noise.exceeds(Single { bits: threshold })
}

fn is_over(noise: Single, threshold: u32) -> (r: bool)
    ensures
        r == over(noise, threshold),
{
    noise.gt(Single { bits: threshold })
}

impl TerrainSample {
    pub open spec fn above_ground(self) -> bool {
        (Single { bits: 0 }).exceeds(self.depth)
    }

    pub open spec fn in_soil(self) -> bool {
        self.soil.exceeds(self.depth)
    }

    /// Sand instead of dirt where the surface noise says so, and always at the
    /// waterline.
    pub open spec fn sandy(self) -> bool {
        over(self.beach, BEACH_ABOVE) || (Single { bits: SHORE_WITHIN }).exceeds(self.shore)
    }

    /// The ground before anything is carved out of it or laid into it.
    pub open spec fn ground(self, y: int) -> u8 {
        if self.above_ground() {
            if y >= SEA_LEVEL {
                Material::WATER
            } else {
                Material::AIR
            }
        } else if self.in_soil() {
            if self.sandy() {
                Material::SAND
            } else {
                Material::DIRT
            }
        } else {
            Material::STONE
        }
    }

    pub open spec fn in_cave(self, y: int) -> bool {
        over(self.depth, CAVE_BELOW) && y < HEIGHT - 90 && over(self.cave, CAVE_ABOVE)
    }

    /// The ground with caves carved out, flooded well below sea level.
    pub open spec fn carved(self, y: int) -> u8 {
        if self.in_cave(y) {
            if y > SEA_LEVEL + 220 {
                Material::WATER
            } else {
                Material::AIR
            }
        } else {
            self.ground(y)
        }
    }

    /// What rock turns into: the first vein that reaches this cell.
    pub open spec fn rock(self) -> u8 {
        if over(self.coal, COAL_ABOVE) && over(self.depth, COAL_BELOW) {
            Material::COAL
        } else if over(self.iron, IRON_ABOVE) && over(self.depth, IRON_BELOW) {
            Material::IRON_ORE
        } else if over(self.gravel, GRAVEL_ABOVE) && over(self.depth, GRAVEL_BELOW) {
            Material::GRAVEL
        } else {
            Material::STONE
        }
    }

    pub open spec fn in_lava(self, y: int) -> bool {
        y > HEIGHT - 190 && over(self.lava, LAVA_ABOVE)
    }

    pub open spec fn material(self, y: int) -> u8 {
        if self.in_lava(y) {
            Material::LAVA
        } else if self.carved(y) == Material::STONE {
            self.rock()
        } else {
            self.carved(y)
        }
    }
}

/// Temperature of a freshly placed material.
pub open spec fn placed_temperature(material: u8) -> u16 {
    if material == Material::LAVA {
        LAVA_K
    } else {
        AMBIENT_K
    }
}

pub fn temperature_of(material: u8) -> (r: u16)
    ensures
        r == placed_temperature(material),
{
    if material == Material::LAVA {
        LAVA_K
    } else {
        AMBIENT_K
    }
}

pub open spec fn terrain_material(x: int, y: int, sample: TerrainSample) -> u8 {
    if on_border(x, y) {
        Material::BEDROCK
    } else {
        sample.material(y)
    }
}

/// The cell of the terrain at column `x`, row `y`, where the noise says
/// `sample`.
pub open spec fn terrain_cell(x: int, y: int, seed: u32, sample: TerrainSample) -> u32 {
    let material = terrain_material(x, y, sample);
    cell(material, variant_at(x, y, seed), placed_temperature(material))
}

/// Picks the material of a terrain cell inside the shell.
fn terrain_choice(y: u32, s: TerrainSample) -> (material: u8)
    ensures
        material == s.material(y as int),
{
    let mut material: u8 = if s.depth.lt(Single { bits: 0 }) {
        // Above ground: air, or sea water where the land dips below sea level.
        if y >= SEA_LEVEL {
            Material::WATER
        } else {
            Material::AIR
        }
    } else if s.depth.lt(s.soil) {
        // Soil grades into rock.
        if is_over(s.beach, BEACH_ABOVE) || s.shore.lt(Single { bits: SHORE_WITHIN }) {
            Material::SAND
        } else {
            Material::DIRT
        }
    } else {
        Material::STONE
    };

    // Caves. Carved only below the surface layer, and flooded well below sea
    // level -- which gives the underground water to work with without
    // hand-placing a single pool.
    if is_over(s.depth, CAVE_BELOW) && y < HEIGHT - 90 && is_over(s.cave, CAVE_ABOVE) {
        material = if y > SEA_LEVEL + 220 {
            Material::WATER
        } else {
            Material::AIR
        };
    }

    // Ore veins, only in rock. Coal is shallow and common, iron deeper and
    // scarcer.
    if material == Material::STONE {
        if is_over(s.coal, COAL_ABOVE) && is_over(s.depth, COAL_BELOW) {
            material = Material::COAL;
        } else if is_over(s.iron, IRON_ABOVE) && is_over(s.depth, IRON_BELOW) {
            material = Material::IRON_ORE;
        } else if is_over(s.gravel, GRAVEL_ABOVE) && is_over(s.depth, GRAVEL_BELOW) {
            material = Material::GRAVEL;
        }
    }

    // Deep lava, well below anything reachable by accident.
    if y > HEIGHT - 190 && is_over(s.lava, LAVA_ABOVE) {
        material = Material::LAVA;
    }
    material
}

/// Fills row `y` of the terrain from what the noise says about its cells.
pub fn fill_row(row: &mut [u32], y: u32, seed: u32, samples: &[TerrainSample])
    requires
        old(row)@.len() <= i32::MAX,
        old(row)@.len() == samples@.len(),
        y <= i32::MAX,
    ensures
        final(row)@ == Seq::new(
            old(row)@.len(),
            |x: int| terrain_cell(x, y as int, seed, samples@[x]),
        ),
{
    let width: usize = row.len();
    let mut i: usize = 0;
    while i < width
        invariant
            i <= width,
            width <= i32::MAX,
            y <= i32::MAX,
            row@.len() == width,
            samples@.len() == width,
            forall|k: int|
                0 <= k < i ==> row@[k] == terrain_cell(k, y as int, seed, samples@[k]),
        decreases width - i,
    {
        let x: u32 = i as u32;
        let v: u8 = variant(x, y, seed);
        // Indestructible shell, so nothing can ever leave the simulation.
        let material: u8 = if is_border(x, y) {
            Material::BEDROCK
        } else {
            terrain_choice(y, samples[i])
        };
        row[i] = pack(material, v, temperature_of(material));
        i += 1;
    }
    assert(row@ =~= Seq::new(
        width as nat,
        |x: int| terrain_cell(x, y as int, seed, samples@[x]),
    ));
}

/// The cell of a fresh world at index `i`: rows of [`WIDTH`] cells, top to
/// bottom. `samples` holds the noise for rows from `first_row` on and counts
/// for [`Scene::Terrain`] only.
pub open spec fn scene_cell(
    i: int,
    first_row: int,
    seed: u32,
    scene: Scene,
    samples: Seq<TerrainSample>,
) -> u32 {
    let x = i % (WIDTH as int);
    let y = first_row + i / (WIDTH as int);
    match scene {
        Scene::Terrain => terrain_cell(x, y, seed, samples[i]),
        Scene::Lab => lab_cell(x, y, seed),
    }
}

/// Builds `rows` rows of a world from `first_row` on. Bands of rows are
/// independent of each other, so they can be built in parallel.
pub fn generate_band(
    seed: u32,
    scene: Scene,
    first_row: u32,
    rows: u32,
    samples: &[TerrainSample],
) -> (cells: Vec<u32>)
    requires
        first_row + rows <= HEIGHT,
        scene == Scene::Terrain ==> samples@.len() == rows * WIDTH,
    ensures
        cells@ == Seq::new(
            (rows * WIDTH) as nat,
            |i: int| scene_cell(i, first_row as int, seed, scene, samples@),
        ),
{
    let width: usize = WIDTH as usize;
    let mut cells: Vec<u32> = Vec::new();
    let mut band_row: u32 = 0;
    while band_row < rows
        invariant
            band_row <= rows,
            width == WIDTH,
            first_row + rows <= HEIGHT,
            scene == Scene::Terrain ==> samples@.len() == rows * WIDTH,
            cells@ =~= Seq::new(
                (band_row * WIDTH) as nat,
                |i: int| scene_cell(i, first_row as int, seed, scene, samples@),
            ),
        decreases rows - band_row,
    {
        let y: u32 = first_row + band_row;
        let mut row: Vec<u32> = vec![0u32; width];
        let ghost before = cells@;
        match scene {
            Scene::Terrain => {
                let start: usize = band_row as usize * width;
                let here: &[TerrainSample] = vstd::slice::slice_subrange(
                    samples,
                    start,
                    start + width,
                );
                fill_row(row.as_mut_slice(), y, seed, here);
                assert(forall|x: int| 0 <= x < width ==> here@[x] == samples@[start + x]);
            },
            Scene::Lab => {
                fill_row_lab(row.as_mut_slice(), y, seed);
            },
        }
        assert forall|x: int| 0 <= x < width implies row@[x] == scene_cell(
            band_row * WIDTH + x,
            first_row as int,
            seed,
            scene,
            samples@,
        ) by {
            let i = band_row * WIDTH + x;
            assert(i % (WIDTH as int) == x && i / (WIDTH as int) == band_row);
        }
        cells.append(&mut row);
        assert forall|i: int| before.len() <= i < cells@.len() implies cells@[i] == scene_cell(
            i,
            first_row as int,
            seed,
            scene,
            samples@,
        ) by {
            let x = i - before.len();
            assert(i == band_row * WIDTH + x);
        }
        band_row += 1;
    }
    cells
}

/// Build a fresh world.
pub fn generate(seed: u32, scene: Scene, samples: &[TerrainSample]) -> (cells: Vec<u32>)
    requires
        scene == Scene::Terrain ==> samples@.len() == CELL_COUNT,
    ensures
        cells@ == Seq::new(
            CELL_COUNT as nat,
            |i: int| scene_cell(i, 0, seed, scene, samples@),
        ),
{
    generate_band(seed, scene, 0, HEIGHT, samples)
}

// --- what holds of every fresh world -----------------------------------------

/// A world has a cell for every column of every row, and no other.
pub proof fn law_world_is_a_grid(x: int, y: int)
    requires
        0 <= x < WIDTH,
        0 <= y < HEIGHT,
    ensures
        WIDTH * HEIGHT == CELL_COUNT,
        0 <= y * WIDTH + x < CELL_COUNT,
        (y * WIDTH + x) % (WIDTH as int) == x,
        (y * WIDTH + x) / (WIDTH as int) == y,
{
}

/// The lab's vessel is sealed: air inside, stone to the left, to the right and
/// below.
pub proof fn law_vessel_is_sealed(x: int, y: int)
    requires
        LAB_FLOOR - 400 <= y < LAB_FLOOR,
        VESSEL_LEFT <= x <= VESSEL_RIGHT,
    ensures
        lab_material(x, y) == (if VESSEL_LEFT < x < VESSEL_RIGHT && y < LAB_FLOOR - WALL {
            Material::AIR
        } else {
            Material::STONE
        }),
{
}

/// The lab's floor is flat: below it everything inside the shell is stone.
pub proof fn law_lab_floor_is_flat(x: int, y: int)
    requires
        !on_border(x, y),
        y >= LAB_FLOOR,
    ensures
        lab_material(x, y) == Material::STONE,
{
}

/// Nothing can leave the world: whatever the scene, the seed and the noise,
/// every cell of the outer three rows and columns is bedrock.
pub proof fn law_shell_is_bedrock(
    i: int,
    seed: u32,
    scene: Scene,
    samples: Seq<TerrainSample>,
)
    requires
        0 <= i < CELL_COUNT,
        on_border(i % (WIDTH as int), i / (WIDTH as int)),
    ensures
        scene_cell(i, 0, seed, scene, samples) & 0xFF == Material::BEDROCK,
{
    let x = i % (WIDTH as int);
    let y = i / (WIDTH as int);
    law_cell_fields(Material::BEDROCK, variant_at(x, y, seed), AMBIENT_K);
}

/// Every cell of a fresh world holds a material of the table, and is at the
/// temperature at which that material is placed.
pub proof fn law_fresh_cells_are_valid(
    i: int,
    seed: u32,
    scene: Scene,
    samples: Seq<TerrainSample>,
)
    requires
        0 <= i < CELL_COUNT,
    ensures
        ({
            let c = scene_cell(i, 0, seed, scene, samples);
            let material = (c & 0xFF) as u8;
            &&& material < crate::materials::MATERIAL_COUNT
            &&& c >> 16 == placed_temperature(material)
        }),
{
    let x = i % (WIDTH as int);
    let y = i / (WIDTH as int);
    let v = variant_at(x, y, seed);
    law_cell_fields(lab_material(x, y), v, AMBIENT_K);
    let material = terrain_material(x, y, samples[i]);
    law_cell_fields(material, v, placed_temperature(material));
}

/// Caves leave the surface intact: from the surface down to the depth at which
/// they begin, the ground is never air or water.
pub proof fn law_surface_stays_intact(x: int, y: int, sample: TerrainSample)
    requires
        !sample.above_ground(),
        !over(sample.depth, CAVE_BELOW),
    ensures
        terrain_material(x, y, sample) != Material::AIR,
        terrain_material(x, y, sample) != Material::WATER,
{
}

/// Ore lies in rock only, each kind below its own depth.
pub proof fn law_ore_lies_in_rock(x: int, y: int, sample: TerrainSample)
    ensures
        ({
            let material = terrain_material(x, y, sample);
            let vein = material == Material::COAL || material == Material::IRON_ORE || material
                == Material::GRAVEL;
            &&& vein ==> sample.ground(y) == Material::STONE && !sample.in_cave(y)
            &&& material == Material::COAL ==> over(sample.depth, COAL_BELOW)
            &&& material == Material::IRON_ORE ==> over(sample.depth, IRON_BELOW)
            &&& material == Material::GRAVEL ==> over(sample.depth, GRAVEL_BELOW)
        }),
{
}

/// Lava starts out in the deepest rows only.
pub proof fn law_lava_lies_deep(x: int, y: int, sample: TerrainSample)
    requires
        terrain_material(x, y, sample) == Material::LAVA,
    ensures
        y > HEIGHT - 190,
{
}

// --- what a cell becomes -----------------------------------------------------

/// Three cells deep all round, and nowhere else, a world is bedrock, in either
/// scene.
pub proof fn law_bedrock_is_the_shell(x: int, y: int, sample: TerrainSample)
    requires
        0 <= x < 4096,
        0 <= y < 2048,
    ensures
        terrain_material(x, y, sample) == 1 <==> (x < 3 || x >= 4093 || y < 3 || y >= 2045),
        lab_material(x, y) == 1 <==> (x < 3 || x >= 4093 || y < 3 || y >= 2045),
{
}

/// Lava fills the cells below row 1858 whose lava noise is over 0.52, whatever
/// else is there, and no others.
pub proof fn law_lava_follows_its_noise(x: int, y: int, sample: TerrainSample)
    requires
        3 <= x < 4093,
        3 <= y < 2045,
    ensures
        terrain_material(x, y, sample) == 13 <==> y > 1858 && sample.lava.exceeds(
            Single { bits: 0x3f05_1eb8 },
        ),
{
}

/// Above ground there is the sea and the sky: water from row 640 down to the sea
/// bed, air above, where no lava is.
pub proof fn law_sea_fills_up_to_its_level(x: int, y: int, sample: TerrainSample)
    requires
        3 <= x < 4093,
        3 <= y < 2045,
        (Single { bits: 0 }).exceeds(sample.depth),
        terrain_material(x, y, sample) != 13,
    ensures
        terrain_material(x, y, sample) == 8 <==> y >= 640,
        terrain_material(x, y, sample) == 0 <==> y < 640,
{
    lemma_nothing_deep_above_ground(sample);
}

/// Going down an open column, water is never followed by air.
pub proof fn law_sea_has_no_gaps(
    x: int,
    upper: int,
    lower: int,
    above: TerrainSample,
    below: TerrainSample,
)
    requires
        3 <= x < 4093,
        3 <= upper <= lower < 2045,
        (Single { bits: 0 }).exceeds(above.depth),
        (Single { bits: 0 }).exceeds(below.depth),
        terrain_material(x, upper, above) == 8,
    ensures
        terrain_material(x, lower, below) != 0,
{
    lemma_nothing_deep_above_ground(above);
    lemma_nothing_deep_above_ground(below);
}

/// A depth that is negative is over no depth at which something begins.
proof fn lemma_nothing_deep_above_ground(sample: TerrainSample)
    requires
        (Single { bits: 0 }).exceeds(sample.depth),
    ensures
        !over(sample.depth, CAVE_BELOW),
        !over(sample.depth, COAL_BELOW),
        !over(sample.depth, IRON_BELOW),
        !over(sample.depth, GRAVEL_BELOW),
{
    crate::single::lemma_magnitude_order(0, CAVE_BELOW as int);
    crate::single::lemma_magnitude_order(0, COAL_BELOW as int);
    crate::single::lemma_magnitude_order(0, IRON_BELOW as int);
    crate::single::lemma_magnitude_order(0, GRAVEL_BELOW as int);
}

/// Caves lie deeper than 14 cells and above row 1958, where the cave noise is
/// over 0.615. They hold water below row 860 and air down to it, where no lava
/// is.
pub proof fn law_caves_are_hollow(x: int, y: int, sample: TerrainSample)
    requires
        3 <= x < 4093,
        3 <= y < 1958,
        sample.depth.exceeds(Single { bits: 0x4160_0000 }),
        sample.cave.exceeds(Single { bits: 0x3f1d_70a4 }),
        terrain_material(x, y, sample) != 13,
    ensures
        terrain_material(x, y, sample) == 8 <==> y > 860,
        terrain_material(x, y, sample) == 0 <==> y <= 860,
{
}

/// Below ground it is hollow in caves only: elsewhere no cell is air or water.
pub proof fn law_ground_is_solid_outside_caves(x: int, y: int, sample: TerrainSample)
    requires
        0 <= x < 4096,
        0 <= y < 2048,
        !(Single { bits: 0 }).exceeds(sample.depth),
        !(sample.depth.exceeds(Single { bits: 0x4160_0000 }) && y < 1958 && sample.cave.exceeds(
            Single { bits: 0x3f1d_70a4 },
        )),
    ensures
        terrain_material(x, y, sample) != 0,
        terrain_material(x, y, sample) != 8,
{
}

/// In the soil, outside caves and lava, it is sand where the beach noise is over
/// 0.58 or sea level is within 26 cells of the surface, and dirt elsewhere.
/// Neither is found anywhere else.
pub proof fn law_soil_is_sand_or_dirt(x: int, y: int, sample: TerrainSample)
    requires
        3 <= x < 4093,
        3 <= y < 2045,
    ensures
        ({
            let material = terrain_material(x, y, sample);
            let soil = !(Single { bits: 0 }).exceeds(sample.depth) && sample.soil.exceeds(
                sample.depth,
            );
            let cave = sample.depth.exceeds(Single { bits: 0x4160_0000 }) && y < 1958
                && sample.cave.exceeds(Single { bits: 0x3f1d_70a4 });
            let sandy = sample.beach.exceeds(Single { bits: 0x3f14_7ae1 }) || (Single {
                bits: 0x41d0_0000,
            }).exceeds(sample.shore);
            &&& material == 4 <==> soil && !cave && material != 13 && sandy
            &&& material == 3 <==> soil && !cave && material != 13 && !sandy
        }),
{
}

/// Rock is what is left below the soil, outside caves and lava: coal deeper than
/// 40 cells where its noise is over 0.70, else iron ore deeper than 150 over
/// 0.725, else gravel deeper than 90 over 0.74, else stone. None of the four is
/// found anywhere else.
pub proof fn law_rock_holds_the_veins(x: int, y: int, sample: TerrainSample)
    requires
        3 <= x < 4093,
        3 <= y < 2045,
    ensures
        ({
            let material = terrain_material(x, y, sample);
            let d = sample.depth;
            let cave = d.exceeds(Single { bits: 0x4160_0000 }) && y < 1958 && sample.cave.exceeds(
                Single { bits: 0x3f1d_70a4 },
            );
            let rock = !(Single { bits: 0 }).exceeds(d) && !sample.soil.exceeds(d) && !cave
                && material != 13;
            let coal = d.exceeds(Single { bits: 0x4220_0000 }) && sample.coal.exceeds(
                Single { bits: 0x3f33_3333 },
            );
            let iron = d.exceeds(Single { bits: 0x4316_0000 }) && sample.iron.exceeds(
                Single { bits: 0x3f39_999a },
            );
            let gravel = d.exceeds(Single { bits: 0x42b4_0000 }) && sample.gravel.exceeds(
                Single { bits: 0x3f3d_70a4 },
            );
            &&& material == 6 <==> rock && coal
            &&& material == 7 <==> rock && !coal && iron
            &&& material == 5 <==> rock && !coal && !iron && gravel
            &&& material == 2 <==> rock && !coal && !iron && !gravel
        }),
{
}

/// Row in which the stone of a lab column starts: at the floor, 120 cells
/// higher on the step, 400 higher in the vessel's walls, 8 higher in its base.
pub open spec fn lab_top(x: int) -> int {
    if 892 <= x <= 900 || 1700 <= x <= 1708 {
        800
    } else if 900 < x < 1700 {
        1192
    } else if 2600 <= x < 3200 {
        1080
    } else {
        1200
    }
}

/// The lab has no overhangs: inside the shell a column is air down to where its
/// stone starts and stone from there on.
pub proof fn law_lab_columns_have_one_top(x: int, y: int)
    requires
        3 <= x < 4093,
        3 <= y < 2045,
    ensures
        lab_material(x, y) == 2 <==> y >= lab_top(x),
        lab_material(x, y) == 0 <==> y < lab_top(x),
{
}

/// The colour variant divides the range of the hash into 256 even steps, of
/// which the last is the top value alone.
pub proof fn law_variant_is_a_step_of_the_hash(x: int, y: int, seed: u32)
    requires
        0 <= x <= i32::MAX,
        0 <= y <= i32::MAX,
    ensures
        ({
            let h = lattice_bits(x as i32, y as i32, seed ^ 0xABCD);
            let v = variant_at(x, y, seed);
            &&& h <= 0xFF_FFFF
            &&& v * 0xFF_FFFF <= h * 255 < (v + 1) * 0xFF_FFFF
        }),
{
    lemma_hash_bound(x as i32, y as i32, seed ^ 0xABCD);
}

proof fn lemma_hash_bound(x: i32, y: i32, seed: u32)
    ensures
        lattice_bits(x, y, seed) <= 0xFF_FFFF,
{
    let a = (x as u32).wrapping_mul(73_856_093) ^ (y as u32).wrapping_mul(19_349_663)
        ^ seed.wrapping_mul(83_492_791);
    let b = (a ^ (a >> 16)).wrapping_mul(0x7feb_352d);
    let c = (b ^ (b >> 15)).wrapping_mul(0x846c_a68b);
    let d = c ^ (c >> 16);
    assert(d & 0x00FF_FFFF <= 0x00FF_FFFF) by (bit_vector);
}

/// The hash knows a point and a seed only by their three products folded into
/// one key: points and seeds with the same key have the same hash.
pub proof fn law_hash_goes_by_its_key(x: i32, y: i32, seed: u32, x2: i32, y2: i32, seed2: u32)
    requires
        (x as u32).wrapping_mul(73_856_093) ^ (y as u32).wrapping_mul(19_349_663)
            ^ seed.wrapping_mul(83_492_791) == (x2 as u32).wrapping_mul(73_856_093) ^ (
        y2 as u32).wrapping_mul(19_349_663) ^ seed2.wrapping_mul(83_492_791),
    ensures
        lattice_bits(x, y, seed) == lattice_bits(x2, y2, seed2),
{
}

/// The cell at column `x` of row `y` stands at `y * 4096 + x`. Its low byte is
/// the material there, the next one the variant, the upper half the temperature:
/// 1500 K for lava, 293 K for everything else.
pub proof fn law_cells_stand_row_by_row(
    x: int,
    y: int,
    seed: u32,
    scene: Scene,
    samples: Seq<TerrainSample>,
)
    requires
        0 <= x < 4096,
        0 <= y < 2048,
    ensures
        ({
            let c = scene_cell(y * 4096 + x, 0, seed, scene, samples);
            let material = match scene {
                Scene::Terrain => terrain_material(x, y, samples[y * 4096 + x]),
                Scene::Lab => lab_material(x, y),
            };
            &&& c & 0xFF == material
            &&& (c >> 8) & 0xFF == variant_at(x, y, seed)
            &&& c >> 16 == (if material == 13 {
                1500int
            } else {
                293
            })
        }),
{
    let i = y * 4096 + x;
    assert(i % 4096 == x && i / 4096 == y);
    let v = variant_at(x, y, seed);
    law_cell_fields(lab_material(x, y), v, AMBIENT_K);
    let material = terrain_material(x, y, samples[i]);
    law_cell_fields(material, v, placed_temperature(material));
}

/// A band of rows built on its own is that part of the whole world.
pub proof fn law_bands_make_up_the_world(
    i: int,
    first_row: int,
    seed: u32,
    scene: Scene,
    samples: Seq<TerrainSample>,
)
    requires
        0 <= i,
        0 <= first_row,
        first_row * 4096 + i < 4096 * 2048,
        scene == Scene::Terrain ==> samples.len() == 4096 * 2048,
    ensures
        scene_cell(i, first_row, seed, scene, samples.skip(first_row * 4096)) == scene_cell(
            first_row * 4096 + i,
            0,
            seed,
            scene,
            samples,
        ),
{
    let whole = first_row * 4096 + i;
    assert(whole % 4096 == i % 4096 && whole / 4096 == first_row + i / 4096);
    if scene == Scene::Terrain {
        assert(samples.skip(first_row * 4096)[i] == samples[whole]);
    }
}

} // verus!

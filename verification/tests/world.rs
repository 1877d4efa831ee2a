use swarf::materials::{Material, MATERIAL_COUNT};
use swarf::single::Single;
use swarf::world::{
    fill_row, fill_row_lab, generate, generate_band, hash, pack, temperature_of, Scene,
    TerrainSample, AMBIENT_K, BEACH_ABOVE, CAVE_ABOVE, CAVE_BELOW, CELL_COUNT, COAL_ABOVE,
    COAL_BELOW, GRAVEL_ABOVE, GRAVEL_BELOW, HEIGHT, IRON_ABOVE, IRON_BELOW, LAB_FLOOR,
    LAVA_ABOVE, LAVA_K, SEA_LEVEL, SHORE_WITHIN, WIDTH,
};

// --- a plain floating point rendition of the terrain --------------------------

fn hash_f(x: i32, y: i32, seed: u32) -> f32 {
    let mut h = (x as u32).wrapping_mul(73_856_093)
        ^ (y as u32).wrapping_mul(19_349_663)
        ^ seed.wrapping_mul(83_492_791);
    h ^= h >> 16;
    h = h.wrapping_mul(0x7feb_352d);
    h ^= h >> 15;
    h = h.wrapping_mul(0x846c_a68b);
    h ^= h >> 16;
    (h & 0x00FF_FFFF) as f32 / 16_777_215.0
}

fn value_noise(x: f32, y: f32, seed: u32) -> f32 {
    let (xi, yi) = (x.floor(), y.floor());
    let (xf, yf) = (x - xi, y - yi);
    let u = xf * xf * (3.0 - 2.0 * xf);
    let v = yf * yf * (3.0 - 2.0 * yf);
    let (x0, y0) = (xi as i32, yi as i32);
    let a = hash_f(x0, y0, seed);
    let b = hash_f(x0 + 1, y0, seed);
    let c = hash_f(x0, y0 + 1, seed);
    let d = hash_f(x0 + 1, y0 + 1, seed);
    (a * (1.0 - u) + b * u) * (1.0 - v) + (c * (1.0 - u) + d * u) * v
}

fn fbm(x: f32, y: f32, octaves: u32, seed: u32) -> f32 {
    let mut sum = 0.0;
    let mut amp = 0.5;
    let mut freq = 1.0;
    let mut norm = 0.0;
    for i in 0..octaves {
        sum += amp * value_noise(x * freq, y * freq, seed.wrapping_add(i * 17));
        norm += amp;
        amp *= 0.5;
        freq *= 2.0;
    }
    sum / norm
}

fn surface_at(xf: f32, seed: u32) -> f32 {
    380.0
        + fbm(xf / 420.0, 0.0, 5, seed) * 420.0
        + (fbm(xf / 70.0, 0.0, 3, seed ^ 0x55) - 0.5) * 26.0
}

fn terrain_row(y: u32, seed: u32) -> Vec<u32> {
    let yf = y as f32;
    let mut row = Vec::new();
    for x in 0..WIDTH {
        let xf = x as f32;
        let variant = (hash_f(x as i32, y as i32, seed ^ 0xABCD) * 255.0) as u8;
        if x < 3 || x >= 4093 || y < 3 || y >= 2045 {
            row.push(pack(1, variant, 293));
            continue;
        }
        let surface = surface_at(xf, seed);
        let depth = yf - surface;
        let mut material = if depth < 0.0 {
            if yf >= 640.0 { 8 } else { 0 }
        } else {
            let soil = 7.0 + fbm(xf / 130.0, 0.0, 3, seed ^ 0x77) * 20.0;
            if depth < soil {
                let sandy = fbm(xf / 260.0, 11.0, 3, seed ^ 0x99) > 0.58
                    || (surface - 640.0).abs() < 26.0;
                if sandy { 4 } else { 3 }
            } else {
                2
            }
        };
        if depth > 14.0 && yf < 2048.0 - 90.0 {
            let cave = fbm(xf / 95.0, yf / 95.0, 4, seed ^ 0x1234);
            if cave > 0.615 {
                material = if yf > 640.0 + 220.0 { 8 } else { 0 };
            }
        }
        if material == 2 {
            if fbm(xf / 44.0, yf / 30.0, 3, seed ^ 0x2222) > 0.70 && depth > 40.0 {
                material = 6;
            } else if fbm(xf / 36.0, yf / 26.0, 3, seed ^ 0x3333) > 0.725 && depth > 150.0 {
                material = 7;
            } else if fbm(xf / 90.0, yf / 60.0, 3, seed ^ 0x4444) > 0.74 && depth > 90.0 {
                material = 5;
            }
        }
        if yf > 2048.0 - 190.0 && fbm(xf / 120.0, yf / 70.0, 3, seed ^ 0x5555) > 0.52 {
            material = 13;
        }
        let temperature = if material == 13 { 1500 } else { 293 };
        row.push(pack(material, variant, temperature));
    }
    row
}

fn single(f: f32) -> Single {
    Single { bits: f.to_bits() }
}

fn samples(y: u32, seed: u32) -> Vec<TerrainSample> {
    let yf = y as f32;
    (0..WIDTH)
        .map(|x| {
            let xf = x as f32;
            let surface = surface_at(xf, seed);
            TerrainSample {
                depth: single(yf - surface),
                soil: single(7.0 + fbm(xf / 130.0, 0.0, 3, seed ^ 0x77) * 20.0),
                beach: single(fbm(xf / 260.0, 11.0, 3, seed ^ 0x99)),
                shore: single((surface - 640.0).abs()),
                cave: single(fbm(xf / 95.0, yf / 95.0, 4, seed ^ 0x1234)),
                coal: single(fbm(xf / 44.0, yf / 30.0, 3, seed ^ 0x2222)),
                iron: single(fbm(xf / 36.0, yf / 26.0, 3, seed ^ 0x3333)),
                gravel: single(fbm(xf / 90.0, yf / 60.0, 3, seed ^ 0x4444)),
                lava: single(fbm(xf / 120.0, yf / 70.0, 3, seed ^ 0x5555)),
            }
        })
        .collect()
}

fn sample_of(f: f32) -> TerrainSample {
    let s = single(f);
    TerrainSample {
        depth: s,
        soil: s,
        beach: s,
        shore: s,
        cave: s,
        coal: s,
        iron: s,
        gravel: s,
        lava: s,
    }
}

fn material_of(cell: u32) -> u8 {
    (cell & 0xFF) as u8
}

/// The material of one terrain cell away from the shell.
fn terrain_material(y: u32, s: TerrainSample) -> u8 {
    let mut row = vec![0u32; 11];
    fill_row(&mut row, y, 7, &vec![s; 11]);
    material_of(row[10])
}

// --- cells --------------------------------------------------------------------

#[test]
fn pack_layout() {
    assert_eq!(pack(0x12, 0x34, 0x5678), 0x5678_3412);
    assert_eq!(pack(0, 0, 0), 0);
    assert_eq!(pack(255, 255, 65_535), u32::MAX);
    assert_eq!(pack(4, 0, AMBIENT_K), 0x0125_0004);
}

#[test]
fn packed_fields_read_back() {
    let cell = pack(13, 200, LAVA_K);
    assert_eq!(cell & 0xFF, 13);
    assert_eq!((cell >> 8) & 0xFF, 200);
    assert_eq!(cell >> 16, 1500);
}

#[test]
fn hash_matches_the_scaled_hash() {
    for (x, y, seed) in [(0, 0, 0), (1, 0, 0), (-5, 17, 99), (4095, 2047, u32::MAX), (i32::MIN, i32::MAX, 1)] {
        assert_eq!(hash(x, y, seed) as f32 / 16_777_215.0, hash_f(x, y, seed));
    }
    assert_eq!(hash(0, 0, 0), 0);
}

#[test]
fn variant_is_the_scaled_hash_rounded_down() {
    for h in 0..=0x00FF_FFFFu32 {
        let scaled = (h as f32 / 16_777_215.0 * 255.0) as u8;
        assert_eq!(scaled as u32, h / 65_793);
    }
}

#[test]
fn lava_is_placed_hot() {
    assert_eq!(temperature_of(13), 1500);
    assert_eq!(temperature_of(12), 293);
    assert_eq!(temperature_of(255), 293);
}

#[test]
fn thresholds_are_the_numbers_they_stand_for() {
    assert_eq!(f32::from_bits(BEACH_ABOVE), 0.58);
    assert_eq!(f32::from_bits(SHORE_WITHIN), 26.0);
    assert_eq!(f32::from_bits(CAVE_BELOW), 14.0);
    assert_eq!(f32::from_bits(CAVE_ABOVE), 0.615);
    assert_eq!(f32::from_bits(COAL_BELOW), 40.0);
    assert_eq!(f32::from_bits(COAL_ABOVE), 0.70);
    assert_eq!(f32::from_bits(IRON_BELOW), 150.0);
    assert_eq!(f32::from_bits(IRON_ABOVE), 0.725);
    assert_eq!(f32::from_bits(GRAVEL_BELOW), 90.0);
    assert_eq!(f32::from_bits(GRAVEL_ABOVE), 0.74);
    assert_eq!(f32::from_bits(LAVA_ABOVE), 0.52);
    assert_eq!(SEA_LEVEL, 640);
}

// --- the lab ------------------------------------------------------------------

fn lab_material(x: usize, y: u32) -> u8 {
    let mut row = vec![0u32; WIDTH as usize];
    fill_row_lab(&mut row, y, 1);
    material_of(row[x])
}

#[test]
fn lab_has_a_floor_a_step_and_a_vessel() {
    assert_eq!(LAB_FLOOR, 1200);
    // Air above the floor, stone from it on.
    assert_eq!(lab_material(2100, 1199), Material::AIR);
    assert_eq!(lab_material(2100, 1200), Material::STONE);
    // The step.
    assert_eq!(lab_material(2600, 1080), Material::STONE);
    assert_eq!(lab_material(2600, 1079), Material::AIR);
    assert_eq!(lab_material(2599, 1080), Material::AIR);
    assert_eq!(lab_material(3199, 1080), Material::STONE);
    assert_eq!(lab_material(3200, 1080), Material::AIR);
    // The vessel's walls.
    for x in [892, 900, 1700, 1708] {
        assert_eq!(lab_material(x, 800), Material::STONE);
        assert_eq!(lab_material(x, 1199), Material::STONE);
        assert_eq!(lab_material(x, 799), Material::AIR);
    }
    for x in [891, 901, 1699, 1709] {
        assert_eq!(lab_material(x, 800), Material::AIR);
    }
    // Its base.
    assert_eq!(lab_material(1300, 1192), Material::STONE);
    assert_eq!(lab_material(1300, 1191), Material::AIR);
}

#[test]
fn lab_rows_carry_variant_and_ambient_temperature() {
    let mut row = vec![0u32; WIDTH as usize];
    fill_row_lab(&mut row, 1000, 42);
    for (x, cell) in row.iter().enumerate() {
        let variant = (hash_f(x as i32, 1000, 42 ^ 0xABCD) * 255.0) as u8;
        assert_eq!((cell >> 8) & 0xFF, variant as u32);
        assert_eq!(cell >> 16, AMBIENT_K as u32);
    }
}

#[test]
fn generated_lab_is_the_rows_of_the_lab() {
    let cells = generate(5, Scene::Lab, &[]);
    assert_eq!(cells.len(), CELL_COUNT);
    for y in [0, 2, 3, 799, 800, 1191, 1200, 2044, 2045, 2047] {
        let mut row = vec![0u32; WIDTH as usize];
        fill_row_lab(&mut row, y, 5);
        let start = (y * WIDTH) as usize;
        assert_eq!(&cells[start..start + WIDTH as usize], &row[..]);
    }
}

#[test]
fn generated_lab_has_a_bedrock_shell_and_valid_cells() {
    let cells = generate(3, Scene::Lab, &[]);
    for (i, cell) in cells.iter().enumerate() {
        let (x, y) = (i as u32 % WIDTH, i as u32 / WIDTH);
        let border = x < 3 || x >= WIDTH - 3 || y < 3 || y >= HEIGHT - 3;
        assert_eq!(material_of(*cell) == Material::BEDROCK, border);
        assert!((material_of(*cell) as usize) < MATERIAL_COUNT);
        assert_eq!(cell >> 16, temperature_of(material_of(*cell)) as u32);
    }
}

// --- terrain ------------------------------------------------------------------

#[test]
fn terrain_rows_match_floating_point_rules() {
    for seed in [1, 0xDEAD_BEEF] {
        for y in [0, 2, 3, 400, 560, 640, 660, 861, 1000, 1400, 1858, 1859, 1958, 2000, 2044, 2047] {
            let mut row = vec![0u32; WIDTH as usize];
            fill_row(&mut row, y, seed, &samples(y, seed));
            assert_eq!(row, terrain_row(y, seed), "row {y} of seed {seed}");
        }
    }
}

#[test]
fn terrain_band_matches_floating_point_rules() {
    let seed = 77;
    let noise: Vec<TerrainSample> = (600..604).flat_map(|y| samples(y, seed)).collect();
    let cells = generate_band(seed, Scene::Terrain, 600, 4, &noise);
    let expected: Vec<u32> = (600..604).flat_map(|y| terrain_row(y, seed)).collect();
    assert_eq!(cells, expected);
}

#[test]
fn ground_is_chosen_by_depth() {
    // Above ground.
    let air = sample_of(-1.0);
    assert_eq!(terrain_material(639, air), Material::AIR);
    assert_eq!(terrain_material(640, air), Material::WATER);
    // Soil: dirt, or sand by noise or by the shore.
    let mut soil = sample_of(0.0);
    soil.soil = single(10.0);
    soil.shore = single(26.0);
    assert_eq!(terrain_material(500, soil), Material::DIRT);
    soil.shore = single(25.9);
    assert_eq!(terrain_material(500, soil), Material::SAND);
    soil.shore = single(26.0);
    soil.beach = single(0.581);
    assert_eq!(terrain_material(500, soil), Material::SAND);
    // Rock.
    let rock = sample_of(0.0);
    assert_eq!(terrain_material(500, rock), Material::STONE);
}

#[test]
fn caves_start_below_the_surface_layer() {
    let mut s = sample_of(0.0);
    s.cave = single(0.62);
    s.depth = single(14.0);
    assert_eq!(terrain_material(700, s), Material::STONE);
    s.depth = single(14.1);
    assert_eq!(terrain_material(700, s), Material::AIR);
    assert_eq!(terrain_material(860, s), Material::AIR);
    assert_eq!(terrain_material(861, s), Material::WATER);
    assert_eq!(terrain_material(1957, s), Material::WATER);
    assert_eq!(terrain_material(1958, s), Material::STONE);
    s.cave = single(0.615);
    assert_eq!(terrain_material(700, s), Material::STONE);
}

#[test]
fn ore_lies_below_its_depth() {
    let mut s = sample_of(0.0);
    s.coal = single(0.71);
    s.depth = single(40.0);
    assert_eq!(terrain_material(900, s), Material::STONE);
    s.depth = single(41.0);
    assert_eq!(terrain_material(900, s), Material::COAL);
    s.coal = single(0.0);
    s.iron = single(0.73);
    s.depth = single(150.0);
    assert_eq!(terrain_material(900, s), Material::STONE);
    s.depth = single(151.0);
    assert_eq!(terrain_material(900, s), Material::IRON_ORE);
    s.iron = single(0.0);
    s.gravel = single(0.75);
    s.depth = single(90.0);
    assert_eq!(terrain_material(900, s), Material::STONE);
    s.depth = single(91.0);
    assert_eq!(terrain_material(900, s), Material::GRAVEL);
    // Coal comes first.
    s.depth = single(200.0);
    s.coal = single(0.9);
    s.iron = single(0.9);
    assert_eq!(terrain_material(900, s), Material::COAL);
}

#[test]
fn lava_lies_deep_and_replaces_everything() {
    let mut s = sample_of(-5.0);
    s.lava = single(0.53);
    assert_eq!(terrain_material(1858, s), Material::WATER);
    assert_eq!(terrain_material(1859, s), Material::LAVA);
    s.lava = single(0.52);
    assert_eq!(terrain_material(1859, s), Material::WATER);
}

#[test]
fn noise_that_is_not_a_number_is_below_every_threshold() {
    assert_eq!(terrain_material(1900, sample_of(f32::NAN)), Material::STONE);
}

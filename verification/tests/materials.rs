use swarf::materials::{
    material, name, parse_material, upload_table, GpuMaterial, Kind, Material, AIR_DENSITY,
    HOTBAR, MATERIALS, MATERIAL_COUNT,
};

#[test]
fn names_by_id() {
    assert_eq!(name(0), "Air");
    assert_eq!(name(1), "Bedrock");
    assert_eq!(name(7), "Iron ore");
    assert_eq!(name(15), "Wood");
    assert_eq!(name(16), "?");
    assert_eq!(name(255), "?");
}

#[test]
fn ids_match_their_rows() {
    for (id, text) in [
        (Material::AIR, "Air"),
        (Material::BEDROCK, "Bedrock"),
        (Material::STONE, "Stone"),
        (Material::DIRT, "Dirt"),
        (Material::SAND, "Sand"),
        (Material::GRAVEL, "Gravel"),
        (Material::COAL, "Coal"),
        (Material::IRON_ORE, "Iron ore"),
        (Material::WATER, "Water"),
        (Material::LAVA, "Lava"),
    ] {
        assert_eq!(name(id), text);
    }
    assert_eq!(MATERIALS.len(), MATERIAL_COUNT);
}

#[test]
fn rows_by_field() {
    let lava = material(13).unwrap();
    assert_eq!(lava.name, "Lava");
    assert_eq!(lava.kind, Kind::Fluid);
    assert_eq!(lava.density, 205);
    assert_eq!(lava.rgb, 0xe8431a);
    assert_eq!(lava.emissive, 45);
    assert_eq!(lava.variance, 22);
    assert_eq!(lava.mobility, 45);
    assert!(material(16).is_none());
}

#[test]
fn hundredths_are_exact_as_singles() {
    let written: [(usize, f32, f32, f32); 16] = [
        (0, 0.0, 0.15, 1.00),
        (1, 0.0, 0.25, 0.00),
        (2, 0.0, 0.30, 0.00),
        (3, 0.0, 0.35, 0.70),
        (4, 0.0, 0.22, 0.78),
        (5, 0.0, 0.40, 0.68),
        (6, 0.0, 0.45, 0.74),
        (7, 0.0, 0.40, 0.72),
        (8, 0.0, 0.12, 0.92),
        (9, 0.0, 0.20, 0.80),
        (10, 0.0, 0.25, 0.90),
        (11, 0.0, 0.35, 0.85),
        (12, 0.55, 0.18, 0.62),
        (13, 0.45, 0.22, 0.45),
        (14, 0.0, 0.18, 0.00),
        (15, 0.0, 0.30, 0.00),
    ];
    for (id, emissive, variance, mobility) in written {
        let row = &MATERIALS[id];
        assert_eq!(row.4 as f32 / 100.0, emissive);
        assert_eq!(row.5 as f32 / 100.0, variance);
        assert_eq!(row.6 as f32 / 100.0, mobility);
    }
}

#[test]
fn gases_are_lighter_than_air() {
    for id in [10, 11] {
        assert!(material(id).unwrap().density < AIR_DENSITY);
    }
    assert_eq!(material(Material::AIR).unwrap().density, AIR_DENSITY);
}

#[test]
fn upload_table_is_full() {
    let table = upload_table();
    assert_eq!(table.len(), 256);
    assert_eq!(
        table[4],
        GpuMaterial {
            red: 0xd4,
            green: 0xa9,
            blue: 0x5e,
            emissive: 0,
            density: 150,
            kind: 1,
            variance: 22,
            mobility: 78,
        }
    );
    assert_eq!(table[1].kind, 0);
    assert_eq!(table[8].kind, 2);
    for row in &table[16..] {
        assert_eq!(
            *row,
            GpuMaterial {
                red: 0,
                green: 0,
                blue: 0,
                emissive: 0,
                density: 10,
                kind: 0,
                variance: 0,
                mobility: 0,
            }
        );
    }
}

#[test]
fn kinds_have_numbers() {
    assert_eq!(Kind::Static.code(), 0);
    assert_eq!(Kind::Powder.code(), 1);
    assert_eq!(Kind::Fluid.code(), 2);
}

#[test]
fn static_rows_are_the_ones_that_do_not_move() {
    for row in &MATERIALS {
        assert_eq!(row.6 == 0, row.1 == Kind::Static);
        assert!(row.6 <= 100);
    }
}

#[test]
fn hotbar_is_in_the_table() {
    assert_eq!(HOTBAR, [4, 8, 2, 3, 5, 6, 7, 9, 13, 0]);
    for id in HOTBAR {
        assert!((id as usize) < MATERIAL_COUNT);
    }
}

#[test]
fn materials_are_found_by_name() {
    for id in 0..16u8 {
        assert_eq!(parse_material(name(id)), Some(id));
        assert_eq!(parse_material(&name(id).to_uppercase()), Some(id));
        assert_eq!(parse_material(&name(id).to_lowercase()), Some(id));
    }
    assert_eq!(parse_material("mOLTEN iRON"), Some(12));
    assert_eq!(parse_material("iron"), Some(14));
}

#[test]
fn materials_are_found_by_index() {
    assert_eq!(parse_material("0"), Some(0));
    assert_eq!(parse_material("13"), Some(13));
    assert_eq!(parse_material("+8"), Some(8));
    assert_eq!(parse_material("255"), Some(255));
}

#[test]
fn unknown_materials_are_refused() {
    for text in ["", "256", "-1", "sandy", "sand ", "plutonium", "iron  ore", "?"] {
        assert_eq!(parse_material(text), None, "{text:?}");
    }
}

//! The material table.
//!
//! Everything the simulation knows about a substance lives here as plain data.
//! No rule special-cases a material by name: behaviour falls out of `kind` and
//! `density` alone, so adding a new substance is a matter of adding a row.

use vstd::prelude::*;
use crate::text::{parse_u8, same_text_but_case};
#[allow(unused_imports)]
use crate::text::{folded, same_but_case, unsigned_text};

verus! {

/// Movement class.
#[derive(Copy, Clone, Debug, PartialEq, Eq, Structural)]
pub enum Kind {
    /// Never moves. Bedrock, machine housings, structural metal.
    Static,
    /// Falls and slumps diagonally, so it heaps up at an angle of repose.
    Powder,
    /// Falls, slumps, and spreads sideways when something is pressing on it.
    Fluid,
}

/// The number by which the shaders know a movement class.
pub open spec fn kind_number(kind: Kind) -> u32 {
    match kind {
        Kind::Static => 0,
        Kind::Powder => 1,
        Kind::Fluid => 2,
    }
}

impl Kind {
    pub fn code(self) -> (r: u32)
        ensures
            r == kind_number(self),
    {
        match self {
            Kind::Static => 0,
            Kind::Powder => 1,
            Kind::Fluid => 2,
        }
    }
}

/// Density of the ambient medium. Anything lighter rises, anything heavier
/// sinks, and gases need no special case at all.
pub const AIR_DENSITY: u32 = 10;

pub const MATERIAL_COUNT: usize = 16;

/// The table: name, movement class, density, base colour as sRGB hex, and then
/// emissive strength, brightness variance and mobility, all three in
/// hundredths.
///
/// The index of a row is the material id stored in the low byte of every cell,
/// so **order is load-bearing** -- append, never reorder.
pub const MATERIALS: [(&'static str, Kind, u32, u32, u32, u32, u32); 16] = [
    ("Air",         Kind::Fluid,  AIR_DENSITY, 0x0d1014, 0,  15, 100),
    ("Bedrock",     Kind::Static, 4000,        0x1a1c22, 0,  25, 0),
    ("Stone",       Kind::Static, 250,         0x5f646e, 0,  30, 0),
    ("Dirt",        Kind::Powder, 160,         0x4a3728, 0,  35, 70),
    ("Sand",        Kind::Powder, 150,         0xd4a95e, 0,  22, 78),
    ("Gravel",      Kind::Powder, 175,         0x7c8088, 0,  40, 68),
    ("Coal",        Kind::Powder, 140,         0x24262c, 0,  45, 74),
    ("Iron ore",    Kind::Powder, 185,         0x8a6a52, 0,  40, 72),
    ("Water",       Kind::Fluid,  100,         0x2b6cb0, 0,  12, 92),
    ("Oil",         Kind::Fluid,  80,          0x231a12, 0,  20, 80),
    ("Steam",       Kind::Fluid,  4,           0xa8b8c4, 0,  25, 90),
    ("Smoke",       Kind::Fluid,  6,           0x2e3138, 0,  35, 85),
    ("Molten iron", Kind::Fluid,  190,         0xff7a24, 55, 18, 62),
    ("Lava",        Kind::Fluid,  205,         0xe8431a, 45, 22, 45),
    ("Iron",        Kind::Static, 210,         0x9aa4b0, 0,  18, 0),
    ("Wood",        Kind::Static, 155,         0x6b4a2c, 0,  30, 0),
];

/// Keys 1-9 then 0.
pub const HOTBAR: [u8; 10] = [4, 8, 2, 3, 5, 6, 7, 9, 13, 0];

/// One row of the table, by field.
#[derive(Copy, Clone, Debug)]
pub struct Material {
    pub name: &'static str,
    pub kind: Kind,
    pub density: u32,
    /// Base colour as sRGB hex, the way a colour picker reports it.
    pub rgb: u32,
    /// Hundredths.
    pub emissive: u32,
    /// Hundredths.
    pub variance: u32,
    /// Probability per tick of taking the downward step, in hundredths.
    ///
    /// At 100 every cell in a falling mass tries to move on exactly the same
    /// tick, and the mass falls as a barcode of alternating full and empty
    /// rows. Below it the gaps open at irregular heights and the stream reads
    /// as scattered grains. It doubles as a viscosity knob: lava oozes, water
    /// runs.
    pub mobility: u32,
}

impl Material {
    pub const AIR: u8 = 0;

    pub const BEDROCK: u8 = 1;

    pub const STONE: u8 = 2;

    pub const DIRT: u8 = 3;

    pub const SAND: u8 = 4;

    pub const GRAVEL: u8 = 5;

    pub const COAL: u8 = 6;

    pub const IRON_ORE: u8 = 7;

    pub const WATER: u8 = 8;

    pub const LAVA: u8 = 13;
}

/// Row `id` of the table.
pub open spec fn material_row(id: int) -> Material {
    Material {
        name: MATERIALS[id].0,
        kind: MATERIALS[id].1,
        density: MATERIALS[id].2,
        rgb: MATERIALS[id].3,
        emissive: MATERIALS[id].4,
        variance: MATERIALS[id].5,
        mobility: MATERIALS[id].6,
    }
}

/// The material with this id, if the table has one.
pub fn material(id: u8) -> (r: Option<Material>)
    ensures
        r == (if (id as int) < MATERIAL_COUNT { Some(material_row(id as int)) } else { None }),
{
    let i: usize = id as usize;
    if i < MATERIAL_COUNT {
        let row = MATERIALS[i];
        Some(
            Material {
                name: row.0,
                kind: row.1,
                density: row.2,
                rgb: row.3,
                emissive: row.4,
                variance: row.5,
                mobility: row.6,
            },
        )
    } else {
        None
    }
}

/// The name of a material id; `?` for one that the table does not have.
pub open spec fn material_name(id: u8) -> Seq<char> {
    if (id as int) < MATERIAL_COUNT {
        material_row(id as int).name@
    } else {
        "?"@
    }
}

pub fn name(id: u8) -> (r: &'static str)
    ensures
        r@ == material_name(id),
{
    match material(id) {
        Some(m) => m.name,
        None => "?",
    }
}

// --- upload ------------------------------------------------------------------

/// GPU-side material record. The colour is still in sRGB bytes, the three
/// fractions still in hundredths.
#[derive(Copy, Clone, Debug, PartialEq, Eq, Structural)]
pub struct GpuMaterial {
    pub red: u8,
    pub green: u8,
    pub blue: u8,
    pub emissive: u32,
    pub density: u32,
    pub kind: u32,
    /// How much per-cell brightness jitter to apply when drawing.
    pub variance: u32,
    /// Chance per tick that this material takes its gravity step.
    pub mobility: u32,
}

/// What the shaders see for material `id`: its row, or an inert black one.
pub open spec fn gpu_row(id: int) -> GpuMaterial {
    if 0 <= id < MATERIAL_COUNT {
        let m = material_row(id);
        GpuMaterial {
            red: (m.rgb / 0x1_0000 % 0x100) as u8,
            green: (m.rgb / 0x100 % 0x100) as u8,
            blue: (m.rgb % 0x100) as u8,
            emissive: m.emissive,
            density: m.density,
            kind: kind_number(m.kind),
            variance: m.variance,
            mobility: m.mobility,
        }
    } else {
        GpuMaterial {
            red: 0,
            green: 0,
            blue: 0,
            emissive: 0,
            density: AIR_DENSITY,
            kind: kind_number(Kind::Static),
            variance: 0,
            mobility: 0,
        }
    }
}

/// Flatten the table into the buffer the shaders bind.
///
/// Always emits a full 256 entries. A corrupt or out-of-range material id then
/// reads a defined (inert, black) row instead of running off the end of the
/// buffer.
pub fn upload_table() -> (table: Vec<GpuMaterial>)
    ensures
        table@ == Seq::new(256, |id: int| gpu_row(id)),
{
    let mut table: Vec<GpuMaterial> = Vec::new();
    let mut id: usize = 0;
    while id < 256
        invariant
            id <= 256,
            table@ =~= Seq::new(id as nat, |k: int| gpu_row(k)),
        decreases 256 - id,
    {
        let row: GpuMaterial = match material(id as u8) {
            Some(m) => {
                let rgb: u32 = m.rgb;
                let red: u8 = (rgb / 0x1_0000 % 0x100) as u8;
                let green: u8 = (rgb / 0x100 % 0x100) as u8;
                let blue: u8 = (rgb % 0x100) as u8;
                GpuMaterial {
                    red,
                    green,
                    blue,
                    emissive: m.emissive,
                    density: m.density,
                    kind: m.kind.code(),
                    variance: m.variance,
                    mobility: m.mobility,
                }
            },
            None => GpuMaterial {
                red: 0,
                green: 0,
                blue: 0,
                emissive: 0,
                density: AIR_DENSITY,
                kind: Kind::Static.code(),
                variance: 0,
                mobility: 0,
            },
        };
        table.push(row);
        id += 1;
    }
    table
}

// --- looking a material up ---------------------------------------------------

/// The first row from `from` on whose name is `s`, whatever the case.
pub open spec fn name_index(s: Seq<char>, from: int) -> Option<int>
    decreases MATERIAL_COUNT - from,
{
    if from < 0 || from >= MATERIAL_COUNT {
        None
    } else if same_but_case(material_row(from).name@, s) {
        Some(from)
    } else {
        name_index(s, from + 1)
    }
}

/// The material a text stands for: an index, or else a name.
pub open spec fn material_id(s: Seq<char>) -> Option<int> {
    match unsigned_text(s, u8::MAX as int) {
        Some(id) => Some(id),
        None => name_index(s, 0),
    }
}

/// Accept either a material index or a (case-insensitive) name. An index need
/// not be in the table.
pub fn parse_material(spec_text: &str) -> (r: Option<u8>)
    ensures
        match material_id(spec_text@) {
            Some(id) => r is Some && r->0 == id,
            None => r is None,
        },
{
    match parse_u8(spec_text) {
        Some(id) => {
            return Some(id);
        },
        None => {},
    }
    let mut id: u8 = 0;
    while (id as usize) < MATERIAL_COUNT
        invariant
            id <= MATERIAL_COUNT,
            name_index(spec_text@, 0) == name_index(spec_text@, id as int),
            unsigned_text(spec_text@, u8::MAX as int) is None,
        decreases MATERIAL_COUNT - id,
    {
        if same_text_but_case(name(id), spec_text) {
            return Some(id);
        }
        id += 1;
    }
    None
}

/// Ids past the end of the table read as a row that is black, does not glow
/// and never moves.
pub proof fn law_unknown_ids_are_inert(id: int)
    requires
        MATERIAL_COUNT <= id < 256,
    ensures
        gpu_row(id).kind == kind_number(Kind::Static),
        gpu_row(id).mobility == 0,
        gpu_row(id).red == 0 && gpu_row(id).green == 0 && gpu_row(id).blue == 0,
        gpu_row(id).emissive == 0,
        gpu_row(id).density == AIR_DENSITY,
{
}

/// Air's row carries the density that the rise and sink test compares with.
pub proof fn law_air_is_the_medium()
    ensures
        gpu_row(Material::AIR as int).density == AIR_DENSITY,
        gpu_row(Material::AIR as int).kind == kind_number(Kind::Fluid),
{
}

/// Exactly the static materials never take a gravity step, and mobility is a
/// fraction of one.
pub proof fn law_mobility_follows_kind(id: int)
    requires
        0 <= id < MATERIAL_COUNT,
    ensures
        material_row(id).mobility == 0 <==> material_row(id).kind == Kind::Static,
        material_row(id).mobility <= 100,
        material_row(id).mobility == 100 ==> id == Material::AIR,
{
}

/// Every hotbar slot holds a material of the table.
pub proof fn law_hotbar_is_in_the_table(slot: int)
    requires
        0 <= slot < 10,
    ensures
        HOTBAR[slot] < MATERIAL_COUNT,
{
}

/// Length and first three letters, lowered: enough to tell the names apart.
spec fn short_key(s: Seq<char>) -> (nat, u32, u32, u32) {
    (s.len(), folded(s[0]), folded(s[1]), folded(s[2]))
}

proof fn lemma_name_keys()
    ensures
        forall|i: int, j: int|
            0 <= i < MATERIAL_COUNT && 0 <= j < MATERIAL_COUNT && i != j ==> short_key(
                #[trigger] material_row(i).name@,
            ) != short_key(#[trigger] material_row(j).name@),
        forall|i: int|
            0 <= i < MATERIAL_COUNT ==> (#[trigger] material_row(i).name@).len() >= 3 && folded(
                material_row(i).name@[0],
            ) >= 'a' as u32,
{
    reveal_strlit("Air");
    reveal_strlit("Bedrock");
    reveal_strlit("Stone");
    reveal_strlit("Dirt");
    reveal_strlit("Sand");
    reveal_strlit("Gravel");
    reveal_strlit("Coal");
    reveal_strlit("Iron ore");
    reveal_strlit("Water");
    reveal_strlit("Oil");
    reveal_strlit("Steam");
    reveal_strlit("Smoke");
    reveal_strlit("Molten iron");
    reveal_strlit("Lava");
    reveal_strlit("Iron");
    reveal_strlit("Wood");
    assert(short_key(material_row(0).name@) == (3nat, 'a' as u32, 'i' as u32, 'r' as u32));
    assert(short_key(material_row(1).name@) == (7nat, 'b' as u32, 'e' as u32, 'd' as u32));
    assert(short_key(material_row(2).name@) == (5nat, 's' as u32, 't' as u32, 'o' as u32));
    assert(short_key(material_row(3).name@) == (4nat, 'd' as u32, 'i' as u32, 'r' as u32));
    assert(short_key(material_row(4).name@) == (4nat, 's' as u32, 'a' as u32, 'n' as u32));
    assert(short_key(material_row(5).name@) == (6nat, 'g' as u32, 'r' as u32, 'a' as u32));
    assert(short_key(material_row(6).name@) == (4nat, 'c' as u32, 'o' as u32, 'a' as u32));
    assert(short_key(material_row(7).name@) == (8nat, 'i' as u32, 'r' as u32, 'o' as u32));
    assert(short_key(material_row(8).name@) == (5nat, 'w' as u32, 'a' as u32, 't' as u32));
    assert(short_key(material_row(9).name@) == (3nat, 'o' as u32, 'i' as u32, 'l' as u32));
    assert(short_key(material_row(10).name@) == (5nat, 's' as u32, 't' as u32, 'e' as u32));
    assert(short_key(material_row(11).name@) == (5nat, 's' as u32, 'm' as u32, 'o' as u32));
    assert(short_key(material_row(12).name@) == (11nat, 'm' as u32, 'o' as u32, 'l' as u32));
    assert(short_key(material_row(13).name@) == (4nat, 'l' as u32, 'a' as u32, 'v' as u32));
    assert(short_key(material_row(14).name@) == (4nat, 'i' as u32, 'r' as u32, 'o' as u32));
    assert(short_key(material_row(15).name@) == (4nat, 'w' as u32, 'o' as u32, 'o' as u32));
}

proof fn lemma_name_index(s: Seq<char>, id: int, from: int)
    requires
        0 <= from <= id < MATERIAL_COUNT,
        same_but_case(material_row(id).name@, s),
    ensures
        name_index(s, from) == Some(id),
    decreases id - from,
{
    if from < id {
        lemma_name_keys();
        let here = material_row(from).name@;
        let there = material_row(id).name@;
        if same_but_case(here, s) {
            assert(folded(here[0]) == folded(s[0]) && folded(there[0]) == folded(s[0]));
            assert(folded(here[1]) == folded(s[1]) && folded(there[1]) == folded(s[1]));
            assert(folded(here[2]) == folded(s[2]) && folded(there[2]) == folded(s[2]));
            assert(short_key(here) == short_key(there));
        }
        lemma_name_index(s, id, from + 1);
    }
}

/// The name of a material, in any mix of capitals, leads back to it: no two
/// names collide and none reads as a number.
pub proof fn law_names_lead_back(id: u8, s: Seq<char>)
    requires
        id < MATERIAL_COUNT,
        same_but_case(material_name(id), s),
    ensures
        material_id(s) == Some(id as int),
{
    lemma_name_keys();
    lemma_name_index(s, id as int, 0);
    assert(folded(material_row(id as int).name@[0]) == folded(s[0]));
    assert(crate::text::digits_of(s)[0] == s[0]);
}

/// Whatever text stands for a material, its id fits a byte.
pub proof fn lemma_material_id_fits(s: Seq<char>)
    ensures
        material_id(s) matches Some(id) ==> 0 <= id <= 255,
{
    lemma_name_index_fits(s, 0);
    crate::text::lemma_decimal_value_positive(crate::text::digits_of(s));
}

proof fn lemma_name_index_fits(s: Seq<char>, from: int)
    ensures
        match name_index(s, from) {
            Some(id) => from <= id < MATERIAL_COUNT && 0 <= id && same_but_case(
                material_row(id).name@,
                s,
            ),
            None => forall|id: int|
                0 <= from <= id < MATERIAL_COUNT ==> !same_but_case(
                    (#[trigger] material_row(id)).name@,
                    s,
                ),
        },
    decreases MATERIAL_COUNT - from,
{
    if 0 <= from < MATERIAL_COUNT && !same_but_case(material_row(from).name@, s) {
        lemma_name_index_fits(s, from + 1);
        if name_index(s, from) is None {
            assert forall|id: int| 0 <= from <= id < MATERIAL_COUNT implies !same_but_case(
                (#[trigger] material_row(id)).name@,
                s,
            ) by {}
        }
    }
}

/// A number of up to 255 stands for the material with that id, in the table or
/// not.
pub proof fn law_indices_stand_for_themselves(n: nat, width: nat)
    requires
        n <= 255,
    ensures
        material_id(crate::text::padded_decimal(n, width)) == Some(n as int),
{
    crate::text::law_written_numbers_read_back(n, width, 255);
}

/// Any other text stands for a material only if it is its name, case aside, and
/// for none if no material has that name.
pub proof fn law_only_names_and_indices_are_known(s: Seq<char>)
    requires
        unsigned_text(s, 255) is None,
    ensures
        match material_id(s) {
            Some(id) => 0 <= id < 16 && same_but_case(material_name(id as u8), s),
            None => forall|id: u8| id < 16 ==> !same_but_case(#[trigger] material_name(id), s),
        },
{
    lemma_name_index_fits(s, 0);
    if material_id(s) is None {
        assert forall|id: u8| id < 16 implies !same_but_case(#[trigger] material_name(id), s) by {
            assert(material_name(id) == material_row(id as int).name@);
        }
    }
}

/// The shaders are told of a material what its row says: the three bytes of its
/// colour put together again are the colour, and density, glow, variance and
/// mobility are the row's. The movement class is 0, 1 or 2.
pub proof fn law_upload_keeps_the_row(id: int)
    requires
        0 <= id < 16,
    ensures
        ({
            let g = gpu_row(id);
            let m = material_row(id);
            &&& 0x1_0000 * g.red + 0x100 * g.green + g.blue == m.rgb
            &&& g.density == m.density && g.emissive == m.emissive
            &&& g.variance == m.variance && g.mobility == m.mobility
            &&& g.kind == 0 <==> m.kind == Kind::Static
            &&& g.kind == 1 <==> m.kind == Kind::Powder
            &&& g.kind == 2 <==> m.kind == Kind::Fluid
        }),
{
}

/// Which of two materials sinks is always decided: no two have the same density.
/// The gases, and nothing else, are lighter than air; oil floats on water, and
/// water on every powder and melt.
pub proof fn law_density_decides_who_sinks(a: int, b: int)
    requires
        0 <= a < 16,
        0 <= b < 16,
    ensures
        material_row(a).density == material_row(b).density <==> a == b,
        material_row(a).density < 10 <==> a == 10 || a == 11,
        material_row(9).density < material_row(8).density,
        material_row(a).kind == Kind::Powder ==> material_row(a).density > material_row(8).density,
        a == 12 || a == 13 ==> material_row(a).density > material_row(8).density,
        material_row(a).density <= material_row(1).density,
{
}

/// Only melts glow, and every material has some variance.
pub proof fn law_only_melts_glow(id: int)
    requires
        0 <= id < 16,
    ensures
        material_row(id).emissive > 0 <==> id == 12 || id == 13,
        material_row(id).emissive <= 100,
        0 < material_row(id).variance <= 100,
        material_row(id).rgb <= 0xFF_FFFF,
{
}

/// Place of a material in a column that has settled, counted from the top.
pub open spec fn settled_place(id: int) -> int {
    seq![2int, 15, 14, 8, 6, 9, 5, 10, 4, 3, 0, 1, 11, 12, 13, 7][id]
}

/// By density a settled column is, from the top: steam, smoke, air, oil, water,
/// coal, sand, wood, dirt, gravel, iron ore, molten iron, lava, iron, stone,
/// bedrock.
pub proof fn law_materials_settle_in_order(a: int, b: int)
    requires
        0 <= a < 16,
        0 <= b < 16,
    ensures
        material_row(a).density < material_row(b).density <==> settled_place(a) < settled_place(b),
{
}

/// Grains are powders; bedrock, stone, iron and wood never move; all the rest
/// flows.
pub proof fn law_how_materials_move(id: int)
    requires
        0 <= id < 16,
    ensures
        material_row(id).kind == Kind::Powder <==> 3 <= id <= 7,
        material_row(id).kind == Kind::Static <==> (id == 1 || id == 2 || id == 14 || id == 15),
{
}

} // verus!

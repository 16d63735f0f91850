use fastnbt::LongArray;
use rustmatica::schema;
use rustmatica::util::Vec3;
use rustmatica::{BlockState, DecodeError, Entity, Property, Region, TileEntity, UVec3};

fn named(name: &str) -> BlockState {
    BlockState {
        name: String::from(name),
        properties: None,
    }
}

#[test]
fn region_round_trip_with_negative_and_reversed_corners() {
    let mut r = Region::new(String::from("trip"), Vec3::new(3, 2, 1), Vec3::new(-1, -2, -3));
    r.set_block(Vec3::new(0, 0, 0), named("minecraft:stone"));
    r.set_block(Vec3::new(-1, -2, -3), named("minecraft:dirt"));
    r.set_block(
        Vec3::new(3, 2, 1),
        BlockState {
            name: String::from("minecraft:oak_log"),
            properties: Some(vec![Property {
                key: String::from("axis"),
                value: String::from("y"),
            }]),
        },
    );
    r.set_tile_entity(TileEntity {
        pos: UVec3::new(1, 1, 1),
        data: vec![Property {
            key: String::from("id"),
            value: String::from("minecraft:chest"),
        }],
    });
    r.entities.push(Entity {
        data: vec![Property {
            key: String::from("id"),
            value: String::from("minecraft:pig"),
        }],
    });

    let raw = r.to_raw();
    assert_eq!(raw.position, Vec3::new(3, 2, 1));
    assert_eq!(raw.size, Vec3::new(-5, -5, -5));
    let back = Region::from_raw(&raw, String::from("trip")).unwrap();
    assert_eq!(back, r);
}

#[test]
fn region_round_trip_degenerate_box() {
    let r = Region::new(String::from("dot"), Vec3::new(7, -7, 7), Vec3::new(7, -7, 7));
    let raw = r.to_raw();
    assert_eq!(raw.size, Vec3::new(0, 0, 0));
    let back = Region::from_raw(&raw, String::from("dot")).unwrap();
    assert_eq!(back, r);
}

#[test]
fn bit_width_grows_with_palette() {
    let mut r = Region::new(String::from(""), Vec3::new(0, 0, 0), Vec3::new(63, 0, 0));
    // palette: air + 3 distinct values = 4 entries
    for i in 0..3 {
        r.set_block(Vec3::new(i, 0, 0), named(&format!("minecraft:v{}", i)));
    }
    assert_eq!(r.num_bits(), 2);
    // 64 cells at 2 bits: 32 per word, so 2 words
    assert_eq!(r.to_raw().block_state_words().len(), 2);

    // a fifth palette entry crosses the power-of-two boundary
    r.set_block(Vec3::new(3, 0, 0), named("minecraft:v3"));
    assert_eq!(r.num_bits(), 3);
    // the next serialization repacks: 21 per word, so 4 words
    assert_eq!(r.to_raw().block_state_words().len(), 4);

    let raw = r.to_raw();
    assert_eq!(raw.block_state_palette.len(), 5);
    let back = Region::from_raw(&raw, String::from("")).unwrap();
    assert_eq!(back, r);
}

#[test]
fn from_raw_rejects_empty_palette() {
    let raw = schema::Region {
        position: Vec3::new(0, 0, 0),
        size: Vec3::new(1, 1, 1),
        block_state_palette: vec![],
        block_states: LongArray::new(vec![]),
        tile_entities: vec![],
        entities: vec![],
        pending_fluid_ticks: vec![],
        pending_block_ticks: vec![],
    };
    assert_eq!(
        Region::from_raw(&raw, String::new()),
        Err(DecodeError::EmptyPalette)
    );
}

#[test]
fn from_raw_rejects_wrong_word_count() {
    // volume 8 at bit width 2 needs exactly one word
    let raw = schema::Region {
        position: Vec3::new(0, 0, 0),
        size: Vec3::new(2, 2, 2),
        block_state_palette: vec![BlockState::air()],
        block_states: LongArray::new(vec![0, 0]),
        tile_entities: vec![],
        entities: vec![],
        pending_fluid_ticks: vec![],
        pending_block_ticks: vec![],
    };
    assert_eq!(
        Region::from_raw(&raw, String::new()),
        Err(DecodeError::WordCountMismatch)
    );

    let raw = schema::Region {
        position: Vec3::new(0, 0, 0),
        size: Vec3::new(2, 2, 2),
        block_state_palette: vec![BlockState::air()],
        block_states: LongArray::new(vec![]),
        tile_entities: vec![],
        entities: vec![],
        pending_fluid_ticks: vec![],
        pending_block_ticks: vec![],
    };
    assert_eq!(
        Region::from_raw(&raw, String::new()),
        Err(DecodeError::WordCountMismatch)
    );
}

#[test]
fn from_raw_rejects_identifier_outside_palette() {
    // one cell, palette of one entry, but the packed identifier is 2
    let raw = schema::Region {
        position: Vec3::new(0, 0, 0),
        size: Vec3::new(1, 1, 1),
        block_state_palette: vec![BlockState::air()],
        block_states: LongArray::new(vec![2]),
        tile_entities: vec![],
        entities: vec![],
        pending_fluid_ticks: vec![],
        pending_block_ticks: vec![],
    };
    assert_eq!(
        Region::from_raw(&raw, String::new()),
        Err(DecodeError::PaletteIndexOutOfRange)
    );
}

#[test]
fn from_raw_reads_cells_from_the_words() {
    // two cells at bit width 2 in one word: ids 1 then 0
    let raw = schema::Region {
        position: Vec3::new(0, 0, 0),
        size: Vec3::new(2, 1, 1),
        block_state_palette: vec![BlockState::air(), named("minecraft:stone")],
        block_states: LongArray::new(vec![0b01]),
        tile_entities: vec![],
        entities: vec![],
        pending_fluid_ticks: vec![],
        pending_block_ticks: vec![],
    };
    let r = Region::from_raw(&raw, String::new()).unwrap();
    assert_eq!(*r.get_block(Vec3::new(0, 0, 0)), named("minecraft:stone"));
    assert_eq!(*r.get_block(Vec3::new(1, 0, 0)), BlockState::air());
    assert_eq!(r.total_blocks(), 1);
}

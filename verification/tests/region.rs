use rustmatica::util::Vec3;
use rustmatica::{BlockState, Property, Region, TileEntity, UVec3};

#[test]
fn test_pos_to_index() {
    let r = Region::new(String::from("region"), Vec3::new(0, 0, 0), Vec3::new(2, 2, 2));
    assert_eq!(r.pos_to_index(Vec3::new(0, 0, 0)), 0);
    assert_eq!(r.pos_to_index(Vec3::new(1, 1, 1)), 13);
    assert_eq!(r.pos_to_index(Vec3::new(2, 2, 2)), 26);

    let r = Region::new(String::from(""), Vec3::new(-1, -1, -1), Vec3::new(3, 3, 3));
    assert_eq!(r.pos_to_index(Vec3::new(-1, -1, -1)), 0);

    let r = Region::new(String::from(""), Vec3::new(1, 1, 1), Vec3::new(-1, -1, -1));
    assert_eq!(r.pos_to_index(Vec3::new(-1, -1, -1)), 0);
    assert_eq!(r.pos_to_index(Vec3::new(0, 0, 0)), 13);
    assert_eq!(r.pos_to_index(Vec3::new(1, 1, 1)), 26);

    let r = Region::new(String::from(""), Vec3::new(0, 0, 0), Vec3::new(384, 76, 204));
    assert_eq!(r.pos_to_index(Vec3::new(29, 3, 28)), 247584);
}

#[test]
fn test_index_to_pos() {
    let r = Region::new(String::from(""), Vec3::new(0, 0, 0), Vec3::new(2, 2, 2));
    assert_eq!(r.index_to_pos(0), Vec3::new(0, 0, 0));
    assert_eq!(r.index_to_pos(13), Vec3::new(1, 1, 1));
    assert_eq!(r.index_to_pos(26), Vec3::new(2, 2, 2));

    let r = Region::new(String::from(""), Vec3::new(-1, -1, -1), Vec3::new(3, 3, 3));
    assert_eq!(r.index_to_pos(0), Vec3::new(-1, -1, -1));

    let r = Region::new(String::from(""), Vec3::new(1, 1, 1), Vec3::new(-1, -1, -1));
    assert_eq!(r.index_to_pos(0), Vec3::new(-1, -1, -1));
    assert_eq!(r.index_to_pos(13), Vec3::new(0, 0, 0));
    assert_eq!(r.index_to_pos(26), Vec3::new(1, 1, 1));

    let r = Region::new(String::from(""), Vec3::new(0, 0, 0), Vec3::new(384, 76, 204));
    assert_eq!(r.index_to_pos(247584), Vec3::new(29, 3, 28));
}

fn stone() -> BlockState {
    BlockState {
        name: String::from("minecraft:stone"),
        properties: None,
    }
}

#[test]
fn index_bijection_over_whole_box() {
    let r = Region::new(String::from(""), Vec3::new(2, -1, 5), Vec3::new(-2, 3, 1));
    let vol = r.volume() as usize;
    assert_eq!(vol, 5 * 5 * 5);
    for i in 0..vol {
        let p = r.index_to_pos(i);
        assert_eq!(r.pos_to_index(p), i);
    }
    for x in -2..=2 {
        for y in -1..=3 {
            for z in 1..=5 {
                let p = Vec3::new(x, y, z);
                assert_eq!(r.index_to_pos(r.pos_to_index(p)), p);
            }
        }
    }
}

#[test]
fn corner_order_invariance() {
    let a = Vec3::new(-3, 7, 2);
    let b = Vec3::new(4, -1, 9);
    let r1 = Region::new(String::from("r"), a, b);
    let r2 = Region::new(String::from("r"), b, a);
    assert_eq!(r1.volume(), r2.volume());
    assert_eq!(r1.min_x(), r2.min_x());
    assert_eq!(r1.max_x(), r2.max_x());
    assert_eq!(r1.min_y(), r2.min_y());
    assert_eq!(r1.max_y(), r2.max_y());
    assert_eq!(r1.min_z(), r2.min_z());
    assert_eq!(r1.max_z(), r2.max_z());
    assert_eq!(r1.x_range(), r2.x_range());
    assert_eq!(r1.y_range(), r2.y_range());
    assert_eq!(r1.z_range(), r2.z_range());
}

#[test]
fn fresh_region_reads_default_everywhere() {
    let r = Region::new(String::from(""), Vec3::new(0, 0, 0), Vec3::new(2, 2, 2));
    assert_eq!(r.total_blocks(), 0);
    let air = BlockState::air();
    for x in 0..=2 {
        for y in 0..=2 {
            for z in 0..=2 {
                assert_eq!(*r.get_block(Vec3::new(x, y, z)), air);
            }
        }
    }
}

#[test]
fn palette_dedup_on_equal_values() {
    let mut r = Region::new(String::from(""), Vec3::new(0, 0, 0), Vec3::new(1, 1, 1));
    r.set_block(Vec3::new(0, 0, 0), stone());
    r.set_block(Vec3::new(1, 1, 1), stone());
    let raw = r.to_raw();
    // air plus one new entry, although stone was set twice
    assert_eq!(raw.block_state_palette.len(), 2);
    // both cells carry the same id, so both read back the stone value
    assert_eq!(*r.get_block(Vec3::new(0, 0, 0)), stone());
    assert_eq!(*r.get_block(Vec3::new(1, 1, 1)), stone());
    assert_eq!(r.total_blocks(), 2);
}

#[test]
fn iteration_yields_all_cells_in_index_order() {
    let mut r = Region::new(String::from(""), Vec3::new(0, 0, 0), Vec3::new(1, 1, 1));
    assert_eq!(r.volume(), 8);
    r.set_block(Vec3::new(1, 1, 1), stone());
    let air = BlockState::air();
    let mut it = r.blocks();
    let mut seen = 0usize;
    loop {
        match it.next() {
            Some((pos, block)) => {
                assert_eq!(pos, r.index_to_pos(seen));
                if seen == 7 {
                    assert_eq!(pos, Vec3::new(1, 1, 1));
                    assert_eq!(*block, stone());
                } else {
                    assert_eq!(*block, air);
                }
                seen += 1;
            }
            None => break,
        }
    }
    assert_eq!(seen, 8);
    assert_eq!(r.total_blocks(), 1);
}

#[test]
fn tile_entities_keyed_by_position() {
    let mut r = Region::new(String::from(""), Vec3::new(0, 0, 0), Vec3::new(1, 1, 1));
    let p = UVec3::new(0, 1, 0);
    assert!(r.get_tile_entity(p).is_none());
    r.set_tile_entity(TileEntity { pos: p, data: vec![] });
    assert!(r.get_tile_entity(p).is_some());
    let replacement = TileEntity {
        pos: p,
        data: vec![Property {
            key: String::from("id"),
            value: String::from("minecraft:chest"),
        }],
    };
    r.set_tile_entity(replacement);
    assert_eq!(r.tile_entities.len(), 1);
    assert_eq!(r.get_tile_entity(p).unwrap().data.len(), 1);
    r.remove_tile_entity(p);
    assert!(r.get_tile_entity(p).is_none());
    assert_eq!(r.tile_entities.len(), 0);
    // removing again changes nothing
    r.remove_tile_entity(p);
    assert_eq!(r.tile_entities.len(), 0);
}

#[test]
fn as_litematic_wraps_single_region() {
    let r = Region::new(String::from("house"), Vec3::new(0, 0, 0), Vec3::new(1, 1, 1));
    let l = r.as_litematic(String::from("a house"), String::from("someone"));
    assert_eq!(l.name, "house");
    assert_eq!(l.description, "a house");
    assert_eq!(l.author, "someone");
    assert_eq!(l.regions.len(), 1);
    assert_eq!(l.regions[0].name, "house");
}

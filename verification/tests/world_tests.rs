use blockserver::player::Position;
use blockserver::world::{default_mobs, BlockKind, Dimension, Mob, World};

#[test]
fn blocks_set_get_remove() {
    let mut w = World::new();
    assert_eq!(w.dimension(), Dimension::Overworld);
    assert_eq!(w.get_block(1, 2, 3), None);
    w.set_block(1, 2, 3, BlockKind::Grass);
    assert_eq!(w.get_block(1, 2, 3), Some(BlockKind::Grass));
    w.set_block(1, 2, 3, BlockKind::Dirt);
    assert_eq!(w.get_block(1, 2, 3), Some(BlockKind::Dirt));
    assert_eq!(w.get_block(3, 2, 1), None);
    w.remove_block(1, 2, 3);
    assert_eq!(w.get_block(1, 2, 3), None);
}

#[test]
fn negative_coordinates_are_distinct_keys() {
    let mut w = World::new();
    w.set_block(-1, 0, 0, BlockKind::Log);
    assert_eq!(w.get_block(-1, 0, 0), Some(BlockKind::Log));
    assert_eq!(w.get_block(1, 0, 0), None);
    assert_eq!(w.get_block(0, -1, 0), None);
    assert_eq!(w.get_block(0, 0, -1), None);
}

#[test]
fn default_mobs_match_boot_setup() {
    let mobs = default_mobs(100, 200);
    assert_eq!(mobs.len(), 2);
    assert_eq!(mobs[0].id, 100);
    assert_eq!(mobs[0].mob_type, "Zombie");
    assert_eq!(f64::from_bits(mobs[0].position.x_bits), 10.0);
    assert_eq!(f64::from_bits(mobs[0].position.y_bits), 64.0);
    assert_eq!(f64::from_bits(mobs[0].position.z_bits), 10.0);
    assert_eq!(f32::from_bits(mobs[0].health_bits), 20.0);
    assert_eq!(mobs[1].id, 200);
    assert_eq!(mobs[1].mob_type, "Skeleton");
    assert_eq!(f64::from_bits(mobs[1].position.x_bits), 15.0);
    assert_eq!(f32::from_bits(mobs[1].health_bits), 20.0);
}

#[test]
fn mob_find_and_remove_by_identity() {
    let mut w = World::new();
    for m in default_mobs(100, 200) {
        w.add_mob(m);
    }
    assert!(w.find_mob_by_identity(100).is_some());
    assert_eq!(w.find_mob_by_identity(100).unwrap().mob_type, "Zombie");
    assert!(w.find_mob_by_identity(300).is_none());

    w.remove_mob_by_identity(100);
    assert!(w.find_mob_by_identity(100).is_none());
    assert!(w.find_mob_by_identity(200).is_some());
}

#[test]
fn tree_has_trunk_and_canopy() {
    let mut w = World::new();
    w.set_block(0, 9, 0, BlockKind::Grass);
    w.generate_large_tree(0, 10, 0);
    // trunk: four logs, the fifth overwritten by the canopy center
    for dy in 0..4 {
        assert_eq!(w.get_block(0, 10 + dy, 0), Some(BlockKind::Log));
    }
    assert_eq!(w.get_block(0, 14, 0), Some(BlockKind::Leaves));
    assert_eq!(w.get_block(0, 15, 0), Some(BlockKind::Leaves));
    assert_eq!(w.get_block(0, 16, 0), Some(BlockKind::Leaves));
    // a near leaf inside the diamond threshold
    assert_eq!(w.get_block(1, 15, 0), Some(BlockKind::Leaves));
    // a far corner outside it
    assert_eq!(w.get_block(2, 16, 2), None);
    // untouched blocks stay
    assert_eq!(w.get_block(0, 9, 0), Some(BlockKind::Grass));
    assert_eq!(w.get_block(7, 7, 7), None);
}

#[test]
fn generate_fills_the_region() {
    let mut w = World::new();
    w.set_block(500, 10, 500, BlockKind::Log);
    w.generate();

    // below the lowest possible surface: solid dirt
    assert_eq!(w.get_block(0, 50, 0), Some(BlockKind::Dirt));
    assert_eq!(w.get_block(-100, 0, 99), Some(BlockKind::Dirt));
    assert_eq!(w.get_block(99, 60, -100), Some(BlockKind::Dirt));

    // every column has a surface between 61 and 66
    for &(x, z) in [(0, 0), (-100, -100), (99, 99), (-37, 62)].iter() {
        let mut found = false;
        for h in 61..=66 {
            match w.get_block(x, h, z) {
                Some(BlockKind::Grass) | Some(BlockKind::Leaves) => {
                    found = true;
                    break;
                }
                _ => {}
            }
        }
        assert!(found, "no surface in column ({}, {})", x, z);
    }

    // outside the generated bounds nothing moved
    assert_eq!(w.get_block(500, 10, 500), Some(BlockKind::Log));
    assert_eq!(w.get_block(200, 64, 0), None);
    assert_eq!(w.get_block(0, 64, -150), None);
}

#[test]
fn mob_struct_is_plain_data() {
    let m = Mob {
        id: 1,
        mob_type: "Zombie".to_string(),
        position: Position { x_bits: 0, y_bits: 0, z_bits: 0 },
        health_bits: 0,
    };
    let c = m.clone();
    assert_eq!(c.id, 1);
    assert_eq!(c.mob_type, "Zombie");
}

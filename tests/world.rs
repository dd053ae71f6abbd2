use roguelike_core::{
    Creature, CreatureType, Direction, Position, Tile, TileMap, TileType, World, LEVEL_SIZE,
    MAX_DEMONICITY,
};

#[test]
fn creating_new_world() {
    // World created without panicking
    World::new();
}

#[test]
fn new_world_layout() {
    let world = World::new();
    let main = world.main_character();
    let position = world.creatures().get(main).unwrap().position();
    assert_eq!(position, Position { level: 0, x: 5, y: 5 });
    let level = world.get_level(0).unwrap();
    assert_eq!(level.width(), LEVEL_SIZE);
    assert_eq!(level.height(), LEVEL_SIZE);
    assert_eq!(level.tile(5, 5).unwrap().occupant, Some(main));
    assert_eq!(level.tile(0, 7).unwrap().tile_type, TileType::Wall);
    assert_eq!(level.tile(19, 3).unwrap().tile_type, TileType::Wall);
    assert_eq!(level.tile(4, 0).unwrap().tile_type, TileType::Wall);
    assert_eq!(level.tile(4, 19).unwrap().tile_type, TileType::Wall);
    assert_eq!(level.tile(6, 5).unwrap().tile_type, TileType::Ground);
    assert!(world.get_level(1).is_none());
}

#[test]
fn demon_demonicity_is_capped() {
    let p = Position { level: 0, x: 0, y: 0 };
    let d = Creature::demon("Belial".to_string(), 30, 20, p, 250);
    assert_eq!(d.name(), "Belial");
    assert_eq!(d.health().current(), 30);
    assert_eq!(d.health().max(), 30);
    assert_eq!(d.mana().current(), 20);
    assert_eq!(d.mana().max(), 20);
    match d.kind() {
        CreatureType::Demon { demonicity } => {
            assert_eq!(demonicity.current(), MAX_DEMONICITY);
            assert_eq!(demonicity.max(), MAX_DEMONICITY);
        }
        CreatureType::Human => panic!("a demon was made"),
    }
    let e = Creature::demon("Imp".to_string(), 1, 1, p, 40);
    match e.kind() {
        CreatureType::Demon { demonicity } => assert_eq!(demonicity.current(), 40),
        CreatureType::Human => panic!("a demon was made"),
    }
}

fn ground_map(width: usize, height: usize) -> TileMap {
    let columns = (0..width)
        .map(|_| (0..height).map(|_| Tile::new(TileType::Ground)).collect())
        .collect();
    TileMap::new(columns)
}

#[test]
fn from_levels_rejects_bad_placement() {
    let demon = |x, y| Creature::demon("Imp".to_string(), 1, 1, Position { level: 0, x, y }, 0);
    assert!(World::from_levels(vec![ground_map(2, 2)], demon(2, 0)).is_none());
    assert!(World::from_levels(vec![ground_map(2, 2)], demon(0, 2)).is_none());
    let off_level = Creature::demon("Imp".to_string(), 1, 1, Position { level: 1, x: 0, y: 0 }, 0);
    assert!(World::from_levels(vec![ground_map(2, 2)], off_level).is_none());
    assert!(World::from_levels(vec![ground_map(2, 2)], demon(1, 1)).is_some());
}

#[test]
fn add_creature_needs_a_free_tile() {
    let demon = |x, y| Creature::demon("Imp".to_string(), 1, 1, Position { level: 0, x, y }, 0);
    let mut world = World::from_levels(vec![ground_map(3, 3)], demon(0, 0)).unwrap();
    assert_eq!(world.add_creature(demon(0, 0)), None);
    assert_eq!(world.add_creature(demon(3, 0)), None);
    let h = world.add_creature(demon(2, 1)).unwrap();
    assert_ne!(h, world.main_character());
    assert_eq!(world.get_level(0).unwrap().tile(2, 1).unwrap().occupant, Some(h));
    assert_eq!(world.creatures().get(h).unwrap().position(), Position { level: 0, x: 2, y: 1 });
}

#[test]
fn position_plus_direction() {
    let p = Position { level: 2, x: 0, y: 3 };
    assert_eq!(p + Direction::Left, None);
    assert_eq!(p + Direction::Right, Some(Position { level: 2, x: 1, y: 3 }));
    assert_eq!(p + Direction::Up, Some(Position { level: 2, x: 0, y: 2 }));
    assert_eq!(p + Direction::Down, Some(Position { level: 2, x: 0, y: 4 }));
    assert_eq!(Position { level: 0, x: 4, y: 0 } + Direction::Up, None);
}

use roguelike_core::{
    is_move_valid, move_creature, Action, ActionError, Arena, Creature, Direction, Handle, Position, Tile, TileMap, TileType,
    World, MOVE_COST,
};

fn setup() -> (World, Handle, Position) {
    let world = World::new();
    let character = world.main_character();
    let position = match world.creatures().get(character) {
        Some(character) => character.position(),
        None => panic!("No main character!"),
    };
    (world, character, position)
}

#[test]
fn valid_move() {
    let (mut world, character, pos) = setup();
    let _ = move_creature(&mut world, character, Direction::Right);
    let actual = world.creatures().get(character).map(|a| a.position()).unwrap();
    let expected = (pos + Direction::Right).unwrap();
    assert_eq!(actual, expected);
}

fn map_of(columns: Vec<Vec<TileType>>) -> TileMap {
    TileMap::new(
        columns
            .into_iter()
            .map(|c| c.into_iter().map(Tile::new).collect())
            .collect(),
    )
}

fn demon_at(x: usize, y: usize) -> Creature {
    Creature::demon("Imp".to_string(), 10, 10, Position { level: 0, x, y }, 0)
}

fn ground(width: usize, height: usize) -> TileMap {
    map_of(vec![vec![TileType::Ground; height]; width])
}

#[test]
fn move_left_from_first_column_has_no_position() {
    let mut world = World::from_levels(vec![ground(3, 2)], demon_at(0, 1)).unwrap();
    let h = world.main_character();
    let expected = Err(ActionError::OutOfBounds { position: None, width: 3, height: 2 });
    assert_eq!(Action::Move(h, Direction::Left).is_valid(&world), expected);
    assert_eq!(Action::Move(h, Direction::Left).apply(&mut world), expected);
    assert_eq!(world.creatures().get(h).unwrap().position(), Position { level: 0, x: 0, y: 1 });
}

#[test]
fn move_right_from_last_column_is_out_of_bounds() {
    let mut world = World::from_levels(vec![ground(3, 2)], demon_at(2, 1)).unwrap();
    let h = world.main_character();
    let expected = Err(ActionError::OutOfBounds {
        position: Some(Position { level: 0, x: 3, y: 1 }),
        width: 3,
        height: 2,
    });
    assert_eq!(Action::Move(h, Direction::Right).apply(&mut world), expected);
    assert_eq!(world.creatures().get(h).unwrap().position(), Position { level: 0, x: 2, y: 1 });
}

#[test]
fn move_down_past_last_row_is_out_of_bounds() {
    let world = World::from_levels(vec![ground(3, 2)], demon_at(1, 1)).unwrap();
    let h = world.main_character();
    assert_eq!(
        Action::Move(h, Direction::Down).is_valid(&world),
        Err(ActionError::OutOfBounds {
            position: Some(Position { level: 0, x: 1, y: 2 }),
            width: 3,
            height: 2,
        })
    );
    assert_eq!(
        Action::Move(h, Direction::Up).is_valid(&world),
        Ok(())
    );
}

#[test]
fn move_exchanges_occupancy() {
    let mut world = World::from_levels(vec![ground(2, 2)], demon_at(0, 0)).unwrap();
    let h = world.main_character();
    assert_eq!(Action::Move(h, Direction::Right).apply(&mut world), Ok(()));
    assert_eq!(world.creatures().get(h).unwrap().position(), Position { level: 0, x: 1, y: 0 });
    let level = world.get_level(0).unwrap();
    assert_eq!(level.tile(0, 0).unwrap().occupant, None);
    let occupant = level.tile(1, 0).unwrap().occupant.unwrap();
    assert_eq!(occupant, h);
    assert!(world.creatures().get(occupant).is_some());
}

#[test]
fn move_onto_wall_is_impassable() {
    let mut world = World::from_levels(
        vec![map_of(vec![vec![TileType::Ground, TileType::Ground], vec![TileType::Wall, TileType::Ground]])],
        demon_at(0, 0),
    )
    .unwrap();
    let h = world.main_character();
    assert_eq!(
        Action::Move(h, Direction::Right).apply(&mut world),
        Err(ActionError::TileIsImpassable(Position { level: 0, x: 1, y: 0 }))
    );
    assert_eq!(world.get_level(0).unwrap().tile(0, 0).unwrap().occupant, Some(h));
    assert_eq!(Action::Move(h, Direction::Down).apply(&mut world), Ok(()));
}

#[test]
fn doors_open_and_closed() {
    let world = World::from_levels(
        vec![map_of(vec![
            vec![TileType::Door { closed: true }, TileType::Ground, TileType::Door { closed: false }],
            vec![TileType::Stairs, TileType::Ground, TileType::Ground],
        ])],
        demon_at(0, 1),
    )
    .unwrap();
    let h = world.main_character();
    assert_eq!(
        Action::Move(h, Direction::Up).is_valid(&world),
        Err(ActionError::TileIsImpassable(Position { level: 0, x: 0, y: 0 }))
    );
    assert_eq!(Action::Move(h, Direction::Down).is_valid(&world), Ok(()));
    assert_eq!(Action::Move(h, Direction::Right).is_valid(&world), Ok(()));
}

#[test]
fn move_onto_creature_is_occupied() {
    let mut world = World::from_levels(vec![ground(2, 2)], demon_at(0, 0)).unwrap();
    let h = world.main_character();
    let other = world.add_creature(demon_at(1, 0)).unwrap();
    let r = Action::Move(h, Direction::Right).apply(&mut world);
    assert_eq!(r, Err(ActionError::TileIsOccupied(other)));
    match r {
        Err(ActionError::TileIsOccupied(o)) => {
            let occupant = world.creatures().get(o).unwrap();
            assert_eq!(occupant.position(), Position { level: 0, x: 1, y: 0 });
        }
        _ => panic!("expected an occupied tile"),
    }
    assert_eq!(world.creatures().get(h).unwrap().position(), Position { level: 0, x: 0, y: 0 });
}

#[test]
fn dead_subject_cannot_act() {
    let mut world = World::new();
    let mut strangers = Arena::new();
    strangers.insert(1);
    let stranger = strangers.insert(2);
    assert!(!world.creatures().contains(stranger));
    assert_eq!(
        Action::Move(stranger, Direction::Left).apply(&mut world),
        Err(ActionError::SubjectIsDead)
    );
    assert_eq!(
        Action::Wait(stranger, 4).apply(&mut world),
        Err(ActionError::SubjectIsDead)
    );
    assert_eq!(Action::Move(stranger, Direction::Left).cost(world.creatures()), 0);
    assert_eq!(Action::Wait(stranger, 4).cost(world.creatures()), 0);
}

#[test]
fn costs_of_live_actors() {
    let world = World::new();
    let h = world.main_character();
    assert_eq!(MOVE_COST, 100);
    assert_eq!(Action::Move(h, Direction::Up).cost(world.creatures()), 100);
    assert_eq!(Action::Wait(h, 7).cost(world.creatures()), 7);
    assert_eq!(*Action::Wait(h, 7).actor(), h);
    assert_eq!(*Action::Move(h, Direction::Up).actor(), h);
}

#[test]
fn waiting_changes_nothing() {
    let mut world = World::new();
    let h = world.main_character();
    assert_eq!(Action::Wait(h, 3).apply(&mut world), Ok(()));
    assert_eq!(world.creatures().get(h).unwrap().position(), Position { level: 0, x: 5, y: 5 });
}

#[test]
fn is_move_valid_matches_is_valid() {
    let world = World::from_levels(vec![ground(3, 2)], demon_at(0, 0)).unwrap();
    let h = world.main_character();
    assert_eq!(
        is_move_valid(&world, h, Direction::Left),
        Err(ActionError::OutOfBounds { position: None, width: 3, height: 2 })
    );
    assert_eq!(is_move_valid(&world, h, Direction::Right), Ok(()));
    assert_eq!(
        is_move_valid(&world, h, Direction::Up),
        Action::Move(h, Direction::Up).is_valid(&world)
    );
}

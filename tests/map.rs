use roguelike_core::{Tile, TileMap, TileType};

#[test]
fn new_rectangular_map() {
    let map = TileMap::new(vec![
        vec![Tile::new(TileType::Ground), Tile::new(TileType::Wall)],
        vec![Tile::new(TileType::Stairs), Tile::new(TileType::Door { closed: true })],
    ]);
    assert_eq!(map.width(), 2);
    assert_eq!(map.height(), 2);
    assert_eq!(map.tile(0, 1).unwrap().tile_type, TileType::Wall);
    assert_eq!(map.tile(1, 0).unwrap().tile_type, TileType::Stairs);
    assert!(map.tile(2, 0).is_none());
    assert!(map.tile(0, 2).is_none());
    assert!(map.is_vacant());
}

#[test]
fn passability() {
    assert!(TileType::Ground.is_passable());
    assert!(TileType::Stairs.is_passable());
    assert!(TileType::Door { closed: false }.is_passable());
    assert!(!TileType::Door { closed: true }.is_passable());
    assert!(!TileType::Wall.is_passable());
}

#[test]
fn tiles_walk_row_by_row() {
    let map = TileMap::new(vec![
        vec![Tile::new(TileType::Ground), Tile::new(TileType::Wall)],
        vec![Tile::new(TileType::Stairs), Tile::new(TileType::Ground)],
        vec![Tile::new(TileType::Wall), Tile::new(TileType::Wall)],
    ]);
    let mut tiles = map.tiles();
    let mut seen = vec![];
    while let Some((x, y, tile)) = tiles.next() {
        seen.push((x, y, tile.tile_type));
    }
    assert_eq!(
        seen,
        vec![
            (0, 0, TileType::Ground),
            (1, 0, TileType::Stairs),
            (2, 0, TileType::Wall),
            (0, 1, TileType::Wall),
            (1, 1, TileType::Ground),
            (2, 1, TileType::Wall),
        ]
    );
    assert!(tiles.next().is_none());
}

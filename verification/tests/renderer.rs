use spellcaster::renderer::tiled::{TileMapData, TileQuad, TileSource, TiledMap, TilesetInfo};
use spellcaster::renderer::{flush_source, quad_indices, SpriteBatch, TextureSource};

#[test]
fn quad_indices_for_partial_batch() {
    assert_eq!(quad_indices(0), Vec::<u32>::new());
    assert_eq!(quad_indices(4), vec![0, 1, 2, 2, 3, 0]);
    assert_eq!(quad_indices(5), vec![0, 1, 2, 2, 3, 0, 4, 5, 6, 6, 7, 4]);
    assert_eq!(quad_indices(8).len(), 12);
}

#[test]
fn flush_only_when_needed() {
    let last = "assets".to_string();
    assert!(flush_source(0, &last, "other", true).is_none());
    assert!(flush_source(4, &last, "assets", false).is_none());
    match flush_source(4, &last, "assets", true) {
        Some(TextureSource::Sheet(name)) => assert_eq!(name, "assets"),
        _ => panic!("expected the sheet texture"),
    }
    match flush_source(4, &"white_texture".to_string(), "assets", false) {
        Some(TextureSource::White) => {}
        _ => panic!("expected the white texture"),
    }
}

fn tileset(first_gid: u32, tile_count: usize) -> TilesetInfo {
    TilesetInfo {
        first_gid,
        tile_count,
        tile_width: 16,
        tile_height: 16,
        spacing: 0,
        margin: 0,
        image_size: Some((64, 32)),
    }
}

#[test]
fn tiled_map_places_non_empty_cells() {
    let map = TileMapData {
        width: 2,
        height: 2,
        tile_width: 16,
        tile_height: 16,
        layers: vec![vec![vec![0, 6], vec![1, 0]], vec![vec![0, 0], vec![0, 3]]],
        tilesets: vec![tileset(1, 1)],
    };
    let m = TiledMap::new(&map);
    let src = |cell: u32| TileSource { tileset: 0, tiles_wide: 4, tiles_high: 2, column: (cell - 1) % 4, row: (cell - 1) / 4 };
    assert_eq!(
        m.data,
        vec![
            TileQuad { layer: 0, row: 0, column: 1, cell: 6, source: Some(src(6)) },
            TileQuad { layer: 0, row: 1, column: 0, cell: 1, source: Some(src(1)) },
            TileQuad { layer: 1, row: 1, column: 1, cell: 3, source: Some(src(3)) },
        ]
    );
}

#[test]
fn tiled_map_without_matching_tileset() {
    let map = TileMapData {
        width: 1,
        height: 1,
        tile_width: 8,
        tile_height: 8,
        layers: vec![vec![vec![2]]],
        tilesets: vec![tileset(5, 10)],
    };
    let m = TiledMap::new(&map);
    assert_eq!(m.data, vec![TileQuad { layer: 0, row: 0, column: 0, cell: 2, source: None }]);
}

#[test]
fn tiled_map_takes_first_covering_tileset() {
    let map = TileMapData {
        width: 1,
        height: 1,
        tile_width: 8,
        tile_height: 8,
        layers: vec![vec![vec![9]]],
        tilesets: vec![tileset(20, 4), tileset(3, 2), tileset(1, 1)],
    };
    let m = TiledMap::new(&map);
    assert_eq!(m.data[0].source.unwrap().tileset, 1);
    assert_eq!(m.data[0].source.unwrap().column, 0);
    assert_eq!(m.data[0].source.unwrap().row, 2);
}

#[test]
fn tiled_map_empty() {
    let map = TileMapData { width: 0, height: 0, tile_width: 8, tile_height: 8, layers: vec![], tilesets: vec![] };
    assert!(TiledMap::new(&map).data.is_empty());
}

#[test]
fn buildable_maps() {
    let mut map = TileMapData {
        width: 1,
        height: 1,
        tile_width: 8,
        tile_height: 8,
        layers: vec![vec![vec![1]]],
        tilesets: vec![tileset(1, 1)],
    };
    assert!(map.is_buildable());
    map.tilesets[0].image_size = None;
    assert!(!map.is_buildable());
    map.tilesets[0] = TilesetInfo { tile_width: 0, spacing: 0, ..tileset(1, 1) };
    assert!(!map.is_buildable());
    map.tilesets[0] = TilesetInfo { image_size: Some((8, 8)), ..tileset(1, 1) };
    assert!(!map.is_buildable());
    map.tilesets[0] = tileset(0, 0);
    assert!(!map.is_buildable());
    map.tilesets = vec![tileset(5, 1), TilesetInfo { image_size: None, ..tileset(1, 1) }];
    assert!(!map.is_buildable());
    map.tilesets = vec![tileset(1, 1), TilesetInfo { image_size: None, ..tileset(1, 1) }];
    assert!(map.is_buildable());
    map.height = u32::MAX;
    assert!(!map.is_buildable());
    map.layers = vec![vec![vec![0]]];
    assert!(map.is_buildable());
}

#[test]
fn sprite_batch_flushes_on_sheet_change() {
    let mut b = SpriteBatch::new();
    assert!(b.flush("assets", false).is_none());
    assert!(b.prepare_for("assets".to_string()).is_none());
    b.add_quad();
    b.add_quad();
    assert_eq!(b.vertex_count, 8);
    assert!(b.prepare_for("assets".to_string()).is_none());
    assert_eq!(b.vertex_count, 8);
    match b.prepare_for("white_texture".to_string()) {
        Some(TextureSource::Sheet(name)) => assert_eq!(name, "assets"),
        _ => panic!("expected the sheet texture"),
    }
    assert_eq!(b.vertex_count, 0);
    assert_eq!(b.last_sheet, "white_texture");
    b.add_quad();
    assert!(matches!(b.flush("", true), Some(TextureSource::White)));
    assert_eq!(b.vertex_count, 0);
    assert!(b.flush("", true).is_none());
}

#[test]
fn adding_a_layer_appends_its_quads() {
    let mut map = TileMapData {
        width: 2,
        height: 1,
        tile_width: 8,
        tile_height: 8,
        layers: vec![vec![vec![1, 0]]],
        tilesets: vec![tileset(1, 1)],
    };
    let before = TiledMap::new(&map).data;
    map.layers.push(vec![vec![2, 3]]);
    let after = TiledMap::new(&map).data;
    assert_eq!(after.len(), before.len() + 2);
    assert_eq!(&after[..before.len()], &before[..]);
    assert!(after[before.len()..].iter().all(|q| q.layer == 1));
}

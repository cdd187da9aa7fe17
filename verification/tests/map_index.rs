use tower_defense::{BlockTile, GameError, LayerData, MapData, TileCoordinate, WorldPosition};

fn layer(id: u32, name: &str, data: Vec<u32>) -> LayerData {
    LayerData { data, id, name: name.to_string() }
}

fn map(width: u32, height: u32, layers: Vec<LayerData>) -> MapData {
    MapData { layers, height, width, tileheight: 16, tilewidth: 32 }
}

fn at(x: u32, y: u32, layer: u32) -> TileCoordinate {
    TileCoordinate { x, y, layer }
}

#[test]
fn tile_lookup_on_two_by_two_level() {
    let m = map(2, 2, vec![layer(1, "ground", vec![0, 1, 2, 0])]);
    assert_eq!(m.get_id_in_point(at(0, 0, 0)), Ok(None));
    assert_eq!(m.get_id_in_point(at(1, 0, 0)), Ok(Some(0)));
    assert_eq!(m.get_id_in_point(at(0, 1, 0)), Ok(Some(1)));
    assert_eq!(m.get_id_in_point(at(1, 1, 0)), Ok(None));
}

#[test]
fn offset_is_row_times_width_plus_column() {
    let m = map(3, 2, vec![layer(1, "ground", vec![0; 6])]);
    assert_eq!(m.x_y_to_index(0, 0), 0);
    assert_eq!(m.x_y_to_index(2, 0), 2);
    assert_eq!(m.x_y_to_index(0, 1), 3);
    assert_eq!(m.x_y_to_index(1, 1), 4);
    assert_eq!(m.x_y_to_index(2, 1), 5);
}

#[test]
fn rows_of_a_wide_map_do_not_overlap() {
    let m = map(3, 2, vec![layer(1, "ground", vec![10, 11, 12, 20, 21, 22])]);
    assert_eq!(m.get_id_in_point(at(2, 0, 0)), Ok(Some(11)));
    assert_eq!(m.get_id_in_point(at(0, 1, 0)), Ok(Some(19)));
    assert_eq!(m.get_id_in_point(at(2, 1, 0)), Ok(Some(21)));
}

#[test]
fn write_is_read_back_at_every_coordinate() {
    let mut m = map(
        3,
        2,
        vec![layer(1, "ground", vec![0; 6]), layer(2, "walls", vec![0; 6])],
    );
    let mut value: u32 = 1;
    for l in 0..2 {
        for y in 0..2 {
            for x in 0..3 {
                assert_eq!(m.change_id_on_point(at(x, y, l), value), Ok(()));
                assert_eq!(m.get_id_in_point(at(x, y, l)), Ok(Some((value - 1) as usize)));
                value += 7;
            }
        }
    }
    assert_eq!(m.layers[0].data, vec![1, 8, 15, 22, 29, 36]);
    assert_eq!(m.layers[1].data, vec![43, 50, 57, 64, 71, 78]);
    assert_eq!(m.validate(), Ok(()));
}

#[test]
fn write_stores_the_value_as_it_is() {
    let mut m = map(2, 2, vec![layer(1, "ground", vec![5, 5, 5, 5])]);
    assert_eq!(m.change_id_on_point(at(1, 1, 0), 30), Ok(()));
    assert_eq!(m.layers[0].data, vec![5, 5, 5, 30]);
    assert_eq!(m.get_id_in_point(at(1, 1, 0)), Ok(Some(29)));
    assert_eq!(m.change_id_on_point(at(0, 0, 0), u32::MAX), Ok(()));
    assert_eq!(m.get_id_in_point(at(0, 0, 0)), Ok(Some((u32::MAX - 1) as usize)));
}

#[test]
fn write_changes_no_other_cell() {
    let mut m = map(
        2,
        2,
        vec![layer(1, "ground", vec![1, 2, 3, 4]), layer(2, "walls", vec![5, 6, 7, 8])],
    );
    assert_eq!(m.change_id_on_point(at(0, 1, 1), 99), Ok(()));
    assert_eq!(m.layers[0].data, vec![1, 2, 3, 4]);
    assert_eq!(m.layers[1].data, vec![5, 6, 99, 8]);
    assert_eq!(m.layers[1].id, 2);
    assert_eq!(m.layers[1].name, "walls");
    assert_eq!((m.width, m.height, m.tilewidth, m.tileheight), (2, 2, 32, 16));
}

#[test]
fn tile_is_none_exactly_for_stored_zero() {
    let mut m = map(2, 1, vec![layer(1, "ground", vec![0, 1])]);
    assert_eq!(m.get_id_in_point(at(0, 0, 0)), Ok(None));
    assert_eq!(m.get_id_in_point(at(1, 0, 0)), Ok(Some(0)));
    assert_eq!(m.change_id_on_point(at(1, 0, 0), 0), Ok(()));
    assert_eq!(m.get_id_in_point(at(1, 0, 0)), Ok(None));
    assert_eq!(m.change_id_on_point(at(0, 0, 0), 1), Ok(()));
    assert_eq!(m.get_id_in_point(at(0, 0, 0)), Ok(Some(0)));
}

#[test]
fn layer_is_found_by_id_not_by_place() {
    let m = map(
        1,
        1,
        vec![layer(3, "roof", vec![30]), layer(1, "ground", vec![10]), layer(2, "walls", vec![20])],
    );
    assert_eq!(m.layer_position(0), Some(1));
    assert_eq!(m.layer_position(1), Some(2));
    assert_eq!(m.layer_position(2), Some(0));
    assert_eq!(m.layer_position(3), None);
    assert_eq!(m.resolve_layer(0).map(|l| l.name.clone()), Ok("ground".to_string()));
    assert_eq!(m.resolve_layer(2).map(|l| l.id), Ok(3));
    assert_eq!(m.get_id_in_point(at(0, 0, 0)), Ok(Some(9)));
    assert_eq!(m.get_id_in_point(at(0, 0, 1)), Ok(Some(19)));
    assert_eq!(m.get_id_in_point(at(0, 0, 2)), Ok(Some(29)));
    assert_eq!(m.validate(), Ok(()));
}

#[test]
fn first_layer_wins_where_ids_repeat() {
    let m = map(1, 1, vec![layer(1, "first", vec![4]), layer(1, "second", vec![9])]);
    assert_eq!(m.layer_position(0), Some(0));
    assert_eq!(m.get_id_in_point(at(0, 0, 0)), Ok(Some(3)));
}

#[test]
fn missing_layer_is_reported() {
    let mut m = map(2, 2, vec![layer(1, "ground", vec![0, 1, 2, 0])]);
    assert_eq!(m.get_id_in_point(at(0, 0, 1)), Err(GameError::LayerNotFound));
    assert_eq!(m.get_id_in_point(at(0, 0, u32::MAX)), Err(GameError::LayerNotFound));
    assert_eq!(m.change_id_on_point(at(0, 0, 1), 5), Err(GameError::LayerNotFound));
    assert_eq!(m.resolve_layer(1).err(), Some(GameError::LayerNotFound));
    assert_eq!(m.layers[0].data, vec![0, 1, 2, 0]);
    let zero = map(1, 1, vec![layer(0, "nothing", vec![7])]);
    assert_eq!(zero.get_id_in_point(at(0, 0, 0)), Err(GameError::LayerNotFound));
}

#[test]
fn coordinate_outside_the_grid_is_reported() {
    let mut m = map(2, 2, vec![layer(1, "ground", vec![0, 1, 2, 0])]);
    assert_eq!(m.get_id_in_point(at(2, 0, 0)), Err(GameError::CoordinateOutOfBounds));
    assert_eq!(m.get_id_in_point(at(0, 2, 0)), Err(GameError::CoordinateOutOfBounds));
    assert_eq!(m.get_id_in_point(at(u32::MAX, u32::MAX, 0)), Err(GameError::CoordinateOutOfBounds));
    assert_eq!(m.change_id_on_point(at(2, 1, 0), 5), Err(GameError::CoordinateOutOfBounds));
    assert_eq!(m.change_id_on_point(at(1, 2, 0), 5), Err(GameError::CoordinateOutOfBounds));
    assert_eq!(m.layers[0].data, vec![0, 1, 2, 0]);
}

#[test]
fn layer_error_comes_before_coordinate_error() {
    let m = map(2, 2, vec![layer(1, "ground", vec![0, 1, 2, 0])]);
    assert_eq!(m.get_id_in_point(at(9, 9, 4)), Err(GameError::LayerNotFound));
}

#[test]
fn cell_beyond_a_short_layer_is_out_of_bounds() {
    let mut m = map(2, 2, vec![layer(1, "ground", vec![1, 2, 3])]);
    assert_eq!(m.get_id_in_point(at(0, 1, 0)), Ok(Some(2)));
    assert_eq!(m.get_id_in_point(at(1, 1, 0)), Err(GameError::CoordinateOutOfBounds));
    assert_eq!(m.change_id_on_point(at(1, 1, 0), 4), Err(GameError::CoordinateOutOfBounds));
    assert_eq!(m.layers[0].data, vec![1, 2, 3]);
}

#[test]
fn validate_accepts_a_loaded_map() {
    let m = map(
        2,
        3,
        vec![layer(2, "walls", vec![0; 6]), layer(1, "ground", vec![1; 6])],
    );
    assert_eq!(m.validate(), Ok(()));
    assert_eq!(map(0, 0, vec![]).validate(), Ok(()));
    assert_eq!(map(5, 0, vec![layer(1, "flat", vec![])]).validate(), Ok(()));
}

#[test]
fn validate_names_a_layer_of_the_wrong_size() {
    let short = map(2, 2, vec![layer(1, "ground", vec![0, 1, 2])]);
    assert_eq!(short.validate(), Err(GameError::LayerSizeMismatch));
    let long = map(
        2,
        2,
        vec![layer(1, "ground", vec![0; 4]), layer(2, "walls", vec![0; 5])],
    );
    assert_eq!(long.validate(), Err(GameError::LayerSizeMismatch));
}

#[test]
fn validate_names_a_repeated_id() {
    let m = map(
        1,
        1,
        vec![layer(1, "a", vec![0]), layer(2, "b", vec![0]), layer(1, "c", vec![0])],
    );
    assert_eq!(m.validate(), Err(GameError::DuplicateLayerId));
}

#[test]
fn validate_names_a_layer_index_without_layer() {
    let gap = map(1, 1, vec![layer(1, "a", vec![0]), layer(3, "c", vec![0])]);
    assert_eq!(gap.validate(), Err(GameError::LayerNotFound));
    let from_zero = map(1, 1, vec![layer(0, "a", vec![0]), layer(1, "b", vec![0])]);
    assert_eq!(from_zero.validate(), Err(GameError::LayerNotFound));
}

#[test]
fn validate_reports_size_before_ids() {
    let m = map(1, 1, vec![layer(1, "a", vec![0]), layer(1, "b", vec![])]);
    assert_eq!(m.validate(), Err(GameError::LayerSizeMismatch));
}

#[test]
fn world_position_is_centred_and_scaled() {
    let m = map(40, 40, vec![]);
    assert_eq!(m.coordinate_to_world(at(20, 20, 0)), WorldPosition { twice_x: 0, twice_y: 0 });
    assert_eq!(
        m.coordinate_to_world(at(0, 0, 0)),
        WorldPosition { twice_x: -1280, twice_y: 640 }
    );
    assert_eq!(
        m.coordinate_to_world(at(3, 2, 0)),
        WorldPosition { twice_x: -1088, twice_y: 576 }
    );
    assert_eq!(
        m.coordinate_to_world(at(3, 2, 7)),
        WorldPosition { twice_x: -1088, twice_y: 576 }
    );
    assert_eq!(
        m.coordinate_to_world(at(1, 0, 0)),
        WorldPosition { twice_x: -1216, twice_y: 640 }
    );
    assert_eq!(
        m.coordinate_to_world(at(0, 1, 0)),
        WorldPosition { twice_x: -1280, twice_y: 608 }
    );
    assert_eq!(
        m.coordinate_to_world(at(39, 39, 0)),
        WorldPosition { twice_x: 1216, twice_y: -608 }
    );
}

#[test]
fn world_position_keeps_the_half_tile_of_an_odd_map() {
    let m = MapData { layers: vec![], height: 5, width: 3, tileheight: 7, tilewidth: 5 };
    assert_eq!(m.coordinate_to_world(at(1, 2, 0)), WorldPosition { twice_x: -5, twice_y: 7 });
    assert_eq!(m.coordinate_to_world(at(2, 3, 0)), WorldPosition { twice_x: 5, twice_y: -7 });
    assert_eq!(m.coordinate_to_world(at(0, 0, 0)), WorldPosition { twice_x: -15, twice_y: 35 });
}

#[test]
fn world_position_of_the_largest_coordinate_fits() {
    let m = MapData { layers: vec![], height: 1, width: 1, tileheight: u32::MAX, tilewidth: 2 };
    let far = m.coordinate_to_world(at(u32::MAX, u32::MAX, 0));
    let reach: i128 = 2 * (u32::MAX as i128) - 1;
    assert_eq!(far.twice_x, reach * 2);
    assert_eq!(far.twice_y, -reach * (u32::MAX as i128));
    let wide = MapData {
        layers: vec![],
        height: u32::MAX,
        width: u32::MAX,
        tileheight: u32::MAX,
        tilewidth: u32::MAX,
    };
    let corner = wide.coordinate_to_world(at(0, 0, 0));
    assert_eq!(corner.twice_x, -(u32::MAX as i128) * (u32::MAX as i128));
    assert_eq!(corner.twice_y, (u32::MAX as i128) * (u32::MAX as i128));
}

#[test]
fn block_tile_shows_the_stored_sprite() {
    let m = map(2, 2, vec![layer(1, "ground", vec![0, 1, 2, 0])]);
    let tile = BlockTile;
    assert_eq!(tile.sprite(at(0, 0, 0), &m), None);
    assert_eq!(tile.sprite(at(1, 0, 0), &m), Some(0));
    assert_eq!(tile.sprite(at(0, 1, 0), &m), Some(1));
    assert_eq!(tile.sprite(at(2, 0, 0), &m), None);
    assert_eq!(tile.sprite(at(0, 0, 1), &m), None);
}

#[test]
fn default_map_is_empty_and_valid() {
    let m = MapData::default();
    assert_eq!(m.layers.len(), 0);
    assert_eq!((m.width, m.height, m.tilewidth, m.tileheight), (0, 0, 0, 0));
    assert_eq!(m.validate(), Ok(()));
    assert_eq!(m.get_id_in_point(at(0, 0, 0)), Err(GameError::LayerNotFound));
    let l = LayerData::default();
    assert_eq!((l.data.len(), l.id, l.name.as_str()), (0, 0, ""));
}

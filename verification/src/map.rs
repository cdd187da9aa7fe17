//! The map index: tile layers, and the way from a tile coordinate to
//! the tile stored there and to its place in the world.
//!
//! A layer index is resolved by id, not by the place of the layer in the
//! list: layer index `n` is the layer whose id is `n + 1`. Ids count from 1
//! upwards in the order in which the layers are drawn.

use vstd::prelude::*;
use crate::error::GameError;
use crate::search::{lemma_first_index, lemma_index_of_first, lemma_no_index};

verus! {

/// The address of a tile: column, row and layer index.
#[derive(Clone, Copy, Debug, PartialEq, Eq, Structural)]
pub struct TileCoordinate {
    pub x: u32,
    pub y: u32,
    pub layer: u32,
}

/// A place in the world, held as twice its coordinates: a map with an odd
/// number of columns or rows puts its tiles on half world units, and the
/// doubled values keep them exact.
#[derive(Clone, Copy, Debug, PartialEq, Eq, Structural)]
pub struct WorldPosition {
    pub twice_x: i128,
    pub twice_y: i128,
}

/// One layer of a map: a flat array of stored tile values, row after row.
///
/// A stored value of 0 means that the cell is empty; any other value is the
/// sprite index plus one.
#[derive(Clone, Debug, PartialEq, Eq)]
pub struct LayerData {
    pub data: Vec<u32>,
    pub id: u32,
    pub name: String,
}

/// What a [`LayerData`] stands for in contracts.
pub struct LayerModel {
    pub data: Seq<u32>,
    pub id: nat,
    pub name: Seq<char>,
}

impl View for LayerData {
    type V = LayerModel;

    open spec fn view(&self) -> LayerModel {
        LayerModel { data: self.data@, id: self.id as nat, name: self.name@ }
    }
}

/// A tile map: its layers, its size in tiles and the size of a tile.
#[derive(Clone, Debug, PartialEq, Eq)]
pub struct MapData {
    pub layers: Vec<LayerData>,
    pub height: u32,
    pub width: u32,
    pub tileheight: u32,
    pub tilewidth: u32,
}

/// What a [`MapData`] stands for in contracts.
pub struct MapModel {
    pub layers: Seq<LayerModel>,
    pub height: nat,
    pub width: nat,
    pub tileheight: nat,
    pub tilewidth: nat,
}

impl View for MapData {
    type V = MapModel;

    open spec fn view(&self) -> MapModel {
        MapModel {
            layers: self.layers@.map_values(|l: LayerData| l@),
            height: self.height as nat,
            width: self.width as nat,
            tileheight: self.tileheight as nat,
            tilewidth: self.tilewidth as nat,
        }
    }
}

impl Default for LayerData {
    /// A layer without cells, with id 0 and no name.
    fn default() -> (r: LayerData)
        ensures
            r@ == (LayerModel { data: Seq::empty(), id: 0, name: Seq::empty() }),
    {
        LayerData { data: Vec::new(), id: 0, name: String::new() }
    }
}

impl Default for MapData {
    /// The map without layers and without tiles.
    fn default() -> (r: MapData)
        ensures
            r@ == (MapModel {
                layers: Seq::empty(),
                height: 0,
                width: 0,
                tileheight: 0,
                tilewidth: 0,
            }),
            r@.wf(),
    {
        let r = MapData { layers: Vec::new(), height: 0, width: 0, tileheight: 0, tilewidth: 0 };
        assert(r@.layers =~= Seq::<LayerModel>::empty());
        r
    }
}

/// The tile that a stored value stands for: none for 0, else the value less
/// one.
pub open spec fn tile_of(raw: u32) -> Option<usize> {
    if raw == 0 {
        None
    } else {
        Some((raw - 1) as usize)
    }
}

impl MapModel {
    /// The ids of the layers, in stored order.
    pub open spec fn ids(self) -> Seq<nat> {
        self.layers.map_values(|l: LayerModel| l.id)
    }

    /// Whether some layer carries the id of this layer index.
    pub open spec fn has_layer(self, layer: nat) -> bool {
        self.ids().contains(layer + 1)
    }

    /// Where the layer of this layer index is stored: the first place whose
    /// layer carries the id `layer + 1`.
    pub open spec fn layer_position(self, layer: nat) -> Option<int> {
        self.ids().index_of_first(layer + 1)
    }

    /// The place of the cell of column `x` and row `y` in a layer's array.
    pub open spec fn offset(self, x: nat, y: nat) -> nat {
        y * self.width + x
    }

    /// The place in the array of the layer stored at `p` that the coordinate
    /// names, if it names one.
    pub open spec fn cell(self, p: int, c: TileCoordinate) -> Option<int> {
        if c.x < self.width && c.y < self.height && self.offset(c.x as nat, c.y as nat)
            < self.layers[p].data.len() {
            Some(self.offset(c.x as nat, c.y as nat) as int)
        } else {
            None
        }
    }

    /// The value stored at a coordinate.
    pub open spec fn raw_at(self, c: TileCoordinate) -> Result<u32, GameError> {
        match self.layer_position(c.layer as nat) {
            None => Err(GameError::LayerNotFound),
            Some(p) => match self.cell(p, c) {
                None => Err(GameError::CoordinateOutOfBounds),
                Some(k) => Ok(self.layers[p].data[k]),
            },
        }
    }

    /// The tile at a coordinate.
    pub open spec fn tile_at(self, c: TileCoordinate) -> Result<Option<usize>, GameError> {
        match self.raw_at(c) {
            Ok(raw) => Ok(tile_of(raw)),
            Err(e) => Err(e),
        }
    }

    /// The map in which the value stored at a coordinate is `raw` and all
    /// else is as before.
    pub open spec fn set_raw(self, c: TileCoordinate, raw: u32) -> Result<MapModel, GameError> {
        match self.layer_position(c.layer as nat) {
            None => Err(GameError::LayerNotFound),
            Some(p) => match self.cell(p, c) {
                None => Err(GameError::CoordinateOutOfBounds),
                Some(k) => Ok(
                    MapModel {
                        layers: self.layers.update(
                            p,
                            LayerModel {
                                data: self.layers[p].data.update(k, raw),
                                id: self.layers[p].id,
                                name: self.layers[p].name,
                            },
                        ),
                        height: self.height,
                        width: self.width,
                        tileheight: self.tileheight,
                        tilewidth: self.tilewidth,
                    },
                ),
            },
        }
    }

    /// The world position of the tile of column `x` and row `y`. The map
    /// lies around the world's origin and its rows run downwards: the tile
    /// stands at `((x - width / 2) * tilewidth, (height / 2 - y) * tileheight)`,
    /// which is, doubled, `((2x - width) * tilewidth, (height - 2y) * tileheight)`.
    pub open spec fn to_world(self, x: nat, y: nat) -> WorldPosition {
        WorldPosition {
            twice_x: ((2 * x - self.width) * self.tilewidth) as i128,
            twice_y: ((self.height - 2 * y) * self.tileheight) as i128,
        }
    }

    /// Whether every layer has one cell for each tile of the map.
    pub open spec fn sizes_match(self) -> bool {
        forall|p: int|
            0 <= p < self.layers.len() ==> (#[trigger] self.layers[p]).data.len() == self.width
                * self.height
    }

    /// Whether every layer index below the number of layers has its layer.
    pub open spec fn layers_complete(self) -> bool {
        forall|layer: nat| layer < self.layers.len() ==> #[trigger] self.has_layer(layer)
    }

    /// The invariant of a loaded map: every layer covers the whole grid, no
    /// two layers share an id, and every layer index resolves.
    pub open spec fn wf(self) -> bool {
        &&& self.sizes_match()
        &&& self.ids().no_duplicates()
        &&& self.layers_complete()
    }

    /// What `validate` reports: the first part of the invariant that fails.
    pub open spec fn first_fault(self) -> Result<(), GameError> {
        if !self.sizes_match() {
            Err(GameError::LayerSizeMismatch)
        } else if !self.ids().no_duplicates() {
            Err(GameError::DuplicateLayerId)
        } else if !self.layers_complete() {
            Err(GameError::LayerNotFound)
        } else {
            Ok(())
        }
    }
}

/// The first place at which a layer carries the id of a layer index is the
/// layer's position.
pub proof fn lemma_first_match(m: MapModel, layer: nat, p: int)
    requires
        0 <= p < m.layers.len(),
        m.layers[p].id == layer + 1,
        forall|q: int| 0 <= q < p ==> (#[trigger] m.layers[q]).id != layer + 1,
    ensures
        m.layer_position(layer) == Some(p),
        m.has_layer(layer),
{
    let ids = m.ids();
    assert forall|q: int| 0 <= q < p implies ids[q] != layer + 1 by {
        assert(m.layers[q].id != layer + 1);
    }
    lemma_first_index(ids, (layer + 1) as nat, p);
}

/// No layer carries the id of a layer index that has no position.
pub proof fn lemma_no_match(m: MapModel, layer: nat)
    requires
        forall|q: int| 0 <= q < m.layers.len() ==> (#[trigger] m.layers[q]).id != layer + 1,
    ensures
        m.layer_position(layer) is None,
        !m.has_layer(layer),
{
    let ids = m.ids();
    assert forall|q: int| 0 <= q < ids.len() implies ids[q] != layer + 1 by {
        assert(m.layers[q].id != layer + 1);
    }
    lemma_no_index(ids, (layer + 1) as nat);
}

/// A layer's position is a place in the list, and the layer there carries
/// the id of the layer index.
pub proof fn lemma_layer_position(m: MapModel, layer: nat)
    ensures
        m.layer_position(layer) is Some <==> m.has_layer(layer),
        m.layer_position(layer) matches Some(p) ==> 0 <= p < m.layers.len() && m.layers[p].id
            == layer + 1,
{
    lemma_index_of_first(m.ids(), (layer + 1) as nat);
}

/// On a well-formed map every coordinate inside the grid, on a layer index
/// below the number of layers, names a cell.
pub proof fn lemma_in_grid_is_stored(m: MapModel, c: TileCoordinate)
    requires
        m.wf(),
        c.x < m.width,
        c.y < m.height,
        c.layer < m.layers.len(),
    ensures
        m.raw_at(c) is Ok,
        m.tile_at(c) is Ok,
        forall|raw: u32| #[trigger] m.set_raw(c, raw) is Ok,
{
    assert(m.has_layer(c.layer as nat));
    lemma_layer_position(m, c.layer as nat);
    let p = m.layer_position(c.layer as nat)->Some_0;
    assert(m.layers[p].data.len() == m.width * m.height);
    lemma_offset_in_grid(m.width, m.height, c.x as nat, c.y as nat);
}

/// Row-major offsets of cells inside a grid stay below the grid's area.
pub proof fn lemma_offset_in_grid(width: nat, height: nat, x: nat, y: nat)
    requires
        x < width,
        y < height,
    ensures
        y * width + x < width * height,
{
    assert(y * width + x < width * height) by (nonlinear_arith)
        requires
            x < width,
            y < height,
    ;
}

/// Two cells of a grid share an offset only if they are the same cell.
pub proof fn lemma_offset_injective(width: nat, x1: nat, y1: nat, x2: nat, y2: nat)
    requires
        x1 < width,
        x2 < width,
        y1 * width + x1 == y2 * width + x2,
    ensures
        x1 == x2,
        y1 == y2,
{
    assert(y1 == y2 && x1 == x2) by (nonlinear_arith)
        requires
            x1 < width,
            x2 < width,
            y1 * width + x1 == y2 * width + x2,
    ;
}

/// A write is read back: after `raw` is stored at a coordinate, the value
/// stored there is `raw`, and the tile there is `raw - 1` unless `raw` is 0.
pub proof fn lemma_write_then_read(m: MapModel, c: TileCoordinate, raw: u32)
    requires
        m.set_raw(c, raw) is Ok,
    ensures
        m.set_raw(c, raw)->Ok_0.raw_at(c) == Ok::<u32, GameError>(raw),
        m.set_raw(c, raw)->Ok_0.tile_at(c) == Ok::<Option<usize>, GameError>(tile_of(raw)),
        raw > 0 ==> m.set_raw(c, raw)->Ok_0.tile_at(c) == Ok::<Option<usize>, GameError>(
            Some((raw - 1) as usize),
        ),
{
    let after = m.set_raw(c, raw)->Ok_0;
    lemma_layer_position(m, c.layer as nat);
    assert(after.ids() =~= m.ids());
}

/// The round trip on a well-formed map: for every coordinate inside the grid
/// the write succeeds and is read back exactly.
pub proof fn lemma_round_trip(m: MapModel, c: TileCoordinate, raw: u32)
    requires
        m.wf(),
        c.x < m.width,
        c.y < m.height,
        c.layer < m.layers.len(),
        raw > 0,
    ensures
        m.set_raw(c, raw) is Ok,
        m.set_raw(c, raw)->Ok_0.tile_at(c) == Ok::<Option<usize>, GameError>(
            Some((raw - 1) as usize),
        ),
{
    lemma_in_grid_is_stored(m, c);
    lemma_write_then_read(m, c, raw);
}

/// A write keeps the map well formed.
pub proof fn lemma_write_keeps_wf(m: MapModel, c: TileCoordinate, raw: u32)
    requires
        m.wf(),
        m.set_raw(c, raw) is Ok,
    ensures
        m.set_raw(c, raw)->Ok_0.wf(),
{
    let after = m.set_raw(c, raw)->Ok_0;
    lemma_layer_position(m, c.layer as nat);
    assert(after.ids() =~= m.ids());
    assert forall|layer: nat| layer < after.layers.len() implies #[trigger] after.has_layer(
        layer,
    ) by {
        assert(m.has_layer(layer));
    }
}

/// A write changes one cell only: on a well-formed map every other
/// coordinate reads as before.
pub proof fn lemma_write_keeps_others(
    m: MapModel,
    c: TileCoordinate,
    raw: u32,
    other: TileCoordinate,
)
    requires
        m.wf(),
        m.set_raw(c, raw) is Ok,
        other != c,
    ensures
        m.set_raw(c, raw)->Ok_0.raw_at(other) == m.raw_at(other),
        m.set_raw(c, raw)->Ok_0.tile_at(other) == m.tile_at(other),
{
    let after = m.set_raw(c, raw)->Ok_0;
    lemma_layer_position(m, c.layer as nat);
    assert(after.ids() =~= m.ids());
    lemma_layer_position(m, other.layer as nat);
    let p = m.layer_position(c.layer as nat)->Some_0;
    if m.layer_position(other.layer as nat) is Some {
        let q = m.layer_position(other.layer as nat)->Some_0;
        if q == p {
            assert(m.ids()[p] == m.layers[p].id);
            assert(c.layer == other.layer);
            if m.cell(q, other) is Some {
                if m.offset(other.x as nat, other.y as nat) == m.offset(c.x as nat, c.y as nat) {
                    lemma_offset_injective(
                        m.width,
                        c.x as nat,
                        c.y as nat,
                        other.x as nat,
                        other.y as nat,
                    );
                }
            }
        }
    }
}

/// World positions scale with the size of a tile: one column to the right
/// is one tile width further along, one row down is one tile height lower,
/// and the middle of the map is the origin.
pub proof fn lemma_world_steps(m: MapModel, x: nat, y: nat)
    requires
        m.width <= u32::MAX,
        m.height <= u32::MAX,
        m.tilewidth <= u32::MAX,
        m.tileheight <= u32::MAX,
        x < u32::MAX,
        y < u32::MAX,
    ensures
        m.to_world(x + 1, y).twice_x - m.to_world(x, y).twice_x == 2 * m.tilewidth,
        m.to_world(x, y + 1).twice_y - m.to_world(x, y).twice_y == -2 * m.tileheight,
        m.to_world(x + 1, y).twice_y == m.to_world(x, y).twice_y,
        m.to_world(x, y + 1).twice_x == m.to_world(x, y).twice_x,
        2 * x == m.width ==> m.to_world(x, y).twice_x == 0,
        2 * y == m.height ==> m.to_world(x, y).twice_y == 0,
{
    let w = m.width as int;
    let h = m.height as int;
    let tw = m.tilewidth as int;
    let th = m.tileheight as int;
    assert forall|a: int, b: int|
        -0x2_0000_0000 <= a <= 0x2_0000_0000 && 0 <= b <= 0x1_0000_0000 implies -0x2_0000_0000
        * 0x1_0000_0000 <= #[trigger] (a * b) <= 0x2_0000_0000 * 0x1_0000_0000 by {
        assert(-0x2_0000_0000 * 0x1_0000_0000 <= a * b <= 0x2_0000_0000 * 0x1_0000_0000)
            by (nonlinear_arith)
            requires
                -0x2_0000_0000 <= a <= 0x2_0000_0000,
                0 <= b <= 0x1_0000_0000,
        ;
    }
    assert((2 * (x + 1) - w) * tw == (2 * x - w) * tw + 2 * tw) by (nonlinear_arith);
    assert((h - 2 * (y + 1)) * th == (h - 2 * y) * th - 2 * th) by (nonlinear_arith);
    assert(2 * x == w ==> (2 * x - w) * tw == 0) by (nonlinear_arith);
    assert(2 * y == h ==> (h - 2 * y) * th == 0) by (nonlinear_arith);
}

impl MapData {
    /// Where the layer of a layer index is stored: the first place whose
    /// layer carries the id `layer_index + 1`.
    pub fn layer_position(&self, layer_index: u32) -> (r: Option<usize>)
        ensures
            match r {
                Some(p) => self@.layer_position(layer_index as nat) == Some(p as int) && p
                    < self.layers.len() && self.layers[p as int].id == layer_index + 1,
                None => self@.layer_position(layer_index as nat) is None,
            },
            r is Some <==> self@.has_layer(layer_index as nat),
    {
        let mut p: usize = 0;
        while p < self.layers.len()
            invariant
                p <= self.layers.len(),
                forall|q: int| 0 <= q < p ==> (#[trigger] self@.layers[q]).id != layer_index + 1,
            decreases self.layers.len() - p,
        {
            if self.layers[p].id as u64 == layer_index as u64 + 1 {
                proof {
                    assert(self@.layers[p as int].id == layer_index + 1);
                    lemma_first_match(self@, layer_index as nat, p as int);
                }
                return Some(p);
            }
            assert(self@.layers[p as int].id != layer_index + 1);
            p = p + 1;
        }
        proof {
            lemma_no_match(self@, layer_index as nat);
        }
        None
    }

    /// The layer of a layer index: the layer whose id is `layer_index + 1`.
    pub fn resolve_layer(&self, layer_index: u32) -> (r: Result<&LayerData, GameError>)
        ensures
            match self@.layer_position(layer_index as nat) {
                Some(p) => r is Ok && *(r->Ok_0) == self.layers[p] && r->Ok_0.id == layer_index
                    + 1,
                None => r == Err::<&LayerData, GameError>(GameError::LayerNotFound),
            },
            r is Ok <==> self@.has_layer(layer_index as nat),
    {
        match self.layer_position(layer_index) {
            Some(p) => Ok(&self.layers[p]),
            None => Err(GameError::LayerNotFound),
        }
    }

    /// The row-major offset of a cell, wide enough for every column and row.
    fn flat_offset(&self, x: u32, y: u32) -> (r: u64)
        ensures
            r == self@.offset(x as nat, y as nat),
    {
        assert(y * self.width <= 0xffff_ffff * 0xffff_ffff) by (nonlinear_arith)
            requires
                y <= 0xffff_ffff,
                self.width <= 0xffff_ffff,
        ;
        y as u64 * self.width as u64 + x as u64
    }

    /// The place of the cell of column `x` and row `y` in a layer's array:
    /// `y * width + x`. The offset has to fit the machine's index type, as
    /// the offset of every stored cell does.
    pub fn x_y_to_index(&self, x: u32, y: u32) -> (r: usize)
        requires
            y * self.width + x <= usize::MAX,
        ensures
            r == y * self.width + x,
            r == self@.offset(x as nat, y as nat),
    {
        self.flat_offset(x, y) as usize
    }

    /// The place in the array of the layer stored at `p` that the coordinate
    /// names. Reading and writing both find their cell here.
    fn cell_index(&self, p: usize, point: TileCoordinate) -> (r: Option<usize>)
        requires
            p < self.layers.len(),
        ensures
            match self@.cell(p as int, point) {
                Some(k) => r == Some(k as usize) && k < self.layers[p as int].data.len(),
                None => r is None,
            },
    {
        if point.x >= self.width || point.y >= self.height {
            return None;
        }
        if self.flat_offset(point.x, point.y) < self.layers[p].data.len() as u64 {
            Some(self.x_y_to_index(point.x, point.y))
        } else {
            None
        }
    }

    /// The tile at a coordinate: none where the stored value is 0, else the
    /// stored value less one.
    pub fn get_id_in_point(&self, point: TileCoordinate) -> (r: Result<Option<usize>, GameError>)
        ensures
            r == self@.tile_at(point),
            r == Ok::<Option<usize>, GameError>(None) <==> self@.raw_at(point) == Ok::<
                u32,
                GameError,
            >(0),
            r == Err::<Option<usize>, GameError>(GameError::LayerNotFound) <==> !self@.has_layer(
                point.layer as nat,
            ),
            self@.wf() && point.x < self.width && point.y < self.height && point.layer
                < self.layers.len() ==> r is Ok,
    {
        proof {
            lemma_layer_position(self@, point.layer as nat);
            if self@.wf() && point.x < self.width && point.y < self.height && point.layer
                < self.layers.len() {
                lemma_in_grid_is_stored(self@, point);
            }
        }
        let p: usize = match self.layer_position(point.layer) {
            Some(p) => p,
            None => {
                return Err(GameError::LayerNotFound);
            },
        };
        match self.cell_index(p, point) {
            None => Err(GameError::CoordinateOutOfBounds),
            Some(k) => {
                let raw: u32 = self.layers[p].data[k];
                if raw == 0 {
                    Ok(None)
                } else {
                    Ok(Some((raw - 1) as usize))
                }
            },
        }
    }

    /// Stores `new_id` at a coordinate, as it is: the caller passes the
    /// stored value, 0 for an empty cell and the sprite index plus one
    /// otherwise.
    pub fn change_id_on_point(&mut self, point: TileCoordinate, new_id: u32) -> (r: Result<
        (),
        GameError,
    >)
        ensures
            match old(self)@.set_raw(point, new_id) {
                Ok(m) => r is Ok && final(self)@ == m,
                Err(e) => r == Err::<(), GameError>(e) && *final(self) == *old(self),
            },
            r is Ok ==> final(self)@.raw_at(point) == Ok::<u32, GameError>(new_id),
            r is Ok ==> final(self)@.tile_at(point) == Ok::<Option<usize>, GameError>(
                tile_of(new_id),
            ),
            old(self)@.wf() ==> final(self)@.wf(),
            old(self)@.wf() && point.x < old(self).width && point.y < old(self).height
                && point.layer < old(self).layers.len() ==> r is Ok,
    {
        proof {
            if self@.wf() && point.x < self.width && point.y < self.height && point.layer
                < self.layers.len() {
                lemma_in_grid_is_stored(self@, point);
            }
            if self@.set_raw(point, new_id) is Ok {
                lemma_write_then_read(self@, point, new_id);
                if self@.wf() {
                    lemma_write_keeps_wf(self@, point, new_id);
                }
            }
        }
        let p: usize = match self.layer_position(point.layer) {
            Some(p) => p,
            None => {
                return Err(GameError::LayerNotFound);
            },
        };
        match self.cell_index(p, point) {
            None => Err(GameError::CoordinateOutOfBounds),
            Some(k) => {
                self.layers[p].data[k] = new_id;
                proof {
                    let m = old(self)@.set_raw(point, new_id)->Ok_0;
                    assert(self@.layers[p as int].data =~= m.layers[p as int].data);
                    assert(self@.layers =~= m.layers);
                }
                Ok(())
            },
        }
    }

    /// Checks the invariant of a loaded map and names the first part of it
    /// that fails: a layer that does not cover the grid, then two layers with
    /// one id, then a layer index without its layer.
    pub fn validate(&self) -> (r: Result<(), GameError>)
        ensures
            r == self@.first_fault(),
            r is Ok <==> self@.wf(),
    {
        assert(self.width * self.height <= 0xffff_ffff * 0xffff_ffff) by (nonlinear_arith)
            requires
                self.width <= 0xffff_ffff,
                self.height <= 0xffff_ffff,
        ;
        let area: u64 = self.width as u64 * self.height as u64;
        let count: usize = self.layers.len();
        let mut p: usize = 0;
        while p < count
            invariant
                p <= count,
                count == self.layers.len(),
                area == self.width * self.height,
                forall|q: int| 0 <= q < p ==> (#[trigger] self@.layers[q]).data.len() == area,
            decreases count - p,
        {
            if self.layers[p].data.len() as u64 != area {
                assert(self@.layers[p as int].data.len() != self@.width * self@.height);
                return Err(GameError::LayerSizeMismatch);
            }
            assert(self@.layers[p as int].data.len() == area);
            p = p + 1;
        }
        assert(self@.sizes_match());
        let mut i: usize = 0;
        while i < count
            invariant
                i <= count,
                count == self.layers.len(),
                self@.sizes_match(),
                forall|a: int, b: int| 0 <= a < i && a < b < count ==> self@.ids()[a] != self@.ids()[b],
            decreases count - i,
        {
            let mut j: usize = i + 1;
            while j < count
                invariant
                    i < j <= count,
                    count == self.layers.len(),
                    self@.sizes_match(),
                    forall|a: int, b: int|
                        0 <= a < i && a < b < count ==> self@.ids()[a] != self@.ids()[b],
                    forall|b: int| i < b < j ==> self@.ids()[i as int] != self@.ids()[b],
                decreases count - j,
            {
                if self.layers[i].id == self.layers[j].id {
                    assert(self@.ids()[i as int] == self@.ids()[j as int]);
                    return Err(GameError::DuplicateLayerId);
                }
                assert(self@.ids()[i as int] != self@.ids()[j as int]);
                j = j + 1;
            }
            i = i + 1;
        }
        assert(self@.ids().no_duplicates()) by {
            assert forall|a: int, b: int|
                0 <= a < self@.ids().len() && 0 <= b < self@.ids().len() && a != b implies self@.ids()[a]
                != self@.ids()[b] by {
                if a < b {
                    assert(self@.ids()[a] != self@.ids()[b]);
                } else {
                    assert(self@.ids()[b] != self@.ids()[a]);
                }
            }
        }
        let mut layer: usize = 0;
        while layer < count
            invariant
                layer <= count,
                count == self.layers.len(),
                self@.sizes_match(),
                self@.ids().no_duplicates(),
                forall|l: nat| l < layer ==> #[trigger] self@.has_layer(l),
            decreases count - layer,
        {
            if layer > u32::MAX as usize {
                proof {
                    assert forall|q: int| 0 <= q < self@.layers.len() implies (
                    #[trigger] self@.layers[q]).id != layer + 1 by {
                        assert(self@.layers[q].id == self.layers[q].id);
                    }
                    lemma_no_match(self@, layer as nat);
                }
                return Err(GameError::LayerNotFound);
            }
            if self.layer_position(layer as u32).is_none() {
                assert(!self@.has_layer(layer as nat));
                return Err(GameError::LayerNotFound);
            }
            layer = layer + 1;
        }
        assert(self@.layers_complete());
        Ok(())
    }

    /// The world position of a tile: its column and row, shifted by half the
    /// map so that the map lies around the origin, with the rows running
    /// downwards, and scaled by the width and height of a tile.
    pub fn coordinate_to_world(&self, coordinate: TileCoordinate) -> (r: WorldPosition)
        ensures
            r == self@.to_world(coordinate.x as nat, coordinate.y as nat),
            r.twice_x == (2 * coordinate.x - self.width) * self.tilewidth,
            r.twice_y == (self.height - 2 * coordinate.y) * self.tileheight,
    {
        let across: i128 = 2 * (coordinate.x as i128) - self.width as i128;
        let down: i128 = self.height as i128 - 2 * (coordinate.y as i128);
        let tile_width: i128 = self.tilewidth as i128;
        let tile_height: i128 = self.tileheight as i128;
        assert(-0x2_0000_0000 * 0x1_0000_0000 <= across * tile_width <= 0x2_0000_0000
            * 0x1_0000_0000) by (nonlinear_arith)
            requires
                -0x2_0000_0000 <= across <= 0x2_0000_0000,
                0 <= tile_width <= 0x1_0000_0000,
        ;
        assert(-0x2_0000_0000 * 0x1_0000_0000 <= down * tile_height <= 0x2_0000_0000
            * 0x1_0000_0000) by (nonlinear_arith)
            requires
                -0x2_0000_0000 <= down <= 0x2_0000_0000,
                0 <= tile_height <= 0x1_0000_0000,
        ;
        WorldPosition { twice_x: across * tile_width, twice_y: down * tile_height }
    }
}

/// The tile behaviour of the map: every cell shows the sprite stored for it.
#[derive(Clone, Copy, Debug, Default, PartialEq, Eq, Structural)]
pub struct BlockTile;

impl BlockTile {
    /// The sprite to draw at a coordinate: the tile stored there, and none
    /// for an empty cell or a coordinate that names no cell.
    pub fn sprite(&self, point: TileCoordinate, map: &MapData) -> (r: Option<usize>)
        ensures
            r == match map@.tile_at(point) {
                Ok(tile) => tile,
                Err(_) => None,
            },
    {
        match map.get_id_in_point(point) {
            Ok(tile) => tile,
            Err(_) => None,
        }
    }
}

} // verus!

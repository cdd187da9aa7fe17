//! Units: the catalogue of unit types, and the request to spawn one.

use vstd::prelude::*;
use crate::error::GameError;
use crate::level::{LevelInfo, LevelModel, SpawnPoint};
use crate::map::{MapData, MapModel, TileCoordinate, WorldPosition};
use crate::search::{lemma_first_index, lemma_no_index};

verus! {

/// The team of every unit that a wave spawns.
pub const ENEMY_TEAM: u32 = 1;

/// The layer on which units enter the map.
pub const SPAWN_LAYER: u32 = 2;

/// A kind of unit: its name and the sprite that shows it.
#[derive(Clone, Debug, PartialEq, Eq)]
pub struct UnitType {
    pub name: String,
    pub sprite_name: String,
    pub sprite_id: u32,
}

/// The catalogue of unit types, in the order of the unit file.
#[derive(Clone, Debug, PartialEq, Eq)]
pub struct UnitTyes {
    pub types: Vec<UnitType>,
}

impl Default for UnitTyes {
    /// The catalogue without unit types.
    fn default() -> (r: UnitTyes)
        ensures
            r.types@ == Seq::<UnitType>::empty(),
    {
        UnitTyes { types: Vec::new() }
    }
}

impl UnitTyes {
    /// The names of the unit types, in catalogue order.
    pub open spec fn names(&self) -> Seq<Seq<char>> {
        self.types@.map_values(|t: UnitType| t.name@)
    }

    /// The place of the first unit type of that name in the catalogue.
    pub fn find(&self, name: &String) -> (r: Option<usize>)
        ensures
            match r {
                Some(p) => self.names().index_of_first(name@) == Some(p as int) && p
                    < self.types.len() && self.types[p as int].name@ == name@,
                None => self.names().index_of_first(name@) is None,
            },
            r is Some <==> self.names().contains(name@),
    {
        let mut p: usize = 0;
        while p < self.types.len()
            invariant
                p <= self.types.len(),
                forall|q: int| 0 <= q < p ==> self.names()[q] != name@,
            decreases self.types.len() - p,
        {
            if self.types[p].name == *name {
                proof {
                    lemma_first_index(self.names(), name@, p as int);
                }
                return Some(p);
            }
            p = p + 1;
        }
        proof {
            lemma_no_index(self.names(), name@);
        }
        None
    }
}

/// What the scheduler asks of the world: a unit of a type, at a place, on a
/// team.
#[derive(Clone, Debug, PartialEq, Eq)]
pub struct SpawnRequest {
    pub unit_name: String,
    pub position: WorldPosition,
    pub team: u32,
}

/// What a [`SpawnRequest`] stands for in contracts.
pub struct SpawnRequestModel {
    pub unit_name: Seq<char>,
    pub position: WorldPosition,
    pub team: nat,
}

impl View for SpawnRequest {
    type V = SpawnRequestModel;

    open spec fn view(&self) -> SpawnRequestModel {
        SpawnRequestModel {
            unit_name: self.unit_name@,
            position: self.position,
            team: self.team as nat,
        }
    }
}

/// The spawn point of spawn number `index`: the points take turns.
pub open spec fn spawn_point_of(level: LevelModel, index: nat) -> SpawnPoint
    recommends
        level.enemy_spawn.len() > 0,
{
    level.enemy_spawn[(index as int) % (level.enemy_spawn.len() as int)]
}

/// The request for spawn number `index` of a wave: the unit type whose turn
/// it is, at the world position of the spawn point whose turn it is.
pub open spec fn spawn_request(level: LevelModel, map: MapModel, wave: nat, index: nat) -> Result<
    SpawnRequestModel,
    GameError,
> {
    if level.enemy_spawn.len() == 0 {
        Err(GameError::NoSpawnPoints)
    } else {
        match level.unit_by_index(wave, index) {
            Err(e) => Err(e),
            Ok(name) => Ok(
                SpawnRequestModel {
                    unit_name: name,
                    position: map.to_world(
                        spawn_point_of(level, index).x as nat,
                        spawn_point_of(level, index).y as nat,
                    ),
                    team: ENEMY_TEAM as nat,
                },
            ),
        }
    }
}

/// Decides what spawn number `index` of a wave brings into the world.
///
/// Fails with `NoSpawnPoints` on a level without spawn points, else with
/// `WaveIndexOutOfRange` or `SpawnIndexExhausted` as `get_unit_by_index` does.
pub fn spawn_unit(level: &LevelInfo, map: &MapData, wave: u32, index: u32) -> (r: Result<
    SpawnRequest,
    GameError,
>)
    ensures
        match spawn_request(level@, map@, wave as nat, index as nat) {
            Ok(request) => r is Ok && r->Ok_0@ == request,
            Err(e) => r == Err::<SpawnRequest, GameError>(e),
        },
{
    let points: usize = level.enemy_spawn.len();
    if points == 0 {
        return Err(GameError::NoSpawnPoints);
    }
    let unit_name: String = match level.get_unit_by_index(wave, index) {
        Ok(name) => name,
        Err(e) => {
            return Err(e);
        },
    };
    let point: SpawnPoint = level.enemy_spawn[(index as usize) % points];
    let position: WorldPosition = map.coordinate_to_world(
        TileCoordinate { x: point.x, y: point.y, layer: SPAWN_LAYER },
    );
    Ok(SpawnRequest { unit_name, position, team: ENEMY_TEAM })
}

} // verus!

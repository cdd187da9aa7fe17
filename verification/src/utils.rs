//! Helpers that tie the level info to the map.

use vstd::prelude::*;
use crate::level::{LevelInfo, SpawnPoint};
use crate::map::{MapData, TileCoordinate, WorldPosition};
use crate::unit::SPAWN_LAYER;

verus! {

/// The world positions of the enemy spawn points, in declared order.
pub fn get_world_spawn_points(level: &LevelInfo, map: &MapData) -> (r: Vec<WorldPosition>)
    ensures
        r@ == level@.enemy_spawn.map_values(
            |p: SpawnPoint| map@.to_world(p.x as nat, p.y as nat),
        ),
{
    let mut spawn_points: Vec<WorldPosition> = Vec::new();
    let mut i: usize = 0;
    while i < level.enemy_spawn.len()
        invariant
            i <= level.enemy_spawn.len(),
            spawn_points@ == level@.enemy_spawn.take(i as int).map_values(
                |p: SpawnPoint| map@.to_world(p.x as nat, p.y as nat),
            ),
        decreases level.enemy_spawn.len() - i,
    {
        let point: SpawnPoint = level.enemy_spawn[i];
        spawn_points.push(
            map.coordinate_to_world(TileCoordinate { x: point.x, y: point.y, layer: SPAWN_LAYER }),
        );
        assert(spawn_points@ =~= level@.enemy_spawn.take(i + 1).map_values(
            |p: SpawnPoint| map@.to_world(p.x as nat, p.y as nat),
        ));
        i = i + 1;
    }
    assert(level@.enemy_spawn.take(i as int) =~= level@.enemy_spawn);
    spawn_points
}

} // verus!

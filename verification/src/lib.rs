//! Tile-map addressing and wave scheduling for a tower-defence game.

pub mod error;
pub mod level;
pub mod map;
pub mod play;
pub mod search;
pub mod unit;
pub mod utils;

pub use error::GameError;
pub use level::{LevelInfo, SpawnPoint, UnitCount};
pub use map::{BlockTile, LayerData, MapData, TileCoordinate, WorldPosition};
pub use play::{PlayState, WavePhase};
pub use unit::{spawn_unit, SpawnRequest, UnitTyes, UnitType, ENEMY_TEAM, SPAWN_LAYER};
pub use utils::get_world_spawn_points;

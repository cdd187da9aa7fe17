//! The wave scheduler: the cursor of a play session and the rule by which it
//! moves on each tick of the simulation clock.
//!
//! A session is idle until it starts, spawns while its wave has units left,
//! and is complete once the last unit has spawned. A tick spawns one unit if
//! the spawn interval has passed since the last spawn; the first spawn falls
//! due one interval after the clock's zero.

use vstd::prelude::*;
use crate::error::GameError;
use crate::level::{lemma_exhausted_from_count, LevelInfo, LevelModel};
use crate::map::{MapData, MapModel};
use crate::unit::{spawn_request, spawn_unit, SpawnRequest, SpawnRequestModel};

verus! {

/// Where a started session stands.
#[derive(Clone, Copy, Debug, PartialEq, Eq, Structural)]
pub enum WavePhase {
    /// The wave has units left to spawn.
    Spawning,
    /// Every unit of the wave has spawned.
    WaveComplete,
}

/// The spawn cursor of a play session: the wave, the number of units
/// spawned so far and the time of the last spawn, in milliseconds.
#[derive(Clone, Copy, Debug, PartialEq, Eq, Structural)]
pub struct PlayState {
    pub wave: u32,
    pub index_spawn: u32,
    pub last_spawn_time: u128,
}

/// What a tick brings: the cursor after it, and what it asks of the world.
pub struct Tick {
    pub state: PlayState,
    pub outcome: Result<Option<SpawnRequestModel>, GameError>,
}

impl PlayState {
    /// Whether the spawn interval has passed since the last spawn.
    pub open spec fn interval_elapsed(self, level: LevelModel, now: u128) -> bool {
        now - self.last_spawn_time >= level.spawn_speed
    }

    /// Whether the session can start on this level: the wave exists, its
    /// units can be counted, and there is a place for them to enter.
    pub open spec fn can_start(level: LevelModel, wave: u32) -> Result<(), GameError> {
        match level.units_count(wave as nat) {
            Err(e) => Err(e),
            Ok(_) => if level.enemy_spawn.len() == 0 {
                Err(GameError::NoSpawnPoints)
            } else {
                Ok(())
            },
        }
    }

    /// Where the session stands on this level.
    pub open spec fn phase_on(self, level: LevelModel) -> Result<WavePhase, GameError> {
        match level.units_count(self.wave as nat) {
            Err(e) => Err(e),
            Ok(count) => if self.index_spawn < count {
                Ok(WavePhase::Spawning)
            } else {
                Ok(WavePhase::WaveComplete)
            },
        }
    }

    /// The rule of the scheduler. Before the interval has passed nothing
    /// happens. After it, a session that is spawning emits the request for
    /// its next unit, counts it and notes the time; a complete session emits
    /// nothing. A failure leaves the cursor as it was.
    pub open spec fn tick(self, level: LevelModel, map: MapModel, now: u128) -> Tick {
        if !self.interval_elapsed(level, now) {
            Tick { state: self, outcome: Ok(None) }
        } else {
            match self.phase_on(level) {
                Err(e) => Tick { state: self, outcome: Err(e) },
                Ok(WavePhase::WaveComplete) => Tick { state: self, outcome: Ok(None) },
                Ok(WavePhase::Spawning) => match spawn_request(
                    level,
                    map,
                    self.wave as nat,
                    self.index_spawn as nat,
                ) {
                    Err(e) => Tick { state: self, outcome: Err(e) },
                    Ok(request) => Tick {
                        state: PlayState {
                            wave: self.wave,
                            index_spawn: (self.index_spawn + 1) as u32,
                            last_spawn_time: now,
                        },
                        outcome: Ok(Some(request)),
                    },
                },
            }
        }
    }

    /// The cursor of a session that has just started on a wave.
    pub fn new(wave: u32) -> (state: PlayState)
        ensures
            state == (PlayState { wave, index_spawn: 0, last_spawn_time: 0 }),
    {
        PlayState { wave, index_spawn: 0, last_spawn_time: 0 }
    }

    /// Starts a session on a wave of a level, after checking what a session
    /// relies on: that the wave exists, that its units can be counted and
    /// that the level has a spawn point.
    pub fn start(level: &LevelInfo, wave: u32) -> (r: Result<PlayState, GameError>)
        ensures
            match Self::can_start(level@, wave) {
                Ok(_) => r == Ok::<PlayState, GameError>(
                    PlayState { wave, index_spawn: 0, last_spawn_time: 0 },
                ),
                Err(e) => r == Err::<PlayState, GameError>(e),
            },
    {
        match level.get_units_count(wave) {
            Err(e) => Err(e),
            Ok(_) => {
                if level.enemy_spawn.len() == 0 {
                    Err(GameError::NoSpawnPoints)
                } else {
                    Ok(PlayState::new(wave))
                }
            },
        }
    }

    /// Where the session stands: spawning while units are left, complete
    /// from the last spawn on.
    pub fn phase(&self, level: &LevelInfo) -> (r: Result<WavePhase, GameError>)
        ensures
            r == self.phase_on(level@),
    {
        match level.get_units_count(self.wave) {
            Err(e) => Err(e),
            Ok(count) => {
                if self.index_spawn < count {
                    Ok(WavePhase::Spawning)
                } else {
                    Ok(WavePhase::WaveComplete)
                }
            },
        }
    }

    /// One tick of the simulation clock at time `current_time`: moves the
    /// cursor as the rule says and returns the spawn request, if the tick
    /// spawns a unit.
    pub fn fixed_update(&mut self, level: &LevelInfo, map: &MapData, current_time: u128) -> (r:
        Result<Option<SpawnRequest>, GameError>)
        ensures
            *final(self) == old(self).tick(level@, map@, current_time).state,
            match old(self).tick(level@, map@, current_time).outcome {
                Ok(Some(request)) => r is Ok && r->Ok_0 is Some && r->Ok_0->Some_0@ == request,
                Ok(None) => r is Ok && r->Ok_0 is None,
                Err(e) => r == Err::<Option<SpawnRequest>, GameError>(e),
            },
            r is Ok && r->Ok_0 is Some ==> old(self).interval_elapsed(level@, current_time)
                && old(self).phase_on(level@) == Ok::<WavePhase, GameError>(WavePhase::Spawning)
                && final(self).index_spawn == old(self).index_spawn + 1
                && final(self).last_spawn_time == current_time,
            !(r is Ok && r->Ok_0 is Some) ==> *final(self) == *old(self),
    {
        let interval: u128 = level.spawn_speed as u128;
        if current_time < self.last_spawn_time || current_time - self.last_spawn_time < interval {
            return Ok(None);
        }
        let count: u32 = match level.get_units_count(self.wave) {
            Ok(count) => count,
            Err(e) => {
                return Err(e);
            },
        };
        if self.index_spawn >= count {
            return Ok(None);
        }
        match spawn_unit(level, map, self.wave, self.index_spawn) {
            Err(e) => Err(e),
            Ok(request) => {
                self.index_spawn = self.index_spawn + 1;
                self.last_spawn_time = current_time;
                Ok(Some(request))
            },
        }
    }
}

/// A tick never moves the cursor past the end of its wave.
pub proof fn lemma_tick_stays_in_wave(state: PlayState, level: LevelModel, map: MapModel, now: u128)
    requires
        level.units_count(state.wave as nat) matches Ok(count) && state.index_spawn <= count,
    ensures
        state.tick(level, map, now).state.wave == state.wave,
        level.units_count(state.wave as nat) matches Ok(count) && state.tick(
            level,
            map,
            now,
        ).state.index_spawn <= count,
{
}

/// A complete session stays complete: no tick emits a request or moves the
/// cursor.
pub proof fn lemma_complete_is_final(state: PlayState, level: LevelModel, map: MapModel, now: u128)
    requires
        state.phase_on(level) == Ok::<WavePhase, GameError>(WavePhase::WaveComplete),
    ensures
        state.tick(level, map, now).state == state,
        state.tick(level, map, now).outcome == Ok::<Option<SpawnRequestModel>, GameError>(None),
{
}

/// A session that could start never fails: while its cursor is in the wave,
/// every tick ends in a request or in nothing.
pub proof fn lemma_started_session_runs(
    state: PlayState,
    level: LevelModel,
    map: MapModel,
    now: u128,
)
    requires
        PlayState::can_start(level, state.wave) is Ok,
    ensures
        state.tick(level, map, now).outcome is Ok,
        state.tick(level, map, now).outcome->Ok_0 is Some <==> state.interval_elapsed(level, now)
            && state.phase_on(level) == Ok::<WavePhase, GameError>(WavePhase::Spawning),
{
    lemma_exhausted_from_count(level, state.wave as nat, state.index_spawn as nat);
}

/// The cadence of spawns: a tick spawns only if a full interval has passed
/// since the last spawn, and a tick that spawns re-arms the interval from
/// its own time, so that no later tick within the interval spawns again.
pub proof fn lemma_cadence(
    state: PlayState,
    level: LevelModel,
    map: MapModel,
    now: u128,
    later: u128,
)
    requires
        state.tick(level, map, now).outcome matches Ok(Some(_)),
        later - now < level.spawn_speed,
    ensures
        now - state.last_spawn_time >= level.spawn_speed,
        state.tick(level, map, now).state.last_spawn_time == now,
        state.tick(level, map, now).state.tick(level, map, later).outcome == Ok::<
            Option<SpawnRequestModel>,
            GameError,
        >(None),
        state.tick(level, map, now).state.tick(level, map, later).state == state.tick(
            level,
            map,
            now,
        ).state,
{
}

} // verus!

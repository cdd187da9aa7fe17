//! Level info: the waves of a level, the unit types each wave holds and the
//! order in which its units spawn.

use vstd::prelude::*;
use crate::error::GameError;

verus! {

/// One line of a wave's composition: a unit type and how many of it spawn.
///
/// A wave is a `Vec<UnitCount>`; the order of its lines is the order in which
/// the level declares them, and the spawn order is derived from it.
#[derive(Clone, Debug, PartialEq, Eq)]
pub struct UnitCount {
    pub name: String,
    pub count: u32,
}

/// What a [`UnitCount`] stands for in contracts.
pub struct UnitCountModel {
    pub name: Seq<char>,
    pub count: nat,
}

impl View for UnitCount {
    type V = UnitCountModel;

    open spec fn view(&self) -> UnitCountModel {
        UnitCountModel { name: self.name@, count: self.count as nat }
    }
}

/// A tile of the map, by column and row, at which enemies enter.
#[derive(Clone, Copy, Debug, PartialEq, Eq, Structural)]
pub struct SpawnPoint {
    pub x: u32,
    pub y: u32,
}

/// The wave definitions of a level.
///
/// `spawn_speed` is the least time, in milliseconds, between two spawns.
#[derive(Clone, Debug, PartialEq, Eq)]
pub struct LevelInfo {
    pub enemy_spawn: Vec<SpawnPoint>,
    pub spawn_speed: u32,
    pub levels: Vec<Vec<UnitCount>>,
}

/// What a [`LevelInfo`] stands for in contracts.
pub struct LevelModel {
    pub enemy_spawn: Seq<SpawnPoint>,
    pub spawn_speed: nat,
    pub levels: Seq<Seq<UnitCountModel>>,
}

/// The composition of a wave as contracts see it.
pub open spec fn wave_view(wave: Seq<UnitCount>) -> Seq<UnitCountModel> {
    wave.map_values(|u: UnitCount| u@)
}

impl View for LevelInfo {
    type V = LevelModel;

    open spec fn view(&self) -> LevelModel {
        LevelModel {
            enemy_spawn: self.enemy_spawn@,
            spawn_speed: self.spawn_speed as nat,
            levels: self.levels@.map_values(|w: Vec<UnitCount>| wave_view(w@)),
        }
    }
}

impl Default for LevelInfo {
    /// The level without waves and without spawn points.
    fn default() -> (r: LevelInfo)
        ensures
            r@ == (LevelModel { enemy_spawn: Seq::empty(), spawn_speed: 0, levels: Seq::empty() }),
    {
        let r = LevelInfo { enemy_spawn: Vec::new(), spawn_speed: 0, levels: Vec::new() };
        assert(r@.levels =~= Seq::<Seq<UnitCountModel>>::empty());
        r
    }
}

/// The number of units in a wave: the sum of the counts of its lines.
pub open spec fn units_total(wave: Seq<UnitCountModel>) -> nat
    decreases wave.len(),
{
    if wave.len() == 0 {
        0
    } else {
        units_total(wave.drop_last()) + wave.last().count
    }
}

/// The test of a round: whether a line holds more units than the rounds
/// before it have taken.
pub open spec fn in_round(round: nat) -> spec_fn(UnitCountModel) -> bool {
    |u: UnitCountModel| u.count > round
}

/// The lines that spawn a unit in a round, in declared order. Round `r`,
/// counting from 0, takes every line that holds more than `r` units.
pub open spec fn round_lines(wave: Seq<UnitCountModel>, round: nat) -> Seq<UnitCountModel> {
    wave.filter(in_round(round))
}

/// The unit types that spawn in a round, in the order in which they spawn.
pub open spec fn round_names(wave: Seq<UnitCountModel>, round: nat) -> Seq<Seq<char>> {
    round_lines(wave, round).map_values(|u: UnitCountModel| u.name)
}

/// The unit types of `rounds` rounds laid end to end, from round `round` on.
pub open spec fn rounds_from(wave: Seq<UnitCountModel>, round: nat, rounds: nat) -> Seq<Seq<char>>
    decreases rounds,
{
    if rounds == 0 {
        Seq::empty()
    } else {
        round_names(wave, round) + rounds_from(wave, round + 1, (rounds - 1) as nat)
    }
}

/// The spawn order of a wave: its lines take turns in declared order, round
/// after round, and a line whose units are spent takes no further turn. No
/// wave has more rounds than units.
pub open spec fn spawn_order(wave: Seq<UnitCountModel>) -> Seq<Seq<char>> {
    rounds_from(wave, 0, units_total(wave))
}

/// The unit type of spawn number `index` of the wave, if the wave has that
/// many units.
pub open spec fn unit_at(wave: Seq<UnitCountModel>, index: nat) -> Option<Seq<char>> {
    if index < spawn_order(wave).len() {
        Some(spawn_order(wave)[index as int])
    } else {
        None
    }
}

/// The units that a wave has left to spawn when a round begins.
pub open spec fn units_from_round(wave: Seq<UnitCountModel>, round: nat) -> nat
    decreases wave.len(),
{
    if wave.len() == 0 {
        0
    } else if wave.last().count > round {
        units_from_round(wave.drop_last(), round) + (wave.last().count - round) as nat
    } else {
        units_from_round(wave.drop_last(), round)
    }
}

/// The number of units of one unit type in a wave: the sum of the counts of
/// the lines that name it.
pub open spec fn units_of(wave: Seq<UnitCountModel>, name: Seq<char>) -> nat
    decreases wave.len(),
{
    if wave.len() == 0 {
        0
    } else if wave.last().name == name {
        units_of(wave.drop_last(), name) + wave.last().count
    } else {
        units_of(wave.drop_last(), name)
    }
}

/// The units of one unit type that a wave has left to spawn when a round
/// begins.
pub open spec fn units_of_from_round(wave: Seq<UnitCountModel>, name: Seq<char>, round: nat) -> nat
    decreases wave.len(),
{
    if wave.len() == 0 {
        0
    } else if wave.last().name == name && wave.last().count > round {
        units_of_from_round(wave.drop_last(), name, round) + (wave.last().count - round) as nat
    } else {
        units_of_from_round(wave.drop_last(), name, round)
    }
}

/// How often a unit type occurs in a list of unit types.
pub open spec fn occurrences(names: Seq<Seq<char>>, name: Seq<char>) -> nat
    decreases names.len(),
{
    if names.len() == 0 {
        0
    } else if names.last() == name {
        occurrences(names.drop_last(), name) + 1
    } else {
        occurrences(names.drop_last(), name)
    }
}

impl LevelModel {
    /// The number of units of a wave, as `get_units_count` reports it.
    pub open spec fn units_count(self, wave: nat) -> Result<u32, GameError> {
        if wave >= self.levels.len() {
            Err(GameError::WaveIndexOutOfRange)
        } else if units_total(self.levels[wave as int]) > u32::MAX {
            Err(GameError::UnitCountOverflow)
        } else {
            Ok(units_total(self.levels[wave as int]) as u32)
        }
    }

    /// The unit type of a spawn, as `get_unit_by_index` reports it.
    pub open spec fn unit_by_index(self, wave: nat, index: nat) -> Result<Seq<char>, GameError> {
        if wave >= self.levels.len() {
            Err(GameError::WaveIndexOutOfRange)
        } else {
            match unit_at(self.levels[wave as int], index) {
                Some(name) => Ok(name),
                None => Err(GameError::SpawnIndexExhausted),
            }
        }
    }
}

/// The units of two waves laid end to end add up.
pub proof fn lemma_total_concat(a: Seq<UnitCountModel>, b: Seq<UnitCountModel>)
    ensures
        units_total(a + b) == units_total(a) + units_total(b),
    decreases b.len(),
{
    if b.len() == 0 {
        assert(a + b =~= a);
    } else {
        assert((a + b).drop_last() =~= a + b.drop_last());
        lemma_total_concat(a, b.drop_last());
    }
}

/// The first lines of a wave hold no more units than the whole wave.
pub proof fn lemma_total_take(wave: Seq<UnitCountModel>, k: int)
    requires
        0 <= k <= wave.len(),
    ensures
        units_total(wave.take(k)) <= units_total(wave),
{
    assert(wave =~= wave.take(k) + wave.skip(k));
    lemma_total_concat(wave.take(k), wave.skip(k));
}

/// The lines of a round, taken from the end of the wave: the last line joins
/// the round if it holds enough units.
proof fn lemma_round_of_last(wave: Seq<UnitCountModel>, round: nat)
    requires
        wave.len() > 0,
    ensures
        round_lines(wave, round) == if wave.last().count > round {
            round_lines(wave.drop_last(), round).push(wave.last())
        } else {
            round_lines(wave.drop_last(), round)
        },
        round_names(wave, round) =~= if wave.last().count > round {
            round_names(wave.drop_last(), round).push(wave.last().name)
        } else {
            round_names(wave.drop_last(), round)
        },
{
    reveal(Seq::filter);
}

/// A round takes one unit from each of its lines: the units left when a
/// round begins are the lines of the round and the units left after it.
pub proof fn lemma_round_split(wave: Seq<UnitCountModel>, round: nat)
    ensures
        units_from_round(wave, round) == round_lines(wave, round).len() + units_from_round(
            wave,
            round + 1,
        ),
    decreases wave.len(),
{
    if wave.len() == 0 {
        reveal(Seq::filter);
    } else {
        lemma_round_split(wave.drop_last(), round);
        lemma_round_of_last(wave, round);
    }
}

/// Before the first round the whole wave is left.
pub proof fn lemma_units_from_start(wave: Seq<UnitCountModel>)
    ensures
        units_from_round(wave, 0) == units_total(wave),
    decreases wave.len(),
{
    if wave.len() > 0 {
        lemma_units_from_start(wave.drop_last());
    }
}

/// No wave has more rounds than units: from the round of that number on
/// nothing is left.
pub proof fn lemma_units_past_total(wave: Seq<UnitCountModel>, round: nat)
    requires
        round >= units_total(wave),
    ensures
        units_from_round(wave, round) == 0,
        round_lines(wave, round).len() == 0,
    decreases wave.len(),
{
    if wave.len() > 0 {
        lemma_units_past_total(wave.drop_last(), round);
    }
    lemma_round_split(wave, round);
}

/// A round without lines finds nothing left in the wave.
pub proof fn lemma_empty_round(wave: Seq<UnitCountModel>, round: nat)
    requires
        round_lines(wave, round).len() == 0,
    ensures
        units_from_round(wave, round) == 0,
    decreases wave.len(),
{
    if wave.len() > 0 {
        lemma_round_of_last(wave, round);
        lemma_empty_round(wave.drop_last(), round);
    }
}

/// Rounds laid end to end hold the units that they take from the wave.
pub proof fn lemma_rounds_len(wave: Seq<UnitCountModel>, round: nat, rounds: nat)
    ensures
        rounds_from(wave, round, rounds).len() + units_from_round(wave, round + rounds)
            == units_from_round(wave, round),
    decreases rounds,
{
    if rounds > 0 {
        lemma_round_split(wave, round);
        lemma_rounds_len(wave, round + 1, (rounds - 1) as nat);
    }
}

/// The spawn order of a wave has one entry for each of its units.
pub proof fn lemma_spawn_order_len(wave: Seq<UnitCountModel>)
    ensures
        spawn_order(wave).len() == units_total(wave),
{
    lemma_rounds_len(wave, 0, units_total(wave));
    lemma_units_past_total(wave, units_total(wave));
    lemma_units_from_start(wave);
}

/// A spawn index names a unit exactly when it is below the number of units in
/// the wave: every index from the unit count on is exhausted.
pub proof fn lemma_unit_at_defined(wave: Seq<UnitCountModel>, index: nat)
    ensures
        unit_at(wave, index) is Some <==> index < units_total(wave),
{
    lemma_spawn_order_len(wave);
}

/// The same, for a level: `unit_by_index` fails with `SpawnIndexExhausted`
/// for every index that `units_count` does not exceed.
pub proof fn lemma_exhausted_from_count(level: LevelModel, wave: nat, index: nat)
    requires
        wave < level.levels.len(),
    ensures
        level.unit_by_index(wave, index) is Ok <==> index < units_total(level.levels[wave as int]),
        level.units_count(wave) matches Ok(count) ==> (index >= count <==> level.unit_by_index(
            wave,
            index,
        ) == Err::<Seq<char>, GameError>(GameError::SpawnIndexExhausted)),
{
    lemma_unit_at_defined(level.levels[wave as int], index);
}

/// A round of a wave whose lines all hold enough units is the whole wave.
pub proof fn lemma_whole_round(wave: Seq<UnitCountModel>, round: nat)
    requires
        forall|j: int| 0 <= j < wave.len() ==> (#[trigger] wave[j]).count > round,
    ensures
        round_lines(wave, round) =~= wave,
    decreases wave.len(),
{
    if wave.len() == 0 {
        reveal(Seq::filter);
    } else {
        assert(wave.last().count > round);
        lemma_whole_round(wave.drop_last(), round);
        lemma_round_of_last(wave, round);
    }
}

/// While every line has units for the round, turn `turn` of the round that
/// lies `ahead` rounds on belongs to line `turn`.
proof fn lemma_full_rounds(
    wave: Seq<UnitCountModel>,
    least: nat,
    round: nat,
    rounds: nat,
    ahead: nat,
    turn: int,
)
    requires
        forall|j: int| 0 <= j < wave.len() ==> (#[trigger] wave[j]).count >= least,
        round + ahead < least,
        ahead < rounds,
        0 <= turn < wave.len(),
    ensures
        ahead * wave.len() + turn < rounds_from(wave, round, rounds).len(),
        rounds_from(wave, round, rounds)[ahead * wave.len() + turn] == wave[turn].name,
    decreases ahead,
{
    let lines = wave.len() as int;
    let rest = rounds_from(wave, round + 1, (rounds - 1) as nat);
    lemma_whole_round(wave, round);
    assert(round_names(wave, round).len() == lines);
    assert(round_names(wave, round)[turn] == wave[turn].name);
    assert(rounds_from(wave, round, rounds) == round_names(wave, round) + rest);
    if ahead == 0 {
        assert(ahead * lines == 0) by (nonlinear_arith)
            requires
                ahead == 0,
        ;
    } else {
        lemma_full_rounds(wave, least, round + 1, (rounds - 1) as nat, (ahead - 1) as nat, turn);
        let inner = (ahead - 1) * lines + turn;
        assert(ahead * lines + turn == lines + inner) by (nonlinear_arith)
            requires
                inner == (ahead - 1) * lines + turn,
        ;
        assert((ahead - 1) * lines >= 0) by (nonlinear_arith)
            requires
                ahead >= 1,
                lines >= 0,
        ;
        assert(rest[inner] == wave[turn].name);
        assert((round_names(wave, round) + rest)[lines + inner] == rest[inner]);
    }
}

/// Plain turns: in a wave of `k` lines that hold at least `least` units
/// each, the first `k * least` spawns go through the lines in declared order,
/// again and again: spawn `i` belongs to line `i mod k`.
pub proof fn lemma_plain_rounds(wave: Seq<UnitCountModel>, least: nat, index: nat)
    requires
        least > 0,
        forall|j: int| 0 <= j < wave.len() ==> (#[trigger] wave[j]).count >= least,
        index < wave.len() * least,
    ensures
        wave.len() > 0,
        unit_at(wave, index) == Some(wave[(index as int) % (wave.len() as int)].name),
{
    let lines = wave.len() as int;
    assert(lines > 0) by (nonlinear_arith)
        requires
            index < lines * least,
            lines >= 0,
            index >= 0,
    ;
    let ahead = (index as int) / lines;
    let turn = (index as int) % lines;
    vstd::arithmetic::div_mod::lemma_fundamental_div_mod(index as int, lines);
    vstd::arithmetic::div_mod::lemma_mod_pos_bound(index as int, lines);
    assert(0 <= ahead < least) by (nonlinear_arith)
        requires
            index == lines * ahead + turn,
            0 <= turn < lines,
            0 <= index < lines * least,
    ;
    assert(units_total(wave) >= wave.last().count);
    assert(wave.last().count >= least);
    assert(ahead * lines == lines * ahead) by (nonlinear_arith);
    lemma_full_rounds(wave, least, 0, units_total(wave), ahead as nat, turn);
}

/// The occurrences of a unit type in two lists laid end to end add up.
pub proof fn lemma_occurrences_concat(a: Seq<Seq<char>>, b: Seq<Seq<char>>, name: Seq<char>)
    ensures
        occurrences(a + b, name) == occurrences(a, name) + occurrences(b, name),
    decreases b.len(),
{
    if b.len() == 0 {
        assert(a + b =~= a);
    } else {
        assert((a + b).drop_last() =~= a + b.drop_last());
        lemma_occurrences_concat(a, b.drop_last(), name);
    }
}

/// A round takes one unit of a type for each line of the round that names
/// it.
pub proof fn lemma_round_split_of(wave: Seq<UnitCountModel>, name: Seq<char>, round: nat)
    ensures
        units_of_from_round(wave, name, round) == occurrences(round_names(wave, round), name)
            + units_of_from_round(wave, name, round + 1),
    decreases wave.len(),
{
    if wave.len() == 0 {
        reveal(Seq::filter);
    } else {
        lemma_round_split_of(wave.drop_last(), name, round);
        lemma_round_of_last(wave, round);
        if wave.last().count > round {
            let names = round_names(wave.drop_last(), round).push(wave.last().name);
            assert(names.drop_last() =~= round_names(wave.drop_last(), round));
        }
    }
}

/// Before the first round every unit of a type is left.
pub proof fn lemma_units_of_from_start(wave: Seq<UnitCountModel>, name: Seq<char>)
    ensures
        units_of_from_round(wave, name, 0) == units_of(wave, name),
    decreases wave.len(),
{
    if wave.len() > 0 {
        lemma_units_of_from_start(wave.drop_last(), name);
    }
}

/// From the round of the wave's unit count on no unit of any type is left.
pub proof fn lemma_units_of_past_total(wave: Seq<UnitCountModel>, name: Seq<char>, round: nat)
    requires
        round >= units_total(wave),
    ensures
        units_of_from_round(wave, name, round) == 0,
    decreases wave.len(),
{
    if wave.len() > 0 {
        lemma_units_of_past_total(wave.drop_last(), name, round);
    }
}

/// Rounds laid end to end hold, of each unit type, the units that they take
/// from the wave.
pub proof fn lemma_rounds_occurrences(
    wave: Seq<UnitCountModel>,
    name: Seq<char>,
    round: nat,
    rounds: nat,
)
    ensures
        occurrences(rounds_from(wave, round, rounds), name) + units_of_from_round(
            wave,
            name,
            round + rounds,
        ) == units_of_from_round(wave, name, round),
    decreases rounds,
{
    if rounds > 0 {
        lemma_round_split_of(wave, name, round);
        lemma_rounds_occurrences(wave, name, round + 1, (rounds - 1) as nat);
        lemma_occurrences_concat(
            round_names(wave, round),
            rounds_from(wave, round + 1, (rounds - 1) as nat),
            name,
        );
    }
}

/// A wave spawns its composition: each unit type occurs in the spawn order
/// as often as the wave's lines of that type count.
pub proof fn lemma_wave_spawns_its_composition(wave: Seq<UnitCountModel>, name: Seq<char>)
    ensures
        occurrences(spawn_order(wave), name) == units_of(wave, name),
{
    lemma_rounds_occurrences(wave, name, 0, units_total(wave));
    lemma_units_of_past_total(wave, name, units_total(wave));
    lemma_units_of_from_start(wave, name);
}

impl LevelInfo {
    /// The number of units that the wave spawns: the sum of the counts of its
    /// composition.
    pub fn get_units_count(&self, wave: u32) -> (r: Result<u32, GameError>)
        ensures
            r == self@.units_count(wave as nat),
            wave < self@.levels.len() && units_total(self@.levels[wave as int]) <= u32::MAX ==> r
                == Ok::<u32, GameError>(units_total(self@.levels[wave as int]) as u32),
    {
        if wave as usize >= self.levels.len() {
            return Err(GameError::WaveIndexOutOfRange);
        }
        let units = &self.levels[wave as usize];
        let ghost model = wave_view(units@);
        assert(model == self@.levels[wave as int]);
        let mut total: u64 = 0;
        let mut p: usize = 0;
        while p < units.len()
            invariant
                p <= units.len(),
                wave < self@.levels.len(),
                model == self@.levels[wave as int],
                model == wave_view(units@),
                total == units_total(model.take(p as int)),
                total <= u32::MAX,
            decreases units.len() - p,
        {
            proof {
                assert(model.take(p + 1).drop_last() =~= model.take(p as int));
                assert(model.take(p + 1).last() == units@[p as int]@);
            }
            total = total + units[p].count as u64;
            if total > u32::MAX as u64 {
                proof {
                    lemma_total_take(model, p + 1);
                }
                return Err(GameError::UnitCountOverflow);
            }
            p = p + 1;
        }
        assert(model.take(p as int) =~= model);
        Ok(total as u32)
    }

    /// The unit type of spawn number `index` of the wave.
    ///
    /// The wave's lines take turns in declared order, round after round: in
    /// each round every line that still has a unit spawns one. A line whose
    /// units are spent takes no further turn.
    pub fn get_unit_by_index(&self, wave: u32, index: u32) -> (r: Result<String, GameError>)
        ensures
            match self@.unit_by_index(wave as nat, index as nat) {
                Ok(name) => r is Ok && r->Ok_0@ == name,
                Err(e) => r == Err::<String, GameError>(e),
            },
            wave < self@.levels.len() ==> (r is Ok <==> index < units_total(
                self@.levels[wave as int],
            )),
    {
        if wave as usize >= self.levels.len() {
            return Err(GameError::WaveIndexOutOfRange);
        }
        let units = &self.levels[wave as usize];
        let ghost model = wave_view(units@);
        assert(model == self@.levels[wave as int]);
        let ghost mut rounds: nat = units_total(model);
        let mut round: u32 = 0;
        let mut left: u32 = index;
        proof {
            lemma_unit_at_defined(model, index as nat);
        }
        loop
            invariant
                wave < self@.levels.len(),
                model == self@.levels[wave as int],
                model == wave_view(units@),
                round + rounds == units_total(model),
                unit_at(model, index as nat) is Some <==> index < units_total(model),
                unit_at(model, index as nat) is Some <==> left < rounds_from(
                    model,
                    round as nat,
                    rounds,
                ).len(),
                unit_at(model, index as nat) is Some ==> unit_at(model, index as nat)
                    == Some(rounds_from(model, round as nat, rounds)[left as int]),
            decreases left,
        {
            let ghost lines = round_lines(model, round as nat);
            let ghost later = rounds_from(model, round as nat + 1, (rounds - 1) as nat);
            let mut seen: u32 = 0;
            let mut p: usize = 0;
            proof {
                assert(model.take(0) =~= Seq::<UnitCountModel>::empty());
                assert(round_lines(model.take(0), round as nat).len() == 0) by {
                    reveal(Seq::filter);
                }
                if rounds == 0 {
                    lemma_units_past_total(model, round as nat);
                }
            }
            while p < units.len()
                invariant
                    p <= units.len(),
                    wave < self@.levels.len(),
                    model == self@.levels[wave as int],
                    model == wave_view(units@),
                    lines == round_lines(model, round as nat),
                    rounds == 0 ==> lines.len() == 0,
                    rounds > 0 ==> rounds_from(model, round as nat, rounds) == round_names(
                        model,
                        round as nat,
                    ) + later,
                    unit_at(model, index as nat) is Some <==> index < units_total(model),
                    unit_at(model, index as nat) is Some <==> left < rounds_from(
                        model,
                        round as nat,
                        rounds,
                    ).len(),
                    unit_at(model, index as nat) is Some ==> unit_at(model, index as nat)
                        == Some(rounds_from(model, round as nat, rounds)[left as int]),
                    seen == round_lines(model.take(p as int), round as nat).len(),
                    seen <= left,
                    seen > 0 ==> round < u32::MAX,
                decreases units.len() - p,
            {
                proof {
                    assert(model.take(p + 1).drop_last() =~= model.take(p as int));
                    assert(model.take(p + 1).last() == model[p as int]);
                    lemma_round_of_last(model.take(p + 1), round as nat);
                }
                if units[p].count > round {
                    if seen == left {
                        proof {
                            assert(model =~= model.take(p + 1) + model.skip(p + 1));
                            Seq::filter_distributes_over_add(
                                model.take(p + 1),
                                model.skip(p + 1),
                                in_round(round as nat),
                            );
                            assert(lines[left as int] == model[p as int]);
                            assert(round_names(model, round as nat)[left as int]
                                == model[p as int].name);
                            assert(rounds_from(model, round as nat, rounds)[left as int]
                                == model[p as int].name);
                        }
                        return Ok(units[p].name.clone());
                    }
                    seen = seen + 1;
                }
                p = p + 1;
            }
            proof {
                assert(model.take(p as int) =~= model);
            }
            if seen == 0 {
                proof {
                    lemma_empty_round(model, round as nat);
                    lemma_rounds_len(model, round as nat, rounds);
                }
                return Err(GameError::SpawnIndexExhausted);
            }
            proof {
                assert(round_names(model, round as nat).len() == seen);
                if left < rounds_from(model, round as nat, rounds).len() {
                    assert((round_names(model, round as nat) + later)[left as int] == later[left
                        - seen]);
                }
                rounds = (rounds - 1) as nat;
            }
            left = left - seen;
            round = round + 1;
        }
    }
}

} // verus!

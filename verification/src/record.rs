//! The record of what stands on the board: roads by colour, towns and
//! cities by owner, kept up to date from what each move built.
use vstd::prelude::*;

use crate::colors::CatanColor;
use crate::game::Effect;
use crate::placement::own_roads;
use crate::positions::{BuildingPosition, RoadPosition};

verus! {

/// A town: its owner (a player index), its number, and its spot.
pub type TownEntry = (usize, u64, BuildingPosition);

/// Everything built so far.
pub struct Built {
    /// The roads, each with its colour, in the order built.
    pub roads: Vec<(CatanColor, RoadPosition)>,
    /// The towns, in the order built.
    pub towns: Vec<TownEntry>,
    /// The cities, each with its owner, in the order built.
    pub cities: Vec<(usize, BuildingPosition)>,
    /// The number of the last town built (0 before the first).
    pub next_id: u64,
}

impl Built {
    /// An empty board.
    pub fn new() -> (res: Self)
        ensures
            res.roads@.len() == 0,
            res.towns@.len() == 0,
            res.cities@.len() == 0,
            res.next_id == 0,
    {
        Built { roads: Vec::new(), towns: Vec::new(), cities: Vec::new(), next_id: 0 }
    }
}

/// The towns other than the one numbered `town`, in order.
pub open spec fn without_town(towns: Seq<TownEntry>, town: u64) -> Seq<TownEntry>
    decreases towns.len(),
{
    if towns.len() == 0 {
        towns
    } else if towns.last().1 != town {
        without_town(towns.drop_last(), town).push(towns.last())
    } else {
        without_town(towns.drop_last(), town)
    }
}

/// Records what a move of player `player` built (see `Effect`): a road is
/// added with its colour; a town gets the next number and is added; a
/// city replaces the town it was built on. Anything else leaves the record
/// as it is. Returns the new town's number, when a town was built.
pub fn record_effect(built: &mut Built, player: usize, effect: &Effect) -> (town: Option<u64>)
    requires
        old(built).next_id < u64::MAX,
    ensures
        match *effect {
            Effect::Road(road, color) => {
                &&& final(built).roads@ == old(built).roads@.push((color, road))
                &&& final(built).towns@ == old(built).towns@
                &&& final(built).cities@ == old(built).cities@
                &&& final(built).next_id == old(built).next_id
                &&& town is None
            },
            Effect::Town(spot, _, _) => {
                &&& final(built).roads@ == old(built).roads@
                &&& final(built).next_id == old(built).next_id + 1
                &&& final(built).towns@ == old(built).towns@.push((player, final(built).next_id, spot))
                &&& final(built).cities@ == old(built).cities@
                &&& town == Some(final(built).next_id)
            },
            Effect::City(old_town, spot, _) => {
                &&& final(built).roads@ == old(built).roads@
                &&& final(built).towns@ == without_town(old(built).towns@, old_town)
                &&& final(built).cities@ == old(built).cities@.push((player, spot))
                &&& final(built).next_id == old(built).next_id
                &&& town is None
            },
            _ => {
                &&& final(built).roads@ == old(built).roads@
                &&& final(built).towns@ == old(built).towns@
                &&& final(built).cities@ == old(built).cities@
                &&& final(built).next_id == old(built).next_id
                &&& town is None
            },
        },
{
    match effect {
        Effect::Road(road, color) => {
            built.roads.push((*color, *road));
            None
        },
        Effect::Town(spot, _, _) => {
            built.next_id = built.next_id + 1;
            let id = built.next_id;
            built.towns.push((player, id, *spot));
            Some(id)
        },
        Effect::City(old_town, spot, _) => {
            let kept = towns_without(&built.towns, *old_town);
            built.towns = kept;
            built.cities.push((player, *spot));
            None
        },
        _ => None,
    }
}

fn towns_without(towns: &Vec<TownEntry>, town: u64) -> (res: Vec<TownEntry>)
    ensures
        res@ == without_town(towns@, town),
{
    let mut out: Vec<TownEntry> = Vec::new();
    let mut i: usize = 0;
    assert(towns@.take(0) =~= Seq::<TownEntry>::empty());
    while i < towns.len()
        invariant
            i <= towns@.len(),
            out@ == without_town(towns@.take(i as int), town),
        decreases towns@.len() - i,
    {
        let t = towns[i];
        proof {
            assert(towns@.take(i + 1).drop_last() =~= towns@.take(i as int));
            assert(towns@.take(i + 1).last() == t);
        }
        if t.1 != town {
            out.push(t);
        }
        i = i + 1;
    }
    assert(towns@.take(towns@.len() as int) =~= towns@);
    out
}

/// The spots of the towns whose owner is not `player`, in order.
pub open spec fn others_towns(towns: Seq<TownEntry>, player: usize) -> Seq<BuildingPosition>
    decreases towns.len(),
{
    if towns.len() == 0 {
        Seq::empty()
    } else if towns.last().0 != player {
        others_towns(towns.drop_last(), player).push(towns.last().2)
    } else {
        others_towns(towns.drop_last(), player)
    }
}

/// The spots of the cities whose owner is not `player`, in order.
pub open spec fn others_cities(cities: Seq<(usize, BuildingPosition)>, player: usize) -> Seq<
    BuildingPosition,
>
    decreases cities.len(),
{
    if cities.len() == 0 {
        Seq::empty()
    } else if cities.last().0 != player {
        others_cities(cities.drop_last(), player).push(cities.last().1)
    } else {
        others_cities(cities.drop_last(), player)
    }
}

/// The spots of the towns and cities whose owner is not `player`: the
/// buildings that cut `player`'s roads. Towns first, then cities, each in
/// the order built.
pub open spec fn others_buildings(
    towns: Seq<TownEntry>,
    cities: Seq<(usize, BuildingPosition)>,
    player: usize,
) -> Seq<BuildingPosition> {
    others_towns(towns, player) + others_cities(cities, player)
}

/// The buildings of the players other than `player` (see
/// `others_buildings`).
pub fn buildings_of_others(built: &Built, player: usize) -> (res: Vec<BuildingPosition>)
    ensures
        res@ == others_buildings(built.towns@, built.cities@, player),
{
    let mut out: Vec<BuildingPosition> = Vec::new();
    let mut i: usize = 0;
    assert(built.towns@.take(0) =~= Seq::<TownEntry>::empty());
    while i < built.towns.len()
        invariant
            i <= built.towns@.len(),
            out@ == others_towns(built.towns@.take(i as int), player),
        decreases built.towns@.len() - i,
    {
        let t = built.towns[i];
        proof {
            assert(built.towns@.take(i + 1).drop_last() =~= built.towns@.take(i as int));
            assert(built.towns@.take(i + 1).last() == t);
        }
        if t.0 != player {
            out.push(t.2);
        }
        i = i + 1;
    }
    assert(built.towns@.take(built.towns@.len() as int) =~= built.towns@);
    let ghost first = out@;
    let mut j: usize = 0;
    assert(built.cities@.take(0) =~= Seq::<(usize, BuildingPosition)>::empty());
    assert(first + others_cities(built.cities@.take(0), player) =~= first);
    while j < built.cities.len()
        invariant
            j <= built.cities@.len(),
            out@ == first + others_cities(built.cities@.take(j as int), player),
        decreases built.cities@.len() - j,
    {
        let c = built.cities[j];
        proof {
            assert(built.cities@.take(j + 1).drop_last() =~= built.cities@.take(j as int));
            assert(built.cities@.take(j + 1).last() == c);
        }
        if c.0 != player {
            out.push(c.1);
        }
        assert(out@ =~= first + others_cities(built.cities@.take(j + 1), player));
        j = j + 1;
    }
    assert(built.cities@.take(built.cities@.len() as int) =~= built.cities@);
    out
}

/// For each player (by colour, in player order): the player's roads, and
/// the buildings of the other players, which cut them.
pub fn road_network(built: &Built, colors: &Vec<CatanColor>) -> (res: (
    Vec<Vec<RoadPosition>>,
    Vec<Vec<BuildingPosition>>,
))
    ensures
        res.0@.len() == colors@.len(),
        res.1@.len() == colors@.len(),
        forall|i: int|
            0 <= i < colors@.len() ==> (#[trigger] res.0@[i])@ == own_roads(built.roads@, colors@[i]),
        forall|i: int|
            0 <= i < colors@.len() ==> (#[trigger] res.1@[i])@ == others_buildings(
                built.towns@,
                built.cities@,
                i as usize,
            ),
{
    let mut roads: Vec<Vec<RoadPosition>> = Vec::new();
    let mut blocked: Vec<Vec<BuildingPosition>> = Vec::new();
    let mut i: usize = 0;
    while i < colors.len()
        invariant
            i <= colors@.len(),
            roads@.len() == i,
            blocked@.len() == i,
            forall|k: int| 0 <= k < i ==> (#[trigger] roads@[k])@ == own_roads(built.roads@, colors@[k]),
            forall|k: int|
                0 <= k < i ==> (#[trigger] blocked@[k])@ == others_buildings(
                    built.towns@,
                    built.cities@,
                    k as usize,
                ),
        decreases colors@.len() - i,
    {
        roads.push(crate::placement::roads_of(&built.roads, colors[i]));
        blocked.push(buildings_of_others(built, i));
        i = i + 1;
    }
    (roads, blocked)
}

} // verus!

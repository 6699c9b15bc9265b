//! Where roads, towns and cities may be placed.
use vstd::prelude::*;

use crate::colors::CatanColor;
use crate::game::GameState;
use crate::outside::{pairs_spec, vec_pairs};
use crate::resources::{Resources, city_resources, road_resources, town_resources};
use crate::positions::{
    cube, lemma_edge_of_spot, lemma_shared_edge, lemma_spot_any_order, shared_spec, strictly_inside,
    BuildingPosition, Position, RoadPosition, bounded, generate_postions, generate_spec,
    lemma_generated_in_range, road_eq_spec,
};

verus! {

/// The values present among two options, in order.
pub open spec fn present2<T>(a: Option<T>, b: Option<T>) -> Seq<T> {
    (match a {
        Some(x) => seq![x],
        None => Seq::empty(),
    }) + (match b {
        Some(x) => seq![x],
        None => Seq::empty(),
    })
}

/// The values present among three options, in order.
pub open spec fn present3<T>(a: Option<T>, b: Option<T>, c: Option<T>) -> Seq<T> {
    present2(a, b) + (match c {
        Some(x) => seq![x],
        None => Seq::empty(),
    })
}

/// The spot of `p`, `p2` and the optional third hexagon, if it is one.
pub open spec fn spot_from(p: Position, other: Option<Position>, p2: Position, size: u8) -> Option<
    BuildingPosition,
> {
    match other {
        Some(x) => BuildingPosition::new_spec(p, x, p2, Some(size)),
        None => None,
    }
}

/// The (at most two) building spots at the ends of a road.
pub open spec fn spots_on_road(size: u8, road: RoadPosition) -> Seq<BuildingPosition> {
    match road {
        RoadPosition::Both(p1, p2, _) => {
            let (p3, p4) = road.neighbors_spec(Some(size));
            present2(spot_from(p1, p3, p2, size), spot_from(p1, p4, p2, size))
        },
    }
}

/// The building spots at the ends of the roads, road by road.
pub open spec fn spots_on_roads(roads: Seq<RoadPosition>, size: u8) -> Seq<BuildingPosition>
    decreases roads.len(),
{
    if roads.len() == 0 {
        Seq::empty()
    } else {
        spots_on_roads(roads.drop_last(), size) + spots_on_road(size, roads.last())
    }
}

/// Whether the ends of all the roads can be computed on a board of the size.
pub open spec fn roads_ok(roads: Seq<RoadPosition>, size: u8) -> bool {
    &&& size != 128
    &&& forall|i: int| 0 <= i < roads.len() ==> (#[trigger] roads[i]).neighbors_ok(Some(size))
}

/// The building spots at the two ends of a road.
pub fn buildings_on_road(size: u8, road: RoadPosition) -> (res: Vec<BuildingPosition>)
    requires
        size != 128,
        road.neighbors_ok(Some(size)),
    ensures
        res@ == spots_on_road(size, road),
{
    match road {
        RoadPosition::Both(p1, p2, _) => {
            let (p3, p4) = road.neighboring_two(Some(size));
            let a = match p3 {
                Some(x) => BuildingPosition::new(p1, x, p2, Some(size)),
                None => None,
            };
            let b = match p4 {
                Some(x) => BuildingPosition::new(p1, x, p2, Some(size)),
                None => None,
            };
            let mut out: Vec<BuildingPosition> = Vec::new();
            match a {
                Some(x) => out.push(x),
                None => {},
            }
            match b {
                Some(x) => out.push(x),
                None => {},
            }
            assert(out@ =~= spots_on_road(size, road));
            out
        },
    }
}

/// The building spots at the ends of the roads, road by road.
pub fn buildings_on_roads(roads: &Vec<RoadPosition>, size: u8) -> (res: Vec<BuildingPosition>)
    requires
        roads_ok(roads@, size),
    ensures
        res@ == spots_on_roads(roads@, size),
{
    let mut out: Vec<BuildingPosition> = Vec::new();
    let mut i: usize = 0;
    while i < roads.len()
        invariant
            0 <= i <= roads@.len(),
            roads_ok(roads@, size),
            out@ == spots_on_roads(roads@.take(i as int), size),
        decreases roads@.len() - i,
    {
        let more = buildings_on_road(size, roads[i]);
        let mut j: usize = 0;
        let ghost before = out@;
        while j < more.len()
            invariant
                0 <= j <= more@.len(),
                out@ == before + more@.take(j as int),
            decreases more@.len() - j,
        {
            out.push(more[j]);
            j = j + 1;
            assert(out@ =~= before + more@.take(j as int));
        }
        proof {
            assert(more@.take(more@.len() as int) =~= more@);
            assert(roads@.take(i + 1).drop_last() =~= roads@.take(i as int));
            assert(roads@.take(i + 1).last() == roads@[i as int]);
        }
        i = i + 1;
    }
    assert(roads@.take(roads@.len() as int) =~= roads@);
    out
}

/// The (at most three) roads around a building spot that lie on the board.
pub open spec fn spot_roads(b: BuildingPosition, size: u8) -> Seq<RoadPosition> {
    match b {
        BuildingPosition::All(x, y, z) => present3(
            RoadPosition::new_spec(x, y, Some(size)),
            RoadPosition::new_spec(x, z, Some(size)),
            RoadPosition::new_spec(y, z, Some(size)),
        ),
    }
}

/// No placed building stands one road away from `b` (at the far end of one
/// of its roads).
pub open spec fn no_touching_spec(b: BuildingPosition, placed: Seq<BuildingPosition>, size: u8) -> bool {
    let near = spots_on_roads(spot_roads(b, size), size);
    !(exists|i: int| 0 <= i < near.len() && placed.contains(#[trigger] near[i]))
}

/// Whether the roads around the spot, and their ends, can be computed.
pub open spec fn spot_ok(b: BuildingPosition, size: u8) -> bool {
    roads_ok(spot_roads(b, size), size)
}

/// Whether some placed building is `b`.
fn is_placed(placed: &Vec<BuildingPosition>, b: BuildingPosition) -> (res: bool)
    ensures
        res == placed@.contains(b),
{
    let mut i: usize = 0;
    while i < placed.len()
        invariant
            0 <= i <= placed@.len(),
            forall|k: int| 0 <= k < i ==> placed@[k] != b,
        decreases placed@.len() - i,
    {
        if placed[i] == b {
            assert(placed@[i as int] == b);
            return true;
        }
        i = i + 1;
    }
    false
}

/// Verifies that there is no building within one road of this building.
pub fn check_no_touching_buildings(position: &BuildingPosition, placed: &Vec<BuildingPosition>, size: u8) -> (res:
    bool)
    requires
        size != 128,
        spot_ok(*position, size),
    ensures
        res == no_touching_spec(*position, placed@, size),
{
    match position {
        BuildingPosition::All(a, b, c) => {
            let r1 = RoadPosition::new(*a, *b, Some(size));
            let r2 = RoadPosition::new(*a, *c, Some(size));
            let r3 = RoadPosition::new(*b, *c, Some(size));
            let mut roads: Vec<RoadPosition> = Vec::new();
            match r1 {
                Some(r) => roads.push(r),
                None => {},
            }
            match r2 {
                Some(r) => roads.push(r),
                None => {},
            }
            match r3 {
                Some(r) => roads.push(r),
                None => {},
            }
            assert(roads@ =~= spot_roads(*position, size));
            let near = buildings_on_roads(&roads, size);
            let mut i: usize = 0;
            while i < near.len()
                invariant
                    0 <= i <= near@.len(),
                    near@ == spots_on_roads(spot_roads(*position, size), size),
                    forall|k: int| 0 <= k < i ==> !placed@.contains(#[trigger] near@[k]),
                decreases near@.len() - i,
            {
                if is_placed(placed, near[i]) {
                    return false;
                }
                i = i + 1;
            }
            true
        },
    }
}

/// The spots next to the colour's roads where a town may go: no building
/// within one road, in the order of the roads.
pub open spec fn town_placements_spec(
    color: CatanColor,
    size: u8,
    roads: Seq<(CatanColor, RoadPosition)>,
    placed: Seq<BuildingPosition>,
) -> Seq<BuildingPosition> {
    spots_on_roads(own_roads(roads, color), size).filter(
        |b: BuildingPosition| no_touching_spec(b, placed, size),
    )
}

/// The roads of the colour, in order.
pub open spec fn own_roads(roads: Seq<(CatanColor, RoadPosition)>, color: CatanColor) -> Seq<RoadPosition>
    decreases roads.len(),
{
    if roads.len() == 0 {
        Seq::empty()
    } else if roads.last().0 == color {
        own_roads(roads.drop_last(), color).push(roads.last().1)
    } else {
        own_roads(roads.drop_last(), color)
    }
}

/// The roads of the colour, in order.
pub fn roads_of(roads: &Vec<(CatanColor, RoadPosition)>, color: CatanColor) -> (res: Vec<RoadPosition>)
    ensures
        res@ == own_roads(roads@, color),
{
    let mut out: Vec<RoadPosition> = Vec::new();
    let mut i: usize = 0;
    while i < roads.len()
        invariant
            0 <= i <= roads@.len(),
            out@ == own_roads(roads@.take(i as int), color),
        decreases roads@.len() - i,
    {
        let (c, r) = roads[i];
        if c == color {
            out.push(r);
        }
        proof {
            assert(roads@.take(i + 1).drop_last() =~= roads@.take(i as int));
            assert(roads@.take(i + 1).last() == roads@[i as int]);
        }
        i = i + 1;
    }
    assert(roads@.take(roads@.len() as int) =~= roads@);
    out
}

/// Whether everything the town placement looks at can be computed.
pub open spec fn town_placements_ok(color: CatanColor, size: u8, roads: Seq<(CatanColor, RoadPosition)>) -> bool {
    &&& roads_ok(own_roads(roads, color), size)
    &&& forall|i: int|
        0 <= i < spots_on_roads(own_roads(roads, color), size).len() ==> spot_ok(
            #[trigger] spots_on_roads(own_roads(roads, color), size)[i],
            size,
        )
}

/// Where the colour may build a town: at an end of one of its roads, with no
/// building within one road.
pub fn get_possible_town_placements(
    color: CatanColor,
    size: u8,
    roads: &Vec<(CatanColor, RoadPosition)>,
    placed: &Vec<BuildingPosition>,
) -> (res: Vec<BuildingPosition>)
    requires
        town_placements_ok(color, size, roads@),
    ensures
        res@ == town_placements_spec(color, size, roads@, placed@),
{
    let own = roads_of(roads, color);
    let spots = buildings_on_roads(&own, size);
    let ghost pred = |b: BuildingPosition| no_touching_spec(b, placed@, size);
    let mut out: Vec<BuildingPosition> = Vec::new();
    let mut i: usize = 0;
    while i < spots.len()
        invariant
            0 <= i <= spots@.len(),
            size != 128,
            spots@ == spots_on_roads(own_roads(roads@, color), size),
            forall|k: int| 0 <= k < spots@.len() ==> spot_ok(#[trigger] spots@[k], size),
            pred == (|b: BuildingPosition| no_touching_spec(b, placed@, size)),
            out@ == spots@.take(i as int).filter(pred),
        decreases spots@.len() - i,
    {
        let b = spots[i];
        if check_no_touching_buildings(&b, placed, size) {
            out.push(b);
        }
        proof {
            reveal_with_fuel(Seq::filter, 1);
            let tk = spots@.take(i + 1);
            assert(tk.last() == b);
            assert(tk.drop_last() =~= spots@.take(i as int));
            assert(tk.filter(pred) == if pred(b) {
                spots@.take(i as int).filter(pred).push(b)
            } else {
                spots@.take(i as int).filter(pred)
            });
        }
        i = i + 1;
    }
    assert(spots@.take(spots@.len() as int) =~= spots@);
    out
}

/// The spots where the colour may turn a town into a city: its towns, in order.
pub fn city_placements(towns: &Vec<(CatanColor, BuildingPosition)>, color: CatanColor) -> (res: Vec<
    BuildingPosition,
>)
    ensures
        res@ == towns@.filter(|t: (CatanColor, BuildingPosition)| t.0 == color).map_values(
            |t: (CatanColor, BuildingPosition)| t.1,
        ),
{
    let ghost pred = |t: (CatanColor, BuildingPosition)| t.0 == color;
    let ghost f = |t: (CatanColor, BuildingPosition)| t.1;
    let mut out: Vec<BuildingPosition> = Vec::new();
    let mut i: usize = 0;
    while i < towns.len()
        invariant
            0 <= i <= towns@.len(),
            pred == (|t: (CatanColor, BuildingPosition)| t.0 == color),
            f == (|t: (CatanColor, BuildingPosition)| t.1),
            out@ == towns@.take(i as int).filter(pred).map_values(f),
        decreases towns@.len() - i,
    {
        let t = towns[i];
        if t.0 == color {
            out.push(t.1);
        }
        proof {
            reveal_with_fuel(Seq::filter, 1);
            let tk = towns@.take(i + 1);
            assert(tk.last() == t);
            assert(tk.drop_last() =~= towns@.take(i as int));
            let before = towns@.take(i as int).filter(pred);
            assert(tk.filter(pred) == if pred(t) {
                before.push(t)
            } else {
                before
            });
            if pred(t) {
                assert(before.push(t).map_values(f) =~= before.map_values(f).push(t.1));
            }
        }
        i = i + 1;
    }
    assert(towns@.take(towns@.len() as int) =~= towns@);
    out
}

/// A candidate road next to `keep`'s road: from `p` to the optional hexagon,
/// with the hexagon `keep` that closes the corner they meet at.
pub open spec fn road_from(p: Position, other: Option<Position>, keep: Position, size: u8) -> Option<
    (Position, RoadPosition),
> {
    match other {
        Some(x) => match RoadPosition::new_spec(p, x, Some(size)) {
            Some(r) => Some((keep, r)),
            None => None,
        },
        None => None,
    }
}

/// The (at most four) roads that continue a road, each with the hexagon that
/// closes the corner where it meets the road.
pub open spec fn road_candidates(road: RoadPosition, size: u8) -> Seq<(Position, RoadPosition)> {
    match road {
        RoadPosition::Both(p1, p2, _) => {
            let (p3, p4) = road.neighbors_spec(Some(size));
            present2(road_from(p2, p3, p1, size), road_from(p2, p4, p1, size)) + present2(
                road_from(p1, p3, p2, size),
                road_from(p1, p4, p2, size),
            )
        },
    }
}

/// The candidates continuing each road, road by road.
pub open spec fn all_candidates(roads: Seq<RoadPosition>, size: u8) -> Seq<(Position, RoadPosition)>
    decreases roads.len(),
{
    if roads.len() == 0 {
        Seq::empty()
    } else {
        all_candidates(roads.drop_last(), size) + road_candidates(roads.last(), size)
    }
}

/// Some road (of any colour) already lies on `r`.
pub open spec fn road_taken(r: RoadPosition, roads: Seq<(CatanColor, RoadPosition)>) -> bool {
    exists|i: int| 0 <= i < roads.len() && road_eq_spec(r, #[trigger] roads[i].1)
}

/// The spot where a candidate road meets the road it continues.
pub open spec fn meeting_spot(c: (Position, RoadPosition)) -> BuildingPosition {
    match c.1 {
        RoadPosition::Both(a, b, _) => BuildingPosition::sorted_spec(c.0, a, b),
    }
}

/// A building of another colour stands where the candidate meets its road.
pub open spec fn blocked(
    c: (Position, RoadPosition),
    color: CatanColor,
    buildings: Seq<(CatanColor, BuildingPosition)>,
) -> bool {
    exists|i: int|
        0 <= i < buildings.len() && (#[trigger] buildings[i]).0 != color && buildings[i].1
            == meeting_spot(c)
}

/// Where the colour may build a road: continuing one of its roads, where
/// no road lies yet, unless a building of another colour stands at the
/// corner in between; road by road.
pub open spec fn possible_roads_spec(
    color: CatanColor,
    size: u8,
    roads: Seq<(CatanColor, RoadPosition)>,
    buildings: Seq<(CatanColor, BuildingPosition)>,
) -> Seq<RoadPosition> {
    all_candidates(own_roads(roads, color), size).filter(
        |c: (Position, RoadPosition)| !road_taken(c.1, roads) && !blocked(c, color, buildings),
    ).map_values(|c: (Position, RoadPosition)| c.1)
}

/// The roads continuing `road`, each with the hexagon closing their corner.
fn continuations(road: RoadPosition, size: u8) -> (res: Vec<(Position, RoadPosition)>)
    requires
        size != 128,
        road.neighbors_ok(Some(size)),
    ensures
        res@ == road_candidates(road, size),
{
    match road {
        RoadPosition::Both(p1, p2, _) => {
            let (p3, p4) = road.neighboring_two(Some(size));
            let mut out: Vec<(Position, RoadPosition)> = Vec::new();
            match p3 {
                Some(x) => match RoadPosition::new(p2, x, Some(size)) {
                    Some(r) => out.push((p1, r)),
                    None => {},
                },
                None => {},
            }
            match p4 {
                Some(x) => match RoadPosition::new(p2, x, Some(size)) {
                    Some(r) => out.push((p1, r)),
                    None => {},
                },
                None => {},
            }
            match p3 {
                Some(x) => match RoadPosition::new(p1, x, Some(size)) {
                    Some(r) => out.push((p2, r)),
                    None => {},
                },
                None => {},
            }
            match p4 {
                Some(x) => match RoadPosition::new(p1, x, Some(size)) {
                    Some(r) => out.push((p2, r)),
                    None => {},
                },
                None => {},
            }
            assert(out@ =~= road_candidates(road, size));
            out
        },
    }
}

/// Whether some road (of any colour) lies on `r`.
fn is_road_taken(r: RoadPosition, roads: &Vec<(CatanColor, RoadPosition)>) -> (res: bool)
    ensures
        res == road_taken(r, roads@),
{
    let mut i: usize = 0;
    while i < roads.len()
        invariant
            0 <= i <= roads@.len(),
            forall|k: int| 0 <= k < i ==> !road_eq_spec(r, #[trigger] roads@[k].1),
        decreases roads@.len() - i,
    {
        if r == roads[i].1 {
            assert(road_eq_spec(r, roads@[i as int].1));
            return true;
        }
        i = i + 1;
    }
    false
}

/// Whether a building of another colour stands where the candidate meets its road.
fn is_blocked(
    c: (Position, RoadPosition),
    color: CatanColor,
    buildings: &Vec<(CatanColor, BuildingPosition)>,
) -> (res: bool)
    ensures
        res == blocked(c, color, buildings@),
{
    let spot = match c.1 {
        RoadPosition::Both(a, b, _) => BuildingPosition::new_unchecked(c.0, a, b),
    };
    let mut i: usize = 0;
    while i < buildings.len()
        invariant
            0 <= i <= buildings@.len(),
            spot == meeting_spot(c),
            forall|k: int|
                0 <= k < i ==> !((#[trigger] buildings@[k]).0 != color && buildings@[k].1 == spot),
        decreases buildings@.len() - i,
    {
        let b = buildings[i];
        if b.0 != color && b.1 == spot {
            assert(buildings@[i as int] == b);
            return true;
        }
        i = i + 1;
    }
    false
}

/// Where the colour may build a road: continuing one of its roads, where no
/// road of any colour lies, and not past a building of another colour.
pub fn possible_normal_roads(
    color: CatanColor,
    size: u8,
    roads: &Vec<(CatanColor, RoadPosition)>,
    buildings: &Vec<(CatanColor, BuildingPosition)>,
) -> (res: Vec<RoadPosition>)
    requires
        roads_ok(own_roads(roads@, color), size),
    ensures
        res@ == possible_roads_spec(color, size, roads@, buildings@),
{
    let own = roads_of(roads, color);
    let mut cands: Vec<(Position, RoadPosition)> = Vec::new();
    let mut i: usize = 0;
    while i < own.len()
        invariant
            0 <= i <= own@.len(),
            own@ == own_roads(roads@, color),
            roads_ok(own@, size),
            cands@ == all_candidates(own@.take(i as int), size),
        decreases own@.len() - i,
    {
        let more = continuations(own[i], size);
        let mut j: usize = 0;
        let ghost before = cands@;
        while j < more.len()
            invariant
                0 <= j <= more@.len(),
                cands@ == before + more@.take(j as int),
            decreases more@.len() - j,
        {
            cands.push(more[j]);
            j = j + 1;
            assert(cands@ =~= before + more@.take(j as int));
        }
        proof {
            assert(more@.take(more@.len() as int) =~= more@);
            assert(own@.take(i + 1).drop_last() =~= own@.take(i as int));
            assert(own@.take(i + 1).last() == own@[i as int]);
        }
        i = i + 1;
    }
    assert(own@.take(own@.len() as int) =~= own@);
    let ghost pred = |c: (Position, RoadPosition)|
        !road_taken(c.1, roads@) && !blocked(c, color, buildings@);
    let ghost f = |c: (Position, RoadPosition)| c.1;
    let mut out: Vec<RoadPosition> = Vec::new();
    let mut k: usize = 0;
    while k < cands.len()
        invariant
            0 <= k <= cands@.len(),
            pred == (|c: (Position, RoadPosition)|
                !road_taken(c.1, roads@) && !blocked(c, color, buildings@)),
            f == (|c: (Position, RoadPosition)| c.1),
            out@ == cands@.take(k as int).filter(pred).map_values(f),
        decreases cands@.len() - k,
    {
        let c = cands[k];
        let keep = !is_road_taken(c.1, roads) && !is_blocked(c, color, buildings);
        if keep {
            out.push(c.1);
        }
        proof {
            reveal_with_fuel(Seq::filter, 1);
            let tk = cands@.take(k + 1);
            assert(tk.last() == c);
            assert(tk.drop_last() =~= cands@.take(k as int));
            let before = cands@.take(k as int).filter(pred);
            assert(tk.filter(pred) == if pred(c) {
                before.push(c)
            } else {
                before
            });
            if pred(c) {
                assert(before.push(c).map_values(f) =~= before.map_values(f).push(c.1));
            }
        }
        k = k + 1;
    }
    assert(cands@.take(cands@.len() as int) =~= cands@);
    out
}

/// A road between two hexagons near the centre has well-defined ends, and
/// those ends are near the centre too.
pub proof fn lemma_small_road(road: RoadPosition, size: u8)
    requires
        size != 128,
        match road {
            RoadPosition::Both(p1, p2, _) => bounded(p1, 41) && bounded(p2, 41),
        },
    ensures
        road.neighbors_ok(Some(size)),
        match road {
            RoadPosition::Both(p1, p2, _) => bounded(p1, 41) && bounded(p2, 41) && (
            road.neighbors_spec(Some(size)).0 matches Some(x) ==> bounded(x, 42)) && (road.neighbors_spec(
                Some(size),
            ).1 matches Some(x) ==> bounded(x, 42)),
        },
{
}

/// The spots at the ends of a road near the centre are near the centre.
pub proof fn lemma_small_spots(road: RoadPosition, size: u8)
    requires
        size != 128,
        match road {
            RoadPosition::Both(p1, p2, _) => bounded(p1, 40) && bounded(p2, 40),
        },
    ensures
        forall|i: int|
            0 <= i < spots_on_road(size, road).len() ==> spot_ok(
                #[trigger] spots_on_road(size, road)[i],
                size,
            ),
{
    lemma_small_road(road, size);
    assert forall|i: int| 0 <= i < spots_on_road(size, road).len() implies spot_ok(
        #[trigger] spots_on_road(size, road)[i],
        size,
    ) by {
        let b = spots_on_road(size, road)[i];
        match road {
            RoadPosition::Both(p1, p2, _) => {
                let (p3, p4) = road.neighbors_spec(Some(size));
                let x = if i == 0 && spot_from(p1, p3, p2, size) is Some {
                    p3->0
                } else {
                    p4->0
                };
                assert(bounded(x, 41));
                crate::positions::lemma_spot_sorted(p1, x, p2);
                lemma_small_spot_ok(b, size);
            },
        }
    }
}

/// A spot near the centre has well-defined roads around it.
pub proof fn lemma_small_spot_ok(b: BuildingPosition, size: u8)
    requires
        size != 128,
        bounded(b.hexes()[0], 41),
        bounded(b.hexes()[1], 41),
        bounded(b.hexes()[2], 41),
    ensures
        spot_ok(b, size),
{
    let rs = spot_roads(b, size);
    assert forall|i: int| 0 <= i < rs.len() implies (#[trigger] rs[i]).neighbors_ok(Some(size)) by {
        lemma_small_road(rs[i], size);
    }
}

/// Whether some road of the list lies on `r`.
fn road_listed(roads: &Vec<RoadPosition>, r: RoadPosition) -> (res: bool)
    ensures
        res == exists|i: int| 0 <= i < roads@.len() && road_eq_spec(#[trigger] roads@[i], r),
{
    let mut t: usize = 0;
    while t < roads.len()
        invariant
            0 <= t <= roads@.len(),
            forall|m: int| 0 <= m < t ==> !road_eq_spec(#[trigger] roads@[m], r),
        decreases roads@.len() - t,
    {
        if roads[t] == r {
            assert(road_eq_spec(roads@[t as int], r));
            return true;
        }
        t = t + 1;
    }
    false
}

/// Whether a town may go at one of the ends of `r`.
fn some_spot_free(size: u8, r: RoadPosition, placed: &Vec<BuildingPosition>) -> (res: bool)
    requires
        size != 128,
        r.neighbors_ok(Some(size)),
        forall|m: int|
            0 <= m < spots_on_road(size, r).len() ==> spot_ok(#[trigger] spots_on_road(size, r)[m], size),
    ensures
        res == exists|j: int|
            0 <= j < spots_on_road(size, r).len() && no_touching_spec(
                #[trigger] spots_on_road(size, r)[j],
                placed@,
                size,
            ),
{
    let spots = buildings_on_road(size, r);
    let mut j: usize = 0;
    while j < spots.len()
        invariant
            0 <= j <= spots@.len(),
            size != 128,
            spots@ == spots_on_road(size, r),
            forall|m: int| 0 <= m < spots@.len() ==> spot_ok(#[trigger] spots@[m], size),
            forall|m: int| 0 <= m < j ==> !no_touching_spec(#[trigger] spots@[m], placed@, size),
        decreases spots@.len() - j,
    {
        if check_no_touching_buildings(&spots[j], placed, size) {
            return true;
        }
        j = j + 1;
    }
    false
}

/// Both elements of every pair come from the sequence.
proof fn lemma_pairs_from(s: Seq<Position>, k: int)
    requires
        0 <= k < pairs_spec(s).len(),
    ensures
        exists|a: int| 0 <= a < s.len() && s[a] == pairs_spec(s)[k].0,
        exists|b: int| 0 <= b < s.len() && s[b] == pairs_spec(s)[k].1,
    decreases s.len(),
{
    let rest = s.drop_first();
    let head = rest.map_values(|x: Position| (s[0], x));
    if k < head.len() {
        assert(pairs_spec(s)[k] == head[k]);
        assert(s[0] == pairs_spec(s)[k].0);
        assert(s[k + 1] == pairs_spec(s)[k].1);
    } else {
        assert(pairs_spec(s)[k] == pairs_spec(rest)[k - head.len()]);
        lemma_pairs_from(rest, k - head.len());
        let a = choose|a: int| 0 <= a < rest.len() && rest[a] == pairs_spec(rest)[k - head.len()].0;
        let b = choose|b: int| 0 <= b < rest.len() && rest[b] == pairs_spec(rest)[k - head.len()].1;
        assert(s[a + 1] == rest[a]);
        assert(s[b + 1] == rest[b]);
    }
}

/// The roads the game offers during setup: every road between two hexagons
/// of the board (ring four included, pairs in order), not built yet, with a
/// spot at one of its ends where a town may go.
pub open spec fn setup_roads_spec(size: u8, roads: Seq<RoadPosition>, placed: Seq<BuildingPosition>) -> Seq<
    RoadPosition,
> {
    pairs_spec(generate_spec(4)).filter_map(
        |pr: (Position, Position)| RoadPosition::new_spec(pr.0, pr.1, Some(size)),
    ).filter(
        |r: RoadPosition|
            !(exists|i: int| 0 <= i < roads.len() && road_eq_spec(#[trigger] roads[i], r)) && exists|
                j: int,
            |
                0 <= j < spots_on_road(size, r).len() && no_touching_spec(
                    #[trigger] spots_on_road(size, r)[j],
                    placed,
                    size,
                ),
    )
}

/// Where a road may be placed during setup.
pub fn get_setup_road_placements(size: u8, roads: &Vec<RoadPosition>, placed: &Vec<BuildingPosition>) -> (res:
    Vec<RoadPosition>)
    requires
        size != 128,
    ensures
        res@ == setup_roads_spec(size, roads@, placed@),
{
    let hexes = generate_postions(4);
    let pairs = vec_pairs(&hexes);
    let ghost f = |pr: (Position, Position)| RoadPosition::new_spec(pr.0, pr.1, Some(size));
    let ghost ps = pairs_spec(hexes@);
    let mut cands: Vec<RoadPosition> = Vec::new();
    let mut i: usize = 0;
    while i < pairs.len()
        invariant
            0 <= i <= pairs@.len(),
            size != 128,
            hexes@ == generate_spec(4),
            ps == pairs_spec(hexes@),
            pairs@.len() == ps.len(),
            forall|k: int| 0 <= k < pairs@.len() ==> (#[trigger] pairs@[k])@ == seq![ps[k].0, ps[k].1],
            f == (|pr: (Position, Position)| RoadPosition::new_spec(pr.0, pr.1, Some(size))),
            cands@ == ps.take(i as int).filter_map(f),
        decreases pairs@.len() - i,
    {
        let pr = pairs[i];
        assert(pr@ == seq![ps[i as int].0, ps[i as int].1]);
        let a = pr[0];
        let b = pr[1];
        let made = RoadPosition::new(a, b, Some(size));
        match made {
            Some(r) => cands.push(r),
            None => {},
        }
        proof {
            let tk = ps.take(i + 1);
            assert(tk.last() == ps[i as int]);
            assert(tk.last() == (a, b));
            assert(tk.drop_last() =~= ps.take(i as int));
            assert(f(tk.last()) == made);
        }
        i = i + 1;
    }
    assert(ps.take(ps.len() as int) =~= ps);
    proof {
        assert forall|m: int| 0 <= m < cands@.len() implies match #[trigger] cands@[m] {
            RoadPosition::Both(p1, p2, _) => bounded(p1, 3) && bounded(p2, 3),
        } by {
            crate::positions::lemma_filter_map_origin(ps, f, m);
            let j = choose|j: int| 0 <= j < ps.len() && f(ps[j]) == Some(ps.filter_map(f)[m]);
            lemma_pairs_from(hexes@, j);
            let a = choose|a: int| 0 <= a < hexes@.len() && hexes@[a] == ps[j].0;
            let b = choose|b: int| 0 <= b < hexes@.len() && hexes@[b] == ps[j].1;
            lemma_generated_in_range(4, a);
            lemma_generated_in_range(4, b);
        }
    }
    let ghost pred = |r: RoadPosition|
        !(exists|i: int| 0 <= i < roads@.len() && road_eq_spec(#[trigger] roads@[i], r)) && exists|
            j: int,
        |
            0 <= j < spots_on_road(size, r).len() && no_touching_spec(
                #[trigger] spots_on_road(size, r)[j],
                placed@,
                size,
            );
    let mut out: Vec<RoadPosition> = Vec::new();
    let mut k: usize = 0;
    while k < cands.len()
        invariant
            0 <= k <= cands@.len(),
            size != 128,
            forall|m: int|
                0 <= m < cands@.len() ==> match #[trigger] cands@[m] {
                    RoadPosition::Both(p1, p2, _) => bounded(p1, 3) && bounded(p2, 3),
                },
            pred == (|r: RoadPosition|
                !(exists|i: int| 0 <= i < roads@.len() && road_eq_spec(#[trigger] roads@[i], r))
                    && exists|j: int|
                    0 <= j < spots_on_road(size, r).len() && no_touching_spec(
                        #[trigger] spots_on_road(size, r)[j],
                        placed@,
                        size,
                    )),
            out@ == cands@.take(k as int).filter(pred),
        decreases cands@.len() - k,
    {
        let r = cands[k];
        proof {
            lemma_small_road(r, size);
            lemma_small_spots(r, size);
        }
        let taken = road_listed(roads, r);
        let usable = if !taken {
            some_spot_free(size, r, placed)
        } else {
            false
        };
        let keep = !taken && usable;
        if keep {
            out.push(r);
        }
        proof {
            assert(keep == pred(r));
            reveal_with_fuel(Seq::filter, 1);
            let tk = cands@.take(k + 1);
            assert(tk.last() == r);
            assert(tk.drop_last() =~= cands@.take(k as int));
            assert(tk.filter(pred) == if pred(r) {
                cands@.take(k as int).filter(pred).push(r)
            } else {
                cands@.take(k as int).filter(pred)
            });
        }
        k = k + 1;
    }
    assert(cands@.take(cands@.len() as int) =~= cands@);
    out
}

/// Every road's hexagons lie within forty steps of the centre.
pub open spec fn roads_near_centre(roads: Seq<RoadPosition>) -> bool {
    forall|i: int|
        0 <= i < roads.len() ==> match #[trigger] roads[i] {
            RoadPosition::Both(p1, p2, _) => bounded(p1, 40) && bounded(p2, 40),
        }
}

proof fn lemma_own_near(roads: Seq<(CatanColor, RoadPosition)>, color: CatanColor)
    requires
        roads_near_centre(roads.map_values(|e: (CatanColor, RoadPosition)| e.1)),
    ensures
        roads_near_centre(own_roads(roads, color)),
    decreases roads.len(),
{
    if roads.len() > 0 {
        let f = |e: (CatanColor, RoadPosition)| e.1;
        assert(roads.drop_last().map_values(f) =~= roads.map_values(f).drop_last());
        lemma_own_near(roads.drop_last(), color);
        assert(roads.map_values(f)[roads.len() - 1] == roads.last().1);
    }
}

proof fn lemma_near_spots(roads: Seq<RoadPosition>, size: u8)
    requires
        size != 128,
        roads_near_centre(roads),
    ensures
        roads_ok(roads, size),
        forall|i: int|
            0 <= i < spots_on_roads(roads, size).len() ==> spot_ok(
                #[trigger] spots_on_roads(roads, size)[i],
                size,
            ),
    decreases roads.len(),
{
    assert forall|i: int| 0 <= i < roads.len() implies (#[trigger] roads[i]).neighbors_ok(
        Some(size),
    ) by {
        lemma_small_road(roads[i], size);
    }
    if roads.len() > 0 {
        lemma_near_spots(roads.drop_last(), size);
        lemma_small_spots(roads.last(), size);
        let a = spots_on_roads(roads.drop_last(), size);
        let b = spots_on_road(size, roads.last());
        assert forall|i: int| 0 <= i < spots_on_roads(roads, size).len() implies spot_ok(
            #[trigger] spots_on_roads(roads, size)[i],
            size,
        ) by {
            if i < a.len() {
                assert(spots_on_roads(roads, size)[i] == a[i]);
            } else {
                assert(spots_on_roads(roads, size)[i] == b[i - a.len()]);
            }
        }
    }
}

/// Whether all the roads lie near the centre (within forty steps), on a
/// board size other than 128. Then the placement searches can run for
/// every colour (`roads_ok` and `town_placements_ok` hold); a board of the
/// usual size never has roads farther out.
pub fn roads_fit(roads: &Vec<(CatanColor, RoadPosition)>, size: u8) -> (res: bool)
    ensures
        res == (size != 128 && roads_near_centre(
            roads@.map_values(|e: (CatanColor, RoadPosition)| e.1),
        )),
        res ==> forall|c: CatanColor|
            #[trigger] town_placements_ok(c, size, roads@) && roads_ok(own_roads(roads@, c), size),
{
    if size == 128 {
        return false;
    }
    let ghost f = |e: (CatanColor, RoadPosition)| e.1;
    let mut i: usize = 0;
    while i < roads.len()
        invariant
            0 <= i <= roads@.len(),
            f == (|e: (CatanColor, RoadPosition)| e.1),
            forall|k: int|
                0 <= k < i ==> match #[trigger] roads@.map_values(f)[k] {
                    RoadPosition::Both(p1, p2, _) => bounded(p1, 40) && bounded(p2, 40),
                },
        decreases roads@.len() - i,
    {
        let (_, r) = roads[i];
        assert(roads@.map_values(f)[i as int] == r);
        match r {
            RoadPosition::Both(p1, p2, _) => {
                if !(in_band(p1) && in_band(p2)) {
                    return false;
                }
            },
        }
        i = i + 1;
    }
    proof {
        assert forall|c: CatanColor|
            #[trigger] town_placements_ok(c, size, roads@) && roads_ok(own_roads(roads@, c), size) by {
            lemma_own_near(roads@, c);
            lemma_near_spots(own_roads(roads@, c), size);
        }
    }
    true
}

/// Whether the hexagon lies within forty steps of the centre.
fn in_band(p: Position) -> (res: bool)
    ensures
        res == bounded(p, 40),
{
    -40 <= p.q && p.q <= 40 && -40 <= p.r && p.r <= 40 && -40 <= p.s && p.s <= 40
}

/// Whether the player (when found) has a piece of the kind left to place.
pub open spec fn has_left(left: Option<u8>) -> bool {
    left matches Some(n) && n > 0
}

/// Where the current player may build a road, and what each road costs
/// (`multiplier` times the price of a road: zero for the free roads of a
/// card). Nothing when the player has no road left to place.
pub fn place_normal_road(
    multiplier: u8,
    roads_left: Option<u8>,
    color: CatanColor,
    size: u8,
    roads: &Vec<(CatanColor, RoadPosition)>,
    buildings: &Vec<(CatanColor, BuildingPosition)>,
) -> (res: Option<(Vec<RoadPosition>, Resources)>)
    requires
        roads_ok(own_roads(roads@, color), size),
    ensures
        res is Some <==> has_left(roads_left),
        res matches Some(r) ==> r.0@ == possible_roads_spec(color, size, roads@, buildings@) && r.1
            == Resources::new_spec(multiplier, multiplier, 0, 0, 0),
{
    match roads_left {
        Some(n) => if n > 0 {
            let cost = road_resources().mul(multiplier);
            Some((possible_normal_roads(color, size, roads, buildings), cost))
        } else {
            None
        },
        None => None,
    }
}

/// Where the current player may build a town, at the price of a town.
/// Nothing when the player has no town left to place.
pub fn place_normal_town(
    towns_left: Option<u8>,
    color: CatanColor,
    size: u8,
    roads: &Vec<(CatanColor, RoadPosition)>,
    placed: &Vec<BuildingPosition>,
) -> (res: Option<(Vec<BuildingPosition>, Resources)>)
    requires
        town_placements_ok(color, size, roads@),
    ensures
        res is Some <==> has_left(towns_left),
        res matches Some(r) ==> r.0@ == town_placements_spec(color, size, roads@, placed@) && r.1
            == Resources::new_spec(1, 1, 1, 1, 0),
{
    match towns_left {
        Some(n) => if n > 0 {
            Some((get_possible_town_placements(color, size, roads, placed), town_resources()))
        } else {
            None
        },
        None => None,
    }
}

/// Where the current player may build a city (on one of its towns), at
/// the price of a city. Nothing when the player has no city left to place.
pub fn place_normal_city(
    cities_left: Option<u8>,
    color: CatanColor,
    towns: &Vec<(CatanColor, BuildingPosition)>,
) -> (res: Option<(Vec<BuildingPosition>, Resources)>)
    ensures
        res is Some <==> has_left(cities_left),
        res matches Some(r) ==> r.0@ == towns@.filter(
            |t: (CatanColor, BuildingPosition)| t.0 == color,
        ).map_values(|t: (CatanColor, BuildingPosition)| t.1) && r.1 == Resources::new_spec(
            0,
            0,
            0,
            2,
            3,
        ),
{
    match cities_left {
        Some(n) => if n > 0 {
            Some((city_placements(towns, color), city_resources()))
        } else {
            None
        },
        None => None,
    }
}

/// The phase after the spots for a piece were offered (by
/// `place_normal_road`, `place_normal_town` or `place_normal_city`): when
/// the player has pieces left but no spot to put one, back to the turn;
/// otherwise the phase stays as it is.
pub fn state_after_offer<T>(offer: &Option<(Vec<T>, Resources)>, state: GameState) -> (res: GameState)
    ensures
        res == match offer {
            Some(o) => if o.0@.len() == 0 {
                GameState::Turn
            } else {
                state
            },
            None => state,
        },
{
    match offer {
        Some(o) => if o.0.len() == 0 {
            GameState::Turn
        } else {
            state
        },
        None => state,
    }
}

/// A spot as `BuildingPosition::new` makes them on a board of size
/// `size`: three hexagons in cube coordinates that meet at one corner, one
/// of them strictly inside the board, kept in their sorted order.
pub open spec fn valid_spot(b: BuildingPosition, size: u8) -> bool {
    &&& cube(b.hexes()[0])
    &&& cube(b.hexes()[1])
    &&& cube(b.hexes()[2])
    &&& BuildingPosition::new_spec(b.hexes()[0], b.hexes()[1], b.hexes()[2], Some(size)) == Some(b)
}

/// Two of the three hexagons of `b` are hexagons of `q`: `q` is `b` itself
/// or the spot at the far end of one of the roads around `b`.
pub open spec fn shares_two(b: BuildingPosition, q: BuildingPosition) -> bool {
    exists|i: int, j: int|
        0 <= i < j < 3 && #[trigger] q.hexes().contains(b.hexes()[i]) && #[trigger] q.hexes().contains(
            b.hexes()[j],
        )
}

proof fn lemma_present2_contains<T>(a: Option<T>, b: Option<T>)
    ensures
        a matches Some(x) ==> present2(a, b).contains(x),
        b matches Some(x) ==> present2(a, b).contains(x),
{
    match a {
        Some(x) => {
            assert(present2(a, b)[0] == x);
        },
        None => {},
    }
    match b {
        Some(x) => {
            assert(present2(a, b)[present2(a, b).len() - 1] == x);
        },
        None => {},
    }
}

proof fn lemma_present3_contains<T>(a: Option<T>, b: Option<T>, c: Option<T>)
    ensures
        a matches Some(x) ==> present3(a, b, c).contains(x),
        b matches Some(x) ==> present3(a, b, c).contains(x),
        c matches Some(x) ==> present3(a, b, c).contains(x),
{
    lemma_present2_contains(a, b);
    let p = present3(a, b, c);
    match a {
        Some(x) => {
            let k = choose|k: int| 0 <= k < present2(a, b).len() && present2(a, b)[k] == x;
            assert(p[k] == x);
        },
        None => {},
    }
    match b {
        Some(x) => {
            let k = choose|k: int| 0 <= k < present2(a, b).len() && present2(a, b)[k] == x;
            assert(p[k] == x);
        },
        None => {},
    }
    match c {
        Some(x) => {
            assert(p[p.len() - 1] == x);
        },
        None => {},
    }
}

proof fn lemma_spots_on_roads_contains(roads: Seq<RoadPosition>, size: u8, k: int, e: BuildingPosition)
    requires
        0 <= k < roads.len(),
        spots_on_road(size, roads[k]).contains(e),
    ensures
        spots_on_roads(roads, size).contains(e),
    decreases roads.len(),
{
    let all = spots_on_roads(roads, size);
    let front = spots_on_roads(roads.drop_last(), size);
    if k == roads.len() - 1 {
        let j = choose|j: int| 0 <= j < spots_on_road(size, roads[k]).len() && spots_on_road(size, roads[k])[j] == e;
        assert(all[front.len() + j] == e);
    } else {
        assert(roads.drop_last()[k] == roads[k]);
        lemma_spots_on_roads_contains(roads.drop_last(), size, k, e);
        let j = choose|j: int| 0 <= j < front.len() && front[j] == e;
        assert(all[j] == e);
    }
}

/// The hexagon of the spot `q` other than its hexagons `x` and `y`.
proof fn lemma_pick_third(q: BuildingPosition, x: Position, y: Position, size: u8) -> (w: Position)
    requires
        valid_spot(q, size),
        q.hexes().contains(x),
        q.hexes().contains(y),
        x != y,
    ensures
        cube(w),
        BuildingPosition::meet_spec(x, y, w),
        BuildingPosition::new_spec(x, w, y, Some(size)) == Some(q),
        forall|z: Position| q.hexes().contains(z) && z != x && z != y ==> z == w,
        strictly_inside(x, size) || strictly_inside(y, size) || strictly_inside(w, size),
{
    let k = q.hexes();
    lemma_spot_any_order(k[0], k[1], k[2], Some(size));
    let a = choose|a: int| 0 <= a < 3 && k[a] == x;
    let c = choose|c: int| 0 <= c < 3 && k[c] == y;
    let w = k[3 - a - c];
    assert(a != c);
    if a == 0 && c == 1 {
    } else if a == 0 && c == 2 {
    } else if a == 1 && c == 0 {
    } else if a == 1 && c == 2 {
    } else if a == 2 && c == 0 {
    } else {
    }
    assert forall|z: Position| q.hexes().contains(z) && z != x && z != y implies z == w by {
        let d = choose|d: int| 0 <= d < 3 && k[d] == z;
    }
    w
}

/// The spot `q` at an end of the road between the hexagons `e` and `m` of
/// `b`, the road lying on the board, is one of the spots the check looks
/// at around `b`.
proof fn lemma_road_end(
    b: BuildingPosition,
    size: u8,
    e: int,
    m: int,
    w: Position,
    q: BuildingPosition,
)
    requires
        0 <= e < m < 3,
        shared_spec(b.hexes()[e], b.hexes()[m]) matches Some(c) && RoadPosition::new_spec(
            b.hexes()[e],
            b.hexes()[m],
            Some(size),
        ) == Some(RoadPosition::Both(b.hexes()[e], b.hexes()[m], c)) && (RoadPosition::Both(
            b.hexes()[e],
            b.hexes()[m],
            c,
        ).neighbors_spec(Some(size)).0 == Some(w) || RoadPosition::Both(
            b.hexes()[e],
            b.hexes()[m],
            c,
        ).neighbors_spec(Some(size)).1 == Some(w)),
        BuildingPosition::new_spec(b.hexes()[e], w, b.hexes()[m], Some(size)) == Some(q),
    ensures
        spots_on_roads(spot_roads(b, size), size).contains(q),
{
    let x = b.hexes()[e];
    let y = b.hexes()[m];
    let c = shared_spec(x, y)->0;
    let r = RoadPosition::Both(x, y, c);
    let (p3, p4) = r.neighbors_spec(Some(size));
    lemma_present2_contains(spot_from(x, p3, y, size), spot_from(x, p4, y, size));
    assert(spots_on_road(size, r).contains(q));
    match b {
        BuildingPosition::All(h0, h1, h2) => {
            lemma_present3_contains(
                RoadPosition::new_spec(h0, h1, Some(size)),
                RoadPosition::new_spec(h0, h2, Some(size)),
                RoadPosition::new_spec(h1, h2, Some(size)),
            );
        },
    }
    let roads = spot_roads(b, size);
    assert(roads.contains(r));
    let idx = choose|idx: int| 0 <= idx < roads.len() && roads[idx] == r;
    lemma_spots_on_roads_contains(roads, size, idx, q);
}

/// The spot `q` sharing the hexagons `e` and `m` of `b` is at an end of the
/// road between them, which lies on the board (when `q` has not all three
/// of `b`'s hexagons, or one of the two is strictly inside).
proof fn lemma_detect(b: BuildingPosition, q: BuildingPosition, size: u8, e: int, m: int)
    requires
        valid_spot(b, size),
        valid_spot(q, size),
        0 <= e < m < 3,
        q.hexes().contains(b.hexes()[e]),
        q.hexes().contains(b.hexes()[m]),
        !q.hexes().contains(b.hexes()[3 - e - m]) || strictly_inside(b.hexes()[e], size)
            || strictly_inside(b.hexes()[m], size),
    ensures
        spots_on_roads(spot_roads(b, size), size).contains(q),
{
    let h = b.hexes();
    let x = h[e];
    let y = h[m];
    let z = h[3 - e - m];
    lemma_spot_any_order(h[0], h[1], h[2], Some(size));
    assert(BuildingPosition::meet_spec(x, y, z));
    assert(strictly_inside(x, size) || strictly_inside(y, size) || strictly_inside(z, size));
    let w = lemma_pick_third(q, x, y, size);
    if w != z {
        lemma_shared_edge(x, y, z, w, size);
    } else {
        lemma_edge_of_spot(x, y, w, size);
    }
    lemma_road_end(b, size, e, m, w, q);
}

/// A town may not stand next to a building: a spot that passes the check
/// shares at most one hexagon with every placed building, so no placed
/// building is the spot itself or stands at the far end of any of the
/// three roads around it.
pub proof fn law_no_town_beside_a_building(
    b: BuildingPosition,
    placed: Seq<BuildingPosition>,
    size: u8,
    q: BuildingPosition,
)
    requires
        valid_spot(b, size),
        valid_spot(q, size),
        placed.contains(q),
        no_touching_spec(b, placed, size),
    ensures
        !shares_two(b, q),
{
    if shares_two(b, q) {
        let (i, j) = choose|i: int, j: int|
            0 <= i < j < 3 && #[trigger] q.hexes().contains(b.hexes()[i]) && #[trigger] q.hexes().contains(
                b.hexes()[j],
            );
        let h = b.hexes();
        let t = 3 - i - j;
        if !q.hexes().contains(h[t]) || strictly_inside(h[i], size) || strictly_inside(h[j], size) {
            lemma_detect(b, q, size, i, j);
        } else {
            lemma_spot_any_order(h[0], h[1], h[2], Some(size));
            assert(strictly_inside(h[t], size));
            if i < t {
                lemma_detect(b, q, size, i, t);
            } else {
                lemma_detect(b, q, size, t, i);
            }
        }
        let near = spots_on_roads(spot_roads(b, size), size);
        let n = choose|n: int| 0 <= n < near.len() && near[n] == q;
        assert(placed.contains(near[n]));
    }
}

} // verus!

//! The longest-road bonus: two victory points for the player with the
//! longest path of roads, once it is longer than four.
use vstd::prelude::*;

use crate::army::bump;
use crate::game::VictoryPoints;
use crate::placement::{buildings_on_road, roads_ok, spots_on_road};
use crate::positions::{BuildingPosition, RoadPosition};

verus! {

/// Who holds the bonus (a player index) and the length to beat.
#[derive(Clone, Copy, Debug, PartialEq, Eq, Structural)]
pub struct LongestRoad(pub Option<usize>, pub u8);

impl LongestRoad {
    /// At the start nobody holds the bonus and a path of five roads is needed.
    pub fn new() -> (res: Self)
        ensures
            res == LongestRoad(None, 4),
    {
        LongestRoad(None, 4)
    }
}

/// A player's longest path of roads (whether or not the bonus is theirs).
#[derive(Clone, Debug)]
pub struct PlayerLongestRoad(pub Vec<RoadPosition>);

/// The lengths of the players' paths.
pub open spec fn path_lengths(paths: Seq<PlayerLongestRoad>) -> Seq<int> {
    paths.map_values(|p: PlayerLongestRoad| p.0@.len() as int)
}

/// Whether road `r` runs between the spots `a` and `b` on a board of size
/// `size`: its two ends are `a` and `b`, in either order.
pub open spec fn joins(size: u8, r: RoadPosition, a: BuildingPosition, b: BuildingPosition) -> bool {
    let e = spots_on_road(size, r);
    e.len() == 2 && ((e[0] == a && e[1] == b) || (e[0] == b && e[1] == a))
}

/// A path through `roads`: `idx` picks roads, none twice, that run end to
/// end through the spots `spots` in turn, and no spot that the path passes
/// through (all but its two ends) holds a building in `blocked`.
pub open spec fn is_trail(
    size: u8,
    roads: Seq<RoadPosition>,
    blocked: Seq<BuildingPosition>,
    idx: Seq<int>,
    spots: Seq<BuildingPosition>,
) -> bool {
    &&& spots.len() == idx.len() + 1
    &&& forall|i: int| 0 <= i < idx.len() ==> 0 <= #[trigger] idx[i] < roads.len()
    &&& forall|i: int, j: int| 0 <= i < j < idx.len() ==> #[trigger] idx[i] != #[trigger] idx[j]
    &&& forall|i: int|
        0 <= i < idx.len() ==> joins(size, roads[#[trigger] idx[i]], spots[i], spots[i + 1])
    &&& forall|i: int| 0 < i < idx.len() ==> !blocked.contains(#[trigger] spots[i])
}

/// A path (see `is_trail`) whose roads, in order, are `path`.
pub open spec fn is_path(
    size: u8,
    roads: Seq<RoadPosition>,
    blocked: Seq<BuildingPosition>,
    path: Seq<RoadPosition>,
) -> bool {
    exists|idx: Seq<int>, spots: Seq<BuildingPosition>|
        #![trigger is_trail(size, roads, blocked, idx, spots)]
        is_trail(size, roads, blocked, idx, spots) && path == idx.map_values(|i: int| roads[i])
}

/// Whether `n` is the length of the longest path.
pub open spec fn is_longest_len(
    size: u8,
    roads: Seq<RoadPosition>,
    blocked: Seq<BuildingPosition>,
    n: nat,
) -> bool {
    &&& exists|idx: Seq<int>, spots: Seq<BuildingPosition>|
        #![trigger is_trail(size, roads, blocked, idx, spots)]
        is_trail(size, roads, blocked, idx, spots) && idx.len() == n
    &&& forall|idx: Seq<int>, spots: Seq<BuildingPosition>|
        #![trigger is_trail(size, roads, blocked, idx, spots)]
        is_trail(size, roads, blocked, idx, spots) ==> idx.len() <= n
}

/// The length of the longest path, once some path has five roads or more.
pub open spec fn longest_len(
    size: u8,
    roads: Seq<RoadPosition>,
    blocked: Seq<BuildingPosition>,
) -> Option<nat> {
    if exists|idx: Seq<int>, spots: Seq<BuildingPosition>|
        #![trigger is_trail(size, roads, blocked, idx, spots)]
        is_trail(size, roads, blocked, idx, spots) && idx.len() >= 5 {
        Some(choose|n: nat| is_longest_len(size, roads, blocked, n))
    } else {
        None
    }
}

/// A path that uses none of the roads marked in `used`.
pub open spec fn free_trail(
    size: u8,
    roads: Seq<RoadPosition>,
    blocked: Seq<BuildingPosition>,
    used: Seq<bool>,
    idx: Seq<int>,
    spots: Seq<BuildingPosition>,
) -> bool {
    &&& is_trail(size, roads, blocked, idx, spots)
    &&& forall|i: int| 0 <= i < idx.len() ==> !used[#[trigger] idx[i]]
}

/// The indices as integers.
pub open spec fn ints(v: Seq<usize>) -> Seq<int> {
    v.map_values(|x: usize| x as int)
}

/// How many roads are not marked in `used`.
pub open spec fn free_count(used: Seq<bool>) -> nat
    decreases used.len(),
{
    if used.len() == 0 {
        0
    } else {
        free_count(used.drop_last()) + if used.last() {
            0nat
        } else {
            1nat
        }
    }
}

proof fn lemma_free_count_mark(used: Seq<bool>, i: int)
    requires
        0 <= i < used.len(),
        !used[i],
    ensures
        free_count(used.update(i, true)) + 1 == free_count(used),
    decreases used.len(),
{
    if i == used.len() - 1 {
        assert(used.update(i, true).drop_last() =~= used.drop_last());
    } else {
        lemma_free_count_mark(used.drop_last(), i);
        assert(used.update(i, true).drop_last() =~= used.drop_last().update(i, true));
    }
}

fn spot_in(spots: &Vec<BuildingPosition>, b: BuildingPosition) -> (res: bool)
    ensures
        res == spots@.contains(b),
{
    let mut i: usize = 0;
    while i < spots.len()
        invariant
            i <= spots@.len(),
            forall|j: int| 0 <= j < i ==> spots@[j] != b,
        decreases spots@.len() - i,
    {
        if spots[i] == b {
            return true;
        }
        i = i + 1;
    }
    false
}

/// The longest path from spot `at` over the roads not marked in `used`,
/// by trying every free road that leaves `at` and continuing from its other
/// end unless a building in `blocked` stands there.
fn best_from(
    size: u8,
    roads: &Vec<RoadPosition>,
    ends: &Vec<Vec<BuildingPosition>>,
    blocked: &Vec<BuildingPosition>,
    used: &mut Vec<bool>,
    at: BuildingPosition,
) -> (res: (Vec<usize>, Ghost<Seq<BuildingPosition>>))
    requires
        ends@.len() == roads@.len(),
        old(used)@.len() == roads@.len(),
        forall|i: int| 0 <= i < roads@.len() ==> (#[trigger] ends@[i])@ == spots_on_road(size, roads@[i]),
    ensures
        final(used)@ == old(used)@,
        free_trail(size, roads@, blocked@, old(used)@, ints(res.0@), res.1@),
        res.1@[0] == at,
        forall|idx: Seq<int>, spots: Seq<BuildingPosition>|
            #![trigger free_trail(size, roads@, blocked@, old(used)@, idx, spots)]
            free_trail(size, roads@, blocked@, old(used)@, idx, spots) && spots[0] == at
                ==> idx.len() <= res.0@.len(),
    decreases free_count(old(used)@),
{
    let ghost u0 = used@;
    let mut best: Vec<usize> = Vec::new();
    let ghost mut best_spots: Seq<BuildingPosition> = seq![at];
    assert(ints(best@) =~= Seq::<int>::empty());
    let mut i: usize = 0;
    while i < roads.len()
        invariant
            i <= roads@.len(),
            ends@.len() == roads@.len(),
            used@ == u0,
            u0 == old(used)@,
            u0.len() == roads@.len(),
            forall|k: int| 0 <= k < roads@.len() ==> (#[trigger] ends@[k])@ == spots_on_road(size, roads@[k]),
            free_trail(size, roads@, blocked@, u0, ints(best@), best_spots),
            best_spots[0] == at,
            forall|idx: Seq<int>, spots: Seq<BuildingPosition>|
                #![trigger free_trail(size, roads@, blocked@, u0, idx, spots)]
                free_trail(size, roads@, blocked@, u0, idx, spots) && spots[0] == at && idx.len() > 0
                    && idx[0] < i ==> idx.len() <= best@.len(),
        decreases roads@.len() - i,
    {
        let ghost best_before = best@.len();
        if !used[i] && ends[i].len() == 2 && (ends[i][0] == at || ends[i][1] == at) {
            let other = if ends[i][0] == at {
                ends[i][1]
            } else {
                ends[i][0]
            };
            assert(joins(size, roads@[i as int], at, other));
            proof {
                lemma_free_count_mark(u0, i as int);
            }
            used.set(i, true);
            let ghost u1 = used@;
            let stop = spot_in(blocked, other);
            let mut rest: Vec<usize> = Vec::new();
            let ghost mut rs: Seq<BuildingPosition> = seq![other];
            assert(ints(rest@) =~= Seq::<int>::empty());
            if !stop {
                let (found, found_spots) = best_from(size, roads, ends, blocked, used, other);
                rest = found;
                proof {
                    rs = found_spots@;
                }
            }
            used.set(i, false);
            assert(used@ =~= u0);
            let ghost cand_idx = seq![i as int] + ints(rest@);
            let ghost cand_spots = seq![at] + rs;
            proof {
                assert(free_trail(size, roads@, blocked@, u1, ints(rest@), rs));
                assert(rs[0] == other);
                assert forall|a: int, b: int| 0 <= a < b < cand_idx.len() implies #[trigger] cand_idx[a]
                    != #[trigger] cand_idx[b] by {
                    if a == 0 {
                        assert(cand_idx[b] == ints(rest@)[b - 1]);
                        assert(!u1[ints(rest@)[b - 1]]);
                    } else {
                        assert(cand_idx[a] == ints(rest@)[a - 1]);
                        assert(cand_idx[b] == ints(rest@)[b - 1]);
                    }
                }
                assert forall|a: int| 0 <= a < cand_idx.len() implies joins(
                    size,
                    roads@[#[trigger] cand_idx[a]],
                    cand_spots[a],
                    cand_spots[a + 1],
                ) by {
                    if a > 0 {
                        assert(cand_idx[a] == ints(rest@)[a - 1]);
                    }
                }
                assert forall|a: int| 0 < a < cand_idx.len() implies !blocked@.contains(
                    #[trigger] cand_spots[a],
                ) by {
                    if a == 1 {
                        assert(!stop);
                    } else {
                        assert(cand_spots[a] == rs[a - 1]);
                    }
                }
                assert forall|a: int| 0 <= a < cand_idx.len() implies !u0[#[trigger] cand_idx[a]]
                    && 0 <= cand_idx[a] < roads@.len() by {
                    if a > 0 {
                        assert(cand_idx[a] == ints(rest@)[a - 1]);
                        assert(!u1[ints(rest@)[a - 1]]);
                    }
                }
                assert(free_trail(size, roads@, blocked@, u0, cand_idx, cand_spots));
            }
            if rest.len() >= best.len() {
                let mut nb: Vec<usize> = vec![i];
                let mut rest = rest;
                nb.append(&mut rest);
                assert(ints(nb@) =~= cand_idx);
                best = nb;
                proof {
                    best_spots = cand_spots;
                }
            }
            proof {
                assert forall|idx: Seq<int>, spots: Seq<BuildingPosition>|
                    free_trail(size, roads@, blocked@, u0, idx, spots) && spots[0] == at && idx.len()
                        > 0 && idx[0] == i implies idx.len() <= best@.len() by {
                    let tail = idx.drop_first();
                    let stail = spots.drop_first();
                    assert(joins(size, roads@[idx[0]], spots[0], spots[1]));
                    assert(stail[0] == other);
                    assert forall|a: int, b: int| 0 <= a < b < tail.len() implies #[trigger] tail[a]
                        != #[trigger] tail[b] by {
                        assert(idx[a + 1] != idx[b + 1]);
                    }
                    assert forall|a: int| 0 <= a < tail.len() implies joins(
                        size,
                        roads@[#[trigger] tail[a]],
                        stail[a],
                        stail[a + 1],
                    ) by {
                        assert(tail[a] == idx[a + 1]);
                    }
                    assert forall|a: int| 0 < a < tail.len() implies !blocked@.contains(
                        #[trigger] stail[a],
                    ) by {
                        assert(stail[a] == spots[a + 1]);
                    }
                    assert forall|a: int| 0 <= a < tail.len() implies !u1[#[trigger] tail[a]] && 0
                        <= tail[a] < roads@.len() by {
                        assert(tail[a] == idx[a + 1]);
                        assert(idx[0] != idx[a + 1]);
                    }
                    assert(free_trail(size, roads@, blocked@, u1, tail, stail));
                    if idx.len() > 1 {
                        assert(!blocked@.contains(spots[1]));
                        assert(!stop);
                        assert(tail.len() <= rest@.len());
                    }
                }
            }
        } else {
            proof {
                assert forall|idx: Seq<int>, spots: Seq<BuildingPosition>|
                    free_trail(size, roads@, blocked@, u0, idx, spots) && spots[0] == at && idx.len()
                        > 0 && idx[0] == i implies false by {
                    assert(joins(size, roads@[idx[0]], spots[0], spots[1]));
                    assert(!u0[idx[0]]);
                }
            }
        }
        i = i + 1;
    }
    let g: Ghost<Seq<BuildingPosition>> = Ghost(best_spots);
    (best, g)
}

/// The longest path through a player's roads, once it has five roads or
/// more: roads joined end to end, none used twice, that no building in
/// `blocked` (the other players' towns and cities) cuts. No path is longer.
/// `None` when no path has five roads.
pub fn longest_road(size: u8, roads: &Vec<RoadPosition>, blocked: &Vec<BuildingPosition>) -> (res:
    Option<Vec<RoadPosition>>)
    requires
        roads_ok(roads@, size),
    ensures
        found_len(res) == longest_len(size, roads@, blocked@),
        res matches Some(p) ==> is_path(size, roads@, blocked@, p@) && p@.len() >= 5
            && is_longest_len(size, roads@, blocked@, p@.len()),
{
    let n = roads.len();
    let mut ends: Vec<Vec<BuildingPosition>> = Vec::new();
    let mut used: Vec<bool> = Vec::new();
    let mut i: usize = 0;
    while i < n
        invariant
            i <= n,
            n == roads@.len(),
            roads_ok(roads@, size),
            ends@.len() == i,
            used@ =~= Seq::new(i as nat, |k: int| false),
            forall|k: int| 0 <= k < i ==> (#[trigger] ends@[k])@ == spots_on_road(size, roads@[k]),
        decreases n - i,
    {
        assert(roads@[i as int].neighbors_ok(Some(size)));
        ends.push(buildings_on_road(size, roads[i]));
        used.push(false);
        i = i + 1;
    }
    let ghost u0 = used@;
    assert forall|idx: Seq<int>, spots: Seq<BuildingPosition>|
        is_trail(size, roads@, blocked@, idx, spots) implies #[trigger] free_trail(
        size,
        roads@,
        blocked@,
        u0,
        idx,
        spots,
    ) by {
        assert forall|a: int| 0 <= a < idx.len() implies !u0[#[trigger] idx[a]] by {
            assert(0 <= idx[a] < roads@.len());
        }
    }
    let mut best: Vec<usize> = Vec::new();
    let ghost mut best_spots: Seq<BuildingPosition> = Seq::empty();
    let mut r: usize = 0;
    while r < n
        invariant
            r <= n,
            n == roads@.len(),
            ends@.len() == n,
            used@ == u0,
            u0.len() == n,
            forall|k: int| 0 <= k < n ==> (#[trigger] ends@[k])@ == spots_on_road(size, roads@[k]),
            forall|idx: Seq<int>, spots: Seq<BuildingPosition>|
                is_trail(size, roads@, blocked@, idx, spots) ==> #[trigger] free_trail(
                    size,
                    roads@,
                    blocked@,
                    u0,
                    idx,
                    spots,
                ),
            best@.len() > 0 ==> free_trail(size, roads@, blocked@, u0, ints(best@), best_spots),
            forall|idx: Seq<int>, spots: Seq<BuildingPosition>|
                #![trigger free_trail(size, roads@, blocked@, u0, idx, spots)]
                free_trail(size, roads@, blocked@, u0, idx, spots) && idx.len() > 0 && idx[0] < r
                    ==> idx.len() <= best@.len(),
        decreases n - r,
    {
        let mut e: usize = 0;
        while e < ends[r].len()
            invariant
                r < n,
                n == roads@.len(),
                ends@.len() == n,
                used@ == u0,
                u0.len() == n,
                forall|k: int| 0 <= k < n ==> (#[trigger] ends@[k])@ == spots_on_road(size, roads@[k]),
                e <= ends@[r as int]@.len(),
                best@.len() > 0 ==> free_trail(size, roads@, blocked@, u0, ints(best@), best_spots),
                forall|idx: Seq<int>, spots: Seq<BuildingPosition>|
                    #![trigger free_trail(size, roads@, blocked@, u0, idx, spots)]
                    free_trail(size, roads@, blocked@, u0, idx, spots) && idx.len() > 0 && (idx[0]
                        < r || (idx[0] == r && exists|k: int|
                        0 <= k < e && ends@[r as int]@[k] == spots[0])) ==> idx.len() <= best@.len(),
            decreases ends@[r as int]@.len() - e,
        {
            let at = ends[r][e];
            let (t, ts) = best_from(size, roads, &ends, blocked, &mut used, at);
            if t.len() > best.len() {
                best = t;
                proof {
                    best_spots = ts@;
                }
            }
            proof {
                assert forall|idx: Seq<int>, spots: Seq<BuildingPosition>|
                    free_trail(size, roads@, blocked@, u0, idx, spots) && idx.len() > 0 && idx[0]
                        == r && spots[0] == at implies idx.len() <= best@.len() by {}
            }
            e = e + 1;
        }
        proof {
            assert forall|idx: Seq<int>, spots: Seq<BuildingPosition>|
                free_trail(size, roads@, blocked@, u0, idx, spots) && idx.len() > 0 && idx[0] == r
                    implies idx.len() <= best@.len() by {
                assert(joins(size, roads@[idx[0]], spots[0], spots[1]));
                let es = ends@[r as int]@;
                if es[0] == spots[0] {
                    assert(0 <= 0 < es.len() && es[0] == spots[0]);
                } else {
                    assert(0 <= 1 < es.len() && es[1] == spots[0]);
                }
            }
        }
        r = r + 1;
    }
    proof {
        assert forall|idx: Seq<int>, spots: Seq<BuildingPosition>|
            #![trigger is_trail(size, roads@, blocked@, idx, spots)]
            is_trail(size, roads@, blocked@, idx, spots) implies idx.len() <= best@.len() by {
            assert(free_trail(size, roads@, blocked@, u0, idx, spots));
            if idx.len() > 0 {
                assert(0 <= idx[0] < n);
            }
        }
    }
    if best.len() >= 5 {
        let mut path: Vec<RoadPosition> = Vec::new();
        let mut k: usize = 0;
        while k < best.len()
            invariant
                k <= best@.len(),
                free_trail(size, roads@, blocked@, u0, ints(best@), best_spots),
                path@ =~= ints(best@).take(k as int).map_values(|x: int| roads@[x]),
            decreases best@.len() - k,
        {
            assert(0 <= ints(best@)[k as int] < roads@.len());
            path.push(roads[best[k]]);
            assert(ints(best@).take(k + 1).map_values(|x: int| roads@[x]) =~= ints(best@).take(
                k as int,
            ).map_values(|x: int| roads@[x]).push(roads@[best@[k as int] as int]));
            k = k + 1;
        }
        proof {
            let bi = ints(best@);
            assert(bi.take(bi.len() as int) =~= bi);
            assert(is_trail(size, roads@, blocked@, bi, best_spots));
            assert(is_longest_len(size, roads@, blocked@, best@.len()));
            let m = choose|m: nat| is_longest_len(size, roads@, blocked@, m);
            assert(is_longest_len(size, roads@, blocked@, m));
            assert(m == best@.len());
        }
        Some(path)
    } else {
        proof {
            if exists|idx: Seq<int>, spots: Seq<BuildingPosition>|
                #![trigger is_trail(size, roads@, blocked@, idx, spots)]
                is_trail(size, roads@, blocked@, idx, spots) && idx.len() >= 5 {
                let (idx, spots) = choose|idx: Seq<int>, spots: Seq<BuildingPosition>|
                    is_trail(size, roads@, blocked@, idx, spots) && idx.len() >= 5;
                assert(idx.len() <= best@.len());
            }
        }
        None
    }
}

/// What a newly found path of `found` roads for player `player` does to the
/// bonus and the points, `players` being the number of players: when it
/// beats the length to beat, the bonus and its two points move to the
/// player.
pub open spec fn road_step(
    current: LongestRoad,
    player: usize,
    found: Option<nat>,
    players: nat,
    points: Seq<VictoryPoints>,
) -> (LongestRoad, Seq<VictoryPoints>) {
    match found {
        Some(len) => {
            let new_len = len as u8;
            if player < players && player < points.len() && new_len > current.1 {
                let gained = bump(points, player as int, 2);
                let points2 = match current.0 {
                    Some(h) => bump(gained, h as int, -2),
                    None => gained,
                };
                (LongestRoad(Some(player), new_len), points2)
            } else {
                (current, points)
            }
        },
        None => (current, points),
    }
}

/// Whether the step keeps every point count in a `u8`.
pub open spec fn road_step_ok(
    current: LongestRoad,
    player: usize,
    found: Option<nat>,
    points: Seq<VictoryPoints>,
) -> bool {
    match found {
        Some(len) => (player < points.len() && (len as u8) > current.1) ==> {
            &&& points[player as int].actual + 2 <= 255
            &&& match current.0 {
                Some(h) => (h != player && h < points.len()) ==> points[h as int].actual >= 2,
                None => true,
            }
        },
        None => true,
    }
}

/// The length of a found path, if any.
pub open spec fn found_len(found: Option<Vec<RoadPosition>>) -> Option<nat> {
    match found {
        Some(v) => Some(v@.len()),
        None => None,
    }
}

/// Takes a path found for player `player` (who has `paths[player]` and
/// `points[player]`): it becomes the player's path and, if longer than the
/// length to beat, the player takes the bonus from its holder.
pub fn take_found_road(
    current: &mut LongestRoad,
    player: usize,
    found: Option<Vec<RoadPosition>>,
    paths: &mut Vec<PlayerLongestRoad>,
    points: &mut Vec<VictoryPoints>,
)
    requires
        road_step_ok(*old(current), player, found_len(found), old(points)@),
    ensures
        final(paths)@.len() == old(paths)@.len(),
        found is None ==> final(paths)@ == old(paths)@,
        (*final(current), final(points)@) == road_step(
            *old(current),
            player,
            found_len(found),
            old(paths)@.len(),
            old(points)@,
        ),
        forall|i: int|
            0 <= i < old(paths)@.len() ==> #[trigger] final(paths)@[i].0@ == (if found is Some
                && i == player && player < old(points)@.len() {
                found->0@
            } else {
                old(paths)@[i].0@
            }),
{
    match found {
        Some(new) => {
            if player < paths.len() && player < points.len() {
                let new_len = new.len() as u8;
                paths.set(player, PlayerLongestRoad(new));
                if new_len > current.1 {
                    let vp = points[player];
                    points.set(player, VictoryPoints { actual: vp.actual + 2, ..vp });
                    match current.0 {
                        Some(h) => {
                            if h < points.len() {
                                let held = points[h];
                                points.set(h, VictoryPoints { actual: held.actual - 2, ..held });
                            }
                        },
                        None => {},
                    }
                    *current = LongestRoad(Some(player), new_len);
                }
            }
        },
        None => {},
    }
}

/// Whether the points leave room for the bonus to move: every count can
/// take two more, and the holder, if any, has the bonus's two.
pub open spec fn bonus_room(current: LongestRoad, points: Seq<VictoryPoints>) -> bool {
    &&& forall|i: int| 0 <= i < points.len() ==> #[trigger] points[i].actual <= 253
    &&& current.0 matches Some(h) ==> (h < points.len() ==> points[h as int].actual >= 2)
}

/// Recounts the current player's longest path after a road was placed
/// (see `longest_road`); nothing is done while roads are still changing.
/// A path of five roads or more becomes the player's path, and takes the
/// bonus when it is longer than the length to beat (see `road_step`).
pub fn longest_road_road_added(
    current: &mut LongestRoad,
    player: usize,
    roads_changed: bool,
    size: u8,
    roads: &Vec<RoadPosition>,
    blocked: &Vec<BuildingPosition>,
    paths: &mut Vec<PlayerLongestRoad>,
    points: &mut Vec<VictoryPoints>,
)
    requires
        roads_ok(roads@, size),
        bonus_room(*old(current), old(points)@),
    ensures
        roads_changed ==> *final(current) == *old(current) && final(paths)@ == old(paths)@
            && final(points)@ == old(points)@,
        !roads_changed ==> (*final(current), final(points)@) == road_step(
            *old(current),
            player,
            longest_len(size, roads@, blocked@),
            old(paths)@.len(),
            old(points)@,
        ),
        final(paths)@.len() == old(paths)@.len(),
        forall|i: int|
            0 <= i < old(paths)@.len() && (roads_changed || i != player || player >= old(points)@.len()
                || longest_len(size, roads@, blocked@) is None) ==> #[trigger] final(paths)@[i].0@
                == old(paths)@[i].0@,
        !roads_changed && player < old(paths)@.len() && player < old(points)@.len() && longest_len(
            size,
            roads@,
            blocked@,
        ) is Some ==> is_path(size, roads@, blocked@, final(paths)@[player as int].0@) && Some(
            final(paths)@[player as int].0@.len(),
        ) == longest_len(size, roads@, blocked@),
{
    if roads_changed {
        return ;
    }
    let found = longest_road(size, roads, blocked);
    take_found_road(current, player, found, paths, points);
}

/// Whether two roads of `path` meet at a spot that holds a building in
/// `blocked`: the path is cut there.
pub open spec fn path_cut(size: u8, path: Seq<RoadPosition>, blocked: Seq<BuildingPosition>) -> bool {
    exists|i: int, j: int|
        #![trigger path[i], path[j]]
        0 <= i < j < path.len() && (path[i].intersect_spec(path[j], Some(size)) matches Some(b)
            && blocked.contains(b))
}

fn is_cut(size: u8, path: &Vec<RoadPosition>, blocked: &Vec<BuildingPosition>) -> (res: bool)
    requires
        size != 128,
    ensures
        res == path_cut(size, path@, blocked@),
{
    let mut i: usize = 0;
    while i < path.len()
        invariant
            i <= path@.len(),
            size != 128,
            forall|a: int, b: int|
                #![trigger path@[a], path@[b]]
                0 <= a < i && a < b < path@.len() ==> !(path@[a].intersect_spec(path@[b], Some(size)) matches Some(x)
                    && blocked@.contains(x)),
        decreases path@.len() - i,
    {
        let mut j: usize = i + 1;
        while j < path.len()
            invariant
                i < path@.len(),
                i + 1 <= j <= path@.len(),
                size != 128,
                forall|a: int, b: int|
                    #![trigger path@[a], path@[b]]
                    0 <= a < i && a < b < path@.len() ==> !(path@[a].intersect_spec(path@[b], Some(size)) matches Some(x)
                        && blocked@.contains(x)),
                forall|b: int|
                    i < b < j ==> !(path@[i as int].intersect_spec(#[trigger] path@[b], Some(size)) matches Some(x)
                        && blocked@.contains(x)),
            decreases path@.len() - j,
        {
            match path[i].intersect(&path[j], Some(size)) {
                Some(b) => {
                    if spot_in(blocked, b) {
                        assert(path@[i as int].intersect_spec(path@[j as int], Some(size)) == Some(b));
                        assert(path_cut(size, path@, blocked@));
                        return true;
                    }
                },
                None => {},
            }
            j = j + 1;
        }
        i = i + 1;
    }
    false
}

/// Whether `c` is the first player, in player order, whose path is cut by
/// the buildings in `blocked[c]`.
pub open spec fn is_first_cut(
    size: u8,
    paths: Seq<PlayerLongestRoad>,
    blocked: Seq<Vec<BuildingPosition>>,
    c: int,
) -> bool {
    &&& 0 <= c < paths.len()
    &&& path_cut(size, paths[c].0@, blocked[c]@)
    &&& forall|j: int| 0 <= j < c ==> !path_cut(size, (#[trigger] paths[j]).0@, blocked[j]@)
}

/// Whether no player's path is cut.
pub open spec fn none_cut(
    size: u8,
    paths: Seq<PlayerLongestRoad>,
    blocked: Seq<Vec<BuildingPosition>>,
) -> bool {
    forall|j: int| 0 <= j < paths.len() ==> !path_cut(size, (#[trigger] paths[j]).0@, blocked[j]@)
}

/// After a town or city was placed, once someone holds the bonus and no
/// building is still changing: the first player whose path a building of
/// another player now cuts has the longest path recounted over `roads[c]`
/// (kept when the recount finds no path of five roads), and when that
/// player held the bonus it moves as `reassign_longest_road` says.
/// `blocked[i]` are the buildings of the players other than `i`.
pub fn longest_road_town_added(
    current: &mut LongestRoad,
    buildings_changed: bool,
    size: u8,
    roads: &Vec<Vec<RoadPosition>>,
    blocked: &Vec<Vec<BuildingPosition>>,
    paths: &mut Vec<PlayerLongestRoad>,
    points: &mut Vec<VictoryPoints>,
)
    requires
        size != 128,
        roads@.len() == old(paths)@.len(),
        blocked@.len() == old(paths)@.len(),
        old(points)@.len() == old(paths)@.len(),
        forall|i: int| 0 <= i < roads@.len() ==> roads_ok((#[trigger] roads@[i])@, size),
        bonus_room(*old(current), old(points)@),
        old(current).0 matches Some(h) ==> h < old(points)@.len(),
    ensures
        final(paths)@.len() == old(paths)@.len(),
        old(current).0 is None || buildings_changed || none_cut(size, old(paths)@, blocked@) ==> {
            &&& *final(current) == *old(current)
            &&& final(paths)@ == old(paths)@
            &&& final(points)@ == old(points)@
        },
        old(current).0 is Some && !buildings_changed && !none_cut(size, old(paths)@, blocked@) ==> {
            let c = choose|c: int| is_first_cut(size, old(paths)@, blocked@, c);
            let ln = longest_len(size, roads@[c]@, blocked@[c]@);
            &&& is_first_cut(size, old(paths)@, blocked@, c)
            &&& forall|i: int|
                0 <= i < old(paths)@.len() && (i != c || ln is None) ==> #[trigger] final(paths)@[i].0@
                    == old(paths)@[i].0@
            &&& ln is Some ==> is_path(size, roads@[c]@, blocked@[c]@, final(paths)@[c].0@) && Some(
                final(paths)@[c].0@.len(),
            ) == ln
            &&& old(current).0 == Some(c as usize) ==> (*final(current), final(points)@) == reassign_spec(
                c,
                path_lengths(final(paths)@),
                old(points)@,
            )
            &&& old(current).0 != Some(c as usize) ==> *final(current) == *old(current) && final(points)@
                == old(points)@
        },
{
    if current.0.is_none() || buildings_changed {
        return ;
    }
    let mut c: usize = 0;
    while c < paths.len()
        invariant
            c <= paths@.len(),
            paths@ == old(paths)@,
            blocked@.len() == paths@.len(),
            size != 128,
            forall|j: int| 0 <= j < c ==> !path_cut(size, (#[trigger] paths@[j]).0@, blocked@[j]@),
        ensures
            c <= paths@.len(),
            paths@ == old(paths)@,
            forall|j: int| 0 <= j < c ==> !path_cut(size, (#[trigger] paths@[j]).0@, blocked@[j]@),
            c < paths@.len() ==> path_cut(size, paths@[c as int].0@, blocked@[c as int]@),
        decreases paths@.len() - c,
    {
        if is_cut(size, &paths[c].0, &blocked[c]) {
            break;
        }
        c = c + 1;
    }
    if c == paths.len() {
        assert(none_cut(size, old(paths)@, blocked@));
        return ;
    }
    assert(is_first_cut(size, old(paths)@, blocked@, c as int));
    assert forall|d: int| is_first_cut(size, old(paths)@, blocked@, d) implies d == c as int by {
        if d < c as int {
            assert(!path_cut(size, old(paths)@[d].0@, blocked@[d]@));
        } else if d > c as int {
            assert(!path_cut(size, old(paths)@[c as int].0@, blocked@[c as int]@));
        }
    }
    let found = longest_road(size, &roads[c], &blocked[c]);
    match found {
        Some(new) => {
            paths.set(c, PlayerLongestRoad(new));
        },
        None => {},
    }
    if current.0 == Some(c) {
        assert(forall|i: int| 0 <= i < old(points)@.len() ==> #[trigger] points@[i].actual <= 253);
        reassign_longest_road(current, paths, points);
    }
}

/// Whether player `i` has a path at least as long as anyone's.
pub open spec fn at_max(lens: Seq<int>, i: int) -> bool {
    0 <= i < lens.len() && forall|j: int| 0 <= j < lens.len() ==> lens[j] <= lens[i]
}

/// Whether player `i` alone has the longest path.
pub open spec fn alone_at_max(lens: Seq<int>, i: int) -> bool {
    0 <= i < lens.len() && forall|j: int| 0 <= j < lens.len() && j != i ==> lens[j] < lens[i]
}

/// Whether player `i` is the last, in player order, of those with the
/// longest path.
pub open spec fn last_at_max(lens: Seq<int>, i: int) -> bool {
    at_max(lens, i) && forall|j: int| i < j < lens.len() ==> lens[j] < lens[i]
}

/// The bonus once its holder `h`'s path was cut and the paths recounted:
/// the holder keeps it when last among the players with the longest path;
/// otherwise a player alone with the longest path takes it; otherwise
/// nobody holds it and five roads are needed again.
pub open spec fn reassign_spec(
    h: int,
    lens: Seq<int>,
    points: Seq<VictoryPoints>,
) -> (LongestRoad, Seq<VictoryPoints>) {
    let lost = bump(points, h, -2);
    if last_at_max(lens, h) {
        (LongestRoad(Some(h as usize), lens[h] as u8), bump(lost, h, 2))
    } else if exists|w: int| alone_at_max(lens, w) {
        let w = choose|w: int| alone_at_max(lens, w);
        (LongestRoad(Some(w as usize), lens[w] as u8), bump(lost, w, 2))
    } else {
        (LongestRoad(None, 4), lost)
    }
}

/// Moves the bonus after its holder's path was cut (see `reassign_spec`).
/// The holder has the two points of the bonus, and every player's points
/// leave room for two more.
pub fn reassign_longest_road(
    current: &mut LongestRoad,
    paths: &Vec<PlayerLongestRoad>,
    points: &mut Vec<VictoryPoints>,
)
    requires
        old(current).0 matches Some(h) && h < paths@.len() && h < old(points)@.len(),
        paths@.len() == old(points)@.len(),
        old(points)@[old(current).0->0 as int].actual >= 2,
        forall|i: int| 0 <= i < old(points)@.len() ==> #[trigger] old(points)@[i].actual <= 253,
    ensures
        (*final(current), final(points)@) == reassign_spec(
            old(current).0->0 as int,
            path_lengths(paths@),
            old(points)@,
        ),
{
    let h = current.0.unwrap();
    let ghost lens = path_lengths(paths@);
    let vp = points[h];
    points.set(h, VictoryPoints { actual: vp.actual - 2, ..vp });
    let ghost lost = points@;
    // the longest length, how many players have it, and the last of them
    let mut max: usize = 0;
    let mut count: usize = 0;
    let mut last: usize = 0;
    let mut i: usize = 0;
    while i < paths.len()
        invariant
            0 <= i <= paths@.len(),
            lens == path_lengths(paths@),
            lens.len() == paths@.len(),
            count <= i,
            i > 0 ==> last < i,
            i > 0 ==> lens[last as int] == max,
            i > 0 ==> count >= 1,
            forall|j: int| 0 <= j < i ==> #[trigger] lens[j] <= max,
            i > 0 ==> forall|j: int| last < j < i ==> #[trigger] lens[j] < max,
            i > 0 ==> (count == 1 <==> forall|j: int|
                0 <= j < i && j != last ==> #[trigger] lens[j] < max),
            i == 0 ==> max == 0 && count == 0,
        decreases paths@.len() - i,
    {
        let len = paths[i].0.len();
        assert(lens[i as int] == len);
        if i == 0 || len > max {
            max = len;
            count = 1;
            last = i;
        } else if len == max {
            count = count + 1;
            last = i;
        }
        i = i + 1;
    }
    if paths.len() > 0 && last == h {
        assert(last_at_max(lens, h as int));
        let held = points[h];
        points.set(h, VictoryPoints { actual: held.actual + 2, ..held });
        *current = LongestRoad(Some(h), max as u8);
    } else {
        assert(!last_at_max(lens, h as int)) by {
            if last_at_max(lens, h as int) {
                assert(lens[h as int] == max);
                if (h as int) < (last as int) {
                    assert(lens[last as int] < lens[h as int]);
                } else if (h as int) > (last as int) {
                    assert(lens[h as int] < max);
                }
            }
        }
        if count == 1 {
            assert(alone_at_max(lens, last as int));
            assert forall|w: int| alone_at_max(lens, w) implies w == last as int by {
                if w != last as int {
                    assert(lens[last as int] < lens[w]);
                }
            }
            let won = points[last];
            points.set(last, VictoryPoints { actual: won.actual + 2, ..won });
            *current = LongestRoad(Some(last), max as u8);
        } else {
            assert forall|w: int| !alone_at_max(lens, w) by {
                if alone_at_max(lens, w) {
                    if paths@.len() > 0 {
                        assert(lens[last as int] <= lens[w]);
                        if w != last as int {
                            assert(lens[last as int] < lens[w]);
                        }
                    }
                }
            }
            *current = LongestRoad(None, 4);
        }
    }
}

} // verus!

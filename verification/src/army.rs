//! The largest-army bonus: two victory points for the player who first
//! plays more knights than anyone before.
use vstd::prelude::*;

use crate::game::VictoryPoints;

verus! {

/// The record to beat and who holds the bonus (a player index).
#[derive(Clone, Copy, Debug, PartialEq, Eq, Structural)]
pub struct LargetArmy(pub u8, pub Option<usize>);

impl LargetArmy {
    /// At the start of a game three knights are needed and nobody holds the bonus.
    pub fn new() -> (res: Self)
        ensures
            res == LargetArmy(2, None),
    {
        LargetArmy(2, None)
    }
}

/// `points` with player `i`'s actual points moved by `d`, if `i` is a player.
pub open spec fn bump(points: Seq<VictoryPoints>, i: int, d: int) -> Seq<VictoryPoints> {
    if 0 <= i < points.len() {
        points.update(
            i,
            VictoryPoints { actual: (points[i].actual + d) as u8, ..points[i] },
        )
    } else {
        points
    }
}

/// One player's new knight count, seen by the bonus: beating the record
/// moves the bonus (and its two points) to that player.
pub open spec fn army_step(
    state: (LargetArmy, Seq<VictoryPoints>),
    change: (usize, u8),
) -> (LargetArmy, Seq<VictoryPoints>) {
    let (current, points) = state;
    let (player, knights) = change;
    if knights > current.0 {
        let taken = match current.1 {
            Some(h) => bump(points, h as int, -2),
            None => points,
        };
        (LargetArmy(knights, Some(player)), bump(taken, player as int, 2))
    } else {
        state
    }
}

/// Whether a step keeps every point count in a `u8`.
pub open spec fn army_step_ok(state: (LargetArmy, Seq<VictoryPoints>), change: (usize, u8)) -> bool {
    let (current, points) = state;
    let (player, knights) = change;
    knights > current.0 ==> {
        let taken = match current.1 {
            Some(h) => bump(points, h as int, -2),
            None => points,
        };
        &&& match current.1 {
            Some(h) => h < points.len() ==> points[h as int].actual >= 2,
            None => true,
        }
        &&& (player < taken.len() ==> taken[player as int].actual + 2 <= 255)
    }
}

/// The state after all the changes, in order.
pub open spec fn army_fold(
    changes: Seq<(usize, u8)>,
    start: (LargetArmy, Seq<VictoryPoints>),
) -> (LargetArmy, Seq<VictoryPoints>)
    decreases changes.len(),
{
    if changes.len() == 0 {
        start
    } else {
        army_step(army_fold(changes.drop_last(), start), changes.last())
    }
}

/// Whether every step of the changes keeps the point counts in range.
pub open spec fn army_fold_ok(changes: Seq<(usize, u8)>, start: (LargetArmy, Seq<VictoryPoints>)) -> bool
    decreases changes.len(),
{
    if changes.len() == 0 {
        true
    } else {
        army_fold_ok(changes.drop_last(), start) && army_step_ok(
            army_fold(changes.drop_last(), start),
            changes.last(),
        )
    }
}

/// Sees the players whose knight counts changed, in order (player index,
/// knights): each one beating the record takes the bonus and its two points
/// from the holder.
pub fn update_larget_army(
    changed: &Vec<(usize, u8)>,
    points: &mut Vec<VictoryPoints>,
    current: &mut LargetArmy,
)
    requires
        army_fold_ok(changed@, (*old(current), old(points)@)),
    ensures
        (*final(current), final(points)@) == army_fold(changed@, (*old(current), old(points)@)),
{
    let ghost start = (*current, points@);
    let mut i: usize = 0;
    while i < changed.len()
        invariant
            0 <= i <= changed@.len(),
            army_fold_ok(changed@, start),
            (*current, points@) == army_fold(changed@.take(i as int), start),
        decreases changed@.len() - i,
    {
        proof {
            assert(changed@.take(i + 1).drop_last() =~= changed@.take(i as int));
            lemma_fold_ok_prefix(changed@, start, i + 1);
        }
        let (player, knights) = changed[i];
        if knights > current.0 {
            match current.1 {
                Some(h) => {
                    if h < points.len() {
                        let vp = points[h];
                        points.set(h, VictoryPoints { actual: vp.actual - 2, ..vp });
                    }
                },
                None => {},
            }
            *current = LargetArmy(knights, Some(player));
            if player < points.len() {
                let vp = points[player];
                points.set(player, VictoryPoints { actual: vp.actual + 2, ..vp });
            }
        }
        proof {
            assert(changed@.take(i + 1).last() == (player, knights));
        }
        i = i + 1;
    }
    assert(changed@.take(changed@.len() as int) =~= changed@);
}

proof fn lemma_fold_ok_prefix(changes: Seq<(usize, u8)>, start: (LargetArmy, Seq<VictoryPoints>), n: int)
    requires
        0 <= n <= changes.len(),
        army_fold_ok(changes, start),
    ensures
        army_fold_ok(changes.take(n), start),
    decreases changes.len(),
{
    if n == changes.len() {
        assert(changes.take(n) =~= changes);
    } else {
        lemma_fold_ok_prefix(changes.drop_last(), start, n);
        assert(changes.drop_last().take(n) =~= changes.take(n));
    }
}

} // verus!

//! Rolling the dice and what a roll leads to.
use vstd::prelude::*;

use crate::game::{GameState, Input};
use crate::outside::roll_die;
use crate::resources::Resources;

verus! {

/// Rolls two dice: their sum and each die.
pub fn roll_dice() -> (res: (u8, u8, u8))
    ensures
        1 <= res.1 <= 6,
        1 <= res.2 <= 6,
        res.0 == res.1 + res.2,
{
    let dice1 = roll_die();
    let dice2 = roll_die();
    (dice1 + dice2, dice1, dice2)
}

/// Whether some player holds more than seven cards.
pub open spec fn someone_over_seven(players: Seq<Resources>) -> bool {
    exists|k: int| 0 <= k < players.len() && #[trigger] players[k].total() > 7
}

/// Whether the hands can be counted up to the first one over seven.
pub open spec fn countable_until_over_seven(players: Seq<Resources>) -> bool {
    forall|k: int|
        0 <= k < players.len() && (forall|j: int| 0 <= j < k ==> #[trigger] players[j].total() <= 7)
            ==> #[trigger] players[k].total() <= 255
}

/// What a roll leads to: on a seven, players with more than seven cards
/// must first discard (an input to send) or else the robber is placed; any
/// other roll is sent and the turn goes on.
pub fn roll_outcome(roll: u8, d1: u8, d2: u8, players: &Vec<Resources>) -> (res: (
    Option<GameState>,
    Option<Input>,
))
    requires
        roll == 7 ==> countable_until_over_seven(players@),
    ensures
        roll == 7 && someone_over_seven(players@) ==> res.0 is None && res.1 == Some(
            Input::RobberDiscardInit,
        ),
        roll == 7 && !someone_over_seven(players@) ==> res.0 == Some(GameState::PlaceRobber)
            && res.1 is None,
        roll != 7 ==> res.0 == Some(GameState::Turn) && res.1 == Some(Input::Roll(roll, d1, d2)),
{
    if roll == 7 {
        let mut i: usize = 0;
        while i < players.len()
            invariant
                0 <= i <= players@.len(),
                roll == 7,
                countable_until_over_seven(players@),
                forall|j: int| 0 <= j < i ==> #[trigger] players@[j].total() <= 7,
            decreases players@.len() - i,
        {
            if players[i].count() > 7 {
                assert(players@[i as int].total() > 7);
                return (None, Some(Input::RobberDiscardInit));
            }
            i = i + 1;
        }
        assert(!someone_over_seven(players@));
        (Some(GameState::PlaceRobber), None)
    } else {
        (Some(GameState::Turn), Some(Input::Roll(roll, d1, d2)))
    }
}

/// A roll of two dice and what it leads to (see `roll_outcome`).
pub open spec fn rolled(
    players: Seq<Resources>,
    res: (Option<GameState>, Option<Input>, (u8, u8, u8)),
) -> bool {
    &&& 1 <= res.2.1 <= 6
    &&& 1 <= res.2.2 <= 6
    &&& res.2.0 == res.2.1 + res.2.2
    &&& res.2.0 == 7 && someone_over_seven(players) ==> res.0 is None && res.1 == Some(
        Input::RobberDiscardInit,
    )
    &&& res.2.0 == 7 && !someone_over_seven(players) ==> res.0 == Some(GameState::PlaceRobber)
        && res.1 is None
    &&& res.2.0 != 7 ==> res.0 == Some(GameState::Turn) && res.1 == Some(
        Input::Roll(res.2.0, res.2.1, res.2.2),
    )
}

/// Rolls the dice and decides what the roll leads to; also returns the dice.
pub fn full_roll_dice(players: &Vec<Resources>) -> (res: (Option<GameState>, Option<Input>, (u8, u8, u8)))
    requires
        countable_until_over_seven(players@),
    ensures
        rolled(players@, res),
{
    let (roll, d1, d2) = roll_dice();
    let (state, input) = roll_outcome(roll, d1, d2, players);
    (state, input, (roll, d1, d2))
}

} // verus!

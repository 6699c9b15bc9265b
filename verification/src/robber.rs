//! The robber: where it may go, whom it steals from, and discarding half a
//! hand on a seven.
use vstd::prelude::*;

use crate::board::Robber;
use crate::colors::{CatanColor, CatanColorRef};
use crate::game::{GameState, Input, Player, player_index, find_player};
use crate::outside::{unique_refs, unique_spec};
use crate::positions::{
    BuildingPosition, Position, generate_postions, generate_spec, lemma_filter_map_origin,
};
use crate::resources::{Resource, Resources, pick_resource};

verus! {

/// The cards picked so far to discard.
#[derive(Clone, Copy, Debug, PartialEq, Eq, Structural)]
pub struct RobberDiscard(pub Resources);

impl Default for RobberDiscard {
    fn default() -> (res: Self)
        ensures
            res == RobberDiscard(Resources::new_spec(0, 0, 0, 0, 0)),
    {
        RobberDiscard(Resources::new(0, 0, 0, 0, 0))
    }
}

/// The spinner for discarding cards of one kind, up to the number held.
#[derive(Clone, Copy, Debug, PartialEq, Eq, Structural)]
pub struct RobberResourceSpinner {
    pub resource: Resource,
    pub max: u8,
}

/// Whether one more card of the spinner's kind may be picked.
pub fn robber_can_increment(discard: &RobberDiscard, spinner: &RobberResourceSpinner) -> (res: bool)
    ensures
        res == (discard.0.amount(spinner.resource) < spinner.max),
{
    discard.0.get(spinner.resource) < spinner.max
}

/// Whether one card of the spinner's kind may be put back.
pub fn robber_can_decrement(discard: &RobberDiscard, spinner: &RobberResourceSpinner) -> (res: bool)
    ensures
        res == (discard.0.amount(spinner.resource) > 0),
{
    discard.0.get(spinner.resource) > 0
}

/// Picks one more card of the spinner's kind.
pub fn robber_increment(discard: &mut RobberDiscard, spinner: &RobberResourceSpinner)
    requires
        old(discard).0.amount(spinner.resource) < 255,
    ensures
        final(discard).0.amount(spinner.resource) == old(discard).0.amount(spinner.resource) + 1,
        forall|k: Resource|
            k != spinner.resource ==> #[trigger] final(discard).0.amount(k) == old(discard).0.amount(k),
{
    let v = discard.0.get_mut(spinner.resource);
    *v = *v + 1;
}

/// Puts one card of the spinner's kind back.
pub fn robber_decrement(discard: &mut RobberDiscard, spinner: &RobberResourceSpinner)
    requires
        old(discard).0.amount(spinner.resource) > 0,
    ensures
        final(discard).0.amount(spinner.resource) == old(discard).0.amount(spinner.resource) - 1,
        forall|k: Resource|
            k != spinner.resource ==> #[trigger] final(discard).0.amount(k) == old(discard).0.amount(k),
{
    let v = discard.0.get_mut(spinner.resource);
    *v = *v - 1;
}

/// On a seven, a player with more than seven cards must discard half of
/// them, rounded down: how many, if any.
pub fn discard_needed(resources: &Resources) -> (res: Option<u8>)
    requires
        resources.total() <= 255,
    ensures
        res == if resources.total() > 7 {
            Some((resources.total() / 2) as u8)
        } else {
            None::<u8>
        },
{
    let c = resources.count();
    if c > 7 {
        Some(c / 2)
    } else {
        None
    }
}

/// Submits the picked cards once exactly `needed` are picked: the input to
/// send, and the state to enter (`NotActive` when discarding out of turn).
/// The picks are cleared then.
pub fn submit_discard(discard: &mut RobberDiscard, needed: u8, state: GameState) -> (res: Option<
    (Input, Option<GameState>),
>)
    requires
        old(discard).0.total() <= 255,
    ensures
        old(discard).0.total() == needed ==> {
            &&& res == Some(
                (
                    Input::RobberDiscard(old(discard).0),
                    if state == GameState::RobberDiscardResourcesInActive {
                        Some(GameState::NotActive)
                    } else {
                        None::<GameState>
                    },
                ),
            )
            &&& final(discard).0 == Resources::new_spec(0, 0, 0, 0, 0)
        },
        old(discard).0.total() != needed ==> res is None && *final(discard) == *old(discard),
{
    if discard.0.count() == needed {
        let picked = discard.0;
        *discard = RobberDiscard::default();
        let next = if state == GameState::RobberDiscardResourcesInActive {
            Some(GameState::NotActive)
        } else {
            None
        };
        Some((Input::RobberDiscard(picked), next))
    } else {
        None
    }
}

/// Whether every player is down to at most seven cards.
pub fn done_discarding(players: &Vec<Resources>) -> (res: bool)
    requires
        forall|k: int| 0 <= k < players@.len() ==> #[trigger] players@[k].total() <= 255,
    ensures
        res == forall|k: int| 0 <= k < players@.len() ==> #[trigger] players@[k].total() <= 7,
{
    let mut i: usize = 0;
    while i < players.len()
        invariant
            0 <= i <= players@.len(),
            forall|k: int| 0 <= k < players@.len() ==> #[trigger] players@[k].total() <= 255,
            forall|k: int| 0 <= k < i ==> #[trigger] players@[k].total() <= 7,
        decreases players@.len() - i,
    {
        if players[i].count() > 7 {
            return false;
        }
        i = i + 1;
    }
    true
}

/// The hexagons the robber may move to: every hexagon of the board but the
/// one it stands on, in board order.
pub fn robber_spots(robber: &Robber) -> (res: Vec<Position>)
    ensures
        res@ == generate_spec(3).filter(|p: Position| p != robber.0),
{
    let all = generate_postions(3);
    let ghost pred = |p: Position| p != robber.0;
    let mut out: Vec<Position> = Vec::new();
    let mut i: usize = 0;
    while i < all.len()
        invariant
            0 <= i <= all@.len(),
            all@ == generate_spec(3),
            pred == (|p: Position| p != robber.0),
            out@ == all@.take(i as int).filter(pred),
        decreases all@.len() - i,
    {
        let p = all[i];
        if p != robber.0 {
            out.push(p);
        }
        proof {
            reveal_with_fuel(Seq::filter, 1);
            let tk = all@.take(i + 1);
            assert(tk.last() == p);
            assert(tk.drop_last() =~= all@.take(i as int));
            assert(tk.filter(pred) == if pred(p) {
                all@.take(i as int).filter(pred).push(p)
            } else {
                all@.take(i as int).filter(pred)
            });
        }
        i = i + 1;
    }
    assert(all@.take(all@.len() as int) =~= all@);
    out
}

/// A building: the entity of its owner, its colour and its spot.
pub type OwnedBuilding = (u64, CatanColor, BuildingPosition);

/// The player the building gives the robber to steal from, if any: a player
/// of another colour than `current` whose building touches `position` and
/// who holds some card.
pub open spec fn victim_of(b: OwnedBuilding, position: Position, current: CatanColor, players: Seq<Player>) -> Option<
    CatanColorRef,
> {
    if b.1 != current && b.2.hexes().contains(position) {
        match player_index(players, b.0) {
            Some(i) => if players[i].resources.total() > 0 {
                Some(CatanColorRef { color: b.1, entity: b.0, handle: players[i].handle })
            } else {
                None
            },
            None => None,
        }
    } else {
        None
    }
}

/// The players the robber at `position` can steal from, each once, in the
/// order of their first building.
pub open spec fn victims_spec(position: Position, current: CatanColor, buildings: Seq<OwnedBuilding>, players: Seq<Player>) -> Seq<
    CatanColorRef,
> {
    unique_spec(buildings.filter_map(|b: OwnedBuilding| victim_of(b, position, current, players)))
}

/// Whether every player the robber might look at has a countable hand.
pub open spec fn victims_ok(position: Position, current: CatanColor, buildings: Seq<OwnedBuilding>, players: Seq<Player>) -> bool {
    forall|k: int|
        0 <= k < buildings.len() && buildings[k].1 != current && buildings[k].2.hexes().contains(
            position,
        ) ==> match player_index(players, #[trigger] buildings[k].0) {
            Some(i) => players[i].resources.total() <= 255,
            None => true,
        }
}

/// The players the robber at `position` can steal from, each once.
pub fn choose_victims(
    position: &Position,
    current: CatanColor,
    buildings: &Vec<OwnedBuilding>,
    players: &Vec<Player>,
) -> (res: Vec<CatanColorRef>)
    requires
        victims_ok(*position, current, buildings@, players@),
    ensures
        res@ == victims_spec(*position, current, buildings@, players@),
{
    let ghost f = |b: OwnedBuilding| victim_of(b, *position, current, players@);
    let mut found: Vec<CatanColorRef> = Vec::new();
    let mut i: usize = 0;
    while i < buildings.len()
        invariant
            0 <= i <= buildings@.len(),
            victims_ok(*position, current, buildings@, players@),
            f == (|b: OwnedBuilding| victim_of(b, *position, current, players@)),
            found@ == buildings@.take(i as int).filter_map(f),
        decreases buildings@.len() - i,
    {
        let b = buildings[i];
        let mut v: Option<CatanColorRef> = None;
        if b.1 != current && b.2.contains(position) {
            match find_player(players, b.0) {
                Some(k) => {
                    proof {
                        assert(buildings@[i as int] == b);
                    }
                    if players[k].resources.count() > 0 {
                        v = Some(CatanColorRef { color: b.1, entity: b.0, handle: players[k].handle });
                    }
                },
                None => {},
            }
        }
        match v {
            Some(c) => found.push(c),
            None => {},
        }
        proof {
            let tk = buildings@.take(i + 1);
            assert(tk.last() == b);
            assert(tk.drop_last() =~= buildings@.take(i as int));
            assert(f(b) == v);
        }
        i = i + 1;
    }
    assert(buildings@.take(buildings@.len() as int) =~= buildings@);
    unique_refs(found)
}

/// The state after the robber has moved: back to rolling when the robber
/// came before the roll, else on with the turn.
pub fn knight_next_time(still_needs_to_roll: bool) -> (res: GameState)
    ensures
        res == if still_needs_to_roll {
            GameState::Roll
        } else {
            GameState::Turn
        },
{
    if still_needs_to_roll {
        GameState::Roll
    } else {
        GameState::Turn
    }
}

/// What moving the robber leads to.
#[derive(Clone, Debug)]
pub enum RobberOutcome {
    /// Send the input (if any) and enter the state.
    Done(Option<Input>, GameState),
    /// Let the player choose among these players; enter `RobberPickColor`.
    Choose(Vec<CatanColorRef>),
}

/// Whether the player with entity `e` holds a card of kind `r`.
pub open spec fn can_steal(players: Seq<Player>, e: u64, r: Resource) -> bool {
    match player_index(players, e) {
        Some(i) => players[i].resources.amount(r) > 0,
        None => false,
    }
}

/// Moves the robber to `position`: with one player to steal from, a random
/// card of theirs is taken; with none, the robber just moves; with several,
/// the player chooses.
pub fn choose_player_to_take_from(
    position: &Position,
    current: CatanColor,
    buildings: &Vec<OwnedBuilding>,
    players: &Vec<Player>,
    still_needs_to_roll: bool,
) -> (res: RobberOutcome)
    requires
        victims_ok(*position, current, buildings@, players@),
    ensures
        ({
            let victims = victims_spec(*position, current, buildings@, players@);
            let next = if still_needs_to_roll {
                GameState::Roll
            } else {
                GameState::Turn
            };
            if victims.len() == 1 {
                exists|r: Resource|
                    #[trigger] can_steal(players@, victims[0].entity, r) && res == RobberOutcome::Done(
                        Some(Input::Knight(victims[0].entity, r, *position)),
                        next,
                    )
            } else if victims.len() == 0 {
                res == RobberOutcome::Done(Some(Input::MoveKnight(*position)), next)
            } else {
                res matches RobberOutcome::Choose(c) && c@ == victims
            }
        }),
{
    let colors = choose_victims(position, current, buildings, players);
    let ghost victims = victims_spec(*position, current, buildings@, players@);
    if colors.len() == 1 {
        let other = colors[0];
        proof {
            lemma_victims_found(*position, current, buildings@, players@, 0);
        }
        match find_player(players, other.entity) {
            Some(k) => {
                let picked = pick_resource(&players[k].resources);
                match picked {
                    Some(r) => {
                        let state = knight_next_time(still_needs_to_roll);
                        proof {
                            assert(other == victims[0]);
                            assert(can_steal(players@, victims[0].entity, r));
                        }
                        RobberOutcome::Done(Some(Input::Knight(other.entity, r, *position)), state)
                    },
                    None => {
                        proof {
                            assert(false);
                        }
                        RobberOutcome::Done(None, knight_next_time(still_needs_to_roll))
                    },
                }
            },
            None => {
                proof {
                    assert(false);
                }
                RobberOutcome::Done(None, knight_next_time(still_needs_to_roll))
            },
        }
    } else if colors.len() == 0 {
        RobberOutcome::Done(Some(Input::MoveKnight(*position)), knight_next_time(still_needs_to_roll))
    } else {
        RobberOutcome::Choose(colors)
    }
}

/// Every player the robber can steal from is a known player with a card.
proof fn lemma_victims_found(
    position: Position,
    current: CatanColor,
    buildings: Seq<OwnedBuilding>,
    players: Seq<Player>,
    k: int,
)
    requires
        0 <= k < victims_spec(position, current, buildings, players).len(),
    ensures
        ({
            let v = victims_spec(position, current, buildings, players)[k];
            match player_index(players, v.entity) {
                Some(i) => players[i].resources.total() > 0,
                None => false,
            }
        }),
{
    let f = |b: OwnedBuilding| victim_of(b, position, current, players);
    let all = buildings.filter_map(f);
    lemma_unique_subset(all);
    let v = victims_spec(position, current, buildings, players)[k];
    assert(unique_spec(all).contains(v));
    assert(all.contains(v));
    let j = choose|j: int| 0 <= j < all.len() && all[j] == v;
    lemma_filter_map_origin(buildings, f, j);
}

/// Everything kept by `unique_spec` comes from the sequence.
proof fn lemma_unique_subset(s: Seq<CatanColorRef>)
    ensures
        forall|x: CatanColorRef| #[trigger] unique_spec(s).contains(x) ==> s.contains(x),
    decreases s.len(),
{
    if s.len() > 0 {
        lemma_unique_subset(s.drop_last());
        assert forall|x: CatanColorRef| #[trigger] unique_spec(s).contains(x) implies s.contains(x) by {
            let u = unique_spec(s.drop_last());
            if u.contains(x) {
                assert(s.drop_last().contains(x));
                let j = choose|j: int| 0 <= j < s.drop_last().len() && s.drop_last()[j] == x;
                assert(s[j] == x);
            } else {
                assert(x == s.last());
                assert(s[s.len() - 1] == x);
            }
        }
    }
}

/// The player chose whom to rob: a random card of theirs is taken (when they
/// are known and hold one).
pub fn choose_player_to_take_from_interaction(
    chosen: CatanColorRef,
    new_robber_position: Position,
    players: &Vec<Player>,
    still_needs_to_roll: bool,
) -> (res: (Option<Input>, GameState))
    ensures
        res.1 == if still_needs_to_roll {
            GameState::Roll
        } else {
            GameState::Turn
        },
        match player_index(players@, chosen.entity) {
            Some(i) => if players@[i].resources.total() > 0 {
                exists|r: Resource|
                    #![trigger players@[i].resources.amount(r)]
                    players@[i].resources.amount(r) > 0 && res.0 == Some(
                        Input::Knight(chosen.entity, r, new_robber_position),
                    )
            } else {
                res.0 is None
            },
            None => res.0 is None,
        },
{
    let input = match find_player(players, chosen.entity) {
        Some(k) => match pick_resource(&players[k].resources) {
            Some(r) => Some(Input::Knight(chosen.entity, r, new_robber_position)),
            None => None,
        },
        None => None,
    };
    (input, knight_next_time(still_needs_to_roll))
}

/// The phase after the robber's spot was picked: what the outcome says, or
/// choosing the player to rob when there is a choice.
pub fn state_after_robber(outcome: &RobberOutcome) -> (res: GameState)
    ensures
        res == match outcome {
            RobberOutcome::Done(_, s) => *s,
            RobberOutcome::Choose(_) => GameState::RobberPickColor,
        },
{
    match outcome {
        RobberOutcome::Done(_, s) => *s,
        RobberOutcome::Choose(_) => GameState::RobberPickColor,
    }
}

/// The phase while players discard for the robber: once nobody holds more
/// than seven cards the robber is placed; any other phase stays.
pub fn state_after_discards(players: &Vec<Resources>, state: GameState) -> (res: GameState)
    requires
        forall|k: int| 0 <= k < players@.len() ==> #[trigger] players@[k].total() <= 255,
    ensures
        res == if state == GameState::RobberDiscardResources && forall|k: int|
            0 <= k < players@.len() ==> #[trigger] players@[k].total() <= 7 {
            GameState::PlaceRobber
        } else {
            state
        },
{
    if state == GameState::RobberDiscardResources && done_discarding(players) {
        GameState::PlaceRobber
    } else {
        state
    }
}

} // verus!

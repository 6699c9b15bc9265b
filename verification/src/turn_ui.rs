//! What the buttons of a turn decide: which placing or buying step a
//! press starts, and where the game goes once a piece is placed.
use vstd::prelude::*;

use crate::dice::{countable_until_over_seven, full_roll_dice, rolled};
use crate::game::{GameState, Input};
use crate::positions::BuildingPosition;
use crate::resources::{
    Resource, Resources, city_resources, development_card_resources, road_resources,
    town_resources,
};

verus! {

/// What the pointer does to a button.
#[derive(Clone, Copy, Debug, PartialEq, Eq, Structural)]
pub enum Interaction {
    Pressed,
    Hovered,
    /// Neither pressed nor hovered.
    Idle,
}

/// Which of the two free roads of a road-building card is being placed.
#[derive(Clone, Copy, Debug, PartialEq, Eq, Structural, Hash)]
pub enum RoadBuildingState {
    Road1,
    Road2,
}

/// Which of the two free cards of a year-of-plenty card is being chosen.
#[derive(Clone, Copy, Debug, PartialEq, Eq, Structural, Hash)]
pub enum YearOfPlentyState {
    Resource1,
    Resource2,
}

/// The state a press of a build button enters: `target`, when the button
/// is pressed and the player (if found) can pay `cost`.
pub open spec fn build_press(
    resources: Option<Resources>,
    cost: Resources,
    interaction: Interaction,
    target: GameState,
) -> Option<GameState> {
    match resources {
        Some(r) => if r.covers(cost) && interaction == Interaction::Pressed {
            Some(target)
        } else {
            None
        },
        None => None,
    }
}

/// The city button: a press starts placing a city when the current
/// player can pay for one.
pub fn turn_ui_city_interaction(resources: Option<Resources>, interaction: Interaction) -> (res:
    Option<GameState>)
    ensures
        res == build_press(
            resources,
            Resources::new_spec(0, 0, 0, 2, 3),
            interaction,
            GameState::PlaceCity,
        ),
{
    match resources {
        Some(r) => if r.contains(city_resources()) && interaction == Interaction::Pressed {
            Some(GameState::PlaceCity)
        } else {
            None
        },
        None => None,
    }
}

/// The town button: a press starts placing a town when the current
/// player can pay for one.
pub fn turn_ui_town_interaction(resources: Option<Resources>, interaction: Interaction) -> (res:
    Option<GameState>)
    ensures
        res == build_press(
            resources,
            Resources::new_spec(1, 1, 1, 1, 0),
            interaction,
            GameState::PlaceTown,
        ),
{
    match resources {
        Some(r) => if r.contains(town_resources()) && interaction == Interaction::Pressed {
            Some(GameState::PlaceTown)
        } else {
            None
        },
        None => None,
    }
}

/// The road button: a press starts placing a road when the current
/// player can pay for one.
pub fn turn_ui_road_interaction(resources: Option<Resources>, interaction: Interaction) -> (res:
    Option<GameState>)
    ensures
        res == build_press(
            resources,
            Resources::new_spec(1, 1, 0, 0, 0),
            interaction,
            GameState::PlaceRoad,
        ),
{
    match resources {
        Some(r) => if r.contains(road_resources()) && interaction == Interaction::Pressed {
            Some(GameState::PlaceRoad)
        } else {
            None
        },
        None => None,
    }
}

/// The dice button: a press rolls the dice and decides what the roll
/// leads to (see `full_roll_dice`).
pub fn turn_ui_roll_interaction(interaction: Interaction, players: &Vec<Resources>) -> (res: Option<
    (Option<GameState>, Option<Input>, (u8, u8, u8)),
>)
    requires
        countable_until_over_seven(players@),
    ensures
        res is Some <==> interaction == Interaction::Pressed,
        res matches Some(r) ==> rolled(players@, r),
{
    if interaction == Interaction::Pressed {
        Some(full_roll_dice(players))
    } else {
        None
    }
}

/// The end-of-turn button: a press asks to pass the turn on.
pub fn turn_ui_next_interaction(interaction: Interaction) -> (res: Option<Input>)
    ensures
        res == if interaction == Interaction::Pressed {
            Some(Input::NextColor)
        } else {
            None::<Input>
        },
{
    if interaction == Interaction::Pressed {
        Some(Input::NextColor)
    } else {
        None
    }
}

/// The development card button: a press asks for a card when the current
/// player can pay for one and cards are left.
pub fn buy_development_card_interaction(
    resources: Option<Resources>,
    cards_left: usize,
    interaction: Interaction,
) -> (res: Option<Input>)
    ensures
        res == match resources {
            Some(r) => if r.covers(Resources::new_spec(1, 1, 0, 0, 0)) && interaction
                == Interaction::Pressed && cards_left > 0 {
                Some(Input::TakeDevelopmentCard)
            } else {
                None::<Input>
            },
            None => None::<Input>,
        },
{
    match resources {
        Some(r) => {
            if !r.contains(development_card_resources()) {
                return None;
            }
            if interaction == Interaction::Pressed && cards_left > 0 {
                Some(Input::TakeDevelopmentCard)
            } else {
                None
            }
        },
        None => None,
    }
}

/// Where the game goes once a road is placed: a bought road ends the
/// placing, the first free road of a card leads to the second and the
/// second ends it, and a road of the setup rounds leads to a town. Returns
/// the new state and the new road-building step, each when it changes.
pub fn road_placed(state: GameState, step: Option<RoadBuildingState>) -> (res: (
    Option<GameState>,
    Option<RoadBuildingState>,
))
    ensures
        res == match state {
            GameState::PlaceRoad => (Some(GameState::Turn), None),
            GameState::RoadBuilding => match step {
                Some(RoadBuildingState::Road1) => (None, Some(RoadBuildingState::Road2)),
                Some(RoadBuildingState::Road2) => (Some(GameState::Turn), None),
                None => (None, None),
            },
            GameState::SetupRoad => (Some(GameState::SetupTown), None),
            _ => (None::<GameState>, None::<RoadBuildingState>),
        },
{
    match state {
        GameState::PlaceRoad => (Some(GameState::Turn), None),
        GameState::RoadBuilding => match step {
            Some(s) => if s == RoadBuildingState::Road1 {
                (None, Some(RoadBuildingState::Road2))
            } else {
                (Some(GameState::Turn), None)
            },
            None => (None, None),
        },
        GameState::SetupRoad => (Some(GameState::SetupTown), None),
        _ => (None, None),
    }
}

/// Where the game goes once a town is placed: a bought town ends the
/// placing, and a town of the setup rounds leads to its road.
pub fn town_placed(state: GameState) -> (res: Option<GameState>)
    ensures
        res == match state {
            GameState::PlaceTown => Some(GameState::Turn),
            GameState::SetupTown => Some(GameState::SetupRoad),
            _ => None::<GameState>,
        },
{
    match state {
        GameState::PlaceTown => Some(GameState::Turn),
        GameState::SetupTown => Some(GameState::SetupRoad),
        _ => None,
    }
}

/// The city button at `spot` pressed (it replaces the town `town`, for
/// `cost`): the input that builds it is sent, and the turn goes on.
pub fn city_placed(town: u64, spot: BuildingPosition, cost: Resources) -> (res: (Input, GameState))
    ensures
        res == (Input::AddCity(town, spot, cost), GameState::Turn),
{
    (Input::AddCity(town, spot, cost), GameState::Turn)
}

/// The kind `kind` chosen with a monopoly card: the input that takes every
/// card of the kind is sent, and the turn goes on.
pub fn monopoly_chosen(kind: Resource) -> (res: (Input, GameState))
    ensures
        res == (Input::Monopoly(kind), GameState::Turn),
{
    (Input::Monopoly(kind), GameState::Turn)
}

/// A card of kind `kind` chosen with a year-of-plenty card: the player
/// gets it; the first choice leads to the second and the second ends the
/// card. Returns the new state and the new choice step, each when it
/// changes.
pub fn year_of_plenty_interaction(
    resources: &mut Resources,
    kind: Resource,
    step: YearOfPlentyState,
) -> (res: (Option<GameState>, Option<YearOfPlentyState>))
    requires
        old(resources).amount(kind) < 255,
    ensures
        final(resources).amount(kind) == old(resources).amount(kind) + 1,
        forall|k: Resource| k != kind ==> #[trigger] final(resources).amount(k) == old(
            resources,
        ).amount(k),
        res == if step == YearOfPlentyState::Resource1 {
            (None, Some(YearOfPlentyState::Resource2))
        } else {
            (Some(GameState::Turn), None::<YearOfPlentyState>)
        },
{
    let v = resources.get_mut(kind);
    *v = *v + 1;
    if step == YearOfPlentyState::Resource1 {
        (None, Some(YearOfPlentyState::Resource2))
    } else {
        (Some(GameState::Turn), None)
    }
}

} // verus!

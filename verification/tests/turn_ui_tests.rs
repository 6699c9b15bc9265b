use katan::game::{GameState, Input};
use katan::positions::{BuildingPosition, Position};
use katan::resources::{Resource, Resources};
use katan::turn_ui::{
    buy_development_card_interaction, city_placed, monopoly_chosen, road_placed, town_placed, turn_ui_city_interaction,
    turn_ui_next_interaction, turn_ui_road_interaction, turn_ui_roll_interaction, turn_ui_town_interaction,
    year_of_plenty_interaction, Interaction, RoadBuildingState, YearOfPlentyState,
};

#[test]
fn build_buttons_need_the_price() {
    let rich = Some(Resources::new(5, 5, 5, 5, 5));
    let poor = Some(Resources::new(1, 0, 0, 0, 0));
    assert_eq!(turn_ui_city_interaction(rich, Interaction::Pressed), Some(GameState::PlaceCity));
    assert_eq!(turn_ui_town_interaction(rich, Interaction::Pressed), Some(GameState::PlaceTown));
    assert_eq!(turn_ui_road_interaction(rich, Interaction::Pressed), Some(GameState::PlaceRoad));
    assert_eq!(turn_ui_road_interaction(rich, Interaction::Hovered), None);
    assert_eq!(turn_ui_city_interaction(poor, Interaction::Pressed), None);
    assert_eq!(turn_ui_town_interaction(None, Interaction::Pressed), None);
    assert_eq!(turn_ui_city_interaction(Some(Resources::new(0, 0, 0, 2, 3)), Interaction::Pressed), Some(GameState::PlaceCity));
    assert_eq!(turn_ui_city_interaction(Some(Resources::new(0, 0, 0, 2, 2)), Interaction::Pressed), None);
}

#[test]
fn the_next_button() {
    assert_eq!(turn_ui_next_interaction(Interaction::Pressed), Some(Input::NextColor));
    assert_eq!(turn_ui_next_interaction(Interaction::Idle), None);
}

#[test]
fn buying_a_card_needs_the_price_and_a_card() {
    let hand = Some(Resources::new(1, 1, 0, 0, 0));
    assert_eq!(buy_development_card_interaction(hand, 3, Interaction::Pressed), Some(Input::TakeDevelopmentCard));
    assert_eq!(buy_development_card_interaction(hand, 0, Interaction::Pressed), None);
    assert_eq!(buy_development_card_interaction(Some(Resources::new(1, 0, 0, 0, 0)), 3, Interaction::Pressed), None);
    assert_eq!(buy_development_card_interaction(None, 3, Interaction::Pressed), None);
}

#[test]
fn after_a_road() {
    assert_eq!(road_placed(GameState::PlaceRoad, None), (Some(GameState::Turn), None));
    assert_eq!(
        road_placed(GameState::RoadBuilding, Some(RoadBuildingState::Road1)),
        (None, Some(RoadBuildingState::Road2))
    );
    assert_eq!(road_placed(GameState::RoadBuilding, Some(RoadBuildingState::Road2)), (Some(GameState::Turn), None));
    assert_eq!(road_placed(GameState::RoadBuilding, None), (None, None));
    assert_eq!(road_placed(GameState::SetupRoad, None), (Some(GameState::SetupTown), None));
    assert_eq!(road_placed(GameState::Roll, None), (None, None));
}

#[test]
fn after_a_town() {
    assert_eq!(town_placed(GameState::PlaceTown), Some(GameState::Turn));
    assert_eq!(town_placed(GameState::SetupTown), Some(GameState::SetupRoad));
    assert_eq!(town_placed(GameState::Turn), None);
}

#[test]
fn year_of_plenty_gives_two_cards() {
    let mut hand = Resources::new_player();
    assert_eq!(
        year_of_plenty_interaction(&mut hand, Resource::Ore, YearOfPlentyState::Resource1),
        (None, Some(YearOfPlentyState::Resource2))
    );
    assert_eq!(
        year_of_plenty_interaction(&mut hand, Resource::Ore, YearOfPlentyState::Resource2),
        (Some(GameState::Turn), None)
    );
    assert_eq!(hand, Resources::new(0, 0, 0, 0, 2));
}

#[test]
fn the_dice_button() {
    let hands = vec![Resources::new_player()];
    assert_eq!(turn_ui_roll_interaction(Interaction::Hovered, &hands), None);
    for _ in 0..50 {
        let (state, input, (sum, a, b)) = turn_ui_roll_interaction(Interaction::Pressed, &hands).unwrap();
        assert_eq!(sum, a + b);
        if sum == 7 {
            assert_eq!((state, input), (Some(GameState::PlaceRobber), None));
        } else {
            assert_eq!((state, input), (Some(GameState::Turn), Some(Input::Roll(sum, a, b))));
        }
    }
}

#[test]
fn a_city_or_a_monopoly_goes_back_to_the_turn() {
    let p = |q: i8, r: i8, s: i8| Position { q, r, s };
    let spot = BuildingPosition::new(p(0, 0, 0), p(1, -1, 0), p(1, 0, -1), None).unwrap();
    let cost = Resources::new(0, 0, 0, 2, 3);
    assert_eq!(city_placed(7, spot, cost), (Input::AddCity(7, spot, cost), GameState::Turn));
    assert_eq!(monopoly_chosen(Resource::Ore), (Input::Monopoly(Resource::Ore), GameState::Turn));
}

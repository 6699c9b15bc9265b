use katan::colors::CatanColor;
use katan::game::{input_applies, Effect, GameState, InputStatus};
use katan::positions::{BuildingPosition, Position, RoadPosition};
use katan::record::{buildings_of_others, record_effect, road_network, Built};

fn p(q: i8, r: i8, s: i8) -> Position {
    Position { q, r, s }
}

#[test]
fn the_record_follows_each_move() {
    let mut built = Built::new();
    let road = RoadPosition::new(p(0, 0, 0), p(1, -1, 0), Some(3)).unwrap();
    let spot = BuildingPosition::new(p(0, 0, 0), p(1, -1, 0), p(1, 0, -1), Some(3)).unwrap();
    let other = BuildingPosition::new(p(0, 0, 0), p(-1, 1, 0), p(-1, 0, 1), Some(3)).unwrap();
    assert_eq!(record_effect(&mut built, 0, &Effect::Road(road, CatanColor::Red)), None);
    assert_eq!(built.roads, vec![(CatanColor::Red, road)]);
    assert_eq!(record_effect(&mut built, 0, &Effect::Town(spot, CatanColor::Red, None)), Some(1));
    assert_eq!(record_effect(&mut built, 1, &Effect::Town(other, CatanColor::Blue, None)), Some(2));
    assert_eq!(built.towns, vec![(0, 1, spot), (1, 2, other)]);
    // a city replaces the town it is built on
    assert_eq!(record_effect(&mut built, 0, &Effect::City(1, spot, CatanColor::Red)), None);
    assert_eq!(built.towns, vec![(1, 2, other)]);
    assert_eq!(built.cities, vec![(0, spot)]);
    // moves that build nothing leave it as it is
    assert_eq!(record_effect(&mut built, 1, &Effect::State(GameState::Turn)), None);
    assert_eq!(built.next_id, 2);
    // the buildings that cut each player's roads are the others'
    assert_eq!(buildings_of_others(&built, 0), vec![other]);
    assert_eq!(buildings_of_others(&built, 1), vec![spot]);
    let (roads, blocked) = road_network(&built, &vec![CatanColor::Red, CatanColor::Blue]);
    assert_eq!(roads, vec![vec![road], vec![]]);
    assert_eq!(blocked, vec![vec![other], vec![spot]]);
}

#[test]
fn only_guessed_inputs_are_skipped() {
    assert!(input_applies(InputStatus::Confirmed));
    assert!(input_applies(InputStatus::Disconnected));
    assert!(!input_applies(InputStatus::Predicted));
}

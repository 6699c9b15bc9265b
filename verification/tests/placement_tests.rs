use katan::game::GameState;
use katan::placement::state_after_offer;
use katan::colors::CatanColor;
use katan::placement::{
    buildings_on_road, buildings_on_roads, check_no_touching_buildings, city_placements,
    get_possible_town_placements, get_setup_road_placements, place_normal_city, place_normal_road,
    place_normal_town, possible_normal_roads, roads_fit, roads_of,
};
use katan::positions::{BuildingPosition, Position, RoadPosition};
use katan::resources::Resources;

fn p(q: i8, r: i8, s: i8) -> Position {
    Position { q, r, s }
}

fn road(a: Position, b: Position) -> RoadPosition {
    RoadPosition::new(a, b, Some(3)).unwrap()
}

fn spot(a: Position, b: Position, c: Position) -> BuildingPosition {
    BuildingPosition::new(a, b, c, None).unwrap()
}

fn same_spots(mut a: Vec<BuildingPosition>, mut b: Vec<BuildingPosition>) -> bool {
    a.sort_by_key(|s| format!("{:?}", s));
    b.sort_by_key(|s| format!("{:?}", s));
    a == b
}

#[test]
fn a_road_has_a_spot_at_each_end() {
    let r = road(p(0, 0, 0), p(1, -1, 0));
    let ends = buildings_on_road(3, r);
    assert!(same_spots(
        ends,
        vec![spot(p(0, 0, 0), p(1, -1, 0), p(0, -1, 1)), spot(p(0, 0, 0), p(1, -1, 0), p(1, 0, -1))]
    ));
    let both = buildings_on_roads(&vec![r, road(p(0, 0, 0), p(1, 0, -1))], 3);
    assert_eq!(both.len(), 4);
}

#[test]
fn no_building_within_one_road() {
    let s = spot(p(0, 0, 0), p(1, -1, 0), p(1, 0, -1));
    assert!(check_no_touching_buildings(&s, &vec![], 3));
    assert!(!check_no_touching_buildings(&s, &vec![s], 3));
    let next = spot(p(0, 0, 0), p(1, -1, 0), p(0, -1, 1));
    assert!(!check_no_touching_buildings(&s, &vec![next], 3));
    let far = spot(p(-1, 0, 1), p(-1, 1, 0), p(-2, 1, 1));
    assert!(check_no_touching_buildings(&s, &vec![far], 3));
}

#[test]
fn towns_go_at_the_ends_of_own_roads() {
    let r = road(p(0, 0, 0), p(1, -1, 0));
    let roads = vec![(CatanColor::Red, r), (CatanColor::Blue, road(p(-1, 0, 1), p(-1, 1, 0)))];
    assert_eq!(roads_of(&roads, CatanColor::Red), vec![r]);
    let towns = get_possible_town_placements(CatanColor::Red, 3, &roads, &vec![]);
    assert!(same_spots(towns.clone(), buildings_on_road(3, r)));
    let blocked = spot(p(0, 0, 0), p(1, -1, 0), p(0, -1, 1));
    let towns = get_possible_town_placements(CatanColor::Red, 3, &roads, &vec![blocked]);
    assert!(towns.is_empty());
}

#[test]
fn cities_go_on_own_towns() {
    let a = spot(p(0, 0, 0), p(1, -1, 0), p(1, 0, -1));
    let b = spot(p(-1, 0, 1), p(-1, 1, 0), p(-2, 1, 1));
    let towns = vec![(CatanColor::Red, a), (CatanColor::Blue, b), (CatanColor::Red, b)];
    assert_eq!(city_placements(&towns, CatanColor::Red), vec![a, b]);
    assert_eq!(place_normal_city(Some(2), CatanColor::Blue, &towns), Some((vec![b], Resources::new(0, 0, 0, 2, 3))));
    assert_eq!(place_normal_city(Some(0), CatanColor::Blue, &towns), None);
    assert_eq!(place_normal_city(None, CatanColor::Blue, &towns), None);
}

#[test]
fn roads_extend_own_roads() {
    let r = road(p(0, 0, 0), p(1, -1, 0));
    let roads = vec![(CatanColor::Red, r)];
    let next = possible_normal_roads(CatanColor::Red, 3, &roads, &vec![]);
    assert_eq!(next.len(), 4);
    assert!(next.contains(&road(p(0, 0, 0), p(1, 0, -1))));
    assert!(next.contains(&road(p(0, 0, 0), p(0, -1, 1))));
    assert!(!next.contains(&r));
    // another colour's town at one end blocks going through it
    let other = vec![(CatanColor::Blue, spot(p(0, 0, 0), p(1, -1, 0), p(1, 0, -1)))];
    let next = possible_normal_roads(CatanColor::Red, 3, &roads, &other);
    assert_eq!(next.len(), 2);
    assert!(possible_normal_roads(CatanColor::Blue, 3, &roads, &vec![]).is_empty());
}

#[test]
fn placing_needs_pieces_left() {
    let r = road(p(0, 0, 0), p(1, -1, 0));
    let roads = vec![(CatanColor::Red, r)];
    let (next, cost) = place_normal_road(1, Some(3), CatanColor::Red, 3, &roads, &vec![]).unwrap();
    assert_eq!(next.len(), 4);
    assert_eq!(cost, Resources::new(1, 1, 0, 0, 0));
    let (_, free) = place_normal_road(0, Some(3), CatanColor::Red, 3, &roads, &vec![]).unwrap();
    assert_eq!(free, Resources::new_player());
    assert_eq!(place_normal_road(1, Some(0), CatanColor::Red, 3, &roads, &vec![]), None);
    let (towns, cost) = place_normal_town(Some(1), CatanColor::Red, 3, &roads, &vec![]).unwrap();
    assert_eq!(towns.len(), 2);
    assert_eq!(cost, Resources::new(1, 1, 1, 1, 0));
    assert_eq!(place_normal_town(None, CatanColor::Red, 3, &roads, &vec![]), None);
}

#[test]
fn setup_roads_cover_the_board() {
    let all = get_setup_road_placements(3, &vec![], &vec![]);
    assert_eq!(all.len(), 72);
    let taken = road(p(0, 0, 0), p(1, -1, 0));
    let rest = get_setup_road_placements(3, &vec![taken], &vec![]);
    assert_eq!(rest.len(), 71);
    assert!(!rest.contains(&taken));
}

#[test]
fn roads_near_the_centre_fit() {
    let roads = vec![(CatanColor::Red, road(p(0, 0, 0), p(1, -1, 0)))];
    assert!(roads_fit(&roads, 3));
    assert!(!roads_fit(&roads, 128));
    let far = RoadPosition::new(p(50, -50, 0), p(51, -51, 0), None).unwrap();
    assert!(!roads_fit(&vec![(CatanColor::Blue, far)], 3));
    assert!(roads_fit(&vec![], 3));
}

#[test]
fn no_spot_to_offer_goes_back_to_the_turn() {
    let none: Option<(Vec<u8>, Resources)> = Some((vec![], Resources::new_player()));
    assert_eq!(state_after_offer(&none, GameState::PlaceRoad), GameState::Turn);
    let some: Option<(Vec<u8>, Resources)> = Some((vec![1], Resources::new_player()));
    assert_eq!(state_after_offer(&some, GameState::PlaceRoad), GameState::PlaceRoad);
    let no_pieces: Option<(Vec<u8>, Resources)> = None;
    assert_eq!(state_after_offer(&no_pieces, GameState::PlaceTown), GameState::PlaceTown);
}

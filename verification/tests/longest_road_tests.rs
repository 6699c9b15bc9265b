use katan::game::VictoryPoints;
use katan::longest_road::{
    longest_road, longest_road_road_added, longest_road_town_added, reassign_longest_road,
    take_found_road, LongestRoad, PlayerLongestRoad,
};
use katan::positions::{Position, RoadPosition};

fn p(q: i8, r: i8, s: i8) -> Position {
    Position { q, r, s }
}

fn vp(actual: u8) -> VictoryPoints {
    VictoryPoints { actual, from_development_cards: 0 }
}

fn path(n: usize) -> Vec<RoadPosition> {
    let r = RoadPosition::new(p(0, 0, 0), p(1, -1, 0), Some(3)).unwrap();
    vec![r; n]
}

/// The six roads round the centre hexagon, one after the other.
fn ring_roads() -> Vec<RoadPosition> {
    let around = [p(1, 0, -1), p(1, -1, 0), p(0, -1, 1), p(-1, 0, 1), p(-1, 1, 0), p(0, 1, -1)];
    around.iter().map(|&x| RoadPosition::new(p(0, 0, 0), x, Some(3)).unwrap()).collect()
}

#[test]
fn the_edges_of_a_hexagon_join_into_one_path() {
    let roads = ring_roads();
    let found = longest_road(3, &roads, &vec![]).expect("the six roads round a hexagon join up");
    assert_eq!(found.len(), 6);
}

#[test]
fn four_roads_are_too_few() {
    let roads: Vec<RoadPosition> = ring_roads().into_iter().take(4).collect();
    assert!(longest_road(3, &roads, &vec![]).is_none());
    assert!(longest_road(3, &vec![], &vec![]).is_none());
}

#[test]
fn a_building_of_another_player_cuts_the_path() {
    let roads: Vec<RoadPosition> = ring_roads();
    let five: Vec<RoadPosition> = roads.iter().copied().take(5).collect();
    assert_eq!(longest_road(3, &five, &vec![]).map(|p| p.len()), Some(5));
    // the spot where the second and third roads meet
    let cut = roads[1].intersect(&roads[2], Some(3)).unwrap();
    assert!(longest_road(3, &five, &vec![cut]).is_none());
    // round the whole hexagon one blocked corner can be an end of the
    // path, which still takes all six roads
    assert_eq!(longest_road(3, &roads, &vec![cut]).map(|p| p.len()), Some(6));
}

#[test]
fn a_long_path_takes_the_bonus() {
    let mut current = LongestRoad::new();
    assert_eq!(current, LongestRoad(None, 4));
    let mut paths = vec![PlayerLongestRoad(vec![]), PlayerLongestRoad(vec![])];
    let mut points = vec![vp(2), vp(3)];
    let roads = ring_roads();
    longest_road_road_added(&mut current, 1, false, 3, &roads, &vec![], &mut paths, &mut points);
    assert_eq!(current, LongestRoad(Some(1), 6));
    assert_eq!(paths[1].0.len(), 6);
    assert_eq!(points, vec![vp(2), vp(5)]);
    // while roads are still changing nothing happens
    longest_road_road_added(&mut current, 0, true, 3, &roads, &vec![], &mut paths, &mut points);
    assert_eq!(current, LongestRoad(Some(1), 6));
}

#[test]
fn a_path_of_five_takes_the_bonus() {
    let mut current = LongestRoad::new();
    let mut paths = vec![PlayerLongestRoad(vec![]), PlayerLongestRoad(vec![])];
    let mut points = vec![vp(2), vp(3)];
    take_found_road(&mut current, 1, Some(path(4)), &mut paths, &mut points);
    assert_eq!(current, LongestRoad(None, 4));
    assert_eq!(paths[1].0.len(), 4);
    assert_eq!(points, vec![vp(2), vp(3)]);
    take_found_road(&mut current, 1, Some(path(5)), &mut paths, &mut points);
    assert_eq!(current, LongestRoad(Some(1), 5));
    assert_eq!(points, vec![vp(2), vp(5)]);
    // beating it moves the bonus and its points
    take_found_road(&mut current, 0, Some(path(6)), &mut paths, &mut points);
    assert_eq!(current, LongestRoad(Some(0), 6));
    assert_eq!(points, vec![vp(4), vp(3)]);
    let total: u32 = points.iter().map(|v| v.actual as u32).sum();
    assert_eq!(total, 7);
    take_found_road(&mut current, 0, None, &mut paths, &mut points);
    assert_eq!(current, LongestRoad(Some(0), 6));
}

#[test]
fn a_town_that_cuts_the_holders_path_moves_the_bonus() {
    let ring = ring_roads();
    let five: Vec<RoadPosition> = ring.iter().copied().take(5).collect();
    let cut = ring[1].intersect(&ring[2], Some(3)).unwrap();
    let mut current = LongestRoad(Some(0), 5);
    let mut paths = vec![PlayerLongestRoad(five.clone()), PlayerLongestRoad(vec![])];
    let mut points = vec![vp(4), vp(3)];
    // nothing while nobody holds the bonus, or buildings still change
    let mut nobody = LongestRoad::new();
    longest_road_town_added(&mut nobody, false, 3, &vec![five.clone(), vec![]], &vec![vec![cut], vec![]], &mut paths, &mut points);
    assert_eq!(nobody, LongestRoad(None, 4));
    longest_road_town_added(&mut current, true, 3, &vec![five.clone(), vec![]], &vec![vec![cut], vec![]], &mut paths, &mut points);
    assert_eq!(current, LongestRoad(Some(0), 5));
    // the other player's town cuts the holder's path: no path of five is
    // left, the stored path stays, and the holder is still the only one
    // with the longest path, so keeps the bonus
    longest_road_town_added(&mut current, false, 3, &vec![five.clone(), vec![]], &vec![vec![cut], vec![]], &mut paths, &mut points);
    assert_eq!(current, LongestRoad(Some(0), 5));
    assert_eq!(points, vec![vp(4), vp(3)]);
    // an uncut path leaves everything as it was
    let mut untouched = LongestRoad(Some(0), 5);
    longest_road_town_added(&mut untouched, false, 3, &vec![five.clone(), vec![]], &vec![vec![], vec![]], &mut paths, &mut points);
    assert_eq!(untouched, LongestRoad(Some(0), 5));
}

#[test]
fn the_holder_keeps_the_bonus_when_last_of_the_longest() {
    let mut current = LongestRoad(Some(1), 7);
    let paths = vec![PlayerLongestRoad(path(5)), PlayerLongestRoad(path(6))];
    let mut points = vec![vp(3), vp(6)];
    reassign_longest_road(&mut current, &paths, &mut points);
    assert_eq!(current, LongestRoad(Some(1), 6));
    assert_eq!(points, vec![vp(3), vp(6)]);
}

#[test]
fn another_player_alone_at_the_top_takes_it() {
    let mut current = LongestRoad(Some(0), 7);
    let paths = vec![PlayerLongestRoad(path(4)), PlayerLongestRoad(path(6)), PlayerLongestRoad(path(5))];
    let mut points = vec![vp(6), vp(3), vp(3)];
    reassign_longest_road(&mut current, &paths, &mut points);
    assert_eq!(current, LongestRoad(Some(1), 6));
    assert_eq!(points, vec![vp(4), vp(5), vp(3)]);
}

#[test]
fn a_tie_leaves_nobody_with_it() {
    let mut current = LongestRoad(Some(0), 7);
    let paths = vec![PlayerLongestRoad(path(4)), PlayerLongestRoad(path(6)), PlayerLongestRoad(path(6))];
    let mut points = vec![vp(6), vp(3), vp(3)];
    reassign_longest_road(&mut current, &paths, &mut points);
    assert_eq!(current, LongestRoad(None, 4));
    assert_eq!(points, vec![vp(4), vp(3), vp(3)]);
    // tied with a later player, the holder is not last among the longest: nobody keeps it
    let mut current = LongestRoad(Some(0), 7);
    let paths = vec![PlayerLongestRoad(path(6)), PlayerLongestRoad(path(6))];
    let mut points = vec![vp(6), vp(3)];
    reassign_longest_road(&mut current, &paths, &mut points);
    assert_eq!(current, LongestRoad(None, 4));
    assert_eq!(points, vec![vp(4), vp(3)]);
}

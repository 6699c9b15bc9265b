use katan::positions::{
    generate_postions, generate_postions_ring, other_point_is_close, strictly_inside_board,
    BuildingPosition, Coordinate, Position, RoadPosition,
};

fn p(q: i8, r: i8, s: i8) -> Position {
    Position { q, r, s }
}

#[test]
fn position_new_checks_sum_and_size() {
    assert_eq!(Position::new(1, -1, 0, None), Some(p(1, -1, 0)));
    assert_eq!(Position::new(1, 1, 0, None), None);
    assert_eq!(Position::new(2, -2, 0, Some(2)), Some(p(2, -2, 0)));
    assert_eq!(Position::new(3, -3, 0, Some(2)), None);
}

#[test]
fn direction_vectors_are_the_six_neighbours() {
    let d = Position::direction_vectors();
    assert_eq!(d[0], p(1, 0, -1));
    assert_eq!(d[5], p(0, 1, -1));
    for v in d {
        assert_eq!(v.q + v.r + v.s, 0);
    }
}

#[test]
fn add_and_rotate() {
    assert_eq!(p(1, -1, 0).add(p(0, 1, -1)), p(1, 0, -1));
    assert_eq!(p(1, -1, 0).rotate_right(), p(1, 0, -1));
    assert_eq!(p(2, -1, -1).rotate_right_n(0), p(2, -1, -1));
    assert_eq!(p(2, -1, -1).rotate_right_n(3), p(-2, 1, 1));
}

#[test]
fn six_turns_are_a_full_turn() {
    for q in -2i8..=2 {
        for r in -2i8..=2 {
            let s = -q - r;
            let h = p(q, r, s);
            assert_eq!(h.rotate_right_n(6), h);
        }
    }
}

#[test]
fn shared_coordinate_and_order() {
    assert_eq!(p(0, 0, 0).get_shared_coordinate(&p(0, 1, -1)), Some(Coordinate::Q));
    assert_eq!(p(0, 0, 0).get_shared_coordinate(&p(1, 0, -1)), Some(Coordinate::R));
    assert_eq!(p(0, 0, 0).get_shared_coordinate(&p(1, -1, 0)), Some(Coordinate::S));
    assert_eq!(p(0, 0, 0).get_shared_coordinate(&p(1, 1, -2)), None);
    assert!(p(0, 0, 0).is_less(&p(1, -1, 0)));
    assert!(!p(1, -1, 0).is_less(&p(0, 0, 0)));
    assert!(p(0, -1, 1).is_less(&p(0, 0, 0)));
}

#[test]
fn points_predicates() {
    assert!(p(1, -1, 0).all_points_are(|x| x.abs() <= 1));
    assert!(!p(2, -1, -1).all_points_are(|x| x.abs() <= 1));
    assert!(p(2, -1, -1).any_points_is(|x| x == 2));
    assert!(!p(0, 0, 0).any_points_is(|x| x != 0));
}

#[test]
fn inside_board_and_closeness() {
    assert!(strictly_inside_board(p(2, -2, 0), Some(3)));
    assert!(!strictly_inside_board(p(3, -3, 0), Some(3)));
    assert!(strictly_inside_board(p(100, -100, 0), None));
    assert!(other_point_is_close(p(0, 0, 0), p(1, -1, 0), &Coordinate::S));
    assert!(!other_point_is_close(p(0, 0, 0), p(2, -2, 0), &Coordinate::S));
}

#[test]
fn road_new_and_equality() {
    let a = RoadPosition::new(p(0, 0, 0), p(1, -1, 0), Some(3)).unwrap();
    let b = RoadPosition::new(p(1, -1, 0), p(0, 0, 0), Some(3)).unwrap();
    assert_eq!(a, b);
    assert_eq!(a.shared_coordinate(), Coordinate::S);
    assert_eq!(RoadPosition::new(p(0, 0, 0), p(2, -2, 0), Some(3)), None);
    assert_eq!(RoadPosition::new(p(3, -3, 0), p(3, -2, -1), Some(3)), None);
    assert!(RoadPosition::new(p(2, -2, 0), p(3, -3, 0), Some(3)).is_some());
}

#[test]
fn roads_meet_at_a_spot() {
    let a = RoadPosition::new(p(0, 0, 0), p(1, -1, 0), Some(3)).unwrap();
    let b = RoadPosition::new(p(0, 0, 0), p(1, 0, -1), Some(3)).unwrap();
    let spot = a.intersect(&b, Some(3)).unwrap();
    assert_eq!(spot, BuildingPosition::new(p(0, 0, 0), p(1, -1, 0), p(1, 0, -1), Some(3)).unwrap());
    assert_eq!(a.intersect(&a, Some(3)), None);
}

#[test]
fn the_two_hexagons_beside_a_road() {
    let a = RoadPosition::new(p(0, 0, 0), p(1, -1, 0), Some(3)).unwrap();
    let (x, y) = a.neighboring_two(Some(3));
    let mut got = vec![x.unwrap(), y.unwrap()];
    got.sort();
    assert_eq!(got, vec![p(0, -1, 1), p(1, 0, -1)]);
}

#[test]
fn spots_are_order_free() {
    let a = BuildingPosition::new(p(0, 0, 0), p(1, -1, 0), p(1, 0, -1), Some(3)).unwrap();
    let b = BuildingPosition::new(p(1, 0, -1), p(0, 0, 0), p(1, -1, 0), Some(3)).unwrap();
    assert_eq!(a, b);
    assert_eq!(BuildingPosition::new_unchecked(p(1, 0, -1), p(0, 0, 0), p(1, -1, 0)), a);
    assert!(a.contains(&p(0, 0, 0)));
    assert!(!a.contains(&p(-1, 0, 1)));
    assert_eq!(BuildingPosition::new(p(0, 0, 0), p(2, -2, 0), p(1, 0, -1), Some(3)), None);
}

#[test]
fn spot_rotation_and_offset() {
    let a = BuildingPosition::new(p(0, 0, 0), p(1, -1, 0), p(1, 0, -1), Some(3)).unwrap();
    assert_eq!(a.rotate_right_n(6), a);
    assert_eq!(a.rotate_right().rotate_right_n(5), a);
    let moved = a.add(p(1, 0, -1));
    assert_eq!(moved, BuildingPosition::new(p(1, 0, -1), p(2, -1, -1), p(2, 0, -2), None).unwrap());
    let around = p(0, 0, 0).building_positions_around();
    for spot in around {
        assert!(spot.contains(&p(0, 0, 0)));
    }
}

#[test]
fn the_board_has_nineteen_hexagons_and_a_ring_of_eighteen() {
    let all = generate_postions(3);
    assert_eq!(all.len(), 19);
    assert!(all.contains(&p(0, 0, 0)));
    assert!(all.contains(&p(2, -2, 0)));
    assert!(!all.contains(&p(3, -3, 0)));
    let mut sorted = all.clone();
    sorted.sort();
    assert_eq!(sorted, all);
    let ring = generate_postions_ring(3);
    assert_eq!(ring.len(), 18);
    for h in &ring {
        assert!(h.q.abs() == 3 || h.r.abs() == 3 || h.s.abs() == 3);
    }
    assert_eq!(generate_postions(1), vec![p(0, 0, 0)]);
}

#[test]
fn where_two_roads_meet_does_not_depend_on_the_order() {
    let a = RoadPosition::new(p(0, 0, 0), p(1, -1, 0), None).unwrap();
    let b = RoadPosition::new(p(0, 0, 0), p(1, 0, -1), None).unwrap();
    let spot = BuildingPosition::new(p(1, 0, -1), p(1, -1, 0), p(0, 0, 0), None);
    assert!(spot.is_some());
    assert_eq!(a.intersect(&b, None), spot);
    assert_eq!(b.intersect(&a, None), spot);
    let far = RoadPosition::new(p(2, -1, -1), p(2, -2, 0), None).unwrap();
    assert_eq!(a.intersect(&far, None), None);
    assert_eq!(far.intersect(&a, None), None);
}

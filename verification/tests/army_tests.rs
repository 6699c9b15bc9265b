use katan::army::{update_larget_army, LargetArmy};
use katan::game::VictoryPoints;

fn vp(actual: u8) -> VictoryPoints {
    VictoryPoints { actual, from_development_cards: 0 }
}

#[test]
fn three_knights_take_the_bonus() {
    let mut current = LargetArmy::new();
    assert_eq!(current, LargetArmy(2, None));
    let mut points = vec![vp(3), vp(4)];
    update_larget_army(&vec![(0, 2)], &mut points, &mut current);
    assert_eq!(current, LargetArmy(2, None));
    assert_eq!(points, vec![vp(3), vp(4)]);
    update_larget_army(&vec![(0, 3)], &mut points, &mut current);
    assert_eq!(current, LargetArmy(3, Some(0)));
    assert_eq!(points, vec![vp(5), vp(4)]);
}

#[test]
fn the_bonus_moves_to_whoever_beats_the_record() {
    let mut current = LargetArmy(3, Some(0));
    let mut points = vec![vp(5), vp(4)];
    // a tie does not take it
    update_larget_army(&vec![(1, 3)], &mut points, &mut current);
    assert_eq!(current, LargetArmy(3, Some(0)));
    update_larget_army(&vec![(1, 4)], &mut points, &mut current);
    assert_eq!(current, LargetArmy(4, Some(1)));
    assert_eq!(points, vec![vp(3), vp(6)]);
    let total: u32 = points.iter().map(|p| p.actual as u32).sum();
    assert_eq!(total, 9);
}

use katan::dice::{full_roll_dice, roll_dice, roll_outcome};
use katan::game::{GameState, Input};
use katan::resources::Resources;

#[test]
fn dice_are_two_sixes() {
    for _ in 0..200 {
        let (sum, a, b) = roll_dice();
        assert!((1..=6).contains(&a) && (1..=6).contains(&b));
        assert_eq!(sum, a + b);
    }
}

#[test]
fn a_seven_calls_the_robber() {
    let light = vec![Resources::new(1, 1, 1, 1, 1)];
    let heavy = vec![Resources::new(1, 1, 1, 1, 1), Resources::new(2, 2, 2, 2, 0)];
    assert_eq!(roll_outcome(7, 3, 4, &light), (Some(GameState::PlaceRobber), None));
    assert_eq!(roll_outcome(7, 3, 4, &heavy), (None, Some(Input::RobberDiscardInit)));
    assert_eq!(roll_outcome(8, 3, 5, &heavy), (Some(GameState::Turn), Some(Input::Roll(8, 3, 5))));
}

#[test]
fn a_full_roll() {
    for _ in 0..100 {
        let (state, input, (sum, a, b)) = full_roll_dice(&vec![Resources::new_player()]);
        assert_eq!(sum, a + b);
        if sum == 7 {
            assert_eq!((state, input), (Some(GameState::PlaceRobber), None));
        } else {
            assert_eq!((state, input), (Some(GameState::Turn), Some(Input::Roll(sum, a, b))));
        }
    }
}

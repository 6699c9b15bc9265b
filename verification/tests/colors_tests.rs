use katan::colors::{
    next_player, set_color, set_setup_color, CatanColor, CatanColorRef, ColorIterator, CurrentColor,
    CurrentSetupColor, PlayerHandle, SetupColorIterator, SetupStep,
};
use katan::game::GameState;

fn seat(i: usize, color: CatanColor) -> CatanColorRef {
    CatanColorRef { color, entity: 10 + i as u64, handle: PlayerHandle(i) }
}

fn seats() -> Vec<CatanColorRef> {
    vec![seat(0, CatanColor::Red), seat(1, CatanColor::Green), seat(2, CatanColor::Blue)]
}

#[test]
fn turns_go_round_the_table() {
    let mut it = ColorIterator::new(seats());
    let mut got = vec![];
    for _ in 0..7 {
        got.push(it.next_color().unwrap().handle.0);
    }
    assert_eq!(got, vec![0, 1, 2, 0, 1, 2, 0]);
    let mut empty = ColorIterator::new(vec![]);
    assert_eq!(empty.next_color(), None);
}

#[test]
fn the_setup_rounds_snake() {
    let mut it = SetupColorIterator::new(seats());
    let mut got = vec![];
    while let Some(c) = it.next_color() {
        got.push(c.handle.0);
    }
    assert_eq!(got, vec![0, 1, 2, 2, 1, 0]);
    assert_eq!(it.next_color(), None);
}

#[test]
fn the_state_depends_on_whose_machine() {
    let s = seat(1, CatanColor::Green);
    assert_eq!(next_player(PlayerHandle(1), s, GameState::Roll, GameState::NotActive), GameState::Roll);
    assert_eq!(next_player(PlayerHandle(0), s, GameState::Roll, GameState::NotActive), GameState::NotActive);
}

#[test]
fn set_color_moves_the_turn_on() {
    let mut it = ColorIterator::new(seats());
    let (c, s) = set_color(&mut it, PlayerHandle(1));
    assert_eq!(c, CurrentColor(seat(0, CatanColor::Red)));
    assert_eq!(s, GameState::NotActive);
    let (c, s) = set_color(&mut it, PlayerHandle(1));
    assert_eq!(c, CurrentColor(seat(1, CatanColor::Green)));
    assert_eq!(s, GameState::Roll);
    assert_eq!(it.next, 2);
}

#[test]
fn setup_then_play() {
    let mut setup = SetupColorIterator::new(vec![seat(0, CatanColor::Red), seat(1, CatanColor::Green)]);
    let mut turns = ColorIterator::new(vec![seat(0, CatanColor::Red), seat(1, CatanColor::Green)]);
    let mut steps = vec![];
    for _ in 0..5 {
        steps.push(set_setup_color(&mut setup, &mut turns, PlayerHandle(0)));
    }
    assert_eq!(steps[0], SetupStep::Setup(CurrentSetupColor(seat(0, CatanColor::Red)), GameState::SetupRoad));
    assert_eq!(steps[1], SetupStep::Setup(CurrentSetupColor(seat(1, CatanColor::Green)), GameState::NotActiveSetup));
    assert_eq!(steps[2], SetupStep::Setup(CurrentSetupColor(seat(1, CatanColor::Green)), GameState::NotActiveSetup));
    assert_eq!(steps[3], SetupStep::Setup(CurrentSetupColor(seat(0, CatanColor::Red)), GameState::SetupRoad));
    assert_eq!(steps[4], SetupStep::Play(CurrentColor(seat(0, CatanColor::Red)), GameState::Roll));
}

#[test]
fn colour_of_the_current_player() {
    let c: CatanColor = CurrentColor(seat(2, CatanColor::Blue)).into();
    assert_eq!(c, CatanColor::Blue);
    let c: CatanColor = CurrentSetupColor(seat(0, CatanColor::Red)).into();
    assert_eq!(c, CatanColor::Red);
}

#[test]
fn setup_calls_snake_over_three_players_then_play() {
    let mut setup = SetupColorIterator::new(seats());
    let mut turns = ColorIterator::new(seats());
    let placing: Vec<CatanColorRef> = (0..7)
        .map(|_| set_setup_color(&mut setup, &mut turns, PlayerHandle(2)))
        .filter_map(|step| match step {
            SetupStep::Setup(c, _) => Some(c.0),
            SetupStep::Play(..) => None,
        })
        .collect();
    let order = seats();
    assert_eq!(placing, vec![order[0], order[1], order[2], order[2], order[1], order[0]]);
    assert_eq!(setup.next, 6);
    assert_eq!(turns.next, 1);
}

use katan::board::Robber;
use katan::colors::{CatanColor, CatanColorRef, PlayerHandle};
use katan::game::{GameState, Input, Player};
use katan::positions::{BuildingPosition, Position};
use katan::resources::{Resource, Resources};
use katan::robber::{
    choose_player_to_take_from, choose_player_to_take_from_interaction, choose_victims, discard_needed,
    done_discarding, knight_next_time, robber_can_decrement, robber_can_increment, robber_decrement,
    robber_increment, robber_spots, submit_discard, RobberDiscard, RobberOutcome, RobberResourceSpinner,
};

fn p(q: i8, r: i8, s: i8) -> Position {
    Position { q, r, s }
}

fn player(entity: u64, handle: usize, color: CatanColor, hand: Resources) -> Player {
    let mut pl = Player::new(entity, PlayerHandle(handle), color);
    pl.resources = hand;
    pl
}

#[test]
fn discard_half_when_over_seven() {
    assert_eq!(discard_needed(&Resources::new(2, 2, 2, 1, 0)), None);
    assert_eq!(discard_needed(&Resources::new(2, 2, 2, 2, 0)), Some(4));
    assert_eq!(discard_needed(&Resources::new(2, 2, 2, 2, 1)), Some(4));
    assert_eq!(discard_needed(&Resources::new(10, 0, 0, 0, 1)), Some(5));
}

#[test]
fn discard_spinners() {
    let spinner = RobberResourceSpinner { resource: Resource::Wood, max: 2 };
    let mut d = RobberDiscard::default();
    assert!(robber_can_increment(&d, &spinner));
    assert!(!robber_can_decrement(&d, &spinner));
    robber_increment(&mut d, &spinner);
    robber_increment(&mut d, &spinner);
    assert!(!robber_can_increment(&d, &spinner));
    assert_eq!(d.0, Resources::new(2, 0, 0, 0, 0));
    robber_decrement(&mut d, &spinner);
    assert_eq!(d.0, Resources::new(1, 0, 0, 0, 0));
}

#[test]
fn submitting_the_discard() {
    let mut d = RobberDiscard(Resources::new(1, 2, 0, 0, 0));
    assert_eq!(submit_discard(&mut d, 4, GameState::RobberDiscardResources), None);
    assert_eq!(d.0, Resources::new(1, 2, 0, 0, 0));
    assert_eq!(
        submit_discard(&mut d, 3, GameState::RobberDiscardResources),
        Some((Input::RobberDiscard(Resources::new(1, 2, 0, 0, 0)), None))
    );
    assert_eq!(d.0, Resources::new_player());
    let mut d = RobberDiscard(Resources::new(0, 0, 0, 4, 0));
    assert_eq!(
        submit_discard(&mut d, 4, GameState::RobberDiscardResourcesInActive),
        Some((Input::RobberDiscard(Resources::new(0, 0, 0, 4, 0)), Some(GameState::NotActive)))
    );
}

#[test]
fn discarding_is_done_when_nobody_has_more_than_seven() {
    assert!(done_discarding(&vec![Resources::new(7, 0, 0, 0, 0), Resources::new_player()]));
    assert!(!done_discarding(&vec![Resources::new(7, 1, 0, 0, 0)]));
    assert!(done_discarding(&vec![]));
}

#[test]
fn the_robber_moves_anywhere_else() {
    let spots = robber_spots(&Robber(p(0, 0, 0)));
    assert_eq!(spots.len(), 18);
    assert!(!spots.contains(&p(0, 0, 0)));
    assert!(spots.contains(&p(2, -2, 0)));
    let spots = robber_spots(&Robber(p(5, -5, 0)));
    assert_eq!(spots.len(), 19);
}

fn town(entity: u64, color: CatanColor, a: Position, b: Position, c: Position) -> (u64, CatanColor, BuildingPosition) {
    (entity, color, BuildingPosition::new(a, b, c, None).unwrap())
}

#[test]
fn victims_are_other_colours_next_to_the_robber_with_cards() {
    let players = vec![
        player(1, 0, CatanColor::Red, Resources::new(1, 0, 0, 0, 0)),
        player(2, 1, CatanColor::Blue, Resources::new(0, 0, 1, 0, 0)),
        player(3, 2, CatanColor::White, Resources::new_player()),
    ];
    let buildings = vec![
        town(1, CatanColor::Red, p(0, 0, 0), p(1, -1, 0), p(1, 0, -1)),
        town(2, CatanColor::Blue, p(0, 0, 0), p(-1, 0, 1), p(-1, 1, 0)),
        town(2, CatanColor::Blue, p(0, 0, 0), p(0, -1, 1), p(1, -1, 0)),
        town(3, CatanColor::White, p(0, 0, 0), p(0, 1, -1), p(-1, 1, 0)),
    ];
    let v = choose_victims(&p(0, 0, 0), CatanColor::Red, &buildings, &players);
    assert_eq!(v, vec![CatanColorRef { color: CatanColor::Blue, entity: 2, handle: PlayerHandle(1) }]);
    match choose_player_to_take_from(&p(0, 0, 0), CatanColor::Red, &buildings, &players, false) {
        RobberOutcome::Done(input, state) => {
            assert_eq!(input, Some(Input::Knight(2, Resource::Sheep, p(0, 0, 0))));
            assert_eq!(state, GameState::Turn);
        }
        RobberOutcome::Choose(_) => panic!("one victim"),
    }
    // nobody to rob: the robber only moves
    match choose_player_to_take_from(&p(2, -2, 0), CatanColor::Red, &buildings, &players, true) {
        RobberOutcome::Done(input, state) => {
            assert_eq!(input, Some(Input::MoveKnight(p(2, -2, 0))));
            assert_eq!(state, GameState::Roll);
        }
        RobberOutcome::Choose(_) => panic!("no victim"),
    }
    // two victims: the player chooses
    let white_rich = vec![
        players[0],
        players[1],
        player(3, 2, CatanColor::White, Resources::new(0, 0, 0, 0, 2)),
    ];
    match choose_player_to_take_from(&p(0, 0, 0), CatanColor::Red, &buildings, &white_rich, false) {
        RobberOutcome::Choose(v) => assert_eq!(v.len(), 2),
        RobberOutcome::Done(..) => panic!("two victims"),
    }
}

#[test]
fn robbing_the_chosen_player() {
    let players = vec![player(2, 1, CatanColor::Blue, Resources::new(0, 0, 0, 3, 0))];
    let chosen = CatanColorRef { color: CatanColor::Blue, entity: 2, handle: PlayerHandle(1) };
    assert_eq!(
        choose_player_to_take_from_interaction(chosen, p(1, -1, 0), &players, true),
        (Some(Input::Knight(2, Resource::Wheat, p(1, -1, 0))), GameState::Roll)
    );
    let broke = vec![player(2, 1, CatanColor::Blue, Resources::new_player())];
    assert_eq!(choose_player_to_take_from_interaction(chosen, p(1, -1, 0), &broke, false), (None, GameState::Turn));
    assert_eq!(knight_next_time(true), GameState::Roll);
    assert_eq!(knight_next_time(false), GameState::Turn);
}

#[test]
fn phases_around_the_robber() {
    let full = vec![katan::resources::Resources::new(2, 2, 2, 2, 2)];
    let fine = vec![katan::resources::Resources::new(1, 1, 1, 1, 1)];
    let waiting = katan::game::GameState::RobberDiscardResources;
    assert_eq!(katan::robber::state_after_discards(&full, waiting), waiting);
    assert_eq!(katan::robber::state_after_discards(&fine, waiting), katan::game::GameState::PlaceRobber);
    assert_eq!(katan::robber::state_after_discards(&fine, katan::game::GameState::Turn), katan::game::GameState::Turn);
    let choose = katan::robber::RobberOutcome::Choose(vec![]);
    assert_eq!(katan::robber::state_after_robber(&choose), katan::game::GameState::RobberPickColor);
    let done = katan::robber::RobberOutcome::Done(None, katan::game::GameState::Turn);
    assert_eq!(katan::robber::state_after_robber(&done), katan::game::GameState::Turn);
}

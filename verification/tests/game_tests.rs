use katan::board::{Port, Ports, Robber};
use katan::cards::{DevelopmentCard, DevelopmentCards, DevelopmentCardsPile};
use katan::colors::{
    CatanColor, CatanColorRef, ColorIterator, CurrentColor, CurrentSetupColor, PlayerHandle,
    SetupColorIterator, SetupStep,
};
use katan::game::{
    input_fits, knight_fits, monopoly_total, trade_accept_fits, turns_fit,
    find_player, find_port, first_roll, give_one, take_one, update_from_input, update_from_knight,
    update_from_monopoly, update_from_move_knight, update_from_trade_accept, Effect, GameData,
    GameState, Input, Knights, Player, VictoryPoints,
};
use katan::positions::{BuildingPosition, Position, RoadPosition};
use katan::resources::{Resource, Resources};
use katan::trading::TradingResources;

fn p(q: i8, r: i8, s: i8) -> Position {
    Position { q, r, s }
}

fn seat(i: usize, color: CatanColor) -> CatanColorRef {
    CatanColorRef { color, entity: 100 + i as u64, handle: PlayerHandle(i) }
}

fn game() -> GameData {
    let seats = vec![seat(0, CatanColor::Red), seat(1, CatanColor::Blue)];
    let mut players: Vec<Player> = seats
        .iter()
        .map(|s| Player::new(s.entity, s.handle, s.color))
        .collect();
    players[0].resources = Resources::new(3, 3, 3, 3, 3);
    players[1].resources = Resources::new(1, 0, 2, 0, 0);
    GameData {
        players,
        bank: Resources::new_game(),
        pile: DevelopmentCardsPile(vec![DevelopmentCard::Knight, DevelopmentCard::VictoryPoint]),
        ports: vec![(
            BuildingPosition::new(p(2, -2, 0), p(3, -3, 0), p(3, -2, -1), None).unwrap(),
            Port::TwoForOne(Resource::Ore),
        )],
        robber: Robber::default(),
        current: CurrentColor(seats[0]),
        setup_current: CurrentSetupColor(seats[0]),
        rotation: ColorIterator::new(seats.clone()),
        setup_rotation: SetupColorIterator::new(seats),
    }
}

fn cards_in_play(g: &GameData, r: Resource) -> u32 {
    g.bank.get(r) as u32 + g.players.iter().map(|pl| pl.resources.get(r) as u32).sum::<u32>()
}

#[test]
fn a_new_player() {
    let pl = Player::new(7, PlayerHandle(1), CatanColor::Green);
    assert_eq!(pl.resources, Resources::new_player());
    assert_eq!(pl.roads_left, 15);
    assert_eq!(pl.towns_left, 5);
    assert_eq!(pl.cities_left, 4);
    assert_eq!(pl.development_cards, DevelopmentCards::new_player());
    assert_eq!(pl.knights, Knights(0));
    assert_eq!(pl.victory_points, VictoryPoints { actual: 0, from_development_cards: 0 });
    assert_eq!(pl.ports, Ports::new_player());
}

#[test]
fn building_a_road_pays_the_bank() {
    let mut g = game();
    let road = RoadPosition::new(p(0, 0, 0), p(1, -1, 0), Some(3)).unwrap();
    let local = seat(0, CatanColor::Red);
    let e = update_from_input(&mut g, 0, Input::AddRoad(road, Resources::new(1, 1, 0, 0, 0)), GameState::Turn, local);
    assert_eq!(e, Effect::Road(road, CatanColor::Red));
    assert_eq!(g.players[0].resources, Resources::new(2, 2, 3, 3, 3));
    assert_eq!(g.players[0].roads_left, 14);
    assert_eq!(g.bank, Resources::new(20, 20, 19, 19, 19));
    assert_eq!(g.players[1].resources, Resources::new(1, 0, 2, 0, 0));
    for r in [Resource::Wood, Resource::Brick, Resource::Sheep, Resource::Wheat, Resource::Ore] {
        assert_eq!(cards_in_play(&g, r), cards_in_play(&game(), r));
    }
}

#[test]
fn a_town_on_a_port_gives_the_port() {
    let mut g = game();
    let spot = BuildingPosition::new(p(2, -2, 0), p(3, -3, 0), p(3, -2, -1), None).unwrap();
    let local = seat(0, CatanColor::Red);
    let e = update_from_input(&mut g, 0, Input::AddTown(spot, Resources::new(1, 1, 1, 1, 0), false), GameState::Turn, local);
    assert_eq!(e, Effect::Town(spot, CatanColor::Red, None));
    assert_eq!(g.players[0].towns_left, 4);
    assert_eq!(g.players[0].victory_points.actual, 1);
    assert_eq!(g.players[0].ports.get_trade_rate(Resource::Ore), 2);
    assert_eq!(g.players[0].resources, Resources::new(2, 2, 2, 2, 3));
    assert_eq!(g.bank, Resources::new(20, 20, 20, 20, 19));
}

#[test]
fn a_city_replaces_a_town() {
    let mut g = game();
    let spot = BuildingPosition::new(p(0, 0, 0), p(1, -1, 0), p(1, 0, -1), None).unwrap();
    let local = seat(0, CatanColor::Red);
    let e = update_from_input(&mut g, 0, Input::AddCity(55, spot, Resources::new(0, 0, 0, 2, 3)), GameState::Turn, local);
    assert_eq!(e, Effect::City(55, spot, CatanColor::Red));
    assert_eq!(g.players[0].towns_left, 6);
    assert_eq!(g.players[0].cities_left, 3);
    assert_eq!(g.players[0].victory_points.actual, 1);
    assert_eq!(g.players[0].resources, Resources::new(3, 3, 3, 1, 0));
}

#[test]
fn buying_a_development_card_takes_the_top_one() {
    let mut g = game();
    let local = seat(0, CatanColor::Red);
    update_from_input(&mut g, 0, Input::TakeDevelopmentCard, GameState::Turn, local);
    assert_eq!(g.pile.0, vec![DevelopmentCard::Knight]);
    assert_eq!(g.players[0].development_cards.victory_point, 1);
    assert_eq!(g.players[0].victory_points.from_development_cards, 1);
    assert_eq!(g.players[0].resources, Resources::new(2, 2, 3, 3, 3));
    assert_eq!(g.bank, Resources::new(20, 20, 19, 19, 19));
    update_from_input(&mut g, 0, Input::TakeDevelopmentCard, GameState::Turn, local);
    assert_eq!(g.players[0].development_cards.knight, 5);
    assert!(g.pile.0.is_empty());
    // an empty pile changes nothing
    let before = g.players[0];
    update_from_input(&mut g, 0, Input::TakeDevelopmentCard, GameState::Turn, local);
    assert_eq!(g.players[0], before);
}

#[test]
fn year_of_plenty_discard_and_bank_trade() {
    let mut g = game();
    let local = seat(0, CatanColor::Red);
    update_from_input(&mut g, 1, Input::YearOfPlenty(Resource::Wheat), GameState::Turn, local);
    assert_eq!(g.players[1].resources, Resources::new(1, 0, 2, 1, 0));
    assert_eq!(g.bank.wheat, 18);
    update_from_input(&mut g, 1, Input::RobberDiscard(Resources::new(1, 0, 1, 0, 0)), GameState::Turn, local);
    assert_eq!(g.players[1].resources, Resources::new(0, 0, 1, 1, 0));
    assert_eq!(g.bank, Resources::new(20, 19, 20, 18, 19));
    let t = TradingResources { wood: 0, brick: 0, sheep: -1, wheat: 0, ore: 1 };
    update_from_input(&mut g, 1, Input::BankTrade(t), GameState::Turn, local);
    assert_eq!(g.players[1].resources, Resources::new(0, 0, 0, 1, 1));
    assert_eq!(g.bank, Resources::new(20, 19, 21, 18, 18));
}

#[test]
fn offers_and_discards_start_the_right_screens() {
    let mut g = game();
    let local = seat(0, CatanColor::Red);
    let t = TradingResources { wood: -1, brick: 1, sheep: 0, wheat: 0, ore: 0 };
    assert_eq!(update_from_input(&mut g, 1, Input::Trade(t), GameState::NotActive, local), Effect::ShowTrade(t));
    assert_eq!(update_from_input(&mut g, 0, Input::Trade(t), GameState::Turn, local), Effect::Nothing);
    assert_eq!(
        update_from_input(&mut g, 0, Input::RobberDiscardInit, GameState::Turn, local),
        Effect::State(GameState::RobberDiscardResources)
    );
    assert_eq!(
        update_from_input(&mut g, 1, Input::RobberDiscardInit, GameState::Turn, local),
        Effect::State(GameState::RobberDiscardResourcesInActive)
    );
    assert_eq!(update_from_input(&mut g, 1, Input::Idle, GameState::Turn, local), Effect::Nothing);
}

#[test]
fn next_color_passes_the_turn() {
    let mut g = game();
    let local = seat(0, CatanColor::Red);
    let e = update_from_input(&mut g, 0, Input::NextColor, GameState::Turn, local);
    assert_eq!(e, Effect::NewTurn(CurrentColor(seat(0, CatanColor::Red)), GameState::Roll));
    let e = update_from_input(&mut g, 0, Input::NextColor, GameState::Turn, local);
    assert_eq!(e, Effect::NewTurn(CurrentColor(seat(1, CatanColor::Blue)), GameState::NotActive));
    assert_eq!(g.current, CurrentColor(seat(1, CatanColor::Blue)));
}

#[test]
fn next_color_in_setup_follows_the_setup_rounds() {
    let mut g = game();
    let local = seat(1, CatanColor::Blue);
    let e = update_from_input(&mut g, 0, Input::NextColor, GameState::SetupTown, local);
    assert_eq!(
        e,
        Effect::Setup(SetupStep::Setup(CurrentSetupColor(seat(0, CatanColor::Red)), GameState::NotActiveSetup))
    );
    let e = update_from_input(&mut g, 0, Input::NextColor, GameState::NotActiveSetup, local);
    assert_eq!(
        e,
        Effect::Setup(SetupStep::Setup(CurrentSetupColor(seat(1, CatanColor::Blue)), GameState::SetupRoad))
    );
}

#[test]
fn players_and_ports_are_found() {
    let g = game();
    assert_eq!(find_player(&g.players, 101), Some(1));
    assert_eq!(find_player(&g.players, 5), None);
    let spot = BuildingPosition::new(p(3, -3, 0), p(3, -2, -1), p(2, -2, 0), None).unwrap();
    assert_eq!(find_port(&g.ports, spot), Some(Port::TwoForOne(Resource::Ore)));
    let other = BuildingPosition::new(p(0, 0, 0), p(1, -1, 0), p(1, 0, -1), None).unwrap();
    assert_eq!(find_port(&g.ports, other), None);
}

#[test]
fn one_card_more_or_less() {
    assert_eq!(take_one(Resources::new(1, 2, 0, 0, 0), Resource::Brick), Resources::new(1, 1, 0, 0, 0));
    assert_eq!(give_one(Resources::new(1, 2, 0, 0, 0), Resource::Ore), Resources::new(1, 2, 0, 0, 1));
}

#[test]
fn accepting_a_trade_moves_the_cards() {
    let mut g = game();
    let t = TradingResources { wood: -1, brick: 1, sheep: 0, wheat: 0, ore: 0 };
    // player 1 accepts player 0's reply: player 0 gives the trade, player 1 takes it
    update_from_trade_accept(&mut g.players, 1, t, 100);
    assert_eq!(g.players[0].resources, Resources::new(4, 2, 3, 3, 3));
    assert_eq!(g.players[1].resources, Resources::new(0, 1, 2, 0, 0));
    for r in [Resource::Wood, Resource::Brick] {
        assert_eq!(cards_in_play(&g, r), cards_in_play(&game(), r));
    }
}

#[test]
fn the_knight_steals_one_card_and_moves_the_robber() {
    let mut g = game();
    let mut robber = Robber::default();
    update_from_knight(&mut g.players, &mut robber, 0, 101, Resource::Sheep, p(1, -1, 0));
    assert_eq!(robber, Robber(p(1, -1, 0)));
    assert_eq!(g.players[0].resources, Resources::new(3, 3, 4, 3, 3));
    assert_eq!(g.players[1].resources, Resources::new(1, 0, 1, 0, 0));
    let mut robber = Robber::default();
    update_from_move_knight(&mut robber, p(0, -1, 1));
    assert_eq!(robber, Robber(p(0, -1, 1)));
}

#[test]
fn monopoly_takes_every_card_of_the_kind() {
    let mut g = game();
    update_from_monopoly(&mut g.players, 1, Resource::Wood);
    assert_eq!(g.players[0].resources.wood, 0);
    assert_eq!(g.players[1].resources.wood, 4);
    assert_eq!(g.players[1].resources, Resources::new(4, 0, 2, 0, 0));
    assert_eq!(cards_in_play(&g, Resource::Wood), cards_in_play(&game(), Resource::Wood));
}

#[test]
fn the_first_roll_among_the_inputs() {
    assert_eq!(first_roll(&vec![Input::Idle, Input::Roll(8, 3, 5), Input::Roll(2, 1, 1)]), Some((8, 3, 5)));
    assert_eq!(first_roll(&vec![Input::NextColor]), None);
    assert_eq!(first_roll(&vec![]), None);
    assert_eq!(Input::default(), Input::Idle);
}

#[test]
fn inputs_that_fit() {
    let g = game();
    let road = RoadPosition::new(p(0, 0, 0), p(1, -1, 0), Some(3)).unwrap();
    assert!(turns_fit(&g));
    assert!(input_fits(&g, 0, Input::NextColor));
    assert!(input_fits(&g, 0, Input::AddRoad(road, Resources::new(1, 1, 0, 0, 0))));
    assert!(!input_fits(&g, 1, Input::AddRoad(road, Resources::new(1, 1, 0, 0, 0))));
    assert!(!input_fits(&g, 2, Input::Idle));
    assert!(!input_fits(&g, 1, Input::TakeDevelopmentCard));
    assert!(input_fits(&g, 0, Input::TakeDevelopmentCard));
    assert!(input_fits(&g, 1, Input::YearOfPlenty(Resource::Ore)));
    let mut empty_bank = game();
    empty_bank.bank = Resources::new_player();
    assert!(!input_fits(&empty_bank, 1, Input::YearOfPlenty(Resource::Ore)));
    let mut no_turns = game();
    no_turns.rotation = ColorIterator::new(vec![]);
    assert!(!turns_fit(&no_turns));
    assert!(!input_fits(&no_turns, 0, Input::NextColor));
    let t = TradingResources { wood: -1, brick: 1, sheep: 0, wheat: 0, ore: 0 };
    assert!(trade_accept_fits(&g.players, 1, t, 100));
    assert!(!trade_accept_fits(&g.players, 5, t, 100));
    assert!(knight_fits(&g.players, 0, 101, Resource::Sheep));
    assert!(!knight_fits(&g.players, 0, 101, Resource::Ore));
    assert_eq!(monopoly_total(&g.players, Resource::Wood), Some(4));
    let mut rich = game();
    rich.players[0].resources.ore = 200;
    rich.players[1].resources.ore = 100;
    assert_eq!(monopoly_total(&rich.players, Resource::Ore), None);
}

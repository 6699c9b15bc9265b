use katan::board::{can_distribute, distribute_resources, hexagon_to_resources, Hexagon, Number, Port, Ports, Robber, Tile};
use katan::positions::{BuildingPosition, Position};
use katan::resources::{Resource, Resources};

fn p(q: i8, r: i8, s: i8) -> Position {
    Position { q, r, s }
}

fn spot(a: Position, b: Position, c: Position) -> BuildingPosition {
    BuildingPosition::new(a, b, c, None).unwrap()
}

#[test]
fn ports_set_the_trade_rate() {
    let none = Ports::new_player();
    assert_eq!(none, Ports::default());
    assert_eq!(none.get_trade_rate(Resource::Wood), 4);
    let three = none.add(Port::ThreeForOne);
    assert_eq!(three.get_trade_rate(Resource::Wood), 3);
    let both = three.add(Port::TwoForOne(Resource::Wood));
    assert_eq!(both.get_trade_rate(Resource::Wood), 2);
    assert_eq!(both.get_trade_rate(Resource::Ore), 3);
    let mut m = Ports::new_player();
    m.add_assign(Port::TwoForOne(Resource::Ore));
    assert_eq!(m.get_trade_rate(Resource::Ore), 2);
    assert_eq!(m.get_trade_rate(Resource::Sheep), 4);
}

#[test]
fn hexagons_from_numbers() {
    assert_eq!(Hexagon::from_u8(0), Hexagon::Wood);
    assert_eq!(Hexagon::from_u8(4), Hexagon::Ore);
    assert_eq!(Hexagon::from_u8(5), Hexagon::Desert);
    assert_eq!(Hexagon::from_u8(7), Hexagon::Port);
    assert_eq!(Hexagon::from_u8(200), Hexagon::Empty);
    assert_eq!(Hexagon::from(3u8), Hexagon::Wheat);
}

#[test]
fn what_a_hexagon_produces() {
    assert_eq!(hexagon_to_resources(Hexagon::Wood), Resources::new(1, 0, 0, 0, 0));
    assert_eq!(hexagon_to_resources(Hexagon::Wheat), Resources::new(0, 0, 0, 1, 0));
    assert_eq!(hexagon_to_resources(Hexagon::Ore), Resources::new(0, 0, 0, 0, 1));
}

#[test]
fn robber_starts_in_the_middle() {
    assert_eq!(Robber::default(), Robber(p(0, 0, 0)));
}

fn board() -> Vec<Tile> {
    vec![
        (Hexagon::Wood, Number::Number(6), p(0, 0, 0)),
        (Hexagon::Brick, Number::Number(6), p(1, -1, 0)),
        (Hexagon::Sheep, Number::Number(8), p(1, 0, -1)),
        (Hexagon::Ore, Number::Number(6), p(-1, 0, 1)),
    ]
}

#[test]
fn a_roll_pays_towns_one_and_cities_two() {
    let b = board();
    // player 0's town touches the wood and the brick: only the first in board order pays
    let towns = vec![(0usize, spot(p(0, 0, 0), p(1, -1, 0), p(1, 0, -1)))];
    // player 1's city touches the brick
    let cities = vec![(1usize, spot(p(1, -1, 0), p(2, -1, -1), p(2, -2, 0)))];
    let mut players = vec![Resources::new_player(), Resources::new_player()];
    let mut bank = Resources::new_game();
    distribute_resources(6, &b, &towns, &cities, &mut players, &mut bank, &Robber(p(-1, 0, 1)));
    assert_eq!(players[0], Resources::new(1, 0, 0, 0, 0));
    assert_eq!(players[1], Resources::new(0, 2, 0, 0, 0));
    assert_eq!(bank, Resources::new(18, 17, 19, 19, 19));
}

#[test]
fn the_robber_blocks_its_hexagon() {
    let b = board();
    let towns = vec![(0usize, spot(p(0, 0, 0), p(-1, 0, 1), p(-1, 1, 0)))];
    let cities = vec![];
    let mut players = vec![Resources::new_player()];
    let mut bank = Resources::new_game();
    // the wood hexagon is robbed: the ore hexagon pays instead
    distribute_resources(6, &b, &towns, &cities, &mut players, &mut bank, &Robber(p(0, 0, 0)));
    assert_eq!(players[0], Resources::new(0, 0, 0, 0, 1));
    assert_eq!(bank, Resources::new(19, 19, 19, 19, 18));
}

#[test]
fn other_numbers_and_unknown_owners_get_nothing() {
    let b = board();
    let towns = vec![(3usize, spot(p(1, 0, -1), p(2, 0, -2), p(2, -1, -1)))];
    let cities = vec![(0usize, spot(p(0, 0, 0), p(1, -1, 0), p(1, 0, -1)))];
    let mut players = vec![Resources::new_player()];
    let mut bank = Resources::new_game();
    distribute_resources(8, &b, &towns, &cities, &mut players, &mut bank, &Robber(p(-1, 0, 1)));
    // the city touches the sheep hexagon (8); the town's owner is not a player
    assert_eq!(players[0], Resources::new(0, 0, 2, 0, 0));
    assert_eq!(bank, Resources::new(19, 19, 17, 19, 19));
    let mut players = vec![Resources::new_player()];
    let mut bank = Resources::new_game();
    distribute_resources(5, &b, &towns, &cities, &mut players, &mut bank, &Robber(p(-1, 0, 1)));
    assert_eq!(players[0], Resources::new_player());
    assert_eq!(bank, Resources::new_game());
}

#[test]
fn a_payout_fits_only_when_the_bank_has_the_cards() {
    let b = board();
    let towns = vec![(0usize, spot(p(0, 0, 0), p(1, -1, 0), p(1, 0, -1)))];
    let cities = vec![(1usize, spot(p(1, -1, 0), p(2, -1, -1), p(2, -2, 0)))];
    let players = vec![Resources::new_player(), Resources::new_player()];
    let robber = Robber(p(-1, 0, 1));
    assert!(can_distribute(6, &b, &towns, &cities, &players, &Resources::new_game(), &robber));
    // the bank has one brick, the city needs two
    assert!(!can_distribute(6, &b, &towns, &cities, &players, &Resources::new(1, 1, 0, 0, 0), &robber));
    // a full hand cannot take more
    let full = vec![Resources::new(255, 0, 0, 0, 0), Resources::new_player()];
    assert!(!can_distribute(6, &b, &towns, &cities, &full, &Resources::new_game(), &robber));
    // a numbered desert pays nothing that a hand could hold
    let desert = vec![(Hexagon::Desert, Number::Number(6), p(0, 0, 0))];
    assert!(!can_distribute(6, &desert, &towns, &cities, &players, &Resources::new_game(), &robber));
    assert!(can_distribute(9, &desert, &towns, &cities, &players, &Resources::new_game(), &robber));
}

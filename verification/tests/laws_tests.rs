use katan::board::{distribute_resources, Hexagon, Number, Robber};
use katan::colors::{CatanColor, ColorIterator, CatanColorRef, PlayerHandle, SetupColorIterator};
use katan::game::{trade_accept_fits, update_from_knight, update_from_monopoly, update_from_trade_accept, Player};
use katan::trading::TradingResources;
use katan::positions::{BuildingPosition, Position};
use katan::resources::{Resource, Resources};

const KINDS: [Resource; 5] = [Resource::Wood, Resource::Brick, Resource::Sheep, Resource::Wheat, Resource::Ore];

fn p(q: i8, r: i8, s: i8) -> Position {
    Position { q, r, s }
}

fn hands_total(hands: &[Resources], r: Resource) -> u32 {
    hands.iter().map(|h| h.get(r) as u32).sum()
}

fn players() -> Vec<Player> {
    let mut a = Player::new(1, PlayerHandle(0), CatanColor::Red);
    a.resources = Resources::new(2, 0, 1, 4, 0);
    let mut b = Player::new(2, PlayerHandle(1), CatanColor::Blue);
    b.resources = Resources::new(0, 3, 1, 0, 2);
    let mut c = Player::new(3, PlayerHandle(2), CatanColor::White);
    c.resources = Resources::new(5, 0, 0, 1, 0);
    vec![a, b, c]
}

fn totals(ps: &[Player]) -> Vec<u32> {
    let hands: Vec<Resources> = ps.iter().map(|pl| pl.resources).collect();
    KINDS.iter().map(|r| hands_total(&hands, *r)).collect()
}

#[test]
fn payout_keeps_the_cards_in_the_game() {
    let board = vec![
        (Hexagon::Wheat, Number::Number(9), p(0, 0, 0)),
        (Hexagon::Ore, Number::Number(9), p(1, -1, 0)),
    ];
    let towns = vec![(0usize, BuildingPosition::new(p(0, 0, 0), p(1, -1, 0), p(1, 0, -1), None).unwrap())];
    let cities = vec![(1usize, BuildingPosition::new(p(1, -1, 0), p(2, -1, -1), p(2, -2, 0), None).unwrap())];
    let mut hands = vec![Resources::new(1, 1, 1, 1, 1), Resources::new(0, 0, 0, 0, 3)];
    let before = hands.clone();
    let mut bank = Resources::new(4, 4, 4, 4, 4);
    let bank_before = bank;
    distribute_resources(9, &board, &towns, &cities, &mut hands, &mut bank, &Robber(p(-2, 2, 0)));
    for r in KINDS {
        assert_eq!(bank.get(r) as u32 + hands_total(&hands, r), bank_before.get(r) as u32 + hands_total(&before, r));
    }
    assert_eq!(hands[1].ore, 5);
}

#[test]
fn monopoly_and_theft_keep_the_cards_in_the_game() {
    let mut ps = players();
    let before = totals(&ps);
    update_from_monopoly(&mut ps, 2, Resource::Sheep);
    assert_eq!(totals(&ps), before);
    assert_eq!(ps[2].resources.sheep, 2);
    let mut robber = Robber::default();
    update_from_knight(&mut ps, &mut robber, 0, 3, Resource::Wood, p(1, -1, 0));
    assert_eq!(totals(&ps), before);
    assert_eq!(ps[0].resources.wood, 3);
    // the thief robbing itself changes nothing
    let snapshot = ps.clone();
    update_from_knight(&mut ps, &mut robber, 0, 1, Resource::Wood, p(0, 0, 0));
    assert_eq!(ps, snapshot);
}

#[test]
fn turns_come_back_after_a_round() {
    let seats: Vec<CatanColorRef> = (0..4)
        .map(|i| CatanColorRef { color: CatanColor::Red, entity: i as u64, handle: PlayerHandle(i) })
        .collect();
    let mut it = ColorIterator::new(seats.clone());
    it.next = 2;
    let first = it.next_color().unwrap();
    for _ in 0..3 {
        it.next_color();
    }
    assert_eq!(it.next_color().unwrap(), first);
    let mut setup = SetupColorIterator::new(seats.clone());
    let order: Vec<usize> = std::iter::from_fn(|| setup.next_color()).map(|c| c.handle.0).collect();
    for i in 0..4 {
        assert_eq!(order[i], i);
        assert_eq!(order[7 - i], i);
    }
}

#[test]
fn paying_and_refunding() {
    let a = Resources::new(3, 1, 4, 1, 5);
    let b = Resources::new(1, 1, 0, 1, 2);
    assert_eq!(a.sub(b).add(b), a);
    assert_eq!(a.add(b).sub(b), a);
    assert_eq!(a.add(b), b.add(a));
}

#[test]
fn a_trade_keeps_the_cards_unless_one_count_wraps() {
    // counts of 128 and more are read as negative bytes; moving both on
    // the same side of the sign keeps the sum
    let mut ps = players();
    ps[0].resources.wood = 200;
    ps[1].resources.wood = 130;
    let trade = TradingResources { wood: 3, brick: 0, sheep: 0, wheat: 0, ore: 0 };
    assert!(trade_accept_fits(&ps, 1, trade, ps[0].entity));
    let before = totals(&ps);
    let trader = ps[0].entity;
    update_from_trade_accept(&mut ps, 1, trade, trader);
    assert_eq!(totals(&ps), before);
    assert_eq!((ps[0].resources.wood, ps[1].resources.wood), (197, 133));
    // the trader's count going below zero alone wraps it and breaks the sum
    let mut qs = players();
    qs[0].resources.wood = 1;
    let trader = qs[0].entity;
    assert!(trade_accept_fits(&qs, 1, trade, trader));
    let before = totals(&qs);
    update_from_trade_accept(&mut qs, 1, trade, trader);
    assert_eq!(qs[0].resources.wood, 254);
    assert_eq!(totals(&qs)[0], before[0] + 256);
}

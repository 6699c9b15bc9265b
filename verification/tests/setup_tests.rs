use katan::board::{Hexagon, Number, Port, Robber, Tile};
use katan::cards::{full_deck, DevelopmentCard};
use katan::colors::{CatanColor, PlayerHandle};
use katan::game::Player;
use katan::positions::{generate_postions, generate_postions_ring, BuildingPosition, Position};
use katan::resources::Resource;
use katan::setup::{
    building_postions_on_ring, fix_numbers, generate_board, generate_development_cards, generate_pieces,
    generate_port_positions, generate_ports, partition_tiles, setup, swap_red_away, TileTest,
};
use rand_xoshiro::rand_core::SeedableRng;
use rand_xoshiro::Xoshiro256PlusPlus;

fn p(q: i8, r: i8, s: i8) -> Position {
    Position { q, r, s }
}

fn key(b: &BuildingPosition) -> String {
    format!("{:?}", b)
}

fn land(h: &Position) -> bool {
    h.q.abs() < 3 && h.r.abs() < 3 && h.s.abs() < 3
}

#[test]
fn the_coast_has_thirty_spots() {
    let ring = building_postions_on_ring(3);
    assert_eq!(ring.len(), 30);
    let mut keys: Vec<String> = ring.iter().map(key).collect();
    keys.sort();
    keys.dedup();
    assert_eq!(keys.len(), 30);
    let all = generate_postions(4);
    for spot in &ring {
        let BuildingPosition::All(a, b, c) = *spot;
        let hexes = [a, b, c];
        assert!(hexes.iter().any(land));
        assert!(hexes.iter().any(|h| !land(h)));
        assert!(hexes.iter().all(|h| all.contains(h)));
    }
    assert_eq!(building_postions_on_ring(1).len(), 6);
}

#[test]
fn eighteen_port_spots() {
    let ring = building_postions_on_ring(3);
    let ports = generate_port_positions(3);
    assert_eq!(ports.len(), 18);
    // every tenth spot is left out, then every third of the rest
    assert_eq!(ports[0], ring[2]);
    assert_eq!(ports[1], ring[3]);
    assert_eq!(ports[2], ring[5]);
    for spot in &ports {
        assert!(ring.contains(spot));
    }
}

#[test]
fn nine_ports_two_spots_each() {
    let mut rng = Xoshiro256PlusPlus::seed_from_u64(7);
    let ports = generate_ports(&mut rng);
    assert_eq!(ports.len(), 18);
    let spots = generate_port_positions(3);
    for (j, (spot, port)) in ports.iter().enumerate() {
        assert_eq!(*spot, spots[j]);
        if j % 2 == 1 {
            assert_eq!(*port, ports[j - 1].1);
        }
    }
    let kinds: Vec<Port> = ports.iter().step_by(2).map(|x| x.1).collect();
    assert_eq!(kinds.iter().filter(|k| **k == Port::ThreeForOne).count(), 4);
    for r in [Resource::Wood, Resource::Brick, Resource::Sheep, Resource::Wheat, Resource::Ore] {
        assert_eq!(kinds.iter().filter(|k| **k == Port::TwoForOne(r)).count(), 1);
    }
}

#[test]
fn the_deck_is_shuffled() {
    let mut rng = Xoshiro256PlusPlus::seed_from_u64(42);
    let pile = generate_development_cards(&mut rng);
    let mut a = pile.0.clone();
    let mut b = full_deck();
    assert_ne!(a, b);
    a.sort();
    b.sort();
    assert_eq!(a, b);
    assert_eq!(pile.0.iter().filter(|c| **c == DevelopmentCard::Knight).count(), 14);
}

#[test]
fn seats_get_shuffled_colours() {
    let mut rng = Xoshiro256PlusPlus::seed_from_u64(3);
    let (seats, players, local) = generate_pieces(3, &vec![10, 11, 12, 13], &vec![1, 2], &mut rng);
    assert_eq!(seats.len(), 3);
    assert_eq!(players.len(), 3);
    let mut colours: Vec<CatanColor> = seats.iter().map(|s| s.color).collect();
    colours.sort();
    colours.dedup();
    assert_eq!(colours.len(), 3);
    for (i, s) in seats.iter().enumerate() {
        assert_eq!(s.handle, PlayerHandle(i));
        assert_eq!(s.entity, 10 + i as u64);
        assert_eq!(players[i], Player::new(s.entity, s.handle, s.color));
    }
    assert_eq!(local, Some(seats[2]));
    let (seats, _, local) = generate_pieces(9, &vec![1, 2, 3, 4], &vec![], &mut rng);
    assert_eq!(seats.len(), 4);
    assert_eq!(local, None);
}

fn tile(h: Hexagon, n: u8, pos: Position) -> Tile {
    (h, if n == 0 { Number::Blank } else { Number::Number(n) }, pos)
}

#[test]
fn partitions_keep_order() {
    let tiles = vec![
        tile(Hexagon::Wood, 6, p(0, 0, 0)),
        tile(Hexagon::Desert, 0, p(1, -1, 0)),
        tile(Hexagon::Ore, 3, p(2, -2, 0)),
        tile(Hexagon::Brick, 8, p(1, 0, -1)),
    ];
    let (numbered, blank) = partition_tiles(&tiles, TileTest::HasNumber);
    assert_eq!(numbered, vec![tiles[0], tiles[2], tiles[3]]);
    assert_eq!(blank, vec![tiles[1]]);
    let (red, normal) = partition_tiles(&tiles, TileTest::Red);
    assert_eq!(red, vec![tiles[0], tiles[3]]);
    assert_eq!(normal, vec![tiles[1], tiles[2]]);
    let (near, far) = partition_tiles(&tiles, TileTest::Touches(p(0, 0, 0)));
    assert_eq!(near, vec![tiles[1], tiles[3]]);
    assert_eq!(far, vec![tiles[0], tiles[2]]);
}

#[test]
fn swapping_a_red_number_away() {
    let mut reds = vec![tile(Hexagon::Wood, 6, p(0, 0, 0))];
    let mut normal = vec![tile(Hexagon::Ore, 3, p(2, -2, 0)), tile(Hexagon::Sheep, 4, p(-2, 2, 0))];
    let mut used = vec![];
    assert!(swap_red_away(&mut reds, 0, &mut normal, &mut used, 3));
    // 3 % 2 == 1: the second normal tile is picked
    assert_eq!(reds, vec![tile(Hexagon::Sheep, 6, p(-2, 2, 0))]);
    assert_eq!(used, vec![tile(Hexagon::Wood, 4, p(0, 0, 0))]);
    assert_eq!(normal, vec![tile(Hexagon::Ore, 3, p(2, -2, 0))]);
    let mut empty = vec![];
    assert!(!swap_red_away(&mut reds, 0, &mut empty, &mut used, 3));
    assert_eq!(used.len(), 1);
}

fn sorted_places(v: &[Tile]) -> Vec<String> {
    let mut k: Vec<String> = v.iter().map(|t| format!("{:?}{:?}", t.0, t.2)).collect();
    k.sort();
    k
}

fn sorted_numbers(v: &[Tile]) -> Vec<String> {
    let mut k: Vec<String> = v.iter().map(|t| format!("{:?}", t.1)).collect();
    k.sort();
    k
}

#[test]
fn fixing_numbers_loses_nothing() {
    let reds = vec![tile(Hexagon::Wood, 6, p(0, 0, 0)), tile(Hexagon::Brick, 8, p(1, -1, 0))];
    let normal = vec![
        tile(Hexagon::Ore, 3, p(2, -2, 0)),
        tile(Hexagon::Sheep, 4, p(-2, 2, 0)),
        tile(Hexagon::Wheat, 5, p(1, 0, -1)),
    ];
    let mut all = reds.clone();
    all.extend(normal.clone());
    for seed in 0..20 {
        let mut rng = Xoshiro256PlusPlus::seed_from_u64(seed);
        let fixed = fix_numbers(reds.clone(), normal.clone(), &mut rng).unwrap();
        assert_eq!(fixed.len(), 5);
        assert_eq!(sorted_places(&fixed), sorted_places(&all));
        assert_eq!(sorted_numbers(&fixed), sorted_numbers(&all));
        // the last red tile is set aside first
        assert_eq!(fixed[0], reds[1]);
    }
}

#[test]
fn a_laid_out_board() {
    for seed in 0..10 {
        let mut rng = Xoshiro256PlusPlus::seed_from_u64(seed);
        let (tiles, robber) = generate_board(&mut rng).unwrap();
        assert_eq!(tiles.len(), 37);
        let sea = generate_postions_ring(3);
        for (i, pos) in sea.iter().enumerate() {
            assert_eq!(tiles[19 + i], (Hexagon::Empty, Number::Blank, *pos));
        }
        let inner = &tiles[..19];
        let desert: Vec<&Tile> = inner.iter().filter(|t| t.0 == Hexagon::Desert).collect();
        assert_eq!(desert.len(), 1);
        assert_eq!(desert[0].1, Number::Blank);
        assert_eq!(tiles[18].0, Hexagon::Desert);
        assert_eq!(robber, Some(Robber(desert[0].2)));
        let mut positions: Vec<Position> = inner.iter().map(|t| t.2).collect();
        positions.sort();
        assert_eq!(positions, generate_postions(3));
        let count = |h: Hexagon| inner.iter().filter(|t| t.0 == h).count();
        assert_eq!(count(Hexagon::Wheat), 4);
        assert_eq!(count(Hexagon::Wood), 4);
        assert_eq!(count(Hexagon::Sheep), 4);
        assert_eq!(count(Hexagon::Ore), 3);
        assert_eq!(count(Hexagon::Brick), 3);
        let mut numbers: Vec<u8> = inner
            .iter()
            .filter_map(|t| match t.1 {
                Number::Number(n) => Some(n),
                Number::Blank => None,
            })
            .collect();
        numbers.sort();
        assert_eq!(numbers, vec![2, 3, 3, 4, 4, 5, 5, 6, 6, 8, 8, 9, 9, 10, 10, 11, 11, 12]);
    }
}

#[test]
fn the_same_seed_gives_the_same_game() {
    let a = setup(99, 2, &vec![1, 2], &vec![0]).unwrap();
    let b = setup(99, 2, &vec![1, 2], &vec![0]).unwrap();
    assert_eq!(a.tiles, b.tiles);
    assert_eq!(a.robber, b.robber);
    assert_eq!(a.ports, b.ports);
    assert_eq!(a.pile.0, b.pile.0);
    assert_eq!(a.seats, b.seats);
    assert_eq!(a.players.len(), 2);
    assert_eq!(a.local, Some(a.seats[0]));
    assert_eq!(a.tiles.len(), 37);
    assert_eq!(a.ports.len(), 18);
    assert_eq!(a.pile.0.len(), 25);
}

#[test]
fn fix_numbers_leaves_apart_reds_in_place() {
    let pos = |q: i8, r: i8, s: i8| Position { q, r, s };
    let red_a: Tile = (Hexagon::Wood, Number::Number(6), pos(0, 0, 0));
    let red_b: Tile = (Hexagon::Ore, Number::Number(8), pos(2, -2, 0));
    let near_a: Tile = (Hexagon::Sheep, Number::Number(3), pos(1, 0, -1));
    let near_b: Tile = (Hexagon::Brick, Number::Number(9), pos(2, -1, -1));
    let far: Tile = (Hexagon::Wheat, Number::Number(4), pos(-2, 2, 0));
    let mut rng = Xoshiro256PlusPlus::seed_from_u64(3);
    let fixed = fix_numbers(vec![red_a, red_b], vec![near_a, far, near_b], &mut rng).unwrap();
    // red_b is taken first, with the normal tiles next to it, then red_a
    assert_eq!(fixed, vec![red_b, near_b, red_a, near_a, far]);
}

#[test]
fn fix_numbers_moves_a_touching_red_to_the_only_normal_tile() {
    let pos = |q: i8, r: i8, s: i8| Position { q, r, s };
    let reds: Vec<Tile> = vec![
        (Hexagon::Wood, Number::Number(6), pos(1, -1, 0)),
        (Hexagon::Ore, Number::Number(8), pos(0, 0, 0)),
    ];
    let normal: Vec<Tile> = vec![(Hexagon::Sheep, Number::Number(3), pos(2, -2, 0))];
    for seed in 0..4 {
        let mut rng = Xoshiro256PlusPlus::seed_from_u64(seed);
        let fixed = fix_numbers(reds.clone(), normal.clone(), &mut rng).unwrap();
        assert_eq!(
            fixed,
            vec![
                (Hexagon::Ore, Number::Number(8), pos(0, 0, 0)),
                (Hexagon::Wood, Number::Number(3), pos(1, -1, 0)),
                (Hexagon::Sheep, Number::Number(6), pos(2, -2, 0)),
            ]
        );
    }
}

#[test]
fn fix_numbers_fails_when_touching_reds_have_no_normal_tile() {
    let pos = |q: i8, r: i8, s: i8| Position { q, r, s };
    let reds: Vec<Tile> = vec![
        (Hexagon::Wood, Number::Number(6), pos(0, 0, 0)),
        (Hexagon::Ore, Number::Number(8), pos(1, -1, 0)),
    ];
    let mut rng = Xoshiro256PlusPlus::seed_from_u64(1);
    assert!(fix_numbers(reds, vec![], &mut rng).is_none());
}

#[test]
fn generated_boards_keep_sixes_and_eights_apart() {
    let near = |a: Position, b: Position| {
        let d = (a.q - b.q, a.r - b.r, a.s - b.s);
        [(1, 0, -1), (1, -1, 0), (0, -1, 1), (-1, 0, 1), (-1, 1, 0), (0, 1, -1)].contains(&d)
    };
    for seed in 0..50 {
        let mut rng = Xoshiro256PlusPlus::seed_from_u64(seed);
        if let Some((tiles, _)) = generate_board(&mut rng) {
            let reds: Vec<Position> = tiles
                .iter()
                .filter(|t| t.1 == Number::Number(6) || t.1 == Number::Number(8))
                .map(|t| t.2)
                .collect();
            assert_eq!(reds.len(), 4);
            for a in &reds {
                for b in &reds {
                    assert!(!near(*a, *b));
                }
            }
        }
    }
}

//! Laying out a new game from a seed: the board's hexagons and numbers,
//! the ports, the deck of development cards and the players.
use vstd::multiset::Multiset;
use vstd::prelude::*;

use rand_xoshiro::Xoshiro256PlusPlus;

use crate::board::{Hexagon, Number, Port, Robber, Tile};
use crate::colors::{CatanColor, CatanColorRef, PlayerHandle};
use crate::game::Player;
use crate::cards::{DevelopmentCard, DevelopmentCardsPile, full_deck, full_deck_spec};
use crate::outside::{random_u8, seeded_rng, shuffle};
use crate::positions::{
    BuildingPosition, Position, direction_vectors_spec, generate_postions, generate_postions_ring,
    generate_spec, lemma_generated_in_range, ring_spec,
};
use crate::resources::Resource;

verus! {

/// Shuffles the twenty-five development cards into the pile.
pub fn generate_development_cards(rng: &mut Xoshiro256PlusPlus) -> (res: DevelopmentCardsPile)
    ensures
        res.0@.to_multiset() == full_deck_spec().to_multiset(),
{
    let mut cards = full_deck();
    shuffle(&mut cards, rng);
    DevelopmentCardsPile(cards)
}

/// The hexagon `(q, r, s)`.
pub open spec fn pos(q: int, r: int, s: int) -> Position {
    Position { q: q as i8, r: r as i8, s: s as i8 }
}

/// The spot at the top-left corner of the hexagon `(0, 1 - n, n - 1)`, on
/// the edge of a board of radius `n - 1`.
pub open spec fn ring_left_spot(n: int) -> BuildingPosition {
    BuildingPosition::sorted_spec(pos(0, 1 - n, n - 1), pos(0, -n, n), pos(1, -n, n - 1))
}

/// The spot at the top-right corner of the hexagon `(0, 1 - n, n - 1)`.
pub open spec fn ring_right_spot(n: int) -> BuildingPosition {
    BuildingPosition::sorted_spec(pos(0, 1 - n, n - 1), pos(1, -n, n - 1), pos(1, 1 - n, n - 2))
}

/// The outer spots along one side of the board: the right corner of the
/// first hexagon, then the left and right corners of each next one.
pub open spec fn ring_row(n: int) -> Seq<BuildingPosition> {
    Seq::new(
        (2 * n - 1) as nat,
        |k: int|
            if k == 0 {
                ring_right_spot(n)
            } else {
                let i = (k + 1) / 2;
                if k % 2 == 1 {
                    ring_left_spot(n).add_spec(pos(i, 0, -i))
                } else {
                    ring_right_spot(n).add_spec(pos(i, 0, -i))
                }
            },
    )
}

/// The outer spots of a board of radius `n - 1`: the first side, then the
/// same turned by one to five sixths of a turn.
pub open spec fn ring_spots(n: int) -> Seq<BuildingPosition> {
    let w = 2 * n - 1;
    Seq::new((6 * w) as nat, |k: int| ring_row(n)[k % w].rotate_n_spec((k / w) as nat))
}

/// The first side of the ring (see `ring_row`).
fn ring_row_exec(n: i8) -> (res: Vec<BuildingPosition>)
    requires
        1 <= n <= 127,
    ensures
        res@ == ring_row(n as int),
        forall|k: int| 0 <= k < res@.len() ==> (#[trigger] res@[k]).no_min(),
{
    let nn: u8 = n as u8;
    let base = Position::new(0, -n + 1, n - 1, Some(nn)).unwrap();
    let up = Position::new(0, -1, 1, Some(nn)).unwrap();
    let up_right = Position::new(1, -1, 0, Some(nn)).unwrap();
    let right = Position::new(1, 0, -1, Some(nn)).unwrap();
    let left_building = BuildingPosition::new_unchecked(base, base.add(up), base.add(up_right));
    let right_building = BuildingPosition::new_unchecked(base, base.add(up_right), base.add(right));
    assert(left_building == ring_left_spot(n as int));
    assert(right_building == ring_right_spot(n as int));
    let mut row: Vec<BuildingPosition> = Vec::new();
    row.push(right_building);
    let mut i: i8 = 1;
    while i < n
        invariant
            1 <= i <= n <= 127,
            left_building == ring_left_spot(n as int),
            right_building == ring_right_spot(n as int),
            row@.len() == 2 * i - 1,
            forall|k: int| 0 <= k < row@.len() ==> #[trigger] row@[k] == ring_row(n as int)[k],
            forall|k: int| 0 <= k < row@.len() ==> (#[trigger] row@[k]).no_min(),
        decreases n - i,
    {
        let offset = Position::new(i, 0, -i, None).unwrap();
        assert(offset == pos(i as int, 0, -i));
        let l = left_building.add(offset);
        let r = right_building.add(offset);
        row.push(l);
        row.push(r);
        proof {
            let k1 = 2 * i - 1;
            assert((k1 + 1) / 2 == i as int);
            assert(k1 % 2 == 1);
            assert((k1 + 2) / 2 == i as int);
            assert((k1 + 1) % 2 == 0);
        }
        i = i + 1;
    }
    assert(row@ =~= ring_row(n as int));
    row
}

/// The building spots along the edge of a board of radius `n - 1`, going
/// round it side by side (see `ring_spots`).
pub fn building_postions_on_ring(n: i8) -> (res: Vec<BuildingPosition>)
    requires
        1 <= n <= 127,
    ensures
        res@ == ring_spots(n as int),
{
    let row = ring_row_exec(n);
    let w: usize = row.len();
    let ghost gw = 2 * n - 1;
    let mut out: Vec<BuildingPosition> = Vec::new();
    let mut turn: u8 = 0;
    while turn < 6
        invariant
            turn <= 6,
            1 <= n <= 127,
            w == gw,
            w == row@.len(),
            row@ == ring_row(n as int),
            forall|k: int| 0 <= k < row@.len() ==> (#[trigger] row@[k]).no_min(),
            out@.len() == turn * w,
            forall|k: int|
                0 <= k < out@.len() ==> #[trigger] out@[k] == ring_spots(n as int)[k],
        decreases 6 - turn,
    {
        let mut j: usize = 0;
        while j < w
            invariant
                turn < 6,
                j <= w,
                1 <= n <= 127,
                w == gw,
                w == row@.len(),
                row@ == ring_row(n as int),
                forall|k: int| 0 <= k < row@.len() ==> (#[trigger] row@[k]).no_min(),
                out@.len() == turn * w + j,
                forall|k: int|
                    0 <= k < out@.len() ==> #[trigger] out@[k] == ring_spots(n as int)[k],
            decreases w - j,
        {
            let spot = row[j].rotate_right_n(turn);
            proof {
                let k = turn * w + j;
                assert(k % (w as int) == j as int) by (nonlinear_arith)
                    requires
                        k == turn * w + j,
                        0 <= j < w,
                ;
                assert(k / (w as int) == turn as int) by (nonlinear_arith)
                    requires
                        k == turn * w + j,
                        0 <= j < w,
                ;
                assert(k < 6 * w) by (nonlinear_arith)
                    requires
                        k == turn * w + j,
                        0 <= j < w,
                        turn < 6,
                ;
            }
            out.push(spot);
            proof {
                let k = turn * w + j;
                let gw2 = 2 * (n as int) - 1;
                assert(gw2 == w as int);
                assert(k % gw2 == j as int);
                assert(k / gw2 == turn as int);
                assert(ring_spots(n as int)[k] == ring_row(n as int)[k % gw2].rotate_n_spec(
                    (k / gw2) as nat,
                ));
                assert(out@[k] == ring_spots(n as int)[k]);
            }
            j = j + 1;
        }
        proof {
            assert((turn + 1) * w == turn * w + w) by (nonlinear_arith);
        }
        turn = turn + 1;
    }
    assert(out@ =~= ring_spots(n as int));
    out
}

/// The items of `s` whose position in `s` is not a multiple of `m`.
pub open spec fn drop_every(s: Seq<BuildingPosition>, m: int) -> Seq<BuildingPosition>
    decreases s.len(),
{
    if s.len() == 0 {
        s
    } else {
        let kept = drop_every(s.drop_last(), m);
        if (s.len() - 1) % m == 0 {
            kept
        } else {
            kept.push(s.last())
        }
    }
}

fn drop_every_exec(v: &Vec<BuildingPosition>, m: usize) -> (res: Vec<BuildingPosition>)
    requires
        m > 0,
    ensures
        res@ == drop_every(v@, m as int),
{
    let mut out: Vec<BuildingPosition> = Vec::new();
    let mut i: usize = 0;
    while i < v.len()
        invariant
            0 <= i <= v@.len(),
            m > 0,
            out@ == drop_every(v@.take(i as int), m as int),
        decreases v@.len() - i,
    {
        proof {
            assert(v@.take(i + 1).drop_last() =~= v@.take(i as int));
            assert(v@.take(i + 1).last() == v@[i as int]);
        }
        if i % m != 0 {
            out.push(v[i]);
        }
        i = i + 1;
    }
    assert(v@.take(v@.len() as int) =~= v@);
    out
}

/// The spots of the ports on the edge of a board of radius `n - 1`: going
/// round the ring, every tenth spot is left out, then every third of those
/// that remain, so that the rest come in pairs at the ends of one edge.
pub open spec fn port_spots(n: int) -> Seq<BuildingPosition> {
    drop_every(drop_every(ring_spots(n), 10), 3)
}

/// The port spots (see `port_spots`).
pub fn generate_port_positions(n: i8) -> (res: Vec<BuildingPosition>)
    requires
        1 <= n <= 127,
    ensures
        res@ == port_spots(n as int),
{
    let ring = building_postions_on_ring(n);
    let tenths = drop_every_exec(&ring, 10);
    drop_every_exec(&tenths, 3)
}

/// The nine ports of a game, before shuffling.
pub open spec fn standard_ports() -> Seq<Port> {
    seq![
        Port::ThreeForOne,
        Port::ThreeForOne,
        Port::ThreeForOne,
        Port::ThreeForOne,
        Port::TwoForOne(Resource::Wood),
        Port::TwoForOne(Resource::Brick),
        Port::TwoForOne(Resource::Sheep),
        Port::TwoForOne(Resource::Wheat),
        Port::TwoForOne(Resource::Ore),
    ]
}

/// Each port takes two spots in turn: spot `j` gets port `j / 2`, as long
/// as both last.
pub open spec fn paired_ports(spots: Seq<BuildingPosition>, ports: Seq<Port>) -> Seq<
    (BuildingPosition, Port),
> {
    let n = if spots.len() < 2 * ports.len() {
        spots.len() as int
    } else {
        2 * ports.len() as int
    };
    Seq::new(n as nat, |j: int| (spots[j], ports[j / 2]))
}

/// Ports that a shuffle can give: the nine ports in some order, two spots
/// to a port, on the edge of the board of radius two.
pub open spec fn dealt_ports(ports: Seq<(BuildingPosition, Port)>) -> bool {
    exists|order: Seq<Port>|
        order.to_multiset() == standard_ports().to_multiset() && ports == paired_ports(
            port_spots(3),
            order,
        )
}

/// Shuffles the nine ports and puts them on the edge of the board of
/// radius two, two spots to a port.
pub fn generate_ports(rng: &mut Xoshiro256PlusPlus) -> (res: Vec<(BuildingPosition, Port)>)
    ensures
        dealt_ports(res@),
{
    let positions = generate_port_positions(3);
    let mut ports: Vec<Port> = vec![
        Port::ThreeForOne,
        Port::ThreeForOne,
        Port::ThreeForOne,
        Port::ThreeForOne,
        Port::TwoForOne(Resource::Wood),
        Port::TwoForOne(Resource::Brick),
        Port::TwoForOne(Resource::Sheep),
        Port::TwoForOne(Resource::Wheat),
        Port::TwoForOne(Resource::Ore),
    ];
    assert(ports@ =~= standard_ports());
    shuffle(&mut ports, rng);
    proof {
        broadcast use vstd::seq_lib::group_to_multiset_ensures;

        assert(ports@.len() == ports@.to_multiset().len());
        assert(standard_ports().len() == standard_ports().to_multiset().len());
    }
    let n: usize = if positions.len() < 2 * ports.len() {
        positions.len()
    } else {
        2 * ports.len()
    };
    let mut out: Vec<(BuildingPosition, Port)> = Vec::new();
    let mut j: usize = 0;
    while j < n
        invariant
            j <= n,
            n <= positions@.len(),
            n <= 2 * ports@.len(),
            out@.len() == j,
            forall|k: int|
                0 <= k < j ==> #[trigger] out@[k] == (positions@[k], ports@[k / 2]),
        decreases n - j,
    {
        out.push((positions[j], ports[j / 2]));
        j = j + 1;
    }
    assert(out@ =~= paired_ports(port_spots(3), ports@));
    assert(ports@.to_multiset() == standard_ports().to_multiset());
    out
}

/// The four colours, before shuffling.
pub open spec fn standard_colors() -> Seq<CatanColor> {
    seq![CatanColor::White, CatanColor::Green, CatanColor::Red, CatanColor::Blue]
}

/// The number of seats: the player count, at most four.
pub open spec fn seats(player_count: u8) -> int {
    if player_count < 4 {
        player_count as int
    } else {
        4
    }
}

/// The last seat, by handle, that is played on this machine.
pub open spec fn last_local(n: int, local_players: Seq<usize>) -> Option<int>
    decreases n,
{
    if n <= 0 {
        None
    } else if local_players.contains((n - 1) as usize) {
        Some(n - 1)
    } else {
        last_local(n - 1, local_players)
    }
}

/// Deals the shuffled colours to the seats: seat `i` (handle `i`, the
/// entity `entities[i]`) gets colour `order[i]` and a fresh player.
/// Returns the seats, the players, and the last seat played on this
/// machine.
pub open spec fn pieces_spec(
    order: Seq<CatanColor>,
    player_count: u8,
    entities: Seq<u64>,
    local_players: Seq<usize>,
) -> (Seq<CatanColorRef>, Seq<Player>, Option<CatanColorRef>) {
    let n = seats(player_count);
    let refs = Seq::new(
        n as nat,
        |i: int| CatanColorRef { color: order[i], entity: entities[i], handle: PlayerHandle(i as usize) },
    );
    let players = Seq::new(
        n as nat,
        |i: int| Player::new_spec(entities[i], PlayerHandle(i as usize), order[i]),
    );
    let local = match last_local(n, local_players) {
        Some(i) => Some(refs[i]),
        None => None,
    };
    (refs, players, local)
}

/// Seats that a shuffle of the colours can give (see `pieces_spec`).
pub open spec fn dealt_pieces(
    refs: Seq<CatanColorRef>,
    players: Seq<Player>,
    local: Option<CatanColorRef>,
    player_count: u8,
    entities: Seq<u64>,
    local_players: Seq<usize>,
) -> bool {
    exists|order: Seq<CatanColor>|
        order.to_multiset() == standard_colors().to_multiset() && (refs, players, local)
            == pieces_spec(order, player_count, entities, local_players)
}

/// Shuffles the four colours and seats `player_count` players (at most
/// four) in that order, each on the entity reserved for the seat.
pub fn generate_pieces(
    player_count: u8,
    entities: &Vec<u64>,
    local_players: &Vec<usize>,
    rng: &mut Xoshiro256PlusPlus,
) -> (res: (Vec<CatanColorRef>, Vec<Player>, Option<CatanColorRef>))
    requires
        entities@.len() >= seats(player_count),
    ensures
        dealt_pieces(res.0@, res.1@, res.2, player_count, entities@, local_players@),
{
    let mut colors: Vec<CatanColor> = vec![
        CatanColor::White,
        CatanColor::Green,
        CatanColor::Red,
        CatanColor::Blue,
    ];
    assert(colors@ =~= standard_colors());
    shuffle(&mut colors, rng);
    proof {
        broadcast use vstd::seq_lib::group_to_multiset_ensures;

        assert(colors@.len() == colors@.to_multiset().len());
        assert(standard_colors().len() == standard_colors().to_multiset().len());
    }
    let n: usize = if player_count < 4 {
        player_count as usize
    } else {
        4
    };
    let ghost spec = pieces_spec(colors@, player_count, entities@, local_players@);
    let mut refs: Vec<CatanColorRef> = Vec::new();
    let mut players: Vec<Player> = Vec::new();
    let mut local: Option<CatanColorRef> = None;
    let mut handle: usize = 0;
    while handle < n
        invariant
            n == seats(player_count),
            colors@.len() == 4,
            entities@.len() >= n,
            handle <= n,
            spec == pieces_spec(colors@, player_count, entities@, local_players@),
            refs@ =~= spec.0.take(handle as int),
            players@ =~= spec.1.take(handle as int),
            local == match last_local(handle as int, local_players@) {
                Some(i) => Some(spec.0[i]),
                None => None,
            },
        decreases n - handle,
    {
        let color = colors[handle];
        let entity = entities[handle];
        let catan_color_ref = CatanColorRef { color, entity, handle: PlayerHandle(handle) };
        refs.push(catan_color_ref);
        players.push(Player::new(entity, PlayerHandle(handle), color));
        let mut j: usize = 0;
        let mut is_local = false;
        while j < local_players.len()
            invariant
                j <= local_players@.len(),
                is_local <==> local_players@.take(j as int).contains(handle),
            decreases local_players@.len() - j,
        {
            proof {
                assert(local_players@.take(j + 1) =~= local_players@.take(j as int).push(
                    local_players@[j as int],
                ));
            }
            let here = local_players[j] == handle;
            if here {
                is_local = true;
            }
            proof {
                let t = local_players@.take(j + 1);
                if here {
                    assert(t[j as int] == handle);
                }
                if t.contains(handle) && !here {
                    let k = choose|k: int| 0 <= k < t.len() && t[k] == handle;
                    assert(local_players@.take(j as int)[k] == handle);
                }
            }
            j = j + 1;
        }
        assert(local_players@.take(local_players@.len() as int) =~= local_players@);
        if is_local {
            local = Some(catan_color_ref);
        }
        handle = handle + 1;
    }
    assert(refs@ =~= spec.0);
    assert(players@ =~= spec.1);
    assert(colors@.to_multiset() == standard_colors().to_multiset());
    (refs, players, local)
}

/// A hexagon kind with the place it stands on.
pub open spec fn place(t: Tile) -> (Hexagon, Position) {
    (t.0, t.2)
}

/// The hexagons of the tiles, each with its place.
pub open spec fn places(s: Seq<Tile>) -> Multiset<(Hexagon, Position)> {
    s.map_values(|t: Tile| place(t)).to_multiset()
}

/// The number tokens of the tiles.
pub open spec fn numbers(s: Seq<Tile>) -> Multiset<Number> {
    s.map_values(|t: Tile| t.1).to_multiset()
}

proof fn lemma_push(s: Seq<Tile>, x: Tile)
    ensures
        places(s.push(x)) == places(s).insert(place(x)),
        numbers(s.push(x)) == numbers(s).insert(x.1),
{
    broadcast use vstd::seq_lib::group_to_multiset_ensures;

    assert(s.push(x).map_values(|t: Tile| place(t)) =~= s.map_values(|t: Tile| place(t)).push(
        place(x),
    ));
    assert(s.push(x).map_values(|t: Tile| t.1) =~= s.map_values(|t: Tile| t.1).push(x.1));
}

proof fn lemma_update(s: Seq<Tile>, i: int, x: Tile)
    requires
        0 <= i < s.len(),
    ensures
        places(s.update(i, x)) == places(s).insert(place(x)).remove(place(s[i])),
        numbers(s.update(i, x)) == numbers(s).insert(x.1).remove(s[i].1),
{
    broadcast use vstd::seq_lib::group_to_multiset_ensures;

    assert(s.update(i, x).map_values(|t: Tile| place(t)) =~= s.map_values(|t: Tile| place(t)).update(
        i,
        place(x),
    ));
    assert(s.update(i, x).map_values(|t: Tile| t.1) =~= s.map_values(|t: Tile| t.1).update(i, x.1));
}

proof fn lemma_concat(a: Seq<Tile>, b: Seq<Tile>)
    ensures
        places(a + b) == places(a).add(places(b)),
        numbers(a + b) == numbers(a).add(numbers(b)),
{
    broadcast use vstd::seq_lib::lemma_multiset_commutative;

    assert((a + b).map_values(|t: Tile| place(t)) =~= a.map_values(|t: Tile| place(t))
        + b.map_values(|t: Tile| place(t)));
    assert((a + b).map_values(|t: Tile| t.1) =~= a.map_values(|t: Tile| t.1) + b.map_values(
        |t: Tile| t.1,
    ));
}

proof fn lemma_drop_last(s: Seq<Tile>)
    requires
        s.len() > 0,
    ensures
        places(s) == places(s.drop_last()).insert(place(s.last())),
        numbers(s) == numbers(s.drop_last()).insert(s.last().1),
{
    lemma_push(s.drop_last(), s.last());
    assert(s.drop_last().push(s.last()) =~= s);
}

proof fn lemma_swap_remove(s: Seq<Tile>, i: int)
    requires
        0 <= i < s.len(),
    ensures
        places(s) == places(s.update(i, s.last()).drop_last()).insert(place(s[i])),
        numbers(s) == numbers(s.update(i, s.last()).drop_last()).insert(s[i].1),
{
    broadcast use vstd::multiset::group_multiset_axioms;

    let u = s.update(i, s.last());
    lemma_update(s, i, s.last());
    lemma_drop_last(u);
    assert(u.last() == s.last());
    let ps = s.map_values(|t: Tile| place(t));
    let ns = s.map_values(|t: Tile| t.1);
    assert(ps[i] == place(s[i]));
    assert(ns[i] == s[i].1);
    vstd::seq_lib::to_multiset_contains(ps, place(s[i]));
    vstd::seq_lib::to_multiset_contains(ns, s[i].1);
    let pm = places(u.drop_last());
    let nm = numbers(u.drop_last());
    assert forall|y: (Hexagon, Position)| #[trigger] places(s).count(y) == pm.insert(
        place(s[i]),
    ).count(y) by {
        assert(places(u).count(y) == pm.insert(place(s.last())).count(y));
    }
    assert forall|y: Number| #[trigger] numbers(s).count(y) == nm.insert(s[i].1).count(y) by {
        assert(numbers(u).count(y) == nm.insert(s.last().1).count(y));
    }
    assert(places(s) =~= pm.insert(place(s[i])));
    assert(numbers(s) =~= nm.insert(s[i].1));
}

proof fn lemma_empty()
    ensures
        places(Seq::empty()) == Multiset::<(Hexagon, Position)>::empty(),
        numbers(Seq::empty()) == Multiset::<Number>::empty(),
{
    let a = Seq::<Tile>::empty().map_values(|t: Tile| place(t));
    let b = Seq::<Tile>::empty().map_values(|t: Tile| t.1);
    vstd::seq_lib::to_multiset_len(a);
    vstd::seq_lib::to_multiset_len(b);
    vstd::multiset::lemma_multiset_empty_len(a.to_multiset());
    vstd::multiset::lemma_multiset_empty_len(b.to_multiset());
}

/// Coordinates that can move one step in any direction.
pub open spec fn near_ok(p: Position) -> bool {
    -127 <= p.q <= 126 && -127 <= p.r <= 126 && -127 <= p.s <= 126
}

/// Every tile's hexagon can move one step in any direction.
pub open spec fn all_near(s: Seq<Tile>) -> bool {
    forall|j: int| 0 <= j < s.len() ==> near_ok(#[trigger] s[j].2)
}

/// Whether `p1` is one step from `p`.
pub open spec fn touches_spec(p: Position, p1: Position) -> bool {
    exists|i: int| 0 <= i < 6 && p.add_spec(#[trigger] direction_vectors_spec()[i]) == p1
}

fn touches(p: Position, p1: Position) -> (res: bool)
    requires
        near_ok(p),
    ensures
        res == touches_spec(p, p1),
{
    let dirs = Position::direction_vectors();
    let mut i: usize = 0;
    while i < 6
        invariant
            0 <= i <= 6,
            near_ok(p),
            dirs@ == direction_vectors_spec(),
            forall|j: int| 0 <= j < i ==> p.add_spec(#[trigger] direction_vectors_spec()[j]) != p1,
        decreases 6 - i,
    {
        if p.add(dirs[i]) == p1 {
            return true;
        }
        i = i + 1;
    }
    false
}

/// What a partition of tiles asks of each tile.
#[derive(Clone, Copy, Debug)]
pub enum TileTest {
    /// The tile is one step from the hexagon.
    Touches(Position),
    /// The tile has a number token.
    HasNumber,
    /// The tile has a red number: a six or an eight.
    Red,
}

/// Whether tile `t` passes the test.
pub open spec fn passes(test: TileTest, t: Tile) -> bool {
    match test {
        TileTest::Touches(p) => touches_spec(p, t.2),
        TileTest::HasNumber => t.1 != Number::Blank,
        TileTest::Red => t.1 == Number::Number(8) || t.1 == Number::Number(6),
    }
}

/// Whether the test can be run (a step from the hexagon stays in range).
pub open spec fn test_ok(test: TileTest) -> bool {
    match test {
        TileTest::Touches(p) => near_ok(p),
        _ => true,
    }
}

fn run_test(test: TileTest, t: Tile) -> (res: bool)
    requires
        test_ok(test),
    ensures
        res == passes(test, t),
{
    match test {
        TileTest::Touches(p) => touches(p, t.2),
        TileTest::HasNumber => t.1 != Number::Blank,
        TileTest::Red => t.1 == Number::Number(8) || t.1 == Number::Number(6),
    }
}

/// The tiles of `s` that pass the test, and the others, each in order.
pub fn partition_tiles(s: &Vec<Tile>, test: TileTest) -> (res: (Vec<Tile>, Vec<Tile>))
    requires
        test_ok(test),
    ensures
        res.0@ == s@.filter(|t: Tile| passes(test, t)),
        res.1@ == s@.filter(|t: Tile| !passes(test, t)),
        places(res.0@).add(places(res.1@)) == places(s@),
        numbers(res.0@).add(numbers(res.1@)) == numbers(s@),
        res.0@.len() + res.1@.len() == s@.len(),
        all_near(s@) ==> all_near(res.0@) && all_near(res.1@),
{
    broadcast use vstd::multiset::group_multiset_axioms;

    let ghost f = |t: Tile| passes(test, t);
    let ghost g = |t: Tile| !passes(test, t);
    let mut yes: Vec<Tile> = Vec::new();
    let mut no: Vec<Tile> = Vec::new();
    proof {
        lemma_empty();
        assert(s@.take(0) =~= Seq::<Tile>::empty());
        assert(Seq::<Tile>::empty().filter(f) =~= Seq::<Tile>::empty());
        assert(Seq::<Tile>::empty().filter(g) =~= Seq::<Tile>::empty());
        assert(Multiset::<(Hexagon, Position)>::empty().add(Multiset::empty()) =~= Multiset::empty());
        assert(Multiset::<Number>::empty().add(Multiset::empty()) =~= Multiset::empty());
    }
    let mut i: usize = 0;
    while i < s.len()
        invariant
            0 <= i <= s@.len(),
            test_ok(test),
            f == (|t: Tile| passes(test, t)),
            g == (|t: Tile| !passes(test, t)),
            yes@ == s@.take(i as int).filter(f),
            no@ == s@.take(i as int).filter(g),
            places(yes@).add(places(no@)) == places(s@.take(i as int)),
            numbers(yes@).add(numbers(no@)) == numbers(s@.take(i as int)),
            yes@.len() + no@.len() == i,
            all_near(s@) ==> all_near(yes@) && all_near(no@),
        decreases s@.len() - i,
    {
        let t = s[i];
        proof {
            reveal_with_fuel(Seq::filter, 1);
            assert(s@.take(i + 1).drop_last() =~= s@.take(i as int));
            assert(s@.take(i + 1).last() == t);
            lemma_drop_last(s@.take(i + 1));
        }
        if run_test(test, t) {
            proof {
                lemma_push(yes@, t);
            }
            yes.push(t);
        } else {
            proof {
                lemma_push(no@, t);
            }
            no.push(t);
        }
        proof {
            assert(places(yes@).add(places(no@)) =~= places(s@.take(i + 1)));
            assert(numbers(yes@).add(numbers(no@)) =~= numbers(s@.take(i + 1)));
        }
        i = i + 1;
    }
    assert(s@.take(s@.len() as int) =~= s@);
    (yes, no)
}

/// Gives the red tile `reds[k]` the place (hexagon and position) of the
/// normal tile that `draw` picks, `normal[draw % len]` (the length taken as
/// a byte), and that tile the red tile's place: the two numbers change
/// places. The picked tile leaves `normal` (the last one takes its slot)
/// and goes to `used`. Nothing changes, and `false` comes back, when the
/// length taken as a byte is zero.
pub fn swap_red_away(
    reds: &mut Vec<Tile>,
    k: usize,
    normal: &mut Vec<Tile>,
    used: &mut Vec<Tile>,
    draw: u8,
) -> (ok: bool)
    requires
        k < old(reds)@.len(),
    ensures
        ok == ((old(normal)@.len() as u8) != 0),
        ok ==> ({
            let idx = (draw % (old(normal)@.len() as u8)) as int;
            let chosen = old(normal)@[idx];
            let red = old(reds)@[k as int];
            &&& final(reds)@ == old(reds)@.update(k as int, (chosen.0, red.1, chosen.2))
            &&& final(normal)@ == old(normal)@.update(idx, old(normal)@.last()).drop_last()
            &&& final(used)@ == old(used)@.push((red.0, chosen.1, red.2))
        }),
        !ok ==> final(reds)@ == old(reds)@ && final(normal)@ == old(normal)@ && final(used)@
            == old(used)@,
{
    let len: usize = normal.len();
    let len8: u8 = len as u8;
    if len8 == 0 {
        return false;
    }
    let idx: usize = (draw % len8) as usize;
    assert(len8 as usize <= len) by (bit_vector)
        requires
            len8 == len as u8,
    ;
    let chosen = normal.swap_remove(idx);
    let red = reds[k];
    reds.set(k, (chosen.0, red.1, chosen.2));
    used.push((red.0, chosen.1, red.2));
    true
}

/// No two of the tiles stand one step apart.
pub open spec fn apart(reds: Seq<Tile>) -> bool {
    forall|i: int, j: int|
        #![trigger reds[i], reds[j]]
        0 <= i < reds.len() && 0 <= j < reds.len() && i != j ==> !touches_spec(reds[i].2, reds[j].2)
}

/// The tiles as `fix_numbers` sets them aside when no red tile has to
/// move: the last red tile, the normal tiles next to it (in order), then
/// the same for the red tiles before it with the normal tiles left, and
/// last the normal tiles that no red tile touches.
pub open spec fn settle(reds: Seq<Tile>, normal: Seq<Tile>) -> Seq<Tile>
    decreases reds.len(),
{
    if reds.len() == 0 {
        normal
    } else {
        let test = TileTest::Touches(reds.last().2);
        seq![reds.last()] + normal.filter(|t: Tile| passes(test, t)) + settle(
            reds.drop_last(),
            normal.filter(|t: Tile| !passes(test, t)),
        )
    }
}

/// Whether the tile carries a red number (a six or an eight).
pub open spec fn is_red(t: Tile) -> bool {
    passes(TileTest::Red, t)
}

/// No tile of `s` carries a red number.
pub open spec fn no_red(s: Seq<Tile>) -> bool {
    forall|i: int| 0 <= i < s.len() ==> !is_red(#[trigger] s[i])
}

/// No two tiles of `s` that carry red numbers stand one step apart.
pub open spec fn reds_apart(s: Seq<Tile>) -> bool {
    forall|i: int, j: int|
        #![trigger s[i], s[j]]
        0 <= i < s.len() && 0 <= j < s.len() && i != j && is_red(s[i]) && is_red(s[j])
            ==> !touches_spec(s[i].2, s[j].2)
}

/// When `u` carries a red number, `t` does not stand one step from it.
pub open spec fn far(u: Tile, t: Tile) -> bool {
    is_red(u) ==> !touches_spec(u.2, t.2) && !touches_spec(t.2, u.2)
}

/// No tile of `b` stands one step from a red tile of `a`.
pub open spec fn clear_of(a: Seq<Tile>, b: Seq<Tile>) -> bool {
    forall|i: int, j: int|
        #![trigger a[i], b[j]]
        0 <= i < a.len() && 0 <= j < b.len() ==> far(a[i], b[j])
}

/// Being one step apart goes both ways.
proof fn lemma_touches_sym(a: Position, b: Position)
    requires
        near_ok(a),
        touches_spec(a, b),
    ensures
        touches_spec(b, a),
{
    let d = direction_vectors_spec();
    let i = choose|i: int| 0 <= i < 6 && a.add_spec(#[trigger] d[i]) == b;
    let j = if i < 3 {
        i + 3
    } else {
        i - 3
    };
    assert(b.add_spec(d[j]) == a);
}

proof fn lemma_clear_sub(a: Seq<Tile>, b: Seq<Tile>, c: Seq<Tile>)
    requires
        clear_of(a, b),
        forall|j: int| 0 <= j < c.len() ==> b.contains(#[trigger] c[j]),
    ensures
        clear_of(a, c),
{
    assert forall|i: int, j: int| 0 <= i < a.len() && 0 <= j < c.len() implies far(
        #[trigger] a[i],
        #[trigger] c[j],
    ) by {
        assert(b.contains(c[j]));
        let k = choose|k: int| 0 <= k < b.len() && b[k] == c[j];
        assert(far(a[i], b[k]));
    }
}

proof fn lemma_no_red_sub(b: Seq<Tile>, c: Seq<Tile>)
    requires
        no_red(b),
        forall|j: int| 0 <= j < c.len() ==> b.contains(#[trigger] c[j]),
    ensures
        no_red(c),
{
    assert forall|j: int| 0 <= j < c.len() implies !is_red(#[trigger] c[j]) by {
        assert(b.contains(c[j]));
        let k = choose|k: int| 0 <= k < b.len() && b[k] == c[j];
        assert(!is_red(b[k]));
    }
}

/// Tiles without red numbers added at the end keep the red tiles apart and
/// add nothing to watch.
proof fn lemma_add_plain(a: Seq<Tile>, extra: Seq<Tile>, b: Seq<Tile>)
    requires
        reds_apart(a),
        clear_of(a, b),
        no_red(extra),
    ensures
        reds_apart(a + extra),
        clear_of(a + extra, b),
{
    let ae = a + extra;
    assert forall|i: int, j: int|
        0 <= i < ae.len() && 0 <= j < ae.len() && i != j && is_red(#[trigger] ae[i]) && is_red(
            #[trigger] ae[j],
        ) implies !touches_spec(ae[i].2, ae[j].2) by {
        if i >= a.len() {
            assert(!is_red(extra[i - a.len()]));
        }
        if j >= a.len() {
            assert(!is_red(extra[j - a.len()]));
        }
        assert(ae[i] == a[i] && ae[j] == a[j]);
    }
    assert forall|i: int, j: int| 0 <= i < ae.len() && 0 <= j < b.len() implies far(
        #[trigger] ae[i],
        #[trigger] b[j],
    ) by {
        if i >= a.len() {
            assert(!is_red(extra[i - a.len()]));
        } else {
            assert(ae[i] == a[i]);
        }
    }
}

/// The red tile taken from the end of `before` joins the set-aside tiles
/// `used`, with the normal tiles next to it; what is left of the normal
/// tiles is clear of every red tile set aside, and the red tiles still
/// waiting are clear of every red tile set aside before.
proof fn lemma_take_red(used: Seq<Tile>, before: Seq<Tile>, normal: Seq<Tile>)
    requires
        before.len() > 0,
        all_near(before),
        all_near(normal),
        reds_apart(used),
        clear_of(used, before),
        clear_of(used, normal),
        no_red(normal),
    ensures
        ({
            let red = before.last();
            let p = red.2;
            let touching = normal.filter(|t: Tile| passes(TileTest::Touches(p), t));
            let rest = normal.filter(|t: Tile| !passes(TileTest::Touches(p), t));
            let u2 = used.push(red) + touching;
            &&& reds_apart(u2)
            &&& clear_of(u2, rest)
            &&& no_red(rest)
            &&& u2[used.len() as int] == red
            &&& forall|i: int, j: int|
                #![trigger u2[i], before.drop_last()[j]]
                0 <= i < u2.len() && i != used.len() && 0 <= j < before.len() - 1 ==> far(
                    u2[i],
                    before.drop_last()[j],
                )
        }),
{
    broadcast use vstd::seq_lib::group_filter_ensures;

    let red = before.last();
    let p = red.2;
    assert(near_ok(before[before.len() - 1].2));
    let f = |t: Tile| passes(TileTest::Touches(p), t);
    let g = |t: Tile| !passes(TileTest::Touches(p), t);
    let touching = normal.filter(f);
    let rest = normal.filter(g);
    let u1 = used.push(red);
    assert forall|j: int| 0 <= j < touching.len() implies normal.contains(#[trigger] touching[j]) by {
        assert(touching.contains(touching[j]));
        normal.lemma_filter_contains_rev(f, touching[j]);
    }
    assert forall|j: int| 0 <= j < rest.len() implies normal.contains(#[trigger] rest[j]) by {
        assert(rest.contains(rest[j]));
        normal.lemma_filter_contains_rev(g, rest[j]);
    }
    lemma_no_red_sub(normal, touching);
    lemma_no_red_sub(normal, rest);
    lemma_clear_sub(used, normal, rest);
    // the red tile is clear of the red tiles set aside
    assert forall|i: int, j: int|
        0 <= i < u1.len() && 0 <= j < u1.len() && i != j && is_red(#[trigger] u1[i]) && is_red(
            #[trigger] u1[j],
        ) implies !touches_spec(u1[i].2, u1[j].2) by {
        if i == used.len() {
            assert(far(used[j], before[before.len() - 1]));
        } else if j == used.len() {
            assert(far(used[i], before[before.len() - 1]));
        } else {
            assert(u1[i] == used[i] && u1[j] == used[j]);
        }
    }
    // what is left of the normal tiles is clear of it
    assert forall|i: int, j: int| 0 <= i < u1.len() && 0 <= j < rest.len() implies far(
        #[trigger] u1[i],
        #[trigger] rest[j],
    ) by {
        if i == used.len() {
            assert(g(rest[j]));
            assert(normal.contains(rest[j]));
            let k = choose|k: int| 0 <= k < normal.len() && normal[k] == rest[j];
            assert(near_ok(normal[k].2));
            if touches_spec(rest[j].2, p) {
                lemma_touches_sym(rest[j].2, p);
            }
        } else {
            assert(u1[i] == used[i]);
        }
    }
    lemma_add_plain(u1, touching, rest);
    let u2 = u1 + touching;
    assert(u2[used.len() as int] == red);
    assert forall|i: int, j: int|
        0 <= i < u2.len() && i != used.len() && 0 <= j < before.len() - 1 implies far(
        #[trigger] u2[i],
        #[trigger] before.drop_last()[j],
    ) by {
        assert(before.drop_last()[j] == before[j]);
        if i > used.len() {
            assert(u2[i] == touching[i - used.len() - 1]);
            assert(!is_red(touching[i - used.len() - 1]));
        } else {
            assert(u2[i] == used[i]);
            assert(far(used[i], before[j]));
        }
    }
}

/// A red tile waiting next to the one just set aside swaps places with the
/// normal tile `n0[idx]`, which is set aside at the red tile's old place:
/// the red tiles set aside stay apart and clear of everything waiting.
proof fn lemma_swap_step(
    u0: Seq<Tile>,
    r0: Seq<Tile>,
    n0: Seq<Tile>,
    k: int,
    idx: int,
    r_idx: int,
    red: Tile,
)
    requires
        0 <= k < r0.len(),
        0 <= idx < n0.len(),
        no_red(n0),
        reds_apart(u0),
        clear_of(u0, n0),
        0 <= r_idx < u0.len(),
        u0[r_idx] == red,
        forall|i: int, j: int|
            #![trigger u0[i], r0[j]]
            0 <= i < u0.len() && i != r_idx && 0 <= j < r0.len() ==> far(u0[i], r0[j]),
        forall|j: int| 0 <= j < k ==> far(red, #[trigger] r0[j]),
    ensures
        ({
            let c = n0[idx];
            let rk = r0[k];
            let r1 = r0.update(k, (c.0, rk.1, c.2));
            let n1 = n0.update(idx, n0.last()).drop_last();
            let u1 = u0.push((rk.0, c.1, rk.2));
            &&& no_red(n1)
            &&& reds_apart(u1)
            &&& clear_of(u1, n1)
            &&& r_idx < u1.len() && u1[r_idx] == red
            &&& forall|i: int, j: int|
                #![trigger u1[i], r1[j]]
                0 <= i < u1.len() && i != r_idx && 0 <= j < r1.len() ==> far(u1[i], r1[j])
            &&& forall|j: int| 0 <= j < k + 1 ==> far(red, #[trigger] r1[j])
        }),
{
    let c = n0[idx];
    let rk = r0[k];
    let r1 = r0.update(k, (c.0, rk.1, c.2));
    let n1 = n0.update(idx, n0.last()).drop_last();
    let x = (rk.0, c.1, rk.2);
    let u1 = u0.push(x);
    assert forall|j: int| 0 <= j < n1.len() implies n0.contains(#[trigger] n1[j]) by {
        if j == idx {
            assert(n0[n0.len() - 1] == n1[j]);
        } else {
            assert(n0[j] == n1[j]);
        }
    }
    lemma_no_red_sub(n0, n1);
    lemma_clear_sub(u0, n0, n1);
    assert(!is_red(n0[idx]));
    assert(no_red(seq![x]));
    lemma_add_plain(u0, seq![x], n1);
    assert(u0 + seq![x] =~= u1);
    assert(far(u0[r_idx], n0[idx]));
    assert forall|i: int, j: int| 0 <= i < u1.len() && i != r_idx && 0 <= j < r1.len() implies far(
        #[trigger] u1[i],
        #[trigger] r1[j],
    ) by {
        if i == u0.len() {
            assert(!is_red(x));
        } else {
            assert(u1[i] == u0[i]);
            if j == k {
                assert(far(u0[i], n0[idx]));
            } else {
                assert(r1[j] == r0[j]);
                assert(far(u0[i], r0[j]));
            }
        }
    }
    assert forall|j: int| 0 <= j < k + 1 implies far(red, #[trigger] r1[j]) by {
        if j < k {
            assert(r1[j] == r0[j]);
        }
    }
}

/// The first draw, or zero when none is left.
pub open spec fn next_draw(draws: Seq<u8>) -> u8 {
    if draws.len() > 0 {
        draws[0]
    } else {
        0
    }
}

/// The draws after the first.
pub open spec fn rest_draws(draws: Seq<u8>) -> Seq<u8> {
    if draws.len() > 0 {
        draws.drop_first()
    } else {
        draws
    }
}

/// What `fix_numbers` does to the red tiles waiting from index `k` on, once
/// the red tile at `p` was set aside: each one next to `p` takes the place
/// of the normal tile that the next draw picks (see `swap_red_away`), which
/// is set aside; `None` when a red tile must move and the normal tiles run
/// out. Gives the tiles set aside, waiting and normal, and the draws left.
pub open spec fn swaps(
    used: Seq<Tile>,
    reds: Seq<Tile>,
    normal: Seq<Tile>,
    p: Position,
    k: int,
    draws: Seq<u8>,
) -> Option<(Seq<Tile>, Seq<Tile>, Seq<Tile>, Seq<u8>)>
    decreases reds.len() - k,
{
    if k < 0 || k >= reds.len() {
        Some((used, reds, normal, draws))
    } else if touches_spec(p, reds[k].2) {
        let len8 = normal.len() as u8;
        if len8 == 0 {
            None
        } else {
            let idx = (next_draw(draws) % len8) as int;
            let c = normal[idx];
            let rk = reds[k];
            swaps(
                used.push((rk.0, c.1, rk.2)),
                reds.update(k, (c.0, rk.1, c.2)),
                normal.update(idx, normal.last()).drop_last(),
                p,
                k + 1,
                rest_draws(draws),
            )
        }
    } else {
        swaps(used, reds, normal, p, k + 1, draws)
    }
}

/// The swaps move red tiles about but keep how many wait.
pub proof fn lemma_swaps_len(
    used: Seq<Tile>,
    reds: Seq<Tile>,
    normal: Seq<Tile>,
    p: Position,
    k: int,
    draws: Seq<u8>,
)
    ensures
        swaps(used, reds, normal, p, k, draws) matches Some(st) ==> st.1.len() == reds.len(),
    decreases reds.len() - k,
{
    if k < 0 || k >= reds.len() {
    } else if touches_spec(p, reds[k].2) {
        let len8 = normal.len() as u8;
        if len8 != 0 {
            let idx = (next_draw(draws) % len8) as int;
            let c = normal[idx];
            let rk = reds[k];
            lemma_swaps_len(
                used.push((rk.0, c.1, rk.2)),
                reds.update(k, (c.0, rk.1, c.2)),
                normal.update(idx, normal.last()).drop_last(),
                p,
                k + 1,
                rest_draws(draws),
            );
        }
    } else {
        lemma_swaps_len(used, reds, normal, p, k + 1, draws);
    }
}

/// The tiles `fix_numbers` gives for the draws `draws` (taken in order,
/// one for each red tile that must move): the last red tile waiting is set
/// aside with the normal tiles next to it, the red tiles next to it move
/// (see `swaps`), and so on until no red tile waits; then the normal tiles
/// left follow. `None` when the normal tiles run out.
pub open spec fn settle_drawn(
    used: Seq<Tile>,
    reds: Seq<Tile>,
    normal: Seq<Tile>,
    draws: Seq<u8>,
) -> Option<Seq<Tile>>
    decreases reds.len(),
{
    if reds.len() == 0 {
        Some(used + normal)
    } else {
        let red = reds.last();
        let test = TileTest::Touches(red.2);
        let s = swaps(
            used.push(red) + normal.filter(|t: Tile| passes(test, t)),
            reds.drop_last(),
            normal.filter(|t: Tile| !passes(test, t)),
            red.2,
            0,
            draws,
        );
        match s {
            None => None,
            Some(st) => {
                proof {
                    lemma_swaps_len(
                        used.push(red) + normal.filter(|t: Tile| passes(test, t)),
                        reds.drop_last(),
                        normal.filter(|t: Tile| !passes(test, t)),
                        red.2,
                        0,
                        draws,
                    );
                }
                settle_drawn(st.0, st.1, st.2, st.3)
            },
        }
    }
}

/// The tiles of a result, if any.
pub open spec fn opt_tiles(res: Option<Vec<Tile>>) -> Option<Seq<Tile>> {
    match res {
        Some(v) => Some(v@),
        None => None,
    }
}

/// What the rest of `fix_numbers` gives once the swaps for the red tile at
/// `p` have reached index `k`.
pub open spec fn after_swaps(
    used: Seq<Tile>,
    reds: Seq<Tile>,
    normal: Seq<Tile>,
    p: Position,
    k: int,
    draws: Seq<u8>,
) -> Option<Seq<Tile>> {
    match swaps(used, reds, normal, p, k, draws) {
        None => None,
        Some(st) => settle_drawn(st.0, st.1, st.2, st.3),
    }
}

/// Moves the red numbers (six and eight) away from each other. Red tiles
/// are taken from the end of `reds`; the taken tile and the normal tiles
/// next to it are set aside; every red tile still waiting next to it swaps
/// places with a normal tile picked at random (see `swap_red_away`).
/// The set-aside tiles come first in the result, the normal tiles left
/// after them. No place and no number is lost or made up. When no two red
/// tiles touch, nothing is drawn and nothing moves: the result is the
/// tiles set aside in turn (see `settle`). Otherwise whether the red
/// numbers end up apart rests on the draws, and is not stated; the result
/// is `None` when a red tile must move and no normal tile is left to take.
#[verifier::loop_isolation(false)]
pub fn fix_numbers(reds: Vec<Tile>, normal: Vec<Tile>, rng: &mut Xoshiro256PlusPlus) -> (res: Option<
    Vec<Tile>,
>)
    requires
        all_near(reds@),
        all_near(normal@),
    ensures
        res matches Some(v) ==> places(v@) == places(reds@ + normal@) && numbers(v@) == numbers(
            reds@ + normal@,
        ) && v@.len() == reds@.len() + normal@.len(),
        apart(reds@) ==> (res matches Some(v) && v@ == settle(reds@, normal@)),
        no_red(normal@) ==> (res matches Some(v) ==> reds_apart(v@)),
        exists|draws: Seq<u8>| #[trigger] settle_drawn(Seq::empty(), reds@, normal@, draws) == opt_tiles(res),
{
    broadcast use vstd::multiset::group_multiset_axioms;

    let ghost reds_in = reds@;
    let ghost normal_in = normal@;
    let ghost mut drawn: Seq<u8> = Seq::empty();
    let ghost clear = no_red(normal@);
    let ghost all_apart = apart(reds@);
    let ghost target = settle(reds@, normal@);
    let ghost total_p = places(reds@ + normal@);
    let ghost total_n = numbers(reds@ + normal@);
    let ghost total_len = reds@.len() + normal@.len();
    proof {
        lemma_concat(reds@, normal@);
        lemma_empty();
    }
    let mut reds = reds;
    let mut normal = normal;
    let mut used: Vec<Tile> = Vec::new();
    assert(places(used@).add(places(reds@)).add(places(normal@)) =~= total_p);
    assert(numbers(used@).add(numbers(reds@)).add(numbers(normal@)) =~= total_n);
    assert(used@ + settle(reds@, normal@) =~= target);
    assert forall|f: Seq<u8>| #[trigger] settle_drawn(Seq::empty(), reds_in, normal_in, drawn + f)
        == settle_drawn(used@, reds@, normal@, f) by {
        assert(drawn + f =~= f);
    }
    while reds.len() > 0
        invariant
            forall|f: Seq<u8>| #[trigger] settle_drawn(Seq::empty(), reds_in, normal_in, drawn + f)
                == settle_drawn(used@, reds@, normal@, f),
            all_near(reds@),
            all_near(normal@),
            all_apart ==> apart(reds@) && used@ + settle(reds@, normal@) == target,
            clear ==> no_red(normal@) && reds_apart(used@) && clear_of(used@, reds@) && clear_of(
                used@,
                normal@,
            ),
            places(used@).add(places(reds@)).add(places(normal@)) == total_p,
            numbers(used@).add(numbers(reds@)).add(numbers(normal@)) == total_n,
            used@.len() + reds@.len() + normal@.len() == total_len,
        decreases reds@.len(),
    {
        proof {
            lemma_drop_last(reds@);
        }
        let ghost before = reds@;
        let red = reds.pop().unwrap();
        assert(reds@ =~= before.drop_last());
        assert(near_ok(before[before.len() - 1].2));
        let p = red.2;
        let ghost u_before = used@;
        let ghost n_before = normal@;
        let ghost r_idx = u_before.len() as int;
        proof {
            if clear {
                lemma_take_red(u_before, before, n_before);
            }
            lemma_push(used@, red);
            if all_apart {
                assert forall|i: int, j: int|
                    0 <= i < reds@.len() && 0 <= j < reds@.len() && i != j implies !touches_spec(
                    #[trigger] reds@[i].2,
                    #[trigger] reds@[j].2,
                ) by {
                    assert(reds@[i] == before[i] && reds@[j] == before[j]);
                }
            }
        }
        used.push(red);
        assert(places(used@).add(places(reds@)).add(places(normal@)) =~= total_p);
        assert(numbers(used@).add(numbers(reds@)).add(numbers(normal@)) =~= total_n);
        let (mut touching, rest) = partition_tiles(&normal, TileTest::Touches(p));
        proof {
            lemma_concat(used@, touching@);
        }
        normal = rest;
        used.append(&mut touching);
        assert(places(used@).add(places(reds@)).add(places(normal@)) =~= total_p);
        assert(numbers(used@).add(numbers(reds@)).add(numbers(normal@)) =~= total_n);
        proof {
            if all_apart {
                assert(before.last() == red);
                assert(settle(before, n_before) == seq![red] + n_before.filter(
                    |t: Tile| passes(TileTest::Touches(p), t),
                ) + settle(reds@, normal@));
                assert(used@ + settle(reds@, normal@) =~= u_before + settle(before, n_before));
            }
        }
        let ghost r1 = reds@;
        let ghost n1 = normal@;
        let ghost u1 = used@;
        assert forall|f: Seq<u8>| #[trigger] settle_drawn(Seq::empty(), reds_in, normal_in, drawn + f)
            == after_swaps(used@, reds@, normal@, p, 0, f) by {
            assert(settle_drawn(u_before, before, n_before, f) == after_swaps(used@, reds@, normal@, p, 0, f));
        }
        let mut k: usize = 0;
        while k < reds.len()
            invariant
                near_ok(p),
                all_near(reds@),
                all_near(normal@),
                places(used@).add(places(reds@)).add(places(normal@)) == total_p,
                numbers(used@).add(numbers(reds@)).add(numbers(normal@)) == total_n,
                used@.len() + reds@.len() + normal@.len() == total_len,
                reds@.len() == before.len() - 1,
                p == before.last().2,
                before.len() > 0,
                forall|f: Seq<u8>| #[trigger] settle_drawn(Seq::empty(), reds_in, normal_in, drawn + f)
                    == after_swaps(used@, reds@, normal@, p, k as int, f),
                all_apart ==> apart(before) && reds@ == r1 && normal@ == n1 && used@ == u1
                    && r1 == before.drop_last(),
                clear ==> {
                    &&& no_red(normal@)
                    &&& reds_apart(used@)
                    &&& clear_of(used@, normal@)
                    &&& 0 <= r_idx < used@.len() && used@[r_idx] == before.last()
                    &&& forall|i: int, j: int|
                        #![trigger used@[i], reds@[j]]
                        0 <= i < used@.len() && i != r_idx && 0 <= j < reds@.len() ==> far(
                            used@[i],
                            reds@[j],
                        )
                    &&& forall|j: int| 0 <= j < k ==> far(before.last(), #[trigger] reds@[j])
                },
            decreases reds@.len() - k,
        {
            if touches(p, reds[k].2) {
                proof {
                    if all_apart {
                        let last = before.len() - 1;
                        assert(reds@[k as int] == before[k as int]);
                        assert(!touches_spec(before[last].2, before[k as int].2));
                    }
                    assert(!all_apart);
                }
                let draw = random_u8(rng);
                let ghost r0 = reds@;
                let ghost n0 = normal@;
                let ghost u0 = used@;
                let ghost old_drawn = drawn;
                proof {
                    drawn = drawn.push(draw);
                }
                let ok = swap_red_away(&mut reds, k, &mut normal, &mut used, draw);
                proof {
                    assert forall|f: Seq<u8>| #[trigger] settle_drawn(Seq::empty(), reds_in, normal_in, drawn + f)
                        == after_swaps(u0, r0, n0, p, k as int, seq![draw] + f) by {
                        assert(old_drawn + (seq![draw] + f) =~= drawn + f);
                        assert(settle_drawn(Seq::empty(), reds_in, normal_in, old_drawn + (seq![draw] + f))
                            == after_swaps(u0, r0, n0, p, k as int, seq![draw] + f));
                    }
                }
                if !ok {
                    proof {
                        assert(after_swaps(u0, r0, n0, p, k as int, seq![draw] + Seq::<u8>::empty()) is None);
                        assert(drawn + Seq::<u8>::empty() =~= drawn);
                        assert(settle_drawn(Seq::empty(), reds_in, normal_in, drawn) == opt_tiles(None));
                    }
                    return None;
                }
                proof {
                    assert forall|f: Seq<u8>| #[trigger] settle_drawn(Seq::empty(), reds_in, normal_in, drawn + f)
                        == after_swaps(used@, reds@, normal@, p, k + 1, f) by {
                        let g = seq![draw] + f;
                        assert(next_draw(g) == draw);
                        assert(rest_draws(g) =~= f);
                        assert(after_swaps(u0, r0, n0, p, k as int, g) == after_swaps(used@, reds@, normal@, p, k + 1, f));
                    }
                }
                proof {
                    let idx = (draw % (n0.len() as u8)) as int;
                    if clear {
                        lemma_swap_step(u0, r0, n0, k as int, idx, r_idx, before.last());
                    }
                    let chosen = n0[idx];
                    let red_k = r0[k as int];
                    lemma_update(r0, k as int, (chosen.0, red_k.1, chosen.2));
                    lemma_swap_remove(n0, idx);
                    lemma_push(u0, (red_k.0, chosen.1, red_k.2));
                    let rp = r0.map_values(|t: Tile| place(t));
                    let rn = r0.map_values(|t: Tile| t.1);
                    assert(rp[k as int] == place(red_k));
                    assert(rn[k as int] == red_k.1);
                    vstd::seq_lib::to_multiset_contains(rp, place(red_k));
                    vstd::seq_lib::to_multiset_contains(rn, red_k.1);
                    assert(near_ok(n0[idx].2));
                    assert forall|j: int| 0 <= j < reds@.len() implies near_ok(#[trigger] reds@[j].2) by {
                        if j != k as int {
                            assert(reds@[j] == r0[j]);
                        }
                    }
                    assert forall|j: int| 0 <= j < normal@.len() implies near_ok(
                        #[trigger] normal@[j].2,
                    ) by {
                        if j != idx {
                            assert(normal@[j] == n0[j]);
                        } else {
                            assert(normal@[j] == n0[n0.len() - 1]);
                        }
                    }
                    assert(places(used@).add(places(reds@)).add(places(normal@)) =~= total_p);
                    assert(numbers(used@).add(numbers(reds@)).add(numbers(normal@)) =~= total_n);
                }
            } else {
                proof {
                    if clear {
                        let t = reds@[k as int];
                        assert(near_ok(t.2));
                        if touches_spec(t.2, p) {
                            lemma_touches_sym(t.2, p);
                        }
                        assert(far(before.last(), t));
                    }
                    assert forall|f: Seq<u8>| #[trigger] settle_drawn(Seq::empty(), reds_in, normal_in, drawn + f)
                        == after_swaps(used@, reds@, normal@, p, k + 1, f) by {
                        assert(after_swaps(used@, reds@, normal@, p, k as int, f) == after_swaps(used@, reds@, normal@, p, k + 1, f));
                    }
                }
            }
            k = k + 1;
        }
        assert forall|f: Seq<u8>| #[trigger] settle_drawn(Seq::empty(), reds_in, normal_in, drawn + f)
            == settle_drawn(used@, reds@, normal@, f) by {
            assert(after_swaps(used@, reds@, normal@, p, k as int, f) == settle_drawn(used@, reds@, normal@, f));
        }
        proof {
            if clear {
                assert forall|i: int, j: int| 0 <= i < used@.len() && 0 <= j < reds@.len() implies far(
                    #[trigger] used@[i],
                    #[trigger] reds@[j],
                ) by {
                    if i == r_idx {
                        assert(far(before.last(), reds@[j]));
                    }
                }
            }
        }
    }
    proof {
        if clear {
            lemma_add_plain(used@, normal@, Seq::<Tile>::empty());
        }
        lemma_concat(used@, normal@);
        assert(reds@ =~= Seq::<Tile>::empty());
        lemma_empty();
    }
    let ghost before_end = used@ + normal@;
    proof {
        assert(drawn + Seq::<u8>::empty() =~= drawn);
        assert(settle_drawn(used@, reds@, normal@, Seq::<u8>::empty()) == Some(before_end));
        assert(settle_drawn(Seq::empty(), reds_in, normal_in, drawn) == Some(before_end));
    }
    used.append(&mut normal);
    assert(places(used@) =~= total_p);
    assert(numbers(used@) =~= total_n);
    Some(used)
}

/// The eighteen number tokens, before shuffling.
pub open spec fn standard_numbers() -> Seq<Number> {
    seq![
        Number::Number(2),
        Number::Number(3),
        Number::Number(3),
        Number::Number(4),
        Number::Number(4),
        Number::Number(5),
        Number::Number(5),
        Number::Number(6),
        Number::Number(6),
        Number::Number(8),
        Number::Number(8),
        Number::Number(9),
        Number::Number(9),
        Number::Number(10),
        Number::Number(10),
        Number::Number(11),
        Number::Number(11),
        Number::Number(12),
    ]
}

/// The eighteen producing hexagons, before shuffling.
pub open spec fn standard_hexagons() -> Seq<Hexagon> {
    seq![
        Hexagon::Wheat,
        Hexagon::Wheat,
        Hexagon::Wheat,
        Hexagon::Wheat,
        Hexagon::Wood,
        Hexagon::Wood,
        Hexagon::Wood,
        Hexagon::Wood,
        Hexagon::Sheep,
        Hexagon::Sheep,
        Hexagon::Sheep,
        Hexagon::Sheep,
        Hexagon::Ore,
        Hexagon::Ore,
        Hexagon::Ore,
        Hexagon::Brick,
        Hexagon::Brick,
        Hexagon::Brick,
    ]
}

/// The producing hexagons, in their fixed order, each with the number
/// token in the same place of `numbers`, then the desert without one.
pub open spec fn with_numbers(numbers: Seq<Number>) -> Seq<(Hexagon, Number)> {
    let n = if numbers.len() < 18 {
        numbers.len() as int
    } else {
        18
    };
    Seq::new(n as nat, |i: int| (standard_hexagons()[i], numbers[i])).push(
        (Hexagon::Desert, Number::Blank),
    )
}

/// The hexagons with their numbers laid on the positions in order, as long
/// as both last.
pub open spec fn lay_on(order: Seq<(Hexagon, Number)>, positions: Seq<Position>) -> Seq<Tile> {
    let n = if order.len() < positions.len() {
        order.len() as int
    } else {
        positions.len() as int
    };
    Seq::new(n as nat, |i: int| (order[i].0, order[i].1, positions[i]))
}

/// Empty tiles without a number on the given positions.
pub open spec fn sea(ring: Seq<Position>) -> Seq<Tile> {
    ring.map_values(|p: Position| (Hexagon::Empty, Number::Blank, p))
}

/// The board made from the tiles laid on the land (`inner`) and the sea
/// ring: first the tiles with a number, with their places and numbers
/// moved about but none lost or made up; then the tiles without a number
/// (the desert) as laid; then the sea. The robber starts on the first
/// desert, if there is one.
pub open spec fn board_from(
    tiles: Seq<Tile>,
    robber: Option<Robber>,
    inner: Seq<Tile>,
    ring: Seq<Position>,
) -> bool {
    let deserts = inner.filter(|t: Tile| t.1 == Number::Blank);
    let land = inner.filter(|t: Tile| t.1 != Number::Blank);
    let k = land.len() as int;
    &&& tiles.len() == land.len() + deserts.len() + ring.len()
    &&& places(tiles.take(k)) == places(land)
    &&& numbers(tiles.take(k)) == numbers(land)
    &&& tiles.subrange(k, k + deserts.len()) == deserts
    &&& tiles.skip(k + deserts.len()) == sea(ring)
    &&& robber == if deserts.len() > 0 {
        Some(Robber(deserts[0].2))
    } else {
        None
    }
}

/// A board that shuffles can give (see `generate_board`): for some order
/// of the number tokens and some order of the numbered hexagons and the
/// desert, the board made from them on the land of radius two and the sea
/// ring around it.
pub open spec fn dealt_board(tiles: Seq<Tile>, robber: Option<Robber>) -> bool {
    exists|numbers_order: Seq<Number>, order: Seq<(Hexagon, Number)>|
        numbers_order.to_multiset() == standard_numbers().to_multiset()
            && order.to_multiset() == with_numbers(numbers_order).to_multiset() && board_from(
            tiles,
            robber,
            lay_on(order, generate_spec(3)),
            ring_spec(3),
        )
}

/// Whether the shuffled orders are ones the shuffles can give: the number
/// tokens in some order, then the numbered hexagons and the desert in some
/// order.
pub open spec fn orders_ok(numbers_order: Seq<Number>, order: Seq<(Hexagon, Number)>) -> bool {
    &&& numbers_order.to_multiset() == standard_numbers().to_multiset()
    &&& order.to_multiset() == with_numbers(numbers_order).to_multiset()
}

/// The board that `generate_board` lays out from the order of the land
/// tiles and the draws of `fix_numbers`: the numbered tiles after the red
/// numbers were moved (see `settle_drawn`), then the desert, then the sea
/// ring. `None` when the red numbers could not be moved.
pub open spec fn drawn_board(order: Seq<(Hexagon, Number)>, draws: Seq<u8>) -> Option<Seq<Tile>> {
    let laid = lay_on(order, generate_spec(3));
    let land = laid.filter(|t: Tile| passes(TileTest::HasNumber, t));
    let desert = laid.filter(|t: Tile| !passes(TileTest::HasNumber, t));
    match settle_drawn(
        Seq::empty(),
        land.filter(|t: Tile| passes(TileTest::Red, t)),
        land.filter(|t: Tile| !passes(TileTest::Red, t)),
        draws,
    ) {
        Some(fixed) => Some(fixed + desert + sea(ring_spec(3))),
        None => None,
    }
}

/// The board of a result, if any.
pub open spec fn opt_board(res: Option<(Vec<Tile>, Option<Robber>)>) -> Option<Seq<Tile>> {
    match res {
        Some(b) => Some(b.0@),
        None => None,
    }
}

/// Lays out the board: the number tokens are shuffled onto the producing
/// hexagons, these and the desert are shuffled onto the nineteen land
/// hexagons, the red numbers are moved apart (see `fix_numbers`), and the
/// ring around is sea. Returns the tiles and where the robber starts;
/// `None` when the red numbers could not be moved apart.
pub fn generate_board(rng: &mut Xoshiro256PlusPlus) -> (res: Option<(Vec<Tile>, Option<Robber>)>)
    ensures
        res matches Some(b) ==> dealt_board(b.0@, b.1) && reds_apart(b.0@),
        exists|numbers_order: Seq<Number>, order: Seq<(Hexagon, Number)>, draws: Seq<u8>|
            #![trigger orders_ok(numbers_order, order), drawn_board(order, draws)]
            orders_ok(numbers_order, order) && drawn_board(order, draws) == opt_board(res),
{
    let mut numbers: Vec<Number> = vec![
        Number::Number(2),
        Number::Number(3),
        Number::Number(3),
        Number::Number(4),
        Number::Number(4),
        Number::Number(5),
        Number::Number(5),
        Number::Number(6),
        Number::Number(6),
        Number::Number(8),
        Number::Number(8),
        Number::Number(9),
        Number::Number(9),
        Number::Number(10),
        Number::Number(10),
        Number::Number(11),
        Number::Number(11),
        Number::Number(12),
    ];
    assert(numbers@ =~= standard_numbers());
    shuffle(&mut numbers, rng);
    proof {
        broadcast use vstd::seq_lib::group_to_multiset_ensures;

        assert(numbers@.len() == numbers@.to_multiset().len());
        assert(standard_numbers().len() == standard_numbers().to_multiset().len());
    }
    let hexagons: Vec<Hexagon> = vec![
        Hexagon::Wheat,
        Hexagon::Wheat,
        Hexagon::Wheat,
        Hexagon::Wheat,
        Hexagon::Wood,
        Hexagon::Wood,
        Hexagon::Wood,
        Hexagon::Wood,
        Hexagon::Sheep,
        Hexagon::Sheep,
        Hexagon::Sheep,
        Hexagon::Sheep,
        Hexagon::Ore,
        Hexagon::Ore,
        Hexagon::Ore,
        Hexagon::Brick,
        Hexagon::Brick,
        Hexagon::Brick,
    ];
    assert(hexagons@ =~= standard_hexagons());
    let mut inhabited: Vec<(Hexagon, Number)> = Vec::new();
    let mut i: usize = 0;
    while i < 18
        invariant
            i <= 18,
            numbers@.len() == 18,
            hexagons@ == standard_hexagons(),
            inhabited@ =~= Seq::new(i as nat, |j: int| (standard_hexagons()[j], numbers@[j])),
        decreases 18 - i,
    {
        inhabited.push((hexagons[i], numbers[i]));
        i = i + 1;
    }
    inhabited.push((Hexagon::Desert, Number::Blank));
    assert(inhabited@ =~= with_numbers(numbers@));
    let ghost numbers_order = numbers@;
    let ghost laid = inhabited@;
    shuffle(&mut inhabited, rng);
    let ghost order = inhabited@;
    let positions = generate_postions(3);
    let n: usize = if inhabited.len() < positions.len() {
        inhabited.len()
    } else {
        positions.len()
    };
    let mut tiles: Vec<Tile> = Vec::new();
    let mut j: usize = 0;
    while j < n
        invariant
            j <= n,
            n <= inhabited@.len(),
            n <= positions@.len(),
            positions@ == generate_spec(3),
            inhabited@ == order,
            tiles@ =~= Seq::new(
                j as nat,
                |k: int| (inhabited@[k].0, inhabited@[k].1, positions@[k]),
            ),
        decreases n - j,
    {
        let (h, num) = inhabited[j];
        tiles.push((h, num, positions[j]));
        j = j + 1;
    }
    assert(tiles@ =~= lay_on(order, generate_spec(3)));
    assert(all_near(tiles@)) by {
        assert forall|k: int| 0 <= k < tiles@.len() implies near_ok(#[trigger] tiles@[k].2) by {
            lemma_generated_in_range(3, k);
        }
    }
    let (land, mut desert) = partition_tiles(&tiles, TileTest::HasNumber);
    let (reds, normal) = partition_tiles(&land, TileTest::Red);
    let ghost reds_s = reds@;
    let ghost normal_s = normal@;
    let ghost land_s = land@;
    let ghost desert_laid = desert@;
    let fixed_opt = fix_numbers(reds, normal, rng);
    let ghost draws = choose|draws: Seq<u8>| #[trigger] settle_drawn(Seq::empty(), reds_s, normal_s, draws)
        == opt_tiles(fixed_opt);
    proof {
        assert(numbers_order.to_multiset() == standard_numbers().to_multiset());
        assert(order.to_multiset() == with_numbers(numbers_order).to_multiset());
        assert(orders_ok(numbers_order, order));
    }
    let fixed = match fixed_opt {
        Some(v) => v,
        None => {
            proof {
                assert(drawn_board(order, draws) is None);
            }
            return None;
        },
    };
    proof {
        lemma_concat(reds_s, normal_s);
    }
    let robber = if desert.len() > 0 {
        Some(Robber(desert[0].2))
    } else {
        None
    };
    let ghost fixed_s = fixed@;
    let ghost desert_s = desert@;
    proof {
        broadcast use vstd::seq_lib::group_filter_ensures;

        assert forall|j: int| 0 <= j < normal_s.len() implies !is_red(#[trigger] normal_s[j]) by {}
        assert forall|j: int| 0 <= j < desert_s.len() implies !is_red(#[trigger] desert_s[j]) by {}
        assert(reds_apart(fixed_s));
        lemma_add_plain(fixed_s, desert_s, Seq::<Tile>::empty());
    }
    let mut board = fixed;
    board.append(&mut desert);
    let ring = generate_postions_ring(3);
    let ghost before_sea = board@;
    let mut r: usize = 0;
    while r < ring.len()
        invariant
            r <= ring@.len(),
            ring@ == ring_spec(3),
            board@ =~= before_sea + sea(ring@).take(r as int),
        decreases ring@.len() - r,
    {
        board.push((Hexagon::Empty, Number::Blank, ring[r]));
        r = r + 1;
    }
    proof {
        let inner = lay_on(order, generate_spec(3));
        let k = fixed_s.len() as int;
        assert(sea(ring@).take(ring@.len() as int) =~= sea(ring@));
        assert(board@.take(k) =~= fixed_s);
        assert(board@.subrange(k, k + desert_s.len()) =~= desert_s);
        assert(board@.skip(k + desert_s.len()) =~= sea(ring_spec(3)));
        assert((|t: Tile| passes(TileTest::HasNumber, t)) =~= (|t: Tile| t.1 != Number::Blank));
        assert((|t: Tile| !passes(TileTest::HasNumber, t)) =~= (|t: Tile| t.1 == Number::Blank));
        assert(board_from(board@, robber, inner, ring_spec(3)));
        assert(no_red(sea(ring@))) by {
            assert forall|j: int| 0 <= j < sea(ring@).len() implies !is_red(#[trigger] sea(ring@)[j]) by {}
        }
        lemma_add_plain(fixed_s + desert_s, sea(ring@), Seq::<Tile>::empty());
        assert(board@ =~= fixed_s + desert_s + sea(ring@));
        assert(drawn_board(order, draws) == Some(board@));
        assert(numbers_order.to_multiset() == standard_numbers().to_multiset());
        assert(order.to_multiset() == with_numbers(numbers_order).to_multiset());
    }
    Some((board, robber))
}

/// Everything a new game starts from.
pub struct NewGame {
    /// The board's tiles.
    pub tiles: Vec<Tile>,
    /// Where the robber starts, if there is a desert.
    pub robber: Option<Robber>,
    /// The ports and their spots.
    pub ports: Vec<(BuildingPosition, Port)>,
    /// The development cards, shuffled.
    pub pile: DevelopmentCardsPile,
    /// The seats, in turn order.
    pub seats: Vec<CatanColorRef>,
    /// The players, one per seat.
    pub players: Vec<Player>,
    /// The seat played on this machine, if any.
    pub local: Option<CatanColorRef>,
}

/// Lays out a new game from the session's seed, so that every peer gets
/// the same one: the board, then the ports, the development cards and
/// the seats, all drawn in that order from one generator. `None` when the
/// board's red numbers could not be moved apart.
pub fn setup(seed: u64, player_count: u8, entities: &Vec<u64>, local_players: &Vec<usize>) -> (res:
    Option<NewGame>)
    requires
        entities@.len() >= seats(player_count),
    ensures
        res matches Some(g) ==> {
            &&& dealt_board(g.tiles@, g.robber)
            &&& reds_apart(g.tiles@)
            &&& dealt_ports(g.ports@)
            &&& g.pile.0@.to_multiset() == full_deck_spec().to_multiset()
            &&& dealt_pieces(
                g.seats@,
                g.players@,
                g.local,
                player_count,
                entities@,
                local_players@,
            )
        },
        exists|numbers_order: Seq<Number>, order: Seq<(Hexagon, Number)>, draws: Seq<u8>|
            #![trigger orders_ok(numbers_order, order), drawn_board(order, draws)]
            orders_ok(numbers_order, order) && drawn_board(order, draws) == match res {
                Some(g) => Some(g.tiles@),
                None => None,
            },
{
    let mut rng = seeded_rng(seed);
    let board = generate_board(&mut rng);
    let ghost (no, order, draws) = choose|
        numbers_order: Seq<Number>,
        order: Seq<(Hexagon, Number)>,
        draws: Seq<u8>,
    | orders_ok(numbers_order, order) && drawn_board(order, draws) == opt_board(board);
    proof {
        assert(orders_ok(no, order) && drawn_board(order, draws) == opt_board(board));
    }
    let (tiles, robber) = match board {
        Some(b) => b,
        None => {
            return None;
        },
    };
    let ports = generate_ports(&mut rng);
    let pile = generate_development_cards(&mut rng);
    let (seats, players, local) = generate_pieces(player_count, entities, local_players, &mut rng);
    Some(NewGame { tiles, robber, ports, pile, seats, players, local })
}

} // verus!

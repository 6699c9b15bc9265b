//! The board's contents: hexagon kinds and their numbers, ports, and the robber.
use vstd::prelude::*;

use crate::positions::{BuildingPosition, Position};
use crate::resources::{Resource, Resources, all_kinds, unit, unit_spec};

verus! {

/// A harbour on the coast, reached from the two building spots beside it.
#[derive(Clone, Copy, Debug, PartialEq, Eq, Structural, Hash)]
pub enum Port {
    /// Two cards of the given kind for one card of any kind.
    TwoForOne(Resource),
    /// Three cards of one kind for one card of any kind.
    ThreeForOne,
}

/// The ports that a player owns a building at.
#[derive(Clone, Copy, Debug, PartialEq, Eq, Structural, Hash)]
pub struct Ports {
    pub three_for_one: bool,
    pub two_for_one_wood: bool,
    pub two_for_one_brick: bool,
    pub two_for_one_sheep: bool,
    pub two_for_one_wheat: bool,
    pub two_for_one_ore: bool,
}

/// Whether the player has the two-for-one port of kind `r`.
pub open spec fn has_two_for_one(p: Ports, r: Resource) -> bool {
    match r {
        Resource::Wood => p.two_for_one_wood,
        Resource::Brick => p.two_for_one_brick,
        Resource::Sheep => p.two_for_one_sheep,
        Resource::Wheat => p.two_for_one_wheat,
        Resource::Ore => p.two_for_one_ore,
    }
}

/// How many cards of kind `r` the bank takes for one card.
pub open spec fn rate_spec(p: Ports, r: Resource) -> u8 {
    if has_two_for_one(p, r) {
        2
    } else if p.three_for_one {
        3
    } else {
        4
    }
}

/// The ports owned after building at `port`.
pub open spec fn with_port(p: Ports, port: Port) -> Ports {
    match port {
        Port::TwoForOne(Resource::Wood) => Ports { two_for_one_wood: true, ..p },
        Port::TwoForOne(Resource::Brick) => Ports { two_for_one_brick: true, ..p },
        Port::TwoForOne(Resource::Sheep) => Ports { two_for_one_sheep: true, ..p },
        Port::TwoForOne(Resource::Wheat) => Ports { two_for_one_wheat: true, ..p },
        Port::TwoForOne(Resource::Ore) => Ports { two_for_one_ore: true, ..p },
        Port::ThreeForOne => Ports { three_for_one: true, ..p },
    }
}

impl Ports {
    /// No ports at all.
    pub fn new_player() -> (res: Self)
        ensures
            res == (Ports {
                three_for_one: false,
                two_for_one_wood: false,
                two_for_one_brick: false,
                two_for_one_sheep: false,
                two_for_one_wheat: false,
                two_for_one_ore: false,
            }),
    {
        Ports {
            three_for_one: false,
            two_for_one_wood: false,
            two_for_one_brick: false,
            two_for_one_sheep: false,
            two_for_one_wheat: false,
            two_for_one_ore: false,
        }
    }

    /// How many cards of kind `r` the bank takes for one card: two with the
    /// matching port, else three with a generic port, else four.
    pub fn get_trade_rate(&self, resource: Resource) -> (res: u8)
        ensures
            res == rate_spec(*self, resource),
    {
        let special = match resource {
            Resource::Wood => self.two_for_one_wood,
            Resource::Brick => self.two_for_one_brick,
            Resource::Sheep => self.two_for_one_sheep,
            Resource::Wheat => self.two_for_one_wheat,
            Resource::Ore => self.two_for_one_ore,
        };
        if special {
            2
        } else if self.three_for_one {
            3
        } else {
            4
        }
    }

    /// The ports owned after also building at `rhs`.
    pub fn add(self, rhs: Port) -> (res: Self)
        ensures
            res == with_port(self, rhs),
    {
        match rhs {
            Port::TwoForOne(Resource::Wood) => Ports { two_for_one_wood: true, ..self },
            Port::TwoForOne(Resource::Brick) => Ports { two_for_one_brick: true, ..self },
            Port::TwoForOne(Resource::Sheep) => Ports { two_for_one_sheep: true, ..self },
            Port::TwoForOne(Resource::Wheat) => Ports { two_for_one_wheat: true, ..self },
            Port::TwoForOne(Resource::Ore) => Ports { two_for_one_ore: true, ..self },
            Port::ThreeForOne => Ports { three_for_one: true, ..self },
        }
    }

    /// Records a building at port `rhs`.
    pub fn add_assign(&mut self, rhs: Port)
        ensures
            *final(self) == with_port(*old(self), rhs),
    {
        match rhs {
            Port::TwoForOne(Resource::Wood) => self.two_for_one_wood = true,
            Port::TwoForOne(Resource::Brick) => self.two_for_one_brick = true,
            Port::TwoForOne(Resource::Sheep) => self.two_for_one_sheep = true,
            Port::TwoForOne(Resource::Wheat) => self.two_for_one_wheat = true,
            Port::TwoForOne(Resource::Ore) => self.two_for_one_ore = true,
            Port::ThreeForOne => self.three_for_one = true,
        }
    }
}

impl Default for Ports {
    fn default() -> (res: Self)
        ensures
            res == (Ports {
                three_for_one: false,
                two_for_one_wood: false,
                two_for_one_brick: false,
                two_for_one_sheep: false,
                two_for_one_wheat: false,
                two_for_one_ore: false,
            }),
    {
        Ports::new_player()
    }
}

} // verus!

verus! {

/// What a hexagon of the board holds.
#[derive(Clone, Copy, Debug, PartialEq, Eq, Structural, Hash)]
pub enum Hexagon {
    Wood,
    Brick,
    Sheep,
    Wheat,
    Ore,
    Desert,
    Water,
    Port,
    Empty,
}

/// The number token on a hexagon.
#[derive(Clone, Copy, Debug, PartialEq, Eq, Structural, Hash)]
pub enum Number {
    Number(u8),
    /// No token (the desert and the sea).
    Blank,
}

/// Where the robber stands: the hexagon that produces nothing.
#[derive(Clone, Copy, Debug, PartialEq, Eq, Structural, Hash)]
pub struct Robber(pub Position);

impl Default for Robber {
    fn default() -> (res: Self)
        ensures
            res == Robber(Position { q: 0, r: 0, s: 0 }),
    {
        Robber(Position { q: 0, r: 0, s: 0 })
    }
}

/// The kind of hexagon a number stands for (numbers past eight are empty).
pub open spec fn hexagon_from_spec(value: u8) -> Hexagon {
    if value == 0 {
        Hexagon::Wood
    } else if value == 1 {
        Hexagon::Brick
    } else if value == 2 {
        Hexagon::Sheep
    } else if value == 3 {
        Hexagon::Wheat
    } else if value == 4 {
        Hexagon::Ore
    } else if value == 5 {
        Hexagon::Desert
    } else if value == 6 {
        Hexagon::Water
    } else if value == 7 {
        Hexagon::Port
    } else {
        Hexagon::Empty
    }
}

impl Hexagon {
    /// The hexagon kind numbered `value` in declaration order; `Empty` past the end.
    pub fn from_u8(value: u8) -> (res: Self)
        ensures
            res == hexagon_from_spec(value),
    {
        match value {
            0 => Hexagon::Wood,
            1 => Hexagon::Brick,
            2 => Hexagon::Sheep,
            3 => Hexagon::Wheat,
            4 => Hexagon::Ore,
            5 => Hexagon::Desert,
            6 => Hexagon::Water,
            7 => Hexagon::Port,
            _ => Hexagon::Empty,
        }
    }
}

impl From<u8> for Hexagon {
    fn from(value: u8) -> (res: Self) {
        Hexagon::from_u8(value)
    }
}

impl vstd::std_specs::convert::FromSpecImpl<u8> for Hexagon {
    open spec fn obeys_from_spec() -> bool {
        true
    }

    open spec fn from_spec(v: u8) -> Self {
        hexagon_from_spec(v)
    }
}

/// The resource a hexagon produces, if it produces one.
pub open spec fn produces(h: Hexagon) -> Option<Resource> {
    match h {
        Hexagon::Wood => Some(Resource::Wood),
        Hexagon::Brick => Some(Resource::Brick),
        Hexagon::Sheep => Some(Resource::Sheep),
        Hexagon::Wheat => Some(Resource::Wheat),
        Hexagon::Ore => Some(Resource::Ore),
        _ => None,
    }
}

/// One card of what the hexagon produces.
pub fn hexagon_to_resources(hex: Hexagon) -> (res: Resources)
    requires
        produces(hex) is Some,
    ensures
        res == unit_spec(produces(hex)->0),
{
    match hex {
        Hexagon::Wood => unit(Resource::Wood),
        Hexagon::Brick => unit(Resource::Brick),
        Hexagon::Sheep => unit(Resource::Sheep),
        Hexagon::Wheat => unit(Resource::Wheat),
        _ => unit(Resource::Ore),
    }
}

/// A hexagon of the board: its kind, number token and place.
pub type Tile = (Hexagon, Number, Position);

/// Whether a tile pays out on `roll`: it carries that number and the robber
/// is not on it.
pub open spec fn pays_on(t: Tile, roll: u8, robber: Position) -> bool {
    t.2 != robber && t.1 == Number::Number(roll)
}

/// The first tile (in board order) paying out on `roll` that touches `spot`.
pub open spec fn first_paying(board: Seq<Tile>, roll: u8, robber: Position, spot: BuildingPosition) -> Option<
    Hexagon,
>
    decreases board.len(),
{
    if board.len() == 0 {
        None
    } else if pays_on(board[0], roll, robber) && spot.hexes().contains(board[0].2) {
        Some(board[0].0)
    } else {
        first_paying(board.drop_first(), roll, robber, spot)
    }
}

/// A building: the index of its owner and its spot.
pub type Placed = (usize, BuildingPosition);

/// How many of the buildings owned by `player` get a card of kind `r`.
pub open spec fn paid_to(
    buildings: Seq<Placed>,
    player: int,
    r: Resource,
    board: Seq<Tile>,
    roll: u8,
    robber: Position,
) -> int
    decreases buildings.len(),
{
    if buildings.len() == 0 {
        0
    } else {
        let b = buildings.last();
        paid_to(buildings.drop_last(), player, r, board, roll, robber) + if b.0 == player && (
        match first_paying(board, roll, robber, b.1) {
            Some(h) => produces(h) == Some(r),
            None => false,
        }) {
            1int
        } else {
            0int
        }
    }
}

/// How many cards of kind `r` the buildings owned by one of the first
/// `players` players take from the bank.
pub open spec fn paid_from_bank(
    buildings: Seq<Placed>,
    players: int,
    r: Resource,
    board: Seq<Tile>,
    roll: u8,
    robber: Position,
) -> int
    decreases buildings.len(),
{
    if buildings.len() == 0 {
        0
    } else {
        let b = buildings.last();
        paid_from_bank(buildings.drop_last(), players, r, board, roll, robber) + if b.0
            < players && (match first_paying(board, roll, robber, b.1) {
            Some(h) => produces(h) == Some(r),
            None => false,
        }) {
            1int
        } else {
            0int
        }
    }
}

/// Every building of a known player that is paid is paid in a resource.
pub open spec fn pays_resources(
    buildings: Seq<Placed>,
    players: int,
    board: Seq<Tile>,
    roll: u8,
    robber: Position,
) -> bool {
    forall|k: int|
        0 <= k < buildings.len() && buildings[k].0 < players ==> match first_paying(
            board,
            roll,
            robber,
            #[trigger] buildings[k].1,
        ) {
            Some(h) => produces(h) is Some,
            None => true,
        }
}

/// Whether a roll can be paid out without any count leaving a `u8`.
pub open spec fn distribution_fits(
    roll: u8,
    board: Seq<Tile>,
    towns: Seq<Placed>,
    cities: Seq<Placed>,
    players: Seq<Resources>,
    bank: Resources,
    robber: Position,
) -> bool {
    &&& pays_resources(towns, players.len() as int, board, roll, robber)
    &&& pays_resources(cities, players.len() as int, board, roll, robber)
    &&& forall|p: int, r: Resource|
        0 <= p < players.len() ==> #[trigger] players[p].amount(r) + paid_to(
            towns,
            p,
            r,
            board,
            roll,
            robber,
        ) + 2 * paid_to(cities, p, r, board, roll, robber) <= 255
    &&& forall|r: Resource|
        #[trigger] bank.amount(r) - paid_from_bank(towns, players.len() as int, r, board, roll, robber)
            - 2 * paid_from_bank(cities, players.len() as int, r, board, roll, robber) >= 0
}

/// The first tile (in board order) paying out on `roll` that touches `spot`.
fn find_paying(board: &Vec<Tile>, roll: u8, robber: Position, spot: BuildingPosition) -> (res:
    Option<Hexagon>)
    ensures
        res == first_paying(board@, roll, robber, spot),
{
    let mut i: usize = 0;
    assert(board@.skip(0) =~= board@);
    while i < board.len()
        invariant
            0 <= i <= board@.len(),
            first_paying(board@, roll, robber, spot) == first_paying(
                board@.skip(i as int),
                roll,
                robber,
                spot,
            ),
        decreases board@.len() - i,
    {
        let t = board[i];
        proof {
            assert(board@.skip(i as int)[0] == t);
            assert(board@.skip(i as int).drop_first() =~= board@.skip(i + 1));
        }
        if t.2 != robber && t.1 == Number::Number(roll) && spot.contains(&t.2) {
            return Some(t.0);
        }
        i = i + 1;
    }
    proof {
        assert(board@.skip(i as int).len() == 0);
    }
    None
}

/// Pays one card (or two, with `mult` two) to the owner of each building next
/// to a hexagon that pays on `roll`, from the bank; a building touching several
/// such hexagons is paid by the first of them in board order.
fn pay_buildings(
    roll: u8,
    board: &Vec<Tile>,
    buildings: &Vec<Placed>,
    mult: u8,
    player_resources: &mut Vec<Resources>,
    bank: &mut Resources,
    robber: Position,
)
    requires
        mult == 1 || mult == 2,
        pays_resources(buildings@, old(player_resources)@.len() as int, board@, roll, robber),
        forall|p: int, r: Resource|
            0 <= p < old(player_resources)@.len() ==> #[trigger] old(player_resources)@[p].amount(r)
                + mult * paid_to(buildings@, p, r, board@, roll, robber) <= 255,
        forall|r: Resource|
            #[trigger] old(bank).amount(r) - mult * paid_from_bank(
                buildings@,
                old(player_resources)@.len() as int,
                r,
                board@,
                roll,
                robber,
            ) >= 0,
    ensures
        final(player_resources)@.len() == old(player_resources)@.len(),
        forall|p: int, r: Resource|
            0 <= p < old(player_resources)@.len() ==> #[trigger] final(player_resources)@[p].amount(r)
                == old(player_resources)@[p].amount(r) + mult * paid_to(
                buildings@,
                p,
                r,
                board@,
                roll,
                robber,
            ),
        forall|r: Resource|
            #[trigger] final(bank).amount(r) == old(bank).amount(r) - mult * paid_from_bank(
                buildings@,
                old(player_resources)@.len() as int,
                r,
                board@,
                roll,
                robber,
            ),
{
    let ghost start = player_resources@;
    let ghost start_bank = *bank;
    let n = player_resources.len();
    let mut i: usize = 0;
    while i < buildings.len()
        invariant
            0 <= i <= buildings@.len(),
            mult == 1 || mult == 2,
            n == start.len(),
            player_resources@.len() == n,
            pays_resources(buildings@, n as int, board@, roll, robber),
            forall|p: int, r: Resource|
                0 <= p < n ==> #[trigger] start[p].amount(r) + mult * paid_to(
                    buildings@,
                    p,
                    r,
                    board@,
                    roll,
                    robber,
                ) <= 255,
            forall|r: Resource|
                #[trigger] start_bank.amount(r) - mult * paid_from_bank(
                    buildings@,
                    n as int,
                    r,
                    board@,
                    roll,
                    robber,
                ) >= 0,
            forall|p: int, r: Resource|
                0 <= p < n ==> #[trigger] player_resources@[p].amount(r) == start[p].amount(r)
                    + mult * paid_to(buildings@.take(i as int), p, r, board@, roll, robber),
            forall|r: Resource|
                #[trigger] bank.amount(r) == start_bank.amount(r) - mult * paid_from_bank(
                    buildings@.take(i as int),
                    n as int,
                    r,
                    board@,
                    roll,
                    robber,
                ),
        decreases buildings@.len() - i,
    {
        let (owner, spot) = buildings[i];
        let ghost prev = player_resources@;
        let ghost prev_bank = *bank;
        proof {
            assert(buildings@.take(i + 1).drop_last() =~= buildings@.take(i as int));
            assert(buildings@.take(i + 1).last() == buildings@[i as int]);
            assert forall|p: int, r: Resource| 0 <= p < n implies paid_to(
                buildings@.take(i + 1),
                p,
                r,
                board@,
                roll,
                robber,
            ) <= paid_to(buildings@, p, r, board@, roll, robber) by {
                lemma_paid_to_prefix(buildings@, p, r, board@, roll, robber, i + 1);
            }
            assert forall|r: Resource|
                paid_from_bank(buildings@.take(i + 1), n as int, r, board@, roll, robber)
                    <= paid_from_bank(buildings@, n as int, r, board@, roll, robber) by {
                lemma_paid_from_bank_prefix(buildings@, n as int, r, board@, roll, robber, i + 1);
            }
        }
        match find_paying(board, roll, robber, spot) {
            Some(hex) => {
                if owner < n {
                    proof {
                        assert(buildings@[i as int].1 == spot);
                    }
                    let one = hexagon_to_resources(hex);
                    let gained = one.mul(mult);
                    proof {
                        let kind = produces(hex)->0;
                        let tk = buildings@.take(i + 1);
                        assert(tk.last() == (owner, spot));
                        assert(paid_to(tk, owner as int, kind, board@, roll, robber) == paid_to(
                            buildings@.take(i as int),
                            owner as int,
                            kind,
                            board@,
                            roll,
                            robber,
                        ) + 1);
                        assert(paid_from_bank(tk, n as int, kind, board@, roll, robber)
                            == paid_from_bank(
                            buildings@.take(i as int),
                            n as int,
                            kind,
                            board@,
                            roll,
                            robber,
                        ) + 1);
                        assert(prev[owner as int].amount(kind) + mult <= 255);
                        assert(prev_bank.amount(kind) - mult >= 0);
                        assert forall|k: Resource| #[trigger] gained.amount(k) == if k == kind {
                            mult as int
                        } else {
                            0
                        } by {}
                        lemma_fits(prev[owner as int], prev_bank, gained, kind, mult as int);
                    }
                    let mut pr = player_resources[owner];
                    pr.add_assign(gained);
                    player_resources.set(owner, pr);
                    bank.sub_assign(gained);
                }
            },
            None => {},
        }
        proof {
            assert forall|p: int, r: Resource| 0 <= p < n implies #[trigger] player_resources@[p].amount(
                r,
            ) == start[p].amount(r) + mult * paid_to(
                buildings@.take(i + 1),
                p,
                r,
                board@,
                roll,
                robber,
            ) by {
                assert(prev[p].amount(r) == start[p].amount(r) + mult * paid_to(
                    buildings@.take(i as int),
                    p,
                    r,
                    board@,
                    roll,
                    robber,
                ));
            }
            assert forall|r: Resource| #[trigger] bank.amount(r) == start_bank.amount(r) - mult
                * paid_from_bank(buildings@.take(i + 1), n as int, r, board@, roll, robber) by {
                assert(prev_bank.amount(r) == start_bank.amount(r) - mult * paid_from_bank(
                    buildings@.take(i as int),
                    n as int,
                    r,
                    board@,
                    roll,
                    robber,
                ));
            }
        }
        i = i + 1;
    }
    proof {
        assert(buildings@.take(buildings@.len() as int) =~= buildings@);
    }
}

proof fn lemma_fits(player: Resources, bank: Resources, gained: Resources, kind: Resource, m: int)
    requires
        player.amount(kind) + m <= 255,
        bank.amount(kind) - m >= 0,
        forall|k: Resource| #[trigger] gained.amount(k) == if k == kind {
            m
        } else {
            0
        },
        m >= 0,
    ensures
        player.can_add(gained),
        bank.covers(gained),
{
    assert(gained.amount(Resource::Wood) == gained.wood);
    assert(gained.amount(Resource::Brick) == gained.brick);
    assert(gained.amount(Resource::Sheep) == gained.sheep);
    assert(gained.amount(Resource::Wheat) == gained.wheat);
    assert(gained.amount(Resource::Ore) == gained.ore);
}

proof fn lemma_paid_to_prefix(
    bs: Seq<Placed>,
    p: int,
    r: Resource,
    board: Seq<Tile>,
    roll: u8,
    robber: Position,
    i: int,
)
    requires
        0 <= i <= bs.len(),
    ensures
        0 <= paid_to(bs.take(i), p, r, board, roll, robber) <= paid_to(bs, p, r, board, roll, robber),
    decreases bs.len(),
{
    if bs.len() == 0 {
        assert(bs.take(i) =~= bs);
    } else if i == bs.len() {
        assert(bs.take(i) =~= bs);
        lemma_paid_to_prefix(bs.drop_last(), p, r, board, roll, robber, i - 1);
    } else {
        lemma_paid_to_prefix(bs.drop_last(), p, r, board, roll, robber, i);
        assert(bs.drop_last().take(i) =~= bs.take(i));
    }
}

proof fn lemma_paid_from_bank_prefix(
    bs: Seq<Placed>,
    n: int,
    r: Resource,
    board: Seq<Tile>,
    roll: u8,
    robber: Position,
    i: int,
)
    requires
        0 <= i <= bs.len(),
    ensures
        0 <= paid_from_bank(bs.take(i), n, r, board, roll, robber) <= paid_from_bank(
            bs,
            n,
            r,
            board,
            roll,
            robber,
        ),
    decreases bs.len(),
{
    if bs.len() == 0 {
        assert(bs.take(i) =~= bs);
    } else if i == bs.len() {
        assert(bs.take(i) =~= bs);
        lemma_paid_from_bank_prefix(bs.drop_last(), n, r, board, roll, robber, i - 1);
    } else {
        lemma_paid_from_bank_prefix(bs.drop_last(), n, r, board, roll, robber, i);
        assert(bs.drop_last().take(i) =~= bs.take(i));
    }
}

/// Pays out a roll: every town next to a hexagon that carries the rolled
/// number (and not the robber) earns its owner one card of that hexagon's
/// resource from the bank, every city two; a building touching several such
/// hexagons is paid only by the first of them in board order, and buildings
/// of unknown owners earn nothing.
pub fn distribute_resources(
    roll: u8,
    board: &Vec<Tile>,
    towns: &Vec<Placed>,
    cities: &Vec<Placed>,
    player_resources: &mut Vec<Resources>,
    resources: &mut Resources,
    robber: &Robber,
)
    requires
        distribution_fits(
            roll,
            board@,
            towns@,
            cities@,
            old(player_resources)@,
            *old(resources),
            robber.0,
        ),
    ensures
        final(player_resources)@.len() == old(player_resources)@.len(),
        forall|p: int, r: Resource|
            0 <= p < old(player_resources)@.len() ==> #[trigger] final(player_resources)@[p].amount(r)
                == old(player_resources)@[p].amount(r) + paid_to(
                towns@,
                p,
                r,
                board@,
                roll,
                robber.0,
            ) + 2 * paid_to(cities@, p, r, board@, roll, robber.0),
        forall|r: Resource|
            #[trigger] final(resources).amount(r) == old(resources).amount(r) - paid_from_bank(
                towns@,
                old(player_resources)@.len() as int,
                r,
                board@,
                roll,
                robber.0,
            ) - 2 * paid_from_bank(
                cities@,
                old(player_resources)@.len() as int,
                r,
                board@,
                roll,
                robber.0,
            ),
{
    let ghost n = player_resources@.len() as int;
    let ghost start = player_resources@;
    let ghost start_bank = *resources;
    proof {
        assert forall|p: int, r: Resource| 0 <= p < n implies #[trigger] start[p].amount(r) + 1
            * paid_to(towns@, p, r, board@, roll, robber.0) <= 255 by {
            assert(start[p].amount(r) + paid_to(towns@, p, r, board@, roll, robber.0) + 2
                * paid_to(cities@, p, r, board@, roll, robber.0) <= 255);
            lemma_paid_to_prefix(cities@, p, r, board@, roll, robber.0, 0);
        }
        assert forall|r: Resource| #[trigger] start_bank.amount(r) - 1 * paid_from_bank(
            towns@,
            n,
            r,
            board@,
            roll,
            robber.0,
        ) >= 0 by {
            assert(start_bank.amount(r) - paid_from_bank(towns@, n, r, board@, roll, robber.0) - 2
                * paid_from_bank(cities@, n, r, board@, roll, robber.0) >= 0);
            lemma_paid_from_bank_prefix(cities@, n, r, board@, roll, robber.0, 0);
        }
    }
    pay_buildings(roll, board, towns, 1, player_resources, resources, robber.0);
    pay_buildings(roll, board, cities, 2, player_resources, resources, robber.0);
}

fn produces_exec(h: Hexagon) -> (res: Option<Resource>)
    ensures
        res == produces(h),
{
    match h {
        Hexagon::Wood => Some(Resource::Wood),
        Hexagon::Brick => Some(Resource::Brick),
        Hexagon::Sheep => Some(Resource::Sheep),
        Hexagon::Wheat => Some(Resource::Wheat),
        Hexagon::Ore => Some(Resource::Ore),
        _ => None,
    }
}

/// Whether the first paying hexagon, if any, produces kind `r`.
fn pays_kind(found: Option<Hexagon>, r: Resource) -> (res: bool)
    ensures
        res == match found {
            Some(h) => produces(h) == Some(r),
            None => false,
        },
{
    match found {
        Some(h) => match produces_exec(h) {
            Some(k) => k == r,
            None => false,
        },
        None => false,
    }
}

/// Counts the buildings that pay kind `r` to player `p` (see `paid_to`).
fn count_paid_to(
    board: &Vec<Tile>,
    roll: u8,
    robber: Position,
    buildings: &Vec<Placed>,
    p: usize,
    r: Resource,
) -> (res: u128)
    ensures
        res == paid_to(buildings@, p as int, r, board@, roll, robber),
        res <= buildings@.len(),
{
    let mut count: u128 = 0;
    let mut i: usize = 0;
    while i < buildings.len()
        invariant
            0 <= i <= buildings@.len(),
            count == paid_to(buildings@.take(i as int), p as int, r, board@, roll, robber),
            count <= i,
        decreases buildings@.len() - i,
    {
        proof {
            assert(buildings@.take(i + 1).drop_last() =~= buildings@.take(i as int));
            assert(buildings@.take(i + 1).last() == buildings@[i as int]);
        }
        let (owner, spot) = buildings[i];
        if owner == p && pays_kind(find_paying(board, roll, robber, spot), r) {
            count = count + 1;
        }
        i = i + 1;
    }
    assert(buildings@.take(buildings@.len() as int) =~= buildings@);
    count
}

/// Counts the cards of kind `r` that buildings of the first `n` players
/// take from the bank (see `paid_from_bank`).
fn count_paid_from_bank(
    board: &Vec<Tile>,
    roll: u8,
    robber: Position,
    buildings: &Vec<Placed>,
    n: usize,
    r: Resource,
) -> (res: u128)
    ensures
        res == paid_from_bank(buildings@, n as int, r, board@, roll, robber),
        res <= buildings@.len(),
{
    let mut count: u128 = 0;
    let mut i: usize = 0;
    while i < buildings.len()
        invariant
            0 <= i <= buildings@.len(),
            count == paid_from_bank(buildings@.take(i as int), n as int, r, board@, roll, robber),
            count <= i,
        decreases buildings@.len() - i,
    {
        proof {
            assert(buildings@.take(i + 1).drop_last() =~= buildings@.take(i as int));
            assert(buildings@.take(i + 1).last() == buildings@[i as int]);
        }
        let (owner, spot) = buildings[i];
        if owner < n && pays_kind(find_paying(board, roll, robber, spot), r) {
            count = count + 1;
        }
        i = i + 1;
    }
    assert(buildings@.take(buildings@.len() as int) =~= buildings@);
    count
}

/// Whether every paid building of a known player is paid in a resource
/// (see `pays_resources`).
fn all_paid_in_resources(
    board: &Vec<Tile>,
    roll: u8,
    robber: Position,
    buildings: &Vec<Placed>,
    n: usize,
) -> (res: bool)
    ensures
        res == pays_resources(buildings@, n as int, board@, roll, robber),
{
    let mut i: usize = 0;
    while i < buildings.len()
        invariant
            0 <= i <= buildings@.len(),
            forall|k: int|
                0 <= k < i && buildings@[k].0 < n ==> match first_paying(
                    board@,
                    roll,
                    robber,
                    #[trigger] buildings@[k].1,
                ) {
                    Some(h) => produces(h) is Some,
                    None => true,
                },
        decreases buildings@.len() - i,
    {
        let (owner, spot) = buildings[i];
        if owner < n {
            match find_paying(board, roll, robber, spot) {
                Some(h) => {
                    if produces_exec(h).is_none() {
                        assert(buildings@[i as int].1 == spot);
                        return false;
                    }
                },
                None => {},
            }
        }
        i = i + 1;
    }
    true
}

/// The kinds of resource in order, to go through.
fn kinds() -> (res: Vec<Resource>)
    ensures
        res@ == all_kinds(),
{
    let v = vec![Resource::Wood, Resource::Brick, Resource::Sheep, Resource::Wheat, Resource::Ore];
    assert(v@ =~= all_kinds());
    v
}

/// Whether `distribute_resources` can pay out the roll: every paid
/// building is paid in a resource, no hand goes past 255 cards of a kind,
/// and the bank has every card it must give (see `distribution_fits`).
pub fn can_distribute(
    roll: u8,
    board: &Vec<Tile>,
    towns: &Vec<Placed>,
    cities: &Vec<Placed>,
    player_resources: &Vec<Resources>,
    resources: &Resources,
    robber: &Robber,
) -> (res: bool)
    ensures
        res == distribution_fits(
            roll,
            board@,
            towns@,
            cities@,
            player_resources@,
            *resources,
            robber.0,
        ),
{
    let n = player_resources.len();
    let rob = robber.0;
    if !all_paid_in_resources(board, roll, rob, towns, n) || !all_paid_in_resources(
        board,
        roll,
        rob,
        cities,
        n,
    ) {
        return false;
    }
    let ks = kinds();
    let mut j: usize = 0;
    while j < 5
        invariant
            0 <= j <= 5,
            ks@ == all_kinds(),
            n == player_resources@.len(),
            rob == robber.0,
            forall|k: int|
                0 <= k < j ==> #[trigger] resources.amount(all_kinds()[k]) - paid_from_bank(
                    towns@,
                    n as int,
                    all_kinds()[k],
                    board@,
                    roll,
                    rob,
                ) - 2 * paid_from_bank(cities@, n as int, all_kinds()[k], board@, roll, rob) >= 0,
            forall|p: int, k: int|
                0 <= p < n && 0 <= k < j ==> #[trigger] player_resources@[p].amount(all_kinds()[k])
                    + paid_to(towns@, p, all_kinds()[k], board@, roll, rob) + 2 * paid_to(
                    cities@,
                    p,
                    all_kinds()[k],
                    board@,
                    roll,
                    rob,
                ) <= 255,
        decreases 5 - j,
    {
        let r = ks[j];
        let from_towns = count_paid_from_bank(board, roll, rob, towns, n, r);
        let from_cities = count_paid_from_bank(board, roll, rob, cities, n, r);
        let tl: usize = towns.len();
        let cl: usize = cities.len();
        assert(from_towns <= tl && from_cities <= cl);
        if (resources.get(r) as u128) < from_towns + 2 * from_cities {
            return false;
        }
        let mut p: usize = 0;
        while p < n
            invariant
                0 <= p <= n,
                j < 5,
                ks@ == all_kinds(),
                r == all_kinds()[j as int],
                n == player_resources@.len(),
                rob == robber.0,
                forall|q: int|
                    0 <= q < p ==> #[trigger] player_resources@[q].amount(r) + paid_to(
                        towns@,
                        q,
                        r,
                        board@,
                        roll,
                        rob,
                    ) + 2 * paid_to(cities@, q, r, board@, roll, rob) <= 255,
            decreases n - p,
        {
            let t = count_paid_to(board, roll, rob, towns, p, r);
            let c = count_paid_to(board, roll, rob, cities, p, r);
            let tl: usize = towns.len();
            let cl: usize = cities.len();
            assert(t <= tl && c <= cl);
            if player_resources[p].get(r) as u128 + t + 2 * c > 255 {
                return false;
            }
            p = p + 1;
        }
        j = j + 1;
    }
    proof {
        assert forall|r: Resource| #[trigger] resources.amount(r) - paid_from_bank(
            towns@,
            n as int,
            r,
            board@,
            roll,
            rob,
        ) - 2 * paid_from_bank(cities@, n as int, r, board@, roll, rob) >= 0 by {
            let k: int = match r {
                Resource::Wood => 0,
                Resource::Brick => 1,
                Resource::Sheep => 2,
                Resource::Wheat => 3,
                Resource::Ore => 4,
            };
            assert(all_kinds()[k] == r);
        }
        assert forall|p: int, r: Resource| 0 <= p < n implies #[trigger] player_resources@[p].amount(
            r,
        ) + paid_to(towns@, p, r, board@, roll, rob) + 2 * paid_to(cities@, p, r, board@, roll, rob)
            <= 255 by {
            let k: int = match r {
                Resource::Wood => 0,
                Resource::Brick => 1,
                Resource::Sheep => 2,
                Resource::Wheat => 3,
                Resource::Ore => 4,
            };
            assert(all_kinds()[k] == r);
        }
    }
    true
}

} // verus!

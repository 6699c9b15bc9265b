//! The game's phases, the inputs that players send each other, and what
//! each input does to the players and the bank.
use vstd::prelude::*;

use crate::board::{Port, Ports, Robber, with_port};
use crate::cards::{DevelopmentCard, DevelopmentCards, DevelopmentCardsPile};
use crate::colors::{
    CatanColor, CatanColorRef, ColorIterator, CurrentColor, CurrentSetupColor, PlayerHandle,
    SetupColorIterator, SetupStep, set_color, set_setup_color, setup_turn,
};
use crate::positions::{BuildingPosition, Position, RoadPosition};
use crate::resources::{Resource, Resources, development_card_resources};
use crate::trading::{TradingResources, as_signed};

verus! {

/// The phase of the game on this machine.
#[derive(Clone, Copy, Debug, PartialEq, Eq, Structural, Hash)]
pub enum GameState {
    NotActive,
    NotActiveSetup,
    RobberDiscardResources,
    RobberDiscardResourcesInActive,
    Nothing,
    Start,
    PlaceRoad,
    Roll,
    Turn,
    PlaceTown,
    PlaceCity,
    SetupRoad,
    SetupTown,
    /// Placing the two free roads of a development card.
    RoadBuilding,
    /// Choosing the two free cards of a development card.
    YearOfPlenty,
    Monopoly,
    /// Choosing which player the robber steals from.
    RobberPickColor,
    /// Choosing where the robber goes.
    PlaceRobber,
}

impl Default for GameState {
    fn default() -> (res: Self)
        ensures
            res == GameState::Nothing,
    {
        GameState::Nothing
    }
}

} // verus!

verus! {

/// Knight cards a player has played.
#[derive(Clone, Copy, Debug, PartialEq, Eq, Structural, Hash, Default)]
pub struct Knights(pub u8);

/// A player's victory points: from buildings and bonuses, and from cards.
#[derive(Clone, Copy, Debug, PartialEq, Eq, Structural, Hash)]
pub struct VictoryPoints {
    pub actual: u8,
    pub from_development_cards: u8,
}

} // verus!

verus! {

/// What one player sends the others each frame.
#[derive(Clone, Copy, Debug, PartialEq, Eq)]
pub enum Input {
    /// Nothing this frame.
    Idle,
    /// The turn passes on.
    NextColor,
    /// A road is built at the place, for the cost.
    AddRoad(RoadPosition, Resources),
    /// The town (by its entity) at the place becomes a city, for the cost.
    AddCity(u64, BuildingPosition, Resources),
    /// A town is built at the place, for the cost; the flag moves the setup
    /// rounds on.
    AddTown(BuildingPosition, Resources, bool),
    TakeDevelopmentCard,
    /// The dice: their sum and the two dice.
    Roll(u8, u8, u8),
    YearOfPlenty(Resource),
    Monopoly(Resource),
    /// The robber moves to the hexagon and takes a card of the kind from the
    /// player (by entity).
    Knight(u64, Resource, Position),
    /// The robber moves to the hexagon and takes nothing.
    MoveKnight(Position),
    RobberDiscard(Resources),
    RobberDiscardInit,
    Trade(TradingResources),
    TradeResponce(TradingResources),
    /// The trade is accepted with the player (by entity) who offered it.
    TradeAccept(TradingResources, u64),
    BankTrade(TradingResources),
}

impl Default for Input {
    fn default() -> (res: Self)
        ensures
            res == Input::Idle,
    {
        Input::Idle
    }
}

/// Everything the rules keep about one player.
#[derive(Clone, Copy, Debug, PartialEq, Eq, Structural)]
pub struct Player {
    pub entity: u64,
    pub handle: PlayerHandle,
    pub color: CatanColor,
    pub resources: Resources,
    pub victory_points: VictoryPoints,
    pub ports: Ports,
    pub roads_left: u8,
    pub towns_left: u8,
    pub cities_left: u8,
    pub development_cards: DevelopmentCards,
    pub knights: Knights,
}

impl Player {
    /// A player at the start of a game (see `new`).
    pub open spec fn new_spec(entity: u64, handle: PlayerHandle, color: CatanColor) -> Player {
        Player {
            entity,
            handle,
            color,
            resources: Resources::new_spec(0, 0, 0, 0, 0),
            victory_points: VictoryPoints { actual: 0, from_development_cards: 0 },
            ports: Ports {
                three_for_one: false,
                two_for_one_wood: false,
                two_for_one_brick: false,
                two_for_one_sheep: false,
                two_for_one_wheat: false,
                two_for_one_ore: false,
            },
            roads_left: 15,
            towns_left: 5,
            cities_left: 4,
            development_cards: DevelopmentCards {
                knight: 4,
                monopoly: 0,
                year_of_plenty: 1,
                road_building: 1,
                victory_point: 0,
            },
            knights: Knights(0),
        }
    }

    /// A player at the start of a game: five towns, four cities and fifteen
    /// roads to place, nothing else.
    pub fn new(entity: u64, handle: PlayerHandle, color: CatanColor) -> (res: Self)
        ensures
            res.entity == entity,
            res.handle == handle,
            res.color == color,
            res.resources == Resources::new_spec(0, 0, 0, 0, 0),
            res.victory_points == (VictoryPoints { actual: 0, from_development_cards: 0 }),
            res.ports == (Ports {
                three_for_one: false,
                two_for_one_wood: false,
                two_for_one_brick: false,
                two_for_one_sheep: false,
                two_for_one_wheat: false,
                two_for_one_ore: false,
            }),
            res.roads_left == 15,
            res.towns_left == 5,
            res.cities_left == 4,
            res.development_cards == (DevelopmentCards {
                knight: 4,
                monopoly: 0,
                year_of_plenty: 1,
                road_building: 1,
                victory_point: 0,
            }),
            res.knights == Knights(0),
            res == Self::new_spec(entity, handle, color),
    {
        Player {
            entity,
            handle,
            color,
            resources: Resources::new_player(),
            victory_points: VictoryPoints { actual: 0, from_development_cards: 0 },
            ports: Ports::new_player(),
            roads_left: 15,
            towns_left: 5,
            cities_left: 4,
            development_cards: DevelopmentCards::new_player(),
            knights: Knights(0),
        }
    }
}

/// The shared state that inputs change.
#[derive(Debug)]
pub struct GameData {
    pub players: Vec<Player>,
    pub bank: Resources,
    pub pile: DevelopmentCardsPile,
    /// The building spots next to a port, each with its port.
    pub ports: Vec<(BuildingPosition, Port)>,
    pub robber: Robber,
    pub current: CurrentColor,
    pub setup_current: CurrentSetupColor,
    pub rotation: ColorIterator,
    pub setup_rotation: SetupColorIterator,
}

/// What the presentation has to do after an input.
#[derive(Clone, Copy, Debug, PartialEq, Eq)]
pub enum Effect {
    Nothing,
    /// Draw a road of the colour.
    Road(RoadPosition, CatanColor),
    /// Turn the town (by entity) at the spot into a city of the colour.
    City(u64, BuildingPosition, CatanColor),
    /// Draw a town of the colour; the setup rounds moved on when a step is given.
    Town(BuildingPosition, CatanColor, Option<SetupStep>),
    /// The setup rounds moved on.
    Setup(SetupStep),
    /// An ordinary turn began: highlight the player, clear the offered trades.
    NewTurn(CurrentColor, GameState),
    /// Enter the state.
    State(GameState),
    /// Show the trade offered by another player.
    ShowTrade(TradingResources),
}

/// Kind-wise sum, as a spec value.
pub open spec fn plus(a: Resources, b: Resources) -> Resources {
    Resources {
        wood: (a.wood + b.wood) as u8,
        brick: (a.brick + b.brick) as u8,
        sheep: (a.sheep + b.sheep) as u8,
        wheat: (a.wheat + b.wheat) as u8,
        ore: (a.ore + b.ore) as u8,
    }
}

/// Kind-wise difference, as a spec value.
pub open spec fn minus(a: Resources, b: Resources) -> Resources {
    Resources {
        wood: (a.wood - b.wood) as u8,
        brick: (a.brick - b.brick) as u8,
        sheep: (a.sheep - b.sheep) as u8,
        wheat: (a.wheat - b.wheat) as u8,
        ore: (a.ore - b.ore) as u8,
    }
}

/// The hand after receiving a trade, counts wrapping modulo 256.
pub open spec fn plus_trade(a: Resources, t: TradingResources) -> Resources {
    Resources {
        wood: ((as_signed(a.wood) + t.wood) % 256) as u8,
        brick: ((as_signed(a.brick) + t.brick) % 256) as u8,
        sheep: ((as_signed(a.sheep) + t.sheep) % 256) as u8,
        wheat: ((as_signed(a.wheat) + t.wheat) % 256) as u8,
        ore: ((as_signed(a.ore) + t.ore) % 256) as u8,
    }
}

/// The hand after giving a trade, counts wrapping modulo 256.
pub open spec fn minus_trade(a: Resources, t: TradingResources) -> Resources {
    Resources {
        wood: ((as_signed(a.wood) - t.wood) % 256) as u8,
        brick: ((as_signed(a.brick) - t.brick) % 256) as u8,
        sheep: ((as_signed(a.sheep) - t.sheep) % 256) as u8,
        wheat: ((as_signed(a.wheat) - t.wheat) % 256) as u8,
        ore: ((as_signed(a.ore) - t.ore) % 256) as u8,
    }
}

/// The hand with one card of kind `r` more (`d` = 1) or less (`d` = -1).
pub open spec fn shift_kind(a: Resources, r: Resource, d: int) -> Resources {
    match r {
        Resource::Wood => Resources { wood: (a.wood + d) as u8, ..a },
        Resource::Brick => Resources { brick: (a.brick + d) as u8, ..a },
        Resource::Sheep => Resources { sheep: (a.sheep + d) as u8, ..a },
        Resource::Wheat => Resources { wheat: (a.wheat + d) as u8, ..a },
        Resource::Ore => Resources { ore: (a.ore + d) as u8, ..a },
    }
}

/// The first port beside the spot, in the order of `ports`.
pub open spec fn port_at(ports: Seq<(BuildingPosition, Port)>, spot: BuildingPosition) -> Option<Port>
    decreases ports.len(),
{
    if ports.len() == 0 {
        None
    } else if ports[0].0 == spot {
        Some(ports[0].1)
    } else {
        port_at(ports.drop_first(), spot)
    }
}

/// The first port beside the spot, in the order of `ports`.
pub fn find_port(ports: &Vec<(BuildingPosition, Port)>, spot: BuildingPosition) -> (res: Option<Port>)
    ensures
        res == port_at(ports@, spot),
{
    let mut i: usize = 0;
    assert(ports@.skip(0) =~= ports@);
    while i < ports.len()
        invariant
            0 <= i <= ports@.len(),
            port_at(ports@, spot) == port_at(ports@.skip(i as int), spot),
        decreases ports@.len() - i,
    {
        let e = ports[i];
        proof {
            assert(ports@.skip(i as int)[0] == e);
            assert(ports@.skip(i as int).drop_first() =~= ports@.skip(i + 1));
        }
        if e.0 == spot {
            return Some(e.1);
        }
        i = i + 1;
    }
    None
}

/// Whether the setup rounds (rather than ordinary turns) pass the turn on in
/// this state.
pub open spec fn in_setup(state: GameState) -> bool {
    state == GameState::NotActiveSetup || state == GameState::SetupTown
}

/// Whether the turn order is in a shape that can be moved on.
pub open spec fn turns_ok(g: GameData) -> bool {
    &&& g.rotation.order@.len() > 0
    &&& g.rotation.next < g.rotation.order@.len()
    &&& g.setup_rotation.next <= 2 * g.setup_rotation.order@.len()
    &&& 2 * g.setup_rotation.order@.len() <= usize::MAX
}

/// What an input needs so that applying it leaves every count in range.
pub open spec fn input_ok(g: GameData, p: int, input: Input) -> bool {
    let pl = g.players@[p];
    match input {
        Input::NextColor => turns_ok(g),
        Input::AddRoad(_, cost) => g.bank.can_add(cost) && pl.resources.covers(cost) && pl.roads_left
            > 0,
        Input::AddCity(_, _, cost) => pl.towns_left < 255 && pl.cities_left > 0
            && pl.resources.covers(cost) && pl.victory_points.actual < 255 && g.bank.can_add(cost),
        Input::AddTown(_, cost, next) => g.bank.can_add(cost) && pl.resources.covers(cost)
            && pl.victory_points.actual < 255 && pl.towns_left > 0 && (next ==> turns_ok(g)),
        Input::TakeDevelopmentCard => g.pile.0@.len() > 0 ==> {
            let card = g.pile.0@.last();
            &&& pl.resources.covers(Resources::new_spec(1, 1, 0, 0, 0))
            &&& g.bank.can_add(Resources::new_spec(1, 1, 0, 0, 0))
            &&& (card == DevelopmentCard::VictoryPoint ==> pl.victory_points.from_development_cards
                < 255)
            &&& pl.development_cards.amount(card) < 255
        },
        Input::YearOfPlenty(r) => g.bank.amount(r) > 0 && pl.resources.amount(r) < 255,
        Input::RobberDiscard(res) => g.bank.can_add(res) && pl.resources.covers(res),
        Input::BankTrade(t) => g.bank.sub_trade_ok(t) && pl.resources.add_trade_ok(t),
        _ => true,
    }
}

fn can_add_exec(a: Resources, b: Resources) -> (res: bool)
    ensures
        res == a.can_add(b),
{
    (a.wood as u16) + (b.wood as u16) <= 255 && (a.brick as u16) + (b.brick as u16) <= 255
        && (a.sheep as u16) + (b.sheep as u16) <= 255 && (a.wheat as u16) + (b.wheat as u16) <= 255
        && (a.ore as u16) + (b.ore as u16) <= 255
}

/// Whether the turn order can be moved on (see `turns_ok`).
pub fn turns_fit(g: &GameData) -> (res: bool)
    ensures
        res == turns_ok(*g),
{
    let n = g.rotation.order.len();
    let m = g.setup_rotation.order.len();
    n > 0 && g.rotation.next < n && m <= usize::MAX / 2 && g.setup_rotation.next <= 2 * m
}

/// Whether `update_from_input` can apply the input of player `p`: the
/// player exists and every count stays in range (see `input_ok`).
pub fn input_fits(g: &GameData, p: usize, input: Input) -> (res: bool)
    ensures
        res == (p < g.players@.len() && input_ok(*g, p as int, input)),
{
    if p >= g.players.len() {
        return false;
    }
    let pl = g.players[p];
    match input {
        Input::NextColor => turns_fit(g),
        Input::AddRoad(_, cost) => can_add_exec(g.bank, cost) && pl.resources.contains(cost)
            && pl.roads_left > 0,
        Input::AddCity(_, _, cost) => pl.towns_left < 255 && pl.cities_left > 0
            && pl.resources.contains(cost) && pl.victory_points.actual < 255 && can_add_exec(
            g.bank,
            cost,
        ),
        Input::AddTown(_, cost, next) => can_add_exec(g.bank, cost) && pl.resources.contains(cost)
            && pl.victory_points.actual < 255 && pl.towns_left > 0 && (!next || turns_fit(g)),
        Input::TakeDevelopmentCard => {
            let n = g.pile.0.len();
            if n == 0 {
                true
            } else {
                let card = g.pile.0[n - 1];
                let cost = development_card_resources();
                pl.resources.contains(cost) && can_add_exec(g.bank, cost) && (card
                    != DevelopmentCard::VictoryPoint || pl.victory_points.from_development_cards
                    < 255) && pl.development_cards.get(card) < 255
            }
        },
        Input::YearOfPlenty(r) => g.bank.get(r) > 0 && pl.resources.get(r) < 255,
        Input::RobberDiscard(res) => can_add_exec(g.bank, res) && pl.resources.contains(res),
        Input::BankTrade(t) => g.bank.can_sub_trade(t) && pl.resources.can_add_trade(t),
        _ => true,
    }
}

/// One card of kind `r` less.
pub fn take_one(res: Resources, r: Resource) -> (out: Resources)
    requires
        res.amount(r) > 0,
    ensures
        out == shift_kind(res, r, -1),
{
    match r {
        Resource::Wood => Resources { wood: res.wood - 1, ..res },
        Resource::Brick => Resources { brick: res.brick - 1, ..res },
        Resource::Sheep => Resources { sheep: res.sheep - 1, ..res },
        Resource::Wheat => Resources { wheat: res.wheat - 1, ..res },
        Resource::Ore => Resources { ore: res.ore - 1, ..res },
    }
}

/// One card of kind `r` more.
pub fn give_one(res: Resources, r: Resource) -> (out: Resources)
    requires
        res.amount(r) < 255,
    ensures
        out == shift_kind(res, r, 1),
{
    match r {
        Resource::Wood => Resources { wood: res.wood + 1, ..res },
        Resource::Brick => Resources { brick: res.brick + 1, ..res },
        Resource::Sheep => Resources { sheep: res.sheep + 1, ..res },
        Resource::Wheat => Resources { wheat: res.wheat + 1, ..res },
        Resource::Ore => Resources { ore: res.ore + 1, ..res },
    }
}

/// Moves the setup rounds on and records the new current player.
fn advance_setup(game: &mut GameData, local: CatanColorRef) -> (res: SetupStep)
    requires
        turns_ok(*old(game)),
    ensures
        setup_moved(*old(game), *final(game), local),
        res == setup_step_spec(*old(game), local),
        final(game).players@ == old(game).players@,
        final(game).bank == old(game).bank,
        final(game).pile.0@ == old(game).pile.0@,
        final(game).ports@ == old(game).ports@,
        final(game).robber == old(game).robber,
{
    let step = set_setup_color(&mut game.setup_rotation, &mut game.rotation, local.handle);
    match step {
        SetupStep::Setup(c, _) => {
            game.setup_current = c;
        },
        SetupStep::Play(c, _) => {
            game.current = c;
        },
    }
    step
}

/// Passes the ordinary turn on and records the new current player.
fn advance_turn(game: &mut GameData, local: CatanColorRef) -> (res: (CurrentColor, GameState))
    requires
        turns_ok(*old(game)),
    ensures
        res == next_turn_spec(*old(game), local),
        final(game).current == res.0,
        final(game).setup_current == old(game).setup_current,
        final(game).rotation.order@ == old(game).rotation.order@,
        final(game).rotation.next == (old(game).rotation.next + 1) % (old(
            game,
        ).rotation.order@.len() as int),
        final(game).setup_rotation.order@ == old(game).setup_rotation.order@,
        final(game).setup_rotation.next == old(game).setup_rotation.next,
        final(game).players@ == old(game).players@,
        final(game).bank == old(game).bank,
        final(game).pile.0@ == old(game).pile.0@,
        final(game).ports@ == old(game).ports@,
        final(game).robber == old(game).robber,
{
    let (c, s) = set_color(&mut game.rotation, local.handle);
    game.current = c;
    (c, s)
}

/// Buys the top card of the pile for player `p`, if there is one.
fn take_development_card(game: &mut GameData, p: usize)
    requires
        p < old(game).players@.len(),
        input_ok(*old(game), p as int, Input::TakeDevelopmentCard),
    ensures
        final(game).players@.len() == old(game).players@.len(),
        forall|k: int|
            0 <= k < old(game).players@.len() && k != p ==> #[trigger] final(game).players@[k]
                == old(game).players@[k],
        update_spec(
            *old(game),
            *final(game),
            p as int,
            Input::TakeDevelopmentCard,
            GameState::Nothing,
            old(game).current.0,
            Effect::Nothing,
        ),
        final(game).ports@ == old(game).ports@,
{
    match game.pile.0.pop() {
        Some(card) => {
            let pl = game.players[p];
            let cost = development_card_resources();
            let mut cards = pl.development_cards;
            let slot = cards.get_mut(card);
            *slot = *slot + 1;
            let from_cards = if card == DevelopmentCard::VictoryPoint {
                pl.victory_points.from_development_cards + 1
            } else {
                pl.victory_points.from_development_cards
            };
            let new_pl = Player {
                resources: pl.resources.sub(cost),
                victory_points: VictoryPoints {
                    from_development_cards: from_cards,
                    ..pl.victory_points
                },
                development_cards: cards,
                ..pl
            };
            game.bank = game.bank.add(cost);
            game.players.set(p, new_pl);
        },
        None => {},
    }
}

/// Applies one player's input to the shared state. `state` is the current
/// phase and `local` the player at this machine.
pub fn update_from_input(
    game: &mut GameData,
    p: usize,
    input: Input,
    state: GameState,
    local: CatanColorRef,
) -> (res: Effect)
    requires
        p < old(game).players@.len(),
        input_ok(*old(game), p as int, input),
    ensures
        final(game).players@.len() == old(game).players@.len(),
        final(game).ports@ == old(game).ports@,
        forall|k: int|
            0 <= k < old(game).players@.len() && k != p ==> #[trigger] final(game).players@[k]
                == old(game).players@[k],
        update_spec(*old(game), *final(game), p as int, input, state, local, res),
{
    let pl = game.players[p];
    match input {
        Input::NextColor => {
            if state == GameState::NotActiveSetup || state == GameState::SetupTown {
                let step = advance_setup(game, local);
                Effect::Setup(step)
            } else {
                let (c, s) = advance_turn(game, local);
                Effect::NewTurn(c, s)
            }
        },
        Input::AddRoad(road_position, cost) => {
            game.bank = game.bank.add(cost);
            let new_pl = Player {
                resources: pl.resources.sub(cost),
                roads_left: pl.roads_left - 1,
                ..pl
            };
            game.players.set(p, new_pl);
            Effect::Road(road_position, pl.color)
        },
        Input::AddCity(town, city_position, cost) => {
            let new_pl = Player {
                resources: pl.resources.sub(cost),
                towns_left: pl.towns_left + 1,
                cities_left: pl.cities_left - 1,
                victory_points: VictoryPoints {
                    actual: pl.victory_points.actual + 1,
                    ..pl.victory_points
                },
                ..pl
            };
            game.bank = game.bank.add(cost);
            game.players.set(p, new_pl);
            Effect::City(town, city_position, pl.color)
        },
        Input::AddTown(town_position, cost, next) => {
            let ports = match find_port(&game.ports, town_position) {
                Some(port) => pl.ports.add(port),
                None => pl.ports,
            };
            let new_pl = Player {
                resources: pl.resources.sub(cost),
                towns_left: pl.towns_left - 1,
                victory_points: VictoryPoints {
                    actual: pl.victory_points.actual + 1,
                    ..pl.victory_points
                },
                ports,
                ..pl
            };
            game.bank = game.bank.add(cost);
            game.players.set(p, new_pl);
            if next {
                let step = advance_setup(game, local);
                Effect::Town(town_position, pl.color, Some(step))
            } else {
                Effect::Town(town_position, pl.color, None)
            }
        },
        Input::TakeDevelopmentCard => {
            take_development_card(game, p);
            Effect::Nothing
        },
        Input::YearOfPlenty(resource) => {
            game.bank = take_one(game.bank, resource);
            let new_pl = Player { resources: give_one(pl.resources, resource), ..pl };
            game.players.set(p, new_pl);
            Effect::Nothing
        },
        Input::RobberDiscardInit => {
            if local.entity == pl.entity {
                Effect::State(GameState::RobberDiscardResources)
            } else {
                Effect::State(GameState::RobberDiscardResourcesInActive)
            }
        },
        Input::RobberDiscard(resources) => {
            game.bank = game.bank.add(resources);
            let new_pl = Player { resources: pl.resources.sub(resources), ..pl };
            game.players.set(p, new_pl);
            Effect::Nothing
        },
        Input::Trade(trade) => {
            if pl.entity != local.entity {
                Effect::ShowTrade(trade)
            } else {
                Effect::Nothing
            }
        },
        Input::BankTrade(trading_resources) => {
            game.bank = game.bank.sub_trade(trading_resources);
            let new_pl = Player { resources: pl.resources.add_trade(trading_resources), ..pl };
            game.players.set(p, new_pl);
            Effect::Nothing
        },
        _ => Effect::Nothing,
    }
}

/// The next player of the turn order in `g0`, with the state to enter.
pub open spec fn next_turn_spec(g0: GameData, local: CatanColorRef) -> (CurrentColor, GameState) {
    let c = g0.rotation.order@[g0.rotation.next as int];
    (CurrentColor(c), if local.handle == c.handle {
        GameState::Roll
    } else {
        GameState::NotActive
    })
}

/// What moving the setup rounds on in `g0` gives.
pub open spec fn setup_step_spec(g0: GameData, local: CatanColorRef) -> SetupStep {
    match setup_turn(g0.setup_rotation.order@, g0.setup_rotation.next as int) {
        Some(c) => SetupStep::Setup(
            CurrentSetupColor(c),
            if local.handle == c.handle {
                GameState::SetupRoad
            } else {
                GameState::NotActiveSetup
            },
        ),
        None => {
            let (c, s) = next_turn_spec(g0, local);
            SetupStep::Play(c, s)
        },
    }
}

/// The turn order and current players after moving the setup rounds on.
pub open spec fn setup_moved(g0: GameData, g1: GameData, local: CatanColorRef) -> bool {
    &&& g1.setup_rotation.order@ == g0.setup_rotation.order@
    &&& g1.rotation.order@ == g0.rotation.order@
    &&& match setup_step_spec(g0, local) {
        SetupStep::Setup(c, _) => {
            &&& g1.setup_current == c
            &&& g1.current == g0.current
            &&& g1.setup_rotation.next == g0.setup_rotation.next + 1
            &&& g1.rotation.next == g0.rotation.next
        },
        SetupStep::Play(c, _) => {
            &&& g1.current == c
            &&& g1.setup_current == g0.setup_current
            &&& g1.setup_rotation.next == g0.setup_rotation.next
            &&& g1.rotation.next == (g0.rotation.next + 1) % (g0.rotation.order@.len() as int)
        },
    }
}

/// The turn order and current players are as they were.
pub open spec fn turns_kept(g0: GameData, g1: GameData) -> bool {
    &&& g1.current == g0.current
    &&& g1.setup_current == g0.setup_current
    &&& g1.rotation.order@ == g0.rotation.order@
    &&& g1.rotation.next == g0.rotation.next
    &&& g1.setup_rotation.order@ == g0.setup_rotation.order@
    &&& g1.setup_rotation.next == g0.setup_rotation.next
}

/// What `update_from_input` does, input by input.
pub open spec fn update_spec(
    g0: GameData,
    g1: GameData,
    p: int,
    input: Input,
    state: GameState,
    local: CatanColorRef,
    effect: Effect,
) -> bool {
    let pl = g0.players@[p];
    let pl1 = g1.players@[p];
    let same_bank_pile = g1.bank == g0.bank && g1.pile.0@ == g0.pile.0@ && g1.robber == g0.robber;
    match input {
        Input::NextColor => {
            &&& same_bank_pile
            &&& pl1 == pl
            &&& if in_setup(state) {
                &&& setup_moved(g0, g1, local)
                &&& effect == Effect::Setup(setup_step_spec(g0, local))
            } else {
                let (c, s) = next_turn_spec(g0, local);
                &&& g1.current == c
                &&& g1.setup_current == g0.setup_current
                &&& g1.rotation.order@ == g0.rotation.order@
                &&& g1.rotation.next == (g0.rotation.next + 1) % (g0.rotation.order@.len() as int)
                &&& g1.setup_rotation.order@ == g0.setup_rotation.order@
                &&& g1.setup_rotation.next == g0.setup_rotation.next
                &&& effect == Effect::NewTurn(c, s)
            }
        },
        Input::AddRoad(pos, cost) => {
            &&& g1.bank == plus(g0.bank, cost)
            &&& pl1 == Player {
                resources: minus(pl.resources, cost),
                roads_left: (pl.roads_left - 1) as u8,
                ..pl
            }
            &&& g1.pile.0@ == g0.pile.0@
            &&& g1.robber == g0.robber
            &&& turns_kept(g0, g1)
            &&& effect == Effect::Road(pos, pl.color)
        },
        Input::AddCity(town, pos, cost) => {
            &&& g1.bank == plus(g0.bank, cost)
            &&& pl1 == Player {
                resources: minus(pl.resources, cost),
                towns_left: (pl.towns_left + 1) as u8,
                cities_left: (pl.cities_left - 1) as u8,
                victory_points: VictoryPoints {
                    actual: (pl.victory_points.actual + 1) as u8,
                    ..pl.victory_points
                },
                ..pl
            }
            &&& g1.pile.0@ == g0.pile.0@
            &&& g1.robber == g0.robber
            &&& turns_kept(g0, g1)
            &&& effect == Effect::City(town, pos, pl.color)
        },
        Input::AddTown(pos, cost, next) => {
            &&& g1.bank == plus(g0.bank, cost)
            &&& pl1 == Player {
                resources: minus(pl.resources, cost),
                towns_left: (pl.towns_left - 1) as u8,
                victory_points: VictoryPoints {
                    actual: (pl.victory_points.actual + 1) as u8,
                    ..pl.victory_points
                },
                ports: match port_at(g0.ports@, pos) {
                    Some(port) => with_port(pl.ports, port),
                    None => pl.ports,
                },
                ..pl
            }
            &&& g1.pile.0@ == g0.pile.0@
            &&& g1.robber == g0.robber
            &&& if next {
                &&& setup_moved(g0, g1, local)
                &&& effect == Effect::Town(pos, pl.color, Some(setup_step_spec(g0, local)))
            } else {
                &&& turns_kept(g0, g1)
                &&& effect == Effect::Town(pos, pl.color, None)
            }
        },
        Input::TakeDevelopmentCard => {
            &&& effect == Effect::Nothing
            &&& g1.robber == g0.robber
            &&& turns_kept(g0, g1)
            &&& if g0.pile.0@.len() == 0 {
                g1.bank == g0.bank && pl1 == pl && g1.pile.0@ == g0.pile.0@
            } else {
                let card = g0.pile.0@.last();
                let cost = Resources::new_spec(1, 1, 0, 0, 0);
                &&& g1.pile.0@ == g0.pile.0@.drop_last()
                &&& g1.bank == plus(g0.bank, cost)
                &&& pl1.resources == minus(pl.resources, cost)
                &&& pl1.victory_points.actual == pl.victory_points.actual
                &&& pl1.victory_points.from_development_cards == if card
                    == DevelopmentCard::VictoryPoint {
                    pl.victory_points.from_development_cards + 1
                } else {
                    pl.victory_points.from_development_cards as int
                }
                &&& pl1.development_cards.amount(card) == pl.development_cards.amount(card) + 1
                &&& forall|k: DevelopmentCard|
                    k != card ==> #[trigger] pl1.development_cards.amount(k)
                        == pl.development_cards.amount(k)
                &&& pl1 == Player {
                    resources: pl1.resources,
                    victory_points: pl1.victory_points,
                    development_cards: pl1.development_cards,
                    ..pl
                }
            }
        },
        Input::YearOfPlenty(r) => {
            &&& g1.bank == shift_kind(g0.bank, r, -1)
            &&& pl1 == Player { resources: shift_kind(pl.resources, r, 1), ..pl }
            &&& g1.pile.0@ == g0.pile.0@
            &&& g1.robber == g0.robber
            &&& turns_kept(g0, g1)
            &&& effect == Effect::Nothing
        },
        Input::RobberDiscardInit => {
            &&& same_bank_pile
            &&& pl1 == pl
            &&& turns_kept(g0, g1)
            &&& effect == Effect::State(
                if local.entity == pl.entity {
                    GameState::RobberDiscardResources
                } else {
                    GameState::RobberDiscardResourcesInActive
                },
            )
        },
        Input::RobberDiscard(res) => {
            &&& g1.bank == plus(g0.bank, res)
            &&& pl1 == Player { resources: minus(pl.resources, res), ..pl }
            &&& g1.pile.0@ == g0.pile.0@
            &&& g1.robber == g0.robber
            &&& turns_kept(g0, g1)
            &&& effect == Effect::Nothing
        },
        Input::Trade(t) => {
            &&& same_bank_pile
            &&& pl1 == pl
            &&& turns_kept(g0, g1)
            &&& effect == if pl.entity != local.entity {
                Effect::ShowTrade(t)
            } else {
                Effect::Nothing
            }
        },
        Input::BankTrade(t) => {
            &&& g1.bank == minus_trade(g0.bank, t)
            &&& pl1 == Player { resources: plus_trade(pl.resources, t), ..pl }
            &&& g1.pile.0@ == g0.pile.0@
            &&& g1.robber == g0.robber
            &&& turns_kept(g0, g1)
            &&& effect == Effect::Nothing
        },
        _ => {
            &&& same_bank_pile
            &&& pl1 == pl
            &&& turns_kept(g0, g1)
            &&& effect == Effect::Nothing
        },
    }
}

} // verus!

verus! {

/// The first player (in order) whose entity is `e`.
pub open spec fn player_index(players: Seq<Player>, e: u64) -> Option<int>
    decreases players.len(),
{
    if players.len() == 0 {
        None
    } else if players.last().entity == e {
        match player_index(players.drop_last(), e) {
            Some(i) => Some(i),
            None => Some(players.len() - 1),
        }
    } else {
        player_index(players.drop_last(), e)
    }
}

/// The first player (in order) whose entity is `e`.
pub fn find_player(players: &Vec<Player>, e: u64) -> (res: Option<usize>)
    ensures
        res matches Some(i) ==> Some(i as int) == player_index(players@, e),
        res is None ==> player_index(players@, e) is None,
        res matches Some(i) ==> i < players@.len() && players@[i as int].entity == e,
{
    let mut i: usize = 0;
    while i < players.len()
        invariant
            0 <= i <= players@.len(),
            player_index(players@.take(i as int), e) is None,
        decreases players@.len() - i,
    {
        proof {
            assert(players@.take(i + 1).drop_last() =~= players@.take(i as int));
        }
        if players[i].entity == e {
            proof {
                lemma_player_index_prefix(players@, e, i + 1);
            }
            return Some(i);
        }
        proof {
            lemma_player_index_prefix(players@, e, i + 1);
        }
        i = i + 1;
    }
    assert(players@.take(players@.len() as int) =~= players@);
    None
}

/// Looking a player up in a prefix agrees with looking it up in the whole
/// list, when the prefix has it.
proof fn lemma_player_index_prefix(players: Seq<Player>, e: u64, n: int)
    requires
        0 <= n <= players.len(),
    ensures
        player_index(players.take(n), e) matches Some(i) ==> player_index(players, e) == Some(i)
            && 0 <= i < n && players[i].entity == e,
        player_index(players.take(n), e) is None && n < players.len() && players[n].entity == e
            ==> player_index(players, e) == Some(n),
    decreases players.len(),
{
    if n == players.len() {
        assert(players.take(n) =~= players);
        lemma_player_index_found(players, e);
    } else {
        lemma_player_index_prefix(players.drop_last(), e, n);
        assert(players.drop_last().take(n) =~= players.take(n));
        if n == players.len() - 1 {
            assert(players.drop_last().take(n) =~= players.drop_last());
        }
    }
}

proof fn lemma_player_index_found(players: Seq<Player>, e: u64)
    ensures
        player_index(players, e) matches Some(i) ==> 0 <= i < players.len() && players[i].entity
            == e,
    decreases players.len(),
{
    if players.len() > 0 {
        lemma_player_index_found(players.drop_last(), e);
    }
}

/// Whether `update_from_trade_accept` can apply the trade (its
/// precondition): every count stays a signed byte.
pub fn trade_accept_fits(players: &Vec<Player>, p: usize, trade: TradingResources, trader: u64) -> (res:
    bool)
    ensures
        res == (p < players@.len() && match player_index(players@, trader) {
            Some(t) => players@[t].resources.sub_trade_ok(trade) && (if t == p {
                minus_trade(players@[p as int].resources, trade)
            } else {
                players@[p as int].resources
            }).add_trade_ok(trade),
            None => players@[p as int].resources.add_trade_ok(trade),
        }),
{
    if p >= players.len() {
        return false;
    }
    match find_player(players, trader) {
        Some(t) => {
            let given = players[t].resources;
            if !given.can_sub_trade(trade) {
                return false;
            }
            let receiver = if t == p {
                given.sub_trade(trade)
            } else {
                players[p].resources
            };
            receiver.can_add_trade(trade)
        },
        None => players[p].resources.can_add_trade(trade),
    }
}

/// Whether `update_from_knight` can move the card (its precondition): the
/// robbed player, when found, holds one, and the thief has room for it.
pub fn knight_fits(players: &Vec<Player>, p: usize, robbed: u64, resource: Resource) -> (res: bool)
    ensures
        res == (p < players@.len() && match player_index(players@, robbed) {
            Some(t) => players@[t].resources.amount(resource) > 0 && (if t == p {
                shift_kind(players@[p as int].resources, resource, -1)
            } else {
                players@[p as int].resources
            }).amount(resource) < 255,
            None => players@[p as int].resources.amount(resource) < 255,
        }),
{
    if p >= players.len() {
        return false;
    }
    match find_player(players, robbed) {
        Some(t) => {
            let held = players[t].resources.get(resource);
            if held == 0 {
                return false;
            }
            if t == p {
                held - 1 < 255
            } else {
                players[p].resources.get(resource) < 255
            }
        },
        None => players[p].resources.get(resource) < 255,
    }
}

/// Accepts a trade offered by `trader`: the offering player gives the trade
/// (when found) and player `p` receives it.
pub fn update_from_trade_accept(players: &mut Vec<Player>, p: usize, trade: TradingResources, trader: u64)
    requires
        p < old(players)@.len(),
        match player_index(old(players)@, trader) {
            Some(t) => old(players)@[t].resources.sub_trade_ok(trade) && (if t == p {
                minus_trade(old(players)@[p as int].resources, trade)
            } else {
                old(players)@[p as int].resources
            }).add_trade_ok(trade),
            None => old(players)@[p as int].resources.add_trade_ok(trade),
        },
    ensures
        final(players)@.len() == old(players)@.len(),
        match player_index(old(players)@, trader) {
            Some(t) => if t == p {
                final(players)@ == old(players)@.update(
                    p as int,
                    Player {
                        resources: plus_trade(minus_trade(old(players)@[p as int].resources, trade), trade),
                        ..old(players)@[p as int]
                    },
                )
            } else {
                final(players)@ == old(players)@.update(
                    t,
                    Player { resources: minus_trade(old(players)@[t].resources, trade), ..old(players)@[t] },
                ).update(
                    p as int,
                    Player { resources: plus_trade(old(players)@[p as int].resources, trade), ..old(players)@[p as int] },
                )
            },
            None => final(players)@ == old(players)@.update(
                p as int,
                Player { resources: plus_trade(old(players)@[p as int].resources, trade), ..old(players)@[p as int] },
            ),
        },
{
    match find_player(players, trader) {
        Some(t) => {
            let tp = players[t];
            players.set(t, Player { resources: tp.resources.sub_trade(trade), ..tp });
        },
        None => {},
    }
    let pp = players[p];
    players.set(p, Player { resources: pp.resources.add_trade(trade), ..pp });
}

/// The robber takes a card of kind `resource` from the player `robbed` (when
/// found) for player `p`, and stands on `position`.
pub fn update_from_knight(
    players: &mut Vec<Player>,
    robber: &mut Robber,
    p: usize,
    robbed: u64,
    resource: Resource,
    position: Position,
)
    requires
        p < old(players)@.len(),
        match player_index(old(players)@, robbed) {
            Some(t) => old(players)@[t].resources.amount(resource) > 0 && (if t == p {
                shift_kind(old(players)@[p as int].resources, resource, -1)
            } else {
                old(players)@[p as int].resources
            }).amount(resource) < 255,
            None => old(players)@[p as int].resources.amount(resource) < 255,
        },
    ensures
        final(players)@.len() == old(players)@.len(),
        *final(robber) == Robber(position),
        match player_index(old(players)@, robbed) {
            Some(t) => if t == p {
                final(players)@ == old(players)@
            } else {
                final(players)@ == old(players)@.update(
                    t,
                    Player { resources: shift_kind(old(players)@[t].resources, resource, -1), ..old(players)@[t] },
                ).update(
                    p as int,
                    Player { resources: shift_kind(old(players)@[p as int].resources, resource, 1), ..old(players)@[p as int] },
                )
            },
            None => final(players)@ == old(players)@.update(
                p as int,
                Player { resources: shift_kind(old(players)@[p as int].resources, resource, 1), ..old(players)@[p as int] },
            ),
        },
{
    let ghost start = players@;
    match find_player(players, robbed) {
        Some(t) => {
            let tp = players[t];
            players.set(t, Player { resources: take_one(tp.resources, resource), ..tp });
        },
        None => {},
    }
    let pp = players[p];
    players.set(p, Player { resources: give_one(pp.resources, resource), ..pp });
    *robber = Robber(position);
    proof {
        match player_index(start, robbed) {
            Some(t) => {
                if t == p {
                    assert(shift_kind(shift_kind(start[p as int].resources, resource, -1), resource, 1)
                        == start[p as int].resources);
                    assert(players@ =~= start);
                }
            },
            None => {},
        }
    }
}

/// The robber moves to `position` without taking anything.
pub fn update_from_move_knight(robber: &mut Robber, position: Position)
    ensures
        *final(robber) == Robber(position),
{
    *robber = Robber(position);
}

/// The total number of cards of kind `r` held by the players.
pub open spec fn total_of(players: Seq<Player>, r: Resource) -> int
    decreases players.len(),
{
    if players.len() == 0 {
        0
    } else {
        total_of(players.drop_last(), r) + players.last().resources.amount(r)
    }
}

/// The hand with no cards of kind `r`.
pub open spec fn without_kind(a: Resources, r: Resource) -> Resources {
    match r {
        Resource::Wood => Resources { wood: 0, ..a },
        Resource::Brick => Resources { brick: 0, ..a },
        Resource::Sheep => Resources { sheep: 0, ..a },
        Resource::Wheat => Resources { wheat: 0, ..a },
        Resource::Ore => Resources { ore: 0, ..a },
    }
}

/// The hand with exactly `n` cards of kind `r`.
pub open spec fn with_kind(a: Resources, r: Resource, n: u8) -> Resources {
    match r {
        Resource::Wood => Resources { wood: n, ..a },
        Resource::Brick => Resources { brick: n, ..a },
        Resource::Sheep => Resources { sheep: n, ..a },
        Resource::Wheat => Resources { wheat: n, ..a },
        Resource::Ore => Resources { ore: n, ..a },
    }
}

fn set_kind(a: Resources, r: Resource, n: u8) -> (res: Resources)
    ensures
        res == with_kind(a, r, n),
{
    match r {
        Resource::Wood => Resources { wood: n, ..a },
        Resource::Brick => Resources { brick: n, ..a },
        Resource::Sheep => Resources { sheep: n, ..a },
        Resource::Wheat => Resources { wheat: n, ..a },
        Resource::Ore => Resources { ore: n, ..a },
    }
}

/// The cards of kind `r` held by the players, if they fit in a `u8` (the
/// precondition of `update_from_monopoly`).
pub fn monopoly_total(players: &Vec<Player>, r: Resource) -> (res: Option<u8>)
    ensures
        res matches Some(t) ==> t == total_of(players@, r),
        res is None <==> total_of(players@, r) > 255,
{
    let mut sum: u16 = 0;
    let mut i: usize = 0;
    while i < players.len()
        invariant
            0 <= i <= players@.len(),
            sum == total_of(players@.take(i as int), r),
            sum <= 255,
        decreases players@.len() - i,
    {
        proof {
            assert(players@.take(i + 1).drop_last() =~= players@.take(i as int));
        }
        sum = sum + players[i].resources.get(r) as u16;
        if sum > 255 {
            proof {
                lemma_total_prefix(players@, r, i + 1);
            }
            return None;
        }
        i = i + 1;
    }
    assert(players@.take(players@.len() as int) =~= players@);
    Some(sum as u8)
}

/// Monopoly: player `p` takes every card of kind `r` from every player.
pub fn update_from_monopoly(players: &mut Vec<Player>, p: usize, r: Resource)
    requires
        p < old(players)@.len(),
        total_of(old(players)@, r) <= 255,
    ensures
        final(players)@.len() == old(players)@.len(),
        forall|k: int|
            0 <= k < old(players)@.len() && k != p ==> #[trigger] final(players)@[k] == (Player {
                resources: without_kind(old(players)@[k].resources, r),
                ..old(players)@[k]
            }),
        final(players)@[p as int] == (Player {
            resources: with_kind(old(players)@[p as int].resources, r, total_of(old(players)@, r) as u8),
            ..old(players)@[p as int]
        }),
{
    let ghost start = players@;
    let mut taken: u8 = 0;
    let mut i: usize = 0;
    while i < players.len()
        invariant
            0 <= i <= players@.len(),
            players@.len() == start.len(),
            p < start.len(),
            total_of(start, r) <= 255,
            taken == total_of(start.take(i as int), r),
            forall|k: int| 0 <= k < i ==> #[trigger] players@[k] == (Player {
                resources: without_kind(start[k].resources, r),
                ..start[k]
            }),
            forall|k: int| i <= k < players@.len() ==> #[trigger] players@[k] == start[k],
        decreases players@.len() - i,
    {
        proof {
            assert(start.take(i + 1).drop_last() =~= start.take(i as int));
            lemma_total_prefix(start, r, i + 1);
        }
        let pl = players[i];
        let here = pl.resources.get(r);
        taken = taken + here;
        players.set(i, Player { resources: set_kind(pl.resources, r, 0), ..pl });
        proof {
            assert(with_kind(start[i as int].resources, r, 0) == without_kind(start[i as int].resources, r));
        }
        i = i + 1;
    }
    assert(start.take(start.len() as int) =~= start);
    let pl = players[p];
    players.set(p, Player { resources: set_kind(pl.resources, r, taken), ..pl });
    proof {
        assert(with_kind(without_kind(start[p as int].resources, r), r, taken) == with_kind(
            start[p as int].resources,
            r,
            taken,
        ));
    }
}

proof fn lemma_total_prefix(players: Seq<Player>, r: Resource, n: int)
    requires
        0 <= n <= players.len(),
    ensures
        0 <= total_of(players.take(n), r) <= total_of(players, r),
    decreases players.len(),
{
    if n == players.len() {
        assert(players.take(n) =~= players);
        lemma_total_nonneg(players, r);
    } else {
        lemma_total_prefix(players.drop_last(), r, n);
        assert(players.drop_last().take(n) =~= players.take(n));
    }
}

proof fn lemma_total_nonneg(players: Seq<Player>, r: Resource)
    ensures
        total_of(players, r) >= 0,
    decreases players.len(),
{
    if players.len() > 0 {
        lemma_total_nonneg(players.drop_last(), r);
    }
}

/// The dice of the first `Roll` among the inputs, in order.
pub open spec fn first_roll_spec(inputs: Seq<Input>) -> Option<(u8, u8, u8)>
    decreases inputs.len(),
{
    if inputs.len() == 0 {
        None
    } else {
        match inputs[0] {
            Input::Roll(a, b, c) => Some((a, b, c)),
            _ => first_roll_spec(inputs.drop_first()),
        }
    }
}

/// The dice of the first `Roll` among the inputs, in order.
pub fn first_roll(inputs: &Vec<Input>) -> (res: Option<(u8, u8, u8)>)
    ensures
        res == first_roll_spec(inputs@),
{
    let mut i: usize = 0;
    assert(inputs@.skip(0) =~= inputs@);
    while i < inputs.len()
        invariant
            0 <= i <= inputs@.len(),
            first_roll_spec(inputs@) == first_roll_spec(inputs@.skip(i as int)),
        decreases inputs@.len() - i,
    {
        proof {
            assert(inputs@.skip(i as int)[0] == inputs@[i as int]);
            assert(inputs@.skip(i as int).drop_first() =~= inputs@.skip(i + 1));
        }
        match inputs[i] {
            Input::Roll(a, b, c) => {
                return Some((a, b, c));
            },
            _ => {},
        }
        i = i + 1;
    }
    None
}

/// How an input of a frame stands in the peer-to-peer session.
#[derive(Clone, Copy, Debug, PartialEq, Eq, Structural)]
pub enum InputStatus {
    /// Every peer has it.
    Confirmed,
    /// Guessed until the peer's input arrives.
    Predicted,
    /// The peer left.
    Disconnected,
}

/// Whether an input of a frame is applied to the game: every input but a
/// guessed one is.
pub fn input_applies(status: InputStatus) -> (res: bool)
    ensures
        res == !(status is Predicted),
{
    match status {
        InputStatus::Predicted => false,
        _ => true,
    }
}

} // verus!

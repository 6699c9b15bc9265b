//! What the rules keep across their operations: no resource card is lost
//! or made up, the turns go round, the setup rounds snake, and the bonus
//! points exist once.
use vstd::prelude::*;

use crate::army::{LargetArmy, army_step, army_step_ok, bump};
use crate::army::army_fold;
use crate::board::{Placed, Port, Ports, Tile, paid_from_bank, paid_to, rate_spec, with_port};
use crate::colors::CatanColor;
use crate::placement::{all_candidates, blocked, own_roads, possible_roads_spec, road_taken};
use crate::positions::{BuildingPosition, RoadPosition, road_eq_spec};
use crate::colors::{PlayerHandle, SetupStep, CurrentColor, CurrentSetupColor, setup_step, setup_turn};
use crate::game::{
    Effect, GameData, GameState, Input, Player, VictoryPoints, minus, minus_trade, plus,
    plus_trade, player_index, shift_kind, turns_kept, in_setup, total_of, update_spec, with_kind, without_kind,
};
use crate::longest_road::{LongestRoad, alone_at_max, last_at_max, reassign_spec, road_step, road_step_ok};
use crate::positions::Position;
use crate::colors::CatanColorRef;
use crate::resources::{Resource, Resources};
use crate::trading::{TradingResources, as_signed, trade_amount};

verus! {

proof fn lemma_total_update(players: Seq<Player>, p: int, x: Player, r: Resource)
    requires
        0 <= p < players.len(),
    ensures
        total_of(players.update(p, x), r) == total_of(players, r) - players[p].resources.amount(r)
            + x.resources.amount(r),
    decreases players.len(),
{
    if p == players.len() - 1 {
        assert(players.update(p, x).drop_last() =~= players.drop_last());
    } else {
        lemma_total_update(players.drop_last(), p, x, r);
        assert(players.update(p, x).drop_last() =~= players.drop_last().update(p, x));
    }
}

proof fn lemma_total_pointwise(a: Seq<Player>, b: Seq<Player>, r: Resource)
    requires
        a.len() == b.len(),
        forall|i: int| 0 <= i < a.len() ==> #[trigger] a[i].resources.amount(r) == b[i].resources.amount(r),
    ensures
        total_of(a, r) == total_of(b, r),
    decreases a.len(),
{
    if a.len() > 0 {
        lemma_total_pointwise(a.drop_last(), b.drop_last(), r);
    }
}

/// How a count `a` moved by `d` the way a trade moves it (read as a signed
/// byte, moved, and put back into a byte) wraps across the byte's sign:
/// `1` when a count below 128 goes below zero and comes back as a large
/// byte, `-1` when a count of 128 or more (a negative signed byte) comes
/// back to zero or above, `0` otherwise.
pub open spec fn wrap_of(a: int, d: int) -> int {
    let signed = if a < 128 {
        a
    } else {
        a - 256
    };
    if a < 128 && signed + d < 0 {
        1
    } else if a >= 128 && signed + d >= 0 {
        -1
    } else {
        0
    }
}

/// The moved count is the plain sum, off by 256 for each wrap.
proof fn lemma_moved(a: u8, d: int)
    requires
        -128 <= d <= 128,
    ensures
        ((as_signed(a) + d) % 256) as u8 == a + d + 256 * wrap_of(a as int, d),
{
    let x = as_signed(a) + d;
    if x >= 0 {
        vstd::arithmetic::div_mod::lemma_small_mod(x as nat, 256);
    } else {
        vstd::arithmetic::div_mod::lemma_small_mod((x + 256) as nat, 256);
        vstd::arithmetic::div_mod::lemma_mod_add_multiples_vanish(x, 256);
    }
}

proof fn lemma_trade_kind(a: Resources, t: TradingResources, k: Resource)
    ensures
        plus_trade(a, t).amount(k) == a.amount(k) + trade_amount(t, k) + 256 * wrap_of(
            a.amount(k),
            trade_amount(t, k),
        ),
        minus_trade(a, t).amount(k) == a.amount(k) - trade_amount(t, k) + 256 * wrap_of(
            a.amount(k),
            -trade_amount(t, k),
        ),
{
    match k {
        Resource::Wood => {
            lemma_moved(a.wood, t.wood as int);
            lemma_moved(a.wood, -t.wood);
        },
        Resource::Brick => {
            lemma_moved(a.brick, t.brick as int);
            lemma_moved(a.brick, -t.brick);
        },
        Resource::Sheep => {
            lemma_moved(a.sheep, t.sheep as int);
            lemma_moved(a.sheep, -t.sheep);
        },
        Resource::Wheat => {
            lemma_moved(a.wheat, t.wheat as int);
            lemma_moved(a.wheat, -t.wheat);
        },
        Resource::Ore => {
            lemma_moved(a.ore, t.ore as int);
            lemma_moved(a.ore, -t.ore);
        },
    }
}

/// Whether the cards of kind `r` that the input moves fit: what the player
/// pays is in the hand and fits in the bank, what the bank gives is in the
/// bank and fits in the hand, and a trade with the bank wraps no count of
/// the kind across the byte's sign on one side alone (see `wrap_of`).
pub open spec fn cards_fit(g: GameData, p: int, input: Input, r: Resource) -> bool {
    let hand = g.players@[p].resources;
    match input {
        Input::AddRoad(_, cost) => g.bank.amount(r) + cost.amount(r) <= 255 && hand.amount(r)
            >= cost.amount(r),
        Input::AddCity(_, _, cost) => g.bank.amount(r) + cost.amount(r) <= 255 && hand.amount(r)
            >= cost.amount(r),
        Input::AddTown(_, cost, _) => g.bank.amount(r) + cost.amount(r) <= 255 && hand.amount(r)
            >= cost.amount(r),
        Input::RobberDiscard(cost) => g.bank.amount(r) + cost.amount(r) <= 255 && hand.amount(r)
            >= cost.amount(r),
        Input::TakeDevelopmentCard => g.pile.0@.len() > 0 ==> {
            let cost = Resources::new_spec(1, 1, 0, 0, 0);
            g.bank.amount(r) + cost.amount(r) <= 255 && hand.amount(r) >= cost.amount(r)
        },
        Input::YearOfPlenty(k) => k == r ==> g.bank.amount(r) > 0 && hand.amount(r) < 255,
        Input::BankTrade(t) => wrap_of(g.bank.amount(r), -trade_amount(t, r)) + wrap_of(
            hand.amount(r),
            trade_amount(t, r),
        ) == 0,
        _ => true,
    }
}

/// Every input keeps the number of cards of each kind in the game, bank
/// and hands together: what a player pays goes to the bank and what the
/// bank gives comes from it, whenever those cards fit (see `cards_fit`):
/// no other condition of the input is needed. A trade with the bank moves counts as signed
/// bytes that wrap; it keeps the cards of a kind unless exactly one of the
/// two counts, the bank's and the player's, wraps across the byte's sign,
/// or both wrap the same way (see `wrap_of`): on those inputs the sum is
/// off by 256 or 512.
pub proof fn law_input_keeps_cards(
    g0: GameData,
    g1: GameData,
    p: int,
    input: Input,
    state: GameState,
    local: CatanColorRef,
    effect: Effect,
    r: Resource,
)
    requires
        0 <= p < g0.players@.len(),
        cards_fit(g0, p, input, r),
        g1.players@.len() == g0.players@.len(),
        forall|k: int|
            0 <= k < g0.players@.len() && k != p ==> #[trigger] g1.players@[k] == g0.players@[k],
        update_spec(g0, g1, p, input, state, local, effect),
    ensures
        g1.bank.amount(r) + total_of(g1.players@, r) == g0.bank.amount(r) + total_of(
            g0.players@,
            r,
        ),
{
    assert(g1.players@ =~= g0.players@.update(p, g1.players@[p]));
    lemma_total_update(g0.players@, p, g1.players@[p], r);
    match input {
        Input::BankTrade(t) => {
            lemma_trade_kind(g0.bank, t, r);
            lemma_trade_kind(g0.players@[p].resources, t, r);
        },
        _ => {},
    }
}

/// An idle input changes nothing: the bank, the pile, the robber, every
/// player and the turn order stay as they were, and nothing is to be shown.
pub proof fn law_idle_input_changes_nothing(
    g0: GameData,
    g1: GameData,
    p: int,
    state: GameState,
    local: CatanColorRef,
    effect: Effect,
)
    requires
        0 <= p < g0.players@.len(),
        g1.players@.len() == g0.players@.len(),
        forall|k: int|
            0 <= k < g0.players@.len() && k != p ==> #[trigger] g1.players@[k] == g0.players@[k],
        update_spec(g0, g1, p, Input::Idle, state, local, effect),
    ensures
        g1.bank == g0.bank,
        g1.pile.0@ == g0.pile.0@,
        g1.robber == g0.robber,
        g1.players@ == g0.players@,
        turns_kept(g0, g1),
        effect == Effect::Nothing,
{
    assert(g1.players@ =~= g0.players@);
}

/// A monopoly moves every card of the kind to the player who plays it:
/// nobody else keeps one, and no card of any kind is lost or made up.
pub proof fn law_monopoly_keeps_cards(
    before: Seq<Player>,
    after: Seq<Player>,
    p: int,
    r: Resource,
    k: Resource,
)
    requires
        0 <= p < before.len(),
        total_of(before, r) <= 255,
        after.len() == before.len(),
        forall|i: int|
            0 <= i < before.len() && i != p ==> #[trigger] after[i] == (Player {
                resources: without_kind(before[i].resources, r),
                ..before[i]
            }),
        after[p] == (Player {
            resources: with_kind(before[p].resources, r, total_of(before, r) as u8),
            ..before[p]
        }),
    ensures
        total_of(after, k) == total_of(before, k),
        after[p].resources.amount(r) == total_of(before, r),
        forall|i: int| 0 <= i < after.len() && i != p ==> #[trigger] after[i].resources.amount(r) == 0,
{
    lemma_total_nonneg(before, r);
    if k != r {
        assert forall|i: int| 0 <= i < after.len() implies #[trigger] after[i].resources.amount(k)
            == before[i].resources.amount(k) by {
            if i != p {
                assert(after[i].resources == without_kind(before[i].resources, r));
            }
        }
        lemma_total_pointwise(after, before, k);
    } else {
        let emptied = after.update(p, Player { resources: without_kind(after[p].resources, r), ..after[p] });
        lemma_total_update(after, p, emptied[p], r);
        lemma_total_zero(emptied, r);
    }
}

proof fn lemma_total_zero(a: Seq<Player>, r: Resource)
    requires
        forall|i: int| 0 <= i < a.len() ==> #[trigger] a[i].resources.amount(r) == 0,
    ensures
        total_of(a, r) == 0,
    decreases a.len(),
{
    if a.len() > 0 {
        lemma_total_zero(a.drop_last(), r);
    }
}

proof fn lemma_total_nonneg(a: Seq<Player>, r: Resource)
    ensures
        total_of(a, r) >= 0,
    decreases a.len(),
{
    if a.len() > 0 {
        lemma_total_nonneg(a.drop_last(), r);
    }
}

/// Accepting a trade moves cards between the two players only: when the
/// offering player is found, no card of a kind is lost or made up, unless
/// the two players' counts of it do not wrap across the byte's sign in
/// step (see `wrap_of`).
pub proof fn law_trade_accept_keeps_cards(
    before: Seq<Player>,
    after: Seq<Player>,
    p: int,
    trade: TradingResources,
    trader: u64,
    k: Resource,
)
    requires
        0 <= p < before.len(),
        player_index(before, trader) matches Some(t) && t != p && 0 <= t < before.len()
            && after == before.update(
            t,
            Player { resources: minus_trade(before[t].resources, trade), ..before[t] },
        ).update(p, Player { resources: plus_trade(before[p].resources, trade), ..before[p] })
            && wrap_of(before[t].resources.amount(k), -trade_amount(trade, k)) + wrap_of(
            before[p].resources.amount(k),
            trade_amount(trade, k),
        ) == 0,
    ensures
        total_of(after, k) == total_of(before, k),
{
    let t = player_index(before, trader)->0;
    let mid = before.update(t, Player { resources: minus_trade(before[t].resources, trade), ..before[t] });
    lemma_total_update(before, t, mid[t], k);
    lemma_total_update(mid, p, after[p], k);
    lemma_trade_kind(before[t].resources, trade, k);
    lemma_trade_kind(before[p].resources, trade, k);
}

/// The robber's theft moves one card from the robbed player to the thief:
/// when the robbed player is found, no card of any kind is lost or made
/// up.
pub proof fn law_knight_keeps_cards(
    before: Seq<Player>,
    after: Seq<Player>,
    p: int,
    robbed: u64,
    resource: Resource,
    k: Resource,
)
    requires
        0 <= p < before.len(),
        player_index(before, robbed) matches Some(t) && 0 <= t < before.len() && before[t].resources.amount(resource) > 0
            && (t == p ==> after == before) && (t != p ==> after == before.update(
            t,
            Player { resources: shift_kind(before[t].resources, resource, -1), ..before[t] },
        ).update(
            p,
            Player { resources: shift_kind(before[p].resources, resource, 1), ..before[p] },
        ) && before[p].resources.amount(resource) < 255),
    ensures
        total_of(after, k) == total_of(before, k),
{
    let t = player_index(before, robbed)->0;
    if t != p {
        let mid = before.update(
            t,
            Player { resources: shift_kind(before[t].resources, resource, -1), ..before[t] },
        );
        lemma_total_update(before, t, mid[t], k);
        lemma_total_update(mid, p, after[p], k);
    }
}

/// The cards of kind `r` in the hands.
pub open spec fn hands_total(hands: Seq<Resources>, r: Resource) -> int
    decreases hands.len(),
{
    if hands.len() == 0 {
        0
    } else {
        hands_total(hands.drop_last(), r) + hands.last().amount(r)
    }
}

/// The cards of kind `r` that the first `n` players are paid for the
/// buildings.
pub open spec fn paid_sum(
    buildings: Seq<Placed>,
    n: int,
    r: Resource,
    board: Seq<Tile>,
    roll: u8,
    robber: Position,
) -> int
    decreases n,
{
    if n <= 0 {
        0
    } else {
        paid_sum(buildings, n - 1, r, board, roll, robber) + paid_to(
            buildings,
            n - 1,
            r,
            board,
            roll,
            robber,
        )
    }
}

proof fn lemma_paid_sum(
    buildings: Seq<Placed>,
    n: int,
    r: Resource,
    board: Seq<Tile>,
    roll: u8,
    robber: Position,
)
    requires
        n >= 0,
    ensures
        paid_sum(buildings, n, r, board, roll, robber) == paid_from_bank(
            buildings,
            n,
            r,
            board,
            roll,
            robber,
        ),
    decreases buildings.len(), n,
{
    if buildings.len() == 0 {
        lemma_paid_sum_empty(buildings, n, r, board, roll, robber);
    } else {
        lemma_paid_sum(buildings.drop_last(), n, r, board, roll, robber);
        lemma_paid_sum_split(buildings, n, r, board, roll, robber);
    }
}

proof fn lemma_paid_sum_empty(
    buildings: Seq<Placed>,
    n: int,
    r: Resource,
    board: Seq<Tile>,
    roll: u8,
    robber: Position,
)
    requires
        buildings.len() == 0,
        n >= 0,
    ensures
        paid_sum(buildings, n, r, board, roll, robber) == 0,
    decreases n,
{
    if n > 0 {
        lemma_paid_sum_empty(buildings, n - 1, r, board, roll, robber);
    }
}

/// The last building is paid to one player at most: its owner.
proof fn lemma_paid_sum_split(
    buildings: Seq<Placed>,
    n: int,
    r: Resource,
    board: Seq<Tile>,
    roll: u8,
    robber: Position,
)
    requires
        buildings.len() > 0,
        n >= 0,
    ensures
        paid_sum(buildings, n, r, board, roll, robber) == paid_sum(
            buildings.drop_last(),
            n,
            r,
            board,
            roll,
            robber,
        ) + if buildings.last().0 < n && (match crate::board::first_paying(
            board,
            roll,
            robber,
            buildings.last().1,
        ) {
            Some(h) => crate::board::produces(h) == Some(r),
            None => false,
        }) {
            1int
        } else {
            0int
        },
    decreases n,
{
    if n > 0 {
        lemma_paid_sum_split(buildings, n - 1, r, board, roll, robber);
    }
}

/// Paying out a roll moves cards from the bank to the players: for each
/// kind, the bank's cards and the players' cards together stay the same.
pub proof fn law_payout_keeps_cards(
    roll: u8,
    board: Seq<Tile>,
    towns: Seq<Placed>,
    cities: Seq<Placed>,
    before: Seq<Resources>,
    after: Seq<Resources>,
    bank: Resources,
    bank_after: Resources,
    robber: Position,
    r: Resource,
)
    requires
        after.len() == before.len(),
        forall|p: int|
            0 <= p < before.len() ==> #[trigger] after[p].amount(r) == before[p].amount(r) + paid_to(
                towns,
                p,
                r,
                board,
                roll,
                robber,
            ) + 2 * paid_to(cities, p, r, board, roll, robber),
        bank_after.amount(r) == bank.amount(r) - paid_from_bank(
            towns,
            before.len() as int,
            r,
            board,
            roll,
            robber,
        ) - 2 * paid_from_bank(cities, before.len() as int, r, board, roll, robber),
    ensures
        bank_after.amount(r) + hands_total(after, r) == bank.amount(r) + hands_total(before, r),
{
    lemma_payout_prefix(roll, board, towns, cities, before, after, robber, r, before.len() as int);
    lemma_paid_sum(towns, before.len() as int, r, board, roll, robber);
    lemma_paid_sum(cities, before.len() as int, r, board, roll, robber);
    assert(before.take(before.len() as int) =~= before);
    assert(after.take(after.len() as int) =~= after);
}

proof fn lemma_payout_prefix(
    roll: u8,
    board: Seq<Tile>,
    towns: Seq<Placed>,
    cities: Seq<Placed>,
    before: Seq<Resources>,
    after: Seq<Resources>,
    robber: Position,
    r: Resource,
    n: int,
)
    requires
        0 <= n <= before.len(),
        after.len() == before.len(),
        forall|p: int|
            0 <= p < before.len() ==> #[trigger] after[p].amount(r) == before[p].amount(r) + paid_to(
                towns,
                p,
                r,
                board,
                roll,
                robber,
            ) + 2 * paid_to(cities, p, r, board, roll, robber),
    ensures
        hands_total(after.take(n), r) == hands_total(before.take(n), r) + paid_sum(
            towns,
            n,
            r,
            board,
            roll,
            robber,
        ) + 2 * paid_sum(cities, n, r, board, roll, robber),
    decreases n,
{
    if n > 0 {
        lemma_payout_prefix(roll, board, towns, cities, before, after, robber, r, n - 1);
        assert(after.take(n).drop_last() =~= after.take(n - 1));
        assert(before.take(n).drop_last() =~= before.take(n - 1));
    }
}

/// The index of the player whose turn it is after `k` turns passed on from
/// `start`, with `n` players, each pass moving to the next one round the
/// table (as `ColorIterator::next_color` does).
pub open spec fn after_turns(start: int, n: int, k: nat) -> int
    decreases k,
{
    if k == 0 {
        start
    } else {
        (after_turns(start, n, (k - 1) as nat) + 1) % n
    }
}

/// The turns go round: after `k` passes the turn is `k` places further on,
/// so after as many passes as there are players it is back where it began.
pub proof fn law_turns_go_round(start: int, n: int, k: nat)
    requires
        0 <= start < n,
    ensures
        after_turns(start, n, k) == (start + k) % n,
        after_turns(start, n, n as nat) == start,
{
    lemma_after_turns(start, n, k);
    lemma_full_round(start, n);
}

proof fn lemma_full_round(start: int, n: int)
    requires
        0 <= start < n,
    ensures
        after_turns(start, n, n as nat) == start,
{
    lemma_after_turns(start, n, n as nat);
    vstd::arithmetic::div_mod::lemma_mod_add_multiples_vanish(start, n);
    vstd::arithmetic::div_mod::lemma_small_mod(start as nat, n as nat);
}

proof fn lemma_after_turns(start: int, n: int, k: nat)
    requires
        0 <= start < n,
    ensures
        after_turns(start, n, k) == (start + k) % n,
    decreases k,
{
    if k > 0 {
        lemma_after_turns(start, n, (k - 1) as nat);
        vstd::arithmetic::div_mod::lemma_add_mod_noop_right(1, start + k - 1, n);
    } else {
        vstd::arithmetic::div_mod::lemma_small_mod(start as nat, n as nat);
    }
}

/// The setup rounds snake: the player placing `i`-th in the first round
/// places again `i`-th from the end of the second, so the last player of
/// the first round starts the second; after both rounds nobody places.
pub proof fn law_setup_rounds_snake(order: Seq<CatanColorRef>, i: int, j: int)
    requires
        0 <= i < order.len(),
    ensures
        setup_turn(order, i) == Some(order[i]),
        setup_turn(order, 2 * order.len() - 1 - i) == Some(order[i]),
        j >= 2 * order.len() ==> setup_turn(order, j) is None,
        j < 0 ==> setup_turn(order, j) is None,
{
}

/// The two positions after `k` calls of `set_setup_color` (see
/// `setup_step`), from the start of the setup rounds and the turn order at
/// `c0`.
pub open spec fn setup_run(
    order: Seq<CatanColorRef>,
    colors: Seq<CatanColorRef>,
    local: PlayerHandle,
    c0: int,
    k: nat,
) -> (int, int)
    decreases k,
{
    if k == 0 {
        (0, c0)
    } else {
        let before = setup_run(order, colors, local, c0, (k - 1) as nat);
        let step = setup_step(order, colors, local, before.0, before.1);
        (step.1, step.2)
    }
}

/// What the `k`-th call of `set_setup_color` (counting from one) decides.
pub open spec fn setup_call(
    order: Seq<CatanColorRef>,
    colors: Seq<CatanColorRef>,
    local: PlayerHandle,
    c0: int,
    k: nat,
) -> SetupStep {
    let before = setup_run(order, colors, local, c0, (k - 1) as nat);
    setup_step(order, colors, local, before.0, before.1).0
}

/// Repeated calls of `set_setup_color` from the start of the setup rounds
/// over `n` players: the `k`-th call lets the `k`-th player place for `k`
/// up to `n`, then the players again in reverse order up to call `2n`; call
/// `2n + 1` ends the setup and gives the first ordinary turn to the player
/// at the turn order's position, the setup's place being the local
/// player's own when its handle is local.
pub proof fn law_setup_calls(
    order: Seq<CatanColorRef>,
    colors: Seq<CatanColorRef>,
    local: PlayerHandle,
    c0: int,
    k: nat,
)
    requires
        0 <= c0 < colors.len(),
    ensures
        k <= 2 * order.len() ==> setup_run(order, colors, local, c0, k) == (k as int, c0),
        1 <= k <= order.len() ==> setup_call(order, colors, local, c0, k) == SetupStep::Setup(
            CurrentSetupColor(order[k - 1]),
            if local == order[k - 1].handle {
                GameState::SetupRoad
            } else {
                GameState::NotActiveSetup
            },
        ),
        order.len() < k <= 2 * order.len() ==> setup_call(order, colors, local, c0, k)
            == SetupStep::Setup(
            CurrentSetupColor(order[2 * order.len() - k]),
            if local == order[2 * order.len() - k].handle {
                GameState::SetupRoad
            } else {
                GameState::NotActiveSetup
            },
        ),
        k == 2 * order.len() + 1 ==> setup_call(order, colors, local, c0, k) == SetupStep::Play(
            CurrentColor(colors[c0]),
            if local == colors[c0].handle {
                GameState::Roll
            } else {
                GameState::NotActive
            },
        ),
    decreases k,
{
    if k > 0 {
        law_setup_calls(order, colors, local, c0, (k - 1) as nat);
        if k - 1 <= 2 * order.len() {
            assert(setup_run(order, colors, local, c0, (k - 1) as nat) == ((k - 1) as int, c0));
        }
    }
}

/// The sum of the players' actual victory points.
pub open spec fn points_total(points: Seq<VictoryPoints>) -> int
    decreases points.len(),
{
    if points.len() == 0 {
        0
    } else {
        points_total(points.drop_last()) + points.last().actual
    }
}

proof fn lemma_points_bump(points: Seq<VictoryPoints>, i: int, d: int)
    requires
        0 <= i < points.len(),
        0 <= points[i].actual + d <= 255,
    ensures
        points_total(bump(points, i, d)) == points_total(points) + d,
    decreases points.len(),
{
    if i == points.len() - 1 {
        assert(bump(points, i, d).drop_last() =~= points.drop_last());
    } else {
        lemma_points_bump(points.drop_last(), i, d);
        assert(bump(points, i, d).drop_last() =~= bump(points.drop_last(), i, d));
    }
}

/// The largest army's two points exist once: when the bonus moves from
/// one player to another the points in the game stay the same, and they
/// grow by two only when the bonus is first given.
pub proof fn law_army_bonus_points(current: LargetArmy, points: Seq<VictoryPoints>, player: usize, knights: u8)
    requires
        player < points.len(),
        current.1 matches Some(h) ==> h < points.len(),
        army_step_ok((current, points), (player, knights)),
    ensures
        points_total(army_step((current, points), (player, knights)).1) == points_total(points)
            + if knights > current.0 && current.1 is None {
            2int
        } else {
            0int
        },
{
    if knights > current.0 {
        let taken = match current.1 {
            Some(h) => bump(points, h as int, -2),
            None => points,
        };
        match current.1 {
            Some(h) => {
                lemma_points_bump(points, h as int, -2);
            },
            None => {},
        }
        lemma_points_bump(taken, player as int, 2);
    }
}

/// The longest road's two points exist once: when the bonus moves from one
/// player to another the points in the game stay the same, and they grow
/// by two only when the bonus is first given.
pub proof fn law_longest_road_bonus_points(
    current: LongestRoad,
    player: usize,
    found: Option<nat>,
    points: Seq<VictoryPoints>,
)
    requires
        player < points.len(),
        current.0 matches Some(h) ==> h < points.len(),
        road_step_ok(current, player, found, points),
    ensures
        points_total(road_step(current, player, found, points.len(), points).1) == points_total(
            points,
        ) + if found matches Some(len) && (len as u8) > current.1 && current.0 is None {
            2int
        } else {
            0int
        },
{
    if let Some(len) = found {
        if (len as u8) > current.1 {
            let gained = bump(points, player as int, 2);
            lemma_points_bump(points, player as int, 2);
            match current.0 {
                Some(h) => {
                    lemma_points_bump(gained, h as int, -2);
                },
                None => {},
            }
        }
    }
}

/// When the holder's road is cut, the longest road's two points stay in
/// the game if someone (the holder again, or another player) takes the
/// bonus, and leave it only when nobody holds it.
pub proof fn law_reassign_bonus_points(h: int, lens: Seq<int>, points: Seq<VictoryPoints>)
    requires
        0 <= h < points.len(),
        lens.len() == points.len(),
        points[h].actual >= 2,
        forall|i: int| 0 <= i < points.len() ==> #[trigger] points[i].actual <= 253,
    ensures
        points_total(reassign_spec(h, lens, points).1) == points_total(points) - if reassign_spec(
            h,
            lens,
            points,
        ).0.0 is None {
            2int
        } else {
            0int
        },
{
    let lost = bump(points, h, -2);
    lemma_points_bump(points, h, -2);
    if last_at_max(lens, h) {
        lemma_points_bump(lost, h, 2);
    } else if exists|w: int| alone_at_max(lens, w) {
        let w = choose|w: int| alone_at_max(lens, w);
        lemma_points_bump(lost, w, 2);
    }
}

/// Paying a bundle and getting it back leaves the hand as it was, and so
/// does getting it and paying it back.
pub proof fn law_pay_and_refund(a: Resources, b: Resources)
    ensures
        a.covers(b) ==> plus(minus(a, b), b) == a,
        a.can_add(b) ==> minus(plus(a, b), b) == a,
        plus(a, b) == plus(b, a),
{
}

/// The bank's rate for a kind follows the player's harbours: two with the
/// two-for-one harbour of that very kind, else three with a three-for-one
/// harbour, else four. Building at a two-for-one harbour of kind `r` makes
/// the rate of `r` two and leaves the rate of every other kind as it was;
/// building at a three-for-one harbour makes every rate at most three; a
/// new player trades four for one.
pub proof fn law_port_rates(p: Ports, r: Resource, s: Resource)
    ensures
        rate_spec(p, Resource::Wood) == if p.two_for_one_wood { 2u8 } else if p.three_for_one { 3u8 } else { 4u8 },
        rate_spec(p, Resource::Brick) == if p.two_for_one_brick { 2u8 } else if p.three_for_one { 3u8 } else { 4u8 },
        rate_spec(p, Resource::Sheep) == if p.two_for_one_sheep { 2u8 } else if p.three_for_one { 3u8 } else { 4u8 },
        rate_spec(p, Resource::Wheat) == if p.two_for_one_wheat { 2u8 } else if p.three_for_one { 3u8 } else { 4u8 },
        rate_spec(p, Resource::Ore) == if p.two_for_one_ore { 2u8 } else if p.three_for_one { 3u8 } else { 4u8 },
        rate_spec(with_port(p, Port::TwoForOne(r)), r) == 2,
        s != r ==> rate_spec(with_port(p, Port::TwoForOne(s)), r) == rate_spec(p, r),
        rate_spec(with_port(p, Port::ThreeForOne), r) == if rate_spec(p, r) < 3 {
            rate_spec(p, r)
        } else {
            3u8
        },
        rate_spec(
            Ports {
                three_for_one: false,
                two_for_one_wood: false,
                two_for_one_brick: false,
                two_for_one_sheep: false,
                two_for_one_wheat: false,
                two_for_one_ore: false,
            },
            r,
        ) == 4,
{
}

/// A road offered to build never lies where a road of any colour already
/// lies, in either order of its two hexagons.
pub proof fn law_offered_roads_are_free(
    color: CatanColor,
    size: u8,
    roads: Seq<(CatanColor, RoadPosition)>,
    buildings: Seq<(CatanColor, BuildingPosition)>,
    i: int,
    j: int,
)
    requires
        0 <= i < possible_roads_spec(color, size, roads, buildings).len(),
        0 <= j < roads.len(),
    ensures
        !road_eq_spec(possible_roads_spec(color, size, roads, buildings)[i], roads[j].1),
{
    let pred = |c: (Position, RoadPosition)| !road_taken(c.1, roads) && !blocked(c, color, buildings);
    let kept = all_candidates(own_roads(roads, color), size).filter(pred);
    assert(possible_roads_spec(color, size, roads, buildings) == kept.map_values(
        |c: (Position, RoadPosition)| c.1,
    ));
    all_candidates(own_roads(roads, color), size).lemma_filter_pred(pred, i);
    assert(!road_taken(kept[i].1, roads));
    if road_eq_spec(kept[i].1, roads[j].1) {
        assert(road_taken(kept[i].1, roads));
    }
}

/// A town placed with its setup flag moves the setup rounds on exactly as
/// passing the turn in the setup rounds does: while the rounds last the
/// setup position advances by one and the next player of the rounds
/// places; once they are over the first ordinary turn begins. The town's
/// effect carries the very step that passing the turn shows.
pub proof fn law_setup_town_moves_the_rounds_on(
    g0: GameData,
    g1: GameData,
    g2: GameData,
    p: int,
    pos: BuildingPosition,
    cost: Resources,
    state: GameState,
    setup_state: GameState,
    local: CatanColorRef,
    e1: Effect,
    e2: Effect,
)
    requires
        0 <= p < g0.players@.len(),
        update_spec(g0, g1, p, Input::AddTown(pos, cost, true), state, local, e1),
        update_spec(g0, g2, p, Input::NextColor, setup_state, local, e2),
        in_setup(setup_state),
    ensures
        g1.setup_rotation.next == g2.setup_rotation.next,
        g1.setup_current == g2.setup_current,
        g1.current == g2.current,
        g1.rotation.next == g2.rotation.next,
        e2 matches Effect::Setup(step) && e1 == Effect::Town(pos, g0.players@[p].color, Some(step)),
        setup_turn(g0.setup_rotation.order@, g0.setup_rotation.next as int) matches Some(c) ==> {
            &&& g1.setup_rotation.next == g0.setup_rotation.next + 1
            &&& g1.setup_current == CurrentSetupColor(c)
            &&& g1.current == g0.current
        },
        setup_turn(g0.setup_rotation.order@, g0.setup_rotation.next as int) is None ==> {
            &&& g1.setup_rotation.next == g0.setup_rotation.next
            &&& g1.rotation.next == (g0.rotation.next + 1) % (g0.rotation.order@.len() as int)
        },
{
}

/// The largest knight count among the changes and the starting record.
pub open spec fn is_record(n: u8, start: u8, changes: Seq<(usize, u8)>) -> bool {
    &&& n >= start
    &&& forall|i: int| 0 <= i < changes.len() ==> (#[trigger] changes[i]).1 <= n
    &&& (n == start || exists|i: int| 0 <= i < changes.len() && (#[trigger] changes[i]).1 == n)
}

/// Beating the record takes the bonus: a player whose knights are more
/// than the record becomes the holder with that many knights as the new
/// record, whoever held it before (the holder raising their own count
/// too); otherwise nothing changes.
pub proof fn law_army_beating_the_record(
    current: LargetArmy,
    points: Seq<VictoryPoints>,
    player: usize,
    knights: u8,
)
    ensures
        knights > current.0 ==> army_step((current, points), (player, knights)).0 == LargetArmy(
            knights,
            Some(player),
        ),
        knights <= current.0 ==> army_step((current, points), (player, knights)) == (current, points),
{
}

/// Over any run of knight counts, the record is the largest count seen
/// (or the starting record), and the bonus is held by the first player to
/// reach it with strictly more knights than every earlier count and than
/// the starting record; when nobody beat the starting record, the holder is
/// unchanged.
pub proof fn law_army_record_is_the_largest(
    changes: Seq<(usize, u8)>,
    start: (LargetArmy, Seq<VictoryPoints>),
)
    ensures
        ({
            let end = army_fold(changes, start).0;
            &&& is_record(end.0, start.0.0, changes)
            &&& (end == start.0 || exists|i: int|
                0 <= i < changes.len() && #[trigger] changes[i] == (end.1->0, end.0) && end.1
                    is Some && start.0.0 < changes[i].1 && (forall|j: int|
                    0 <= j < i ==> (#[trigger] changes[j]).1 < changes[i].1))
        }),
    decreases changes.len(),
{
    if changes.len() > 0 {
        let rest = changes.drop_last();
        law_army_record_is_the_largest(rest, start);
        let prev = army_fold(rest, start).0;
        let last = changes.last();
        assert forall|i: int| 0 <= i < rest.len() implies #[trigger] changes[i] == rest[i] by {}
        if last.1 > prev.0 {
            assert(changes[changes.len() - 1] == last);
            assert forall|j: int| 0 <= j < changes.len() - 1 implies (#[trigger] changes[j]).1 < last.1 by {
                assert(rest[j].1 <= prev.0);
            }
        } else {
            if prev != start.0 {
                let i = choose|i: int|
                    0 <= i < rest.len() && #[trigger] rest[i] == (prev.1->0, prev.0) && prev.1 is Some
                        && start.0.0 < rest[i].1 && (forall|j: int|
                        0 <= j < i ==> (#[trigger] rest[j]).1 < rest[i].1);
                assert(changes[i] == rest[i]);
                assert forall|j: int| 0 <= j < i implies (#[trigger] changes[j]).1 < changes[i].1 by {
                    assert(changes[j] == rest[j]);
                }
            }
            if prev.0 != start.0.0 {
                let k = choose|k: int| 0 <= k < rest.len() && (#[trigger] rest[k]).1 == prev.0;
                assert(changes[k] == rest[k]);
            }
        }
    }
}

} // verus!

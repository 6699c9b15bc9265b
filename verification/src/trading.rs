//! Proposed trades: a signed count per resource kind (negative: given away,
//! positive: received), and how they change a hand.
use vstd::prelude::*;

use crate::board::{Ports, rate_spec};
use crate::game::Input;
use crate::resources::{Resource, Resources, all_kinds};
use crate::turn_ui::Interaction;
use crate::outside::chars_to_string;

verus! {

/// A trade as seen by the player who proposes it.
#[derive(Clone, Copy, Debug, PartialEq, Eq, Structural, Hash)]
pub struct TradingResources {
    pub wood: i8,
    pub brick: i8,
    pub sheep: i8,
    pub wheat: i8,
    pub ore: i8,
}

impl Default for TradingResources {
    fn default() -> (res: Self)
        ensures
            res == (TradingResources { wood: 0, brick: 0, sheep: 0, wheat: 0, ore: 0 }),
    {
        TradingResources { wood: 0, brick: 0, sheep: 0, wheat: 0, ore: 0 }
    }
}

/// The count of `r` in a trade.
pub open spec fn trade_amount(t: TradingResources, r: Resource) -> int {
    match r {
        Resource::Wood => t.wood as int,
        Resource::Brick => t.brick as int,
        Resource::Sheep => t.sheep as int,
        Resource::Wheat => t.wheat as int,
        Resource::Ore => t.ore as int,
    }
}

/// The trade's entries, one per kind in the usual order.
pub open spec fn entries_spec(t: TradingResources) -> Seq<(Resource, i8)> {
    seq![
        (Resource::Wood, t.wood),
        (Resource::Brick, t.brick),
        (Resource::Sheep, t.sheep),
        (Resource::Wheat, t.wheat),
        (Resource::Ore, t.ore),
    ]
}

/// The entries that the proposer gives away (negative counts), in order.
pub open spec fn given_spec(t: TradingResources) -> Seq<(Resource, i8)> {
    entries_spec(t).filter(|e: (Resource, i8)| e.1 < 0)
}

/// The entries that the proposer receives (positive counts), in order.
pub open spec fn taken_spec(t: TradingResources) -> Seq<(Resource, i8)> {
    entries_spec(t).filter(|e: (Resource, i8)| e.1 > 0)
}

/// The sum of the counts of some entries.
pub open spec fn sum_counts(s: Seq<(Resource, i8)>) -> int
    decreases s.len(),
{
    if s.len() == 0 {
        0
    } else {
        sum_counts(s.drop_last()) + s.last().1
    }
}

/// What the bank owes for the given entries at the player's port rates:
/// each count that the rate divides contributes `count / rate`; others nothing.
pub open spec fn port_value(s: Seq<(Resource, i8)>, ports: Ports) -> int
    decreases s.len(),
{
    if s.len() == 0 {
        0
    } else {
        let c = s.last().1 as int;
        let rate = rate_spec(ports, s.last().0) as int;
        port_value(s.drop_last(), ports) + if (-c) % rate == 0 {
            -((-c) / rate)
        } else {
            0
        }
    }
}

/// `a` read as a signed byte, as `a as i8` does.
pub open spec fn as_signed(a: u8) -> int {
    if a < 128 {
        a as int
    } else {
        a - 256
    }
}

/// One count of a hand moved by `d`, computed the way `(a as i8 + d) as u8` is.
fn shift_wrapping(a: u8, d: i16) -> (res: u8)
    requires
        -128 <= as_signed(a) + d <= 127,
    ensures
        res == (as_signed(a) + d) % 256,
{
    let w: i16 = if a < 128 {
        a as i16
    } else {
        a as i16 - 256
    };
    let v: i16 = w + d;
    if v < 0 {
        (v + 256) as u8
    } else {
        v as u8
    }
}

/// Whether a count read as a signed byte, moved by `d`, stays a signed byte.
fn signed_fits(a: u8, d: i16) -> (res: bool)
    requires
        -256 <= d <= 256,
    ensures
        res == (-128 <= as_signed(a) + d <= 127),
{
    let w: i16 = if a < 128 {
        a as i16
    } else {
        a as i16 - 256
    };
    -128 <= w + d && w + d <= 127
}

/// `a + d` when it is a valid count.
fn shift_checked(a: u8, d: i16) -> (res: Option<u8>)
    requires
        -256 <= d <= 256,
    ensures
        res is Some <==> 0 <= a + d <= 255,
        res matches Some(v) ==> v == a + d,
{
    let v: i16 = a as i16 + d;
    if 0 <= v && v <= 255 {
        Some(v as u8)
    } else {
        None
    }
}

impl TradingResources {
    pub fn get(&self, selector: Resource) -> (res: i8)
        ensures
            res == trade_amount(*self, selector),
    {
        match selector {
            Resource::Wood => self.wood,
            Resource::Brick => self.brick,
            Resource::Sheep => self.sheep,
            Resource::Wheat => self.wheat,
            Resource::Ore => self.ore,
        }
    }

    pub fn get_mut(&mut self, selector: Resource) -> (res: &mut i8)
        ensures
            *res == trade_amount(*old(self), selector),
            forall|k: Resource|
                k != selector ==> #[trigger] trade_amount(*final(self), k) == trade_amount(
                    *old(self),
                    k,
                ),
            trade_amount(*final(self), selector) == *final(res),
    {
        match selector {
            Resource::Wood => &mut self.wood,
            Resource::Brick => &mut self.brick,
            Resource::Sheep => &mut self.sheep,
            Resource::Wheat => &mut self.wheat,
            Resource::Ore => &mut self.ore,
        }
    }

    /// The non-zero entries, split into those given away and those received,
    /// each in the order wood, brick, sheep, wheat, ore.
    pub fn given_and_taken(&self) -> (res: (Vec<(Resource, i8)>, Vec<(Resource, i8)>))
        ensures
            res.0@ == given_spec(*self),
            res.1@ == taken_spec(*self),
    {
        let entries: Vec<(Resource, i8)> = vec![
            (Resource::Wood, self.wood),
            (Resource::Brick, self.brick),
            (Resource::Sheep, self.sheep),
            (Resource::Wheat, self.wheat),
            (Resource::Ore, self.ore),
        ];
        assert(entries@ =~= entries_spec(*self));
        let ghost neg = |e: (Resource, i8)| e.1 < 0;
        let ghost pos = |e: (Resource, i8)| e.1 > 0;
        let mut given: Vec<(Resource, i8)> = Vec::new();
        let mut taken: Vec<(Resource, i8)> = Vec::new();
        let mut i: usize = 0;
        while i < entries.len()
            invariant
                0 <= i <= entries@.len(),
                entries@ == entries_spec(*self),
                neg == (|e: (Resource, i8)| e.1 < 0),
                pos == (|e: (Resource, i8)| e.1 > 0),
                given@ == entries@.take(i as int).filter(neg),
                taken@ == entries@.take(i as int).filter(pos),
            decreases entries@.len() - i,
        {
            let e = entries[i];
            if e.1 < 0 {
                given.push(e);
            } else if e.1 > 0 {
                taken.push(e);
            }
            proof {
                reveal_with_fuel(Seq::filter, 1);
                let tk = entries@.take(i + 1);
                assert(tk.last() == e);
                assert(tk.drop_last() =~= entries@.take(i as int));
                assert(tk.filter(neg) == if neg(e) {
                    entries@.take(i as int).filter(neg).push(e)
                } else {
                    entries@.take(i as int).filter(neg)
                });
                assert(tk.filter(pos) == if pos(e) {
                    entries@.take(i as int).filter(pos).push(e)
                } else {
                    entries@.take(i as int).filter(pos)
                });
            }
            i = i + 1;
        }
        assert(entries@.take(5) =~= entries@);
        (given, taken)
    }
}

/// Whether a trade can be offered to the other players: it gives something
/// away and asks for something in return.
pub fn verify_trade(trade: &TradingResources) -> (res: bool)
    ensures
        res == (given_spec(*trade).len() > 0 && taken_spec(*trade).len() > 0),
{
    let (giving, taking) = trade.given_and_taken();
    giving.len() > 0 && taking.len() > 0
}

/// Whether a trade with the bank is allowed: with `ports` the player's ports
/// (none when the player is unknown), every kind given away in a multiple of
/// its rate counts for `count / rate` cards, and this must exactly pay for
/// the (non-empty) cards received.
pub fn verify_bank_trade(trade: &TradingResources, ports: Option<Ports>) -> (res: bool)
    requires
        sum_counts(taken_spec(*trade)) <= 127,
        ports matches Some(p) ==> port_value(given_spec(*trade), p) >= -128,
    ensures
        res == match ports {
            None => false,
            Some(p) => {
                let giving = port_value(given_spec(*trade), p);
                let taking = sum_counts(taken_spec(*trade));
                giving == -taking && giving != 0 && taking != 0
            },
        },
{
    let (giving, taking) = trade.given_and_taken();
    let mut taking_sum: i16 = 0;
    let mut i: usize = 0;
    proof {
        lemma_counts_signs(*trade);
    }
    while i < taking.len()
        invariant
            0 <= i <= taking@.len(),
            taking@ == taken_spec(*trade),
            forall|k: int| 0 <= k < taking@.len() ==> #[trigger] taking@[k].1 > 0,
            sum_counts(taken_spec(*trade)) <= 127,
            taking_sum == sum_counts(taking@.take(i as int)),
            0 <= taking_sum <= sum_counts(taking@.take(i as int)),
            taking@.len() <= 5,
        decreases taking@.len() - i,
    {
        proof {
            lemma_sum_counts_prefix_positive(taking@, (i + 1) as int);
            assert(taking@.take(i + 1).drop_last() =~= taking@.take(i as int));
        }
        taking_sum = taking_sum + taking[i].1 as i16;
        i = i + 1;
    }
    assert(taking@.take(taking@.len() as int) =~= taking@);
    match ports {
        None => false,
        Some(p) => {
            let mut giving_sum: i16 = 0;
            let mut j: usize = 0;
            while j < giving.len()
                invariant
                    0 <= j <= giving@.len(),
                    giving@ == given_spec(*trade),
                    forall|k: int| 0 <= k < giving@.len() ==> #[trigger] giving@[k].1 < 0,
                    port_value(given_spec(*trade), p) >= -128,
                    giving_sum == port_value(giving@.take(j as int), p),
                    giving@.len() <= 5,
                decreases giving@.len() - j,
            {
                proof {
                    lemma_port_value_prefix_negative(giving@, p, (j + 1) as int);
                    assert(giving@.take(j + 1).drop_last() =~= giving@.take(j as int));
                }
                let (kind, count) = giving[j];
                let rate = p.get_trade_rate(kind) as i16;
                let m: i16 = -(count as i16);
                if m % rate == 0 {
                    giving_sum = giving_sum - m / rate;
                }
                j = j + 1;
            }
            assert(giving@.take(giving@.len() as int) =~= giving@);
            giving_sum == -taking_sum && giving_sum != 0 && taking_sum != 0
        },
    }
}

/// Whether `verify_bank_trade` can weigh the trade (its precondition): the
/// cards received add up to at most 127 and, with ports, what the cards
/// given are worth to the bank is at least -128.
pub fn bank_trade_fits(trade: &TradingResources, ports: Option<Ports>) -> (res: bool)
    ensures
        res == (sum_counts(taken_spec(*trade)) <= 127 && (ports matches Some(p) ==> port_value(
            given_spec(*trade),
            p,
        ) >= -128)),
{
    let (giving, taking) = trade.given_and_taken();
    proof {
        lemma_counts_signs(*trade);
    }
    let mut taking_sum: i32 = 0;
    let mut i: usize = 0;
    while i < taking.len()
        invariant
            0 <= i <= taking@.len(),
            taking@ == taken_spec(*trade),
            taking@.len() <= 5,
            taking_sum == sum_counts(taking@.take(i as int)),
            -128 * i <= taking_sum <= 127 * i,
        decreases taking@.len() - i,
    {
        proof {
            assert(taking@.take(i + 1).drop_last() =~= taking@.take(i as int));
        }
        taking_sum = taking_sum + taking[i].1 as i32;
        i = i + 1;
    }
    assert(taking@.take(taking@.len() as int) =~= taking@);
    if taking_sum > 127 {
        return false;
    }
    match ports {
        None => true,
        Some(p) => {
            let mut giving_sum: i32 = 0;
            let mut j: usize = 0;
            while j < giving.len()
                invariant
                    0 <= j <= giving@.len(),
                    giving@ == given_spec(*trade),
                    giving@.len() <= 5,
                    forall|k: int| 0 <= k < giving@.len() ==> #[trigger] giving@[k].1 < 0,
                    giving_sum == port_value(giving@.take(j as int), p),
                    -128 * j <= giving_sum <= 0,
                decreases giving@.len() - j,
            {
                proof {
                    assert(giving@.take(j + 1).drop_last() =~= giving@.take(j as int));
                    assert(giving@.take(j + 1).last() == giving@[j as int]);
                }
                let (kind, count) = giving[j];
                let rate = p.get_trade_rate(kind) as i32;
                let m: i32 = -(count as i32);
                assert(1 <= m <= 128);
                if m % rate == 0 {
                    assert(0 <= m / rate <= m) by (nonlinear_arith)
                        requires
                            1 <= m <= 128,
                            2 <= rate <= 4,
                    ;
                    giving_sum = giving_sum - m / rate;
                }
                j = j + 1;
            }
            assert(giving@.take(giving@.len() as int) =~= giving@);
            giving_sum >= -128
        },
    }
}

proof fn lemma_counts_signs(t: TradingResources)
    ensures
        forall|k: int| 0 <= k < taken_spec(t).len() ==> #[trigger] taken_spec(t)[k].1 > 0,
        forall|k: int| 0 <= k < given_spec(t).len() ==> #[trigger] given_spec(t)[k].1 < 0,
        taken_spec(t).len() <= 5,
        given_spec(t).len() <= 5,
{
    broadcast use vstd::seq_lib::group_filter_ensures;

    entries_spec(t).lemma_filter_len(|e: (Resource, i8)| e.1 > 0);
    entries_spec(t).lemma_filter_len(|e: (Resource, i8)| e.1 < 0);
}

/// Partial sums of positive counts grow towards the total.
proof fn lemma_sum_counts_prefix_positive(s: Seq<(Resource, i8)>, i: int)
    requires
        0 <= i <= s.len(),
        forall|k: int| 0 <= k < s.len() ==> #[trigger] s[k].1 > 0,
    ensures
        0 <= sum_counts(s.take(i)) <= sum_counts(s),
    decreases s.len(),
{
    if s.len() == 0 {
        assert(s.take(i) =~= s);
    } else if i == s.len() {
        assert(s.take(i) =~= s);
        lemma_sum_counts_prefix_positive(s.drop_last(), i - 1);
        assert(s.drop_last().take(i - 1) =~= s.drop_last());
    } else {
        lemma_sum_counts_prefix_positive(s.drop_last(), i);
        assert(s.drop_last().take(i) =~= s.take(i));
        lemma_sum_counts_prefix_positive(s.drop_last(), s.len() - 1);
        assert(s.drop_last().take(s.len() - 1) =~= s.drop_last());
    }
}

/// Partial values of given entries shrink towards the total, staying at most zero.
proof fn lemma_port_value_prefix_negative(s: Seq<(Resource, i8)>, p: Ports, i: int)
    requires
        0 <= i <= s.len(),
        forall|k: int| 0 <= k < s.len() ==> #[trigger] s[k].1 < 0,
    ensures
        port_value(s, p) <= port_value(s.take(i), p) <= 0,
        port_value(s.take(i), p) >= -64 * i,
    decreases s.len(),
{
    if s.len() == 0 {
        assert(s.take(i) =~= s);
    } else {
        let c = s.last().1 as int;
        let rate = rate_spec(p, s.last().0) as int;
        assert(2 <= rate <= 4);
        assert(0 <= (-c) / rate <= 64) by (nonlinear_arith)
            requires
                1 <= -c <= 128,
                2 <= rate <= 4,
        ;
        if i == s.len() {
            assert(s.take(i) =~= s);
            lemma_port_value_prefix_negative(s.drop_last(), p, i - 1);
            assert(s.drop_last().take(i - 1) =~= s.drop_last());
        } else {
            lemma_port_value_prefix_negative(s.drop_last(), p, i);
            assert(s.drop_last().take(i) =~= s.take(i));
        }
    }
}

/// Whether the spinner of kind `r` may go one down: it is above zero, or the
/// player (when known) holds more of `r` than the amount already offered.
pub fn trading_can_decrement(trade: &TradingResources, r: Resource, player: Option<Resources>) -> (res:
    bool)
    ensures
        res == (trade_amount(*trade, r) > 0 || match player {
            None => false,
            Some(p) => p.amount(r) > if trade_amount(*trade, r) >= 0 {
                trade_amount(*trade, r)
            } else {
                -trade_amount(*trade, r)
            },
        }),
{
    let current = trade.get(r);
    if current > 0 {
        return true;
    }
    match player {
        None => false,
        Some(p) => {
            let magnitude: u8 = if current >= 0 {
                current as u8
            } else {
                (-(current as i16)) as u8
            };
            p.get(r) > magnitude
        },
    }
}

/// Asks for one more card of kind `r`.
pub fn trading_increment(trade: &mut TradingResources, r: Resource)
    requires
        trade_amount(*old(trade), r) < 127,
    ensures
        trade_amount(*final(trade), r) == trade_amount(*old(trade), r) + 1,
        forall|k: Resource|
            k != r ==> #[trigger] trade_amount(*final(trade), k) == trade_amount(*old(trade), k),
{
    let v = trade.get_mut(r);
    *v = *v + 1;
}

/// Offers one more card of kind `r`.
pub fn trading_decrement(trade: &mut TradingResources, r: Resource)
    requires
        trade_amount(*old(trade), r) > -128,
    ensures
        trade_amount(*final(trade), r) == trade_amount(*old(trade), r) - 1,
        forall|k: Resource|
            k != r ==> #[trigger] trade_amount(*final(trade), k) == trade_amount(*old(trade), k),
{
    let v = trade.get_mut(r);
    *v = *v - 1;
}

impl Resources {
    /// Every count moved by the trade stays within a `u8`.
    pub open spec fn can_apply(self, t: TradingResources) -> bool {
        &&& 0 <= self.wood + t.wood <= 255
        &&& 0 <= self.brick + t.brick <= 255
        &&& 0 <= self.sheep + t.sheep <= 255
        &&& 0 <= self.wheat + t.wheat <= 255
        &&& 0 <= self.ore + t.ore <= 255
    }

    /// Every count moved against the trade stays within a `u8`.
    pub open spec fn can_unapply(self, t: TradingResources) -> bool {
        &&& 0 <= self.wood - t.wood <= 255
        &&& 0 <= self.brick - t.brick <= 255
        &&& 0 <= self.sheep - t.sheep <= 255
        &&& 0 <= self.wheat - t.wheat <= 255
        &&& 0 <= self.ore - t.ore <= 255
    }

    /// The hand after receiving the trade, if every count stays valid.
    pub fn checked_add(self, rhs: TradingResources) -> (res: Option<Self>)
        ensures
            res is Some <==> self.can_apply(rhs),
            res matches Some(r) ==> r.wood == self.wood + rhs.wood && r.brick == self.brick
                + rhs.brick && r.sheep == self.sheep + rhs.sheep && r.wheat == self.wheat
                + rhs.wheat && r.ore == self.ore + rhs.ore,
    {
        match shift_checked(self.wood, rhs.wood as i16) {
            None => None,
            Some(wood) => match shift_checked(self.brick, rhs.brick as i16) {
                None => None,
                Some(brick) => match shift_checked(self.sheep, rhs.sheep as i16) {
                    None => None,
                    Some(sheep) => match shift_checked(self.ore, rhs.ore as i16) {
                        None => None,
                        Some(ore) => match shift_checked(self.wheat, rhs.wheat as i16) {
                            None => None,
                            Some(wheat) => Some(Resources { wood, brick, sheep, wheat, ore }),
                        },
                    },
                },
            },
        }
    }

    /// The hand after giving the trade, if every count stays valid.
    pub fn checked_sub_trade(self, rhs: TradingResources) -> (res: Option<Self>)
        ensures
            res is Some <==> self.can_unapply(rhs),
            res matches Some(r) ==> r.wood == self.wood - rhs.wood && r.brick == self.brick
                - rhs.brick && r.sheep == self.sheep - rhs.sheep && r.wheat == self.wheat
                - rhs.wheat && r.ore == self.ore - rhs.ore,
    {
        match shift_checked(self.wood, -(rhs.wood as i16)) {
            None => None,
            Some(wood) => match shift_checked(self.brick, -(rhs.brick as i16)) {
                None => None,
                Some(brick) => match shift_checked(self.sheep, -(rhs.sheep as i16)) {
                    None => None,
                    Some(sheep) => match shift_checked(self.ore, -(rhs.ore as i16)) {
                        None => None,
                        Some(ore) => match shift_checked(self.wheat, -(rhs.wheat as i16)) {
                            None => None,
                            Some(wheat) => Some(Resources { wood, brick, sheep, wheat, ore }),
                        },
                    },
                },
            },
        }
    }

    /// Whether adding the trade, byte by byte as signed values, stays in range.
    pub open spec fn add_trade_ok(self, t: TradingResources) -> bool {
        &&& -128 <= as_signed(self.wood) + t.wood <= 127
        &&& -128 <= as_signed(self.brick) + t.brick <= 127
        &&& -128 <= as_signed(self.sheep) + t.sheep <= 127
        &&& -128 <= as_signed(self.wheat) + t.wheat <= 127
        &&& -128 <= as_signed(self.ore) + t.ore <= 127
    }

    /// Whether subtracting the trade, byte by byte as signed values, stays in range.
    pub open spec fn sub_trade_ok(self, t: TradingResources) -> bool {
        &&& -128 <= as_signed(self.wood) - t.wood <= 127
        &&& -128 <= as_signed(self.brick) - t.brick <= 127
        &&& -128 <= as_signed(self.sheep) - t.sheep <= 127
        &&& -128 <= as_signed(self.wheat) - t.wheat <= 127
        &&& -128 <= as_signed(self.ore) - t.ore <= 127
    }

    /// Whether `add_trade` can take the trade (see `add_trade_ok`).
    pub fn can_add_trade(self, t: TradingResources) -> (res: bool)
        ensures
            res == self.add_trade_ok(t),
    {
        signed_fits(self.wood, t.wood as i16) && signed_fits(self.brick, t.brick as i16)
            && signed_fits(self.sheep, t.sheep as i16) && signed_fits(self.wheat, t.wheat as i16)
            && signed_fits(self.ore, t.ore as i16)
    }

    /// Whether `sub_trade` can give the trade (see `sub_trade_ok`).
    pub fn can_sub_trade(self, t: TradingResources) -> (res: bool)
        ensures
            res == self.sub_trade_ok(t),
    {
        signed_fits(self.wood, -(t.wood as i16)) && signed_fits(self.brick, -(t.brick as i16))
            && signed_fits(self.sheep, -(t.sheep as i16)) && signed_fits(
            self.wheat,
            -(t.wheat as i16),
        ) && signed_fits(self.ore, -(t.ore as i16))
    }

    /// Receives the trade; counts wrap modulo 256.
    pub fn add_trade(self, rhs: TradingResources) -> (res: Self)
        requires
            self.add_trade_ok(rhs),
        ensures
            res.wood == (as_signed(self.wood) + rhs.wood) % 256,
            res.brick == (as_signed(self.brick) + rhs.brick) % 256,
            res.sheep == (as_signed(self.sheep) + rhs.sheep) % 256,
            res.wheat == (as_signed(self.wheat) + rhs.wheat) % 256,
            res.ore == (as_signed(self.ore) + rhs.ore) % 256,
    {
        Resources {
            wood: shift_wrapping(self.wood, rhs.wood as i16),
            brick: shift_wrapping(self.brick, rhs.brick as i16),
            sheep: shift_wrapping(self.sheep, rhs.sheep as i16),
            wheat: shift_wrapping(self.wheat, rhs.wheat as i16),
            ore: shift_wrapping(self.ore, rhs.ore as i16),
        }
    }

    /// Gives the trade; counts wrap modulo 256.
    pub fn sub_trade(self, rhs: TradingResources) -> (res: Self)
        requires
            self.sub_trade_ok(rhs),
        ensures
            res.wood == (as_signed(self.wood) - rhs.wood) % 256,
            res.brick == (as_signed(self.brick) - rhs.brick) % 256,
            res.sheep == (as_signed(self.sheep) - rhs.sheep) % 256,
            res.wheat == (as_signed(self.wheat) - rhs.wheat) % 256,
            res.ore == (as_signed(self.ore) - rhs.ore) % 256,
    {
        Resources {
            wood: shift_wrapping(self.wood, -(rhs.wood as i16)),
            brick: shift_wrapping(self.brick, -(rhs.brick as i16)),
            sheep: shift_wrapping(self.sheep, -(rhs.sheep as i16)),
            wheat: shift_wrapping(self.wheat, -(rhs.wheat as i16)),
            ore: shift_wrapping(self.ore, -(rhs.ore as i16)),
        }
    }
}

/// The accept button shown to the player whose turn it is, for a reply
/// from player `trader`: a press accepts the reply when the player (when
/// found) can take it in (see `checked_add`).
pub fn accept_trade_interaction_current(
    resources: Option<Resources>,
    trade: TradingResources,
    trader: u64,
    interaction: Interaction,
) -> (res: Option<Input>)
    ensures
        res == match resources {
            Some(r) => if r.can_apply(trade) && interaction == Interaction::Pressed {
                Some(Input::TradeAccept(trade, trader))
            } else {
                None::<Input>
            },
            None => None::<Input>,
        },
{
    match resources {
        Some(r) => if r.checked_add(trade).is_some() && interaction == Interaction::Pressed {
            Some(Input::TradeAccept(trade, trader))
        } else {
            None
        },
        None => None,
    }
}

/// The accept button shown to the other players for an offer: a press
/// answers it when the player (when found) can give what it asks (see
/// `checked_sub_trade`).
pub fn accept_trade_interaction(
    resources: Option<Resources>,
    trade: TradingResources,
    interaction: Interaction,
) -> (res: Option<Input>)
    ensures
        res == match resources {
            Some(r) => if r.can_unapply(trade) && interaction == Interaction::Pressed {
                Some(Input::TradeResponce(trade))
            } else {
                None::<Input>
            },
            None => None::<Input>,
        },
{
    match resources {
        Some(r) => if r.checked_sub_trade(trade).is_some() && interaction == Interaction::Pressed {
            Some(Input::TradeResponce(trade))
        } else {
            None
        },
        None => None,
    }
}

/// The decimal digits of `n`.
pub open spec fn digits(n: nat) -> Seq<char>
    decreases n,
{
    if n < 10 {
        seq![digit_char(n)]
    } else {
        digits(n / 10).push(digit_char(n % 10))
    }
}

/// The character of a decimal digit.
pub open spec fn digit_char(d: nat) -> char {
    if d == 0 {
        '0'
    } else if d == 1 {
        '1'
    } else if d == 2 {
        '2'
    } else if d == 3 {
        '3'
    } else if d == 4 {
        '4'
    } else if d == 5 {
        '5'
    } else if d == 6 {
        '6'
    } else if d == 7 {
        '7'
    } else if d == 8 {
        '8'
    } else {
        '9'
    }
}

/// The name of a resource kind, as the trade text writes it.
pub open spec fn kind_name(r: Resource) -> Seq<char> {
    match r {
        Resource::Wood => seq!['W', 'o', 'o', 'd'],
        Resource::Brick => seq!['B', 'r', 'i', 'c', 'k'],
        Resource::Sheep => seq!['S', 'h', 'e', 'e', 'p'],
        Resource::Wheat => seq!['W', 'h', 'e', 'a', 't'],
        Resource::Ore => seq!['O', 'r', 'e'],
    }
}

/// One entry of the trade text: the count (without its sign), a space and
/// the kind.
pub open spec fn entry_text(e: (Resource, i8)) -> Seq<char> {
    digits((if e.1 < 0 {
        -e.1
    } else {
        e.1 as int
    }) as nat) + seq![' '] + kind_name(e.0)
}

/// The entries' texts, joined by a comma and a space.
pub open spec fn join_entries(s: Seq<(Resource, i8)>) -> Seq<char>
    decreases s.len(),
{
    if s.len() == 0 {
        Seq::empty()
    } else if s.len() == 1 {
        entry_text(s[0])
    } else {
        join_entries(s.drop_last()) + seq![',', ' '] + entry_text(s.last())
    }
}

/// The text of a trade: what is given, an arrow, what is taken, e.g.
/// `2 Wood -> 1 Sheep, 3 Ore`; kinds with no count are left out.
pub open spec fn trade_text_spec(t: TradingResources) -> Seq<char> {
    join_entries(given_spec(t)) + seq![' ', '-', '>', ' '] + join_entries(taken_spec(t))
}

fn push_digit(out: &mut Vec<char>, d: u8)
    requires
        d < 10,
    ensures
        final(out)@ == old(out)@.push(digit_char(d as nat)),
{
    let c = if d == 0 {
        '0'
    } else if d == 1 {
        '1'
    } else if d == 2 {
        '2'
    } else if d == 3 {
        '3'
    } else if d == 4 {
        '4'
    } else if d == 5 {
        '5'
    } else if d == 6 {
        '6'
    } else if d == 7 {
        '7'
    } else if d == 8 {
        '8'
    } else {
        '9'
    };
    out.push(c);
}

fn push_digits(out: &mut Vec<char>, n: u8)
    ensures
        final(out)@ == old(out)@ + digits(n as nat),
    decreases n,
{
    if n < 10 {
        push_digit(out, n);
        assert(digits(n as nat) =~= seq![digit_char(n as nat)]);
    } else {
        push_digits(out, n / 10);
        push_digit(out, n % 10);
        assert(digits(n as nat) =~= digits((n / 10) as nat).push(digit_char((n % 10) as nat)));
    }
}

fn push_seq(out: &mut Vec<char>, s: &[char])
    ensures
        final(out)@ == old(out)@ + s@,
{
    let mut i: usize = 0;
    while i < s.len()
        invariant
            i <= s@.len(),
            out@ == old(out)@ + s@.take(i as int),
        decreases s@.len() - i,
    {
        out.push(s[i]);
        assert(s@.take(i + 1) =~= s@.take(i as int).push(s@[i as int]));
        i = i + 1;
    }
    assert(s@.take(s@.len() as int) =~= s@);
}

fn push_entry(out: &mut Vec<char>, e: (Resource, i8))
    requires
        e.1 != -128,
    ensures
        final(out)@ == old(out)@ + entry_text(e),
{
    let n: u8 = if e.1 < 0 {
        (-e.1) as u8
    } else {
        e.1 as u8
    };
    push_digits(out, n);
    out.push(' ');
    match e.0 {
        Resource::Wood => push_seq(out, &['W', 'o', 'o', 'd']),
        Resource::Brick => push_seq(out, &['B', 'r', 'i', 'c', 'k']),
        Resource::Sheep => push_seq(out, &['S', 'h', 'e', 'e', 'p']),
        Resource::Wheat => push_seq(out, &['W', 'h', 'e', 'a', 't']),
        Resource::Ore => push_seq(out, &['O', 'r', 'e']),
    }
    assert(out@ =~= old(out)@ + entry_text(e));
}

fn push_entries(out: &mut Vec<char>, s: &Vec<(Resource, i8)>)
    requires
        forall|i: int| 0 <= i < s@.len() ==> (#[trigger] s@[i]).1 != -128,
    ensures
        final(out)@ == old(out)@ + join_entries(s@),
{
    let mut i: usize = 0;
    assert(s@.take(0) =~= Seq::<(Resource, i8)>::empty());
    assert(old(out)@ + join_entries(s@.take(0)) =~= old(out)@);
    while i < s.len()
        invariant
            i <= s@.len(),
            forall|j: int| 0 <= j < s@.len() ==> (#[trigger] s@[j]).1 != -128,
            out@ == old(out)@ + join_entries(s@.take(i as int)),
        decreases s@.len() - i,
    {
        let ghost before = out@;
        let ghost t = s@.take(i + 1);
        assert(t.drop_last() =~= s@.take(i as int));
        assert(t.last() == s@[i as int]);
        if i > 0 {
            out.push(',');
            out.push(' ');
        }
        push_entry(out, s[i]);
        if i == 0 {
            assert(t.len() == 1 && t[0] == s@[0]);
        }
        assert(out@ =~= old(out)@ + join_entries(t));
        i = i + 1;
    }
    assert(s@.take(s@.len() as int) =~= s@);
}

impl TradingResources {
    /// The trade as text (see `trade_text_spec`), e.g. `2 Wood -> 1 Sheep`.
    /// A count of -128, whose size has no `i8`, is not taken.
    pub fn text(&self) -> (res: String)
        requires
            self.wood != -128,
            self.brick != -128,
            self.sheep != -128,
            self.wheat != -128,
            self.ore != -128,
        ensures
            res@ == trade_text_spec(*self),
    {
        broadcast use vstd::seq_lib::group_filter_ensures;

        let (given, taken) = self.given_and_taken();
        proof {
            assert forall|i: int| 0 <= i < given@.len() implies (#[trigger] given@[i]).1 != -128 by {
                assert(given@.contains(given@[i]));
                entries_spec(*self).lemma_filter_contains_rev(|e: (Resource, i8)| e.1 < 0, given@[i]);
            }
            assert forall|i: int| 0 <= i < taken@.len() implies (#[trigger] taken@[i]).1 != -128 by {
                assert(taken@.contains(taken@[i]));
                entries_spec(*self).lemma_filter_contains_rev(|e: (Resource, i8)| e.1 > 0, taken@[i]);
            }
        }
        let mut out: Vec<char> = Vec::new();
        push_entries(&mut out, &given);
        push_seq(&mut out, &[' ', '-', '>', ' ']);
        push_entries(&mut out, &taken);
        assert(out@ =~= trade_text_spec(*self));
        chars_to_string(out)
    }
}

} // verus!

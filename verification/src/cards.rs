//! Development cards: the kinds, a player's hand of them, and playing one.
use vstd::prelude::*;

use crate::game::{GameState, Knights};
use crate::resources::{Resources, development_card_resources};

verus! {

/// A development card.
#[derive(Clone, Copy, Debug, PartialEq, Eq, Structural, Hash, PartialOrd, Ord)]
pub enum DevelopmentCard {
    Knight,
    Monopoly,
    YearOfPlenty,
    RoadBuilding,
    VictoryPoint,
}

/// How many development cards of each kind a player holds.
#[derive(Clone, Copy, Debug, PartialEq, Eq, Structural, Hash)]
pub struct DevelopmentCards {
    pub knight: u8,
    pub monopoly: u8,
    pub year_of_plenty: u8,
    pub road_building: u8,
    pub victory_point: u8,
}

/// The cards not yet bought, the last one on top.
#[derive(Clone, Debug)]
pub struct DevelopmentCardsPile(pub Vec<DevelopmentCard>);

impl DevelopmentCards {
    /// The number of cards of kind `c`.
    pub open spec fn amount(self, c: DevelopmentCard) -> int {
        match c {
            DevelopmentCard::Knight => self.knight as int,
            DevelopmentCard::Monopoly => self.monopoly as int,
            DevelopmentCard::YearOfPlenty => self.year_of_plenty as int,
            DevelopmentCard::RoadBuilding => self.road_building as int,
            DevelopmentCard::VictoryPoint => self.victory_point as int,
        }
    }

    pub open spec fn total(self) -> int {
        self.knight + self.monopoly + self.year_of_plenty + self.road_building + self.victory_point
    }

    pub fn get(&self, selector: DevelopmentCard) -> (res: u8)
        ensures
            res == self.amount(selector),
    {
        match selector {
            DevelopmentCard::Knight => self.knight,
            DevelopmentCard::Monopoly => self.monopoly,
            DevelopmentCard::YearOfPlenty => self.year_of_plenty,
            DevelopmentCard::RoadBuilding => self.road_building,
            DevelopmentCard::VictoryPoint => self.victory_point,
        }
    }

    pub fn get_mut(&mut self, selector: DevelopmentCard) -> (res: &mut u8)
        ensures
            *res == old(self).amount(selector),
            forall|k: DevelopmentCard|
                k != selector ==> #[trigger] final(self).amount(k) == old(self).amount(k),
            final(self).amount(selector) == *final(res),
    {
        match selector {
            DevelopmentCard::Knight => &mut self.knight,
            DevelopmentCard::Monopoly => &mut self.monopoly,
            DevelopmentCard::YearOfPlenty => &mut self.year_of_plenty,
            DevelopmentCard::RoadBuilding => &mut self.road_building,
            DevelopmentCard::VictoryPoint => &mut self.victory_point,
        }
    }

    /// The number of development cards in the hand.
    pub fn count(self) -> (res: u8)
        requires
            self.total() <= 255,
        ensures
            res == self.total(),
    {
        self.knight + self.monopoly + self.year_of_plenty + self.road_building + self.victory_point
    }

    /// The hand a player starts with: four knights, one year of plenty and
    /// one road building.
    pub fn new_player() -> (res: Self)
        ensures
            res == (DevelopmentCards {
                knight: 4,
                monopoly: 0,
                year_of_plenty: 1,
                road_building: 1,
                victory_point: 0,
            }),
    {
        DevelopmentCards {
            knight: 4,
            monopoly: 0,
            year_of_plenty: 1,
            road_building: 1,
            victory_point: 0,
        }
    }

    pub open spec fn can_add(self, rhs: Self) -> bool {
        &&& self.knight + rhs.knight <= 255
        &&& self.monopoly + rhs.monopoly <= 255
        &&& self.year_of_plenty + rhs.year_of_plenty <= 255
        &&& self.road_building + rhs.road_building <= 255
        &&& self.victory_point + rhs.victory_point <= 255
    }

    /// Kind-by-kind sum of two hands.
    pub fn add(self, rhs: Self) -> (res: Self)
        requires
            self.can_add(rhs),
        ensures
            forall|k: DevelopmentCard| #[trigger] res.amount(k) == self.amount(k) + rhs.amount(k),
    {
        DevelopmentCards {
            knight: self.knight + rhs.knight,
            monopoly: self.monopoly + rhs.monopoly,
            year_of_plenty: self.year_of_plenty + rhs.year_of_plenty,
            road_building: self.road_building + rhs.road_building,
            victory_point: self.victory_point + rhs.victory_point,
        }
    }

    pub fn add_assign(&mut self, rhs: Self)
        requires
            old(self).can_add(rhs),
        ensures
            forall|k: DevelopmentCard| #[trigger] final(self).amount(k) == old(self).amount(k)
                + rhs.amount(k),
    {
        self.knight = self.knight + rhs.knight;
        self.monopoly = self.monopoly + rhs.monopoly;
        self.year_of_plenty = self.year_of_plenty + rhs.year_of_plenty;
        self.road_building = self.road_building + rhs.road_building;
        self.victory_point = self.victory_point + rhs.victory_point;
    }

}

/// A hand of the single card `value`.
pub open spec fn single_card(value: DevelopmentCard) -> DevelopmentCards {
    DevelopmentCards {
        knight: if value == DevelopmentCard::Knight { 1 } else { 0 },
        monopoly: if value == DevelopmentCard::Monopoly { 1 } else { 0 },
        year_of_plenty: if value == DevelopmentCard::YearOfPlenty { 1 } else { 0 },
        road_building: if value == DevelopmentCard::RoadBuilding { 1 } else { 0 },
        victory_point: if value == DevelopmentCard::VictoryPoint { 1 } else { 0 },
    }
}

/// A hand of the single card `value`.
impl From<DevelopmentCard> for DevelopmentCards {
    fn from(value: DevelopmentCard) -> (res: Self) {
        match value {
            DevelopmentCard::Knight => DevelopmentCards {
                knight: 1,
                monopoly: 0,
                year_of_plenty: 0,
                road_building: 0,
                victory_point: 0,
            },
            DevelopmentCard::Monopoly => DevelopmentCards {
                knight: 0,
                monopoly: 1,
                year_of_plenty: 0,
                road_building: 0,
                victory_point: 0,
            },
            DevelopmentCard::YearOfPlenty => DevelopmentCards {
                knight: 0,
                monopoly: 0,
                year_of_plenty: 1,
                road_building: 0,
                victory_point: 0,
            },
            DevelopmentCard::RoadBuilding => DevelopmentCards {
                knight: 0,
                monopoly: 0,
                year_of_plenty: 0,
                road_building: 1,
                victory_point: 0,
            },
            DevelopmentCard::VictoryPoint => DevelopmentCards {
                knight: 0,
                monopoly: 0,
                year_of_plenty: 0,
                road_building: 0,
                victory_point: 1,
            },
        }
    }
}

impl vstd::std_specs::convert::FromSpecImpl<DevelopmentCard> for DevelopmentCards {
    open spec fn obeys_from_spec() -> bool {
        true
    }

    open spec fn from_spec(v: DevelopmentCard) -> Self {
        single_card(v)
    }
}

impl Default for DevelopmentCards {
    fn default() -> (res: Self)
        ensures
            forall|k: DevelopmentCard| #[trigger] res.amount(k) == 0,
    {
        DevelopmentCards {
            knight: 0,
            monopoly: 0,
            year_of_plenty: 0,
            road_building: 0,
            victory_point: 0,
        }
    }
}

/// The twenty-five cards of a game, before shuffling: fourteen knights, five
/// victory points, and two each of road building, monopoly and year of plenty.
pub open spec fn full_deck_spec() -> Seq<DevelopmentCard> {
    Seq::new(14, |i: int| DevelopmentCard::Knight) + Seq::new(
        5,
        |i: int| DevelopmentCard::VictoryPoint,
    ) + seq![
        DevelopmentCard::RoadBuilding,
        DevelopmentCard::RoadBuilding,
        DevelopmentCard::Monopoly,
        DevelopmentCard::Monopoly,
        DevelopmentCard::YearOfPlenty,
        DevelopmentCard::YearOfPlenty,
    ]
}

/// The twenty-five cards of a game, before shuffling.
pub fn full_deck() -> (res: Vec<DevelopmentCard>)
    ensures
        res@ == full_deck_spec(),
{
    let mut v: Vec<DevelopmentCard> = Vec::new();
    let mut i: usize = 0;
    while i < 14
        invariant
            i <= 14,
            v@ == Seq::new(i as nat, |j: int| DevelopmentCard::Knight),
        decreases 14 - i,
    {
        v.push(DevelopmentCard::Knight);
        i = i + 1;
        assert(v@ =~= Seq::new(i as nat, |j: int| DevelopmentCard::Knight));
    }
    let ghost knights = v@;
    let mut j: usize = 0;
    while j < 5
        invariant
            j <= 5,
            v@ == knights + Seq::new(j as nat, |k: int| DevelopmentCard::VictoryPoint),
        decreases 5 - j,
    {
        v.push(DevelopmentCard::VictoryPoint);
        j = j + 1;
        assert(v@ =~= knights + Seq::new(j as nat, |k: int| DevelopmentCard::VictoryPoint));
    }
    v.push(DevelopmentCard::RoadBuilding);
    v.push(DevelopmentCard::RoadBuilding);
    v.push(DevelopmentCard::Monopoly);
    v.push(DevelopmentCard::Monopoly);
    v.push(DevelopmentCard::YearOfPlenty);
    v.push(DevelopmentCard::YearOfPlenty);
    assert(v@ =~= full_deck_spec());
    v
}

/// The state that playing a card of kind `card` leads to.
pub open spec fn card_state(card: DevelopmentCard) -> GameState {
    match card {
        DevelopmentCard::Knight => GameState::PlaceRobber,
        DevelopmentCard::Monopoly => GameState::Monopoly,
        DevelopmentCard::YearOfPlenty => GameState::YearOfPlenty,
        DevelopmentCard::RoadBuilding => GameState::RoadBuilding,
        DevelopmentCard::VictoryPoint => GameState::Nothing,
    }
}

/// Plays a development card: it leaves the hand, a knight also counts
/// towards the army, and the game moves to the card's action. Returns that
/// state and whether the last card of the kind is gone.
pub fn play_development_card(
    cards: &mut DevelopmentCards,
    knights: &mut Knights,
    card: DevelopmentCard,
) -> (res: (GameState, bool))
    requires
        old(cards).amount(card) > 0,
        card != DevelopmentCard::VictoryPoint,
        card == DevelopmentCard::Knight ==> old(knights).0 < 255,
    ensures
        final(cards).amount(card) == old(cards).amount(card) - 1,
        forall|k: DevelopmentCard| k != card ==> #[trigger] final(cards).amount(k) == old(cards).amount(k),
        final(knights).0 == if card == DevelopmentCard::Knight {
            old(knights).0 + 1
        } else {
            old(knights).0 as int
        },
        res.0 == card_state(card),
        res.1 == (final(cards).amount(card) == 0),
{
    let slot = cards.get_mut(card);
    *slot = *slot - 1;
    let gone = cards.get(card) == 0;
    let state = match card {
        DevelopmentCard::Knight => {
            knights.0 = knights.0 + 1;
            GameState::PlaceRobber
        },
        DevelopmentCard::Monopoly => GameState::Monopoly,
        DevelopmentCard::YearOfPlenty => GameState::YearOfPlenty,
        DevelopmentCard::RoadBuilding => GameState::RoadBuilding,
        DevelopmentCard::VictoryPoint => GameState::Nothing,
    };
    (state, gone)
}

/// Whether the current player may buy a development card: the player (when
/// known) can pay for one. A card is then taken only if the pile is not empty.
pub fn can_buy_development_card(player: Option<Resources>) -> (res: bool)
    ensures
        res == match player {
            None => false,
            Some(p) => p.covers(Resources::new_spec(1, 1, 0, 0, 0)),
        },
{
    match player {
        None => false,
        Some(p) => p.contains(development_card_resources()),
    }
}

/// The playable cards to show (monopoly, knight, road building, year of
/// plenty, in that order, those held), and the number of victory point cards.
pub fn cards_to_show(cards: &DevelopmentCards) -> (res: (Vec<(DevelopmentCard, u8)>, u8))
    ensures
        res.0@ == seq![
            (DevelopmentCard::Monopoly, cards.monopoly),
            (DevelopmentCard::Knight, cards.knight),
            (DevelopmentCard::RoadBuilding, cards.road_building),
            (DevelopmentCard::YearOfPlenty, cards.year_of_plenty),
        ].filter(|e: (DevelopmentCard, u8)| e.1 > 0),
        res.1 == cards.victory_point,
{
    let all: Vec<(DevelopmentCard, u8)> = vec![
        (DevelopmentCard::Monopoly, cards.monopoly),
        (DevelopmentCard::Knight, cards.knight),
        (DevelopmentCard::RoadBuilding, cards.road_building),
        (DevelopmentCard::YearOfPlenty, cards.year_of_plenty),
    ];
    let ghost spec_all = seq![
        (DevelopmentCard::Monopoly, cards.monopoly),
        (DevelopmentCard::Knight, cards.knight),
        (DevelopmentCard::RoadBuilding, cards.road_building),
        (DevelopmentCard::YearOfPlenty, cards.year_of_plenty),
    ];
    assert(all@ =~= spec_all);
    let ghost pred = |e: (DevelopmentCard, u8)| e.1 > 0;
    let mut out: Vec<(DevelopmentCard, u8)> = Vec::new();
    let mut i: usize = 0;
    while i < all.len()
        invariant
            0 <= i <= all@.len(),
            all@ == spec_all,
            pred == (|e: (DevelopmentCard, u8)| e.1 > 0),
            out@ == all@.take(i as int).filter(pred),
        decreases all@.len() - i,
    {
        let e = all[i];
        if e.1 > 0 {
            out.push(e);
        }
        proof {
            reveal_with_fuel(Seq::filter, 1);
            let tk = all@.take(i + 1);
            assert(tk.last() == e);
            assert(tk.drop_last() =~= all@.take(i as int));
            assert(tk.filter(pred) == if pred(e) {
                all@.take(i as int).filter(pred).push(e)
            } else {
                all@.take(i as int).filter(pred)
            });
        }
        i = i + 1;
    }
    assert(all@.take(4) =~= all@);
    (out, cards.victory_point)
}

} // verus!

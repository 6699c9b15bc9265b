//! Resource kinds and bundles of resources.
use vstd::prelude::*;

use crate::outside::choose_kind;

verus! {

/// One of the five kinds of resource cards.
#[derive(Clone, Copy, Debug, PartialEq, Eq, Structural, Hash)]
pub enum Resource {
    Wood,
    Brick,
    Sheep,
    Wheat,
    Ore,
}

/// A count of cards of each resource kind.
#[derive(Clone, Copy, Debug, PartialEq, Eq, Structural, Hash)]
pub struct Resources {
    pub wood: u8,
    pub brick: u8,
    pub sheep: u8,
    pub wheat: u8,
    pub ore: u8,
}

impl Resources {
    /// The number of cards of kind `r`.
    pub open spec fn amount(self, r: Resource) -> int {
        match r {
            Resource::Wood => self.wood as int,
            Resource::Brick => self.brick as int,
            Resource::Sheep => self.sheep as int,
            Resource::Wheat => self.wheat as int,
            Resource::Ore => self.ore as int,
        }
    }

    /// The total number of cards.
    pub open spec fn total(self) -> int {
        self.wood + self.brick + self.sheep + self.wheat + self.ore
    }

    /// Whether adding `rhs` keeps every count within a `u8`.
    pub open spec fn can_add(self, rhs: Resources) -> bool {
        &&& self.wood + rhs.wood <= 255
        &&& self.brick + rhs.brick <= 255
        &&& self.sheep + rhs.sheep <= 255
        &&& self.wheat + rhs.wheat <= 255
        &&& self.ore + rhs.ore <= 255
    }

    /// Whether every count of `rhs` is at most the matching count of `self`.
    pub open spec fn covers(self, rhs: Resources) -> bool {
        &&& rhs.wood <= self.wood
        &&& rhs.brick <= self.brick
        &&& rhs.sheep <= self.sheep
        &&& rhs.wheat <= self.wheat
        &&& rhs.ore <= self.ore
    }

    /// Whether multiplying every count by `k` stays within a `u8`.
    pub open spec fn can_scale(self, k: u8) -> bool {
        &&& self.wood * k <= 255
        &&& self.brick * k <= 255
        &&& self.sheep * k <= 255
        &&& self.wheat * k <= 255
        &&& self.ore * k <= 255
    }

    pub fn new(wood: u8, brick: u8, sheep: u8, wheat: u8, ore: u8) -> (res: Self)
        ensures
            res == (Resources { wood, brick, sheep, wheat, ore }),
    {
        Resources { wood, brick, sheep, wheat, ore }
    }

    pub fn get(&self, r: Resource) -> (res: u8)
        ensures
            res == self.amount(r),
    {
        match r {
            Resource::Wood => self.wood,
            Resource::Brick => self.brick,
            Resource::Sheep => self.sheep,
            Resource::Wheat => self.wheat,
            Resource::Ore => self.ore,
        }
    }

    pub fn get_mut(&mut self, r: Resource) -> (res: &mut u8)
        ensures
            *res == old(self).amount(r),
            forall|k: Resource| k != r ==> #[trigger] final(self).amount(k) == old(self).amount(k),
            final(self).amount(r) == *final(res),
    {
        match r {
            Resource::Wood => &mut self.wood,
            Resource::Brick => &mut self.brick,
            Resource::Sheep => &mut self.sheep,
            Resource::Wheat => &mut self.wheat,
            Resource::Ore => &mut self.ore,
        }
    }
}

impl Resources {
    /// An empty hand.
    pub fn new_player() -> (res: Self)
        ensures
            res == Resources::new_spec(0, 0, 0, 0, 0),
    {
        Self::new(0, 0, 0, 0, 0)
    }

    /// The bank at the start of a game: nineteen cards of each kind.
    pub fn new_game() -> (res: Self)
        ensures
            res == Resources::new_spec(19, 19, 19, 19, 19),
    {
        Self::new(19, 19, 19, 19, 19)
    }

    pub open spec fn new_spec(wood: u8, brick: u8, sheep: u8, wheat: u8, ore: u8) -> Resources {
        Resources { wood, brick, sheep, wheat, ore }
    }

    /// Adds two bundles kind by kind.
    pub fn add(self, rhs: Self) -> (res: Self)
        requires
            self.can_add(rhs),
        ensures
            res.wood == self.wood + rhs.wood,
            res.brick == self.brick + rhs.brick,
            res.sheep == self.sheep + rhs.sheep,
            res.wheat == self.wheat + rhs.wheat,
            res.ore == self.ore + rhs.ore,
    {
        Resources {
            wood: self.wood + rhs.wood,
            brick: self.brick + rhs.brick,
            sheep: self.sheep + rhs.sheep,
            wheat: self.wheat + rhs.wheat,
            ore: self.ore + rhs.ore,
        }
    }

    /// Subtracts `rhs` kind by kind.
    pub fn sub(self, rhs: Self) -> (res: Self)
        requires
            self.covers(rhs),
        ensures
            res.wood == self.wood - rhs.wood,
            res.brick == self.brick - rhs.brick,
            res.sheep == self.sheep - rhs.sheep,
            res.wheat == self.wheat - rhs.wheat,
            res.ore == self.ore - rhs.ore,
    {
        Resources {
            wood: self.wood - rhs.wood,
            brick: self.brick - rhs.brick,
            sheep: self.sheep - rhs.sheep,
            wheat: self.wheat - rhs.wheat,
            ore: self.ore - rhs.ore,
        }
    }

    /// Multiplies every count by `k`.
    pub fn mul(self, k: u8) -> (res: Self)
        requires
            self.can_scale(k),
        ensures
            res.wood == self.wood * k,
            res.brick == self.brick * k,
            res.sheep == self.sheep * k,
            res.wheat == self.wheat * k,
            res.ore == self.ore * k,
    {
        Resources {
            wood: self.wood * k,
            brick: self.brick * k,
            sheep: self.sheep * k,
            wheat: self.wheat * k,
            ore: self.ore * k,
        }
    }

    pub fn add_assign(&mut self, rhs: Self)
        requires
            old(self).can_add(rhs),
        ensures
            final(self).wood == old(self).wood + rhs.wood,
            final(self).brick == old(self).brick + rhs.brick,
            final(self).sheep == old(self).sheep + rhs.sheep,
            final(self).wheat == old(self).wheat + rhs.wheat,
            final(self).ore == old(self).ore + rhs.ore,
    {
        self.wood = self.wood + rhs.wood;
        self.brick = self.brick + rhs.brick;
        self.sheep = self.sheep + rhs.sheep;
        self.wheat = self.wheat + rhs.wheat;
        self.ore = self.ore + rhs.ore;
    }

    pub fn sub_assign(&mut self, rhs: Self)
        requires
            old(self).covers(rhs),
        ensures
            final(self).wood == old(self).wood - rhs.wood,
            final(self).brick == old(self).brick - rhs.brick,
            final(self).sheep == old(self).sheep - rhs.sheep,
            final(self).wheat == old(self).wheat - rhs.wheat,
            final(self).ore == old(self).ore - rhs.ore,
    {
        self.wood = self.wood - rhs.wood;
        self.brick = self.brick - rhs.brick;
        self.sheep = self.sheep - rhs.sheep;
        self.wheat = self.wheat - rhs.wheat;
        self.ore = self.ore - rhs.ore;
    }

    /// Subtracts `rhs` when `self` holds at least as many of every kind.
    pub fn checked_sub(self, rhs: Self) -> (res: Option<Self>)
        ensures
            res is Some <==> self.covers(rhs),
            res matches Some(d) ==> d.wood == self.wood - rhs.wood && d.brick == self.brick
                - rhs.brick && d.sheep == self.sheep - rhs.sheep && d.wheat == self.wheat
                - rhs.wheat && d.ore == self.ore - rhs.ore,
    {
        if self.wood >= rhs.wood && self.brick >= rhs.brick && self.sheep >= rhs.sheep
            && self.ore >= rhs.ore && self.wheat >= rhs.wheat {
            Some(self.sub(rhs))
        } else {
            None
        }
    }

    /// The total number of cards in the bundle.
    pub fn count(self) -> (res: u8)
        requires
            self.total() <= 255,
        ensures
            res == self.total(),
    {
        self.wood + self.brick + self.sheep + self.wheat + self.ore
    }

    /// Whether `self` holds at least `rhs` of every kind.
    pub fn contains(self, rhs: Self) -> (res: bool)
        ensures
            res == self.covers(rhs),
    {
        self.wood >= rhs.wood && self.brick >= rhs.brick && self.sheep >= rhs.sheep
            && self.wheat >= rhs.wheat && self.ore >= rhs.ore
    }
}

impl Default for Resources {
    fn default() -> (res: Self)
        ensures
            res == Resources::new_spec(0, 0, 0, 0, 0),
    {
        Resources { wood: 0, brick: 0, sheep: 0, wheat: 0, ore: 0 }
    }
}

/// What a city costs: two wheat and three ore.
pub fn city_resources() -> (res: Resources)
    ensures
        res == Resources::new_spec(0, 0, 0, 2, 3),
{
    Resources::new(0, 0, 0, 2, 3)
}

/// What a town costs: one wood, brick, sheep and wheat.
pub fn town_resources() -> (res: Resources)
    ensures
        res == Resources::new_spec(1, 1, 1, 1, 0),
{
    Resources::new(1, 1, 1, 1, 0)
}

/// What a road costs: one wood and one brick.
pub fn road_resources() -> (res: Resources)
    ensures
        res == Resources::new_spec(1, 1, 0, 0, 0),
{
    Resources::new(1, 1, 0, 0, 0)
}

/// What a development card costs in this game: one wood and one brick.
pub fn development_card_resources() -> (res: Resources)
    ensures
        res == Resources::new_spec(1, 1, 0, 0, 0),
{
    Resources::new(1, 1, 0, 0, 0)
}

/// A bundle of one card of kind `r`.
pub open spec fn unit_spec(r: Resource) -> Resources {
    match r {
        Resource::Wood => Resources::new_spec(1, 0, 0, 0, 0),
        Resource::Brick => Resources::new_spec(0, 1, 0, 0, 0),
        Resource::Sheep => Resources::new_spec(0, 0, 1, 0, 0),
        Resource::Wheat => Resources::new_spec(0, 0, 0, 1, 0),
        Resource::Ore => Resources::new_spec(0, 0, 0, 0, 1),
    }
}

/// A bundle of one card of kind `r`.
pub fn unit(r: Resource) -> (res: Resources)
    ensures
        res == unit_spec(r),
{
    match r {
        Resource::Wood => Resources::new(1, 0, 0, 0, 0),
        Resource::Brick => Resources::new(0, 1, 0, 0, 0),
        Resource::Sheep => Resources::new(0, 0, 1, 0, 0),
        Resource::Wheat => Resources::new(0, 0, 0, 1, 0),
        Resource::Ore => Resources::new(0, 0, 0, 0, 1),
    }
}

/// A kind of card that `other` holds, picked at random; none when `other` is
/// empty.
pub fn pick_resource(other: &Resources) -> (res: Option<Resource>)
    ensures
        res is None <==> other.total() == 0,
        res matches Some(r) ==> other.amount(r) > 0,
{
    let kinds = vec![Resource::Wood, Resource::Brick, Resource::Sheep, Resource::Wheat, Resource::Ore];
    let ghost all = kinds@;
    let mut held: Vec<Resource> = Vec::new();
    let mut i: usize = 0;
    while i < kinds.len()
        invariant
            0 <= i <= kinds@.len(),
            kinds@ == all,
            all == seq![Resource::Wood, Resource::Brick, Resource::Sheep, Resource::Wheat, Resource::Ore],
            forall|k: int| 0 <= k < held@.len() ==> other.amount(#[trigger] held@[k]) > 0,
            forall|k: int|
                0 <= k < i && other.amount(all[k]) > 0 ==> exists|j: int|
                    0 <= j < held@.len() && #[trigger] held@[j] == all[k],
        decreases kinds@.len() - i,
    {
        let r = kinds[i];
        let ghost old_held = held@;
        if other.get(r) > 0 {
            held.push(r);
        }
        proof {
            assert forall|k: int| 0 <= k < i + 1 && other.amount(all[k]) > 0 implies exists|j: int|
                0 <= j < held@.len() && #[trigger] held@[j] == all[k] by {
                if k < i {
                    let j = choose|j: int| 0 <= j < old_held.len() && #[trigger] old_held[j] == all[k];
                    assert(held@[j] == all[k]);
                } else {
                    assert(held@[held@.len() - 1] == all[k]);
                }
            }
        }
        i = i + 1;
    }
    proof {
        if other.total() > 0 {
            let k: int = if other.wood > 0 {
                0
            } else if other.brick > 0 {
                1
            } else if other.sheep > 0 {
                2
            } else if other.wheat > 0 {
                3
            } else {
                4
            };
            assert(other.amount(all[k]) > 0);
            let j = choose|j: int| 0 <= j < held@.len() && #[trigger] held@[j] == all[k];
            assert(held@.len() > 0);
        } else {
            if held@.len() > 0 {
                assert(other.amount(held@[0]) > 0);
            }
        }
    }
    let res = choose_kind(held);
    res
}

/// Moves one card, of a kind picked at random among those `other_color_resources`
/// holds, to `current_color_resource`.
pub fn take_resource(current_color_resource: &mut Resources, other_color_resources: &mut Resources)
    requires
        old(other_color_resources).total() > 0,
        forall|r: Resource|
            #[trigger] old(other_color_resources).amount(r) > 0 ==> old(current_color_resource).amount(r)
                < 255,
    ensures
        exists|r: Resource|
            #![trigger old(other_color_resources).amount(r)]
            {
                &&& old(other_color_resources).amount(r) > 0
                &&& final(other_color_resources).amount(r) == old(other_color_resources).amount(r) - 1
                &&& final(current_color_resource).amount(r) == old(current_color_resource).amount(r) + 1
                &&& forall|k: Resource|
                    k != r ==> #[trigger] final(other_color_resources).amount(k) == old(
                        other_color_resources,
                    ).amount(k) && final(current_color_resource).amount(k) == old(
                        current_color_resource,
                    ).amount(k)
            },
{
    let picked = pick_resource(other_color_resources);
    match picked {
        Some(r) => {
            let taken = unit(r);
            proof {
                assert(old(other_color_resources).amount(r) > 0);
                assert(old(current_color_resource).amount(r) < 255);
            }
            other_color_resources.sub_assign(taken);
            current_color_resource.add_assign(taken);
            assert(old(other_color_resources).amount(r) > 0);
        },
        None => {
            proof {
                assert(false);
            }
        },
    }
}

/// The five kinds in their usual order.
pub open spec fn all_kinds() -> Seq<Resource> {
    seq![Resource::Wood, Resource::Brick, Resource::Sheep, Resource::Wheat, Resource::Ore]
}

} // verus!

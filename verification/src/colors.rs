//! Player colours and the order in which players take their turns.
use vstd::prelude::*;

use crate::game::GameState;

verus! {

/// A player's colour.
#[derive(Clone, Copy, Debug, PartialEq, Eq, Structural, Hash, PartialOrd, Ord)]
pub enum CatanColor {
    Red,
    Green,
    Blue,
    White,
}

/// A player's slot in the networked session.
#[derive(Clone, Copy, Debug, PartialEq, Eq, Structural, Hash)]
pub struct PlayerHandle(pub usize);

/// A player: colour, the id of the entity holding the player's state, and
/// session slot.
#[derive(Clone, Copy, Debug, PartialEq, Eq, Structural, Hash)]
pub struct CatanColorRef {
    pub color: CatanColor,
    pub entity: u64,
    pub handle: PlayerHandle,
}

/// The player whose turn it is.
#[derive(Clone, Copy, Debug, PartialEq, Eq, Structural)]
pub struct CurrentColor(pub CatanColorRef);

/// The player placing during the setup rounds.
#[derive(Clone, Copy, Debug, PartialEq, Eq, Structural)]
pub struct CurrentSetupColor(pub CatanColorRef);

impl From<CurrentColor> for CatanColor {
    fn from(value: CurrentColor) -> (res: Self) {
        value.0.color
    }
}

impl vstd::std_specs::convert::FromSpecImpl<CurrentColor> for CatanColor {
    open spec fn obeys_from_spec() -> bool {
        true
    }

    open spec fn from_spec(v: CurrentColor) -> Self {
        v.0.color
    }
}

impl From<CurrentSetupColor> for CatanColor {
    fn from(value: CurrentSetupColor) -> (res: Self) {
        value.0.color
    }
}

impl vstd::std_specs::convert::FromSpecImpl<CurrentSetupColor> for CatanColor {
    open spec fn obeys_from_spec() -> bool {
        true
    }

    open spec fn from_spec(v: CurrentSetupColor) -> Self {
        v.0.color
    }
}

/// The order of ordinary turns: the players over and over.
#[derive(Debug)]
pub struct ColorIterator {
    pub order: Vec<CatanColorRef>,
    pub next: usize,
}

/// The order of the setup rounds: the players once forwards, then once backwards.
#[derive(Debug)]
pub struct SetupColorIterator {
    pub order: Vec<CatanColorRef>,
    pub next: usize,
}

impl ColorIterator {
    /// Turns cycling through `order`.
    pub fn new(order: Vec<CatanColorRef>) -> (res: Self)
        ensures
            res.order@ == order@,
            res.next == 0,
    {
        ColorIterator { order, next: 0 }
    }

    /// The next player in the cycle, or none when there are no players.
    pub fn next_color(&mut self) -> (res: Option<CatanColorRef>)
        requires
            old(self).next < old(self).order@.len() || old(self).order@.len() == 0,
        ensures
            final(self).order@ == old(self).order@,
            old(self).order@.len() == 0 ==> res is None && final(self).next == old(self).next,
            old(self).order@.len() > 0 ==> res == Some(old(self).order@[old(self).next as int])
                && final(self).next == (old(self).next + 1) % (old(self).order@.len() as int),
            final(self).next < final(self).order@.len() || final(self).order@.len() == 0,
    {
        if self.order.len() == 0 {
            return None;
        }
        let c = self.order[self.next];
        let ghost n = self.order@.len() as int;
        if self.next + 1 == self.order.len() {
            self.next = 0;
            proof {
                vstd::arithmetic::div_mod::lemma_mod_self_0(n);
            }
        } else {
            self.next = self.next + 1;
            proof {
                vstd::arithmetic::div_mod::lemma_small_mod(self.next as nat, n as nat);
            }
        }
        Some(c)
    }
}

/// The `i`-th player of the setup rounds: forwards through `order`, then backwards.
pub open spec fn setup_turn(order: Seq<CatanColorRef>, i: int) -> Option<CatanColorRef> {
    if 0 <= i < order.len() {
        Some(order[i])
    } else if order.len() <= i < 2 * order.len() {
        Some(order[2 * order.len() - 1 - i])
    } else {
        None
    }
}

impl SetupColorIterator {
    /// The setup rounds over `order`.
    pub fn new(order: Vec<CatanColorRef>) -> (res: Self)
        ensures
            res.order@ == order@,
            res.next == 0,
    {
        SetupColorIterator { order, next: 0 }
    }

    /// The next player of the setup rounds, or none once both rounds are over.
    pub fn next_color(&mut self) -> (res: Option<CatanColorRef>)
        requires
            old(self).next <= 2 * old(self).order@.len(),
            2 * old(self).order@.len() <= usize::MAX,
        ensures
            final(self).order@ == old(self).order@,
            res == setup_turn(old(self).order@, old(self).next as int),
            final(self).next == if res is Some {
                old(self).next + 1
            } else {
                old(self).next as int
            },
            final(self).next <= 2 * final(self).order@.len(),
    {
        let n = self.order.len();
        if self.next < n {
            let c = self.order[self.next];
            self.next = self.next + 1;
            Some(c)
        } else if self.next - n < n {
            let c = self.order[n - 1 - (self.next - n)];
            self.next = self.next + 1;
            Some(c)
        } else {
            None
        }
    }
}

/// The state for the local machine once `new` becomes the active player:
/// `active` when it is the local player, `inactive` otherwise.
pub fn next_player(local: PlayerHandle, new: CatanColorRef, active: GameState, inactive: GameState) -> (res:
    GameState)
    ensures
        res == if local == new.handle {
            active
        } else {
            inactive
        },
{
    if local.0 == new.handle.0 {
        active
    } else {
        inactive
    }
}

/// Passes the turn to the next player of the cycle: returns that player and
/// the state to enter (`Roll` on the machine of that player, `NotActive`
/// elsewhere).
pub fn set_color(color_rotation: &mut ColorIterator, local: PlayerHandle) -> (res: (
    CurrentColor,
    GameState,
))
    requires
        old(color_rotation).order@.len() > 0,
        old(color_rotation).next < old(color_rotation).order@.len(),
    ensures
        final(color_rotation).order@ == old(color_rotation).order@,
        final(color_rotation).next == (old(color_rotation).next + 1) % (old(
            color_rotation,
        ).order@.len() as int),
        res.0 == CurrentColor(old(color_rotation).order@[old(color_rotation).next as int]),
        res.1 == if local == res.0.0.handle {
            GameState::Roll
        } else {
            GameState::NotActive
        },
{
    let c = color_rotation.next_color();
    let c = match c {
        Some(c) => c,
        None => {
            proof {
                assert(false);
            }
            color_rotation.order[0]
        },
    };
    let state = next_player(local, c, GameState::Roll, GameState::NotActive);
    (CurrentColor(c), state)
}

/// What a step of the setup rounds decides.
#[derive(Clone, Copy, Debug, PartialEq, Eq, Structural)]
pub enum SetupStep {
    /// The next player of the setup rounds places; enter the given state.
    Setup(CurrentSetupColor, GameState),
    /// The setup rounds are over: the first ordinary turn goes to this
    /// player; enter the given state.
    Play(CurrentColor, GameState),
}

/// One step of `set_setup_color`, from the setup rounds' position `next`
/// over `order` and the turn order's position `color_next` over `colors`:
/// what it decides, and the two positions after it.
pub open spec fn setup_step(
    order: Seq<CatanColorRef>,
    colors: Seq<CatanColorRef>,
    local: PlayerHandle,
    next: int,
    color_next: int,
) -> (SetupStep, int, int) {
    match setup_turn(order, next) {
        Some(c) => (
            SetupStep::Setup(
                CurrentSetupColor(c),
                if local == c.handle {
                    GameState::SetupRoad
                } else {
                    GameState::NotActiveSetup
                },
            ),
            next + 1,
            color_next,
        ),
        None => {
            let c = colors[color_next];
            (
                SetupStep::Play(
                    CurrentColor(c),
                    if local == c.handle {
                        GameState::Roll
                    } else {
                        GameState::NotActive
                    },
                ),
                next,
                (color_next + 1) % (colors.len() as int),
            )
        },
    }
}

/// Moves the setup rounds on to their next player, or, once they are over,
/// starts the ordinary turns (see `setup_step`).
pub fn set_setup_color(
    setup_color_rotation: &mut SetupColorIterator,
    color_rotation: &mut ColorIterator,
    local: PlayerHandle,
) -> (res: SetupStep)
    requires
        old(setup_color_rotation).next <= 2 * old(setup_color_rotation).order@.len(),
        2 * old(setup_color_rotation).order@.len() <= usize::MAX,
        old(color_rotation).next < old(color_rotation).order@.len(),
        setup_turn(old(setup_color_rotation).order@, old(setup_color_rotation).next as int) is None
            ==> old(color_rotation).order@.len() > 0,
    ensures
        final(setup_color_rotation).order@ == old(setup_color_rotation).order@,
        final(color_rotation).order@ == old(color_rotation).order@,
        (res, final(setup_color_rotation).next as int, final(color_rotation).next as int) == setup_step(
            old(setup_color_rotation).order@,
            old(color_rotation).order@,
            local,
            old(setup_color_rotation).next as int,
            old(color_rotation).next as int,
        ),
        match setup_turn(old(setup_color_rotation).order@, old(setup_color_rotation).next as int) {
            Some(c) => {
                &&& res == SetupStep::Setup(
                    CurrentSetupColor(c),
                    if local == c.handle {
                        GameState::SetupRoad
                    } else {
                        GameState::NotActiveSetup
                    },
                )
                &&& final(setup_color_rotation).next == old(setup_color_rotation).next + 1
                &&& final(color_rotation).next == old(color_rotation).next
            },
            None => {
                let c = old(color_rotation).order@[old(color_rotation).next as int];
                &&& res == SetupStep::Play(
                    CurrentColor(c),
                    if local == c.handle {
                        GameState::Roll
                    } else {
                        GameState::NotActive
                    },
                )
                &&& final(setup_color_rotation).next == old(setup_color_rotation).next
                &&& final(color_rotation).next == (old(color_rotation).next + 1) % (old(
                    color_rotation,
                ).order@.len() as int)
            },
        },
{
    match setup_color_rotation.next_color() {
        Some(color) => {
            let state = next_player(local, color, GameState::SetupRoad, GameState::NotActiveSetup);
            SetupStep::Setup(CurrentSetupColor(color), state)
        },
        None => {
            let (c, state) = set_color(color_rotation, local);
            SetupStep::Play(c, state)
        },
    }
}

} // verus!

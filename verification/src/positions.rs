//! Cube coordinates of the hexagonal board, and the roads (edges between two
//! hexagons) and building spots (corners shared by three hexagons) on it.
use vstd::prelude::*;

use crate::outside::{cube_triples, cube_triples_spec};

verus! {

/// A hexagon in cube coordinates; on the board `q + r + s == 0`.
#[derive(Clone, Copy, Debug, PartialEq, Eq, Structural, Hash, PartialOrd, Ord)]
pub struct Position {
    pub q: i8,
    pub r: i8,
    pub s: i8,
}

/// One of the three cube axes.
#[derive(Clone, Copy, Debug, PartialEq, Eq, Structural, Hash)]
pub enum Coordinate {
    Q,
    R,
    S,
}

/// A board size read as the signed bound it stands for (sizes past 127 wrap
/// to negative bounds, as a cast to `i8` does).
pub open spec fn signed_bound(size: u8) -> int {
    if size < 128 {
        size as int
    } else {
        size - 256
    }
}

/// `point` lies within the closed band `-bound ..= bound`.
pub open spec fn within(size: u8, point: i8) -> bool {
    -signed_bound(size) <= point <= signed_bound(size)
}

/// `point` lies strictly inside the band `-bound .. bound`.
pub open spec fn strictly_within(size: u8, point: i8) -> bool {
    -signed_bound(size) < point < signed_bound(size)
}

/// Every coordinate of `p` lies strictly inside a board of the given size.
pub open spec fn strictly_inside(p: Position, size: u8) -> bool {
    strictly_within(size, p.q) && strictly_within(size, p.r) && strictly_within(size, p.s)
}

/// The first axis (in the order q, r, s) on which two hexagons agree.
pub open spec fn shared_spec(a: Position, b: Position) -> Option<Coordinate> {
    if a.q == b.q {
        Some(Coordinate::Q)
    } else if a.r == b.r {
        Some(Coordinate::R)
    } else if a.s == b.s {
        Some(Coordinate::S)
    } else {
        None
    }
}

pub open spec fn abs_diff(a: i8, b: i8) -> int {
    if a >= b {
        a - b
    } else {
        b - a
    }
}

/// The two coordinates other than `c` differ by at most one.
pub open spec fn close_spec(p1: Position, p2: Position, c: Coordinate) -> bool {
    match c {
        Coordinate::Q => abs_diff(p1.r, p2.r) <= 1 && abs_diff(p1.s, p2.s) <= 1,
        Coordinate::R => abs_diff(p1.q, p2.q) <= 1 && abs_diff(p1.s, p2.s) <= 1,
        Coordinate::S => abs_diff(p1.r, p2.r) <= 1 && abs_diff(p1.q, p2.q) <= 1,
    }
}

/// Lexicographic order on `(q, r, s)`, the order that `Ord` derives.
pub open spec fn lt_spec(a: Position, b: Position) -> bool {
    a.q < b.q || (a.q == b.q && (a.r < b.r || (a.r == b.r && a.s < b.s)))
}

pub open spec fn in_i8(x: int) -> bool {
    -128 <= x <= 127
}

impl Position {
    /// What `Position::new` computes without overflowing or panicking.
    pub open spec fn new_ok(q: i8, r: i8, s: i8, size: Option<u8>) -> bool {
        &&& in_i8(q + r)
        &&& in_i8(q + r + s)
        &&& (q + r + s == 0 && size is Some) ==> size->0 != 128
    }

    pub open spec fn new_spec(q: i8, r: i8, s: i8, size: Option<u8>) -> Option<Position> {
        if q + r + s == 0 && match size {
            None => true,
            Some(sz) => within(sz, q) && within(sz, r) && within(sz, s),
        } {
            Some(Position { q, r, s })
        } else {
            None
        }
    }

    /// A hexagon whose coordinates add up to zero and, when a board size is
    /// given, lie within it.
    pub fn new(q: i8, r: i8, s: i8, size: Option<u8>) -> (res: Option<Self>)
        requires
            Self::new_ok(q, r, s, size),
        ensures
            res == Self::new_spec(q, r, s, size),
    {
        let sum = q + r + s;
        if sum != 0 {
            return None;
        }
        match size {
            None => Some(Position { q, r, s }),
            Some(sz) => {
                let bound: i16 = if sz < 128 {
                    sz as i16
                } else {
                    sz as i16 - 256
                };
                if -bound <= q as i16 && q as i16 <= bound && -bound <= r as i16 && r as i16
                    <= bound && -bound <= s as i16 && s as i16 <= bound {
                    Some(Position { q, r, s })
                } else {
                    None
                }
            },
        }
    }

    /// The six neighbours' offsets, counter-clockwise from the right.
    pub fn direction_vectors() -> (res: [Self; 6])
        ensures
            res@ == direction_vectors_spec(),
    {
        let res = [
            Position { q: 1, r: 0, s: -1 },
            Position { q: 1, r: -1, s: 0 },
            Position { q: 0, r: -1, s: 1 },
            Position { q: -1, r: 0, s: 1 },
            Position { q: -1, r: 1, s: 0 },
            Position { q: 0, r: 1, s: -1 },
        ];
        assert(res@ =~= direction_vectors_spec());
        res
    }

    pub open spec fn add_ok(self, rhs: Position) -> bool {
        in_i8(self.q + rhs.q) && in_i8(self.r + rhs.r) && in_i8(self.s + rhs.s)
    }

    pub open spec fn add_spec(self, rhs: Position) -> Position {
        Position {
            q: (self.q + rhs.q) as i8,
            r: (self.r + rhs.r) as i8,
            s: (self.s + rhs.s) as i8,
        }
    }

    /// Coordinate-wise sum.
    pub fn add(self, rhs: Self) -> (res: Self)
        requires
            self.add_ok(rhs),
        ensures
            res == self.add_spec(rhs),
    {
        Position { q: self.q + rhs.q, r: self.r + rhs.r, s: self.s + rhs.s }
    }

    pub open spec fn no_min(self) -> bool {
        self.q != -128 && self.r != -128 && self.s != -128
    }

    pub open spec fn rotate_spec(self) -> Position {
        Position { q: (-self.r) as i8, r: (-self.s) as i8, s: (-self.q) as i8 }
    }

    /// Turns the hexagon a sixth of a turn about the centre.
    pub fn rotate_right(&self) -> (res: Self)
        requires
            self.no_min(),
        ensures
            res == self.rotate_spec(),
            res.no_min(),
    {
        Position { q: -self.r, r: -self.s, s: -self.q }
    }

    pub open spec fn rotate_n_spec(self, n: nat) -> Position
        decreases n,
    {
        if n == 0 {
            self
        } else {
            self.rotate_n_spec((n - 1) as nat).rotate_spec()
        }
    }

    /// Turns the hexagon `n` sixths of a turn about the centre.
    pub fn rotate_right_n(&self, n: u8) -> (res: Self)
        requires
            self.no_min(),
        ensures
            res == self.rotate_n_spec(n as nat),
            res.no_min(),
    {
        let mut cur = *self;
        let mut i: u8 = 0;
        while i < n
            invariant
                i <= n,
                cur == self.rotate_n_spec(i as nat),
                cur.no_min(),
            decreases n - i,
        {
            cur = cur.rotate_right();
            i = i + 1;
        }
        cur
    }

    /// The six building spots at the corners of this hexagon.
    pub fn building_positions_around(&self) -> (res: [BuildingPosition; 6])
        requires
            -127 <= self.q <= 126,
            -127 <= self.r <= 126,
            -127 <= self.s <= 126,
        ensures
            forall|i: int|
                0 <= i < 6 ==> #[trigger] res@[i] == BuildingPosition::sorted_spec(
                    *self,
                    direction_vectors_spec()[i].add_spec(*self),
                    direction_vectors_spec()[i].rotate_spec().add_spec(*self),
                ),
    {
        let d = Self::direction_vectors();
        let mut out: Vec<BuildingPosition> = Vec::new();
        let mut i: usize = 0;
        while i < 6
            invariant
                0 <= i <= 6,
                d@ == direction_vectors_spec(),
                -127 <= self.q <= 126,
                -127 <= self.r <= 126,
                -127 <= self.s <= 126,
                out@.len() == i,
                forall|j: int|
                    0 <= j < i ==> #[trigger] out@[j] == BuildingPosition::sorted_spec(
                        *self,
                        direction_vectors_spec()[j].add_spec(*self),
                        direction_vectors_spec()[j].rotate_spec().add_spec(*self),
                    ),
            decreases 6 - i,
        {
            let p = d[i];
            let p1 = p.rotate_right();
            let b = BuildingPosition::new_unchecked(*self, p.add(*self), p1.add(*self));
            out.push(b);
            i = i + 1;
        }
        [out[0], out[1], out[2], out[3], out[4], out[5]]
    }

    /// Whether `f` holds of all three coordinates (asked in the order q, r, s,
    /// stopping at the first that fails).
    pub fn all_points_are(&self, f: impl Fn(i8) -> bool) -> (res: bool)
        requires
            forall|x: i8| call_requires(f, (x,)),
        ensures
            res ==> call_ensures(f, (self.q,), true) && call_ensures(f, (self.r,), true)
                && call_ensures(f, (self.s,), true),
            !res ==> call_ensures(f, (self.q,), false) || call_ensures(f, (self.r,), false)
                || call_ensures(f, (self.s,), false),
    {
        f(self.q) && f(self.r) && f(self.s)
    }

    /// Whether `f` holds of some coordinate (asked in the order q, r, s,
    /// stopping at the first that holds).
    pub fn any_points_is(&self, f: impl Fn(i8) -> bool) -> (res: bool)
        requires
            forall|x: i8| call_requires(f, (x,)),
        ensures
            res ==> call_ensures(f, (self.q,), true) || call_ensures(f, (self.r,), true)
                || call_ensures(f, (self.s,), true),
            !res ==> call_ensures(f, (self.q,), false) && call_ensures(f, (self.r,), false)
                && call_ensures(f, (self.s,), false),
    {
        f(self.q) || f(self.r) || f(self.s)
    }

    /// The first axis (q, r, then s) on which the two hexagons agree.
    pub fn get_shared_coordinate(&self, other: &Self) -> (res: Option<Coordinate>)
        ensures
            res == shared_spec(*self, *other),
    {
        if self.q == other.q {
            Some(Coordinate::Q)
        } else if self.r == other.r {
            Some(Coordinate::R)
        } else if self.s == other.s {
            Some(Coordinate::S)
        } else {
            None
        }
    }

    /// Whether `self` comes before `other` in the order that `Ord` derives.
    pub fn is_less(&self, other: &Self) -> (res: bool)
        ensures
            res == lt_spec(*self, *other),
    {
        self.q < other.q || (self.q == other.q && (self.r < other.r || (self.r == other.r
            && self.s < other.s)))
    }
}

pub open spec fn direction_vectors_spec() -> Seq<Position> {
    seq![
        Position { q: 1i8, r: 0i8, s: -1i8 },
        Position { q: 1i8, r: -1i8, s: 0i8 },
        Position { q: 0i8, r: -1i8, s: 1i8 },
        Position { q: -1i8, r: 0i8, s: 1i8 },
        Position { q: -1i8, r: 1i8, s: 0i8 },
        Position { q: 0i8, r: 1i8, s: -1i8 },
    ]
}

/// Whether the size leaves every coordinate check well defined (a size of
/// 128 makes the bound `-128`, whose negation overflows).
pub open spec fn size_ok(size: Option<u8>) -> bool {
    match size {
        None => true,
        Some(sz) => sz != 128,
    }
}

/// Whether `p` lies strictly inside the board, or no board size was given.
pub fn strictly_inside_board(p: Position, size: Option<u8>) -> (res: bool)
    requires
        size_ok(size),
    ensures
        res == match size {
            None => true,
            Some(sz) => strictly_inside(p, sz),
        },
{
    match size {
        None => true,
        Some(sz) => {
            let bound: i16 = if sz < 128 {
                sz as i16
            } else {
                sz as i16 - 256
            };
            -bound < p.q as i16 && (p.q as i16) < bound && -bound < p.r as i16 && (p.r as i16)
                < bound && -bound < p.s as i16 && (p.s as i16) < bound
        },
    }
}

fn abs_diff_i8(a: i8, b: i8) -> (res: u8)
    ensures
        res == abs_diff(a, b),
{
    if a >= b {
        (a as i16 - b as i16) as u8
    } else {
        (b as i16 - a as i16) as u8
    }
}

/// Whether the two coordinates other than `c` differ by at most one.
pub fn other_point_is_close(p1: Position, p2: Position, c: &Coordinate) -> (res: bool)
    ensures
        res == close_spec(p1, p2, *c),
{
    match c {
        Coordinate::Q => abs_diff_i8(p1.r, p2.r) <= 1 && abs_diff_i8(p1.s, p2.s) <= 1,
        Coordinate::R => abs_diff_i8(p1.q, p2.q) <= 1 && abs_diff_i8(p1.s, p2.s) <= 1,
        Coordinate::S => abs_diff_i8(p1.r, p2.r) <= 1 && abs_diff_i8(p1.q, p2.q) <= 1,
    }
}

} // verus!

verus! {

/// A road: the edge between two neighbouring hexagons, with the axis they share.
#[derive(Clone, Copy, Debug, Eq)]
pub enum RoadPosition {
    /// Built through `RoadPosition::new`.
    Both(Position, Position, Coordinate),
}

/// Two roads are the same edge whatever the order of its hexagons.
pub open spec fn road_eq_spec(a: RoadPosition, b: RoadPosition) -> bool {
    match (a, b) {
        (RoadPosition::Both(l0, l1, l2), RoadPosition::Both(r0, r1, r2)) => ((l0 == r0 && l1
            == r1) || (l0 == r1 && l1 == r0)) && l2 == r2,
    }
}

impl PartialEq for RoadPosition {
    fn eq(&self, other: &Self) -> (res: bool) {
        match (self, other) {
            (RoadPosition::Both(l0, l1, l2), RoadPosition::Both(r0, r1, r2)) => {
                ((*l0 == *r0 && *l1 == *r1) || (*l0 == *r1 && *l1 == *r0)) && *l2 == *r2
            },
        }
    }
}

impl vstd::std_specs::cmp::PartialEqSpecImpl for RoadPosition {
    open spec fn obeys_eq_spec() -> bool {
        true
    }

    open spec fn eq_spec(&self, other: &Self) -> bool {
        road_eq_spec(*self, *other)
    }
}

impl RoadPosition {
    pub open spec fn new_spec(p1: Position, p2: Position, size: Option<u8>) -> Option<
        RoadPosition,
    > {
        let on_board = match size {
            None => true,
            Some(sz) => strictly_inside(p1, sz) || strictly_inside(p2, sz),
        };
        match shared_spec(p1, p2) {
            Some(c) => if close_spec(p1, p2, c) && on_board {
                Some(RoadPosition::Both(p1, p2, c))
            } else {
                None
            },
            None => None,
        }
    }

    /// The road between two hexagons that share an axis and differ by at most
    /// one on the other two, one of which is strictly inside the board.
    pub fn new(p1: Position, p2: Position, size: Option<u8>) -> (res: Option<Self>)
        requires
            size_ok(size),
        ensures
            res == Self::new_spec(p1, p2, size),
    {
        let not_off_board = strictly_inside_board(p1, size) || strictly_inside_board(p2, size);
        match p1.get_shared_coordinate(&p2) {
            Some(c) => if other_point_is_close(p1, p2, &c) && not_off_board {
                Some(RoadPosition::Both(p1, p2, c))
            } else {
                None
            },
            None => None,
        }
    }

    pub open spec fn intersect_spec(self, other: RoadPosition, size: Option<u8>) -> Option<
        BuildingPosition,
    > {
        match (self, other) {
            (RoadPosition::Both(a0, a1, ca), RoadPosition::Both(b0, b1, cb)) => {
                if ca == cb {
                    None
                } else if a0 == b0 || a1 == b0 {
                    BuildingPosition::new_spec(a0, a1, b1, size)
                } else if a0 == b1 || a1 == b1 {
                    BuildingPosition::new_spec(a0, a1, b0, size)
                } else {
                    None
                }
            },
        }
    }

    /// The building spot where two roads meet, if they meet at one.
    pub fn intersect(&self, other: &Self, size: Option<u8>) -> (res: Option<BuildingPosition>)
        requires
            size_ok(size),
        ensures
            res == self.intersect_spec(*other, size),
    {
        match (self, other) {
            (RoadPosition::Both(a0, a1, ca), RoadPosition::Both(b0, b1, cb)) => {
                if *ca == *cb {
                    None
                } else if *a0 == *b0 || *a1 == *b0 {
                    BuildingPosition::new(*a0, *a1, *b1, size)
                } else if *a0 == *b1 || *a1 == *b1 {
                    BuildingPosition::new(*a0, *a1, *b0, size)
                } else {
                    None
                }
            },
        }
    }

    pub open spec fn neighbors_args(self) -> ((i8, i8, i8), (i8, i8, i8)) {
        match self {
            RoadPosition::Both(p1, p2, c) => match c {
                Coordinate::Q => (
                    ((p1.q + 1) as i8, min_i8(p1.r, p2.r), min_i8(p1.s, p2.s)),
                    ((p1.q - 1) as i8, max_i8(p1.r, p2.r), max_i8(p1.s, p2.s)),
                ),
                Coordinate::R => (
                    (min_i8(p1.q, p2.q), (p1.r + 1) as i8, min_i8(p1.s, p2.s)),
                    (max_i8(p1.q, p2.q), (p1.r - 1) as i8, max_i8(p1.s, p2.s)),
                ),
                Coordinate::S => (
                    (min_i8(p1.q, p2.q), min_i8(p1.r, p2.r), (p1.s + 1) as i8),
                    (max_i8(p1.q, p2.q), max_i8(p1.r, p2.r), (p1.s - 1) as i8),
                ),
            },
        }
    }

    /// What `neighboring_two` computes without overflow.
    pub open spec fn neighbors_ok(self, size: Option<u8>) -> bool {
        match self {
            RoadPosition::Both(p1, p2, c) => {
                &&& match c {
                    Coordinate::Q => -127 <= p1.q <= 126,
                    Coordinate::R => -127 <= p1.r <= 126,
                    Coordinate::S => -127 <= p1.s <= 126,
                }
                &&& Position::new_ok(
                    self.neighbors_args().0.0,
                    self.neighbors_args().0.1,
                    self.neighbors_args().0.2,
                    size,
                )
                &&& Position::new_ok(
                    self.neighbors_args().1.0,
                    self.neighbors_args().1.1,
                    self.neighbors_args().1.2,
                    size,
                )
            },
        }
    }

    pub open spec fn neighbors_spec(self, size: Option<u8>) -> (Option<Position>, Option<Position>) {
        let (a, b) = self.neighbors_args();
        (Position::new_spec(a.0, a.1, a.2, size), Position::new_spec(b.0, b.1, b.2, size))
    }

    /// The two hexagons at the ends of the road (touching both of its hexagons).
    pub fn neighboring_two(&self, size: Option<u8>) -> (res: (Option<Position>, Option<Position>))
        requires
            self.neighbors_ok(size),
        ensures
            res == self.neighbors_spec(size),
    {
        match self {
            RoadPosition::Both(p1, p2, coordinate) => match coordinate {
                Coordinate::Q => (
                    Position::new(p1.q + 1, min_of(p1.r, p2.r), min_of(p1.s, p2.s), size),
                    Position::new(p1.q - 1, max_of(p1.r, p2.r), max_of(p1.s, p2.s), size),
                ),
                Coordinate::R => (
                    Position::new(min_of(p1.q, p2.q), p1.r + 1, min_of(p1.s, p2.s), size),
                    Position::new(max_of(p1.q, p2.q), p1.r - 1, max_of(p1.s, p2.s), size),
                ),
                Coordinate::S => (
                    Position::new(min_of(p1.q, p2.q), min_of(p1.r, p2.r), p1.s + 1, size),
                    Position::new(max_of(p1.q, p2.q), max_of(p1.r, p2.r), p1.s - 1, size),
                ),
            },
        }
    }

    /// The axis that the road's two hexagons share.
    pub fn shared_coordinate(&self) -> (res: Coordinate)
        ensures
            res == match *self {
                RoadPosition::Both(_, _, c) => c,
            },
    {
        match self {
            RoadPosition::Both(_, _, coordinate) => *coordinate,
        }
    }
}

pub open spec fn min_i8(a: i8, b: i8) -> i8 {
    if a <= b {
        a
    } else {
        b
    }
}

pub open spec fn max_i8(a: i8, b: i8) -> i8 {
    if a >= b {
        a
    } else {
        b
    }
}

fn min_of(a: i8, b: i8) -> (res: i8)
    ensures
        res == min_i8(a, b),
{
    if a <= b {
        a
    } else {
        b
    }
}

fn max_of(a: i8, b: i8) -> (res: i8)
    ensures
        res == max_i8(a, b),
{
    if a >= b {
        a
    } else {
        b
    }
}

/// A building spot: the corner shared by three hexagons, kept in descending
/// order so that each spot has one representation.
#[derive(Clone, Copy, Debug, PartialEq, Eq, Structural, Hash)]
pub enum BuildingPosition {
    /// Built through `BuildingPosition::new` or `new_unchecked`, which order it.
    All(Position, Position, Position),
}

impl BuildingPosition {
    /// The three hexagons in descending order (by the order `Ord` derives on
    /// positions), by the same three compare-and-swap steps as `new_unchecked`.
    pub open spec fn sorted_spec(p1: Position, p2: Position, p3: Position) -> BuildingPosition {
        let (b2, b3) = if lt_spec(p2, p3) {
            (p3, p2)
        } else {
            (p2, p3)
        };
        let (c1, c2) = if lt_spec(p1, b2) {
            (b2, p1)
        } else {
            (p1, b2)
        };
        let (d2, d3) = if lt_spec(c2, b3) {
            (b3, c2)
        } else {
            (c2, b3)
        };
        BuildingPosition::All(c1, d2, d3)
    }

    /// The spot's hexagons, in its stored order.
    pub open spec fn hexes(self) -> Seq<Position> {
        match self {
            BuildingPosition::All(a, b, c) => seq![a, b, c],
        }
    }

    /// The spot formed by three hexagons, with no check that they meet.
    pub fn new_unchecked(p1: Position, p2: Position, p3: Position) -> (res: Self)
        ensures
            res == Self::sorted_spec(p1, p2, p3),
    {
        let mut p1 = p1;
        let mut p2 = p2;
        let mut p3 = p3;
        if p2.is_less(&p3) {
            let t = p2;
            p2 = p3;
            p3 = t;
        }
        if p1.is_less(&p2) {
            let t = p1;
            p1 = p2;
            p2 = t;
        }
        if p2.is_less(&p3) {
            let t = p2;
            p2 = p3;
            p3 = t;
        }
        BuildingPosition::All(p1, p2, p3)
    }

    /// Whether three hexagons meet at one corner: each pair shares an axis,
    /// the three shared axes differ, and each remaining hexagon is close.
    pub open spec fn meet_spec(p1: Position, p2: Position, p3: Position) -> bool {
        match shared_spec(p1, p2) {
            None => false,
            Some(c12) => close_spec(p1, p3, c12) && match shared_spec(p2, p3) {
                None => false,
                Some(c23) => close_spec(p2, p1, c23) && c12 != c23 && match shared_spec(p1, p3) {
                    None => false,
                    Some(c13) => close_spec(p3, p2, c13) && c12 != c13 && c13 != c23,
                },
            },
        }
    }

    pub open spec fn new_spec(p1: Position, p2: Position, p3: Position, size: Option<u8>) -> Option<
        BuildingPosition,
    > {
        let on_board = match size {
            None => true,
            Some(sz) => strictly_inside(p1, sz) || strictly_inside(p2, sz) || strictly_inside(
                p3,
                sz,
            ),
        };
        if on_board && Self::meet_spec(p1, p2, p3) {
            Some(Self::sorted_spec(p1, p2, p3))
        } else {
            None
        }
    }

    /// The spot where three hexagons meet, one of them strictly inside the board.
    pub fn new(p1: Position, p2: Position, p3: Position, size: Option<u8>) -> (res: Option<Self>)
        requires
            size_ok(size),
        ensures
            res == Self::new_spec(p1, p2, p3, size),
    {
        let not_off_board = strictly_inside_board(p1, size) || strictly_inside_board(p2, size)
            || strictly_inside_board(p3, size);
        let do_share_points = match p1.get_shared_coordinate(&p2) {
            None => false,
            Some(p1p2) => other_point_is_close(p1, p3, &p1p2) && match p2.get_shared_coordinate(
                &p3,
            ) {
                None => false,
                Some(p2p3) => other_point_is_close(p2, p1, &p2p3) && p1p2 != p2p3
                    && match p1.get_shared_coordinate(&p3) {
                    None => false,
                    Some(p1p3) => other_point_is_close(p3, p2, &p1p3) && p1p2 != p1p3 && p1p3
                        != p2p3,
                },
            },
        };
        let spot = Self::new_unchecked(p1, p2, p3);
        if not_off_board && do_share_points {
            Some(spot)
        } else {
            None
        }
    }

    pub open spec fn no_min(self) -> bool {
        match self {
            BuildingPosition::All(a, b, c) => a.no_min() && b.no_min() && c.no_min(),
        }
    }

    pub open spec fn rotate_spec(self) -> BuildingPosition {
        match self {
            BuildingPosition::All(a, b, c) => Self::sorted_spec(
                a.rotate_spec(),
                b.rotate_spec(),
                c.rotate_spec(),
            ),
        }
    }

    /// Turns the spot a sixth of a turn about the centre.
    pub fn rotate_right(&self) -> (res: Self)
        requires
            self.no_min(),
        ensures
            res == self.rotate_spec(),
    {
        match self {
            BuildingPosition::All(a, b, c) => Self::new_unchecked(
                a.rotate_right(),
                b.rotate_right(),
                c.rotate_right(),
            ),
        }
    }

    pub open spec fn rotate_n_spec(self, n: nat) -> BuildingPosition {
        match self {
            BuildingPosition::All(a, b, c) => Self::sorted_spec(
                a.rotate_n_spec(n),
                b.rotate_n_spec(n),
                c.rotate_n_spec(n),
            ),
        }
    }

    /// Turns the spot `n` sixths of a turn about the centre.
    pub fn rotate_right_n(&self, n: u8) -> (res: Self)
        requires
            self.no_min(),
        ensures
            res == self.rotate_n_spec(n as nat),
    {
        match self {
            BuildingPosition::All(a, b, c) => Self::new_unchecked(
                a.rotate_right_n(n),
                b.rotate_right_n(n),
                c.rotate_right_n(n),
            ),
        }
    }

    /// Whether `pos` is one of the spot's three hexagons.
    pub fn contains(&self, pos: &Position) -> (res: bool)
        ensures
            res == self.hexes().contains(*pos),
    {
        match self {
            BuildingPosition::All(a, b, c) => {
                let r = *a == *pos || *b == *pos || *c == *pos;
                proof {
                    if *a == *pos {
                        assert(self.hexes()[0] == *pos);
                    }
                    if *b == *pos {
                        assert(self.hexes()[1] == *pos);
                    }
                    if *c == *pos {
                        assert(self.hexes()[2] == *pos);
                    }
                }
                r
            },
        }
    }

    pub open spec fn add_ok(self, rhs: Position) -> bool {
        match self {
            BuildingPosition::All(a, b, c) => a.add_ok(rhs) && b.add_ok(rhs) && c.add_ok(rhs),
        }
    }

    pub open spec fn add_spec(self, rhs: Position) -> BuildingPosition {
        match self {
            BuildingPosition::All(a, b, c) => Self::sorted_spec(
                a.add_spec(rhs),
                b.add_spec(rhs),
                c.add_spec(rhs),
            ),
        }
    }

    /// Moves the spot by the offset `rhs`.
    pub fn add(self, rhs: Position) -> (res: Self)
        requires
            self.add_ok(rhs),
        ensures
            res == self.add_spec(rhs),
    {
        match self {
            BuildingPosition::All(a, b, c) => Self::new_unchecked(a.add(rhs), b.add(rhs), c.add(rhs)),
        }
    }
}

/// The hexagon with the given coordinates, when they add up to zero.
pub open spec fn triple_to_position(t: Seq<i8>) -> Option<Position> {
    if t[0] + t[1] + t[2] == 0 {
        Some(Position { q: t[0], r: t[1], s: t[2] })
    } else {
        None
    }
}

/// The hexagons with every coordinate in `-n + 1 .. n`, in lexicographic order.
pub open spec fn generate_spec(n: i8) -> Seq<Position> {
    cube_triples_spec((-n + 1) as i8, n).filter_map(|t: Seq<i8>| triple_to_position(t))
}

/// All hexagons of a board of radius `n - 1`, in lexicographic order.
pub fn generate_postions(n: i8) -> (res: Vec<Position>)
    requires
        -126 <= n <= 43,
    ensures
        res@ == generate_spec(n),
{
    let lo: i8 = -n + 1;
    let triples = cube_triples(lo, n);
    let ghost spec_triples = cube_triples_spec(lo, n);
    let ghost f = |t: Seq<i8>| triple_to_position(t);
    let mut out: Vec<Position> = Vec::new();
    let mut i: usize = 0;
    while i < triples.len()
        invariant
            0 <= i <= triples@.len(),
            triples@.len() == spec_triples.len(),
            forall|k: int| 0 <= k < triples@.len() ==> #[trigger] triples@[k]@ == spec_triples[k],
            spec_triples == cube_triples_spec(lo, n),
            lo == -n + 1,
            -126 <= n <= 43,
            f == (|t: Seq<i8>| triple_to_position(t)),
            out@ == spec_triples.take(i as int).filter_map(f),
        decreases triples@.len() - i,
    {
        proof {
            lemma_cube_triple_bounds(lo, n, i as int);
            assert(spec_triples.take(i + 1).drop_last() =~= spec_triples.take(i as int));
        }
        let t = &triples[i];
        let a = t[0];
        let b = t[1];
        let c = t[2];
        if a + b + c == 0 {
            out.push(Position { q: a, r: b, s: c });
        }
        proof {
            let tk = spec_triples.take(i + 1);
            assert(tk.last() == spec_triples[i as int]);
            assert(f(tk.last()) == triple_to_position(spec_triples[i as int]));
            assert(tk.drop_last() =~= spec_triples.take(i as int));
        }
        i = i + 1;
    }
    proof {
        assert(spec_triples.take(triples@.len() as int) =~= spec_triples);
    }
    out
}

proof fn lemma_cube_triple_bounds(lo: i8, hi: i8, i: int)
    requires
        0 <= i < cube_triples_spec(lo, hi).len(),
        -42 <= lo,
        hi <= 43,
    ensures
        cube_triples_spec(lo, hi)[i].len() == 3,
        lo <= cube_triples_spec(lo, hi)[i][0] < hi,
        lo <= cube_triples_spec(lo, hi)[i][1] < hi,
        lo <= cube_triples_spec(lo, hi)[i][2] < hi,
{
    let n: int = if hi > lo {
        hi - lo
    } else {
        0
    };
    assert(0 <= i < n * n * n);
    assert(n > 0) by (nonlinear_arith)
        requires
            0 <= i < n * n * n,
            n >= 0,
    ;
    assert(0 <= i / (n * n) < n) by (nonlinear_arith)
        requires
            0 <= i < n * n * n,
            n > 0,
    ;
    assert(0 <= (i / n) % n < n) by (nonlinear_arith)
        requires
            n > 0,
            i >= 0,
    ;
    assert(0 <= i % n < n) by (nonlinear_arith)
        requires
            n > 0,
            i >= 0,
    ;
}

/// The hexagons on the ring at distance `n` from the centre, in
/// lexicographic order.
pub open spec fn ring_spec(n: i8) -> Seq<Position> {
    generate_spec((n + 1) as i8).filter(
        |p: Position| p.q == -n || p.q == n || p.r == -n || p.r == n || p.s == -n || p.s == n,
    )
}

/// The hexagons exactly `n` steps from the centre.
pub fn generate_postions_ring(n: i8) -> (res: Vec<Position>)
    requires
        -127 <= n <= 42,
    ensures
        res@ == ring_spec(n),
{
    let all = generate_postions(n + 1);
    let ghost pred = |p: Position|
        p.q == -n || p.q == n || p.r == -n || p.r == n || p.s == -n || p.s == n;
    let mut out: Vec<Position> = Vec::new();
    let mut i: usize = 0;
    while i < all.len()
        invariant
            0 <= i <= all@.len(),
            all@ == generate_spec((n + 1) as i8),
            -127 <= n <= 42,
            pred == (|p: Position|
                p.q == -n || p.q == n || p.r == -n || p.r == n || p.s == -n || p.s == n),
            out@ == all@.take(i as int).filter(pred),
        decreases all@.len() - i,
    {
        proof {
            reveal_with_fuel(Seq::filter, 1);
            assert(all@.take(i + 1).drop_last() =~= all@.take(i as int));
        }
        let p = all[i];
        if p.q == -n || p.q == n || p.r == -n || p.r == n || p.s == -n || p.s == n {
            out.push(p);
        }
        proof {
            reveal_with_fuel(Seq::filter, 1);
            let tk = all@.take(i + 1);
            assert(tk.last() == p);
            assert(tk.drop_last() =~= all@.take(i as int));
            assert(tk.filter(pred) == if pred(p) {
                all@.take(i as int).filter(pred).push(p)
            } else {
                all@.take(i as int).filter(pred)
            });
        }
        i = i + 1;
    }
    proof {
        assert(all@.take(all@.len() as int) =~= all@);
    }
    out
}

} // verus!

verus! {

/// Six sixth-turns bring every hexagon back to itself.
pub proof fn lemma_rotate_six_is_identity(p: Position)
    requires
        p.no_min(),
    ensures
        p.rotate_n_spec(6) == p,
        p.rotate_n_spec(3) == (Position { q: (-p.q) as i8, r: (-p.r) as i8, s: (-p.s) as i8 }),
{
    reveal_with_fuel(Position::rotate_n_spec, 7);
}

/// A building spot does not depend on the order in which its three hexagons
/// are given: swapping any two of them gives the same spot.
pub proof fn lemma_spot_order_free(p1: Position, p2: Position, p3: Position)
    ensures
        BuildingPosition::sorted_spec(p1, p2, p3) == BuildingPosition::sorted_spec(p2, p1, p3),
        BuildingPosition::sorted_spec(p1, p2, p3) == BuildingPosition::sorted_spec(p1, p3, p2),
        BuildingPosition::sorted_spec(p1, p2, p3) == BuildingPosition::sorted_spec(p3, p2, p1),
{
}

/// `s` lists `a`, `b` and `c` in some order.
pub open spec fn is_permutation3<T>(s: Seq<T>, a: T, b: T, c: T) -> bool {
    ||| s == seq![a, b, c]
    ||| s == seq![a, c, b]
    ||| s == seq![b, a, c]
    ||| s == seq![b, c, a]
    ||| s == seq![c, a, b]
    ||| s == seq![c, b, a]
}

/// A spot's hexagons come out in descending order and are the hexagons given.
pub proof fn lemma_spot_sorted(p1: Position, p2: Position, p3: Position)
    ensures
        ({
            let b = BuildingPosition::sorted_spec(p1, p2, p3);
            &&& !lt_spec(b.hexes()[0], b.hexes()[1])
            &&& !lt_spec(b.hexes()[1], b.hexes()[2])
            &&& is_permutation3(b.hexes(), p1, p2, p3)
        }),
{
    let b = BuildingPosition::sorted_spec(p1, p2, p3);
    let h = b.hexes();
    if h =~= seq![p1, p2, p3] {
    } else if h =~= seq![p1, p3, p2] {
    } else if h =~= seq![p2, p1, p3] {
    } else if h =~= seq![p2, p3, p1] {
    } else if h =~= seq![p3, p1, p2] {
    } else {
        assert(h =~= seq![p3, p2, p1]);
    }
}

/// Reordering the hexagons of a spot that is already in order changes
/// nothing: building a spot from a spot's own hexagons gives the spot back.
pub proof fn lemma_spot_sort_idempotent(p1: Position, p2: Position, p3: Position)
    ensures
        ({
            let b = BuildingPosition::sorted_spec(p1, p2, p3);
            BuildingPosition::sorted_spec(b.hexes()[0], b.hexes()[1], b.hexes()[2]) == b
        }),
{
}

/// Six sixth-turns bring every building spot back to itself.
pub proof fn lemma_spot_rotate_six_is_identity(a: Position, b: Position, c: Position)
    requires
        a.no_min(),
        b.no_min(),
        c.no_min(),
    ensures
        BuildingPosition::sorted_spec(a, b, c).rotate_n_spec(6) == BuildingPosition::sorted_spec(
            a,
            b,
            c,
        ),
{
    lemma_rotate_six_is_identity(a);
    lemma_rotate_six_is_identity(b);
    lemma_rotate_six_is_identity(c);
    let s = BuildingPosition::sorted_spec(a, b, c);
    lemma_spot_order_free(a, b, c);
    let h = s.hexes();
    lemma_rotate_six_is_identity(h[0]);
    lemma_rotate_six_is_identity(h[1]);
    lemma_rotate_six_is_identity(h[2]);
}

/// Road equality ignores the order of the road's two hexagons and is an
/// equivalence.
pub proof fn lemma_road_eq_laws(a: RoadPosition, b: RoadPosition, c: RoadPosition)
    ensures
        road_eq_spec(a, a),
        road_eq_spec(a, b) ==> road_eq_spec(b, a),
        road_eq_spec(a, b) && road_eq_spec(b, c) ==> road_eq_spec(a, c),
        match a {
            RoadPosition::Both(p, q, k) => road_eq_spec(a, RoadPosition::Both(q, p, k)),
        },
{
}

} // verus!

verus! {

/// Every element of a `filter_map` comes from some element mapped to it.
pub proof fn lemma_filter_map_origin<A, B>(s: Seq<A>, f: spec_fn(A) -> Option<B>, j: int)
    requires
        0 <= j < s.filter_map(f).len(),
    ensures
        exists|i: int| 0 <= i < s.len() && f(s[i]) == Some(s.filter_map(f)[j]),
    decreases s.len(),
{
    let rest = s.drop_last();
    match f(s.last()) {
        Some(x) => {
            if j < rest.filter_map(f).len() {
                assert(s.filter_map(f)[j] == rest.filter_map(f)[j]);
                lemma_filter_map_origin(rest, f, j);
                let i = choose|i: int| 0 <= i < rest.len() && f(rest[i]) == Some(rest.filter_map(f)[j]);
                assert(s[i] == rest[i]);
            } else {
                assert(f(s[s.len() - 1]) == Some(s.filter_map(f)[j]));
            }
        },
        None => {
            lemma_filter_map_origin(rest, f, j);
            let i = choose|i: int| 0 <= i < rest.len() && f(rest[i]) == Some(rest.filter_map(f)[j]);
            assert(s[i] == rest[i]);
        },
    }
}

/// Every coordinate of `p` lies in `-b ..= b`.
pub open spec fn bounded(p: Position, b: int) -> bool {
    -b <= p.q <= b && -b <= p.r <= b && -b <= p.s <= b
}

/// Every hexagon of `generate_postions(n)` has its coordinates in `-n + 1 .. n`
/// and adding up to zero.
pub proof fn lemma_generated_in_range(n: i8, j: int)
    requires
        -126 <= n <= 43,
        0 <= j < generate_spec(n).len(),
    ensures
        bounded(generate_spec(n)[j], n - 1),
        generate_spec(n)[j].q + generate_spec(n)[j].r + generate_spec(n)[j].s == 0,
{
    let lo = (-n + 1) as i8;
    let f = |t: Seq<i8>| triple_to_position(t);
    lemma_filter_map_origin(cube_triples_spec(lo, n), f, j);
    let i = choose|i: int|
        0 <= i < cube_triples_spec(lo, n).len() && f(cube_triples_spec(lo, n)[i]) == Some(
            generate_spec(n)[j],
        );
    lemma_cube_triple_bounds(lo, n, i);
}

/// A hexagon in cube coordinates: its three coordinates add up to zero.
pub open spec fn cube(p: Position) -> bool {
    p.q + p.r + p.s == 0
}

/// A road as `RoadPosition::new` makes them: two hexagons in cube
/// coordinates, with the axis they share.
pub open spec fn road_ok(road: RoadPosition) -> bool {
    match road {
        RoadPosition::Both(p1, p2, c) => cube(p1) && cube(p2) && shared_spec(p1, p2) == Some(c),
    }
}

/// Three hexagons in cube coordinates meet at a corner whatever the order
/// in which they are given.
proof fn lemma_meet_order_free(p1: Position, p2: Position, p3: Position)
    requires
        cube(p1),
        cube(p2),
        cube(p3),
    ensures
        BuildingPosition::meet_spec(p1, p2, p3) == BuildingPosition::meet_spec(p2, p1, p3),
        BuildingPosition::meet_spec(p1, p2, p3) == BuildingPosition::meet_spec(p1, p3, p2),
{
}

/// A spot does not depend on the order of its three hexagons in cube
/// coordinates.
proof fn lemma_new_order_free(p1: Position, p2: Position, p3: Position, size: Option<u8>)
    requires
        cube(p1),
        cube(p2),
        cube(p3),
    ensures
        BuildingPosition::new_spec(p1, p2, p3, size) == BuildingPosition::new_spec(p2, p1, p3, size),
        BuildingPosition::new_spec(p1, p2, p3, size) == BuildingPosition::new_spec(p1, p3, p2, size),
        BuildingPosition::new_spec(p1, p2, p3, size) == BuildingPosition::new_spec(p3, p2, p1, size),
{
    lemma_meet_order_free(p1, p2, p3);
    lemma_meet_order_free(p2, p1, p3);
    lemma_meet_order_free(p3, p2, p1);
    lemma_meet_order_free(p2, p3, p1);
    lemma_spot_order_free(p1, p2, p3);
}

/// Where two roads meet does not depend on which road is asked: for roads
/// as `RoadPosition::new` makes them, `a.intersect(b)` and `b.intersect(a)`
/// give the same spot, or both none.
pub proof fn law_intersect_symmetric(a: RoadPosition, b: RoadPosition, size: Option<u8>)
    requires
        road_ok(a),
        road_ok(b),
    ensures
        a.intersect_spec(b, size) == b.intersect_spec(a, size),
{
    match (a, b) {
        (RoadPosition::Both(a0, a1, ca), RoadPosition::Both(b0, b1, cb)) => {
            lemma_new_order_free(a0, a1, b1, size);
            lemma_new_order_free(a0, a1, b0, size);
            lemma_new_order_free(b0, b1, a1, size);
            lemma_new_order_free(b0, b1, a0, size);
        },
    }
}

/// The hexagon that closes a corner with two neighbours `x` and `y` is one
/// of the two hexagons at the ends of the road between them.
pub proof fn lemma_third_hex(x: Position, y: Position, w: Position)
    requires
        cube(x),
        cube(y),
        cube(w),
        BuildingPosition::meet_spec(x, y, w),
    ensures
        shared_spec(x, y) matches Some(c) && ({
            let (a, b) = RoadPosition::Both(x, y, c).neighbors_args();
            (w.q == a.0 && w.r == a.1 && w.s == a.2) || (w.q == b.0 && w.r == b.1 && w.s == b.2)
        }),
{
}

/// Two corners `x, y, z` and `x, y, w` of the board (each with a hexagon
/// strictly inside it) that share the edge between `x` and `y`: the road
/// along that edge lies on the board, and `w` is one of the hexagons at its
/// ends.
pub proof fn lemma_shared_edge(x: Position, y: Position, z: Position, w: Position, size: u8)
    requires
        cube(x),
        cube(y),
        cube(z),
        cube(w),
        BuildingPosition::meet_spec(x, y, z),
        BuildingPosition::meet_spec(x, y, w),
        z != w,
        strictly_inside(x, size) || strictly_inside(y, size) || strictly_inside(z, size),
        strictly_inside(x, size) || strictly_inside(y, size) || strictly_inside(w, size),
    ensures
        shared_spec(x, y) matches Some(c) && RoadPosition::new_spec(x, y, Some(size)) == Some(
            RoadPosition::Both(x, y, c),
        ) && (RoadPosition::Both(x, y, c).neighbors_spec(Some(size)).0 == Some(w)
            || RoadPosition::Both(x, y, c).neighbors_spec(Some(size)).1 == Some(w)),
{
    lemma_third_hex(x, y, w);
    lemma_third_hex(x, y, z);
}

/// Three hexagons in cube coordinates meet at a corner, and give the same
/// spot, in any of the six orders; hexagons that meet are distinct.
pub proof fn lemma_spot_any_order(p1: Position, p2: Position, p3: Position, size: Option<u8>)
    requires
        cube(p1),
        cube(p2),
        cube(p3),
    ensures
        ({
            let m = BuildingPosition::meet_spec(p1, p2, p3);
            &&& m == BuildingPosition::meet_spec(p1, p3, p2)
            &&& m == BuildingPosition::meet_spec(p2, p1, p3)
            &&& m == BuildingPosition::meet_spec(p2, p3, p1)
            &&& m == BuildingPosition::meet_spec(p3, p1, p2)
            &&& m == BuildingPosition::meet_spec(p3, p2, p1)
            &&& m ==> p1 != p2 && p1 != p3 && p2 != p3
        }),
        ({
            let n = BuildingPosition::new_spec(p1, p2, p3, size);
            &&& n == BuildingPosition::new_spec(p1, p3, p2, size)
            &&& n == BuildingPosition::new_spec(p2, p1, p3, size)
            &&& n == BuildingPosition::new_spec(p2, p3, p1, size)
            &&& n == BuildingPosition::new_spec(p3, p1, p2, size)
            &&& n == BuildingPosition::new_spec(p3, p2, p1, size)
        }),
{
    lemma_new_order_free(p1, p2, p3, size);
    lemma_new_order_free(p2, p1, p3, size);
    lemma_new_order_free(p1, p3, p2, size);
    lemma_new_order_free(p3, p1, p2, size);
    lemma_meet_order_free(p1, p2, p3);
    lemma_meet_order_free(p2, p1, p3);
    lemma_meet_order_free(p1, p3, p2);
    lemma_meet_order_free(p3, p1, p2);
}

/// A corner with a hexagon `x` or `y` strictly inside the board: the road
/// between `x` and `y` lies on the board and `z` is at one of its ends.
pub proof fn lemma_edge_of_spot(x: Position, y: Position, z: Position, size: u8)
    requires
        cube(x),
        cube(y),
        cube(z),
        BuildingPosition::meet_spec(x, y, z),
        strictly_inside(x, size) || strictly_inside(y, size),
    ensures
        shared_spec(x, y) matches Some(c) && RoadPosition::new_spec(x, y, Some(size)) == Some(
            RoadPosition::Both(x, y, c),
        ) && (RoadPosition::Both(x, y, c).neighbors_spec(Some(size)).0 == Some(z)
            || RoadPosition::Both(x, y, c).neighbors_spec(Some(size)).1 == Some(z)),
{
    lemma_third_hex(x, y, z);
}

} // verus!

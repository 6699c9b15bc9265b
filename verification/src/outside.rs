//! The calls into outside crates, each behind a contract that the rest of the
//! library relies on.
use itertools::Itertools;
use rand::seq::{IteratorRandom, SliceRandom};
use rand::{Rng, SeedableRng};
use rand_xoshiro::Xoshiro256PlusPlus;
use vstd::prelude::*;

use crate::colors::CatanColorRef;
use crate::positions::Position;
use crate::resources::Resource;

verus! {

/// The lexicographic enumeration of `[lo, hi)^3`: the last coordinate
/// changes fastest.
pub open spec fn cube_triples_spec(lo: i8, hi: i8) -> Seq<Seq<i8>> {
    let n: int = if hi > lo {
        hi - lo
    } else {
        0
    };
    Seq::new(
        (n * n * n) as nat,
        |i: int| seq![(lo + i / (n * n)) as i8, (lo + (i / n) % n) as i8, (lo + i % n) as i8],
    )
}

/// `Itertools::multi_cartesian_product` over three copies of the range
/// `lo..hi`. Its documentation gives the order: the rightmost coordinate
/// advances first, like an odometer; a product with an empty range is empty.
#[verifier::external_body]
pub(crate) fn cube_triples(lo: i8, hi: i8) -> (res: Vec<Vec<i8>>)
    ensures
        res@.len() == cube_triples_spec(lo, hi).len(),
        forall|i: int| 0 <= i < res@.len() ==> #[trigger] res@[i]@ == cube_triples_spec(lo, hi)[i],
{
    vec![lo..hi, lo..hi, lo..hi].into_iter().multi_cartesian_product().collect()
}

/// Every pair of elements of `s` taken in order (`s[i]` before `s[j]`, `i <
/// j`), lexicographically by index.
pub open spec fn pairs_spec(s: Seq<Position>) -> Seq<(Position, Position)>
    decreases s.len(),
{
    if s.len() == 0 {
        Seq::empty()
    } else {
        s.drop_first().map_values(|x: Position| (s[0], x)) + pairs_spec(s.drop_first())
    }
}

/// `Itertools::array_combinations::<2>`: its documentation gives the
/// combinations of two elements by position, in lexicographic order.
#[verifier::external_body]
pub(crate) fn vec_pairs(v: &Vec<Position>) -> (res: Vec<[Position; 2]>)
    ensures
        res@.len() == pairs_spec(v@).len(),
        forall|i: int|
            0 <= i < res@.len() ==> (#[trigger] res@[i])@ == seq![pairs_spec(v@)[i].0, pairs_spec(v@)[i].1],
{
    v.iter().copied().array_combinations::<2>().collect()
}

/// `rand::random_range(1..=6)`: a die roll from the thread-local generator;
/// nothing is known of it but its range.
#[verifier::external_body]
pub(crate) fn roll_die() -> (res: u8)
    ensures
        1 <= res <= 6,
{
    rand::random_range(1..=6)
}

/// `IteratorRandom::choose` over the kinds, with the thread-local generator:
/// some one of them, none only when there are none.
#[verifier::external_body]
pub(crate) fn choose_kind(kinds: Vec<Resource>) -> (res: Option<Resource>)
    ensures
        res is None <==> kinds@.len() == 0,
        res matches Some(k) ==> kinds@.contains(k),
{
    kinds.into_iter().choose(&mut rand::rng())
}

/// The elements of `s` without repeats, each kept where it first occurs.
pub open spec fn unique_spec(s: Seq<CatanColorRef>) -> Seq<CatanColorRef>
    decreases s.len(),
{
    if s.len() == 0 {
        s
    } else {
        let u = unique_spec(s.drop_last());
        if u.contains(s.last()) {
            u
        } else {
            u.push(s.last())
        }
    }
}

/// `Itertools::unique`: its documentation states that it keeps the first of
/// each set of equal items, in the order in which they occur.
#[verifier::external_body]
pub(crate) fn unique_refs(v: Vec<CatanColorRef>) -> (res: Vec<CatanColorRef>)
    ensures
        res@ == unique_spec(v@),
{
    v.into_iter().unique().collect()
}

/// The seeded generator that lays out a board, so that every peer of a
/// game lays out the same one.
#[verifier::external_type_specification]
#[verifier::external_body]
pub struct ExXoshiro256PlusPlus(Xoshiro256PlusPlus);

/// `SeedableRng::seed_from_u64`: a generator seeded from `seed`. Nothing is
/// stated of its state, which Verus does not see.
#[verifier::external_body]
pub(crate) fn seeded_rng(seed: u64) -> (res: Xoshiro256PlusPlus) {
    Xoshiro256PlusPlus::seed_from_u64(seed)
}

/// `SliceRandom::shuffle`: puts the items in an order drawn from the
/// generator. The same items stay, each as often as before; which order
/// comes out rests on the generator's state and is not stated.
#[verifier::external_body]
pub(crate) fn shuffle<T>(v: &mut Vec<T>, rng: &mut Xoshiro256PlusPlus)
    ensures
        final(v)@.to_multiset() == old(v)@.to_multiset(),
{
    v.shuffle(rng)
}

/// `Rng::random::<u8>`: a byte drawn from the generator; any value may come.
#[verifier::external_body]
pub(crate) fn random_u8(rng: &mut Xoshiro256PlusPlus) -> (res: u8) {
    rng.random::<u8>()
}

/// `String::from_iter` over characters: the string of those characters,
/// in order (std documents collecting `char`s into a `String` so).
#[verifier::external_body]
pub(crate) fn chars_to_string(v: Vec<char>) -> (res: String)
    ensures
        res@ == v@,
{
    String::from_iter(v)
}

} // verus!

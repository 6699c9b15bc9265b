//! Joining a session: the seed that every peer lays the board out from.
use vstd::prelude::*;

verus! {

/// What one peer's id adds to the seed: its two halves combined by xor.
pub open spec fn id_key(id: (u64, u64)) -> u64 {
    id.0 ^ id.1
}

/// The xor of the keys of all ids in `ids`.
pub open spec fn xor_ids(ids: Seq<(u64, u64)>) -> u64
    decreases ids.len(),
{
    if ids.len() == 0 {
        0
    } else {
        xor_ids(ids.drop_last()) ^ id_key(ids.last())
    }
}

/// The seed of a session, from this peer's id and the ids of the peers it is
/// connected to: the xor of the halves of all of them.
pub fn session_seed(own: (u64, u64), peers: &Vec<(u64, u64)>) -> (seed: u64)
    ensures
        seed == xor_ids(seq![own] + peers@),
{
    let mut seed: u64 = own.0 ^ own.1;
    proof {
        let k: u64 = own.0 ^ own.1;
        assert(0u64 ^ k == k) by (bit_vector);
        assert(seq![own] + peers@.take(0) =~= seq![own]);
        assert(seq![own].drop_last() =~= Seq::<(u64, u64)>::empty());
        assert(xor_ids(Seq::<(u64, u64)>::empty()) == 0);
        assert(seq![own].last() == own);
        assert(xor_ids(seq![own]) == 0u64 ^ id_key(own));
    }
    let mut i: usize = 0;
    while i < peers.len()
        invariant
            i <= peers.len(),
            seed == xor_ids(seq![own] + peers@.take(i as int)),
        decreases peers.len() - i,
    {
        let p = peers[i];
        proof {
            assert((seq![own] + peers@.take(i + 1)).drop_last() =~= seq![own] + peers@.take(i as int));
        }
        seed = seed ^ (p.0 ^ p.1);
        i += 1;
    }
    proof {
        assert(peers@.take(peers.len() as int) =~= peers@);
    }
    seed
}

/// Taking one id out of a list takes its key out of the xor.
proof fn lemma_xor_ids_remove(ids: Seq<(u64, u64)>, k: int)
    requires
        0 <= k < ids.len(),
    ensures
        xor_ids(ids) == xor_ids(ids.remove(k)) ^ id_key(ids[k]),
    decreases ids.len(),
{
    let n = ids.len() - 1;
    if k == n {
        assert(ids.remove(k) =~= ids.drop_last());
    } else {
        let rest = ids.drop_last();
        lemma_xor_ids_remove(rest, k);
        assert(ids.remove(k).drop_last() =~= rest.remove(k));
        assert(ids.remove(k).last() == ids.last());
        let x = xor_ids(rest.remove(k));
        let a = id_key(ids[k]);
        let b = id_key(ids.last());
        assert((x ^ a) ^ b == (x ^ b) ^ a) by (bit_vector);
    }
}

/// Two lists that hold the same ids, each as often, give the same xor.
proof fn lemma_xor_ids_permutation(s: Seq<(u64, u64)>, t: Seq<(u64, u64)>)
    requires
        s.to_multiset() == t.to_multiset(),
    ensures
        xor_ids(s) == xor_ids(t),
    decreases s.len(),
{
    broadcast use vstd::seq_lib::group_to_multiset_ensures;

    if s.len() == 0 {
        assert(t.to_multiset().len() == 0);
    } else {
        let x = s.last();
        assert(s[s.len() - 1] == x);
        assert(s.contains(x));
        assert(s.to_multiset().count(x) > 0);
        assert(t.contains(x));
        let k = choose|k: int| 0 <= k < t.len() && t[k] == x;
        assert(s.remove(s.len() - 1) =~= s.drop_last());
        assert(s.drop_last().to_multiset() == t.remove(k).to_multiset());
        lemma_xor_ids_permutation(s.drop_last(), t.remove(k));
        lemma_xor_ids_remove(t, k);
    }
}

/// Every peer of a session derives the same seed: the seed rests only on
/// which ids take part, not on which peer computes it nor on the order in
/// which it lists the others.
pub proof fn law_seed_is_shared(
    a: (u64, u64),
    peers_a: Seq<(u64, u64)>,
    b: (u64, u64),
    peers_b: Seq<(u64, u64)>,
)
    requires
        (seq![a] + peers_a).to_multiset() == (seq![b] + peers_b).to_multiset(),
    ensures
        xor_ids(seq![a] + peers_a) == xor_ids(seq![b] + peers_b),
{
    lemma_xor_ids_permutation(seq![a] + peers_a, seq![b] + peers_b);
}

} // verus!

use vstd::prelude::*;

use crate::sync::PeerId;
use std::collections::HashMap;
use vstd::std_specs::iter::IteratorSpec;

verus! {

broadcast use vstd::std_specs::hash::group_hash_axioms;

/// The seat whose turn follows seat `n` around the table: `0`, `2`, `3`,
/// `1`, and back to `0`.
pub open spec fn seat_after(n: int) -> int {
    if n == 0 {
        2
    } else if n == 2 {
        3
    } else if n == 3 {
        1
    } else {
        0
    }
}

/// The seat `k` turns after seat `n`.
pub open spec fn seat_steps(n: int, k: nat) -> int
    decreases k,
{
    if k == 0 {
        n
    } else {
        seat_after(seat_steps(n, (k - 1) as nat))
    }
}

/// Whether seat `r` is the first seat after `n`, going round the table,
/// that can take the turn.
pub open spec fn first_active_after(n: int, active: Seq<bool>, r: int) -> bool {
    exists|k: nat|
        #![trigger seat_steps(n, k)]
        1 <= k <= 4 && seat_steps(n, k) == r && active[r] && forall|j: nat|
            1 <= j < k ==> !active[#[trigger] seat_steps(n, j)]
}

/// Whether seat `s` comes up within one round after seat `n`.
spec fn comes_up(n: int, s: int) -> bool {
    exists|k: nat| 1 <= k <= 4 && #[trigger] seat_steps(n, k) == s
}

proof fn lemma_steps_cover(n: int)
    requires
        0 <= n < 4,
    ensures
        forall|s: int| 0 <= s < 4 ==> #[trigger] comes_up(n, s),
{
    reveal_with_fuel(seat_steps, 5);
    assert forall|s: int| 0 <= s < 4 implies #[trigger] comes_up(n, s) by {
        if seat_steps(n, 1) == s {
        } else if seat_steps(n, 2) == s {
        } else if seat_steps(n, 3) == s {
        } else {
            assert(seat_steps(n, 4) == s);
        }
    }
}

/// Passes the turn on from seat `turn` to the next seat round the table
/// that can take it (a seat with a player whose turn marker stands up).
/// Some seat must be able to take it.
pub fn next_turn(turn: usize, active: &[bool; 4]) -> (r: usize)
    requires
        turn < 4,
        exists|s: int| 0 <= s < 4 && active@[s],
    ensures
        r < 4,
        first_active_after(turn as int, active@, r as int),
{
    let ghost start = turn as int;
    proof {
        lemma_steps_cover(start);
    }
    let mut t = turn;
    let mut k: usize = 0;
    loop
        invariant
            t < 4,
            k <= 3,
            t == seat_steps(start, k as nat),
            forall|j: nat| 1 <= j <= k ==> !active@[#[trigger] seat_steps(start, j)],
            forall|s: int| 0 <= s < 4 ==> #[trigger] comes_up(start, s),
            exists|s: int| 0 <= s < 4 && active@[s],
            0 <= start < 4,
            start == turn as int,
        decreases 4 - k,
    {
        let n = match t {
            0 => 2,
            2 => 3,
            3 => 1,
            _ => 0,
        };
        assert(n == seat_steps(start, (k + 1) as nat));
        if active[n] {
            assert(first_active_after(start, active@, n as int)) by {
                let kk = (k + 1) as nat;
                assert(1 <= kk <= 4 && seat_steps(start, kk) == n as int && active@[n as int]
                    && forall|j: nat| 1 <= j < kk ==> !active@[#[trigger] seat_steps(start, j)]);
            }
            return n;
        }
        proof {
            if k == 3 {
                let s = choose|s: int| 0 <= s < 4 && active@[s];
                assert(comes_up(start, s));
                let m = choose|m: nat| 1 <= m <= 4 && #[trigger] seat_steps(start, m) == s;
                assert(!active@[seat_steps(start, m)]);
                assert(false);
            }
        }
        t = n;
        k = k + 1;
    }
}

/// The smallest seat from `1` on that nobody holds.
pub open spec fn is_first_free_seat(taken: Set<usize>, k: usize) -> bool {
    &&& k >= 1
    &&& !taken.contains(k)
    &&& forall|j: usize| 1 <= j < k ==> taken.contains(j)
}

/// The seats `1` up to `k - 1` number `k - 1`.
proof fn lemma_low_seats_len(k: usize)
    requires
        k >= 1,
    ensures
        Set::new(|j: usize| 1 <= j < k).finite(),
        Set::new(|j: usize| 1 <= j < k).len() == k - 1,
    decreases k,
{
    if k == 1 {
        assert(Set::new(|j: usize| 1 <= j < k) =~= Set::<usize>::empty());
    } else {
        let k1 = (k - 1) as usize;
        lemma_low_seats_len(k1);
        assert(Set::new(|j: usize| 1 <= j < k) =~= Set::new(|j: usize| 1 <= j < k1).insert(k1));
    }
}

/// The seat the host gives a player who joins: the smallest one from `1`
/// on (the host holds `0`) that nobody holds yet.
pub fn free_seat(who: &HashMap<usize, PeerId>) -> (r: usize)
    requires
        who@.dom().len() < usize::MAX,
    ensures
        is_first_free_seat(who@.dom(), r),
{
    let mut k: usize = 1;
    while who.contains_key(&k)
        invariant
            1 <= k <= who@.dom().len() + 1,
            who@.dom().len() < usize::MAX,
            forall|j: usize| 1 <= j < k ==> who@.dom().contains(j),
        decreases who@.dom().len() + 1 - k,
    {
        proof {
            lemma_low_seats_len(k);
            let low = Set::new(|j: usize| 1 <= j < k).insert(k);
            assert(low.subset_of(who@.dom()));
            vstd::set_lib::lemma_len_subset(low, who@.dom());
        }
        k = k + 1;
    }
    k
}


/// The seats of `m` not held by `peer`.
pub open spec fn seats_without(m: Map<usize, PeerId>, peer: PeerId) -> Map<usize, PeerId> {
    m.restrict(m.dom().filter(|k: usize| m[k] != peer))
}

/// Frees every seat a player who left held.
pub fn release_seats(who: &mut HashMap<usize, PeerId>, peer: PeerId)
    ensures
        final(who)@ == seats_without(old(who)@, peer),
{
    let ghost m = who@;
    let mut gone: Vec<usize> = Vec::new();
    let ghost v = vstd::std_specs::hash::spec_hash_map_iter(who).remaining();
    let ghost mut seen: int = 0;
    for kv in it: who.iter()
        invariant
            who@ == m,
            v == vstd::std_specs::hash::spec_hash_map_iter(who).remaining(),
            forall|i: int| 0 <= i < gone@.len() ==> m.contains_key(#[trigger] gone@[i]) && m[gone@[i]] == peer,
            it.seq() == v,
            seen == it.index(),
            forall|i: int|
                0 <= i < seen ==> (*v[i].1 == peer ==> gone@.contains(*#[trigger] v[i].0)),
    {
        assert(kv == v[seen]);
        let ghost before = gone@;
        let (k, p) = kv;
        if *p == peer {
            gone.push(*k);
            assert(gone@[gone@.len() - 1] == *k);
        }
        proof {
            assert forall|x: usize| before.contains(x) implies gone@.contains(x) by {
                let j = choose|j: int| 0 <= j < before.len() && before[j] == x;
                assert(gone@[j] == x);
            }
            seen = seen + 1;
        }
    }
    proof {
        assert forall|k: usize| m.contains_key(k) && m[k] == peer implies gone@.contains(k) by {
            assert(v.contains((&k, &m[k])));
            let i = choose|i: int| 0 <= i < v.len() && v[i] == (&k, &m[k]);
            assert(*v[i].0 == k);
        }
    }
    let ghost target = seats_without(m, peer);
    for i in 0..gone.len()
        invariant
            forall|i: int| 0 <= i < gone@.len() ==> m.contains_key(#[trigger] gone@[i]) && m[gone@[i]] == peer,
            forall|k: usize| m.contains_key(k) && m[k] == peer ==> gone@.contains(k),
            forall|k: usize| #[trigger] who@.contains_key(k) ==> m.contains_key(k) && who@[k] == m[k],
            forall|k: usize|
                #[trigger] m.contains_key(k) ==> (who@.contains_key(k) <==> !taken_out(gone@, i as int, k)),
    {
        who.remove(&gone[i]);
        assert forall|k: usize| #[trigger] m.contains_key(k) implies (who@.contains_key(k) <==> !taken_out(gone@, i + 1, k)) by {
            if taken_out(gone@, i + 1, k) && !taken_out(gone@, i as int, k) {
                let j = choose|j: int| 0 <= j < i + 1 && #[trigger] gone@[j] == k;
                assert(j == i);
            }
        }
    }
    proof {
        assert forall|k: usize| m.contains_key(k) implies (taken_out(gone@, gone@.len() as int, k) <==> m[k] == peer) by {
            if m[k] == peer {
                assert(gone@.contains(k));
                let j = choose|j: int| 0 <= j < gone@.len() && gone@[j] == k;
                assert(taken_out(gone@, gone@.len() as int, k));
            }
            if taken_out(gone@, gone@.len() as int, k) {
                let j = choose|j: int| 0 <= j < gone@.len() && #[trigger] gone@[j] == k;
            }
        }
        assert(who@ =~= target);
    }
}

/// Whether `k` is among the first `i` entries of `gone`.
spec fn taken_out(gone: Seq<usize>, i: int, k: usize) -> bool {
    exists|j: int| 0 <= j < i && #[trigger] gone[j] == k
}

} // verus!

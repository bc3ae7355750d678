use vstd::prelude::*;

verus! {

broadcast use {vstd::seq_lib::group_to_multiset_ensures, vstd::multiset::group_multiset_axioms};

/// A player's hand: how many cards it holds, and the slots that cards
/// leaving it freed and that the remaining cards have not moved into yet.
pub struct Hand {
    pub count: usize,
    pub removed: Vec<usize>,
}

/// Whether the slots `s` are the slots `0` to `n - 1`, each once.
pub open spec fn is_perm(s: Seq<usize>, n: nat) -> bool {
    &&& s.len() == n
    &&& s.no_duplicates()
    &&& forall|i: int| 0 <= i < s.len() ==> s[i] < n
}

/// Whether the slots of the cards in a hand and the freed slots are
/// together the slots `0` up to their number, each once.
pub open spec fn hand_ok(slots: Seq<usize>, removed: Seq<usize>) -> bool {
    is_perm(slots + removed, slots.len() + removed.len())
}

/// The slot a card entering a hand of `count` cards takes for the slot
/// `guess` under the pointer: the end at most.
pub open spec fn entry_for(count: usize, guess: usize) -> usize {
    if guess < count {
        guess
    } else {
        count
    }
}

/// Where slot `v` goes when a card enters a hand of `count` cards at slot
/// `entry`: one up when the card enters before the end at or below it.
pub open spec fn shifted(v: usize, entry: usize, count: usize) -> int {
    if entry != count && v >= entry {
        v + 1
    } else {
        v as int
    }
}

/// Makes room for a card entering a hand of `count` cards at the slot under
/// the pointer, `guess`: unless it enters at the end, the cards from its
/// slot on move one slot up. Answers the slot it enters at.
pub fn place_pos(count: usize, slots: &mut Vec<usize>, guess: usize) -> (entry: usize)
    requires
        forall|i: int| 0 <= i < old(slots)@.len() ==> old(slots)@[i] < usize::MAX,
    ensures
        entry == entry_for(count, guess),
        final(slots)@.len() == old(slots)@.len(),
        forall|i: int|
            0 <= i < old(slots)@.len() ==> #[trigger] final(slots)@[i] == shifted(
                old(slots)@[i],
                entry,
                count,
            ),
{
    let entry = if guess < count {
        guess
    } else {
        count
    };
    if entry != count {
        let n = slots.len();
        let mut k: usize = 0;
        while k < n
            invariant
                n == old(slots)@.len(),
                slots@.len() == n,
                k <= n,
                entry != count,
                forall|i: int| 0 <= i < n ==> old(slots)@[i] < usize::MAX,
                forall|i: int| k <= i < n ==> slots@[i] == old(slots)@[i],
                forall|i: int|
                    0 <= i < k ==> #[trigger] slots@[i] == shifted(old(slots)@[i], entry, count),
            decreases n - k,
        {
            if entry <= slots[k] {
                let v = slots[k] + 1;
                slots.remove(k);
                slots.insert(k, v);
            }
            k = k + 1;
        }
    }
    entry
}

/// A card entering a hand whose slots are in order takes a slot such that
/// they are in order again, one more of them.
pub proof fn law_place_keeps_order(old_slots: Seq<usize>, new_slots: Seq<usize>, count: usize, guess: usize)
    requires
        is_perm(old_slots, count as nat),
        count < usize::MAX,
        new_slots.len() == old_slots.len(),
        forall|i: int|
            0 <= i < old_slots.len() ==> #[trigger] new_slots[i] == shifted(
                old_slots[i],
                entry_for(count, guess),
                count,
            ),
    ensures
        is_perm(new_slots.push(entry_for(count, guess)), (count + 1) as nat),
{
    let e = entry_for(count, guess);
    let t = new_slots.push(e);
    assert forall|i: int, j: int| 0 <= i < t.len() && 0 <= j < t.len() && i != j implies t[i]
        != t[j] by {
        if i < new_slots.len() && j < new_slots.len() {
            assert(old_slots[i] != old_slots[j]);
        } else if i < new_slots.len() {
            assert(new_slots[i] == shifted(old_slots[i], e, count));
        } else {
            assert(new_slots[j] == shifted(old_slots[j], e, count));
        }
    }
    assert forall|i: int| 0 <= i < t.len() implies t[i] < count + 1 by {
        if i < new_slots.len() {
            assert(new_slots[i] == shifted(old_slots[i], e, count));
        }
    }
}

/// Whether `j` is the first position of `s` holding `v`.
pub open spec fn first_at(s: Seq<usize>, v: usize, j: int) -> bool {
    &&& 0 <= j < s.len()
    &&& s[j] == v
    &&& forall|k: int| 0 <= k < j ==> s[k] != v
}

/// The slot a card moved within a hand of `count` cards goes to for the
/// slot `guess` under the pointer: the last slot at most.
pub open spec fn move_for(count: usize, guess: usize) -> usize {
    if guess < count - 1 {
        guess
    } else {
        (count - 1) as usize
    }
}

/// Moves a card of a hand of `count` cards from slot `cur` towards the
/// slot under the pointer, `guess`: the first card holding the slot it
/// goes to takes `cur` instead. Answers the slot it goes to.
pub fn swap_pos(count: usize, slots: &mut Vec<usize>, guess: usize, cur: usize) -> (entry: usize)
    requires
        count >= 1,
    ensures
        entry == move_for(count, guess),
        cur == entry ==> final(slots)@ == old(slots)@,
        cur != entry ==> (exists|j: int|
            first_at(old(slots)@, entry, j) && final(slots)@ == old(slots)@.update(j, cur))
            || (!old(slots)@.contains(entry) && final(slots)@ == old(slots)@),
{
    let entry = if guess < count - 1 {
        guess
    } else {
        count - 1
    };
    if cur != entry {
        let n = slots.len();
        let mut k: usize = 0;
        while k < n
            invariant
                n == slots@.len(),
                slots@ == old(slots)@,
                entry == move_for(count, guess),
                cur != entry,
                k <= n,
                forall|i: int| 0 <= i < k ==> slots@[i] != entry,
            decreases n - k,
        {
            if slots[k] == entry {
                slots.remove(k);
                slots.insert(k, cur);
                assert(first_at(old(slots)@, entry, k as int));
                assert(slots@ =~= old(slots)@.update(k as int, cur));
                return entry;
            }
            k = k + 1;
        }
    }
    entry
}

/// Moving a card within a hand whose slots are in order keeps them in
/// order: the card at position `d`, in slot `cur`, takes the slot it goes
/// to, and the card there takes `cur`.
pub proof fn law_swap_keeps_order(
    old_slots: Seq<usize>,
    mid: Seq<usize>,
    count: usize,
    guess: usize,
    d: int,
)
    requires
        count >= 1,
        is_perm(old_slots, count as nat),
        0 <= d < old_slots.len(),
        old_slots[d] != move_for(count, guess) ==> (exists|j: int|
            first_at(old_slots, move_for(count, guess), j) && mid == old_slots.update(j, old_slots[d]))
            || (!old_slots.contains(move_for(count, guess)) && mid == old_slots),
        old_slots[d] == move_for(count, guess) ==> mid == old_slots,
    ensures
        is_perm(mid.update(d, move_for(count, guess)), count as nat),
{
    let e = move_for(count, guess);
    let cur = old_slots[d];
    let t = mid.update(d, e);
    if cur != e {
        if exists|j: int| first_at(old_slots, e, j) && mid == old_slots.update(j, cur) {
            let j = choose|j: int| first_at(old_slots, e, j) && mid == old_slots.update(j, cur);
            assert(j != d);
            assert forall|a: int, b: int| 0 <= a < t.len() && 0 <= b < t.len() && a != b implies t[a]
                != t[b] by {
                if a != d && a != j && b != d && b != j {
                    assert(old_slots[a] != old_slots[b]);
                } else if a == d || a == j {
                    if b != d && b != j {
                        assert(old_slots[b] != old_slots[d]);
                        assert(old_slots[b] != old_slots[j]);
                    }
                } else {
                    assert(old_slots[a] != old_slots[d]);
                    assert(old_slots[a] != old_slots[j]);
                }
            }
        } else {
            assert(!old_slots.contains(e));
            // every slot below count is taken, so the goal is taken too
            assert(old_slots.len() == count);
            assert(false) by {
                lemma_perm_contains(old_slots, count as nat, e);
            }
        }
    }
}

/// A hand whose slots are in order holds every slot below its size.
proof fn lemma_perm_contains(s: Seq<usize>, n: nat, v: usize)
    requires
        is_perm(s, n),
        v < n,
    ensures
        s.contains(v),
{
    if !s.contains(v) {
        let t = s.map_values(|x: usize| x as int);
        assert(t.no_duplicates()) by {
            assert forall|i: int, j: int| 0 <= i < t.len() && 0 <= j < t.len() && i != j implies t[i]
                != t[j] by {
                assert(s[i] != s[j]);
            }
        }
        let range = vstd::set_lib::set_int_range(0, n as int);
        vstd::set_lib::lemma_int_range(0, n as int);
        assert(t.to_set().subset_of(range.remove(v as int))) by {
            assert forall|x: int| t.to_set().contains(x) implies range.remove(v as int).contains(
                x,
            ) by {
                let i = choose|i: int| 0 <= i < t.len() && t[i] == x;
                assert(s[i] < n);
                assert(s[i] != v);
            }
        }
        vstd::set_lib::lemma_len_subset(t.to_set(), range.remove(v as int));
        t.unique_seq_to_set();
        assert(false);
    }
}

/// The smallest of the slots `s`.
pub open spec fn min_of(s: Seq<usize>) -> usize
    decreases s.len(),
{
    if s.len() <= 1 {
        s[0]
    } else if s.last() < min_of(s.drop_last()) {
        s.last()
    } else {
        min_of(s.drop_last())
    }
}

proof fn lemma_min_of(s: Seq<usize>)
    requires
        s.len() > 0,
    ensures
        s.contains(min_of(s)),
        forall|i: int| 0 <= i < s.len() ==> min_of(s) <= s[i],
    decreases s.len(),
{
    if s.len() > 1 {
        lemma_min_of(s.drop_last());
        assert forall|i: int| 0 <= i < s.len() implies min_of(s) <= s[i] by {
            if i < s.len() - 1 {
                assert(s.drop_last()[i] == s[i]);
            }
        }
        let w = choose|i: int| 0 <= i < s.drop_last().len() && s.drop_last()[i] == min_of(s.drop_last());
        assert(s[w] == s.drop_last()[w]);
    }
}

/// Distinct slots from `lo` on and below `hi` number at most `hi - lo`.
proof fn lemma_distinct_in_range(r: Seq<usize>, lo: int, hi: int)
    requires
        r.no_duplicates(),
        lo <= hi,
        forall|i: int| 0 <= i < r.len() ==> lo <= #[trigger] r[i] < hi,
    ensures
        r.len() <= hi - lo,
{
    let t = r.map_values(|x: usize| x as int);
    assert(t.no_duplicates()) by {
        assert forall|i: int, j: int| 0 <= i < t.len() && 0 <= j < t.len() && i != j implies t[i]
            != t[j] by {
            assert(r[i] != r[j]);
        }
    }
    let range = vstd::set_lib::set_int_range(lo, hi);
    vstd::set_lib::lemma_int_range(lo, hi);
    assert(t.to_set().subset_of(range)) by {
        assert forall|x: int| t.to_set().contains(x) implies range.contains(x) by {
            let i = choose|i: int| 0 <= i < t.len() && t[i] == x;
            assert(lo <= r[i] < hi);
        }
    }
    vstd::set_lib::lemma_len_subset(t.to_set(), range);
    t.unique_seq_to_set();
}

/// The position of the first smallest freed slot, and that slot.
fn first_min(r: &Vec<usize>) -> (m: (usize, usize))
    requires
        r@.len() > 0,
    ensures
        m.0 < r@.len(),
        r@[m.0 as int] == m.1,
        forall|i: int| 0 <= i < r@.len() ==> m.1 <= r@[i],
{
    let mut best: usize = 0;
    let mut k: usize = 1;
    while k < r.len()
        invariant
            r@.len() > 0,
            best < r@.len(),
            1 <= k <= r@.len(),
            forall|i: int| 0 <= i < k ==> r@[best as int] <= r@[i],
        decreases r@.len() - k,
    {
        if r[k] < r[best] {
            best = k;
        }
        k = k + 1;
    }
    (best, r[best])
}

impl Hand {
    /// A card leaves the hand from slot `slot`, which is freed.
    pub fn leave(&mut self, slot: usize)
        requires
            old(self).count >= 1,
        ensures
            final(self).count == old(self).count - 1,
            final(self).removed@ == old(self).removed@.push(slot),
    {
        self.count = self.count - 1;
        self.removed.push(slot);
    }

    /// Moves the remaining cards into the freed slots: going through the
    /// cards in turn, a card above the smallest freed slot moves into it,
    /// and its own slot is freed instead. The freed slots are then
    /// forgotten. Cards only ever move down; when the cards' slots and the
    /// freed ones were together the slots up to their number, the cards end
    /// in the slots `0` to their number minus one.
    pub fn compact(&mut self, slots: &mut Vec<usize>)
        ensures
            final(slots)@.len() == old(slots)@.len(),
            forall|j: int| 0 <= j < old(slots)@.len() ==> final(slots)@[j] <= old(slots)@[j],
            final(self).count == old(self).count,
            final(self).removed@ == Seq::<usize>::empty(),
            hand_ok(old(slots)@, old(self).removed@) ==> is_perm(
                final(slots)@,
                old(slots)@.len(),
            ),
    {
        let ghost s0 = slots@;
        let ghost r0 = self.removed@;
        let n = slots.len();
        let mut j: usize = 0;
        while j < n
            invariant
                n == s0.len(),
                slots@.len() == n,
                self.removed@.len() == r0.len(),
                self.count == old(self).count,
                j <= n,
                forall|k: int| 0 <= k < n ==> slots@[k] <= s0[k],
                forall|k: int| j <= k < n ==> slots@[k] == s0[k],
                (slots@ + self.removed@).to_multiset() == (s0 + r0).to_multiset(),
                forall|k: int, i: int|
                    0 <= k < j && 0 <= i < self.removed@.len() ==> slots@[k] <= self.removed@[i],
            decreases n - j,
        {
            if self.removed.len() > 0 {
                let (i, m) = first_min(&self.removed);
                let e = slots[j];
                if e > m {
                    let ghost s1 = slots@;
                    let ghost r1 = self.removed@;
                    self.removed.remove(i);
                    self.removed.push(e);
                    slots.remove(j);
                    slots.insert(j, m);
                    proof {
                        assert(slots@ =~= s1.update(j as int, m));
                        assert(self.removed@ =~= r1.remove(i as int).push(e));
                        vstd::seq_lib::lemma_multiset_commutative(s1, r1);
                        vstd::seq_lib::lemma_multiset_commutative(slots@, self.removed@);
                        assert((slots@ + self.removed@).to_multiset() =~= (s1 + r1).to_multiset());
                        assert forall|k: int, x: int|
                            0 <= k < j + 1 && 0 <= x < self.removed@.len() implies slots@[k]
                            <= self.removed@[x] by {
                            if x < self.removed@.len() - 1 {
                                let y = if x < i {
                                    x
                                } else {
                                    x + 1
                                };
                                assert(self.removed@[x] == r1[y]);
                            }
                        }
                    }
                }
            }
            j = j + 1;
        }
        proof {
            if hand_ok(s0, r0) {
                let all = slots@ + self.removed@;
                let init = s0 + r0;
                let total = (s0.len() + r0.len()) as nat;
                init.lemma_multiset_has_no_duplicates();
                assert forall|x: usize| all.to_multiset().contains(x) implies all.to_multiset().count(
                    x,
                ) == 1 by {}
                all.lemma_multiset_has_no_duplicates_conv();
                assert forall|i: int| 0 <= i < all.len() implies all[i] < total by {
                    assert(all.to_multiset().count(all[i]) > 0);
                    assert(init.contains(all[i]));
                }
                let r = self.removed@;
                assert(r.no_duplicates()) by {
                    assert forall|a: int, b: int| 0 <= a < r.len() && 0 <= b < r.len() && a != b
                        implies r[a] != r[b] by {
                        assert(all[n + a] == r[a]);
                        assert(all[n + b] == r[b]);
                    }
                }
                if r.len() > 0 {
                    lemma_min_of(r);
                    let m = min_of(r);
                    let w = choose|w: int| 0 <= w < r.len() && r[w] == m;
                    assert forall|k: int| 0 <= k < n implies slots@[k] < m by {
                        assert(slots@[k] <= r[w]);
                        assert(all[k] != all[n + w]);
                    }
                    assert forall|i: int| 0 <= i < r.len() implies m <= #[trigger] r[i] < total by {
                        assert(all[n + i] == r[i]);
                    }
                    lemma_distinct_in_range(r, m as int, total as int);
                }
                assert forall|k: int| 0 <= k < n implies slots@[k] < n by {
                    assert(all[k] == slots@[k]);
                }
                assert(slots@.no_duplicates()) by {
                    assert forall|a: int, b: int| 0 <= a < n && 0 <= b < n && a != b implies slots@[a]
                        != slots@[b] by {
                        assert(all[a] == slots@[a]);
                        assert(all[b] == slots@[b]);
                    }
                }
            }
        }
        self.removed.clear();
    }
}


/// Whether `idx` lists the positions `0` to its length minus one, each
/// once, by nondecreasing cost.
pub open spec fn sorted_by_cost(idx: Seq<usize>, costs: Seq<u8>) -> bool {
    &&& is_perm(idx, costs.len())
    &&& forall|a: int, b: int|
        0 <= a < b < idx.len() ==> costs[idx[a] as int] <= costs[idx[b] as int]
}

/// Whether `p` is the first position in the order `idx` whose card holds
/// slot `v`.
pub open spec fn first_in_order(slots: Seq<usize>, idx: Seq<usize>, v: usize, p: int) -> bool {
    &&& 0 <= p < idx.len()
    &&& slots[idx[p] as int] == v
    &&& forall|q: int| 0 <= q < p ==> slots[idx[q] as int] != v
}

/// Exchanges two entries of a list of positions.
fn swap_at(v: &mut Vec<usize>, a: usize, b: usize)
    requires
        a < old(v)@.len(),
        b < old(v)@.len(),
    ensures
        final(v)@ == old(v)@.update(a as int, old(v)@[b as int]).update(b as int, old(v)@[a as int]),
{
    let x = v[a];
    let y = v[b];
    v[a] = y;
    v[b] = x;
}

proof fn lemma_swap_keeps_multiset(s: Seq<usize>, a: int, b: int)
    requires
        0 <= a < s.len(),
        0 <= b < s.len(),
    ensures
        s.update(a, s[b]).update(b, s[a]).to_multiset() == s.to_multiset(),
{
    let t = s.update(a, s[b]);
    assert(t.to_multiset() == s.to_multiset().insert(s[b]).remove(s[a]));
    assert(t.update(b, s[a]).to_multiset() == t.to_multiset().insert(s[a]).remove(t[b]));
    assert(t.update(b, s[a]).to_multiset() =~= s.to_multiset());
}

/// The positions `0` to `n - 1` by nondecreasing cost.
fn order_by_cost(costs: &Vec<u8>) -> (idx: Vec<usize>)
    ensures
        sorted_by_cost(idx@, costs@),
{
    let n = costs.len();
    let mut idx: Vec<usize> = Vec::new();
    let mut k: usize = 0;
    while k < n
        invariant
            n == costs@.len(),
            k <= n,
            idx@ == Seq::new(k as nat, |i: int| i as usize),
        decreases n - k,
    {
        idx.push(k);
        assert(idx@ =~= Seq::new((k + 1) as nat, |i: int| i as usize));
        k = k + 1;
    }
    let ghost init = idx@;
    assert(is_perm(init, n as nat));
    let mut p: usize = 0;
    while p < n
        invariant
            n == costs@.len(),
            idx@.len() == n,
            p <= n,
            idx@.to_multiset() == init.to_multiset(),
            forall|i: int| 0 <= i < n ==> #[trigger] idx@[i] < n,
            forall|a: int, b: int|
                0 <= a < b < p ==> costs@[idx@[a] as int] <= costs@[idx@[b] as int],
            forall|a: int, b: int|
                0 <= a < p <= b < n ==> costs@[idx@[a] as int] <= costs@[idx@[b] as int],
        decreases n - p,
    {
        let mut best = p;
        let mut q = p + 1;
        while q < n
            invariant
                n == costs@.len(),
                idx@.len() == n,
                p < n,
                p <= best < n,
                p + 1 <= q <= n,
                forall|i: int| 0 <= i < n ==> #[trigger] idx@[i] < n,
                forall|b: int| p <= b < q ==> costs@[idx@[best as int] as int] <= costs@[idx@[b] as int],
            decreases n - q,
        {
            if costs[idx[q]] < costs[idx[best]] {
                best = q;
            }
            q = q + 1;
        }
        let ghost before = idx@;
        swap_at(&mut idx, p, best);
        proof {
            lemma_swap_keeps_multiset(before, p as int, best as int);
        }
        p = p + 1;
    }
    proof {
        init.lemma_multiset_has_no_duplicates();
        assert forall|x: usize| idx@.to_multiset().contains(x) implies idx@.to_multiset().count(x)
            == 1 by {}
        idx@.lemma_multiset_has_no_duplicates_conv();
    }
    idx
}

/// Orders a hand by mana value: each card gets, as its new slot, the first
/// position in some order of the cards by nondecreasing cost whose card
/// holds the card's old slot. When the old slots were distinct, the new
/// slots are the slots `0` to the number of cards minus one, each once, and
/// a card in a lower slot never costs more than one in a higher slot.
pub fn sort_by_cost(slots: &mut Vec<usize>, costs: &Vec<u8>)
    requires
        old(slots)@.len() == costs@.len(),
    ensures
        final(slots)@.len() == old(slots)@.len(),
        exists|idx: Seq<usize>|
            sorted_by_cost(idx, costs@) && forall|j: int|
                0 <= j < old(slots)@.len() ==> first_in_order(
                    old(slots)@,
                    idx,
                    old(slots)@[j],
                    #[trigger] final(slots)@[j] as int,
                ),
        old(slots)@.no_duplicates() ==> is_perm(final(slots)@, old(slots)@.len()),
        old(slots)@.no_duplicates() ==> forall|a: int, b: int|
            0 <= a < final(slots)@.len() && 0 <= b < final(slots)@.len() && final(slots)@[a]
                < final(slots)@[b] ==> costs@[a] <= costs@[b],
{
    let ghost s0 = slots@;
    let n = slots.len();
    let idx = order_by_cost(costs);
    let mut olds: Vec<usize> = Vec::new();
    let mut k: usize = 0;
    while k < n
        invariant
            n == s0.len(),
            slots@ == s0,
            k <= n,
            olds@ == s0.subrange(0, k as int),
        decreases n - k,
    {
        olds.push(slots[k]);
        assert(olds@ =~= s0.subrange(0, k + 1 as int));
        k = k + 1;
    }
    assert(olds@ =~= s0);
    let mut j: usize = 0;
    while j < n
        invariant
            n == s0.len(),
            n == costs@.len(),
            slots@.len() == n,
            olds@ == s0,
            j <= n,
            sorted_by_cost(idx@, costs@),
            forall|k: int| j <= k < n ==> slots@[k] == s0[k],
            forall|k: int| 0 <= k < j ==> first_in_order(s0, idx@, s0[k], #[trigger] slots@[k] as int),
        decreases n - j,
    {
        let v = slots[j];
        proof {
            lemma_perm_contains(idx@, n as nat, j);
        }
        let mut p: usize = 0;
        while p < n && olds[idx[p]] != v
            invariant
                n == s0.len(),
                olds@ == s0,
                slots@.len() == n,
                idx@.len() == n,
                j < n,
                v == s0[j as int],
                p <= n,
                sorted_by_cost(idx@, costs@),
                idx@.contains(j),
                forall|k: int| j <= k < n ==> slots@[k] == s0[k],
                forall|k: int| 0 <= k < j ==> slots@[k] < n,
                forall|q: int| 0 <= q < p ==> s0[idx@[q] as int] != v,
            decreases n - p,
        {
            p = p + 1;
        }
        proof {
            let w = choose|w: int| 0 <= w < n && idx@[w] == j;
            if p == n {
                assert(s0[idx@[w] as int] == v);
                assert(false);
            }
        }
        slots[j] = p;
        j = j + 1;
    }
    proof {
        assert(forall|k: int| 0 <= k < n ==> first_in_order(s0, idx@, s0[k], #[trigger] slots@[k] as int));
        if s0.no_duplicates() {
            assert forall|k: int| 0 <= k < n implies idx@[slots@[k] as int] == k by {
                assert(first_in_order(s0, idx@, s0[k], slots@[k] as int));
                let i = idx@[slots@[k] as int];
                assert(s0[i as int] == s0[k]);
            }
            assert(slots@.no_duplicates()) by {
                assert forall|a: int, b: int| 0 <= a < n && 0 <= b < n && a != b implies slots@[a]
                    != slots@[b] by {
                    assert(idx@[slots@[a] as int] == a);
                    assert(idx@[slots@[b] as int] == b);
                }
            }
            assert forall|a: int, b: int|
                0 <= a < n && 0 <= b < n && slots@[a] < slots@[b] implies costs@[a] <= costs@[b] by {
                assert(idx@[slots@[a] as int] == a);
                assert(idx@[slots@[b] as int] == b);
            }
        }
    }
}

} // verus!

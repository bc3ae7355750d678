use vstd::prelude::*;

use crate::card::{Card, Id, SubCard, Value};
use crate::pile::Pile;

verus! {

broadcast use {vstd::seq_lib::group_to_multiset_ensures, vstd::multiset::group_multiset_axioms};

/// The identifiers of a run of cards, in order.
pub open spec fn ids_of(s: Seq<SubCard>) -> Seq<Id> {
    s.map_values(|c: SubCard| c.id)
}

/// Whether the cards with identifiers `ids` can be put in the order `order`:
/// every identifier occurs in `order` at most as often as among `ids`.
pub open spec fn order_fits(ids: Seq<Id>, order: Seq<Id>) -> bool {
    order.to_multiset().subset_of(ids.to_multiset())
}

/// Exchanges the cards at `i` and `k`.
fn swap_cards(v: &mut Vec<SubCard>, i: usize, k: usize)
    requires
        i <= k < old(v)@.len(),
    ensures
        final(v)@ == old(v)@.update(i as int, old(v)@[k as int]).update(k as int, old(v)@[i as int]),
{
    if i < k {
        let b = v.remove(k);
        let a = v.remove(i);
        v.insert(i, b);
        v.insert(k, a);
        assert(v@ =~= old(v)@.update(i as int, old(v)@[k as int]).update(k as int, old(v)@[i as int]));
    } else {
        assert(v@ =~= old(v)@.update(i as int, old(v)@[k as int]).update(k as int, old(v)@[i as int]));
    }
}

/// Exchanging two entries of a sequence keeps its multiset.
proof fn lemma_swap_multiset<A>(s: Seq<A>, i: int, k: int)
    requires
        0 <= i < s.len(),
        0 <= k < s.len(),
    ensures
        s.update(i, s[k]).update(k, s[i]).to_multiset() == s.to_multiset(),
{
    let t = s.update(i, s[k]);
    assert(t.to_multiset() == s.to_multiset().insert(s[k]).remove(s[i]));
    assert(t[k] == (if i == k { s[k] } else { s[k] }));
    assert(t.update(k, s[i]).to_multiset() == t.to_multiset().insert(s[i]).remove(t[k]));
    assert(t.update(k, s[i]).to_multiset() =~= s.to_multiset());
}

/// A prefix's multiset lies within the whole sequence's multiset.
proof fn lemma_prefix_subset<A>(s: Seq<A>, n: int)
    requires
        0 <= n <= s.len(),
    ensures
        s.subrange(0, n).to_multiset().subset_of(s.to_multiset()),
{
    vstd::seq_lib::lemma_multiset_commutative(s.subrange(0, n), s.subrange(n, s.len() as int));
    assert(s.subrange(0, n) + s.subrange(n, s.len() as int) =~= s);
}

/// If `x` is missing from the rest of `ids` after a prefix equal to `order`'s
/// first `i` entries, and `order`'s entry `i` is `x`, then `order` does not
/// fit `ids`.
proof fn lemma_missing_breaks_fit(ids: Seq<Id>, order: Seq<Id>, i: int)
    requires
        0 <= i < order.len(),
        i <= ids.len(),
        ids.subrange(0, i) == order.subrange(0, i),
        !ids.subrange(i, ids.len() as int).contains(order[i]),
    ensures
        !order_fits(ids, order),
{
    let x = order[i];
    let pre = ids.subrange(0, i);
    let suf = ids.subrange(i, ids.len() as int);
    vstd::seq_lib::lemma_multiset_commutative(pre, suf);
    assert(pre + suf =~= ids);
    assert(suf.to_multiset().count(x) == 0);
    assert(ids.to_multiset().count(x) == pre.to_multiset().count(x));
    let o1 = order.subrange(0, i + 1);
    assert(o1 =~= order.subrange(0, i).push(x));
    assert(o1.to_multiset().count(x) == pre.to_multiset().count(x) + 1);
    lemma_prefix_subset(order, i + 1);
    assert(order.to_multiset().count(x) >= o1.to_multiset().count(x));
}

/// The first position from `k` on of a card with identifier `id`.
pub open spec fn first_with(v: Seq<SubCard>, id: Id, k: int) -> Option<int>
    decreases v.len() - k,
{
    if k < 0 || k >= v.len() {
        None
    } else if v[k].id == id {
        Some(k)
    } else {
        first_with(v, id, k + 1)
    }
}

/// The cards `v` with those at `i` and `k` exchanged.
pub open spec fn swapped(v: Seq<SubCard>, i: int, k: int) -> Seq<SubCard> {
    v.update(i, v[k]).update(k, v[i])
}

/// The stack a reorder makes of `v` from the `i`-th listed identifier on,
/// and whether it finds every one: the first card from position `i` on
/// with that identifier is exchanged into position `i`; at the first one
/// not found the stack stays as it is then.
pub open spec fn reorder_from(v: Seq<SubCard>, order: Seq<Id>, i: int) -> (Seq<SubCard>, bool)
    decreases order.len() - i,
{
    if i < 0 || i >= order.len() {
        (v, true)
    } else {
        match first_with(v, order[i], i) {
            None => (v, false),
            Some(k) => reorder_from(swapped(v, i, k), order, i + 1),
        }
    }
}

proof fn lemma_first_with(v: Seq<SubCard>, id: Id, j: int, i: int, k: int)
    requires
        0 <= i <= j <= k <= v.len(),
        forall|m: int| i <= m < k ==> v[m].id != id,
    ensures
        k < v.len() && v[k].id == id ==> first_with(v, id, j) == Some(k),
        k == v.len() ==> first_with(v, id, j) is None,
    decreases k - j,
{
    if j < k {
        lemma_first_with(v, id, j + 1, i, k);
    }
}

/// What a reorder message does to a pile: a stack keeps its cards, and
/// exactly when the order fits it (answer true) its cards start with the
/// listed identifiers in order; a lone card or nothing stays as it is.
pub open spec fn reorder_spec(before: Pile, order: Seq<Id>, r: bool, after: Pile) -> bool {
    &&& r == (before is Multiple && order_fits(ids_of(before.cards()), order))
    &&& before matches Pile::Multiple(v) ==> (after matches Pile::Multiple(w)
        && w@.to_multiset() == v@.to_multiset() && w@.len() == v@.len()
        && (r ==> order.len() <= w@.len() && ids_of(w@).subrange(0, order.len() as int)
        == order) && reorder_from(v@, order, 0) == (w@, r))
    &&& !(before is Multiple) ==> after == before
}

/// A reorder message for a stack that holds exactly the listed cards (by
/// identifier) always succeeds, and leaves the stack in exactly the listed
/// order.
pub proof fn law_reorder_same_cards(p: Pile, order: Seq<Id>, r: bool, after: Pile)
    requires
        p is Multiple,
        ids_of(p.cards()).to_multiset() == order.to_multiset(),
        reorder_spec(p, order, r, after),
    ensures
        r,
        ids_of(after.cards()) == order,
{
    let ids = ids_of(p.cards());
    assert(order.to_multiset().subset_of(ids.to_multiset()));
    assert(ids.len() == order.len()) by {
        assert(ids.to_multiset().len() == order.to_multiset().len());
    }
    if let Pile::Multiple(w) = after {
        assert(ids_of(w@).subrange(0, order.len() as int) =~= ids_of(w@));
    }
}

/// Cards in another order have their identifiers in another order too.
proof fn lemma_ids_multiset(v: Seq<SubCard>, w: Seq<SubCard>)
    requires
        v.to_multiset() == w.to_multiset(),
    ensures
        ids_of(v).to_multiset() == ids_of(w).to_multiset(),
    decreases v.len(),
{
    if v.len() == 0 {
        assert(w.to_multiset().len() == 0);
        assert(w.len() == 0);
        assert(ids_of(v) =~= Seq::<Id>::empty());
        assert(ids_of(w) =~= Seq::<Id>::empty());
    } else {
        let x = v.last();
        assert(v.to_multiset().count(x) > 0) by {
            assert(v.contains(x)) by {
                assert(v[v.len() - 1] == x);
            }
        }
        assert(w.contains(x));
        let k = choose|k: int| 0 <= k < w.len() && w[k] == x;
        let v1 = v.drop_last();
        let w1 = w.remove(k);
        assert(v1.push(x) =~= v);
        assert(v.to_multiset() == v1.to_multiset().insert(x));
        assert(w1.to_multiset() == w.to_multiset().remove(x));
        assert(v1.to_multiset() =~= w1.to_multiset());
        lemma_ids_multiset(v1, w1);
        assert(ids_of(v) =~= ids_of(v1).push(x.id));
        assert(ids_of(w1) =~= ids_of(w).remove(k));
        assert(ids_of(w)[k] == x.id);
        assert(ids_of(w1).to_multiset() == ids_of(w).to_multiset().remove(x.id));
        assert(ids_of(v).to_multiset() == ids_of(v1).to_multiset().insert(x.id));
        assert(ids_of(w).to_multiset().count(x.id) > 0) by {
            assert(ids_of(w).contains(x.id));
        }
        assert(ids_of(v).to_multiset() =~= ids_of(w).to_multiset());
    }
}

/// Replaying a shuffle: the order a player sends after shuffling a stack,
/// applied by another player to their copy of the stack as it was before,
/// always succeeds and gives the same order.
pub proof fn law_shuffle_replays(before: Pile, shuffled: Seq<SubCard>, r: bool, theirs: Pile)
    requires
        before matches Pile::Multiple(v) && shuffled.to_multiset() == v@.to_multiset(),
        reorder_spec(before, ids_of(shuffled), r, theirs),
    ensures
        r,
        ids_of(theirs.cards()) == ids_of(shuffled),
{
    if let Pile::Multiple(v) = before {
        lemma_ids_multiset(v@, shuffled);
        law_reorder_same_cards(before, ids_of(shuffled), r, theirs);
    }
}

/// Puts a stack's cards in the order another player sent: for each
/// identifier of `order` in turn, the first card with it from that
/// position on is exchanged into that position. Answers whether every
/// identifier was found; that is exactly when the order fits the stack.
/// A lone card or nothing cannot be reordered and stays as it is.
pub fn reorder(pile: &mut Pile, order: &Vec<Id>) -> (r: bool)
    ensures
        reorder_spec(*old(pile), order@, r, *final(pile)),
{
    let p = pile.take_pile();
    match p {
        Pile::Multiple(v) => {
            let mut v = v;
            let ghost v0 = v@;
            let mut i: usize = 0;
            let mut ok = true;
            while ok && i < order.len()
                invariant
                    i <= order@.len(),
                    v@.len() == v0.len(),
                    v@.to_multiset() == v0.to_multiset(),
                    ids_of(v@).to_multiset() == ids_of(v0).to_multiset(),
                    ok ==> i <= v@.len() && ids_of(v@).subrange(0, i as int) == order@.subrange(
                        0,
                        i as int,
                    ),
                    !ok ==> !order_fits(ids_of(v0), order@),
                    ok ==> reorder_from(v0, order@, 0) == reorder_from(v@, order@, i as int),
                    !ok ==> reorder_from(v0, order@, 0) == (v@, false),
                decreases order@.len() - i, if ok { 1int } else { 0int },
            {
                let want = order[i];
                let mut k: usize = i;
                let mut found = false;
                while !found && k < v.len()
                    invariant
                        i <= k <= v@.len(),
                        found ==> k < v@.len() && v@[k as int].id == want,
                        forall|j: int| i <= j < k ==> v@[j].id != want,
                    decreases v@.len() - k, if found { 0int } else { 1int },
                {
                    if v[k].id == want {
                        found = true;
                    } else {
                        k = k + 1;
                    }
                }
                if found {
                    let ghost before = v@;
                    proof {
                        lemma_first_with(before, want, i as int, i as int, k as int);
                        assert(reorder_from(before, order@, i as int) == reorder_from(
                            swapped(before, i as int, k as int),
                            order@,
                            i + 1,
                        ));
                    }
                    swap_cards(&mut v, i, k);
                    proof {
                        lemma_swap_multiset(before, i as int, k as int);
                        let ids = ids_of(before);
                        assert(ids_of(v@) =~= ids.update(i as int, ids[k as int]).update(
                            k as int,
                            ids[i as int],
                        ));
                        lemma_swap_multiset(ids, i as int, k as int);
                        assert(ids_of(v@).subrange(0, i + 1 as int) =~= order@.subrange(
                            0,
                            i + 1 as int,
                        ));
                    }
                    i = i + 1;
                } else {
                    proof {
                        lemma_first_with(v@, want, i as int, i as int, k as int);
                        let ids = ids_of(v@);
                        assert forall|j: int| 0 <= j < ids.subrange(i as int, ids.len() as int).len()
                            implies ids.subrange(i as int, ids.len() as int)[j] != want by {
                            assert(ids.subrange(i as int, ids.len() as int)[j] == v@[i + j].id);
                        }
                        lemma_missing_breaks_fit(ids, order@, i as int);
                        assert(forall|x: Id| #[trigger]
                            ids.to_multiset().count(x) == ids_of(v0).to_multiset().count(x));
                    }
                    ok = false;
                }
            }
            proof {
                if ok {
                    let ids = ids_of(v@);
                    assert(order@.subrange(0, order@.len() as int) =~= order@);
                    lemma_prefix_subset(ids, order@.len() as int);
                    assert(forall|x: Id| #[trigger]
                        ids.to_multiset().count(x) == ids_of(v0).to_multiset().count(x));
                }
            }
            *pile = Pile::Multiple(v);
            ok
        },
        other => {
            *pile = other;
            false
        },
    }
}


/// Whether `b` is `a` but for the cards it holds: the same kind of pile,
/// and for a lone card the same values and token status.
pub open spec fn same_frame(a: Pile, b: Pile) -> bool {
    match a {
        Pile::Multiple(_) => b is Multiple,
        Pile::Single(c) => b matches Pile::Single(d) && {
            &&& d.power == c.power && d.toughness == c.toughness && d.counters == c.counters
            &&& d.loyalty == c.loyalty && d.misc == c.misc && d.is_token == c.is_token
        },
        Pile::Empty => b is Empty,
    }
}

/// Whether `t` is the card `s` turned over.
pub open spec fn turned(s: SubCard, t: SubCard) -> bool {
    t.id == s.id && t.tokens == s.tokens && t.data == s.data && t.flipped == !s.flipped
}

/// Whether a flip request for side `rev` turns the card `s`: only a card
/// with a back that does not already show that side turns.
pub open spec fn flip_turns(s: SubCard, rev: bool) -> bool {
    s.has_back() && s.flipped != rev
}

fn turn_over(s: SubCard) -> (r: SubCard)
    ensures
        turned(s, r),
{
    let mut s = s;
    s.flipped = !s.flipped;
    s
}

/// What a flip message for the card at `idx` does: `None` when there is
/// no card there; otherwise whether the card turned, and the pile with
/// just that card turned over, or the pile as it was.
pub open spec fn flip_spec(before: Pile, idx: usize, rev: bool, r: Option<bool>, after: Pile) -> bool {
    &&& r == (if idx < before.cards().len() {
        Some(flip_turns(before.cards()[idx as int], rev))
    } else {
        None
    })
    &&& r != Some(true) ==> after == before
    &&& r == Some(true) ==> {
        &&& same_frame(before, after)
        &&& after.cards().len() == before.cards().len()
        &&& forall|j: int|
            0 <= j < before.cards().len() && j != idx ==> after.cards()[j] == before.cards()[j]
        &&& turned(before.cards()[idx as int], after.cards()[idx as int])
    }
}

/// A flip message asks for a side, not for a change: applied twice, the
/// second time changes nothing.
pub proof fn law_flip_idempotent(
    p0: Pile,
    idx: usize,
    rev: bool,
    r1: Option<bool>,
    p1: Pile,
    r2: Option<bool>,
    p2: Pile,
)
    requires
        flip_spec(p0, idx, rev, r1, p1),
        flip_spec(p1, idx, rev, r2, p2),
    ensures
        r2 != Some(true),
        p2 == p1,
{
}

/// Turns the card at `idx` (in iteration order) to show its back when
/// `rev`, its face otherwise. Answers `None` when there is no card there,
/// and otherwise whether the card turned; a card without a back, or
/// already showing that side, stays as it is.
pub fn flip_at(pile: &mut Pile, idx: usize, rev: bool) -> (r: Option<bool>)
    requires
        !(*old(pile) is Empty),
    ensures
        flip_spec(*old(pile), idx, rev, r, *final(pile)),
{
    let p = pile.take_pile();
    match p {
        Pile::Multiple(v) => {
            let mut v = v;
            if idx >= v.len() {
                *pile = Pile::Multiple(v);
                return None;
            }
            let turns = v[idx].data.back.is_some() && v[idx].flipped != rev;
            if turns {
                let ghost before = v@;
                let c = v.remove(idx);
                v.insert(idx, turn_over(c));
                assert(forall|j: int| 0 <= j < before.len() && j != idx ==> v@[j] == before[j]);
            }
            *pile = Pile::Multiple(v);
            Some(turns)
        },
        Pile::Single(c) => {
            let mut c = c;
            if idx == 0 {
                let turns = c.subcard.data.back.is_some() && c.subcard.flipped != rev;
                if turns {
                    c.subcard.flipped = !c.subcard.flipped;
                }
                *pile = Pile::Single(c);
                Some(turns)
            } else if idx - 1 < c.equiped.len() {
                let k = idx - 1;
                let turns = c.equiped[k].data.back.is_some() && c.equiped[k].flipped != rev;
                if turns {
                    let ghost before = c.equiped@;
                    let e = c.equiped.remove(k);
                    c.equiped.insert(k, turn_over(e));
                    assert(forall|j: int| 0 <= j < before.len() && j != k ==> c.equiped@[j] == before[j]);
                }
                *pile = Pile::Single(c);
                Some(turns)
            } else {
                *pile = Pile::Single(c);
                None
            }
        },
        Pile::Empty => {
            *pile = Pile::Empty;
            None
        },
    }
}

/// Whether a request to draw `n` cards ending at position `start` does not
/// fit the pile: it starts past the pile's end or reaches below its bottom.
pub open spec fn draw_misfits(p: Pile, start: usize, n: usize) -> bool {
    start > p.spec_len() || n > start
}

/// What taking the `n` cards below position `start` out of a pile does:
/// nothing when the request does not fit (answer `None`); otherwise the
/// cards from `start - n` up to `start` come out in order and the rest
/// stays, a lone card leaving nothing behind.
pub open spec fn draw_range_spec(
    before: Pile,
    start: usize,
    n: usize,
    r: Option<Seq<SubCard>>,
    after: Pile,
) -> bool {
    &&& r is None <==> draw_misfits(before, start, n)
    &&& r is None ==> after == before
    &&& r matches Some(cards) ==> {
        &&& before matches Pile::Multiple(v) ==> cards == v@.subrange(start - n, start as int)
            && after.is_loose(v@.subrange(0, start - n) + v@.subrange(start as int, v@.len() as int))
        &&& before matches Pile::Single(c) ==> cards == seq![c.subcard] && after == Pile::Empty
    }
}

/// Takes the `n` cards below position `start` out of the pile, as another
/// player drew them; answers `None`, leaving the pile as it is, when the
/// request does not fit the pile.
pub fn draw_range(pile: &mut Pile, start: usize, n: usize) -> (r: Option<Vec<SubCard>>)
    requires
        !draw_misfits(*old(pile), start, n) ==> (*old(pile) is Multiple || (*old(pile) is Single
            && start == 1 && n == 1)),
    ensures
        draw_range_spec(
            *old(pile),
            start,
            n,
            match r {
                Some(v) => Some(v@),
                None => None,
            },
            *final(pile),
        ),
{
    if start > pile.len() || n > start {
        return None;
    }
    let cards = pile.drain(start - n, start);
    pile.set_single();
    Some(cards)
}

/// What drawing `n` cards (at least one) from a pile does on the drawing
/// player's side: as many cards as the pile has, at most `n`, come off its
/// bottom when it lies face down (`reversed`) and off its top otherwise;
/// they are listed bottom to top, and `start` is the position just above
/// them in the pile as it was, which the other players are sent.
pub open spec fn draw_cards_spec(
    before: Pile,
    reversed: bool,
    n: usize,
    cards: Seq<SubCard>,
    start: usize,
    after: Pile,
) -> bool {
    let len = before.spec_len();
    let k = if n < len {
        n as nat
    } else {
        len
    };
    &&& start == (if reversed {
        k
    } else {
        len
    })
    &&& before matches Pile::Multiple(v) ==> cards == v@.subrange(start - k, start as int)
        && after.is_loose(v@.subrange(0, start - k) + v@.subrange(start as int, v@.len() as int))
    &&& before matches Pile::Single(c) ==> cards == seq![c.subcard] && after == Pile::Empty
}

/// Drawing `n` cards from a stack of `len` takes `k`, the smaller of the
/// two: from a face-down stack its first (bottom) `k` cards, leaving the
/// rest above them and sending `k` as the start; from a face-up stack its
/// last (top) `k` cards, leaving the cards below them and sending `len`.
pub proof fn law_draw_ends(p: Pile, reversed: bool, n: usize, cards: Seq<SubCard>, start: usize, after: Pile)
    requires
        p is Multiple,
        draw_cards_spec(p, reversed, n, cards, start, after),
    ensures
        ({
            let v = p.cards();
            let len = v.len();
            let k = if n < len {
                n as int
            } else {
                len as int
            };
            &&& reversed ==> cards == v.subrange(0, k) && start == k && after.cards() == v.subrange(
                k,
                len as int,
            ) && after is Multiple
            &&& !reversed ==> cards == v.subrange(len - k, len as int) && start == len
                && after.cards() == v.subrange(0, len - k) && after is Multiple
        }),
{
    if let Pile::Multiple(v) = p {
        if reversed {
            assert(v@.subrange(0, 0) + v@.subrange(start as int, v@.len() as int) =~= v@.subrange(
                start as int,
                v@.len() as int,
            ));
        } else {
            assert(v@.subrange(0, start - (if n < v@.len() { n as int } else { v@.len() as int }))
                + v@.subrange(start as int, v@.len() as int) =~= v@.subrange(
                0,
                start - (if n < v@.len() { n as int } else { v@.len() as int }),
            ));
        }
    }
}

/// Draws `n` cards (at least one) from a pile: from its bottom when it lies
/// face down, from its top otherwise, at most as many as it has. Answers
/// the cards bottom to top and the position just above them, as they are
/// sent to the other players.
pub fn draw_cards(pile: &mut Pile, reversed: bool, n: usize) -> (r: (Vec<SubCard>, usize))
    requires
        !(*old(pile) is Empty),
        n >= 1,
    ensures
        draw_cards_spec(*old(pile), reversed, n, r.0@, r.1, *final(pile)),
{
    let len = pile.len();
    let k = if n < len {
        n
    } else {
        len
    };
    let start = if reversed {
        k
    } else {
        len
    };
    let cards = pile.drain(start - k, start);
    pile.set_single();
    (cards, start)
}

/// Replaying a draw: the message a player sends when drawing from a pile,
/// applied by another player to the same pile, takes out the same cards in
/// the same order and leaves the same pile behind.
pub proof fn law_draw_replays(
    p: Pile,
    reversed: bool,
    n: usize,
    cards: Seq<SubCard>,
    start: usize,
    mine: Pile,
    r: Option<Seq<SubCard>>,
    theirs: Pile,
)
    requires
        !(p is Empty),
        n >= 1,
        draw_cards_spec(p, reversed, n, cards, start, mine),
        draw_range_spec(p, start, cards.len() as usize, r, theirs),
    ensures
        r == Some(cards),
        theirs.flat() == mine.flat(),
        theirs is Multiple <==> mine is Multiple,
{
}

/// What laying the lone card `t` onto the pile `base` makes: `t` becomes
/// the face, with `base`'s cards and then its own equipment under it.
pub open spec fn laid_onto(base: Pile, t: Card, c: Card) -> bool {
    &&& c.subcard == t.subcard
    &&& c.equiped@ == base.flat() + t.equiped@
    &&& c.power == t.power && c.toughness == t.toughness
    &&& c.counters == t.counters && c.loyalty == t.loyalty && c.misc == t.misc
    &&& c.is_token == t.is_token
}

/// What a merge message does to the pile `base`: when `check` is set and
/// `at` lies past its end, nothing (answer `None`); a lone card with
/// equipment or values is laid onto it (answer `Some(true)`); anything else
/// slides into it at position `at` (answer `Some(false)`).
pub open spec fn merge_onto_spec(
    before: Pile,
    top: Pile,
    at: usize,
    check: bool,
    r: Option<bool>,
    after: Pile,
) -> bool {
    &&& r is None <==> check && at > before.spec_len()
    &&& r is None ==> after == before
    &&& r is Some ==> (r == Some(true) <==> top.spec_is_modified())
    &&& r == Some(true) ==> (top matches Pile::Single(t) && after matches Pile::Single(c)
        && laid_onto(before, *t, *c))
    &&& r == Some(false) ==> after.is_loose(
        before.flat().subrange(0, at as int) + top.flat() + before.flat().subrange(
            at as int,
            before.flat().len() as int,
        ),
    )
}

/// Lays the pile `top` onto `base`, as another player merged them (see
/// `merge_onto_spec`).
pub fn merge_onto(base: &mut Pile, top: Pile, at: usize, check: bool) -> (r: Option<bool>)
    requires
        !(*old(base) is Empty),
        !(top is Empty),
        top.spec_is_modified() ==> old(base).has_card(),
        !check && !top.spec_is_modified() ==> at <= old(base).flat().len(),
    ensures
        merge_onto_spec(*old(base), top, at, check, r, *final(base)),
{
    if check && at > base.len() {
        return None;
    }
    proof {
        if let Pile::Single(c) = *old(base) {
            assert(c.flat().len() >= 1);
        }
    }
    if top.is_modified() {
        base.merge(top);
        Some(true)
    } else {
        base.splice_at(at, top);
        Some(false)
    }
}

/// What merging two piles that landed on each other does on the player's
/// own side: a lone card with equipment or values is laid onto the lower
/// pile (answer true); otherwise the upper pile goes under a face-down
/// lower pile and on top of a face-up one. `at`, the position sent to the
/// other players, is `0` for a face-down lower pile and its length
/// otherwise.
pub open spec fn merge_local_spec(
    before: Pile,
    top: Pile,
    reversed: bool,
    at: usize,
    equip: bool,
    after: Pile,
) -> bool {
    &&& at == (if reversed {
        0
    } else {
        before.spec_len()
    })
    &&& equip == top.spec_is_modified()
    &&& equip ==> (top matches Pile::Single(t) && after matches Pile::Single(c) && laid_onto(
        before,
        *t,
        *c,
    ))
    &&& !equip && reversed ==> after.is_loose(top.flat() + before.flat())
    &&& !equip && !reversed ==> after.is_loose(before.flat() + top.flat())
}

/// Merges the pile `top`, which landed on `bottom`, into it (see
/// `merge_local_spec`); answers the position sent to the other players and
/// whether the result shows equipment.
pub fn merge_local(bottom: &mut Pile, top: Pile, reversed: bool) -> (r: (usize, bool))
    requires
        old(bottom).has_card(),
        !(top is Empty),
    ensures
        merge_local_spec(*old(bottom), top, reversed, r.0, r.1, *final(bottom)),
{
    let at = if reversed {
        0
    } else {
        bottom.len()
    };
    if top.is_modified() {
        bottom.merge(top);
        (at, true)
    } else if reversed {
        bottom.extend_start(top);
        (at, false)
    } else {
        bottom.extend(top);
        (at, false)
    }
}

/// Replaying a merge: the position a player sends when two piles merge,
/// applied by another player to the same piles, gives the same pile, as
/// long as the lower pile is not a lone card with equipment (whose length
/// counts it once, though it falls apart into more cards).
pub proof fn law_merge_replays(
    bottom: Pile,
    top: Pile,
    reversed: bool,
    at: usize,
    equip: bool,
    mine: Pile,
    check: bool,
    r: Option<bool>,
    theirs: Pile,
)
    requires
        bottom.has_card(),
        !(top is Empty),
        bottom.flat().len() == bottom.spec_len(),
        merge_local_spec(bottom, top, reversed, at, equip, mine),
        merge_onto_spec(bottom, top, at, check, r, theirs),
    ensures
        r == Some(equip),
        theirs.flat() == mine.flat(),
        theirs is Multiple <==> mine is Multiple,
{
    let f = bottom.flat();
    if !equip {
        if reversed {
            assert(f.subrange(0, 0) + top.flat() + f.subrange(0, f.len() as int) =~= top.flat() + f);
        } else {
            assert(f.subrange(0, f.len() as int) + top.flat() + f.subrange(
                f.len() as int,
                f.len() as int,
            ) =~= f + top.flat());
        }
    } else {
        if let (Pile::Single(c), Pile::Single(d)) = (mine, theirs) {
            assert(c.flat() =~= d.flat());
        }
    }
}

/// The statistics of a lone card another player can set.
#[derive(Clone, Copy, PartialEq, Eq, Structural, Debug)]
pub enum Counter {
    Power,
    Toughness,
    Loyalty,
    Counters,
    Misc,
}

impl Card {
    /// The value of a statistic of the card.
    pub open spec fn stat(self, counter: Counter) -> Option<Value> {
        match counter {
            Counter::Power => self.power,
            Counter::Toughness => self.toughness,
            Counter::Loyalty => self.loyalty,
            Counter::Counters => self.counters,
            Counter::Misc => self.misc,
        }
    }

    /// Sets one statistic of the card; the others and the cards stay.
    pub fn set_counter(&mut self, counter: Counter, value: Option<Value>)
        ensures
            final(self).stat(counter) == value,
            forall|o: Counter| o != counter ==> #[trigger] final(self).stat(o) == old(self).stat(o),
            final(self).subcard == old(self).subcard,
            final(self).equiped == old(self).equiped,
            final(self).is_token == old(self).is_token,
    {
        match counter {
            Counter::Power => self.power = value,
            Counter::Toughness => self.toughness = value,
            Counter::Loyalty => self.loyalty = value,
            Counter::Counters => self.counters = value,
            Counter::Misc => self.misc = value,
        }
    }
}


impl Card {
    /// Counts a statistic of the card up or down by one; answers its new
    /// value. The statistic must be shown (set), and stay in range.
    pub fn step_counter(&mut self, counter: Counter, up: bool) -> (r: Value)
        requires
            old(self).stat(counter) is Some,
            up ==> old(self).stat(counter)->Some_0.0 < i128::MAX,
            !up ==> old(self).stat(counter)->Some_0.0 > i128::MIN,
        ensures
            r.0 == old(self).stat(counter)->Some_0.0 + (if up {
                1int
            } else {
                -1int
            }),
            final(self).stat(counter) == Some(r),
            forall|o: Counter| o != counter ==> #[trigger] final(self).stat(o) == old(self).stat(o),
            final(self).subcard == old(self).subcard,
            final(self).equiped == old(self).equiped,
            final(self).is_token == old(self).is_token,
    {
        let v = match counter {
            Counter::Power => self.power.unwrap(),
            Counter::Toughness => self.toughness.unwrap(),
            Counter::Loyalty => self.loyalty.unwrap(),
            Counter::Counters => self.counters.unwrap(),
            Counter::Misc => self.misc.unwrap(),
        };
        let n = if up {
            Value(v.0 + 1)
        } else {
            Value(v.0 - 1)
        };
        self.set_counter(counter, Some(n));
        n
    }
}

/// Counting a statistic up and then down gives it its old value back, and
/// so does counting it down and then up.
pub proof fn law_counter_steps_cancel(v: Value, up: bool, mid: Value, last: Value)
    requires
        mid.0 == v.0 + (if up {
            1int
        } else {
            -1int
        }),
        last.0 == mid.0 + (if up {
            -1int
        } else {
            1int
        }),
    ensures
        last == v,
{
}

} // verus!

use vstd::prelude::*;

use crate::card::{copied, copy_cards, Card, Id, SubCard};
use crate::rng::shuffle_cards;
use bevy_prng::WyRand;

verus! {

/// What lies at one spot of the table: several loose cards stacked bottom to
/// top, one card with its equipment, or nothing.
pub enum Pile {
    Multiple(Vec<SubCard>),
    Single(Box<Card>),
    Empty,
}


/// What equipping does: a stack's top card becomes a lone card over the rest
/// (answer true); a lone card with equipment falls apart into loose cards,
/// and one without stays (answer false).
pub open spec fn equip_spec(before: Pile, after: Pile, r: bool) -> bool {
    &&& r == (before is Multiple)
    &&& before matches Pile::Multiple(v) ==> (after matches Pile::Single(c) && c.subcard
        == v@.last() && c.equiped@ == v@.drop_last() && !c.spec_has_counters() && !c.is_token)
    &&& before matches Pile::Single(c) ==> if c.equiped@.len() > 0 {
        after.is_loose(c.flat())
    } else {
        after == before
    }
}

/// What putting `card` at position `n` does: a stack gets it inserted there;
/// a lone card falls apart and gets it under itself (`n` 0) or on top (`n` 1).
pub open spec fn insert_spec(before: Pile, n: usize, card: SubCard, after: Pile) -> bool {
    &&& before matches Pile::Multiple(v) ==> after.is_loose(v@.insert(n as int, card))
    &&& before matches Pile::Single(c) ==> after.is_loose(
        if n == 0 {
            seq![card] + c.flat()
        } else {
            c.flat().push(card)
        },
    )
}

/// What drawing one card does: the bottom card of a face-down pile or the
/// top card otherwise comes out; a lone card leaves nothing behind.
pub open spec fn take_card_spec(before: Pile, reversed: bool, r: SubCard, after: Pile) -> bool {
    &&& r == (if reversed {
        before.bottom()
    } else {
        before.top()
    })
    &&& before matches Pile::Multiple(v) ==> after.is_loose(
        if reversed {
            v@.drop_first()
        } else {
            v@.drop_last()
        },
    )
    &&& before is Single ==> after == Pile::Empty
}

/// Equipping a stack of two or more cards and equipping it again gives the
/// same stack back.
pub proof fn law_equip_twice(s: Seq<SubCard>, p0: Pile, p1: Pile, p2: Pile, r1: bool, r2: bool)
    requires
        s.len() >= 2,
        p0.is_loose(s),
        equip_spec(p0, p1, r1),
        equip_spec(p1, p2, r2),
    ensures
        r1,
        !r2,
        p2.is_loose(s),
{
    if let Pile::Single(c) = p1 {
        assert(c.flat() =~= s);
    }
}

/// Drawing a card from the top of a stack and putting it back on top
/// gives the same stack back.
pub proof fn law_draw_then_put_back(
    s: Seq<SubCard>,
    p0: Pile,
    p1: Pile,
    p2: Pile,
    card: SubCard,
    n: usize,
)
    requires
        s.len() == n + 1,
        p0.is_loose(s),
        take_card_spec(p0, false, card, p1),
        insert_spec(p1, n, card, p2),
    ensures
        p2.is_loose(s),
{
    assert(s.drop_last().insert(n as int, s.last()) =~= s);
}

impl Pile {
    /// The cards of the pile in iteration order; a lone card lists itself,
    /// then its equipment.
    pub open spec fn cards(self) -> Seq<SubCard> {
        match self {
            Pile::Multiple(v) => v@,
            Pile::Single(c) => c.cards(),
            Pile::Empty => Seq::empty(),
        }
    }

    /// The loose cards the pile falls apart into, bottom to top; a lone card
    /// puts its equipment under itself.
    pub open spec fn flat(self) -> Seq<SubCard> {
        match self {
            Pile::Multiple(v) => v@,
            Pile::Single(c) => c.flat(),
            Pile::Empty => Seq::empty(),
        }
    }

    /// How many positions the pile has: a lone card counts once.
    pub open spec fn spec_len(self) -> nat {
        match self {
            Pile::Multiple(v) => v@.len(),
            Pile::Single(_) => 1,
            Pile::Empty => 0,
        }
    }

    /// The card drawn from the bottom of the pile.
    pub open spec fn bottom(self) -> SubCard {
        match self {
            Pile::Multiple(v) => v@[0],
            Pile::Single(c) => c.subcard,
            Pile::Empty => arbitrary(),
        }
    }

    /// The card drawn from the top of the pile.
    pub open spec fn top(self) -> SubCard {
        match self {
            Pile::Multiple(v) => v@.last(),
            Pile::Single(c) => c.subcard,
            Pile::Empty => arbitrary(),
        }
    }

    /// The pile holds a card to take: loose cards that are not none, or a lone card.
    pub open spec fn has_card(self) -> bool {
        match self {
            Pile::Multiple(v) => v@.len() > 0,
            Pile::Single(_) => true,
            Pile::Empty => false,
        }
    }

    pub open spec fn spec_is_equiped(self) -> bool {
        match self {
            Pile::Single(c) => c.equiped@.len() > 0,
            _ => false,
        }
    }

    pub open spec fn spec_is_modified(self) -> bool {
        match self {
            Pile::Single(c) => c.equiped@.len() > 0 || c.spec_has_counters(),
            _ => false,
        }
    }

    /// A pile of the given cards: a lone plain card when there is exactly
    /// one, loose cards otherwise.
    pub fn new(v: Vec<SubCard>) -> (r: Pile)
        ensures
            v@.len() == 1 ==> (r matches Pile::Single(c) && c.is_plain(v@[0])),
            v@.len() != 1 ==> r == Pile::Multiple(v),
    {
        let mut v = v;
        if v.len() == 1 {
            Pile::Single(Box::new(Card::from(v.remove(0))))
        } else {
            Pile::Multiple(v)
        }
    }


    /// Whether the pile is a stack of exactly the loose cards `s`.
    pub open spec fn is_loose(self, s: Seq<SubCard>) -> bool {
        self matches Pile::Multiple(v) && v@ == s
    }

    /// Takes the whole pile out, leaving nothing behind.
    pub(crate) fn take_pile(&mut self) -> (r: Pile)
        ensures
            r == *old(self),
            *final(self) == Pile::Empty,
    {
        let mut e = Pile::Empty;
        std::mem::swap(self, &mut e);
        e
    }

    /// Turns a lone card into a stack holding only that card; its equipment
    /// and values are dropped. Loose cards stay as they are.
    pub fn set_single(&mut self)
        ensures
            *old(self) matches Pile::Single(c) ==> final(self).is_loose(seq![c.subcard]),
            !(*old(self) is Single) ==> *final(self) == *old(self),
    {
        if let Pile::Single(_) = self {
            let p = self.take_pile();
            if let Pile::Single(c) = p {
                let mut v = Vec::new();
                v.push(c.subcard);
                *self = Pile::Multiple(v);
            }
        }
    }

    /// Takes the top card; a lone card leaves nothing behind.
    pub fn pop(&mut self) -> (r: SubCard)
        requires
            old(self).has_card(),
        ensures
            r == old(self).top(),
            *old(self) matches Pile::Multiple(v) ==> final(self).is_loose(v@.drop_last()),
            *old(self) is Single ==> *final(self) == Pile::Empty,
    {
        let p = self.take_pile();
        match p {
            Pile::Multiple(mut v) => {
                let r = v.pop().unwrap();
                *self = Pile::Multiple(v);
                r
            },
            Pile::Single(c) => c.subcard,
            Pile::Empty => unreached(),
        }
    }

    /// Takes the card at `n` of a stack; a lone card is taken whatever `n` is.
    pub fn remove(&mut self, n: usize) -> (r: SubCard)
        requires
            old(self).has_card(),
            *old(self) matches Pile::Multiple(v) ==> n < v@.len(),
        ensures
            *old(self) matches Pile::Multiple(v) ==> r == v@[n as int] && final(self).is_loose(
                v@.remove(n as int),
            ),
            *old(self) matches Pile::Single(c) ==> r == c.subcard && *final(self) == Pile::Empty,
    {
        let p = self.take_pile();
        match p {
            Pile::Multiple(mut v) => {
                let r = v.remove(n);
                *self = Pile::Multiple(v);
                r
            },
            Pile::Single(c) => c.subcard,
            Pile::Empty => unreached(),
        }
    }

    /// Puts `card` at position `n` of a stack. A lone card falls apart first;
    /// then `n` is 0 for under it or 1 for on top of it.
    pub fn insert(&mut self, n: usize, card: SubCard)
        requires
            !(*old(self) is Empty),
            *old(self) matches Pile::Multiple(v) ==> n <= v@.len(),
            *old(self) is Single ==> n <= 1,
        ensures
            insert_spec(*old(self), n, card, *final(self)),
    {
        let p = self.take_pile();
        match p {
            Pile::Multiple(mut v) => {
                v.insert(n, card);
                *self = Pile::Multiple(v);
            },
            Pile::Single(c) => {
                let ghost flat = c.flat();
                let mut v = c.flatten();
                if n == 0 {
                    v.insert(0, card);
                    assert(v@ =~= seq![card] + flat);
                } else {
                    v.push(card);
                }
                *self = Pile::Multiple(v);
            },
            Pile::Empty => {},
        }
    }

    /// Takes the card a player draws: from the bottom of a face-down pile,
    /// from the top otherwise.
    pub fn take_card(&mut self, reversed: bool) -> (r: SubCard)
        requires
            old(self).has_card(),
        ensures
            take_card_spec(*old(self), reversed, r, *final(self)),
    {
        let r = if reversed {
            self.remove(0)
        } else {
            self.pop()
        };
        self.set_single();
        r
    }


    /// Takes `n` cards as a player draws them one by one: from the bottom of
    /// a face-down stack, first drawn first; from the top otherwise, the top
    /// card first. A stack gives at most all its cards; a lone card gives
    /// itself.
    pub fn take_n_card(&mut self, reversed: bool, n: usize) -> (r: Vec<SubCard>)
        requires
            !(*old(self) is Empty),
            *old(self) is Single ==> n >= 1,
        ensures
            *old(self) matches Pile::Multiple(v) ==> {
                let m = if n < v@.len() {
                    n as int
                } else {
                    v@.len() as int
                };
                if reversed {
                    &&& r@ == v@.subrange(0, m)
                    &&& final(self).is_loose(v@.subrange(m, v@.len() as int))
                } else {
                    &&& r@ == v@.subrange(v@.len() - m, v@.len() as int).reverse()
                    &&& final(self).is_loose(v@.subrange(0, v@.len() - m))
                }
            },
            *old(self) matches Pile::Single(c) ==> r@ == seq![c.subcard] && *final(self)
                == Pile::Empty,
    {
        let p = self.take_pile();
        match p {
            Pile::Multiple(mut v) => {
                let len = v.len();
                let m = if n < len {
                    n
                } else {
                    len
                };
                if reversed {
                    let rest = v.split_off(m);
                    *self = Pile::Multiple(rest);
                    v
                } else {
                    let mut tail = v.split_off(len - m);
                    let ghost t = tail@;
                    let mut r: Vec<SubCard> = Vec::new();
                    while tail.len() > 0
                        invariant
                            t.len() == tail@.len() + r@.len(),
                            tail@ == t.subrange(0, tail@.len() as int),
                            r@ == t.subrange(tail@.len() as int, t.len() as int).reverse(),
                        decreases tail@.len(),
                    {
                        let c = tail.pop().unwrap();
                        r.push(c);
                        assert(r@ =~= t.subrange(tail@.len() as int, t.len() as int).reverse());
                    }
                    *self = Pile::Multiple(v);
                    r
                }
            },
            Pile::Single(c) => {
                let mut r = Vec::new();
                r.push(c.subcard);
                r
            },
            Pile::Empty => unreached(),
        }
    }

    /// Takes the cards from `start` up to `end` out of a stack; a lone card
    /// can only give itself whole.
    pub fn drain(&mut self, start: usize, end: usize) -> (r: Vec<SubCard>)
        requires
            !(*old(self) is Empty),
            *old(self) matches Pile::Multiple(v) ==> start <= end <= v@.len(),
            *old(self) is Single ==> start == 0 && end == 1,
        ensures
            *old(self) matches Pile::Multiple(v) ==> r@ == v@.subrange(start as int, end as int)
                && final(self).is_loose(
                v@.subrange(0, start as int) + v@.subrange(end as int, v@.len() as int),
            ),
            *old(self) matches Pile::Single(c) ==> r@ == seq![c.subcard] && *final(self)
                == Pile::Empty,
    {
        let p = self.take_pile();
        match p {
            Pile::Multiple(mut v) => {
                let ghost w = v@;
                let mut tail = v.split_off(end);
                let r = v.split_off(start);
                v.append(&mut tail);
                assert(v@ =~= w.subrange(0, start as int) + w.subrange(end as int, w.len() as int));
                *self = Pile::Multiple(v);
                r
            },
            Pile::Single(c) => {
                let mut r = Vec::new();
                r.push(c.subcard);
                r
            },
            Pile::Empty => unreached(),
        }
    }

    /// Puts `other` on top of the pile; both fall apart into loose cards.
    pub fn extend(&mut self, other: Pile)
        requires
            !(*old(self) is Empty),
            !(other is Empty),
        ensures
            final(self).is_loose(old(self).flat() + other.flat()),
    {
        let p = self.take_pile();
        let mut a = p.into_flat();
        let mut b = other.into_flat();
        a.append(&mut b);
        *self = Pile::Multiple(a);
    }

    /// Puts `other` under the pile; both fall apart into loose cards.
    pub fn extend_start(&mut self, other: Pile)
        requires
            !(*old(self) is Empty),
            !(other is Empty),
        ensures
            final(self).is_loose(other.flat() + old(self).flat()),
    {
        let p = self.take_pile();
        let mut a = p.into_flat();
        let mut b = other.into_flat();
        b.append(&mut a);
        *self = Pile::Multiple(b);
    }

    /// Slides `other` into the pile so that its cards start at position `at`;
    /// both fall apart into loose cards.
    pub fn splice_at(&mut self, at: usize, other: Pile)
        requires
            !(*old(self) is Empty),
            !(other is Empty),
            at <= old(self).flat().len(),
        ensures
            final(self).is_loose(
                old(self).flat().subrange(0, at as int) + other.flat() + old(self).flat().subrange(
                    at as int,
                    old(self).flat().len() as int,
                ),
            ),
    {
        let p = self.take_pile();
        let mut a = p.into_flat();
        let ghost w = a@;
        let mut tail = a.split_off(at);
        let mut b = other.into_flat();
        a.append(&mut b);
        a.append(&mut tail);
        *self = Pile::Multiple(a);
    }


    /// Equips a stack: its top card becomes a lone card and the cards under
    /// it its equipment, bottom first; answers true. A lone card with
    /// equipment falls apart into loose cards instead, and a lone card
    /// without equipment stays; both answer false.
    pub fn equip(&mut self) -> (r: bool)
        requires
            old(self).has_card(),
        ensures
            equip_spec(*old(self), *final(self), r),
    {
        let p = self.take_pile();
        match p {
            Pile::Multiple(mut v) => {
                let subcard = v.pop().unwrap();
                *self = Pile::Single(
                    Box::new(
                        Card {
                            subcard,
                            equiped: v,
                            power: None,
                            toughness: None,
                            counters: None,
                            loyalty: None,
                            misc: None,
                            is_token: false,
                        },
                    ),
                );
                true
            },
            Pile::Single(c) => {
                if c.equiped.len() > 0 {
                    *self = Pile::Multiple(c.flatten());
                } else {
                    *self = Pile::Single(c);
                }
                false
            },
            Pile::Empty => unreached(),
        }
    }

    /// Lays the lone card `to` onto the pile as its new face: the pile
    /// becomes the equipment under the card, below the card's own
    /// equipment. A stack is first equipped, so all its cards go under.
    pub fn merge(&mut self, to: Pile)
        requires
            old(self).has_card(),
            to is Single,
        ensures
            to matches Pile::Single(t) && *final(self) matches Pile::Single(c) && {
                &&& c.subcard == t.subcard
                &&& c.equiped@ == old(self).flat() + t.equiped@
                &&& c.power == t.power && c.toughness == t.toughness
                &&& c.counters == t.counters && c.loyalty == t.loyalty && c.misc == t.misc
                &&& c.is_token == t.is_token
            },
    {
        let ghost base = old(self).flat();
        if !self.is_equiped() {
            self.equip();
        }
        assert(self.flat() == base);
        let p = self.take_pile();
        match (p, to) {
            (Pile::Single(bottom), Pile::Single(top)) => {
                let mut top = top;
                let mut under = bottom.flatten();
                let mut rest = Vec::new();
                std::mem::swap(&mut rest, &mut top.equiped);
                under.append(&mut rest);
                top.equiped = under;
                *self = Pile::Single(top);
            },
            _ => unreached(),
        }
    }


    /// Shuffles a stack; a lone card stays as it is.
    pub fn shuffle(&mut self, rng: &mut WyRand)
        ensures
            *old(self) matches Pile::Multiple(v) ==> (*final(self) matches Pile::Multiple(w)
                && w@.to_multiset() == v@.to_multiset()),
            !(*old(self) is Multiple) ==> *final(self) == *old(self),
    {
        if let Pile::Multiple(v) = self {
            shuffle_cards(v, rng);
        }
    }

    /// The loose cards the pile falls apart into.
    fn into_flat(self) -> (r: Vec<SubCard>)
        ensures
            r@ == self.flat(),
    {
        match self {
            Pile::Multiple(v) => v,
            Pile::Single(c) => c.flatten(),
            Pile::Empty => Vec::new(),
        }
    }

    /// A copy of the pile to send to another player: a stack copies its
    /// cards in order; a lone card copies itself and its equipment but not
    /// the values put on it, and does not stay a token.
    pub fn clone_no_image(&self) -> (r: Pile)
        ensures
            match *self {
                Pile::Multiple(v) => r matches Pile::Multiple(w) && copied(v@, w@),
                Pile::Single(c) => r matches Pile::Single(d) && c.subcard.same_as(d.subcard)
                    && copied(c.equiped@, d.equiped@) && !d.spec_has_counters() && !d.is_token,
                Pile::Empty => r is Empty,
            },
    {
        match self {
            Pile::Multiple(v) => Pile::Multiple(copy_cards(v)),
            Pile::Single(c) => Pile::Single(Box::new(c.clone_no_image())),
            Pile::Empty => Pile::Empty,
        }
    }

    pub fn len(&self) -> (r: usize)
        ensures
            r == self.spec_len(),
    {
        match self {
            Pile::Multiple(v) => v.len(),
            Pile::Single(_) => 1,
            Pile::Empty => 0,
        }
    }

    pub fn is_empty(&self) -> (r: bool)
        ensures
            r == !self.has_card(),
    {
        match self {
            Pile::Multiple(v) => v.len() == 0,
            Pile::Single(_) => false,
            Pile::Empty => true,
        }
    }

    pub fn is_equiped(&self) -> (r: bool)
        ensures
            r == self.spec_is_equiped(),
    {
        match self {
            Pile::Single(c) => c.equiped.len() > 0,
            _ => false,
        }
    }

    pub fn is_modified(&self) -> (r: bool)
        ensures
            r == self.spec_is_modified(),
    {
        match self {
            Pile::Single(c) => c.is_modified(),
            _ => false,
        }
    }

    pub fn has_counters(&self) -> (r: bool)
        ensures
            r == (self matches Pile::Single(c) && c.spec_has_counters()),
    {
        match self {
            Pile::Single(c) => c.has_counters(),
            _ => false,
        }
    }

    /// The card on top of the pile.
    pub fn last(&self) -> (r: &SubCard)
        requires
            self.has_card(),
        ensures
            *r == self.top(),
    {
        match self {
            Pile::Multiple(v) => &v[v.len() - 1],
            Pile::Single(c) => &c.subcard,
            Pile::Empty => unreached(),
        }
    }

    /// The card at the bottom of the pile.
    pub fn first(&self) -> (r: &SubCard)
        requires
            self.has_card(),
        ensures
            *r == self.bottom(),
    {
        match self {
            Pile::Multiple(v) => &v[0],
            Pile::Single(c) => &c.subcard,
            Pile::Empty => unreached(),
        }
    }

    /// The card a player sees: the bottom one when the pile lies face down,
    /// the top one otherwise.
    pub fn get_card(&self, reversed: bool) -> (r: &SubCard)
        requires
            self.has_card(),
        ensures
            *r == (if reversed {
                self.bottom()
            } else {
                self.top()
            }),
    {
        if reversed {
            self.first()
        } else {
            self.last()
        }
    }

    /// The card at `idx` in iteration order, if there is one.
    pub fn get(&self, idx: usize) -> (r: Option<&SubCard>)
        requires
            !(self is Empty),
        ensures
            r == (if idx < self.cards().len() {
                Some(&self.cards()[idx as int])
            } else {
                None
            }),
    {
        match self {
            Pile::Multiple(v) => {
                if idx < v.len() {
                    Some(&v[idx])
                } else {
                    None
                }
            },
            Pile::Single(c) => c.get(idx),
            Pile::Empty => None,
        }
    }

    /// The identifiers of the pile's cards in iteration order.
    pub fn ids(&self) -> (r: Vec<Id>)
        ensures
            r@ == self.cards().map_values(|c: SubCard| c.id),
    {
        let mut r: Vec<Id> = Vec::new();
        match self {
            Pile::Multiple(v) => {
                for i in 0..v.len()
                    invariant
                        r@ == v@.subrange(0, i as int).map_values(|c: SubCard| c.id),
                {
                    r.push(v[i].id);
                    assert(v@.subrange(0, i + 1 as int) == v@.subrange(0, i as int).push(v@[i as int]));
                }
                assert(v@.subrange(0, v@.len() as int) == v@);
            },
            Pile::Single(c) => {
                r.push(c.subcard.id);
                for i in 0..c.equiped.len()
                    invariant
                        r@ == (seq![c.subcard] + c.equiped@.subrange(0, i as int)).map_values(
                            |c: SubCard| c.id,
                        ),
                {
                    r.push(c.equiped[i].id);
                    assert(seq![c.subcard] + c.equiped@.subrange(0, i + 1 as int) == (seq![
                        c.subcard,
                    ] + c.equiped@.subrange(0, i as int)).push(c.equiped@[i as int]));
                }
                assert(c.equiped@.subrange(0, c.equiped@.len() as int) == c.equiped@);
            },
            Pile::Empty => {},
        }
        r
    }
}

} // verus!

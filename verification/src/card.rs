use vstd::prelude::*;

use crate::cost::{ColorIdentity, Cost};
use crate::types::{MainTypes, SubTypes, SuperTypes, Types};
use std::str::FromStr;
use uuid::Uuid;

verus! {

/// A card's identifier: the 128-bit value of its Scryfall UUID.
#[derive(Clone, Copy, PartialEq, Eq, Structural, Hash, Debug, Default)]
pub struct Id(pub u128);

/// The value shown on a counter or a modified statistic of a card.
#[derive(Clone, Copy, PartialEq, Eq, Structural, Debug)]
pub struct Value(pub i128);

/// How the two faces of a card are laid out.
#[derive(Clone, Copy, PartialEq, Eq, Structural, Debug)]
pub enum Layout {
    Normal,
    Flip,
    Room,
}

/// Everything printed on one face of a card.
pub struct CardInfo {
    pub name: String,
    pub mana_cost: Cost,
    pub card_type: Types,
    pub text: String,
    pub color: ColorIdentity,
    pub power: Option<u8>,
    pub toughness: Option<u8>,
    pub loyalty: Option<u8>,
}

/// Both faces of a card and their layout.
pub struct CardData {
    pub face: CardInfo,
    pub back: Option<CardInfo>,
    pub layout: Layout,
}

/// One physical card: its identity, the tokens it makes, its faces and
/// whether it currently shows its back face.
pub struct SubCard {
    pub id: Id,
    pub tokens: Vec<Id>,
    pub data: CardData,
    pub flipped: bool,
}

/// A card lying alone on the table, with the cards equipped to it and the
/// values players have put on it.
pub struct Card {
    pub subcard: SubCard,
    pub equiped: Vec<SubCard>,
    pub power: Option<Value>,
    pub toughness: Option<Value>,
    pub counters: Option<Value>,
    pub loyalty: Option<Value>,
    pub misc: Option<Value>,
    pub is_token: bool,
}

impl CardInfo {
    /// Whether `other` holds what is printed on this face.
    pub open spec fn same_as(self, other: CardInfo) -> bool {
        &&& other.name@ == self.name@
        &&& other.mana_cost == self.mana_cost
        &&& other.card_type@ == self.card_type@
        &&& other.text@ == self.text@
        &&& other.color == self.color
        &&& other.power == self.power
        &&& other.toughness == self.toughness
        &&& other.loyalty == self.loyalty
    }

    /// A copy of the face, made to be sent to another player (the face's
    /// image is not part of it).
    pub fn clone_no_image(&self) -> (r: CardInfo)
        ensures
            self.same_as(r),
    {
        let sup = self.card_type.super_type.0.clone();
        let main = self.card_type.main_type.0.clone();
        let sub = self.card_type.sub_type.0.clone();
        assert(sup@ =~= self.card_type.super_type.0@);
        assert(main@ =~= self.card_type.main_type.0@);
        assert(sub@ =~= self.card_type.sub_type.0@);
        CardInfo {
            name: self.name.clone(),
            mana_cost: self.mana_cost,
            card_type: Types { super_type: SuperTypes(sup), main_type: MainTypes(main), sub_type: SubTypes(sub) },
            text: self.text.clone(),
            color: self.color,
            power: self.power,
            toughness: self.toughness,
            loyalty: self.loyalty,
        }
    }
}

impl CardData {
    /// Whether `other` holds the same faces in the same layout.
    pub open spec fn same_as(self, other: CardData) -> bool {
        &&& self.face.same_as(other.face)
        &&& match (self.back, other.back) {
            (Some(a), Some(b)) => a.same_as(b),
            (None, None) => true,
            _ => false,
        }
        &&& other.layout == self.layout
    }

    /// A copy of both faces, made to be sent to another player.
    pub fn clone_no_image(&self) -> (r: CardData)
        ensures
            self.same_as(r),
    {
        let back = match &self.back {
            Some(b) => Some(b.clone_no_image()),
            None => None,
        };
        CardData { face: self.face.clone_no_image(), back, layout: self.layout }
    }
}

impl SubCard {
    /// Whether the card can be turned to show another face.
    pub open spec fn has_back(self) -> bool {
        self.data.back is Some
    }

    /// The face the card currently shows.
    pub open spec fn shown(self) -> CardInfo {
        if self.flipped {
            self.data.back->0
        } else {
            self.data.face
        }
    }

    /// The face the card currently shows.
    pub fn face(&self) -> (r: &CardInfo)
        requires
            self.flipped ==> self.has_back(),
        ensures
            *r == self.shown(),
    {
        if self.flipped {
            self.data.back.as_ref().unwrap()
        } else {
            &self.data.face
        }
    }

    /// Whether `other` is the same card: same identity, tokens, faces and
    /// side shown.
    pub open spec fn same_as(self, other: SubCard) -> bool {
        &&& other.id == self.id
        &&& other.tokens@ == self.tokens@
        &&& self.data.same_as(other.data)
        &&& other.flipped == self.flipped
    }

    /// A copy of the card, made to be sent to another player.
    pub fn clone_no_image(&self) -> (r: SubCard)
        ensures
            self.same_as(r),
    {
        let tokens = self.tokens.clone();
        assert(tokens@ =~= self.tokens@);
        SubCard { id: self.id, tokens, data: self.data.clone_no_image(), flipped: self.flipped }
    }

    /// The face the card currently hides, if it has two.
    pub fn back(&self) -> (r: Option<&CardInfo>)
        ensures
            r == (if self.flipped {
                Some(&self.data.face)
            } else {
                match &self.data.back {
                    Some(b) => Some(b),
                    None => None,
                }
            }),
    {
        if self.flipped {
            Some(&self.data.face)
        } else {
            self.data.back.as_ref()
        }
    }
}

impl Card {
    /// The card's cards in the order a pile iterates them: the card itself,
    /// then its equipment.
    pub open spec fn cards(self) -> Seq<SubCard> {
        seq![self.subcard] + self.equiped@
    }

    /// The cards a lone card falls apart into: its equipment, then the card
    /// itself on top.
    pub open spec fn flat(self) -> Seq<SubCard> {
        self.equiped@.push(self.subcard)
    }

    /// Whether the card carries any value put on it by a player.
    pub open spec fn spec_has_counters(self) -> bool {
        self.power is Some || self.toughness is Some || self.counters is Some
            || self.loyalty is Some || self.misc is Some
    }

    /// Whether the card is a plain card wrapping `s`: nothing equipped, no
    /// values, not a token.
    pub open spec fn is_plain(self, s: SubCard) -> bool {
        &&& self.subcard == s
        &&& self.equiped@ == Seq::<SubCard>::empty()
        &&& !self.spec_has_counters()
        &&& !self.is_token
    }

    /// A plain card wrapping `subcard`.
    pub fn from(subcard: SubCard) -> (r: Card)
        ensures
            r.is_plain(subcard),
    {
        Card {
            subcard,
            equiped: Vec::new(),
            power: None,
            toughness: None,
            counters: None,
            loyalty: None,
            misc: None,
            is_token: false,
        }
    }

    pub fn has_counters(&self) -> (r: bool)
        ensures
            r == self.spec_has_counters(),
    {
        self.power.is_some() || self.toughness.is_some() || self.counters.is_some()
            || self.loyalty.is_some() || self.misc.is_some()
    }

    /// Whether anything was done to the card: equipment or values.
    pub fn is_modified(&self) -> (r: bool)
        ensures
            r == (self.equiped@.len() > 0 || self.spec_has_counters()),
    {
        self.equiped.len() > 0 || self.has_counters()
    }

    /// A copy of the card to send to another player: the card and its
    /// equipment, without the values put on it, and not as a token.
    pub fn clone_no_image(&self) -> (r: Card)
        ensures
            self.subcard.same_as(r.subcard),
            copied(self.equiped@, r.equiped@),
            !r.spec_has_counters(),
            !r.is_token,
    {
        Card {
            subcard: self.subcard.clone_no_image(),
            equiped: copy_cards(&self.equiped),
            power: None,
            toughness: None,
            counters: None,
            loyalty: None,
            misc: None,
            is_token: false,
        }
    }

    /// The cards the card falls apart into, the card itself last.
    pub fn flatten(self) -> (r: Vec<SubCard>)
        ensures
            r@ == self.flat(),
    {
        let mut v = self.equiped;
        v.push(self.subcard);
        v
    }

    /// The card at `idx` in iteration order: the card itself, then its
    /// equipment.
    pub fn get(&self, idx: usize) -> (r: Option<&SubCard>)
        ensures
            r == (if idx < self.cards().len() {
                Some(&self.cards()[idx as int])
            } else {
                None
            }),
    {
        if idx == 0 {
            Some(&self.subcard)
        } else if idx - 1 < self.equiped.len() {
            Some(&self.equiped[idx - 1])
        } else {
            None
        }
    }
}


/// Whether `b` copies the cards `a` one for one, in order.
pub open spec fn copied(a: Seq<SubCard>, b: Seq<SubCard>) -> bool {
    &&& b.len() == a.len()
    &&& forall|i: int| 0 <= i < a.len() ==> #[trigger] a[i].same_as(b[i])
}

/// Copies of the cards, in order.
pub fn copy_cards(v: &Vec<SubCard>) -> (r: Vec<SubCard>)
    ensures
        copied(v@, r@),
{
    let mut r: Vec<SubCard> = Vec::new();
    for i in 0..v.len()
        invariant
            r@.len() == i,
            forall|j: int| 0 <= j < i ==> #[trigger] v@[j].same_as(r@[j]),
    {
        r.push(v[i].clone_no_image());
    }
    r
}

/// An identifier that is no UUID.
#[derive(Clone, Copy, PartialEq, Eq, Structural, Debug)]
pub struct IdError;

#[verifier::external_type_specification]
#[verifier::external_body]
pub struct ExUuidError(uuid::Error);

/// The value `Uuid::from_str` reads from a text, if it reads one.
pub uninterp spec fn uuid_value(s: Seq<char>) -> Option<u128>;

/// Reads a UUID with `Uuid::from_str` (hyphenated, simple, braced or URN
/// form) and gives its 128-bit value. The contract only names what is read
/// (`uuid_value`); which texts read is left to the outside parser.
#[verifier::external_body]
fn parse_uuid(s: &str) -> (r: Result<u128, uuid::Error>)
    ensures
        r is Ok <==> uuid_value(s@) is Some,
        r matches Ok(v) ==> uuid_value(s@) == Some(v),
{
    match Uuid::from_str(s) {
        Ok(u) => Ok(u.as_u128()),
        Err(e) => Err(e),
    }
}

/// The lowercase hexadecimal digit for `d`, below sixteen.
pub open spec fn hex_digit(d: int) -> char {
    if d < 10 {
        (('0' as int) + d) as char
    } else {
        (('a' as int) + d - 10) as char
    }
}

/// The `i`-th hexadecimal digit of `v`, most significant first.
pub open spec fn nibble(v: u128, i: int) -> int {
    (v as int / vstd::arithmetic::power2::pow2((4 * (31 - i)) as nat) as int) % 16
}

/// The thirty-two hexadecimal digits of `v`, most significant first.
pub open spec fn hex32(v: u128) -> Seq<char> {
    Seq::new(32, |i: int| hex_digit(nibble(v, i)))
}

/// `v` in the hyphenated UUID form: its digits in groups of eight, four,
/// four, four and twelve, joined by hyphens.
pub open spec fn hyphenated(v: u128) -> Seq<char> {
    let h = hex32(v);
    h.subrange(0, 8) + seq!['-'] + h.subrange(8, 12) + seq!['-'] + h.subrange(12, 16) + seq!['-']
        + h.subrange(16, 20) + seq!['-'] + h.subrange(20, 32)
}

/// Writes a 128-bit value as `Uuid::from_u128` displays it: the
/// hyphenated lowercase form, which `Uuid::from_str` reads back.
#[verifier::external_body]
fn uuid_string(v: u128) -> (r: String)
    ensures
        r@ == hyphenated(v),
        uuid_value(r@) == Some(v),
{
    Uuid::from_u128(v).to_string()
}

impl Id {
    /// Reads an identifier from a UUID text; `IdError` when it is none.
    pub fn from_str(s: &str) -> (r: Result<Id, IdError>)
        ensures
            r is Ok <==> uuid_value(s@) is Some,
            r matches Ok(id) ==> uuid_value(s@) == Some(id.0),
    {
        match parse_uuid(s) {
            Ok(v) => Ok(Id(v)),
            Err(_) => Err(IdError),
        }
    }

    /// The identifier in the hyphenated UUID form.
    pub fn to_string(&self) -> (r: String)
        ensures
            r@ == hyphenated(self.0),
            uuid_value(r@) == Some(self.0),
    {
        uuid_string(self.0)
    }
}

} // verus!

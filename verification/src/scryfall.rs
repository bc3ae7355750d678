use vstd::prelude::*;

use crate::card::{uuid_value, Card, Id, SubCard};
use crate::pile::Pile;
use crate::text::{chars_of, eq_chars, string_of};

verus! {

/// A card related to another in the card database ("all_parts"): its
/// name, identifier, type line and kind of relation, as far as given.
pub struct RelatedPart {
    pub name: String,
    pub id: String,
    pub type_line: Option<String>,
    pub component: Option<String>,
}

/// A token a deck lists: its layout and database identifier, as far as
/// given.
pub struct TokenMapping {
    pub layout: Option<String>,
    pub scryfall_id: Option<String>,
}

/// What the library reads of a related card: its name, identifier, type
/// line and kind of relation, the last two as far as given.
pub type PartFields = (Seq<char>, Seq<char>, Option<Seq<char>>, Option<Seq<char>>);

/// The text an optional string holds.
pub open spec fn opt_view(s: Option<String>) -> Option<Seq<char>> {
    match s {
        Some(t) => Some(t@),
        None => None,
    }
}

impl RelatedPart {
    pub open spec fn view(&self) -> PartFields {
        (self.name@, self.id@, opt_view(self.type_line), opt_view(self.component))
    }
}

/// Whether a related card is looked at past its identifier and name: its
/// identifier reads, and it is neither the card itself nor one of its name.
pub open spec fn part_other(p: PartFields, id: Id, name: Seq<char>) -> bool {
    uuid_value(p.1) matches Some(v) && v != id.0 && p.0 != name
}

/// Whether a related card is a token of the card `id` named `name`: another
/// card, not of type "Card", and not part of a meld.
pub open spec fn part_is_token(p: PartFields, id: Id, name: Seq<char>) -> bool {
    &&& part_other(p, id, name)
    &&& p.2->Some_0 != "Card"@
    &&& p.3->Some_0 != "meld_part"@
    &&& p.3->Some_0 != "meld_result"@
}

/// The identifiers of the tokens among related cards, in order.
pub open spec fn tokens_of(parts: Seq<PartFields>, id: Id, name: Seq<char>) -> Seq<Id>
    decreases parts.len(),
{
    if parts.len() == 0 {
        Seq::empty()
    } else {
        let rest = tokens_of(parts.drop_last(), id, name);
        let p = parts.last();
        if part_is_token(p, id, name) {
            rest.push(Id(uuid_value(p.1)->Some_0))
        } else {
            rest
        }
    }
}

/// Every token listed for the card `id` named `name` comes from one of its
/// related cards: one whose identifier reads as the token, that is another
/// card of another name, whose type line is not "Card" and whose relation
/// is neither "meld_part" nor "meld_result".
pub proof fn law_tokens_are_tokens(parts: Seq<PartFields>, id: Id, name: Seq<char>, t: Id)
    requires
        tokens_of(parts, id, name).contains(t),
    ensures
        exists|i: int|
            0 <= i < parts.len() && uuid_value(#[trigger] parts[i].1) == Some(t.0) && t.0 != id.0
                && parts[i].0 != name && parts[i].2 != Some("Card"@) && parts[i].3 != Some(
                "meld_part"@,
            ) && parts[i].3 != Some("meld_result"@),
    decreases parts.len(),
{
    let rest = tokens_of(parts.drop_last(), id, name);
    let p = parts.last();
    if rest.contains(t) {
        law_tokens_are_tokens(parts.drop_last(), id, name, t);
        let i = choose|i: int|
            0 <= i < parts.drop_last().len() && uuid_value(#[trigger] parts.drop_last()[i].1)
                == Some(t.0) && t.0 != id.0 && parts.drop_last()[i].0 != name
                && parts.drop_last()[i].2 != Some("Card"@) && parts.drop_last()[i].3 != Some(
                "meld_part"@,
            ) && parts.drop_last()[i].3 != Some("meld_result"@);
        assert(parts[i] == parts.drop_last()[i]);
    } else {
        assert(part_is_token(p, id, name));
        assert(tokens_of(parts, id, name) == rest.push(Id(uuid_value(p.1)->Some_0)));
        let k = parts.len() - 1;
        assert(parts[k] == p);
    }
}

/// Whether the fields a related card is judged by are given where they are
/// read: the type line of another card, and the relation of one that is
/// not of type "Card".
pub open spec fn parts_complete(parts: Seq<PartFields>, id: Id, name: Seq<char>) -> bool {
    forall|i: int|
        0 <= i < parts.len() && part_other(#[trigger] parts[i], id, name) ==> {
            &&& parts[i].2 is Some
            &&& parts[i].2->Some_0 != "Card"@ ==> parts[i].3 is Some
        }
}

/// The fields of related cards as the library reads them.
pub open spec fn parts_view(parts: Seq<RelatedPart>) -> Seq<PartFields> {
    parts.map_values(|p: RelatedPart| p@)
}

pub(crate) fn eq_str(a: &str, b: &str) -> (r: bool)
    ensures
        r == (a@ == b@),
{
    let x = chars_of(a);
    let y = chars_of(b);
    eq_chars(&x, &y)
}

/// The tokens of the card `id` named `name` among its related cards: those
/// whose identifier reads, that are another card of another name, not of
/// type "Card", and not part of a meld.
pub fn get_tokens(parts: &Vec<RelatedPart>, id: Id, name: &str) -> (r: Vec<Id>)
    requires
        parts_complete(parts_view(parts@), id, name@),
    ensures
        r@ == tokens_of(parts_view(parts@), id, name@),
{
    let ghost ps = parts_view(parts@);
    let mut r: Vec<Id> = Vec::new();
    let mut i: usize = 0;
    while i < parts.len()
        invariant
            i <= parts@.len(),
            ps == parts_view(parts@),
            parts_complete(ps, id, name@),
            r@ == tokens_of(ps.subrange(0, i as int), id, name@),
        decreases parts@.len() - i,
    {
        let p = &parts[i];
        assert(ps.subrange(0, i + 1 as int).drop_last() =~= ps.subrange(0, i as int));
        assert(ps[i as int] == p@);
        if let Ok(sid) = Id::from_str(p.id.as_str()) {
            if sid != id && !eq_str(p.name.as_str(), name) {
                assert(part_other(ps[i as int], id, name@));
                let tl = p.type_line.as_ref().unwrap();
                if !eq_str(tl.as_str(), "Card") {
                    let c = p.component.as_ref().unwrap();
                    if !eq_str(c.as_str(), "meld_part") && !eq_str(c.as_str(), "meld_result") {
                        r.push(sid);
                    }
                }
            }
        }
        i = i + 1;
    }
    assert(ps.subrange(0, ps.len() as int) =~= ps);
    r
}

/// Whether a layout is that of a token: a double-faced token, a token or
/// an emblem.
pub open spec fn is_token_layout(layout: Seq<char>) -> bool {
    layout == "double_faced_token"@ || layout == "token"@ || layout == "emblem"@
}

/// What the library reads of a token mapping: its layout and identifier,
/// each as far as given.
pub type MappingFields = (Option<Seq<char>>, Option<Seq<char>>);

impl TokenMapping {
    pub open spec fn view(&self) -> MappingFields {
        (opt_view(self.layout), opt_view(self.scryfall_id))
    }
}

/// The layout a token mapping gives, the empty text when none.
pub open spec fn layout_of(m: MappingFields) -> Seq<char> {
    match m.0 {
        Some(l) => l,
        None => Seq::empty(),
    }
}

/// The identifiers of the token mappings that are tokens and whose
/// identifier reads, in order.
pub open spec fn mapped_tokens(maps: Seq<MappingFields>) -> Seq<Id>
    decreases maps.len(),
{
    if maps.len() == 0 {
        Seq::empty()
    } else {
        let rest = mapped_tokens(maps.drop_last());
        let m = maps.last();
        if is_token_layout(layout_of(m)) && uuid_value(m.1->Some_0) is Some {
            rest.push(Id(uuid_value(m.1->Some_0)->Some_0))
        } else {
            rest
        }
    }
}

/// Whether every mapping with a token's layout gives an identifier.
pub open spec fn mappings_complete(maps: Seq<MappingFields>) -> bool {
    forall|i: int| 0 <= i < maps.len() && is_token_layout(layout_of(#[trigger] maps[i])) ==> maps[i].1 is Some
}

/// The fields of token mappings as the library reads them.
pub open spec fn mappings_view(maps: Seq<TokenMapping>) -> Seq<MappingFields> {
    maps.map_values(|m: TokenMapping| m@)
}

/// The tokens a deck lists for a card: the mappings whose layout is that of
/// a token and whose database identifier reads. A token's identifier must
/// be given.
pub fn moxfield_tokens(maps: &Vec<TokenMapping>) -> (r: Vec<Id>)
    requires
        mappings_complete(mappings_view(maps@)),
    ensures
        r@ == mapped_tokens(mappings_view(maps@)),
{
    let ghost ms = mappings_view(maps@);
    let mut r: Vec<Id> = Vec::new();
    let mut i: usize = 0;
    while i < maps.len()
        invariant
            i <= maps@.len(),
            ms == mappings_view(maps@),
            mappings_complete(ms),
            r@ == mapped_tokens(ms.subrange(0, i as int)),
        decreases maps@.len() - i,
    {
        let m = &maps[i];
        assert(ms.subrange(0, i + 1 as int).drop_last() =~= ms.subrange(0, i as int));
        assert(ms[i as int] == m@);
        let layout: &str = match &m.layout {
            Some(l) => l.as_str(),
            None => {
                let e = "";
                proof {
                    reveal_strlit("");
                    assert(e@ =~= Seq::<char>::empty());
                }
                e
            },
        };
        assert(layout@ == layout_of(ms[i as int]));
        if eq_str(layout, "double_faced_token") || eq_str(layout, "token") || eq_str(
            layout,
            "emblem",
        ) {
            let sid = m.scryfall_id.as_ref().unwrap();
            if let Ok(t) = Id::from_str(sid.as_str()) {
                r.push(t);
            }
        }
        i = i + 1;
    }
    assert(ms.subrange(0, ms.len() as int) =~= ms);
    r
}

/// The piles a commander board's cards make: with exactly two commanders
/// the second lies apart as a lone card; otherwise all make one pile. The
/// board must hold a card.
pub fn commander_piles(cards: Vec<SubCard>, commander: bool) -> (r: (Option<Pile>, Pile))
    requires
        cards@.len() > 0,
    ensures
        commander && cards@.len() == 2 ==> (r.0 matches Some(Pile::Single(c)) && c.is_plain(
            cards@[1],
        )),
        commander && cards@.len() == 2 ==> (r.1 matches Pile::Single(d) && d.is_plain(cards@[0])),
        !(commander && cards@.len() == 2) ==> r.0 is None,
        !(commander && cards@.len() == 2) && cards@.len() == 1 ==> (r.1 matches Pile::Single(c)
            && c.is_plain(cards@[0])),
        !(commander && cards@.len() == 2) && cards@.len() != 1 ==> r.1 == Pile::Multiple(cards),
{
    let mut cards = cards;
    if commander && cards.len() == 2 {
        let second = cards.pop().unwrap();
        let alt = Pile::Single(Box::new(Card::from(second)));
        (Some(alt), Pile::new(cards))
    } else {
        (None, Pile::new(cards))
    }
}


/// `a` followed by `b`.
fn concat(a: &str, b: &str) -> (r: String)
    ensures
        r@ == a@ + b@,
{
    let mut x = chars_of(a);
    let mut y = chars_of(b);
    x.append(&mut y);
    string_of(&x)
}

/// The database address of a card, by identifier.
pub fn card_url(id: &str) -> (r: String)
    ensures
        r@ == "https://api.scryfall.com/cards/"@ + id@,
{
    concat("https://api.scryfall.com/cards/", id)
}

/// The database address of a printing, by set and collector number.
pub fn printing_url(set: &str, cn: &str) -> (r: String)
    ensures
        r@ == "https://api.scryfall.com/cards/"@ + set@ + "/"@ + cn@,
{
    let a = concat("https://api.scryfall.com/cards/", set);
    let b = concat(a.as_str(), "/");
    concat(b.as_str(), cn)
}

/// The database search for every printing of the card with the given
/// oracle identifier, oldest first.
pub fn prints_url(oracle_id: &str) -> (r: String)
    ensures
        r@ == "https://api.scryfall.com/cards/search?order=released&q=oracleid%3A"@ + oracle_id@
            + "&unique=prints"@,
{
    let a = concat("https://api.scryfall.com/cards/search?order=released&q=oracleid%3A", oracle_id);
    concat(a.as_str(), "&unique=prints")
}

/// The address of a deck, by identifier.
pub fn deck_url(id: &str) -> (r: String)
    ensures
        r@ == "https://api2.moxfield.com/v3/decks/all/"@ + id@,
{
    concat("https://api2.moxfield.com/v3/decks/all/", id)
}

/// The page of a card a player copies, by identifier.
pub fn card_link(id: Id) -> (r: String)
    ensures
        r@ == "https://scryfall.com/card/"@ + crate::card::hyphenated(id.0),
{
    let s = id.to_string();
    concat("https://scryfall.com/card/", s.as_str())
}

/// Whether a card fetched from the database is kept: when only tokens are
/// asked for (`tokens_only`), a card whose layout is given and is not that
/// of a token is dropped.
pub fn keeps_fetched(tokens_only: bool, layout: Option<&str>) -> (r: bool)
    ensures
        r == !(tokens_only && (layout matches Some(l) && !is_token_layout(l@))),
{
    match layout {
        Some(l) => !(tokens_only && !(eq_str(l, "double_faced_token") || eq_str(l, "token")
            || eq_str(l, "emblem"))),
        None => true,
    }
}

} // verus!

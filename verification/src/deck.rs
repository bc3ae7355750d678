use vstd::prelude::*;

use crate::card::{uuid_value, Id, SubCard};
use crate::object::{
    card_from_object, card_object_of, card_of_object, field, lookup_exec, object_readable,
    object_readable_exec, read_card_object, CardError, CardObject,
};
use crate::scryfall::{
    eq_str, mapped_tokens, mappings_complete, mappings_view, moxfield_tokens, MappingFields,
    TokenMapping,
};
use crate::types::TypeCatalog;

verus! {

/// A card entry of a deck board: the text of its card object, whether the
/// card names no meld result (its "meld_result" is null or missing), and
/// its quantity when it is a number.
pub type DeckEntry = (String, bool, Option<usize>);

/// A deck as the deck site gives it: its boards by name, each with its card
/// entries; for each card, by its unique identifier, the keys of its tokens
/// (each when it is a string); and the tokens by key, each written back as
/// JSON text.
pub struct DeckObject {
    pub boards: Vec<(String, Vec<DeckEntry>)>,
    pub cards_to_tokens: Vec<(String, Vec<Option<String>>)>,
    pub token_mappings: Vec<(String, String)>,
}

/// The deck object `json::parse` reads from a text, if the text is JSON.
pub uninterp spec fn deck_object_of(text: Seq<char>) -> Option<DeckObject>;

/// Reads a deck text with `json::parse` and keeps, of each board under
/// "boards", its name and each entry of its "cards" object: the entry's
/// "card" written back as JSON text (`dump`), whether its "meld_result" is
/// null, and its "quantity" as a `usize`; the entries of
/// "cardsToTokens" (each member as a string); and the entries of
/// "tokenMappings", each written back as JSON text. `None` when the text is
/// no JSON. The result is only named (`deck_object_of`).
#[verifier::external_body]
fn read_deck_object(text: &str) -> (r: Option<DeckObject>)
    ensures
        r == deck_object_of(text@),
{
    json::parse(text).ok().map(|v| DeckObject {
        boards: v["boards"].entries().map(|(n, b)| (n.into(), b["cards"].entries().map(|(_, e)| (e["card"].dump(), e["card"]["meld_result"].is_null(), e["quantity"].as_usize())).collect())).collect(),
        cards_to_tokens: v["cardsToTokens"].entries().map(|(k, t)| (k.into(), t.members().map(|m| m.as_str().map(String::from)).collect())).collect(),
        token_mappings: v["tokenMappings"].entries().map(|(k, m)| (k.into(), m.dump())).collect()
    })
}

/// Which board a deck's cards come from; the board decides where the pile
/// goes.
#[derive(Clone, Copy, PartialEq, Eq, Structural, Debug)]
pub enum BoardKind {
    Commander,
    Deck,
    SideBoard,
    Companion,
    CommanderAlt,
    Attraction,
    Sticker,
}

/// The kind of the `i`-th board: commanders, the main deck, the sideboard,
/// companions, signature spells (laid as the other commander), attractions
/// and stickers.
pub open spec fn board_kind(i: int) -> BoardKind {
    if i == 0 {
        BoardKind::Commander
    } else if i == 1 {
        BoardKind::Deck
    } else if i == 2 {
        BoardKind::SideBoard
    } else if i == 3 {
        BoardKind::Companion
    } else if i == 4 {
        BoardKind::CommanderAlt
    } else if i == 5 {
        BoardKind::Attraction
    } else {
        BoardKind::Sticker
    }
}

/// The name of the `i`-th board the deck is read from: commanders, the main
/// deck, the sideboard, companions, signature spells, attractions and
/// stickers.
pub open spec fn board_name(i: int) -> Seq<char> {
    if i == 0 {
        "commanders"@
    } else if i == 1 {
        "mainboard"@
    } else if i == 2 {
        "sideboard"@
    } else if i == 3 {
        "companions"@
    } else if i == 4 {
        "signatureSpells"@
    } else if i == 5 {
        "attractions"@
    } else {
        "stickers"@
    }
}

/// The entries of the first board with the given name; none when there is
/// no such board.
pub open spec fn entries_named(bs: Seq<(String, Vec<DeckEntry>)>, name: Seq<char>) -> Seq<DeckEntry>
    decreases bs.len(),
{
    if bs.len() == 0 {
        Seq::empty()
    } else if bs[0].0@ == name {
        bs[0].1@
    } else {
        entries_named(bs.drop_first(), name)
    }
}

/// The entries of the `i`-th board the deck is read from.
pub open spec fn board_entries(o: DeckObject, i: int) -> Seq<DeckEntry> {
    entries_named(o.boards@, board_name(i))
}

/// The board of the deck site a kind of pile comes from: commanders from
/// "commanders", the deck from "mainboard", the sideboard from "sideboard",
/// companions from "companions", the other commander place from
/// "signatureSpells", attractions from "attractions", stickers from
/// "stickers".
pub open spec fn source_board(k: BoardKind) -> Seq<char> {
    match k {
        BoardKind::Commander => "commanders"@,
        BoardKind::Deck => "mainboard"@,
        BoardKind::SideBoard => "sideboard"@,
        BoardKind::Companion => "companions"@,
        BoardKind::CommanderAlt => "signatureSpells"@,
        BoardKind::Attraction => "attractions"@,
        BoardKind::Sticker => "stickers"@,
    }
}

/// The token keys listed for the card `key`: those of the first entry with
/// that key; none when there is no such entry.
pub open spec fn token_keys(ct: Seq<(String, Vec<Option<String>>)>, key: Seq<char>) -> Seq<
    Option<String>,
>
    decreases ct.len(),
{
    if ct.len() == 0 {
        Seq::empty()
    } else if ct[0].0@ == key {
        ct[0].1@
    } else {
        token_keys(ct.drop_first(), key)
    }
}

/// The text of the token mapping under `key`: that of the first entry with
/// that key, if any.
pub open spec fn mapping_text(tm: Seq<(String, String)>, key: Seq<char>) -> Option<Seq<char>>
    decreases tm.len(),
{
    if tm.len() == 0 {
        None
    } else if tm[0].0@ == key {
        Some(tm[0].1@)
    } else {
        mapping_text(tm.drop_first(), key)
    }
}

/// The layout and identifier of the token mapping under `key`, each as far
/// as given (neither when there is no such mapping).
pub open spec fn mapping_for(tm: Seq<(String, String)>, key: Seq<char>) -> MappingFields {
    match mapping_text(tm, key) {
        Some(t) => match card_object_of(t) {
            Some(m) => (field(m.own, "layout"@), field(m.own, "scryfall_id"@)),
            None => (None, None),
        },
        None => (None, None),
    }
}

/// Whether every token key is a string.
pub open spec fn keys_given(keys: Seq<Option<String>>) -> bool {
    forall|i: int| 0 <= i < keys.len() ==> #[trigger] keys[i] is Some
}

/// The token mappings the keys name, in order.
pub open spec fn mappings_of(o: DeckObject, keys: Seq<Option<String>>) -> Seq<MappingFields> {
    keys.map_values(|k: Option<String>| mapping_for(o.token_mappings@, k->Some_0@))
}

/// Whether an entry's card names a meld result.
pub open spec fn is_meld(e: DeckEntry) -> bool {
    !e.1
}

/// The card object of an entry.
pub open spec fn entry_object(e: DeckEntry) -> CardObject {
    card_object_of(e.0@)->Some_0
}

/// The unique identifier of an entry's card, if given.
pub open spec fn unique_of(e: DeckEntry) -> Option<Seq<char>> {
    field(entry_object(e).own, "uniqueCardId"@)
}

/// The token keys of an entry's card.
pub open spec fn entry_keys(o: DeckObject, e: DeckEntry) -> Seq<Option<String>> {
    token_keys(o.cards_to_tokens@, unique_of(e)->Some_0)
}

/// The database identifier of an entry's card, if given.
pub open spec fn scryfall_id_of(e: DeckEntry) -> Option<Seq<char>> {
    field(entry_object(e).own, "scryfall_id"@)
}

/// Why an entry of the deck does not read, if it does not: its quantity is
/// no number, its card is no JSON, a token key is no string, a token lacks
/// its identifier, a meld card lacks its database identifier, or its card
/// does not read (`object_readable`) or has an identifier that is no UUID.
#[verifier::opaque]
pub open spec fn entry_error(o: DeckObject, e: DeckEntry) -> Option<CardError> {
    if e.2 is None || card_object_of(e.0@) is None {
        Some(CardError::Unreadable)
    } else if unique_of(e) is None {
        None
    } else if !keys_given(entry_keys(o, e)) || !mappings_complete(
        mappings_of(o, entry_keys(o, e)),
    ) {
        Some(CardError::Unreadable)
    } else if is_meld(e) {
        if scryfall_id_of(e) is None {
            Some(CardError::Unreadable)
        } else {
            None
        }
    } else if scryfall_id_of(e) is None {
        None
    } else if !object_readable(entry_object(e)) {
        Some(CardError::Unreadable)
    } else if uuid_value(scryfall_id_of(e)->Some_0) is None {
        Some(CardError::Id)
    } else {
        None
    }
}

/// Whether an entry that reads is left out: its card has no unique
/// identifier, or is no meld card and has no database identifier.
pub open spec fn entry_dropped(e: DeckEntry) -> bool {
    unique_of(e) is None || (!is_meld(e) && scryfall_id_of(e) is None)
}

/// The entries of a board that are not left out, in order.
pub open spec fn kept(es: Seq<DeckEntry>) -> Seq<DeckEntry>
    decreases es.len(),
{
    if es.len() == 0 {
        Seq::empty()
    } else if entry_dropped(es.last()) {
        kept(es.drop_last())
    } else {
        kept(es.drop_last()).push(es.last())
    }
}

/// A card of a deck: its database identifier, whether it is a meld card
/// (to be fetched by that identifier), how many copies the deck holds, its
/// tokens, and the card read from the deck unless it is a meld card.
pub struct DeckCard {
    pub scryfall_id: String,
    pub meld: bool,
    pub count: usize,
    pub tokens: Vec<Id>,
    pub card: Option<SubCard>,
}

/// The cards of one board of a deck.
pub struct DeckBoard {
    pub kind: BoardKind,
    pub cards: Vec<DeckCard>,
}

/// Whether `d` is the card the deck entry `e` gives: its identifier, meld
/// flag and quantity; its tokens, those of its token mappings; and, for
/// no meld card, the card read from its card object with those tokens.
#[verifier::opaque]
pub open spec fn entry_card(o: DeckObject, e: DeckEntry, names: Seq<Seq<char>>, d: DeckCard) -> bool {
    &&& d.scryfall_id@ == scryfall_id_of(e)->Some_0
    &&& d.meld == is_meld(e)
    &&& Some(d.count) == e.2
    &&& d.tokens@ == mapped_tokens(mappings_of(o, entry_keys(o, e)))
    &&& is_meld(e) ==> d.card is None
    &&& !is_meld(e) ==> (d.card matches Some(c) && Some(c.id.0) == uuid_value(d.scryfall_id@)
        && card_from_object(c.id, d.tokens@, None, entry_object(e), names, c))
}

/// Whether some entry of the deck does not read.
pub open spec fn deck_fails(o: DeckObject) -> bool {
    exists|i: int, j: int|
        0 <= i < 7 && 0 <= j < board_entries(o, i).len() && (#[trigger] entry_error(
            o,
            board_entries(o, i)[j],
        )) is Some
}

/// Whether the entry `j` of board `i` comes before the entry `k` of board
/// `b`, boards first.
pub open spec fn before(i: int, j: int, b: int, k: int) -> bool {
    i < b || (i == b && j < k)
}

/// What reading a deck gives: the error of the first entry that does not
/// read, boards in order; otherwise each board with its kind and the cards
/// of its entries that are not left out, in order.
pub open spec fn deck_outcome(
    o: DeckObject,
    names: Seq<Seq<char>>,
    r: Result<Vec<DeckBoard>, CardError>,
) -> bool {
    match r {
        Err(err) => exists|i: int, j: int|
            0 <= i < 7 && 0 <= j < board_entries(o, i).len() && entry_error(
                o,
                #[trigger] board_entries(o, i)[j],
            ) == Some(err) && forall|b: int, k: int|
                0 <= b < 7 && 0 <= k < board_entries(o, b).len() && before(b, k, i, j)
                    ==> (#[trigger] entry_error(o, board_entries(o, b)[k])) is None,
        Ok(bs) => {
            &&& !deck_fails(o)
            &&& bs@.len() == 7
            &&& forall|i: int|
                0 <= i < bs@.len() ==> {
                    let ks = kept(board_entries(o, i));
                    &&& #[trigger] bs@[i].kind == board_kind(i)
                    &&& bs@[i].cards@.len() == ks.len()
                    &&& forall|j: int|
                        0 <= j < ks.len() ==> entry_card(o, ks[j], names, #[trigger] bs@[i].cards@[j])
                }
        },
    }
}

/// The token keys listed for the card `key`.
fn token_keys_exec(o: &DeckObject, key: &str) -> (r: Vec<Option<String>>)
    ensures
        r@ == token_keys(o.cards_to_tokens@, key@),
{
    let ghost ct = o.cards_to_tokens@;
    proof {
        assert(ct.subrange(0, ct.len() as int) =~= ct);
    }
    for i in 0..o.cards_to_tokens.len()
        invariant
            ct == o.cards_to_tokens@,
            token_keys(ct, key@) == token_keys(ct.subrange(i as int, ct.len() as int), key@),
    {
        let ghost rest = ct.subrange(i as int, ct.len() as int);
        proof {
            assert(rest[0] == ct[i as int]);
            assert(rest.drop_first() =~= ct.subrange(i + 1, ct.len() as int));
        }
        let e = &o.cards_to_tokens[i];
        if eq_str(e.0.as_str(), key) {
            let mut r: Vec<Option<String>> = Vec::new();
            for k in 0..e.1.len()
                invariant
                    r@.len() == k,
                    forall|m: int| 0 <= m < k ==> #[trigger] r@[m] == e.1@[m],
            {
                let x = match &e.1[k] {
                    Some(s) => Some(s.clone()),
                    None => None,
                };
                r.push(x);
            }
            assert(r@ =~= e.1@);
            return r;
        }
    }
    proof {
        assert(ct.subrange(ct.len() as int, ct.len() as int) =~= Seq::<
            (String, Vec<Option<String>>),
        >::empty());
    }
    Vec::new()
}

/// The layout and identifier of the token mapping under `key`.
fn mapping_exec(o: &DeckObject, key: &str) -> (r: TokenMapping)
    ensures
        r@ == mapping_for(o.token_mappings@, key@),
{
    let ghost tm = o.token_mappings@;
    proof {
        assert(tm.subrange(0, tm.len() as int) =~= tm);
    }
    for i in 0..o.token_mappings.len()
        invariant
            tm == o.token_mappings@,
            mapping_text(tm, key@) == mapping_text(tm.subrange(i as int, tm.len() as int), key@),
    {
        let ghost rest = tm.subrange(i as int, tm.len() as int);
        proof {
            assert(rest[0] == tm[i as int]);
            assert(rest.drop_first() =~= tm.subrange(i + 1, tm.len() as int));
        }
        let e = &o.token_mappings[i];
        if eq_str(e.0.as_str(), key) {
            return match read_card_object(e.1.as_str()) {
                Some(m) => TokenMapping {
                    layout: lookup_exec(&m.own, "layout"),
                    scryfall_id: lookup_exec(&m.own, "scryfall_id"),
                },
                None => TokenMapping { layout: None, scryfall_id: None },
            };
        }
    }
    proof {
        assert(tm.subrange(tm.len() as int, tm.len() as int) =~= Seq::<(String, String)>::empty());
    }
    TokenMapping { layout: None, scryfall_id: None }
}

/// The token mappings the keys name, when every key is a string.
fn mappings_exec(o: &DeckObject, keys: &Vec<Option<String>>) -> (r: Option<Vec<TokenMapping>>)
    ensures
        r is Some <==> keys_given(keys@),
        r matches Some(ms) ==> mappings_view(ms@) == mappings_of(*o, keys@),
{
    let mut ms: Vec<TokenMapping> = Vec::new();
    for i in 0..keys.len()
        invariant
            ms@.len() == i,
            forall|k: int| 0 <= k < i ==> #[trigger] keys@[k] is Some,
            forall|k: int|
                0 <= k < i ==> #[trigger] ms@[k]@ == mapping_for(o.token_mappings@, keys@[k]->Some_0@),
    {
        match &keys[i] {
            None => return None,
            Some(k) => {
                ms.push(mapping_exec(o, k.as_str()));
            },
        }
    }
    assert(mappings_view(ms@) =~= mappings_of(*o, keys@));
    Some(ms)
}

/// Whether every mapping with a token's layout gives an identifier.
fn mappings_complete_exec(ms: &Vec<TokenMapping>) -> (r: bool)
    ensures
        r == mappings_complete(mappings_view(ms@)),
{
    let ghost v = mappings_view(ms@);
    for i in 0..ms.len()
        invariant
            v == mappings_view(ms@),
            forall|k: int|
                0 <= k < i && crate::scryfall::is_token_layout(crate::scryfall::layout_of(#[trigger] v[k])) ==> v[k].1 is Some,
    {
        let m = &ms[i];
        assert(v[i as int] == m@);
        let layout: &str = match &m.layout {
            Some(l) => l.as_str(),
            None => {
                let e = "";
                proof {
                    reveal_strlit("");
                    assert(e@ =~= Seq::<char>::empty());
                }
                e
            },
        };
        assert(layout@ == crate::scryfall::layout_of(v[i as int]));
        if (eq_str(layout, "double_faced_token") || eq_str(layout, "token") || eq_str(
            layout,
            "emblem",
        )) && m.scryfall_id.is_none() {
            return false;
        }
    }
    true
}

/// What one entry gives: `Err` when it does not read, `Ok(None)` when it is
/// left out, otherwise its card.
fn read_entry(o: &DeckObject, e: &DeckEntry, catalog: &TypeCatalog) -> (r: Result<
    Option<DeckCard>,
    CardError,
>)
    ensures
        r matches Err(err) ==> entry_error(*o, *e) == Some(err),
        r is Ok ==> entry_error(*o, *e) is None,
        r matches Ok(None) ==> entry_dropped(*e),
        r matches Ok(Some(d)) ==> !entry_dropped(*e) && entry_card(*o, *e, catalog.view(), d),
{
    reveal(entry_error);
    reveal(entry_card);
    let count = match e.2 {
        Some(n) => n,
        None => return Err(CardError::Unreadable),
    };
    let c = match read_card_object(e.0.as_str()) {
        Some(c) => c,
        None => return Err(CardError::Unreadable),
    };
    let unique = match lookup_exec(&c.own, "uniqueCardId") {
        Some(u) => u,
        None => return Ok(None),
    };
    let keys = token_keys_exec(o, unique.as_str());
    let maps = match mappings_exec(o, &keys) {
        Some(m) => m,
        None => return Err(CardError::Unreadable),
    };
    if !mappings_complete_exec(&maps) {
        return Err(CardError::Unreadable);
    }
    let sid = lookup_exec(&c.own, "scryfall_id");
    if !e.1 {
        match sid {
            None => Err(CardError::Unreadable),
            Some(s) => {
                let tokens = moxfield_tokens(&maps);
                Ok(Some(DeckCard { scryfall_id: s, meld: true, count, tokens, card: None }))
            },
        }
    } else {
        match sid {
            None => Ok(None),
            Some(s) => {
                if !object_readable_exec(&c) {
                    return Err(CardError::Unreadable);
                }
                let tokens = moxfield_tokens(&maps);
                let copy = copy_ids(&tokens);
                match card_of_object(s.as_str(), copy, None, &c, catalog) {
                    Ok(card) => Ok(
                        Some(DeckCard { scryfall_id: s, meld: false, count, tokens, card: Some(card) }),
                    ),
                    Err(err) => Err(err),
                }
            },
        }
    }
}

proof fn lemma_kept_step(es: Seq<DeckEntry>, j: int)
    requires
        0 <= j < es.len(),
    ensures
        kept(es.subrange(0, j + 1)) == (if entry_dropped(es[j]) {
            kept(es.subrange(0, j))
        } else {
            kept(es.subrange(0, j)).push(es[j])
        }),
{
    assert(es.subrange(0, j + 1).drop_last() =~= es.subrange(0, j));
    assert(es.subrange(0, j + 1).last() == es[j]);
}

/// Reads the boards of a deck object: the error of the first entry that
/// does not read, boards in order; otherwise each board with its kind and
/// the cards of its entries that are not left out, in order.
pub fn deck_of_object(o: &DeckObject, catalog: &TypeCatalog) -> (r: Result<Vec<DeckBoard>, CardError>)
    ensures
        deck_outcome(*o, catalog.view(), r),
{
    let ghost names = catalog.view();
    let mut boards: Vec<DeckBoard> = Vec::new();
    let empty: Vec<DeckEntry> = Vec::new();
    for i in 0..7usize
        invariant
            names == catalog.view(),
            empty@.len() == 0,
            boards@.len() == i,
            forall|b: int, k: int|
                0 <= b < i && 0 <= k < board_entries(*o, b).len() ==> (#[trigger] entry_error(
                    *o,
                    board_entries(*o, b)[k],
                )) is None,
            forall|b: int|
                0 <= b < i ==> {
                    let ks = kept(board_entries(*o, b));
                    &&& #[trigger] boards@[b].kind == board_kind(b)
                    &&& boards@[b].cards@.len() == ks.len()
                    &&& forall|j: int|
                        0 <= j < ks.len() ==> entry_card(*o, ks[j], names, #[trigger] boards@[b].cards@[j])
                },
    {
        let es: &Vec<DeckEntry> = match board_at(o, i) {
            Some(v) => v,
            None => &empty,
        };
        let mut cards: Vec<DeckCard> = Vec::new();
        for j in 0..es.len()
            invariant
                names == catalog.view(),
                i < 7,
                es@ == board_entries(*o, i as int),
                forall|b: int, k: int|
                    0 <= b < i && 0 <= k < board_entries(*o, b).len() ==> (#[trigger] entry_error(
                        *o,
                        board_entries(*o, b)[k],
                    )) is None,
                forall|k: int| 0 <= k < j ==> (#[trigger] entry_error(*o, es@[k])) is None,
                cards@.len() == kept(es@.subrange(0, j as int)).len(),
                forall|m: int|
                    0 <= m < cards@.len() ==> entry_card(
                        *o,
                        kept(es@.subrange(0, j as int))[m],
                        names,
                        #[trigger] cards@[m],
                    ),
        {
            let ghost pre = kept(es@.subrange(0, j as int));
            proof {
                lemma_kept_step(es@, j as int);
            }
            match read_entry(o, &es[j], catalog) {
                Err(err) => {
                    proof {
                        assert(entry_error(*o, board_entries(*o, i as int)[j as int]) == Some(err));
                        assert forall|b: int, k: int|
                            0 <= b < 7 && 0 <= k < board_entries(*o, b).len() && before(
                                b,
                                k,
                                i as int,
                                j as int,
                            ) implies (#[trigger] entry_error(*o, board_entries(*o, b)[k])) is None by {
                            if b == i {
                                assert(entry_error(*o, es@[k]) is None);
                            }
                        }
                        let ii = i as int;
                        let jj = j as int;
                        assert(0 <= ii < 7 && 0 <= jj < board_entries(*o, ii).len());
                        assert(deck_outcome(*o, catalog.view(), Err(err)));
                    }
                    return Err(err);
                },
                Ok(None) => {},
                Ok(Some(d)) => {
                    cards.push(d);
                    proof {
                        let now = kept(es@.subrange(0, j + 1 as int));
                        assert(now == pre.push(es@[j as int]));
                        assert forall|m: int| 0 <= m < cards@.len() implies entry_card(
                            *o,
                            now[m],
                            names,
                            #[trigger] cards@[m],
                        ) by {
                            if m < pre.len() {
                                assert(now[m] == pre[m]);
                            }
                        }
                    }
                },
            }
        }
        proof {
            assert(es@.subrange(0, es@.len() as int) =~= es@);
        }
        boards.push(DeckBoard { kind: kind_at(i), cards });
        proof {
            assert forall|b: int| 0 <= b < i + 1 implies {
                let ks = kept(board_entries(*o, b));
                &&& #[trigger] boards@[b].kind == board_kind(b)
                &&& boards@[b].cards@.len() == ks.len()
                &&& forall|j: int|
                    0 <= j < ks.len() ==> entry_card(*o, ks[j], names, #[trigger] boards@[b].cards@[j])
            } by {}
        }
    }
    proof {
        if deck_fails(*o) {
            let (i, j) = choose|i: int, j: int|
                0 <= i < 7 && 0 <= j < board_entries(*o, i).len() && (#[trigger] entry_error(
                    *o,
                    board_entries(*o, i)[j],
                )) is Some;
            assert(entry_error(*o, board_entries(*o, i)[j]) is None);
        }
    }
    Ok(boards)
}

/// The name of the `i`-th board the deck is read from.
fn name_at(i: usize) -> (r: &'static str)
    ensures
        r@ == board_name(i as int),
{
    match i {
        0 => "commanders",
        1 => "mainboard",
        2 => "sideboard",
        3 => "companions",
        4 => "signatureSpells",
        5 => "attractions",
        _ => "stickers",
    }
}

/// The entries of the `i`-th board the deck is read from, when the deck has
/// that board.
fn board_at(o: &DeckObject, i: usize) -> (r: Option<&Vec<DeckEntry>>)
    ensures
        match r {
            Some(v) => v@ == board_entries(*o, i as int),
            None => board_entries(*o, i as int) == Seq::<DeckEntry>::empty(),
        },
{
    let name = name_at(i);
    let ghost bs = o.boards@;
    proof {
        assert(bs.subrange(0, bs.len() as int) =~= bs);
    }
    for k in 0..o.boards.len()
        invariant
            bs == o.boards@,
            name@ == board_name(i as int),
            entries_named(bs, name@) == entries_named(bs.subrange(k as int, bs.len() as int), name@),
    {
        let ghost rest = bs.subrange(k as int, bs.len() as int);
        proof {
            assert(rest[0] == bs[k as int]);
            assert(rest.drop_first() =~= bs.subrange(k + 1, bs.len() as int));
        }
        if eq_str(o.boards[k].0.as_str(), name) {
            return Some(&o.boards[k].1);
        }
    }
    proof {
        assert(bs.subrange(bs.len() as int, bs.len() as int) =~= Seq::<(String, Vec<DeckEntry>)>::empty());
    }
    None
}

/// A copy of the identifiers.
fn copy_ids(v: &Vec<Id>) -> (r: Vec<Id>)
    ensures
        r@ == v@,
{
    let r = v.clone();
    assert(r@ =~= v@);
    r
}

/// The kind of the `i`-th board.
fn kind_at(i: usize) -> (r: BoardKind)
    ensures
        r == board_kind(i as int),
{
    match i {
        0 => BoardKind::Commander,
        1 => BoardKind::Deck,
        2 => BoardKind::SideBoard,
        3 => BoardKind::Companion,
        4 => BoardKind::CommanderAlt,
        5 => BoardKind::Attraction,
        _ => BoardKind::Sticker,
    }
}

/// Reads a deck text: `NotJson` when it is no JSON, otherwise as
/// `deck_of_object`.
pub fn read_deck(text: &str, catalog: &TypeCatalog) -> (r: Result<Vec<DeckBoard>, CardError>)
    ensures
        match deck_object_of(text@) {
            None => r == Err::<Vec<DeckBoard>, CardError>(CardError::NotJson),
            Some(o) => deck_outcome(o, catalog.view(), r),
        },
{
    match read_deck_object(text) {
        None => Err(CardError::NotJson),
        Some(o) => deck_of_object(&o, catalog),
    }
}

/// Whether `r` holds `count` copies of each card of `cs`, in order.
pub open spec fn expands(cs: Seq<(SubCard, usize)>, r: Seq<SubCard>) -> bool
    decreases cs.len(),
{
    if cs.len() == 0 {
        r.len() == 0
    } else {
        let (c, n) = cs.last();
        &&& r.len() >= n
        &&& forall|k: int| r.len() - n <= k < r.len() ==> c.same_as(#[trigger] r[k])
        &&& expands(cs.drop_last(), r.subrange(0, r.len() - n))
    }
}

/// The pile of a board: each card as many times as the deck holds it, in
/// order.
pub fn board_cards(cs: &Vec<(SubCard, usize)>) -> (r: Vec<SubCard>)
    ensures
        expands(cs@, r@),
{
    let mut r: Vec<SubCard> = Vec::new();
    for i in 0..cs.len()
        invariant
            expands(cs@.subrange(0, i as int), r@),
    {
        let ghost start = r@;
        let (c, n) = (&cs[i].0, cs[i].1);
        for k in 0..n
            invariant
                r@.len() == start.len() + k,
                r@.subrange(0, start.len() as int) == start,
                forall|m: int| start.len() <= m < r@.len() ==> c.same_as(#[trigger] r@[m]),
        {
            let ghost before = r@;
            r.push(c.clone_no_image());
            assert(r@.subrange(0, start.len() as int) =~= before.subrange(0, start.len() as int));
        }
        proof {
            let cs1 = cs@.subrange(0, i + 1 as int);
            assert(cs1.drop_last() =~= cs@.subrange(0, i as int));
            assert(cs1.last() == cs@[i as int]);
        }
    }
    assert(cs@.subrange(0, cs@.len() as int) =~= cs@);
    r
}

/// A deck that reads gives one board of each kind, and each board holds
/// the cards of the deck site's board that kind comes from (see
/// `source_board`): the sideboard's cards those of "sideboard", the
/// companions those of "companions", and so on, each entry that is not left
/// out giving its card, in order.
pub proof fn law_boards_by_name(o: DeckObject, names: Seq<Seq<char>>, bs: Vec<DeckBoard>)
    requires
        deck_outcome(o, names, Ok(bs)),
    ensures
        bs@.len() == 7,
        forall|i: int, j: int| 0 <= i < j < 7 ==> bs@[i].kind != bs@[j].kind,
        forall|i: int|
            0 <= i < 7 ==> {
                let ks = kept(#[trigger] entries_named(o.boards@, source_board(bs@[i].kind)));
                &&& bs@[i].cards@.len() == ks.len()
                &&& forall|j: int|
                    0 <= j < ks.len() ==> entry_card(o, ks[j], names, #[trigger] bs@[i].cards@[j])
            },
{
    assert forall|i: int| 0 <= i < 7 implies source_board(#[trigger] board_kind(i)) == board_name(i) by {}
    assert forall|i: int| 0 <= i < 7 implies bs@[i].kind == board_kind(i) by {}
}

} // verus!

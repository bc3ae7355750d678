use vstd::prelude::*;

use crate::card::{uuid_value, CardData, CardInfo, Id, Layout, SubCard};
use crate::cost::{cost_of, cost_text_ok, ColorIdentity, Cost};
use crate::scryfall::{
    eq_str, get_tokens, is_token_layout, keeps_fetched, opt_view, part_other, parts_complete, parts_view, tokens_of, PartFields,
    RelatedPart,
};
use crate::text::{chars_of, parse_unsigned, parse_unsigned_exec, split};
use crate::types::{sub_type_of, types_of_words, SubType, TypeCatalog, Types};

verus! {

/// What the library reads of one JSON object of the card database: each
/// key with its value when that value is a string, and the members of its
/// "colors" array, each when it is a string.
pub struct JsonFields {
    pub strings: Vec<(String, Option<String>)>,
    pub colors: Vec<Option<String>>,
}

/// A card object of the card database, as the library reads it: the object
/// itself, the members of its "card_faces" array and those of its
/// "all_parts" array.
pub struct CardObject {
    pub own: JsonFields,
    pub faces: Vec<JsonFields>,
    pub parts: Vec<JsonFields>,
}

/// Why no card came from a card object.
#[derive(Clone, Copy, PartialEq, Eq, Structural, Debug)]
pub enum CardError {
    /// The text is no JSON.
    NotJson,
    /// The identifier is missing or is no UUID.
    Id,
    /// The object has no name.
    NoName,
    /// A field the card is read from does not read: a mana cost, a color,
    /// or a related card's name, identifier, type line or relation.
    Unreadable,
}

/// The card object `json::parse` reads from a text, if the text is JSON.
pub uninterp spec fn card_object_of(text: Seq<char>) -> Option<CardObject>;

/// Reads a text with `json::parse` and keeps what the library reads of the
/// object (see `JsonFields`), of each member of its "card_faces" array and
/// of each member of its "all_parts" array; `None` when the text is no
/// JSON. The result is only named (`card_object_of`). The `json` crate keeps
/// each key of an object once (a later value replaces an earlier one), in
/// the order `entries` gives them; this is not stated.
#[verifier::external_body]
pub(crate) fn read_card_object(text: &str) -> (r: Option<CardObject>)
    ensures
        r == card_object_of(text@),
{
    let v = json::parse(text).ok()?;
    let fields = |j: &json::JsonValue| JsonFields {
        strings: j.entries().map(|(k, x)| (k.to_string(), x.as_str().map(String::from))).collect(),
        colors: j["colors"].members().map(|c| c.as_str().map(String::from)).collect(),
    };
    let faces = v["card_faces"].members().map(fields).collect();
    let parts = v["all_parts"].members().map(fields).collect();
    Some(CardObject { own: fields(&v), faces, parts })
}

/// The first string value given for `key` among the entries, as indexing a
/// JSON object by `key` and taking its string gives it.
pub open spec fn lookup(es: Seq<(String, Option<String>)>, key: Seq<char>) -> Option<Seq<char>>
    decreases es.len(),
{
    if es.len() == 0 {
        None
    } else if es[0].0@ == key {
        opt_view(es[0].1)
    } else {
        lookup(es.drop_first(), key)
    }
}

/// The string an object holds under `key`, if it holds one.
pub open spec fn field(f: JsonFields, key: Seq<char>) -> Option<Seq<char>> {
    lookup(f.strings@, key)
}

/// The object `f` points at, if any.
pub open spec fn deref_fields(f: Option<&JsonFields>) -> Option<JsonFields> {
    match f {
        Some(g) => Some(*g),
        None => None,
    }
}

/// The string an object holds under `key`, the empty text when there is no
/// object or no such string.
pub open spec fn text_of(f: Option<JsonFields>, key: Seq<char>) -> Seq<char> {
    match f {
        Some(g) => match field(g, key) {
            Some(s) => s,
            None => Seq::empty(),
        },
        None => Seq::empty(),
    }
}

/// The members of an object's "colors" array; none without an object.
pub open spec fn colors_given(f: Option<JsonFields>) -> Seq<Option<String>> {
    match f {
        Some(g) => g.colors@,
        None => Seq::empty(),
    }
}

/// Whether a member of a "colors" array is the symbol `c`.
pub open spec fn is_symbol(m: Option<String>, c: char) -> bool {
    m matches Some(s) && s@ == seq![c]
}

/// Whether every member of an object's "colors" array is one of the color
/// symbols `W`, `U`, `B`, `R`, `G`.
pub open spec fn colors_readable(f: Option<JsonFields>) -> bool {
    forall|i: int|
        0 <= i < colors_given(f).len() ==> {
            ||| is_symbol(#[trigger] colors_given(f)[i], 'W')
            ||| is_symbol(colors_given(f)[i], 'U')
            ||| is_symbol(colors_given(f)[i], 'B')
            ||| is_symbol(colors_given(f)[i], 'R')
            ||| is_symbol(colors_given(f)[i], 'G')
        }
}

/// Whether some member of an object's "colors" array is the symbol `c`.
pub open spec fn has_color(f: Option<JsonFields>, c: char) -> bool {
    exists|i: int| 0 <= i < colors_given(f).len() && is_symbol(#[trigger] colors_given(f)[i], c)
}

/// The colors an object's "colors" array names.
pub open spec fn colors_of(f: Option<JsonFields>) -> ColorIdentity {
    ColorIdentity {
        white: has_color(f, 'W'),
        blue: has_color(f, 'U'),
        black: has_color(f, 'B'),
        red: has_color(f, 'R'),
        green: has_color(f, 'G'),
    }
}

/// The number an object holds under `key` as a string, when it reads as a
/// number up to 255 (a power such as `*` is none).
pub open spec fn number_of(f: Option<JsonFields>, key: Seq<char>) -> Option<u8> {
    match parse_unsigned(text_of(f, key), 255) {
        Some(v) => Some(v as u8),
        None => None,
    }
}

/// Whether `info` is the face read from the object `f` under the name
/// `name`: its cost, type line, rules text, colors, power, toughness and
/// loyalty, each from the field of that name (a missing one reads as the
/// empty text).
pub open spec fn face_from(
    f: Option<JsonFields>,
    names: Seq<Seq<char>>,
    name: Seq<char>,
    info: CardInfo,
) -> bool {
    &&& info.name@ == name
    &&& info.mana_cost == cost_of(text_of(f, "mana_cost"@))
    &&& info.card_type@ == types_of_words(names, split(text_of(f, "type_line"@), seq![' ']))
    &&& info.text@ == text_of(f, "oracle_text"@)
    &&& info.color == colors_of(f)
    &&& info.power == number_of(f, "power"@)
    &&& info.toughness == number_of(f, "toughness"@)
    &&& info.loyalty == number_of(f, "loyalty"@)
}

/// The object the front face is read from: the first face when the card
/// has faces, the card object itself otherwise.
pub open spec fn front_of(o: CardObject) -> JsonFields {
    if o.faces@.len() > 0 {
        o.faces@[0]
    } else {
        o.own
    }
}

/// The object the second face is read from: the card's second face, if it
/// has one.
pub open spec fn second_of(o: CardObject) -> Option<JsonFields> {
    if o.faces@.len() > 1 {
        Some(o.faces@[1])
    } else {
        None
    }
}

/// The name of the front face: that of the first face, if it has one,
/// otherwise that of the card object.
pub open spec fn front_name(o: CardObject) -> Option<Seq<char>> {
    if o.faces@.len() > 0 && field(o.faces@[0], "name"@) is Some {
        field(o.faces@[0], "name"@)
    } else {
        field(o.own, "name"@)
    }
}

/// Whether the card object's layout is "flip".
pub open spec fn is_flip(o: CardObject) -> bool {
    field(o.own, "layout"@) == Some("flip"@)
}

/// Whether subtypes include the one the catalog calls "Room".
pub open spec fn has_room(names: Seq<Seq<char>>, t: Seq<SubType>) -> bool {
    sub_type_of(names, "Room"@) matches Some(r) && t.contains(r)
}

/// The layout of the card: flip when the object says so, a room when the
/// front face's subtypes include Room, normal otherwise.
pub open spec fn layout_of_object(o: CardObject, names: Seq<Seq<char>>) -> Layout {
    if is_flip(o) {
        Layout::Flip
    } else if has_room(
        names,
        types_of_words(names, split(text_of(Some(front_of(o)), "type_line"@), seq![' '])).2,
    ) {
        Layout::Room
    } else {
        Layout::Normal
    }
}

/// Whether a card can be read from the object: the front face has a name,
/// and the mana costs and colors of both faces read.
pub open spec fn object_readable(o: CardObject) -> bool {
    &&& front_name(o) is Some
    &&& cost_text_ok(text_of(Some(front_of(o)), "mana_cost"@))
    &&& cost_text_ok(text_of(second_of(o), "mana_cost"@))
    &&& colors_readable(Some(front_of(o)))
    &&& colors_readable(second_of(o))
}

/// Whether `c` is the card read from the object with identifier `id`, the
/// given tokens, and the given other face `back`: the front face from the
/// first face (or the object), the layout as `layout_of_object` says, not
/// turned over. Without a given other face, the card has one exactly when
/// the object has faces or is a flip card, read from the second face (the
/// empty face when there is none).
pub open spec fn card_from_object(
    id: Id,
    tokens: Seq<Id>,
    back: Option<CardInfo>,
    o: CardObject,
    names: Seq<Seq<char>>,
    c: SubCard,
) -> bool {
    &&& c.id == id
    &&& c.tokens@ == tokens
    &&& !c.flipped
    &&& c.data.layout == layout_of_object(o, names)
    &&& face_from(Some(front_of(o)), names, front_name(o)->Some_0, c.data.face)
    &&& match back {
        Some(b) => c.data.back == Some(b),
        None => {
            &&& (c.data.back is Some <==> (o.faces@.len() > 0 || is_flip(o)))
            &&& c.data.back matches Some(a) ==> face_from(
                second_of(o),
                names,
                text_of(second_of(o), "name"@),
                a,
            )
        },
    }
}

/// The string an object holds under `key`.
pub(crate) fn lookup_exec(f: &JsonFields, key: &str) -> (r: Option<String>)
    ensures
        opt_view(r) == field(*f, key@),
{
    let ghost es = f.strings@;
    let mut i: usize = 0;
    proof {
        assert(es.subrange(0, es.len() as int) =~= es);
    }
    while i < f.strings.len()
        invariant
            es == f.strings@,
            i <= es.len(),
            lookup(es, key@) == lookup(es.subrange(i as int, es.len() as int), key@),
        decreases es.len() - i,
    {
        let ghost rest = es.subrange(i as int, es.len() as int);
        proof {
            assert(rest[0] == es[i as int]);
            assert(rest.drop_first() =~= es.subrange(i + 1, es.len() as int));
        }
        let e = &f.strings[i];
        if eq_str(e.0.as_str(), key) {
            return match &e.1 {
                Some(s) => Some(s.clone()),
                None => None,
            };
        }
        i = i + 1;
    }
    proof {
        assert(es.subrange(es.len() as int, es.len() as int) =~= Seq::<(String, Option<String>)>::empty());
    }
    None
}

/// The string an object holds under `key`, the empty text when none.
fn text_exec(f: Option<&JsonFields>, key: &str) -> (r: String)
    ensures
        r@ == text_of(deref_fields(f), key@),
{
    match f {
        Some(g) => match lookup_exec(g, key) {
            Some(s) => s,
            None => String::new(),
        },
        None => String::new(),
    }
}

/// The number an object holds under `key` as a string.
fn number_exec(f: Option<&JsonFields>, key: &str) -> (r: Option<u8>)
    ensures
        r == number_of(deref_fields(f), key@),
{
    let t = text_exec(f, key);
    let cs = chars_of(t.as_str());
    match parse_unsigned_exec(&cs, 255) {
        Some(v) => Some(v as u8),
        None => None,
    }
}

proof fn lemma_same_colors(cs: Seq<Option<String>>, ss: Seq<String>, c: char)
    requires
        cs.len() == ss.len(),
        forall|k: int| 0 <= k < cs.len() ==> cs[k] == Some(#[trigger] ss[k]),
    ensures
        (exists|i: int| 0 <= i < cs.len() && is_symbol(#[trigger] cs[i], c)) == (exists|i: int|
            0 <= i < ss.len() && #[trigger] ss[i]@ == seq![c]),
{
    if exists|i: int| 0 <= i < cs.len() && is_symbol(#[trigger] cs[i], c) {
        let i = choose|i: int| 0 <= i < cs.len() && is_symbol(#[trigger] cs[i], c);
        assert(cs[i] == Some(ss[i]));
        assert(ss[i]@ == seq![c]);
    }
    if exists|i: int| 0 <= i < ss.len() && #[trigger] ss[i]@ == seq![c] {
        let i = choose|i: int| 0 <= i < ss.len() && #[trigger] ss[i]@ == seq![c];
        assert(cs[i] == Some(ss[i]));
        assert(is_symbol(cs[i], c));
    }
}

/// The colors an object's "colors" array names.
fn colors_exec(f: Option<&JsonFields>) -> (r: ColorIdentity)
    requires
        colors_readable(deref_fields(f)),
    ensures
        r == colors_of(deref_fields(f)),
{
    let ghost g = deref_fields(f);
    let ghost cs = colors_given(g);
    let mut symbols: Vec<String> = Vec::new();
    match f {
        Some(h) => {
            for i in 0..h.colors.len()
                invariant
                    cs == h.colors@,
                    colors_readable(g),
                    g == Some(*h),
                    symbols@.len() == i,
                    forall|k: int| 0 <= k < i ==> h.colors@[k] == Some(#[trigger] symbols@[k]),
            {
                assert(colors_given(g)[i as int] == h.colors@[i as int]);
                let s = h.colors[i].as_ref().unwrap().clone();
                symbols.push(s);
            }
        },
        None => {},
    }
    assert(symbols@.len() == cs.len());
    assert forall|k: int| 0 <= k < symbols@.len() implies {
        ||| #[trigger] symbols@[k]@ == seq!['W']
        ||| symbols@[k]@ == seq!['U']
        ||| symbols@[k]@ == seq!['B']
        ||| symbols@[k]@ == seq!['R']
        ||| symbols@[k]@ == seq!['G']
    } by {
        assert(cs[k] == Some(symbols@[k]));
        assert(colors_given(g)[k] == cs[k]);
    }
    let r = ColorIdentity::parse(&symbols);
    proof {
        lemma_same_colors(cs, symbols@, 'W');
        lemma_same_colors(cs, symbols@, 'U');
        lemma_same_colors(cs, symbols@, 'B');
        lemma_same_colors(cs, symbols@, 'R');
        lemma_same_colors(cs, symbols@, 'G');
    }
    r
}

/// The face read from the object `f` under the name `name`.
fn face_exec(f: Option<&JsonFields>, name: String, catalog: &TypeCatalog) -> (r: CardInfo)
    requires
        cost_text_ok(text_of(deref_fields(f), "mana_cost"@)),
        colors_readable(deref_fields(f)),
    ensures
        face_from(deref_fields(f), catalog.view(), name@, r),
{
    let cost = text_exec(f, "mana_cost");
    let type_line = text_exec(f, "type_line");
    CardInfo {
        name,
        mana_cost: Cost::from(cost.as_str()),
        card_type: Types::from_str(type_line.as_str(), catalog),
        text: text_exec(f, "oracle_text"),
        color: colors_exec(f),
        power: number_exec(f, "power"),
        toughness: number_exec(f, "toughness"),
        loyalty: number_exec(f, "loyalty"),
    }
}

/// Whether the subtypes include the one the catalog calls "Room".
fn has_room_exec(t: &Types, catalog: &TypeCatalog) -> (r: bool)
    ensures
        r == has_room(catalog.view(), t@.2),
{
    let room: Vec<char> = vec!['R', 'o', 'o', 'm'];
    proof {
        reveal_strlit("Room");
        assert(room@ =~= "Room"@);
    }
    match catalog.sub_type(&room) {
        Ok(k) => {
            let mut i: usize = 0;
            while i < t.sub_type.0.len()
                invariant
                    i <= t.sub_type@.len(),
                    sub_type_of(catalog.view(), "Room"@) == Some(k),
                    forall|j: int| 0 <= j < i ==> t.sub_type@[j] != k,
                decreases t.sub_type@.len() - i,
            {
                if t.sub_type.0[i] == k {
                    assert(t@.2[i as int] == k);
                    assert(t@.2.contains(k));
                    return true;
                }
                i = i + 1;
            }
            false
        },
        Err(_) => false,
    }
}

/// Reads a card from a card object of the database, with the identifier
/// `id`, the given tokens, and the other face `back` when it comes from
/// elsewhere (a meld result). The front face comes from the first face, or
/// from the object itself when it has no faces; the layout is flip when the
/// object says so, a room when the front face is a Room, normal otherwise.
/// Without a given other face, the card has one exactly when the object has
/// faces or is a flip card. Fails when the identifier is no UUID. The card
/// images are not part of the card.
pub fn card_of_object(
    id: &str,
    tokens: Vec<Id>,
    back: Option<CardInfo>,
    o: &CardObject,
    catalog: &TypeCatalog,
) -> (r: Result<SubCard, CardError>)
    requires
        object_readable(*o),
    ensures
        r is Err <==> uuid_value(id@) is None,
        r matches Err(e) ==> e == CardError::Id,
        r matches Ok(c) ==> Some(c.id.0) == uuid_value(id@) && card_from_object(
            c.id,
            tokens@,
            back,
            *o,
            catalog.view(),
            c,
        ),
{
    let id = match Id::from_str(id) {
        Ok(i) => i,
        Err(_) => return Err(CardError::Id),
    };
    let flip = match lookup_exec(&o.own, "layout") {
        Some(l) => eq_str(l.as_str(), "flip"),
        None => false,
    };
    proof {
        reveal_strlit("flip");
    }
    let double = o.faces.len() > 0;
    let front: &JsonFields = if double {
        &o.faces[0]
    } else {
        &o.own
    };
    let second: Option<&JsonFields> = if o.faces.len() > 1 {
        Some(&o.faces[1])
    } else {
        None
    };
    let first_name = if double {
        lookup_exec(&o.faces[0], "name")
    } else {
        None
    };
    let name = match first_name {
        Some(n) => n,
        None => lookup_exec(&o.own, "name").unwrap(),
    };
    let alt_name = text_exec(second, "name");
    let face = face_exec(Some(front), name, catalog);
    let alt = face_exec(second, alt_name, catalog);
    let layout = if flip {
        Layout::Flip
    } else if has_room_exec(&face.card_type, catalog) {
        Layout::Room
    } else {
        Layout::Normal
    };
    let back = match back {
        Some(b) => Some(b),
        None => if double || flip {
            Some(alt)
        } else {
            None
        },
    };
    Ok(SubCard { id, tokens, data: CardData { face, back, layout }, flipped: false })
}

/// The fields of a related card as the library reads them.
pub open spec fn part_fields(f: JsonFields) -> PartFields {
    (field(f, "name"@)->Some_0, field(f, "id"@)->Some_0, field(f, "type_line"@), field(f, "component"@))
}

/// Whether every related card has a name and an identifier.
pub open spec fn parts_named(ps: Seq<JsonFields>) -> bool {
    forall|i: int|
        0 <= i < ps.len() ==> field(#[trigger] ps[i], "name"@) is Some && field(ps[i], "id"@) is Some
}

/// The fields of the object's related cards.
pub open spec fn object_parts(o: CardObject) -> Seq<PartFields> {
    o.parts@.map_values(|f: JsonFields| part_fields(f))
}

/// What reading a card from a database card object gives, with the other
/// face `back` when it comes from elsewhere: the identifier must be given
/// and be a UUID, the name must be given, the related cards must read as far
/// as they are looked at, and the card must read (`object_readable`); then
/// the card is read with the tokens among its related cards.
pub open spec fn scryfall_outcome(
    o: CardObject,
    back: Option<CardInfo>,
    names: Seq<Seq<char>>,
    r: Result<SubCard, CardError>,
) -> bool {
    match scryfall_error(o) {
        Some(e) => r == Err::<SubCard, CardError>(e),
        None => r matches Ok(c) && scryfall_card(o, back, names, c),
    }
}

/// Why no card reads from a database card object, if none does: the
/// identifier is missing or no UUID; the name is missing; or a related card
/// or the card itself does not read as far as it is looked at.
pub open spec fn scryfall_error(o: CardObject) -> Option<CardError> {
    match field(o.own, "id"@) {
        None => Some(CardError::Id),
        Some(ids) => match uuid_value(ids) {
            None => Some(CardError::Id),
            Some(v) => match field(o.own, "name"@) {
                None => Some(CardError::NoName),
                Some(name) => if !parts_named(o.parts@) || !parts_complete(
                    object_parts(o),
                    Id(v),
                    name,
                ) || !object_readable(o) {
                    Some(CardError::Unreadable)
                } else {
                    None
                },
            },
        },
    }
}

/// Whether `c` is the card read from a database card object that reads:
/// with its identifier, and the tokens among its related cards.
pub open spec fn scryfall_card(o: CardObject, back: Option<CardInfo>, names: Seq<Seq<char>>, c: SubCard) -> bool {
    let id = Id(uuid_value(field(o.own, "id"@)->Some_0)->Some_0);
    card_from_object(id, tokens_of(object_parts(o), id, field(o.own, "name"@)->Some_0), back, o, names, c)
}

/// The related cards of the object, when each has a name and an identifier.
fn related_parts(o: &CardObject) -> (r: Option<Vec<RelatedPart>>)
    ensures
        r is Some <==> parts_named(o.parts@),
        r matches Some(ps) ==> parts_view(ps@) == object_parts(*o),
{
    let mut ps: Vec<RelatedPart> = Vec::new();
    for i in 0..o.parts.len()
        invariant
            ps@.len() == i,
            forall|k: int| 0 <= k < i ==> field(#[trigger] o.parts@[k], "name"@) is Some && field(
                o.parts@[k],
                "id"@,
            ) is Some,
            forall|k: int| 0 <= k < i ==> #[trigger] ps@[k]@ == part_fields(o.parts@[k]),
    {
        let f = &o.parts[i];
        let name = lookup_exec(f, "name");
        let id = lookup_exec(f, "id");
        if name.is_none() || id.is_none() {
            return None;
        }
        let p = RelatedPart {
            name: name.unwrap(),
            id: id.unwrap(),
            type_line: lookup_exec(f, "type_line"),
            component: lookup_exec(f, "component"),
        };
        ps.push(p);
    }
    assert(parts_view(ps@) =~= object_parts(*o));
    Some(ps)
}

/// Whether the related cards read as far as they are looked at.
fn parts_complete_exec(parts: &Vec<RelatedPart>, id: Id, name: &str) -> (r: bool)
    ensures
        r == parts_complete(parts_view(parts@), id, name@),
{
    let ghost ps = parts_view(parts@);
    for i in 0..parts.len()
        invariant
            ps == parts_view(parts@),
            forall|j: int|
                0 <= j < i && part_other(#[trigger] ps[j], id, name@) ==> {
                    &&& ps[j].2 is Some
                    &&& ps[j].2->Some_0 != "Card"@ ==> ps[j].3 is Some
                },
    {
        let p = &parts[i];
        assert(ps[i as int] == p@);
        if let Ok(sid) = Id::from_str(p.id.as_str()) {
            if sid != id && !eq_str(p.name.as_str(), name) {
                match &p.type_line {
                    None => return false,
                    Some(tl) => {
                        if !eq_str(tl.as_str(), "Card") && p.component.is_none() {
                            return false;
                        }
                    },
                }
            }
        }
    }
    true
}

/// Whether every member of an object's "colors" array is a color symbol.
fn colors_readable_exec(f: Option<&JsonFields>) -> (r: bool)
    ensures
        r == colors_readable(deref_fields(f)),
{
    match f {
        None => true,
        Some(h) => {
            let ghost cs = colors_given(deref_fields(f));
            for i in 0..h.colors.len()
                invariant
                    cs == h.colors@,
                    cs == colors_given(deref_fields(f)),
                    forall|k: int|
                        0 <= k < i ==> {
                            ||| is_symbol(#[trigger] cs[k], 'W')
                            ||| is_symbol(cs[k], 'U')
                            ||| is_symbol(cs[k], 'B')
                            ||| is_symbol(cs[k], 'R')
                            ||| is_symbol(cs[k], 'G')
                        },
            {
                match &h.colors[i] {
                    None => {
                        assert(colors_given(deref_fields(f))[i as int] is None);
                        return false;
                    },
                    Some(c) => {
                        let c = c.as_str();
                        proof {
                            reveal_strlit("W");
                            reveal_strlit("U");
                            reveal_strlit("B");
                            reveal_strlit("R");
                            reveal_strlit("G");
                            assert("W"@ =~= seq!['W'] && "U"@ =~= seq!['U'] && "B"@ =~= seq!['B']
                                && "R"@ =~= seq!['R'] && "G"@ =~= seq!['G']);
                        }
                        if !(eq_str(c, "W") || eq_str(c, "U") || eq_str(c, "B") || eq_str(c, "R")
                            || eq_str(c, "G")) {
                            assert(colors_given(deref_fields(f))[i as int] == h.colors@[i as int]);
                            return false;
                        }
                    },
                }
            }
            true
        },
    }
}

/// Whether a card can be read from the object (see `object_readable`).
pub(crate) fn object_readable_exec(o: &CardObject) -> (r: bool)
    ensures
        r == object_readable(*o),
{
    let double = o.faces.len() > 0;
    let front: &JsonFields = if double {
        &o.faces[0]
    } else {
        &o.own
    };
    let second: Option<&JsonFields> = if o.faces.len() > 1 {
        Some(&o.faces[1])
    } else {
        None
    };
    let named = (double && lookup_exec(&o.faces[0], "name").is_some()) || lookup_exec(
        &o.own,
        "name",
    ).is_some();
    let cost = text_exec(Some(front), "mana_cost");
    let alt_cost = text_exec(second, "mana_cost");
    named && Cost::readable(cost.as_str()) && Cost::readable(alt_cost.as_str())
        && colors_readable_exec(Some(front)) && colors_readable_exec(second)
}

/// Reads a card from a card object of the database, with the other face
/// `back` when it comes from elsewhere (a meld result): its identifier
/// ("id") and name must be given, and its tokens are those among its
/// related cards ("all_parts"). Fails as `scryfall_outcome` says.
pub fn card_of_scryfall(o: &CardObject, back: Option<CardInfo>, catalog: &TypeCatalog) -> (r:
    Result<SubCard, CardError>)
    ensures
        scryfall_outcome(*o, back, catalog.view(), r),
{
    let ids = match lookup_exec(&o.own, "id") {
        Some(s) => s,
        None => return Err(CardError::Id),
    };
    let id = match Id::from_str(ids.as_str()) {
        Ok(i) => i,
        Err(_) => return Err(CardError::Id),
    };
    let name = match lookup_exec(&o.own, "name") {
        Some(n) => n,
        None => return Err(CardError::NoName),
    };
    let parts = match related_parts(o) {
        Some(p) => p,
        None => return Err(CardError::Unreadable),
    };
    if !parts_complete_exec(&parts, id, name.as_str()) || !object_readable_exec(o) {
        return Err(CardError::Unreadable);
    }
    let tokens = get_tokens(&parts, id, name.as_str());
    card_of_object(ids.as_str(), tokens, back, o, catalog)
}

/// Reads a card from a text of the card database (a card object in JSON),
/// with the other face `back` when it comes from elsewhere; `NotJson` when
/// the text is no JSON, otherwise as `card_of_scryfall`.
pub fn parse_scryfall(text: &str, back: Option<CardInfo>, catalog: &TypeCatalog) -> (r: Result<
    SubCard,
    CardError,
>)
    ensures
        match card_object_of(text@) {
            None => r == Err::<SubCard, CardError>(CardError::NotJson),
            Some(o) => scryfall_outcome(o, back, catalog.view(), r),
        },
{
    match read_card_object(text) {
        None => Err(CardError::NotJson),
        Some(o) => card_of_scryfall(&o, back, catalog),
    }
}

/// The identifier of the meld result among related cards: the first one
/// whose relation is "meld_result". `Unreadable` when a related card before
/// it (or any, when there is none) gives no relation; `Id` when it gives no
/// identifier.
pub open spec fn meld_of(ps: Seq<JsonFields>) -> Result<Option<Seq<char>>, CardError>
    decreases ps.len(),
{
    if ps.len() == 0 {
        Ok(None)
    } else {
        match field(ps[0], "component"@) {
            None => Err(CardError::Unreadable),
            Some(c) => if c == "meld_result"@ {
                match field(ps[0], "id"@) {
                    Some(id) => Ok(Some(id)),
                    None => Err(CardError::Id),
                }
            } else {
                meld_of(ps.drop_first())
            },
        }
    }
}

/// The text of a found identifier.
pub open spec fn found_view(r: Result<Option<String>, CardError>) -> Result<
    Option<Seq<char>>,
    CardError,
> {
    match r {
        Ok(v) => Ok(opt_view(v)),
        Err(e) => Err(e),
    }
}

/// The identifier of the card's meld result, fetched to be its other face
/// (see `meld_of`).
pub fn meld_result(o: &CardObject) -> (r: Result<Option<String>, CardError>)
    ensures
        found_view(r) == meld_of(o.parts@),
{
    let ghost ps = o.parts@;
    proof {
        assert(ps.subrange(0, ps.len() as int) =~= ps);
    }
    for i in 0..o.parts.len()
        invariant
            ps == o.parts@,
            meld_of(ps) == meld_of(ps.subrange(i as int, ps.len() as int)),
    {
        let ghost rest = ps.subrange(i as int, ps.len() as int);
        proof {
            assert(rest[0] == ps[i as int]);
            assert(rest.drop_first() =~= ps.subrange(i + 1, ps.len() as int));
            reveal_strlit("meld_result");
        }
        let f = &o.parts[i];
        match lookup_exec(f, "component") {
            None => return Err(CardError::Unreadable),
            Some(c) => {
                if eq_str(c.as_str(), "meld_result") {
                    return match lookup_exec(f, "id") {
                        Some(id) => Ok(Some(id)),
                        None => Err(CardError::Id),
                    };
                }
            },
        }
    }
    proof {
        assert(ps.subrange(ps.len() as int, ps.len() as int) =~= Seq::<JsonFields>::empty());
    }
    Ok(None)
}

/// The identifier of the meld result of the card a database text holds;
/// `NotJson` when the text is no JSON, otherwise as `meld_result`.
pub fn meld_result_of(text: &str) -> (r: Result<Option<String>, CardError>)
    ensures
        match card_object_of(text@) {
            None => r == Err::<Option<String>, CardError>(CardError::NotJson),
            Some(o) => found_view(r) == meld_of(o.parts@),
        },
{
    match read_card_object(text) {
        None => Err(CardError::NotJson),
        Some(o) => meld_result(&o),
    }
}

/// Whether a fetched card object is dropped when only tokens are asked
/// for: its layout is given and is not that of a token.
pub open spec fn culled(o: CardObject, tokens_only: bool) -> bool {
    tokens_only && (field(o.own, "layout"@) matches Some(l) && !is_token_layout(l))
}

/// A card read as `card_of_scryfall` does, seen without the option.
pub open spec fn unwrap_found(r: Result<Option<SubCard>, CardError>) -> Result<SubCard, CardError> {
    match r {
        Ok(Some(c)) => Ok(c),
        Ok(None) => Err(CardError::NotJson),
        Err(e) => Err(e),
    }
}

/// Reads a card fetched from the database by identifier: `NotJson` when
/// the text is no JSON; no card when only tokens are asked for and the
/// object's layout is given and not that of a token (see `culled`);
/// otherwise the card as `card_of_scryfall` reads it.
pub fn get_by_id(text: &str, tokens_only: bool, back: Option<CardInfo>, catalog: &TypeCatalog) -> (r:
    Result<Option<SubCard>, CardError>)
    ensures
        match card_object_of(text@) {
            None => r == Err::<Option<SubCard>, CardError>(CardError::NotJson),
            Some(o) => if culled(o, tokens_only) {
                r == Ok::<Option<SubCard>, CardError>(None)
            } else {
                !(r matches Ok(None)) && scryfall_outcome(o, back, catalog.view(), unwrap_found(r))
            },
        },
{
    let o = match read_card_object(text) {
        None => return Err(CardError::NotJson),
        Some(o) => o,
    };
    let layout = lookup_exec(&o.own, "layout");
    let keep = match &layout {
        Some(l) => keeps_fetched(tokens_only, Some(l.as_str())),
        None => keeps_fetched(tokens_only, None),
    };
    if !keep {
        return Ok(None);
    }
    match card_of_scryfall(&o, back, catalog) {
        Ok(c) => Ok(Some(c)),
        Err(e) => Err(e),
    }
}

/// A page of a database search as the library reads it: "total_cards" as
/// a `usize`, each member of "data" written back as JSON text, "has_more"
/// as a boolean and "next_page" as a string, each when it is one.
pub struct PageObject {
    pub total_cards: Option<usize>,
    pub data: Vec<String>,
    pub has_more: Option<bool>,
    pub next_page: Option<String>,
}

/// The search page `json::parse` reads from a text, if the text is JSON.
pub uninterp spec fn page_object_of(text: Seq<char>) -> Option<PageObject>;

/// Reads a search page with `json::parse` and keeps what `PageObject`
/// lists; `None` when the text is no JSON. The result is only named
/// (`page_object_of`).
#[verifier::external_body]
fn read_page_object(text: &str) -> (r: Option<PageObject>)
    ensures
        r == page_object_of(text@),
{
    let v = json::parse(text).ok()?;
    Some(PageObject {
        total_cards: v["total_cards"].as_usize(),
        data: v["data"].members().map(|m| m.dump()).collect(),
        has_more: v["has_more"].as_bool(),
        next_page: v["next_page"].as_str().map(String::from),
    })
}

/// Why no card reads from a database text, if none does: it is no JSON,
/// or as `scryfall_error` says.
pub open spec fn text_error(t: Seq<char>) -> Option<CardError> {
    match card_object_of(t) {
        None => Some(CardError::NotJson),
        Some(o) => scryfall_error(o),
    }
}

/// Whether `cs` are the cards read from the database texts `data` that
/// read, in order.
pub open spec fn page_cards(data: Seq<String>, names: Seq<Seq<char>>, cs: Seq<SubCard>) -> bool
    decreases data.len(),
{
    if data.len() == 0 {
        cs.len() == 0
    } else if text_error(data.last()@) is Some {
        page_cards(data.drop_last(), names, cs)
    } else {
        &&& cs.len() > 0
        &&& scryfall_card(card_object_of(data.last()@)->Some_0, None, names, cs.last())
        &&& page_cards(data.drop_last(), names, cs.drop_last())
    }
}

/// Whether a search page does not read: the first page gives no count of
/// cards, or the page does not say whether more follow, or more follow and
/// it gives no address for them.
pub open spec fn page_fails(p: PageObject, first: bool) -> bool {
    (first && p.total_cards is None) || p.has_more is None || (p.has_more == Some(true)
        && p.next_page is None)
}

/// Reads one page of a database search for a card's printings (`first`
/// for the first page): `NotJson` when it is no JSON; `Unreadable` when it
/// does not read (see `page_fails`); otherwise the cards of its members
/// that read, in order (a member that does not read is left out), and the
/// address of the next page when more follow. The meld results of these
/// cards are not fetched.
pub fn read_prints_page(text: &str, first: bool, catalog: &TypeCatalog) -> (r: Result<
    (Vec<SubCard>, Option<String>),
    CardError,
>)
    ensures
        match page_object_of(text@) {
            None => r == Err::<(Vec<SubCard>, Option<String>), CardError>(CardError::NotJson),
            Some(p) => if page_fails(p, first) {
                r == Err::<(Vec<SubCard>, Option<String>), CardError>(CardError::Unreadable)
            } else {
                r matches Ok((cs, next)) && page_cards(p.data@, catalog.view(), cs@) && opt_view(
                    next,
                ) == (if p.has_more == Some(true) {
                    opt_view(p.next_page)
                } else {
                    None
                })
            },
        },
{
    let p = match read_page_object(text) {
        None => return Err(CardError::NotJson),
        Some(p) => p,
    };
    if (first && p.total_cards.is_none()) || p.has_more.is_none() {
        return Err(CardError::Unreadable);
    }
    let more = p.has_more.unwrap();
    if more && p.next_page.is_none() {
        return Err(CardError::Unreadable);
    }
    let mut cs: Vec<SubCard> = Vec::new();
    for i in 0..p.data.len()
        invariant
            page_cards(p.data@.subrange(0, i as int), catalog.view(), cs@),
    {
        proof {
            let d1 = p.data@.subrange(0, i + 1 as int);
            assert(d1.drop_last() =~= p.data@.subrange(0, i as int));
            assert(d1.last() == p.data@[i as int]);
        }
        match parse_scryfall(p.data[i].as_str(), None, catalog) {
            Ok(c) => {
                let ghost before = cs@;
                cs.push(c);
                assert(cs@.drop_last() =~= before);
            },
            Err(_) => {},
        }
    }
    assert(p.data@.subrange(0, p.data@.len() as int) =~= p.data@);
    let next = if more {
        p.next_page
    } else {
        None
    };
    Ok((cs, next))
}

/// The oracle identifier of the card a database text holds, by which its
/// printings are searched; `NotJson` when the text is no JSON.
pub fn oracle_id_of(text: &str) -> (r: Result<Option<String>, CardError>)
    ensures
        match card_object_of(text@) {
            None => r == Err::<Option<String>, CardError>(CardError::NotJson),
            Some(o) => r matches Ok(id) && opt_view(id) == field(o.own, "oracle_id"@),
        },
{
    match read_card_object(text) {
        None => Err(CardError::NotJson),
        Some(o) => Ok(lookup_exec(&o.own, "oracle_id")),
    }
}

} // verus!

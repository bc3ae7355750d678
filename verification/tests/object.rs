use rmtg::card::{Id, Layout};
use rmtg::object::{
    card_of_object, get_by_id, meld_result_of, parse_scryfall, CardError, CardObject, JsonFields,
};
use rmtg::types::TypeCatalog;

const GOBLIN: &str = "0000579f-7b35-4ed3-b44c-db2a538066fe";
const TOKEN: &str = "11111111-2222-3333-4444-555555555555";

fn catalog() -> TypeCatalog {
    TypeCatalog { names: ["Goblin", "Room", "Elf"].iter().map(|s| s.chars().collect()).collect() }
}

fn goblin_text() -> String {
    format!(
        r#"{{"id":"{GOBLIN}","name":"Goblin Chieftain","layout":"normal","mana_cost":"{{1}}{{R}}{{R}}",
        "type_line":"Creature — Goblin","oracle_text":"Haste","colors":["R"],"power":"2","toughness":"*",
        "all_parts":[{{"id":"{TOKEN}","name":"Goblin","type_line":"Token Creature — Goblin","component":"token"}},
                     {{"id":"{GOBLIN}","name":"Goblin Chieftain","component":"combo_piece"}}]}}"#
    )
}

#[test]
fn reads_a_single_faced_card() {
    let c = parse_scryfall(&goblin_text(), None, &catalog()).unwrap();
    assert_eq!(c.id, Id::from_str(GOBLIN).unwrap());
    assert_eq!(c.tokens, vec![Id::from_str(TOKEN).unwrap()]);
    assert_eq!(c.data.face.name, "Goblin Chieftain");
    assert_eq!(c.data.face.mana_cost.total(), 3);
    assert_eq!(c.data.face.card_type.sub_type.0.len(), 1);
    assert!(c.data.face.color.red && !c.data.face.color.green);
    assert_eq!(c.data.face.power, Some(2));
    assert_eq!(c.data.face.toughness, None);
    assert_eq!(c.data.face.text, "Haste");
    assert!(c.data.back.is_none());
    assert_eq!(c.data.layout, Layout::Normal);
    assert!(!c.flipped);
}

#[test]
fn rooms_take_their_faces() {
    let text = format!(
        r#"{{"id":"{GOBLIN}","name":"Bottomless Pool // Locker Room","layout":"split",
        "card_faces":[{{"name":"Bottomless Pool","mana_cost":"{{U}}","type_line":"Enchantment — Room","colors":["U"]}},
                      {{"name":"Locker Room","mana_cost":"{{4}}{{U}}","type_line":"Enchantment — Room"}}]}}"#
    );
    let c = parse_scryfall(&text, None, &catalog()).unwrap();
    assert_eq!(c.data.layout, Layout::Room);
    assert_eq!(c.data.face.name, "Bottomless Pool");
    assert!(c.data.face.color.blue);
    let back = c.data.back.unwrap();
    assert_eq!(back.name, "Locker Room");
    assert_eq!(back.mana_cost.total(), 5);
    assert!(!back.color.blue);
}

#[test]
fn flip_cards_always_have_a_back() {
    let text = format!(r#"{{"id":"{GOBLIN}","name":"Bushi Tenderfoot","layout":"flip","type_line":"Creature — Human Soldier"}}"#);
    let c = parse_scryfall(&text, None, &catalog()).unwrap();
    assert_eq!(c.data.layout, Layout::Flip);
    assert_eq!(c.data.back.unwrap().name, "");
}

#[test]
fn a_given_back_wins() {
    let meld = parse_scryfall(&goblin_text(), None, &catalog()).unwrap().data.face;
    let text = format!(r#"{{"id":"{GOBLIN}","name":"Bruna","card_faces":[{{"name":"A"}},{{"name":"B"}}]}}"#);
    let c = parse_scryfall(&text, Some(meld), &catalog()).unwrap();
    assert_eq!(c.data.face.name, "A");
    assert_eq!(c.data.back.unwrap().name, "Goblin Chieftain");
}

#[test]
fn errors_of_card_objects() {
    let cat = catalog();
    assert_eq!(parse_scryfall("not json", None, &cat).err(), Some(CardError::NotJson));
    assert_eq!(parse_scryfall(r#"{"name":"x"}"#, None, &cat).err(), Some(CardError::Id));
    assert_eq!(parse_scryfall(r#"{"id":"nope","name":"x"}"#, None, &cat).err(), Some(CardError::Id));
    let no_name = format!(r#"{{"id":"{GOBLIN}"}}"#);
    assert_eq!(parse_scryfall(&no_name, None, &cat).err(), Some(CardError::NoName));
    let bad_color = format!(r#"{{"id":"{GOBLIN}","name":"x","colors":["X"]}}"#);
    assert_eq!(parse_scryfall(&bad_color, None, &cat).err(), Some(CardError::Unreadable));
    let bad_cost = format!(r#"{{"id":"{GOBLIN}","name":"x","mana_cost":"{{Q}}"}}"#);
    assert_eq!(parse_scryfall(&bad_cost, None, &cat).err(), Some(CardError::Unreadable));
    let bad_part = format!(r#"{{"id":"{GOBLIN}","name":"x","all_parts":[{{"id":"{TOKEN}","name":"y"}}]}}"#);
    assert_eq!(parse_scryfall(&bad_part, None, &cat).err(), Some(CardError::Unreadable));
}

#[test]
fn fetching_only_tokens_drops_other_cards() {
    let cat = catalog();
    assert!(get_by_id(&goblin_text(), true, None, &cat).unwrap().is_none());
    assert!(get_by_id(&goblin_text(), false, None, &cat).unwrap().is_some());
    let token = format!(r#"{{"id":"{TOKEN}","name":"Goblin","layout":"token"}}"#);
    assert!(get_by_id(&token, true, None, &cat).unwrap().is_some());
}

#[test]
fn meld_result_is_found_among_parts() {
    let text = format!(
        r#"{{"id":"{GOBLIN}","name":"x","all_parts":[{{"id":"a","name":"x","component":"meld_part"}},
        {{"id":"{TOKEN}","name":"y","component":"meld_result"}}]}}"#
    );
    assert_eq!(meld_result_of(&text), Ok(Some(TOKEN.to_string())));
    assert_eq!(meld_result_of(&goblin_text()), Ok(None));
    assert_eq!(meld_result_of(r#"{"all_parts":[{"id":"a"}]}"#), Err(CardError::Unreadable));
    assert_eq!(meld_result_of("["), Err(CardError::NotJson));
}

fn fields(pairs: &[(&str, &str)]) -> JsonFields {
    JsonFields {
        strings: pairs.iter().map(|(k, v)| (k.to_string(), Some(v.to_string()))).collect(),
        colors: vec![],
    }
}

#[test]
fn card_of_object_reads_the_given_identifier() {
    let o = CardObject { own: fields(&[("name", "Plain"), ("type_line", "Basic Land")]), faces: vec![], parts: vec![] };
    let c = card_of_object(GOBLIN, vec![Id(7)], None, &o, &catalog()).unwrap();
    assert_eq!(c.id, Id::from_str(GOBLIN).unwrap());
    assert_eq!(c.tokens, vec![Id(7)]);
    assert_eq!(c.data.face.name, "Plain");
    assert_eq!(c.data.face.card_type.super_type.0.len(), 1);
    assert!(c.data.back.is_none());
    assert_eq!(card_of_object("zz", vec![], None, &o, &catalog()).err(), Some(CardError::Id));
}

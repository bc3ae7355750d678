use rmtg::card::Id;
use rmtg::deck::{board_cards, read_deck, BoardKind};
use rmtg::object::{oracle_id_of, parse_scryfall, read_prints_page, CardError};
use rmtg::types::TypeCatalog;

const GOBLIN: &str = "0000579f-7b35-4ed3-b44c-db2a538066fe";
const MOUNTAIN: &str = "22222222-3333-4444-5555-666666666666";
const TOKEN: &str = "11111111-2222-3333-4444-555555555555";

fn catalog() -> TypeCatalog {
    TypeCatalog { names: ["Goblin", "Mountain"].iter().map(|s| s.chars().collect()).collect() }
}

fn deck_text() -> String {
    format!(
        r#"{{"boards":{{
        "commanders":{{"cards":{{"a":{{"quantity":1,"card":{{"uniqueCardId":"u1","scryfall_id":"{GOBLIN}","name":"Goblin Chieftain","mana_cost":"{{1}}{{R}}{{R}}","type_line":"Creature — Goblin"}}}}}}}},
        "mainboard":{{"cards":{{
            "b":{{"quantity":3,"card":{{"uniqueCardId":"u2","scryfall_id":"{MOUNTAIN}","name":"Mountain","type_line":"Basic Land — Mountain"}}}},
            "c":{{"quantity":1,"card":{{"uniqueCardId":"u3","scryfall_id":"{TOKEN}","meld_result":{{"id":1}},"name":"Bruna"}}}},
            "d":{{"quantity":1,"card":{{"name":"No Identifier"}}}}}}}}}},
        "cardsToTokens":{{"u1":["t1","t2"]}},
        "tokenMappings":{{"t1":{{"layout":"token","scryfall_id":"{TOKEN}"}},"t2":{{"layout":"normal","scryfall_id":"x"}}}}}}"#
    )
}

#[test]
fn reads_the_boards_of_a_deck() {
    let boards = read_deck(&deck_text(), &catalog()).unwrap();
    assert_eq!(boards.len(), 7);
    assert_eq!(boards[0].kind, BoardKind::Commander);
    assert_eq!(boards[1].kind, BoardKind::Deck);
    assert_eq!(boards[4].kind, BoardKind::CommanderAlt);
    assert_eq!(boards[6].kind, BoardKind::Sticker);
    let chief = &boards[0].cards[0];
    assert_eq!(chief.scryfall_id, GOBLIN);
    assert_eq!(chief.count, 1);
    assert_eq!(chief.tokens, vec![Id::from_str(TOKEN).unwrap()]);
    let card = chief.card.as_ref().unwrap();
    assert_eq!(card.data.face.name, "Goblin Chieftain");
    assert_eq!(card.tokens, chief.tokens);
    assert_eq!(boards[1].cards.len(), 2);
    assert_eq!(boards[1].cards[0].count, 3);
    assert!(!boards[1].cards[0].meld);
    assert!(boards[1].cards[1].meld);
    assert!(boards[1].cards[1].card.is_none());
    assert!(boards[2].cards.is_empty());
}

#[test]
fn deck_errors() {
    assert_eq!(read_deck("{", &catalog()).err(), Some(CardError::NotJson));
    let no_count = r#"{"boards":{"mainboard":{"cards":{"a":{"card":{"uniqueCardId":"u"}}}}}}"#;
    assert_eq!(read_deck(no_count, &catalog()).err(), Some(CardError::Unreadable));
    let bad_id = r#"{"boards":{"mainboard":{"cards":{"a":{"quantity":1,"card":{"uniqueCardId":"u","scryfall_id":"zz","name":"x"}}}}}}"#;
    assert_eq!(read_deck(bad_id, &catalog()).err(), Some(CardError::Id));
    let untokened = r#"{"boards":{"mainboard":{"cards":{"a":{"quantity":1,"card":{"uniqueCardId":"u","scryfall_id":"x","name":"x"}}}}},
        "cardsToTokens":{"u":["t"]},"tokenMappings":{"t":{"layout":"token"}}}"#;
    assert_eq!(read_deck(untokened, &catalog()).err(), Some(CardError::Unreadable));
}

#[test]
fn board_piles_repeat_cards() {
    let boards = read_deck(&deck_text(), &catalog()).unwrap();
    let chief = boards[0].cards[0].card.as_ref().unwrap().clone_no_image();
    let mountain = boards[1].cards[0].card.as_ref().unwrap().clone_no_image();
    let pile = board_cards(&vec![(chief, 1), (mountain, 3)]);
    let names: Vec<&str> = pile.iter().map(|c| c.data.face.name.as_str()).collect();
    assert_eq!(names, vec!["Goblin Chieftain", "Mountain", "Mountain", "Mountain"]);
    assert!(board_cards(&vec![]).is_empty());
}

#[test]
fn reads_printings_pages() {
    let goblin = format!(r#"{{"id":"{GOBLIN}","name":"Goblin Chieftain","oracle_id":"o-1"}}"#);
    let page = format!(r#"{{"total_cards":2,"has_more":true,"next_page":"https://next","data":[{goblin},{{"name":"x"}}]}}"#);
    let (cards, next) = read_prints_page(&page, true, &catalog()).unwrap();
    assert_eq!(cards.len(), 1);
    assert_eq!(cards[0].data.face.name, "Goblin Chieftain");
    assert_eq!(next, Some("https://next".to_string()));
    let last = format!(r#"{{"has_more":false,"data":[{goblin}]}}"#);
    assert_eq!(read_prints_page(&last, false, &catalog()).unwrap().1, None);
    assert_eq!(read_prints_page(&last, true, &catalog()).err(), Some(CardError::Unreadable));
    assert_eq!(read_prints_page("x", true, &catalog()).err(), Some(CardError::NotJson));
    assert_eq!(oracle_id_of(&goblin), Ok(Some("o-1".to_string())));
    assert!(parse_scryfall(&goblin, None, &catalog()).is_ok());
}

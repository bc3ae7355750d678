use rmtg::card::{CardData, CardInfo, Id, IdError, Layout, SubCard};
use rmtg::cost::{ColorIdentity, Cost};
use rmtg::pile::Pile;
use rmtg::scryfall::{
    card_link, card_url, commander_piles, deck_url, get_tokens, keeps_fetched, moxfield_tokens,
    printing_url, prints_url, RelatedPart, TokenMapping,
};
use rmtg::types::{MainTypes, SubTypes, SuperTypes, Types};

const A: &str = "67e55044-10b1-426f-9247-bb680e5fe0c8";
const B: &str = "0aa3c1f2-0000-4000-8000-00000000000b";
const C: &str = "0aa3c1f2-0000-4000-8000-00000000000c";

fn part(name: &str, id: &str, type_line: &str, component: &str) -> RelatedPart {
    RelatedPart {
        name: name.to_string(),
        id: id.to_string(),
        type_line: Some(type_line.to_string()),
        component: Some(component.to_string()),
    }
}

fn card(n: u128) -> SubCard {
    SubCard {
        id: Id(n),
        tokens: vec![],
        data: CardData {
            face: CardInfo {
                name: "c".to_string(),
                mana_cost: Cost::default(),
                card_type: Types {
                    super_type: SuperTypes(vec![]),
                    main_type: MainTypes(vec![]),
                    sub_type: SubTypes(vec![]),
                },
                text: String::new(),
                color: ColorIdentity::default(),
                power: None,
                toughness: None,
                loyalty: None,
            },
            back: None,
            layout: Layout::Normal,
        },
        flipped: false,
    }
}

#[test]
fn id_reads_and_writes_uuids() {
    let id = Id::from_str(A).unwrap();
    assert_eq!(id.0, 0x67e5504410b1426f9247bb680e5fe0c8);
    assert_eq!(id.to_string(), A);
    assert_eq!(Id::from_str(&id.to_string()), Ok(id));
    assert_eq!(Id::from_str("67e5504410b1426f9247bb680e5fe0c8"), Ok(id));
}

#[test]
fn id_refuses_non_uuids() {
    assert_eq!(Id::from_str("not a uuid"), Err(IdError));
    assert_eq!(Id::from_str(""), Err(IdError));
}

#[test]
fn id_writes_leading_zeros() {
    assert_eq!(Id(1).to_string(), "00000000-0000-0000-0000-000000000001");
    assert_eq!(Id(0).to_string(), "00000000-0000-0000-0000-000000000000");
}

#[test]
fn tokens_skip_the_card_itself_its_name_cards_and_melds() {
    let me = Id::from_str(A).unwrap();
    let parts = vec![
        part("Self", A, "Creature", "combo_piece"),
        part("Goblin", B, "Token Creature — Goblin", "token"),
        part("Same Name", C, "Token", "token"),
        part("Other", C, "Card", "combo_piece"),
        part("Meld", C, "Creature", "meld_part"),
        part("Bad", "xyz", "Token", "token"),
    ];
    let got = get_tokens(&parts, me, "Same Name");
    assert_eq!(got, vec![Id::from_str(B).unwrap()]);
}

#[test]
fn tokens_read_only_as_far_as_needed() {
    let me = Id::from_str(A).unwrap();
    let parts = vec![RelatedPart {
        name: "Self".to_string(),
        id: A.to_string(),
        type_line: None,
        component: None,
    }];
    assert!(get_tokens(&parts, me, "x").is_empty());
}

#[test]
fn deck_tokens_by_layout() {
    let maps = vec![
        TokenMapping { layout: Some("token".to_string()), scryfall_id: Some(B.to_string()) },
        TokenMapping { layout: Some("normal".to_string()), scryfall_id: Some(C.to_string()) },
        TokenMapping { layout: None, scryfall_id: None },
        TokenMapping { layout: Some("emblem".to_string()), scryfall_id: Some("bad".to_string()) },
        TokenMapping {
            layout: Some("double_faced_token".to_string()),
            scryfall_id: Some(C.to_string()),
        },
    ];
    assert_eq!(
        moxfield_tokens(&maps),
        vec![Id::from_str(B).unwrap(), Id::from_str(C).unwrap()]
    );
}

#[test]
fn two_commanders_lie_apart() {
    let (alt, main) = commander_piles(vec![card(1), card(2)], true);
    assert!(matches!(alt, Some(Pile::Single(ref c)) if c.subcard.id == Id(2)));
    assert!(matches!(main, Pile::Single(ref c) if c.subcard.id == Id(1)));
    let (alt, main) = commander_piles(vec![card(1), card(2)], false);
    assert!(alt.is_none());
    assert_eq!(main.len(), 2);
    let (alt, main) = commander_piles(vec![card(1)], true);
    assert!(alt.is_none());
    assert!(matches!(main, Pile::Single(_)));
}

#[test]
fn database_addresses() {
    assert_eq!(card_url("abc"), "https://api.scryfall.com/cards/abc");
    assert_eq!(printing_url("mh2", "12"), "https://api.scryfall.com/cards/mh2/12");
    assert_eq!(
        prints_url("o-1"),
        "https://api.scryfall.com/cards/search?order=released&q=oracleid%3Ao-1&unique=prints"
    );
    assert_eq!(deck_url("xyz"), "https://api2.moxfield.com/v3/decks/all/xyz");
    assert_eq!(
        card_link(Id::from_str(A).unwrap()),
        format!("https://scryfall.com/card/{A}")
    );
}

#[test]
fn fetched_cards_kept_unless_tokens_only() {
    assert!(keeps_fetched(false, Some("normal")));
    assert!(!keeps_fetched(true, Some("normal")));
    assert!(keeps_fetched(true, Some("token")));
    assert!(keeps_fetched(true, Some("emblem")));
    assert!(keeps_fetched(true, None));
}

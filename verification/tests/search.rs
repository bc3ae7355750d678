use rmtg::card::{CardData, CardInfo, Id, Layout, SubCard};
use rmtg::cost::{ColorIdentity, Cost};
use rmtg::pile::Pile;
use rmtg::search::{get_key, get_pairs, search_hits, search_text_ok, Order, SearchKey};
use rmtg::types::{TypeCatalog, Types};

fn catalog() -> TypeCatalog {
    TypeCatalog {
        names: ["Goblin", "Elf", "Room"].iter().map(|s| s.chars().collect()).collect(),
    }
}

fn goblin_chief() -> CardInfo {
    CardInfo {
        name: "Goblin Chieftain".to_string(),
        mana_cost: Cost::from("{1}{R}{R}"),
        card_type: Types::from_str("Creature — Goblin", &catalog()),
        text: "Haste. Other Goblins get +1/+1.".to_string(),
        color: ColorIdentity::from_str("r").unwrap(),
        power: Some(2),
        toughness: Some(2),
        loyalty: None,
    }
}

fn bolt() -> CardInfo {
    CardInfo {
        name: "Lightning Bolt".to_string(),
        mana_cost: Cost::from("{R}"),
        card_type: Types::from_str("Instant", &catalog()),
        text: "Deal 3 damage to any target.".to_string(),
        color: ColorIdentity::from_str("r").unwrap(),
        power: None,
        toughness: None,
        loyalty: None,
    }
}

fn sub(n: u128, face: CardInfo, back: Option<CardInfo>) -> SubCard {
    SubCard { id: Id(n), tokens: vec![], data: CardData { face, back, layout: Layout::Normal }, flipped: false }
}

#[test]
fn search_keys_long_and_short() {
    let k: Vec<char> = "cmc".chars().collect();
    assert_eq!(get_key(&k), Some(SearchKey::Cmc));
    let k: Vec<char> = "h".chars().collect();
    assert_eq!(get_key(&k), Some(SearchKey::Toughness));
    let k: Vec<char> = "size".chars().collect();
    assert_eq!(get_key(&k), None);
}

#[test]
fn pairs_of_a_search_text() {
    let t: Vec<char> = "!cmc>=3 n=\"lightning bolt\" elf".chars().collect();
    let ps = get_pairs(&t).unwrap();
    assert_eq!(ps.len(), 3);
    assert!(ps[0].negate);
    assert_eq!(ps[0].key, SearchKey::Cmc);
    assert_eq!(ps[0].value.iter().collect::<String>(), "3");
    assert_eq!(ps[0].order, Order::GreaterEqual);
    assert_eq!(ps[1].key, SearchKey::Name);
    assert_eq!(ps[1].value.iter().collect::<String>(), "lightning bolt");
    assert_eq!(ps[1].order, Order::Equal);
    assert!(!ps[2].negate);
    assert_eq!(ps[2].key, SearchKey::Name);
    assert_eq!(ps[2].value.iter().collect::<String>(), "elf");
}

#[test]
fn plain_words_search_names() {
    assert!(bolt().filter(&catalog(), "bolt"));
    assert!(bolt().filter(&catalog(), "  LIGHTNING  "));
    assert!(!bolt().filter(&catalog(), "goblin"));
}

#[test]
fn cost_and_statistics_compare() {
    let g = goblin_chief();
    assert!(g.filter(&catalog(), "cmc=3"));
    assert!(g.filter(&catalog(), "cmc>=3"));
    assert!(!g.filter(&catalog(), "cmc<3"));
    assert!(g.filter(&catalog(), "p>1 h<=2"));
    assert!(!g.filter(&catalog(), "l=0"));
    assert!(!g.filter(&catalog(), "cmc=x"));
}

#[test]
fn types_compare_as_sets() {
    let g = goblin_chief();
    assert!(g.filter(&catalog(), "t>=creature"));
    assert!(!g.filter(&catalog(), "t=creature"));
    assert!(g.filter(&catalog(), "st=goblin"));
    assert!(g.filter(&catalog(), "t=2"));
    assert!(g.filter(&catalog(), "mt=creature"));
    assert!(!bolt().filter(&catalog(), "mt=creature"));
}

#[test]
fn text_color_and_negation() {
    let g = goblin_chief();
    assert!(g.filter(&catalog(), "o=haste"));
    assert!(!g.filter(&catalog(), "!o=haste"));
    assert!(g.filter(&catalog(), "c=r"));
    assert!(g.filter(&catalog(), "c=1"));
    assert!(g.filter(&catalog(), "c<=rg"));
    assert!(!g.filter(&catalog(), "c=u"));
}

#[test]
fn either_face_may_match() {
    let c = sub(1, bolt(), Some(goblin_chief()));
    assert!(c.filter(&catalog(), "goblin"));
    assert!(c.filter(&catalog(), "bolt"));
    assert!(!c.filter(&catalog(), "dragon"));
}

#[test]
fn search_text_with_bad_quotes_is_refused() {
    assert!(search_text_ok("n=\"bolt\""));
    assert!(search_text_ok("bolt"));
    assert!(!search_text_ok("n=\""));
}

#[test]
fn search_lists_hits_in_pile_order() {
    let pile = Pile::Multiple(vec![
        sub(1, bolt(), None),
        sub(2, goblin_chief(), None),
        sub(3, bolt(), None),
    ]);
    assert_eq!(search_hits(&pile, &catalog(), "bolt", true), vec![0, 2]);
    assert_eq!(search_hits(&pile, &catalog(), "bolt", false), vec![2, 0]);
    assert_eq!(search_hits(&pile, &catalog(), "", false), vec![2, 1, 0]);
}

#[test]
fn huge_mana_value_only_matters_to_cost_terms() {
    let mut big = bolt();
    big.mana_cost.colorless = 200;
    big.mana_cost.red = 100;
    let cat = catalog();
    assert!(big.searchable(&cat, "lightning"));
    assert!(big.filter(&cat, "lightning"));
    assert!(!big.searchable(&cat, "cmc>3"));
    assert!(big.searchable(&cat, "cmc>abc"));
    assert!(big.searchable(&cat, "n=goblin cmc>3"));
    assert!(!big.searchable(&cat, "n=lightning cmc>3"));
    assert!(bolt().searchable(&cat, "cmc>3"));
}

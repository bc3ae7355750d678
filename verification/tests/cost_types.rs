use rmtg::cost::{ColorIdentity, Cost};
use rmtg::types::{MainType, MainTypes, SubType, SubTypes, SuperType, SuperTypes, TypeCatalog, Types};
use std::cmp::Ordering;

fn catalog() -> TypeCatalog {
    TypeCatalog {
        names: ["Goblin", "Elf", "Room", "Time Lord"]
            .iter()
            .map(|s| s.chars().collect())
            .collect(),
    }
}

#[test]
fn cost_counts_symbols() {
    let c = Cost::from("{2}{W}{U/P}{X}");
    assert_eq!(c.any, 2);
    assert_eq!(c.white, 1);
    assert_eq!(c.blue, 1);
    assert_eq!(c.pay, 1);
    assert_eq!(c.var, 1);
    assert_eq!(c.total(), 4);
}

#[test]
fn empty_cost_is_zero() {
    assert_eq!(Cost::from(""), Cost::default());
    assert_eq!(Cost::from("").total(), 0);
}

#[test]
fn cost_total_adds_colors_colorless_and_generic() {
    let c = Cost::from("{10}{C}{B}{R}{G}");
    assert_eq!(c.total(), 14);
}

#[test]
fn colors_from_letters() {
    let c = ColorIdentity::from_str("wub").unwrap();
    assert!(c.white && c.blue && c.black && !c.red && !c.green);
    assert_eq!(c.len(), 3);
    assert!(!c.is_empty());
    assert_eq!(ColorIdentity::from_str("wx"), Err(()));
    assert!(ColorIdentity::from_str("").unwrap().is_empty());
}

#[test]
fn colors_from_symbols() {
    let c = ColorIdentity::parse(&vec!["R".to_string(), "G".to_string()]);
    assert!(c.red && c.green && !c.white);
    assert_eq!(c.len(), 2);
}

#[test]
fn colors_compare_by_inclusion() {
    let wu = ColorIdentity::from_str("wu").unwrap();
    let w = ColorIdentity::from_str("w").unwrap();
    let r = ColorIdentity::from_str("r").unwrap();
    assert_eq!(wu.partial_cmp(&w), Some(Ordering::Greater));
    assert_eq!(w.partial_cmp(&wu), Some(Ordering::Less));
    assert_eq!(w.partial_cmp(&w), Some(Ordering::Equal));
    assert_eq!(w.partial_cmp(&r), None);
}

#[test]
fn type_words_read_whatever_their_case() {
    let w: Vec<char> = "LEGENDARY".chars().collect();
    assert_eq!(SuperType::from_str(&w), Ok(SuperType::Legendary));
    let w: Vec<char> = "creature".chars().collect();
    assert_eq!(MainType::from_str(&w), Ok(MainType::Creature));
    let w: Vec<char> = "Goblin".chars().collect();
    assert_eq!(MainType::from_str(&w), Err(()));
}

#[test]
fn type_line_splits_into_parts() {
    let t = Types::from_str("Legendary Creature — Goblin Elf", &catalog());
    assert_eq!(t.super_type.0, vec![SuperType::Legendary]);
    assert_eq!(t.main_type.0, vec![MainType::Creature]);
    assert_eq!(t.sub_type.0, vec![SubType(0), SubType(1)]);
    assert_eq!(t.len(), 4);
    assert!(!t.is_empty());
    assert!(t.is_permanent());
    assert!(t.sub_type.contains(SubType(1)));
    assert!(!t.sub_type.contains(SubType(2)));
}

#[test]
fn instants_are_not_permanents() {
    let t = Types::from_str("Instant", &catalog());
    assert!(!t.is_permanent());
    let empty = Types::from_str("", &catalog());
    assert!(empty.is_empty());
}

#[test]
fn type_parts_compare_by_inclusion() {
    let cat = catalog();
    let big = Types::from_str("Legendary Creature Goblin", &cat);
    let small = Types::from_str("Creature", &cat);
    assert_eq!(big.partial_cmp(&small), Some(Ordering::Greater));
    assert_eq!(small.partial_cmp(&big), Some(Ordering::Less));
    assert_eq!(small.partial_cmp(&small), Some(Ordering::Equal));
    let other = Types::from_str("Instant", &cat);
    assert_eq!(small.partial_cmp(&other), None);
    assert_eq!(
        SuperTypes::from_str("Snow World").partial_cmp(&SuperTypes::from_str("Snow")),
        Some(Ordering::Greater)
    );
    assert_eq!(
        MainTypes::from_str("Land").partial_cmp(&MainTypes::from_str("Land")),
        Some(Ordering::Equal)
    );
    assert_eq!(
        SubTypes::from_str("Elf", &cat).partial_cmp(&SubTypes::from_str("Goblin", &cat)),
        None
    );
}

#[test]
fn readable_costs() {
    assert!(Cost::readable(""));
    assert!(Cost::readable("{2}{W}{U/P}"));
    assert!(!Cost::readable("{Y}"));
    assert!(!Cost::readable("{200}{100}"));
    assert!(!Cost::readable("W"));
    assert!(!Cost::readable("{256}"));
}

#[test]
fn type_names_read_back() {
    let chars = |s: &str| s.chars().collect::<Vec<char>>();
    for t in [SuperType::Basic, SuperType::Legendary, SuperType::Ongoing, SuperType::Snow, SuperType::World] {
        assert_eq!(SuperType::from_str(&chars(&t.to_string())), Ok(t));
    }
    assert_eq!(SuperType::Legendary.to_string(), "Legendary");
    assert_eq!(SuperType::from_str(&chars("LEGENDARY")), Ok(SuperType::Legendary));
    assert_eq!(SuperType::from_str(&chars("Legend")), Err(()));
    assert_eq!(MainType::PlanesWalker.to_string(), "PlanesWalker");
    assert_eq!(MainType::from_str(&chars("planeswalker")), Ok(MainType::PlanesWalker));
    assert_eq!(MainType::from_str(&chars(&MainType::Kindred.to_string())), Ok(MainType::Kindred));
    let cat = TypeCatalog { names: vec![chars("Goblin"), chars("Room")] };
    assert_eq!(SubType(1).to_string(&cat), "Room");
    assert_eq!(cat.sub_type(&chars(&SubType(1).to_string(&cat))), Ok(SubType(1)));
    assert_eq!(cat.sub_type(&chars("GOBLIN")), Ok(SubType(0)));
}

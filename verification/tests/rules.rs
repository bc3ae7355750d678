use rmtg::rules::{catalog_readable, fix, generate_types, split};
use rmtg::types::SubType;

const RULES: &str = "205.3 Some preamble.\n\
205.3g Artifacts have their own unique set of subtypes; these subtypes are called artifact types. The artifact types are Attraction, Blood, Bobblehead, Clue, and Vehicle.\n\
205.3h Enchantments have their own unique set of subtypes; these subtypes are called enchantment types. The enchantment types are Aura, Background, Cartouche (see rule 303.4), Class, and Room.\n\
205.3i Lands have their own unique set of subtypes; these subtypes are called land types. The land types are Cave, Desert, Forest, Island, and Urza’s. Of that list, Forest and Island are the basic land types.\n\
205.3j Planeswalkers have their own unique set of subtypes; these subtypes are called planeswalker types. The planeswalker types are Ajani, Chandra, and Jace.\n\
205.3k Instants and sorceries share their lists of subtypes; these subtypes are called spell types. The spell types are Adventure, Arcane, Lesson, and Trap.\n\
205.3m Creature types that are two words long: Time Lord. The one-word creature types are: Advisor, Elf, and Goblin.\r\n\
205.3n Planes have their own unique set of subtypes; these subtypes are called planar types. The planar types are Alara, Spacecraft, and Zendikar.\n";

fn names(v: &[Vec<char>]) -> Vec<String> {
    v.iter().map(|n| n.iter().collect()).collect()
}

#[test]
fn fix_drops_hyphens_apostrophes_and_spaces() {
    assert_eq!(fix("Urza’s"), "Urzas");
    assert_eq!(fix("Time Lord"), "TimeLord");
    assert_eq!(fix("Half-Elf"), "HalfElf");
    assert_eq!(fix("Goblin"), "Goblin");
    assert_eq!(fix(""), "");
}

#[test]
fn split_reads_the_list_after_are() {
    assert_eq!(
        split("The artifact types are Attraction, Blood, and Vehicle."),
        vec!["Attraction", "Blood", "Vehicle"]
    );
    assert_eq!(
        split("these are called x. The types are Aura, Cartouche (see rule 303.4), and Room."),
        vec!["Aura", "Cartouche", "Room"]
    );
}

#[test]
fn generate_types_reads_the_catalog() {
    let catalog = generate_types(RULES);
    assert_eq!(
        names(&catalog.names),
        vec![
            "Alara",
            "Zendikar",
            "Adventure",
            "Arcane",
            "Lesson",
            "Trap",
            "Ajani",
            "Chandra",
            "Jace",
            "Cave",
            "Desert",
            "Forest",
            "Island",
            "Urza’s",
            "Aura",
            "Background",
            "Cartouche",
            "Class",
            "Room",
            "Attraction",
            "Blood",
            "Bobblehead",
            "Clue",
            "Vehicle",
            "Advisor",
            "Elf",
            "Goblin",
            "Time Lord",
            "Undercity",
            "Siege",
        ]
    );
}

#[test]
fn catalog_finds_subtypes_whatever_their_case() {
    let catalog = generate_types(RULES);
    let goblin: Vec<char> = "GOBLIN".chars().collect();
    assert_eq!(catalog.sub_type(&goblin), Ok(SubType(26)));
    let none: Vec<char> = "Dragon".chars().collect();
    assert_eq!(catalog.sub_type(&none), Err(()));
}

#[test]
fn readable_rules_texts() {
    assert!(catalog_readable(RULES));
    assert!(!catalog_readable(""));
    let without_m: String = RULES.lines().filter(|l| !l.starts_with("205.3m")).collect::<Vec<_>>().join("\n");
    assert!(!catalog_readable(&without_m));
    let bad_land = RULES.replace(" Of that list", " Of this list");
    assert!(!catalog_readable(&bad_land));
}

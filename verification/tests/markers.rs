use rmtg::markers::{deck_plan, CardSpot, DeckKind, SpotType, TextSource, TextSubmission};
use rmtg::shapes::face_indices;

#[test]
fn card_spot_starts_empty() {
    let s = CardSpot::new(SpotType::Graveyard);
    assert_eq!(s.spot_type, SpotType::Graveyard);
    assert!(s.ent.is_none());
}

#[test]
fn library_clears_its_places_and_lies_face_down() {
    let p = deck_plan(DeckKind::Deck, 60).unwrap();
    assert_eq!(p.cleared, vec![SpotType::Main, SpotType::Exile, SpotType::Graveyard]);
    assert_eq!(p.place, Some(SpotType::Main));
    assert!(p.face_down);
    assert!(p.shuffled);
    assert_eq!(p.apart, None);
}

#[test]
fn commanders_and_partners() {
    let one = deck_plan(DeckKind::Commander, 1).unwrap();
    assert_eq!(one.cleared, vec![SpotType::CommanderMain, SpotType::CommanderAlt]);
    assert_eq!(one.place, Some(SpotType::CommanderMain));
    assert_eq!(one.apart, None);
    let two = deck_plan(DeckKind::Commander, 2).unwrap();
    assert_eq!(two.apart, Some(SpotType::CommanderAlt));
    assert!(!two.face_down && !two.shuffled);
}

#[test]
fn sideboard_tokens_and_placed_decks() {
    let side = deck_plan(DeckKind::SideBoard, 15).unwrap();
    assert!(side.cleared.is_empty());
    assert_eq!(side.place, Some(SpotType::CommanderMain));
    assert!(deck_plan(DeckKind::Token, 3).is_none());
    assert!(deck_plan(DeckKind::Deck, 0).is_none());
    let placed = deck_plan(DeckKind::Placed, 3).unwrap();
    assert_eq!(placed.place, None);
    assert!(placed.cleared.is_empty());
}

#[test]
fn only_chat_text_goes_to_the_chat() {
    let chat = TextSubmission { string: "hi".to_string(), source: TextSource::Chat };
    assert!(chat.is_chat());
    let deck = TextSubmission { string: "name".to_string(), source: TextSource::Moxfield };
    assert!(!deck.is_chat());
}

#[test]
fn cube_faces_cover_each_corner_three_times() {
    let faces = face_indices();
    assert_eq!(faces[0], [0, 1, 2, 5]);
    assert_eq!(faces[5], [7, 5, 4, 1]);
    for v in 0..8u16 {
        assert_eq!(faces.iter().filter(|f| f.contains(&v)).count(), 3);
    }
    for f in faces {
        for a in 0..4 {
            assert!(f[a] < 8);
            for b in 0..4 {
                if a != b {
                    assert_ne!(f[a], f[b]);
                }
            }
        }
    }
}

use rmtg::paste::{classify_paste, paste_ok, Paste};

fn describe(p: Paste) -> String {
    match p {
        Paste::Moxfield(id) => format!("moxfield {id}"),
        Paste::ScryfallId(id) => format!("scryfall {id}"),
        Paste::ScryfallPrinting { set, cn } => format!("printing {set} {cn}"),
        Paste::DeckList(list) => {
            let parts: Vec<String> =
                list.iter().map(|e| format!("{}x{}:{}", e.count, e.set, e.cn)).collect();
            format!("list [{}]", parts.join(", "))
        },
        Paste::Nothing => "nothing".to_string(),
    }
}

#[test]
fn moxfield_deck_address() {
    assert_eq!(
        describe(classify_paste("https://moxfield.com/decks/abcDEF123")),
        "moxfield abcDEF123"
    );
    assert_eq!(
        describe(classify_paste("  https://www.moxfield.com/decks/xyz//  ")),
        "moxfield xyz"
    );
}

#[test]
fn twenty_two_bytes_count_as_moxfield() {
    let p = "ab/cdefghijklmnopqrstu";
    assert_eq!(p.len(), 22);
    assert_eq!(describe(classify_paste(p)), "moxfield cdefghijklmnopqrstu");
}

#[test]
fn scryfall_card_by_identifier() {
    assert_eq!(
        describe(classify_paste("https://scryfall.com/card/0a1b2c3d")),
        "scryfall 0a1b2c3d"
    );
}

#[test]
fn scryfall_card_by_printing() {
    assert_eq!(
        describe(classify_paste("https://scryfall.com/card/mh2/123/some-card-name")),
        "printing mh2 123"
    );
    assert_eq!(
        describe(classify_paste("https://scryfall.com/card/mh2/123/name/")),
        "printing mh2 123"
    );
}

#[test]
fn deck_list_lines() {
    let text = "1 Lightning Bolt (M10) 146\n4 Island (UNF) 236\r\n";
    assert_eq!(describe(classify_paste(text)), "list [1xM10:146, 4xUNF:236]");
}

#[test]
fn deck_list_stops_at_a_bad_line() {
    assert_eq!(describe(classify_paste("1 Bolt (M10) 146\nSideboard\n")), "nothing");
    assert_eq!(describe(classify_paste("2 Bolt\n")), "nothing");
    assert_eq!(describe(classify_paste("x2 Bolt (M10) 1\n")), "nothing");
}

#[test]
fn empty_paste_is_an_empty_list() {
    assert_eq!(describe(classify_paste("   ")), "list []");
}

#[test]
fn huge_count_does_not_read() {
    assert_eq!(describe(classify_paste("99999999999999999999999 Bolt (M10) 1")), "nothing");
}

#[test]
fn readable_pastes() {
    assert!(paste_ok("https://moxfield.com/decks/abc"));
    assert!(!paste_ok("abcdefghijklmnopqrstuv"));
    assert!(paste_ok("https://scryfall.com/card/x"));
    assert!(paste_ok("1 Bolt (M10) 146"));
    assert!(!paste_ok("1 Bolt X 146"));
    assert!(!paste_ok("1 Bolt (M10 É) 146"));
    assert!(paste_ok("1 Bolt (M10) 146\nnot a line\n1 Bolt X 1"));
    assert!(!paste_ok("1 Bolt (M10) 146\n2 Bolt X 1\nnot a line"));
}

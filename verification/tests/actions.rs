use rmtg::actions::{pile_action, PileAction, PileContext, PileInput};

fn idle() -> PileInput {
    PileInput {
        f_just: false,
        r_just: false,
        backspace_just: false,
        backspace_held: false,
        delete_just: false,
        c_just: false,
        e_just: false,
        s_just: false,
        q_just: false,
        o_just: false,
        t_just: false,
        z_just: false,
        digit_just: None,
        left_click_just: false,
        ctrl: false,
        shift: false,
        alt: false,
    }
}

fn table(len: usize) -> PileContext {
    PileContext {
        len,
        reversed: false,
        zoom_open: false,
        zoom_on_this: false,
        has_parent: false,
        in_other_hand: false,
        menu_takes_click: false,
    }
}

#[test]
fn nothing_pressed_does_nothing() {
    assert_eq!(pile_action(idle(), table(3)), PileAction::Nothing);
}

#[test]
fn flip_wins_over_everything() {
    let i = PileInput { f_just: true, r_just: true, z_just: true, ..idle() };
    assert_eq!(pile_action(i, table(3)), PileAction::Flip);
}

#[test]
fn shuffle_needs_two_cards() {
    let i = PileInput { r_just: true, ..idle() };
    assert_eq!(pile_action(i, table(2)), PileAction::Shuffle);
    assert_eq!(pile_action(i, table(1)), PileAction::Nothing);
}

#[test]
fn delete_by_chord_or_key() {
    let chord = PileInput { backspace_just: true, ctrl: true, alt: true, ..idle() };
    assert_eq!(pile_action(chord, table(1)), PileAction::Delete);
    let held = PileInput { backspace_held: true, shift: true, ctrl: true, alt: true, ..idle() };
    assert_eq!(pile_action(held, table(1)), PileAction::Delete);
    let plain = PileInput { backspace_just: true, ..idle() };
    assert_eq!(pile_action(plain, table(1)), PileAction::Nothing);
    let del = PileInput { delete_just: true, ..idle() };
    assert_eq!(pile_action(del, table(1)), PileAction::Delete);
}

#[test]
fn copy_pile_or_link() {
    let pile = PileInput { c_just: true, ctrl: true, shift: true, ..idle() };
    assert_eq!(pile_action(pile, table(1)), PileAction::CopyPile);
    let link = PileInput { c_just: true, ctrl: true, ..idle() };
    assert_eq!(pile_action(link, table(1)), PileAction::CopyLink);
    let down = PileContext { reversed: true, ..table(1) };
    assert_eq!(pile_action(link, down), PileAction::Nothing);
}

#[test]
fn click_draws_or_picks_up() {
    let click = PileInput { left_click_just: true, ..idle() };
    assert_eq!(pile_action(click, table(3)), PileAction::PickUp);
    let ctrl = PileInput { left_click_just: true, ctrl: true, ..idle() };
    assert_eq!(pile_action(ctrl, table(3)), PileAction::DrawOne);
    assert_eq!(pile_action(ctrl, table(1)), PileAction::PickUp);
    let menu = PileContext { menu_takes_click: true, ..table(3) };
    assert_eq!(pile_action(click, menu), PileAction::Nothing);
}

#[test]
fn e_equips_or_turns() {
    let equip = PileInput { e_just: true, ctrl: true, ..idle() };
    assert_eq!(pile_action(equip, table(2)), PileAction::Equip);
    let turn = PileInput { e_just: true, ..idle() };
    assert_eq!(pile_action(turn, table(2)), PileAction::RotateRight);
    let zoom = PileContext { zoom_open: true, ..table(2) };
    assert_eq!(pile_action(turn, zoom), PileAction::Nothing);
}

#[test]
fn spread_turn_left_and_requests() {
    let spread = PileInput { s_just: true, ctrl: true, alt: true, ..idle() };
    assert_eq!(pile_action(spread, table(2)), PileAction::Spread);
    assert_eq!(pile_action(spread, table(1)), PileAction::Nothing);
    let q = PileInput { q_just: true, ..idle() };
    assert_eq!(pile_action(q, table(1)), PileAction::RotateLeft);
    let prints = PileInput { o_just: true, ctrl: true, shift: true, ..idle() };
    assert_eq!(pile_action(prints, table(1)), PileAction::RequestPrintings);
    let tokens = PileInput { t_just: true, ctrl: true, shift: true, ..idle() };
    assert_eq!(pile_action(tokens, table(1)), PileAction::RequestTokens);
    let over = PileInput { o_just: true, ..idle() };
    assert_eq!(pile_action(over, table(1)), PileAction::TurnOver);
    let shown = PileContext { zoom_open: true, zoom_on_this: true, ..table(1) };
    assert_eq!(pile_action(over, shown), PileAction::Nothing);
}

#[test]
fn digits_draw_into_the_hand() {
    let three = PileInput { digit_just: Some(3), ..idle() };
    assert_eq!(pile_action(three, table(5)), PileAction::DrawToHand(3));
    assert_eq!(pile_action(three, table(2)), PileAction::DrawToHand(2));
    let held = PileContext { has_parent: true, ..table(5) };
    assert_eq!(pile_action(three, held), PileAction::Nothing);
    let z = PileInput { z_just: true, ..idle() };
    assert_eq!(pile_action(z, table(5)), PileAction::Search);
}

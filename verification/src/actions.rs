use vstd::prelude::*;

verus! {

/// The keys and buttons that matter for acting on the pile under the
/// pointer: which were pressed this frame (`*_just`), and which are held.
#[derive(Clone, Copy, PartialEq, Eq, Structural, Debug)]
pub struct PileInput {
    pub f_just: bool,
    pub r_just: bool,
    pub backspace_just: bool,
    pub backspace_held: bool,
    pub delete_just: bool,
    pub c_just: bool,
    pub e_just: bool,
    pub s_just: bool,
    pub q_just: bool,
    pub o_just: bool,
    pub t_just: bool,
    pub z_just: bool,
    /// The highest of the digits `1` to `9` pressed this frame, if any.
    pub digit_just: Option<u8>,
    pub left_click_just: bool,
    pub ctrl: bool,
    pub shift: bool,
    pub alt: bool,
}

/// What matters about the pile under the pointer and the screen around it.
#[derive(Clone, Copy, PartialEq, Eq, Structural, Debug)]
pub struct PileContext {
    /// How many positions the pile has.
    pub len: usize,
    /// Whether the pile lies face down.
    pub reversed: bool,
    /// Whether a card is shown enlarged.
    pub zoom_open: bool,
    /// Whether the card shown enlarged is this pile's.
    pub zoom_on_this: bool,
    /// Whether the pile is held by something (a hand).
    pub has_parent: bool,
    /// Whether the pile is in another player's hand.
    pub in_other_hand: bool,
    /// Whether an open menu takes the click.
    pub menu_takes_click: bool,
}

/// What a player does to the pile under the pointer.
#[derive(Clone, Copy, PartialEq, Eq, Structural, Debug)]
pub enum PileAction {
    /// Turn the pile over.
    Flip,
    /// Shuffle the stack.
    Shuffle,
    /// Remove the pile from the table.
    Delete,
    /// Copy the whole pile to the game clipboard.
    CopyPile,
    /// Copy the address of the shown card.
    CopyLink,
    /// Draw one card off the pile into the air.
    DrawOne,
    /// Pick the pile up to carry it.
    PickUp,
    /// Equip the stack, or take a lone card's equipment off.
    Equip,
    /// Turn the pile a quarter to the right.
    RotateRight,
    /// Lay all cards of the stack out one by one.
    Spread,
    /// Turn the pile a quarter to the left.
    RotateLeft,
    /// Fetch the other printings of the shown card.
    RequestPrintings,
    /// Fetch the tokens of the shown card.
    RequestTokens,
    /// Show the other face of the shown card.
    TurnOver,
    /// Draw this many cards into the hand.
    DrawToHand(usize),
    /// Open the search of the pile.
    Search,
    /// Nothing.
    Nothing,
}

/// What the keys and buttons ask of the pile: the first of these that was
/// pressed decides, and some then need more (a longer stack, a face-up
/// pile, no enlarged card): turn over (F); shuffle (R); delete
/// (Ctrl+Alt+Backspace, or Delete); copy (Ctrl+C, Shift for the pile);
/// click (draw one with Ctrl from a stack, otherwise pick up); E (equip with
/// Ctrl, otherwise turn right); spread (Ctrl+Alt+S); turn left (Q);
/// printings (Ctrl+Shift+O); tokens (Ctrl+Shift+T); other face (O); a digit
/// draws that many into the hand; search (Z).
pub open spec fn action_for(i: PileInput, c: PileContext) -> PileAction {
    if i.f_just {
        PileAction::Flip
    } else if i.r_just {
        if c.len > 1 {
            PileAction::Shuffle
        } else {
            PileAction::Nothing
        }
    } else if ((i.backspace_just || (i.backspace_held && i.shift)) && i.ctrl && i.alt)
        || i.delete_just {
        PileAction::Delete
    } else if i.c_just && i.ctrl {
        if i.shift {
            PileAction::CopyPile
        } else if !c.reversed {
            PileAction::CopyLink
        } else {
            PileAction::Nothing
        }
    } else if i.left_click_just {
        if c.menu_takes_click {
            PileAction::Nothing
        } else if i.ctrl && c.len > 1 {
            PileAction::DrawOne
        } else {
            PileAction::PickUp
        }
    } else if i.e_just {
        if i.ctrl {
            if !c.reversed {
                PileAction::Equip
            } else {
                PileAction::Nothing
            }
        } else if !c.zoom_open {
            PileAction::RotateRight
        } else {
            PileAction::Nothing
        }
    } else if i.s_just && i.ctrl && i.alt && c.len > 1 {
        PileAction::Spread
    } else if i.q_just && !c.zoom_open {
        PileAction::RotateLeft
    } else if i.o_just && i.ctrl && i.shift && !c.reversed {
        PileAction::RequestPrintings
    } else if i.t_just && i.ctrl && i.shift && !c.reversed {
        PileAction::RequestTokens
    } else if i.o_just && !c.reversed && (!c.zoom_open || !c.zoom_on_this) {
        PileAction::TurnOver
    } else if i.digit_just is Some {
        if !c.has_parent && !c.in_other_hand {
            let n = i.digit_just->Some_0 as usize;
            PileAction::DrawToHand(
                if n < c.len {
                    n
                } else {
                    c.len
                },
            )
        } else {
            PileAction::Nothing
        }
    } else if i.z_just {
        PileAction::Search
    } else {
        PileAction::Nothing
    }
}

/// Decides what the keys and buttons ask of the pile under the pointer
/// (see `action_for`).
pub fn pile_action(i: PileInput, c: PileContext) -> (r: PileAction)
    ensures
        r == action_for(i, c),
{
    if i.f_just {
        PileAction::Flip
    } else if i.r_just {
        if c.len > 1 {
            PileAction::Shuffle
        } else {
            PileAction::Nothing
        }
    } else if ((i.backspace_just || (i.backspace_held && i.shift)) && i.ctrl && i.alt)
        || i.delete_just {
        PileAction::Delete
    } else if i.c_just && i.ctrl {
        if i.shift {
            PileAction::CopyPile
        } else if !c.reversed {
            PileAction::CopyLink
        } else {
            PileAction::Nothing
        }
    } else if i.left_click_just {
        if c.menu_takes_click {
            PileAction::Nothing
        } else if i.ctrl && c.len > 1 {
            PileAction::DrawOne
        } else {
            PileAction::PickUp
        }
    } else if i.e_just {
        if i.ctrl {
            if !c.reversed {
                PileAction::Equip
            } else {
                PileAction::Nothing
            }
        } else if !c.zoom_open {
            PileAction::RotateRight
        } else {
            PileAction::Nothing
        }
    } else if i.s_just && i.ctrl && i.alt && c.len > 1 {
        PileAction::Spread
    } else if i.q_just && !c.zoom_open {
        PileAction::RotateLeft
    } else if i.o_just && i.ctrl && i.shift && !c.reversed {
        PileAction::RequestPrintings
    } else if i.t_just && i.ctrl && i.shift && !c.reversed {
        PileAction::RequestTokens
    } else if i.o_just && !c.reversed && (!c.zoom_open || !c.zoom_on_this) {
        PileAction::TurnOver
    } else if let Some(d) = i.digit_just {
        if !c.has_parent && !c.in_other_hand {
            let n = d as usize;
            PileAction::DrawToHand(
                if n < c.len {
                    n
                } else {
                    c.len
                },
            )
        } else {
            PileAction::Nothing
        }
    } else if i.z_just {
        PileAction::Search
    } else {
        PileAction::Nothing
    }
}

/// A draw into the hand never asks for more cards than the pile has, nor
/// for more than nine.
pub proof fn law_draw_to_hand_bounded(i: PileInput, c: PileContext, n: usize)
    requires
        i.digit_just matches Some(d) ==> 1 <= d <= 9,
        action_for(i, c) == PileAction::DrawToHand(n),
    ensures
        n <= c.len,
        n <= 9,
{
}

/// No input draws from a pile that lies in another player's hand, nor from
/// a pile that lies on another pile.
pub proof fn law_no_draw_from_others(i: PileInput, c: PileContext)
    requires
        c.in_other_hand || c.has_parent,
    ensures
        !(action_for(i, c) is DrawToHand),
{
}

} // verus!

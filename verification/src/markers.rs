use vstd::prelude::*;

use bevy::ecs::entity::Entity;

verus! {

#[verifier::external_type_specification]
#[verifier::external_body]
pub struct ExEntity(Entity);

/// The table's floor.
pub struct Floor;

/// One of the table's walls.
pub struct Wall;

/// The table's ceiling.
pub struct Ceiling;

/// The seat a mat or a card spot belongs to.
#[derive(Clone, Copy, PartialEq, Eq, Structural, Debug)]
pub struct Player(pub usize);

/// The escape menu.
pub struct EscMenu;

/// The button that quits.
pub struct Exit;

/// The chat window.
pub struct TextMenu;

/// The chat's message list.
pub struct TextChat;

/// The chat's input line.
pub struct TextInput;

/// The side menu.
pub struct SideMenu;

/// A card held in the side menu.
pub struct SideHold;

/// An entry of the side menu, by position.
pub struct SideMenuEntry {
    pub entry: usize,
}

/// The panel showing the player's online account.
pub struct SteamInfo;

/// Asks to close the menu of alternative printings.
pub struct RemoveAltMenu;

/// Asks to close the right-click menu.
pub struct RemoveRightClickMenu;

/// Asks to fill the right-click menu.
pub struct AddMenus;

/// Checks, once filled, whether the right-click menu holds anything.
pub struct Intermediary;

/// Copy the connection identifier once the connection is up.
pub struct CopyOnSpawn;

/// The player whose decks were searched for last.
pub struct SearchedPlayer {
    pub name: String,
}

/// The deck search menu.
pub struct MoxfieldMenu;

/// A deck of the deck search results, by position.
pub struct DeckNumber {
    pub number: usize,
}

/// The slider over saved states.
pub struct SaveStateSliderMenu;

/// The counter of background tasks.
pub struct TasksCounter;

/// The text of the counter of background tasks.
pub struct TasksCounterText;

/// Where a submitted text was typed.
#[derive(Clone, Copy, PartialEq, Eq, Structural, Debug)]
pub enum TextSource {
    Chat,
    Moxfield,
}

/// A text submitted from a text box.
pub struct TextSubmission {
    pub string: String,
    pub source: TextSource,
}

impl TextSubmission {
    /// Whether the text goes to the chat: only what was typed in the chat.
    pub fn is_chat(&self) -> (r: bool)
        ensures
            r == (self.source == TextSource::Chat),
    {
        match self.source {
            TextSource::Chat => true,
            TextSource::Moxfield => false,
        }
    }
}

/// An image as stored: its pixels, how many mipmap levels they hold, and
/// its size.
pub struct ImageData {
    pub data: Vec<u8>,
    pub mip: u32,
    pub width: u32,
    pub height: u32,
}

/// A card equipped to a lone card, shown beside it.
pub struct Equipment;

/// A pile in another player's hand.
pub struct InOtherHand;

/// A pile just taken out of the hand, not to be gathered back at once.
pub struct HandIgnore;

/// A pile that does not collide with others until it falls.
pub struct TempDisable;

/// The card of a searched pile shown at a position of the search.
pub struct TargetCard(pub usize);

/// The pile the side menu searches.
pub struct SearchDeck(pub Entity);

/// The piles to lift above whatever they landed in.
pub struct ToMoveUp(pub Vec<Entity>);

/// A kind of place on a player's mat.
#[derive(Clone, Copy, PartialEq, Eq, Structural, Debug)]
pub enum SpotType {
    CommanderMain,
    CommanderAlt,
    Exile,
    Main,
    Graveyard,
}

/// A place on a player's mat, and the pile lying on it, if any.
pub struct CardSpot {
    pub spot_type: SpotType,
    pub ent: Option<Entity>,
}

impl CardSpot {
    /// An empty place of the given kind.
    pub fn new(spot_type: SpotType) -> (r: CardSpot)
        ensures
            r.spot_type == spot_type,
            r.ent is None,
    {
        CardSpot { spot_type, ent: None }
    }
}

/// Where a deck that arrived goes on the player's mat.
#[derive(Clone, Copy, PartialEq, Eq, Structural, Debug)]
pub enum DeckKind {
    /// A library: it clears the main, exile and graveyard places, is
    /// shuffled and lies face down on the main place.
    Deck,
    /// Commanders: they clear both commander places and lie on the first;
    /// with two, the second lies on the other place.
    Commander,
    /// A sideboard: it lies on the first commander place, clearing nothing.
    SideBoard,
    /// Tokens: they are not laid out.
    Token,
    /// A deck laid where it was asked for.
    Placed,
}

/// How a deck that arrived is laid out: which places it clears first, in
/// order; on which place it lies, if on one; whether it lies face down and
/// is shuffled; and on which place its second card lies apart, if it does.
pub struct DeckPlan {
    pub cleared: Vec<SpotType>,
    pub place: Option<SpotType>,
    pub face_down: bool,
    pub shuffled: bool,
    pub apart: Option<SpotType>,
}

/// How a deck of `len` cards of kind `kind` is laid out; `None` for tokens
/// and for an empty deck, which is skipped.
pub fn deck_plan(kind: DeckKind, len: usize) -> (r: Option<DeckPlan>)
    ensures
        (kind == DeckKind::Token || len == 0) <==> r is None,
        kind == DeckKind::Deck && len > 0 ==> (r matches Some(p) && p.cleared@ == seq![
            SpotType::Main,
            SpotType::Exile,
            SpotType::Graveyard,
        ] && p.place == Some(SpotType::Main) && p.face_down && p.shuffled && p.apart is None),
        kind == DeckKind::Commander && len > 0 ==> (r matches Some(p) && p.cleared@ == seq![
            SpotType::CommanderMain,
            SpotType::CommanderAlt,
        ] && p.place == Some(SpotType::CommanderMain) && !p.face_down && !p.shuffled && p.apart
            == (if len == 2 {
            Some(SpotType::CommanderAlt)
        } else {
            None
        })),
        kind == DeckKind::SideBoard && len > 0 ==> (r matches Some(p) && p.cleared@.len() == 0 && p.place
            == Some(SpotType::CommanderMain) && !p.face_down && !p.shuffled && p.apart is None),
        kind == DeckKind::Placed && len > 0 ==> (r matches Some(p) && p.cleared@.len() == 0 && p.place is None
            && !p.face_down && !p.shuffled && p.apart is None),
{
    if len == 0 {
        return None;
    }
    match kind {
        DeckKind::Deck => {
            let mut cleared = Vec::new();
            cleared.push(SpotType::Main);
            cleared.push(SpotType::Exile);
            cleared.push(SpotType::Graveyard);
            assert(cleared@ =~= seq![SpotType::Main, SpotType::Exile, SpotType::Graveyard]);
            Some(
                DeckPlan {
                    cleared,
                    place: Some(SpotType::Main),
                    face_down: true,
                    shuffled: true,
                    apart: None,
                },
            )
        },
        DeckKind::Commander => {
            let mut cleared = Vec::new();
            cleared.push(SpotType::CommanderMain);
            cleared.push(SpotType::CommanderAlt);
            assert(cleared@ =~= seq![SpotType::CommanderMain, SpotType::CommanderAlt]);
            Some(
                DeckPlan {
                    cleared,
                    place: Some(SpotType::CommanderMain),
                    face_down: false,
                    shuffled: false,
                    apart: if len == 2 {
                        Some(SpotType::CommanderAlt)
                    } else {
                        None
                    },
                },
            )
        },
        DeckKind::SideBoard => Some(
            DeckPlan {
                cleared: Vec::new(),
                place: Some(SpotType::CommanderMain),
                face_down: false,
                shuffled: false,
                apart: None,
            },
        ),
        DeckKind::Token => None,
        DeckKind::Placed => Some(
            DeckPlan {
                cleared: Vec::new(),
                place: None,
                face_down: false,
                shuffled: false,
                apart: None,
            },
        ),
    }
}

} // verus!

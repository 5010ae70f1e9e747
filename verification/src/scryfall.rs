//! Card details from the Scryfall service: which card to ask for, what card
//! an answer describes, and what to show when there is no answer.

use vstd::prelude::*;
use crate::card::{card_type_from_type_line, card_type_of, Card, CardType, CardView};
use crate::text::{decimal_string, decimal_text};

verus! {

/// The front face of a listing with two faces.
#[derive(Debug)]
pub struct ListingFace {
    pub name: Option<String>,
    pub type_line: Option<String>,
}

/// What the service answered for a card, as far as display needs it.
/// `front_face` is the first of the listed faces, if faces are listed.
#[derive(Debug)]
pub struct Listing {
    pub mana_value: i16,
    pub layout: Option<String>,
    pub name: Option<String>,
    pub type_line: Option<String>,
    pub front_face: Option<ListingFace>,
}

/// What is known of a card when its details are asked for.
#[derive(Debug)]
pub enum Knowledge {
    /// The local cache had the card.
    Cached(Card),
    /// The cache did not have it and the service delivered it.
    Fetched(Card),
    /// Neither had it.
    Unavailable,
}

/// The mathematical content of a [`ListingFace`].
pub struct ListingFaceView {
    pub name: Option<Seq<char>>,
    pub type_line: Option<Seq<char>>,
}

/// The mathematical content of a [`Listing`].
pub struct ListingView {
    pub mana_value: i16,
    pub layout: Option<Seq<char>>,
    pub name: Option<Seq<char>>,
    pub type_line: Option<Seq<char>>,
    pub front_face: Option<ListingFaceView>,
}

/// The text of an optional string, or `fallback` where there is none.
pub open spec fn text_or(text: Option<String>, fallback: Seq<char>) -> Seq<char> {
    match text {
        Some(t) => t@,
        None => fallback,
    }
}

/// The text of an optional text, or `fallback` where there is none.
pub open spec fn seq_or(text: Option<Seq<char>>, fallback: Seq<char>) -> Seq<char> {
    match text {
        Some(t) => t,
        None => fallback,
    }
}

/// The text of an optional string.
pub open spec fn maybe_text(text: Option<String>) -> Option<Seq<char>> {
    match text {
        Some(t) => Some(t@),
        None => None,
    }
}

impl View for ListingFace {
    type V = ListingFaceView;

    open spec fn view(&self) -> ListingFaceView {
        ListingFaceView { name: maybe_text(self.name), type_line: maybe_text(self.type_line) }
    }
}

impl View for Listing {
    type V = ListingView;

    open spec fn view(&self) -> ListingView {
        ListingView {
            mana_value: self.mana_value,
            layout: maybe_text(self.layout),
            name: maybe_text(self.name),
            type_line: maybe_text(self.type_line),
            front_face: match self.front_face {
                Some(face) => Some(face@),
                None => None,
            },
        }
    }
}

/// The card id under which the service knows a basic land.
pub open spec fn basic_land_of(name: Seq<char>) -> Option<i32> {
    if name == "Plains"@ {
        Some(90789i32)
    } else if name == "Island"@ {
        Some(90791i32)
    } else if name == "Swamp"@ {
        Some(90793i32)
    } else if name == "Mountain"@ {
        Some(90795i32)
    } else if name == "Forest"@ {
        Some(90797i32)
    } else {
        None
    }
}

/// The card id to ask the service for: that of the basic land where the
/// card's name is the name of one, and the card's own id otherwise.
pub open spec fn lookup_id_of(card_id: i32, pretty_name: Option<Seq<char>>) -> i32 {
    match pretty_name {
        Some(name) => match basic_land_of(name) {
            Some(basic) => basic,
            None => card_id,
        },
        None => card_id,
    }
}

/// The layout is one of those whose cards are named by their front face.
pub open spec fn named_by_front_face(layout: Seq<char>) -> bool {
    layout == "transform"@ || layout == "modal_dfc"@
}

/// The card that a listing describes: in one copy, without a picture, named
/// `card_id` in decimal where the listing has no name, and with name and
/// kind of the front face where the layout asks for it and faces are
/// listed.
pub open spec fn card_of_listing(card_id: i32, listing: ListingView) -> CardView {
    let id_text = decimal_text(card_id as int);
    let by_face = named_by_front_face(seq_or(listing.layout, Seq::empty()))
        && listing.front_face is Some;
    let name = if by_face {
        seq_or(listing.front_face->0.name, id_text)
    } else {
        seq_or(listing.name, id_text)
    };
    let type_line = if by_face {
        seq_or(listing.front_face->0.type_line, Seq::empty())
    } else {
        seq_or(listing.type_line, Seq::empty())
    };
    CardView {
        name,
        card_type: card_type_of(type_line),
        mana_value: listing.mana_value,
        quantity: 1,
        image_uri: Seq::empty(),
    }
}

/// The card shown where nothing is known of `card_id`: one copy of a card
/// of unknown kind, named by the id.
pub open spec fn placeholder_of(card_id: i32) -> CardView {
    CardView {
        name: decimal_text(card_id as int),
        card_type: CardType::Unknown,
        mana_value: 0,
        quantity: 1,
        image_uri: Seq::empty(),
    }
}

/// The view of the card that a state of knowledge yields for `card_id`.
pub open spec fn known_card(card_id: i32, knowledge: Knowledge) -> CardView {
    match knowledge {
        Knowledge::Cached(card) => card@,
        Knowledge::Fetched(card) => card@,
        Knowledge::Unavailable => placeholder_of(card_id),
    }
}

/// The card id under which the service knows the basic land of that name.
pub fn basic_land_id(name: &str) -> (card_id: Option<i32>)
    ensures
        card_id == basic_land_of(name@),
{
    let name = name.to_owned();
    if name == "Plains".to_owned() {
        Some(90789)
    } else if name == "Island".to_owned() {
        Some(90791)
    } else if name == "Swamp".to_owned() {
        Some(90793)
    } else if name == "Mountain".to_owned() {
        Some(90795)
    } else if name == "Forest".to_owned() {
        Some(90797)
    } else {
        None
    }
}

/// The card id to ask the service for, given the card's name where the
/// card database has one.
pub fn lookup_id(card_id: i32, pretty_name: Option<&str>) -> (asked: i32)
    ensures
        asked == lookup_id_of(
            card_id,
            match pretty_name {
                Some(name) => Some(name@),
                None => None,
            },
        ),
{
    match pretty_name {
        Some(name) => match basic_land_id(name) {
            Some(basic) => basic,
            None => card_id,
        },
        None => card_id,
    }
}

/// A copy of the text, or `fallback` where there is none.
fn owned_or(text: &Option<String>, fallback: &str) -> (chosen: String)
    ensures
        chosen@ == text_or(*text, fallback@),
{
    match text {
        Some(t) => t.clone(),
        None => fallback.to_owned(),
    }
}

/// The card that the service's answer describes.
pub fn card_from_listing(card_id: i32, listing: &Listing) -> (card: Card)
    ensures
        card@ == card_of_listing(card_id, listing@),
{
    let id_text = decimal_string(card_id);
    let layout = owned_or(&listing.layout, "");
    proof {
        reveal_strlit("");
        assert(""@ =~= Seq::<char>::empty());
    }
    let by_face = layout == "transform".to_owned() || layout == "modal_dfc".to_owned();
    let mut name = owned_or(&listing.name, id_text.as_str());
    let mut type_line = owned_or(&listing.type_line, "");
    if by_face {
        match &listing.front_face {
            Some(face) => {
                name = owned_or(&face.name, id_text.as_str());
                type_line = owned_or(&face.type_line, "");
            },
            None => {},
        }
    }
    Card::with_details(
        name,
        card_type_from_type_line(type_line.as_str()),
        listing.mana_value,
        1,
        String::new(),
    )
}

/// The card to show for `card_id`, and whether it is to be put in the
/// cache: the cached card where there is one, else the fetched card, which
/// is then cached, else a placeholder named by the id, which is not.
pub fn card_info(card_id: i32, knowledge: Knowledge) -> (shown: (Card, bool))
    ensures
        shown.0@ == known_card(card_id, knowledge),
        shown.1 == (knowledge is Fetched),
{
    match knowledge {
        Knowledge::Cached(card) => (card, false),
        Knowledge::Fetched(card) => (card, true),
        Knowledge::Unavailable => (
            Card::with_details(
                decimal_string(card_id),
                CardType::Unknown,
                0,
                1,
                String::new(),
            ),
            false,
        ),
    }
}

} // verus!

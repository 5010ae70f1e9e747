//! Display cards: what a card looks like to the user, and how cards are
//! ranked in a list.

use vstd::prelude::*;
use crate::text::{contains_text, decimal_string, decimal_text, occurs_in};

verus! {

/// The broad kind of a card, read off its type line.
#[derive(Debug, Clone, Copy, PartialEq, Eq, Hash, Structural)]
pub enum CardType {
    Creature,
    Land,
    Artifact,
    Enchantment,
    Planeswalker,
    Instant,
    Sorcery,
    Battle,
    Unknown,
}

/// How a kind is written when it is shown on its own: its name as a JSON
/// string, quotation marks included.
pub open spec fn label_of(kind: CardType) -> Seq<char> {
    match kind {
        CardType::Creature => "\"Creature\""@,
        CardType::Land => "\"Land\""@,
        CardType::Artifact => "\"Artifact\""@,
        CardType::Enchantment => "\"Enchantment\""@,
        CardType::Planeswalker => "\"Planeswalker\""@,
        CardType::Instant => "\"Instant\""@,
        CardType::Sorcery => "\"Sorcery\""@,
        CardType::Battle => "\"Battle\""@,
        CardType::Unknown => "\"Unknown\""@,
    }
}

impl CardType {
    /// The kind as it is shown on its own.
    pub fn label(&self) -> (text: String)
        ensures
            text@ == label_of(*self),
    {
        match self {
            CardType::Creature => "\"Creature\"".to_string(),
            CardType::Land => "\"Land\"".to_string(),
            CardType::Artifact => "\"Artifact\"".to_string(),
            CardType::Enchantment => "\"Enchantment\"".to_string(),
            CardType::Planeswalker => "\"Planeswalker\"".to_string(),
            CardType::Instant => "\"Instant\"".to_string(),
            CardType::Sorcery => "\"Sorcery\"".to_string(),
            CardType::Battle => "\"Battle\"".to_string(),
            CardType::Unknown => "\"Unknown\"".to_string(),
        }
    }
}

impl Default for CardType {
    fn default() -> (kind: Self)
        ensures
            kind == CardType::Unknown,
    {
        CardType::Unknown
    }
}

/// The kind named first, in this fixed order of precedence, by a type line.
pub open spec fn card_type_of(type_line: Seq<char>) -> CardType {
    if occurs_in("Creature"@, type_line) {
        CardType::Creature
    } else if occurs_in("Land"@, type_line) {
        CardType::Land
    } else if occurs_in("Artifact"@, type_line) {
        CardType::Artifact
    } else if occurs_in("Enchantment"@, type_line) {
        CardType::Enchantment
    } else if occurs_in("Planeswalker"@, type_line) {
        CardType::Planeswalker
    } else if occurs_in("Instant"@, type_line) {
        CardType::Instant
    } else if occurs_in("Sorcery"@, type_line) {
        CardType::Sorcery
    } else if occurs_in("Battle"@, type_line) {
        CardType::Battle
    } else {
        CardType::Unknown
    }
}

/// Classifies a type line such as `"Legendary Creature — Elf"`.
///
/// A line that names several kinds gets the one that comes first in the
/// order creature, land, artifact, enchantment, planeswalker, instant,
/// sorcery, battle; a line that names none is `Unknown`.
pub fn card_type_from_type_line(type_line: &str) -> (kind: CardType)
    ensures
        kind == card_type_of(type_line@),
{
    if contains_text(type_line, "Creature") {
        CardType::Creature
    } else if contains_text(type_line, "Land") {
        CardType::Land
    } else if contains_text(type_line, "Artifact") {
        CardType::Artifact
    } else if contains_text(type_line, "Enchantment") {
        CardType::Enchantment
    } else if contains_text(type_line, "Planeswalker") {
        CardType::Planeswalker
    } else if contains_text(type_line, "Instant") {
        CardType::Instant
    } else if contains_text(type_line, "Sorcery") {
        CardType::Sorcery
    } else if contains_text(type_line, "Battle") {
        CardType::Battle
    } else {
        CardType::Unknown
    }
}

/// One face of a card that has more than one.
pub struct CardFace {
    pub name: String,
    pub type_line: String,
    pub image_uri: Option<String>,
}

/// What a card database knows of a card, as far as display needs it.
///
/// `front_face` is the first face of a card with several faces and `None`
/// for an ordinary card.
pub struct CardEntry {
    pub name: String,
    pub type_line: String,
    pub mana_value: i16,
    pub image_uri: Option<String>,
    pub front_face: Option<CardFace>,
}

/// A card as shown in a list: its name, kind, mana value, how many copies,
/// and where its picture is.
#[derive(Debug)]
pub struct Card {
    pub name: String,
    pub card_type: CardType,
    pub mana_value: i16,
    pub quantity: u16,
    pub image_uri: String,
}

/// The mathematical content of a [`CardFace`].
pub struct CardFaceView {
    pub name: Seq<char>,
    pub type_line: Seq<char>,
    pub image_uri: Option<Seq<char>>,
}

/// The mathematical content of a [`CardEntry`].
pub struct CardEntryView {
    pub name: Seq<char>,
    pub type_line: Seq<char>,
    pub mana_value: i16,
    pub image_uri: Option<Seq<char>>,
    pub front_face: Option<CardFaceView>,
}

/// The mathematical content of a [`Card`].
pub struct CardView {
    pub name: Seq<char>,
    pub card_type: CardType,
    pub mana_value: i16,
    pub quantity: u16,
    pub image_uri: Seq<char>,
}

/// The text of an optional string.
pub open spec fn optional_text(s: Option<String>) -> Option<Seq<char>> {
    match s {
        Some(t) => Some(t@),
        None => None,
    }
}

impl View for CardFace {
    type V = CardFaceView;

    open spec fn view(&self) -> CardFaceView {
        CardFaceView {
            name: self.name@,
            type_line: self.type_line@,
            image_uri: optional_text(self.image_uri),
        }
    }
}

impl View for CardEntry {
    type V = CardEntryView;

    open spec fn view(&self) -> CardEntryView {
        CardEntryView {
            name: self.name@,
            type_line: self.type_line@,
            mana_value: self.mana_value,
            image_uri: optional_text(self.image_uri),
            front_face: match self.front_face {
                Some(face) => Some(face@),
                None => None,
            },
        }
    }
}

impl View for Card {
    type V = CardView;

    open spec fn view(&self) -> CardView {
        CardView {
            name: self.name@,
            card_type: self.card_type,
            mana_value: self.mana_value,
            quantity: self.quantity,
            image_uri: self.image_uri@,
        }
    }
}

/// The view of an entry that a lookup may have found.
pub open spec fn found_view(found: Option<&CardEntry>) -> Option<CardEntryView> {
    match found {
        Some(e) => Some(e@),
        None => None,
    }
}

/// The views of a list of cards, in order.
pub open spec fn card_views(cards: Seq<Card>) -> Seq<CardView> {
    cards.map_values(|c: Card| c@)
}

/// The card that stands for "nothing known": named `Unknown`, of unknown
/// kind, mana value zero, no copies, no picture.
pub open spec fn blank_card() -> CardView {
    CardView {
        name: "Unknown"@,
        card_type: CardType::Unknown,
        mana_value: 0,
        quantity: 0,
        image_uri: Seq::empty(),
    }
}

/// The display card that a database entry describes: name and type line of
/// the front face where there is one, the entry's own picture before the
/// front face's, and one copy.
pub open spec fn card_of_entry(entry: CardEntryView) -> CardView {
    let name = match entry.front_face {
        Some(face) => face.name,
        None => entry.name,
    };
    let type_line = match entry.front_face {
        Some(face) => face.type_line,
        None => entry.type_line,
    };
    let image_uri = match entry.image_uri {
        Some(uri) => uri,
        None => match entry.front_face {
            Some(face) => match face.image_uri {
                Some(uri) => uri,
                None => Seq::empty(),
            },
            None => Seq::empty(),
        },
    };
    CardView {
        name,
        card_type: card_type_of(type_line),
        mana_value: entry.mana_value,
        quantity: 1,
        image_uri,
    }
}

/// The card shown for `card_id` in `quantity` copies, given what the
/// database returned for it. A card the database does not know is still
/// shown: under its id written in decimal, with mana value zero.
pub open spec fn display_of(card_id: i32, quantity: u16, entry: Option<CardEntryView>) -> CardView {
    match entry {
        Some(e) => CardView { quantity, ..card_of_entry(e) },
        None => CardView { name: decimal_text(card_id as int), quantity, ..blank_card() },
    }
}

impl Clone for Card {
    fn clone(&self) -> (copy: Self)
        ensures
            copy == *self,
    {
        Card {
            name: self.name.clone(),
            card_type: self.card_type,
            mana_value: self.mana_value,
            quantity: self.quantity,
            image_uri: self.image_uri.clone(),
        }
    }
}

impl Default for Card {
    fn default() -> (card: Self)
        ensures
            card@ == blank_card(),
    {
        Card {
            name: "Unknown".to_string(),
            card_type: CardType::Unknown,
            mana_value: 0,
            quantity: 0,
            image_uri: String::new(),
        }
    }
}

impl Card {
    /// A blank card under the given name.
    pub fn new(name: String) -> (card: Self)
        ensures
            card@ == (CardView { name: name@, ..blank_card() }),
    {
        Card {
            name,
            card_type: CardType::Unknown,
            mana_value: 0,
            quantity: 0,
            image_uri: String::new(),
        }
    }

    /// A card with every field given.
    pub fn with_details(
        name: String,
        card_type: CardType,
        mana_value: i16,
        quantity: u16,
        image_uri: String,
    ) -> (card: Self)
        ensures
            card@ == (CardView {
                name: name@,
                card_type,
                mana_value,
                quantity,
                image_uri: image_uri@,
            }),
    {
        Card { name, card_type, mana_value, quantity, image_uri }
    }

    /// The display card for a database entry, in one copy.
    pub fn from_entry(entry: &CardEntry) -> (card: Self)
        ensures
            card@ == card_of_entry(entry@),
    {
        let (name, type_line) = match &entry.front_face {
            Some(face) => (face.name.clone(), face.type_line.clone()),
            None => (entry.name.clone(), entry.type_line.clone()),
        };
        let image_uri = match &entry.image_uri {
            Some(uri) => uri.clone(),
            None => match &entry.front_face {
                Some(face) => match &face.image_uri {
                    Some(uri) => uri.clone(),
                    None => String::new(),
                },
                None => String::new(),
            },
        };
        Card {
            name,
            card_type: card_type_from_type_line(type_line.as_str()),
            mana_value: entry.mana_value,
            quantity: 1,
            image_uri,
        }
    }

    /// The card shown for `card_id` in `quantity` copies, given what the
    /// card database returned for that id.
    pub fn for_display(card_id: i32, quantity: u16, entry: Option<&CardEntry>) -> (card: Self)
        ensures
            card@ == display_of(card_id, quantity, found_view(entry)),
    {
        match entry {
            Some(e) => {
                let mut card = Card::from_entry(e);
                card.quantity = quantity;
                card
            },
            None => {
                let mut card = Card::default();
                card.name = decimal_string(card_id);
                card.quantity = quantity;
                card
            },
        }
    }
}

} // verus!

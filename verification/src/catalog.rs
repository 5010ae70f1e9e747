//! The card lookup that display needs: from a card id to what is known of
//! the card.

use vstd::prelude::*;
use std::collections::HashMap;
use crate::card::{card_of_entry, found_view, Card, CardEntry, CardEntryView, CardView};

verus! {

/// What is known of cards, by card id.
pub struct CardCatalog {
    entries: HashMap<i32, CardEntry>,
}

impl View for CardCatalog {
    type V = Map<i32, CardEntryView>;

    closed spec fn view(&self) -> Map<i32, CardEntryView> {
        self.entries@.map_values(|e: CardEntry| e@)
    }
}

/// What a catalog returns for a card id.
pub open spec fn entry_for(catalog: Map<i32, CardEntryView>, card_id: i32) -> Option<
    CardEntryView,
> {
    if catalog.contains_key(card_id) {
        Some(catalog[card_id])
    } else {
        None
    }
}

/// The display card of a card id, in one copy, where the catalog knows the
/// card.
pub open spec fn card_for(catalog: Map<i32, CardEntryView>, card_id: i32) -> Option<CardView> {
    match entry_for(catalog, card_id) {
        Some(entry) => Some(card_of_entry(entry)),
        None => None,
    }
}

/// The view of a card that may be there.
pub open spec fn maybe_card_view(card: Option<Card>) -> Option<CardView> {
    match card {
        Some(c) => Some(c@),
        None => None,
    }
}

impl CardCatalog {
    /// A catalog that knows no card.
    pub fn new() -> (catalog: Self)
        ensures
            catalog@ == Map::<i32, CardEntryView>::empty(),
    {
        let catalog = CardCatalog { entries: HashMap::new() };
        assert(catalog@ =~= Map::<i32, CardEntryView>::empty());
        catalog
    }

    /// Records `entry` under `card_id`, in place of what was there.
    pub fn insert(&mut self, card_id: i32, entry: CardEntry)
        ensures
            final(self)@ == old(self)@.insert(card_id, entry@),
    {
        self.entries.insert(card_id, entry);
        assert(self@ =~= old(self)@.insert(card_id, entry@));
    }

    /// The entry recorded under `card_id`, if there is one.
    pub fn get(&self, card_id: i32) -> (found: Option<&CardEntry>)
        ensures
            found_view(found) == entry_for(self@, card_id),
    {
        self.entries.get(&card_id)
    }

    /// The display card of `card_id` in one copy, or `None` for a card that
    /// the catalog does not know.
    pub fn display_card(&self, card_id: i32) -> (card: Option<Card>)
        ensures
            maybe_card_view(card) == card_for(self@, card_id),
    {
        match self.get(card_id) {
            Some(entry) => Some(Card::from_entry(entry)),
            None => None,
        }
    }

    /// The number of cards known.
    pub fn len(&self) -> (n: usize)
        ensures
            n == self@.len(),
    {
        proof {
            lemma_map_values_len(self.entries@);
        }
        self.entries.len()
    }
}

/// Taking the view of every value keeps the number of keys.
proof fn lemma_map_values_len(m: Map<i32, CardEntry>)
    ensures
        m.map_values(|e: CardEntry| e@).len() == m.len(),
{
    assert(m.map_values(|e: CardEntry| e@).dom() =~= m.dom());
}

} // verus!

//! A decklist as it is shown: the main deck grouped by kind of card, and the
//! sideboard as one list.

use vstd::prelude::*;
use crate::card::{card_views, Card, CardEntryView, CardType, CardView};
use crate::catalog::CardCatalog;
use crate::deck::{aggregate_of, quantities_of, DeckDifference, DeckList};
use crate::ranking::ranked;

verus! {

/// The cards of one kind, in the order in which the list has them.
pub open spec fn of_kind(cards: Seq<CardView>, kind: CardType) -> Seq<CardView>
    decreases cards.len(),
{
    if cards.len() == 0 {
        Seq::empty()
    } else if cards.last().card_type == kind {
        of_kind(cards.drop_last(), kind).push(cards.last())
    } else {
        of_kind(cards.drop_last(), kind)
    }
}

/// The place of a kind in the order in which groups are shown.
pub open spec fn kind_index(kind: CardType) -> int {
    match kind {
        CardType::Creature => 0,
        CardType::Land => 1,
        CardType::Artifact => 2,
        CardType::Enchantment => 3,
        CardType::Planeswalker => 4,
        CardType::Instant => 5,
        CardType::Sorcery => 6,
        CardType::Battle => 7,
        CardType::Unknown => 8,
    }
}

/// The cards of one kind in a main deck.
#[derive(Debug)]
pub struct CardGroup {
    pub card_type: CardType,
    pub cards: Vec<Card>,
}

/// A decklist ready for display.
///
/// `main_deck` has one group for every kind of card that the main deck
/// holds, and none for a kind that it does not hold.
#[derive(Debug)]
pub struct DeckDisplayRecord {
    pub archetype: String,
    pub main_deck: Vec<CardGroup>,
    pub sideboard: Vec<Card>,
}

/// Some group of the list is of the given kind.
pub open spec fn has_group(groups: Seq<CardGroup>, kind: CardType) -> bool {
    exists|i: int| 0 <= i < groups.len() && (#[trigger] groups[i]).card_type == kind
}

impl DeckDisplayRecord {
    /// The main-deck cards shown under `kind`: those of its group, and none
    /// where there is no such group.
    pub open spec fn group(&self, kind: CardType) -> Seq<CardView> {
        if has_group(self.main_deck@, kind) {
            let i = choose|i: int|
                0 <= i < self.main_deck@.len() && (#[trigger] self.main_deck@[i]).card_type
                    == kind;
            card_views(self.main_deck@[i].cards@)
        } else {
            Seq::empty()
        }
    }

    /// The groups stand in the order of their kinds, no kind has two
    /// groups, and no group is empty.
    pub open spec fn well_formed(&self) -> bool {
        &&& forall|i: int, j: int|
            0 <= i < j < self.main_deck@.len() ==> kind_index(
                (#[trigger] self.main_deck@[i]).card_type,
            ) < kind_index((#[trigger] self.main_deck@[j]).card_type)
        &&& forall|i: int|
            0 <= i < self.main_deck@.len() ==> (#[trigger] self.main_deck@[i]).cards@.len() > 0
    }

    /// The record shows `deck`: every group holds the main-deck cards of
    /// its kind as the display list of the main deck has them, there is a
    /// group for every kind the main deck holds, and the sideboard is the
    /// display list of the sideboard.
    pub open spec fn displays(&self, deck: &DeckList, catalog: Map<i32, CardEntryView>) -> bool {
        &&& self.archetype@ == "Unknown"@
        &&& self.well_formed()
        &&& forall|kind: CardType| #[trigger]
            self.group(kind) == of_kind(aggregate_of(quantities_of(deck.cards@), catalog), kind)
        &&& card_views(self.sideboard@) == aggregate_of(quantities_of(deck.sideboard@), catalog)
    }

    /// The display record of a decklist.
    ///
    /// The main deck is listed as [`DeckDifference::aggregate`] lists a
    /// multiset, and then split by kind of card, so that every group is in
    /// rank order. The sideboard is listed in the same way and not split.
    /// The archetype is not known and says so. Both sections of the
    /// decklist must be ones that can be counted.
    pub fn from_decklist(value: &DeckList, catalog: &CardCatalog) -> (record: Self)
        requires
            value.countable(),
        ensures
            record.displays(value, catalog@),
            ranked(card_views(record.sideboard@)),
    {
        let main_quantities = value.quantities();
        let sideboard_quantities = value.sideboard_quantities();
        let all = DeckDifference::aggregate(&main_quantities, catalog);
        let mut main_deck: Vec<CardGroup> = Vec::new();
        let mut k: usize = 0;
        while k < 9
            invariant
                k <= 9,
                forall|i: int, j: int|
                    0 <= i < j < main_deck@.len() ==> kind_index(
                        (#[trigger] main_deck@[i]).card_type,
                    ) < kind_index((#[trigger] main_deck@[j]).card_type),
                forall|i: int|
                    0 <= i < main_deck@.len() ==> {
                        &&& kind_index((#[trigger] main_deck@[i]).card_type) < k
                        &&& main_deck@[i].cards@.len() > 0
                        &&& card_views(main_deck@[i].cards@) == of_kind(
                            card_views(all@),
                            main_deck@[i].card_type,
                        )
                    },
                forall|kind: CardType|
                    kind_index(kind) < k && (#[trigger] of_kind(card_views(all@), kind)).len() > 0
                        ==> has_group(main_deck@, kind),
            decreases 9 - k,
        {
            let kind = kind_at(k);
            let cards = cards_of_kind(&all, kind);
            let ghost before = main_deck@;
            if cards.len() > 0 {
                main_deck.push(CardGroup { card_type: kind, cards });
                proof {
                    let last = main_deck@.len() - 1;
                    assert(main_deck@[last].card_type == kind);
                    assert forall|other: CardType|
                        kind_index(other) < k + 1 && (#[trigger] of_kind(
                            card_views(all@),
                            other,
                        )).len() > 0 implies has_group(main_deck@, other) by {
                        if other == kind {
                            assert(main_deck@[last].card_type == other);
                        } else {
                            assert(has_group(before, other));
                            let i = choose|i: int|
                                0 <= i < before.len() && (#[trigger] before[i]).card_type
                                    == other;
                            assert(main_deck@[i].card_type == other);
                        }
                    }
                }
            }
            k = k + 1;
        }
        let sideboard = DeckDifference::aggregate(&sideboard_quantities, catalog);
        let record = DeckDisplayRecord {
            archetype: "Unknown".to_string(),
            main_deck,
            sideboard,
        };
        proof {
            assert forall|kind: CardType| #[trigger]
                record.group(kind) == of_kind(card_views(all@), kind) by {
                if has_group(record.main_deck@, kind) {
                } else {
                    assert(of_kind(card_views(all@), kind).len() == 0);
                    assert(of_kind(card_views(all@), kind) =~= Seq::<CardView>::empty());
                }
            }
        }
        record
    }
}

/// The kind at a place in the order of kinds.
fn kind_at(index: usize) -> (kind: CardType)
    requires
        index < 9,
    ensures
        kind_index(kind) == index,
{
    if index == 0 {
        CardType::Creature
    } else if index == 1 {
        CardType::Land
    } else if index == 2 {
        CardType::Artifact
    } else if index == 3 {
        CardType::Enchantment
    } else if index == 4 {
        CardType::Planeswalker
    } else if index == 5 {
        CardType::Instant
    } else if index == 6 {
        CardType::Sorcery
    } else if index == 7 {
        CardType::Battle
    } else {
        CardType::Unknown
    }
}

/// Copies of the cards of one kind, in the order of the list.
pub fn cards_of_kind(cards: &Vec<Card>, kind: CardType) -> (chosen: Vec<Card>)
    ensures
        card_views(chosen@) == of_kind(card_views(cards@), kind),
{
    let mut chosen: Vec<Card> = Vec::new();
    let mut at: usize = 0;
    while at < cards.len()
        invariant
            at <= cards.len(),
            card_views(chosen@) == of_kind(card_views(cards@).take(at as int), kind),
        decreases cards.len() - at,
    {
        let ghost so_far = card_views(chosen@);
        assert(card_views(cards@).take(at + 1).drop_last() =~= card_views(cards@).take(at as int));
        if cards[at].card_type == kind {
            chosen.push(cards[at].clone());
            assert(card_views(chosen@) =~= so_far.push(cards@[at as int]@));
        }
        at = at + 1;
    }
    assert(card_views(cards@).take(at as int) =~= card_views(cards@));
    chosen
}

} // verus!

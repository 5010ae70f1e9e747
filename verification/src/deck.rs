//! Decklists as multisets of card ids, and the difference between two
//! decklists of a match.

use vstd::prelude::*;
use itertools::Itertools;
use std::collections::HashMap;
use crate::card::{card_views, display_of, Card, CardEntryView, CardView};
use crate::catalog::{entry_for, CardCatalog};
use crate::ranking::{law_ranking_idempotent, ranked, ranking, sort_cards};

verus! {

/// How often `card_id` occurs in a decklist section.
pub open spec fn copies(deck: Seq<i32>, card_id: i32) -> nat
    decreases deck.len(),
{
    if deck.len() == 0 {
        0
    } else if deck.last() == card_id {
        copies(deck.drop_last(), card_id) + 1
    } else {
        copies(deck.drop_last(), card_id)
    }
}

/// The section can be counted: no card id occurs in it more often than a
/// sixteen-bit count can say.
pub open spec fn countable(deck: Seq<i32>) -> bool {
    forall|card_id: i32| copies(deck, card_id) <= u16::MAX
}

/// The multiset of a decklist section that can be counted: every card id
/// that occurs, with the number of times it occurs.
pub open spec fn quantities_of(deck: Seq<i32>) -> Map<i32, u16> {
    Map::new(|card_id: i32| deck.contains(card_id), |card_id: i32| copies(deck, card_id) as u16)
}

/// The count that a multiset holds for a card id: zero where it has none.
pub open spec fn count_in(cards: Map<i32, u16>, card_id: i32) -> nat {
    if cards.contains_key(card_id) {
        cards[card_id] as nat
    } else {
        0
    }
}

/// What `wanted` has that `held` lacks: for every card id of which `wanted`
/// has more copies, the number of copies that are missing.
pub open spec fn missing_of(wanted: Map<i32, u16>, held: Map<i32, u16>) -> Map<i32, u16> {
    Map::new(
        |card_id: i32| wanted.contains_key(card_id) && wanted[card_id] > count_in(held, card_id),
        |card_id: i32| (wanted[card_id] - count_in(held, card_id)) as u16,
    )
}

/// `card_id` occurs in `deck` for the first time at position `at`.
pub open spec fn first_at(deck: Seq<i32>, card_id: i32, at: int) -> bool {
    &&& 0 <= at < deck.len()
    &&& deck[at] == card_id
    &&& forall|k: int| 0 <= k < at ==> deck[k] != card_id
}

/// `ids` lists every card id of `deck` once, in the order in which the ids
/// first occur.
pub open spec fn lists_distinct(ids: Seq<i32>, deck: Seq<i32>) -> bool {
    &&& ids.no_duplicates()
    &&& forall|card_id: i32| ids.contains(card_id) <==> deck.contains(card_id)
    &&& forall|i: int, j: int, p: int, q: int|
        0 <= i < j < ids.len() && #[trigger] first_at(deck, ids[i], p) && #[trigger] first_at(
            deck,
            ids[j],
            q,
        ) ==> p < q
}

/// Trusted: `Itertools::unique`, which passes on each element the first
/// time it occurs and drops it every time after, so that the result has the
/// distinct elements in the order of their first occurrence.
#[verifier::external_body]
fn distinct_ids(deck: &[i32]) -> (ids: Vec<i32>)
    ensures
        lists_distinct(ids@, deck@),
{
    deck.iter().unique().copied().collect()
}

/// The card ids of a decklist section without their repetitions: every id
/// where it first occurs.
pub open spec fn first_occurrences(deck: Seq<i32>) -> Seq<i32>
    decreases deck.len(),
{
    if deck.len() == 0 {
        Seq::empty()
    } else if deck.drop_last().contains(deck.last()) {
        first_occurrences(deck.drop_last())
    } else {
        first_occurrences(deck.drop_last()).push(deck.last())
    }
}

/// A card id that occurs in a decklist occurs there for a first time.
proof fn lemma_first_at_exists(deck: Seq<i32>, card_id: i32)
    requires
        deck.contains(card_id),
    ensures
        exists|at: int| first_at(deck, card_id, at),
    decreases deck.len(),
{
    let shorter = deck.drop_last();
    if shorter.contains(card_id) {
        lemma_first_at_exists(shorter, card_id);
        let at = choose|at: int| first_at(shorter, card_id, at);
        assert(first_at(deck, card_id, at)) by {
            assert(deck[at] == shorter[at]);
            assert forall|k: int| 0 <= k < at implies deck[k] != card_id by {
                assert(deck[k] == shorter[k]);
            }
        }
    } else {
        let k = choose|k: int| 0 <= k < deck.len() && deck[k] == card_id;
        if k < deck.len() - 1 {
            assert(shorter[k] == card_id);
        }
        assert(first_at(deck, card_id, deck.len() - 1)) by {
            assert forall|j: int| 0 <= j < deck.len() - 1 implies deck[j] != card_id by {
                assert(shorter[j] == deck[j]);
            }
        }
    }
}

/// A first occurrence in a decklist without its last card is a first
/// occurrence in the decklist.
proof fn lemma_first_at_extends(deck: Seq<i32>, card_id: i32, at: int)
    requires
        deck.len() > 0,
        first_at(deck.drop_last(), card_id, at),
    ensures
        first_at(deck, card_id, at),
{
    let shorter = deck.drop_last();
    assert(deck[at] == shorter[at]);
    assert forall|k: int| 0 <= k < at implies deck[k] != card_id by {
        assert(deck[k] == shorter[k]);
    }
}

/// There is one list of the distinct card ids of a decklist in the order of
/// their first occurrence: the list of the first occurrences.
pub proof fn lemma_distinct_listing_unique(ids: Seq<i32>, deck: Seq<i32>)
    requires
        lists_distinct(ids, deck),
    ensures
        ids == first_occurrences(deck),
    decreases deck.len(),
{
    if deck.len() == 0 {
        if ids.len() > 0 {
            assert(ids.contains(ids[0]));
        }
        assert(ids =~= Seq::<i32>::empty());
    } else {
        let shorter = deck.drop_last();
        let x = deck.last();
        assert(deck =~= shorter.push(x));
        assert forall|card_id: i32| deck.contains(card_id) <==> (shorter.contains(card_id)
            || card_id == x) by {
            if deck.contains(card_id) {
                let k = choose|k: int| 0 <= k < deck.len() && deck[k] == card_id;
                if k < shorter.len() {
                    assert(shorter[k] == card_id);
                }
            }
            if shorter.contains(card_id) {
                let k = choose|k: int| 0 <= k < shorter.len() && shorter[k] == card_id;
                assert(deck[k] == card_id);
            }
            assert(deck[deck.len() - 1] == x);
        }
        if shorter.contains(x) {
            assert(lists_distinct(ids, shorter)) by {
                assert forall|i: int, j: int, p: int, q: int|
                    0 <= i < j < ids.len() && #[trigger] first_at(shorter, ids[i], p)
                        && #[trigger] first_at(shorter, ids[j], q) implies p < q by {
                    lemma_first_at_extends(deck, ids[i], p);
                    lemma_first_at_extends(deck, ids[j], q);
                }
            }
            lemma_distinct_listing_unique(ids, shorter);
        } else {
            // x is new with the last card, so it is listed last
            assert(first_at(deck, x, deck.len() - 1)) by {
                assert forall|k: int| 0 <= k < deck.len() - 1 implies deck[k] != x by {
                    assert(shorter[k] == deck[k]);
                    assert(shorter.contains(shorter[k]));
                }
            }
            assert(ids.contains(x));
            let i = choose|i: int| 0 <= i < ids.len() && ids[i] == x;
            if i < ids.len() - 1 {
                let j = ids.len() - 1;
                assert(ids.contains(ids[j]));
                assert(ids[j] != x);
                assert(shorter.contains(ids[j]));
                lemma_first_at_exists(shorter, ids[j]);
                let q = choose|q: int| first_at(shorter, ids[j], q);
                lemma_first_at_extends(deck, ids[j], q);
                assert(first_at(deck, ids[i], deck.len() - 1));
                assert(false);
            }
            let fewer = ids.drop_last();
            assert(ids =~= fewer.push(x));
            assert(lists_distinct(fewer, shorter)) by {
                assert(fewer.no_duplicates()) by {
                    assert forall|a: int, b: int|
                        0 <= a < fewer.len() && 0 <= b < fewer.len() && a != b implies fewer[a]
                        != fewer[b] by {
                        assert(ids[a] != ids[b]);
                    }
                }
                assert forall|card_id: i32| fewer.contains(card_id) <==> shorter.contains(
                    card_id,
                ) by {
                    if fewer.contains(card_id) {
                        let k = choose|k: int| 0 <= k < fewer.len() && fewer[k] == card_id;
                        assert(ids[k] == card_id);
                        assert(ids.contains(card_id));
                        assert(ids[k] != ids[ids.len() - 1]);
                    }
                    if shorter.contains(card_id) {
                        assert(ids.contains(card_id));
                        let k = choose|k: int| 0 <= k < ids.len() && ids[k] == card_id;
                        assert(fewer[k] == card_id);
                    }
                }
                assert forall|a: int, b: int, p: int, q: int|
                    0 <= a < b < fewer.len() && #[trigger] first_at(shorter, fewer[a], p)
                        && #[trigger] first_at(shorter, fewer[b], q) implies p < q by {
                    lemma_first_at_extends(deck, fewer[a], p);
                    lemma_first_at_extends(deck, fewer[b], q);
                    assert(ids[a] == fewer[a] && ids[b] == fewer[b]);
                }
            }
            lemma_distinct_listing_unique(fewer, shorter);
        }
    }
}

/// The card ids of a decklist section, each once, in the order in which
/// they first occur.
pub fn distinct_cards(deck: &[i32]) -> (ids: Vec<i32>)
    ensures
        ids@ == first_occurrences(deck@),
        lists_distinct(ids@, deck@),
{
    let ids = distinct_ids(deck);
    proof {
        lemma_distinct_listing_unique(ids@, deck@);
    }
    ids
}

/// Counts how often `card_id` stands in `deck`.
fn count_copies(deck: &[i32], card_id: i32) -> (n: usize)
    ensures
        n == copies(deck@, card_id),
{
    let mut n: usize = 0;
    let mut at: usize = 0;
    while at < deck.len()
        invariant
            at <= deck.len(),
            n <= at,
            n == copies(deck@.take(at as int), card_id),
        decreases deck.len() - at,
    {
        assert(deck@.take(at + 1).drop_last() =~= deck@.take(at as int));
        if deck[at] == card_id {
            n = n + 1;
        }
        at = at + 1;
    }
    assert(deck@.take(at as int) =~= deck@);
    n
}

/// Whether the section can be counted: whether every card id occurs in it
/// at most 65535 times.
pub fn is_countable(deck: &[i32]) -> (fits: bool)
    ensures
        fits == countable(deck@),
{
    let ids = distinct_cards(deck);
    let mut at: usize = 0;
    while at < ids.len()
        invariant
            at <= ids.len(),
            lists_distinct(ids@, deck@),
            forall|k: int| 0 <= k < at ==> copies(deck@, #[trigger] ids@[k]) <= u16::MAX,
        decreases ids.len() - at,
    {
        if count_copies(deck, ids[at]) > 65535 {
            return false;
        }
        at = at + 1;
    }
    proof {
        assert forall|card_id: i32| copies(deck@, card_id) <= u16::MAX by {
            lemma_copies(deck@, card_id);
            if deck@.contains(card_id) {
                assert(ids@.contains(card_id));
                let k = choose|k: int| 0 <= k < ids@.len() && ids@[k] == card_id;
                assert(copies(deck@, ids@[k]) <= u16::MAX);
            }
        }
    }
    true
}

/// The multiset of a decklist section: every card id that occurs, with the
/// number of times it occurs, which is at least one.
///
/// A count holds sixteen bits, so the section must be one that can be
/// counted; [`is_countable`] tells.
pub fn quantities(deck: &[i32]) -> (cards: HashMap<i32, u16>)
    requires
        countable(deck@),
    ensures
        cards@ == quantities_of(deck@),
        forall|card_id: i32| #[trigger]
            cards@.contains_key(card_id) ==> cards@[card_id] == copies(deck@, card_id)
                && cards@[card_id] >= 1,
{
    let ids = distinct_cards(deck);
    let mut cards: HashMap<i32, u16> = HashMap::new();
    let mut at: usize = 0;
    while at < ids.len()
        invariant
            at <= ids.len(),
            lists_distinct(ids@, deck@),
            countable(deck@),
            forall|card_id: i32|
                cards@.contains_key(card_id) <==> ids@.take(at as int).contains(card_id),
            forall|card_id: i32| #[trigger]
                cards@.contains_key(card_id) ==> cards@[card_id] == copies(deck@, card_id),
        decreases ids.len() - at,
    {
        let card_id = ids[at];
        let n = count_copies(deck, card_id);
        assert(copies(deck@, card_id) <= u16::MAX);
        let quantity: u16 = match u16::try_from(n) {
            Ok(q) => q,
            Err(_) => 0,
        };
        cards.insert(card_id, quantity);
        proof {
            let before = ids@.take(at as int);
            let after = ids@.take(at + 1);
            assert(after =~= before.push(card_id));
            assert forall|id: i32| cards@.contains_key(id) <==> after.contains(id) by {
                if after.contains(id) {
                    let k = choose|k: int| 0 <= k < after.len() && after[k] == id;
                    if k < at {
                        assert(before[k] == id);
                    }
                }
                if before.contains(id) {
                    let k = choose|k: int| 0 <= k < before.len() && before[k] == id;
                    assert(after[k] == id);
                }
                assert(after[at as int] == card_id);
            }
        }
        at = at + 1;
    }
    proof {
        assert(ids@.take(at as int) =~= ids@);
        assert(cards@ =~= quantities_of(deck@));
        assert forall|card_id: i32| #[trigger] cards@.contains_key(card_id) implies cards@[card_id]
            >= 1 by {
            lemma_copies(deck@, card_id);
        }
    }
    cards
}

/// The ids stand in strictly ascending order.
pub open spec fn ascending(ids: Seq<i32>) -> bool {
    forall|i: int, j: int| 0 <= i < j < ids.len() ==> ids[i] < ids[j]
}

/// `ids` lists the card ids of a multiset, each once, in ascending order.
pub open spec fn lists_keys(ids: Seq<i32>, cards: Map<i32, u16>) -> bool {
    &&& ascending(ids)
    &&& forall|card_id: i32| ids.contains(card_id) <==> cards.contains_key(card_id)
}

/// The card ids of a multiset in ascending order.
pub open spec fn key_list(cards: Map<i32, u16>) -> Seq<i32> {
    choose|ids: Seq<i32>| lists_keys(ids, cards)
}

/// The display cards for the given ids, in the order of the ids, each with
/// the count that the multiset holds for it.
pub open spec fn listed(
    ids: Seq<i32>,
    cards: Map<i32, u16>,
    catalog: Map<i32, CardEntryView>,
) -> Seq<CardView> {
    Seq::new(
        ids.len(),
        |i: int| display_of(ids[i], cards[ids[i]], entry_for(catalog, ids[i])),
    )
}

/// The display list of a multiset: one card for every card id, in rank
/// order, cards of equal rank in ascending order of their ids.
pub open spec fn aggregate_of(cards: Map<i32, u16>, catalog: Map<i32, CardEntryView>) -> Seq<
    CardView,
> {
    ranking(listed(key_list(cards), cards, catalog))
}

/// Puts `card_id` into an ascending list, at its place; a list that has it
/// already stays as it is.
fn insert_ascending(ids: &mut Vec<i32>, card_id: i32)
    requires
        ascending(old(ids)@),
    ensures
        ascending(final(ids)@),
        forall|id: i32| #[trigger]
            final(ids)@.contains(id) <==> (old(ids)@.contains(id) || id == card_id),
{
    let ghost before = ids@;
    let mut at: usize = 0;
    while at < ids.len() && ids[at] < card_id
        invariant
            at <= ids.len(),
            ids@ == before,
            forall|k: int| 0 <= k < at ==> ids@[k] < card_id,
        decreases ids.len() - at,
    {
        at = at + 1;
    }
    let present = at < ids.len() && ids[at] == card_id;
    if present {
        assert(ids@.contains(ids@[at as int]));
    } else {
        ids.insert(at, card_id);
        proof {
            lemma_inserted_ascending(before, at as int, card_id);
        }
    }
}

/// An id put into an ascending list behind the smaller ids and before the
/// larger ones leaves the list ascending, with the id as its one new
/// member.
proof fn lemma_inserted_ascending(before: Seq<i32>, at: int, card_id: i32)
    requires
        ascending(before),
        0 <= at <= before.len(),
        forall|k: int| 0 <= k < at ==> before[k] < card_id,
        at < before.len() ==> card_id < before[at],
    ensures
        ascending(before.insert(at, card_id)),
        forall|id: i32| #[trigger]
            before.insert(at, card_id).contains(id) <==> (before.contains(id) || id == card_id),
{
    let after = before.insert(at, card_id);
    assert forall|i: int, j: int| 0 <= i < j < after.len() implies after[i] < after[j] by {
        if j < at {
            assert(before[i] < before[j]);
        } else if j == at {
        } else if i < at {
            assert(before[i] < before[j - 1]);
        } else if i == at {
            assert(before[at] <= before[j - 1]);
        } else {
            assert(before[i - 1] < before[j - 1]);
        }
    }
    assert forall|id: i32| after.contains(id) <==> (before.contains(id) || id == card_id) by {
        if after.contains(id) {
            let k = choose|k: int| 0 <= k < after.len() && after[k] == id;
            if k < at {
                assert(before[k] == id);
            } else if k > at {
                assert(before[k - 1] == id);
            }
        }
        if before.contains(id) {
            let k = choose|k: int| 0 <= k < before.len() && before[k] == id;
            if k < at {
                assert(after[k] == id);
            } else {
                assert(after[k + 1] == id);
            }
        }
        assert(after[at] == card_id);
    }
}

/// The card ids of a multiset in ascending order, whatever the order in
/// which the map hands them out.
fn ascending_keys(cards: &HashMap<i32, u16>) -> (ids: Vec<i32>)
    ensures
        lists_keys(ids@, cards@),
{
    let mut ids: Vec<i32> = Vec::new();
    for entry in it: cards.iter()
        invariant
            ascending(ids@),
            forall|id: i32| #[trigger] ids@.contains(id) ==> cards@.contains_key(id),
            forall|k: int| 0 <= k < it.index() ==> ids@.contains(*(#[trigger] it.seq()[k]).0),
    {
        let (card_id, _) = entry;
        insert_ascending(&mut ids, *card_id);
    }
    ids
}

/// A multiset has one ascending list of its card ids.
pub proof fn lemma_key_list_unique(first: Seq<i32>, second: Seq<i32>, cards: Map<i32, u16>)
    requires
        lists_keys(first, cards),
        lists_keys(second, cards),
    ensures
        first == second,
    decreases first.len(),
{
    if first.len() == 0 {
        if second.len() > 0 {
            assert(second.contains(second[0]));
            assert(first.contains(second[0]));
        }
        assert(first =~= second);
    } else {
        let top = first.last();
        assert(first.contains(first[first.len() - 1]));
        assert(second.contains(top));
        let at = choose|k: int| 0 <= k < second.len() && second[k] == top;
        let other_top = second.last();
        assert(second.contains(second[second.len() - 1]));
        assert(first.contains(other_top));
        let other_at = choose|k: int| 0 <= k < first.len() && first[k] == other_top;
        assert(top == other_top);
        let fewer = cards.remove(top);
        let shorter_first = first.drop_last();
        let shorter_second = second.drop_last();
        assert forall|card_id: i32| shorter_first.contains(card_id) <==> fewer.contains_key(
            card_id,
        ) by {
            if shorter_first.contains(card_id) {
                let k = choose|k: int| 0 <= k < shorter_first.len() && shorter_first[k] == card_id;
                assert(first[k] == card_id);
                assert(first.contains(card_id));
            }
            if fewer.contains_key(card_id) {
                assert(first.contains(card_id));
                let k = choose|k: int| 0 <= k < first.len() && first[k] == card_id;
                assert(shorter_first[k] == card_id);
            }
        }
        assert forall|card_id: i32| shorter_second.contains(card_id) <==> fewer.contains_key(
            card_id,
        ) by {
            if shorter_second.contains(card_id) {
                let k = choose|k: int|
                    0 <= k < shorter_second.len() && shorter_second[k] == card_id;
                assert(second[k] == card_id);
                assert(second.contains(card_id));
            }
            if fewer.contains_key(card_id) {
                assert(second.contains(card_id));
                let k = choose|k: int| 0 <= k < second.len() && second[k] == card_id;
                assert(shorter_second[k] == card_id);
            }
        }
        assert(ascending(shorter_first)) by {
            assert forall|i: int, j: int| 0 <= i < j < shorter_first.len() implies shorter_first[i]
                < shorter_first[j] by {
                assert(first[i] < first[j]);
            }
        }
        assert(ascending(shorter_second)) by {
            assert forall|i: int, j: int|
                0 <= i < j < shorter_second.len() implies shorter_second[i]
                < shorter_second[j] by {
                assert(second[i] < second[j]);
            }
        }
        lemma_key_list_unique(shorter_first, shorter_second, fewer);
        assert(first =~= shorter_first.push(top));
        assert(second =~= shorter_second.push(other_top));
    }
}

/// A decklist of one game: the main deck and the sideboard as card ids, one
/// for every physical copy.
#[derive(Debug)]
pub struct DeckList {
    pub game_number: i32,
    pub cards: Vec<i32>,
    pub sideboard: Vec<i32>,
}

/// What changed between two decklists: the cards that came in and the cards
/// that went out, each list in rank order.
#[derive(Debug)]
pub struct DeckDifference {
    pub added: Vec<Card>,
    pub removed: Vec<Card>,
}

/// The mathematical content of a [`DeckDifference`].
pub struct DeckDifferenceView {
    pub added: Seq<CardView>,
    pub removed: Seq<CardView>,
}

impl View for DeckDifference {
    type V = DeckDifferenceView;

    open spec fn view(&self) -> DeckDifferenceView {
        DeckDifferenceView { added: card_views(self.added@), removed: card_views(self.removed@) }
    }
}

/// The difference between the main decks `prev` and `next`: added is what
/// `next` has that `prev` lacks, removed is what `prev` has that `next`
/// lacks.
pub open spec fn difference_of(
    prev: Seq<i32>,
    next: Seq<i32>,
    catalog: Map<i32, CardEntryView>,
) -> DeckDifferenceView {
    DeckDifferenceView {
        added: aggregate_of(missing_of(quantities_of(next), quantities_of(prev)), catalog),
        removed: aggregate_of(missing_of(quantities_of(prev), quantities_of(next)), catalog),
    }
}

impl DeckList {
    /// Both sections of the decklist can be counted.
    pub open spec fn countable(&self) -> bool {
        countable(self.cards@) && countable(self.sideboard@)
    }

    /// Whether both sections of the decklist can be counted: whether no
    /// card id occurs more than 65535 times in the main deck or in the
    /// sideboard.
    pub fn is_countable(&self) -> (fits: bool)
        ensures
            fits == self.countable(),
    {
        is_countable(self.cards.as_slice()) && is_countable(self.sideboard.as_slice())
    }

    /// The multiset of the main deck.
    pub fn quantities(&self) -> (cards: HashMap<i32, u16>)
        requires
            countable(self.cards@),
        ensures
            cards@ == quantities_of(self.cards@),
    {
        quantities(self.cards.as_slice())
    }

    /// The multiset of the sideboard.
    pub fn sideboard_quantities(&self) -> (cards: HashMap<i32, u16>)
        requires
            countable(self.sideboard@),
        ensures
            cards@ == quantities_of(self.sideboard@),
    {
        quantities(self.sideboard.as_slice())
    }
}

impl DeckDifference {
    /// A difference made of the two lists as they are.
    pub fn new(added: Vec<Card>, removed: Vec<Card>) -> (diff: Self)
        ensures
            diff.added == added,
            diff.removed == removed,
    {
        DeckDifference { added, removed }
    }

    /// What `wanted` has that `held` lacks.
    pub fn missing_cards(wanted: &HashMap<i32, u16>, held: &HashMap<i32, u16>) -> (missing:
        HashMap<i32, u16>)
        ensures
            missing@ == missing_of(wanted@, held@),
    {
        let mut missing: HashMap<i32, u16> = HashMap::new();
        for entry in it: wanted.iter()
            invariant
                forall|card_id: i32| #[trigger]
                    missing@.contains_key(card_id) ==> missing_of(wanted@, held@).contains_key(
                        card_id,
                    ) && missing@[card_id] == missing_of(wanted@, held@)[card_id],
                forall|k: int|
                    0 <= k < it.index() && missing_of(wanted@, held@).contains_key(
                        *(#[trigger] it.seq()[k]).0,
                    ) ==> missing@.contains_key(*it.seq()[k].0),
        {
            let (card_id, quantity) = entry;
            let have: u16 = match held.get(card_id) {
                Some(q) => *q,
                None => 0,
            };
            if *quantity > have {
                missing.insert(*card_id, *quantity - have);
            }
        }
        proof {
            assert(missing@ =~= missing_of(wanted@, held@));
        }
        missing
    }

    /// The display list of a multiset: one card for every card id, with its
    /// count as quantity, sorted by mana value and then by name. Cards that
    /// agree in both stand in ascending order of their card ids. A card id
    /// that the catalog does not know is listed under the id itself.
    pub fn aggregate(collection: &HashMap<i32, u16>, catalog: &CardCatalog) -> (cards: Vec<Card>)
        ensures
            card_views(cards@) == aggregate_of(collection@, catalog@),
            ranked(card_views(cards@)),
            cards.len() == collection@.len(),
    {
        let ids = ascending_keys(collection);
        proof {
            lemma_key_list_unique(ids@, key_list(collection@), collection@);
            lemma_key_list_len(ids@, collection@);
        }
        let mut list: Vec<Card> = Vec::new();
        let mut at: usize = 0;
        while at < ids.len()
            invariant
                at <= ids.len(),
                list.len() == at,
                lists_keys(ids@, collection@),
                forall|i: int|
                    0 <= i < at ==> (#[trigger] list@[i])@ == display_of(
                        ids@[i],
                        collection@[ids@[i]],
                        entry_for(catalog@, ids@[i]),
                    ),
            decreases ids.len() - at,
        {
            let card_id = ids[at];
            assert(ids@.contains(ids@[at as int]));
            let quantity: u16 = match collection.get(&card_id) {
                Some(q) => *q,
                None => 0,
            };
            let card = Card::for_display(card_id, quantity, catalog.get(card_id));
            list.push(card);
            at = at + 1;
        }
        proof {
            assert(card_views(list@) =~= listed(ids@, collection@, catalog@));
        }
        sort_cards(list)
    }

    /// What changed from `deck1` to `deck2`, main decks only. Both main
    /// decks must be ones that can be counted.
    pub fn difference(deck1: &DeckList, deck2: &DeckList, catalog: &CardCatalog) -> (diff: Self)
        requires
            countable(deck1.cards@),
            countable(deck2.cards@),
        ensures
            diff@ == difference_of(deck1.cards@, deck2.cards@, catalog@),
            ranked(diff@.added),
            ranked(diff@.removed),
    {
        let deck1_quantities = deck1.quantities();
        let deck2_quantities = deck2.quantities();
        let added = Self::missing_cards(&deck2_quantities, &deck1_quantities);
        let removed = Self::missing_cards(&deck1_quantities, &deck2_quantities);
        let added = Self::aggregate(&added, catalog);
        let removed = Self::aggregate(&removed, catalog);
        Self::new(added, removed)
    }
}

/// The card ids of a multiset that lie below `bound`, in ascending order.
pub open spec fn keys_below(cards: Map<i32, u16>, bound: int) -> Seq<i32>
    decreases bound - i32::MIN,
{
    if bound <= i32::MIN {
        Seq::empty()
    } else if cards.contains_key((bound - 1) as i32) {
        keys_below(cards, bound - 1).push((bound - 1) as i32)
    } else {
        keys_below(cards, bound - 1)
    }
}

/// The keys below a bound are ascending, lie below the bound, and are the
/// card ids of the multiset that do.
pub proof fn lemma_keys_below(cards: Map<i32, u16>, bound: int)
    requires
        bound <= i32::MAX + 1,
    ensures
        ascending(keys_below(cards, bound)),
        forall|card_id: i32| #[trigger]
            keys_below(cards, bound).contains(card_id) <==> (cards.contains_key(card_id)
                && card_id < bound),
    decreases bound - i32::MIN,
{
    let keys = keys_below(cards, bound);
    if bound > i32::MIN {
        let rest = keys_below(cards, bound - 1);
        let top = (bound - 1) as i32;
        lemma_keys_below(cards, bound - 1);
        assert forall|card_id: i32| keys.contains(card_id) <==> (cards.contains_key(card_id)
            && card_id < bound) by {
            if keys.contains(card_id) {
                let k = choose|k: int| 0 <= k < keys.len() && keys[k] == card_id;
                if k < rest.len() {
                    assert(rest[k] == card_id);
                    assert(rest.contains(card_id));
                }
            }
            if cards.contains_key(card_id) && card_id < bound {
                if card_id == top {
                    assert(keys[keys.len() - 1] == card_id);
                } else {
                    assert(rest.contains(card_id));
                    let k = choose|k: int| 0 <= k < rest.len() && rest[k] == card_id;
                    assert(keys[k] == card_id);
                }
            }
        }
        assert forall|i: int, j: int| 0 <= i < j < keys.len() implies keys[i] < keys[j] by {
            if j < rest.len() {
                assert(keys[i] == rest[i] && keys[j] == rest[j]);
                assert(rest[i] < rest[j]);
            } else {
                assert(keys == rest.push(top));
                assert(keys[j] == top);
                assert(rest[i] == keys[i]);
                assert(rest.contains(rest[i]));
                assert(rest[i] < bound - 1);
            }
        }
    }
}

/// Every multiset has its ascending list of card ids: `key_list` is that
/// list.
pub proof fn lemma_key_list_lists_keys(cards: Map<i32, u16>)
    ensures
        lists_keys(key_list(cards), cards),
{
    lemma_keys_below(cards, i32::MAX + 1);
    assert(lists_keys(keys_below(cards, i32::MAX + 1), cards));
}

/// The ascending list of the card ids of a multiset has one entry for each.
pub proof fn lemma_key_list_len(ids: Seq<i32>, cards: Map<i32, u16>)
    requires
        lists_keys(ids, cards),
    ensures
        cards.dom().finite(),
        ids.len() == cards.len(),
{
    assert(ids.no_duplicates());
    ids.unique_seq_to_set();
    assert(ids.to_set() =~= cards.dom());
}

/// The decklists stand in the order of their games.
pub open spec fn in_game_order(decklists: Seq<DeckList>) -> bool {
    forall|i: int, j: int|
        0 <= i < j < decklists.len() ==> decklists[i].game_number <= decklists[j].game_number
}

/// Decklists in game order with one more, put behind every decklist whose
/// game is not later than its own.
pub open spec fn placed_by_game(ordered: Seq<DeckList>, deck: DeckList) -> Seq<DeckList>
    decreases ordered.len(),
{
    if ordered.len() == 0 {
        seq![deck]
    } else if deck.game_number < ordered.last().game_number {
        placed_by_game(ordered.drop_last(), deck).push(ordered.last())
    } else {
        ordered.push(deck)
    }
}

/// The decklists in the order of their games; decklists of the same game
/// number keep the order they had.
pub open spec fn game_order(decklists: Seq<DeckList>) -> Seq<DeckList>
    decreases decklists.len(),
{
    if decklists.len() == 0 {
        Seq::empty()
    } else {
        placed_by_game(game_order(decklists.drop_last()), decklists.last())
    }
}

/// The decklists that a list of positions picks, in the order of the list.
pub open spec fn picked(order: Seq<usize>, decklists: Seq<DeckList>) -> Seq<DeckList> {
    Seq::new(order.len(), |i: int| decklists[order[i] as int])
}

/// `differences` are the differences across the decklists of a match: none
/// for fewer than two decklists, and otherwise, with the decklists in game
/// order, one for every decklist but the last, from that decklist to the
/// one after it.
pub open spec fn spans_match(
    differences: Option<Vec<DeckDifference>>,
    decklists: Seq<DeckList>,
    catalog: Map<i32, CardEntryView>,
) -> bool {
    &&& differences is None <==> decklists.len() < 2
    &&& differences matches Some(list) ==> {
        &&& list.len() == decklists.len() - 1
        &&& forall|i: int|
            0 <= i < list.len() ==> (#[trigger] list@[i])@ == difference_of(
                game_order(decklists)[i].cards@,
                game_order(decklists)[i + 1].cards@,
                catalog,
            )
    }
}

/// A decklist is placed at the position behind which every game is later
/// and before which the next game is not.
proof fn lemma_placed_at(ordered: Seq<DeckList>, deck: DeckList, at: int)
    requires
        0 <= at <= ordered.len(),
        forall|j: int| at <= j < ordered.len() ==> deck.game_number < ordered[j].game_number,
        at > 0 ==> ordered[at - 1].game_number <= deck.game_number,
    ensures
        placed_by_game(ordered, deck) == ordered.insert(at, deck),
    decreases ordered.len(),
{
    if ordered.len() == 0 {
        assert(ordered.insert(at, deck) =~= seq![deck]);
    } else if at < ordered.len() {
        let shorter = ordered.drop_last();
        assert(deck.game_number < ordered[ordered.len() - 1].game_number);
        assert forall|j: int| at <= j < shorter.len() implies deck.game_number
            < shorter[j].game_number by {
            assert(shorter[j] == ordered[j]);
        }
        if at > 0 {
            assert(shorter[at - 1] == ordered[at - 1]);
        }
        lemma_placed_at(shorter, deck, at);
        assert(shorter.insert(at, deck).push(ordered.last()) =~= ordered.insert(at, deck));
    } else {
        assert(ordered.push(deck) =~= ordered.insert(at, deck));
    }
}

/// Placing a decklist keeps the game order and adds one decklist.
proof fn lemma_placed_in_order(ordered: Seq<DeckList>, deck: DeckList)
    requires
        in_game_order(ordered),
    ensures
        in_game_order(placed_by_game(ordered, deck)),
        placed_by_game(ordered, deck).len() == ordered.len() + 1,
        forall|i: int|
            0 <= i < placed_by_game(ordered, deck).len() ==> (#[trigger] placed_by_game(
                ordered,
                deck,
            )[i]) == deck || ordered.contains(placed_by_game(ordered, deck)[i]),
    decreases ordered.len(),
{
    let placed = placed_by_game(ordered, deck);
    if ordered.len() == 0 {
    } else if deck.game_number < ordered.last().game_number {
        let shorter = ordered.drop_last();
        let last = ordered.last();
        assert(in_game_order(shorter)) by {
            assert forall|i: int, j: int| 0 <= i < j < shorter.len() implies shorter[i].game_number
                <= shorter[j].game_number by {
                assert(ordered[i].game_number <= ordered[j].game_number);
            }
        }
        lemma_placed_in_order(shorter, deck);
        let inner = placed_by_game(shorter, deck);
        assert(placed == inner.push(last));
        assert forall|i: int| 0 <= i < placed.len() implies (#[trigger] placed[i]) == deck
            || ordered.contains(placed[i]) by {
            if i < inner.len() {
                assert(placed[i] == inner[i]);
                if inner[i] != deck {
                    let k = choose|k: int| 0 <= k < shorter.len() && shorter[k] == inner[i];
                    assert(ordered[k] == inner[i]);
                }
            } else {
                assert(ordered[ordered.len() - 1] == placed[i]);
            }
        }
        assert forall|i: int, j: int| 0 <= i < j < placed.len() implies placed[i].game_number
            <= placed[j].game_number by {
            if j < inner.len() {
                assert(inner[i].game_number <= inner[j].game_number);
            } else {
                assert(placed[i] == inner[i]);
                if inner[i] != deck {
                    let k = choose|k: int| 0 <= k < shorter.len() && shorter[k] == inner[i];
                    assert(ordered[k].game_number <= ordered[ordered.len() - 1].game_number);
                }
            }
        }
    } else {
        assert forall|i: int| 0 <= i < placed.len() implies (#[trigger] placed[i]) == deck
            || ordered.contains(placed[i]) by {
            if i < ordered.len() {
                assert(ordered[i] == placed[i]);
            }
        }
        assert forall|i: int, j: int| 0 <= i < j < placed.len() implies placed[i].game_number
            <= placed[j].game_number by {
            if j < ordered.len() {
                assert(ordered[i].game_number <= ordered[j].game_number);
            } else if i < ordered.len() - 1 {
                assert(ordered[i].game_number <= ordered[ordered.len() - 1].game_number);
            }
        }
    }
}

/// The game order of decklists is in game order and has every decklist.
pub proof fn law_game_order_is_ordered(decklists: Seq<DeckList>)
    ensures
        in_game_order(game_order(decklists)),
        game_order(decklists).len() == decklists.len(),
    decreases decklists.len(),
{
    if decklists.len() > 0 {
        law_game_order_is_ordered(decklists.drop_last());
        lemma_placed_in_order(game_order(decklists.drop_last()), decklists.last());
    }
}

/// Decklists that stand in game order already are their own game order.
pub proof fn law_game_order_keeps_ordered_decklists(decklists: Seq<DeckList>)
    requires
        in_game_order(decklists),
    ensures
        game_order(decklists) == decklists,
    decreases decklists.len(),
{
    if decklists.len() > 0 {
        let shorter = decklists.drop_last();
        assert(in_game_order(shorter)) by {
            assert forall|i: int, j: int| 0 <= i < j < shorter.len() implies shorter[i].game_number
                <= shorter[j].game_number by {
                assert(decklists[i].game_number <= decklists[j].game_number);
            }
        }
        law_game_order_keeps_ordered_decklists(shorter);
        if shorter.len() > 0 {
            assert(shorter[shorter.len() - 1].game_number <= decklists[decklists.len()
                - 1].game_number);
        }
        lemma_placed_at(shorter, decklists.last(), shorter.len() as int);
        assert(shorter.insert(shorter.len() as int, decklists.last()) =~= decklists);
    } else {
        assert(decklists =~= Seq::<DeckList>::empty());
    }
}

/// The positions of the decklists in the order of their games.
fn game_order_positions(decklists: &Vec<DeckList>) -> (order: Vec<usize>)
    ensures
        order.len() == decklists.len(),
        forall|i: int| 0 <= i < order.len() ==> (#[trigger] order@[i]) < decklists.len(),
        picked(order@, decklists@) == game_order(decklists@),
{
    let mut order: Vec<usize> = Vec::new();
    let mut next: usize = 0;
    assert(picked(order@, decklists@) =~= game_order(decklists@.take(0)));
    while next < decklists.len()
        invariant
            next <= decklists.len(),
            order.len() == next,
            forall|i: int| 0 <= i < order.len() ==> (#[trigger] order@[i]) < decklists.len(),
            picked(order@, decklists@) == game_order(decklists@.take(next as int)),
        decreases decklists.len() - next,
    {
        let game = decklists[next].game_number;
        let ghost before = order@;
        let ghost ordered = picked(before, decklists@);
        let mut at: usize = order.len();
        while at > 0 && game < decklists[order[at - 1]].game_number
            invariant
                at <= order.len(),
                order@ == before,
                next < decklists.len(),
                game == decklists@[next as int].game_number,
                ordered == picked(before, decklists@),
                forall|i: int| 0 <= i < order.len() ==> (#[trigger] order@[i]) < decklists.len(),
                forall|j: int| at <= j < ordered.len() ==> game < (#[trigger] ordered[j]).game_number,
            decreases at,
        {
            at = at - 1;
        }
        order.insert(at, next);
        proof {
            if at > 0 {
                assert(ordered[at - 1].game_number <= game);
            }
            lemma_placed_at(ordered, decklists@[next as int], at as int);
            assert(picked(order@, decklists@) =~= ordered.insert(
                at as int,
                decklists@[next as int],
            ));
            assert(decklists@.take(next + 1).drop_last() =~= decklists@.take(next as int));
        }
        next = next + 1;
    }
    assert(decklists@.take(next as int) =~= decklists@);
    order
}

/// The differences across a match: with the decklists in the order of
/// their games, one for every two decklists that follow one another. A
/// match with fewer than two decklists has none.
pub fn match_differences(decklists: &Vec<DeckList>, catalog: &CardCatalog) -> (differences:
    Option<Vec<DeckDifference>>)
    requires
        forall|i: int| 0 <= i < decklists.len() ==> countable((#[trigger] decklists@[i]).cards@),
    ensures
        spans_match(differences, decklists@, catalog@),
        differences matches Some(list) ==> forall|i: int|
            0 <= i < list.len() ==> ranked((#[trigger] list@[i])@.added) && ranked(
                list@[i]@.removed,
            ),
{
    if decklists.len() < 2 {
        return None;
    }
    let order = game_order_positions(decklists);
    let ghost ordered = game_order(decklists@);
    let mut list: Vec<DeckDifference> = Vec::new();
    let mut at: usize = 0;
    while at + 1 < order.len()
        invariant
            at + 1 <= order.len(),
            order.len() == decklists.len(),
            list.len() == at,
            ordered == picked(order@, decklists@),
            forall|i: int|
                0 <= i < decklists.len() ==> countable((#[trigger] decklists@[i]).cards@),
            forall|i: int| 0 <= i < order.len() ==> (#[trigger] order@[i]) < decklists.len(),
            forall|i: int|
                0 <= i < at ==> (#[trigger] list@[i])@ == difference_of(
                    ordered[i].cards@,
                    ordered[i + 1].cards@,
                    catalog@,
                ),
            forall|i: int|
                0 <= i < at ==> ranked((#[trigger] list@[i])@.added) && ranked(list@[i]@.removed),
        decreases order.len() - at,
    {
        let diff = DeckDifference::difference(
            &decklists[order[at]],
            &decklists[order[at + 1]],
            catalog,
        );
        assert(ordered[at as int] == decklists@[order@[at as int] as int]);
        assert(ordered[at + 1] == decklists@[order@[at + 1] as int]);
        list.push(diff);
        at = at + 1;
    }
    Some(list)
}

/// The count of a card id in a decklist section is the number of times the
/// id occurs, as long as that number fits a count.
pub proof fn lemma_quantities_count(deck: Seq<i32>, card_id: i32)
    requires
        copies(deck, card_id) <= u16::MAX,
    ensures
        count_in(quantities_of(deck), card_id) == deck.to_multiset().count(card_id),
{
    lemma_copies(deck, card_id);
}

/// `copies` counts as the multiset of the sequence does, and never beyond
/// the length of the sequence; it is zero exactly for an id that does not
/// occur.
pub proof fn lemma_copies(deck: Seq<i32>, card_id: i32)
    ensures
        copies(deck, card_id) == deck.to_multiset().count(card_id),
        copies(deck, card_id) <= deck.len(),
        copies(deck, card_id) > 0 <==> deck.contains(card_id),
    decreases deck.len(),
{
    broadcast use vstd::seq_lib::group_to_multiset_ensures;

    if deck.len() == 0 {
        assert(deck.to_multiset().count(card_id) == 0) by {
            deck.to_multiset_ensures();
        }
    } else {
        let shorter = deck.drop_last();
        lemma_copies(shorter, card_id);
        assert(deck =~= shorter.push(deck.last()));
        assert(deck.to_multiset() =~= shorter.to_multiset().insert(deck.last()));
        deck.to_multiset_ensures();
    }
}

/// What is missing never exceeds what is wanted, holds no count of zero,
/// and is for every card id the count wanted less the count held, or
/// nothing where the count held is as large.
pub proof fn law_missing_is_clipped_difference(
    wanted: Map<i32, u16>,
    held: Map<i32, u16>,
    card_id: i32,
)
    ensures
        count_in(missing_of(wanted, held), card_id) == if count_in(wanted, card_id) > count_in(
            held,
            card_id,
        ) {
            count_in(wanted, card_id) - count_in(held, card_id)
        } else {
            0
        },
        missing_of(wanted, held).contains_key(card_id) ==> missing_of(wanted, held)[card_id] > 0,
{
}

/// For a card id whose copies in both decklists fit a count, what the
/// first decklist has that the second lacks is the difference of their
/// multisets, which stops at zero.
pub proof fn law_missing_is_multiset_difference(first: Seq<i32>, second: Seq<i32>, card_id: i32)
    requires
        copies(first, card_id) <= u16::MAX,
        copies(second, card_id) <= u16::MAX,
    ensures
        count_in(missing_of(quantities_of(first), quantities_of(second)), card_id)
            == first.to_multiset().sub(second.to_multiset()).count(card_id),
{
    lemma_quantities_count(first, card_id);
    lemma_quantities_count(second, card_id);
    law_missing_is_clipped_difference(quantities_of(first), quantities_of(second), card_id);
}

/// Every card id that the multiset of a decklist section holds is held
/// with the number of times it occurs, and that is never zero.
pub proof fn law_counts_are_occurrences(deck: Seq<i32>, card_id: i32)
    requires
        countable(deck),
    ensures
        quantities_of(deck).contains_key(card_id) <==> deck.contains(card_id),
        quantities_of(deck).contains_key(card_id) ==> quantities_of(deck)[card_id] == copies(
            deck,
            card_id,
        ) && quantities_of(deck)[card_id] >= 1,
        count_in(quantities_of(deck), card_id) == copies(deck, card_id),
{
    lemma_copies(deck, card_id);
}

/// Taking out of `prev` what was removed and putting in what was added
/// gives `next`; no card id is both added and removed, and nothing is
/// removed that `prev` does not have.
pub proof fn law_applying_difference_gives_next(
    prev: Map<i32, u16>,
    next: Map<i32, u16>,
    card_id: i32,
)
    ensures
        ({
            let added = count_in(missing_of(next, prev), card_id);
            let removed = count_in(missing_of(prev, next), card_id);
            &&& count_in(prev, card_id) - removed + added == count_in(next, card_id)
            &&& !(added > 0 && removed > 0)
            &&& removed <= count_in(prev, card_id)
        }),
{
}

/// For decklists that can be counted, taking out of `prev` the copies that
/// the difference removes and putting in those that it adds gives the
/// copies of `next`, for every card id.
pub proof fn law_difference_turns_prev_into_next(prev: Seq<i32>, next: Seq<i32>, card_id: i32)
    requires
        countable(prev),
        countable(next),
    ensures
        ({
            let added = count_in(missing_of(quantities_of(next), quantities_of(prev)), card_id);
            let removed = count_in(missing_of(quantities_of(prev), quantities_of(next)), card_id);
            &&& copies(prev, card_id) - removed + added == copies(next, card_id)
            &&& !(added > 0 && removed > 0)
            &&& removed <= copies(prev, card_id)
        }),
{
    law_counts_are_occurrences(prev, card_id);
    law_counts_are_occurrences(next, card_id);
    law_applying_difference_gives_next(quantities_of(prev), quantities_of(next), card_id);
}

/// A multiset lacks nothing of itself.
pub proof fn lemma_nothing_missing_of_itself(cards: Map<i32, u16>)
    ensures
        missing_of(cards, cards) == Map::<i32, u16>::empty(),
{
    assert(missing_of(cards, cards) =~= Map::<i32, u16>::empty());
}

/// The display list of the empty multiset is empty.
pub proof fn lemma_aggregate_of_nothing(catalog: Map<i32, CardEntryView>)
    ensures
        aggregate_of(Map::<i32, u16>::empty(), catalog) == Seq::<CardView>::empty(),
{
    let none = Map::<i32, u16>::empty();
    let no_ids = Seq::<i32>::empty();
    assert(lists_keys(no_ids, none));
    lemma_key_list_unique(no_ids, key_list(none), none);
    assert(listed(no_ids, none, catalog) =~= Seq::<CardView>::empty());
}

/// Between a decklist and itself nothing was added and nothing removed.
pub proof fn law_difference_of_equal_decks_is_empty(
    deck: Seq<i32>,
    catalog: Map<i32, CardEntryView>,
)
    ensures
        difference_of(deck, deck, catalog).added == Seq::<CardView>::empty(),
        difference_of(deck, deck, catalog).removed == Seq::<CardView>::empty(),
{
    lemma_nothing_missing_of_itself(quantities_of(deck));
    lemma_aggregate_of_nothing(catalog);
}

/// What was added going one way is what was removed going the other way.
pub proof fn law_difference_is_symmetric(
    prev: Seq<i32>,
    next: Seq<i32>,
    catalog: Map<i32, CardEntryView>,
)
    ensures
        difference_of(prev, next, catalog).added == difference_of(next, prev, catalog).removed,
        difference_of(prev, next, catalog).removed == difference_of(next, prev, catalog).added,
{
}

/// Both lists of a difference are in rank order, and sorting them again
/// changes nothing.
pub proof fn law_difference_lists_are_sorted(
    prev: Seq<i32>,
    next: Seq<i32>,
    catalog: Map<i32, CardEntryView>,
)
    ensures
        ranked(difference_of(prev, next, catalog).added),
        ranked(difference_of(prev, next, catalog).removed),
        ranking(difference_of(prev, next, catalog).added) == difference_of(
            prev,
            next,
            catalog,
        ).added,
        ranking(difference_of(prev, next, catalog).removed) == difference_of(
            prev,
            next,
            catalog,
        ).removed,
{
    let added = missing_of(quantities_of(next), quantities_of(prev));
    let removed = missing_of(quantities_of(prev), quantities_of(next));
    law_ranking_idempotent(listed(key_list(added), added, catalog));
    law_ranking_idempotent(listed(key_list(removed), removed, catalog));
}

} // verus!

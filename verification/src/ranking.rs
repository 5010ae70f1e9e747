//! The order in which cards are listed, and sorting by it.
//!
//! Cards are ranked by mana value, then by name. Two cards of the same mana
//! value and name have the same rank; a sort keeps such cards in the order in
//! which it found them.

use vstd::prelude::*;
use itertools::Itertools;
use std::cmp::Ordering;
use crate::card::{card_views, Card, CardView};
use crate::text::{
    lemma_lex_asymmetric, lemma_lex_irreflexive, lemma_lex_total, lemma_lex_transitive,
    lex_before, text_before,
};

verus! {

/// `a` is listed strictly before `b`: lower mana value first, and among
/// equal mana values the name that comes first.
pub open spec fn rank_before(a: CardView, b: CardView) -> bool {
    a.mana_value < b.mana_value || (a.mana_value == b.mana_value && lex_before(a.name, b.name))
}

/// The card has the given mana value and name.
pub open spec fn has_rank(c: CardView, mana_value: i16, name: Seq<char>) -> bool {
    c.mana_value == mana_value && c.name == name
}

/// Neither card is listed before the other.
pub open spec fn same_rank(a: CardView, b: CardView) -> bool {
    has_rank(a, b.mana_value, b.name)
}

/// No card of the list ranks before one that stands earlier.
pub open spec fn ranked(cards: Seq<CardView>) -> bool {
    forall|i: int, j: int| 0 <= i < j < cards.len() ==> !rank_before(cards[j], cards[i])
}

/// The cards of one rank, in the order in which the list has them.
pub open spec fn of_rank(cards: Seq<CardView>, mana_value: i16, name: Seq<char>) -> Seq<CardView>
    decreases cards.len(),
{
    if cards.len() == 0 {
        Seq::empty()
    } else if has_rank(cards.last(), mana_value, name) {
        of_rank(cards.drop_last(), mana_value, name).push(cards.last())
    } else {
        of_rank(cards.drop_last(), mana_value, name)
    }
}

/// `sorted` is `cards` put in rank order by a stable sort: it is as long, it
/// is ranked, and for every rank it holds the same cards in the same order.
pub open spec fn is_ranking_of(sorted: Seq<CardView>, cards: Seq<CardView>) -> bool {
    &&& sorted.len() == cards.len()
    &&& ranked(sorted)
    &&& forall|mana_value: i16, name: Seq<char>| #[trigger]
        of_rank(sorted, mana_value, name) == of_rank(cards, mana_value, name)
}

/// A ranked list with one more card, put behind every card that does not
/// rank after it.
pub open spec fn place(sorted: Seq<CardView>, card: CardView) -> Seq<CardView>
    decreases sorted.len(),
{
    if sorted.len() == 0 {
        seq![card]
    } else if rank_before(card, sorted.last()) {
        place(sorted.drop_last(), card).push(sorted.last())
    } else {
        sorted.push(card)
    }
}

/// The cards in rank order, cards of equal rank in the order they had.
pub open spec fn ranking(cards: Seq<CardView>) -> Seq<CardView>
    decreases cards.len(),
{
    if cards.len() == 0 {
        Seq::empty()
    } else {
        place(ranking(cards.drop_last()), cards.last())
    }
}

/// No card ranks before itself.
pub proof fn lemma_rank_irreflexive(a: CardView)
    ensures
        !rank_before(a, a),
{
    lemma_lex_irreflexive(a.name);
}

/// Of two cards at most one ranks before the other.
pub proof fn lemma_rank_asymmetric(a: CardView, b: CardView)
    requires
        rank_before(a, b),
    ensures
        !rank_before(b, a),
{
    if a.mana_value == b.mana_value {
        lemma_lex_asymmetric(a.name, b.name);
    }
}

/// Ranking before is transitive.
pub proof fn lemma_rank_transitive(a: CardView, b: CardView, c: CardView)
    requires
        rank_before(a, b),
        rank_before(b, c),
    ensures
        rank_before(a, c),
{
    if a.mana_value == b.mana_value && b.mana_value == c.mana_value {
        lemma_lex_transitive(a.name, b.name, c.name);
    }
}

/// Two cards are ordered one way or the other unless they agree in mana
/// value and name: the order is total on ranks.
pub proof fn lemma_rank_total(a: CardView, b: CardView)
    ensures
        rank_before(a, b) || rank_before(b, a) || same_rank(a, b),
{
    lemma_lex_total(a.name, b.name);
}

/// A card that does not rank after `b` does not rank after anything that
/// `b` does not rank after.
pub proof fn lemma_rank_not_before_chains(a: CardView, b: CardView, c: CardView)
    requires
        !rank_before(b, a),
        !rank_before(c, b),
    ensures
        !rank_before(c, a),
{
    if rank_before(c, a) {
        lemma_rank_total(a, b);
        if rank_before(a, b) {
            lemma_rank_transitive(c, a, b);
        }
    }
}

/// Where a list has cards of some rank, one of its positions holds such a
/// card.
proof fn lemma_of_rank_found(cards: Seq<CardView>, mana_value: i16, name: Seq<char>)
    requires
        of_rank(cards, mana_value, name).len() > 0,
    ensures
        exists|j: int| 0 <= j < cards.len() && has_rank(#[trigger] cards[j], mana_value, name),
    decreases cards.len(),
{
    if has_rank(cards.last(), mana_value, name) {
        assert(has_rank(cards[cards.len() - 1], mana_value, name));
    } else {
        lemma_of_rank_found(cards.drop_last(), mana_value, name);
        let j = choose|j: int|
            0 <= j < cards.drop_last().len() && has_rank(
                #[trigger] cards.drop_last()[j],
                mana_value,
                name,
            );
        assert(cards[j] == cards.drop_last()[j]);
    }
}

/// In a ranked list that has cards of the rank of `card`, the last card does
/// not rank before `card`.
proof fn lemma_last_not_before(cards: Seq<CardView>, card: CardView)
    requires
        ranked(cards),
        of_rank(cards, card.mana_value, card.name).len() > 0,
    ensures
        !rank_before(cards.last(), card),
{
    lemma_of_rank_found(cards, card.mana_value, card.name);
    let j = choose|j: int|
        0 <= j < cards.len() && has_rank(#[trigger] cards[j], card.mana_value, card.name);
    if j < cards.len() - 1 {
        assert(!rank_before(cards[cards.len() - 1], cards[j]));
    }
    lemma_lex_irreflexive(card.name);
}

/// A stable sort has one result: two ranked lists that hold, for every rank,
/// the same cards in the same order are the same list.
pub proof fn lemma_ranking_unique(first: Seq<CardView>, second: Seq<CardView>)
    requires
        first.len() == second.len(),
        ranked(first),
        ranked(second),
        forall|mana_value: i16, name: Seq<char>| #[trigger]
            of_rank(first, mana_value, name) == of_rank(second, mana_value, name),
    ensures
        first == second,
    decreases first.len(),
{
    if first.len() == 0 {
        assert(first =~= second);
    } else {
        let x = first.last();
        let y = second.last();
        let shorter_first = first.drop_last();
        let shorter_second = second.drop_last();
        assert(of_rank(first, x.mana_value, x.name) == of_rank(
            shorter_first,
            x.mana_value,
            x.name,
        ).push(x));
        assert(of_rank(second, y.mana_value, y.name) == of_rank(
            shorter_second,
            y.mana_value,
            y.name,
        ).push(y));
        assert(of_rank(second, x.mana_value, x.name) == of_rank(first, x.mana_value, x.name));
        assert(of_rank(first, y.mana_value, y.name) == of_rank(second, y.mana_value, y.name));
        lemma_last_not_before(second, x);
        lemma_last_not_before(first, y);
        lemma_rank_total(x, y);
        assert(same_rank(x, y));
        // the two lists end in the same card
        let ending = of_rank(shorter_second, x.mana_value, x.name).push(y);
        assert(of_rank(second, x.mana_value, x.name) == ending);
        assert(ending.last() == y);
        assert(of_rank(shorter_first, x.mana_value, x.name).push(x).last() == x);
        assert(x == y);
        // and agree on every rank before it
        assert forall|mana_value: i16, name: Seq<char>| #[trigger]
            of_rank(shorter_first, mana_value, name) == of_rank(
                shorter_second,
                mana_value,
                name,
            ) by {
            assert(of_rank(first, mana_value, name) == of_rank(second, mana_value, name));
            if has_rank(x, mana_value, name) {
                let a = of_rank(shorter_first, mana_value, name);
                let b = of_rank(shorter_second, mana_value, name);
                assert(a.push(x) == b.push(x));
                assert(a.push(x).drop_last() =~= a);
                assert(b.push(x).drop_last() =~= b);
            }
        }
        assert(ranked(shorter_first)) by {
            assert forall|i: int, j: int| 0 <= i < j < shorter_first.len() implies !rank_before(
                shorter_first[j],
                shorter_first[i],
            ) by {
                assert(!rank_before(first[j], first[i]));
            }
        }
        assert(ranked(shorter_second)) by {
            assert forall|i: int, j: int| 0 <= i < j < shorter_second.len() implies !rank_before(
                shorter_second[j],
                shorter_second[i],
            ) by {
                assert(!rank_before(second[j], second[i]));
            }
        }
        lemma_ranking_unique(shorter_first, shorter_second);
        assert(first =~= shorter_first.push(x));
        assert(second =~= shorter_second.push(y));
    }
}

/// Placing a card lengthens the list by one, keeps it ranked, adds the card
/// at the end of its rank and leaves every other rank as it was.
pub proof fn lemma_place(sorted: Seq<CardView>, card: CardView)
    requires
        ranked(sorted),
    ensures
        place(sorted, card).len() == sorted.len() + 1,
        ranked(place(sorted, card)),
        forall|i: int|
            0 <= i < place(sorted, card).len() ==> (#[trigger] place(sorted, card)[i]) == card
                || sorted.contains(place(sorted, card)[i]),
        forall|mana_value: i16, name: Seq<char>| #[trigger]
            of_rank(place(sorted, card), mana_value, name) == if has_rank(card, mana_value, name) {
                of_rank(sorted, mana_value, name).push(card)
            } else {
                of_rank(sorted, mana_value, name)
            },
    decreases sorted.len(),
{
    let placed = place(sorted, card);
    if sorted.len() == 0 {
        assert(placed.drop_last() =~= Seq::<CardView>::empty());
        assert forall|mana_value: i16, name: Seq<char>| #[trigger]
            of_rank(placed, mana_value, name) == if has_rank(card, mana_value, name) {
                of_rank(sorted, mana_value, name).push(card)
            } else {
                of_rank(sorted, mana_value, name)
            } by {
            assert(of_rank(placed.drop_last(), mana_value, name) =~= Seq::<CardView>::empty());
        }
    } else if rank_before(card, sorted.last()) {
        let last = sorted.last();
        let shorter = sorted.drop_last();
        assert(ranked(shorter)) by {
            assert forall|i: int, j: int| 0 <= i < j < shorter.len() implies !rank_before(
                shorter[j],
                shorter[i],
            ) by {
                assert(!rank_before(sorted[j], sorted[i]));
            }
        }
        lemma_place(shorter, card);
        let inner = place(shorter, card);
        assert(placed == inner.push(last));
        assert(placed.drop_last() =~= inner);
        lemma_rank_asymmetric(card, last);
        assert forall|i: int| 0 <= i < placed.len() implies (#[trigger] placed[i]) == card
            || sorted.contains(placed[i]) by {
            if i < inner.len() {
                assert(placed[i] == inner[i]);
                if inner[i] != card {
                    assert(shorter.contains(inner[i]));
                    let k = choose|k: int| 0 <= k < shorter.len() && shorter[k] == inner[i];
                    assert(sorted[k] == inner[i]);
                }
            } else {
                assert(sorted[sorted.len() - 1] == placed[i]);
            }
        }
        assert forall|i: int, j: int| 0 <= i < j < placed.len() implies !rank_before(
            placed[j],
            placed[i],
        ) by {
            if j < inner.len() {
                assert(!rank_before(inner[j], inner[i]));
            } else {
                assert(placed[j] == last);
                assert(placed[i] == inner[i]);
                if inner[i] != card {
                    assert(shorter.contains(inner[i]));
                    let k = choose|k: int| 0 <= k < shorter.len() && shorter[k] == inner[i];
                    assert(!rank_before(sorted[sorted.len() - 1], sorted[k]));
                }
            }
        }
        assert forall|mana_value: i16, name: Seq<char>| #[trigger]
            of_rank(placed, mana_value, name) == if has_rank(card, mana_value, name) {
                of_rank(sorted, mana_value, name).push(card)
            } else {
                of_rank(sorted, mana_value, name)
            } by {
            lemma_lex_irreflexive(name);
            assert(of_rank(inner, mana_value, name) == if has_rank(card, mana_value, name) {
                of_rank(shorter, mana_value, name).push(card)
            } else {
                of_rank(shorter, mana_value, name)
            });
        }
    } else {
        assert(placed == sorted.push(card));
        assert(placed.drop_last() =~= sorted);
        assert forall|i: int| 0 <= i < placed.len() implies (#[trigger] placed[i]) == card
            || sorted.contains(placed[i]) by {
            if i < sorted.len() {
                assert(sorted[i] == placed[i]);
            }
        }
        assert forall|i: int, j: int| 0 <= i < j < placed.len() implies !rank_before(
            placed[j],
            placed[i],
        ) by {
            if j < sorted.len() {
                assert(!rank_before(sorted[j], sorted[i]));
            } else {
                if i < sorted.len() - 1 {
                    assert(!rank_before(sorted[sorted.len() - 1], sorted[i]));
                    lemma_rank_not_before_chains(sorted[i], sorted.last(), card);
                }
            }
        }
    }
}

/// The ranking of a list is a stable sort of it.
pub proof fn lemma_ranking_sorts(cards: Seq<CardView>)
    ensures
        is_ranking_of(ranking(cards), cards),
    decreases cards.len(),
{
    if cards.len() > 0 {
        lemma_ranking_sorts(cards.drop_last());
        lemma_place(ranking(cards.drop_last()), cards.last());
    }
}

/// Whatever stable sort produced it, a list that is a stable sort of `cards`
/// is the ranking of `cards`.
pub proof fn lemma_ranking_is_the_stable_sort(sorted: Seq<CardView>, cards: Seq<CardView>)
    requires
        is_ranking_of(sorted, cards),
    ensures
        sorted == ranking(cards),
{
    lemma_ranking_sorts(cards);
    let r = ranking(cards);
    assert forall|mana_value: i16, name: Seq<char>| #[trigger]
        of_rank(sorted, mana_value, name) == of_rank(r, mana_value, name) by {
        assert(of_rank(sorted, mana_value, name) == of_rank(cards, mana_value, name));
        assert(of_rank(r, mana_value, name) == of_rank(cards, mana_value, name));
    }
    lemma_ranking_unique(sorted, r);
}

/// Sorting a list that is already in rank order changes nothing.
pub proof fn law_ranking_keeps_ranked_lists(cards: Seq<CardView>)
    requires
        ranked(cards),
    ensures
        ranking(cards) == cards,
{
    lemma_ranking_is_the_stable_sort(cards, cards);
}

/// Sorting twice is sorting once, and what a sort puts out is in rank order.
pub proof fn law_ranking_idempotent(cards: Seq<CardView>)
    ensures
        ranked(ranking(cards)),
        ranking(ranking(cards)) == ranking(cards),
{
    lemma_ranking_sorts(cards);
    law_ranking_keeps_ranked_lists(ranking(cards));
}

impl Card {
    /// Whether this card is listed strictly before `other`.
    pub fn ranks_before(&self, other: &Card) -> (before: bool)
        ensures
            before == rank_before(self@, other@),
    {
        self.mana_value < other.mana_value || (self.mana_value == other.mana_value && text_before(
            self.name.as_str(),
            other.name.as_str(),
        ))
    }

    /// Whether the two cards agree in mana value and name.
    pub fn has_rank_of(&self, other: &Card) -> (same: bool)
        ensures
            same == same_rank(self@, other@),
    {
        self.mana_value == other.mana_value && self.name == other.name
    }
}

impl PartialEq for Card {
    /// Two cards are equal where neither is listed before the other: where
    /// they agree in mana value and name.
    fn eq(&self, other: &Self) -> (same: bool) {
        self.has_rank_of(other)
    }
}

impl vstd::std_specs::cmp::PartialEqSpecImpl for Card {
    open spec fn obeys_eq_spec() -> bool {
        true
    }

    open spec fn eq_spec(&self, other: &Self) -> bool {
        same_rank(self@, other@)
    }
}

impl Eq for Card {

}

impl PartialOrd for Card {
    /// Cards compare as they are listed.
    fn partial_cmp(&self, other: &Self) -> (order: Option<Ordering>) {
        Some(rank_order(self, other))
    }
}

impl vstd::std_specs::cmp::PartialOrdSpecImpl for Card {
    open spec fn obeys_partial_cmp_spec() -> bool {
        true
    }

    open spec fn partial_cmp_spec(&self, other: &Self) -> Option<Ordering> {
        if rank_before(self@, other@) {
            Some(Ordering::Less)
        } else if rank_before(other@, self@) {
            Some(Ordering::Greater)
        } else {
            Some(Ordering::Equal)
        }
    }
}

/// The three-way comparison that the sort is given.
pub fn rank_order(a: &Card, b: &Card) -> (order: Ordering)
    ensures
        (order == Ordering::Less) == rank_before(a@, b@),
        (order == Ordering::Greater) == rank_before(b@, a@),
        (order == Ordering::Equal) == same_rank(a@, b@),
{
    proof {
        lemma_rank_total(a@, b@);
        lemma_rank_irreflexive(a@);
        if rank_before(a@, b@) {
            lemma_rank_asymmetric(a@, b@);
        }
    }
    if a.ranks_before(b) {
        Ordering::Less
    } else if b.ranks_before(a) {
        Ordering::Greater
    } else {
        Ordering::Equal
    }
}

/// Trusted: `Itertools::sorted_by`, which collects into a `Vec` and calls
/// the standard library's `sort_by`. Both document the sort as stable. The
/// contract says that the result is in rank order and that the cards of each
/// rank are those of the input, in the same order. `rank_order` is the
/// comparison handed over; the lemmas of this module show that it is a total
/// order on ranks, which `sort_by` needs in order not to panic.
#[verifier::external_body]
fn stable_sort(cards: Vec<Card>) -> (sorted: Vec<Card>)
    ensures
        is_ranking_of(card_views(sorted@), card_views(cards@)),
{
    cards.into_iter().sorted_by(|a, b| rank_order(a, b)).collect()
}

/// Sorts cards by mana value, then by name. Cards of the same mana value and
/// name keep their order.
pub fn sort_cards(cards: Vec<Card>) -> (sorted: Vec<Card>)
    ensures
        card_views(sorted@) == ranking(card_views(cards@)),
        ranked(card_views(sorted@)),
        sorted.len() == cards.len(),
{
    let ghost before = card_views(cards@);
    let sorted = stable_sort(cards);
    proof {
        lemma_ranking_is_the_stable_sort(card_views(sorted@), before);
    }
    sorted
}

} // verus!

//! What is shown of one match besides its decks: the opening hands that
//! were kept or sent back, and who won each game.

use vstd::prelude::*;
use crate::card::{card_views, display_of, Card, CardEntryView, CardView};
use crate::catalog::{entry_for, CardCatalog};
use crate::deck::{countable, match_differences, spans_match, DeckDifference, DeckList};
use crate::display::DeckDisplayRecord;
use crate::text::{comma_parts, decimal_i32, parse_i32, split_at_commas, texts_of};

verus! {

/// A mulligan decision as the match store records it. `hand` holds the card
/// ids of the opening hand, in decimal, with commas between them.
#[derive(Debug)]
pub struct MulliganInfo {
    pub hand: String,
    pub opponent_identity: String,
    pub game_number: i32,
    pub number_to_keep: i32,
    pub play_draw: String,
    pub decision: String,
}

/// A mulligan decision with the hand as display cards.
#[derive(Debug)]
pub struct Mulligan {
    pub hand: Vec<Card>,
    pub opponent_identity: String,
    pub game_number: i32,
    pub number_to_keep: i32,
    pub play_draw: String,
    pub decision: String,
}

/// The result of one game as the match store records it.
#[derive(Debug, Clone, Copy)]
pub struct MatchResult {
    pub game_number: Option<i32>,
    pub winning_team_id: i32,
}

/// The result of one game by the winner's name.
#[derive(Debug)]
pub struct GameResultDisplay {
    pub game_number: i32,
    pub winning_player: String,
}

/// The card ids that the parts write, in order; a part that does not write
/// a 32-bit integer is passed over.
pub open spec fn ids_among(parts: Seq<Seq<char>>) -> Seq<i32>
    decreases parts.len(),
{
    if parts.len() == 0 {
        Seq::empty()
    } else {
        match decimal_i32(parts.last()) {
            Some(card_id) => ids_among(parts.drop_last()).push(card_id),
            None => ids_among(parts.drop_last()),
        }
    }
}

/// The card ids of a recorded hand.
pub open spec fn hand_ids_of(hand: Seq<char>) -> Seq<i32> {
    ids_among(comma_parts(hand))
}

/// The display cards of a hand: one copy of every card, in the order of the
/// hand.
pub open spec fn hand_cards(ids: Seq<i32>, catalog: Map<i32, CardEntryView>) -> Seq<CardView> {
    Seq::new(ids.len(), |i: int| display_of(ids[i], 1, entry_for(catalog, ids[i])))
}

/// The card ids of a recorded hand, in order. What stands between two
/// commas and does not write a 32-bit integer is passed over.
pub fn hand_ids(hand: &str) -> (ids: Vec<i32>)
    ensures
        ids@ == hand_ids_of(hand@),
{
    let parts = split_at_commas(hand);
    let mut ids: Vec<i32> = Vec::new();
    let mut at: usize = 0;
    while at < parts.len()
        invariant
            at <= parts.len(),
            ids@ == ids_among(texts_of(parts@).take(at as int)),
        decreases parts.len() - at,
    {
        assert(texts_of(parts@).take(at + 1).drop_last() =~= texts_of(parts@).take(at as int));
        match parse_i32(parts[at].as_str()) {
            Some(card_id) => {
                ids.push(card_id);
            },
            None => {},
        }
        at = at + 1;
    }
    assert(texts_of(parts@).take(at as int) =~= texts_of(parts@));
    ids
}

impl Mulligan {
    /// This is the display form of `info`: the same decision, with the
    /// cards of the hand in place of their ids.
    pub open spec fn shows(&self, info: MulliganInfo, catalog: Map<i32, CardEntryView>) -> bool {
        &&& card_views(self.hand@) == hand_cards(hand_ids_of(info.hand@), catalog)
        &&& self.opponent_identity == info.opponent_identity
        &&& self.game_number == info.game_number
        &&& self.number_to_keep == info.number_to_keep
        &&& self.play_draw == info.play_draw
        &&& self.decision == info.decision
    }

    /// A mulligan decision with its hand looked up in the catalog. Every
    /// card of the hand is shown in one copy; a card that the catalog does
    /// not know is shown under its id.
    pub fn new(
        hand: &str,
        opponent_identity: String,
        game_number: i32,
        number_to_keep: i32,
        play_draw: String,
        decision: String,
        catalog: &CardCatalog,
    ) -> (mulligan: Self)
        ensures
            card_views(mulligan.hand@) == hand_cards(hand_ids_of(hand@), catalog@),
            mulligan.opponent_identity == opponent_identity,
            mulligan.game_number == game_number,
            mulligan.number_to_keep == number_to_keep,
            mulligan.play_draw == play_draw,
            mulligan.decision == decision,
    {
        let ids = hand_ids(hand);
        let mut cards: Vec<Card> = Vec::new();
        let mut at: usize = 0;
        while at < ids.len()
            invariant
                at <= ids.len(),
                cards.len() == at,
                forall|i: int|
                    0 <= i < at ==> (#[trigger] cards@[i])@ == display_of(
                        ids@[i],
                        1,
                        entry_for(catalog@, ids@[i]),
                    ),
            decreases ids.len() - at,
        {
            let card = Card::for_display(ids[at], 1, catalog.get(ids[at]));
            cards.push(card);
            at = at + 1;
        }
        assert(card_views(cards@) =~= hand_cards(ids@, catalog@));
        Mulligan {
            hand: cards,
            opponent_identity,
            game_number,
            number_to_keep,
            play_draw,
            decision,
        }
    }

    /// The display form of a recorded mulligan decision.
    pub fn from_mulligan_info(mulligan_info: &MulliganInfo, catalog: &CardCatalog) -> (mulligan:
        Self)
        ensures
            mulligan.shows(*mulligan_info, catalog@),
    {
        Self::new(
            mulligan_info.hand.as_str(),
            mulligan_info.opponent_identity.clone(),
            mulligan_info.game_number,
            mulligan_info.number_to_keep,
            mulligan_info.play_draw.clone(),
            mulligan_info.decision.clone(),
            catalog,
        )
    }
}

impl GameResultDisplay {
    /// This names the winner of the recorded game, given the seat and name
    /// of the controller and the name of the opponent.
    pub open spec fn names_winner(
        &self,
        mr: MatchResult,
        controller_seat_id: i32,
        controller_player_name: Seq<char>,
        opponent_player_name: Seq<char>,
    ) -> bool {
        &&& self.game_number == match mr.game_number {
            Some(n) => n,
            None => 0,
        }
        &&& self.winning_player@ == if mr.winning_team_id == controller_seat_id {
            controller_player_name
        } else {
            opponent_player_name
        }
    }

    /// Who won the game: the controller where the winning team is the
    /// controller's seat, and the opponent otherwise. A result without a
    /// game number is shown as game zero.
    pub fn from_match_result(
        mr: &MatchResult,
        controller_seat_id: i32,
        controller_player_name: &str,
        opponent_player_name: &str,
    ) -> (shown: Self)
        ensures
            shown.names_winner(
                *mr,
                controller_seat_id,
                controller_player_name@,
                opponent_player_name@,
            ),
    {
        GameResultDisplay {
            game_number: match mr.game_number {
                Some(n) => n,
                None => 0,
            },
            winning_player: if mr.winning_team_id == controller_seat_id {
                controller_player_name.to_string()
            } else {
                opponent_player_name.to_string()
            },
        }
    }
}

/// A match as the match store records it.
#[derive(Debug)]
pub struct MatchRecord {
    pub id: String,
    pub did_controller_win: bool,
    pub controller_seat_id: i32,
    pub controller_player_name: String,
    pub opponent_player_name: String,
}

/// All that is shown of one match.
#[derive(Debug)]
pub struct MatchDetails {
    pub id: String,
    pub did_controller_win: bool,
    pub controller_seat_id: i32,
    pub controller_player_name: String,
    pub opponent_player_name: String,
    pub primary_decklist: Option<DeckDisplayRecord>,
    pub differences: Option<Vec<DeckDifference>>,
    pub game_results: Vec<GameResultDisplay>,
    pub decklists: Vec<DeckList>,
    pub mulligans: Vec<Mulligan>,
}

impl MatchRecord {
    /// The record that stands in for a match that the store does not have:
    /// no id, no names, seat zero, not won.
    pub fn missing() -> (record: Self)
        ensures
            record.id@ == Seq::<char>::empty(),
            !record.did_controller_win,
            record.controller_seat_id == 0,
            record.controller_player_name@ == Seq::<char>::empty(),
            record.opponent_player_name@ == Seq::<char>::empty(),
    {
        MatchRecord {
            id: String::new(),
            did_controller_win: false,
            controller_seat_id: 0,
            controller_player_name: String::new(),
            opponent_player_name: String::new(),
        }
    }
}

impl MatchDetails {
    /// The details of a match, from what the store holds of it.
    ///
    /// The first decklist is shown in full, the later ones by their
    /// difference to the one before. Every game result names its winner and
    /// every mulligan shows its hand, both in the order of the store. The
    /// main deck of every decklist, and the sideboard of the first, must be
    /// ones that can be counted.
    pub fn assemble(
        record: MatchRecord,
        decklists: Vec<DeckList>,
        mulligans: &Vec<MulliganInfo>,
        results: &Vec<MatchResult>,
        catalog: &CardCatalog,
    ) -> (details: Self)
        requires
            forall|i: int| 0 <= i < decklists.len() ==> countable((#[trigger] decklists@[i]).cards@),
            decklists.len() > 0 ==> countable(decklists@[0].sideboard@),
        ensures
            details.id == record.id,
            details.did_controller_win == record.did_controller_win,
            details.controller_seat_id == record.controller_seat_id,
            details.controller_player_name == record.controller_player_name,
            details.opponent_player_name == record.opponent_player_name,
            details.decklists == decklists,
            details.primary_decklist is None <==> decklists.len() == 0,
            details.primary_decklist matches Some(primary) ==> primary.displays(
                &decklists@[0],
                catalog@,
            ),
            spans_match(details.differences, decklists@, catalog@),
            details.game_results.len() == results.len(),
            forall|i: int|
                0 <= i < results.len() ==> (#[trigger] details.game_results@[i]).names_winner(
                    results@[i],
                    record.controller_seat_id,
                    record.controller_player_name@,
                    record.opponent_player_name@,
                ),
            details.mulligans.len() == mulligans.len(),
            forall|i: int|
                0 <= i < mulligans.len() ==> (#[trigger] details.mulligans@[i]).shows(
                    mulligans@[i],
                    catalog@,
                ),
    {
        let primary_decklist = if decklists.len() > 0 {
            Some(DeckDisplayRecord::from_decklist(&decklists[0], catalog))
        } else {
            None
        };
        let differences = match_differences(&decklists, catalog);

        let mut shown_mulligans: Vec<Mulligan> = Vec::new();
        let mut at: usize = 0;
        while at < mulligans.len()
            invariant
                at <= mulligans.len(),
                shown_mulligans.len() == at,
                forall|i: int|
                    0 <= i < at ==> (#[trigger] shown_mulligans@[i]).shows(
                        mulligans@[i],
                        catalog@,
                    ),
            decreases mulligans.len() - at,
        {
            shown_mulligans.push(Mulligan::from_mulligan_info(&mulligans[at], catalog));
            at = at + 1;
        }

        let mut game_results: Vec<GameResultDisplay> = Vec::new();
        let mut at: usize = 0;
        while at < results.len()
            invariant
                at <= results.len(),
                game_results.len() == at,
                forall|i: int|
                    0 <= i < at ==> (#[trigger] game_results@[i]).names_winner(
                        results@[i],
                        record.controller_seat_id,
                        record.controller_player_name@,
                        record.opponent_player_name@,
                    ),
            decreases results.len() - at,
        {
            game_results.push(
                GameResultDisplay::from_match_result(
                    &results[at],
                    record.controller_seat_id,
                    record.controller_player_name.as_str(),
                    record.opponent_player_name.as_str(),
                ),
            );
            at = at + 1;
        }

        MatchDetails {
            id: record.id,
            did_controller_win: record.did_controller_win,
            controller_seat_id: record.controller_seat_id,
            controller_player_name: record.controller_player_name,
            opponent_player_name: record.opponent_player_name,
            primary_decklist,
            differences,
            game_results,
            decklists,
            mulligans: shown_mulligans,
        }
    }
}

/// A list with its newest entry first, for a list that was recorded oldest
/// first.
pub fn newest_first<T>(entries: Vec<T>) -> (reversed: Vec<T>)
    ensures
        reversed@ == entries@.reverse(),
{
    let mut entries = entries;
    let ghost recorded = entries@;
    let mut reversed: Vec<T> = Vec::new();
    while entries.len() > 0
        invariant
            entries.len() + reversed.len() == recorded.len(),
            entries@ == recorded.take(entries.len() as int),
            forall|i: int|
                0 <= i < reversed.len() ==> reversed@[i] == recorded[recorded.len() - 1 - i],
        decreases entries.len(),
    {
        let entry = entries.pop();
        match entry {
            Some(e) => {
                reversed.push(e);
            },
            None => {},
        }
    }
    assert(reversed@ =~= recorded.reverse());
    reversed
}

} // verus!

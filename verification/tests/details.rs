use arenabuddy::card::{Card, CardEntry, CardType};
use arenabuddy::catalog::CardCatalog;
use arenabuddy::deck::DeckList;
use arenabuddy::match_details::{
    hand_ids, newest_first, GameResultDisplay, MatchDetails, MatchRecord, MatchResult, Mulligan,
    MulliganInfo,
};
use arenabuddy::scryfall::{
    basic_land_id, card_from_listing, card_info, lookup_id, Knowledge, Listing, ListingFace,
};
use arenabuddy::setup::{player_log_location, setup_failure, ArenaBuddySetupError, SetupStep};

#[test]
fn hand_ids_are_read_between_commas() {
    assert_eq!(hand_ids("1,2,3"), vec![1, 2, 3]);
    assert_eq!(hand_ids("90789"), vec![90789]);
    assert_eq!(hand_ids("5,5,5"), vec![5, 5, 5]);
    assert_eq!(hand_ids("-7,+8,007"), vec![-7, 8, 7]);
    assert_eq!(hand_ids("2147483647,-2147483648"), vec![i32::MAX, i32::MIN]);
}

#[test]
fn hand_ids_pass_over_what_is_not_a_number() {
    assert_eq!(hand_ids(""), Vec::<i32>::new());
    assert_eq!(hand_ids(","), Vec::<i32>::new());
    assert_eq!(hand_ids("1,,2,"), vec![1, 2]);
    assert_eq!(hand_ids("1, 2,3 ,x,4"), vec![1, 4]);
    assert_eq!(hand_ids("+,-,--1,1-,1.0,0x10"), Vec::<i32>::new());
    assert_eq!(hand_ids("2147483648,-2147483649,99999999999999999999"), Vec::<i32>::new());
    assert_eq!(hand_ids("٣,3"), vec![3]);
}

#[test]
fn mulligan_hand_is_one_copy_of_each_card() {
    let mut catalog = CardCatalog::new();
    catalog.insert(
        10,
        CardEntry {
            name: "Opt".to_string(),
            type_line: "Instant".to_string(),
            mana_value: 1,
            image_uri: None,
            front_face: None,
        },
    );
    let m = Mulligan::new(
        "10,x,11,10",
        "opp".to_string(),
        2,
        6,
        "Play".to_string(),
        "Keep".to_string(),
        &catalog,
    );
    let hand: Vec<(&str, u16, CardType)> =
        m.hand.iter().map(|c| (c.name.as_str(), c.quantity, c.card_type)).collect();
    assert_eq!(
        hand,
        vec![
            ("Opt", 1, CardType::Instant),
            ("11", 1, CardType::Unknown),
            ("Opt", 1, CardType::Instant),
        ]
    );
    assert_eq!(m.opponent_identity, "opp");
    assert_eq!(m.game_number, 2);
    assert_eq!(m.number_to_keep, 6);
    assert_eq!(m.play_draw, "Play");
    assert_eq!(m.decision, "Keep");
}

#[test]
fn mulligan_from_a_record_keeps_its_fields() {
    let info = MulliganInfo {
        hand: "4,5".to_string(),
        opponent_identity: "someone".to_string(),
        game_number: 1,
        number_to_keep: 7,
        play_draw: "Draw".to_string(),
        decision: "Mulligan".to_string(),
    };
    let m = Mulligan::from_mulligan_info(&info, &CardCatalog::new());
    let names: Vec<&str> = m.hand.iter().map(|c| c.name.as_str()).collect();
    assert_eq!(names, vec!["4", "5"]);
    assert_eq!(m.opponent_identity, "someone");
    assert_eq!(m.game_number, 1);
    assert_eq!(m.number_to_keep, 7);
    assert_eq!(m.play_draw, "Draw");
    assert_eq!(m.decision, "Mulligan");
}

#[test]
fn game_result_names_the_winner() {
    let won = MatchResult { game_number: Some(2), winning_team_id: 1 };
    let shown = GameResultDisplay::from_match_result(&won, 1, "me", "them");
    assert_eq!(shown.game_number, 2);
    assert_eq!(shown.winning_player, "me");
    let lost = MatchResult { game_number: None, winning_team_id: 2 };
    let shown = GameResultDisplay::from_match_result(&lost, 1, "me", "them");
    assert_eq!(shown.game_number, 0);
    assert_eq!(shown.winning_player, "them");
}

#[test]
fn newest_first_reverses() {
    assert_eq!(newest_first(vec![1, 2, 3]), vec![3, 2, 1]);
    assert_eq!(newest_first(vec!["a".to_string()]), vec!["a".to_string()]);
    assert_eq!(newest_first(Vec::<u8>::new()), Vec::<u8>::new());
}

#[test]
fn setup_errors_have_their_messages() {
    assert_eq!(ArenaBuddySetupError::CorruptedAppData.message(), "App data is corrupted");
    assert_eq!(ArenaBuddySetupError::LogSetupFailure.message(), "Could not setup logging");
    assert_eq!(
        ArenaBuddySetupError::MatchesDatabaseInitializationFailure.message(),
        "Matches db initialization failure"
    );
    assert_eq!(ArenaBuddySetupError::NoCardsDatabase.message(), "Cards database not found");
    assert_eq!(ArenaBuddySetupError::NoHomeDir.message(), "Home directory not found");
    assert_eq!(ArenaBuddySetupError::NoMathchesDatabase.message(), "Matches database not found");
    assert_eq!(ArenaBuddySetupError::UnsupportedOS.message(), "Unsupported operating system");
}

#[test]
fn each_setup_step_fails_with_its_error() {
    type E = ArenaBuddySetupError;
    assert_eq!(setup_failure(SetupStep::LocateAppData), E::CorruptedAppData);
    assert_eq!(setup_failure(SetupStep::CreateAppData), E::CorruptedAppData);
    assert_eq!(setup_failure(SetupStep::CreateLogDirectory), E::CorruptedAppData);
    assert_eq!(setup_failure(SetupStep::OpenLog), E::LogSetupFailure);
    assert_eq!(setup_failure(SetupStep::LocateCards), E::NoCardsDatabase);
    assert_eq!(setup_failure(SetupStep::LoadCards), E::NoCardsDatabase);
    assert_eq!(setup_failure(SetupStep::OpenMatches), E::NoMathchesDatabase);
    assert_eq!(
        setup_failure(SetupStep::InitializeMatches),
        E::MatchesDatabaseInitializationFailure
    );
    assert_eq!(setup_failure(SetupStep::LocateHome), E::NoHomeDir);
    assert_eq!(setup_failure(SetupStep::LocatePlayerLog), E::UnsupportedOS);
}

#[test]
fn player_log_is_found_on_supported_systems_only() {
    assert_eq!(
        player_log_location("macos"),
        Ok("Library/Logs/Wizards of the Coast/MTGA/Player.log")
    );
    assert_eq!(
        player_log_location("windows"),
        Ok("AppData/LocalLow/Wizards of the Coast/MTGA/Player.log")
    );
    assert_eq!(player_log_location("linux"), Err(ArenaBuddySetupError::UnsupportedOS));
    assert_eq!(player_log_location("MacOS"), Err(ArenaBuddySetupError::UnsupportedOS));
    assert_eq!(player_log_location(""), Err(ArenaBuddySetupError::UnsupportedOS));
}

#[test]
fn basic_lands_are_asked_for_under_their_own_ids() {
    assert_eq!(basic_land_id("Plains"), Some(90789));
    assert_eq!(basic_land_id("Island"), Some(90791));
    assert_eq!(basic_land_id("Swamp"), Some(90793));
    assert_eq!(basic_land_id("Mountain"), Some(90795));
    assert_eq!(basic_land_id("Forest"), Some(90797));
    assert_eq!(basic_land_id("forest"), None);
    assert_eq!(basic_land_id("Snow-Covered Forest"), None);
    assert_eq!(lookup_id(5, Some("Forest")), 90797);
    assert_eq!(lookup_id(5, Some("Shock")), 5);
    assert_eq!(lookup_id(5, None), 5);
}

fn listing(layout: &str, face: Option<ListingFace>) -> Listing {
    Listing {
        mana_value: 3,
        layout: Some(layout.to_string()),
        name: Some("Whole // Card".to_string()),
        type_line: Some("Creature // Land".to_string()),
        front_face: face,
    }
}

fn summary(card: &Card) -> (&str, CardType, i16, u16, &str) {
    (card.name.as_str(), card.card_type, card.mana_value, card.quantity, card.image_uri.as_str())
}

#[test]
fn listing_of_an_ordinary_card() {
    let face = || {
        Some(ListingFace { name: Some("Face".to_string()), type_line: Some("Land".to_string()) })
    };
    let card = card_from_listing(9, &listing("normal", face()));
    assert_eq!(summary(&card), ("Whole // Card", CardType::Creature, 3, 1, ""));
    let card = card_from_listing(9, &listing("split", None));
    assert_eq!(summary(&card), ("Whole // Card", CardType::Creature, 3, 1, ""));
}

#[test]
fn listing_with_two_faces_is_named_by_the_front() {
    for layout in ["transform", "modal_dfc"] {
        let face =
            ListingFace { name: Some("Face".to_string()), type_line: Some("Land".to_string()) };
        let card = card_from_listing(9, &listing(layout, Some(face)));
        assert_eq!(summary(&card), ("Face", CardType::Land, 3, 1, ""));
        let card = card_from_listing(9, &listing(layout, None));
        assert_eq!(summary(&card), ("Whole // Card", CardType::Creature, 3, 1, ""));
        let bare = ListingFace { name: None, type_line: None };
        let card = card_from_listing(9, &listing(layout, Some(bare)));
        assert_eq!(summary(&card), ("9", CardType::Unknown, 3, 1, ""));
    }
}

#[test]
fn listing_without_fields_falls_back() {
    let empty =
        Listing { mana_value: 0, layout: None, name: None, type_line: None, front_face: None };
    let card = card_from_listing(-42, &empty);
    assert_eq!(summary(&card), ("-42", CardType::Unknown, 0, 1, ""));
}

#[test]
fn card_info_prefers_the_cache_and_caches_what_was_fetched() {
    let make = |name: &str| Card::with_details(name.to_string(), CardType::Land, 2, 1, String::new());
    let (card, save) = card_info(7, Knowledge::Cached(make("cached")));
    assert_eq!(card.name, "cached");
    assert!(!save);
    let (card, save) = card_info(7, Knowledge::Fetched(make("fetched")));
    assert_eq!(card.name, "fetched");
    assert!(save);
    let (card, save) = card_info(7, Knowledge::Unavailable);
    assert_eq!(summary(&card), ("7", CardType::Unknown, 0, 1, ""));
    assert!(!save);
}

#[test]
fn match_details_are_put_together_from_the_records() {
    let mut catalog = CardCatalog::new();
    catalog.insert(
        1,
        CardEntry {
            name: "Opt".to_string(),
            type_line: "Instant".to_string(),
            mana_value: 1,
            image_uri: None,
            front_face: None,
        },
    );
    let record = MatchRecord {
        id: "m-1".to_string(),
        did_controller_win: true,
        controller_seat_id: 2,
        controller_player_name: "me".to_string(),
        opponent_player_name: "them".to_string(),
    };
    let decklists = vec![
        DeckList { game_number: 1, cards: vec![1, 1, 2], sideboard: vec![3] },
        DeckList { game_number: 2, cards: vec![1, 2, 3], sideboard: vec![1] },
    ];
    let mulligans = vec![MulliganInfo {
        hand: "1,2".to_string(),
        opponent_identity: "them".to_string(),
        game_number: 1,
        number_to_keep: 7,
        play_draw: "Play".to_string(),
        decision: "Keep".to_string(),
    }];
    let results = vec![
        MatchResult { game_number: Some(1), winning_team_id: 2 },
        MatchResult { game_number: Some(2), winning_team_id: 1 },
        MatchResult { game_number: None, winning_team_id: 2 },
    ];
    let details = MatchDetails::assemble(record, decklists, &mulligans, &results, &catalog);
    assert_eq!(details.id, "m-1");
    assert!(details.did_controller_win);
    assert_eq!(details.controller_seat_id, 2);
    assert_eq!(details.controller_player_name, "me");
    assert_eq!(details.opponent_player_name, "them");
    assert_eq!(details.decklists.len(), 2);
    assert_eq!(details.decklists[1].cards, vec![1, 2, 3]);

    let primary = details.primary_decklist.unwrap();
    assert_eq!(primary.main_deck.len(), 2);
    assert_eq!(primary.main_deck[0].card_type, CardType::Instant);
    assert_eq!(primary.main_deck[0].cards[0].quantity, 2);
    assert_eq!(primary.main_deck[1].card_type, CardType::Unknown);
    assert_eq!(primary.main_deck[1].cards[0].name, "2");
    assert_eq!(primary.sideboard[0].name, "3");

    let differences = details.differences.unwrap();
    assert_eq!(differences.len(), 1);
    assert_eq!(differences[0].added.len(), 1);
    assert_eq!(differences[0].added[0].name, "3");
    assert_eq!(differences[0].removed[0].name, "Opt");
    assert_eq!(differences[0].removed[0].quantity, 1);

    let winners: Vec<(i32, &str)> = details
        .game_results
        .iter()
        .map(|r| (r.game_number, r.winning_player.as_str()))
        .collect();
    assert_eq!(winners, vec![(1, "me"), (2, "them"), (0, "me")]);
    assert_eq!(details.mulligans.len(), 1);
    assert_eq!(details.mulligans[0].hand[0].name, "Opt");
    assert_eq!(details.mulligans[0].hand[1].name, "2");
}

#[test]
fn details_of_a_match_that_is_not_there() {
    let details = MatchDetails::assemble(
        MatchRecord::missing(),
        Vec::new(),
        &Vec::new(),
        &vec![MatchResult { game_number: Some(1), winning_team_id: 0 }],
        &CardCatalog::new(),
    );
    assert_eq!(details.id, "");
    assert!(!details.did_controller_win);
    assert_eq!(details.controller_seat_id, 0);
    assert!(details.primary_decklist.is_none());
    assert!(details.differences.is_none());
    assert!(details.mulligans.is_empty());
    assert_eq!(details.game_results[0].winning_player, "");
}

use std::collections::HashMap;

use arenabuddy::card::{Card, CardEntry, CardFace, CardType};
use arenabuddy::catalog::CardCatalog;
use arenabuddy::deck::{
    distinct_cards, is_countable, match_differences, quantities, DeckDifference, DeckList,
};

fn entry(name: &str, type_line: &str, mana_value: i16) -> CardEntry {
    CardEntry {
        name: name.to_string(),
        type_line: type_line.to_string(),
        mana_value,
        image_uri: None,
        front_face: None,
    }
}

fn deck(game_number: i32, cards: Vec<i32>) -> DeckList {
    DeckList { game_number, cards, sideboard: Vec::new() }
}

fn counts(pairs: &[(i32, u16)]) -> HashMap<i32, u16> {
    pairs.iter().copied().collect()
}

fn names(cards: &[Card]) -> Vec<(String, u16)> {
    cards.iter().map(|c| (c.name.clone(), c.quantity)).collect()
}

#[test]
fn quantities_count_each_distinct_id() {
    assert_eq!(quantities(&[1, 1, 2, 3]), counts(&[(1, 2), (2, 1), (3, 1)]));
    assert_eq!(quantities(&[1, 2, 2, 4]), counts(&[(1, 1), (2, 2), (4, 1)]));
    assert_eq!(quantities(&[]), HashMap::new());
}

#[test]
fn distinct_cards_come_in_order_of_first_occurrence() {
    assert_eq!(distinct_cards(&[10, 20, 30, 20, 40, 10, 50]), vec![10, 20, 30, 40, 50]);
    assert_eq!(distinct_cards(&[3, 3, 3]), vec![3]);
    assert_eq!(distinct_cards(&[]), Vec::<i32>::new());
    assert_eq!(distinct_cards(&[2, 1, 2, 1, -5]), vec![2, 1, -5]);
}

#[test]
fn quantities_count_up_to_the_largest_count() {
    let mut many = vec![7; 65535];
    many.push(8);
    assert!(is_countable(&many));
    assert_eq!(quantities(&many), counts(&[(7, 65535), (8, 1)]));
}

#[test]
fn a_section_with_too_many_copies_cannot_be_counted() {
    let mut many = vec![7; 65535];
    assert!(is_countable(&many));
    many.push(8);
    assert!(is_countable(&many));
    many.push(7);
    assert!(!is_countable(&many));
    assert!(is_countable(&[]));
    assert!(is_countable(&[1, 1, 2, 3]));

    let fits = DeckList { game_number: 1, cards: vec![1, 1], sideboard: vec![2] };
    assert!(fits.is_countable());
    let main_too_full = DeckList { game_number: 1, cards: many.clone(), sideboard: vec![2] };
    assert!(!main_too_full.is_countable());
    let side_too_full = DeckList { game_number: 1, cards: vec![1], sideboard: many };
    assert!(!side_too_full.is_countable());
}

#[test]
fn every_count_is_the_number_of_occurrences() {
    let deck = [5, 9, 5, 5, -1, 9];
    let cards = quantities(&deck);
    assert_eq!(cards.len(), 3);
    for (card_id, count) in &cards {
        let occurrences = deck.iter().filter(|id| *id == card_id).count();
        assert!(*count >= 1);
        assert_eq!(usize::from(*count), occurrences);
    }
}

#[test]
fn applying_a_difference_to_prev_gives_next() {
    let prev = [1, 1, 2, 3, 8, 8, 8];
    let next = [1, 2, 2, 4, 8];
    let before = quantities(&prev);
    let after = quantities(&next);
    let added = DeckDifference::missing_cards(&after, &before);
    let removed = DeckDifference::missing_cards(&before, &after);
    for card_id in [1, 2, 3, 4, 8, 99] {
        let count = |m: &HashMap<i32, u16>| i32::from(m.get(&card_id).copied().unwrap_or(0));
        assert_eq!(count(&before) - count(&removed) + count(&added), count(&after));
        assert!(!(count(&added) > 0 && count(&removed) > 0));
        assert!(count(&removed) <= count(&before));
    }
}

#[test]
fn missing_cards_concrete_example() {
    let prev = quantities(&[1, 1, 2, 3]);
    let next = quantities(&[1, 2, 2, 4]);
    assert_eq!(DeckDifference::missing_cards(&next, &prev), counts(&[(2, 1), (4, 1)]));
    assert_eq!(DeckDifference::missing_cards(&prev, &next), counts(&[(1, 1), (3, 1)]));
}

#[test]
fn missing_cards_is_the_clipped_difference() {
    let a = counts(&[(1, 5), (2, 1), (3, 2), (9, 4)]);
    let b = counts(&[(1, 2), (2, 1), (3, 7), (4, 1)]);
    assert_eq!(DeckDifference::missing_cards(&a, &b), counts(&[(1, 3), (9, 4)]));
    assert_eq!(DeckDifference::missing_cards(&b, &a), counts(&[(3, 5), (4, 1)]));
    assert_eq!(DeckDifference::missing_cards(&a, &a), HashMap::new());
    assert_eq!(DeckDifference::missing_cards(&a, &HashMap::new()), a);
    assert_eq!(DeckDifference::missing_cards(&HashMap::new(), &a), HashMap::new());
}

#[test]
fn difference_of_a_deck_with_itself_is_empty() {
    let catalog = CardCatalog::new();
    let a = deck(1, vec![5, 5, 6, 7, 7, 7]);
    let diff = DeckDifference::difference(&a, &a, &catalog);
    assert!(diff.added.is_empty());
    assert!(diff.removed.is_empty());
}

#[test]
fn difference_is_symmetric() {
    let mut catalog = CardCatalog::new();
    catalog.insert(1, entry("Llanowar Elves", "Creature — Elf Druid", 1));
    catalog.insert(2, entry("Forest", "Basic Land — Forest", 0));
    catalog.insert(4, entry("Shock", "Instant", 1));
    let a = deck(1, vec![1, 1, 2, 3]);
    let b = deck(2, vec![1, 2, 2, 4]);
    let ab = DeckDifference::difference(&a, &b, &catalog);
    let ba = DeckDifference::difference(&b, &a, &catalog);
    assert_eq!(names(&ab.added), names(&ba.removed));
    assert_eq!(names(&ab.removed), names(&ba.added));
    assert_eq!(names(&ab.added), vec![("Forest".to_string(), 1), ("Shock".to_string(), 1)]);
    assert_eq!(names(&ab.removed), vec![("3".to_string(), 1), ("Llanowar Elves".to_string(), 1)]);
}

#[test]
fn unknown_cards_are_listed_under_their_id() {
    let catalog = CardCatalog::new();
    let mut collection = HashMap::new();
    collection.insert(-12, 3u16);
    collection.insert(90210, 1u16);
    collection.insert(0, 2u16);
    let cards = DeckDifference::aggregate(&collection, &catalog);
    assert_eq!(
        names(&cards),
        vec![("-12".to_string(), 3), ("0".to_string(), 2), ("90210".to_string(), 1)]
    );
    for card in &cards {
        assert_eq!(card.mana_value, 0);
        assert_eq!(card.card_type, CardType::Unknown);
        assert_eq!(card.image_uri, "");
    }
}

#[test]
fn aggregate_sorts_by_mana_value_then_name() {
    let mut catalog = CardCatalog::new();
    catalog.insert(10, entry("Zebra", "Creature", 2));
    catalog.insert(11, entry("Apple", "Artifact", 3));
    catalog.insert(12, entry("Mango", "Sorcery", 2));
    catalog.insert(13, entry("Aardvark", "Creature", 2));
    catalog.insert(14, entry("Zzz", "Land", 0));
    let collection = counts(&[(10, 1), (11, 2), (12, 3), (13, 4), (14, 5)]);
    let cards = DeckDifference::aggregate(&collection, &catalog);
    assert_eq!(
        names(&cards),
        vec![
            ("Zzz".to_string(), 5),
            ("Aardvark".to_string(), 4),
            ("Mango".to_string(), 3),
            ("Zebra".to_string(), 1),
            ("Apple".to_string(), 2),
        ]
    );
}

#[test]
fn cards_of_equal_rank_stand_in_ascending_id_order() {
    let mut catalog = CardCatalog::new();
    let ids = [30, 10, 20, -4, 77, 5, 61, 12, 9000, 46];
    let mut collection = HashMap::new();
    for (n, id) in ids.iter().enumerate() {
        let mut e = entry("Island", "Basic Land — Island", 0);
        e.image_uri = Some(format!("img/{id}"));
        catalog.insert(*id, e);
        collection.insert(*id, n as u16 + 1);
    }
    let cards = DeckDifference::aggregate(&collection, &catalog);
    let uris: Vec<&str> = cards.iter().map(|c| c.image_uri.as_str()).collect();
    assert_eq!(
        uris,
        vec![
            "img/-4", "img/5", "img/10", "img/12", "img/20", "img/30", "img/46", "img/61",
            "img/77", "img/9000",
        ]
    );
    let quantities: Vec<u16> = cards.iter().map(|c| c.quantity).collect();
    assert_eq!(quantities, vec![4, 6, 2, 8, 3, 1, 10, 7, 5, 9]);
    assert!(cards.iter().all(|c| c.name == "Island"));
}

#[test]
fn front_face_names_a_card_with_two_faces() {
    let mut catalog = CardCatalog::new();
    catalog.insert(
        1,
        CardEntry {
            name: "Front // Back".to_string(),
            type_line: "Creature // Land".to_string(),
            mana_value: 3,
            image_uri: None,
            front_face: Some(CardFace {
                name: "Front".to_string(),
                type_line: "Sorcery".to_string(),
                image_uri: Some("face.png".to_string()),
            }),
        },
    );
    let cards = DeckDifference::aggregate(&counts(&[(1, 2)]), &catalog);
    assert_eq!(cards.len(), 1);
    assert_eq!(cards[0].name, "Front");
    assert_eq!(cards[0].card_type, CardType::Sorcery);
    assert_eq!(cards[0].mana_value, 3);
    assert_eq!(cards[0].quantity, 2);
    assert_eq!(cards[0].image_uri, "face.png");
}

#[test]
fn a_match_with_k_decklists_has_k_minus_one_differences() {
    let catalog = CardCatalog::new();
    assert!(match_differences(&Vec::new(), &catalog).is_none());
    assert!(match_differences(&vec![deck(1, vec![1, 2])], &catalog).is_none());
    let three = vec![deck(1, vec![1, 2]), deck(2, vec![1, 3]), deck(3, vec![1, 3])];
    let diffs = match_differences(&three, &catalog).unwrap();
    assert_eq!(diffs.len(), 2);
    assert_eq!(names(&diffs[0].added), vec![("3".to_string(), 1)]);
    assert_eq!(names(&diffs[0].removed), vec![("2".to_string(), 1)]);
    assert!(diffs[1].added.is_empty());
    assert!(diffs[1].removed.is_empty());
}

#[test]
fn differences_follow_the_games_not_the_order_given() {
    let catalog = CardCatalog::new();
    let given = vec![
        deck(3, vec![1, 3, 5]),
        deck(1, vec![1, 2]),
        deck(2, vec![1, 3]),
        deck(2, vec![1, 4]),
    ];
    let diffs = match_differences(&given, &catalog).unwrap();
    assert_eq!(diffs.len(), 3);
    // game 1 to the first game 2
    assert_eq!(names(&diffs[0].added), vec![("3".to_string(), 1)]);
    assert_eq!(names(&diffs[0].removed), vec![("2".to_string(), 1)]);
    // the first game 2 to the second game 2
    assert_eq!(names(&diffs[1].added), vec![("4".to_string(), 1)]);
    assert_eq!(names(&diffs[1].removed), vec![("3".to_string(), 1)]);
    // the second game 2 to game 3
    assert_eq!(names(&diffs[2].added), vec![("3".to_string(), 1), ("5".to_string(), 1)]);
    assert_eq!(names(&diffs[2].removed), vec![("4".to_string(), 1)]);
}

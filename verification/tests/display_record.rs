use arenabuddy::card::{Card, CardEntry, CardType};
use arenabuddy::catalog::CardCatalog;
use arenabuddy::deck::DeckList;
use arenabuddy::display::{cards_of_kind, DeckDisplayRecord};

fn entry(name: &str, type_line: &str, mana_value: i16) -> CardEntry {
    CardEntry {
        name: name.to_string(),
        type_line: type_line.to_string(),
        mana_value,
        image_uri: None,
        front_face: None,
    }
}

fn names(cards: &[Card]) -> Vec<(String, u16)> {
    cards.iter().map(|c| (c.name.clone(), c.quantity)).collect()
}

fn catalog() -> CardCatalog {
    let mut catalog = CardCatalog::new();
    catalog.insert(1, entry("Llanowar Elves", "Creature — Elf Druid", 1));
    catalog.insert(2, entry("Forest", "Basic Land — Forest", 0));
    catalog.insert(3, entry("Shock", "Instant", 1));
    catalog.insert(4, entry("Grizzly Bears", "Creature — Bear", 2));
    catalog.insert(5, entry("Elvish Mystic", "Creature — Elf Druid", 1));
    catalog
}

#[test]
fn main_deck_is_grouped_by_kind_and_each_group_sorted() {
    let deck = DeckList {
        game_number: 1,
        cards: vec![4, 1, 2, 2, 99, 5, 1, 2, 3, 4, 4],
        sideboard: vec![3, 3, 1],
    };
    let record = DeckDisplayRecord::from_decklist(&deck, &catalog());
    assert_eq!(record.archetype, "Unknown");
    let kinds: Vec<CardType> = record.main_deck.iter().map(|g| g.card_type).collect();
    assert_eq!(
        kinds,
        vec![CardType::Creature, CardType::Land, CardType::Instant, CardType::Unknown]
    );
    assert_eq!(
        names(&record.main_deck[0].cards),
        vec![
            ("Elvish Mystic".to_string(), 1),
            ("Llanowar Elves".to_string(), 2),
            ("Grizzly Bears".to_string(), 3),
        ]
    );
    assert_eq!(names(&record.main_deck[1].cards), vec![("Forest".to_string(), 3)]);
    assert_eq!(names(&record.main_deck[2].cards), vec![("Shock".to_string(), 1)]);
    assert_eq!(names(&record.main_deck[3].cards), vec![("99".to_string(), 1)]);
    assert_eq!(
        names(&record.sideboard),
        vec![("Llanowar Elves".to_string(), 1), ("Shock".to_string(), 2)]
    );
}

#[test]
fn empty_decklist_has_no_groups() {
    let deck = DeckList { game_number: 1, cards: Vec::new(), sideboard: Vec::new() };
    let record = DeckDisplayRecord::from_decklist(&deck, &catalog());
    assert!(record.main_deck.is_empty());
    assert!(record.sideboard.is_empty());
    assert_eq!(record.archetype, "Unknown");
}

#[test]
fn decklist_quantities_count_both_sections() {
    let deck = DeckList { game_number: 3, cards: vec![7, 7, 8], sideboard: vec![9, 9, 9] };
    let main = deck.quantities();
    let side = deck.sideboard_quantities();
    assert_eq!(main.len(), 2);
    assert_eq!(main[&7], 2);
    assert_eq!(main[&8], 1);
    assert_eq!(side.len(), 1);
    assert_eq!(side[&9], 3);
}

#[test]
fn cards_of_kind_keeps_the_order() {
    let make = |name: &str, kind: CardType| {
        Card::with_details(name.to_string(), kind, 0, 1, String::new())
    };
    let cards = vec![
        make("a", CardType::Land),
        make("b", CardType::Creature),
        make("c", CardType::Land),
        make("d", CardType::Battle),
    ];
    assert_eq!(
        names(&cards_of_kind(&cards, CardType::Land)),
        vec![("a".to_string(), 1), ("c".to_string(), 1)]
    );
    assert_eq!(names(&cards_of_kind(&cards, CardType::Battle)), vec![("d".to_string(), 1)]);
    assert!(cards_of_kind(&cards, CardType::Sorcery).is_empty());
}

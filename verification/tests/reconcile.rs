use arena_log::reconcile::{reconcile, resolve, skipped, Skip};
use arena_log::{Card, Catalog, Deck, GetPlayerCardsV3, Log, LogError};

fn alpha_beta_catalog() -> Catalog {
    let mut catalog = Catalog::new();
    catalog.add_card(Card::new("c1", "Alpha", 0));
    catalog.add_card(Card::new("c2", "Beta", 0));
    catalog.link_arena_id(123, "c1", "Alpha");
    catalog.link_arena_id(456, "c2", "Beta");
    catalog
}

fn log_with(payload: Vec<(u64, usize)>) -> Log {
    Log { player_cards: Some(GetPlayerCardsV3 { id: 1, payload }), player_inventory: None }
}

fn count(deck: &Deck, id: &str, name: &str, arena_id: u64) -> u128 {
    deck.count_of(&Card::new(id, name, arena_id))
}

#[test]
fn second_cards_line_reconciles_to_alpha_and_beta() {
    let text = "<== PlayerInventory.GetPlayerCardsV3 {\"id\": 1, \"payload\": {\"123\": 1}}\n\
                <== PlayerInventory.GetPlayerCardsV3 {\"id\": 2, \"payload\": {\"123\": 4, \"456\": 2}}\n";
    let log = Log::from_str(text).expect("scan");
    let deck = log.collection(&alpha_beta_catalog()).expect("collection");
    assert_eq!(deck.len(), 2);
    assert_eq!(count(&deck, "c1", "Alpha", 0), 4);
    assert_eq!(count(&deck, "c2", "Beta", 0), 2);
}

#[test]
fn log_without_cards_has_an_empty_collection() {
    let log = Log { player_cards: None, player_inventory: None };
    let deck = log.collection(&alpha_beta_catalog()).expect("collection");
    assert_eq!(deck.len(), 0);
}

#[test]
fn unknown_arena_id_is_left_out() {
    let with = log_with(vec![(123, 4), (999, 7), (456, 2)])
        .collection(&alpha_beta_catalog())
        .expect("collection");
    let without = log_with(vec![(123, 4), (456, 2)])
        .collection(&alpha_beta_catalog())
        .expect("collection");
    for deck in [&with, &without] {
        assert_eq!(deck.len(), 2);
        assert_eq!(count(deck, "c1", "Alpha", 0), 4);
        assert_eq!(count(deck, "c2", "Beta", 0), 2);
    }
    assert!(matches!(resolve(&alpha_beta_catalog(), 999), Ok(None)));
}

#[test]
fn only_unknown_arena_ids_give_an_empty_collection() {
    let deck = log_with(vec![(999, 7), (998, 1)])
        .collection(&alpha_beta_catalog())
        .expect("collection");
    assert_eq!(deck.len(), 0);
}

#[test]
fn arena_id_without_catalog_id_is_left_out() {
    let mut catalog = alpha_beta_catalog();
    catalog.link_arena_id(777, "", "Gamma");
    let deck = log_with(vec![(777, 3), (123, 1)]).collection(&catalog).expect("collection");
    assert_eq!(deck.len(), 1);
    assert_eq!(count(&deck, "c1", "Alpha", 0), 1);
    assert!(matches!(resolve(&catalog, 777), Ok(None)));
}

#[test]
fn order_of_the_pairs_does_not_matter() {
    let mut catalog = alpha_beta_catalog();
    catalog.link_arena_id(124, "c1", "Alpha");
    let orders: [Vec<(u64, usize)>; 4] = [
        vec![(123, 4), (456, 2), (124, 3), (999, 1)],
        vec![(999, 1), (124, 3), (456, 2), (123, 4)],
        vec![(124, 3), (123, 4), (999, 1), (456, 2)],
        vec![(456, 2), (999, 1), (123, 4), (124, 3)],
    ];
    for pairs in orders {
        let deck = log_with(pairs).collection(&catalog).expect("collection");
        assert_eq!(deck.len(), 2);
        assert_eq!(count(&deck, "c1", "Alpha", 0), 7);
        assert_eq!(count(&deck, "c2", "Beta", 0), 2);
    }
}

#[test]
fn counts_of_one_card_are_summed() {
    let mut catalog = alpha_beta_catalog();
    catalog.link_arena_id(124, "c1", "Alpha");
    let deck = reconcile(&catalog, &vec![(123, 4), (124, 3), (123, 0)]).expect("collection");
    assert_eq!(deck.len(), 1);
    assert_eq!(count(&deck, "c1", "Alpha", 0), 7);
}

#[test]
fn counts_do_not_overflow_a_machine_word() {
    let deck = reconcile(&alpha_beta_catalog(), &vec![(123, usize::MAX), (123, usize::MAX)])
        .expect("collection");
    assert_eq!(count(&deck, "c1", "Alpha", 0), 2 * (usize::MAX as u128));
}

#[test]
fn matching_name_takes_the_card_under_the_catalog_id() {
    let mut catalog = Catalog::new();
    catalog.add_card(Card::new("decoy", "Alpha", 0));
    catalog.add_card(Card::new("c1", "Alpha", 123));
    catalog.link_arena_id(123, "c1", "Alpha");
    let card = resolve(&catalog, 123).expect("no fault").expect("found");
    assert!(card.same(&Card::new("c1", "Alpha", 123)));
}

#[test]
fn matching_name_needs_no_card_by_name() {
    let mut catalog = Catalog::new();
    catalog.add_card(Card::new("c1", "Alpha", 0));
    catalog.link_arena_id(123, "c1", "Alpha");
    assert_eq!(catalog.lookup_by_name(&"Alpha".to_string()).len(), 1);
    let card = resolve(&catalog, 123).expect("no fault").expect("found");
    assert!(card.same(&Card::new("c1", "Alpha", 0)));
}

#[test]
fn differing_name_takes_the_first_card_of_the_expected_name() {
    let mut catalog = Catalog::new();
    catalog.add_card(Card::new("part", "Bonecrusher Giant", 0));
    catalog.add_card(Card::new("other", "Something Else", 0));
    catalog.add_card(Card::new("whole-1", "Bonecrusher Giant // Stomp", 0));
    catalog.add_card(Card::new("whole-2", "Bonecrusher Giant // Stomp", 0));
    catalog.link_arena_id(70000, "part", "Bonecrusher Giant // Stomp");
    let card = resolve(&catalog, 70000).expect("no fault").expect("found");
    assert!(card.same(&Card::new("whole-1", "Bonecrusher Giant // Stomp", 0)));
    let deck = reconcile(&catalog, &vec![(70000, 4)]).expect("collection");
    assert_eq!(deck.len(), 1);
    assert_eq!(count(&deck, "whole-1", "Bonecrusher Giant // Stomp", 0), 4);
    assert_eq!(count(&deck, "part", "Bonecrusher Giant", 0), 0);
}

#[test]
fn missing_catalog_id_is_a_fault() {
    let mut catalog = alpha_beta_catalog();
    catalog.link_arena_id(5, "gone", "Alpha");
    assert!(matches!(resolve(&catalog, 5), Err(LogError::UnknownCatalogId { arena_id: 5 })));
    let outcome = log_with(vec![(123, 4), (5, 1), (456, 2)]).collection(&catalog);
    assert!(matches!(outcome, Err(LogError::UnknownCatalogId { arena_id: 5 })));
}

#[test]
fn missing_name_is_a_fault() {
    let mut catalog = alpha_beta_catalog();
    catalog.link_arena_id(6, "c1", "Alpha // Omega");
    assert!(matches!(resolve(&catalog, 6), Err(LogError::UnknownName { arena_id: 6 })));
    let outcome = log_with(vec![(6, 1)]).collection(&catalog);
    assert!(matches!(outcome, Err(LogError::UnknownName { arena_id: 6 })));
}

#[test]
fn card_bound_to_another_arena_id_is_a_fault() {
    let mut catalog = Catalog::new();
    catalog.add_card(Card::new("c1", "Alpha", 100));
    catalog.link_arena_id(100, "c1", "Alpha");
    catalog.link_arena_id(200, "c1", "Alpha");
    assert!(matches!(resolve(&catalog, 100), Ok(Some(_))));
    assert!(matches!(
        resolve(&catalog, 200),
        Err(LogError::ArenaIdConflict { arena_id: 200, bound_to: 100 })
    ));
    let outcome = log_with(vec![(100, 1), (200, 1)]).collection(&catalog);
    assert!(matches!(outcome, Err(LogError::ArenaIdConflict { arena_id: 200, bound_to: 100 })));
}

#[test]
fn first_fault_in_the_order_of_the_pairs_is_reported() {
    let mut catalog = alpha_beta_catalog();
    catalog.link_arena_id(5, "gone", "Alpha");
    catalog.link_arena_id(6, "c1", "Alpha // Omega");
    assert!(matches!(
        reconcile(&catalog, &vec![(123, 1), (6, 1), (5, 1)]),
        Err(LogError::UnknownName { arena_id: 6 })
    ));
    assert!(matches!(
        reconcile(&catalog, &vec![(5, 1), (123, 1), (6, 1)]),
        Err(LogError::UnknownCatalogId { arena_id: 5 })
    ));
}

#[test]
fn catalog_lookups_follow_the_order_of_the_cards() {
    let mut catalog = Catalog::new();
    catalog.add_card(Card::new("a", "Twin", 1));
    catalog.add_card(Card::new("b", "Twin", 2));
    catalog.add_card(Card::new("a", "Late", 3));
    assert!(catalog.lookup_by_id(&"a".to_string()).expect("card").same(&Card::new("a", "Twin", 1)));
    assert!(catalog.lookup_by_id(&"b".to_string()).expect("card").same(&Card::new("b", "Twin", 2)));
    assert!(catalog.lookup_by_id(&"c".to_string()).is_none());
    let twins = catalog.lookup_by_name(&"Twin".to_string());
    assert_eq!(twins.len(), 2);
    assert!(twins[0].same(&Card::new("a", "Twin", 1)));
    assert!(twins[1].same(&Card::new("b", "Twin", 2)));
    assert!(catalog.lookup_by_name(&"Nobody".to_string()).is_empty());
}

#[test]
fn arena_mapping_keeps_the_last_record_of_an_arena_id() {
    let mut catalog = Catalog::new();
    assert!(catalog.lookup_arena_id(1).is_none());
    catalog.link_arena_id(1, "a", "First");
    catalog.link_arena_id(1, "b", "Second");
    let link = catalog.lookup_arena_id(1).expect("link");
    assert_eq!(link.catalog_id, "b");
    assert_eq!(link.name, "Second");
    assert!(catalog.lookup_arena_id(2).is_none());
}

#[test]
fn deck_counts_copies_by_card() {
    let deck = Deck::new();
    assert_eq!(deck.len(), 0);
    assert!(!deck.contains(&Card::new("c1", "Alpha", 0)));
    let deck = deck.insert_count(Card::new("c1", "Alpha", 0), 2);
    let deck = deck.insert_count(Card::new("c2", "Beta", 0), 1);
    let deck = deck.insert_count(Card::new("c1", "Alpha", 0), 5);
    let deck = deck.insert_count(Card::new("c3", "Gamma", 0), 0);
    assert_eq!(deck.len(), 3);
    assert_eq!(count(&deck, "c1", "Alpha", 0), 7);
    assert_eq!(count(&deck, "c2", "Beta", 0), 1);
    assert_eq!(count(&deck, "c3", "Gamma", 0), 0);
    assert!(deck.contains(&Card::new("c3", "Gamma", 0)));
    assert!(!deck.contains(&Card::new("c4", "Delta", 0)));
    assert_eq!(count(&deck, "c4", "Delta", 0), 0);
}

#[test]
fn cards_differ_by_any_field() {
    let deck = Deck::new()
        .insert_count(Card::new("c1", "Alpha", 0), 1)
        .insert_count(Card::new("c1", "Alpha", 9), 2)
        .insert_count(Card::new("c1", "Other", 0), 3)
        .insert_count(Card::new("c9", "Alpha", 0), 4);
    assert_eq!(deck.len(), 4);
    assert_eq!(count(&deck, "c1", "Alpha", 0), 1);
    assert_eq!(count(&deck, "c1", "Alpha", 9), 2);
    assert_eq!(count(&deck, "c1", "Other", 0), 3);
    assert_eq!(count(&deck, "c9", "Alpha", 0), 4);
    let copy = Card::new("c1", "Alpha", 9).clone();
    assert!(copy.same(&Card::new("c1", "Alpha", 9)));
    assert!(!copy.same(&Card::new("c1", "Alpha", 0)));
}

#[test]
fn deck_lists_each_card_once() {
    let deck = Deck::new()
        .insert_count(Card::new("c1", "Alpha", 0), 2)
        .insert_count(Card::new("c2", "Beta", 0), 1)
        .insert_count(Card::new("c1", "Alpha", 0), 5);
    let listed = deck.entries();
    assert_eq!(listed.len(), 2);
    let mut seen: Vec<(String, u128)> =
        listed.iter().map(|(card, count)| (card.name.clone(), *count)).collect();
    seen.sort();
    assert_eq!(seen, vec![("Alpha".to_string(), 7), ("Beta".to_string(), 1)]);
    assert!(Deck::new().entries().is_empty());
}

#[test]
fn skipped_arena_ids_are_listed_with_the_reason() {
    let mut catalog = alpha_beta_catalog();
    catalog.link_arena_id(777, "", "Gamma");
    catalog.link_arena_id(5, "gone", "Alpha");
    let pairs = vec![(999, 1), (123, 4), (777, 2), (5, 1), (998, 0), (999, 3)];
    assert_eq!(
        skipped(&catalog, &pairs),
        vec![
            (999, Skip::UnknownArenaId),
            (777, Skip::NoCatalogId),
            (998, Skip::UnknownArenaId),
            (999, Skip::UnknownArenaId),
        ]
    );
    assert!(skipped(&catalog, &vec![(123, 4), (456, 2)]).is_empty());
    assert!(skipped(&catalog, &vec![]).is_empty());
}

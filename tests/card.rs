use rama::card::Card;
use rama::deck::new_deck;
use rama::hand::{distinct_penalty_of, insert_sorted, position_of};

#[test]
fn new_maps_face_numbers() {
    assert_eq!(Card::new(1), Card::Number(1));
    assert_eq!(Card::new(6), Card::Number(6));
    assert_eq!(Card::new(7), Card::Rama);
}

#[test]
fn next_climbs_and_wraps() {
    assert_eq!(Card::Number(1).next(), Card::Number(2));
    assert_eq!(Card::Number(5).next(), Card::Number(6));
    assert_eq!(Card::Number(6).next(), Card::Rama);
    assert_eq!(Card::Rama.next(), Card::Number(1));
}

#[test]
fn next_has_period_seven() {
    for n in 1..=7 {
        let start = Card::new(n);
        let mut c = start;
        for step in 1..=7 {
            c = c.next();
            if step < 7 {
                assert_ne!(c, start);
            }
        }
        assert_eq!(c, start);
    }
}

#[test]
fn successor_relation() {
    assert!(Card::Number(3).is_successor_of(&Card::Number(2)));
    assert!(Card::Rama.is_successor_of(&Card::Number(6)));
    assert!(Card::Number(1).is_successor_of(&Card::Rama));
    assert!(!Card::Number(4).is_successor_of(&Card::Number(2)));
    assert!(!Card::Number(2).is_successor_of(&Card::Number(2)));
}

#[test]
fn sort_order_puts_rama_last() {
    assert!(Card::Number(6).sorts_before_or_with(&Card::Rama));
    assert!(!Card::Rama.sorts_before_or_with(&Card::Number(1)));
    assert!(Card::Number(2).sorts_before_or_with(&Card::Number(2)));
    assert_eq!(Card::Rama.rank_of(), 7);
    assert_eq!(Card::Number(4).rank_of(), 4);
}

#[test]
fn codes_parse() {
    assert_eq!(Card::from_code("1"), Some(Card::Number(1)));
    assert_eq!(Card::from_code("6"), Some(Card::Number(6)));
    assert_eq!(Card::from_code("r"), Some(Card::Rama));
    assert_eq!(Card::from_code("L"), Some(Card::Rama));
    assert_eq!(Card::from_code("R"), Some(Card::Rama));
    assert_eq!(Card::from_code("l"), Some(Card::Rama));
    assert_eq!(Card::from_code("7"), None);
    assert_eq!(Card::from_code("0"), None);
    assert_eq!(Card::from_code("x"), None);
    assert_eq!(Card::from_code(""), None);
    assert_eq!(Card::from_code("12"), None);
}

#[test]
fn labels() {
    assert_eq!(Card::Number(3).label(), "3");
    assert_eq!(Card::Rama.label(), "R");
}

#[test]
fn penalties() {
    assert_eq!(Card::Number(5).penalty_of(), 5);
    assert_eq!(Card::Rama.penalty_of(), 10);
}

#[test]
fn full_deck_holds_eight_of_each_face() {
    let deck = new_deck();
    assert_eq!(deck.len(), 56);
    for n in 1..=7 {
        let c = Card::new(n);
        assert_eq!(deck.iter().filter(|d| **d == c).count(), 8);
    }
}

#[test]
fn insert_keeps_hand_sorted() {
    let mut hand = vec![Card::Number(1), Card::Number(4), Card::Rama];
    insert_sorted(&mut hand, Card::Number(4));
    insert_sorted(&mut hand, Card::Number(2));
    insert_sorted(&mut hand, Card::Rama);
    insert_sorted(&mut hand, Card::Number(1));
    assert_eq!(
        hand,
        vec![
            Card::Number(1),
            Card::Number(1),
            Card::Number(2),
            Card::Number(4),
            Card::Number(4),
            Card::Rama,
            Card::Rama
        ]
    );
}

#[test]
fn position_finds_first_copy() {
    let hand = vec![Card::Number(2), Card::Number(3), Card::Number(3)];
    assert_eq!(position_of(&hand, Card::Number(3)), Some(1));
    assert_eq!(position_of(&hand, Card::Rama), None);
}

#[test]
fn distinct_faces_count_once() {
    let hand = vec![Card::Number(2), Card::Number(2), Card::Number(5), Card::Rama];
    assert_eq!(distinct_penalty_of(&hand), 17);
    assert_eq!(distinct_penalty_of(&vec![]), 0);
    let all: Vec<Card> = (1..=7).map(Card::new).collect();
    assert_eq!(distinct_penalty_of(&all), 31);
}

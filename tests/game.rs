use rama::card::Card;
use rama::game::{Action, Game, State};
use rama::player::Player;
use rama::scoring::round_end_score;

fn table(hands: [Vec<Card>; 3], deck: Vec<Card>, top: Card, turn: usize) -> Game {
    let mut game = Game::new();
    for (p, h) in game.players.iter_mut().zip(hands.into_iter()) {
        p.hands = h;
    }
    game.deck = deck;
    game.field = vec![top];
    game.turn = turn;
    game
}

fn n(v: u32) -> Card {
    Card::Number(v)
}

#[test]
fn new_game_seats() {
    let game = Game::new();
    assert_eq!(game.state, State::InGame);
    assert_eq!(game.round, 1);
    assert_eq!(game.players.len(), 3);
    assert!(game.players[0].is_human);
    assert!(!game.players[1].is_human);
    assert!(!game.players[2].is_human);
    assert_eq!(game.players[0].name, "Player");
    assert_eq!(game.players[2].name, "Npc2");
    assert!(game.players.iter().all(|p| p.point == 0));
}

#[test]
fn start_round_deals_the_whole_deck() {
    let mut game = Game::new();
    game.players[1].point = 12;
    game.players[2].is_folded = true;
    game.start_round();
    let in_hands: usize = game.players.iter().map(|p| p.hands.len()).sum();
    assert_eq!(game.deck.len() + in_hands + game.field.len(), 56);
    assert_eq!(game.field.len(), 1);
    assert_eq!(game.deck.len(), 37);
    assert!(game.turn < 3);
    assert_eq!(game.players[1].point, 12);
    for p in &game.players {
        assert_eq!(p.hands.len(), 6);
        assert!(!p.is_folded);
        assert!(p.hands.windows(2).all(|w| w[0].rank_of() <= w[1].rank_of()));
    }
    for face in 1..=7 {
        let c = Card::new(face);
        let count = game.deck.iter().chain(game.field.iter()).filter(|d| **d == c).count()
            + game
                .players
                .iter()
                .map(|p| p.hands.iter().filter(|d| **d == c).count())
                .sum::<usize>();
        assert_eq!(count, 8);
    }
}

#[test]
fn start_round_shuffles_and_picks_seats_at_random() {
    let mut game = Game::new();
    let mut tops = Vec::new();
    let mut turns = Vec::new();
    for _ in 0..40 {
        game.start_round();
        tops.push(game.field[0]);
        turns.push(game.turn);
    }
    assert!(turns.iter().all(|t| *t < 3));
    assert!(turns.iter().any(|t| *t != turns[0]));
    assert!(tops.iter().any(|t| *t != tops[0]));
}

#[test]
fn can_play_repeat_or_successor() {
    let game = table([vec![], vec![], vec![]], vec![], n(6), 0);
    assert!(game.can_play(n(6)));
    assert!(game.can_play(Card::Rama));
    assert!(!game.can_play(n(1)));
    assert!(!game.can_play(n(5)));
    let game = table([vec![], vec![], vec![]], vec![], Card::Rama, 0);
    assert!(game.can_play(n(1)));
    assert!(game.can_play(Card::Rama));
    assert!(!game.can_play(n(2)));
    let mut empty = Game::new();
    empty.field.clear();
    assert!(!empty.can_play(n(1)));
}

#[test]
fn accepted_play_moves_one_copy_to_field() {
    let mut game = table([vec![n(3), n(3), n(5)], vec![n(1)], vec![n(2)]], vec![n(1)], n(3), 0);
    assert_eq!(game.play_card(n(3)), Some(()));
    assert_eq!(game.players[0].hands, vec![n(3), n(5)]);
    assert_eq!(game.field, vec![n(3), n(3)]);
    assert_eq!(game.turn, 0);
}

#[test]
fn rejected_plays_change_nothing() {
    let mut game = table([vec![n(3), n(5)], vec![n(4)], vec![n(2)]], vec![n(1)], n(3), 0);
    assert_eq!(game.play_card(n(5)), None);
    assert_eq!(game.play_card(n(4)), None);
    assert_eq!(game.players[0].hands, vec![n(3), n(5)]);
    assert_eq!(game.field, vec![n(3)]);
}

#[test]
fn play_by_code() {
    let mut game = table([vec![n(6), Card::Rama], vec![n(4)], vec![n(2)]], vec![n(1)], n(6), 0);
    assert_eq!(game.play_card_by_str("x".to_string()), None);
    assert_eq!(game.play_card_by_str("5".to_string()), None);
    assert_eq!(game.play_card_by_str("r".to_string()), Some(()));
    assert_eq!(game.field, vec![n(6), Card::Rama]);
    assert_eq!(game.players[0].hands, vec![n(6)]);
}

#[test]
fn draw_takes_last_card_sorted() {
    let mut game = table([vec![n(1), n(5)], vec![n(4)], vec![n(2)]], vec![n(6), n(3)], n(2), 0);
    assert!(game.can_draw());
    assert_eq!(game.draw(), Some(()));
    assert_eq!(game.players[0].hands, vec![n(1), n(3), n(5)]);
    assert_eq!(game.deck, vec![n(6)]);
}

#[test]
fn draw_fails_with_one_seat_left() {
    let mut game = table([vec![n(1)], vec![n(4)], vec![n(2)]], vec![n(6), n(3)], n(2), 0);
    game.players[1].is_folded = true;
    game.players[2].is_folded = true;
    assert!(!game.can_draw());
    assert_eq!(game.draw(), None);
    assert_eq!(game.players[0].hands, vec![n(1)]);
    assert_eq!(game.deck, vec![n(6), n(3)]);
}

#[test]
fn draw_fails_on_empty_deck() {
    let mut game = table([vec![n(1)], vec![n(4)], vec![n(2)]], vec![], n(2), 0);
    assert_eq!(game.draw(), None);
    assert_eq!(game.players[0].hands, vec![n(1)]);
}

#[test]
fn fold_marks_acting_seat() {
    let mut game = table([vec![n(1)], vec![n(4)], vec![n(2)]], vec![n(3)], n(2), 1);
    game.fold();
    assert!(game.players[1].is_folded);
    assert!(!game.players[0].is_folded);
}

#[test]
fn going_out_reduces_score() {
    assert_eq!(round_end_score(15, &vec![]), 5);
    assert_eq!(round_end_score(10, &vec![]), 0);
    assert_eq!(round_end_score(4, &vec![]), 3);
    assert_eq!(round_end_score(1, &vec![]), 0);
    assert_eq!(round_end_score(0, &vec![]), 0);
}

#[test]
fn going_out_from_four_steps_down_to_zero() {
    let mut point = 4;
    for _ in 0..4 {
        point = round_end_score(point, &vec![]);
    }
    assert_eq!(point, 0);
    assert_eq!(round_end_score(point, &vec![]), 0);
}

#[test]
fn duplicate_faces_score_once() {
    let hand = vec![n(2), n(2), n(5), Card::Rama];
    assert_eq!(round_end_score(0, &hand), 17);
    assert_eq!(round_end_score(8, &hand), 25);
}

#[test]
fn turn_end_conditions() {
    let game = table([vec![n(1)], vec![n(4)], vec![n(2)]], vec![n(3)], n(2), 0);
    assert!(!game.is_turn_end());
    let game = table([vec![n(1)], vec![], vec![n(2)]], vec![n(3)], n(2), 0);
    assert!(game.is_turn_end());
    let game = table([vec![n(1)], vec![n(4)], vec![n(2)]], vec![], n(2), 0);
    assert!(game.is_turn_end());
    let mut game = table([vec![n(1)], vec![n(4)], vec![n(2)]], vec![n(3)], n(2), 0);
    for p in game.players.iter_mut() {
        p.is_folded = true;
    }
    assert!(game.is_turn_end());
}

#[test]
fn end_turn_skips_folded_seats_and_wraps() {
    let mut game = table([vec![n(1)], vec![n(4)], vec![n(2)]], vec![n(3)], n(2), 1);
    game.players[2].is_folded = true;
    game.end_turn();
    assert_eq!(game.turn, 0);
    game.players[1].is_folded = true;
    game.end_turn();
    assert_eq!(game.turn, 0);
    let mut game = table([vec![n(1)], vec![n(4)], vec![n(2)]], vec![n(3)], n(2), 2);
    game.end_turn();
    assert_eq!(game.turn, 0);
    game.end_turn();
    assert_eq!(game.turn, 1);
}

#[test]
fn round_end_scores_and_deals_again() {
    let mut game = table(
        [vec![], vec![n(2), n(2), n(5), Card::Rama], vec![n(1)]],
        vec![n(3)],
        n(2),
        0,
    );
    game.players[0].point = 15;
    game.players[1].point = 3;
    game.end_turn();
    assert_eq!(game.state, State::InGame);
    assert_eq!(game.round, 2);
    assert_eq!(game.players[0].point, 5);
    assert_eq!(game.players[1].point, 20);
    assert_eq!(game.players[2].point, 1);
    assert!(game.players.iter().all(|p| p.hands.len() == 6));
    assert_eq!(game.deck.len(), 37);
}

#[test]
fn game_ends_when_a_score_reaches_forty() {
    let mut game = table([vec![n(4)], vec![Card::Rama], vec![]], vec![n(3)], n(2), 0);
    game.players[0].point = 20;
    game.players[1].point = 30;
    game.players[2].point = 2;
    game.end_round();
    assert_eq!(game.state, State::Result);
    assert_eq!(game.round, 1);
    assert_eq!(game.players[0].point, 24);
    assert_eq!(game.players[1].point, 40);
    assert_eq!(game.players[2].point, 1);
    assert_eq!(game.standings(), vec![2, 0, 1]);
}

#[test]
fn game_goes_on_below_forty() {
    let mut game = table([vec![n(4)], vec![n(6)], vec![]], vec![n(3)], n(2), 0);
    game.players[1].point = 33;
    game.end_round();
    assert_eq!(game.state, State::InGame);
    assert_eq!(game.players[1].point, 39);
    assert_eq!(game.round, 2);
}

#[test]
fn standings_break_ties_by_seat() {
    let mut game = Game::new();
    game.players[0].point = 7;
    game.players[1].point = 3;
    game.players[2].point = 7;
    assert_eq!(game.standings(), vec![1, 0, 2]);
}

#[test]
fn policy_prefers_repeating_the_top() {
    let game = table([vec![n(3), n(4)], vec![n(1)], vec![n(2)]], vec![n(5)], n(3), 0);
    assert_eq!(game.candidate(), vec![n(3), n(4)]);
    assert_eq!(game.decide(), Action::Play(n(3)));
    let game = table([vec![n(4), n(6)], vec![n(1)], vec![n(2)]], vec![n(5)], n(3), 0);
    assert_eq!(game.candidate(), vec![n(4)]);
    assert_eq!(game.decide(), Action::Play(n(4)));
    let game = table([vec![n(1), n(6)], vec![n(1)], vec![n(2)]], vec![n(5)], n(3), 0);
    assert_eq!(game.candidate(), vec![]);
    assert_eq!(game.decide(), Action::Draw);
}

#[test]
fn policy_folds_when_alone() {
    let mut game = table([vec![n(1)], vec![n(1)], vec![n(2)]], vec![n(5)], n(3), 0);
    game.players[1].is_folded = true;
    game.players[2].is_folded = true;
    assert_eq!(game.decide(), Action::Fold);
}

#[test]
fn auto_play_plays_then_passes_turn() {
    let mut game = table([vec![n(1)], vec![n(3), n(4)], vec![n(2)]], vec![n(5)], n(3), 1);
    game.auto_play();
    assert_eq!(game.field, vec![n(3), n(3)]);
    assert_eq!(game.players[1].hands, vec![n(4)]);
    assert_eq!(game.turn, 2);
}

#[test]
fn auto_play_draws_when_nothing_fits() {
    let mut game = table([vec![n(1)], vec![n(1), n(6)], vec![n(2)]], vec![n(5), n(2)], n(3), 1);
    game.auto_play();
    assert_eq!(game.players[1].hands, vec![n(1), n(2), n(6)]);
    assert_eq!(game.deck, vec![n(5)]);
    assert_eq!(game.turn, 2);
}

#[test]
fn player_reset_keeps_score() {
    let mut p = Player::new("A".to_string(), false);
    p.point = 9;
    p.hands = vec![n(1)];
    p.is_folded = true;
    p.reset();
    assert_eq!(p.point, 9);
    assert!(p.hands.is_empty());
    assert!(!p.is_folded);
    assert_eq!(p.name, "A");
}

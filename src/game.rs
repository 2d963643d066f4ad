use vstd::prelude::*;
use vstd::multiset::Multiset;
use crate::card::{code_card, Card, FIRST_CARD_COUNT, GAME_END_POINT, PLAYER_COUNT};
use crate::deck::{deck_size, full_deck, new_deck, random_below, shuffle};
use crate::hand::{all_wf, insert_sorted, position_of, sorted};
use crate::scoring::{round_end_point, round_end_score};
use crate::player::{active_count, cards_in_hands, hands_len, lemma_hands_len, lemma_hands_update, Player};

verus! {

/// One move of the acting seat.
#[derive(PartialEq, Eq, Structural, Clone, Copy, Debug)]
pub enum Action {
    Play(Card),
    Draw,
    Fold,
}

/// Phase of the game: rounds are being played, or the game is over.
#[derive(PartialEq, Eq, Structural, Clone, Copy, Debug)]
pub enum State {
    InGame,
    Result,
}

/// The whole table: phase, round counter, face-down deck (drawn from its end),
/// face-up field (its last card is the top), the seats, and the acting seat.
pub struct Game {
    pub state: State,
    pub round: u32,
    pub deck: Vec<Card>,
    pub field: Vec<Card>,
    pub players: Vec<Player>,
    pub turn: usize,
}

/// The seat `s` places after seat `t`, wrapping round the table.
pub open spec fn seat_after(t: int, s: int) -> int {
    (t + s) % (PLAYER_COUNT as int)
}

/// Cards left in the deck once a round has been dealt.
pub open spec fn dealt_deck_len() -> nat {
    (deck_size() - 1 - PLAYER_COUNT * FIRST_CARD_COUNT) as nat
}

impl Game {
    /// The seats are fixed, the acting seat is one of them, every card is a
    /// valid face, hands are sorted, and while the game runs no score has
    /// reached the end of the game.
    pub open spec fn wf(&self) -> bool {
        &&& self.players@.len() == PLAYER_COUNT
        &&& self.turn < PLAYER_COUNT
        &&& all_wf(self.deck@)
        &&& all_wf(self.field@)
        &&& forall|i: int| 0 <= i < self.players@.len() ==> #[trigger] self.players@[i].wf()
        &&& self.state == State::InGame ==> forall|i: int|
            0 <= i < self.players@.len() ==> #[trigger] self.players@[i].point < GAME_END_POINT
    }

    /// Every card on the table: deck, field and hands.
    pub open spec fn all_cards(&self) -> Multiset<Card> {
        self.deck@.to_multiset().add(self.field@.to_multiset()).add(cards_in_hands(self.players@))
    }

    /// Seat `i` of `post` is seat `i` of `pre`: same name, kind and score.
    pub open spec fn same_seats(pre: Seq<Player>, post: Seq<Player>) -> bool {
        &&& post.len() == pre.len()
        &&& forall|i: int|
            0 <= i < pre.len() ==> {
                &&& #[trigger] post[i].name == pre[i].name
                &&& post[i].is_human == pre[i].is_human
                &&& post[i].point == pre[i].point
            }
    }

    /// A freshly dealt round: no seat folded, every seat holding its opening
    /// hand, one card on the field, the rest in the deck, and the table
    /// holding exactly the full deck.
    pub open spec fn dealt(&self) -> bool {
        &&& self.wf()
        &&& forall|i: int|
            0 <= i < self.players@.len() ==> {
                &&& !(#[trigger] self.players@[i]).is_folded
                &&& self.players@[i].hands@.len() == FIRST_CARD_COUNT
            }
        &&& self.field@.len() == 1
        &&& self.deck@.len() == dealt_deck_len()
        &&& self.all_cards() == full_deck().to_multiset()
        &&& self.deck@.len() + hands_len(self.players@) + self.field@.len() == deck_size()
    }

    /// `post` is a freshly dealt round of `pre`: phase, round, seats and scores kept.
    pub open spec fn fresh_round(pre: Game, post: Game) -> bool {
        &&& post.dealt()
        &&& post.state == pre.state
        &&& post.round == pre.round
        &&& Self::same_seats(pre.players@, post.players@)
    }

    /// The round is over: the deck is empty, some hand is empty, or every seat folded.
    pub open spec fn turn_over(&self) -> bool {
        ||| self.deck@.len() == 0
        ||| exists|i: int| 0 <= i < self.players@.len() && (#[trigger] self.players@[i]).hands@.len() == 0
        ||| forall|i: int| 0 <= i < self.players@.len() ==> (#[trigger] self.players@[i]).is_folded
    }

    /// Some seat's score has reached the end of the game, i.e. the highest score has.
    pub open spec fn reaches_end(ps: Seq<Player>) -> bool {
        exists|i: int| 0 <= i < ps.len() && (#[trigger] ps[i]).point >= GAME_END_POINT
    }

    /// `post` is `pre` after round-end scoring: every seat scored on its hand;
    /// then either the game is over, with the table left as it was, or the
    /// next round is dealt.
    pub open spec fn round_ended(pre: Game, post: Game) -> bool {
        &&& post.wf()
        &&& post.players@.len() == pre.players@.len()
        &&& forall|i: int|
            0 <= i < pre.players@.len() ==> {
                &&& #[trigger] post.players@[i].name == pre.players@[i].name
                &&& post.players@[i].is_human == pre.players@[i].is_human
                &&& post.players@[i].point == round_end_point(
                    pre.players@[i].point as int,
                    pre.players@[i].hands@,
                )
            }
        &&& (post.state == State::Result <==> Self::reaches_end(post.players@))
        &&& post.state == State::Result ==> {
            &&& post.round == pre.round
            &&& post.turn == pre.turn
            &&& post.deck == pre.deck
            &&& post.field == pre.field
            &&& forall|i: int|
                0 <= i < pre.players@.len() ==> (#[trigger] post.players@[i]).hands
                    == pre.players@[i].hands && post.players@[i].is_folded
                    == pre.players@[i].is_folded
        }
        &&& post.state == State::InGame ==> post.round == pre.round + 1 && post.dealt()
    }

    /// `post` is `pre` with the turn handed to the next seat, in seat order
    /// and wrapping round, that has not folded.
    pub open spec fn advanced(pre: Game, post: Game) -> bool {
        &&& post.state == pre.state
        &&& post.round == pre.round
        &&& post.deck == pre.deck
        &&& post.field == pre.field
        &&& post.players == pre.players
        &&& exists|s: int|
            1 <= s <= PLAYER_COUNT && post.turn == #[trigger] seat_after(pre.turn as int, s)
                && !post.players@[post.turn as int].is_folded && forall|j: int|
                1 <= j < s ==> (#[trigger] pre.players@[seat_after(pre.turn as int, j)]).is_folded
    }

    /// `post` is `pre` after the end of a turn: the round ends if it is over,
    /// else the turn passes on.
    pub open spec fn turn_ended(pre: Game, post: Game) -> bool {
        &&& post.wf()
        &&& pre.turn_over() ==> Self::round_ended(pre, post)
        &&& !pre.turn_over() ==> Self::advanced(pre, post)
        &&& post.state == State::InGame ==> !post.players@[post.turn as int].is_folded
        &&& pre.field@.len() > 0 ==> post.field@.len() > 0
    }

    /// Seat `a` stands before seat `b` in the standings: a lower score, or the
    /// same score and an earlier seat.
    pub open spec fn ranks_before(ps: Seq<Player>, a: int, b: int) -> bool {
        ps[a].point < ps[b].point || (ps[a].point == ps[b].point && a < b)
    }

    /// The face on top of the field.
    pub open spec fn top(&self) -> Card {
        self.field@.last()
    }

    /// The acting seat's hand.
    pub open spec fn hand(&self) -> Seq<Card> {
        self.players@[self.turn as int].hands@
    }

    /// `card` may be played: it repeats the top face or climbs it by one step.
    pub open spec fn playable(&self, card: Card) -> bool {
        self.field@.len() > 0 && (card == self.top() || card.is_successor_of_spec(self.top()))
    }

    /// Every seat but the acting one is as it was, and so are phase, round and acting seat.
    pub open spec fn others_kept(pre: Game, post: Game) -> bool {
        &&& post.state == pre.state
        &&& post.round == pre.round
        &&& post.turn == pre.turn
        &&& post.players@.len() == pre.players@.len()
        &&& forall|j: int|
            0 <= j < pre.players@.len() && j != pre.turn ==> #[trigger] post.players@[j]
                == pre.players@[j]
        &&& post.players@[pre.turn as int].name == pre.players@[pre.turn as int].name
        &&& post.players@[pre.turn as int].is_human == pre.players@[pre.turn as int].is_human
        &&& post.players@[pre.turn as int].point == pre.players@[pre.turn as int].point
    }

    /// `post` is `pre` after the acting seat played one copy of `card` onto the field.
    pub open spec fn played(pre: Game, post: Game, card: Card) -> bool {
        &&& Self::others_kept(pre, post)
        &&& post.deck == pre.deck
        &&& post.field@ == pre.field@.push(card)
        &&& post.players@[pre.turn as int].is_folded == pre.players@[pre.turn as int].is_folded
        &&& exists|k: int|
            0 <= k < pre.hand().len() && pre.hand()[k] == card && #[trigger] post.hand()
                == pre.hand().remove(k)
        &&& post.hand().to_multiset() == pre.hand().to_multiset().remove(card)
        &&& post.hand().to_multiset().count(card) + 1 == pre.hand().to_multiset().count(card)
    }

    /// `post` is `pre` after the acting seat drew the deck's last card into its hand.
    pub open spec fn drew(pre: Game, post: Game) -> bool {
        &&& Self::others_kept(pre, post)
        &&& pre.deck@.len() > 0
        &&& post.deck@ == pre.deck@.drop_last()
        &&& post.field == pre.field
        &&& post.players@[pre.turn as int].is_folded == pre.players@[pre.turn as int].is_folded
        &&& post.hand().len() == pre.hand().len() + 1
        &&& post.hand().to_multiset() == pre.hand().to_multiset().insert(pre.deck@.last())
    }

    /// `post` is `pre` after the acting seat folded.
    pub open spec fn folded(pre: Game, post: Game) -> bool {
        &&& Self::others_kept(pre, post)
        &&& post.deck == pre.deck
        &&& post.field == pre.field
        &&& post.players@[pre.turn as int].is_folded
        &&& post.players@[pre.turn as int].hands == pre.players@[pre.turn as int].hands
    }

    /// The faces the automated policy may play, in order of preference:
    /// the top face, then the face one step above it, each only if held.
    pub open spec fn candidates(&self) -> Seq<Card> {
        let top = self.top();
        let up = top.next_spec();
        (if self.hand().contains(top) {
            seq![top]
        } else {
            seq![]
        }) + (if self.hand().contains(up) {
            seq![up]
        } else {
            seq![]
        })
    }

    /// The automated policy: play the first candidate, else draw if that is
    /// allowed, else fold.
    pub open spec fn decision(&self) -> Action {
        if self.candidates().len() > 0 {
            Action::Play(self.candidates()[0])
        } else if active_count(self.players@) > 1 {
            Action::Draw
        } else {
            Action::Fold
        }
    }

    /// `post` is `pre` after the acting seat took `action`; a draw from an
    /// empty deck changes nothing.
    pub open spec fn acted(pre: Game, post: Game, action: Action) -> bool {
        match action {
            Action::Play(card) => Self::played(pre, post, card),
            Action::Draw => if pre.deck@.len() > 0 {
                Self::drew(pre, post)
            } else {
                post == pre
            },
            Action::Fold => Self::folded(pre, post),
        }
    }

    /// A table of one human seat and automated seats, all with no score, in
    /// the first round, before any card is dealt.
    pub fn new() -> (r: Game)
        ensures
            r.wf(),
            r.state == State::InGame,
            r.round == 1,
            r.deck@.len() == 0,
            r.field@.len() == 0,
            r.turn == 0,
            r.players@[0].name@ == "Player"@,
            r.players@[1].name@ == "Npc1"@,
            r.players@[2].name@ == "Npc2"@,
            r.players@[0].is_human,
            forall|i: int| 1 <= i < PLAYER_COUNT ==> !(#[trigger] r.players@[i]).is_human,
            forall|i: int|
                0 <= i < PLAYER_COUNT ==> (#[trigger] r.players@[i]).point == 0
                    && r.players@[i].hands@.len() == 0 && !r.players@[i].is_folded,
    {
        let mut players: Vec<Player> = Vec::new();
        players.push(Player::new("Player".to_owned(), true));
        players.push(Player::new("Npc1".to_owned(), false));
        players.push(Player::new("Npc2".to_owned(), false));
        Game { state: State::InGame, round: 1, deck: Vec::new(), field: Vec::new(), players, turn: 0 }
    }

    /// Opens a round: clears hands and folds, builds and shuffles the full
    /// deck, picks the starting seat at random, turns one card onto the field
    /// and deals each seat its opening hand, in seat order.
    pub fn start_round(&mut self)
        requires
            old(self).wf(),
        ensures
            Self::fresh_round(*old(self), *final(self)),
    {
        let ghost seats = self.players@;
        self.deck = new_deck();
        self.field = Vec::new();
        let mut i: usize = 0;
        while i < self.players.len()
            invariant
                self.players@.len() == PLAYER_COUNT,
                i <= PLAYER_COUNT,
                Self::same_seats(seats, self.players@),
                self.deck@ == full_deck(),
                self.field@.len() == 0,
                self.state == old(self).state,
                self.round == old(self).round,
                forall|j: int| 0 <= j < PLAYER_COUNT ==> (#[trigger] self.players@[j]).wf(),
                forall|j: int|
                    0 <= j < i ==> !(#[trigger] self.players@[j]).is_folded
                        && self.players@[j].hands@.len() == 0,
            decreases PLAYER_COUNT - i,
        {
            self.players[i].reset();
            i += 1;
        }
        proof {
            assert forall|j: int| 0 <= j < PLAYER_COUNT implies #[trigger] self.players@[j].hands@
                =~= Seq::<Card>::empty() by {}
            lemma_no_cards_in_empty_hands(self.players@);
        }
        proof {
            assert forall|k: int| 0 <= k < full_deck().len() implies #[trigger] full_deck()[k].wf() by {
                assert(0 <= k / 8 < 7);
            }
        }
        let mut rng = rand::thread_rng();
        shuffle(&mut self.deck, &mut rng);
        self.turn = random_below(&mut rng, PLAYER_COUNT);
        let ghost deck0 = self.deck@;
        proof {
            broadcast use vstd::seq_lib::group_to_multiset_ensures;
            assert forall|k: int| 0 <= k < deck0.len() implies #[trigger] deck0[k].wf() by {
                assert(deck0.to_multiset().count(deck0[k]) > 0);
                assert(full_deck().to_multiset().count(deck0[k]) > 0);
                assert(full_deck().contains(deck0[k]));
            }
        }
        let card = self.deck.pop().unwrap();
        self.field.push(card);
        proof {
            broadcast use vstd::seq_lib::group_to_multiset_ensures;
            assert(deck0 =~= self.deck@.push(card));
            assert(self.field@ =~= seq![card]);
            assert(self.all_cards() =~= full_deck().to_multiset());
        }
        let mut i: usize = 0;
        while i < PLAYER_COUNT
            invariant
                self.players@.len() == PLAYER_COUNT,
                self.turn < PLAYER_COUNT,
                self.state == old(self).state,
                self.round == old(self).round,
                i <= PLAYER_COUNT,
                Self::same_seats(seats, self.players@),
                forall|j: int| 0 <= j < PLAYER_COUNT ==> (#[trigger] self.players@[j]).wf(),
                forall|j: int| 0 <= j < PLAYER_COUNT ==> !(#[trigger] self.players@[j]).is_folded,
                forall|j: int|
                    0 <= j < PLAYER_COUNT ==> (#[trigger] self.players@[j]).hands@.len() == if j
                        < i {
                        FIRST_CARD_COUNT as int
                    } else {
                        0
                    },
                all_wf(self.deck@),
                all_wf(self.field@),
                self.field@.len() == 1,
                self.deck@.len() == deck_size() - 1 - i * FIRST_CARD_COUNT,
                self.all_cards() == full_deck().to_multiset(),
            decreases PLAYER_COUNT - i,
        {
            let mut k: usize = 0;
            while k < FIRST_CARD_COUNT
                invariant
                    self.players@.len() == PLAYER_COUNT,
                    self.turn < PLAYER_COUNT,
                    self.state == old(self).state,
                    self.round == old(self).round,
                    i < PLAYER_COUNT,
                    k <= FIRST_CARD_COUNT,
                    Self::same_seats(seats, self.players@),
                    forall|j: int| 0 <= j < PLAYER_COUNT ==> (#[trigger] self.players@[j]).wf(),
                    forall|j: int| 0 <= j < PLAYER_COUNT ==> !(#[trigger] self.players@[j]).is_folded,
                    forall|j: int|
                        0 <= j < PLAYER_COUNT ==> (#[trigger] self.players@[j]).hands@.len() == if j
                            < i {
                            FIRST_CARD_COUNT as int
                        } else if j == i {
                            k as int
                        } else {
                            0
                        },
                    all_wf(self.deck@),
                    all_wf(self.field@),
                    self.field@.len() == 1,
                    self.deck@.len() == deck_size() - 1 - i * FIRST_CARD_COUNT - k,
                    self.all_cards() == full_deck().to_multiset(),
                decreases FIRST_CARD_COUNT - k,
            {
                let ghost pre = *self;
                let card = self.deck.pop().unwrap();
                insert_sorted(&mut self.players[i].hands, card);
                proof {
                    broadcast use vstd::seq_lib::group_to_multiset_ensures;
                    assert(pre.deck@ =~= self.deck@.push(card));
                    assert(self.players@ =~= pre.players@.update(i as int, self.players@[i as int]));
                    assert(self.players@[i as int].name == pre.players@[i as int].name);
                    assert(self.players@[i as int].point == pre.players@[i as int].point);
                    assert(self.players@[i as int].is_human == pre.players@[i as int].is_human);
                    assert forall|j: int| 0 <= j < PLAYER_COUNT implies {
                        &&& #[trigger] self.players@[j].name == seats[j].name
                        &&& self.players@[j].is_human == seats[j].is_human
                        &&& self.players@[j].point == seats[j].point
                    } by {
                        assert(pre.players@[j].name == seats[j].name);
                    }
                    lemma_hands_update(pre.players@, i as int, self.players@[i as int]);
                    let h0 = pre.players@[i as int].hands@.to_multiset();
                    assert(self.players@[i as int].hands@.to_multiset() == h0.insert(card));
                    assert forall|x: Card| #[trigger] self.all_cards().count(x) == pre.all_cards().count(x) by {
                        assert(cards_in_hands(self.players@).add(h0).count(x) == cards_in_hands(pre.players@).add(h0.insert(card)).count(x));
                    }
                    assert(self.all_cards() =~= pre.all_cards());
                }
                k += 1;
            }
            i += 1;
        }
        proof {
            broadcast use vstd::seq_lib::group_to_multiset_ensures;
            lemma_hands_len(self.players@);
            assert(self.all_cards().len() == full_deck().len());
            assert forall|j: int| 0 <= j < PLAYER_COUNT implies #[trigger] self.players@[j].point
                == seats[j].point by {
                assert(self.players@[j].name == seats[j].name);
            }
        }
    }

    /// The seat whose turn it is.
    pub fn get_turn_player(&self) -> (r: &Player)
        requires
            self.wf(),
        ensures
            *r == self.players@[self.turn as int],
    {
        &self.players[self.turn]
    }

    /// Whether `card` may be played now: the field has a top and `card`
    /// repeats it or climbs it by one step.
    pub fn can_play(&self, card: Card) -> (r: bool)
        requires
            self.wf(),
        ensures
            r == self.playable(card),
    {
        if self.field.len() == 0 {
            return false;
        }
        let top = self.field[self.field.len() - 1];
        card == top || card.is_successor_of(&top)
    }

    /// The acting seat plays one copy of `card` onto the field; refused, with
    /// nothing changed, when the card may not be played or is not in hand.
    pub fn play_card(&mut self, card: Card) -> (r: Option<()>)
        requires
            old(self).wf(),
        ensures
            final(self).wf(),
            r is Some <==> old(self).playable(card) && old(self).hand().contains(card),
            r is Some ==> Self::played(*old(self), *final(self), card),
            r is None ==> *final(self) == *old(self),
            final(self).all_cards() == old(self).all_cards(),
    {
        if !self.can_play(card) {
            return None;
        }
        let t = self.turn;
        let index = match position_of(&self.players[t].hands, card) {
            Some(i) => i,
            None => return None,
        };
        let ghost pre = *self;
        self.players[t].hands.remove(index);
        self.field.push(card);
        proof {
            broadcast use vstd::seq_lib::group_to_multiset_ensures;
            let h = pre.hand();
            let q = self.players@[t as int];
            assert(pre.players@[t as int].wf());
            assert(self.players@ =~= pre.players@.update(t as int, q));
            assert(q.hands@ == h.remove(index as int));
            assert(sorted(q.hands@)) by {
                assert forall|a: int, b: int| 0 <= a < b < q.hands@.len() implies #[trigger] q.hands@[a].rank()
                    <= #[trigger] q.hands@[b].rank() by {
                    if a >= index {
                        assert(q.hands@[a] == h[a + 1]);
                    }
                    if b >= index {
                        assert(q.hands@[b] == h[b + 1]);
                    }
                }
            }
            assert(all_wf(q.hands@)) by {
                assert forall|a: int| 0 <= a < q.hands@.len() implies #[trigger] q.hands@[a].wf() by {
                    if a >= index {
                        assert(q.hands@[a] == h[a + 1]);
                    }
                }
            }
            assert(q.wf());
            assert(all_wf(self.field@)) by {
                assert forall|a: int| 0 <= a < self.field@.len() implies #[trigger] self.field@[a].wf() by {
                    if a < pre.field@.len() {
                        assert(self.field@[a] == pre.field@[a]);
                    }
                }
            }
            lemma_hands_update(pre.players@, t as int, q);
            assert(q.hands@.to_multiset() == h.to_multiset().remove(card));
            assert(self.field@.to_multiset() == pre.field@.to_multiset().insert(card));
            assert(h.to_multiset().count(card) > 0);
            assert forall|x: Card| #[trigger] self.all_cards().count(x) == pre.all_cards().count(x) by {
                assert(cards_in_hands(self.players@).add(h.to_multiset()).count(x)
                    == cards_in_hands(pre.players@).add(h.to_multiset().remove(card)).count(x));
            }
            assert(self.all_cards() =~= pre.all_cards());
            assert(self.hand() == pre.hand().remove(index as int));
        }
        Some(())
    }

    /// Whether the acting seat may draw: more than one seat is still in the round.
    pub fn can_draw(&self) -> (r: bool)
        ensures
            r == (active_count(self.players@) > 1),
    {
        let mut count: usize = 0;
        let mut i: usize = 0;
        while i < self.players.len()
            invariant
                i <= self.players@.len(),
                count == active_count(self.players@.subrange(0, i as int)),
                count <= i,
            decreases self.players@.len() - i,
        {
            assert(self.players@.subrange(0, i + 1).drop_last() =~= self.players@.subrange(0, i as int));
            if !self.players[i].is_folded {
                count += 1;
            }
            i += 1;
        }
        assert(self.players@.subrange(0, i as int) =~= self.players@);
        count > 1
    }

    /// The acting seat takes the deck's last card into its hand, kept sorted;
    /// refused, with nothing changed, when at most one seat is still in the
    /// round or the deck is empty.
    pub fn draw(&mut self) -> (r: Option<()>)
        requires
            old(self).wf(),
        ensures
            final(self).wf(),
            r is Some <==> active_count(old(self).players@) > 1 && old(self).deck@.len() > 0,
            active_count(old(self).players@) <= 1 ==> r is None,
            r is Some ==> Self::drew(*old(self), *final(self)),
            r is None ==> *final(self) == *old(self),
            final(self).all_cards() == old(self).all_cards(),
    {
        if !self.can_draw() {
            return None;
        }
        if self.deck.len() == 0 {
            return None;
        }
        let ghost pre = *self;
        let t = self.turn;
        let card = self.deck.pop().unwrap();
        assert(self.players@[t as int].wf());
        insert_sorted(&mut self.players[t].hands, card);
        proof {
            broadcast use vstd::seq_lib::group_to_multiset_ensures;
            let h = pre.hand();
            let q = self.players@[t as int];
            assert(self.players@ =~= pre.players@.update(t as int, q));
            assert(pre.deck@ =~= self.deck@.push(card));
            lemma_hands_update(pre.players@, t as int, q);
            assert forall|x: Card| #[trigger] self.all_cards().count(x) == pre.all_cards().count(x) by {
                assert(cards_in_hands(self.players@).add(h.to_multiset()).count(x)
                    == cards_in_hands(pre.players@).add(h.to_multiset().insert(card)).count(x));
            }
            assert(self.all_cards() =~= pre.all_cards());
        }
        Some(())
    }

    /// The acting seat leaves the round.
    pub fn fold(&mut self)
        requires
            old(self).wf(),
        ensures
            final(self).wf(),
            Self::folded(*old(self), *final(self)),
            final(self).all_cards() == old(self).all_cards(),
    {
        let ghost pre = *self;
        let t = self.turn;
        self.players[t].is_folded = true;
        proof {
            let q = self.players@[t as int];
            let h = pre.hand().to_multiset();
            assert(pre.players@[t as int].wf());
            assert(q.hands == pre.players@[t as int].hands);
            assert(self.players@ =~= pre.players@.update(t as int, q));
            lemma_hands_update(pre.players@, t as int, q);
            assert forall|x: Card| #[trigger] self.all_cards().count(x) == pre.all_cards().count(x) by {
                assert(cards_in_hands(self.players@).add(h).count(x) == cards_in_hands(pre.players@).add(h).count(x));
            }
            assert(self.all_cards() =~= pre.all_cards());
        }
    }

    /// Whether the round is over: the deck is empty, some hand is empty, or
    /// every seat folded.
    pub fn is_turn_end(&self) -> (r: bool)
        ensures
            r == self.turn_over(),
    {
        if self.deck.len() == 0 {
            return true;
        }
        let mut any_empty = false;
        let mut all_folded = true;
        let mut i: usize = 0;
        while i < self.players.len()
            invariant
                i <= self.players@.len(),
                any_empty == exists|j: int| 0 <= j < i && (#[trigger] self.players@[j]).hands@.len() == 0,
                all_folded == forall|j: int| 0 <= j < i ==> (#[trigger] self.players@[j]).is_folded,
            decreases self.players@.len() - i,
        {
            if self.players[i].hands.len() == 0 {
                any_empty = true;
            }
            if !self.players[i].is_folded {
                all_folded = false;
            }
            i += 1;
        }
        any_empty || all_folded
    }

    /// Scores every seat on its hand; then ends the game if the highest score
    /// reached `GAME_END_POINT`, else opens the next round.
    pub fn end_round(&mut self)
        requires
            old(self).wf(),
            old(self).state == State::InGame,
            old(self).round < u32::MAX,
        ensures
            Self::round_ended(*old(self), *final(self)),
    {
        let ghost pre = *self;
        let mut i: usize = 0;
        while i < self.players.len()
            invariant
                self.players@.len() == PLAYER_COUNT,
                i <= PLAYER_COUNT,
                pre.wf(),
                pre.state == State::InGame,
                self.state == pre.state,
                self.round == pre.round,
                self.turn == pre.turn,
                self.deck == pre.deck,
                self.field == pre.field,
                forall|j: int|
                    0 <= j < PLAYER_COUNT ==> {
                        &&& #[trigger] self.players@[j].name == pre.players@[j].name
                        &&& self.players@[j].is_human == pre.players@[j].is_human
                        &&& self.players@[j].hands == pre.players@[j].hands
                        &&& self.players@[j].is_folded == pre.players@[j].is_folded
                        &&& self.players@[j].point == if j < i {
                            round_end_point(pre.players@[j].point as int, pre.players@[j].hands@)
                        } else {
                            pre.players@[j].point as int
                        }
                    },
            decreases PLAYER_COUNT - i,
        {
            assert(pre.players@[i as int].point < GAME_END_POINT);
            assert(self.players@[i as int].name == pre.players@[i as int].name);
            let ghost before = self.players@;
            let point = round_end_score(self.players[i].point, &self.players[i].hands);
            self.players[i].point = point;
            i += 1;
            proof {
                assert(self.players@ =~= before.update(i - 1, self.players@[i - 1]));
                assert forall|j: int| 0 <= j < PLAYER_COUNT implies {
                    &&& #[trigger] self.players@[j].name == pre.players@[j].name
                    &&& self.players@[j].is_human == pre.players@[j].is_human
                    &&& self.players@[j].hands == pre.players@[j].hands
                    &&& self.players@[j].is_folded == pre.players@[j].is_folded
                    &&& self.players@[j].point == if j < i {
                        round_end_point(pre.players@[j].point as int, pre.players@[j].hands@)
                    } else {
                        pre.players@[j].point as int
                    }
                } by {
                    assert(before[j].name == pre.players@[j].name);
                }
            }
        }
        let mut over = false;
        let mut j: usize = 0;
        while j < self.players.len()
            invariant
                j <= self.players@.len(),
                over == exists|k: int| 0 <= k < j && (#[trigger] self.players@[k]).point >= GAME_END_POINT,
            decreases self.players@.len() - j,
        {
            if self.players[j].point >= GAME_END_POINT {
                over = true;
            }
            j += 1;
        }
        proof {
            assert forall|k: int| 0 <= k < PLAYER_COUNT implies (#[trigger] self.players@[k]).wf() by {
                assert(self.players@[k].name == pre.players@[k].name);
                assert(self.players@[k].hands == pre.players@[k].hands);
                assert(pre.players@[k].wf());
            }
        }
        if over {
            self.state = State::Result;
            proof {
                assert forall|k: int| 0 <= k < PLAYER_COUNT implies (#[trigger] self.players@[k]).hands
                    == pre.players@[k].hands && self.players@[k].is_folded == pre.players@[k].is_folded by {
                    assert(self.players@[k].name == pre.players@[k].name);
                }
            }
        } else {
            self.round = self.round + 1;
            let ghost scored = *self;
            self.start_round();
            proof {
                assert forall|k: int| 0 <= k < PLAYER_COUNT implies #[trigger] self.players@[k].name
                    == pre.players@[k].name && self.players@[k].is_human == pre.players@[k].is_human
                    && self.players@[k].point == round_end_point(
                    pre.players@[k].point as int,
                    pre.players@[k].hands@,
                ) by {
                    assert(self.players@[k].name == scored.players@[k].name);
                    assert(scored.players@[k].name == pre.players@[k].name);
                }
            }
        }
    }

    /// Ends the acting seat's turn: ends the round if it is over, else hands
    /// the turn to the next seat that has not folded.
    pub fn end_turn(&mut self)
        requires
            old(self).wf(),
            old(self).state == State::InGame,
            old(self).round < u32::MAX,
        ensures
            Self::turn_ended(*old(self), *final(self)),
    {
        if self.is_turn_end() {
            self.end_round();
            return;
        }
        let ghost pre = *self;
        let n = self.players.len();
        let mut step: usize = 1;
        while step <= n
            invariant
                *self == pre,
                pre == *old(self),
                !pre.turn_over(),
                pre.wf(),
                n == PLAYER_COUNT,
                1 <= step <= n + 1,
                forall|j: int| 1 <= j < step ==> (#[trigger] pre.players@[seat_after(pre.turn as int, j)]).is_folded,
            decreases n + 1 - step,
        {
            let seat = (self.turn + step) % n;
            if !self.players[seat].is_folded {
                self.turn = seat;
                assert(seat_after(pre.turn as int, step as int) == seat);
                return;
            }
            step += 1;
        }
        proof {
            assert forall|k: int| 0 <= k < PLAYER_COUNT implies (#[trigger] pre.players@[k]).is_folded by {
                let j = if k > pre.turn { k - pre.turn } else { k - pre.turn + PLAYER_COUNT };
                assert(1 <= j <= PLAYER_COUNT);
                assert(seat_after(pre.turn as int, j) == k);
                assert(pre.players@[seat_after(pre.turn as int, j)].is_folded);
            }
        }
    }

    /// The faces the acting seat could play, top face first.
    pub fn candidate(&self) -> (r: Vec<Card>)
        requires
            self.wf(),
            self.field@.len() > 0,
        ensures
            r@ == self.candidates(),
    {
        let top = self.field[self.field.len() - 1];
        let up = top.next();
        let hand = &self.players[self.turn].hands;
        let mut r: Vec<Card> = Vec::new();
        if position_of(hand, top).is_some() {
            r.push(top);
        }
        if position_of(hand, up).is_some() {
            r.push(up);
        }
        assert(r@ =~= self.candidates());
        r
    }

    /// What the automated policy does for the acting seat.
    pub fn decide(&self) -> (r: Action)
        requires
            self.wf(),
            self.field@.len() > 0,
        ensures
            r == self.decision(),
    {
        let candidate = self.candidate();
        if candidate.len() > 0 {
            Action::Play(candidate[0])
        } else if self.can_draw() {
            Action::Draw
        } else {
            Action::Fold
        }
    }

    /// Plays the acting seat by the automated policy, then ends its turn. The
    /// move chosen is always accepted, save a draw from an empty deck.
    pub fn auto_play(&mut self)
        requires
            old(self).wf(),
            old(self).state == State::InGame,
            old(self).round < u32::MAX,
            old(self).field@.len() > 0,
        ensures
            exists|mid: Game|
                Self::acted(*old(self), mid, old(self).decision()) && #[trigger] mid.wf()
                    && Self::turn_ended(mid, *final(self)),
    {
        let action = self.decide();
        match action {
            Action::Play(card) => {
                proof {
                    assert(self.candidates().len() > 0);
                    assert(self.hand().contains(card));
                }
                self.play_card(card);
            },
            Action::Draw => {
                self.draw();
            },
            Action::Fold => {
                self.fold();
            },
        }
        let ghost mid = *self;
        self.end_turn();
        assert(Self::turn_ended(mid, *self));
    }

    /// Plays the card a typed code names (see `Card::from_code`); refused,
    /// with nothing changed, for an unknown code or a play `play_card` refuses.
    pub fn play_card_by_str(&mut self, target: String) -> (r: Option<()>)
        requires
            old(self).wf(),
        ensures
            final(self).wf(),
            code_card(target@) is None ==> r is None && *final(self) == *old(self),
            code_card(target@) matches Some(card) ==> {
                &&& (r is Some <==> old(self).playable(card) && old(self).hand().contains(card))
                &&& r is Some ==> Self::played(*old(self), *final(self), card)
                &&& r is None ==> *final(self) == *old(self)
            },
    {
        let card = match Card::from_code(target.as_str()) {
            Some(c) => c,
            None => return None,
        };
        self.play_card(card)
    }

    /// Seats in final standing: ascending score, ties in seat order; the first is the winner.
    pub fn standings(&self) -> (r: Vec<usize>)
        ensures
            r@.len() == self.players@.len(),
            forall|i: int| 0 <= i < r@.len() ==> #[trigger] r@[i] < self.players@.len(),
            forall|i: int, j: int|
                0 <= i < j < r@.len() ==> Self::ranks_before(self.players@, #[trigger] r@[i] as int, #[trigger] r@[j] as int),
    {
        let mut r: Vec<usize> = Vec::new();
        let mut s: usize = 0;
        while s < self.players.len()
            invariant
                s <= self.players@.len(),
                r@.len() == s,
                forall|i: int| 0 <= i < r@.len() ==> #[trigger] r@[i] < s,
                forall|i: int, j: int|
                    0 <= i < j < r@.len() ==> Self::ranks_before(self.players@, #[trigger] r@[i] as int, #[trigger] r@[j] as int),
            decreases self.players@.len() - s,
        {
            let point = self.players[s].point;
            let mut k: usize = 0;
            while k < r.len() && self.players[r[k]].point <= point
                invariant
                    s < self.players@.len(),
                    k <= r@.len(),
                    forall|i: int| 0 <= i < r@.len() ==> #[trigger] r@[i] < s,
                    forall|i: int| 0 <= i < k ==> self.players@[#[trigger] r@[i] as int].point <= point,
                decreases r@.len() - k,
            {
                k += 1;
            }
            let ghost before = r@;
            r.insert(k, s);
            proof {
                assert forall|i: int, j: int| 0 <= i < j < r@.len() implies Self::ranks_before(
                    self.players@,
                    #[trigger] r@[i] as int,
                    #[trigger] r@[j] as int,
                ) by {
                    if j < k {
                        assert(r@[i] == before[i] && r@[j] == before[j]);
                    } else if j == k {
                        assert(r@[i] == before[i]);
                    } else if i == k {
                        assert(r@[j] == before[j - 1]);
                        assert(self.players@[before[k as int] as int].point > point);
                        if j - 1 > k {
                            assert(Self::ranks_before(self.players@, before[k as int] as int, before[j - 1] as int));
                        }
                    } else if i < k {
                        assert(r@[i] == before[i] && r@[j] == before[j - 1]);
                    } else {
                        assert(r@[i] == before[i - 1] && r@[j] == before[j - 1]);
                    }
                }
            }
            s += 1;
        }
        r
    }
}

/// Seats whose hands are all empty hold no card.
proof fn lemma_no_cards_in_empty_hands(ps: Seq<Player>)
    requires
        forall|j: int| 0 <= j < ps.len() ==> #[trigger] ps[j].hands@ == Seq::<Card>::empty(),
    ensures
        cards_in_hands(ps) =~= Multiset::empty(),
        hands_len(ps) == 0,
    decreases ps.len(),
{
    broadcast use vstd::seq_lib::group_to_multiset_ensures;
    if ps.len() > 0 {
        lemma_no_cards_in_empty_hands(ps.drop_last());
        assert(ps.last().hands@ == Seq::<Card>::empty());
    }
}

} // verus!

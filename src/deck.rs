use vstd::prelude::*;
use crate::card::{Card, card_of, MAX_NUMBER, PER_CARD_COUNT};
use rand::seq::SliceRandom;
use rand::Rng;
use rand::rngs::ThreadRng;

verus! {

/// Number of cards in a full deck.
pub open spec fn deck_size() -> nat {
    ((MAX_NUMBER + 1) * PER_CARD_COUNT) as nat
}

/// The full deck in the order it is built: `PER_CARD_COUNT` copies of each
/// face, faces ascending, `Rama` last.
pub open spec fn full_deck() -> Seq<Card> {
    Seq::new(deck_size(), |i: int| card_of(i / PER_CARD_COUNT as int + 1))
}

/// Builds the full deck, unshuffled.
pub fn new_deck() -> (r: Vec<Card>)
    ensures
        r@ == full_deck(),
{
    let mut deck: Vec<Card> = Vec::new();
    let mut face: u32 = 1;
    while face <= MAX_NUMBER + 1
        invariant
            1 <= face <= MAX_NUMBER + 2,
            deck@.len() == (face - 1) * PER_CARD_COUNT,
            forall|i: int| 0 <= i < deck@.len() ==> #[trigger] deck@[i] == card_of(i / PER_CARD_COUNT as int + 1),
        decreases MAX_NUMBER + 2 - face,
    {
        let mut copy: usize = 0;
        while copy < PER_CARD_COUNT
            invariant
                1 <= face <= MAX_NUMBER + 1,
                copy <= PER_CARD_COUNT,
                deck@.len() == (face - 1) * PER_CARD_COUNT + copy,
                forall|i: int| 0 <= i < deck@.len() ==> #[trigger] deck@[i] == card_of(i / PER_CARD_COUNT as int + 1),
            decreases PER_CARD_COUNT - copy,
        {
            let ghost n = deck@.len() as int;
            proof {
                assert(n / 8 == face - 1) by (nonlinear_arith)
                    requires n == (face - 1) * 8 + copy, 0 <= copy < 8, face >= 1;
            }
            deck.push(Card::new(face));
            copy += 1;
        }
        face += 1;
    }
    assert(deck@ =~= full_deck());
    deck
}

/// The generator handle of rand, carried through to the calls below.
#[verifier::external_type_specification]
#[verifier::external_body]
pub struct ExThreadRng(ThreadRng);

/// Relies on rand's `thread_rng`: a handle to the thread-local generator.
pub assume_specification[ rand::thread_rng ]() -> ThreadRng;

/// Relies on rand's `SliceRandom::shuffle`: it only swaps cards in place,
/// so the result is a permutation of the input.
#[verifier::external_body]
pub(crate) fn shuffle(cards: &mut Vec<Card>, rng: &mut ThreadRng)
    ensures
        final(cards)@.len() == old(cards)@.len(),
        final(cards)@.to_multiset() == old(cards)@.to_multiset(),
{
    cards.shuffle(rng);
}

/// Relies on rand's `Rng::gen_range`: a value of `0..n`; it panics on an
/// empty range.
#[verifier::external_body]
pub(crate) fn random_below(rng: &mut ThreadRng, n: usize) -> (r: usize)
    requires
        n > 0,
    ensures
        r < n,
{
    rng.gen_range(0..n)
}

} // verus!

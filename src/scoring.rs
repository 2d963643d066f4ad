use vstd::prelude::*;
use crate::card::{Card, BIG_POINT_TIP};
use crate::hand::{distinct_penalty, distinct_penalty_of};

verus! {

/// A seat's score once a round ends. A seat that went out (empty hand) takes
/// `BIG_POINT_TIP` off a score of at least that much, else one point off a
/// positive score, never going below zero. Any other seat adds what the
/// distinct faces left in its hand cost.
pub open spec fn round_end_point(point: int, hand: Seq<Card>) -> int {
    if hand.len() == 0 {
        if point >= BIG_POINT_TIP {
            point - BIG_POINT_TIP
        } else if point > 0 {
            point - 1
        } else {
            0
        }
    } else {
        point + distinct_penalty(hand)
    }
}

/// Scores one seat at the end of a round.
pub fn round_end_score(point: u32, hand: &Vec<Card>) -> (r: u32)
    requires
        point <= u32::MAX - 70,
    ensures
        r == round_end_point(point as int, hand@),
        r <= point + 70,
{
    if hand.len() == 0 {
        if point >= BIG_POINT_TIP {
            point - BIG_POINT_TIP
        } else if point > 0 {
            point - 1
        } else {
            0
        }
    } else {
        point + distinct_penalty_of(hand)
    }
}

} // verus!

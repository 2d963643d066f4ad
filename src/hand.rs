use vstd::prelude::*;
use crate::card::{Card, card_of, MAX_NUMBER};

verus! {

/// Every card of `s` holds a valid face.
pub open spec fn all_wf(s: Seq<Card>) -> bool {
    forall|i: int| 0 <= i < s.len() ==> #[trigger] s[i].wf()
}

/// `s` is sorted by rank: numbers ascending, `Rama` last.
pub open spec fn sorted(s: Seq<Card>) -> bool {
    forall|i: int, j: int| 0 <= i < j < s.len() ==> #[trigger] s[i].rank() <= #[trigger] s[j].rank()
}

/// What the faces from number `k` up to `Rama` that occur in `s` cost, each counted once.
pub open spec fn distinct_penalty_from(s: Seq<Card>, k: int) -> int
    decreases MAX_NUMBER + 2 - k,
{
    if k < 1 || k > MAX_NUMBER + 1 {
        0
    } else {
        (if s.contains(card_of(k)) {
            card_of(k).penalty()
        } else {
            0
        }) + distinct_penalty_from(s, k + 1)
    }
}

/// What the distinct faces of a hand cost at the end of a round: each face
/// held counts once, however many copies of it are held.
pub open spec fn distinct_penalty(s: Seq<Card>) -> int {
    distinct_penalty_from(s, 1)
}

/// Index of the first copy of `c` in `hand`, if it holds one.
pub fn position_of(hand: &Vec<Card>, c: Card) -> (r: Option<usize>)
    ensures
        r is None <==> !hand@.contains(c),
        r matches Some(i) ==> i < hand@.len() && hand@[i as int] == c && forall|j: int|
            0 <= j < i ==> hand@[j] != c,
{
    let mut i: usize = 0;
    while i < hand.len()
        invariant
            i <= hand@.len(),
            forall|j: int| 0 <= j < i ==> hand@[j] != c,
        decreases hand@.len() - i,
    {
        if hand[i] == c {
            return Some(i);
        }
        i += 1;
    }
    None
}

/// Puts `c` into a sorted hand at its sorted place.
pub fn insert_sorted(hand: &mut Vec<Card>, c: Card)
    requires
        sorted(old(hand)@),
        all_wf(old(hand)@),
        c.wf(),
    ensures
        sorted(final(hand)@),
        all_wf(final(hand)@),
        final(hand)@.len() == old(hand)@.len() + 1,
        final(hand)@.to_multiset() == old(hand)@.to_multiset().insert(c),
{
    let mut i: usize = 0;
    while i < hand.len() && hand[i].sorts_before_or_with(&c)
        invariant
            i <= hand@.len(),
            all_wf(hand@),
            c.wf(),
            forall|j: int| 0 <= j < i ==> #[trigger] hand@[j].rank() <= c.rank(),
        decreases hand@.len() - i,
    {
        i += 1;
    }
    let ghost s = hand@;
    hand.insert(i, c);
    proof {
        broadcast use vstd::seq_lib::group_to_multiset_ensures;
        assert(hand@.remove(i as int) =~= s);
        assert(hand@.to_multiset().remove(c) =~= s.to_multiset());
        assert(hand@.to_multiset().count(c) > 0);
        assert(hand@.to_multiset() =~= s.to_multiset().insert(c));
        assert forall|a: int, b: int| 0 <= a < b < hand@.len() implies #[trigger] hand@[a].rank()
            <= #[trigger] hand@[b].rank() by {
            if i < s.len() {
                assert(c.rank() < s[i as int].rank());
            }
        }
    }
}

/// What the distinct faces of `hand` cost: each face held counts once.
pub fn distinct_penalty_of(hand: &Vec<Card>) -> (r: u32)
    ensures
        r == distinct_penalty(hand@),
        r <= 70,
{
    let mut k: u32 = MAX_NUMBER + 1;
    let mut sum: u32 = 0;
    while k >= 1
        invariant
            0 <= k <= MAX_NUMBER + 1,
            sum == distinct_penalty_from(hand@, k + 1),
            sum <= 10 * (MAX_NUMBER + 1 - k),
        decreases k,
    {
        let face = Card::new(k);
        if position_of(hand, face).is_some() {
            sum = sum + face.penalty_of();
        }
        k -= 1;
    }
    sum
}

} // verus!

use vstd::prelude::*;
use vstd::multiset::Multiset;
use crate::card::Card;
use crate::hand::{all_wf, sorted};

verus! {

/// One seat: who sits there, its penalty score, and its round-scoped hand and fold flag.
pub struct Player {
    pub name: String,
    pub is_human: bool,
    pub point: u32,
    pub hands: Vec<Card>,
    pub is_folded: bool,
}

impl Player {
    /// The hand holds valid faces, sorted.
    pub open spec fn wf(&self) -> bool {
        all_wf(self.hands@) && sorted(self.hands@)
    }

    /// A seat with no score, no cards, not folded.
    pub fn new(name: String, is_human: bool) -> (r: Player)
        ensures
            r.name == name,
            r.is_human == is_human,
            r.point == 0,
            r.hands@.len() == 0,
            !r.is_folded,
            r.wf(),
    {
        Player { name, is_human, point: 0, hands: Vec::new(), is_folded: false }
    }

    /// Clears the hand and the fold flag; the score stays.
    pub fn reset(&mut self)
        ensures
            final(self).name == old(self).name,
            final(self).is_human == old(self).is_human,
            final(self).point == old(self).point,
            final(self).hands@.len() == 0,
            !final(self).is_folded,
            final(self).wf(),
    {
        self.hands = Vec::new();
        self.is_folded = false;
    }
}

/// Number of seats in `ps` that have not folded.
pub open spec fn active_count(ps: Seq<Player>) -> nat
    decreases ps.len(),
{
    if ps.len() == 0 {
        0
    } else {
        active_count(ps.drop_last()) + if ps.last().is_folded {
            0nat
        } else {
            1nat
        }
    }
}

/// Every card held in the hands of `ps`.
pub open spec fn cards_in_hands(ps: Seq<Player>) -> Multiset<Card>
    decreases ps.len(),
{
    if ps.len() == 0 {
        Multiset::empty()
    } else {
        cards_in_hands(ps.drop_last()).add(ps.last().hands@.to_multiset())
    }
}

/// Number of cards held in the hands of `ps`.
pub open spec fn hands_len(ps: Seq<Player>) -> nat
    decreases ps.len(),
{
    if ps.len() == 0 {
        0
    } else {
        hands_len(ps.drop_last()) + ps.last().hands@.len()
    }
}

/// The cards held are as many as the hands' lengths add up to.
pub proof fn lemma_hands_len(ps: Seq<Player>)
    ensures
        hands_len(ps) == cards_in_hands(ps).len(),
    decreases ps.len(),
{
    broadcast use vstd::seq_lib::group_to_multiset_ensures;
    if ps.len() > 0 {
        lemma_hands_len(ps.drop_last());
    }
}

/// Changing one seat's hand changes the cards held by exactly that hand's difference.
pub proof fn lemma_hands_update(ps: Seq<Player>, i: int, p: Player)
    requires
        0 <= i < ps.len(),
    ensures
        cards_in_hands(ps.update(i, p)).add(ps[i].hands@.to_multiset()) == cards_in_hands(ps).add(
            p.hands@.to_multiset(),
        ),
    decreases ps.len(),
{
    let qs = ps.update(i, p);
    if i == ps.len() - 1 {
        assert(qs.drop_last() =~= ps.drop_last());
    } else {
        assert(qs.drop_last() =~= ps.drop_last().update(i, p));
        lemma_hands_update(ps.drop_last(), i, p);
    }
    if i == ps.len() - 1 {
        assert(qs.last() == p);
    } else {
        assert(qs.last() == ps.last());
        assert(cards_in_hands(qs.drop_last()).add(ps[i].hands@.to_multiset()) == cards_in_hands(
            ps.drop_last(),
        ).add(p.hands@.to_multiset()));
    }
    assert forall|x: Card| #[trigger]
        cards_in_hands(qs).add(ps[i].hands@.to_multiset()).count(x) == cards_in_hands(ps).add(
            p.hands@.to_multiset(),
        ).count(x) by {
        if i < ps.len() - 1 {
            assert(cards_in_hands(qs.drop_last()).add(ps[i].hands@.to_multiset()).count(x)
                == cards_in_hands(ps.drop_last()).add(p.hands@.to_multiset()).count(x));
        }
    }
    assert(cards_in_hands(qs).add(ps[i].hands@.to_multiset()) =~= cards_in_hands(ps).add(
        p.hands@.to_multiset(),
    ));
}

} // verus!

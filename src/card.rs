use vstd::prelude::*;

verus! {

/// Number of seats at the table.
pub const PLAYER_COUNT: usize = 3;

/// Highest numbered face; `Rama` follows it.
pub const MAX_NUMBER: u32 = 6;

/// Cards dealt to each seat when a round opens.
pub const FIRST_CARD_COUNT: usize = 6;

/// Copies of each face in a full deck.
pub const PER_CARD_COUNT: usize = 8;

/// Points a `Rama` left in hand costs at the end of a round.
pub const RAMA_PENALTY: u32 = 10;

/// Score from which going out takes off this many points at once.
pub const BIG_POINT_TIP: u32 = 10;

/// Score at which the game ends.
pub const GAME_END_POINT: u32 = 40;

/// A playable card: a numbered face or the top face `Rama`.
#[derive(PartialEq, Eq, Structural, Clone, Copy, Debug)]
pub enum Card {
    Number(u32),
    Rama,
}

/// Number of faces, `Rama` included.
pub open spec fn face_count() -> nat {
    (MAX_NUMBER + 1) as nat
}

/// The card with face number `n` (`1..=MAX_NUMBER`), or `Rama` for `MAX_NUMBER + 1`.
pub open spec fn card_of(n: int) -> Card {
    if n == MAX_NUMBER + 1 {
        Card::Rama
    } else {
        Card::Number(n as u32)
    }
}

impl Card {
    /// A number card holds a face in `1..=MAX_NUMBER`.
    pub open spec fn wf(self) -> bool {
        match self {
            Card::Number(v) => 1 <= v <= MAX_NUMBER,
            Card::Rama => true,
        }
    }

    /// Position of the face in the climbing order: `1..=MAX_NUMBER`, then `Rama`.
    pub open spec fn rank(self) -> int {
        match self {
            Card::Number(v) => v as int,
            Card::Rama => MAX_NUMBER + 1,
        }
    }

    /// The face one step up the cycle `1 -> 2 -> .. -> MAX_NUMBER -> Rama -> 1`.
    pub open spec fn next_spec(self) -> Card {
        match self {
            Card::Number(v) => if v == MAX_NUMBER {
                Card::Rama
            } else {
                Card::Number((v + 1) as u32)
            },
            Card::Rama => Card::Number(1),
        }
    }

    /// Points the face costs when left in hand at the end of a round.
    pub open spec fn penalty(self) -> int {
        match self {
            Card::Number(v) => v as int,
            Card::Rama => RAMA_PENALTY as int,
        }
    }

    /// The code a card is written with: its digit, or `R` for `Rama`.
    pub open spec fn label_spec(self) -> Seq<char> {
        match self {
            Card::Number(v) => seq![('0' as u32 + v) as char],
            Card::Rama => seq!['R'],
        }
    }

    /// `self` is the face one step above `other`.
    pub open spec fn is_successor_of_spec(self, other: Card) -> bool {
        self == other.next_spec()
    }

    /// Builds the card of face number `n`; a face out of range is a defect of the caller.
    pub fn new(n: u32) -> (r: Card)
        requires
            1 <= n <= MAX_NUMBER + 1,
        ensures
            r == card_of(n as int),
            r.wf(),
            r.rank() == n,
    {
        if n == MAX_NUMBER + 1 {
            Card::Rama
        } else {
            Card::Number(n)
        }
    }

    /// The face one step up the cycle.
    pub fn next(&self) -> (r: Card)
        requires
            self.wf(),
        ensures
            r == self.next_spec(),
            r.wf(),
    {
        match self {
            Card::Number(n) => if *n == MAX_NUMBER {
                Card::Rama
            } else {
                Card::Number(*n + 1)
            },
            Card::Rama => Card::Number(1),
        }
    }

    /// Position in the sort order of hands: numbers by value, `Rama` last.
    pub fn rank_of(&self) -> (r: u32)
        requires
            self.wf(),
        ensures
            r == self.rank(),
    {
        match self {
            Card::Number(n) => *n,
            Card::Rama => MAX_NUMBER + 1,
        }
    }

    /// Total order used to sort hands: true when `self` sorts no later than `other`.
    pub fn sorts_before_or_with(&self, other: &Card) -> (r: bool)
        requires
            self.wf(),
            other.wf(),
        ensures
            r == (self.rank() <= other.rank()),
    {
        self.rank_of() <= other.rank_of()
    }

    /// Adjacency used for legality: `self` is one step above `other` in the cycle.
    pub fn is_successor_of(&self, other: &Card) -> (r: bool)
        requires
            other.wf(),
        ensures
            r == self.is_successor_of_spec(*other),
    {
        *self == other.next()
    }

    /// Points the face costs when left in hand.
    pub fn penalty_of(&self) -> (r: u32)
        requires
            self.wf(),
        ensures
            r == self.penalty(),
            r <= RAMA_PENALTY,
    {
        match self {
            Card::Number(n) => *n,
            Card::Rama => RAMA_PENALTY,
        }
    }

    /// The card a one-character code names: a digit `1..=6`, or `l` / `r` in
    /// either case for `Rama`.
    pub fn from_code(code: &str) -> (r: Option<Card>)
        ensures
            r == code_card(code@),
    {
        if code.unicode_len() != 1 {
            return None;
        }
        let c = code.get_char(0);
        if c == 'l' || c == 'L' || c == 'r' || c == 'R' {
            Some(Card::Rama)
        } else if '1' <= c && c <= '6' {
            Some(Card::Number(c as u32 - '0' as u32))
        } else {
            None
        }
    }

    /// The code the card is written with: its digit, or `R` for `Rama`.
    pub fn label(&self) -> (r: String)
        requires
            self.wf(),
        ensures
            r@ == self.label_spec(),
            code_card(r@) == Some(*self),
    {
        match self {
            Card::Number(1) => {
                proof {
                    reveal_strlit("1");
                }
                "1".to_owned()
            },
            Card::Number(2) => {
                proof {
                    reveal_strlit("2");
                }
                "2".to_owned()
            },
            Card::Number(3) => {
                proof {
                    reveal_strlit("3");
                }
                "3".to_owned()
            },
            Card::Number(4) => {
                proof {
                    reveal_strlit("4");
                }
                "4".to_owned()
            },
            Card::Number(5) => {
                proof {
                    reveal_strlit("5");
                }
                "5".to_owned()
            },
            Card::Number(_) => {
                proof {
                    reveal_strlit("6");
                }
                "6".to_owned()
            },
            Card::Rama => {
                proof {
                    reveal_strlit("R");
                }
                "R".to_owned()
            },
        }
    }
}

/// The card a typed code stands for, if any.
pub open spec fn code_card(code: Seq<char>) -> Option<Card> {
    if code.len() != 1 {
        None
    } else if code[0] == 'l' || code[0] == 'L' || code[0] == 'r' || code[0] == 'R' {
        Some(Card::Rama)
    } else if '1' <= code[0] <= '6' {
        Some(Card::Number((code[0] as u32 - '0' as u32) as u32))
    } else {
        None
    }
}

/// The face reached from `c` after `k` steps up the cycle.
pub open spec fn next_iter(c: Card, k: nat) -> Card
    decreases k,
{
    if k == 0 {
        c
    } else {
        next_iter(c, (k - 1) as nat).next_spec()
    }
}

/// Stepping up the cycle is a bijection on faces: it keeps faces valid, two
/// faces never step to the same face, every face is stepped to from one, and
/// `MAX_NUMBER + 1` steps come back to the face started from.
pub proof fn lemma_next_bijective_with_period(a: Card, b: Card)
    requires
        a.wf(),
        b.wf(),
    ensures
        a.next_spec().wf(),
        a.next_spec() == b.next_spec() ==> a == b,
        exists|p: Card| p.wf() && p.next_spec() == a,
        next_iter(a, face_count()) == a,
{
    reveal_with_fuel(next_iter, 8);
    let p = match a {
        Card::Number(v) => if v == 1 {
            Card::Rama
        } else {
            Card::Number((v - 1) as u32)
        },
        Card::Rama => Card::Number(MAX_NUMBER),
    };
    assert(p.wf() && p.next_spec() == a);
    match a {
        Card::Number(v) => {
            assert(v == 1 || v == 2 || v == 3 || v == 4 || v == 5 || v == 6);
        },
        Card::Rama => {},
    }
}

} // verus!

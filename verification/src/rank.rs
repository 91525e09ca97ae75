//! Ranks: the rows of the board, numbered from 0.

use core::cmp::Ordering;
use vstd::prelude::*;
use vstd::std_specs::cmp::PartialOrdSpecImpl;
use vstd::std_specs::iter::IteratorSpec;

verus! {

/// Number of ranks on the board.
pub const MAX_NUMBER_OF_RANKS: u8 = 8;

/// A rank of the board. Every value that executable code holds lies in
/// `0..MAX_NUMBER_OF_RANKS`; the view is the rank's number.
#[derive(Debug, Clone, Copy, PartialEq, Eq, Structural, Ord)]
pub struct Rank {
    val: u8,
}

impl View for Rank {
    type V = int;

    closed spec fn view(&self) -> int {
        self.val as int
    }
}

/// The numbers of a list of ranks.
pub open spec fn rank_numbers(ranks: Seq<Rank>) -> Seq<int> {
    ranks.map_values(|r: Rank| r@)
}

/// The numbers in `values` that name a rank, in the order in which they come.
pub open spec fn numbers_of_ranks(values: Seq<u8>) -> Seq<int> {
    values.filter(|v: u8| v < MAX_NUMBER_OF_RANKS).map_values(|v: u8| v as int)
}

impl Rank {
    /// The invariant of the type: the rank lies on the board.
    #[verifier::type_invariant]
    pub open spec fn wf(self) -> bool {
        0 <= self@ < MAX_NUMBER_OF_RANKS
    }

    /// Two ranks with the same number are the same rank.
    pub proof fn lemma_number_determines_rank(a: Rank, b: Rank)
        requires
            a@ == b@,
        ensures
            a == b,
    {
    }

    /// The rank numbered `rank`, or an error when `rank` is off the board.
    pub fn build(rank: u8) -> (res: Result<Rank, &'static str>)
        ensures
            rank < MAX_NUMBER_OF_RANKS ==> res is Ok && res->Ok_0@ == rank,
            rank >= MAX_NUMBER_OF_RANKS ==> res is Err && res->Err_0@
                == "Rank outside allowable bounds"@,
    {
        if rank >= MAX_NUMBER_OF_RANKS {
            return Err("Rank outside allowable bounds");
        }
        Ok(Rank { val: rank })
    }

    /// The rank numbered `rank`, which the caller knows to be on the board.
    pub(crate) fn new(rank: u8) -> (res: Rank)
        requires
            rank < MAX_NUMBER_OF_RANKS,
        ensures
            res@ == rank,
    {
        Rank { val: rank }
    }

    /// The ranks named by the numbers that `range` yields, in that order.
    /// Numbers that name no rank are dropped silently, so a range whose lower
    /// end came from a subtraction that wrapped around yields nothing: take
    /// that end with a saturating subtraction.
    pub fn iter_ranks<I: Iterator<Item = u8>>(range: I) -> (res: Vec<Rank>)
        requires
            range.obeys_prophetic_iter_laws(),
            range.decrease() is Some,
        ensures
            rank_numbers(res@) == numbers_of_ranks(range.remaining()),
    {
        let ghost all = range.remaining();
        let ghost mut seen: Seq<u8> = Seq::empty();
        let mut rest = range;
        let mut ranks: Vec<Rank> = Vec::new();
        loop
            invariant
                rest.obeys_prophetic_iter_laws(),
                rest.decrease() is Some,
                all == seen + rest.remaining(),
                rank_numbers(ranks@) == numbers_of_ranks(seen),
            ensures
                rank_numbers(ranks@) == numbers_of_ranks(all),
            decreases rest.decrease()->0,
        {
            let ghost before = seen;
            let ghost held = ranks@;
            match rest.next() {
                Some(value) => {
                    proof {
                        seen = before.push(value);
                        assert(all == seen + rest.remaining());
                    }
                    if value < MAX_NUMBER_OF_RANKS {
                        ranks.push(Rank::new(value));
                    }
                    proof {
                        before.lemma_filter_push(value, |v: u8| v < MAX_NUMBER_OF_RANKS);
                        if value < MAX_NUMBER_OF_RANKS {
                            assert(rank_numbers(ranks@) == rank_numbers(held).push(value as int));
                            assert(numbers_of_ranks(seen) == numbers_of_ranks(before).push(
                                value as int,
                            ));
                        }
                    }
                },
                None => {
                    assert(all == seen);
                    break ;
                },
            }
        }
        ranks
    }

    /// The number of the rank.
    pub fn value(&self) -> (res: u8)
        ensures
            res == self@,
            res < MAX_NUMBER_OF_RANKS,
    {
        proof {
            use_type_invariant(self);
        }
        self.val
    }

    /// The rank above, if there is one.
    pub fn next(&self) -> (res: Option<Rank>)
        ensures
            self@ + 1 < MAX_NUMBER_OF_RANKS ==> res is Some && res->Some_0@ == self@ + 1,
            self@ + 1 >= MAX_NUMBER_OF_RANKS ==> res is None,
    {
        proof {
            use_type_invariant(self);
        }
        if self.val + 1 >= MAX_NUMBER_OF_RANKS {
            None
        } else {
            Some(Rank { val: self.val + 1 })
        }
    }

    /// The rank below, if there is one.
    pub fn previous(&self) -> (res: Option<Rank>)
        ensures
            self@ >= 1 ==> res is Some && res->Some_0@ == self@ - 1,
            self@ < 1 ==> res is None,
    {
        proof {
            use_type_invariant(self);
        }
        if self.val == 0 {
            None
        } else {
            Some(Rank { val: self.val - 1 })
        }
    }

    /// The rank `jump` steps up, or an error when that leaves the board.
    pub fn next_by(&self, jump: u8) -> (res: Result<Rank, &'static str>)
        ensures
            self@ + jump < MAX_NUMBER_OF_RANKS ==> res is Ok && res->Ok_0@ == self@ + jump,
            self@ + jump >= MAX_NUMBER_OF_RANKS ==> res is Err && res->Err_0@
                == "Rank outside allowable bounds"@,
    {
        proof {
            use_type_invariant(self);
        }
        if jump >= MAX_NUMBER_OF_RANKS - self.val {
            return Err("Rank outside allowable bounds");
        }
        Rank::build(self.val + jump)
    }

    /// The rank `jump` steps down, or an error when that leaves the board.
    pub fn previous_by(&self, jump: u8) -> (res: Result<Rank, &'static str>)
        ensures
            jump <= self@ ==> res is Ok && res->Ok_0@ == self@ - jump,
            jump > self@ ==> res is Err && res->Err_0@ == "Rank outside allowable bounds"@,
    {
        proof {
            use_type_invariant(self);
        }
        if jump > self.val {
            return Err("Rank outside allowable bounds");
        }
        Rank::build(self.val - jump)
    }
}

impl PartialOrd for Rank {
    /// Ranks are ordered by their numbers.
    fn partial_cmp(&self, other: &Rank) -> (res: Option<Ordering>) {
        if self.val < other.val {
            Some(Ordering::Less)
        } else if self.val > other.val {
            Some(Ordering::Greater)
        } else {
            Some(Ordering::Equal)
        }
    }
}

impl PartialOrdSpecImpl for Rank {
    open spec fn obeys_partial_cmp_spec() -> bool {
        true
    }

    open spec fn partial_cmp_spec(&self, other: &Rank) -> Option<Ordering> {
        if self@ < other@ {
            Some(Ordering::Less)
        } else if self@ > other@ {
            Some(Ordering::Greater)
        } else {
            Some(Ordering::Equal)
        }
    }
}

} // verus!

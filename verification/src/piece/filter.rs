//! What the pieces share: the squares of the board among the places that a
//! piece reaches for, and the filter that takes from them the piece's own
//! square and those that its own side holds.

use crate::board::friendly;
use crate::board::Board;
use crate::board::Occupancy;
use crate::file::File;
use crate::geometry::on_board;
use crate::geometry::Coordinate;
use crate::piece::Color;
use crate::rank::Rank;
use crate::square::coordinates_of;
use crate::square::squares_of;
use crate::square::Square;
use vstd::prelude::*;

verus! {

/// The places of the board among `places`.
pub open spec fn those_on_board(places: Seq<Coordinate>) -> Seq<Coordinate> {
    places.filter(|c: Coordinate| on_board(c))
}

/// A piece of side `color` that stands at `from` may go to `c`: `c` is
/// another place, and no piece of its own side stands there.
pub open spec fn may_go(occupancy: Occupancy, from: Coordinate, color: Color) -> spec_fn(
    Coordinate,
) -> bool {
    |c: Coordinate| c != from && !friendly(occupancy, c, color)
}

/// The candidates that a piece of side `color` at `from` may go to, in the
/// order of the candidates.
pub open spec fn open_to(
    occupancy: Occupancy,
    candidates: Seq<Coordinate>,
    from: Coordinate,
    color: Color,
) -> Seq<Coordinate> {
    candidates.filter(may_go(occupancy, from, color))
}

/// Filtering one item more of a list either adds that item at the end or
/// changes nothing.
pub(crate) proof fn lemma_filter_one_more<A>(items: Seq<A>, keep: spec_fn(A) -> bool, k: int)
    requires
        0 <= k < items.len(),
    ensures
        items.take(k + 1).filter(keep) == if keep(items[k]) {
            items.take(k).filter(keep).push(items[k])
        } else {
            items.take(k).filter(keep)
        },
        items.take(0).filter(keep) == Seq::<A>::empty(),
        items.take(items.len() as int) == items,
{
    assert(items.take(k + 1) =~= items.take(k).push(items[k]));
    items.take(k).lemma_filter_push(items[k], keep);
    assert(items.take(0).filter(keep) =~= Seq::<A>::empty()) by {
        reveal(Seq::filter);
    }
    assert(items.take(items.len() as int) =~= items);
}

/// No piece of the mover's side stands where the mover may go, and the mover
/// never stays where it is.
pub proof fn lemma_open_to(
    occupancy: Occupancy,
    candidates: Seq<Coordinate>,
    from: Coordinate,
    color: Color,
)
    ensures
        forall|i: int|
            0 <= i < open_to(occupancy, candidates, from, color).len() ==> {
                let c = #[trigger] open_to(occupancy, candidates, from, color)[i];
                c != from && !friendly(occupancy, c, color) && candidates.contains(c)
            },
        forall|i: int|
            0 <= i < candidates.len() && candidates[i] != from && !friendly(
                occupancy,
                candidates[i],
                color,
            ) ==> open_to(occupancy, candidates, from, color).contains(#[trigger] candidates[i]),
{
    let keep = may_go(occupancy, from, color);
    let kept = candidates.filter(keep);
    assert forall|i: int| 0 <= i < kept.len() implies {
        let c = #[trigger] kept[i];
        c != from && !friendly(occupancy, c, color) && candidates.contains(c)
    } by {
        candidates.lemma_filter_pred(keep, i);
        candidates.lemma_filter_contains_rev(keep, kept[i]);
    }
    assert forall|i: int|
        0 <= i < candidates.len() && candidates[i] != from && !friendly(
            occupancy,
            candidates[i],
            color,
        ) implies kept.contains(#[trigger] candidates[i]) by {
        assert(keep(candidates[i]));
        candidates.lemma_filter_contains(keep, i);
    }
}

/// What holds of the squares of a board that lie where the mover may go:
/// they are the board's squares at those places, none is the mover's own
/// place, and none holds a piece of the mover's side.
pub proof fn lemma_open_squares(
    board: &Board,
    refs: Seq<&Square>,
    candidates: Seq<Coordinate>,
    from: Coordinate,
    color: Color,
)
    requires
        board.holds(refs),
        coordinates_of(refs) == open_to(board@, candidates, from, color),
    ensures
        squares_of(refs) == board.squares_at(open_to(board@, candidates, from, color)),
        forall|i: int| 0 <= i < refs.len() ==> !(#[trigger] refs[i]).piece_matches_color(color),
        forall|i: int| 0 <= i < refs.len() ==> (#[trigger] refs[i]).coordinate() != from,
{
    board.lemma_held_squares(refs);
    lemma_open_to(board@, candidates, from, color);
    let open = open_to(board@, candidates, from, color);
    assert forall|i: int| 0 <= i < refs.len() implies !(#[trigger] refs[i]).piece_matches_color(
        color,
    ) && refs[i].coordinate() != from by {
        assert(coordinates_of(refs)[i] == open[i]);
        assert(refs[i].piece == board@[refs[i].coordinate()]);
    }
}

/// Adds to `found` the square of the board at (`file`, `rank`), where both
/// numbers are there and name a square.
pub(crate) fn consider<'a>(
    board: &'a Board,
    file: Option<u8>,
    rank: Option<u8>,
    found: &mut Vec<&'a Square>,
)
    requires
        board.holds(old(found)@),
    ensures
        board.holds(final(found)@),
        file is Some && rank is Some && on_board((file->0 as int, rank->0 as int))
            ==> coordinates_of(final(found)@) == coordinates_of(old(found)@).push(
            (file->0 as int, rank->0 as int),
        ),
        !(file is Some && rank is Some && on_board((file->0 as int, rank->0 as int)))
            ==> coordinates_of(final(found)@) == coordinates_of(old(found)@),
{
    if file.is_some() && rank.is_some() {
        let file = File::build(file.unwrap());
        let rank = Rank::build(rank.unwrap());
        if file.is_ok() && rank.is_ok() {
            let ghost before = found@;
            let sq = board.get_square(file.unwrap(), rank.unwrap());
            found.push(sq);
            proof {
                assert(coordinates_of(found@) =~= coordinates_of(before).push(sq.coordinate()));
            }
        }
    }
}

/// Keeps of `candidates` the squares that a piece of side `color` standing
/// on `source` may go to.
pub(crate) fn keep_open<'a>(
    board: &'a Board,
    candidates: &Vec<&'a Square>,
    source: &Square,
    color: Color,
) -> (res: Vec<&'a Square>)
    requires
        board.holds(candidates@),
    ensures
        coordinates_of(res@) == open_to(
            board@,
            coordinates_of(candidates@),
            source.coordinate(),
            color,
        ),
        board.holds(res@),
{
    let ghost all = coordinates_of(candidates@);
    let ghost keep = may_go(board@, source.coordinate(), color);
    let mut kept: Vec<&'a Square> = Vec::new();
    let mut i: usize = 0;
    assert(all.take(0) =~= Seq::<Coordinate>::empty());
    assert(all.take(0).filter(keep) =~= Seq::<Coordinate>::empty()) by {
        reveal(Seq::filter);
    }
    while i < candidates.len()
        invariant
            i <= candidates.len(),
            all == coordinates_of(candidates@),
            keep == may_go(board@, source.coordinate(), color),
            board.holds(candidates@),
            board.holds(kept@),
            coordinates_of(kept@) == all.take(i as int).filter(keep),
        decreases candidates.len() - i,
    {
        let sq = candidates[i];
        let ghost before = kept@;
        proof {
            assert(all.take(i + 1) =~= all.take(i as int).push(all[i as int]));
            all.take(i as int).lemma_filter_push(all[i as int], keep);
            assert(all[i as int] == sq.coordinate());
            assert(sq.piece == board@[sq.coordinate()]);
        }
        if (sq.rank.value() != source.rank.value() || sq.file.value() != source.file.value())
            && !sq.piece_matches_color(color) {
            kept.push(sq);
            proof {
                assert(keep(sq.coordinate()));
                assert(coordinates_of(kept@) =~= coordinates_of(before).push(sq.coordinate()));
            }
        } else {
            proof {
                assert(!keep(sq.coordinate()));
            }
        }
        i += 1;
    }
    proof {
        assert(all.take(candidates.len() as int) =~= all);
    }
    kept
}

} // verus!

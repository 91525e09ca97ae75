//! No square is listed twice among the squares a piece may go to.

use crate::board::Occupancy;
use crate::geometry::diagonals;
use crate::geometry::falling_diagonal;
use crate::geometry::file_line;
use crate::geometry::lemma_falling_diagonal;
use crate::geometry::lemma_rising_diagonal;
use crate::geometry::on_board;
use crate::geometry::rank_line;
use crate::geometry::rising_diagonal;
use crate::geometry::Coordinate;
use crate::piece::filter::may_go;
use crate::piece::filter::open_to;
use crate::piece::filter::those_on_board;
use crate::piece::king::king_block;
use crate::piece::king::king_targets;
use crate::piece::king::lemma_king_block;
use crate::piece::knight::knight_jumps;
use crate::piece::knight::knight_targets;
use crate::piece::knight::lemma_knight_jumps;
use crate::piece::pawn::ahead_left;
use crate::piece::pawn::ahead_right;
use crate::piece::pawn::capture_at;
use crate::piece::pawn::pawn_advances;
use crate::piece::pawn::pawn_targets_toward;
use crate::piece::queen::queen_targets;
use crate::piece::rook::rook_targets;
use crate::piece::bishop::bishop_targets;
use crate::piece::Color;
use vstd::prelude::*;

verus! {

/// Only `place` may stand more than once in `places`.
pub open spec fn repeats_only(places: Seq<Coordinate>, place: Coordinate) -> bool {
    forall|i: int, j: int|
        0 <= i < j < places.len() && #[trigger] places[i] == #[trigger] places[j] ==> places[i]
            == place
}

/// Where no item that is kept stands twice in a list, no item stands twice
/// in what is kept of the list.
pub proof fn lemma_filter_distinct<A>(items: Seq<A>, keep: spec_fn(A) -> bool)
    requires
        forall|i: int, j: int|
            0 <= i < j < items.len() && #[trigger] items[i] == #[trigger] items[j] ==> !keep(
                items[i],
            ),
    ensures
        items.filter(keep).no_duplicates(),
    decreases items.len(),
{
    reveal(Seq::filter);
    if items.len() > 0 {
        let front = items.drop_last();
        let last = items.last();
        assert forall|i: int, j: int|
            0 <= i < j < front.len() && #[trigger] front[i] == #[trigger] front[j] implies !keep(
            front[i],
        ) by {
            assert(items[i] == items[j]);
        }
        lemma_filter_distinct(front, keep);
        let kept = front.filter(keep);
        if keep(last) {
            if kept.contains(last) {
                front.lemma_filter_contains_rev(keep, last);
                let i = choose|i: int| 0 <= i < front.len() && front[i] == last;
                assert(items[i] == items[items.len() - 1]);
            }
            assert forall|i: int, j: int|
                0 <= i < kept.push(last).len() && 0 <= j < kept.push(last).len() && i
                    != j implies kept.push(last)[i] != kept.push(last)[j] by {
                if i == kept.len() {
                    assert(kept[j] != last);
                } else if j == kept.len() {
                    assert(kept[i] != last);
                }
            }
        }
    }
}

/// Two lists in which only `place` repeats, and which share no other place,
/// make a list in which only `place` repeats.
proof fn lemma_join(a: Seq<Coordinate>, b: Seq<Coordinate>, place: Coordinate)
    requires
        repeats_only(a, place),
        repeats_only(b, place),
        forall|i: int, j: int|
            0 <= i < a.len() && 0 <= j < b.len() && #[trigger] a[i] == #[trigger] b[j] ==> a[i]
                == place,
    ensures
        repeats_only(a + b, place),
{
    let all = a + b;
    assert forall|i: int, j: int|
        0 <= i < j < all.len() && #[trigger] all[i] == #[trigger] all[j] implies all[i]
        == place by {
        if j < a.len() {
            assert(a[i] == a[j]);
        } else if i >= a.len() {
            assert(b[i - a.len()] == b[j - a.len()]);
        } else {
            assert(a[i] == b[j - a.len()]);
        }
    }
}

/// Among the places on the file, the rank and the diagonals through a
/// square of the board, listed line by line, only that square repeats.
pub proof fn lemma_lines_repeat_source_only(from: Coordinate)
    requires
        on_board(from),
    ensures
        repeats_only(diagonals(from), from),
        repeats_only(file_line(from.0) + rank_line(from.1), from),
        repeats_only(diagonals(from) + file_line(from.0) + rank_line(from.1), from),
{
    let rising = rising_diagonal(from);
    let falling = falling_diagonal(from);
    let along_file = file_line(from.0);
    let along_rank = rank_line(from.1);
    lemma_rising_diagonal(from);
    lemma_falling_diagonal(from);
    assert(repeats_only(rising, from));
    assert(repeats_only(falling, from));
    assert(repeats_only(along_file, from));
    assert(repeats_only(along_rank, from));
    lemma_join(rising, falling, from);
    lemma_join(along_file, along_rank, from);
    assert forall|i: int| 0 <= i < diagonals(from).len() implies {
        let d = #[trigger] diagonals(from)[i];
        d.0 - d.1 == from.0 - from.1 || d.0 + d.1 == from.0 + from.1
    } by {
        if i < rising.len() {
            assert(diagonals(from)[i] == rising[i]);
        } else {
            assert(diagonals(from)[i] == falling[i - rising.len()]);
        }
    }
    lemma_join(diagonals(from), along_file, from);
    assert forall|i: int| 0 <= i < (diagonals(from) + along_file).len() implies {
        let d = #[trigger] (diagonals(from) + along_file)[i];
        d.0 == from.0 || d.0 - d.1 == from.0 - from.1 || d.0 + d.1 == from.0 + from.1
    } by {
        if i < diagonals(from).len() {
            assert((diagonals(from) + along_file)[i] == diagonals(from)[i]);
        } else {
            assert((diagonals(from) + along_file)[i] == along_file[i - diagonals(from).len()]);
        }
    }
    lemma_join(diagonals(from) + along_file, along_rank, from);
}

/// Where only the mover's own place repeats among the candidates, no place
/// stands twice among those the mover may go to.
pub proof fn lemma_open_to_distinct(
    occupancy: Occupancy,
    candidates: Seq<Coordinate>,
    from: Coordinate,
    color: Color,
)
    requires
        repeats_only(candidates, from),
    ensures
        open_to(occupancy, candidates, from, color).no_duplicates(),
{
    let keep = may_go(occupancy, from, color);
    assert forall|i: int, j: int|
        0 <= i < j < candidates.len() && #[trigger] candidates[i]
            == #[trigger] candidates[j] implies !keep(candidates[i]) by {}
    lemma_filter_distinct(candidates, keep);
}

/// What is kept of a list without repetitions has none.
proof fn lemma_on_board_distinct(places: Seq<Coordinate>, place: Coordinate)
    requires
        places.no_duplicates(),
    ensures
        those_on_board(places).no_duplicates(),
        repeats_only(those_on_board(places), place),
{
    lemma_filter_distinct(places, |c: Coordinate| on_board(c));
}

/// The bishop, the rook and the queen go to no square twice.
pub proof fn lemma_sliding_targets_distinct(occupancy: Occupancy, from: Coordinate, color: Color)
    requires
        on_board(from),
    ensures
        bishop_targets(occupancy, from, color).no_duplicates(),
        rook_targets(occupancy, from, color).no_duplicates(),
        queen_targets(occupancy, from, color).no_duplicates(),
{
    lemma_lines_repeat_source_only(from);
    lemma_open_to_distinct(occupancy, diagonals(from), from, color);
    lemma_open_to_distinct(occupancy, file_line(from.0) + rank_line(from.1), from, color);
    lemma_open_to_distinct(
        occupancy,
        diagonals(from) + file_line(from.0) + rank_line(from.1),
        from,
        color,
    );
}

/// The knight and the king go to no square twice.
pub proof fn lemma_leaping_targets_distinct(occupancy: Occupancy, from: Coordinate, color: Color)
    ensures
        knight_targets(occupancy, from, color).no_duplicates(),
        king_targets(occupancy, from, color).no_duplicates(),
{
    lemma_knight_jumps(from);
    lemma_on_board_distinct(knight_jumps(from), from);
    lemma_open_to_distinct(occupancy, those_on_board(knight_jumps(from)), from, color);
    lemma_king_block(from);
    lemma_on_board_distinct(king_block(from), from);
    lemma_open_to_distinct(occupancy, those_on_board(king_block(from)), from, color);
}

/// The pawn goes to no square twice.
pub proof fn lemma_pawn_targets_distinct(
    occupancy: Occupancy,
    from: Coordinate,
    color: Color,
    has_moved: bool,
    direction: int,
)
    requires
        direction != 0,
    ensures
        pawn_targets_toward(occupancy, from, color, has_moved, direction).no_duplicates(),
{
    let targets = pawn_targets_toward(occupancy, from, color, has_moved, direction);
    let advances = pawn_advances(occupancy, from, has_moved, direction);
    let left = capture_at(occupancy, ahead_left(from, direction), color);
    let right = capture_at(occupancy, ahead_right(from, direction), color);
    assert(targets =~= advances + left + right);
    assert forall|i: int, j: int|
        0 <= i < targets.len() && 0 <= j < targets.len() && i != j implies targets[i]
        != targets[j] by {
        let a = advances.len();
        let l = left.len();
        if i < a {
            assert(targets[i] == advances[i]);
        } else if i < a + l {
            assert(targets[i] == left[i - a]);
        } else {
            assert(targets[i] == right[i - a - l]);
        }
        if j < a {
            assert(targets[j] == advances[j]);
        } else if j < a + l {
            assert(targets[j] == left[j - a]);
        } else {
            assert(targets[j] == right[j - a - l]);
        }
    }
}

} // verus!

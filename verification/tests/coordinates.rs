use chessboard::file::File;
use chessboard::file::MAX_NUMBER_OF_FILES;
use chessboard::rank::Rank;
use chessboard::rank::MAX_NUMBER_OF_RANKS;
use chessboard::square::Square;

fn file_values(files: &[File]) -> Vec<u8> {
    files.iter().map(|f| f.value()).collect()
}

fn rank_values(ranks: &[Rank]) -> Vec<u8> {
    ranks.iter().map(|r| r.value()).collect()
}

#[test]
fn the_board_has_eight_files_and_eight_ranks() {
    assert_eq!(MAX_NUMBER_OF_FILES, 8);
    assert_eq!(MAX_NUMBER_OF_RANKS, 8);
}

#[test]
fn file_build_accepts_the_eight_files() {
    for v in 0..8u8 {
        assert_eq!(File::build(v).unwrap().value(), v);
    }
}

#[test]
fn file_build_rejects_numbers_off_the_board() {
    assert_eq!(File::build(8).unwrap_err(), "File outside allowable bounds");
    assert_eq!(File::build(255).unwrap_err(), "File outside allowable bounds");
}

#[test]
fn rank_build_accepts_the_eight_ranks() {
    for v in 0..8u8 {
        assert_eq!(Rank::build(v).unwrap().value(), v);
    }
}

#[test]
fn rank_build_rejects_numbers_off_the_board() {
    assert_eq!(Rank::build(8).unwrap_err(), "Rank outside allowable bounds");
    assert_eq!(Rank::build(200).unwrap_err(), "Rank outside allowable bounds");
}

#[test]
fn file_next_and_previous_stop_at_the_edges() {
    let first = File::build(0).unwrap();
    let last = File::build(7).unwrap();
    let middle = File::build(3).unwrap();
    assert!(first.previous().is_none());
    assert!(last.next().is_none());
    assert_eq!(first.next().unwrap().value(), 1);
    assert_eq!(last.previous().unwrap().value(), 6);
    assert_eq!(middle.next().unwrap().value(), 4);
    assert_eq!(middle.previous().unwrap().value(), 2);
}

#[test]
fn rank_next_and_previous_stop_at_the_edges() {
    let first = Rank::build(0).unwrap();
    let last = Rank::build(7).unwrap();
    assert!(first.previous().is_none());
    assert!(last.next().is_none());
    assert_eq!(first.next().unwrap().value(), 1);
    assert_eq!(last.previous().unwrap().value(), 6);
}

#[test]
fn rank_jumps_fail_where_they_leave_the_board() {
    let rank = Rank::build(5).unwrap();
    assert_eq!(rank.next_by(0).unwrap().value(), 5);
    assert_eq!(rank.next_by(2).unwrap().value(), 7);
    assert_eq!(rank.next_by(3).unwrap_err(), "Rank outside allowable bounds");
    assert_eq!(rank.next_by(255).unwrap_err(), "Rank outside allowable bounds");
    assert_eq!(rank.previous_by(5).unwrap().value(), 0);
    assert_eq!(rank.previous_by(6).unwrap_err(), "Rank outside allowable bounds");
    assert_eq!(rank.previous_by(255).unwrap_err(), "Rank outside allowable bounds");
}

#[test]
fn file_jumps_fail_where_they_leave_the_board() {
    let file = File::build(2).unwrap();
    assert_eq!(file.next_by(5).unwrap().value(), 7);
    assert_eq!(file.next_by(6).unwrap_err(), "File outside allowable bounds");
    assert_eq!(file.next_by(254).unwrap_err(), "File outside allowable bounds");
    assert_eq!(file.previous_by(2).unwrap().value(), 0);
    assert_eq!(file.previous_by(3).unwrap_err(), "File outside allowable bounds");
}

#[test]
fn iter_files_drops_numbers_off_the_board() {
    assert_eq!(file_values(&File::iter_files(5..12u8)), vec![5, 6, 7]);
    assert_eq!(file_values(&File::iter_files(0..MAX_NUMBER_OF_FILES)), vec![0, 1, 2, 3, 4, 5, 6, 7]);
    assert_eq!(file_values(&File::iter_files((0..=9u8).rev())), vec![7, 6, 5, 4, 3, 2, 1, 0]);
    assert_eq!(file_values(&File::iter_files(8..200u8)), Vec::<u8>::new());
    assert_eq!(file_values(&File::iter_files(vec![3u8, 9, 3, 0, 255].into_iter())), vec![3, 3, 0]);
}

#[test]
fn iter_ranks_drops_numbers_off_the_board() {
    assert_eq!(rank_values(&Rank::iter_ranks(6..=8u8)), vec![6, 7]);
    assert_eq!(rank_values(&Rank::iter_ranks((2..=4u8).rev())), vec![4, 3, 2]);
    assert_eq!(rank_values(&Rank::iter_ranks(3..3u8)), Vec::<u8>::new());
}

#[test]
fn a_range_from_a_wrapped_subtraction_yields_nothing() {
    // 0 - 1 wraps to 255, and 255..=1 is empty; with a saturating
    // subtraction the range starts at 0.
    let wrapped = 0u8.wrapping_sub(1);
    assert_eq!(file_values(&File::iter_files(wrapped..=1)), Vec::<u8>::new());
    assert_eq!(file_values(&File::iter_files(0u8.saturating_sub(1)..=1)), vec![0, 1]);
}

#[test]
fn files_and_ranks_are_ordered_by_number() {
    let a = File::build(2).unwrap();
    let b = File::build(5).unwrap();
    assert!(a < b);
    assert!(b > a);
    assert!(a <= a);
    assert!(a == File::build(2).unwrap());
    assert!(a != b);
    assert_eq!(a.partial_cmp(&b), Some(std::cmp::Ordering::Less));
    assert_eq!(b.partial_cmp(&a), Some(std::cmp::Ordering::Greater));
    assert_eq!(a.partial_cmp(&a), Some(std::cmp::Ordering::Equal));
    assert_eq!(a.cmp(&b), std::cmp::Ordering::Less);
    assert_eq!(a.max(b).value(), 5);
    let r = Rank::build(7).unwrap();
    let s = Rank::build(0).unwrap();
    assert!(s < r);
    assert_eq!(r.partial_cmp(&s), Some(std::cmp::Ordering::Greater));
    assert_eq!(s.cmp(&s), std::cmp::Ordering::Equal);
    assert_eq!(r.min(s).value(), 0);
}

#[test]
fn square_build_gives_an_empty_square_at_the_coordinate() {
    let sq = Square::build(2, 6).unwrap();
    assert_eq!(sq.file().value(), 2);
    assert_eq!(sq.rank().value(), 6);
    assert_eq!(sq.file.value(), 2);
    assert_eq!(sq.rank.value(), 6);
    assert!(sq.is_empty());
    assert!(sq.piece.is_none());
}

#[test]
fn square_build_names_the_rank_first() {
    assert_eq!(Square::build(8, 0).unwrap_err(), "File outside allowable bounds");
    assert_eq!(Square::build(0, 8).unwrap_err(), "Rank outside allowable bounds");
    assert_eq!(Square::build(9, 9).unwrap_err(), "Rank outside allowable bounds");
}

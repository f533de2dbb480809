use guddalm_vsa::board::{file_from_index, make_square, rank_from_index, File, Rank, Square};

#[test]
fn make_square_indexes_rank_major() {
    assert_eq!(make_square(File::A, Rank::R1), Square(0));
    assert_eq!(make_square(File::H, Rank::R1), Square(7));
    assert_eq!(make_square(File::A, Rank::R2), Square(8));
    assert_eq!(make_square(File::E, Rank::R4), Square(28));
    assert_eq!(make_square(File::H, Rank::R8), Square(63));
}

#[test]
fn square_round_trips_through_indices() {
    let files = [File::A, File::B, File::C, File::D, File::E, File::F, File::G, File::H];
    let ranks = [Rank::R1, Rank::R2, Rank::R3, Rank::R4, Rank::R5, Rank::R6, Rank::R7, Rank::R8];
    for &f in files.iter() {
        for &r in ranks.iter() {
            let sq = make_square(f, r);
            assert_eq!(file_from_index(sq.0), f);
            assert_eq!(rank_from_index(sq.0), r);
        }
    }
}

#[test]
fn indices_past_the_board() {
    assert_eq!(file_from_index(64), File::A);
    assert_eq!(file_from_index(255), File::H);
    assert_eq!(rank_from_index(64), Rank::R8);
    assert_eq!(rank_from_index(255), Rank::R8);
    assert_eq!(rank_from_index(55), Rank::R7);
}

use guddalm_vsa::bsc::BinaryHDVector;
use guddalm_vsa::search::{rank_by_distance, search_bsc_ranked, SuperSearch};

#[test]
fn bsc_search_scores_self_highest() {
    let b = BinaryHDVector::random(1024);
    let cands = [b.clone(), BinaryHDVector::random(1024)];
    let top = search_bsc_ranked(&b, &cands, 2);
    assert_eq!(top[0].0, 0);
    assert_eq!(top[0].1, 0);
}

#[test]
fn ranking_is_by_distance_then_position() {
    assert_eq!(rank_by_distance(&[5, 1, 3, 1, 0], 10), vec![4, 1, 3, 2, 0]);
    assert_eq!(rank_by_distance(&[5, 1, 3, 1, 0], 2), vec![4, 1]);
    assert_eq!(rank_by_distance(&[2, 2, 2], 3), vec![0, 1, 2]);
    assert_eq!(rank_by_distance(&[], 3), Vec::<usize>::new());
    assert_eq!(rank_by_distance(&[4, 3], 0), Vec::<usize>::new());
}

#[test]
fn search_reports_distances() {
    let q = BinaryHDVector::from_bits(&[1, 1, 1, 1]);
    let cands = [
        BinaryHDVector::from_bits(&[0, 0, 0, 0]),
        BinaryHDVector::from_bits(&[1, 1, 0, 1]),
        BinaryHDVector::from_bits(&[1, 0, 0, 1]),
        BinaryHDVector::from_bits(&[1, 1, 1, 0]),
    ];
    assert_eq!(search_bsc_ranked(&q, &cands, 3), vec![(1, 1), (3, 1), (2, 2)]);
    let _searcher = SuperSearch::default();
}

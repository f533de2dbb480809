use guddalm_vsa::dnvs::{tally_predictions, DnvsMode};

#[test]
fn mode_filters() {
    assert!(DnvsMode::Negative.includes(true));
    assert!(!DnvsMode::Negative.includes(false));
    assert!(DnvsMode::Positive.includes(false));
    assert!(!DnvsMode::Positive.includes(true));
    assert!(DnvsMode::All.includes(true));
    assert!(DnvsMode::All.includes(false));
}

#[test]
fn skipping_rules() {
    // Negative mode never skips: values above the threshold are still encoded.
    for &below in [true, false].iter() {
        for &skip in [true, false].iter() {
            assert!(!DnvsMode::Negative.skips(below, skip));
            assert!(!DnvsMode::All.skips(below, skip));
        }
    }
    assert!(DnvsMode::Positive.skips(true, true));
    assert!(!DnvsMode::Positive.skips(true, false));
    assert!(!DnvsMode::Positive.skips(false, true));
    assert_eq!(DnvsMode::Positive, DnvsMode::Positive);
    assert_ne!(DnvsMode::Positive, DnvsMode::All);
}

#[test]
fn tally_counts_correct_and_per_class() {
    let preds = [0usize, 1, 1, 2, 0];
    let labels = [0usize, 1, 2, 2, 1];
    let (correct, hits, totals) = tally_predictions(&preds, &labels, 3);
    assert_eq!(correct, 3);
    assert_eq!(hits, vec![1, 1, 1]);
    assert_eq!(totals, vec![1, 2, 2]);
}

#[test]
fn tally_pairs_over_the_shorter_slice() {
    let (correct, hits, totals) = tally_predictions(&[4, 4], &[4, 4, 9], 5);
    assert_eq!(correct, 2);
    assert_eq!(hits, vec![0, 0, 0, 0, 2]);
    assert_eq!(totals, vec![0, 0, 0, 0, 2]);
    let (c0, h0, t0) = tally_predictions(&[], &[], 2);
    assert_eq!((c0, h0, t0), (0, vec![0, 0], vec![0, 0]));
}

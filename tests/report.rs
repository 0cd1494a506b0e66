use json_vs_bin::report::most_compact;

#[test]
fn most_compact_picks_first_smallest() {
    assert_eq!(most_compact(&[]), None);
    assert_eq!(most_compact(&[5]), Some(0));
    assert_eq!(most_compact(&[9, 3, 7, 3, 4]), Some(1));
    assert_eq!(most_compact(&[2, 2, 2]), Some(0));
    assert_eq!(most_compact(&[8, 6, 4, 2]), Some(3));
}

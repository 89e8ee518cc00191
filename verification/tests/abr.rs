use vivotk::abr::{combined_bitrates, total_bitrate};

fn offered() -> Vec<Vec<u64>> {
    vec![
        vec![133, 182, 323, 607, 990],
        vec![45, 45, 65, 96, 89],
        vec![122, 179, 317, 582, 896],
    ]
}

#[test]
fn total_of_a_choice_per_view() {
    assert_eq!(total_bitrate(&offered(), &vec![0, 2, 4]), Some(133 + 65 + 896));
    assert_eq!(total_bitrate(&offered(), &vec![1]), Some(182));
    assert_eq!(total_bitrate(&offered(), &vec![]), Some(0));
    // view 1 has no representation 5
    assert_eq!(total_bitrate(&offered(), &vec![0, 5]), None);
    // there is no fourth view
    assert_eq!(total_bitrate(&offered(), &vec![0, 0, 0, 0]), None);
    // the total does not fit in a u64
    let big = vec![vec![u64::MAX], vec![1]];
    assert_eq!(total_bitrate(&big, &vec![0, 0]), None);
    assert_eq!(total_bitrate(&big, &vec![0]), Some(u64::MAX));
}

#[test]
fn bitrates_combined_over_views() {
    assert_eq!(
        combined_bitrates(&offered(), 2),
        Some(vec![133 + 45, 182 + 45, 323 + 65, 607 + 96, 990 + 89])
    );
    assert_eq!(combined_bitrates(&offered(), 3).unwrap()[0], 133 + 45 + 122);
    // no views counts as the first view alone
    assert_eq!(combined_bitrates(&offered(), 0), Some(offered()[0].clone()));
    assert_eq!(combined_bitrates(&offered(), 1), Some(offered()[0].clone()));
    // more views than offered
    assert_eq!(combined_bitrates(&offered(), 4), None);
    assert_eq!(combined_bitrates(&vec![], 1), None);
    // a view with fewer representations than the first
    let short = vec![vec![1, 2, 3], vec![1, 2]];
    assert_eq!(combined_bitrates(&short, 2), None);
    // a sum that does not fit in a u64
    let big = vec![vec![u64::MAX, 1], vec![1, 1]];
    assert_eq!(combined_bitrates(&big, 2), None);
}

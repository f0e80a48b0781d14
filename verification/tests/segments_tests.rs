use server::segments::{order_segments, segment_order, SegmentEntry};

fn entry(path: &str, is_file: bool, modified: i128) -> SegmentEntry {
    SegmentEntry { path: path.to_string(), is_file, modified }
}

#[test]
fn files_sorted_by_time_directories_dropped() {
    let entries = vec![
        entry("d/output_2.mp4", true, 30),
        entry("d/sub", false, 5),
        entry("d/output_0.mp4", true, 10),
        entry("d/output_1.mp4", true, 20),
    ];
    assert_eq!(segment_order(&entries), vec![2, 3, 0]);
    assert_eq!(
        order_segments(&entries),
        vec!["d/output_0.mp4", "d/output_1.mp4", "d/output_2.mp4"]
    );
}

#[test]
fn equal_times_keep_listing_order() {
    let entries = vec![
        entry("b", true, 7),
        entry("a", true, 7),
        entry("c", true, -3),
        entry("d", true, 7),
    ];
    assert_eq!(segment_order(&entries), vec![2, 0, 1, 3]);
    assert_eq!(order_segments(&entries), vec!["c", "b", "a", "d"]);
}

#[test]
fn empty_and_file_free_listings() {
    assert!(segment_order(&Vec::new()).is_empty());
    assert!(order_segments(&vec![entry("x", false, 1)]).is_empty());
}

#[test]
fn agrees_with_stable_sort() {
    let mut entries = Vec::new();
    for i in 0..40i128 {
        entries.push(entry(&format!("f{}", i), i % 7 != 3, (i * 37) % 11 - 5));
    }
    let mut expected: Vec<(String, i128)> =
        entries.iter().filter(|e| e.is_file).map(|e| (e.path.clone(), e.modified)).collect();
    expected.sort_by_key(|&(_, t)| t);
    let expected: Vec<String> = expected.into_iter().map(|e| e.0).collect();
    assert_eq!(order_segments(&entries), expected);
}

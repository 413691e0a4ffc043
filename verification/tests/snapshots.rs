use fractal_explorer::snapshots::{
    has_json_extension, latest_snapshot, snapshot_file_name, snapshot_list_order,
    snapshot_timestamp,
};

#[test]
fn timestamps_are_parsed_from_names() {
    assert_eq!(snapshot_timestamp(b"fractal_1712345678.json"), Some(1712345678));
    assert_eq!(snapshot_timestamp(b"fractal_0.json"), Some(0));
    assert_eq!(snapshot_timestamp(b"fractal_+42.json"), Some(42));
    assert_eq!(snapshot_timestamp(b"fractal_18446744073709551615.json"), Some(u64::MAX));
}

#[test]
fn other_names_have_no_timestamp() {
    for name in [
        &b"fractal_.json"[..],
        b"fractal_+.json",
        b"fractal_-1.json",
        b"fractal_12a.json",
        b"fractal_18446744073709551616.json",
        b"fractal_12.jpg",
        b"snapshot_12.json",
        b"fractal12.json",
        b"",
    ] {
        assert_eq!(snapshot_timestamp(name), None, "{:?}", String::from_utf8_lossy(name));
    }
}

#[test]
fn json_extension_as_paths_see_it() {
    assert!(has_json_extension(b"fractal_1.json"));
    assert!(has_json_extension(b"a.json"));
    assert!(!has_json_extension(b".json"));
    assert!(!has_json_extension(b"json"));
    assert!(!has_json_extension(b"a.json.bak"));
    assert!(!has_json_extension(b"a.JSON"));
}

#[test]
fn names_round_trip() {
    let name = snapshot_file_name(1712345678, b"json");
    assert_eq!(name, b"fractal_1712345678.json".to_vec());
    assert_eq!(snapshot_timestamp(&name), Some(1712345678));
    assert_eq!(snapshot_file_name(0, b"jpg"), b"fractal_0.jpg".to_vec());
    let max = snapshot_file_name(u64::MAX, b"json");
    assert_eq!(snapshot_timestamp(&max), Some(u64::MAX));
    assert!(has_json_extension(&max));
}

#[test]
fn listing_is_newest_first_and_stable() {
    let order = snapshot_list_order(&vec![5, 9, 0, 9, 1]);
    assert_eq!(order, vec![1, 3, 0, 4, 2]);
    assert_eq!(snapshot_list_order(&vec![]), Vec::<usize>::new());
}

#[test]
fn latest_is_first_largest() {
    assert_eq!(latest_snapshot(&vec![Some(3), None, Some(7), Some(7), Some(1)]), Some(2));
    assert_eq!(latest_snapshot(&vec![None, None]), None);
    assert_eq!(latest_snapshot(&vec![]), None);
    assert_eq!(latest_snapshot(&vec![None, Some(0)]), Some(1));
}

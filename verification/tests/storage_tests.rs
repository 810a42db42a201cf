use pcplayerpicker::storage::{
    add_to_session_index, choose_fresher_session, dark_mode_from_preference,
    dark_mode_preference_value, events_filename, ids_needing_metadata, latest_session_version,
    new_device_id, remove_from_session_index, status_bar_style, summary_key, theme_color,
    usable_device_id, StoredCopy,
};

fn ids(list: &[&str]) -> Vec<String> {
    list.iter().map(|s| s.to_string()).collect()
}

#[test]
fn storage_keys_and_files_name_the_session() {
    assert_eq!(summary_key("abc"), "pcpp_summary_abc");
    assert_eq!(events_filename("abc"), "pcpp_events_abc.json");
}

#[test]
fn the_index_lists_each_session_once() {
    let mut index = ids(&["a", "b"]);
    assert!(add_to_session_index(&mut index, "c"));
    assert_eq!(index, ids(&["a", "b", "c"]));
    assert!(!add_to_session_index(&mut index, "a"));
    assert_eq!(index, ids(&["a", "b", "c"]));
    remove_from_session_index(&mut index, "b");
    assert_eq!(index, ids(&["a", "c"]));
    remove_from_session_index(&mut index, "zzz");
    assert_eq!(index, ids(&["a", "c"]));
}

#[test]
fn adding_then_removing_a_new_session_restores_the_index() {
    let original = ids(&["a", "b"]);
    let mut index = original.clone();
    add_to_session_index(&mut index, "n");
    remove_from_session_index(&mut index, "n");
    assert_eq!(index, original);
}

#[test]
fn metadata_is_rebuilt_for_unknown_or_unsummarised_sessions() {
    let stored = ids(&["a", "b", "c"]);
    let local = ids(&["a", "b"]);
    assert_eq!(ids_needing_metadata(&stored, &local, &[true, false, true]), ids(&["b", "c"]));
    assert!(ids_needing_metadata(&stored, &stored, &[true, true, true]).is_empty());
}

#[test]
fn the_fresher_copy_is_loaded() {
    assert_eq!(latest_session_version(&[1, 5, 7]), 7);
    assert_eq!(latest_session_version(&[]), 0);
    assert_eq!(choose_fresher_session(Some(7), Some(7)), Some(StoredCopy::IndexedDb));
    assert_eq!(choose_fresher_session(Some(6), Some(7)), Some(StoredCopy::Opfs));
    assert_eq!(choose_fresher_session(None, Some(1)), Some(StoredCopy::Opfs));
    assert_eq!(choose_fresher_session(Some(1), None), Some(StoredCopy::IndexedDb));
    assert_eq!(choose_fresher_session(None, None), None);
}

#[test]
fn dark_mode_preference_reads_back() {
    for dark in [true, false] {
        assert_eq!(dark_mode_from_preference(Some(dark_mode_preference_value(dark))), Some(dark));
    }
    assert_eq!(dark_mode_from_preference(Some("anything")), Some(true));
    assert_eq!(dark_mode_from_preference(None), None);
    assert_eq!(theme_color(true), "#000000");
    assert_eq!(theme_color(false), "#f8fafc");
    assert_eq!(status_bar_style(true), "black-translucent");
    assert_eq!(status_bar_style(false), "default");
}

#[test]
fn device_ids_are_reused_or_built_from_time_and_chance() {
    assert_eq!(usable_device_id(Some("abc")).as_deref(), Some("abc"));
    assert_eq!(usable_device_id(Some("")), None);
    assert_eq!(usable_device_id(None), None);
    assert_eq!(new_device_id(0x18c, 0xbeef), "000000000000018c0000beef");
    assert_eq!(new_device_id(1, 1).len(), 24);
}

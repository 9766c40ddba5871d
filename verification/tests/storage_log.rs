use cadmus_sync::registry::ContentRegistry;
use cadmus_sync::storage::ContentStorage;

#[test]
fn updates_come_back_in_insertion_order_per_document() {
    let mut store = ContentStorage::new();
    store.save_update("a", vec![1]);
    store.save_update("b", vec![9]);
    store.save_update("a", vec![2]);
    store.save_update("a", vec![3]);

    assert_eq!(store.load_updates("a"), vec![vec![1], vec![2], vec![3]]);
    assert_eq!(store.load_updates("b"), vec![vec![9]]);
    assert_eq!(store.load_updates("c"), Vec::<Vec<u8>>::new());
}

#[test]
fn latest_update_is_the_most_recent_row() {
    let mut store = ContentStorage::new();
    assert_eq!(store.load_latest_update("a"), None);
    store.save_update("a", vec![1]);
    store.save_update("b", vec![9]);
    store.save_update("a", vec![2]);
    assert_eq!(store.load_latest_update("a"), Some(vec![2]));
    assert_eq!(store.load_latest_update("b"), Some(vec![9]));
}

#[test]
fn latest_snapshot_skips_plain_updates() {
    let mut store = ContentStorage::new();
    store.save_update("doc", b"CADMUS_SHEET_V1:abc".to_vec());
    store.save_update("doc", b"plainbytes".to_vec());
    store.save_update("doc", b"CADMUS_SHEET_V1:def".to_vec());

    assert_eq!(
        store.load_latest_snapshot("doc"),
        Some(b"CADMUS_SHEET_V1:def".to_vec())
    );
    // The latest row overall is still the snapshot row.
    assert_eq!(
        store.load_latest_update("doc"),
        Some(b"CADMUS_SHEET_V1:def".to_vec())
    );
}

#[test]
fn latest_snapshot_is_none_without_the_prefix() {
    let mut store = ContentStorage::new();
    store.save_update("doc", b"plainbytes".to_vec());
    // A proper prefix of the marker does not count as a snapshot.
    store.save_update("doc", b"CADMUS_SHEET_V1".to_vec());
    assert_eq!(store.load_latest_snapshot("doc"), None);
}

#[test]
fn snapshot_saved_through_the_registry_is_found() {
    let mut reg = ContentRegistry::new(Some(ContentStorage::new()));
    assert!(reg.save_direct("doc", b"CADMUS_SHEET_V1:state".to_vec()));
    let store = reg.get_storage().expect("storage configured");
    assert_eq!(
        store.load_latest_snapshot("doc"),
        Some(b"CADMUS_SHEET_V1:state".to_vec())
    );

    let mut without = ContentRegistry::new(None);
    assert!(!without.save_direct("doc", b"CADMUS_SHEET_V1:state".to_vec()));
    assert!(without.get_storage().is_none());
}

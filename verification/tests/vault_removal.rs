use bxenc::vault::meta::{EntryMeta, VaultMeta, VaultMetaV2};
use bxenc::vault::removal::{begin_removal, removal_step, Removal, RemovalAction, RemovalEvent};
use bxenc::vault::store::VaultMetadata;
use bxenc::BxError;

fn v2_with(names: &[&str]) -> VaultMetadata {
    let mut meta = VaultMetaV2::new("removal-test").unwrap();
    for name in names {
        meta.insert_entry(name, 1).unwrap();
    }
    VaultMetadata::V2(meta)
}

fn names(meta: &VaultMetadata) -> Vec<String> {
    meta.list_entries().into_iter().map(|e| e.original_name).collect()
}

#[test]
fn blob_is_deleted_only_after_the_metadata_is_written() {
    let mut meta = v2_with(&["a", "b", "c"]);
    let id = meta.entry_access("b").unwrap().id_hex;
    let (state, action) = begin_removal(&mut meta, "b").unwrap();
    assert!(matches!(action, RemovalAction::WriteMetadata));
    assert_eq!(names(&meta), vec!["a", "c"]);

    // a deletion reported out of turn does not move the removal on
    let (state, action) = removal_step(&mut meta, state, RemovalEvent::BlobDeleted);
    assert!(matches!(action, RemovalAction::WriteMetadata));

    let (state, action) = removal_step(&mut meta, state, RemovalEvent::MetadataWritten);
    match &action {
        RemovalAction::DeleteBlob(blob) => assert_eq!(blob, &id),
        _ => panic!("expected the blob to be deleted"),
    }
    assert!(matches!(&state, Removal::Written { id_hex } if id_hex == &id));
    let (state, action) = removal_step(&mut meta, state, RemovalEvent::BlobDeleted);
    assert!(matches!(action, RemovalAction::Done));
    assert!(matches!(state, Removal::Over));
    assert_eq!(names(&meta), vec!["a", "c"]);
}

#[test]
fn failed_metadata_write_puts_the_entry_back() {
    let mut meta = v2_with(&["a", "b"]);
    let before = meta.entry_access("a").unwrap().id_hex;
    let (state, _) = begin_removal(&mut meta, "a").unwrap();
    let (state, action) = removal_step(&mut meta, state, RemovalEvent::MetadataWriteFailed);
    assert!(matches!(action, RemovalAction::RolledBack));
    assert!(matches!(state, Removal::Over));
    assert_eq!(names(&meta), vec!["a", "b"]);
    assert_eq!(meta.entry_access("a").unwrap().id_hex, before);
}

#[test]
fn v1_metadata_refuses_removal() {
    let mut v1 = VaultMeta::new("legacy");
    for name in ["x", "y", "z"] {
        v1.entries.push(EntryMeta::new(name, 1));
    }
    // version 1 metadata is read-only: the removal does not start
    let mut meta = VaultMetadata::V1(v1);
    assert!(matches!(begin_removal(&mut meta, "y"), Err(BxError::Encrypt(_))));
    assert_eq!(names(&meta), vec!["x", "y", "z"]);
}

#[test]
fn removing_an_unknown_name_fails() {
    let mut meta = v2_with(&["a"]);
    match begin_removal(&mut meta, "nope") {
        Err(BxError::EntryNotFound(name)) => assert_eq!(name, "nope"),
        _ => panic!("expected a not-found error"),
    }
    assert_eq!(names(&meta), vec!["a"]);
}

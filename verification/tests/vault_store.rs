use bxenc::crypto::engine::{decrypt, encrypt, Credential};
use bxenc::vault::meta::{
    entry_aad_v2, entry_id, EntryMeta, VaultMeta, VaultMetaV2, META_AAD_V1, META_AAD_V2,
};
use bxenc::vault::store::{
    check_unique_v1_names, migrate_entry, migration_target, open_metadata_blob,
    v1_read_only_error, OpenedMetadata, PendingEntry, RemovedEntry, StoredCredential,
    VaultMetadata,
};
use bxenc::{BxError, BxResult};

const KEYFILE: [u8; 32] = [19u8; 32];

fn v2_with(names: &[&str]) -> VaultMetadata {
    let mut meta = VaultMetaV2::new("store-test").unwrap();
    for name in names {
        meta.insert_entry(name, 1).unwrap();
    }
    VaultMetadata::V2(meta)
}

fn listed_names(meta: &VaultMetadata) -> Vec<String> {
    meta.list_entries()
        .into_iter()
        .map(|e| e.original_name)
        .collect()
}

#[test]
fn list_returns_all_entries() -> BxResult<()> {
    let mut meta = v2_with(&[]);
    for name in ["a.txt", "b.txt"] {
        let (pending, _, _) = meta.prepare_entry(name, 1)?;
        meta.insert_pending_entry(name, pending);
    }
    assert_eq!(listed_names(&meta), vec!["a.txt", "b.txt"]);
    Ok(())
}

#[test]
fn v1_metadata_is_read_only_until_migration() {
    let mut meta = VaultMetadata::V1(VaultMeta::new("legacy-v1"));
    let result = meta.prepare_entry("new.txt", 8);
    assert!(matches!(result, Err(BxError::Encrypt(message)) if message.contains("read-only")));
    let removal = meta.remove_entry("new.txt");
    assert!(matches!(removal, Err(BxError::Encrypt(message)) if message.contains("read-only")));
    assert!(matches!(v1_read_only_error(), BxError::Encrypt(m) if m == "v1 vaults are read-only until migration to metadata v2"));
}

#[test]
fn prepare_entry_refuses_a_held_name() {
    let meta = v2_with(&["x"]);
    match meta.prepare_entry("x", 1) {
        Err(BxError::Encrypt(message)) => assert_eq!(message, "vault entry already exists: x"),
        _ => panic!("expected a refusal"),
    }
}

#[test]
fn pending_v2_entry_has_fresh_id_and_bound_aad() -> BxResult<()> {
    let meta = v2_with(&["a"]);
    let (pending, id_hex, aad) = meta.prepare_entry("b", 4)?;
    let (VaultMetadata::V2(m), PendingEntry::V2(entry)) = (&meta, &pending) else {
        panic!("expected version 2");
    };
    assert_eq!(id_hex, entry.id_hex());
    assert_eq!(aad, entry_aad_v2(&m.vault_id, &entry.id));
    assert_ne!(entry.id, m.entries_by_name[0].1.id);
    assert_eq!(entry.size_bytes, 4);
    Ok(())
}

#[test]
fn pending_v1_entry_uses_name_hash() -> BxResult<()> {
    let meta = VaultMetadata::V1(VaultMeta::new("legacy"));
    let (pending, id_hex, aad) = meta.pending_entry("note.txt", 3)?;
    assert_eq!(id_hex, entry_id("note.txt"));
    assert_eq!(aad, entry_id("note.txt").into_bytes());
    assert!(matches!(pending, PendingEntry::V1(e) if e.id == id_hex));
    Ok(())
}

#[test]
fn remove_then_restore_gives_back_the_entries() -> BxResult<()> {
    let mut meta = v2_with(&["a", "b", "c"]);
    let before = listed_names(&meta);
    let removed = meta.remove_entry("b")?;
    assert_eq!(listed_names(&meta), vec!["a", "c"]);
    meta.restore_removed_entry("b", removed);
    assert_eq!(listed_names(&meta), before);
    Ok(())
}

#[test]
fn removing_an_unknown_entry_is_reported() {
    let mut meta = v2_with(&["a"]);
    match meta.remove_entry("zzz") {
        Err(BxError::EntryNotFound(name)) => assert_eq!(name, "zzz"),
        _ => panic!("expected EntryNotFound"),
    }
    assert_eq!(listed_names(&meta), vec!["a"]);
}

#[test]
fn v1_remove_and_restore_keep_position() {
    let mut v1 = VaultMeta::new("legacy");
    for name in ["one", "two", "three"] {
        v1.entries.push(EntryMeta::new(name, 1));
    }
    let mut meta = VaultMetadata::V1(v1);
    let removed = meta.remove_metadata_entry("two").unwrap();
    assert!(matches!(&removed, RemovedEntry::V1 { index: 1, .. }));
    assert_eq!(removed.id_hex(), entry_id("two"));
    assert_eq!(listed_names(&meta), vec!["one", "three"]);
    meta.restore_removed_entry("two", removed);
    assert_eq!(listed_names(&meta), vec!["one", "two", "three"]);
}

#[test]
fn add_then_remove_gives_back_the_entries() -> BxResult<()> {
    let mut meta = v2_with(&["a"]);
    let (pending, _, _) = meta.prepare_entry("b", 1)?;
    meta.insert_pending_entry("b", pending);
    assert!(meta.contains_entry("b"));
    meta.remove_metadata_entry("b");
    assert_eq!(listed_names(&meta), vec!["a"]);
    assert!(!meta.contains_entry("b"));
    Ok(())
}

#[test]
fn entry_access_locates_entries() -> BxResult<()> {
    let meta = v2_with(&["a"]);
    let access = meta.entry_access("a")?;
    let VaultMetadata::V2(m) = &meta else { panic!() };
    let record = &m.entries_by_name[0].1;
    assert_eq!(access.id_hex, record.id_hex());
    assert_eq!(access.aad, entry_aad_v2(&m.vault_id, &record.id));
    assert!(matches!(meta.entry_access("b"), Err(BxError::EntryNotFound(n)) if n == "b"));

    let mut v1 = VaultMeta::new("legacy");
    v1.entries.push(EntryMeta::new("n", 1));
    let v1 = VaultMetadata::V1(v1);
    let access = v1.entry_access("n")?;
    assert_eq!(access.id_hex, entry_id("n"));
    assert_eq!(access.aad, entry_id("n").into_bytes());
    Ok(())
}

#[test]
fn meta_aad_follows_version() {
    assert_eq!(v2_with(&[]).meta_aad(), META_AAD_V2.to_vec());
    assert_eq!(
        VaultMetadata::V1(VaultMeta::new("x")).meta_aad(),
        META_AAD_V1.to_vec()
    );
}

#[test]
fn metadata_versions_are_checked() {
    let mut v1 = VaultMeta::new("x");
    v1.version = 2;
    assert!(matches!(VaultMetadata::from_v1(v1), Err(BxError::MetaCorrupt)));
    let mut v2 = VaultMetaV2::new("y").unwrap();
    v2.version = 1;
    assert!(matches!(VaultMetadata::from_v2(v2), Err(BxError::MetaCorrupt)));
    assert!(VaultMetadata::from_v2(VaultMetaV2::new("z").unwrap()).is_ok());
    assert!(VaultMetadata::from_v1(VaultMeta::new("w")).is_ok());
}

#[test]
fn metadata_blobs_open_by_their_aad() -> BxResult<()> {
    let credential = Credential::Keyfile(&KEYFILE);
    let v2_blob = encrypt(credential, b"v2 body", &META_AAD_V2)?;
    assert!(matches!(open_metadata_blob(credential, &v2_blob)?, OpenedMetadata::V2(p) if p == b"v2 body"));
    let v1_blob = encrypt(credential, b"v1 body", &META_AAD_V1)?;
    assert!(matches!(open_metadata_blob(credential, &v1_blob)?, OpenedMetadata::V1(p) if p == b"v1 body"));
    let entry_blob = encrypt(credential, b"entry", b"other")?;
    assert!(matches!(open_metadata_blob(credential, &entry_blob), Err(BxError::MetaCorrupt)));
    Ok(())
}

#[test]
fn duplicate_v1_names_block_migration() {
    let entries = vec![
        EntryMeta::new("a", 1),
        EntryMeta::new("b", 1),
        EntryMeta::new("a", 1),
    ];
    match check_unique_v1_names(&entries) {
        Err(BxError::Encrypt(message)) => assert_eq!(message, "duplicate v1 vault entry name: a"),
        _ => panic!("expected a duplicate error"),
    }
    assert!(check_unique_v1_names(&entries[..2].to_vec()).is_ok());
}

#[test]
fn migrated_entry_keeps_its_contents() -> BxResult<()> {
    let credential = Credential::Keyfile(&KEYFILE);
    let mut v1 = VaultMeta::new("legacy");
    let entry = EntryMeta::new("alpha.txt", 10);
    let old_blob = encrypt(credential, b"alpha body", entry.id.as_bytes())?;
    v1.entries.push(entry.clone());

    let mut v2 = migration_target(&v1)?;
    assert_eq!(v2.name, "legacy");
    assert_eq!(v2.created_at, v1.created_at);
    let (new_id, new_blob) = migrate_entry(&mut v2, &entry, credential, &old_blob)?;

    let record = &v2.get_entry("alpha.txt").unwrap();
    assert_eq!(new_id, record.id_hex());
    assert_ne!(new_id, entry.id);
    assert_eq!(record.added_at, entry.added_at);
    assert_eq!(record.size_bytes, 10);
    let aad = entry_aad_v2(&v2.vault_id, &record.id);
    assert_eq!(decrypt(credential, &new_blob, &aad)?, b"alpha body");
    assert!(matches!(decrypt(credential, &new_blob, entry.id.as_bytes()), Err(BxError::Decrypt)));
    Ok(())
}

#[test]
fn migrating_a_blob_under_the_wrong_aad_fails() -> BxResult<()> {
    let credential = Credential::Keyfile(&KEYFILE);
    let entry = EntryMeta::new("beta.txt", 4);
    let old_blob = encrypt(credential, b"beta", b"not the id")?;
    let mut v2 = VaultMetaV2::new("v").unwrap();
    assert!(matches!(
        migrate_entry(&mut v2, &entry, credential, &old_blob),
        Err(BxError::Decrypt)
    ));
    assert!(v2.entries_by_name.is_empty());
    Ok(())
}

#[test]
fn stored_credential_round_trips() {
    let stored = StoredCredential::from_credential(Credential::Password(b"pw"));
    assert!(matches!(stored.as_credential(), Credential::Password(p) if p == b"pw"));
    let key = [5u8; 32];
    let stored = StoredCredential::from_credential(Credential::Keyfile(&key));
    assert!(matches!(stored.as_credential(), Credential::Keyfile(k) if *k == key));
}

#[test]
fn extract_gives_back_what_add_stored() -> BxResult<()> {
    let credential = Credential::Keyfile(&KEYFILE);
    let mut meta = v2_with(&["a.txt"]);
    let (pending, id_hex, aad) = meta.prepare_entry("note.txt", 9)?;
    let blob = encrypt(credential, b"text body", &aad)?;
    meta.insert_pending_entry("note.txt", pending);

    let access = meta.entry_access("note.txt")?;
    assert_eq!(access.id_hex, id_hex);
    assert_eq!(access.aad, aad);
    assert_eq!(decrypt(credential, &blob, &access.aad)?, b"text body");
    let other = meta.entry_access("a.txt")?;
    assert!(matches!(decrypt(credential, &blob, &other.aad), Err(BxError::Decrypt)));
    Ok(())
}

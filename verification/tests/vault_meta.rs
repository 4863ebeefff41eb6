use bxenc::vault::meta::{
    entry_aad_v2, entry_id, entry_id_hex, epoch_seconds_now, EntryMeta, EntryRecordV2, VaultMeta,
    VaultMetaV2, ENTRY_AAD_V2_PREFIX, META_AAD_V1, META_AAD_V2, VAULT_META_VERSION_V1,
    VAULT_META_VERSION_V2,
};

fn names(meta: &VaultMetaV2) -> Vec<&str> {
    meta.entries_by_name.iter().map(|(name, _)| name.as_str()).collect()
}

#[test]
fn aad_constants_spell_their_labels() {
    assert_eq!(&META_AAD_V1, b"vault.meta");
    assert_eq!(&META_AAD_V2, b"vault.meta.v2");
    assert_eq!(&ENTRY_AAD_V2_PREFIX, b"vault.entry.v2");
}

#[test]
fn entry_id_is_hex_sha256_of_name() {
    // SHA-256 of "abc"
    assert_eq!(
        entry_id("abc"),
        "ba7816bf8f01cfea414140de5dae2223b00361a396177a9cb410ff61f20015ad"
    );
    assert_eq!(entry_id("note.txt").len(), 64);
}

#[test]
fn entry_id_hex_is_lowercase_hex() {
    let mut id = [0u8; 32];
    id[0] = 0xAB;
    id[31] = 0x0F;
    let hex = entry_id_hex(&id);
    assert_eq!(hex.len(), 64);
    assert!(hex.starts_with("ab00"));
    assert!(hex.ends_with("000f"));
}

#[test]
fn entry_aad_v2_is_prefix_vault_id_entry_id() {
    let vault_id = [1u8; 16];
    let id = [2u8; 32];
    let aad = entry_aad_v2(&vault_id, &id);
    assert_eq!(aad.len(), 14 + 16 + 32);
    assert_eq!(&aad[..14], b"vault.entry.v2");
    assert_eq!(&aad[14..30], &vault_id);
    assert_eq!(&aad[30..], &id);
    assert_ne!(entry_aad_v2(&vault_id, &[3u8; 32]), aad);
    assert_ne!(entry_aad_v2(&[4u8; 16], &id), aad);
}

#[test]
fn epoch_seconds_now_is_decimal() {
    let now = epoch_seconds_now();
    assert!(!now.is_empty());
    assert!(now.chars().all(|c| c.is_ascii_digit()));
    assert!(now.parse::<u64>().unwrap() > 1_600_000_000);
}

#[test]
fn new_metadata_records() {
    let v1 = VaultMeta::new("legacy");
    assert_eq!(v1.name, "legacy");
    assert_eq!(v1.version, VAULT_META_VERSION_V1);
    assert!(v1.entries.is_empty());

    let v2 = VaultMetaV2::new("current").unwrap();
    assert_eq!(v2.name, "current");
    assert_eq!(v2.version, VAULT_META_VERSION_V2);
    assert!(v2.entries_by_name.is_empty());
    assert_ne!(v2.vault_id, VaultMetaV2::new("current").unwrap().vault_id);

    let entry = EntryMeta::new("a.txt", 5);
    assert_eq!(entry.id, entry_id("a.txt"));
    assert_eq!(entry.original_name, "a.txt");
    assert_eq!(entry.size_bytes, 5);

    let record = EntryRecordV2::new("b.txt", 7).unwrap();
    assert_eq!(record.original_name, "b.txt");
    assert_eq!(record.size_bytes, 7);
    assert_eq!(record.id_hex(), entry_id_hex(&record.id));
}

#[test]
fn insert_entry_files_by_name_and_refuses_duplicates() {
    let mut meta = VaultMetaV2::new("v").unwrap();
    meta.insert_entry("b.txt", 2).unwrap();
    meta.insert_entry("a.txt", 1).unwrap();
    meta.insert_entry("c.txt", 3).unwrap();
    assert_eq!(names(&meta), vec!["a.txt", "b.txt", "c.txt"]);

    let before = meta.entries_by_name.len();
    let err = meta.insert_entry("b.txt", 9).unwrap_err();
    assert_eq!(err, "vault entry already exists: b.txt");
    assert_eq!(meta.entries_by_name.len(), before);

    let ids: Vec<_> = meta.entries_by_name.iter().map(|(_, e)| e.id).collect();
    assert_ne!(ids[0], ids[1]);
    assert_ne!(ids[1], ids[2]);
}

#[test]
fn list_entries_follows_name_order() {
    let mut meta = VaultMetaV2::new("v").unwrap();
    meta.insert_entry("z", 26).unwrap();
    meta.insert_entry("B", 2).unwrap();
    meta.insert_entry("a", 1).unwrap();
    let list = meta.list_entries();
    let listed: Vec<&str> = list.iter().map(|e| e.original_name.as_str()).collect();
    // code point order: upper case before lower case
    assert_eq!(listed, vec!["B", "a", "z"]);
    assert_eq!(list[0].size_bytes, 2);
    assert_eq!(list[0].id, entry_id_hex(&meta.entries_by_name[0].1.id));
}

#[test]
fn file_get_take_behave_as_a_map() {
    let mut meta = VaultMetaV2::new("v").unwrap();
    let first = EntryRecordV2::new("k", 1).unwrap();
    let first_id = first.id;
    assert!(meta.file_entry("k", first).is_none());
    assert_eq!(meta.get_entry("k").unwrap().id, first_id);
    assert!(meta.get_entry("other").is_none());

    let second = EntryRecordV2::new("k", 2).unwrap();
    let second_id = second.id;
    let replaced = meta.file_entry("k", second).unwrap();
    assert_eq!(replaced.id, first_id);
    assert_eq!(meta.entries_by_name.len(), 1);
    assert_eq!(meta.get_entry("k").unwrap().id, second_id);

    assert_eq!(meta.find_entry("k"), Some(0));
    let taken = meta.take_entry("k").unwrap();
    assert_eq!(taken.id, second_id);
    assert!(meta.take_entry("k").is_none());
    assert!(meta.entries_by_name.is_empty());
}

#[test]
fn from_v2_lists_entry() {
    let record = EntryRecordV2::new("n", 3).unwrap();
    let listed = EntryMeta::from_v2(&record);
    assert_eq!(listed.id, record.id_hex());
    assert_eq!(listed.original_name, "n");
    assert_eq!(listed.added_at, record.added_at);
    assert_eq!(listed.size_bytes, 3);
}

//! The decisions of vault storage: what the metadata becomes when an entry is
//! added, removed, restored or migrated, which file and AAD an entry uses, and how
//! metadata blobs are opened. Reading and writing the files is left to the caller.
use vstd::prelude::*;
use crate::crypto::engine::{
    self, decrypt_spec, is_encryption_of, is_random_failure, plaintext_accepted,
    reports_decryption, Credential, DecryptFailure,
};
use crate::crypto::kdf;
use crate::error::{io_error_invalid_input, BxError, BxResult};
use crate::text::{chars_of, push_str, string_of};
use crate::vault::meta::{
    entry_aad_v2, entry_aad_v2_spec, entry_id_hex, hex_spec, id_in_use, lists, no_fresh_id_message,
    EntryMeta,
    EntryRecordV2, VaultMeta, VaultMetaV2, META_AAD_V1, META_AAD_V2, VAULT_META_VERSION_V1,
    VAULT_META_VERSION_V2,
};
use crate::vault::names::{compare_names, NameOrder};

verus! {

pub const META_FILE: &'static str = "vault.meta.bxenc";
pub const ENTRIES_DIR: &'static str = "entries";
pub const LOCK_FILE: &'static str = ".lock";
pub const STAGE_ENTRIES_DIR: &'static str = "entries.v2.stage";

/// A vault's metadata, in either version.
pub enum VaultMetadata {
    V1(VaultMeta),
    V2(VaultMetaV2),
}

/// An entry about to be added, in the version of the vault's metadata.
pub enum PendingEntry {
    V1(EntryMeta),
    V2(EntryRecordV2),
}

/// An entry taken out of the metadata, with what it takes to put it back.
pub enum RemovedEntry {
    V1 { index: usize, entry: EntryMeta },
    V2(EntryRecordV2),
}

/// Where an entry's blob lives (its hex ID) and the AAD that binds it.
pub struct EntryAccess {
    pub id_hex: String,
    pub aad: Vec<u8>,
}

/// A credential held by an open vault: the password's bytes, or the keyfile's.
pub enum StoredCredential {
    Password(Vec<u8>),
    Keyfile([u8; kdf::KEY_LEN]),
}

/// The entries a metadata record holds: version 1 in listing order, version 2 by name.
pub enum MetadataView {
    V1(Seq<EntryMeta>),
    V2(Map<Seq<char>, EntryRecordV2>),
}

/// The position of the first of `entries` named `name`.
pub open spec fn first_named(entries: Seq<EntryMeta>, name: Seq<char>) -> Option<int>
    decreases entries.len(),
{
    if entries.len() == 0 {
        None
    } else if entries[0].original_name@ == name {
        Some(0)
    } else {
        match first_named(entries.drop_first(), name) {
            Some(i) => Some(i + 1),
            None => None,
        }
    }
}

/// Whether a metadata record holds an entry named `name`.
pub open spec fn holds_name(v: MetadataView, name: Seq<char>) -> bool {
    match v {
        MetadataView::V1(s) => first_named(s, name) is Some,
        MetadataView::V2(m) => m.dom().contains(name),
    }
}

/// What taking out the entry named `name` leaves, and the entry taken out.
pub open spec fn remove_spec(v: MetadataView, name: Seq<char>) -> (MetadataView, Option<RemovedEntry>) {
    match v {
        MetadataView::V1(s) => match first_named(s, name) {
            Some(i) => (
                MetadataView::V1(s.remove(i)),
                Some(RemovedEntry::V1 { index: i as usize, entry: s[i] }),
            ),
            None => (v, None),
        },
        MetadataView::V2(m) => if m.dom().contains(name) {
            (MetadataView::V2(m.remove(name)), Some(RemovedEntry::V2(m[name])))
        } else {
            (v, None)
        },
    }
}

/// What putting back a removed entry under `name` gives.
pub open spec fn restore_spec(v: MetadataView, name: Seq<char>, removed: RemovedEntry) -> MetadataView {
    match (v, removed) {
        (MetadataView::V1(s), RemovedEntry::V1 { index, entry }) => MetadataView::V1(
            s.insert(index as int, entry),
        ),
        (MetadataView::V2(m), RemovedEntry::V2(entry)) => MetadataView::V2(m.insert(name, entry)),
        _ => v,
    }
}

/// What adding a pending entry under `name` gives.
pub open spec fn insert_pending_spec(v: MetadataView, name: Seq<char>, pending: PendingEntry) -> MetadataView {
    match (v, pending) {
        (MetadataView::V1(s), PendingEntry::V1(entry)) => MetadataView::V1(s.push(entry)),
        (MetadataView::V2(m), PendingEntry::V2(entry)) => MetadataView::V2(m.insert(name, entry)),
        _ => v,
    }
}

/// The metadata and the pending or removed entry are of the same version.
pub open spec fn same_version_pending(v: MetadataView, pending: PendingEntry) -> bool {
    (v is V1 && pending is V1) || (v is V2 && pending is V2)
}

pub open spec fn same_version_removed(v: MetadataView, removed: RemovedEntry) -> bool {
    match (v, removed) {
        (MetadataView::V1(s), RemovedEntry::V1 { index, entry: _ }) => index <= s.len(),
        (MetadataView::V2(_), RemovedEntry::V2(_)) => true,
        _ => false,
    }
}

pub(crate) proof fn lemma_first_named(entries: Seq<EntryMeta>, name: Seq<char>)
    ensures
        first_named(entries, name) matches Some(i) ==> 0 <= i < entries.len()
            && entries[i].original_name@ == name && forall|k: int|
            0 <= k < i ==> (#[trigger] entries[k]).original_name@ != name,
        first_named(entries, name) is None ==> forall|k: int|
            0 <= k < entries.len() ==> (#[trigger] entries[k]).original_name@ != name,
    decreases entries.len(),
{
    if entries.len() > 0 {
        lemma_first_named(entries.drop_first(), name);
        assert forall|k: int| 1 <= k < entries.len() implies entries[k] == entries.drop_first()[k - 1] by {}
    }
}

/// Putting back the entry that was taken out restores the metadata exactly: the
/// rollback that follows a failed metadata write leaves the vault as it was.
pub proof fn lemma_restore_undoes_remove(v: MetadataView, name: Seq<char>)
    requires
        remove_spec(v, name).1 is Some,
        v matches MetadataView::V1(s) ==> s.len() <= usize::MAX,
    ensures
        restore_spec(remove_spec(v, name).0, name, remove_spec(v, name).1->0) == v,
{
    match v {
        MetadataView::V1(s) => {
            lemma_first_named(s, name);
            let i = first_named(s, name)->0;
            assert(s.remove(i).insert(i, s[i]) =~= s);
        },
        MetadataView::V2(m) => {
            assert(m.remove(name).insert(name, m[name]) =~= m);
        },
    }
}

/// Taking out the entry that was just added under a new name restores the
/// metadata exactly: the rollback of a failed addition.
pub proof fn lemma_remove_undoes_insert(v: MetadataView, name: Seq<char>, pending: PendingEntry)
    requires
        !holds_name(v, name),
        same_version_pending(v, pending),
        pending matches PendingEntry::V1(e) ==> e.original_name@ == name,
    ensures
        remove_spec(insert_pending_spec(v, name, pending), name).0 == v,
{
    match (v, pending) {
        (MetadataView::V1(s), PendingEntry::V1(e)) => {
            let t = s.push(e);
            lemma_first_named(s, name);
            lemma_first_named(t, name);
            assert(t[s.len() as int] == e);
            assert(first_named(t, name) is Some);
            let i = first_named(t, name)->0;
            if i < s.len() {
                assert(t[i] == s[i]);
            }
            assert(i == s.len());
            assert(t.remove(i) =~= s);
        },
        (MetadataView::V2(m), PendingEntry::V2(e)) => {
            assert(m.insert(name, e).remove(name) =~= m);
        },
        _ => {},
    }
}

/// The hex ID that names the file of the entry called `name`, and the AAD that
/// binds its blob; `None` where no entry has that name (for version 1, the first
/// entry of that name counts).
pub open spec fn access_spec(m: VaultMetadata, name: Seq<char>) -> Option<(Seq<char>, Seq<u8>)> {
    if !holds_name(m.view_entries(), name) {
        None
    } else {
        match m {
            VaultMetadata::V1(v) => {
                let e = v.entries@[first_named(v.entries@, name)->0];
                Some((e.id@, vstd::utf8::encode_utf8(e.id@)))
            },
            VaultMetadata::V2(v) => {
                let e = v.entries()[name];
                Some((hex_spec(e.id@), entry_aad_v2_spec(v.vault_id@, e.id@)))
            },
        }
    }
}

/// `p` is an entry made for `name` and `size_bytes` in `m`, with `id` the hex ID
/// of its file and `aad` the AAD of its blob: for version 1 the ID is the hex
/// SHA-256 of the name and the AAD its bytes; for version 2 the ID is one that no
/// entry uses and the AAD binds the vault ID and the entry ID.
pub open spec fn prepared_for(
    m: VaultMetadata,
    name: Seq<char>,
    size_bytes: u64,
    p: PendingEntry,
    id: Seq<char>,
    aad: Seq<u8>,
) -> bool {
    match (m, p) {
        (VaultMetadata::V1(_), PendingEntry::V1(e)) => e.original_name@ == name && e.size_bytes
            == size_bytes && e.id@ == crate::vault::meta::entry_id_spec(name) && id == e.id@ && aad
            == vstd::utf8::encode_utf8(e.id@),
        (VaultMetadata::V2(v), PendingEntry::V2(e)) => e.original_name@ == name && e.size_bytes
            == size_bytes && !id_in_use(v.entries_by_name@, e.id@) && id == hex_spec(e.id@) && aad
            == entry_aad_v2_spec(v.vault_id@, e.id@),
        _ => false,
    }
}

/// What is extracted is what was added: once an entry prepared for a name that no
/// entry has is filed, looking that name up gives the file ID and AAD it was
/// prepared with, so the blob encrypted under that AAD decrypts, with the same
/// credential, to the plaintext that was added.
pub proof fn lemma_extract_after_add(
    before: VaultMetadata,
    after: VaultMetadata,
    name: Seq<char>,
    size_bytes: u64,
    pending: PendingEntry,
    id: Seq<char>,
    aad: Seq<u8>,
    credential: Credential,
    plaintext: Seq<u8>,
    blob: Seq<u8>,
)
    requires
        !holds_name(before.view_entries(), name),
        prepared_for(before, name, size_bytes, pending, id, aad),
        after.same_header(before),
        after.view_entries() == insert_pending_spec(before.view_entries(), name, pending),
        decrypt_spec(credential, blob, aad) == Ok::<Seq<u8>, DecryptFailure>(plaintext),
    ensures
        access_spec(after, name) == Some((id, aad)),
        access_spec(after, name) matches Some((found_id, found_aad)) && decrypt_spec(
            credential,
            blob,
            found_aad,
        ) == Ok::<Seq<u8>, DecryptFailure>(plaintext),
{
    match (before, after, pending) {
        (VaultMetadata::V1(b), VaultMetadata::V1(a), PendingEntry::V1(e)) => {
            let s = b.entries@;
            let t = a.entries@;
            assert(t == s.push(e));
            lemma_first_named(s, name);
            lemma_first_named(t, name);
            assert(t[s.len() as int] == e);
            let i = first_named(t, name)->0;
            if i < s.len() {
                assert(t[i] == s[i]);
            }
            assert(i == s.len());
        },
        (VaultMetadata::V2(b), VaultMetadata::V2(a), PendingEntry::V2(e)) => {
            assert(a.entries() == b.entries().insert(name, e));
            assert(a.entries().dom().contains(name));
        },
        _ => {},
    }
}

/// The characters of `a` and `b` agree.
fn same_name(a: &str, b: &Vec<char>) -> (r: bool)
    ensures
        r == (a@ == b@),
{
    let chars = chars_of(a);
    match compare_names(&chars, b) {
        NameOrder::Equal => true,
        _ => false,
    }
}

/// The position of the first of `entries` named `name`.
fn find_first_named(entries: &Vec<EntryMeta>, name: &str) -> (r: Option<usize>)
    ensures
        match r {
            Some(i) => first_named(entries@, name@) == Some(i as int),
            None => first_named(entries@, name@) is None,
        },
{
    let name_chars = chars_of(name);
    let n = entries.len();
    proof {
        lemma_first_named(entries@, name@);
    }
    for i in 0..n
        invariant
            n == entries@.len(),
            name_chars@ == name@,
            forall|k: int| 0 <= k < i ==> (#[trigger] entries@[k]).original_name@ != name@,
            first_named(entries@, name@) matches Some(j) ==> 0 <= j < entries@.len()
                && entries@[j].original_name@ == name@ && forall|k: int|
                0 <= k < j ==> (#[trigger] entries@[k]).original_name@ != name@,
            first_named(entries@, name@) is None ==> forall|k: int|
                0 <= k < entries@.len() ==> (#[trigger] entries@[k]).original_name@ != name@,
    {
        if same_name(entries[i].original_name.as_str(), &name_chars) {
            return Some(i);
        }
    }
    None
}

/// A copy of a listing entry, field by field.
fn copy_entry(e: &EntryMeta) -> (c: EntryMeta)
    ensures
        c == *e,
{
    EntryMeta {
        id: e.id.clone(),
        original_name: e.original_name.clone(),
        added_at: e.added_at.clone(),
        size_bytes: e.size_bytes,
    }
}

/// The UTF-8 bytes of `s`.
fn utf8_bytes(s: &str) -> (v: Vec<u8>)
    ensures
        v@ == vstd::utf8::encode_utf8(s@),
{
    let mut v: Vec<u8> = Vec::new();
    v.extend_from_slice(s.as_bytes());
    assert(v@ =~= vstd::utf8::encode_utf8(s@));
    v
}

pub open spec fn read_only_message() -> Seq<char> {
    "v1 vaults are read-only until migration to metadata v2"@
}

/// The three refusals of an addition have different texts.
proof fn lemma_add_messages_differ(name: Seq<char>)
    ensures
        read_only_message() != crate::vault::meta::already_exists_message(name),
        read_only_message() != no_fresh_id_message(),
        no_fresh_id_message() != crate::vault::meta::already_exists_message(name),
{
    reveal_strlit("v1 vaults are read-only until migration to metadata v2");
    reveal_strlit("vault entry already exists: ");
    reveal_strlit("no random bytes from the operating system for a vault entry id");
    assert(read_only_message()[1] != crate::vault::meta::already_exists_message(name)[1]);
    assert(read_only_message()[0] != no_fresh_id_message()[0]);
    assert(no_fresh_id_message()[0] != crate::vault::meta::already_exists_message(name)[0]);
}

/// The error for a change to version 1 metadata, which is read-only until migrated.
pub fn v1_read_only_error() -> (e: BxError)
    ensures
        e matches BxError::Encrypt(m) && m@ == read_only_message(),
{
    BxError::Encrypt(string_of("v1 vaults are read-only until migration to metadata v2"))
}

/// An I/O error of kind `InvalidInput` carrying `message`.
pub fn invalid_input(message: &str) -> (e: BxError)
    ensures
        e is Io,
{
    BxError::Io(io_error_invalid_input(message))
}

impl StoredCredential {
    /// An owned copy of a credential.
    pub fn from_credential(credential: Credential<'_>) -> (s: Self)
        ensures
            match (s, credential) {
                (StoredCredential::Password(p), Credential::Password(q)) => p@ == q@,
                (StoredCredential::Keyfile(k), Credential::Keyfile(q)) => k@ == q@,
                _ => false,
            },
    {
        match credential {
            Credential::Password(password) => {
                let mut bytes: Vec<u8> = Vec::new();
                bytes.extend_from_slice(password);
                StoredCredential::Password(bytes)
            },
            Credential::Keyfile(keyfile) => StoredCredential::Keyfile(*keyfile),
        }
    }

    /// The credential held, borrowed.
    pub fn as_credential(&self) -> (c: Credential<'_>)
        ensures
            match (*self, c) {
                (StoredCredential::Password(p), Credential::Password(q)) => p@ == q@,
                (StoredCredential::Keyfile(k), Credential::Keyfile(q)) => k@ == q@,
                _ => false,
            },
    {
        match self {
            StoredCredential::Password(password) => Credential::Password(password.as_slice()),
            StoredCredential::Keyfile(keyfile) => Credential::Keyfile(keyfile),
        }
    }
}

impl RemovedEntry {
    /// The hex ID, and so the file name, of the removed entry.
    pub fn id_hex(&self) -> (s: String)
        ensures
            match *self {
                RemovedEntry::V1 { index: _, entry } => s@ == entry.id@,
                RemovedEntry::V2(entry) => s@ == hex_spec(entry.id@),
            },
    {
        match self {
            RemovedEntry::V1 { entry, .. } => entry.id.clone(),
            RemovedEntry::V2(entry) => entry.id_hex(),
        }
    }
}

/// Which metadata AAD opened a blob, and the plaintext.
pub enum OpenedMetadata {
    V1(Vec<u8>),
    V2(Vec<u8>),
}

/// Opens a metadata blob: as version 2 metadata where it authenticates with the
/// version 2 AAD, otherwise as version 1 metadata; [`BxError::MetaCorrupt`] where it
/// opens as neither.
pub fn open_metadata_blob(credential: Credential<'_>, blob: &[u8]) -> (r: BxResult<OpenedMetadata>)
    ensures
        match decrypt_spec(credential, blob@, META_AAD_V2@) {
            Ok(p) => r matches Ok(OpenedMetadata::V2(v)) && v@ == p,
            Err(_) => match decrypt_spec(credential, blob@, META_AAD_V1@) {
                Ok(p) => r matches Ok(OpenedMetadata::V1(v)) && v@ == p,
                Err(_) => r matches Err(BxError::MetaCorrupt),
            },
        },
{
    let aad_v2 = META_AAD_V2;
    if let Ok(plaintext) = engine::decrypt(credential, blob, aad_v2.as_slice()) {
        return Ok(OpenedMetadata::V2(plaintext));
    }
    let aad_v1 = META_AAD_V1;
    match engine::decrypt(credential, blob, aad_v1.as_slice()) {
        Ok(plaintext) => Ok(OpenedMetadata::V1(plaintext)),
        Err(_) => Err(BxError::MetaCorrupt),
    }
}

impl VaultMetadata {
    /// Well-formed: version 2 entries are in strictly increasing name order.
    pub open spec fn wf(&self) -> bool {
        match self {
            VaultMetadata::V1(_) => true,
            VaultMetadata::V2(m) => m.wf(),
        }
    }

    /// The entries held.
    pub open spec fn view_entries(&self) -> MetadataView {
        match self {
            VaultMetadata::V1(m) => MetadataView::V1(m.entries@),
            VaultMetadata::V2(m) => MetadataView::V2(m.entries()),
        }
    }

    /// The fields other than the entries are those of `other`.
    pub open spec fn same_header(&self, other: Self) -> bool {
        match (*self, other) {
            (VaultMetadata::V1(a), VaultMetadata::V1(b)) => a.name == b.name && a.version
                == b.version && a.created_at == b.created_at,
            (VaultMetadata::V2(a), VaultMetadata::V2(b)) => a.same_header(b),
            _ => false,
        }
    }

    /// Version 1 metadata as read; [`BxError::MetaCorrupt`] unless its version is 1.
    pub fn from_v1(meta: VaultMeta) -> (r: BxResult<Self>)
        ensures
            meta.version == VAULT_META_VERSION_V1 ==> r == Ok::<Self, BxError>(VaultMetadata::V1(meta)),
            meta.version != VAULT_META_VERSION_V1 ==> r matches Err(BxError::MetaCorrupt),
    {
        if meta.version != VAULT_META_VERSION_V1 {
            return Err(BxError::MetaCorrupt);
        }
        Ok(VaultMetadata::V1(meta))
    }

    /// Version 2 metadata as read; [`BxError::MetaCorrupt`] unless its version is 2
    /// and its entries are in strictly increasing name order (as a `BTreeMap` keeps
    /// them).
    pub fn from_v2(meta: VaultMetaV2) -> (r: BxResult<Self>)
        ensures
            meta.version == VAULT_META_VERSION_V2 && meta.wf() ==> r == Ok::<Self, BxError>(
                VaultMetadata::V2(meta),
            ),
            !(meta.version == VAULT_META_VERSION_V2 && meta.wf()) ==> r matches Err(
                BxError::MetaCorrupt,
            ),
            r matches Ok(m) ==> m.wf(),
    {
        if meta.version != VAULT_META_VERSION_V2 {
            return Err(BxError::MetaCorrupt);
        }
        if !names_in_order(&meta.entries_by_name) {
            return Err(BxError::MetaCorrupt);
        }
        Ok(VaultMetadata::V2(meta))
    }

    /// Whether this is version 1 metadata.
    pub fn is_v1(&self) -> (b: bool)
        ensures
            b == (self is V1),
    {
        match self {
            VaultMetadata::V1(_) => true,
            VaultMetadata::V2(_) => false,
        }
    }

    /// The AAD that binds the metadata blob: `vault.meta` for version 1,
    /// `vault.meta.v2` for version 2.
    pub fn meta_aad(&self) -> (aad: Vec<u8>)
        ensures
            self is V1 ==> aad@ == META_AAD_V1@,
            self is V2 ==> aad@ == META_AAD_V2@,
    {
        let mut aad: Vec<u8> = Vec::new();
        match self {
            VaultMetadata::V1(_) => {
                let a = META_AAD_V1;
                aad.extend_from_slice(a.as_slice());
            },
            VaultMetadata::V2(_) => {
                let a = META_AAD_V2;
                aad.extend_from_slice(a.as_slice());
            },
        }
        aad
    }

    /// The listing of all entries: version 1 in its own order, version 2 in name order.
    pub fn list_entries(&self) -> (list: Vec<EntryMeta>)
        ensures
            self matches VaultMetadata::V1(m) ==> list@ == m.entries@,
            self matches VaultMetadata::V2(m) ==> list@.len() == m.entries_by_name@.len() && forall|
                i: int,
            | 0 <= i < list@.len() ==> lists(#[trigger] list@[i], m.entries_by_name@[i].1),
    {
        match self {
            VaultMetadata::V1(meta) => {
                let mut list: Vec<EntryMeta> = Vec::new();
                let n = meta.entries.len();
                for i in 0..n
                    invariant
                        n == meta.entries@.len(),
                        list@ == meta.entries@.take(i as int),
                {
                    list.push(copy_entry(&meta.entries[i]));
                    assert(list@ =~= meta.entries@.take(i + 1));
                }
                assert(meta.entries@.take(n as int) =~= meta.entries@);
                list
            },
            VaultMetadata::V2(meta) => meta.list_entries(),
        }
    }

    /// Whether an entry named `name` is held.
    pub fn contains_entry(&self, name: &str) -> (b: bool)
        requires
            self.wf(),
        ensures
            b == holds_name(self.view_entries(), name@),
    {
        match self {
            VaultMetadata::V1(meta) => find_first_named(&meta.entries, name).is_some(),
            VaultMetadata::V2(meta) => meta.find_entry(name).is_some(),
        }
    }

    /// A new entry for `name`, the hex ID that names its file, and its AAD.
    ///
    /// For version 1, the ID is the hex SHA-256 of the name and the AAD is the
    /// ID's bytes; for version 2, the ID is random and unused by the vault's entries
    /// and the AAD binds the vault ID and the entry ID. The one failure is an
    /// encryption error where the operating system supplies no random bytes.
    pub fn pending_entry(&self, name: &str, size_bytes: u64) -> (r: BxResult<(PendingEntry, String, Vec<u8>)>)
        ensures
            self is V1 ==> r is Ok,
            self is V2 ==> r is Ok || (r matches Err(BxError::Encrypt(m)) && m@
                == no_fresh_id_message()),
            self is V2 ==> r is Ok || (r matches Err(BxError::Encrypt(m)) && is_random_failure(m@)),
            r matches Ok((p, id, aad)) ==> prepared_for(*self, name@, size_bytes, p, id@, aad@),
    {
        match self {
            VaultMetadata::V1(_) => {
                let entry = EntryMeta::new(name, size_bytes);
                let entry_id = entry.id.clone();
                let aad = utf8_bytes(entry_id.as_str());
                Ok((PendingEntry::V1(entry), entry_id, aad))
            },
            VaultMetadata::V2(meta) => {
                let entry = match meta.draw_fresh_entry(name, size_bytes) {
                    Ok(entry) => entry,
                    Err(message) => return Err(BxError::Encrypt(message)),
                };
                let entry_id = entry_id_hex(&entry.id);
                let aad = entry_aad_v2(&meta.vault_id, &entry.id);
                Ok((PendingEntry::V2(entry), entry_id, aad))
            },
        }
    }

    /// The entry to add under `name`, as [`Self::pending_entry`] makes it, after the
    /// checks that come first: version 1 metadata is read-only, and a name already
    /// held is refused.
    pub fn prepare_entry(&self, name: &str, size_bytes: u64) -> (r: BxResult<(PendingEntry, String, Vec<u8>)>)
        requires
            self.wf(),
        ensures
            self is V1 ==> (r matches Err(BxError::Encrypt(m)) && m@ == read_only_message()),
            self is V2 && holds_name(self.view_entries(), name@) ==> (r matches Err(
                BxError::Encrypt(m),
            ) && m@ == crate::vault::meta::already_exists_message(name@)),
            self is V2 && !holds_name(self.view_entries(), name@) ==> r is Ok || (r matches Err(
                BxError::Encrypt(m),
            ) && m@ == no_fresh_id_message()),
            self is V2 && !holds_name(self.view_entries(), name@) ==> r is Ok || (r matches Err(
                BxError::Encrypt(m),
            ) && is_random_failure(m@)),
            r matches Err(BxError::Encrypt(m)) && m@ == read_only_message() ==> self is V1,
            r matches Err(BxError::Encrypt(m)) && m@ == crate::vault::meta::already_exists_message(
                name@,
            ) ==> self is V2 && holds_name(self.view_entries(), name@),
            r matches Ok((p, id, aad)) ==> self is V2 && !holds_name(self.view_entries(), name@)
                && prepared_for(*self, name@, size_bytes, p, id@, aad@),
    {
        proof {
            lemma_add_messages_differ(name@);
        }
        if self.is_v1() {
            return Err(v1_read_only_error());
        }
        if self.contains_entry(name) {
            let mut message = string_of("vault entry already exists: ");
            push_str(&mut message, name);
            return Err(BxError::Encrypt(message));
        }
        self.pending_entry(name, size_bytes)
    }

    /// Takes out the entry named `entry_name` for removal: version 1 metadata is
    /// read-only, and a name not held is an [`BxError::EntryNotFound`] error; the
    /// metadata is unchanged on error.
    pub fn remove_entry(&mut self, entry_name: &str) -> (r: BxResult<RemovedEntry>)
        requires
            old(self).wf(),
        ensures
            final(self).wf(),
            final(self).same_header(*old(self)),
            *old(self) is V1 ==> (r matches Err(BxError::Encrypt(m)) && m@ == read_only_message()),
            *old(self) is V2 && !holds_name(old(self).view_entries(), entry_name@) ==> (r matches Err(
                BxError::EntryNotFound(n),
            ) && n@ == entry_name@),
            *old(self) is V2 && holds_name(old(self).view_entries(), entry_name@) ==> r is Ok,
            r is Err ==> final(self).view_entries() == old(self).view_entries(),
            r matches Ok(removed) ==> *old(self) is V2 && final(self).view_entries() == remove_spec(
                old(self).view_entries(),
                entry_name@,
            ).0 && remove_spec(old(self).view_entries(), entry_name@).1 == Some(removed),
    {
        if self.is_v1() {
            return Err(v1_read_only_error());
        }
        match self.remove_metadata_entry(entry_name) {
            Some(removed) => Ok(removed),
            None => Err(BxError::EntryNotFound(string_of(entry_name))),
        }
    }

    /// Adds a pending entry: appended for version 1, filed under `name` for version 2.
    pub fn insert_pending_entry(&mut self, name: &str, pending: PendingEntry)
        requires
            old(self).wf(),
            same_version_pending(old(self).view_entries(), pending),
        ensures
            final(self).wf(),
            final(self).same_header(*old(self)),
            final(self).view_entries() == insert_pending_spec(old(self).view_entries(), name@, pending),
    {
        match (self, pending) {
            (VaultMetadata::V1(meta), PendingEntry::V1(entry)) => {
                meta.entries.push(entry);
            },
            (VaultMetadata::V2(meta), PendingEntry::V2(entry)) => {
                meta.file_entry(name, entry);
            },
            (_, _) => {},
        }
    }

    /// Takes out the entry named `name` (the first of that name, for version 1),
    /// returning it with what it takes to put it back.
    pub fn remove_metadata_entry(&mut self, entry_name: &str) -> (r: Option<RemovedEntry>)
        requires
            old(self).wf(),
        ensures
            final(self).wf(),
            final(self).same_header(*old(self)),
            final(self).view_entries() == remove_spec(old(self).view_entries(), entry_name@).0,
            r == remove_spec(old(self).view_entries(), entry_name@).1,
    {
        match self {
            VaultMetadata::V1(meta) => {
                let index = find_first_named(&meta.entries, entry_name)?;
                proof {
                    lemma_first_named(meta.entries@, entry_name@);
                }
                let entry = meta.entries.remove(index);
                Some(RemovedEntry::V1 { index, entry })
            },
            VaultMetadata::V2(meta) => match meta.take_entry(entry_name) {
                Some(entry) => Some(RemovedEntry::V2(entry)),
                None => None,
            },
        }
    }

    /// Puts back an entry taken out by [`Self::remove_metadata_entry`].
    pub fn restore_removed_entry(&mut self, entry_name: &str, removed: RemovedEntry)
        requires
            old(self).wf(),
            same_version_removed(old(self).view_entries(), removed),
        ensures
            final(self).wf(),
            final(self).same_header(*old(self)),
            final(self).view_entries() == restore_spec(old(self).view_entries(), entry_name@, removed),
    {
        match (self, removed) {
            (VaultMetadata::V1(meta), RemovedEntry::V1 { index, entry }) => {
                meta.entries.insert(index, entry);
            },
            (VaultMetadata::V2(meta), RemovedEntry::V2(entry)) => {
                meta.file_entry(entry_name, entry);
            },
            (_, _) => {},
        }
    }

    /// Where the entry named `entry_name` lives and its AAD; [`BxError::EntryNotFound`]
    /// with the name where the vault holds no such entry.
    pub fn entry_access(&self, entry_name: &str) -> (r: BxResult<EntryAccess>)
        requires
            self.wf(),
        ensures
            match access_spec(*self, entry_name@) {
                None => r matches Err(BxError::EntryNotFound(n)) && n@ == entry_name@,
                Some((id, aad)) => r matches Ok(a) && a.id_hex@ == id && a.aad@ == aad,
            },
    {
        match self {
            VaultMetadata::V1(meta) => match find_first_named(&meta.entries, entry_name) {
                Some(i) => {
                    proof {
                        lemma_first_named(meta.entries@, entry_name@);
                    }
                    let entry = &meta.entries[i];
                    Ok(EntryAccess { id_hex: entry.id.clone(), aad: utf8_bytes(entry.id.as_str()) })
                },
                None => Err(BxError::EntryNotFound(string_of(entry_name))),
            },
            VaultMetadata::V2(meta) => match meta.get_entry(entry_name) {
                Some(entry) => Ok(
                    EntryAccess {
                        id_hex: entry_id_hex(&entry.id),
                        aad: entry_aad_v2(&meta.vault_id, &entry.id),
                    },
                ),
                None => Err(BxError::EntryNotFound(string_of(entry_name))),
            },
        }
    }
}

/// Whether the entries are in strictly increasing name order.
fn names_in_order(entries: &Vec<(String, EntryRecordV2)>) -> (b: bool)
    ensures
        b == crate::vault::names::strictly_sorted(crate::vault::meta::filed_names(entries@)),
{
    let ghost names = crate::vault::meta::filed_names(entries@);
    let n = entries.len();
    if n == 0 {
        return true;
    }
    let mut prev = chars_of(entries[0].0.as_str());
    for i in 1..n
        invariant
            n == entries@.len(),
            n >= 1,
            names == crate::vault::meta::filed_names(entries@),
            prev@ == names[i - 1],
            crate::vault::names::strictly_sorted(names.take(i as int)),
    {
        let cur = chars_of(entries[i].0.as_str());
        match compare_names(&prev, &cur) {
            NameOrder::Less => {},
            _ => {
                proof {
                    crate::vault::names::lemma_lt_irreflexive(names[i as int]);
                    crate::vault::names::lemma_lt_asymmetric(names[i as int], names[i - 1]);
                    assert(!crate::vault::names::name_lt(names[i - 1], names[i as int]));
                }
                return false;
            },
        }
        proof {
            let t = names.take(i + 1);
            assert forall|a: int, b: int| 0 <= a < b < t.len() implies crate::vault::names::name_lt(
                #[trigger] t[a],
                #[trigger] t[b],
            ) by {
                if b < i {
                    assert(t[a] == names.take(i as int)[a]);
                    assert(t[b] == names.take(i as int)[b]);
                } else if a < i - 1 {
                    assert(t[a] == names.take(i as int)[a]);
                    assert(names.take(i as int)[i - 1] == names[i - 1]);
                    crate::vault::names::lemma_lt_transitive(t[a], names[i - 1], names[i as int]);
                }
            }
        }
        prev = cur;
    }
    assert(names.take(n as int) =~= names);
    true
}

/// The duplicate-name error of a version 1 vault that cannot be migrated.
pub open spec fn duplicate_message(name: Seq<char>) -> Seq<char> {
    "duplicate v1 vault entry name: "@ + name
}

/// Checks that no two version 1 entries share a name, as migration requires; the
/// error names the first entry whose name an earlier entry already has.
pub fn check_unique_v1_names(entries: &Vec<EntryMeta>) -> (r: BxResult<()>)
    ensures
        r is Ok <==> (forall|j: int| 0 <= j < entries@.len() ==> first_named(entries@, #[trigger] entries@[j].original_name@) == Some(j)),
        r is Err ==> exists|j: int| 0 <= j < entries@.len() && first_named(entries@, #[trigger] entries@[j].original_name@) != Some(j)
            && (forall|k: int| 0 <= k < j ==> first_named(entries@, #[trigger] entries@[k].original_name@) == Some(k))
            && (r matches Err(BxError::Encrypt(m)) && m@ == duplicate_message(entries@[j].original_name@)),
{
    let n = entries.len();
    for j in 0..n
        invariant
            n == entries@.len(),
            forall|k: int| 0 <= k < j ==> first_named(entries@, #[trigger] entries@[k].original_name@) == Some(k),
    {
        let first = find_first_named(entries, entries[j].original_name.as_str());
        proof {
            lemma_first_named(entries@, entries@[j as int].original_name@);
        }
        match first {
            Some(i) => {
                if i != j {
                    let mut message = string_of("duplicate v1 vault entry name: ");
                    push_str(&mut message, entries[j].original_name.as_str());
                    return Err(BxError::Encrypt(message));
                }
            },
            None => {},
        }
    }
    Ok(())
}

/// The version 2 metadata that a version 1 vault migrates into: a fresh record with
/// the vault's name and creation time and no entries. An encryption error, with
/// the operating system's text, where no random vault ID can be drawn.
pub fn migration_target(v1: &VaultMeta) -> (r: BxResult<VaultMetaV2>)
    ensures
        r matches Ok(m) ==> m.wf() && m.name@ == v1.name@ && m.version == VAULT_META_VERSION_V2
            && m.created_at == v1.created_at && m.entries() == Map::<
            Seq<char>,
            EntryRecordV2,
        >::empty(),
        r is Err ==> r matches Err(BxError::Encrypt(_)),
        r matches Err(BxError::Encrypt(m)) ==> is_random_failure(m@),
{
    let mut m = match VaultMetaV2::new(v1.name.as_str()) {
        Ok(m) => m,
        Err(message) => return Err(BxError::Encrypt(message)),
    };
    m.created_at = v1.created_at.clone();
    Ok(m)
}

/// Migrates one version 1 entry into `v2_meta`: decrypts its blob under its
/// version 1 AAD, gives it a fresh random ID (keeping its name, size and time),
/// re-encrypts the plaintext under its version 2 AAD, and files it under its name.
/// Returns the new hex ID and blob. On success the new blob decrypts, with the new
/// AAD, to exactly what the old one held. A decryption or key-derivation error
/// comes exactly when the old blob does not decrypt; once it does, the only
/// failure is an encryption error (no random bytes, or a plaintext too long).
pub fn migrate_entry(
    v2_meta: &mut VaultMetaV2,
    v1_entry: &EntryMeta,
    credential: Credential<'_>,
    old_blob: &[u8],
) -> (r: BxResult<(String, Vec<u8>)>)
    requires
        old(v2_meta).wf(),
    ensures
        final(v2_meta).wf(),
        final(v2_meta).same_header(*old(v2_meta)),
        decrypt_spec(credential, old_blob@, vstd::utf8::encode_utf8(v1_entry.id@))
            == Err::<Seq<u8>, DecryptFailure>(DecryptFailure::Decrypt) ==> r matches Err(
            BxError::Decrypt,
        ),
        decrypt_spec(credential, old_blob@, vstd::utf8::encode_utf8(v1_entry.id@))
            == Err::<Seq<u8>, DecryptFailure>(DecryptFailure::Kdf) ==> r matches Err(BxError::Kdf(_)),
        r matches Err(BxError::Decrypt) ==> decrypt_spec(
            credential,
            old_blob@,
            vstd::utf8::encode_utf8(v1_entry.id@),
        ) == Err::<Seq<u8>, DecryptFailure>(DecryptFailure::Decrypt),
        r matches Err(BxError::Kdf(_)) ==> decrypt_spec(
            credential,
            old_blob@,
            vstd::utf8::encode_utf8(v1_entry.id@),
        ) == Err::<Seq<u8>, DecryptFailure>(DecryptFailure::Kdf),
        decrypt_spec(credential, old_blob@, vstd::utf8::encode_utf8(v1_entry.id@)) is Ok ==> r is Ok
            || r matches Err(BxError::Encrypt(_)),
        decrypt_spec(credential, old_blob@, vstd::utf8::encode_utf8(v1_entry.id@)) matches Ok(p)
            && plaintext_accepted(p) ==> r is Ok || (r matches Err(BxError::Encrypt(m))
            && is_random_failure(m@)),
        r is Err ==> final(v2_meta).entries_by_name@ == old(v2_meta).entries_by_name@,
        r matches Ok((id, blob)) ==> exists|e: EntryRecordV2|
            final(v2_meta).entries() == #[trigger] old(v2_meta).entries().insert(
                v1_entry.original_name@,
                e,
            ) && e.original_name@ == v1_entry.original_name@ && e.size_bytes == v1_entry.size_bytes
                && e.added_at == v1_entry.added_at && !id_in_use(old(v2_meta).entries_by_name@, e.id@)
                && id@ == hex_spec(e.id@) && decrypt_spec(credential, old_blob@, vstd::utf8::encode_utf8(v1_entry.id@)) is Ok
                && decrypt_spec(credential, blob@, entry_aad_v2_spec(old(v2_meta).vault_id@, e.id@))
                == decrypt_spec(credential, old_blob@, vstd::utf8::encode_utf8(v1_entry.id@)),
{
    let old_aad = utf8_bytes(v1_entry.id.as_str());
    let plaintext = engine::decrypt(credential, old_blob, old_aad.as_slice())?;
    let mut v2_entry = match v2_meta.draw_fresh_entry(v1_entry.original_name.as_str(), v1_entry.size_bytes) {
        Ok(entry) => entry,
        Err(message) => return Err(BxError::Encrypt(message)),
    };
    v2_entry.added_at = v1_entry.added_at.clone();
    let new_entry_id = entry_id_hex(&v2_entry.id);
    let new_entry_aad = entry_aad_v2(&v2_meta.vault_id, &v2_entry.id);
    let new_blob = engine::encrypt(credential, plaintext.as_slice(), new_entry_aad.as_slice())?;
    let ghost e = v2_entry;
    v2_meta.file_entry(v1_entry.original_name.as_str(), v2_entry);
    Ok((new_entry_id, new_blob))
}

} // verus!

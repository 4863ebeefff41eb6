//! Vault metadata types.
//!
//! Version 1 metadata lists its entries in insertion order and names each entry's
//! file by the SHA-256 of its name. Version 2 metadata files its entries by name, in
//! name order, and gives each entry a random 32-byte ID; its entries are bound to
//! the vault's random 16-byte ID through their AAD.
use vstd::prelude::*;
use sha2::{Digest, Sha256};
use crate::clock::{duration_as_secs, since_unix_epoch, system_time_now};
use crate::crypto::engine::{draw_random, is_random_failure, random_failure_prefix};
use crate::stego::{le_u64_bytes, le_u64_value};
use crate::text::{chars_of, decimal, decimal_string, push_str, string_of};
use crate::vault::names::{
    compare_names, lemma_lt_asymmetric, lemma_lt_irreflexive, lemma_lt_total, lemma_lt_transitive,
    name_lt, strictly_sorted, NameOrder,
};

verus! {

pub const VAULT_META_VERSION_V1: u8 = 1;
pub const VAULT_META_VERSION_V2: u8 = 2;
pub const VAULT_ID_LEN: usize = 16;
pub const ENTRY_ID_LEN: usize = 32;
/// The AAD of version 1 metadata: `b"vault.meta"`.
pub const META_AAD_V1: [u8; 10] = [0x76, 0x61, 0x75, 0x6c, 0x74, 0x2e, 0x6d, 0x65, 0x74, 0x61];
/// The AAD of version 2 metadata: `b"vault.meta.v2"`.
pub const META_AAD_V2: [u8; 13] = [
    0x76,
    0x61,
    0x75,
    0x6c,
    0x74,
    0x2e,
    0x6d,
    0x65,
    0x74,
    0x61,
    0x2e,
    0x76,
    0x32,
];
/// The prefix of a version 2 entry's AAD: `b"vault.entry.v2"`.
pub const ENTRY_AAD_V2_PREFIX: [u8; 14] = [
    0x76,
    0x61,
    0x75,
    0x6c,
    0x74,
    0x2e,
    0x65,
    0x6e,
    0x74,
    0x72,
    0x79,
    0x2e,
    0x76,
    0x32,
];

/// Version 1 vault metadata.
#[derive(Clone, Debug, PartialEq, Eq)]
pub struct VaultMeta {
    pub name: String,
    pub version: u8,
    pub created_at: String,
    pub entries: Vec<EntryMeta>,
}

/// A version 1 entry, and the listing form of every entry.
#[derive(Clone, Debug, PartialEq, Eq)]
pub struct EntryMeta {
    pub id: String,
    pub original_name: String,
    pub added_at: String,
    pub size_bytes: u64,
}

/// Version 2 vault metadata. `entries_by_name` holds each entry under its name, in
/// strictly increasing name order (see [`VaultMetaV2::wf`]).
#[derive(Clone, Debug, PartialEq, Eq)]
pub struct VaultMetaV2 {
    pub name: String,
    pub version: u8,
    pub vault_id: [u8; VAULT_ID_LEN],
    pub created_at: String,
    pub entries_by_name: Vec<(String, EntryRecordV2)>,
}

/// A version 2 entry.
#[derive(Clone, Debug, PartialEq, Eq)]
pub struct EntryRecordV2 {
    pub id: [u8; ENTRY_ID_LEN],
    pub original_name: String,
    pub added_at: String,
    pub size_bytes: u64,
}

/// The SHA-256 digest of `data`.
pub uninterp spec fn sha256(data: Seq<u8>) -> Seq<u8>;

/// Wraps sha2's `Sha256::digest`, whose 32-byte output is the SHA-256 digest.
#[verifier::external_body]
fn sha256_digest(data: &[u8]) -> (d: [u8; 32])
    ensures
        d@ == sha256(data@),
{
    Sha256::digest(data).into()
}

/// The lowercase hexadecimal digit of `v < 16`.
pub open spec fn hex_digit(v: u8) -> char {
    if v < 10 {
        (v + 48) as char
    } else {
        (v + 87) as char
    }
}

/// Two lowercase hexadecimal digits per byte, high nibble first.
pub open spec fn hex_spec(bytes: Seq<u8>) -> Seq<char> {
    Seq::new(
        2 * bytes.len(),
        |i: int| hex_digit(if i % 2 == 0 { bytes[i / 2] / 16 } else { bytes[i / 2] % 16 }),
    )
}

/// Wraps hex's `encode`, which writes two lowercase hexadecimal digits per byte,
/// the high nibble first (its source maps each nibble through `"0123456789abcdef"`).
#[verifier::external_body]
fn hex_encode(data: &[u8]) -> (s: String)
    ensures
        s@ == hex_spec(data@),
{
    hex::encode(data)
}

/// The current time as decimal seconds since the Unix epoch (`"0"` for a clock set
/// before the epoch). What number it is depends on the clock: the result is the
/// decimal form of some `u64`.
pub fn epoch_seconds_now() -> (s: String)
    ensures
        exists|n: u64| s@ == decimal(n as nat),
{
    let now = system_time_now();
    let seconds = match since_unix_epoch(&now) {
        Some(d) => duration_as_secs(&d),
        None => 0,
    };
    decimal_string(seconds)
}

/// The hex name of a version 1 entry: the SHA-256 of its name's UTF-8 bytes.
pub open spec fn entry_id_spec(original_name: Seq<char>) -> Seq<char> {
    hex_spec(sha256(vstd::utf8::encode_utf8(original_name)))
}

/// The version 1 entry ID of a name: the hex SHA-256 of its UTF-8 bytes.
pub fn entry_id(original_name: &str) -> (id: String)
    ensures
        id@ == entry_id_spec(original_name@),
        id@.len() == 64,
{
    let digest = sha256_digest(original_name.as_bytes());
    hex_encode(digest.as_slice())
}

/// The hex form of a version 2 entry ID.
pub fn entry_id_hex(entry_id: &[u8; ENTRY_ID_LEN]) -> (s: String)
    ensures
        s@ == hex_spec(entry_id@),
        s@.len() == 64,
{
    hex_encode(entry_id.as_slice())
}

/// The AAD of a version 2 entry: the prefix, the vault ID, then the entry ID.
pub open spec fn entry_aad_v2_spec(vault_id: Seq<u8>, entry_id: Seq<u8>) -> Seq<u8> {
    ENTRY_AAD_V2_PREFIX@ + vault_id + entry_id
}

/// The AAD that binds a version 2 entry to its vault and its ID.
pub fn entry_aad_v2(vault_id: &[u8; VAULT_ID_LEN], entry_id: &[u8; ENTRY_ID_LEN]) -> (aad: Vec<u8>)
    ensures
        aad@ == entry_aad_v2_spec(vault_id@, entry_id@),
{
    let mut aad: Vec<u8> = Vec::new();
    let prefix = ENTRY_AAD_V2_PREFIX;
    aad.extend_from_slice(prefix.as_slice());
    aad.extend_from_slice(vault_id.as_slice());
    aad.extend_from_slice(entry_id.as_slice());
    assert(aad@ =~= entry_aad_v2_spec(vault_id@, entry_id@));
    aad
}

/// Entry AADs bind their vault and entry: two entries share an AAD only when they
/// have the same vault ID and the same entry ID. So a blob moved to another entry's
/// file, or into another vault, does not authenticate there.
pub proof fn lemma_entry_aad_v2_binds(v1: Seq<u8>, e1: Seq<u8>, v2: Seq<u8>, e2: Seq<u8>)
    requires
        v1.len() == VAULT_ID_LEN,
        v2.len() == VAULT_ID_LEN,
        e1.len() == ENTRY_ID_LEN,
        e2.len() == ENTRY_ID_LEN,
        entry_aad_v2_spec(v1, e1) == entry_aad_v2_spec(v2, e2),
    ensures
        v1 == v2,
        e1 == e2,
{
    let a = entry_aad_v2_spec(v1, e1);
    assert(v1 =~= a.subrange(14, 30));
    assert(v2 =~= a.subrange(14, 30));
    assert(e1 =~= a.subrange(30, 62));
    assert(e2 =~= a.subrange(30, 62));
}

/// No entry AAD is a metadata AAD: an entry blob never opens as vault metadata, nor
/// metadata as an entry.
pub proof fn lemma_entry_aad_v2_not_meta_aad(vault_id: Seq<u8>, entry_id: Seq<u8>)
    requires
        vault_id.len() == VAULT_ID_LEN,
        entry_id.len() == ENTRY_ID_LEN,
    ensures
        entry_aad_v2_spec(vault_id, entry_id) != META_AAD_V1@,
        entry_aad_v2_spec(vault_id, entry_id) != META_AAD_V2@,
{
    assert(entry_aad_v2_spec(vault_id, entry_id).len() == 62);
}

/// A fresh version 1 metadata record named `name`, version 1, with no entries and
/// the current time as its creation time.
impl VaultMeta {
    pub fn new(name: &str) -> (m: Self)
        ensures
            m.name@ == name@,
            m.version == VAULT_META_VERSION_V1,
            m.entries@.len() == 0,
            exists|n: u64| m.created_at@ == decimal(n as nat),
    {
        VaultMeta {
            name: string_of(name),
            version: VAULT_META_VERSION_V1,
            created_at: epoch_seconds_now(),
            entries: Vec::new(),
        }
    }
}

impl EntryMeta {
    /// A version 1 entry for `original_name`: its ID is the hex SHA-256 of the name,
    /// and it is stamped with the current time.
    pub fn new(original_name: &str, size_bytes: u64) -> (e: Self)
        ensures
            e.id@ == entry_id_spec(original_name@),
            e.id@.len() == 64,
            e.original_name@ == original_name@,
            e.size_bytes == size_bytes,
            exists|n: u64| e.added_at@ == decimal(n as nat),
    {
        EntryMeta {
            id: entry_id(original_name),
            original_name: string_of(original_name),
            added_at: epoch_seconds_now(),
            size_bytes,
        }
    }

    /// The listing form of a version 2 entry: its ID in hex, its name, time and size.
    pub fn from_v2(entry: &EntryRecordV2) -> (e: Self)
        ensures
            e.id@ == hex_spec(entry.id@),
            e.original_name@ == entry.original_name@,
            e.added_at@ == entry.added_at@,
            e.size_bytes == entry.size_bytes,
    {
        EntryMeta {
            id: entry.id_hex(),
            original_name: entry.original_name.clone(),
            added_at: entry.added_at.clone(),
            size_bytes: entry.size_bytes,
        }
    }
}

impl EntryRecordV2 {
    /// A version 2 entry for `original_name` with a random ID, stamped with the
    /// current time. It fails only where the operating system supplies no random
    /// bytes, with a text that says so.
    pub fn new(original_name: &str, size_bytes: u64) -> (r: Result<Self, String>)
        ensures
            r matches Ok(e) ==> e.original_name@ == original_name@ && e.size_bytes == size_bytes
                && exists|n: u64| e.added_at@ == decimal(n as nat),
            r matches Err(m) ==> is_random_failure(m@),
    {
        let id: [u8; ENTRY_ID_LEN] = draw_random()?;
        Ok(
            EntryRecordV2 {
                id,
                original_name: string_of(original_name),
                added_at: epoch_seconds_now(),
                size_bytes,
            },
        )
    }

    /// The entry's ID in hex.
    pub fn id_hex(&self) -> (s: String)
        ensures
            s@ == hex_spec(self.id@),
    {
        entry_id_hex(&self.id)
    }
}

/// The names under which `entries` are filed.
pub open spec fn filed_names(entries: Seq<(String, EntryRecordV2)>) -> Seq<Seq<char>> {
    Seq::new(entries.len(), |i: int| entries[i].0@)
}

/// Whether `id` is the ID of one of `entries`.
pub open spec fn id_in_use(entries: Seq<(String, EntryRecordV2)>, id: Seq<u8>) -> bool {
    exists|i: int| 0 <= i < entries.len() && #[trigger] entries[i].1.id@ == id
}

/// The position of the (last) entry filed under `name`, if any.
pub open spec fn position_of(entries: Seq<(String, EntryRecordV2)>, name: Seq<char>) -> Option<int>
    decreases entries.len(),
{
    if entries.len() == 0 {
        None
    } else if entries.last().0@ == name {
        Some(entries.len() - 1)
    } else {
        position_of(entries.drop_last(), name)
    }
}

/// `position_of` finds the name where it is filed, and finds nothing where it is not.
proof fn lemma_position_of(entries: Seq<(String, EntryRecordV2)>, name: Seq<char>)
    ensures
        position_of(entries, name) matches Some(j) ==> 0 <= j < entries.len() && entries[j].0@
            == name,
        position_of(entries, name) is None ==> forall|j: int|
            0 <= j < entries.len() ==> #[trigger] entries[j].0@ != name,
    decreases entries.len(),
{
    if entries.len() > 0 {
        lemma_position_of(entries.drop_last(), name);
        if entries.last().0@ != name {
            assert forall|j: int| 0 <= j < entries.len() - 1 implies entries[j] == entries.drop_last()[j] by {}
        }
    }
}

pub open spec fn already_exists_message(name: Seq<char>) -> Seq<char> {
    "vault entry already exists: "@ + name
}

pub open spec fn no_fresh_id_message() -> Seq<char> {
    "no random bytes from the operating system for a vault entry id"@
}

/// The one error of drawing an entry ID reports a failed random draw.
pub proof fn lemma_no_fresh_id_is_random_failure()
    ensures
        is_random_failure(no_fresh_id_message()),
{
    reveal_strlit("no random bytes from the operating system for a vault entry id");
    reveal_strlit("no random bytes from the operating system");
    assert(random_failure_prefix() =~= no_fresh_id_message().subrange(
        0,
        random_failure_prefix().len() as int,
    ));
}

/// `base` with its last eight bytes replaced by the little-endian bytes of `k`.
pub open spec fn id_candidate(base: Seq<u8>, k: nat) -> Seq<u8> {
    base.subrange(0, 24) + le_u64_bytes(k)
}

/// More different candidates than there are entries cannot all be in use.
proof fn lemma_candidates_not_all_used(
    entries: Seq<(String, EntryRecordV2)>,
    base: Seq<u8>,
    count: nat,
)
    requires
        base.len() == 32,
        entries.len() < count <= 0x1_0000_0000_0000_0000,
    ensures
        exists|j: nat| j < count && !id_in_use(entries, #[trigger] id_candidate(base, j)),
{
    if forall|j: nat| j < count ==> id_in_use(entries, #[trigger] id_candidate(base, j)) {
        lemma_all_candidates_used_is_impossible(entries, base, count);
    }
}

/// The counting argument: more different candidates than entries, all in use, is
/// a set of IDs larger than the set of the entries' IDs that it lies in.
proof fn lemma_all_candidates_used_is_impossible(
    entries: Seq<(String, EntryRecordV2)>,
    base: Seq<u8>,
    count: nat,
)
    requires
        base.len() == 32,
        entries.len() < count <= 0x1_0000_0000_0000_0000,
        forall|j: nat| j < count ==> id_in_use(entries, #[trigger] id_candidate(base, j)),
    ensures
        count <= entries.len(),
{
    let cands = Seq::new(count, |j: int| id_candidate(base, j as nat));
    assert forall|i: int, j: int| 0 <= i < cands.len() && 0 <= j < cands.len() && i != j implies cands[i]
        != cands[j] by {
        crate::stego::lemma_le_u64_roundtrip(i as nat);
        crate::stego::lemma_le_u64_roundtrip(j as nat);
        assert(cands[i].subrange(24, 32) =~= le_u64_bytes(i as nat));
        assert(cands[j].subrange(24, 32) =~= le_u64_bytes(j as nat));
    }
    cands.unique_seq_to_set();
    let ids = Seq::new(entries.len(), |i: int| entries[i].1.id@);
    ids.lemma_cardinality_of_set();
    assert forall|c: Seq<u8>| cands.to_set().contains(c) implies ids.to_set().contains(c) by {
        let j = choose|j: int| 0 <= j < cands.len() && cands[j] == c;
        assert(id_in_use(entries, id_candidate(base, j as nat)));
        let i = choose|i: int| 0 <= i < entries.len() && #[trigger] entries[i].1.id@ == id_candidate(
            base,
            j as nat,
        );
        assert(ids[i] == c);
    }
    vstd::seq_lib::seq_to_set_is_finite(ids);
    vstd::set_lib::lemma_len_subset(cands.to_set(), ids.to_set());
}

/// `base` with its last eight bytes replaced by the little-endian bytes of `k`.
fn with_counter(base: &[u8; ENTRY_ID_LEN], k: u64) -> (c: [u8; ENTRY_ID_LEN])
    ensures
        c@ == id_candidate(base@, k as nat),
{
    let mut c = *base;
    let low = k % 0x1_0000_0000;
    let high = k / 0x1_0000_0000;
    c[24] = (low % 256) as u8;
    c[25] = ((low / 256) % 256) as u8;
    c[26] = ((low / 65536) % 256) as u8;
    c[27] = ((low / 16777216) % 256) as u8;
    c[28] = (high % 256) as u8;
    c[29] = ((high / 256) % 256) as u8;
    c[30] = ((high / 65536) % 256) as u8;
    c[31] = ((high / 16777216) % 256) as u8;
    assert(c@ =~= id_candidate(base@, k as nat));
    c
}

/// An ID that none of `entries` uses: `base` with its last eight bytes counting up
/// from zero until the ID is unused. There are more candidates than entries, so one
/// is always found.
fn unused_id_from(entries: &Vec<(String, EntryRecordV2)>, base: &[u8; ENTRY_ID_LEN]) -> (id: [u8; ENTRY_ID_LEN])
    ensures
        !id_in_use(entries@, id@),
{
    let n = entries.len();
    let mut k: u64 = 0;
    loop
        invariant
            n == entries@.len(),
            k <= n,
            forall|j: nat| j < k ==> id_in_use(entries@, #[trigger] id_candidate(base@, j)),
        decreases n - k,
    {
        let c = with_counter(base, k);
        if !any_entry_has_id(entries, &c) {
            return c;
        }
        if k as usize == n {
            proof {
                lemma_candidates_not_all_used(entries@, base@, (k + 1) as nat);
            }
        }
        k = k + 1;
    }
}

/// The text of a failed draw is never that of a name already held.
proof fn lemma_draw_failure_is_not_a_duplicate(name: Seq<char>)
    ensures
        no_fresh_id_message() != already_exists_message(name),
{
    reveal_strlit("vault entry already exists: ");
    reveal_strlit("no random bytes from the operating system for a vault entry id");
    assert(no_fresh_id_message()[0] != already_exists_message(name)[0]);
}

/// In a strictly sorted sequence, a name occurs at most once.
pub proof fn lemma_sorted_unique(names: Seq<Seq<char>>, i: int, j: int)
    requires
        strictly_sorted(names),
        0 <= i < names.len(),
        0 <= j < names.len(),
        names[i] == names[j],
    ensures
        i == j,
{
    if i < j {
        lemma_lt_irreflexive(names[i]);
    } else if j < i {
        lemma_lt_irreflexive(names[i]);
    }
}

/// Inserting a name at the place that keeps the order keeps the sequence sorted.
proof fn lemma_sorted_insert(names: Seq<Seq<char>>, p: int, x: Seq<char>)
    requires
        strictly_sorted(names),
        0 <= p <= names.len(),
        forall|k: int| 0 <= k < p ==> name_lt(#[trigger] names[k], x),
        forall|k: int| p <= k < names.len() ==> name_lt(x, #[trigger] names[k]),
    ensures
        strictly_sorted(names.insert(p, x)),
{
    let s = names.insert(p, x);
    assert forall|i: int, j: int| 0 <= i < j < s.len() implies name_lt(#[trigger] s[i], #[trigger] s[j]) by {
        if j < p {
        } else if j == p {
        } else if i < p {
        } else if i == p {
        } else {
        }
    }
}

/// Removing a name keeps the sequence sorted.
proof fn lemma_sorted_remove(names: Seq<Seq<char>>, p: int)
    requires
        strictly_sorted(names),
        0 <= p < names.len(),
    ensures
        strictly_sorted(names.remove(p)),
{
    let s = names.remove(p);
    assert forall|i: int, j: int| 0 <= i < j < s.len() implies name_lt(#[trigger] s[i], #[trigger] s[j]) by {
        if j < p {
        } else if i < p {
            assert(s[j] == names[j + 1]);
        } else {
            assert(s[i] == names[i + 1]);
            assert(s[j] == names[j + 1]);
        }
    }
}

/// Where a name stands among sorted entries: `Err(i)` where the entry at `i` is
/// filed under it, `Ok(p)` for the place that keeps the order where none is.
pub(crate) fn locate_name(entries: &Vec<(String, EntryRecordV2)>, name: &Vec<char>) -> (r: Result<usize, usize>)
    requires
        strictly_sorted(filed_names(entries@)),
    ensures
        r matches Err(i) ==> i < entries@.len() && entries@[i as int].0@ == name@,
        r matches Ok(p) ==> p <= entries@.len() && (forall|k: int|
            0 <= k < p ==> name_lt(#[trigger] filed_names(entries@)[k], name@)) && (forall|k: int|
            p <= k < entries@.len() ==> name_lt(name@, #[trigger] filed_names(entries@)[k])),
        r is Ok <==> position_of(entries@, name@) is None,
{
    let n = entries.len();
    let ghost names = filed_names(entries@);
    for i in 0..n
        invariant
            n == entries@.len(),
            names == filed_names(entries@),
            strictly_sorted(names),
            forall|k: int| 0 <= k < i ==> name_lt(#[trigger] names[k], name@),
    {
        let key = chars_of(entries[i].0.as_str());
        match compare_names(&key, name) {
            NameOrder::Less => {},
            NameOrder::Equal => {
                assert(entries@[i as int].0@ == name@);
                proof {
                    lemma_position_of(entries@, name@);
                }
                return Err(i);
            },
            NameOrder::Greater => {
                assert forall|k: int| i <= k < n implies name_lt(name@, #[trigger] names[k]) by {
                    if k > i {
                        lemma_lt_transitive(name@, names[i as int], names[k]);
                    }
                }
                assert forall|k: int| 0 <= k < n implies #[trigger] entries@[k].0@ != name@ by {
                    assert(names[k] == entries@[k].0@);
                    if k < i {
                        lemma_lt_irreflexive(name@);
                    } else {
                        lemma_lt_irreflexive(name@);
                    }
                }
                proof {
                    lemma_position_of(entries@, name@);
                }
                return Ok(i);
            },
        }
    }
    assert forall|k: int| 0 <= k < n implies #[trigger] entries@[k].0@ != name@ by {
        assert(names[k] == entries@[k].0@);
        lemma_lt_irreflexive(name@);
    }
    proof {
        lemma_position_of(entries@, name@);
    }
    Ok(n)
}

/// Whether one of `entries` has the ID `id`.
pub(crate) fn any_entry_has_id(entries: &Vec<(String, EntryRecordV2)>, id: &[u8; ENTRY_ID_LEN]) -> (b: bool)
    ensures
        b == id_in_use(entries@, id@),
{
    let n = entries.len();
    for i in 0..n
        invariant
            n == entries@.len(),
            forall|k: int| 0 <= k < i ==> #[trigger] entries@[k].1.id@ != id@,
    {
        let mut same = true;
        for j in 0..ENTRY_ID_LEN
            invariant
                i < n,
                n == entries@.len(),
                same == (forall|t: int| 0 <= t < j ==> entries@[i as int].1.id@[t] == id@[t]),
        {
            if entries[i].1.id[j] != id[j] {
                same = false;
            }
        }
        if same {
            assert(entries@[i as int].1.id@ =~= id@);
            return true;
        }
    }
    false
}

/// What `entries` hold: each filed name, mapped to its entry.
pub open spec fn entries_map(entries: Seq<(String, EntryRecordV2)>) -> Map<Seq<char>, EntryRecordV2> {
    Map::new(
        |k: Seq<char>| position_of(entries, k) is Some,
        |k: Seq<char>| entries[position_of(entries, k)->0].1,
    )
}

/// In sorted entries, the position of the name at `i` is `i`.
proof fn lemma_position_of_index(entries: Seq<(String, EntryRecordV2)>, i: int)
    requires
        strictly_sorted(filed_names(entries)),
        0 <= i < entries.len(),
    ensures
        position_of(entries, entries[i].0@) == Some(i),
{
    let k = entries[i].0@;
    lemma_position_of(entries, k);
    let c = position_of(entries, k)->0;
    assert(filed_names(entries)[c] == entries[c].0@);
    assert(filed_names(entries)[i] == entries[i].0@);
    lemma_sorted_unique(filed_names(entries), c, i);
}

/// Filing a new name at its place adds it to what the entries hold.
proof fn lemma_map_insert(s: Seq<(String, EntryRecordV2)>, p: int, x: (String, EntryRecordV2))
    requires
        strictly_sorted(filed_names(s)),
        strictly_sorted(filed_names(s.insert(p, x))),
        0 <= p <= s.len(),
        position_of(s, x.0@) is None,
    ensures
        entries_map(s.insert(p, x)) == entries_map(s).insert(x.0@, x.1),
{
    let t = s.insert(p, x);
    let m = entries_map(s).insert(x.0@, x.1);
    lemma_position_of_index(t, p);
    assert forall|k: Seq<char>| #[trigger] m.dom().contains(k) implies entries_map(t).dom().contains(k)
        && entries_map(t)[k] == m[k] by {
        if k != x.0@ {
            lemma_position_of(s, k);
            let j = position_of(s, k)->0;
            assert(s[j].0@ == k);
            let jj = if j < p { j } else { j + 1 };
            assert(t[jj] == s[j]);
            lemma_position_of_index(t, jj);
            lemma_position_of_index(s, j);
        }
    }
    assert forall|k: Seq<char>| #[trigger] entries_map(t).dom().contains(k) implies m.dom().contains(k) by {
        lemma_position_of(s, k);
        lemma_position_of(t, k);
        let j = position_of(t, k)->0;
        assert(t[j].0@ == k);
        if j < p {
            assert(s[j].0@ == k);
        } else if j > p {
            assert(s[j - 1].0@ == k);
        }
    }
    assert(entries_map(t) =~= m);
}

/// Taking out the entry at `i` removes its name from what the entries hold.
proof fn lemma_map_remove(s: Seq<(String, EntryRecordV2)>, i: int)
    requires
        strictly_sorted(filed_names(s)),
        0 <= i < s.len(),
    ensures
        strictly_sorted(filed_names(s.remove(i))),
        entries_map(s.remove(i)) == entries_map(s).remove(s[i].0@),
{
    let t = s.remove(i);
    assert(filed_names(t) =~= filed_names(s).remove(i));
    lemma_sorted_remove(filed_names(s), i);
    let m = entries_map(s).remove(s[i].0@);
    assert forall|k: Seq<char>| #[trigger] m.dom().contains(k) implies entries_map(t).dom().contains(k)
        && entries_map(t)[k] == m[k] by {
        lemma_position_of(s, k);
        let j = position_of(s, k)->0;
        assert(s[j].0@ == k);
        lemma_position_of_index(s, j);
        let jj = if j < i { j } else { j - 1 };
        assert(j != i);
        assert(t[jj] == s[j]);
        lemma_position_of_index(t, jj);
    }
    assert forall|k: Seq<char>| #[trigger] entries_map(t).dom().contains(k) implies m.dom().contains(k) by {
        lemma_position_of(s, k);
        lemma_position_of(t, k);
        let j = position_of(t, k)->0;
        assert(t[j].0@ == k);
        let jj = if j < i { j } else { j + 1 };
        assert(s[jj] == t[j]);
        lemma_position_of_index(s, jj);
        lemma_position_of_index(s, i);
        if k == s[i].0@ {
            assert(jj == i);
        }
    }
    assert(entries_map(t) =~= m);
}

/// Replacing the entry at `i`, under the same name, maps that name to the new entry.
proof fn lemma_map_replace(s: Seq<(String, EntryRecordV2)>, i: int, x: (String, EntryRecordV2))
    requires
        strictly_sorted(filed_names(s)),
        0 <= i < s.len(),
        x.0@ == s[i].0@,
    ensures
        strictly_sorted(filed_names(s.update(i, x))),
        entries_map(s.update(i, x)) == entries_map(s).insert(x.0@, x.1),
{
    let t = s.update(i, x);
    assert(filed_names(t) =~= filed_names(s));
    let m = entries_map(s).insert(x.0@, x.1);
    lemma_position_of_index(s, i);
    lemma_position_of_index(t, i);
    assert forall|k: Seq<char>| #[trigger] m.dom().contains(k) implies entries_map(t).dom().contains(k)
        && entries_map(t)[k] == m[k] by {
        if k != x.0@ {
            lemma_position_of(s, k);
            let j = position_of(s, k)->0;
            assert(s[j].0@ == k);
            assert(t[j] == s[j]);
            lemma_position_of_index(t, j);
            lemma_position_of_index(s, j);
        }
    }
    assert forall|k: Seq<char>| #[trigger] entries_map(t).dom().contains(k) implies m.dom().contains(k) by {
        lemma_position_of(s, k);
        lemma_position_of(t, k);
        let j = position_of(t, k)->0;
        assert(t[j].0@ == k);
        if j != i {
            assert(s[j].0@ == k);
        }
    }
    assert(entries_map(t) =~= m);
}

impl VaultMetaV2 {
    /// Well-formed: the entries are in strictly increasing name order, so no name
    /// occurs twice.
    pub open spec fn wf(&self) -> bool {
        strictly_sorted(filed_names(self.entries_by_name@))
    }

    /// What the metadata holds: each filed name, mapped to its entry.
    pub open spec fn entries(&self) -> Map<Seq<char>, EntryRecordV2> {
        entries_map(self.entries_by_name@)
    }

    /// The fields other than the entries are those of `other`.
    pub open spec fn same_header(&self, other: Self) -> bool {
        &&& self.name == other.name
        &&& self.version == other.version
        &&& self.vault_id == other.vault_id
        &&& self.created_at == other.created_at
    }

    /// A fresh version 2 metadata record named `name`, version 2, with a random
    /// vault ID, the current time as its creation time, and no entries. Any name
    /// is taken; it fails only where the operating system supplies no random bytes,
    /// with a text that says so.
    pub fn new(name: &str) -> (r: Result<Self, String>)
        ensures
            r matches Ok(m) ==> m.wf() && m.name@ == name@ && m.version == VAULT_META_VERSION_V2
                && m.entries_by_name@.len() == 0 && m.entries() == Map::<
                Seq<char>,
                EntryRecordV2,
            >::empty() && exists|n: u64| m.created_at@ == decimal(n as nat),
            r matches Err(m) ==> is_random_failure(m@),
    {
        let vault_id: [u8; VAULT_ID_LEN] = draw_random()?;
        let m = VaultMetaV2 {
            name: string_of(name),
            version: VAULT_META_VERSION_V2,
            vault_id,
            created_at: epoch_seconds_now(),
            entries_by_name: Vec::new(),
        };
        assert(m.entries() =~= Map::<Seq<char>, EntryRecordV2>::empty());
        Ok(m)
    }

    /// The position of the entry filed under `name`, if any.
    pub fn find_entry(&self, name: &str) -> (r: Option<usize>)
        requires
            self.wf(),
        ensures
            match r {
                Some(i) => position_of(self.entries_by_name@, name@) == Some(i as int) && i
                    < self.entries_by_name@.len() && self.entries_by_name@[i as int].0@ == name@,
                None => position_of(self.entries_by_name@, name@) is None,
            },
            self.entries().dom().contains(name@) <==> r is Some,
    {
        let name_chars = chars_of(name);
        match locate_name(&self.entries_by_name, &name_chars) {
            Err(i) => {
                proof {
                    lemma_position_of_index(self.entries_by_name@, i as int);
                    lemma_position_of(self.entries_by_name@, name@);
                }
                Some(i)
            },
            Ok(_) => None,
        }
    }

    /// The entry filed under `name`, if any.
    pub fn get_entry(&self, name: &str) -> (r: Option<&EntryRecordV2>)
        requires
            self.wf(),
        ensures
            match r {
                Some(e) => self.entries().dom().contains(name@) && *e == self.entries()[name@],
                None => !self.entries().dom().contains(name@),
            },
    {
        match self.find_entry(name) {
            Some(i) => Some(&self.entries_by_name[i].1),
            None => None,
        }
    }

    /// Files `record` under `name`, replacing the entry filed there if any (which is
    /// returned), as `BTreeMap::insert` does.
    pub fn file_entry(&mut self, name: &str, record: EntryRecordV2) -> (r: Option<EntryRecordV2>)
        requires
            old(self).wf(),
        ensures
            final(self).wf(),
            final(self).same_header(*old(self)),
            final(self).entries() == old(self).entries().insert(name@, record),
            old(self).entries().dom().contains(name@) ==> r == Some(old(self).entries()[name@]),
            !old(self).entries().dom().contains(name@) ==> r is None,
    {
        let name_chars = chars_of(name);
        let key = string_of(name);
        let ghost x = (key, record);
        let ghost before = self.entries_by_name@;
        match locate_name(&self.entries_by_name, &name_chars) {
            Err(i) => {
                let (_, previous) = self.entries_by_name.remove(i);
                self.entries_by_name.insert(i, (key, record));
                proof {
                    assert(self.entries_by_name@ =~= before.update(i as int, x));
                    lemma_map_replace(before, i as int, x);
                    lemma_position_of_index(before, i as int);
                }
                Some(previous)
            },
            Ok(p) => {
                self.entries_by_name.insert(p, (key, record));
                proof {
                    lemma_sorted_insert(filed_names(before), p as int, name@);
                    assert(filed_names(self.entries_by_name@) =~= filed_names(before).insert(
                        p as int,
                        name@,
                    ));
                    lemma_map_insert(before, p as int, x);
                }
                None
            },
        }
    }

    /// Takes out the entry filed under `name`, if any, as `BTreeMap::remove` does.
    pub fn take_entry(&mut self, name: &str) -> (r: Option<EntryRecordV2>)
        requires
            old(self).wf(),
        ensures
            final(self).wf(),
            final(self).same_header(*old(self)),
            final(self).entries() == old(self).entries().remove(name@),
            old(self).entries().dom().contains(name@) ==> r == Some(old(self).entries()[name@]),
            !old(self).entries().dom().contains(name@) ==> r is None && final(self).entries_by_name@
                == old(self).entries_by_name@,
    {
        let ghost before = self.entries_by_name@;
        match self.find_entry(name) {
            Some(i) => {
                let (_, previous) = self.entries_by_name.remove(i);
                proof {
                    lemma_map_remove(before, i as int);
                }
                Some(previous)
            },
            None => {
                assert(entries_map(before).remove(name@) =~= entries_map(before));
                None
            },
        }
    }

    /// A new entry for `original_name` with a random ID that none of the entries
    /// uses: the draw is repeated while it hits an ID in use, and should `u64::MAX`
    /// further draws all hit one, the last draw's final eight bytes count up until
    /// the ID is unused. It fails only where the operating system supplies no random
    /// bytes.
    pub fn draw_fresh_entry(&self, original_name: &str, size_bytes: u64) -> (r: Result<EntryRecordV2, String>)
        ensures
            r matches Ok(e) ==> e.original_name@ == original_name@ && e.size_bytes == size_bytes
                && !id_in_use(self.entries_by_name@, e.id@) && exists|n: u64|
                e.added_at@ == decimal(n as nat),
            r matches Err(m) ==> m@ == no_fresh_id_message(),
            r matches Err(m) ==> is_random_failure(m@),
    {
        proof {
            lemma_no_fresh_id_is_random_failure();
        }
        let mut entry = match EntryRecordV2::new(original_name, size_bytes) {
            Ok(entry) => entry,
            Err(_) => return Err(string_of("no random bytes from the operating system for a vault entry id")),
        };
        let mut attempts: u64 = 0;
        loop
            invariant
                entry.original_name@ == original_name@,
                entry.size_bytes == size_bytes,
                exists|n: u64| entry.added_at@ == decimal(n as nat),
                is_random_failure(no_fresh_id_message()),
            ensures
                entry.original_name@ == original_name@,
                entry.size_bytes == size_bytes,
                exists|n: u64| entry.added_at@ == decimal(n as nat),
                !id_in_use(self.entries_by_name@, entry.id@),
            decreases u64::MAX - attempts,
        {
            if !any_entry_has_id(&self.entries_by_name, &entry.id) {
                break;
            }
            if attempts == u64::MAX {
                entry.id = unused_id_from(&self.entries_by_name, &entry.id);
                break;
            }
            attempts = attempts + 1;
            entry = match EntryRecordV2::new(original_name, size_bytes) {
                Ok(entry) => entry,
                Err(_) => return Err(string_of("no random bytes from the operating system for a vault entry id")),
            };
        }
        Ok(entry)
    }

    /// Adds an entry named `original_name` with a random ID that no entry uses yet,
    /// stamped with the current time.
    ///
    /// Fails, leaving the metadata unchanged, where an entry of that name exists, or
    /// where the operating system supplies no random bytes. Otherwise the new entry is filed under its
    /// name and nothing else changes.
    pub fn insert_entry(&mut self, original_name: &str, size_bytes: u64) -> (r: Result<(), String>)
        requires
            old(self).wf(),
        ensures
            final(self).wf(),
            final(self).same_header(*old(self)),
            old(self).entries().dom().contains(original_name@) ==> (r matches Err(m) && m@
                == already_exists_message(original_name@)),
            !old(self).entries().dom().contains(original_name@) ==> (r is Ok || (r matches Err(m)
                && m@ == no_fresh_id_message())),
            !old(self).entries().dom().contains(original_name@) ==> (r is Ok || (r matches Err(m)
                && is_random_failure(m@))),
            r matches Err(m) && m@ == already_exists_message(original_name@) ==> old(
                self,
            ).entries().dom().contains(original_name@),
            r is Err ==> final(self).entries_by_name@ == old(self).entries_by_name@,
            r is Ok ==> !old(self).entries().dom().contains(original_name@) && exists|e: EntryRecordV2|
                final(self).entries() == #[trigger] old(self).entries().insert(original_name@, e)
                    && e.original_name@ == original_name@ && e.size_bytes == size_bytes
                    && !id_in_use(old(self).entries_by_name@, e.id@),
    {
        if self.find_entry(original_name).is_some() {
            let mut message = string_of("vault entry already exists: ");
            push_str(&mut message, original_name);
            return Err(message);
        }
        proof {
            lemma_draw_failure_is_not_a_duplicate(original_name@);
        }
        let entry = self.draw_fresh_entry(original_name, size_bytes)?;
        let ghost e = entry;
        self.file_entry(original_name, entry);
        Ok(())
    }

    /// The listing of all entries, in name order.
    pub fn list_entries(&self) -> (list: Vec<EntryMeta>)
        ensures
            list@.len() == self.entries_by_name@.len(),
            forall|i: int|
                0 <= i < list@.len() ==> lists(#[trigger] list@[i], self.entries_by_name@[i].1),
    {
        let mut list: Vec<EntryMeta> = Vec::new();
        let n = self.entries_by_name.len();
        for i in 0..n
            invariant
                n == self.entries_by_name@.len(),
                list@.len() == i,
                forall|k: int| 0 <= k < i ==> lists(#[trigger] list@[k], self.entries_by_name@[k].1),
        {
            list.push(EntryMeta::from_v2(&self.entries_by_name[i].1));
        }
        list
    }
}

/// `item` is the listing of `entry`.
pub open spec fn lists(item: EntryMeta, entry: EntryRecordV2) -> bool {
    &&& item.id@ == hex_spec(entry.id@)
    &&& item.original_name@ == entry.original_name@
    &&& item.added_at@ == entry.added_at@
    &&& item.size_bytes == entry.size_bytes
}

/// What a read gives back of a write: after filing an entry under a name, that
/// name holds the entry, and every other name holds what it held before.
pub proof fn lemma_file_then_get(m: Map<Seq<char>, EntryRecordV2>, name: Seq<char>, e: EntryRecordV2, other: Seq<char>)
    requires
        other != name,
    ensures
        m.insert(name, e).dom().contains(name),
        m.insert(name, e)[name] == e,
        m.insert(name, e).dom().contains(other) == m.dom().contains(other),
        m.dom().contains(other) ==> m.insert(name, e)[other] == m[other],
{
}

/// Taking out an entry that was filed under a new name gives back what the
/// metadata held before.
pub proof fn lemma_file_then_take(m: Map<Seq<char>, EntryRecordV2>, name: Seq<char>, e: EntryRecordV2)
    requires
        !m.dom().contains(name),
    ensures
        m.insert(name, e).remove(name) == m,
{
    assert(m.insert(name, e).remove(name) =~= m);
}

/// Filing back the entry that was taken out gives back what the metadata held.
pub proof fn lemma_take_then_file(m: Map<Seq<char>, EntryRecordV2>, name: Seq<char>)
    requires
        m.dom().contains(name),
    ensures
        m.remove(name).insert(name, m[name]) == m,
{
    assert(m.remove(name).insert(name, m[name]) =~= m);
}

} // verus!

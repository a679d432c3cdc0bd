//! What a remote monitor needs of the application: the table of storages it may reach,
//! each with the access keys that open it, and the messages of its handshake.
use vstd::prelude::*;

use sha2::Digest;

use crate::storage::Storage;

verus! {

/// A SHA-512 digest.
pub type Hash512 = [u8; 64];

/// The SHA-512 digest of some bytes.
pub uninterp spec fn sha512_of(data: Seq<u8>) -> Seq<u8>;

/// Calls `sha2::Sha512` on `data`, feeding it whole, and returns the 64 bytes of the
/// digest; nothing more than that it is the digest of `data` is claimed.
#[verifier::external_body]
fn sha512(data: &[u8]) -> (r: Hash512)
    ensures
        r@ == sha512_of(data@),
{
    let mut hasher = sha2::Sha512::new();
    hasher.update(data);
    hasher.finalize().into()
}

/// Whether two digests hold the same bytes.
fn same_hash(a: &Hash512, b: &Hash512) -> (r: bool)
    ensures
        r == (a@ == b@),
{
    let mut i: usize = 0;
    while i < 64
        invariant
            i <= 64,
            a@.len() == 64,
            b@.len() == 64,
            forall|j: int| 0 <= j < i ==> a@[j] == b@[j],
        decreases 64 - i,
    {
        if a[i] != b[i] {
            return false;
        }
        i = i + 1;
    }
    proof {
        assert(a@ =~= b@);
    }
    true
}

/// No two access keys hold the same bytes.
pub open spec fn distinct_hashes(s: Seq<(Hash512, bool)>) -> bool {
    forall|i: int, j: int| 0 <= i < s.len() && 0 <= j < s.len() && i != j ==> (#[trigger] s[i]).0@ != (#[trigger] s[j]).0@
}

/// No two entries carry the same name.
pub open spec fn distinct_names<V>(s: Seq<(String, V)>) -> bool {
    forall|i: int, j: int| 0 <= i < s.len() && 0 <= j < s.len() && i != j ==> (#[trigger] s[i]).0@ != (#[trigger] s[j]).0@
}

/// `new` is the table `old` with the entry `e` put in: it replaces the entry of the same
/// name, or comes last where there is none.
pub open spec fn table_put(old: Seq<(String, StorageDesc)>, new: Seq<(String, StorageDesc)>, e: (String, StorageDesc)) -> bool {
    if exists|i: int| 0 <= i < old.len() && (#[trigger] old[i]).0@ == e.0@ {
        let i = choose|i: int| 0 <= i < old.len() && (#[trigger] old[i]).0@ == e.0@;
        new == old.update(i, e)
    } else {
        new == old.push(e)
    }
}

/// The access keys by their bytes, each with its grant.
pub open spec fn keys_view(s: Seq<(Hash512, bool)>) -> Seq<(Seq<u8>, bool)> {
    s.map_values(|e: (Hash512, bool)| (e.0@, e.1))
}

/// `new` is the list of access keys `old` with the key `key` put in, granting writing
/// where `grant`: it replaces the entry with the same bytes, or comes last.
pub open spec fn keys_put(old: Seq<(Hash512, bool)>, new: Seq<(Hash512, bool)>, key: Seq<u8>, grant: bool) -> bool {
    if exists|i: int| 0 <= i < old.len() && (#[trigger] old[i]).0@ == key {
        let i = choose|i: int| 0 <= i < old.len() && (#[trigger] old[i]).0@ == key;
        keys_view(new) == keys_view(old).update(i, (key, grant))
    } else {
        keys_view(new) == keys_view(old).push((key, grant))
    }
}

/// A registered storage: its handle, and the access keys that open it, each with whether
/// it grants writing.
pub struct StorageDesc {
    pub handle: Storage,
    pub access_keys: Vec<(Hash512, bool)>,
}

/// Table of storage descriptions. The key is the registered name of a storage.
pub struct StorageTable {
    pub entries: Vec<(String, StorageDesc)>,
}

/// A storage description being built, to be put into its table by `submit`.
pub struct StorageDescBuilderProxy {
    pub owner: StorageTable,
    pub key: String,
    pub desc: StorageDesc,
}

impl StorageTable {
    /// An empty table.
    pub fn new() -> (r: StorageTable)
        ensures
            r.entries@.len() == 0,
    {
        StorageTable { entries: Vec::new() }
    }

    /// Starts the description of `storage` under the name `name`, without access keys.
    pub fn entry(self, name: &str, storage: Storage) -> (r: StorageDescBuilderProxy)
        ensures
            r.owner == self,
            r.key@ == name@,
            r.desc.handle == storage,
            r.desc.access_keys@.len() == 0,
    {
        StorageDescBuilderProxy {
            owner: self,
            key: name.to_string(),
            desc: StorageDesc { handle: storage, access_keys: Vec::new() },
        }
    }
}

impl StorageDescBuilderProxy {
    /// Adds the access key `key`, granting writing where `grant_write`; a key already
    /// present gets the new grant.
    pub fn add_access_key_raw(self, key: Hash512, grant_write: bool) -> (r: StorageDescBuilderProxy)
        requires
            distinct_hashes(self.desc.access_keys@),
        ensures
            distinct_hashes(r.desc.access_keys@),
            keys_put(self.desc.access_keys@, r.desc.access_keys@, key@, grant_write),
            r.owner == self.owner,
            r.key == self.key,
            r.desc.handle == self.desc.handle,
    {
        let mut this = self;
        let ghost old_keys = this.desc.access_keys@;
        let ghost orig = this;
        let mut i: usize = 0;
        while i < this.desc.access_keys.len()
            invariant
                distinct_hashes(old_keys),
                orig == self,
                old_keys == self.desc.access_keys@,
                this.owner == orig.owner,
                this.key == orig.key,
                this.desc.handle == orig.desc.handle,
                i <= this.desc.access_keys@.len(),
                this.desc.access_keys@ == old_keys,
                forall|j: int| 0 <= j < i ==> (#[trigger] old_keys[j]).0@ != key@,
            decreases this.desc.access_keys@.len() - i,
        {
            if same_hash(&this.desc.access_keys[i].0, &key) {
                this.desc.access_keys.set(i, (key, grant_write));
                proof {
                    assert(old_keys[i as int].0@ == key@);
                    let k = choose|k: int| 0 <= k < old_keys.len() && (#[trigger] old_keys[k]).0@ == key@;
                    if k != i {
                        assert(old_keys[k].0@ == old_keys[i as int].0@);
                    }
                    assert(keys_view(this.desc.access_keys@) =~= keys_view(old_keys).update(i as int, (key@, grant_write)));
                    assert forall|a: int, b: int|
                        0 <= a < this.desc.access_keys@.len() && 0 <= b < this.desc.access_keys@.len() && a != b implies (
                        #[trigger] this.desc.access_keys@[a]).0@ != (#[trigger] this.desc.access_keys@[b]).0@ by {
                        assert(old_keys[a].0@ != old_keys[b].0@);
                    }
                }
                return this;
            }
            i = i + 1;
        }
        this.desc.access_keys.push((key, grant_write));
        proof {
            assert(keys_view(this.desc.access_keys@) =~= keys_view(old_keys).push((key@, grant_write)));
            assert forall|a: int, b: int|
                0 <= a < this.desc.access_keys@.len() && 0 <= b < this.desc.access_keys@.len() && a != b implies (
                #[trigger] this.desc.access_keys@[a]).0@ != (#[trigger] this.desc.access_keys@[b]).0@ by {
                if a < old_keys.len() && b < old_keys.len() {
                    assert(old_keys[a].0@ != old_keys[b].0@);
                } else if a < old_keys.len() {
                    assert(old_keys[a].0@ != key@);
                } else {
                    assert(old_keys[b].0@ != key@);
                }
            }
        }
        this
    }

    /// Adds the SHA-512 digest of `passphrase` as an access key, granting writing where
    /// `grant_write`.
    pub fn add_access_key(self, passphrase: &[u8], grant_write: bool) -> (r: StorageDescBuilderProxy)
        requires
            distinct_hashes(self.desc.access_keys@),
        ensures
            distinct_hashes(r.desc.access_keys@),
            keys_put(self.desc.access_keys@, r.desc.access_keys@, sha512_of(passphrase@), grant_write),
            r.owner == self.owner,
            r.key == self.key,
            r.desc.handle == self.desc.handle,
    {
        let key = sha512(passphrase);
        self.add_access_key_raw(key, grant_write)
    }

    /// Puts the description into the table under its name, replacing any description of
    /// the same name, and hands the table back.
    pub fn submit(self) -> (r: StorageTable)
        requires
            distinct_names(self.owner.entries@),
        ensures
            distinct_names(r.entries@),
            table_put(self.owner.entries@, r.entries@, (self.key, self.desc)),
    {
        let StorageDescBuilderProxy { owner, key, desc } = self;
        let mut table = owner;
        let ghost old_entries = table.entries@;
        let ghost e = (key, desc);
        let mut i: usize = 0;
        while i < table.entries.len()
            invariant
                distinct_names(old_entries),
                old_entries == self.owner.entries@,
                e == (self.key, self.desc),
                e == (key, desc),
                i <= table.entries@.len(),
                table.entries@ == old_entries,
                forall|j: int| 0 <= j < i ==> (#[trigger] old_entries[j]).0@ != key@,
            decreases table.entries@.len() - i,
        {
            if table.entries[i].0 == key {
                table.entries.set(i, (key, desc));
                proof {
                    assert(old_entries[i as int].0@ == e.0@);
                    let k = choose|k: int| 0 <= k < old_entries.len() && (#[trigger] old_entries[k]).0@ == e.0@;
                    if k != i {
                        assert(old_entries[k].0@ == old_entries[i as int].0@);
                    }
                    assert forall|a: int, b: int|
                        0 <= a < table.entries@.len() && 0 <= b < table.entries@.len() && a != b implies (
                        #[trigger] table.entries@[a]).0@ != (#[trigger] table.entries@[b]).0@ by {
                        assert(old_entries[a].0@ != old_entries[b].0@);
                    }
                }
                return table;
            }
            i = i + 1;
        }
        table.entries.push((key, desc));
        proof {
            assert forall|a: int, b: int|
                0 <= a < table.entries@.len() && 0 <= b < table.entries@.len() && a != b implies (
                #[trigger] table.entries@[a]).0@ != (#[trigger] table.entries@[b]).0@ by {
                if a < old_entries.len() && b < old_entries.len() {
                    assert(old_entries[a].0@ != old_entries[b].0@);
                } else if a < old_entries.len() {
                    assert(old_entries[a].0@ != key@);
                } else {
                    assert(old_entries[b].0@ != key@);
                }
            }
        }
        table
    }
}

/* ------------------------------------------------------------------------------------------ */
/*                                          Handshake                                         */
/* ------------------------------------------------------------------------------------------ */

/// What a monitor session may do, from least to most.
#[derive(Debug, Clone, Copy, PartialEq, Eq, Structural, PartialOrd, Ord)]
pub enum AuthLevel {
    /// May participate in chatting.
    Chat,
    /// May inspect logging output.
    InspectLog,
    /// May access configuration storages.
    InspectConfig,
    /// May modify configuration storages.
    ModifyConfig,
    /// Can do anything.
    Admin,
}

/// What the system tells a monitor about itself.
#[derive(Debug, Clone)]
pub struct SystemIntroduce {
    pub system_name: String,
    pub monitor_version: String,
    pub system_description: String,
    pub desktop_name: String,
    pub num_cores: usize,
    pub epoch_utc: u64,
}

/// A login: the user id and the SHA-512 digest of the password.
#[derive(Debug)]
pub struct LoginRequest {
    pub id: String,
    pub passwd_hash: Vec<u8>,
}

impl LoginRequest {
    /// A login of `id` with the password `passwd`, of which only the digest is kept.
    pub fn new(id: String, passwd: &str) -> (r: LoginRequest)
        ensures
            r.id == id,
            r.passwd_hash@ == sha512_of(vstd::utf8::encode_utf8(passwd@)),
    {
        let digest = sha512(passwd.as_bytes());
        LoginRequest { id, passwd_hash: vstd::slice::slice_to_vec(digest.as_slice()) }
    }

    /// The user id.
    pub fn id(&self) -> (r: &String)
        ensures
            *r == self.id,
    {
        &self.id
    }

    /// The digest of the password.
    pub fn passwd_hash(&self) -> (r: &Vec<u8>)
        ensures
            *r == self.passwd_hash,
    {
        &self.passwd_hash
    }
}

/// The answer to a login.
#[derive(Debug, Clone, Copy)]
pub struct LoginResult {
    pub auth_level: AuthLevel,
}

/// Collects the trace events of a system for its monitors.
pub struct Subscriber {}

} // verus!

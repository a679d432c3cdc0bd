use sha2::Digest;

use config_it::access::{Authority, ADMIN, MODIFY_SITE_CONFIG};
use config_it::common::PathHash;
use config_it::dashboard::UIState;
use config_it::monitor::{AuthLevel, LoginRequest, StorageTable};
use config_it::storage::Storage;
use config_it::web::PublicPath;

fn digest(data: &[u8]) -> [u8; 64] {
    let mut h = sha2::Sha512::new();
    h.update(data);
    h.finalize().into()
}

#[test]
fn storage_table_entries() {
    let table = StorageTable::new();
    let table = table.entry("main", Storage::new()).add_access_key_raw([1u8; 64], false).submit();
    assert_eq!(table.entries.len(), 1);
    assert_eq!(table.entries[0].0, "main");
    assert_eq!(table.entries[0].1.access_keys, vec![([1u8; 64], false)]);

    let table = table
        .entry("other", Storage::new())
        .add_access_key_raw([2u8; 64], false)
        .add_access_key_raw([3u8; 64], true)
        .add_access_key_raw([2u8; 64], true)
        .submit();
    assert_eq!(table.entries.len(), 2);
    assert_eq!(table.entries[1].1.access_keys, vec![([2u8; 64], true), ([3u8; 64], true)]);

    // A second description under the same name replaces the first, in place.
    let table = table.entry("main", Storage::new()).submit();
    assert_eq!(table.entries.len(), 2);
    assert_eq!(table.entries[0].0, "main");
    assert!(table.entries[0].1.access_keys.is_empty());
}

#[test]
fn access_keys_from_passphrases() {
    let table = StorageTable::new()
        .entry("s", Storage::new())
        .add_access_key(b"secret", true)
        .submit();
    assert_eq!(table.entries[0].1.access_keys, vec![(digest(b"secret"), true)]);
    assert_ne!(digest(b"secret"), digest(b"secreT"));
}

#[test]
fn login_request_keeps_only_the_digest() {
    let r = LoginRequest::new("alice".to_string(), "pw");
    assert_eq!(r.id(), "alice");
    assert_eq!(r.passwd_hash().as_slice(), &digest(b"pw")[..]);
    assert_eq!(r.passwd_hash().len(), 64);
}

#[test]
fn auth_levels_are_ordered() {
    assert!(AuthLevel::Chat < AuthLevel::InspectLog);
    assert!(AuthLevel::InspectConfig < AuthLevel::ModifyConfig);
    assert!(AuthLevel::ModifyConfig < AuthLevel::Admin);
}

#[test]
fn administrative_authority_is_empty() {
    let a = Authority::administrative();
    assert_eq!(a.bits, 0);
    assert!(!a.contains(ADMIN));
    let b = Authority::from_bits(ADMIN | MODIFY_SITE_CONFIG);
    assert!(b.contains(ADMIN));
    assert!(b.contains(MODIFY_SITE_CONFIG | ADMIN));
    assert!(!b.contains(0x02));
}

#[test]
fn defaults() {
    assert!(matches!(PublicPath::default(), PublicPath::Path(p) if p == "static"));
    let n: u32 = config_it::dashboard::default();
    assert_eq!(n, 0);
    let s: String = config_it::dashboard::default();
    assert!(s.is_empty());
    let _ui: UIState = config_it::dashboard::default();
}

#[test]
fn path_hashes() {
    assert_eq!(PathHash::new(&["a", "b"]), PathHash::new(&["a", "b"]));
    assert_ne!(PathHash::new(&["a", "b"]), PathHash::new(&["ab"]));
    assert_ne!(PathHash::new(&["a", "b"]), PathHash::new(&["b", "a"]));
}

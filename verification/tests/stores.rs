use broker::server::datatypes::PeerAddress;
use broker::server::stores::{CrudStore, LoginStore};

fn peer(port: u16) -> PeerAddress {
    PeerAddress { host: 0x7f00_0001, port }
}

#[test]
fn crud_store_creates_reads_updates_and_removes() {
    let mut store = CrudStore::<String>::new();
    assert_eq!(store.len(), 0);
    assert_eq!(store.get(1), None);
    store.insert(1, "one".to_string());
    store.insert(2, "two".to_string());
    assert_eq!(store.get(1), Some("one".to_string()));
    assert!(store.contains(2));
    store.update(2, "TWO".to_string());
    assert_eq!(store.get(2), Some("TWO".to_string()));
    store.update(3, "three".to_string());
    assert_eq!(store.get(3), None);
    assert_eq!(store.len(), 2);
    store.remove(1);
    store.remove(1);
    assert_eq!(store.get(1), None);
    assert_eq!(store.len(), 1);
}

#[test]
fn crud_store_lists_every_entry_once() {
    let mut store = CrudStore::<u8>::default();
    for id in 0..20u128 {
        store.insert(id, id as u8);
    }
    let mut all = store.get_all();
    all.sort();
    assert_eq!(all, (0..20u128).map(|id| (id, id as u8)).collect::<Vec<_>>());
}

#[test]
fn crud_store_counts_by_predicate() {
    let mut store = CrudStore::<u32>::new();
    for id in 0..10u128 {
        store.insert(id, id as u32);
    }
    assert_eq!(store.count(|v| *v % 3 == 0), 4);
    assert_eq!(store.count(|_| false), 0);
    assert_eq!(store.count(|_| true), 10);
}

#[test]
fn crud_store_creates_under_version_four_identifiers() {
    let mut store = CrudStore::<u8>::new();
    let first = store.create(1);
    let second = store.create(2);
    assert_ne!(first, second);
    for id in [first, second] {
        assert_eq!((id >> 76) & 0xf, 4);
        assert_eq!((id >> 62) & 0x3, 2);
    }
    assert_eq!(store.get(first), Some(1));
    assert_eq!(store.get(second), Some(2));
    assert_eq!(store.len(), 2);
}

#[test]
fn login_store_remembers_the_latest_name() {
    let mut logins = LoginStore::new();
    assert_eq!(logins.get_login(&peer(1)), None);
    assert!(logins.check_login(&peer(1)).is_err());
    logins.log_peer_in(peer(1), "alice".to_string());
    logins.log_peer_in(peer(2), "bob".to_string());
    assert_eq!(logins.get_login(&peer(1)), Some("alice".to_string()));
    assert_eq!(logins.check_login(&peer(2)), Ok("bob".to_string()));
    logins.log_peer_in(peer(1), "carol".to_string());
    assert_eq!(logins.get_login(&peer(1)), Some("carol".to_string()));
    assert_eq!(logins.get_login(&peer(2)), Some("bob".to_string()));
    logins.log_peer_out(&peer(1));
    logins.log_peer_out(&peer(1));
    assert_eq!(logins.get_login(&peer(1)), None);
    assert_eq!(logins.get_login(&peer(2)), Some("bob".to_string()));
}

#[test]
fn login_store_tells_peers_apart_by_host_and_port() {
    let mut logins = LoginStore::default();
    logins.log_peer_in(PeerAddress { host: 1, port: 80 }, "a".to_string());
    assert_eq!(logins.get_login(&PeerAddress { host: 1, port: 81 }), None);
    assert_eq!(logins.get_login(&PeerAddress { host: 2, port: 80 }), None);
    assert_eq!(logins.get_login(&PeerAddress { host: 1, port: 80 }), Some("a".to_string()));
}

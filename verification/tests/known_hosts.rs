use ozendb::known_hosts::{classify, HostKeyCheck, KnownHostsStore};

fn store_in_memory() -> KnownHostsStore {
    KnownHostsStore::new()
}

#[test]
fn classify_unknown_when_nothing_stored() {
    assert_eq!(classify(None, "ssh-ed25519 AAAA"), HostKeyCheck::Unknown);
}

#[test]
fn classify_match_when_equal() {
    assert_eq!(
        classify(Some("ssh-ed25519 AAAA"), "ssh-ed25519 AAAA"),
        HostKeyCheck::Match
    );
}

#[test]
fn classify_changed_when_different() {
    assert_eq!(
        classify(Some("ssh-ed25519 AAAA"), "ssh-ed25519 BBBB"),
        HostKeyCheck::Changed
    );
}

#[test]
fn check_is_unknown_then_match_after_record() {
    let mut store = store_in_memory();
    assert_eq!(
        store.check("bastion.example.com", 22, "ssh-ed25519 AAAA"),
        HostKeyCheck::Unknown
    );
    store.record("bastion.example.com", 22, "ssh-ed25519 AAAA");
    assert_eq!(
        store.check("bastion.example.com", 22, "ssh-ed25519 AAAA"),
        HostKeyCheck::Match
    );
}

#[test]
fn check_is_changed_when_key_differs() {
    let mut store = store_in_memory();
    store.record("bastion.example.com", 22, "ssh-ed25519 AAAA");
    assert_eq!(
        store.check("bastion.example.com", 22, "ssh-ed25519 BBBB"),
        HostKeyCheck::Changed
    );
}

#[test]
fn record_does_not_duplicate_on_retrust() {
    let mut store = store_in_memory();
    store.record("bastion.example.com", 22, "ssh-ed25519 AAAA");
    // Re-trust with a new key (e.g. after a remove) replaces, not appends.
    store.record("bastion.example.com", 22, "ssh-ed25519 BBBB");
    let hosts = store.load_all();
    assert_eq!(hosts.len(), 1);
    assert_eq!(hosts[0].key, "ssh-ed25519 BBBB");
}

#[test]
fn remove_forgets_only_the_named_host() {
    let mut store = store_in_memory();
    store.record("a.example.com", 22, "ssh-ed25519 AAAA");
    store.record("b.example.com", 22, "ssh-ed25519 BBBB");
    store.remove("a.example.com", 22);
    let hosts = store.load_all();
    assert_eq!(hosts.len(), 1);
    assert_eq!(hosts[0].host, "b.example.com");
    // After forgetting, the host reads as a fresh first contact again.
    assert_eq!(
        store.check("a.example.com", 22, "ssh-ed25519 AAAA"),
        HostKeyCheck::Unknown
    );
}

#[test]
fn different_port_is_a_separate_host() {
    let mut store = store_in_memory();
    store.record("bastion.example.com", 22, "ssh-ed25519 AAAA");
    // Same host name, different port → recorded independently.
    store.record("bastion.example.com", 2222, "ssh-ed25519 BBBB");
    assert_eq!(store.load_all().len(), 2);
}

#[test]
fn stored_key_reports_the_trusted_key() {
    let mut store = store_in_memory();
    assert_eq!(store.stored_key("h", 22), None);
    store.record("h", 22, "ssh-rsa KEY");
    assert_eq!(store.stored_key("h", 22), Some(String::from("ssh-rsa KEY")));
    assert_eq!(store.stored_key("h", 23), None);
}

#[test]
fn recorded_entry_carries_a_decimal_timestamp() {
    let mut store = store_in_memory();
    store.record("h", 22, "k");
    let hosts = store.load_all();
    assert!(!hosts[0].added.is_empty());
    assert!(hosts[0].added.chars().all(|c| c.is_ascii_digit()));
}

#[test]
fn recorded_keys_are_stamped_in_decimal_milliseconds() {
    let mut store = store_in_memory();
    store.record("bastion.example.com", 22, "ssh-ed25519 AAAA");
    let added = &store.load_all()[0].added;
    assert!(!added.is_empty() && added.chars().all(|c| c.is_ascii_digit()));
    assert!(added.parse::<u128>().unwrap() > 0);
}

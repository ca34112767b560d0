use ibexgit_core::credential::{CredentialEntry, KnownHost};
use ibexgit_core::stores::{index_remove, index_upsert, is_trusted, remove_known_host, trust_host};

#[test]
fn trust_store_roundtrip() {
    let mut hosts: Vec<KnownHost> = Vec::new();
    assert!(!is_trusted(&hosts, "example.com", "SHA256:abc"));
    trust_host(&mut hosts, "example.com", "SHA256:abc");
    assert!(is_trusted(&hosts, "example.com", "SHA256:abc"));
    assert!(!is_trusted(&hosts, "example.com", "SHA256:xyz"));
    assert_eq!(hosts.len(), 1);
    remove_known_host(&mut hosts, "example.com");
    assert!(hosts.is_empty());
}

#[test]
fn trusting_again_replaces_the_key() {
    let mut hosts = vec![KnownHost { host: "a".into(), fingerprint: "f1".into() }, KnownHost { host: "b".into(), fingerprint: "g".into() }];
    trust_host(&mut hosts, "a", "f2");
    assert_eq!(hosts, vec![KnownHost { host: "b".into(), fingerprint: "g".into() }, KnownHost { host: "a".into(), fingerprint: "f2".into() }]);
    assert!(!is_trusted(&hosts, "a", "f1"));
}

#[test]
fn index_upsert_updates_or_appends() {
    let mut es: Vec<CredentialEntry> = Vec::new();
    index_upsert(&mut es, "https://h/r", "h", "u1", 10);
    index_upsert(&mut es, "https://h/s", "h", "u2", 11);
    index_upsert(&mut es, "https://h/r", "other", "u3", 12);
    assert_eq!(es.len(), 2);
    assert_eq!(es[0], CredentialEntry { key: "https://h/r".into(), host: "h".into(), username: "u3".into(), updated_at: 12 });
    assert_eq!(es[1].username, "u2");
    index_remove(&mut es, "https://h/r");
    assert_eq!(es.len(), 1);
    assert_eq!(es[0].key, "https://h/s");
}

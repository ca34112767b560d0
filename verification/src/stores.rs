//! The credential broker's two lists kept on disk: the index of remembered
//! credentials (no secrets) and the trusted SSH host keys, with the
//! operations that read and change them.

use vstd::prelude::*;
use crate::text::{to_chars, eq_chars};
use crate::credential::{CredentialEntry, KnownHost};

verus! {

pub struct CredentialEntryV {
    pub key: Seq<char>,
    pub host: Seq<char>,
    pub username: Seq<char>,
    pub updated_at: i64,
}

impl View for CredentialEntry {
    type V = CredentialEntryV;

    open spec fn view(&self) -> CredentialEntryV {
        CredentialEntryV { key: self.key@, host: self.host@, username: self.username@, updated_at: self.updated_at }
    }
}

pub struct KnownHostV {
    pub host: Seq<char>,
    pub fingerprint: Seq<char>,
}

impl View for KnownHost {
    type V = KnownHostV;

    open spec fn view(&self) -> KnownHostV {
        KnownHostV { host: self.host@, fingerprint: self.fingerprint@ }
    }
}

pub open spec fn entry_views(v: Seq<CredentialEntry>) -> Seq<CredentialEntryV> {
    v.map_values(|e: CredentialEntry| e@)
}

pub open spec fn host_views(v: Seq<KnownHost>) -> Seq<KnownHostV> {
    v.map_values(|h: KnownHost| h@)
}

// =====================
// Credential index
// =====================

/// The first entry of `key`.
pub open spec fn entry_at(es: Seq<CredentialEntryV>, key: Seq<char>) -> Option<int>
    decreases es.len(),
{
    if es.len() == 0 {
        None
    } else if es[0].key == key {
        Some(0)
    } else {
        match entry_at(es.skip(1), key) {
            Some(i) => Some(i + 1),
            None => None,
        }
    }
}

/// The index after recording `key`: its first entry gets the username and
/// time (the host stays), or a new entry is appended.
pub open spec fn upserted(es: Seq<CredentialEntryV>, key: Seq<char>, host: Seq<char>, username: Seq<char>, now: i64) -> Seq<CredentialEntryV> {
    match entry_at(es, key) {
        Some(i) => es.update(i, CredentialEntryV { username, updated_at: now, ..es[i] }),
        None => es.push(CredentialEntryV { key, host, username, updated_at: now }),
    }
}

pub open spec fn other_key(key: Seq<char>) -> spec_fn(CredentialEntryV) -> bool {
    |e: CredentialEntryV| e.key != key
}

proof fn lemma_entry_at(es: Seq<CredentialEntryV>, key: Seq<char>, i: int)
    requires
        0 <= i <= es.len(),
        forall|j: int| 0 <= j < i ==> (#[trigger] es[j]).key != key,
    ensures
        entry_at(es, key) == match entry_at(es.skip(i), key) {
            Some(k) => Some(k + i),
            None => None::<int>,
        },
    decreases i,
{
    if i > 0 {
        assert(es.skip(1).skip(i - 1) =~= es.skip(i));
        lemma_entry_at(es.skip(1), key, i - 1);
    } else {
        assert(es.skip(0) =~= es);
    }
}

/// Records that `key` (of `host`) is remembered for `username` at `now`.
pub fn index_upsert(entries: &mut Vec<CredentialEntry>, key: &str, host: &str, username: &str, now: i64)
    ensures
        entry_views(final(entries)@) == upserted(entry_views(old(entries)@), key@, host@, username@, now),
{
    let ghost ev = entry_views(entries@);
    let kc = to_chars(key);
    let mut i: usize = 0;
    while i < entries.len()
        invariant
            0 <= i <= entries@.len(),
            entries@ == old(entries)@,
            ev == entry_views(entries@),
            kc@ == key@,
            forall|j: int| 0 <= j < i ==> (#[trigger] ev[j]).key != key@,
        decreases entries.len() - i,
    {
        let ec = to_chars(entries[i].key.as_str());
        assert(ev[i as int] == entries@[i as int]@);
        if eq_chars(ec.as_slice(), kc.as_slice()) {
            proof {
                lemma_entry_at(ev, key@, i as int);
                assert(ev.skip(i as int)[0] == ev[i as int]);
            }
            let old_e = &entries[i];
            let e = CredentialEntry {
                key: old_e.key.clone(),
                host: old_e.host.clone(),
                username: String::from_str(username),
                updated_at: now,
            };
            entries.set(i, e);
            assert(entry_views(entries@) =~= upserted(ev, key@, host@, username@, now));
            return;
        }
        i += 1;
    }
    proof {
        lemma_entry_at(ev, key@, i as int);
        assert(ev.skip(i as int).len() == 0);
    }
    let e = CredentialEntry {
        key: String::from_str(key),
        host: String::from_str(host),
        username: String::from_str(username),
        updated_at: now,
    };
    entries.push(e);
    assert(entry_views(entries@) =~= upserted(ev, key@, host@, username@, now));
}

/// Drops every entry of `key`.
pub fn index_remove(entries: &mut Vec<CredentialEntry>, key: &str)
    ensures
        entry_views(final(entries)@) == entry_views(old(entries)@).filter(other_key(key@)),
{
    let ghost ev = entry_views(entries@);
    let kc = to_chars(key);
    let mut kept: Vec<CredentialEntry> = Vec::new();
    let mut i: usize = 0;
    while i < entries.len()
        invariant
            0 <= i <= entries@.len(),
            ev == entry_views(entries@),
            ev == entry_views(old(entries)@),
            kc@ == key@,
            entry_views(kept@) == ev.take(i as int).filter(other_key(key@)),
        decreases entries.len() - i,
    {
        let e = &entries[i];
        let ghost before = kept@;
        proof {
            assert(ev.take(i + 1) =~= ev.take(i as int).push(e@));
            ev.take(i as int).lemma_filter_push(e@, other_key(key@));
        }
        let ec = to_chars(e.key.as_str());
        if !eq_chars(ec.as_slice(), kc.as_slice()) {
            kept.push(CredentialEntry {
                key: e.key.clone(),
                host: e.host.clone(),
                username: e.username.clone(),
                updated_at: e.updated_at,
            });
            assert(entry_views(kept@) =~= entry_views(before).push(e@));
        }
        i += 1;
    }
    assert(ev.take(ev.len() as int) =~= ev);
    *entries = kept;
}

// =====================
// Trusted host keys
// =====================

/// `host` is trusted with exactly this `fingerprint`.
pub open spec fn trusted(hosts: Seq<KnownHostV>, host: Seq<char>, fingerprint: Seq<char>) -> bool {
    exists|i: int| 0 <= i < hosts.len() && #[trigger] hosts[i].host == host && hosts[i].fingerprint == fingerprint
}

pub open spec fn other_host(host: Seq<char>) -> spec_fn(KnownHostV) -> bool {
    |h: KnownHostV| h.host != host
}

/// Whether an SSH host key is trusted: the host is listed with this
/// fingerprint.
pub fn is_trusted(hosts: &[KnownHost], host: &str, fingerprint: &str) -> (r: bool)
    ensures
        r == trusted(host_views(hosts@), host@, fingerprint@),
{
    let ghost hv = host_views(hosts@);
    let hc = to_chars(host);
    let fc = to_chars(fingerprint);
    let mut i: usize = 0;
    while i < hosts.len()
        invariant
            0 <= i <= hosts@.len(),
            hv == host_views(hosts@),
            hc@ == host@,
            fc@ == fingerprint@,
            forall|j: int| 0 <= j < i ==> !((#[trigger] hv[j]).host == host@ && hv[j].fingerprint == fingerprint@),
        decreases hosts.len() - i,
    {
        let h = &hosts[i];
        assert(hv[i as int] == h@);
        let a = to_chars(h.host.as_str());
        let b = to_chars(h.fingerprint.as_str());
        if eq_chars(a.as_slice(), hc.as_slice()) && eq_chars(b.as_slice(), fc.as_slice()) {
            assert(hv[i as int].host == host@ && hv[i as int].fingerprint == fingerprint@);
            return true;
        }
        i += 1;
    }
    false
}

/// Drops every key of `host`.
pub fn remove_known_host(hosts: &mut Vec<KnownHost>, host: &str)
    ensures
        host_views(final(hosts)@) == host_views(old(hosts)@).filter(other_host(host@)),
{
    let ghost hv = host_views(hosts@);
    let hc = to_chars(host);
    let mut kept: Vec<KnownHost> = Vec::new();
    let mut i: usize = 0;
    while i < hosts.len()
        invariant
            0 <= i <= hosts@.len(),
            hv == host_views(hosts@),
            hv == host_views(old(hosts)@),
            hc@ == host@,
            host_views(kept@) == hv.take(i as int).filter(other_host(host@)),
        decreases hosts.len() - i,
    {
        let h = &hosts[i];
        let ghost before = kept@;
        proof {
            assert(hv.take(i + 1) =~= hv.take(i as int).push(h@));
            hv.take(i as int).lemma_filter_push(h@, other_host(host@));
        }
        let a = to_chars(h.host.as_str());
        if !eq_chars(a.as_slice(), hc.as_slice()) {
            kept.push(KnownHost { host: h.host.clone(), fingerprint: h.fingerprint.clone() });
            assert(host_views(kept@) =~= host_views(before).push(h@));
        }
        i += 1;
    }
    assert(hv.take(hv.len() as int) =~= hv);
    *hosts = kept;
}

/// Trusts `fingerprint` for `host`, replacing any key it had.
pub fn trust_host(hosts: &mut Vec<KnownHost>, host: &str, fingerprint: &str)
    ensures
        host_views(final(hosts)@) == host_views(old(hosts)@).filter(other_host(host@)).push(
            KnownHostV { host: host@, fingerprint: fingerprint@ },
        ),
{
    remove_known_host(hosts, host);
    let ghost mid = hosts@;
    hosts.push(KnownHost { host: String::from_str(host), fingerprint: String::from_str(fingerprint) });
    assert(host_views(hosts@) =~= host_views(mid).push(KnownHostV { host: host@, fingerprint: fingerprint@ }));
}

/// After a host key is trusted, that key of that host is trusted, and no
/// other key of the host is.
pub proof fn lemma_trust_then_trusted(hosts: Seq<KnownHostV>, host: Seq<char>, fingerprint: Seq<char>, other: Seq<char>)
    ensures
        trusted(hosts.filter(other_host(host)).push(KnownHostV { host, fingerprint }), host, fingerprint),
        other != fingerprint ==> !trusted(
            hosts.filter(other_host(host)).push(KnownHostV { host, fingerprint }),
            host,
            other,
        ),
{
    let kept = hosts.filter(other_host(host));
    let after = kept.push(KnownHostV { host, fingerprint });
    assert(after[kept.len() as int].host == host);
    if other != fingerprint && trusted(after, host, other) {
        let i = choose|i: int| 0 <= i < after.len() && #[trigger] after[i].host == host && after[i].fingerprint == other;
        if i < kept.len() {
            assert(after[i] == kept[i]);
            hosts.lemma_filter_pred(other_host(host), i);
        }
    }
}

/// After a host is removed, none of its keys is trusted.
pub proof fn lemma_removed_not_trusted(hosts: Seq<KnownHostV>, host: Seq<char>, fingerprint: Seq<char>)
    ensures
        !trusted(hosts.filter(other_host(host)), host, fingerprint),
{
    let kept = hosts.filter(other_host(host));
    if trusted(kept, host, fingerprint) {
        let i = choose|i: int| 0 <= i < kept.len() && #[trigger] kept[i].host == host && kept[i].fingerprint == fingerprint;
        hosts.lemma_filter_pred(other_host(host), i);
    }
}

} // verus!

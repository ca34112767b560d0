use std::collections::HashMap;

use ibexgit_core::credential::{get_prompt, CredRequest, CredResponse, CredentialEntry, CredentialPrompt, CredentialReply, StoredCred};
use ibexgit_core::session::{
    cred_op, erase_step, get_after_keychain, get_after_reply, get_start, store_step, CredOp, CredSession, GetStart,
};

/// A broker over the library's session: the keychain and the index are
/// maps of the test, prompts are collected and answered by `reply`.
struct Broker {
    session: CredSession,
    keychain: HashMap<String, StoredCred>,
    index: Vec<CredentialEntry>,
    prompts: Vec<CredentialPrompt>,
    next_id: u32,
}

impl Broker {
    fn new() -> Self {
        Broker { session: CredSession::new(), keychain: HashMap::new(), index: Vec::new(), prompts: Vec::new(), next_id: 0 }
    }

    fn get(&mut self, req: &CredRequest, reply: Option<CredentialReply>) -> CredResponse {
        let key = match get_start(&self.session, req) {
            GetStart::Answer(r) => return r,
            GetStart::Keychain(key) => key,
        };
        let got = Ok(self.keychain.get(&key).cloned());
        if let Some(r) = get_after_keychain(&mut self.session, &req.id, key.clone(), got) {
            return r;
        }
        self.next_id += 1;
        let host = req.host.clone().unwrap();
        self.prompts.push(get_prompt(req, format!("p{}", self.next_id), host));
        get_after_reply(&mut self.session, &req.id, key, reply)
    }

    fn store(&mut self, req: &CredRequest) -> CredResponse {
        if let Some((key, cred)) = store_step(&mut self.session, &mut self.index, req, 1_700_000_000) {
            self.keychain.insert(key, cred);
        }
        CredResponse::ok(&req.id)
    }

    fn erase(&mut self, req: &CredRequest) -> CredResponse {
        if let Some(key) = erase_step(&mut self.session, &mut self.index, req) {
            self.keychain.remove(&key);
        }
        CredResponse::ok(&req.id)
    }
}

fn request(id: &str, op: &str, path: &str) -> CredRequest {
    CredRequest {
        id: id.into(),
        op: op.into(),
        protocol: Some("https".into()),
        host: Some("github.com".into()),
        path: Some(path.into()),
        username: None,
        secret: None,
        prompt: None,
        ppid: None,
    }
}

fn submit(remember: bool) -> Option<CredentialReply> {
    Some(CredentialReply::Submit { username: Some("octocat".into()), secret: Some("s3cret".into()), remember })
}

#[test]
fn broker_get_store_erase_flow() {
    let mut broker = Broker::new();
    let req = request("r1", "get", "/o/r.git");

    // get #1: the UI submits (remember = false)
    let resp = broker.get(&req, submit(false));
    let CredentialPrompt::Https { host, .. } = &broker.prompts[0] else {
        panic!("expected https prompt");
    };
    assert_eq!(host, "github.com");
    assert_eq!(resp.username.as_deref(), Some("octocat"));
    assert_eq!(resp.secret.as_deref(), Some("s3cret"));

    // get #2: a session cache hit, no second prompt
    let resp2 = broker.get(&CredRequest { id: "r2".into(), ..req.clone() }, None);
    assert_eq!(resp2.secret.as_deref(), Some("s3cret"));
    assert_eq!(broker.prompts.len(), 1);

    // store (git authenticated) without remember: nothing in the keychain
    let store_req = CredRequest {
        username: Some("octocat".into()),
        secret: Some("s3cret".into()),
        ..request("r3", "store", "/o/r.git")
    };
    broker.store(&store_req);
    assert!(broker.keychain.get("https://github.com/o/r.git").is_none());
    assert!(broker.index.is_empty());

    // get with remember = true: the store goes to the keychain and the index
    let req2 = request("r4", "get", "/o/other.git");
    let resp = broker.get(&req2, submit(true));
    assert_eq!(broker.prompts.len(), 2);
    assert!(matches!(broker.prompts[1], CredentialPrompt::Https { .. }));
    assert_eq!(resp.secret.as_deref(), Some("s3cret"));

    broker.store(&CredRequest {
        id: "r5".into(),
        op: "store".into(),
        username: Some("octocat".into()),
        secret: Some("s3cret".into()),
        ..req2.clone()
    });
    assert!(broker.keychain.get("https://github.com/o/other.git").is_some());
    assert_eq!(broker.index.len(), 1);
    assert_eq!(broker.index[0].key, "https://github.com/o/other.git");
    assert_eq!(broker.index[0].host, "github.com");
    assert_eq!(broker.index[0].username, "octocat");

    // erase (the remote refused it): keychain and index are cleared
    broker.erase(&CredRequest { id: "r6".into(), op: "erase".into(), ..req2 });
    assert!(broker.keychain.get("https://github.com/o/other.git").is_none());
    assert!(broker.index.is_empty());

    // get, the UI cancels: cancelled
    let resp = broker.get(&CredRequest { id: "r7".into(), path: Some("/o/third.git".into()), ..req }, Some(CredentialReply::Cancel));
    assert_eq!(broker.prompts.len(), 3);
    assert_eq!(resp.cancelled, Some(true));
    assert!(!resp.ok);
}

#[test]
fn session_remember_and_forget() {
    let mut s = CredSession::new();
    assert!(s.cached("k").is_none());
    s.remember("k".into(), StoredCred { username: "u".into(), secret: "a".into() });
    s.remember("k".into(), StoredCred { username: "u".into(), secret: "b".into() });
    s.remember("other".into(), StoredCred { username: "v".into(), secret: "c".into() });
    assert_eq!(s.cached("k").unwrap().secret, "b");
    s.approve("k".into());
    assert!(s.is_approved("k"));
    assert!(!s.is_approved("other"));
    s.forget("k");
    assert!(s.cached("k").is_none());
    assert!(!s.is_approved("k"));
    assert_eq!(s.cached("other").unwrap().secret, "c");
}

#[test]
fn get_without_host_is_cancelled() {
    let s = CredSession::new();
    let req = CredRequest { host: None, ..request("r1", "get", "/x") };
    match get_start(&s, &req) {
        GetStart::Answer(r) => {
            assert_eq!(r.cancelled, Some(true));
            assert!(!r.ok);
        }
        GetStart::Keychain(_) => panic!("expected a cancelled answer"),
    }
}

#[test]
fn keychain_hit_is_cached() {
    let mut s = CredSession::new();
    let got = Ok(Some(StoredCred { username: "u".into(), secret: "p".into() }));
    let r = get_after_keychain(&mut s, "r1", "https://h".into(), got).unwrap();
    assert_eq!(r.secret.as_deref(), Some("p"));
    assert_eq!(s.cached("https://h").unwrap().username, "u");
    let failed: Result<Option<StoredCred>, String> = Err("locked".into());
    assert!(get_after_keychain(&mut s, "r2", "https://g".into(), failed).is_none());
    assert!(s.cached("https://g").is_none());
}

#[test]
fn request_kinds() {
    assert_eq!(cred_op("get"), CredOp::Get);
    assert_eq!(cred_op("store"), CredOp::Store);
    assert_eq!(cred_op("erase"), CredOp::Erase);
    assert_eq!(cred_op("askpass"), CredOp::Askpass);
    assert_eq!(cred_op("list"), CredOp::Unknown);
}

//! Credential broker logic: git's credential text protocol, credential
//! keys, askpass prompt classification, the channel messages, and the
//! decisions the broker takes on each request.

use vstd::prelude::*;
use crate::text::{
    lines, split_once, contains, starts_with, to_chars, split_lines, views, split_once_char,
    string_of, push_str, contains_seq, opt_str,
};
use crate::parse::{StringMap, pair_views, last_value, config_get, config_last_wins, keys_unique};
use crate::progress::{lowercase, to_lowercase};
use crate::matching::{regex_first_match, regex_groups, capture_group, regex_find, group_of};

verus! {

/// The marker git prints when the user cancelled a credential prompt.
pub const CREDENTIAL_CANCELLED_MARKER: &'static str = "ibexgit: credential-cancelled";

// =====================
// Channel messages
// =====================

/// First message of a helper connection.
#[derive(Debug)]
pub struct Hello {
    pub v: u32,
    pub token: String,
}

#[derive(Debug)]
pub struct HelloAck {
    pub v: u32,
    pub ok: bool,
    pub err: Option<String>,
}

/// One request of the credential helper (one per connection).
#[derive(Debug, Clone)]
pub struct CredRequest {
    pub id: String,
    /// `get` | `store` | `erase` | `askpass`
    pub op: String,
    pub protocol: Option<String>,
    pub host: Option<String>,
    pub path: Option<String>,
    pub username: Option<String>,
    /// The secret of a `store`.
    pub secret: Option<String>,
    /// The prompt text of an `askpass`.
    pub prompt: Option<String>,
    /// The pid of the helper's parent (the git process), for logs.
    pub ppid: Option<u32>,
}

/// The broker's answer to a request.
#[derive(Debug, Clone)]
pub struct CredResponse {
    pub id: String,
    pub ok: bool,
    pub username: Option<String>,
    pub secret: Option<String>,
    pub answer: Option<String>,
    pub cancelled: Option<bool>,
}

pub struct CredResponseV {
    pub id: Seq<char>,
    pub ok: bool,
    pub username: Option<Seq<char>>,
    pub secret: Option<Seq<char>>,
    pub answer: Option<Seq<char>>,
    pub cancelled: Option<bool>,
}

impl View for CredResponse {
    type V = CredResponseV;

    open spec fn view(&self) -> CredResponseV {
        CredResponseV {
            id: self.id@,
            ok: self.ok,
            username: opt_str(self.username),
            secret: opt_str(self.secret),
            answer: opt_str(self.answer),
            cancelled: self.cancelled,
        }
    }
}

/// A stored credential.
#[derive(Debug, Clone)]
pub struct StoredCred {
    pub username: String,
    pub secret: String,
}

/// A credential prompt shown in the UI.
#[derive(Debug, Clone)]
pub enum CredentialPrompt {
    /// HTTPS credential request (a helper `get` that nothing stored answers).
    Https { request_id: String, protocol: String, host: String, path: Option<String>, username: Option<String> },
    /// askpass prompt (passphrase, username, password).
    Askpass { request_id: String, prompt: String, is_secret: bool },
    /// First confirmation of an SSH host key.
    HostKey { request_id: String, prompt: String, fingerprint: Option<String>, host: Option<String> },
}

/// The UI's reply to a prompt.
#[derive(Debug, Clone)]
pub enum CredentialReply {
    /// Submit; `remember` writes to the keychain once approved.
    Submit { username: Option<String>, secret: Option<String>, remember: bool },
    /// Trust the host key (`remember` keeps it in the trust store).
    TrustHostKey { remember: bool },
    /// The user cancelled.
    Cancel,
}

/// One entry of the credential index (no secret).
#[derive(Debug, Clone, PartialEq, Eq)]
pub struct CredentialEntry {
    pub key: String,
    pub host: String,
    pub username: String,
    /// Unix seconds.
    pub updated_at: i64,
}

/// A trusted SSH host key.
#[derive(Debug, Clone, PartialEq, Eq)]
pub struct KnownHost {
    pub host: String,
    pub fingerprint: String,
}

pub open spec fn response(id: Seq<char>, ok: bool, username: Option<Seq<char>>, secret: Option<Seq<char>>, answer: Option<Seq<char>>, cancelled: Option<bool>) -> CredResponseV {
    CredResponseV { id, ok, username, secret, answer, cancelled }
}

impl CredResponse {
    /// A credential answer.
    pub fn credential(id: &str, cred: &StoredCred) -> (r: Self)
        ensures
            r@ == response(id@, true, Some(cred.username@), Some(cred.secret@), None, None),
    {
        CredResponse {
            id: String::from_str(id),
            ok: true,
            username: Some(cred.username.clone()),
            secret: Some(cred.secret.clone()),
            answer: None,
            cancelled: None,
        }
    }

    /// A text answer to an askpass prompt.
    pub fn answer(id: &str, answer: &str) -> (r: Self)
        ensures
            r@ == response(id@, true, None, None, Some(answer@), None),
    {
        CredResponse {
            id: String::from_str(id),
            ok: true,
            username: None,
            secret: None,
            answer: Some(String::from_str(answer)),
            cancelled: None,
        }
    }

    /// The request was cancelled.
    pub fn cancelled(id: &str) -> (r: Self)
        ensures
            r@ == response(id@, false, None, None, None, Some(true)),
    {
        CredResponse { id: String::from_str(id), ok: false, username: None, secret: None, answer: None, cancelled: Some(true) }
    }

    /// A plain acknowledgement.
    pub fn ok(id: &str) -> (r: Self)
        ensures
            r@ == response(id@, true, None, None, None, None),
    {
        CredResponse { id: String::from_str(id), ok: true, username: None, secret: None, answer: None, cancelled: None }
    }
}

// =====================
// git credential text protocol
// =====================

/// The `key=value` pairs of the request lines from `i` on, up to the first
/// empty line; lines without `=` are skipped.
pub open spec fn credential_pairs(ls: Seq<Seq<char>>, i: int) -> Seq<(Seq<char>, Seq<char>)>
    decreases ls.len() - i,
{
    if i < 0 || i >= ls.len() || ls[i].len() == 0 {
        Seq::<(Seq<char>, Seq<char>)>::empty()
    } else {
        (match split_once(ls[i], '=') {
            Some((k, v)) => seq![(k, v)],
            None => Seq::<(Seq<char>, Seq<char>)>::empty(),
        }) + credential_pairs(ls, i + 1)
    }
}

/// Parse git's credential request text (stdin): `key=value` lines up to an
/// empty line; a repeated key keeps its last value.
pub fn parse_credential_input(input: &str) -> (r: StringMap)
    ensures
        forall|key: Seq<char>| #[trigger] config_get(r@, key) == last_value(credential_pairs(lines(input@), 0), key),
        keys_unique(r@),
{
    let c = to_chars(input);
    let ls = split_lines(c.as_slice());
    let ghost lv = views(ls@);
    let ghost all = credential_pairs(lv, 0);
    let mut pairs: Vec<(String, String)> = Vec::new();
    let mut i: usize = 0;
    while i < ls.len() && ls[i].len() > 0
        invariant
            lv == views(ls@),
            0 <= i <= lv.len(),
            pair_views(pairs@) + credential_pairs(lv, i as int) == all,
        decreases ls.len() - i,
    {
        assert(lv[i as int] == ls@[i as int]@);
        let ghost before = pair_views(pairs@);
        match split_once_char(ls[i].as_slice(), '=') {
            Some((k, v)) => {
                pairs.push((string_of(k.as_slice()), string_of(v.as_slice())));
                assert(pair_views(pairs@) =~= before.push((k@, v@)));
                assert(pair_views(pairs@) + credential_pairs(lv, i + 1) =~= before + credential_pairs(lv, i as int));
            },
            None => {
                assert(before + credential_pairs(lv, i + 1) =~= before + credential_pairs(lv, i as int));
            },
        }
        i += 1;
    }
    proof {
        if i < ls.len() {
            assert(lv[i as int] == ls@[i as int]@);
        }
    }
    assert(pair_views(pairs@) =~= all);
    config_last_wins(pairs)
}

/// Format a `get` answer as git credential output.
pub fn format_credential_output(username: &str, secret: &str) -> (r: String)
    ensures
        r@ == "username="@ + username@ + "\npassword="@ + secret@ + "\n\n"@,
{
    let mut s = String::from_str("username=");
    push_str(&mut s, username);
    push_str(&mut s, "\npassword=");
    push_str(&mut s, secret);
    push_str(&mut s, "\n\n");
    s
}

pub open spec fn opt_text(o: Option<&str>) -> Option<Seq<char>> {
    match o {
        Some(s) => Some(s@),
        None => None,
    }
}

/// The stable key of a credential: `<protocol>://<host><path>`, falling
/// back to the host alone.
pub open spec fn credential_key_of(protocol: Option<Seq<char>>, host: Seq<char>, path: Option<Seq<char>>) -> Seq<char> {
    match protocol {
        Some(p) => if p.len() > 0 {
            match path {
                Some(path) => p + "://"@ + host + (if starts_with(path, seq!['/']) {
                    path
                } else {
                    seq!['/'] + path
                }),
                None => p + "://"@ + host,
            }
        } else {
            host
        },
        None => host,
    }
}

pub fn credential_key(protocol: Option<&str>, host: &str, path: Option<&str>) -> (r: String)
    ensures
        r@ == credential_key_of(opt_text(protocol), host@, opt_text(path)),
{
    match protocol {
        Some(p) => {
            if p.is_empty() {
                return String::from_str(host);
            }
            let mut s = String::from_str(p);
            push_str(&mut s, "://");
            push_str(&mut s, host);
            match path {
                Some(path) => {
                    let pc = to_chars(path);
                    if pc.len() > 0 && pc[0] == '/' {
                        assert(pc@.subrange(0, 1) =~= seq!['/']);
                        push_str(&mut s, path);
                    } else {
                        assert(!starts_with(path@, seq!['/'])) by {
                            if starts_with(path@, seq!['/']) {
                                assert(pc@.subrange(0, 1)[0] == pc@[0]);
                            }
                        }
                        crate::text::push_char(&mut s, '/');
                        push_str(&mut s, path);
                        assert(s@ =~= p@ + "://"@ + host@ + (seq!['/'] + path@));
                    }
                },
                None => {},
            }
            s
        },
        None => String::from_str(host),
    }
}

// =====================
// askpass classification
// =====================

/// What an askpass prompt asks for.
#[derive(Debug, Clone, PartialEq, Eq)]
pub enum AskpassKind {
    /// Confirmation of a new host key (fingerprint extracted).
    HostKeyNew { host: Option<String>, fingerprint: String },
    /// Host key change warning: refused.
    HostKeyChanged,
    /// Passphrase or password (`key_hint`: the key path the prompt names).
    Secret { key_hint: Option<String> },
    /// Username or other text.
    Generic,
}

pub enum AskpassKindV {
    HostKeyNew { host: Option<Seq<char>>, fingerprint: Seq<char> },
    HostKeyChanged,
    Secret { key_hint: Option<Seq<char>> },
    Generic,
}

impl View for AskpassKind {
    type V = AskpassKindV;

    open spec fn view(&self) -> AskpassKindV {
        match self {
            AskpassKind::HostKeyNew { host, fingerprint } => AskpassKindV::HostKeyNew {
                host: opt_str(*host),
                fingerprint: fingerprint@,
            },
            AskpassKind::HostKeyChanged => AskpassKindV::HostKeyChanged,
            AskpassKind::Secret { key_hint } => AskpassKindV::Secret { key_hint: opt_str(*key_hint) },
            AskpassKind::Generic => AskpassKindV::Generic,
        }
    }
}

pub open spec fn fingerprint_pattern() -> Seq<char> {
    "SHA256:[A-Za-z0-9+/=]+"@
}

pub open spec fn host_pattern() -> Seq<char> {
    "'([^']+) \\("@
}

pub open spec fn key_pattern() -> Seq<char> {
    "key '([^']+)'"@
}

/// The prompt asks for a secret (by its lower-cased text).
pub open spec fn asks_secret(lower: Seq<char>) -> bool {
    contains(lower, "passphrase"@) || contains(lower, "password"@) || contains(lower, "passcode"@)
        || contains(lower, "token"@)
}

/// Askpass prompt classification: host key change, new host key, secret,
/// or generic text.
pub open spec fn askpass_kind(prompt: Seq<char>) -> AskpassKindV {
    if contains(prompt, "REMOTE HOST IDENTIFICATION HAS CHANGED"@) || contains(prompt, "POSSIBLE DNS SPOOFING"@) {
        AskpassKindV::HostKeyChanged
    } else if let Some(fp) = regex_first_match(fingerprint_pattern(), prompt) {
        AskpassKindV::HostKeyNew { host: group_of(regex_groups(host_pattern(), prompt), 1), fingerprint: fp }
    } else if asks_secret(lowercase(prompt)) {
        AskpassKindV::Secret { key_hint: group_of(regex_groups(key_pattern(), prompt), 1) }
    } else {
        AskpassKindV::Generic
    }
}

fn contains_text(s: &[char], p: &str) -> (r: bool)
    ensures
        r == contains(s@, p@),
{
    let pc = to_chars(p);
    contains_seq(s, pc.as_slice())
}

pub fn classify_askpass(prompt: &str) -> (r: AskpassKind)
    ensures
        r@ == askpass_kind(prompt@),
{
    let pc = to_chars(prompt);
    if contains_text(pc.as_slice(), "REMOTE HOST IDENTIFICATION HAS CHANGED") || contains_text(
        pc.as_slice(),
        "POSSIBLE DNS SPOOFING",
    ) {
        return AskpassKind::HostKeyChanged;
    }
    let fp_pattern = "SHA256:[A-Za-z0-9+/=]+";
    if let Some(fp) = regex_find(fp_pattern, prompt) {
        let host = capture_group("'([^']+) \\(", prompt, 1);
        return AskpassKind::HostKeyNew { host, fingerprint: fp };
    }
    let low = to_lowercase(prompt);
    let lc = to_chars(low.as_str());
    if contains_text(lc.as_slice(), "passphrase") || contains_text(lc.as_slice(), "password")
        || contains_text(lc.as_slice(), "passcode") || contains_text(lc.as_slice(), "token") {
        return AskpassKind::Secret { key_hint: capture_group("key '([^']+)'", prompt, 1) };
    }
    AskpassKind::Generic
}


// =====================
// Broker decisions
// =====================

pub open spec fn nonempty_opt(o: Option<Seq<char>>) -> Option<Seq<char>> {
    match o {
        Some(s) => if s.len() > 0 {
            Some(s)
        } else {
            None
        },
        None => None,
    }
}

pub open spec fn req_host(req: CredRequest) -> Option<Seq<char>> {
    opt_str(req.host)
}

/// The key a `get` looks up: `None` (the request is cancelled) without a host.
pub open spec fn get_key_of(req: CredRequest) -> Option<Seq<char>> {
    match nonempty_opt(opt_str(req.host)) {
        Some(h) => Some(credential_key_of(opt_str(req.protocol), h, opt_str(req.path))),
        None => None,
    }
}

fn opt_as_str(o: &Option<String>) -> (r: Option<&str>)
    ensures
        opt_text(r) == opt_str(*o),
{
    match o {
        Some(s) => Some(s.as_str()),
        None => None,
    }
}

/// The key a `get` request looks up, `None` when it names no host.
pub fn get_key(req: &CredRequest) -> (r: Option<String>)
    ensures
        opt_str(r) == get_key_of(*req),
{
    match &req.host {
        Some(h) => {
            if h.as_str().is_empty() {
                None
            } else {
                Some(credential_key(opt_as_str(&req.protocol), h.as_str(), opt_as_str(&req.path)))
            }
        },
        None => None,
    }
}

/// What the broker does with the UI's reply to an HTTPS prompt: the
/// response, the credential for the session cache, and whether it is to be
/// remembered once git approves it.
pub struct GetOutcome {
    pub response: CredResponse,
    pub cache: Option<StoredCred>,
    pub remember: bool,
}

/// The outcome of a `get` by the UI's reply (`None`: timed out).
pub fn get_outcome(id: &str, reply: Option<CredentialReply>) -> (r: GetOutcome)
    ensures
        match reply {
            Some(CredentialReply::Submit { username, secret, remember }) => match nonempty_opt(opt_str(secret)) {
                Some(sv) => r.response@ == response(
                    id@,
                    true,
                    Some(match opt_str(username) {
                        Some(u) => u,
                        None => Seq::<char>::empty(),
                    }),
                    Some(sv),
                    None,
                    None,
                ) && (r.cache matches Some(c) && c.secret@ == sv && Some(c.username@) == r.response@.username) && r.remember == remember,
                None => r.response@ == response(id@, false, None, None, None, Some(true)) && r.cache is None && !r.remember,
            },
            _ => r.response@ == response(id@, false, None, None, None, Some(true)) && r.cache is None && !r.remember,
        },
{
    match reply {
        Some(CredentialReply::Submit { username, secret, remember }) => {
            let secret = match secret {
                Some(s) => {
                    if s.as_str().is_empty() {
                        return GetOutcome { response: CredResponse::cancelled(id), cache: None, remember: false };
                    }
                    s
                },
                None => {
                    return GetOutcome { response: CredResponse::cancelled(id), cache: None, remember: false };
                },
            };
            let username = match username {
                Some(u) => u,
                None => String::new(),
            };
            let cred = StoredCred { username, secret };
            let response = CredResponse::credential(id, &cred);
            GetOutcome { response, cache: Some(cred), remember }
        },
        _ => GetOutcome { response: CredResponse::cancelled(id), cache: None, remember: false },
    }
}

/// The HTTPS prompt of a `get` that nothing stored answers.
pub fn get_prompt(req: &CredRequest, request_id: String, host: String) -> (r: CredentialPrompt)
    ensures
        r matches CredentialPrompt::Https { request_id: rid, protocol, host: h, path, username } && rid@ == request_id@
            && protocol@ == (match opt_str(req.protocol) {
            Some(p) => p,
            None => "https"@,
        }) && h@ == host@ && opt_str(path) == opt_str(req.path) && opt_str(username) == opt_str(req.username),
{
    let protocol = match &req.protocol {
        Some(p) => p.clone(),
        None => String::from_str("https"),
    };
    CredentialPrompt::Https {
        request_id,
        protocol,
        host,
        path: req.path.clone(),
        username: req.username.clone(),
    }
}

/// What a `store` records: the key and credential, when the request has a
/// host and a non-empty secret.
pub fn store_plan(req: &CredRequest) -> (r: Option<(String, StoredCred)>)
    ensures
        match (opt_str(req.secret), opt_str(req.host)) {
            (Some(sec), Some(h)) => if sec.len() > 0 {
                r matches Some((k, c)) && k@ == credential_key_of(opt_str(req.protocol), h, opt_str(req.path))
                    && c.secret@ == sec && c.username@ == match opt_str(req.username) {
                    Some(u) => u,
                    None => Seq::<char>::empty(),
                }
            } else {
                r is None
            },
            _ => r is None,
        },
{
    match (&req.secret, &req.host) {
        (Some(secret), Some(host)) => {
            if secret.as_str().is_empty() {
                return None;
            }
            let key = credential_key(opt_as_str(&req.protocol), host.as_str(), opt_as_str(&req.path));
            let username = match &req.username {
                Some(u) => u.clone(),
                None => String::new(),
            };
            Some((key, StoredCred { username, secret: secret.clone() }))
        },
        _ => None,
    }
}

/// The key an `erase` forgets, when the request names a host.
pub fn erase_key(req: &CredRequest) -> (r: Option<String>)
    ensures
        match opt_str(req.host) {
            Some(h) => r matches Some(k) && k@ == credential_key_of(opt_str(req.protocol), h, opt_str(req.path)),
            None => r is None,
        },
{
    match &req.host {
        Some(h) => Some(credential_key(opt_as_str(&req.protocol), h.as_str(), opt_as_str(&req.path))),
        None => None,
    }
}

/// What an askpass request leads to.
pub enum AskpassStep {
    /// Refuse (no prompt, or a changed host key).
    Cancel,
    /// Confirm a new host key.
    HostKey { host: Option<String>, fingerprint: String },
    /// Ask for a secret; `store_key` is where a remembered passphrase lives.
    Secret { store_key: Option<String> },
    /// Ask for text; `is_secret` unless the prompt asks for a username.
    Generic { is_secret: bool },
}

/// The step of an askpass request, by the classification of its prompt.
pub fn askpass_step(req: &CredRequest) -> (r: AskpassStep)
    ensures
        match opt_str(req.prompt) {
            None => r is Cancel,
            Some(p) => match askpass_kind(p) {
                AskpassKindV::HostKeyChanged => r is Cancel,
                AskpassKindV::HostKeyNew { host, fingerprint } => r matches AskpassStep::HostKey { host: h, fingerprint: f }
                    && opt_str(h) == host && f@ == fingerprint,
                AskpassKindV::Secret { key_hint } => r matches AskpassStep::Secret { store_key } && opt_str(store_key)
                    == match key_hint {
                    Some(k) => Some("ssh:"@ + k),
                    None => None,
                },
                AskpassKindV::Generic => r matches AskpassStep::Generic { is_secret } && is_secret == !contains(
                    lowercase(p),
                    "username"@,
                ),
            },
        },
{
    let prompt = match &req.prompt {
        Some(p) => p,
        None => return AskpassStep::Cancel,
    };
    match classify_askpass(prompt.as_str()) {
        AskpassKind::HostKeyChanged => AskpassStep::Cancel,
        AskpassKind::HostKeyNew { host, fingerprint } => AskpassStep::HostKey { host, fingerprint },
        AskpassKind::Secret { key_hint } => {
            let store_key = match key_hint {
                Some(k) => {
                    let mut s = String::from_str("ssh:");
                    push_str(&mut s, k.as_str());
                    Some(s)
                },
                None => None,
            };
            AskpassStep::Secret { store_key }
        },
        AskpassKind::Generic => {
            let low = to_lowercase(prompt.as_str());
            let lc = to_chars(low.as_str());
            AskpassStep::Generic { is_secret: !contains_text(lc.as_slice(), "username") }
        },
    }
}

/// The answer to a secret prompt by the UI's reply, and the passphrase to
/// remember under `store_key` when asked to.
pub fn secret_outcome(id: &str, store_key: &Option<String>, reply: Option<CredentialReply>) -> (r: (CredResponse, Option<(String, StoredCred)>))
    ensures
        match reply {
            Some(CredentialReply::Submit { secret, remember, .. }) => match nonempty_opt(opt_str(secret)) {
                Some(sv) => r.0@ == response(id@, true, None, None, Some(sv), None) && (if remember && store_key.is_some() {
                    (r.1 matches Some((k, c)) && Some(k@) == opt_str(*store_key) && c.secret@ == sv && c.username@.len() == 0)
                } else {
                    r.1 is None
                }),
                None => r.0@ == response(id@, false, None, None, None, Some(true)) && r.1 is None,
            },
            _ => r.0@ == response(id@, false, None, None, None, Some(true)) && r.1 is None,
        },
{
    match reply {
        Some(CredentialReply::Submit { secret, remember, .. }) => {
            let secret = match secret {
                Some(s) => {
                    if s.as_str().is_empty() {
                        return (CredResponse::cancelled(id), None);
                    }
                    s
                },
                None => return (CredResponse::cancelled(id), None),
            };
            let store = if remember {
                match store_key {
                    Some(k) => Some((k.clone(), StoredCred { username: String::new(), secret: secret.clone() })),
                    None => None,
                }
            } else {
                None
            };
            (CredResponse::answer(id, secret.as_str()), store)
        },
        _ => (CredResponse::cancelled(id), None),
    }
}

/// The answer to a generic prompt: the username field for a username
/// prompt, the secret field otherwise; cancelled when that is empty.
pub fn generic_outcome(id: &str, is_secret: bool, reply: Option<CredentialReply>) -> (r: CredResponse)
    ensures
        match reply {
            Some(CredentialReply::Submit { username, secret, .. }) => match nonempty_opt(
                opt_str(if is_secret {
                    secret
                } else {
                    username
                }),
            ) {
                Some(t) => r@ == response(id@, true, None, None, Some(t), None),
                None => r@ == response(id@, false, None, None, None, Some(true)),
            },
            _ => r@ == response(id@, false, None, None, None, Some(true)),
        },
{
    match reply {
        Some(CredentialReply::Submit { username, secret, .. }) => {
            let answer = if is_secret {
                secret
            } else {
                username
            };
            match answer {
                Some(t) => {
                    if t.as_str().is_empty() {
                        CredResponse::cancelled(id)
                    } else {
                        CredResponse::answer(id, t.as_str())
                    }
                },
                None => CredResponse::cancelled(id),
            }
        },
        _ => CredResponse::cancelled(id),
    }
}

/// The answer to a host key prompt ("yes" when trusted), and the host key
/// to keep in the trust store when asked to.
pub fn host_key_outcome(id: &str, host: &Option<String>, fingerprint: &String, reply: Option<CredentialReply>) -> (r: (CredResponse, Option<KnownHost>))
    ensures
        match reply {
            Some(CredentialReply::TrustHostKey { remember }) => r.0@ == response(id@, true, None, None, Some("yes"@), None)
                && (if remember && host.is_some() {
                (r.1 matches Some(k) && Some(k.host@) == opt_str(*host) && k.fingerprint@ == fingerprint@)
            } else {
                r.1 is None
            }),
            _ => r.0@ == response(id@, false, None, None, None, Some(true)) && r.1 is None,
        },
{
    match reply {
        Some(CredentialReply::TrustHostKey { remember }) => {
            let trust = if remember {
                match host {
                    Some(h) => Some(KnownHost { host: h.clone(), fingerprint: fingerprint.clone() }),
                    None => None,
                }
            } else {
                None
            };
            (CredResponse::answer(id, "yes"), trust)
        },
        _ => (CredResponse::cancelled(id), None),
    }
}

// =====================
// Handshake token
// =====================

/// `getrandom::fill` (getrandom crate) on a buffer of `n` bytes: the
/// operating system's random bytes, `None` when it fails. Claimed: on
/// success there are `n` bytes; nothing is claimed of their values.
#[verifier::external_body]
fn random_bytes(n: usize) -> (r: Option<Vec<u8>>)
    ensures
        r matches Some(v) ==> v@.len() == n,
{
    let mut buf = vec![0u8; n];
    match getrandom::fill(&mut buf) {
        Ok(()) => Some(buf),
        Err(_) => None,
    }
}

/// A lower-case hex digit.
pub open spec fn hex_digit(n: int) -> char {
    if n < 10 {
        (('0' as int) + n) as char
    } else {
        (('a' as int) + n - 10) as char
    }
}

/// Bytes in lower-case hex, two digits each.
pub open spec fn hex_text(bytes: Seq<u8>) -> Seq<char>
    decreases bytes.len(),
{
    if bytes.len() == 0 {
        Seq::<char>::empty()
    } else {
        hex_text(bytes.drop_last()) + seq![hex_digit((bytes.last() / 16) as int), hex_digit((bytes.last() % 16) as int)]
    }
}

fn hex_char(n: u8) -> (c: char)
    requires
        n < 16,
    ensures
        c == hex_digit(n as int),
{
    if n < 10 {
        ((48 + n) as char)
    } else {
        ((87 + n) as char)
    }
}

/// The hex text of `bytes`.
pub fn hex_string(bytes: &[u8]) -> (r: String)
    ensures
        r@ == hex_text(bytes@),
{
    let mut out = String::new();
    let mut i: usize = 0;
    while i < bytes.len()
        invariant
            0 <= i <= bytes@.len(),
            out@ == hex_text(bytes@.take(i as int)),
        decreases bytes.len() - i,
    {
        let b = bytes[i];
        crate::text::push_char(&mut out, hex_char(b / 16));
        crate::text::push_char(&mut out, hex_char(b % 16));
        proof {
            assert(bytes@.take(i + 1).drop_last() =~= bytes@.take(i as int));
            assert(bytes@.take(i + 1).last() == b);
        }
        i += 1;
    }
    assert(bytes@.take(bytes@.len() as int) =~= bytes@);
    out
}

/// The channel handshake token: 32 random bytes in hex (64 characters);
/// `None` when the operating system has no random bytes to give.
pub fn random_token() -> (r: Option<String>)
    ensures
        r matches Some(t) ==> exists|b: Seq<u8>| b.len() == 32 && t@ == #[trigger] hex_text(b),
{
    match random_bytes(32) {
        Some(b) => {
            let t = hex_string(b.as_slice());
            Some(t)
        },
        None => None,
    }
}

} // verus!

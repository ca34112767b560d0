//! The credential broker's memory: the credentials of this session (keyed
//! by credential key) and the keys the user asked to remember, with the
//! steps of `get`, `store` and `erase` requests that read and change it.

use vstd::prelude::*;
use crate::text::{opt_str, to_chars, eq_chars};
use crate::credential::{
    CredRequest, CredResponse, CredResponseV, CredentialReply, StoredCred, get_key, get_key_of, get_outcome, response,
    store_plan, erase_key, nonempty_opt, credential_key_of,
};

use crate::credential::CredentialEntry;
use crate::stores::{entry_views, upserted, other_key, index_upsert, index_remove};

verus! {

/// A credential as (username, secret).
pub type CredV = (Seq<char>, Seq<char>);

/// The credential last recorded for `key`.
pub open spec fn lookup(es: Seq<(Seq<char>, CredV)>, key: Seq<char>) -> Option<CredV>
    decreases es.len(),
{
    if es.len() == 0 {
        None
    } else if es.last().0 == key {
        Some(es.last().1)
    } else {
        lookup(es.drop_last(), key)
    }
}

/// The entries without those of `key`.
pub open spec fn without(es: Seq<(Seq<char>, CredV)>, key: Seq<char>) -> Seq<(Seq<char>, CredV)>
    decreases es.len(),
{
    if es.len() == 0 {
        es
    } else if es.last().0 == key {
        without(es.drop_last(), key)
    } else {
        without(es.drop_last(), key).push(es.last())
    }
}

pub open spec fn other_than(key: Seq<char>) -> spec_fn(Seq<char>) -> bool {
    |k: Seq<char>| k != key
}

pub open spec fn drop_key(ks: Seq<Seq<char>>, key: Seq<char>) -> Seq<Seq<char>> {
    ks.filter(other_than(key))
}

pub struct CredSessionV {
    pub session: Seq<(Seq<char>, CredV)>,
    pub approved: Seq<Seq<char>>,
}

impl CredSessionV {
    /// The credential the session holds for `key`.
    pub open spec fn cached(self, key: Seq<char>) -> Option<CredV> {
        lookup(self.session, key)
    }

    /// The user asked to remember the credential of `key`.
    pub open spec fn approved(self, key: Seq<char>) -> bool {
        self.approved.contains(key)
    }
}

/// The session cache and approvals of the credential broker.
pub struct CredSession {
    session: Vec<(String, StoredCred)>,
    approved: Vec<String>,
}

pub open spec fn cred_view(c: StoredCred) -> CredV {
    (c.username@, c.secret@)
}

impl View for CredSession {
    type V = CredSessionV;

    closed spec fn view(&self) -> CredSessionV {
        CredSessionV {
            session: self.session@.map_values(|e: (String, StoredCred)| (e.0@, cred_view(e.1))),
            approved: self.approved@.map_values(|k: String| k@),
        }
    }
}

proof fn lemma_without(es: Seq<(Seq<char>, CredV)>, key: Seq<char>, other: Seq<char>)
    ensures
        lookup(without(es, key), key) is None,
        other != key ==> lookup(without(es, key), other) == lookup(es, other),
    decreases es.len(),
{
    if es.len() > 0 {
        lemma_without(es.drop_last(), key, other);
        if es.last().0 != key {
            assert(without(es, key).drop_last() =~= without(es.drop_last(), key));
        }
    }
}

fn copy_cred(c: &StoredCred) -> (r: StoredCred)
    ensures
        cred_view(r) == cred_view(*c),
{
    StoredCred { username: c.username.clone(), secret: c.secret.clone() }
}

impl CredSession {
    /// Nothing cached, nothing approved.
    pub fn new() -> (r: Self)
        ensures
            forall|k: Seq<char>| #[trigger] r@.cached(k) is None && !r@.approved(k),
    {
        let r = CredSession { session: Vec::new(), approved: Vec::new() };
        assert(r@.session =~= Seq::<(Seq<char>, CredV)>::empty());
        assert(r@.approved =~= Seq::<Seq<char>>::empty());
        r
    }

    /// The credential cached for `key`.
    pub fn cached(&self, key: &str) -> (r: Option<StoredCred>)
        ensures
            match r {
                Some(c) => self@.cached(key@) == Some(cred_view(c)),
                None => self@.cached(key@) is None,
            },
    {
        let ghost es = self@.session;
        let mut i: usize = self.session.len();
        assert(es.take(i as int) =~= es);
        while i > 0
            invariant
                i <= self.session@.len(),
                es == self@.session,
                lookup(es, key@) == lookup(es.take(i as int), key@),
            decreases i,
        {
            let e = &self.session[i - 1];
            proof {
                assert(es.take(i as int).drop_last() =~= es.take(i - 1));
                assert(es.take(i as int).last() == (e.0@, cred_view(e.1)));
            }
            let ec = to_chars(e.0.as_str());
            let kc = to_chars(key);
            if eq_chars(ec.as_slice(), kc.as_slice()) {
                return Some(copy_cred(&e.1));
            }
            i -= 1;
        }
        None
    }

    /// Whether the user asked to remember the credential of `key`.
    pub fn is_approved(&self, key: &str) -> (r: bool)
        ensures
            r == self@.approved(key@),
    {
        let ghost ks = self@.approved;
        let kc = to_chars(key);
        let mut i: usize = 0;
        while i < self.approved.len()
            invariant
                0 <= i <= self.approved@.len(),
                ks == self@.approved,
                kc@ == key@,
                forall|j: int| 0 <= j < i ==> ks[j] != key@,
            decreases self.approved.len() - i,
        {
            let ac = to_chars(self.approved[i].as_str());
            if eq_chars(ac.as_slice(), kc.as_slice()) {
                assert(ks[i as int] == key@);
                return true;
            }
            i += 1;
        }
        false
    }

    /// Removes the entries of `key` from the cache.
    fn uncache(&mut self, key: &str)
        ensures
            final(self)@.session == without(old(self)@.session, key@),
            final(self)@.approved == old(self)@.approved,
    {
        let ghost es = old(self)@.session;
        let kc = to_chars(key);
        let mut kept: Vec<(String, StoredCred)> = Vec::new();
        let mut i: usize = 0;
        while i < self.session.len()
            invariant
                0 <= i <= self.session@.len(),
                es == self@.session,
                es == old(self)@.session,
                self@.approved == old(self)@.approved,
                kc@ == key@,
                kept@.map_values(|e: (String, StoredCred)| (e.0@, cred_view(e.1))) == without(es.take(i as int), key@),
            decreases self.session.len() - i,
        {
            let e = &self.session[i];
            proof {
                assert(es.take(i + 1).drop_last() =~= es.take(i as int));
                assert(es.take(i + 1).last() == (e.0@, cred_view(e.1)));
            }
            let ec = to_chars(e.0.as_str());
            if !eq_chars(ec.as_slice(), kc.as_slice()) {
                let ghost before = kept@;
                let c = (e.0.clone(), copy_cred(&e.1));
                kept.push(c);
                assert(kept@.map_values(|e: (String, StoredCred)| (e.0@, cred_view(e.1))) =~= before.map_values(
                    |e: (String, StoredCred)| (e.0@, cred_view(e.1)),
                ).push((c.0@, cred_view(c.1))));
            }
            i += 1;
        }
        assert(es.take(es.len() as int) =~= es);
        self.session = kept;
    }

    /// Caches `cred` for `key` (replacing what was there).
    pub fn remember(&mut self, key: String, cred: StoredCred)
        ensures
            forall|k: Seq<char>|
                #[trigger] final(self)@.cached(k) == if k == key@ {
                    Some(cred_view(cred))
                } else {
                    old(self)@.cached(k)
                },
            forall|k: Seq<char>| #[trigger] final(self)@.approved(k) == old(self)@.approved(k),
    {
        self.uncache(key.as_str());
        let ghost mid = self@.session;
        let ghost kv = key@;
        let ghost cv = cred_view(cred);
        self.session.push((key, cred));
        proof {
            assert(self@.session =~= mid.push((kv, cv)));
            assert forall|k: Seq<char>| #[trigger] self@.cached(k) == if k == kv {
                Some(cv)
            } else {
                old(self)@.cached(k)
            } by {
                lemma_without(old(self)@.session, kv, k);
                assert(mid.push((kv, cv)).drop_last() =~= mid);
            }
        }
    }

    /// Records that the credential of `key` is to be remembered.
    pub fn approve(&mut self, key: String)
        ensures
            forall|k: Seq<char>| #[trigger] final(self)@.approved(k) == (k == key@ || old(self)@.approved(k)),
            forall|k: Seq<char>| #[trigger] final(self)@.cached(k) == old(self)@.cached(k),
    {
        let ghost before = self@.approved;
        let ghost kv = key@;
        self.approved.push(key);
        proof {
            assert(self@.approved =~= before.push(kv));
            assert forall|k: Seq<char>| #[trigger] self@.approved(k) == (k == kv || old(self)@.approved(k)) by {
                if before.push(kv).contains(k) && k != kv {
                    let j = choose|j: int| 0 <= j < before.push(kv).len() && before.push(kv)[j] == k;
                    assert(before[j] == k);
                }
                if before.contains(k) {
                    let j = choose|j: int| 0 <= j < before.len() && before[j] == k;
                    assert(before.push(kv)[j] == k);
                }
                if k == kv {
                    assert(before.push(kv)[before.len() as int] == kv);
                }
            }
        }
    }

    /// Forgets `key`: no cached credential, no approval.
    pub fn forget(&mut self, key: &str)
        ensures
            final(self)@.cached(key@) is None,
            !final(self)@.approved(key@),
            forall|k: Seq<char>| k != key@ ==> #[trigger] final(self)@.cached(k) == old(self)@.cached(k),
            forall|k: Seq<char>| k != key@ ==> #[trigger] final(self)@.approved(k) == old(self)@.approved(k),
    {
        self.uncache(key);
        let ghost ks = self@.approved;
        let ghost pred = other_than(key@);
        let kc = to_chars(key);
        let mut kept: Vec<String> = Vec::new();
        let mut i: usize = 0;
        while i < self.approved.len()
            invariant
                0 <= i <= self.approved@.len(),
                ks == self@.approved,
                kc@ == key@,
                pred == other_than(key@),
                kept@.map_values(|s: String| s@) == ks.take(i as int).filter(pred),
            decreases self.approved.len() - i,
        {
            let a = &self.approved[i];
            let ac = to_chars(a.as_str());
            let ghost before = kept@;
            if !eq_chars(ac.as_slice(), kc.as_slice()) {
                kept.push(a.clone());
            }
            proof {
                assert(ks.take(i + 1) =~= ks.take(i as int).push(a@));
                ks.take(i as int).lemma_filter_push(a@, pred);
                if ac@ != kc@ {
                    assert(kept@.map_values(|s: String| s@) =~= before.map_values(|s: String| s@).push(a@));
                } else {
                    assert(kept@.map_values(|s: String| s@) =~= before.map_values(|s: String| s@));
                }
            }
            i += 1;
        }
        assert(ks.take(ks.len() as int) =~= ks);
        let ghost sess = self@.session;
        self.approved = kept;
        proof {
            assert(self@.session == sess);
            assert forall|k: Seq<char>| k != key@ implies #[trigger] self@.cached(k) == old(self)@.cached(k) by {
                lemma_without(old(self)@.session, key@, k);
            }
            lemma_without(old(self)@.session, key@, key@);
            assert(self@.approved == drop_key(ks, key@));
            assert forall|k: Seq<char>| #[trigger] self@.approved(k) == (k != key@ && old(self)@.approved(k)) by {
                lemma_drop_key(ks, key@, k);
            }
        }
    }
}

proof fn lemma_drop_key(ks: Seq<Seq<char>>, key: Seq<char>, k: Seq<char>)
    ensures
        drop_key(ks, key).contains(k) == (k != key && ks.contains(k)),
{
    let pred = other_than(key);
    if drop_key(ks, key).contains(k) {
        ks.lemma_filter_contains_rev(pred, k);
        let j = choose|j: int| 0 <= j < ks.filter(pred).len() && ks.filter(pred)[j] == k;
        ks.lemma_filter_pred(pred, j);
    }
    if k != key && ks.contains(k) {
        let j = choose|j: int| 0 <= j < ks.len() && ks[j] == k;
        ks.lemma_filter_contains(pred, j);
    }
}

/// The answer a `get` gets at once: cancelled without a host, the cached
/// credential of its key; `None` when the keychain is to be asked.
pub open spec fn first_answer(s: CredSessionV, req: CredRequest) -> Option<CredResponseV> {
    match get_key_of(req) {
        None => Some(response(req.id@, false, None, None, None, Some(true))),
        Some(k) => match s.cached(k) {
            Some(c) => Some(response(req.id@, true, Some(c.0), Some(c.1), None, None)),
            None => None,
        },
    }
}

/// A credential the session holds for a key answers the next `get` of
/// that key at once, without the keychain or a prompt.
pub proof fn lemma_cached_answers_get(s: CredSessionV, req: CredRequest, cred: CredV)
    requires
        get_key_of(req) is Some,
        s.cached(get_key_of(req)->0) == Some(cred),
    ensures
        first_answer(s, req) == Some(response(req.id@, true, Some(cred.0), Some(cred.1), None, None)),
{
}

/// Once the session forgot a key (an `erase`), the next `get` of that key
/// is not answered from the session: it asks the keychain.
pub proof fn lemma_forgotten_asks_keychain(s: CredSessionV, req: CredRequest)
    requires
        get_key_of(req) is Some,
        s.cached(get_key_of(req)->0) is None,
    ensures
        first_answer(s, req) is None,
{
}

/// What a `get` does first.
pub enum GetStart {
    /// Answer at once (no host: cancelled; a cached credential).
    Answer(CredResponse),
    /// Look the key up in the keychain.
    Keychain(String),
}

/// The first step of a `get`: cancelled without a host; the cached
/// credential when the session has one; otherwise the keychain lookup.
pub fn get_start(s: &CredSession, req: &CredRequest) -> (r: GetStart)
    ensures
        match first_answer(s@, *req) {
            Some(a) => r matches GetStart::Answer(x) && x@ == a,
            None => r matches GetStart::Keychain(key) && Some(key@) == get_key_of(*req),
        },
{
    match get_key(req) {
        None => GetStart::Answer(CredResponse::cancelled(req.id.as_str())),
        Some(key) => match s.cached(key.as_str()) {
            Some(c) => GetStart::Answer(CredResponse::credential(req.id.as_str(), &c)),
            None => GetStart::Keychain(key),
        },
    }
}

/// After the keychain lookup of a `get`: a stored credential is cached and
/// answered; otherwise (none, or the keychain failed) the user is asked.
pub fn get_after_keychain(s: &mut CredSession, id: &str, key: String, got: Result<Option<StoredCred>, String>) -> (r: Option<CredResponse>)
    ensures
        match got {
            Ok(Some(c)) => (r matches Some(x) && x@ == response(id@, true, Some(c.username@), Some(c.secret@), None, None))
                && forall|k: Seq<char>|
                #[trigger] final(s)@.cached(k) == if k == key@ {
                    Some(cred_view(c))
                } else {
                    old(s)@.cached(k)
                },
            _ => r is None && final(s)@ == old(s)@,
        },
        forall|k: Seq<char>| #[trigger] final(s)@.approved(k) == old(s)@.approved(k),
{
    match got {
        Ok(Some(c)) => {
            let resp = CredResponse::credential(id, &c);
            s.remember(key, c);
            Some(resp)
        },
        _ => None,
    }
}

/// After the user answered the prompt of a `get`: a submitted secret is
/// cached (and approved when to be remembered) and answered; anything else
/// cancels.
pub fn get_after_reply(s: &mut CredSession, id: &str, key: String, reply: Option<CredentialReply>) -> (r: CredResponse)
    ensures
        match reply {
            Some(CredentialReply::Submit { username, secret, remember }) => match nonempty_opt(opt_str(secret)) {
                Some(sv) => {
                    let u = match opt_str(username) {
                        Some(u) => u,
                        None => Seq::<char>::empty(),
                    };
                    &&& r@ == response(id@, true, Some(u), Some(sv), None, None)
                    &&& forall|k: Seq<char>|
                        #[trigger] final(s)@.cached(k) == if k == key@ {
                            Some((u, sv))
                        } else {
                            old(s)@.cached(k)
                        }
                    &&& forall|k: Seq<char>|
                        #[trigger] final(s)@.approved(k) == ((remember && k == key@) || old(s)@.approved(k))
                },
                None => r@ == response(id@, false, None, None, None, Some(true)) && final(s)@ == old(s)@,
            },
            _ => r@ == response(id@, false, None, None, None, Some(true)) && final(s)@ == old(s)@,
        },
{
    let out = get_outcome(id, reply);
    match out.cache {
        Some(c) => {
            let k2 = key.clone();
            s.remember(key, c);
            if out.remember {
                s.approve(k2);
            }
        },
        None => {},
    }
    out.response
}

/// A `store`: the credential git approved is cached; it is returned, with
/// its key, for the keychain only when the user asked to remember it.
pub fn on_store(s: &mut CredSession, req: &CredRequest) -> (r: Option<(String, StoredCred)>)
    ensures
        match (opt_str(req.secret), opt_str(req.host)) {
            (Some(sec), Some(h)) => if sec.len() > 0 {
                let k = credential_key_of(opt_str(req.protocol), h, opt_str(req.path));
                let u = match opt_str(req.username) {
                    Some(u) => u,
                    None => Seq::<char>::empty(),
                };
                &&& forall|j: Seq<char>|
                    #[trigger] final(s)@.cached(j) == if j == k {
                        Some((u, sec))
                    } else {
                        old(s)@.cached(j)
                    }
                &&& (old(s)@.approved(k) ==> (r matches Some((rk, rc)) && rk@ == k && cred_view(rc) == (u, sec)))
                &&& (!old(s)@.approved(k) ==> r is None)
            } else {
                r is None && final(s)@ == old(s)@
            },
            _ => r is None && final(s)@ == old(s)@,
        },
        forall|j: Seq<char>| #[trigger] final(s)@.approved(j) == old(s)@.approved(j),
{
    match store_plan(req) {
        Some((key, cred)) => {
            let approved = s.is_approved(key.as_str());
            let k2 = key.clone();
            let c2 = copy_cred(&cred);
            s.remember(key, cred);
            if approved {
                Some((k2, c2))
            } else {
                None
            }
        },
        None => None,
    }
}

/// An `erase` (git's remote refused the credential): the key is
/// forgotten by the session and returned for the keychain and index.
pub fn on_erase(s: &mut CredSession, req: &CredRequest) -> (r: Option<String>)
    ensures
        match opt_str(req.host) {
            Some(h) => {
                let k = credential_key_of(opt_str(req.protocol), h, opt_str(req.path));
                &&& r matches Some(rk) && rk@ == k
                &&& final(s)@.cached(k) is None
                &&& !final(s)@.approved(k)
                &&& forall|j: Seq<char>| j != k ==> #[trigger] final(s)@.cached(j) == old(s)@.cached(j)
                &&& forall|j: Seq<char>| j != k ==> #[trigger] final(s)@.approved(j) == old(s)@.approved(j)
            },
            None => r is None && final(s)@ == old(s)@,
        },
{
    match erase_key(req) {
        Some(key) => {
            s.forget(key.as_str());
            Some(key)
        },
        None => None,
    }
}

/// A `store` in full: the session takes the credential; one the user
/// asked to remember is also recorded in the index (key, host, username,
/// time `now`) and returned for the keychain. Nothing else is written.
pub fn store_step(s: &mut CredSession, index: &mut Vec<CredentialEntry>, req: &CredRequest, now: i64) -> (r: Option<(String, StoredCred)>)
    ensures
        match (opt_str(req.secret), opt_str(req.host)) {
            (Some(sec), Some(h)) => if sec.len() > 0 {
                let k = credential_key_of(opt_str(req.protocol), h, opt_str(req.path));
                let u = match opt_str(req.username) {
                    Some(u) => u,
                    None => Seq::<char>::empty(),
                };
                &&& forall|j: Seq<char>|
                    #[trigger] final(s)@.cached(j) == if j == k {
                        Some((u, sec))
                    } else {
                        old(s)@.cached(j)
                    }
                &&& (old(s)@.approved(k) ==> (r matches Some((rk, rc)) && rk@ == k && cred_view(rc) == (u, sec)
                    && entry_views(final(index)@) == upserted(entry_views(old(index)@), k, h, u, now)))
                &&& (!old(s)@.approved(k) ==> r is None && final(index)@ == old(index)@)
            } else {
                r is None && final(s)@ == old(s)@ && final(index)@ == old(index)@
            },
            _ => r is None && final(s)@ == old(s)@ && final(index)@ == old(index)@,
        },
        forall|j: Seq<char>| #[trigger] final(s)@.approved(j) == old(s)@.approved(j),
{
    let r = on_store(s, req);
    match &r {
        Some((key, cred)) => {
            let host = match &req.host {
                Some(h) => h.as_str(),
                None => "",
            };
            index_upsert(index, key.as_str(), host, cred.username.as_str(), now);
        },
        None => {},
    }
    r
}

/// An `erase` in full: the key leaves the session and the index, and is
/// returned for the keychain.
pub fn erase_step(s: &mut CredSession, index: &mut Vec<CredentialEntry>, req: &CredRequest) -> (r: Option<String>)
    ensures
        match opt_str(req.host) {
            Some(h) => {
                let k = credential_key_of(opt_str(req.protocol), h, opt_str(req.path));
                &&& r matches Some(rk) && rk@ == k
                &&& final(s)@.cached(k) is None
                &&& !final(s)@.approved(k)
                &&& forall|j: Seq<char>| j != k ==> #[trigger] final(s)@.cached(j) == old(s)@.cached(j)
                &&& forall|j: Seq<char>| j != k ==> #[trigger] final(s)@.approved(j) == old(s)@.approved(j)
                &&& entry_views(final(index)@) == entry_views(old(index)@).filter(other_key(k))
            },
            None => r is None && final(s)@ == old(s)@ && final(index)@ == old(index)@,
        },
{
    let r = on_erase(s, req);
    match &r {
        Some(key) => index_remove(index, key.as_str()),
        None => {},
    }
    r
}

/// The request kinds of the credential helper.
#[derive(Debug, Clone, Copy, PartialEq, Eq, Structural)]
pub enum CredOp {
    Get,
    Store,
    Erase,
    Askpass,
    /// Anything else: answered as cancelled.
    Unknown,
}

/// The kind of a request by its `op`.
pub fn cred_op(op: &str) -> (r: CredOp)
    ensures
        r == (if op@ == "get"@ {
            CredOp::Get
        } else if op@ == "store"@ {
            CredOp::Store
        } else if op@ == "erase"@ {
            CredOp::Erase
        } else if op@ == "askpass"@ {
            CredOp::Askpass
        } else {
            CredOp::Unknown
        }),
{
    let o = to_chars(op);
    if eq_chars(o.as_slice(), to_chars("get").as_slice()) {
        CredOp::Get
    } else if eq_chars(o.as_slice(), to_chars("store").as_slice()) {
        CredOp::Store
    } else if eq_chars(o.as_slice(), to_chars("erase").as_slice()) {
        CredOp::Erase
    } else if eq_chars(o.as_slice(), to_chars("askpass").as_slice()) {
        CredOp::Askpass
    } else {
        CredOp::Unknown
    }
}

} // verus!

//! The decisions of the credential helper program git runs: which request
//! it sends for a `credential` action or an askpass prompt, and what it
//! prints and exits with for the broker's answer.

use vstd::prelude::*;
use crate::text::{lines, opt_str, push_str, to_chars, eq_chars};
use crate::parse::{config_get, last_value};
use crate::credential::{credential_pairs, parse_credential_input, format_credential_output, CredRequest, CredResponse, CREDENTIAL_CANCELLED_MARKER};

verus! {

/// A field of the request that is present and not empty.
pub open spec fn field(input: Seq<char>, key: Seq<char>) -> Option<Seq<char>> {
    match last_value(credential_pairs(lines(input), 0), key) {
        Some(v) => if v.len() > 0 {
            Some(v)
        } else {
            None
        },
        None => None,
    }
}

pub open spec fn is_credential_action(a: Seq<char>) -> bool {
    a == "get"@ || a == "store"@ || a == "erase"@
}

fn text_is(s: &str, t: &str) -> (r: bool)
    ensures
        r == (s@ == t@),
{
    let a = to_chars(s);
    let b = to_chars(t);
    eq_chars(a.as_slice(), b.as_slice())
}

fn field_of(m: &crate::parse::StringMap, key: &str) -> (r: Option<String>)
    ensures
        match config_get(m@, key@) {
            Some(v) => if v.len() > 0 {
                opt_str(r) == Some(v)
            } else {
                r is None
            },
            None => r is None,
        },
{
    match m.get(key) {
        Some(v) => if v.as_str().is_empty() {
            None
        } else {
            Some(v.clone())
        },
        None => None,
    }
}

/// The request of a `credential <action>` call: `None` for an action other
/// than `get`, `store` or `erase`; otherwise the fields of git's request
/// text (protocol, host, path, username, password), empty ones left out.
pub fn helper_request(action: &str, input: &str, id: String, ppid: Option<u32>) -> (r: Option<CredRequest>)
    ensures
        !is_credential_action(action@) ==> r is None,
        is_credential_action(action@) ==> (r matches Some(q) && q.id == id && q.op@ == action@ && opt_str(
            q.protocol,
        ) == field(input@, "protocol"@) && opt_str(q.host) == field(input@, "host"@) && opt_str(q.path)
            == field(input@, "path"@) && opt_str(q.username) == field(input@, "username"@) && opt_str(
            q.secret,
        ) == field(input@, "password"@) && q.prompt is None && q.ppid == ppid),
{
    if !(text_is(action, "get") || text_is(action, "store") || text_is(action, "erase")) {
        return None;
    }
    let fields = parse_credential_input(input);
    Some(
        CredRequest {
            id,
            op: action.to_string(),
            protocol: field_of(&fields, "protocol"),
            host: field_of(&fields, "host"),
            path: field_of(&fields, "path"),
            username: field_of(&fields, "username"),
            secret: field_of(&fields, "password"),
            prompt: None,
            ppid,
        },
    )
}

/// What the helper prints and exits with.
#[derive(Debug, Clone, PartialEq, Eq)]
pub struct HelperOutput {
    pub exit_code: u8,
    pub stdout: Option<String>,
    pub stderr: Option<String>,
}

/// The answer to git for a `credential` action: without an answer from the
/// broker, nothing (git moves on); a cancelled `get` prints the cancel
/// marker and exits 3; a `get` with both a username and a secret prints
/// them in git's format.
pub fn helper_output(action: &str, resp: Option<CredResponse>) -> (r: HelperOutput)
    ensures
        match resp {
            None => r == HelperOutput { exit_code: 0, stdout: None, stderr: None },
            Some(x) => if action@ != "get"@ {
                r == HelperOutput { exit_code: 0, stdout: None, stderr: None }
            } else if x.cancelled == Some(true) {
                r.exit_code == 3 && r.stdout is None && opt_str(r.stderr) == Some(CREDENTIAL_CANCELLED_MARKER@)
            } else {
                r.exit_code == 0 && r.stderr is None && match (x@.username, x@.secret) {
                    (Some(u), Some(p)) => opt_str(r.stdout) == Some("username="@ + u + "\npassword="@ + p + "\n\n"@),
                    _ => r.stdout is None,
                }
            },
        },
{
    let x = match resp {
        None => return HelperOutput { exit_code: 0, stdout: None, stderr: None },
        Some(x) => x,
    };
    if !text_is(action, "get") {
        return HelperOutput { exit_code: 0, stdout: None, stderr: None };
    }
    if x.cancelled == Some(true) {
        return HelperOutput { exit_code: 3, stdout: None, stderr: Some(CREDENTIAL_CANCELLED_MARKER.to_string()) };
    }
    match (&x.username, &x.secret) {
        (Some(u), Some(p)) => HelperOutput {
            exit_code: 0,
            stdout: Some(format_credential_output(u.as_str(), p.as_str())),
            stderr: None,
        },
        _ => HelperOutput { exit_code: 0, stdout: None, stderr: None },
    }
}

/// The request of an askpass call: the prompt, nothing else.
pub fn askpass_request(prompt: &str, id: String, ppid: Option<u32>) -> (r: CredRequest)
    ensures
        r.id == id,
        r.op@ == "askpass"@,
        r.protocol is None && r.host is None && r.path is None && r.username is None && r.secret is None,
        opt_str(r.prompt) == Some(prompt@),
        r.ppid == ppid,
{
    CredRequest {
        id,
        op: "askpass".to_string(),
        protocol: None,
        host: None,
        path: None,
        username: None,
        secret: None,
        prompt: Some(prompt.to_string()),
        ppid,
    }
}

/// The answer to an askpass prompt: the broker's answer (else the secret,
/// else empty) and a newline; exit 1 without an answer or when cancelled.
pub fn askpass_output(resp: Option<CredResponse>) -> (r: HelperOutput)
    ensures
        match resp {
            Some(x) => if x.cancelled != Some(true) {
                r.exit_code == 0 && r.stderr is None && opt_str(r.stdout) == Some(
                    match x@.answer {
                        Some(a) => a,
                        None => match x@.secret {
                            Some(s) => s,
                            None => Seq::<char>::empty(),
                        },
                    } + "\n"@,
                )
            } else {
                r == HelperOutput { exit_code: 1, stdout: None, stderr: None }
            },
            None => r == HelperOutput { exit_code: 1, stdout: None, stderr: None },
        },
{
    match resp {
        Some(x) => {
            if x.cancelled != Some(true) {
                let mut out = String::new();
                match (&x.answer, &x.secret) {
                    (Some(a), _) => push_str(&mut out, a.as_str()),
                    (None, Some(s)) => push_str(&mut out, s.as_str()),
                    (None, None) => {},
                }
                push_str(&mut out, "\n");
                HelperOutput { exit_code: 0, stdout: Some(out), stderr: None }
            } else {
                HelperOutput { exit_code: 1, stdout: None, stderr: None }
            }
        },
        None => HelperOutput { exit_code: 1, stdout: None, stderr: None },
    }
}

} // verus!

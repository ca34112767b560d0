use ibexgit_core::credential::{
    classify_askpass, credential_key, format_credential_output, parse_credential_input, AskpassKind,
};



#[test]
fn parses_git_credential_input() {
    let input = "protocol=https\nhost=github.com\npath=o/r.git\n\nusername=x\n";
    let map = parse_credential_input(input);
    assert_eq!(map.get("protocol").unwrap(), "https");
    assert_eq!(map.get("host").unwrap(), "github.com");
    assert_eq!(map.get("path").unwrap(), "o/r.git");
    // 空行后的字段不属于请求。
    assert!(!map.contains_key("username"));
}

#[test]
fn formats_credential_output() {
    let out = format_credential_output("u", "p");
    assert_eq!(out, "username=u\npassword=p\n\n");
}

#[test]
fn credential_key_shapes() {
    assert_eq!(
        credential_key(Some("https"), "github.com", Some("o/r.git")),
        "https://github.com/o/r.git"
    );
    assert_eq!(
        credential_key(Some("https"), "github.com", Some("/o/r.git")),
        "https://github.com/o/r.git"
    );
    assert_eq!(
        credential_key(Some("ssh"), "gitlab.com", None),
        "ssh://gitlab.com"
    );
    assert_eq!(credential_key(None, "host", None), "host");
}

#[test]
fn classifies_askpass_prompts() {
    let new_host = "The authenticity of host 'github.com ([140.82.121.4]:22)' can't be established.\nED25519 key fingerprint is SHA256:+DiY3wvvV6TuJJhbpZisF/zLDA0zPMSvHdkr4UvCOqU.\nAre you sure you want to continue connecting (yes/no/[fingerprint])? ";
    match classify_askpass(new_host) {
        AskpassKind::HostKeyNew { host, fingerprint } => {
            assert_eq!(host.as_deref(), Some("github.com"));
            assert_eq!(
                fingerprint,
                "SHA256:+DiY3wvvV6TuJJhbpZisF/zLDA0zPMSvHdkr4UvCOqU"
            );
        }
        other => panic!("expected HostKeyNew, got {other:?}"),
    }

    let changed = "@@@@@\n@ WARNING: REMOTE HOST IDENTIFICATION HAS CHANGED! @\n@@@@@";
    assert_eq!(classify_askpass(changed), AskpassKind::HostKeyChanged);

    let passphrase = "Enter passphrase for key '/c/Users/x/.ssh/id_ed25519': ";
    match classify_askpass(passphrase) {
        AskpassKind::Secret { key_hint } => {
            assert_eq!(key_hint.as_deref(), Some("/c/Users/x/.ssh/id_ed25519"));
        }
        other => panic!("expected Secret, got {other:?}"),
    }

    let username = "Username for 'https://github.com': ";
    assert!(matches!(classify_askpass(username), AskpassKind::Generic));
}


#[test]
fn token_is_hex_and_unique() {
    let a = ibexgit_core::credential::random_token().unwrap();
    let b = ibexgit_core::credential::random_token().unwrap();
    assert_eq!(a.len(), 64);
    assert!(a.chars().all(|c| c.is_ascii_hexdigit()));
    assert_ne!(a, b);
}

#[test]
fn hex_string_is_lower_case_two_digits_per_byte() {
    assert_eq!(ibexgit_core::credential::hex_string(&[0, 9, 10, 255, 0x3c]), "00090aff3c");
    assert_eq!(ibexgit_core::credential::hex_string(&[]), "");
}

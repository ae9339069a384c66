use axsh::key_files::{
    added_notice, append_known_host, authorize, confirm_question, confirm_question_for, confirms,
    load_authorized_keys, load_known_hosts, load_known_hosts_if_any, load_public_key,
    parse_authorized_keys, AuthorizedKeys, FileError, KnownHosts,
};
use axsh::{
    format_authorized_conn_key, format_known_host, format_sha256_fingerprint, sha256_bytes,
};

#[test]
fn load_public_key_parses_authorized_key_line() {
    let public_key =
        load_public_key("mldsa-ed25519 Zm9v\n").expect("failed to load public key");
    assert_eq!(public_key, b"foo");
}

#[test]
fn load_public_key_parses_known_host_line() {
    let public_key = load_public_key("example:12345 mldsa-ed25519 YmFy\n")
        .expect("failed to load public key");
    assert_eq!(public_key, b"bar");
}

#[test]
fn load_public_key_rejects_multiple_entries() {
    let err = load_public_key("mldsa-ed25519 Zm9v\nmldsa-ed25519 YmFy\n")
        .expect_err("loaded multiple public key entries");
    assert!(matches!(err, FileError::MultipleEntries));
    assert_eq!(
        err.message("keys.txt"),
        "keys.txt: expected exactly one public key entry"
    );
}

#[test]
fn load_known_hosts_parses_host_key_lines() {
    let contents = format!(
        "# comment\n\n{}\n{}\n",
        format_known_host("host1:12345", b"foo"),
        format_known_host("host2:12345", b"bar"),
    );
    let hosts = load_known_hosts(&contents).expect("failed to load known_hosts");
    assert_eq!(hosts.get("host1:12345"), Some(&b"foo"[..]));
    assert_eq!(hosts.get("host2:12345"), Some(&b"bar"[..]));
    assert_eq!(hosts.get("host3:12345"), None);
    assert!(!hosts.is_empty());
}

#[test]
fn load_known_hosts_rejects_duplicate_hosts() {
    let contents = format!(
        "{}\n{}\n",
        format_known_host("host1:12345", b"foo"),
        format_known_host("host1:12345", b"bar"),
    );
    match load_known_hosts(&contents) {
        Err(err) => {
            assert!(matches!(err, FileError::DuplicateHost { line: 2, .. }));
            assert_eq!(
                err.message("known_hosts"),
                "known_hosts:2: duplicate known-host entry for host1:12345"
            );
        }
        Ok(_) => panic!("loaded duplicate known_hosts"),
    }
}

#[test]
fn load_known_hosts_returns_empty_for_missing_file() {
    let hosts = load_known_hosts_if_any(None).expect("failed to handle missing known_hosts");
    assert!(hosts.is_empty());
    assert!(KnownHosts::new().is_empty());
}

#[test]
fn empty_known_hosts_file_holds_no_host() {
    assert!(load_known_hosts("").unwrap().is_empty());
    assert!(load_known_hosts_if_any(Some("")).unwrap().is_empty());
    let hosts = load_known_hosts_if_any(Some("h mldsa-ed25519 Zg==\n")).unwrap();
    assert_eq!(hosts.get("h"), Some(&b"f"[..]));
    assert!(load_known_hosts_if_any(Some("h")).is_err());
}

#[test]
fn only_unknown_hosts_need_a_question() {
    let hosts = load_known_hosts("h mldsa-ed25519 Zg==\n").unwrap();
    assert!(!hosts.needs_question("h"));
    assert!(hosts.needs_question("i"));
    assert!(KnownHosts::new().needs_question("h"));
}

#[test]
fn append_known_host_writes_one_line() {
    let mut contents = String::new();
    contents += &append_known_host(contents.as_bytes(), "host1:12345", b"foo");
    contents += &append_known_host(contents.as_bytes(), "host2:12345", b"bar");
    assert_eq!(
        contents,
        format!(
            "{}\n{}\n",
            format_known_host("host1:12345", b"foo"),
            format_known_host("host2:12345", b"bar"),
        )
    );
}

#[test]
fn load_authorized_keys_parses_base64_lines() {
    let contents = "mldsa-ed25519 Zg==\n\nmldsa-ed25519 Zm9v\n";
    let list = parse_authorized_keys(contents).expect("failed to load allowlist");
    assert_eq!(list, vec![b"f".to_vec(), b"foo".to_vec()]);

    let keys = load_authorized_keys(contents).expect("failed to load allowlist");
    assert_eq!(keys.len(), 2);
    assert_eq!(keys.get(&sha256_bytes(b"f")), Some(&b"f"[..]));
    assert_eq!(keys.get(&sha256_bytes(b"foo")), Some(&b"foo"[..]));
    assert_eq!(keys.get(&sha256_bytes(b"bar")), None);
}

#[test]
fn load_authorized_keys_rejects_invalid_base64() {
    match load_authorized_keys("mldsa-ed25519 not-base64!\n") {
        Err(err) => {
            assert!(matches!(err, FileError::Line { line: 1, .. }));
            assert_eq!(
                err.message("keys"),
                "keys:1: base64 length must be a multiple of 4"
            );
        }
        Ok(_) => panic!("loaded invalid allowlist"),
    }
}

#[test]
fn load_authorized_keys_rejects_wrong_key_type() {
    match load_authorized_keys("ed25519 Zg==\n") {
        Err(err) => {
            assert!(matches!(err, FileError::Line { line: 1, .. }));
            assert_eq!(err.message("keys"), "keys:1: unsupported key type ed25519");
        }
        Ok(_) => panic!("loaded wrong key type"),
    }
}

#[test]
fn repeated_authorized_keys_count_once() {
    let contents = "mldsa-ed25519 Zg==\r\n  mldsa-ed25519 Zg==  \n";
    let keys = load_authorized_keys(contents).unwrap();
    assert_eq!(keys.len(), 1);
    assert_eq!(authorize(&[b"f".to_vec(), b"f".to_vec()]).len(), 1);
}

#[test]
fn authorized_keys_know_no_comments() {
    match load_authorized_keys("\n# comment\n") {
        Err(err) => assert_eq!(err.message("keys"), "keys:2: unsupported key type #"),
        Ok(_) => panic!("loaded a comment"),
    }
}

#[test]
fn inserted_key_replaces_one_with_the_same_digest() {
    let mut keys = AuthorizedKeys::new();
    assert_eq!(keys.len(), 0);
    keys.insert([1; 32], vec![10]);
    keys.insert([2; 32], vec![20]);
    keys.insert([1; 32], vec![30]);
    assert_eq!(keys.len(), 2);
    assert_eq!(keys.get(&[1; 32]), Some(&[30u8][..]));
    assert_eq!(keys.get(&[2; 32]), Some(&[20u8][..]));
    assert_eq!(keys.get(&[3; 32]), None);
}

#[test]
fn appended_host_is_found_again() {
    for contents in ["", "# comment", "a mldsa-ed25519 Zg==\n", "a mldsa-ed25519 Zg==\r"] {
        let mut file = contents.to_string();
        file += &append_known_host(contents.as_bytes(), "host", b"foo");
        let hosts = load_known_hosts(&file).unwrap();
        assert_eq!(hosts.get("host"), Some(&b"foo"[..]));
        assert_eq!(
            hosts.get("a").is_some(),
            contents.starts_with('a'),
            "{contents:?}"
        );
    }
    let file = append_known_host(b"", "tab\there\r", b"foo");
    let hosts = load_known_hosts(&file).unwrap();
    assert_eq!(hosts.get("tab\there\r"), Some(&b"foo"[..]));
    assert_eq!(
        append_known_host(b"x", "h", b"f"),
        "\nh mldsa-ed25519 Zg==\n"
    );
    assert_eq!(append_known_host(b"x\n", "h", b"f"), "h mldsa-ed25519 Zg==\n");
}

#[test]
fn public_key_line_is_loaded_everywhere() {
    let line = format!("{}\n", format_authorized_conn_key(b"key"));
    assert_eq!(load_public_key(&line).unwrap(), b"key");
    assert_eq!(parse_authorized_keys(&line).unwrap(), vec![b"key".to_vec()]);
}

#[test]
fn public_key_file_faults() {
    let message = |contents: &str| load_public_key(contents).unwrap_err().message("file");
    assert_eq!(message(""), "file: no public key entry found");
    assert_eq!(message("# only\n\n"), "file: no public key entry found");
    assert_eq!(
        message("\none"),
        "file:2: expected 'mldsa-ed25519 <base64>' or '<host> mldsa-ed25519 <base64>'"
    );
    assert_eq!(
        message("a b c d"),
        "file:1: expected 'mldsa-ed25519 <base64>' or '<host> mldsa-ed25519 <base64>'"
    );
    assert_eq!(message("rsa Zg=="), "file:1: unsupported key type rsa");
    assert_eq!(message("host rsa Zg=="), "file:1: unsupported key type rsa");
}

#[test]
fn known_hosts_line_faults_have_line_numbers() {
    match load_known_hosts("# one\n\nhost\n") {
        Err(err) => assert_eq!(err.message("\"kh\""), "\"kh\":3: missing host or key data"),
        Ok(_) => panic!("loaded a host without a key"),
    }
}

#[test]
fn whitespace_is_what_the_standard_library_takes_for_it() {
    for code in 0..0x11_0000u32 {
        if let Some(c) = char::from_u32(code) {
            let response = format!("{c}yes{c}");
            assert_eq!(confirms(&response), response.trim() == "yes", "{code:x}");
        }
    }
}

#[test]
fn only_yes_confirms() {
    assert!(confirms("yes\n"));
    assert!(confirms("  yes\r\n"));
    assert!(!confirms("y\n"));
    assert!(!confirms("YES\n"));
    assert!(!confirms("yes yes\n"));
    assert!(!confirms(""));
}

#[test]
fn question_and_notice() {
    let expected = "The authenticity of host 'M0QQQ-1' can't be established.\n\
        mldsa-ed25519 key fingerprint is SHA256:LbGyurDlBczDLyrl23l20yiuEhpuUm1sjyC42y9FgyM\n\
        Are you sure you want to continue connecting (yes/no)? ";
    assert_eq!(
        confirm_question_for(
            "M0QQQ-1",
            "SHA256:LbGyurDlBczDLyrl23l20yiuEhpuUm1sjyC42y9FgyM"
        ),
        expected
    );
    assert_eq!(
        confirm_question("h", b"foo"),
        confirm_question_for("h", &format_sha256_fingerprint(b"foo"))
    );
    assert_eq!(
        added_notice("M0QQQ-1"),
        "Warning: Permanently added 'M0QQQ-1' (mldsa-ed25519) to the list of known hosts.\n"
    );
}

//! The shape checks and the derived mounts.

use indexmap::IndexMap;
use steelbx::validate::{
    canonicalize, derive_mounts, is_valid_env_name, validate_cli_env, validate_env,
    validate_extra_hosts, validate_mount_specs, validate_ns_value, validate_security_opts,
    HostPath, Resolved,
};

fn host(given: &str, resolved: Option<&str>) -> HostPath {
    let resolved = match resolved {
        Some(at) => Resolved::At(at.to_string()),
        None => Resolved::Nothing("gone".to_string()),
    };
    HostPath { given: given.to_string(), resolved }
}

fn list(items: &[&str]) -> Vec<String> {
    items.iter().map(|s| s.to_string()).collect()
}

#[test]
fn mount_dest_is_workdir_join_basename() {
    let mounts = derive_mounts(&[host("foo", Some("/tmp/t/foo"))], "/root/.pi").unwrap();
    assert_eq!(mounts.len(), 1);
    assert_eq!(mounts[0].host, "/tmp/t/foo");
    assert_eq!(mounts[0].dest, "/root/.pi/foo");
}

#[test]
fn missing_host_path_fails() {
    let mounts = derive_mounts(&[host("/nonexistent-steelbx-test", None)], "/work");
    assert!(mounts.is_err());
    let e = mounts.unwrap_err();
    assert_eq!(e.message, "resolving path '/nonexistent-steelbx-test'");
    assert_eq!(e.causes, vec!["gone"]);
}

#[test]
fn tilde_paths_are_expanded() {
    let at = canonicalize("~/steelbx-test-foo", "/home/simon", true, Ok(String::new())).unwrap();
    assert_eq!(at, "/home/simon/steelbx-test-foo");
    let mounts = derive_mounts(&[host("~/steelbx-test-foo", Some(&at))], "/work").unwrap();
    assert_eq!(mounts[0].host, "/home/simon/steelbx-test-foo");
}

#[test]
fn paths_resolve_to_what_is_there_unless_they_are_remote() {
    let found = Ok("/real".to_string());
    assert_eq!(canonicalize("/link", "/h", false, found).unwrap(), "/real");
    assert_eq!(
        canonicalize("/link", "/h", false, Err("gone".to_string())).unwrap_err().message,
        "resolving path '/link'"
    );
    assert_eq!(canonicalize("/there", "/h", true, Err("gone".to_string())).unwrap(), "/there");
}

#[test]
fn a_path_whose_name_is_no_text_is_not_mounted() {
    let nameless = HostPath { given: "p".to_string(), resolved: Resolved::Nameless };
    assert_eq!(
        derive_mounts(&[nameless], "/work").unwrap_err().message,
        "cannot derive a mount name from 'p' (no basename)"
    );
}

#[test]
fn mounts_keep_their_order_and_trim_the_workdir() {
    let hosts = [host("b", Some("/x/b")), host("a", Some("/y/a/"))];
    let mounts = derive_mounts(&hosts, "/work//").unwrap();
    assert_eq!(mounts[0].dest, "/work/b");
    assert_eq!(mounts[1].dest, "/work/a");
    let root = derive_mounts(&hosts, "/").unwrap();
    assert_eq!(root[0].dest, "/b");
}

#[test]
fn a_path_without_a_basename_has_no_mount() {
    let e = derive_mounts(&[host("/", Some("/"))], "/work").unwrap_err();
    assert_eq!(e.message, "cannot derive a mount name from '/' (no basename)");
}

#[test]
fn mount_specs_shape_is_checked_value_is_trusted() {
    assert!(validate_mount_specs(&["type=devpts,destination=/dev/pts".to_string()]).is_ok());
    assert!(validate_mount_specs(&[]).is_ok());
    for bad in ["", "type=bind,source=/x dest=/y"] {
        assert!(
            validate_mount_specs(&[bad.to_string()]).is_err(),
            "{bad:?} should be rejected"
        );
    }
    assert_eq!(
        validate_mount_specs(&list(&["ok", "a b", ""])).unwrap_err().message,
        "mounts: \"a b\" must be a podman --mount spec (no spaces)"
    );
}

#[test]
fn ns_values_are_single_tokens() {
    assert!(validate_ns_value("pid", "host").is_ok());
    assert!(validate_ns_value("user", "root:root").is_ok());
    assert!(validate_ns_value("ulimits", "host").is_ok());
    for bad in ["", "  ", "host host", "host host"] {
        assert!(
            validate_ns_value("pid", bad).is_err(),
            "{bad:?} should be rejected"
        );
    }
    assert_eq!(
        validate_ns_value("pid", "\t").unwrap_err().message,
        "pid: \"\\t\" must be a single token (no spaces)"
    );
}

#[test]
fn env_names_are_shape_checked() {
    let mut good = IndexMap::new();
    good.insert("TERM".to_string(), "xterm-256color".to_string());
    assert!(validate_env(&good).is_ok());

    let mut bad = IndexMap::new();
    bad.insert("with space".to_string(), String::new());
    assert!(validate_env(&bad).is_err());
    assert_eq!(
        validate_env(&bad).unwrap_err().message,
        "env: \"with space\" is not a valid variable name ([A-Za-z0-9_] only)"
    );
}

#[test]
fn security_opts_shape_is_checked_value_is_trusted() {
    assert!(validate_security_opts(&["label=disable".to_string()]).is_ok());
    assert!(validate_security_opts(&[]).is_ok());
    for bad in ["label", "=disable", "label=", "label = disable"] {
        assert!(
            validate_security_opts(&[bad.to_string()]).is_err(),
            "{bad:?} should be rejected"
        );
    }
    assert_eq!(
        validate_security_opts(&list(&["label"])).unwrap_err().message,
        "security_opts: \"label\" must be 'key=value'"
    );
    assert_eq!(
        validate_security_opts(&list(&["label="])).unwrap_err().message,
        "security_opts: \"label=\" must be 'key=value' (no spaces)"
    );
}

#[test]
fn extra_hosts_shape_is_checked_value_is_trusted() {
    assert!(validate_extra_hosts(&["llm.example.com:host-gateway".to_string()]).is_ok());
    for bad in ["no-colon", ":1.2.3.4", "a b:1.2.3.4", "name:"] {
        assert!(
            validate_extra_hosts(&[bad.to_string()]).is_err(),
            "{bad:?} should be rejected"
        );
    }
    // The first colon separates: an address may hold more of them.
    assert!(validate_extra_hosts(&list(&["six:::1"])).is_ok());
    assert_eq!(
        validate_extra_hosts(&list(&["no-colon"])).unwrap_err().message,
        "extra_hosts: \"no-colon\" must be 'name:address'"
    );
    assert_eq!(
        validate_extra_hosts(&list(&["name:"])).unwrap_err().message,
        "extra_hosts: \"name:\" must be 'name:address' (no spaces)"
    );
}

#[test]
fn variable_names_are_letters_digits_and_underscores() {
    for good in ["A", "a_1", "_", "9"] {
        assert!(is_valid_env_name(good));
    }
    for bad in ["", "a-b", "a b", "é", "A=1"] {
        assert!(!is_valid_env_name(bad), "{bad:?}");
    }
}

#[test]
fn command_line_names_are_bare() {
    assert!(validate_cli_env(&list(&["API_KEY", "MODEL"])).is_ok());
    assert_eq!(
        validate_cli_env(&list(&["API_KEY", "A=1"])).unwrap_err().message,
        "-e: \"A=1\" is not a valid variable name (bare names only)"
    );
}

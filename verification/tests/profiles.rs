//! Profiles: directories, listing, selection and warnings.

use steelbx::config::{
    config_dir_path, data_dir, profile_file, profiles_dir, system_profiles_dir, Listing,
    SteelbxConfig,
};

fn list(items: &[&str]) -> Vec<String> {
    items.iter().map(|s| s.to_string()).collect()
}

fn unreadable(why: &str) -> Listing {
    Listing::Unreadable(why.to_string())
}

fn files(items: &[&str]) -> Listing {
    Listing::Files(list(items))
}

#[test]
fn provided_dirs_follow_the_xdg_convention() {
    let home = "/home/simon";
    assert_eq!(config_dir_path(home), "/home/simon/.config/steelbx");
    assert_eq!(data_dir(home), "/home/simon/.local/share/steelbx");
    assert_eq!(profiles_dir(home), "/home/simon/.config/steelbx/profiles");
    assert_eq!(system_profiles_dir(), "/etc/steelbx/profiles");
    assert_eq!(
        SteelbxConfig::profile_dirs(home),
        vec!["/home/simon/.config/steelbx/profiles", "/etc/steelbx/profiles"]
    );
}

#[test]
fn profile_name_from_filename_strips_the_extension() {
    assert_eq!(
        SteelbxConfig::profile_name_from_filename("net-off.conf".to_string()),
        Some("net-off".to_string())
    );
    assert_eq!(
        SteelbxConfig::profile_name_from_filename("notes.txt".to_string()),
        None
    );
}

#[test]
fn profile_names_are_shape_checked() {
    let dirs = SteelbxConfig::profile_dirs("/home/simon");
    for bad in ["", ".", "..", "a/b", "../x"] {
        // Refused though a file is said to be there.
        let r = SteelbxConfig::profile_path_in(bad, &dirs, &[true, true], &[]);
        assert!(r.is_err(), "{bad:?} should be rejected");
        assert_eq!(
            r.unwrap_err().message,
            format!("invalid profile name: {bad:?} — no path separators, no '..'")
        );
    }
}

#[test]
fn missing_profile_is_an_error_not_the_default() {
    let dirs = SteelbxConfig::profile_dirs("/home/simon");
    let r = SteelbxConfig::profile_path_in(
        "no-such-profile-steelbx-test",
        &dirs,
        &[false, false],
        &[Listing::Absent, Listing::Absent],
    );
    assert!(r.is_err());
}

#[test]
fn shipped_profiles_resolve_with_user_override() {
    let dirs = list(&["/t/user", "/t/system"]);
    let found = [
        files(&["pi-agent.conf"]),
        files(&["pi-agent.conf", "shipped-only.conf"]),
    ];
    let path = |name: &str, present: &[bool]| {
        SteelbxConfig::profile_path_in(name, &dirs, present, &found).map_err(|e| e.message)
    };
    // The profile of the user wins over the shipped one.
    assert_eq!(path("pi-agent", &[true, true]).unwrap(), "/t/user/pi-agent.conf");
    // A name that is only shipped selects the shipped file.
    assert_eq!(
        path("shipped-only", &[false, true]).unwrap(),
        "/t/system/shipped-only.conf"
    );
    // The listing is the union, sorted and without duplicates.
    assert_eq!(
        SteelbxConfig::list_profiles_in(&dirs, &found).unwrap(),
        vec!["pi-agent", "shipped-only"]
    );
    // In neither: an error that names the directories and what there is.
    let err = path("no-such", &[false, false]).unwrap_err();
    assert!(err.contains("/t/system"));
    assert_eq!(
        err,
        "profile 'no-such' not found (looked in: /t/user, /t/system)\nAvailable profiles: pi-agent, shipped-only"
    );
    // Directories that are not there are fine.
    let none = [Listing::Absent, Listing::Absent];
    assert_eq!(
        SteelbxConfig::list_profiles_in(&dirs, &none).unwrap(),
        Vec::<String>::new()
    );
    let err = SteelbxConfig::profile_path_in("x", &dirs, &[false, false], &none).unwrap_err();
    assert!(err.message.ends_with("\nAvailable profiles: none"));
}

#[test]
fn an_unreadable_directory_is_an_error() {
    let dirs = list(&["/a", "/b", "/c"]);
    let found = [files(&["x.conf"]), unreadable("locked"), unreadable("gone")];
    let e = SteelbxConfig::list_profiles_in(&dirs, &found).unwrap_err();
    assert_eq!(e.message, "reading profiles dir /b");
    assert_eq!(e.causes, vec!["locked"]);
    // A selection then names no profiles.
    let err = SteelbxConfig::profile_path_in("y", &dirs, &[false; 3], &found).unwrap_err();
    assert_eq!(
        err.message,
        "profile 'y' not found (looked in: /a, /b, /c)\nAvailable profiles: none"
    );
}

#[test]
fn listing_is_sorted_and_takes_profiles_only() {
    let dirs = list(&["/a"]);
    let found = [files(&["b.conf", "é.conf", "a.conf.bak", "B.conf", "conf", "ab.conf"])];
    assert_eq!(
        SteelbxConfig::list_profiles_in(&dirs, &found).unwrap(),
        vec!["B", "ab", "b", "é"]
    );
}

#[test]
fn create_profile_completion_lists_profiles() {
    let found = [files(&["pi-agent.conf", "toolbox.conf"]), Listing::Absent];
    assert_eq!(
        SteelbxConfig::list_profiles("/home/simon", &found).unwrap(),
        vec!["pi-agent", "toolbox"]
    );
    let found = [Listing::Absent, unreadable("locked")];
    assert_eq!(
        SteelbxConfig::list_profiles("/home/simon", &found).unwrap_err().message,
        "reading profiles dir /etc/steelbx/profiles"
    );
}

#[test]
fn a_profile_file_stands_in_its_directory() {
    assert_eq!(profile_file("/a", "net-off"), "/a/net-off.conf");
}

#[test]
fn runtime_env_in_mounts_is_warned_about() {
    let cfg = SteelbxConfig {
        runtime_env: list(&["SOCK", "HOME"]),
        mounts: list(&[
            "type=bind,src=$SOCK,dst=/s",
            "type=bind,src=${HOME}/x,dst=/x",
            "type=bind,src=$SOCKET,dst=/y",
            "type=bind,src=HOME,dst=SOCK",
            "type=bind,src=$$SOCK,dst=/z",
            "type=bind,src=${SOCK:-/run/s},dst=/r/${HOME}",
        ]),
        ..Default::default()
    };
    assert_eq!(
        SteelbxConfig::warn_runtime_env_in_mounts(&cfg),
        vec![
            "warning: runtime_env \"SOCK\" is referenced in mounts[0] — mount paths are fixed at create time and cannot track the live runtime value",
            "warning: runtime_env \"SOCK\" is referenced in mounts[5] — mount paths are fixed at create time and cannot track the live runtime value",
            "warning: runtime_env \"HOME\" is referenced in mounts[1] — mount paths are fixed at create time and cannot track the live runtime value",
            "warning: runtime_env \"HOME\" is referenced in mounts[5] — mount paths are fixed at create time and cannot track the live runtime value",
        ]
    );
    assert!(SteelbxConfig::warn_runtime_env_in_mounts(&SteelbxConfig::default()).is_empty());
    // A key of the mount is no reference.
    let cfg = SteelbxConfig {
        runtime_env: list(&["src"]),
        mounts: list(&["type=bind,src=/x,dst=/y"]),
        ..Default::default()
    };
    assert!(SteelbxConfig::warn_runtime_env_in_mounts(&cfg).is_empty());
}

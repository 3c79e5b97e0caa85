//! The decisions of the command line.

use steelbx::cli::{
    box_name_from, complete, create_layout, create_spec, default_box_name, main_command,
    merge_runtime_env, note_unset_env, provision_env, ps_table, refuse_existing, resolve_box,
    resolve_image, runtime_env_injection, title_escape, Surroundings,
};
use steelbx::config::SteelbxConfig;
use steelbx::driver::{BoxInfo, BoxRow, Call, ImageMeta, Podman};
use steelbx::validate::{HostPath, Resolved};

fn meta(workdir: Option<&str>, name: Option<&str>, cmd: bool) -> ImageMeta {
    ImageMeta {
        workdir: workdir.map(String::from),
        name: name.map(String::from),
        cmd,
        env: vec!["I".to_string()],
    }
}

fn list(items: &[&str]) -> Vec<String> {
    items.iter().map(|s| s.to_string()).collect()
}

#[test]
fn image_resolves_flag_over_profile_key() {
    let cfg = SteelbxConfig { image: Some("profile-image".into()), ..Default::default() };
    assert_eq!(
        resolve_image(Some("flag-image"), &cfg, "p").unwrap(),
        "flag-image"
    );
    assert_eq!(resolve_image(None, &cfg, "p").unwrap(), "profile-image");
    let err = resolve_image(None, &SteelbxConfig::default(), "pi-agent")
        .unwrap_err()
        .message;
    assert!(err.contains("no image"));
    assert!(err.contains("-i"));
    assert!(err.contains("pi-agent"));
    assert_eq!(err, "no image: pass -i <image> or set `image` in profile 'pi-agent'");
}

#[test]
fn runtime_env_injection_is_set_names_only() {
    let (inject, unset) =
        runtime_env_injection(&["A".into(), "B".into()], &["B".into(), "C".into()], |n| {
            n == "A" || n == "C"
        });
    assert_eq!(inject, vec!["A".to_string(), "C".to_string()]);
    assert_eq!(unset, vec!["B".to_string()]);
}

#[test]
fn runtime_env_merges_profile_and_image() {
    assert_eq!(
        merge_runtime_env(&["A".into(), "B".into()], &["B".into(), "C".into()]),
        vec!["A".to_string(), "B".to_string(), "C".to_string()]
    );
    assert_eq!(merge_runtime_env(&[], &[]), Vec::<String>::new());
}

#[test]
fn default_box_name_is_the_image_name_component() {
    assert_eq!(
        default_box_name("localhost/pi-steelbx:latest"),
        "pi-steelbx"
    );
    assert_eq!(
        default_box_name("registry.fedoraproject.org/fedora:42"),
        "fedora"
    );
    assert_eq!(default_box_name("pi-steelbx"), "pi-steelbx");
    assert_eq!(default_box_name("host:5000/x"), "x");
    assert_eq!(default_box_name("a/"), "");
}

#[test]
fn title_escape_is_osc0_with_box_name() {
    assert_eq!(title_escape("my-box"), b"\x1b]0;steelbx my-box\x07");
    assert_eq!(title_escape("é"), "\x1b]0;steelbx é\x07".as_bytes());
}

#[test]
fn layout_precedence() {
    let hosts = || vec![HostPath { given: "p".into(), resolved: Resolved::At("/h/p".into()) }];
    let dest = |workdir: Option<&str>, image: Option<&str>| {
        let cfg = SteelbxConfig { workdir: workdir.map(String::from), ..Default::default() };
        let (w, m) = create_layout(&cfg, &meta(image, None, false), &hosts()).unwrap();
        (w, m[0].dest.clone())
    };
    assert_eq!(dest(Some("/w/"), Some("/i")), (Some("/w".to_string()), "/w/p".to_string()));
    assert_eq!(dest(None, Some("/i")), (None, "/i/p".to_string()));
    assert_eq!(dest(None, None), (None, "/work/p".to_string()));
    // A working directory of nothing but slashes is the root.
    assert_eq!(dest(Some("/"), Some("/i")), (Some("/".to_string()), "/p".to_string()));
    assert_eq!(dest(Some("//"), None), (Some("/".to_string()), "/p".to_string()));
    assert_eq!(dest(Some(""), Some("/i")), (None, "/i/p".to_string()));
    let cfg = SteelbxConfig::default();
    let gone = vec![HostPath { given: "p".into(), resolved: Resolved::Nothing("gone".into()) }];
    let e = create_layout(&cfg, &meta(None, None, false), &gone).unwrap_err();
    assert_eq!(e.message, "resolving path 'p'");
    assert_eq!(e.causes, vec!["gone"]);
}

#[test]
fn name_precedence() {
    let name = |flag: Option<&str>, declared: Option<&str>| {
        box_name_from(flag, "r/img:1", &meta(None, declared, false)).map_err(|e| e.message)
    };
    assert_eq!(name(Some("flag"), Some("declared")).unwrap(), "flag");
    assert_eq!(name(None, Some("declared")).unwrap(), "declared");
    assert_eq!(name(None, None).unwrap(), "img");
    assert_eq!(
        name(Some("-x"), None).unwrap_err(),
        "invalid box name: \"-x\" — pass -n <name>"
    );
}

#[test]
fn command_precedence() {
    let with = |entry: &[&str], cmd: bool| {
        let cfg = SteelbxConfig { entry: list(entry), ..Default::default() };
        main_command(&cfg, &meta(None, None, cmd))
    };
    assert_eq!(with(&["run", "it"], true), vec!["run", "it"]);
    assert_eq!(with(&[], true), Vec::<String>::new());
    assert_eq!(with(&[], false), vec!["sleep", "infinity"]);
}

#[test]
fn a_taken_name_is_refused() {
    assert!(refuse_existing("b", &None).is_ok());
    let info = |state: Option<&str>| {
        Some(BoxInfo { state: state.map(String::from), marker: None, env: vec![] })
    };
    assert_eq!(
        refuse_existing("b", &info(Some("running"))).unwrap_err().message,
        "box 'b' already exists (state: running)\nRemove it first: steelbx rm b"
    );
    assert_eq!(
        refuse_existing("b", &info(None)).unwrap_err().message,
        "box 'b' already exists (state: ?)\nRemove it first: steelbx rm b"
    );
}

#[test]
fn a_box_is_created_from_policy_and_layout() {
    let cfg = SteelbxConfig {
        network: Some("none".into()),
        runtime_env: list(&["P", "I"]),
        ..Default::default()
    };
    let spec = create_spec(&cfg, &meta(None, None, false), "img", Some("/w".into()), vec![]);
    assert_eq!(spec.image, "img");
    assert_eq!(spec.workdir.as_deref(), Some("/w"));
    assert_eq!(spec.network.as_deref(), Some("none"));
    assert_eq!(spec.command, vec!["sleep", "infinity"]);
    assert_eq!(spec.runtime_env, vec!["P", "I"]);
}

fn inspected(stdout: &str) -> Call {
    Call::Ended {
        code: Some(0),
        status: "exit status: 0".to_string(),
        stdout: stdout.as_bytes().to_vec(),
        stderr: String::new(),
    }
}

#[test]
fn only_marked_containers_are_boxes() {
    let marked = inspected(
        r#"[{"Config":{"Labels":{"com.github.simon3z.steelbx.box":"true","com.github.simon3z.steelbx.box.env":"A"}}}]"#,
    );
    assert_eq!(resolve_box(&Podman, "b", &marked).unwrap().env, vec!["A"]);
    let other = inspected(r#"[{"Config":{"Labels":{}}}]"#);
    assert_eq!(
        resolve_box(&Podman, "b", &other).unwrap_err().message,
        "'b' exists but is not a steelbx box (no com.github.simon3z.steelbx.box label) — refusing; it is not in steelbx's scope"
    );
    let gone = Call::Ended {
        code: Some(125),
        status: String::new(),
        stdout: vec![],
        stderr: "no such object".to_string(),
    };
    assert_eq!(
        resolve_box(&Podman, "b", &gone).unwrap_err().message,
        "box 'b' does not exist"
    );
    let e = resolve_box(&Podman, "b", &Call::NotStarted { why: "x".into() }).unwrap_err();
    assert_eq!(e.message, "running podman");
    assert_eq!(e.causes, vec!["x"]);
}

#[test]
fn unset_names_are_noted_in_one_line() {
    assert_eq!(note_unset_env("b", &[]), None);
    assert_eq!(
        note_unset_env("b", &list(&["A", "B"])).unwrap(),
        "note: box 'b' runtime env A, B not set (left unset this session)"
    );
}

#[test]
fn the_environment_is_provided_unless_it_is_set() {
    let none = Surroundings {
        home: Some("/home/simon".into()),
        has_config_dir: false,
        has_data_dir: false,
        connection: Some("ssh://host".into()),
        has_container_host: false,
    };
    let pair = |k: &str, v: &str| (k.to_string(), v.to_string());
    assert_eq!(
        provision_env(&none).unwrap(),
        vec![
            pair("STEELBX_CONFIG_DIR", "/home/simon/.config/steelbx"),
            pair("STEELBX_DATA_DIR", "/home/simon/.local/share/steelbx"),
            pair("CONTAINER_HOST", "ssh://host"),
        ]
    );
    let all = Surroundings {
        has_config_dir: true,
        has_data_dir: true,
        has_container_host: true,
        ..none
    };
    assert!(provision_env(&all).unwrap().is_empty());
    let homeless = Surroundings { home: None, ..all };
    assert_eq!(
        provision_env(&homeless).unwrap_err().message,
        "HOME is required (steelbx-provided env defaults)"
    );
}

fn row(name: &str, state: &str, created: &str, image: &str) -> BoxRow {
    BoxRow {
        name: name.to_string(),
        state: state.to_string(),
        image: image.to_string(),
        created: created.to_string(),
    }
}

#[test]
fn the_list_is_aligned() {
    assert_eq!(ps_table(&[]), vec!["NAME STATE CREATED IMAGE"]);
    let rows = [
        row("a", "running", "About an hour ago", "x:1"),
        row("a-long-name", "up", "1 day", "y:2"),
    ];
    assert_eq!(
        ps_table(&rows),
        vec![
            "NAME        STATE   CREATED           IMAGE",
            "a           running About an hour ago x:1",
            "a-long-name up      1 day             y:2",
        ]
    );
}

#[test]
fn the_list_is_what_format_makes_of_it() {
    let rows = [row("é", "s", "c", "i"), row("bb", "", "ccccccccc", "")];
    let w = |f: fn(&BoxRow) -> usize, h: usize| rows.iter().map(f).max().unwrap_or(0).max(h);
    let (n, s, c) = (
        w(|b| b.name.len(), 4),
        w(|b| b.state.len(), 5),
        w(|b| b.created.len(), 7),
    );
    let table = ps_table(&rows);
    assert_eq!(table[0], format!("{:<n$} {:<s$} {:<c$} IMAGE", "NAME", "STATE", "CREATED"));
    for (i, b) in rows.iter().enumerate() {
        assert_eq!(
            table[i + 1],
            format!("{:<n$} {:<s$} {:<c$} {}", b.name, b.state, b.created, b.image)
        );
    }
}

#[test]
fn completion_keeps_what_starts_with_the_word() {
    let names = list(&["pi-agent", "toolbox", "pi"]);
    assert_eq!(complete(&names, "pi"), vec!["pi-agent", "pi"]);
    assert_eq!(complete(&names, ""), names);
    assert!(complete(&names, "x").is_empty());
}

#[test]
fn only_the_names_of_a_session_are_asked_for() {
    let asked = std::cell::RefCell::new(vec![]);
    let (declared, cli) = (list(&["A", "B", "A"]), list(&["C", "B", "D"]));
    let (inject, unset) = runtime_env_injection(&declared, &cli, |n: &str| {
        asked.borrow_mut().push(n.to_string());
        n == "B" || n == "D"
    });
    assert_eq!(inject, vec!["B", "D"]);
    assert_eq!(unset, vec!["A", "C"]);
    let all = merge_runtime_env(&declared, &cli);
    assert_eq!(all, vec!["A", "B", "C", "D"]);
    assert_eq!(*asked.borrow(), all);
}

//! The arguments that podman is run with.

use steelbx::config::SteelbxConfig;
use steelbx::driver::args::init_cp_args;
use steelbx::driver::{init_exec_args, CreateSpec, InitStep, Mount, Podman};

#[test]
fn init_exec_argv_is_root_pinned_to_workdir_root() {
    let args = init_exec_args(
        "boxname",
        &["useradd".to_string(), "-m".to_string(), "simon".to_string()],
    );
    assert_eq!(
        args,
        vec![
            "exec".to_string(),
            "-u".to_string(),
            "0".to_string(),
            "-w".to_string(),
            "/".to_string(),
            "boxname".to_string(),
            "useradd".to_string(),
            "-m".to_string(),
            "simon".to_string(),
        ]
    );
}

fn spec() -> CreateSpec {
    CreateSpec {
        image: "img".into(),
        mounts: vec![Mount { host: "/work".into(), dest: "/root/.pi/foo".into() }],
        command: vec!["sleep".into(), "infinity".into()],
        ..Default::default()
    }
}

fn toolbox_like_spec() -> CreateSpec {
    let mut s = spec();
    s.cgroupns = Some("host".into());
    s.ipc = Some("host".into());
    s.pid = Some("host".into());
    s.userns = Some("keep-id".into());
    s.user = Some("root:root".into());
    s.privileged = true;
    s.no_hosts = true;
    s.ulimits = vec!["host".into()];
    s
}

#[test]
fn namespace_and_identity_flags_render_when_declared() {
    let a = Podman::create_args("tb", &toolbox_like_spec());
    for (flag, value) in [
        ("--cgroupns", "host"),
        ("--ipc", "host"),
        ("--pid", "host"),
        ("--userns", "keep-id"),
        ("--user", "root:root"),
        ("--ulimit", "host"),
    ] {
        let i = a.iter().position(|x| x == flag).unwrap();
        assert_eq!(a[i + 1], value);
    }
    assert!(a.contains(&"--privileged".to_string()));
    assert!(a.contains(&"--no-hosts".to_string()));

    let a = Podman::create_args("tb", &spec());
    for flag in [
        "--cgroupns",
        "--ipc",
        "--pid",
        "--userns",
        "--user",
        "--workdir",
        "--ulimit",
        "--privileged",
        "--no-hosts",
    ] {
        assert!(!a.contains(&flag.to_string()), "'{flag}' must be absent");
    }
}

#[test]
fn baseline_pins_security_defaults() {
    let a = Podman::create_args("pi", &spec());
    assert!(!a.contains(&"label=disable".to_string()));
    assert!(!a.contains(&"--security-opt".to_string()));
    assert!(!a.contains(&"--cap-drop".to_string()));
    assert!(!a.contains(&"no-new-privileges".to_string()));
    assert!(a.contains(&"--init".to_string()));
    assert_eq!(a[a.len() - 2], "sleep");
    assert_eq!(a.last().unwrap(), "infinity");
}

#[test]
fn create_renders_the_workdir_override_flag() {
    let a = Podman::create_args("tb", &spec());
    assert!(!a.contains(&"--workdir".to_string()));
    let mut s = spec();
    s.workdir = Some("/home/simon".into());
    let a = Podman::create_args("tb", &s);
    let i = a.iter().position(|x| x == "--workdir").unwrap();
    assert_eq!(a[i + 1], "/home/simon");
}

#[test]
fn command_rendering_is_resolved() {
    let a = Podman::create_args("pi", &spec());
    assert_eq!(a[a.len() - 2], "sleep");

    let mut s = spec();
    s.command = vec![];
    let a = Podman::create_args("pi", &s);
    assert_eq!(a.last().unwrap(), "img");

    let mut s = spec();
    s.command = vec!["init-container".into(), "--uid".into(), "1000".into()];
    let a = Podman::create_args("pi", &s);
    assert_eq!(a[a.len() - 3], "init-container");
    assert_eq!(a[a.len() - 2], "--uid");
    assert_eq!(a.last().unwrap(), "1000");
}

#[test]
fn mount_specs_rendered_as_mount_args() {
    let mut s = spec();
    s.mount_specs = vec!["type=devpts,destination=/dev/pts".into()];
    let a = Podman::create_args("pi", &s);
    let i = a
        .iter()
        .position(|x| x == "type=devpts,destination=/dev/pts")
        .unwrap();
    assert_eq!(a[i - 1], "--mount");

    let a = Podman::create_args("pi", &spec());
    assert!(!a.iter().any(|x| *x == "type=devpts,destination=/dev/pts"));
}

#[test]
fn security_opts_rendered_as_security_opt_args() {
    let mut s = spec();
    s.security_opts = vec!["label=disable".into()];
    let a = Podman::create_args("pi", &s);
    let i = a.iter().position(|x| x == "--security-opt").unwrap();
    assert_eq!(a[i + 1], "label=disable");

    let a = Podman::create_args("pi", &spec());
    assert!(!a.iter().any(|x| x == "--security-opt"));
}

#[test]
fn bind_mounts_are_rendered_as_bind_mounts() {
    let a = Podman::create_args("pi", &spec());
    let i = a
        .iter()
        .position(|x| x == "type=bind,src=/work,dst=/root/.pi/foo")
        .unwrap();
    assert_eq!(a[i - 1], "--mount");
}

#[test]
fn hostname_is_the_box_name() {
    let a = Podman::create_args("pi", &spec());
    let i = a.iter().position(|x| x == "--hostname").unwrap();
    assert_eq!(a[i + 1], "pi");
}

#[test]
fn network_flag_only_when_declared() {
    let a = Podman::create_args("pi", &spec());
    assert!(!a.iter().any(|x| x == "--network"));

    let mut s = spec();
    s.network = Some("bridge".into());
    let a = Podman::create_args("pi", &s);
    let i = a.iter().position(|x| x == "--network").unwrap();
    assert_eq!(a[i + 1], "bridge");
}

#[test]
fn extra_hosts_rendered_as_add_host_args() {
    let mut s = spec();
    s.extra_hosts = vec!["llm.example.com:host-gateway".into()];
    let a = Podman::create_args("pi", &s);
    let i = a.iter().position(|x| x == "--add-host").unwrap();
    assert_eq!(a[i + 1], "llm.example.com:host-gateway");
}

#[test]
fn env_overrides_are_rendered_as_env_args() {
    let mut s = spec();
    s.env
        .insert("TERM".to_string(), "xterm-256color".to_string());
    let a = Podman::create_args("pi", &s);
    let i = a.iter().position(|x| x == "--env").unwrap();
    assert_eq!(a[i + 1], "TERM=xterm-256color");

    let a = Podman::create_args("pi", &spec());
    assert!(!a.iter().any(|x| x == "--env"));
}

#[test]
fn env_rendered_in_insertion_order() {
    let mut s = spec();
    s.env.insert("SECOND".to_string(), "2".to_string());
    s.env.insert("FIRST".to_string(), "1".to_string());
    s.env.insert("SECOND".to_string(), "2b".to_string());
    let a = Podman::create_args("pi", &s);
    let second = a.iter().position(|x| x == "SECOND=2b").unwrap();
    let first = a.iter().position(|x| x == "FIRST=1").unwrap();
    assert!(second < first);
}

#[test]
fn create_carries_the_box_labels() {
    let a = Podman::create_args("pi", &spec());
    let i = a.iter().position(|x| x == "--label").unwrap();
    assert_eq!(a[i + 1], "com.github.simon3z.steelbx.box=true");
    assert_eq!(a[i + 3], "com.github.simon3z.steelbx.box.name=pi");
}

#[test]
fn create_renders_the_box_env_label_when_declared() {
    let a = Podman::create_args("pi", &spec());
    assert!(!a
        .iter()
        .any(|x| { x.starts_with("com.github.simon3z.steelbx.box.env=") }));

    let mut s = spec();
    s.runtime_env = vec!["API_KEY".to_string(), "MODEL".to_string()];
    let a = Podman::create_args("pi", &s);
    let i = a
        .iter()
        .position(|x| x == "com.github.simon3z.steelbx.box.env=API_KEY,MODEL")
        .unwrap();
    assert_eq!(a[i - 1], "--label");
}

#[test]
fn enter_args_pass_runtime_env_bare() {
    let a = Podman::enter_args("b1", &["API_KEY".to_string(), "MODEL".to_string()]);
    let e1 = a.iter().position(|x| x == "-e").unwrap();
    assert_eq!(a[e1 + 1], "API_KEY");
    assert!(!a.iter().any(|x| x.contains('=')));
    assert!(e1 < a.iter().position(|x| x == "b1").unwrap());
}

#[test]
fn enter_is_interactive_nonlogin_bash() {
    let a = Podman::enter_args("b1", &[]);
    assert!(a.contains(&"--interactive".to_string()));
    assert!(a.contains(&"--tty".to_string()));
    assert_eq!(a.last().unwrap(), "/bin/bash");
    assert!(!a.iter().any(|x| x == "-l" || x == "--login"));
    assert!(!a.contains(&"-u".to_string()));
    assert!(!a.contains(&"-w".to_string()));
}

#[test]
fn the_whole_create_vector() {
    let mut s = toolbox_like_spec();
    s.network = Some("bridge".into());
    s.mount_specs = vec!["type=tmpfs".into()];
    s.extra_hosts = vec!["a:1".into()];
    s.env.insert("K".to_string(), "v".to_string());
    s.security_opts = vec!["label=disable".into()];
    s.runtime_env = vec!["N".into()];
    s.workdir = Some("/w".into());
    assert_eq!(
        Podman::create_args("b", &s).join(" "),
        "create --name b --hostname b --init --mount type=bind,src=/work,dst=/root/.pi/foo \
         --network bridge --mount type=tmpfs --add-host a:1 --env K=v --security-opt label=disable \
         --cgroupns host --ipc host --pid host --userns keep-id --user root:root --ulimit host \
         --privileged --no-hosts --label com.github.simon3z.steelbx.box=true \
         --label com.github.simon3z.steelbx.box.name=b \
         --label com.github.simon3z.steelbx.box.env=N --workdir /w img sleep infinity"
    );
}

#[test]
fn nothing_declared_is_the_baseline() {
    let s = CreateSpec { image: "img".into(), ..Default::default() };
    assert_eq!(
        Podman::create_args("b", &s),
        vec![
            "create",
            "--name",
            "b",
            "--hostname",
            "b",
            "--init",
            "--label",
            "com.github.simon3z.steelbx.box=true",
            "--label",
            "com.github.simon3z.steelbx.box.name=b",
            "img",
        ]
    );
}

#[test]
fn session_and_command_vectors() {
    let env = vec!["A".to_string(), "B".to_string()];
    assert_eq!(
        Podman::enter_args("b", &env),
        vec!["exec", "--interactive", "--tty", "-e", "A", "-e", "B", "b", "/bin/bash"]
    );
    let cmd = vec!["ls".to_string(), "-l".to_string()];
    assert_eq!(
        Podman::exec_args("b", &env, &cmd),
        vec!["exec", "-e", "A", "-e", "B", "b", "ls", "-l"]
    );
    assert_eq!(init_cp_args("b", "/h/f", "/d"), vec!["cp", "/h/f", "b:/d"]);
}

#[test]
fn a_policy_gives_everything_but_the_layout() {
    let mut cfg = SteelbxConfig {
        image: Some("i".into()),
        workdir: Some("/w".into()),
        entry: vec!["e".into()],
        network: Some("n".into()),
        extra_hosts: vec!["h:1".into()],
        runtime_env: vec!["R".into()],
        security_opts: vec!["a=b".into()],
        mounts: vec!["m".into()],
        cgroupns: Some("c".into()),
        ipc: Some("i".into()),
        pid: Some("p".into()),
        userns: Some("u".into()),
        user: Some("x".into()),
        privileged: true,
        no_hosts: true,
        ulimits: vec!["l".into()],
        init: Some(vec![InitStep::Exec(vec!["a".into()])]),
        ..Default::default()
    };
    cfg.env.insert("K".to_string(), "v".to_string());
    let s = CreateSpec::from(&cfg);
    assert_eq!(s.image, "");
    assert_eq!(s.workdir, None);
    assert!(s.mounts.is_empty());
    assert!(s.command.is_empty());
    assert_eq!(s.network.as_deref(), Some("n"));
    assert_eq!(s.extra_hosts, vec!["h:1"]);
    assert_eq!(s.env.get("K").map(String::as_str), Some("v"));
    assert_eq!(s.runtime_env, vec!["R"]);
    assert_eq!(s.security_opts, vec!["a=b"]);
    assert_eq!(s.mount_specs, vec!["m"]);
    assert_eq!(s.init, cfg.init);
    assert_eq!(s.cgroupns.as_deref(), Some("c"));
    assert_eq!(s.ipc.as_deref(), Some("i"));
    assert_eq!(s.pid.as_deref(), Some("p"));
    assert_eq!(s.userns.as_deref(), Some("u"));
    assert_eq!(s.user.as_deref(), Some("x"));
    assert!(s.privileged && s.no_hosts);
    assert_eq!(s.ulimits, vec!["l"]);
}

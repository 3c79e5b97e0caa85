//! Policies: how they are expanded and checked.

use indexmap::IndexMap;
use steelbx::config::{
    cp_sources, env_file_path, expand_with, load_env_files_env, parse_env_file, EnvFile,
    SteelbxConfig,
};
use steelbx::driver::InitStep;
use steelbx::error::{failure, failure_under, Error};
use steelbx::vars::Vars;

fn text(v: Option<&toml::Value>) -> Option<String> {
    v.and_then(|v| v.as_str()).map(String::from)
}

fn list(v: Option<&toml::Value>) -> Vec<String> {
    match v.and_then(|v| v.as_array()) {
        Some(a) => a.iter().map(|x| x.as_str().unwrap().to_string()).collect(),
        None => Vec::new(),
    }
}

/// The policy that a TOML text declares.
fn parse(raw: &str) -> Result<SteelbxConfig, String> {
    let t: toml::Table = toml::from_str(raw).unwrap();
    let mut env = IndexMap::new();
    if let Some(pairs) = t.get("env").and_then(|v| v.as_table()) {
        for (k, v) in pairs {
            env.insert(k.clone(), v.as_str().unwrap().to_string());
        }
    }
    let init = match t.get("init").and_then(|v| v.as_array()) {
        None => None,
        Some(steps) => {
            let mut out = Vec::new();
            for step in steps {
                out.push(InitStep::from_words(&list(Some(step))).map_err(|e| e.message)?);
            }
            Some(out)
        }
    };
    Ok(SteelbxConfig {
        image: text(t.get("image")),
        network: text(t.get("network")),
        extra_hosts: list(t.get("extra_hosts")),
        env,
        env_files: list(t.get("env_files")),
        runtime_env: list(t.get("runtime_env")),
        security_opts: list(t.get("security_opts")),
        mounts: list(t.get("mounts")),
        cgroupns: text(t.get("cgroupns")),
        ipc: text(t.get("ipc")),
        pid: text(t.get("pid")),
        userns: text(t.get("userns")),
        user: text(t.get("user")),
        privileged: t.get("privileged").and_then(|v| v.as_bool()).unwrap_or(false),
        no_hosts: t.get("no_hosts").and_then(|v| v.as_bool()).unwrap_or(false),
        ulimits: list(t.get("ulimits")),
        entry: list(t.get("entry")),
        workdir: text(t.get("workdir")),
        init,
    })
}

fn vars(pairs: &[(&str, &str)]) -> Vars {
    let mut v = Vars::new();
    for (k, x) in pairs {
        v.insert(k.to_string(), x.to_string());
    }
    v
}

/// The message of the error and what is behind it, in one line.
fn chain(e: &Error) -> String {
    let mut parts = vec![e.message.clone()];
    parts.extend(e.causes.iter().cloned());
    parts.join(": ")
}

/// Expands and checks the policy; `there` are the host paths that exist.
fn load_with(
    raw: &str,
    caller: &[(&str, &str)],
    files: &[EnvFile],
    there: &[&str],
) -> Result<SteelbxConfig, String> {
    let declared = Some(parse(raw)?);
    let resolve = |path: &str| {
        if there.contains(&path) {
            Ok(path.to_string())
        } else {
            Err(failure_under(format!("resolving path '{path}'"), failure("gone".to_string())))
        }
    };
    SteelbxConfig::load_from(&declared, &vars(caller), files, resolve).map_err(|e| chain(&e))
}

fn load(raw: &str) -> Result<SteelbxConfig, String> {
    load_with(raw, &[], &[], &[])
}

fn file(path: &str, content: &str) -> EnvFile {
    EnvFile::Content { path: path.to_string(), content: content.to_string() }
}

#[test]
fn workdir_override_is_expanded_and_checked() {
    let cfg = load("workdir = \"/$$base\"\n").unwrap();
    assert_eq!(cfg.workdir.as_deref(), Some("/$base"));
    assert!(load("workdir = \"relative\"\n").is_err());
    assert!(load("workdir = \"/\"\n").is_ok());
    assert_eq!(
        load("workdir = \"\"\n").unwrap_err(),
        "workdir: must be a non-empty absolute container path"
    );
}

#[test]
fn loads_init_steps_and_expands_their_arguments() {
    let raw = "init = [\n  [\"exec\", \"chown\", \"$$USER:\", \"/home/$$USER\"],\n  [\"cp\", \"/t/f\", \"/data/x\"],\n]\n";
    let cfg = load_with(raw, &[], &[], &["/t/f"]).unwrap();
    assert_eq!(
        cfg.init,
        Some(vec![
            InitStep::Exec(vec![
                "chown".into(),
                "$USER:".into(),
                "/home/$USER".into()
            ]),
            InitStep::Cp { host: "/t/f".into(), dest: "/data/x".into() },
        ])
    );
    assert!(load("init = []\n").is_err());
    assert!(load("init = [[\"exec\"]]\n").is_err());
    // Empty words of a command are fine.
    assert!(load("init = [[\"exec\", \"true\", \"\"]]\n").is_ok());
}

#[test]
fn init_cp_step_is_host_source_and_container_dest() {
    let cfg = load_with(
        "init = [[\"cp\", \"$SRC/f\", \"/data/$WHO\"]]\n",
        &[("SRC", "/t"), ("WHO", "x")],
        &[],
        &["/t/f"],
    )
    .unwrap();
    assert_eq!(
        cfg.init,
        Some(vec![InitStep::Cp { host: "/t/f".into(), dest: "/data/x".into() }])
    );
}

#[test]
fn init_cp_bad_shapes_are_errors() {
    assert_eq!(
        load("init = [[\"cp\", \"/no-such-steelbx-test\", \"/data/x\"]]\n").unwrap_err(),
        "init: init[0] (a cp step) source does not exist: /no-such-steelbx-test: resolving path '/no-such-steelbx-test': gone"
    );
    for dest in ["data/x", "", "/data/a b"] {
        let raw = format!("init = [[\"exec\", \"true\"], [\"cp\", \"/t/f\", \"{dest}\"]]\n");
        assert_eq!(
            load_with(&raw, &[], &[], &["/t/f"]).unwrap_err(),
            "init: init[1] (a cp step) destination must be a non-empty absolute container path"
        );
    }
    assert!(load("init = [[\"cp\", \"a\", \"b\", \"c\"]]\n").is_err());
    assert!(load("init = [[\"mv\", \"a\", \"b\"]]\n").is_err());
}

#[test]
fn init_messages_name_the_step() {
    assert_eq!(load("init = []\n").unwrap_err(), "init: init must not be empty");
    assert_eq!(
        load("init = [[\"exec\", \"true\"], [\"exec\"]]\n").unwrap_err(),
        "init: init[1] is an exec step and requires a command"
    );
    assert_eq!(
        load("init = [[\"exec\", \"a\", \"$B\"]]\n").unwrap_err(),
        "init[0][1]: references unset variable \"B\""
    );
    assert_eq!(
        load("init = [[\"exec\", \"a\"], [\"cp\", \"$H\", \"$D\"]]\n").unwrap_err(),
        "init[1].0: references unset variable \"H\""
    );
    assert_eq!(
        load("init = [[\"cp\", \"h\", \"$D\"]]\n").unwrap_err(),
        "init[0].1: references unset variable \"D\""
    );
}

#[test]
fn init_step_grammar() {
    let words = |w: &[&str]| -> Vec<String> { w.iter().map(|s| s.to_string()).collect() };
    assert_eq!(
        InitStep::from_words(&words(&["cp", "a", "b"])).unwrap(),
        InitStep::Cp { host: "a".into(), dest: "b".into() }
    );
    assert_eq!(
        InitStep::from_words(&words(&["exec", "a", "b"])).unwrap(),
        InitStep::Exec(words(&["a", "b"]))
    );
    let message = |w: &[&str]| InitStep::from_words(&words(w)).unwrap_err().message;
    assert_eq!(
        message(&[]),
        "an init step: an init step is [\"exec\", ...] or [\"cp\", source, dest]"
    );
    assert_eq!(message(&["cp", "a"]), "an init step: a cp step is [\"cp\", source, dest]");
    assert_eq!(
        message(&["cp", "a", "b", "c"]),
        "an init step: a cp step is exactly [\"cp\", source, dest]"
    );
    assert_eq!(
        message(&["mv"]),
        "an init step: an init step verb must be \"exec\" or \"cp\" (got \"mv\")"
    );
}

#[test]
fn missing_file_is_the_defaults() {
    let cfg = SteelbxConfig::load_from(&None, &Vars::new(), &[], |_: &str| {
        Err(failure(String::new()))
    }).unwrap();
    assert!(cfg.network.is_none());
    assert!(cfg.extra_hosts.is_empty());
    assert!(cfg.env.is_empty());
    assert!(!cfg.privileged);
}

#[test]
fn loads_network_and_extra_hosts() {
    let cfg = load(
        r#"
network = "bridge"
extra_hosts = ["llm.example.com:host-gateway"]
"#,
    )
    .unwrap();
    assert_eq!(cfg.network.as_deref(), Some("bridge"));
    assert_eq!(cfg.extra_hosts.len(), 1);
}

#[test]
fn image_key_is_expanded_and_empty_is_absent() {
    let cfg = load("image = \"$${RAW}\"").unwrap();
    assert_eq!(cfg.image.as_deref(), Some("${RAW}"));
    let cfg = load("image = \"  \"").unwrap();
    assert!(cfg.image.is_none());
    let cfg = load("image = \" x \"").unwrap();
    assert_eq!(cfg.image.as_deref(), Some("x"));
}

#[test]
fn empty_network_is_the_same_as_absent() {
    let cfg = load(r#"network = "  ""#).unwrap();
    assert!(cfg.network.is_none());
}

#[test]
fn loads_the_documented_example_shape() {
    let cfg = load(
        r#"
extra_hosts = [
  "llm.example.com:host-gateway",
]

[env]
COLORTERM = "truecolor"
LANG = "C.UTF-8"
TERM = "xterm-256color"
"#,
    )
    .unwrap();
    assert_eq!(cfg.extra_hosts.len(), 1);
    assert_eq!(
        cfg.env.get("TERM").map(String::as_str),
        Some("xterm-256color")
    );
    assert_eq!(cfg.env.len(), 3);
}

#[test]
fn entry_loads_and_expands() {
    let cfg = load(
        r#"
entry = ["init-container", "--uid", "$$UID", "--user", "simon"]
"#,
    )
    .unwrap();
    assert_eq!(
        cfg.entry,
        vec!["init-container", "--uid", "$UID", "--user", "simon"]
    );
    assert_eq!(
        load("entry = [\"a\", \"\"]\n").unwrap_err(),
        "entry: entry[1] must not be empty"
    );
    assert!(load("entry = [\"\"]\n").is_err());
}

#[test]
fn namespace_and_identity_keys_load() {
    let cfg = load(
        r#"
cgroupns = "host"
ipc = "host"
pid = "host"
userns = "keep-id"
user = "root:root"
privileged = true
no_hosts = true
ulimits = ["host"]
"#,
    )
    .unwrap();
    assert_eq!(cfg.cgroupns.as_deref(), Some("host"));
    assert_eq!(cfg.ipc.as_deref(), Some("host"));
    assert_eq!(cfg.pid.as_deref(), Some("host"));
    assert_eq!(cfg.userns.as_deref(), Some("keep-id"));
    assert_eq!(cfg.user.as_deref(), Some("root:root"));
    assert!(cfg.privileged);
    assert!(cfg.no_hosts);
    assert_eq!(cfg.ulimits, vec!["host"]);
}

#[test]
fn namespace_spaced_value_is_refused() {
    assert!(load("pid = \"host host\"\n").is_err());
    assert_eq!(
        load("pid = \"\"\nuser = \"a b\"\n").unwrap_err(),
        "pid: \"\" must be a single token (no spaces)"
    );
    assert_eq!(
        load("ulimits = [\"host\", \"a b\"]\n").unwrap_err(),
        "ulimits: \"a b\" must be a single token (no spaces)"
    );
}

#[test]
fn env_values_are_visible_to_the_rest_but_not_each_other() {
    let cfg = load_with(
        r#"
image = "$IMG"
network = "${NET:-none}"
workdir = "${E:-/work}/code"

[env]
IMG = "img-1"
NET = "bridge"
E = ""
"#,
        &[("IMG", "caller-img"), ("E", "caller-e")],
        &[],
        &[],
    )
    .unwrap();
    assert_eq!(cfg.image.as_deref(), Some("img-1"));
    assert_eq!(cfg.network.as_deref(), Some("bridge"));
    assert_eq!(cfg.workdir.as_deref(), Some("/work/code"));

    let e = load_with(
        r#"
[env]
A = "$B"
B = "b"
"#,
        &[],
        &[],
        &[],
    )
    .unwrap_err();
    assert_eq!(e, "env.A: references unset variable \"B\"");
}

#[test]
fn expansion_is_applied_to_every_string_value() {
    let cfg = load(
        r#"
security_opts = ["label=dis$$able"]
"#,
    )
    .unwrap();
    assert_eq!(cfg.security_opts, vec!["label=dis$able"]);

    let raw = r#"
image = "$X"
network = "$X"
extra_hosts = ["$X:1"]
security_opts = ["$X=1"]
mounts = ["$X"]
cgroupns = "$X"
ipc = "$X"
pid = "$X"
userns = "$X"
user = "$X"
ulimits = ["$X"]
entry = ["$X"]
workdir = "/$X"
init = [["exec", "$X"]]

[env]
E = "$X"
"#;
    let cfg = load_with(raw, &[("X", "x")], &[], &[]).unwrap();
    assert_eq!(cfg.image.as_deref(), Some("x"));
    assert_eq!(cfg.network.as_deref(), Some("x"));
    assert_eq!(cfg.extra_hosts, vec!["x:1"]);
    assert_eq!(cfg.security_opts, vec!["x=1"]);
    assert_eq!(cfg.mounts, vec!["x"]);
    assert_eq!(cfg.cgroupns.as_deref(), Some("x"));
    assert_eq!(cfg.ipc.as_deref(), Some("x"));
    assert_eq!(cfg.pid.as_deref(), Some("x"));
    assert_eq!(cfg.userns.as_deref(), Some("x"));
    assert_eq!(cfg.user.as_deref(), Some("x"));
    assert_eq!(cfg.ulimits, vec!["x"]);
    assert_eq!(cfg.entry, vec!["x"]);
    assert_eq!(cfg.workdir.as_deref(), Some("/x"));
    assert_eq!(cfg.init, Some(vec![InitStep::Exec(vec!["x".into()])]));
    assert_eq!(cfg.env.get("E").map(String::as_str), Some("x"));
}

#[test]
fn expansion_reports_the_first_value_in_order() {
    let raw = "mounts = [\"$M\"]\nimage = \"$I\"\nnetwork = \"$N\"\n\n[env]\nE = \"$E\"\n";
    let unset = |set: &[(&str, &str)]| load_with(raw, set, &[], &[]).unwrap_err();
    assert_eq!(unset(&[]), "env.E: references unset variable \"E\"");
    assert_eq!(unset(&[("E", "1")]), "network: references unset variable \"N\"");
    assert_eq!(
        unset(&[("E", "1"), ("N", "1")]),
        "image: references unset variable \"I\""
    );
    assert_eq!(
        unset(&[("E", "1"), ("N", "1"), ("I", "1")]),
        "mounts[0]: references unset variable \"M\""
    );
}

#[test]
fn env_files_are_an_expansion_source_not_the_container_env() {
    let raw = "env_files = [\"/t/one.env\", \"/t/two.env\"]\nimage = \"$Apple\"\n\n[env]\nEgg = \"$Cherry\"\nDate = \"5\"\n";
    let files = [
        file("/t/one.env", "Apple=2\nBanana=3\n"),
        file("/t/two.env", "Apple=20\nCherry=4\n"),
    ];
    let cfg = load_with(raw, &[], &files, &[]).unwrap();
    let order: Vec<&str> = cfg.env.keys().map(String::as_str).collect();
    assert_eq!(order, vec!["Egg", "Date"]);
    assert_eq!(cfg.env.get("Egg").map(String::as_str), Some("4"));
    assert_eq!(cfg.env.get("Date").map(String::as_str), Some("5"));
    assert_eq!(cfg.image.as_deref(), Some("20"));
}

#[test]
fn env_file_values_are_visible_to_other_fields() {
    let cfg = load_with(
        "env_files = [\"/t/one.env\"]\nimage = \"$IMG\"\n",
        &[],
        &[file("/t/one.env", "IMG=my-image\n")],
        &[],
    )
    .unwrap();
    assert_eq!(cfg.image.as_deref(), Some("my-image"));
}

#[test]
fn env_file_paths_and_values_expand_against_the_caller() {
    let caller = [("DIR", "/t"), ("WHO", "simon")];
    assert_eq!(env_file_path("$DIR/one.env", &vars(&caller)).unwrap(), "/t/one.env");
    let raw = "env_files = [\"$DIR/one.env\"]\nimage = \"$IMG\"\n";
    let one = [file("/t/one.env", "IMG=$WHO/box\nWHO=other\n")];
    let cfg = load_with(raw, &caller, &one, &[]).unwrap();
    assert_eq!(cfg.image.as_deref(), Some("simon/box"));
    let bad = [file("/t/one.env", "A=1\nIMG=$A\n")];
    assert_eq!(
        load_with(raw, &caller, &bad, &[]).unwrap_err(),
        "env_files.IMG: references unset variable \"A\""
    );
}

#[test]
fn runtime_env_is_names_only() {
    let cfg = load("runtime_env = [\"API_KEY\", \"MODEL\"]\n").unwrap();
    assert_eq!(
        cfg.runtime_env,
        vec!["API_KEY".to_string(), "MODEL".to_string()]
    );
    assert!(load_with("runtime_env = [\"$TARGET\"]\n", &[("TARGET", "A")], &[], &[]).is_err());
    assert!(load("runtime_env = [\"a b\"]\n").is_err());
    assert_eq!(
        load("runtime_env = [\"A\", \"$T\"]\n").unwrap_err(),
        "runtime_env: runtime_env[1] \"$T\" is not a valid variable name ([A-Za-z0-9_] only)"
    );
}

#[test]
fn missing_env_file_is_an_error() {
    let raw = "env_files = [\"/no-such-steelbx-test.env\"]\n";
    assert_eq!(
        load(raw).unwrap_err(),
        "resolving path '/no-such-steelbx-test.env': nothing was looked for"
    );
    let missing = EnvFile::Missing { why: "gone".to_string() };
    assert_eq!(
        load_with(raw, &[], &[missing], &[]).unwrap_err(),
        "resolving path '/no-such-steelbx-test.env': gone"
    );
    let locked = EnvFile::Unreadable { path: "/real.env".to_string(), why: "no".to_string() };
    assert_eq!(
        load_with(raw, &[], &[locked], &[]).unwrap_err(),
        "reading env file /real.env: no"
    );
    assert_eq!(
        load("env_files = [\"$D/x\"]\n").unwrap_err(),
        "env_files: references unset variable \"D\""
    );
}

#[test]
fn malformed_env_file_line_is_an_error() {
    let raw = "env_files = [\"/t/one.env\"]\n";
    let one = [file("/t/one.env", "this line has no equals\n")];
    let err = load_with(raw, &[], &one, &[]).unwrap_err();
    assert!(err.contains("KEY=VALUE"), "error must name the bad line: {err}");
    assert_eq!(
        err,
        "/t/one.env:1: expected KEY=VALUE (got \"this line has no equals\")"
    );
    let two = [file("/t/one.env", "\n# x\na-b=1\n")];
    assert_eq!(
        load_with(raw, &[], &two, &[]).unwrap_err(),
        "/t/one.env:3: \"a-b\" is not a valid variable name"
    );
}

#[test]
fn parse_env_file_rules_are_pinned() {
    let mut m: IndexMap<String, String> = IndexMap::new();
    parse_env_file(
        "# a comment\n\nexport Zeta=bar\nAlpha = spaced\nEMPTY=\n  Beta=4\n",
        "f",
        &mut m,
    )
    .unwrap();
    let order: Vec<&str> = m.keys().map(String::as_str).collect();
    assert_eq!(order, vec!["Zeta", "Alpha", "EMPTY", "Beta"]);
    assert_eq!(m.get("Zeta").map(String::as_str), Some("bar"));
    assert_eq!(m.get("Alpha").map(String::as_str), Some("spaced"));
    assert_eq!(m.get("EMPTY").map(String::as_str), Some(""));
    assert_eq!(m.get("Beta").map(String::as_str), Some("4"));
    assert!(parse_env_file("no equals here\n", "f", &mut IndexMap::new()).is_err());
    assert!(parse_env_file("a-b=1\n", "f", &mut IndexMap::new()).is_err());
}

#[test]
fn a_later_line_overrides_in_place() {
    let mut m: IndexMap<String, String> = IndexMap::new();
    parse_env_file("A=1\r\nB=2\r\nA=a = b\r\n", "f", &mut m).unwrap();
    let pairs: Vec<(&str, &str)> = m.iter().map(|(k, v)| (k.as_str(), v.as_str())).collect();
    assert_eq!(pairs, vec![("A", "a = b"), ("B", "2")]);
    // What stands in front of a bad line has been read.
    assert!(parse_env_file("C=3\nbad\nD=4\n", "f", &mut m).is_err());
    assert_eq!(m.get("C").map(String::as_str), Some("3"));
    assert_eq!(m.get("D"), None);
}

#[test]
fn a_later_file_overrides_an_earlier_one() {
    let paths = vec!["one".to_string(), "two".to_string()];
    let files = [file("one", "A=1\nB=2\n"), file("two", "B=3\nC=4\n")];
    let t = load_env_files_env(&paths, &Vars::new(), &files).unwrap();
    let pairs: Vec<(&str, &str)> = t.iter().map(|(k, v)| (k.as_str(), v.as_str())).collect();
    assert_eq!(pairs, vec![("A", "1"), ("B", "3"), ("C", "4")]);
}

#[test]
fn extra_hosts_shape_is_still_checked() {
    assert!(load(r#"extra_hosts = ["no-colon"]"#).is_err());
}

#[test]
fn loads_mounts_and_checks_their_shape() {
    let cfg = load(r#"mounts = ["type=devpts,destination=/dev/pts"]"#).unwrap();
    assert_eq!(cfg.mounts, vec!["type=devpts,destination=/dev/pts"]);
    assert!(load(r#"mounts = ["type=bind,source=/x dest=/y"]"#).is_err());
}

#[test]
fn loads_security_opts_and_checks_their_shape() {
    let cfg = load(r#"security_opts = ["label=disable"]"#).unwrap();
    assert_eq!(cfg.security_opts, vec!["label=disable"]);
    assert!(load(r#"security_opts = ["label"]"#).is_err());
}

#[test]
fn env_names_are_checked_and_values_are_free() {
    let cfg = load("[env]\nA_1 = \"any = value at all\"\n").unwrap();
    assert_eq!(cfg.env.get("A_1").map(String::as_str), Some("any = value at all"));
    assert_eq!(
        load("[env]\n\"a-b\" = \"1\"\n").unwrap_err(),
        "env: \"a-b\" is not a valid variable name ([A-Za-z0-9_] only)"
    );
}

#[test]
fn an_accepted_policy_is_accepted_again() {
    let cfg = load("image = \" x \"\nnetwork = \" \"\nentry = [\"a\"]\n").unwrap();
    let again = SteelbxConfig::validate_config(&cfg, &[]).unwrap();
    assert_eq!(again.image, cfg.image);
    assert_eq!(again.network, cfg.network);
    assert_eq!(again.entry, cfg.entry);
}

#[test]
fn a_copy_holds_the_same() {
    let cfg = load("image = \"x\"\ninit = [[\"exec\", \"a\"]]\n\n[env]\nB = \"2\"\nA = \"1\"\n").unwrap();
    let copy = cfg.clone();
    assert_eq!(copy.image.as_deref(), Some("x"));
    assert_eq!(copy.init, cfg.init);
    let order: Vec<&str> = copy.env.keys().map(String::as_str).collect();
    assert_eq!(order, vec!["B", "A"]);
}

#[test]
fn expansion_and_checks_in_two_steps() {
    let cfg = parse("init = [[\"exec\", \"a\"], [\"cp\", \"$H\", \"/d\"]]\n").unwrap();
    let cfg = expand_with(&cfg, &vars(&[("H", "/link")]), &[]).unwrap();
    assert_eq!(cp_sources(&cfg.init), vec![None, Some("/link".to_string())]);
    assert!(cp_sources(&None).is_empty());
    let resolved = [Err(failure(String::new())), Ok("/real".to_string())];
    let done = SteelbxConfig::validate_config(&cfg, &resolved).unwrap();
    assert_eq!(
        done.init.unwrap()[1],
        InitStep::Cp { host: "/real".into(), dest: "/d".into() }
    );
    // A source that nobody looked for does not exist.
    assert!(SteelbxConfig::validate_config(&cfg, &[]).is_err());
}

#[test]
fn a_written_env_file_reads_back() {
    let pairs = [("A", "1"), ("B_2", ""), ("export", "x = y"), ("C", "#not a comment"), ("9", "$A=")];
    let content: Vec<String> = pairs.iter().map(|(k, v)| format!("{k}={v}")).collect();
    let mut out = IndexMap::new();
    parse_env_file(&content.join("\n"), "f", &mut out).unwrap();
    let read: Vec<(&str, &str)> = out.iter().map(|(k, v)| (k.as_str(), v.as_str())).collect();
    assert_eq!(read, pairs);
    let mut none = IndexMap::new();
    parse_env_file("", "f", &mut none).unwrap();
    assert!(none.is_empty());
}

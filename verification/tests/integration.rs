//! Whole lives of boxes, against a podman made of a few lines.

use serde_json::Value;
use steelbx::config::SteelbxConfig;
use steelbx::driver::calls::{image_inspect_args, image_markers, images_args, inspect_args};
use steelbx::driver::{
    Action, BoxInfo, Call, CreateSpec, InitStep, Mount, Podman, Turn,
};
use steelbx::new_box::NewBox;
use steelbx::validate::{derive_mounts, HostPath, Resolved};
use steelbx::visit::Visit;

const FEDORA: &str = "registry.fedoraproject.org/fedora:42";

struct Container {
    name: String,
    running: bool,
    labels: Vec<(String, String)>,
    files: Vec<String>,
}

struct Image {
    name: String,
    workdir: String,
    labels: Vec<(String, String)>,
}

/// The store of a podman: containers and images, and the variables of the
/// caller.
#[derive(Default)]
struct Store {
    containers: Vec<Container>,
    images: Vec<Image>,
    caller: Vec<(String, String)>,
    made: Vec<String>,
}

fn ended(code: i32, stdout: &str, stderr: &str) -> Call {
    Call::Ended {
        code: Some(code),
        status: format!("exit status: {code}"),
        stdout: stdout.as_bytes().to_vec(),
        stderr: stderr.to_string(),
    }
}

fn label(s: &str) -> (String, String) {
    let (k, v) = s.split_once('=').unwrap();
    (k.to_string(), v.to_string())
}

fn object(pairs: Vec<(&str, Value)>) -> Value {
    let mut m = serde_json::Map::new();
    for (k, v) in pairs {
        m.insert(k.to_string(), v);
    }
    Value::Object(m)
}

fn labels_json(labels: &[(String, String)]) -> Value {
    object(labels.iter().map(|(k, v)| (k.as_str(), Value::from(v.as_str()))).collect())
}

fn after<'a>(args: &[&'a str], flag: &str) -> Vec<&'a str> {
    let mut out = vec![];
    for w in args.windows(2) {
        if w[0] == flag {
            out.push(w[1]);
        }
    }
    out
}

impl Store {
    fn new() -> Store {
        let mut s = Store::default();
        s.image(FEDORA, "/root", &[]);
        s
    }

    fn image(&mut self, name: &str, workdir: &str, labels: &[&str]) {
        self.images.push(Image {
            name: name.to_string(),
            workdir: workdir.to_string(),
            labels: labels.iter().map(|l| label(l)).collect(),
        });
    }

    fn find(&mut self, name: &str) -> Option<&mut Container> {
        self.containers.iter_mut().find(|c| c.name == name)
    }

    fn create(&mut self, args: &[&str]) -> Call {
        let name = after(args, "--name")[0];
        if self.find(name).is_some() {
            return ended(125, "", "the container name is already in use");
        }
        if after(args, "--user").contains(&"steelbx-no-such-user") {
            return ended(125, "", "unable to find user");
        }
        let image = self.images.iter().find(|i| args.contains(&i.name.as_str()));
        if image.is_none() {
            return ended(125, "", "no such image");
        }
        self.containers.push(Container {
            name: name.to_string(),
            running: false,
            labels: after(args, "--label").iter().map(|l| label(l)).collect(),
            files: vec![],
        });
        ended(0, "", "")
    }

    fn exec(&mut self, args: &[&str]) -> Call {
        let caller: Vec<String> = self.caller.iter().map(|(k, _)| k.clone()).collect();
        let Some(at) = args.iter().position(|a| self.containers.iter().any(|c| c.name == *a))
        else {
            return ended(125, "", "no such container");
        };
        let passed: Vec<&str> = after(&args[..at], "-e")
            .into_iter()
            .filter(|n| caller.iter().any(|k| k == n))
            .collect();
        let c = self.find(args[at]).unwrap();
        if !c.running {
            return ended(255, "", "container is not running");
        }
        let code = match &args[at + 1..] {
            ["false"] => 1,
            ["touch", path] => {
                c.files.push(path.to_string());
                0
            }
            ["sh", "-c", "exit 7"] => 7,
            ["sh", "-c", line] if line.ends_with("= from-host") => {
                i32::from(passed != ["STEELBX_IT_RUNTIME_ENV"])
            }
            ["sh", "-c", line] if line.starts_with("test -z") => i32::from(!passed.is_empty()),
            ["sh", "-c", line] => {
                let words: Vec<&str> = line.split(' ').collect();
                if c.files.iter().any(|f| f == words[2]) {
                    c.files.push(words[5].to_string());
                    0
                } else {
                    1
                }
            }
            _ => 127,
        };
        ended(code, "", "")
    }

    /// The answer to a call.
    fn answer(&mut self, args: &[String]) -> Call {
        self.made.push(args.join(" "));
        let args: Vec<&str> = args.iter().map(String::as_str).collect();
        match args.as_slice() {
            ["create", ..] => self.create(&args),
            ["inspect", name] => match self.find(name) {
                None => ended(125, "", "Error: no such object"),
                Some(c) => {
                    let state = if c.running { "running" } else { "created" };
                    let v = object(vec![
                        ("State", object(vec![("Status", Value::from(state))])),
                        ("Config", object(vec![("Labels", labels_json(&c.labels))])),
                    ]);
                    ended(0, &Value::Array(vec![v]).to_string(), "")
                }
            },
            ["image", "inspect", name] => match self.images.iter().find(|i| i.name == *name) {
                None => ended(125, "", "no such image"),
                Some(i) => {
                    let config = object(vec![
                        ("WorkingDir", Value::from(i.workdir.as_str())),
                        ("Labels", labels_json(&i.labels)),
                    ]);
                    let v = object(vec![("Config", config)]);
                    ended(0, &Value::Array(vec![v]).to_string(), "")
                }
            },
            ["images", "--filter", filter, "--format", "json"] => {
                let marker = filter.strip_prefix("label=").unwrap();
                let rows: Vec<Value> = self
                    .images
                    .iter()
                    .filter(|i| i.labels.iter().any(|(k, _)| k == marker))
                    .map(|i| object(vec![("repoTags", Value::from(vec![i.name.clone()]))]))
                    .collect();
                ended(0, &Value::Array(rows).to_string(), "")
            }
            ["start", name] | ["kill", name] => {
                let start = args[0] == "start";
                match self.find(name) {
                    Some(c) => {
                        c.running = start;
                        ended(0, "", "")
                    }
                    None => ended(125, "", "no such container"),
                }
            }
            ["rm", name] => match self.find(name) {
                Some(c) if c.running => ended(2, "", "container is running"),
                Some(_) => {
                    self.containers.retain(|c| c.name != *name);
                    ended(0, "", "")
                }
                None => ended(1, "", "no such container"),
            },
            ["cp", _, to] => {
                let (name, dest) = to.split_once(':').unwrap();
                self.find(name).unwrap().files.push(dest.to_string());
                ended(0, "", "")
            }
            ["exec", ..] => self.exec(&args),
            _ => ended(125, "", "unknown command"),
        }
    }

    fn act(&mut self, action: Action) -> Call {
        match action {
            Action::Run(args) => self.answer(&args),
            Action::Session(args) => self.answer(&args),
        }
    }

    fn create_box(&mut self, name: &str, spec: &CreateSpec) -> Result<(), String> {
        let mut work = Podman.create(name, spec);
        loop {
            let call = self.act(work.action());
            match work.next(&call) {
                Turn::Go(w) => work = w,
                Turn::Warn(w, _) => work = w,
                Turn::Done(r) => return r.map_err(|e| e.message),
            }
        }
    }

    fn remove(&mut self, name: &str, force: bool) -> Result<(), String> {
        let mut work = Podman.remove_container(name, force);
        loop {
            let call = self.act(work.action());
            match work.next(&call) {
                Turn::Go(w) => work = w,
                Turn::Warn(w, _) => work = w,
                Turn::Done(r) => return r.map_err(|e| e.message),
            }
        }
    }

    fn exec_in(&mut self, name: &str, env: &[&str], cmd: &[&str]) -> Result<(), String> {
        let env: Vec<String> = env.iter().map(|s| s.to_string()).collect();
        let cmd: Vec<String> = cmd.iter().map(|s| s.to_string()).collect();
        let mut work = Podman.exec(name, &env, &cmd);
        loop {
            let call = self.act(work.action());
            match work.next(&call) {
                Turn::Go(w) => work = w,
                Turn::Warn(w, _) => work = w,
                Turn::Done(r) => return r.map_err(|e| e.message),
            }
        }
    }

    fn inspect(&mut self, name: &str) -> Option<BoxInfo> {
        let call = self.answer(&inspect_args(name));
        Podman.inspect(name, &call).unwrap()
    }

    fn force_remove(&mut self, name: &str) {
        let err = self.remove(name, false).unwrap_err();
        assert!(err.contains("force"), "rm of a running box must require force");
        self.remove(name, true).unwrap();
        assert!(self.inspect(name).is_none());
    }
}

fn sleeping(image: &str) -> CreateSpec {
    CreateSpec {
        image: image.to_string(),
        command: vec!["sleep".to_string(), "infinity".to_string()],
        ..Default::default()
    }
}

#[test]
fn g1_create_exec_rm() {
    let mut store = Store::new();
    let call = store.answer(&image_inspect_args(FEDORA));
    let meta = Podman.image_meta(FEDORA, &call).unwrap();
    let workdir = meta.workdir.unwrap();
    let hosts = [HostPath { given: "proj".into(), resolved: Resolved::At("/t/proj".into()) }];
    let mut spec = sleeping(FEDORA);
    spec.mounts = derive_mounts(&hosts, &workdir).unwrap();
    assert_eq!(spec.mounts[0].dest, "/root/proj");
    store.create_box("steelbx-it", &spec).unwrap();
    assert!(store.inspect("steelbx-it").is_some());
    assert!(
        store.create_box("steelbx-it", &spec).is_err(),
        "second create must be refused"
    );
    // The box that was there is left alone.
    assert!(store.inspect("steelbx-it").is_some());
    let marker = format!("{workdir}/proj/marker");
    store.exec_in("steelbx-it", &[], &["touch", &marker]).unwrap();
    assert!(store.find("steelbx-it").unwrap().files.contains(&marker));
    assert_eq!(
        store.exec_in("steelbx-it", &[], &["sh", "-c", "exit 7"]).unwrap_err(),
        "exec exited: exit status: 7"
    );
    store.force_remove("steelbx-it");
}

#[test]
fn g2_image_declared_command() {
    let mut store = Store::new();
    let img = "steelbx-it-lbl:latest";
    store.image(
        img,
        "/tmp",
        &[
            "com.github.simon3z.steelbx.box=true",
            "com.github.simon3z.steelbx.box.cmd=true",
        ],
    );
    let call = store.answer(&image_inspect_args(img));
    let meta = Podman.image_meta(img, &call).unwrap();
    assert!(meta.cmd, "the cmd label must be readable");
    assert_eq!(meta.workdir.as_deref(), Some("/tmp"));
    let spec = CreateSpec { image: img.to_string(), ..Default::default() };
    store.create_box("steelbx-it-cmd", &spec).unwrap();
    assert!(store.made.last().unwrap().ends_with(" steelbx-it-lbl:latest"));
    assert!(store.inspect("steelbx-it-cmd").is_some());
    store.remove("steelbx-it-cmd", true).unwrap();
}

#[test]
fn g3_toolbox_flag_set_is_accepted_by_podman() {
    let mut store = Store::new();
    let nodir = "/steelbx-nodir-test";
    let spec = CreateSpec {
        network: Some("host".to_string()),
        security_opts: vec!["label=disable".to_string()],
        mount_specs: vec!["type=bind,source=/tmp,destination=/tmp".to_string()],
        cgroupns: Some("host".to_string()),
        ipc: Some("host".to_string()),
        pid: Some("host".to_string()),
        userns: None,
        user: Some("root".to_string()),
        workdir: Some(nodir.to_string()),
        privileged: true,
        no_hosts: true,
        ulimits: vec!["host".to_string()],
        ..sleeping(FEDORA)
    };
    store.create_box("steelbx-it-toolbox", &spec).unwrap();
    assert_eq!(store.made.len(), 1, "the box is never started");
    assert!(store.inspect("steelbx-it-toolbox").is_some());
    store.remove("steelbx-it-toolbox", true).unwrap();
}

#[test]
fn g4_init_commands_run_as_root_after_create() {
    let mut store = Store::new();
    let dest = "/root/data".to_string();
    let marker = format!("{dest}/steelbx-init-ok");
    let spec = CreateSpec {
        mounts: vec![Mount { host: "/t".into(), dest }],
        init: Some(vec![InitStep::Exec(vec!["touch".to_string(), marker.clone()])]),
        network: Some("host".to_string()),
        ..sleeping(FEDORA)
    };
    store.create_box("steelbx-it-init", &spec).unwrap();
    assert!(
        store.find("steelbx-it-init").unwrap().files.contains(&marker),
        "the init command (exec -u 0) must have run"
    );
    assert!(store.made.last().unwrap().starts_with("exec -u 0 -w / steelbx-it-init touch"));
    store.force_remove("steelbx-it-init");
}

#[test]
fn g5_failed_init_rolls_the_box_back() {
    let mut store = Store::new();
    let spec = CreateSpec {
        init: Some(vec![InitStep::Exec(vec!["false".to_string()])]),
        ..sleeping(FEDORA)
    };
    assert_eq!(
        store.create_box("steelbx-it-initfail", &spec).unwrap_err(),
        "init.exec[0] exited: exit status: 1"
    );
    assert!(
        store.inspect("steelbx-it-initfail").is_none(),
        "a failed init must roll the box back"
    );
}

#[test]
fn g6_user_override_is_unresolvable() {
    let mut store = Store::new();
    let spec = CreateSpec {
        user: Some("steelbx-no-such-user".to_string()),
        ..sleeping(FEDORA)
    };
    assert!(store.create_box("steelbx-it-u", &spec).is_err());
    assert!(
        store.inspect("steelbx-it-u").is_none(),
        "a refused create must leave no box"
    );
}

#[test]
fn g7_files_are_copied_before_init_cmds() {
    let mut store = Store::new();
    let dest = "/root/data";
    let spec = CreateSpec {
        mounts: vec![Mount { host: "/t".into(), dest: dest.into() }],
        init: Some(vec![
            InitStep::Cp { host: "/t/src".into(), dest: format!("{dest}/copied") },
            InitStep::Exec(vec![
                "sh".to_string(),
                "-c".to_string(),
                format!("test -f {dest}/copied && touch {dest}/steelbx-files-ok"),
            ]),
        ]),
        network: Some("host".to_string()),
        ..sleeping(FEDORA)
    };
    store.create_box("steelbx-it-files", &spec).unwrap();
    assert!(
        store
            .find("steelbx-it-files")
            .unwrap()
            .files
            .contains(&format!("{dest}/steelbx-files-ok")),
        "the init command must have seen the copied file"
    );
    store.force_remove("steelbx-it-files");
}

#[test]
fn g7_image_completion_lists_both_markers() {
    let mut store = Store::new();
    store.image("steelbx-it-mk-box", "/", &["com.github.simon3z.steelbx.box=true"]);
    store.image("steelbx-it-mk-tb", "/", &["com.github.containers.toolbox=true"]);
    store.image(
        "steelbx-it-mk-both",
        "/",
        &[
            "com.github.simon3z.steelbx.box=true",
            "com.github.containers.toolbox=true",
        ],
    );
    store.image("steelbx-it-mk-plain", "/", &[]);
    let mut names = vec![];
    for marker in image_markers() {
        let call = store.answer(&images_args(&marker));
        names = Podman.image_names(names, &marker, &call).unwrap();
    }
    assert_eq!(
        names,
        vec!["steelbx-it-mk-box", "steelbx-it-mk-both", "steelbx-it-mk-tb"]
    );
}

#[test]
fn g8_runtime_env_copies_from_the_caller_env() {
    let mut store = Store::new();
    store.caller.push(("STEELBX_IT_RUNTIME_ENV".to_string(), "from-host".to_string()));
    let spec = CreateSpec {
        runtime_env: vec!["STEELBX_IT_RUNTIME_ENV".to_string()],
        ..sleeping(FEDORA)
    };
    store.create_box("steelbx-it-re", &spec).unwrap();
    let info = store.inspect("steelbx-it-re").unwrap();
    assert_eq!(info.env, vec!["STEELBX_IT_RUNTIME_ENV".to_string()]);
    store
        .exec_in(
            "steelbx-it-re",
            &["STEELBX_IT_RUNTIME_ENV"],
            &["sh", "-c", "test \"${STEELBX_IT_RUNTIME_ENV:-}\" = from-host"],
        )
        .unwrap();
    store
        .exec_in(
            "steelbx-it-re",
            &[],
            &["sh", "-c", "test -z \"${STEELBX_IT_RUNTIME_ENV:-}\""],
        )
        .unwrap();
    store.remove("steelbx-it-re", true).unwrap();
}

fn policy(image: Option<&str>) -> SteelbxConfig {
    SteelbxConfig { image: image.map(str::to_string), ..Default::default() }
}

/// Drives the way to a new box; gives its name.
fn make(store: &mut Store, mut work: NewBox) -> Result<Option<String>, String> {
    let mut name = None;
    loop {
        name = work.name().or(name);
        let call = store.act(work.action());
        match work.next(&call) {
            Turn::Go(w) => work = w,
            Turn::Warn(w, _) => work = w,
            Turn::Done(r) => return r.map(|_| name).map_err(|e| e.message),
        }
    }
}

#[test]
fn a_new_box_is_created_from_policy_and_image() {
    let mut store = Store::new();
    let hosts = vec![HostPath { given: "proj".into(), resolved: Resolved::At("/t/proj".into()) }];
    let work = NewBox::start(policy(Some(FEDORA)), "default", None, None, hosts).unwrap();
    assert_eq!(work.name(), None);
    assert_eq!(make(&mut store, work).unwrap().as_deref(), Some("fedora"));
    assert_eq!(store.made[0], format!("image inspect {FEDORA}"));
    assert_eq!(store.made[1], "inspect fedora");
    assert_eq!(
        store.made[2],
        format!(
            "create --name fedora --hostname fedora --init \
             --mount type=bind,src=/t/proj,dst=/root/proj \
             --label com.github.simon3z.steelbx.box=true \
             --label com.github.simon3z.steelbx.box.name=fedora {FEDORA} sleep infinity"
        )
    );
    assert_eq!(store.made.len(), 3);
}

#[test]
fn a_new_box_does_not_touch_an_existing_one() {
    let mut store = Store::new();
    let first = NewBox::start(policy(Some(FEDORA)), "p", None, Some("b"), vec![]).unwrap();
    make(&mut store, first).unwrap();
    let made = store.made.len();
    let second = NewBox::start(policy(Some(FEDORA)), "p", None, Some("b"), vec![]).unwrap();
    let e = make(&mut store, second).unwrap_err();
    assert_eq!(e, "box 'b' already exists (state: created)\nRemove it first: steelbx rm b");
    assert_eq!(store.made[made..], [format!("image inspect {FEDORA}"), "inspect b".to_string()]);
    assert!(store.inspect("b").is_some());
}

#[test]
fn a_new_box_needs_an_image_a_name_and_its_paths() {
    let mut store = Store::new();
    let e = NewBox::start(policy(None), "p", None, None, vec![]).unwrap_err();
    assert!(e.message.contains("image"), "{}", e.message);

    // The image asked for comes before that of the policy, and must be local.
    let work = NewBox::start(policy(Some(FEDORA)), "p", Some("absent:1"), None, vec![]).unwrap();
    assert!(make(&mut store, work).is_err());
    assert_eq!(store.made, ["image inspect absent:1"]);

    let work = NewBox::start(policy(Some(FEDORA)), "p", None, Some("-x"), vec![]).unwrap();
    assert!(make(&mut store, work).unwrap_err().contains("-x"));
    assert_eq!(store.made.len(), 2);

    let gone = vec![HostPath { given: "gone".into(), resolved: Resolved::Nothing("x".into()) }];
    let work = NewBox::start(policy(Some(FEDORA)), "p", None, None, gone).unwrap();
    assert!(make(&mut store, work).unwrap_err().contains("gone"));
    assert_eq!(store.made.len(), 3);
    assert!(store.containers.is_empty());
}

/// Drives a visit; gives the calls that it made, the notes, and its end.
fn visit(store: &mut Store, mut work: Visit) -> (Vec<String>, Vec<String>, Option<String>) {
    let before = store.made.len();
    let mut notes = vec![];
    loop {
        let call = store.act(work.action());
        match work.next(&call) {
            Turn::Go(w) => work = w,
            Turn::Warn(w, note) => {
                notes.push(note);
                work = w;
            }
            Turn::Done(r) => {
                let made = store.made[before..].to_vec();
                return (made, notes, r.err().map(|e| e.message));
            }
        }
    }
}

fn words(list: &[&str]) -> Vec<String> {
    list.iter().map(|s| s.to_string()).collect()
}

#[test]
fn a_container_that_is_no_box_is_not_touched() {
    let refusal = "'other' exists but is not a steelbx box (no com.github.simon3z.steelbx.box label) — refusing; it is not in steelbx's scope";
    let mut store = Store::new();
    store.containers.push(Container {
        name: "other".to_string(),
        running: false,
        labels: vec![],
        files: vec![],
    });
    let tasks = || {
        vec![
            Visit::enter("other", vec![], vec![]).unwrap(),
            Visit::exec("other", vec![], words(&["touch", "/x"]), vec![]).unwrap(),
            Visit::remove("other", false),
            Visit::remove("other", true),
        ]
    };
    for work in tasks() {
        assert!(!work.is_entering());
        let (made, notes, end) = visit(&mut store, work);
        assert_eq!(made, vec!["inspect other"]);
        assert!(notes.is_empty());
        assert_eq!(end.as_deref(), Some(refusal));
    }
    assert_eq!(store.containers.len(), 1);
    store.containers.clear();
    for work in tasks() {
        let (made, _, end) = visit(&mut store, work);
        assert_eq!(made, vec!["inspect other"]);
        assert_eq!(end.as_deref(), Some("box 'other' does not exist"));
    }
}

#[test]
fn a_visit_looks_at_the_box_and_then_works_on_it() {
    let mut store = Store::new();
    let spec = CreateSpec { runtime_env: words(&["A", "B"]), ..sleeping(FEDORA) };
    store.create_box("b", &spec).unwrap();

    let work =
        Visit::exec("b", words(&["C", "A"]), words(&["touch", "/x"]), words(&["C", "A", "Z"]));
    let (made, notes, end) = visit(&mut store, work.unwrap());
    assert_eq!(made, vec!["inspect b", "inspect b", "start b", "exec -e A -e C b touch /x"]);
    assert_eq!(notes, vec!["note: box 'b' runtime env B not set (left unset this session)"]);
    assert_eq!(end, None);

    let work = Visit::enter("b", vec![], words(&["A", "B"])).unwrap();
    let Turn::Go(work) = work.next(&store.answer(&inspect_args("b"))) else {
        panic!("all names are set");
    };
    assert!(work.is_entering());
    let (made, _, _) = visit(&mut store, work);
    assert_eq!(
        made,
        vec!["inspect b", "exec --interactive --tty -e A -e B b /bin/bash"]
    );

    let (made, _, end) = visit(&mut store, Visit::remove("b", false));
    assert_eq!(made, vec!["inspect b", "inspect b"]);
    assert!(end.unwrap().contains("--force"));
    let (made, _, end) = visit(&mut store, Visit::remove("b", true));
    assert_eq!(made, vec!["inspect b", "inspect b", "kill b", "rm b"]);
    assert_eq!(end, None);
}

#[test]
fn a_visit_takes_bare_names_only() {
    let refusal = "-e: \"A=1\" is not a valid variable name (bare names only)";
    let e = Visit::enter("b", words(&["A=1"]), vec![]).unwrap_err();
    assert_eq!(e.message, refusal);
    let e = Visit::exec("b", words(&["B", "A=1"]), vec![], vec![]).unwrap_err();
    assert_eq!(e.message, refusal);
}

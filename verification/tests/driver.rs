//! Podman calls and the work that is made of them.

use steelbx::driver::calls::{
    image_inspect_args, image_markers, images_args, inspect_args, ps_args, run_outcome,
    session_outcome, spoken_call, timeout_args,
};
use steelbx::driver::{
    current_uid, is_valid_name, supported, warn_rootful, Action, Call, CreateSpec, InitStep,
    Podman, Turn, BOX_MARKER, TOOLBOX_MARKER,
};
use steelbx::error::Error;

fn ended(code: i32, stdout: &str, stderr: &str) -> Call {
    Call::Ended {
        code: Some(code),
        status: format!("exit status: {code}"),
        stdout: stdout.as_bytes().to_vec(),
        stderr: stderr.to_string(),
    }
}

fn ok(stdout: &str) -> Call {
    ended(0, stdout, "")
}

fn failed(stderr: &str) -> Call {
    ended(1, "", stderr)
}

fn not_started() -> Call {
    Call::NotStarted { why: "no such file".to_string() }
}

fn by_signal(status: &str, stderr: &str) -> Call {
    Call::Ended {
        code: None,
        status: status.to_string(),
        stdout: vec![],
        stderr: stderr.to_string(),
    }
}

fn killed() -> Call {
    by_signal("signal: 9 (SIGKILL)", "")
}

/// The message of the error and what is behind it, in one line.
fn chain(e: &Error) -> String {
    let mut parts = vec![e.message.clone()];
    parts.extend(e.causes.iter().cloned());
    parts.join(": ")
}

fn state(s: &str) -> Call {
    ok(&format!(
        "[{{\"State\":{{\"Status\":\"{s}\"}},\"Config\":{{\"Labels\":{{\"{BOX_MARKER}\":\"true\"}}}}}}]"
    ))
}

fn absent() -> Call {
    failed("Error: no such container")
}

fn words(args: &[String]) -> String {
    args.join(" ")
}

fn text(a: Action) -> String {
    match a {
        Action::Run(args) => format!("run {}", words(&args)),
        Action::Session(args) => format!("session {}", words(&args)),
    }
}

#[test]
fn box_names_follow_podman_naming() {
    assert!(is_valid_name("feature-x"));
    assert!(!is_valid_name("-x"));
    assert!(!is_valid_name("has space"));
    assert!(is_valid_name("a.b_c:d/e-f9"));
    assert!(!is_valid_name(""));
    assert!(!is_valid_name("é"));
}

#[test]
fn supported_versions() {
    assert!(!supported(4) && supported(5) && supported(6) && !supported(7));
    let detect = |answer: &str| Podman::detect("podman", Ok(answer)).map_err(|e| chain(&e));
    assert!(detect("podman version 5.4.2\n").is_ok());
    assert!(detect("podman-remote version 6.0.0\n").is_ok());
    assert_eq!(
        detect("podman version 4.9.3\n").unwrap_err(),
        "podman 4.9.3 is outside the supported range (5.x\u{2013}6.x)"
    );
    assert_eq!(
        detect("docker 5\n").unwrap_err(),
        "unexpected 'podman --version' output: docker 5"
    );
    assert_eq!(
        detect("podman version x.1").unwrap_err(),
        "parsing podman major version: invalid digit found in string"
    );
    for bad in ["", "+", "-5", "5x", "x5", "99999999999999999999x", "18446744073709551616"] {
        assert_eq!(
            detect(&format!("podman version {bad}.1")).unwrap_err(),
            format!("parsing podman major version: {}", bad.parse::<u64>().unwrap_err())
        );
    }
    assert_eq!(
        chain(&Podman::detect("podman-remote", Err("no such file")).unwrap_err()),
        "'podman-remote' not found on PATH: no such file"
    );
    assert_eq!(Podman::binary(true), "podman-remote");
    assert_eq!(Podman::binary(false), "podman");
}

#[test]
fn the_user_id_is_read_from_the_status() {
    assert_eq!(current_uid(Some("Name:\tx\nUid:\t1000\t1000\t1000\t1000\n")), 1000);
    assert_eq!(current_uid(Some("Uid: 0 0 0 0")), 0);
    assert_eq!(current_uid(Some("Uid:\nUid: 5\n")), u32::MAX);
    assert_eq!(current_uid(Some("Uid: 99999999999\n")), u32::MAX);
    assert_eq!(current_uid(Some("Gid: 1\n")), u32::MAX);
    assert_eq!(current_uid(None), u32::MAX);
    assert!(warn_rootful(1).is_none());
    assert_eq!(
        warn_rootful(0).unwrap(),
        "warning: running as root — boxes run rootful; a box escape is a root escape. Use rootless podman where possible."
    );
}

#[test]
fn outcomes_of_a_call() {
    let args = vec!["rm".to_string(), "b".to_string()];
    let message = |c: &Call| chain(&run_outcome(&args, c).unwrap_err());
    assert_eq!(run_outcome(&args, &ok("out")).unwrap(), b"out");
    assert_eq!(message(&not_started()), "running podman: no such file");
    assert_eq!(message(&failed("why")), "podman rm b failed: why");
    assert_eq!(message(&ended(125, "", "why")), "podman rm b failed: why");
    assert_eq!(run_outcome(&args, &not_started()).unwrap_err().message, "running podman");
    // Any other signal is a failure of the call itself.
    for status in ["signal: 15 (SIGTERM)", "signal: 90", "signal: 19 (SIGSTOP)", ""] {
        assert_eq!(message(&by_signal(status, "why")), "podman rm b failed: why");
    }
    // A call that is killed at the time limit ends by the signal, or
    // `timeout` says so.
    for wedged in [killed(), by_signal("signal: 9", "x"), ended(137, "", "x"), ended(124, "", "")] {
        assert_eq!(
            message(&wedged),
            "podman rm b timed out after 120s — a podman process may be stuck (check `ps -ef | grep podman`) and should be killed before retrying"
        );
    }
    assert_eq!(spoken_call(&args), "podman rm b");
    assert_eq!(
        timeout_args("podman", &args),
        vec!["-s", "KILL", "120", "podman", "rm", "b"]
    );
}

#[test]
fn outcomes_of_a_session() {
    assert!(session_outcome("exec", &ok("")).is_ok());
    let message = |c: &Call| chain(&session_outcome("exec", c).unwrap_err());
    assert_eq!(message(&not_started()), "running 'podman exec' (exec): no such file");
    assert_eq!(message(&failed("")), "exec exited: exit status: 1");
    assert_eq!(message(&killed()), "exec exited: signal: 9 (SIGKILL)");
}

#[test]
fn inspection_tells_absence_from_failure() {
    assert_eq!(inspect_args("b"), vec!["inspect", "b"]);
    let info = Podman.inspect("b", &state("running")).unwrap().unwrap();
    assert_eq!(info.state.as_deref(), Some("running"));
    assert_eq!(info.marker.as_deref(), Some("true"));
    assert!(info.env.is_empty());
    for gone in ["no such container", "no such object", "x not found y"] {
        assert!(Podman.inspect("b", &failed(gone)).unwrap().is_none());
    }
    assert_eq!(
        Podman.inspect("b", &failed("locked")).unwrap_err().message,
        "podman inspect b failed: locked"
    );
    assert_eq!(
        chain(&Podman.inspect("b", &ok("{")).unwrap_err()),
        "parsing 'podman inspect' JSON: EOF while parsing an object at line 1 column 1"
    );
    // Only what podman says counts, not what the container is called.
    for call in [failed("locked"), killed(), ended(137, "", "not found"), not_started()] {
        assert!(Podman.inspect("not found", &call).is_err());
    }
    assert!(Podman.inspect("not found", &failed("no such object")).unwrap().is_none());
    let stopped = by_signal("signal: 15 (SIGTERM)", "no such container");
    assert!(Podman.inspect("b", &stopped).unwrap().is_none());
}

#[test]
fn an_image_is_missed_in_the_whole_message() {
    for call in [failed("x"), killed()] {
        assert_eq!(
            Podman.image_meta("not found", &call).unwrap_err().message,
            "image 'not found' is not local — steelbx consumes images, it does not pull them: podman pull not found"
        );
    }
    let e = Podman.image_meta("not found", &not_started()).unwrap_err();
    assert_eq!(chain(&e), "running podman: no such file");
}

#[test]
fn image_inspection() {
    assert_eq!(image_inspect_args("i"), vec!["image", "inspect", "i"]);
    let answer = ok(
        r#"[{"Config":{"WorkingDir":"/w","Labels":{"com.github.simon3z.steelbx.box.name":"n","com.github.simon3z.steelbx.box.cmd":"","com.github.simon3z.steelbx.box.env":"A,B"}}}]"#,
    );
    let meta = Podman.image_meta("i", &answer).unwrap();
    assert_eq!(meta.workdir.as_deref(), Some("/w"));
    assert_eq!(meta.name.as_deref(), Some("n"));
    assert!(meta.cmd);
    assert_eq!(meta.env, vec!["A", "B"]);
    for gone in ["no such image", "not found"] {
        assert_eq!(
            Podman.image_meta("i", &failed(gone)).unwrap_err().message,
            "image 'i' is not local — steelbx consumes images, it does not pull them: podman pull i"
        );
    }
    assert_eq!(
        Podman.image_meta("i", &failed("x")).unwrap_err().message,
        "podman image inspect i failed: x"
    );
    assert_eq!(
        chain(&Podman.image_meta("i", &ok("")).unwrap_err()),
        "parsing 'podman image inspect' JSON: EOF while parsing a value at line 1 column 0"
    );
}

#[test]
fn lists_of_boxes_and_images() {
    assert_eq!(ps_args(), vec!["ps", "--all", "--format", "json"]);
    let answer = ok(
        r#"[{"Names":["a"],"Labels":{"com.github.simon3z.steelbx.box":"1"}},{"Names":["b"]}]"#,
    );
    assert_eq!(Podman.boxes(&answer).unwrap().len(), 1);
    assert_eq!(Podman.box_names(&answer).unwrap(), vec!["a"]);
    assert_eq!(
        chain(&Podman.box_names(&ok("x")).unwrap_err()),
        "parsing 'podman ps' JSON: expected value at line 1 column 1"
    );
    assert_eq!(
        Podman.boxes(&failed("x")).unwrap_err().message,
        "podman ps --all --format json failed: x"
    );
    assert_eq!(
        images_args(TOOLBOX_MARKER),
        vec!["images", "--filter", "label=com.github.containers.toolbox", "--format", "json"]
    );
    assert_eq!(
        chain(&Podman.image_names(vec![], BOX_MARKER, &ok("x")).unwrap_err()),
        "parsing 'podman images' JSON: expected value at line 1 column 1"
    );
}

#[test]
fn create_image_completion_unions_both_marker_labels() {
    let first = ok(r#"[{"repoTags":["box-a:latest","box-b:latest"]}]"#);
    let second = ok(r#"[{"repoTags":["tool-a:latest","box-a:latest"]}]"#);
    assert_eq!(image_markers(), vec![BOX_MARKER, TOOLBOX_MARKER]);
    let names = Podman.image_names(vec![], BOX_MARKER, &first).unwrap();
    let names = Podman.image_names(names, TOOLBOX_MARKER, &second).unwrap();
    assert_eq!(names, vec!["box-a:latest", "box-b:latest", "tool-a:latest"]);
}

/// Runs a removal on the answers; gives its calls, its warnings and its
/// end.
fn remove(force: bool, answers: &[Call]) -> (Vec<String>, Vec<String>, Option<String>) {
    let mut work = Podman.remove_container("b", force);
    let (mut made, mut warned) = (vec![], vec![]);
    for call in answers {
        made.push(text(work.action()));
        match work.next(call) {
            Turn::Go(w) => work = w,
            Turn::Warn(w, line) => {
                warned.push(line);
                work = w;
            }
            Turn::Done(r) => return (made, warned, r.err().map(|e| chain(&e))),
        }
    }
    panic!("no end after {made:?}");
}

#[test]
fn a_running_box_is_removed_only_by_force() {
    let (made, _, end) = remove(false, &[state("running")]);
    assert_eq!(made, vec!["run inspect b"]);
    assert_eq!(
        end.unwrap(),
        "box 'b' is running\nForce-remove it: steelbx rm --force b"
    );
    let (made, _, end) = remove(true, &[state("running"), failed("x"), ok("")]);
    assert_eq!(made, vec!["run inspect b", "run kill b", "run rm b"]);
    assert_eq!(end, None);
}

#[test]
fn a_failed_removal_is_retried_by_force() {
    let (made, warned, end) = remove(false, &[state("created"), failed("busy"), ok("")]);
    assert_eq!(made, vec!["run inspect b", "run rm b", "run rm -f b"]);
    assert_eq!(
        warned,
        vec!["warning: 'podman rm b' failed (podman rm b failed: busy) — retrying with force"]
    );
    assert_eq!(end, None);
    // Only the message is repeated, not what is behind it.
    let (_, warned, end) = remove(true, &[state("created"), ok(""), not_started(), not_started()]);
    assert_eq!(
        warned,
        vec!["warning: 'podman rm b' failed (running podman) — retrying with force"]
    );
    assert_eq!(
        end.unwrap(),
        "removal of 'b' failed even with force: running podman\nManual escape: podman rm -f b"
    );
    let (_, _, end) = remove(false, &[absent(), failed("busy"), failed("stuck")]);
    assert_eq!(
        end.unwrap(),
        "removal of 'b' failed even with force: podman rm -f b failed: stuck\nManual escape: podman rm -f b"
    );
}

#[test]
fn a_removal_that_cannot_look_ends() {
    let (made, _, end) = remove(true, &[failed("locked")]);
    assert_eq!(made, vec!["run inspect b"]);
    assert_eq!(end.unwrap(), "podman inspect b failed: locked");
}

/// Runs a creation on the answers; gives its calls and its end.
fn create(init: Option<Vec<InitStep>>, answers: &[Call]) -> (Vec<String>, Option<String>) {
    let spec = CreateSpec { image: "img".into(), init, ..Default::default() };
    let mut work = Podman.create("b", &spec);
    let mut made = vec![];
    for call in answers {
        made.push(text(work.action()));
        match work.next(call) {
            Turn::Go(w) => work = w,
            Turn::Warn(w, _) => work = w,
            Turn::Done(r) => return (made, r.err().map(|e| chain(&e))),
        }
    }
    panic!("no end after {made:?}");
}

const CREATE: &str = "run create --name b --hostname b --init --label com.github.simon3z.steelbx.box=true --label com.github.simon3z.steelbx.box.name=b img";

fn steps() -> Option<Vec<InitStep>> {
    Some(vec![
        InitStep::Exec(vec!["mkdir".into(), "/d".into()]),
        InitStep::Cp { host: "/h/f".into(), dest: "/d/f".into() },
    ])
}

#[test]
fn a_box_without_init_is_created_and_left_alone() {
    let (made, end) = create(None, &[ok("")]);
    assert_eq!(made, vec![CREATE]);
    assert_eq!(end, None);
}

#[test]
fn init_steps_run_in_order_after_a_start() {
    let (made, end) = create(steps(), &[ok(""), ok(""), ok(""), ok("")]);
    assert_eq!(
        made,
        vec![
            CREATE,
            "run start b",
            "session exec -u 0 -w / b mkdir /d",
            "session cp /h/f b:/d/f",
        ]
    );
    assert_eq!(end, None);
}

#[test]
fn a_failed_create_is_rolled_back_if_something_is_there() {
    let (made, end) = create(steps(), &[failed("bad flag"), absent()]);
    assert_eq!(made, vec![CREATE, "run inspect b"]);
    assert!(end.unwrap().ends_with(" failed: bad flag"));
    // A clean-up that cannot look gives up, with the first failure.
    let (_, end) = create(None, &[failed("bad flag"), failed("locked")]);
    assert!(end.unwrap().ends_with(" failed: bad flag"));
    let (made, end) = create(
        None,
        &[failed("bad flag"), state("created"), state("created"), ok("")],
    );
    assert_eq!(made, vec![CREATE, "run inspect b", "run inspect b", "run rm b"]);
    assert!(end.unwrap().ends_with(" failed: bad flag"));
}

#[test]
fn a_taken_name_is_left_alone() {
    let taken = failed("the container name \"b\" is already in use by 1a2b");
    let (made, end) = create(steps(), &[taken]);
    assert_eq!(made, vec![CREATE]);
    assert!(end.unwrap().ends_with(" is already in use by 1a2b"));
    // Something else that is in use is no taken name: what is left is removed.
    let busy = failed("address already in use");
    let (made, _) = create(steps(), &[busy, state("created"), state("created"), ok("")]);
    assert_eq!(made, vec![CREATE, "run inspect b", "run inspect b", "run rm b"]);
    // A creation that is killed is checked, whatever it had printed.
    let (made, _) = create(steps(), &[ended(137, "", "the container name is already in use"), absent()]);
    assert_eq!(made, vec![CREATE, "run inspect b"]);
}

#[test]
fn a_failed_init_is_rolled_back_by_force() {
    let (made, end) = create(
        steps(),
        &[
            ok(""),
            ok(""),
            ok(""),
            failed(""),
            state("running"),
            state("running"),
            ok(""),
            failed("busy"),
            failed("stuck"),
        ],
    );
    assert_eq!(
        made[4..],
        ["run inspect b", "run inspect b", "run kill b", "run rm b", "run rm -f b"]
    );
    assert_eq!(end.unwrap(), "init.cp[1] exited: exit status: 1");
    let (_, end) = create(steps(), &[ok(""), ok(""), not_started(), absent()]);
    assert_eq!(end.unwrap(), "running 'podman exec' (init.exec[0]): no such file");
    let (_, end) = create(steps(), &[ok(""), failed("x"), absent()]);
    assert_eq!(end.unwrap(), "starting the box for init: podman start b failed: x");
}

/// Enters a box on the answers; gives the calls and the end.
fn enter(answers: &[Call]) -> (Vec<String>, Option<String>) {
    let mut work = Podman.enter("b", &["A".to_string()]);
    let mut made = vec![];
    for call in answers {
        made.push(text(work.action()));
        match work.next(call) {
            Turn::Go(w) => work = w,
            Turn::Warn(w, _) => work = w,
            Turn::Done(r) => return (made, r.err().map(|e| chain(&e))),
        }
    }
    panic!("no end after {made:?}");
}

#[test]
fn entering_starts_what_does_not_run() {
    let session = "session exec --interactive --tty -e A b /bin/bash";
    let (made, end) = enter(&[state("running"), ok("")]);
    assert_eq!(made, vec!["run inspect b", session]);
    assert_eq!(end, None);
    let (made, end) = enter(&[state("created"), ok(""), ended(3, "", "")]);
    assert_eq!(made, vec!["run inspect b", "run start b", session]);
    assert_eq!(end.unwrap(), "enter exited: exit status: 3");
    let (made, end) = enter(&[state("created"), failed("x")]);
    assert_eq!(made, vec!["run inspect b", "run start b"]);
    assert_eq!(end.unwrap(), "podman start b failed: x");
    let (_, end) = enter(&[absent()]);
    assert_eq!(end.unwrap(), "box 'b' does not exist");
}

#[test]
fn a_one_shot_command_reports_as_exec() {
    let cmd = vec!["false".to_string()];
    let work = Podman.exec("b", &[], &cmd);
    let Turn::Go(work) = work.next(&state("running")) else {
        panic!("the box runs");
    };
    assert_eq!(text(work.action()), "session exec b false");
    let Turn::Done(r) = work.next(&failed("")) else {
        panic!("the command has ended");
    };
    assert_eq!(r.unwrap_err().message, "exec exited: exit status: 1");
}

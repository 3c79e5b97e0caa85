//! Single podman calls: their arguments, and what came of them.

use vstd::prelude::*;
use vstd::string::*;

use crate::driver;
use crate::driver::parse;
use crate::driver::parse::{
    box_marker_from_inspect, cmd_label_from_image_inspect, env_names_from_inspect,
    image_refs_from_images_json, name_label_from_image_inspect, ps_rows_from_json,
    state_from_inspect, workdir_from_image_inspect,
};
use crate::driver::{BoxInfo, BoxRow, ImageMeta, Podman, BOX_MARKER, TOOLBOX_MARKER};
use crate::error;
use crate::error::{failure, failure_under, Error};
use crate::json;
use crate::json::{parse_json, Json};
use crate::lists;
use crate::lists::{merge_into, owned, push_all};
use crate::text;
use crate::text::{contains, join, same, starts_with};

verus! {

// ---------------------------------------------------------------------
// The outcome of a call
// ---------------------------------------------------------------------

/// What came of a podman call.
#[derive(Debug)]
pub enum Call {
    /// It could not be started, for this reason.
    NotStarted { why: String },
    /// It ended, with an exit code unless a signal ended it; `status` says
    /// in words how it ended.
    Ended { code: Option<i32>, status: String, stdout: Vec<u8>, stderr: String },
}

/// What came of a podman call, as text.
pub enum CallView {
    NotStarted { why: Seq<char> },
    Ended { code: Option<i32>, status: Seq<char>, stdout: Seq<u8>, stderr: Seq<char> },
}

impl View for Call {
    type V = CallView;

    open spec fn view(&self) -> CallView {
        match self {
            Call::NotStarted { why } => CallView::NotStarted { why: why@ },
            Call::Ended { code, status, stdout, stderr } => CallView::Ended {
                code: *code,
                status: status@,
                stdout: stdout@,
                stderr: stderr@,
            },
        }
    }
}

/// A podman call as it is reported to the user.
pub open spec fn spoken(argv: Seq<Seq<char>>) -> Seq<char> {
    "podman "@ + text::joined(argv, " "@)
}

/// The status of a process that the kill signal ended.
pub open spec fn was_killed(status: Seq<char>) -> bool {
    status == "signal: 9"@ || text::starts(status, "signal: 9 "@)
}

/// A time-boxed call ran into its time limit: the kill signal ended it, or
/// `timeout` says so, by the status of what it killed or by its own.
pub open spec fn ran_out(code: Option<i32>, status: Seq<char>) -> bool {
    match code {
        None => was_killed(status),
        Some(c) => c == 137i32 || c == 124i32,
    }
}

/// The message about a call that ran into the time limit.
pub open spec fn timed_out(argv: Seq<Seq<char>>) -> error::Fault {
    error::said(
        spoken(argv)
            + " timed out after 120s — a podman process may be stuck (check `ps -ef | grep podman`) and should be killed before retrying"@,
    )
}

/// What a captured, time-boxed call that failed by itself complains of;
/// `None` for any other call.
pub open spec fn complaint(call: CallView) -> Option<Seq<char>> {
    match call {
        CallView::NotStarted { why } => None,
        CallView::Ended { code, status, stdout, stderr } => if ran_out(code, status) || code
            == Some(0i32) {
            None
        } else {
            Some(stderr)
        },
    }
}

/// A call failed by itself, and its complaint holds these words.
pub open spec fn complains_of(call: CallView, words: Seq<char>) -> bool {
    complaint(call) matches Some(s) && text::occurs(s, words)
}

/// The outcome of a captured, time-boxed call: what it printed if it
/// succeeded, else the message that reports the failure.
pub open spec fn outcome(argv: Seq<Seq<char>>, call: CallView) -> Result<Seq<u8>, error::Fault> {
    match call {
        CallView::NotStarted { why } => Err(
            error::under("running podman"@, error::said(why)),
        ),
        CallView::Ended { code, status, stdout, stderr } => if ran_out(code, status) {
            Err(timed_out(argv))
        } else if code != Some(0i32) {
            Err(error::said(spoken(argv) + " failed: "@ + stderr))
        } else {
            Ok(stdout)
        },
    }
}

/// The complaint about a call that ran with the terminal of the user, if
/// it failed.
pub open spec fn session_fault(label: Seq<char>, call: CallView) -> Option<error::Fault> {
    match call {
        CallView::NotStarted { why } => Some(
            error::under("running 'podman exec' ("@ + label + ")"@, error::said(why)),
        ),
        CallView::Ended { code, status, stdout, stderr } => if code == Some(0i32) {
            None
        } else {
            Some(error::said(label + " exited: "@ + status))
        },
    }
}

/// The arguments that run podman under a time limit: a call that hangs is
/// killed after 120 seconds.
pub open spec fn timeout_argv(bin: Seq<char>, argv: Seq<Seq<char>>) -> Seq<Seq<char>> {
    seq!["-s"@, "KILL"@, "120"@, bin] + argv
}

/// The line that reports a call as it is made.
pub fn spoken_call(args: &[String]) -> (r: String)
    ensures
        r@ == spoken(text::texts(args@)),
{
    "podman ".to_owned().concat(join(args, " ").as_str())
}

/// The arguments for `timeout` that run podman under a time limit.
pub fn timeout_args(bin: &str, args: &[String]) -> (r: Vec<String>)
    ensures
        text::texts(r@) == timeout_argv(bin@, text::texts(args@)),
{
    let mut out = owned(&["-s", "KILL", "120", bin]);
    proof {
        assert(text::texts(out@) == seq!["-s"@, "KILL"@, "120"@, bin@]);
    }
    push_all(&mut out, args);
    out
}

/// Whether the code and the status are those of a call that ran into the
/// time limit.
fn has_run_out(code: &Option<i32>, status: &str) -> (r: bool)
    ensures
        r == ran_out(*code, status@),
{
    match code {
        None => same(status, "signal: 9") || starts_with(status, "signal: 9 "),
        Some(c) => *c == 137 || *c == 124,
    }
}

/// Whether the code is that of a success.
fn is_success(code: &Option<i32>) -> (r: bool)
    ensures
        r == (*code == Some(0i32)),
{
    match code {
        None => false,
        Some(c) => *c == 0,
    }
}

/// What the call printed if it succeeded, else the error that reports the
/// failure.
pub fn run_outcome(args: &[String], call: &Call) -> (r: Result<Vec<u8>, Error>)
    ensures
        match r {
            Ok(out) => outcome(text::texts(args@), call@) == Ok::<Seq<u8>, error::Fault>(out@),
            Err(e) => outcome(text::texts(args@), call@) == Err::<Seq<u8>, error::Fault>(e@),
        },
{
    match call {
        Call::NotStarted { why } => Err(
            failure_under("running podman".to_owned(), failure(why.clone())),
        ),
        Call::Ended { code, status, stdout, stderr } => {
            if has_run_out(code, status.as_str()) {
                return Err(
                    failure(
                        spoken_call(args).concat(
                            " timed out after 120s — a podman process may be stuck (check `ps -ef | grep podman`) and should be killed before retrying",
                        ),
                    ),
                );
            }
            if !is_success(code) {
                return Err(
                    failure(spoken_call(args).concat(" failed: ").concat(stderr.as_str())),
                );
            }
            Ok(stdout.clone())
        },
    }
}

/// Whether the call failed by itself and its complaint holds these words.
pub fn complains(call: &Call, words: &str) -> (r: bool)
    ensures
        r == complains_of(call@, words@),
{
    match call {
        Call::NotStarted { .. } => false,
        Call::Ended { code, status, stderr, .. } => !has_run_out(code, status.as_str())
            && !is_success(code) && contains(stderr.as_str(), words),
    }
}

/// The error of a call that ran with the terminal of the user, if it
/// failed.
pub fn session_outcome(label: &str, call: &Call) -> (r: Result<(), Error>)
    ensures
        error::fault(r) == session_fault(label@, call@),
{
    match call {
        Call::NotStarted { why } => Err(
            failure_under(
                "running 'podman exec' (".to_owned().concat(label).concat(")"),
                failure(why.clone()),
            ),
        ),
        Call::Ended { code, status, .. } => {
            if is_success(code) {
                return Ok(());
            }
            Err(failure(label.to_owned().concat(" exited: ").concat(status.as_str())))
        },
    }
}

/// The message about an answer that is no JSON.
pub open spec fn no_json(what: Seq<char>, why: Seq<char>) -> error::Fault {
    error::under("parsing 'podman "@ + what + "' JSON"@, error::said(why))
}

/// The JSON value in an answer.
pub open spec fn answer_in(what: Seq<char>, out: Seq<u8>) -> Result<json::JsonView, error::Fault> {
    match json::json_text(out) {
        Ok(v) => Ok(v),
        Err(why) => Err(no_json(what, why)),
    }
}

/// The JSON value in the answer of a podman command.
fn read_answer(what: &str, out: &[u8]) -> (r: Result<Json, Error>)
    ensures
        match r {
            Ok(v) => answer_in(what@, out@) == Ok::<json::JsonView, error::Fault>(v@),
            Err(e) => answer_in(what@, out@) == Err::<json::JsonView, error::Fault>(e@),
        },
{
    match parse_json(out) {
        Ok(v) => Ok(v),
        Err(e) => Err(
            failure_under("parsing 'podman ".to_owned().concat(what).concat("' JSON"), e),
        ),
    }
}

// ---------------------------------------------------------------------
// Inspection of a container
// ---------------------------------------------------------------------

/// The arguments that inspect a container.
pub open spec fn inspect_argv(name: Seq<char>) -> Seq<Seq<char>> {
    seq!["inspect"@, name]
}

/// A call complains that there is no such container.
pub open spec fn says_absent(call: CallView) -> bool {
    complains_of(call, "no such container"@) || complains_of(call, "no such object"@)
        || complains_of(call, "not found"@)
}

/// A message says that there is no such image.
pub open spec fn says_no_image(message: Seq<char>) -> bool {
    text::occurs(message, "no such image"@) || text::occurs(message, "not found"@)
}

/// The facts in the answer to an inspection.
pub open spec fn info_in(v: json::JsonView) -> driver::InfoView {
    driver::InfoView {
        state: parse::state_of(v),
        marker: parse::marker_of(v),
        env: parse::inspected_names(v),
    }
}

/// The outcome of an inspection: the facts, or that there is no such
/// container. Any other failure is a failure, never absence.
pub open spec fn inspection(name: Seq<char>, call: CallView) -> Result<
    Option<driver::InfoView>,
    error::Fault,
> {
    match outcome(inspect_argv(name), call) {
        Err(m) => if says_absent(call) {
            Ok(None)
        } else {
            Err(m)
        },
        Ok(out) => match answer_in("inspect"@, out) {
            Err(m) => Err(m),
            Ok(v) => Ok(Some(info_in(v))),
        },
    }
}

/// The facts in the answer to an inspection of a container.
pub fn box_info(v: &Json) -> (r: BoxInfo)
    ensures
        r@ == info_in(v@),
{
    BoxInfo {
        state: state_from_inspect(v),
        marker: box_marker_from_inspect(v),
        env: env_names_from_inspect(v),
    }
}

/// The facts of a container, as text.
pub open spec fn opt_info(o: Option<BoxInfo>) -> Option<driver::InfoView> {
    match o {
        Some(i) => Some(i@),
        None => None,
    }
}

/// The arguments that inspect a container.
pub fn inspect_args(name: &str) -> (r: Vec<String>)
    ensures
        text::texts(r@) == inspect_argv(name@),
{
    let args = owned(&["inspect", name]);
    proof {
        assert(text::texts(args@) == inspect_argv(name@));
    }
    args
}

impl Podman {
    /// The facts of the container, as the call with `inspect_args` answers
    /// them; `None` if there is no such container.
    pub fn inspect(&self, name: &str, call: &Call) -> (r: Result<Option<BoxInfo>, Error>)
        ensures
            match r {
                Ok(info) => inspection(name@, call@) == Ok::<
                    Option<driver::InfoView>,
                    error::Fault,
                >(opt_info(info)),
                Err(e) => inspection(name@, call@) == Err::<
                    Option<driver::InfoView>,
                    error::Fault,
                >(e@),
            },
    {
        let args = inspect_args(name);
        match run_outcome(&args, call) {
            Err(e) => {
                if complains(call, "no such container") || complains(call, "no such object")
                    || complains(call, "not found") {
                    return Ok(None);
                }
                Err(e)
            },
            Ok(out) => match read_answer("inspect", &out) {
                Err(e) => Err(e),
                Ok(v) => Ok(Some(box_info(&v))),
            },
        }
    }
}

// ---------------------------------------------------------------------
// Inspection of an image
// ---------------------------------------------------------------------

/// The arguments that inspect an image.
pub open spec fn image_inspect_argv(image: Seq<char>) -> Seq<Seq<char>> {
    seq!["image"@, "inspect"@, image]
}

/// What the answer to an inspection says of an image.
pub open spec fn meta_in(v: json::JsonView) -> driver::MetaView {
    driver::MetaView {
        workdir: parse::not_empty(json::opt_text_of(parse::config_member(v, "WorkingDir"@))),
        name: parse::not_empty(json::opt_text_of(parse::label(v, driver::BOX_NAME_LABEL@))),
        cmd: parse::label(v, parse::cmd_label()) is Some,
        env: parse::inspected_names(v),
    }
}

/// The message about an image that is not local.
pub open spec fn not_local(image: Seq<char>) -> error::Fault {
    error::said(
        "image '"@ + image
            + "' is not local — steelbx consumes images, it does not pull them: podman pull "@
            + image,
    )
}

/// The outcome of an inspection of an image.
pub open spec fn image_inspection(image: Seq<char>, call: CallView) -> Result<
    driver::MetaView,
    error::Fault,
> {
    match outcome(image_inspect_argv(image), call) {
        Err(m) => if says_no_image(m.message) {
            Err(not_local(image))
        } else {
            Err(m)
        },
        Ok(out) => match answer_in("image inspect"@, out) {
            Err(m) => Err(m),
            Ok(v) => Ok(meta_in(v)),
        },
    }
}

/// What the answer to an inspection says of an image.
pub fn image_facts(v: &Json) -> (r: ImageMeta)
    ensures
        r@ == meta_in(v@),
{
    ImageMeta {
        workdir: workdir_from_image_inspect(v),
        name: name_label_from_image_inspect(v),
        cmd: cmd_label_from_image_inspect(v),
        env: env_names_from_inspect(v),
    }
}

/// The arguments that inspect an image.
pub fn image_inspect_args(image: &str) -> (r: Vec<String>)
    ensures
        text::texts(r@) == image_inspect_argv(image@),
{
    let args = owned(&["image", "inspect", image]);
    proof {
        assert(text::texts(args@) == image_inspect_argv(image@));
    }
    args
}

impl Podman {
    /// The layout, the name, the command and the runtime env of the image,
    /// as the call with `image_inspect_args` answers them. An image that is
    /// not local is an error: images are not pulled.
    pub fn image_meta(&self, image: &str, call: &Call) -> (r: Result<ImageMeta, Error>)
        ensures
            match r {
                Ok(meta) => image_inspection(image@, call@) == Ok::<
                    driver::MetaView,
                    error::Fault,
                >(meta@),
                Err(e) => image_inspection(image@, call@) == Err::<driver::MetaView, error::Fault>(
                    e@,
                ),
            },
    {
        let args = image_inspect_args(image);
        match run_outcome(&args, call) {
            Err(e) => {
                if contains(e.message.as_str(), "no such image") || contains(
                    e.message.as_str(),
                    "not found",
                ) {
                    return Err(
                        failure(
                            "image '".to_owned().concat(image).concat(
                                "' is not local — steelbx consumes images, it does not pull them: podman pull ",
                            ).concat(image),
                        ),
                    );
                }
                Err(e)
            },
            Ok(out) => match read_answer("image inspect", &out) {
                Err(e) => Err(e),
                Ok(v) => Ok(image_facts(&v)),
            },
        }
    }
}

// ---------------------------------------------------------------------
// Lists
// ---------------------------------------------------------------------

/// The arguments that list the containers.
pub open spec fn ps_argv() -> Seq<Seq<char>> {
    seq!["ps"@, "--all"@, "--format"@, "json"@]
}

/// The outcome of a listing of the containers: the boxes among them.
pub open spec fn box_rows(call: CallView) -> Result<Seq<parse::RowView>, error::Fault> {
    match outcome(ps_argv(), call) {
        Err(m) => Err(m),
        Ok(out) => match answer_in("ps"@, out) {
            Err(m) => Err(m),
            Ok(v) => Ok(parse::rows_of(json::elements(v))),
        },
    }
}

/// The names in the rows.
pub open spec fn row_names(rows: Seq<parse::RowView>) -> Seq<Seq<char>> {
    rows.map_values(|r: parse::RowView| r.name)
}

/// The arguments that list the images that carry a label.
pub open spec fn images_argv(marker: Seq<char>) -> Seq<Seq<char>> {
    seq!["images"@, "--filter"@, "label="@ + marker, "--format"@, "json"@]
}

/// The labels of the images that a box can be created from, in the order in
/// which they are asked for: the box images, and the toolbox base images.
pub open spec fn markers() -> Seq<Seq<char>> {
    seq![driver::BOX_MARKER@, driver::TOOLBOX_MARKER@]
}

/// The outcome of a listing of the images that carry a label: their
/// references.
pub open spec fn images_in(marker: Seq<char>, call: CallView) -> Result<
    Seq<Seq<char>>,
    error::Fault,
> {
    match outcome(images_argv(marker), call) {
        Err(m) => Err(m),
        Ok(out) => match answer_in("images"@, out) {
            Err(m) => Err(m),
            Ok(v) => Ok(parse::all_refs(json::elements(v))),
        },
    }
}

/// The outcome of a listing of the images that carry a label: their
/// references, added to those that are known.
pub open spec fn more_image_names(
    known: Seq<Seq<char>>,
    marker: Seq<char>,
    call: CallView,
) -> Result<Seq<Seq<char>>, error::Fault> {
    match images_in(marker, call) {
        Err(m) => Err(m),
        Ok(refs) => Ok(lists::merged(known, refs)),
    }
}

/// The images that a box can be created from, where these are the answers
/// to a call for each of the markers, in their order: the first call that
/// fails ends the listing.
pub open spec fn image_listing(markers: Seq<Seq<char>>, calls: Seq<CallView>) -> Result<
    Seq<Seq<char>>,
    error::Fault,
>
    decreases markers.len(),
{
    if markers.len() == 0 {
        Ok(Seq::empty())
    } else {
        match image_listing(markers.drop_last(), calls) {
            Err(m) => Err(m),
            Ok(known) => more_image_names(known, markers.last(), calls[markers.len() - 1]),
        }
    }
}

/// The arguments that list the containers.
pub fn ps_args() -> (r: Vec<String>)
    ensures
        text::texts(r@) == ps_argv(),
{
    let args = owned(&["ps", "--all", "--format", "json"]);
    proof {
        assert(text::texts(args@) == ps_argv());
    }
    args
}

/// The labels of the images that a box can be created from: `image_names`
/// is asked for each of them, in this order.
pub fn image_markers() -> (r: Vec<String>)
    ensures
        text::texts(r@) == markers(),
{
    let all = owned(&[BOX_MARKER, TOOLBOX_MARKER]);
    proof {
        assert(text::texts(all@) == markers());
    }
    all
}

/// The arguments that list the images that carry a label.
pub fn images_args(marker: &str) -> (r: Vec<String>)
    ensures
        text::texts(r@) == images_argv(marker@),
{
    let label = "label=".to_owned().concat(marker);
    let args = owned(&["images", "--filter", label.as_str(), "--format", "json"]);
    proof {
        assert(text::texts(args@) == images_argv(marker@));
    }
    args
}

impl Podman {
    /// The boxes among the containers, as the call with `ps_args` answers
    /// them.
    pub fn boxes(&self, call: &Call) -> (r: Result<Vec<BoxRow>, Error>)
        ensures
            match r {
                Ok(rows) => box_rows(call@) == Ok::<Seq<parse::RowView>, error::Fault>(
                    parse::row_views(rows@),
                ),
                Err(e) => box_rows(call@) == Err::<Seq<parse::RowView>, error::Fault>(e@),
            },
    {
        let args = ps_args();
        match run_outcome(&args, call) {
            Err(e) => Err(e),
            Ok(out) => match read_answer("ps", &out) {
                Err(e) => Err(e),
                Ok(v) => Ok(ps_rows_from_json(&v)),
            },
        }
    }

    /// The names of the boxes, as the call with `ps_args` answers them.
    pub fn box_names(&self, call: &Call) -> (r: Result<Vec<String>, Error>)
        ensures
            match r {
                Ok(names) => box_rows(call@) is Ok && text::texts(names@) == row_names(
                    box_rows(call@)->Ok_0,
                ),
                Err(e) => box_rows(call@) == Err::<Seq<parse::RowView>, error::Fault>(e@),
            },
    {
        let rows = match self.boxes(call) {
            Ok(rows) => rows,
            Err(e) => return Err(e),
        };
        let ghost all = row_names(parse::row_views(rows@));
        let mut names: Vec<String> = Vec::new();
        let mut i: usize = 0;
        while i < rows.len()
            invariant
                i <= rows@.len(),
                all == row_names(parse::row_views(rows@)),
                text::texts(names@) == all.take(i as int),
            decreases rows.len() - i,
        {
            proof {
                text::lemma_texts_push(names@, rows@[i as int].name);
                assert(all.take(i + 1) == all.take(i as int).push(rows@[i as int].name@));
            }
            names.push(rows[i].name.clone());
            i += 1;
        }
        proof {
            assert(all.take(i as int) == all);
        }
        Ok(names)
    }

    /// The references of the images that carry the label, as the call with
    /// `images_args` answers them, added to those that are known. Asked for
    /// each of `image_markers` in turn, it gives the images that a box can
    /// be created from.
    pub fn image_names(&self, known: Vec<String>, marker: &str, call: &Call) -> (r: Result<
        Vec<String>,
        Error,
    >)
        ensures
            match r {
                Ok(names) => more_image_names(text::texts(known@), marker@, call@) == Ok::<
                    Seq<Seq<char>>,
                    error::Fault,
                >(text::texts(names@)),
                Err(e) => more_image_names(text::texts(known@), marker@, call@) == Err::<
                    Seq<Seq<char>>,
                    error::Fault,
                >(e@),
            },
    {
        let args = images_args(marker);
        match run_outcome(&args, call) {
            Err(e) => Err(e),
            Ok(out) => match read_answer("images", &out) {
                Err(e) => Err(e),
                Ok(v) => {
                    let mut names = known;
                    merge_into(&mut names, &image_refs_from_images_json(&v));
                    Ok(names)
                },
            },
        }
    }
}

// ---------------------------------------------------------------------
// Laws
// ---------------------------------------------------------------------

/// The images that a box can be created from are those that carry either
/// marker, each once; those of the first marker come first.
pub proof fn law_image_names_are_the_union(
    first: CallView,
    second: CallView,
    a: Seq<Seq<char>>,
    b: Seq<Seq<char>>,
    name: Seq<char>,
)
    requires
        images_in(markers()[0], first) == Ok::<Seq<Seq<char>>, error::Fault>(a),
        images_in(markers()[1], second) == Ok::<Seq<Seq<char>>, error::Fault>(b),
    ensures
        ({
            let listed = image_listing(markers(), seq![first, second]);
            &&& listed is Ok
            &&& listed->Ok_0.no_duplicates()
            &&& listed->Ok_0.contains(name) <==> a.contains(name) || b.contains(name)
            &&& listed->Ok_0.len() >= a.len()
            &&& listed->Ok_0.take(a.len() as int) == a
        }),
{
    let calls = seq![first, second];
    let one = markers().drop_last();
    let none = Seq::<Seq<char>>::empty();
    if let Ok(out) = outcome(images_argv(markers()[0]), first) {
        if let Ok(v) = answer_in("images"@, out) {
            parse::law_image_refs_are_unique(json::elements(v));
        }
    }
    assert(one.drop_last() == none);
    assert(image_listing(one.drop_last(), calls) == Ok::<Seq<Seq<char>>, error::Fault>(none));
    assert(one.last() == markers()[0]);
    lists::lemma_merged_alone(a);
    assert(image_listing(one, calls) == Ok::<Seq<Seq<char>>, error::Fault>(a));
    assert(markers().last() == markers()[1]);
    lists::lemma_merged_is_unique(a, b);
    lists::lemma_merged_members(a, b, name);
    lists::lemma_merged_keeps(a, b);
}

/// A container is taken for absent only where podman itself says so: a call
/// that could not be started, that ran into the time limit, or that failed
/// without a word of absence is a failure, whatever the container is called.
pub proof fn law_failure_is_not_absence(name: Seq<char>, call: CallView)
    ensures
        inspection(name, call) == Ok::<Option<driver::InfoView>, error::Fault>(None) <==> says_absent(
            call,
        ),
        outcome(inspect_argv(name), call) is Err && !says_absent(call) ==> inspection(name, call)
            == Err::<Option<driver::InfoView>, error::Fault>(
            outcome(inspect_argv(name), call)->Err_0,
        ),
        call is NotStarted ==> !says_absent(call),
        call matches CallView::Ended { code, status, .. } && ran_out(code, status) ==> !says_absent(
            call,
        ),
{
}

/// A call that ran into the time limit is never reported as one that failed
/// by itself, nor as a success.
pub proof fn law_time_limit_is_told_apart(
    argv: Seq<Seq<char>>,
    wedged: CallView,
    other: CallView,
)
    requires
        wedged matches CallView::Ended { code, status, .. } && ran_out(code, status),
        other matches CallView::Ended { code, status, .. } && !ran_out(code, status),
    ensures
        outcome(argv, wedged) == Err::<Seq<u8>, error::Fault>(timed_out(argv)),
        outcome(argv, other) != outcome(argv, wedged),
{
    if let CallView::Ended { code, status, stdout, stderr } = other {
        let n = spoken(argv).len() as int;
        reveal_strlit(" failed: ");
        reveal_strlit(
            " timed out after 120s — a podman process may be stuck (check `ps -ef | grep podman`) and should be killed before retrying",
        );
        assert(timed_out(argv).message[n + 1] == 't');
        assert((spoken(argv) + " failed: "@ + stderr)[n + 1] == 'f');
    }
}

} // verus!

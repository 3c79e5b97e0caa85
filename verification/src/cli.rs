//! The decisions of the command line: what a box is called, what it is
//! created from, what a session takes along, and what is shown.

use vstd::prelude::*;
use vstd::string::*;
use vstd::utf8::*;

use crate::config;
use crate::config::profiles::{config_dir_path, data_dir};
use crate::config::SteelbxConfig;
use crate::driver;
use crate::driver::args;
use crate::driver::args::{CreateSpec, Mount};
use crate::driver::calls;
use crate::driver::calls::Call;
use crate::driver::parse;
use crate::driver::work;
use crate::driver::{is_valid_name, BoxInfo, BoxRow, ImageMeta, Podman, BOX_MARKER};
use crate::error;
use crate::error::{failure, quote, Error};
use crate::lists;
use crate::lists::{merge_into, owned};
use crate::results;
use crate::text;
use crate::text::{chars_of, join, split_on, starts_with, trim_end};
use crate::validate;
use crate::validate::{derive_mounts, HostPath};

verus! {

// ---------------------------------------------------------------------
// Creating a box
// ---------------------------------------------------------------------

/// The working directory that a policy sets for its boxes: without
/// trailing slashes, but for the root, which is nothing else. An empty one
/// is the same as none.
pub open spec fn workdir_override(c: config::ConfigView) -> Option<Seq<char>> {
    match c.workdir {
        None => None,
        Some(w) => {
            let bare = text::trim_back(w, text::only('/'));
            if bare.len() > 0 {
                Some(bare)
            } else if w.len() > 0 {
                Some("/"@)
            } else {
                None
            }
        },
    }
}

/// Where the mounts of a box land: in the working directory that the
/// policy sets, else in that of the image, else in `/work`.
pub open spec fn mount_base(c: config::ConfigView, meta: driver::MetaView) -> Seq<char> {
    match workdir_override(c) {
        Some(w) => w,
        None => match meta.workdir {
            Some(w) => w,
            None => "/work"@,
        },
    }
}

/// The layout of a box: the working directory that the policy sets, and
/// the mounts of the host paths.
pub fn create_layout(cfg: &SteelbxConfig, meta: &ImageMeta, paths: &[HostPath]) -> (r: Result<
    (Option<String>, Vec<Mount>),
    Error,
>)
    ensures
        ({
            let mounts = results::collected(
                validate::host_views(paths@),
                validate::mount_of(mount_base(cfg@, meta@)),
            );
            match r {
                Ok((workdir, m)) => {
                    &&& text::opt_text(workdir) == workdir_override(cfg@)
                    &&& mounts == Ok::<Seq<args::MountView>, error::Fault>(args::mount_views(m@))
                },
                Err(e) => mounts == Err::<Seq<args::MountView>, error::Fault>(e@),
            }
        }),
{
    let workdir = match &cfg.workdir {
        None => None,
        Some(w) => {
            let bare = trim_end(w.as_str(), '/');
            if !bare.as_str().is_empty() {
                Some(bare)
            } else if !w.as_str().is_empty() {
                Some("/".to_owned())
            } else {
                None
            }
        },
    };
    let base = match &workdir {
        Some(w) => w.clone(),
        None => match &meta.workdir {
            Some(w) => w.clone(),
            None => "/work".to_owned(),
        },
    };
    match derive_mounts(paths, base.as_str()) {
        Ok(mounts) => Ok((workdir, mounts)),
        Err(e) => Err(e),
    }
}

/// The message about a box without an image.
pub open spec fn no_image(profile: Seq<char>) -> error::Fault {
    error::said("no image: pass -i <image> or set `image` in profile '"@ + profile + "'"@)
}

/// The image of a box: the one that is asked for, else that of the policy.
pub fn resolve_image<'a>(flag: Option<&'a str>, cfg: &'a SteelbxConfig, profile: &'a str) -> (r:
    Result<&'a str, Error>)
    ensures
        match (text::opt_str(flag), cfg@.image) {
            (Some(image), _) => r matches Ok(i) && i@ == image,
            (None, Some(image)) => r matches Ok(i) && i@ == image,
            (None, None) => r matches Err(e) && e@ == no_image(profile@),
        },
{
    match flag {
        Some(image) => Ok(image),
        None => match &cfg.image {
            Some(image) => Ok(image.as_str()),
            None => Err(
                failure(
                    "no image: pass -i <image> or set `image` in profile '".to_owned().concat(
                        profile,
                    ).concat("'"),
                ),
            ),
        },
    }
}

/// The name that an image suggests for its boxes: what stands behind its
/// last `/`, up to a `:`.
pub open spec fn name_of_image(image: Seq<char>) -> Seq<char> {
    text::split(text::split(image, '/').last(), ':')[0]
}

/// The name that the image suggests: `localhost/pi-steelbx:latest` suggests
/// `pi-steelbx`.
pub fn default_box_name(image: &str) -> (r: String)
    ensures
        r@ == name_of_image(image@),
{
    let pieces = split_on(image, '/');
    proof {
        text::lemma_split_some(image@, '/');
        assert(text::texts(pieces@).last() == pieces@[pieces@.len() - 1]@);
    }
    let last = &pieces[pieces.len() - 1];
    let parts = split_on(last.as_str(), ':');
    proof {
        text::lemma_split_some(last@, ':');
        assert(text::texts(parts@)[0] == parts@[0]@);
    }
    parts[0].clone()
}

/// The name of a box, before it is checked: the one that is asked for, else
/// the one that the image declares, else the one that it suggests.
pub open spec fn wanted_name(
    flag: Option<Seq<char>>,
    image: Seq<char>,
    meta: driver::MetaView,
) -> Seq<char> {
    match flag {
        Some(name) => name,
        None => match meta.name {
            Some(name) => name,
            None => name_of_image(image),
        },
    }
}

/// The message about a name that podman does not accept.
pub open spec fn invalid_box_name(name: Seq<char>) -> error::Fault {
    error::said("invalid box name: "@ + error::quoted(name) + " — pass -n <name>"@)
}

/// The name of a box. A name that podman does not accept is an error.
pub fn box_name_from(flag: Option<&str>, image: &str, meta: &ImageMeta) -> (r: Result<
    String,
    Error,
>)
    ensures
        ({
            let name = wanted_name(text::opt_str(flag), image@, meta@);
            match r {
                Ok(n) => driver::valid_name(name) && n@ == name,
                Err(e) => !driver::valid_name(name) && e@ == invalid_box_name(name),
            }
        }),
{
    let name = match flag {
        Some(name) => name.to_owned(),
        None => match &meta.name {
            Some(name) => name.clone(),
            None => default_box_name(image),
        },
    };
    if !is_valid_name(name.as_str()) {
        return Err(
            failure(
                "invalid box name: ".to_owned().concat(quote(name.as_str()).as_str()).concat(
                    " — pass -n <name>",
                ),
            ),
        );
    }
    Ok(name)
}

/// The message about a name that is taken.
pub open spec fn box_exists(name: Seq<char>, info: driver::InfoView) -> error::Fault {
    error::said(
        "box '"@ + name + "' already exists (state: "@ + (match info.state {
            Some(state) => state,
            None => "?"@,
        }) + ")\nRemove it first: steelbx rm "@ + name,
    )
}

/// Refuses to create a box whose name is taken. `existing` is the container
/// of that name, if there is one.
pub fn refuse_existing(box_name: &str, existing: &Option<BoxInfo>) -> (r: Result<(), Error>)
    ensures
        error::fault(r) == match calls::opt_info(*existing) {
            Some(info) => Some(box_exists(box_name@, info)),
            None => None,
        },
{
    match existing {
        None => Ok(()),
        Some(info) => {
            let state = match &info.state {
                Some(state) => state.clone(),
                None => "?".to_owned(),
            };
            Err(
                failure(
                    "box '".to_owned().concat(box_name).concat(
                        "' already exists (state: ",
                    ).concat(state.as_str()).concat(")\nRemove it first: steelbx rm ").concat(
                        box_name,
                    ),
                ),
            )
        },
    }
}

/// The runtime env names of a box: those of the policy, then those that
/// the image adds.
pub open spec fn box_env(profile: Seq<Seq<char>>, image: Seq<Seq<char>>) -> Seq<Seq<char>> {
    lists::merged(lists::merged(Seq::empty(), profile), image)
}

/// The runtime env names of a box: those of the policy, then those that
/// the image adds, each once.
pub fn merge_runtime_env(profile: &[String], image: &[String]) -> (r: Vec<String>)
    ensures
        text::texts(r@) == box_env(text::texts(profile@), text::texts(image@)),
{
    let mut out: Vec<String> = Vec::new();
    proof {
        assert(text::texts(out@) == Seq::<Seq<char>>::empty());
    }
    merge_into(&mut out, profile);
    merge_into(&mut out, image);
    out
}

/// The main command of a box: that of the policy; else none, so that the
/// image's own runs, if the image says that it brings one; else the
/// heartbeat.
pub open spec fn command_of(c: config::ConfigView, meta: driver::MetaView) -> Seq<Seq<char>> {
    if c.entry.len() > 0 {
        c.entry
    } else if meta.cmd {
        Seq::empty()
    } else {
        seq!["sleep"@, "infinity"@]
    }
}

/// The main command of a box.
pub fn main_command(cfg: &SteelbxConfig, meta: &ImageMeta) -> (r: Vec<String>)
    ensures
        text::texts(r@) == command_of(cfg@, meta@),
{
    if cfg.entry.len() > 0 {
        cfg.entry.clone()
    } else if meta.cmd {
        let none: Vec<String> = Vec::new();
        proof {
            assert(text::texts(none@) == Seq::<Seq<char>>::empty());
        }
        none
    } else {
        let command = owned(&["sleep", "infinity"]);
        proof {
            assert(text::texts(command@) == seq!["sleep"@, "infinity"@]);
        }
        command
    }
}

/// What a box is created from: the policy, on the layout.
pub open spec fn full_spec(
    c: config::ConfigView,
    meta: driver::MetaView,
    image: Seq<char>,
    workdir: Option<Seq<char>>,
    mounts: Seq<args::MountView>,
) -> args::SpecView {
    args::SpecView {
        image,
        workdir,
        mounts,
        command: command_of(c, meta),
        runtime_env: box_env(c.runtime_env, meta.env),
        ..args::policy_spec(c)
    }
}

/// What a box is created from. The working directory and the mounts are
/// those of `create_layout`.
pub fn create_spec(
    cfg: &SteelbxConfig,
    meta: &ImageMeta,
    image: &str,
    workdir: Option<String>,
    mounts: Vec<Mount>,
) -> (r: CreateSpec)
    ensures
        r@ == full_spec(
            cfg@,
            meta@,
            image@,
            text::opt_text(workdir),
            args::mount_views(mounts@),
        ),
{
    let mut spec = CreateSpec::from(cfg);
    spec.image = image.to_owned();
    spec.workdir = workdir;
    spec.mounts = mounts;
    spec.command = main_command(cfg, meta);
    spec.runtime_env = merge_runtime_env(&cfg.runtime_env, &meta.env);
    spec
}

// ---------------------------------------------------------------------
// Entering a box
// ---------------------------------------------------------------------

/// The message about a container that is no box.
pub open spec fn not_a_box(name: Seq<char>) -> error::Fault {
    error::said(
        "'"@ + name + "' exists but is not a steelbx box (no "@ + driver::BOX_MARKER@
            + " label) — refusing; it is not in steelbx's scope"@,
    )
}

/// The box of a name: a container of that name that carries the marker.
pub open spec fn box_of(name: Seq<char>, call: calls::CallView) -> Result<
    driver::InfoView,
    error::Fault,
> {
    match calls::inspection(name, call) {
        Err(m) => Err(m),
        Ok(None) => Err(work::no_such_box(name)),
        Ok(Some(info)) => if info.marker is None {
            Err(not_a_box(name))
        } else {
            Ok(info)
        },
    }
}

/// The box of the name, as the call with `inspect_args` answers. A
/// container without the marker is refused.
pub fn resolve_box(pod: &Podman, name: &str, call: &Call) -> (r: Result<BoxInfo, Error>)
    ensures
        match r {
            Ok(info) => box_of(name@, call@) == Ok::<driver::InfoView, error::Fault>(info@),
            Err(e) => box_of(name@, call@) == Err::<driver::InfoView, error::Fault>(e@),
        },
{
    match pod.inspect(name, call) {
        Err(e) => Err(e),
        Ok(None) => Err(
            failure("box '".to_owned().concat(name).concat("' does not exist")),
        ),
        Ok(Some(info)) => {
            if info.marker.is_none() {
                return Err(
                    failure(
                        "'".to_owned().concat(name).concat(
                            "' exists but is not a steelbx box (no ",
                        ).concat(BOX_MARKER).concat(
                            " label) — refusing; it is not in steelbx's scope",
                        ),
                    ),
                );
            }
            Ok(info)
        },
    }
}

/// The names that have the answer, in order.
pub open spec fn having(names: Seq<Seq<char>>, answers: Seq<bool>, answer: bool) -> Seq<Seq<char>>
    decreases names.len(),
{
    if names.len() == 0 {
        Seq::empty()
    } else {
        let front = having(names.drop_last(), answers, answer);
        if answers[names.len() - 1] == answer {
            front.push(names.last())
        } else {
            front
        }
    }
}

/// `present` may answer so when asked for the name.
pub open spec fn may_answer<F: Fn(&str) -> bool>(present: F, name: Seq<char>, answer: bool) -> bool {
    exists|s: &str| s@ == name && #[trigger] call_ensures(present, (s,), answer)
}

/// `present` may give these answers when asked for the names.
pub open spec fn are_answers<F: Fn(&str) -> bool>(
    present: F,
    names: Seq<Seq<char>>,
    answers: Seq<bool>,
) -> bool {
    &&& answers.len() == names.len()
    &&& forall|i: int|
        0 <= i < names.len() ==> may_answer(present, names[i], #[trigger] answers[i])
}

/// The names that a session asks for: those that the box declares, then
/// those of the command line.
pub open spec fn asked_for(declared: Seq<Seq<char>>, cli: Seq<Seq<char>>) -> Seq<Seq<char>> {
    lists::merged(lists::merged(Seq::empty(), declared), cli)
}

/// The runtime env of a session: the names that the box declares and those
/// of the command line, each once; first those that are set in the caller's
/// environment, which are passed on, then those that are not, which are
/// left as the box has them. `present` is asked for these names only.
pub fn runtime_env_injection<F: Fn(&str) -> bool>(
    declared: &[String],
    cli: &[String],
    present: F,
) -> (r: (Vec<String>, Vec<String>))
    requires
        forall|s: &str|
            asked_for(text::texts(declared@), text::texts(cli@)).contains(s@)
                ==> #[trigger] call_requires(present, (s,)),
    ensures
        exists|answers: Seq<bool>| #[trigger]
            are_answers(
                present,
                asked_for(text::texts(declared@), text::texts(cli@)),
                answers,
            ) && text::texts(r.0@) == having(
                asked_for(text::texts(declared@), text::texts(cli@)),
                answers,
                true,
            ) && text::texts(r.1@) == having(
                asked_for(text::texts(declared@), text::texts(cli@)),
                answers,
                false,
            ),
{
    let mut names: Vec<String> = Vec::new();
    proof {
        assert(text::texts(names@) == Seq::<Seq<char>>::empty());
    }
    merge_into(&mut names, declared);
    merge_into(&mut names, cli);
    let ghost all = text::texts(names@);
    let ghost mut answers: Seq<bool> = Seq::empty();
    let mut inject: Vec<String> = Vec::new();
    let mut unset: Vec<String> = Vec::new();
    let mut i: usize = 0;
    while i < names.len()
        invariant
            i <= names@.len(),
            all == text::texts(names@),
            all == asked_for(text::texts(declared@), text::texts(cli@)),
            answers.len() == i,
            forall|s: &str| all.contains(s@) ==> #[trigger] call_requires(present, (s,)),
            forall|j: int| 0 <= j < i ==> may_answer(present, all[j], #[trigger] answers[j]),
            text::texts(inject@) == having(all.take(i as int), answers, true),
            text::texts(unset@) == having(all.take(i as int), answers, false),
        decreases names.len() - i,
    {
        let s = names[i].as_str();
        proof {
            assert(all[i as int] == s@);
            assert(all.contains(s@));
        }
        let set = present(s);
        let ghost before = answers;
        proof {
            assert(all[i as int] == s@);
            assert(may_answer(present, all[i as int], set));
            answers = answers.push(set);
            assert(all.take(i + 1).drop_last() == all.take(i as int));
            assert(all.take(i + 1).last() == all[i as int]);
            lemma_having_prefix(all.take(i as int), before, answers, true);
            lemma_having_prefix(all.take(i as int), before, answers, false);
        }
        if set {
            proof {
                text::lemma_texts_push(inject@, names@[i as int]);
            }
            inject.push(names[i].clone());
        } else {
            proof {
                text::lemma_texts_push(unset@, names@[i as int]);
            }
            unset.push(names[i].clone());
        }
        proof {
            assert forall|j: int| 0 <= j <= i implies may_answer(
                present,
                all[j],
                #[trigger] answers[j],
            ) by {
                if j < i {
                    assert(answers[j] == before[j]);
                }
            }
        }
        i += 1;
    }
    proof {
        assert(all.take(i as int) == all);
        assert(are_answers(present, all, answers));
    }
    (inject, unset)
}

proof fn lemma_having_prefix(
    names: Seq<Seq<char>>,
    a: Seq<bool>,
    b: Seq<bool>,
    answer: bool,
)
    requires
        names.len() <= a.len(),
        a.len() <= b.len(),
        forall|i: int| 0 <= i < a.len() ==> a[i] == b[i],
    ensures
        having(names, a, answer) == having(names, b, answer),
    decreases names.len(),
{
    if names.len() > 0 {
        lemma_having_prefix(names.drop_last(), a, b, answer);
    }
}

/// The note about runtime env names that are not set.
pub open spec fn unset_note(name: Seq<char>, unset: Seq<Seq<char>>) -> Option<Seq<char>> {
    if unset.len() > 0 {
        Some(
            "note: box '"@ + name + "' runtime env "@ + text::joined(unset, ", "@)
                + " not set (left unset this session)"@,
        )
    } else {
        None
    }
}

/// The note about runtime env names that are not set, if there are some.
pub fn note_unset_env(box_name: &str, unset: &[String]) -> (r: Option<String>)
    ensures
        text::opt_text(r) == unset_note(box_name@, text::texts(unset@)),
{
    if unset.len() > 0 {
        Some(
            "note: box '".to_owned().concat(box_name).concat("' runtime env ").concat(
                join(unset, ", ").as_str(),
            ).concat(" not set (left unset this session)"),
        )
    } else {
        None
    }
}

/// The bytes that set the title of a terminal window (`ESC ] 0 ; title
/// BEL`) to that of a box.
pub fn title_escape(name: &str) -> (r: Vec<u8>)
    ensures
        r@ == encode_utf8("\x1b]0;steelbx "@ + name@ + "\x07"@),
{
    "\x1b]0;steelbx ".to_owned().concat(name).concat("\x07").as_str().as_bytes_vec()
}

// ---------------------------------------------------------------------
// The environment of the program
// ---------------------------------------------------------------------

/// What the program finds in its environment.
#[derive(Debug)]
pub struct Surroundings {
    /// `HOME`.
    pub home: Option<String>,
    /// `STEELBX_CONFIG_DIR` is set.
    pub has_config_dir: bool,
    /// `STEELBX_DATA_DIR` is set.
    pub has_data_dir: bool,
    /// `STEELBX_CONNECTION`.
    pub connection: Option<String>,
    /// `CONTAINER_HOST` is set.
    pub has_container_host: bool,
}

/// One variable to set, if it is to be set.
pub open spec fn setting(name: Seq<char>, value: Seq<char>, wanted: bool) -> Seq<
    (Seq<char>, Seq<char>),
> {
    if wanted {
        seq![(name, value)]
    } else {
        Seq::empty()
    }
}

/// The variables to set: the two directories, and the connection as
/// podman's host; none of them if it is set.
pub open spec fn settings(home: Seq<char>, s: Surroundings) -> Seq<(Seq<char>, Seq<char>)> {
    setting("STEELBX_CONFIG_DIR"@, config::profiles::config_dir(home), !s.has_config_dir)
        + setting("STEELBX_DATA_DIR"@, config::profiles::data_path(home), !s.has_data_dir)
        + match s.connection {
        Some(c) => setting("CONTAINER_HOST"@, c@, !s.has_container_host),
        None => Seq::empty(),
    }
}

/// Pairs of strings, as text.
pub open spec fn pair_texts(v: Seq<(String, String)>) -> Seq<(Seq<char>, Seq<char>)> {
    v.map_values(|p: (String, String)| (p.0@, p.1@))
}

/// Appends the pair, if it is wanted.
fn push_setting(out: &mut Vec<(String, String)>, name: &str, value: String, wanted: bool)
    ensures
        pair_texts(final(out)@) == pair_texts(old(out)@) + setting(name@, value@, wanted),
{
    let ghost before = pair_texts(out@);
    if wanted {
        out.push((name.to_owned(), value));
        proof {
            assert(pair_texts(out@) == before + seq![(name@, value@)]);
        }
    } else {
        proof {
            assert(before + Seq::<(Seq<char>, Seq<char>)>::empty() == before);
        }
    }
}

/// The variables to set before anything else, so that expansion and podman
/// see the same values: each of them unless it is set already. Without a
/// home directory there are no defaults.
pub fn provision_env(s: &Surroundings) -> (r: Result<Vec<(String, String)>, Error>)
    ensures
        match (text::opt_text(s.home), r) {
            (Some(home), Ok(v)) => pair_texts(v@) == settings(home, *s),
            (None, Err(e)) => e@ == error::said(
                "HOME is required (steelbx-provided env defaults)"@,
            ),
            _ => false,
        },
{
    match &s.home {
        None => Err(failure("HOME is required (steelbx-provided env defaults)".to_owned())),
        Some(home) => {
            let mut out: Vec<(String, String)> = Vec::new();
            push_setting(
                &mut out,
                "STEELBX_CONFIG_DIR",
                config_dir_path(home.as_str()),
                !s.has_config_dir,
            );
            push_setting(
                &mut out,
                "STEELBX_DATA_DIR",
                data_dir(home.as_str()),
                !s.has_data_dir,
            );
            if let Some(c) = &s.connection {
                push_setting(&mut out, "CONTAINER_HOST", c.clone(), !s.has_container_host);
            }
            proof {
                assert(pair_texts(out@) == settings(home@, *s));
            }
            Ok(out)
        },
    }
}

// ---------------------------------------------------------------------
// The list of boxes
// ---------------------------------------------------------------------

/// The length of a text in bytes.
pub open spec fn byte_len(s: Seq<char>) -> nat {
    encode_utf8(s).len()
}

/// The greatest length, in bytes, of the texts and the heading.
pub open spec fn width(heading: Seq<char>, column: Seq<Seq<char>>) -> nat
    decreases column.len(),
{
    if column.len() == 0 {
        byte_len(heading)
    } else {
        let front = width(heading, column.drop_last());
        if byte_len(column.last()) > front {
            byte_len(column.last())
        } else {
            front
        }
    }
}

/// `n` spaces.
pub open spec fn spaces(n: nat) -> Seq<char> {
    Seq::new(n, |i: int| ' ')
}

/// A text with spaces behind it, up to `w` characters.
pub open spec fn padded(s: Seq<char>, w: nat) -> Seq<char> {
    if s.len() < w {
        s + spaces((w - s.len()) as nat)
    } else {
        s
    }
}

/// A line of the list.
pub open spec fn ps_line(
    row: parse::RowView,
    name_width: nat,
    state_width: nat,
    created_width: nat,
) -> Seq<char> {
    padded(row.name, name_width) + " "@ + padded(row.state, state_width) + " "@ + padded(
        row.created,
        created_width,
    ) + " "@ + row.image
}

/// The headings of the list, as a row.
pub open spec fn headings() -> parse::RowView {
    parse::RowView {
        name: "NAME"@,
        state: "STATE"@,
        created: "CREATED"@,
        image: "IMAGE"@,
    }
}

/// The column of the names.
pub open spec fn names_of(rows: Seq<parse::RowView>) -> Seq<Seq<char>> {
    rows.map_values(|r: parse::RowView| r.name)
}

/// The column of the states.
pub open spec fn states_of(rows: Seq<parse::RowView>) -> Seq<Seq<char>> {
    rows.map_values(|r: parse::RowView| r.state)
}

/// The column of the ages.
pub open spec fn ages_of(rows: Seq<parse::RowView>) -> Seq<Seq<char>> {
    rows.map_values(|r: parse::RowView| r.created)
}

/// A line of the list of these rows.
pub open spec fn line_among(row: parse::RowView, rows: Seq<parse::RowView>) -> Seq<char> {
    ps_line(
        row,
        width("NAME"@, names_of(rows)),
        width("STATE"@, states_of(rows)),
        width("CREATED"@, ages_of(rows)),
    )
}

/// The lines of the list: the headings, always, and a line for each row.
/// The columns are as wide as the widest value, and at least as their
/// heading.
pub open spec fn ps_lines(rows: Seq<parse::RowView>) -> Seq<Seq<char>> {
    seq![line_among(headings(), rows)] + rows.map_values(
        |r: parse::RowView| line_among(r, rows),
    )
}

/// The greater of the width and the length of the text in bytes.
fn widen(w: usize, s: &str) -> (r: usize)
    ensures
        r == if byte_len(s@) > w {
            byte_len(s@)
        } else {
            w as nat
        },
{
    let n = s.as_bytes().len();
    if n > w {
        n
    } else {
        w
    }
}

/// The text with spaces behind it, up to `w` characters.
fn pad(s: &str, w: usize) -> (r: String)
    ensures
        r@ == padded(s@, w as nat),
{
    let mut out = s.to_owned();
    let mut n: usize = chars_of(s).len();
    let ghost start: int = n as int;
    proof {
        assert(s@ + spaces(0) == s@);
    }
    while n < w
        invariant
            start <= n,
            start == s@.len(),
            n <= w || n == start,
            out@ == s@ + spaces((n - start) as nat),
        decreases w - n,
    {
        out.push(' ');
        proof {
            assert(spaces((n - start) as nat).push(' ') == spaces((n + 1 - start) as nat));
            assert(out@ == s@ + spaces((n + 1 - start) as nat));
        }
        n += 1;
    }
    out
}

/// A line of the list.
fn list_line(
    name: &str,
    state: &str,
    created: &str,
    image: &str,
    widths: (usize, usize, usize),
) -> (r: String)
    ensures
        r@ == ps_line(
            parse::RowView { name: name@, state: state@, created: created@, image: image@ },
            widths.0 as nat,
            widths.1 as nat,
            widths.2 as nat,
        ),
{
    pad(name, widths.0).concat(" ").concat(pad(state, widths.1).as_str()).concat(" ").concat(
        pad(created, widths.2).as_str(),
    ).concat(" ").concat(image)
}

/// The lines of the list of boxes.
pub fn ps_table(rows: &[BoxRow]) -> (r: Vec<String>)
    ensures
        text::texts(r@) == ps_lines(parse::row_views(rows@)),
{
    let ghost all = parse::row_views(rows@);
    let mut name_w: usize = "NAME".as_bytes().len();
    let mut state_w: usize = "STATE".as_bytes().len();
    let mut created_w: usize = "CREATED".as_bytes().len();
    let mut i: usize = 0;
    while i < rows.len()
        invariant
            i <= rows@.len(),
            all == parse::row_views(rows@),
            name_w == width("NAME"@, names_of(all).take(i as int)),
            state_w == width("STATE"@, states_of(all).take(i as int)),
            created_w == width("CREATED"@, ages_of(all).take(i as int)),
        decreases rows.len() - i,
    {
        proof {
            let r = rows@[i as int];
            assert(names_of(all).take(i + 1).drop_last() == names_of(all).take(i as int));
            assert(names_of(all).take(i + 1).last() == r.name@);
            assert(states_of(all).take(i + 1).drop_last() == states_of(all).take(i as int));
            assert(states_of(all).take(i + 1).last() == r.state@);
            assert(ages_of(all).take(i + 1).drop_last() == ages_of(all).take(i as int));
            assert(ages_of(all).take(i + 1).last() == r.created@);
        }
        name_w = widen(name_w, rows[i].name.as_str());
        state_w = widen(state_w, rows[i].state.as_str());
        created_w = widen(created_w, rows[i].created.as_str());
        i += 1;
    }
    proof {
        assert(names_of(all).take(i as int) == names_of(all));
        assert(states_of(all).take(i as int) == states_of(all));
        assert(ages_of(all).take(i as int) == ages_of(all));
    }
    let widths: (usize, usize, usize) = (name_w, state_w, created_w);
    let ghost lines = ps_lines(all);
    let mut out: Vec<String> = Vec::new();
    let head = list_line("NAME", "STATE", "CREATED", "IMAGE", widths);
    proof {
        text::lemma_texts_push(out@, head);
    }
    out.push(head);
    proof {
        assert(text::texts(out@) == lines.take(1));
    }
    let mut j: usize = 0;
    while j < rows.len()
        invariant
            j <= rows@.len(),
            all == parse::row_views(rows@),
            lines == ps_lines(all),
            widths.0 == width("NAME"@, names_of(all)),
            widths.1 == width("STATE"@, states_of(all)),
            widths.2 == width("CREATED"@, ages_of(all)),
            text::texts(out@) == lines.take(j + 1),
        decreases rows.len() - j,
    {
        let b = &rows[j];
        let line = list_line(
            b.name.as_str(),
            b.state.as_str(),
            b.created.as_str(),
            b.image.as_str(),
            widths,
        );
        proof {
            text::lemma_texts_push(out@, line);
            assert(all[j as int] == b@);
            assert(lines[j + 1] == line_among(all[j as int], all));
            assert(lines.take(j + 2) == lines.take(j + 1).push(line@));
        }
        out.push(line);
        j += 1;
    }
    proof {
        assert(lines.take(j + 1) == lines);
    }
    out
}

// ---------------------------------------------------------------------
// Completion
// ---------------------------------------------------------------------

/// The candidates that start with what is typed.
pub open spec fn starting_with(candidates: Seq<Seq<char>>, typed: Seq<char>) -> Seq<Seq<char>>
    decreases candidates.len(),
{
    if candidates.len() == 0 {
        Seq::empty()
    } else {
        let front = starting_with(candidates.drop_last(), typed);
        if text::starts(candidates.last(), typed) {
            front.push(candidates.last())
        } else {
            front
        }
    }
}

/// The candidates that start with what is typed.
pub fn complete(candidates: &[String], current: &str) -> (r: Vec<String>)
    ensures
        text::texts(r@) == starting_with(text::texts(candidates@), current@),
{
    let ghost all = text::texts(candidates@);
    let mut out: Vec<String> = Vec::new();
    let mut i: usize = 0;
    while i < candidates.len()
        invariant
            i <= candidates@.len(),
            all == text::texts(candidates@),
            text::texts(out@) == starting_with(all.take(i as int), current@),
        decreases candidates.len() - i,
    {
        proof {
            assert(all.take(i + 1).drop_last() == all.take(i as int));
            assert(all.take(i + 1).last() == candidates@[i as int]@);
        }
        if starts_with(candidates[i].as_str(), current) {
            proof {
                text::lemma_texts_push(out@, candidates@[i as int]);
            }
            out.push(candidates[i].clone());
        }
        i += 1;
    }
    proof {
        assert(all.take(i as int) == all);
    }
    out
}

// ---------------------------------------------------------------------
// Laws
// ---------------------------------------------------------------------

/// The working directory that an accepted policy sets comes before that of
/// the image, whatever the image declares: it is what the box is created
/// with, and where its mounts land.
pub proof fn law_workdir_of_the_policy_comes_first(c: config::ConfigView, meta: driver::MetaView)
    requires
        c.workdir matches Some(w) && w.len() > 0,
    ensures
        workdir_override(c) is Some,
        mount_base(c, meta) == workdir_override(c)->Some_0,
{
}

/// The runtime env of a box is the union of what the policy and the image
/// declare, without duplicates; the names of the policy come first.
pub proof fn law_box_env_is_the_union(
    profile: Seq<Seq<char>>,
    image: Seq<Seq<char>>,
    name: Seq<char>,
)
    ensures
        box_env(profile, image).no_duplicates(),
        box_env(profile, image).contains(name) <==> profile.contains(name) || image.contains(
            name,
        ),
        profile.no_duplicates() ==> box_env(profile, image).len() >= profile.len() && box_env(
            profile,
            image,
        ).take(profile.len() as int) == profile,
{
    let none = Seq::<Seq<char>>::empty();
    let front = lists::merged(none, profile);
    lists::lemma_merged_is_unique(none, profile);
    lists::lemma_merged_is_unique(front, image);
    lists::lemma_merged_members(none, profile, name);
    lists::lemma_merged_members(front, image, name);
    if profile.no_duplicates() {
        lists::lemma_merged_alone(profile);
        lists::lemma_merged_keeps(front, image);
    }
}

/// The runtime env that a box is created with is the one that a session
/// reads from it, where the names of the policy are accepted ones and those
/// of the image are what was read from its label.
pub proof fn law_runtime_env_survives_creation(profile: Seq<Seq<char>>, image_label: Seq<char>)
    requires
        forall|i: int|
            0 <= i < profile.len() ==> validate::valid_env_name(#[trigger] profile[i]),
    ensures
        parse::label_names(args::env_label(box_env(profile, parse::label_names(image_label))))
            == box_env(profile, parse::label_names(image_label)),
{
    let image = parse::label_names(image_label);
    let names = box_env(profile, image);
    assert forall|i: int| 0 <= i < names.len() implies validate::valid_env_name(
        #[trigger] names[i],
    ) by {
        let name = names[i];
        assert(names.contains(name));
        law_box_env_is_the_union(profile, image, name);
        if profile.contains(name) {
            let k = choose|k: int| 0 <= k < profile.len() && profile[k] == name;
            assert(validate::valid_env_name(profile[k]));
        } else {
            let k = choose|k: int| 0 <= k < image.len() && image[k] == name;
            parse::law_label_names_are_valid(text::split(image_label, ','), k);
        }
    }
    parse::law_env_label_reads_back(names);
}

/// The name that an image suggests holds neither `/` nor `:`.
pub proof fn law_suggested_name_is_one_component(image: Seq<char>)
    ensures
        !name_of_image(image).contains('/'),
        !name_of_image(image).contains(':'),
{
    text::lemma_split_some(image, '/');
    text::lemma_split_pieces(image, '/');
    let pieces = text::split(image, '/');
    let last = pieces[pieces.len() - 1];
    assert(!last.contains('/'));
    text::lemma_split_some(last, ':');
    text::lemma_split_pieces(last, ':');
    text::lemma_run(last, text::other_than(':'));
    let name = text::split(last, ':')[0];
    let n = text::position(last, ':');
    if n < last.len() {
        assert(name == last.take(n as int));
    }
    assert forall|i: int| 0 <= i < name.len() implies name[i] != '/' by {
        assert(last.contains(last[i]));
    }
}

proof fn lemma_having_members(
    names: Seq<Seq<char>>,
    answers: Seq<bool>,
    answer: bool,
    x: Seq<char>,
)
    requires
        names.len() <= answers.len(),
    ensures
        having(names, answers, answer).contains(x) <==> exists|i: int|
            0 <= i < names.len() && #[trigger] names[i] == x && answers[i] == answer,
    decreases names.len(),
{
    if names.len() > 0 {
        let front = names.drop_last();
        let sofar = having(front, answers, answer);
        lemma_having_members(front, answers, answer, x);
        let done = having(names, answers, answer);
        if done.contains(x) {
            let k = choose|k: int| 0 <= k < done.len() && done[k] == x;
            if k < sofar.len() {
                assert(sofar[k] == x);
                let i = choose|i: int|
                    0 <= i < front.len() && #[trigger] front[i] == x && answers[i] == answer;
                assert(names[i] == x);
            } else {
                assert(names[names.len() - 1] == x);
            }
        }
        if exists|i: int|
            0 <= i < names.len() && #[trigger] names[i] == x && answers[i] == answer {
            let i = choose|i: int|
                0 <= i < names.len() && #[trigger] names[i] == x && answers[i] == answer;
            if i < front.len() {
                assert(front[i] == x);
                let k = choose|k: int| 0 <= k < sofar.len() && sofar[k] == x;
                assert(done[k] == x);
            } else {
                assert(done[sofar.len() as int] == x);
            }
        }
    }
}

/// A name that a session asks for is passed on if it is set and left alone
/// if it is not, never both; and no other name is either.
pub proof fn law_session_passes_what_is_set(
    declared: Seq<Seq<char>>,
    cli: Seq<Seq<char>>,
    answers: Seq<bool>,
    is_set: spec_fn(Seq<char>) -> bool,
    name: Seq<char>,
)
    requires
        answers.len() == asked_for(declared, cli).len(),
        forall|i: int|
            0 <= i < answers.len() ==> #[trigger] answers[i] == is_set(
                asked_for(declared, cli)[i],
            ),
    ensures
        having(asked_for(declared, cli), answers, true).contains(name) <==> (declared.contains(
            name,
        ) || cli.contains(name)) && is_set(name),
        having(asked_for(declared, cli), answers, false).contains(name) <==> (
        declared.contains(name) || cli.contains(name)) && !is_set(name),
{
    let names = asked_for(declared, cli);
    let none = Seq::<Seq<char>>::empty();
    lists::lemma_merged_members(none, declared, name);
    lists::lemma_merged_members(lists::merged(none, declared), cli, name);
    lemma_having_members(names, answers, true, name);
    lemma_having_members(names, answers, false, name);
    if names.contains(name) {
        let i = choose|i: int| 0 <= i < names.len() && names[i] == name;
        assert(answers[i] == is_set(name));
    }
}

proof fn lemma_having_is_unique(names: Seq<Seq<char>>, answers: Seq<bool>, answer: bool)
    requires
        names.len() <= answers.len(),
        names.no_duplicates(),
    ensures
        having(names, answers, answer).no_duplicates(),
    decreases names.len(),
{
    if names.len() > 0 {
        let front = names.drop_last();
        let sofar = having(front, answers, answer);
        lemma_having_is_unique(front, answers, answer);
        lemma_having_members(front, answers, answer, names.last());
        if sofar.contains(names.last()) {
            let i = choose|i: int|
                0 <= i < front.len() && #[trigger] front[i] == names.last() && answers[i]
                    == answer;
            assert(names[i] == names[names.len() - 1]);
        }
    }
}

proof fn lemma_having_is_a_filter(
    names: Seq<Seq<char>>,
    answers: Seq<bool>,
    answer: bool,
    p: spec_fn(Seq<char>) -> bool,
)
    requires
        names.len() <= answers.len(),
        forall|i: int| 0 <= i < names.len() ==> p(#[trigger] names[i]) == (answers[i] == answer),
    ensures
        having(names, answers, answer) == names.filter(p),
    decreases names.len(),
{
    reveal(Seq::filter);
    if names.len() > 0 {
        let front = names.drop_last();
        assert forall|i: int| 0 <= i < front.len() implies p(#[trigger] front[i]) == (answers[i]
            == answer) by {
            assert(front[i] == names[i]);
        }
        lemma_having_is_a_filter(front, answers, answer, p);
        assert(p(names[names.len() - 1]) == (answers[names.len() - 1] == answer));
    }
}

/// The names that a session asks for are those of the box and of the
/// command line, merged as a box merges its own. The session splits them by
/// whether they are set, and both parts keep their order: neither holds a
/// name twice, no name is in both, and together they hold every name.
pub proof fn law_session_splits_the_names(
    declared: Seq<Seq<char>>,
    cli: Seq<Seq<char>>,
    answers: Seq<bool>,
    is_set: spec_fn(Seq<char>) -> bool,
)
    requires
        answers.len() == asked_for(declared, cli).len(),
        forall|i: int|
            0 <= i < answers.len() ==> #[trigger] answers[i] == is_set(
                asked_for(declared, cli)[i],
            ),
    ensures
        ({
            let all = asked_for(declared, cli);
            let passed = having(all, answers, true);
            let left = having(all, answers, false);
            &&& all == box_env(declared, cli)
            &&& passed == all.filter(is_set)
            &&& left == all.filter(|n: Seq<char>| !is_set(n))
            &&& passed.no_duplicates()
            &&& left.no_duplicates()
            &&& forall|n: Seq<char>| !(#[trigger] passed.contains(n) && left.contains(n))
            &&& forall|n: Seq<char>|
                declared.contains(n) || cli.contains(n) <==> #[trigger] passed.contains(n)
                    || left.contains(n)
        }),
{
    let all = asked_for(declared, cli);
    let none = Seq::<Seq<char>>::empty();
    let passed = having(all, answers, true);
    let left = having(all, answers, false);
    lists::lemma_merged_is_unique(none, declared);
    lists::lemma_merged_is_unique(lists::merged(none, declared), cli);
    lemma_having_is_unique(all, answers, true);
    lemma_having_is_unique(all, answers, false);
    assert forall|i: int| 0 <= i < all.len() implies is_set(#[trigger] all[i]) == (answers[i]
        == true) by {
        assert(answers[i] == is_set(all[i]));
    }
    lemma_having_is_a_filter(all, answers, true, is_set);
    let unset = |n: Seq<char>| !is_set(n);
    assert forall|i: int| 0 <= i < all.len() implies unset(#[trigger] all[i]) == (answers[i]
        == false) by {
        assert(answers[i] == is_set(all[i]));
    }
    lemma_having_is_a_filter(all, answers, false, unset);
    assert forall|n: Seq<char>| !(#[trigger] passed.contains(n) && left.contains(n)) by {
        law_session_passes_what_is_set(declared, cli, answers, is_set, n);
    }
    assert forall|n: Seq<char>|
        declared.contains(n) || cli.contains(n) <==> #[trigger] passed.contains(n)
            || left.contains(n) by {
        law_session_passes_what_is_set(declared, cli, answers, is_set, n);
    }
}

/// Only a container that carries the marker is a box: any other one is
/// refused, and so is one that does not exist.
pub proof fn law_only_marked_containers_are_boxes(name: Seq<char>, call: calls::CallView)
    ensures
        box_of(name, call) is Ok <==> (calls::inspection(name, call) matches Ok(Some(info))
            && info.marker is Some),
{
}

proof fn lemma_bytes_at_least_chars(s: Seq<char>)
    ensures
        byte_len(s) >= s.len(),
    decreases s.len(),
{
    if s.len() > 0 {
        lemma_bytes_at_least_chars(s.drop_first());
        assert(encode_scalar(s[0] as u32).len() >= 1);
    }
}

proof fn lemma_width_covers(heading: Seq<char>, column: Seq<Seq<char>>)
    ensures
        width(heading, column) >= byte_len(heading),
        forall|i: int|
            0 <= i < column.len() ==> width(heading, column) >= byte_len(#[trigger] column[i]),
    decreases column.len(),
{
    if column.len() > 0 {
        let front = column.drop_last();
        lemma_width_covers(heading, front);
        assert forall|i: int| 0 <= i < column.len() implies width(heading, column) >= byte_len(
            #[trigger] column[i],
        ) by {
            if i < front.len() {
                assert(front[i] == column[i]);
            }
        }
    }
}

/// The list has a line for the headings and one for each box, and the last
/// column starts at the same place in all of them, however long the values
/// are.
pub proof fn law_list_is_aligned(rows: Seq<parse::RowView>, i: int)
    requires
        0 <= i < rows.len(),
    ensures
        ps_lines(rows).len() == rows.len() + 1,
        ps_lines(rows)[i + 1].len() - rows[i].image.len() == ps_lines(rows)[0].len()
            - headings().image.len(),
{
    let row = rows[i];
    lemma_width_covers("NAME"@, names_of(rows));
    lemma_width_covers("STATE"@, states_of(rows));
    lemma_width_covers("CREATED"@, ages_of(rows));
    assert(names_of(rows)[i] == row.name);
    assert(states_of(rows)[i] == row.state);
    assert(ages_of(rows)[i] == row.created);
    lemma_bytes_at_least_chars(row.name);
    lemma_bytes_at_least_chars(row.state);
    lemma_bytes_at_least_chars(row.created);
    lemma_bytes_at_least_chars("NAME"@);
    lemma_bytes_at_least_chars("STATE"@);
    lemma_bytes_at_least_chars("CREATED"@);
    assert(ps_lines(rows)[i + 1] == line_among(row, rows));
    assert(ps_lines(rows)[0] == line_among(headings(), rows));
}

/// A variable that the caller has set is never set again.
pub proof fn law_set_variables_are_left_alone(home: Seq<char>, s: Surroundings)
    requires
        s.has_config_dir,
        s.has_data_dir,
        s.has_container_host || s.connection is None,
    ensures
        settings(home, s).len() == 0,
{
}

/// The candidates of a completion are those of the list that start with
/// what is typed.
pub proof fn law_completion_filters_by_prefix(
    candidates: Seq<Seq<char>>,
    typed: Seq<char>,
    x: Seq<char>,
)
    ensures
        starting_with(candidates, typed).contains(x) <==> candidates.contains(x)
            && text::starts(x, typed),
    decreases candidates.len(),
{
    if candidates.len() > 0 {
        let front = candidates.drop_last();
        law_completion_filters_by_prefix(front, typed, x);
        let sofar = starting_with(front, typed);
        let done = starting_with(candidates, typed);
        if done.contains(x) {
            let k = choose|k: int| 0 <= k < done.len() && done[k] == x;
            if k < sofar.len() {
                assert(sofar[k] == x);
                let i = choose|i: int| 0 <= i < front.len() && front[i] == x;
                assert(candidates[i] == x);
            } else {
                assert(candidates[candidates.len() - 1] == x);
            }
        }
        if candidates.contains(x) && text::starts(x, typed) {
            let i = choose|i: int| 0 <= i < candidates.len() && candidates[i] == x;
            if i < front.len() {
                assert(front[i] == x);
                let k = choose|k: int| 0 <= k < sofar.len() && sofar[k] == x;
                assert(done[k] == x);
            } else {
                assert(done[sofar.len() as int] == x);
            }
        }
    }
}

} // verus!

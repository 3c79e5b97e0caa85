//! The podman driver: what is asked of podman, and what its answers mean.
//!
//! Arguments are vectors and are handed to podman as they are, never
//! through a shell. The argument vectors are built in `args`, the answers
//! are read in `parse`.

pub mod args;
pub mod calls;
pub mod parse;
pub mod work;

use vstd::prelude::*;
use vstd::string::*;

use crate::error;
use crate::error::{failure, failure_under, Error};
use crate::text;
use crate::text::{
    alnum, chars_of, parse_unsigned, slice, space, split_on, strip_prefix, trim, why_no_number,
};

pub use crate::driver::args::{init_exec_args, CreateSpec, Init, InitStep, Mount};
pub use crate::driver::calls::Call;
pub use crate::driver::work::{Action, Creation, Entry, Removal, Turn};

verus! {

/// The box marker. Its presence is what counts; its value is
/// conventionally `true` and never read. On an image it says "this is a box
/// image", on a container "this is a box".
pub const BOX_MARKER: &'static str = "com.github.simon3z.steelbx.box";

/// The toolbox marker: on an image, "this is a toolbox base image".
pub const TOOLBOX_MARKER: &'static str = "com.github.containers.toolbox";

/// The name label: on an image, the declared default name of its boxes; on
/// a container, a mirror of the container name.
pub const BOX_NAME_LABEL: &'static str = "com.github.simon3z.steelbx.box.name";

/// The runtime env label: the names, separated by commas, of the variables
/// that a box takes from the caller at each session.
pub const BOX_ENV_LABEL: &'static str = "com.github.simon3z.steelbx.box.env";

/// Podman, of a supported version.
#[derive(Debug)]
pub struct Podman;

/// What `create` reads from an image.
#[derive(Debug)]
pub struct ImageMeta {
    /// The working directory of the image.
    pub workdir: Option<String>,
    /// The name that the image declares for its boxes.
    pub name: Option<String>,
    /// The image brings its own main command.
    pub cmd: bool,
    /// The runtime env names that the image declares.
    pub env: Vec<String>,
}

/// The facts of one container.
#[derive(Debug)]
pub struct BoxInfo {
    /// The state, such as `created` or `running`.
    pub state: Option<String>,
    /// The value of the box marker; a container without it is no box.
    pub marker: Option<String>,
    /// The runtime env names, written when the box was created.
    pub env: Vec<String>,
}

/// A box in the list: its name, its state, its image and its age, as podman
/// words it.
#[derive(Debug)]
pub struct BoxRow {
    pub name: String,
    pub state: String,
    pub image: String,
    pub created: String,
}

/// What `create` reads from an image, as text.
#[verifier::ext_equal]
pub struct MetaView {
    pub workdir: Option<Seq<char>>,
    pub name: Option<Seq<char>>,
    pub cmd: bool,
    pub env: Seq<Seq<char>>,
}

impl View for ImageMeta {
    type V = MetaView;

    open spec fn view(&self) -> MetaView {
        MetaView {
            workdir: text::opt_text(self.workdir),
            name: text::opt_text(self.name),
            cmd: self.cmd,
            env: text::texts(self.env@),
        }
    }
}

/// The facts of one container, as text.
#[verifier::ext_equal]
pub struct InfoView {
    pub state: Option<Seq<char>>,
    pub marker: Option<Seq<char>>,
    pub env: Seq<Seq<char>>,
}

impl View for BoxInfo {
    type V = InfoView;

    open spec fn view(&self) -> InfoView {
        InfoView {
            state: text::opt_text(self.state),
            marker: text::opt_text(self.marker),
            env: text::texts(self.env@),
        }
    }
}

// ---------------------------------------------------------------------
// Names and versions
// ---------------------------------------------------------------------

/// A character of a box name.
pub open spec fn is_name_char(c: char) -> bool {
    text::is_alnum(c) || c == '.' || c == '_' || c == ':' || c == '/' || c == '-'
}

/// A name that podman accepts for a container: `[a-zA-Z0-9]`, then
/// `[a-zA-Z0-9._:/-]`.
pub open spec fn valid_name(name: Seq<char>) -> bool {
    &&& name.len() > 0
    &&& text::is_alnum(name[0])
    &&& forall|i: int| 0 <= i < name.len() ==> is_name_char(#[trigger] name[i])
}

/// Whether podman accepts the name for a container.
pub fn is_valid_name(name: &str) -> (r: bool)
    ensures
        r == valid_name(name@),
{
    let cs = chars_of(name);
    if cs.len() == 0 || !alnum(cs[0]) {
        return false;
    }
    let mut i: usize = 0;
    while i < cs.len()
        invariant
            i <= cs@.len(),
            cs@ == name@,
            forall|j: int| 0 <= j < i ==> is_name_char(#[trigger] cs@[j]),
        decreases cs.len() - i,
    {
        let c: char = cs[i];
        if !(alnum(c) || c == '.' || c == '_' || c == ':' || c == '/' || c == '-') {
            return false;
        }
        i += 1;
    }
    true
}

/// Whether the major version of podman is supported.
pub fn supported(major: u64) -> (r: bool)
    ensures
        r == (major == 5 || major == 6),
{
    major == 5 || major == 6
}

/// The program: a remote podman is driven by a client of its own.
pub open spec fn program(remote: bool) -> Seq<char> {
    if remote {
        "podman-remote"@
    } else {
        "podman"@
    }
}

/// The version in what podman answers when asked for it.
pub open spec fn version_in(answer: Seq<char>) -> Option<Seq<char>> {
    match text::after_prefix(text::trimmed(answer), "podman-remote version"@) {
        Some(v) => Some(text::trimmed(v)),
        None => match text::after_prefix(text::trimmed(answer), "podman version"@) {
            Some(v) => Some(text::trimmed(v)),
            None => None,
        },
    }
}

/// The major number of a version.
pub open spec fn major_of(version: Seq<char>) -> Option<nat> {
    text::unsigned(text::split(version, '.')[0], u64::MAX as nat)
}

/// The complaint about the podman that answered, if there is one.
pub open spec fn version_fault(
    bin: Seq<char>,
    answer: Result<Seq<char>, Seq<char>>,
) -> Option<error::Fault> {
    match answer {
        Err(why) => Some(
            error::under("'"@ + bin + "' not found on PATH"@, error::said(why)),
        ),
        Ok(a) => match version_in(a) {
            None => Some(
                error::said(
                    "unexpected '"@ + bin + " --version' output: "@ + text::trimmed(a),
                ),
            ),
            Some(v) => match major_of(v) {
                None => Some(
                    error::under(
                        "parsing podman major version"@,
                        error::said(
                            text::number_fault(text::split(v, '.')[0], u64::MAX as nat),
                        ),
                    ),
                ),
                Some(major) => if major == 5 || major == 6 {
                    None
                } else {
                    Some(error::said("podman "@ + v + " is outside the supported range (5.x–6.x)"@))
                },
            },
        },
    }
}

impl Podman {
    /// The program to run.
    pub fn binary(remote: bool) -> (r: &'static str)
        ensures
            r@ == program(remote),
    {
        if remote {
            "podman-remote"
        } else {
            "podman"
        }
    }

    /// Podman, if what it answered to `--version` names a supported
    /// version; `answer` is that, or why it could not be started.
    pub fn detect(bin: &str, answer: Result<&str, &str>) -> (r: Result<Podman, Error>)
        ensures
            error::fault(r) == version_fault(
                bin@,
                match answer {
                    Ok(a) => Ok(a@),
                    Err(why) => Err(why@),
                },
            ),
    {
        let answer = match answer {
            Ok(a) => trim(a),
            Err(why) => {
                return Err(
                    failure_under(
                        "'".to_owned().concat(bin).concat("' not found on PATH"),
                        failure(why.to_owned()),
                    ),
                );
            },
        };
        let version = match strip_prefix(answer.as_str(), "podman-remote version") {
            Some(v) => trim(v.as_str()),
            None => match strip_prefix(answer.as_str(), "podman version") {
                Some(v) => trim(v.as_str()),
                None => {
                    return Err(
                        failure(
                            "unexpected '".to_owned().concat(bin).concat(
                                " --version' output: ",
                            ).concat(answer.as_str()),
                        ),
                    );
                },
            },
        };
        let parts = split_on(version.as_str(), '.');
        proof {
            text::lemma_split_some(version@, '.');
            assert(text::texts(parts@)[0] == parts@[0]@);
        }
        match parse_unsigned(parts[0].as_str(), u64::MAX) {
            None => Err(
                failure_under(
                    "parsing podman major version".to_owned(),
                    failure(why_no_number(parts[0].as_str(), u64::MAX)),
                ),
            ),
            Some(major) => {
                if !supported(major) {
                    return Err(
                        failure(
                            "podman ".to_owned().concat(version.as_str()).concat(
                                " is outside the supported range (5.x–6.x)",
                            ),
                        ),
                    );
                }
                Ok(Podman)
            },
        }
    }
}

// ---------------------------------------------------------------------
// Root
// ---------------------------------------------------------------------

/// What follows the prefix in the first of the lines that starts with it.
pub open spec fn first_after(lines: Seq<Seq<char>>, part: Seq<char>) -> Option<Seq<char>>
    decreases lines.len(),
{
    if lines.len() == 0 {
        None
    } else {
        match text::after_prefix(lines[0], part) {
            Some(rest) => Some(rest),
            None => first_after(lines.skip(1), part),
        }
    }
}

/// The first word of a text: what stands up to the next white space, from
/// where the text has something else.
pub open spec fn first_word(s: Seq<char>) -> Seq<char> {
    let front = text::trim_front(s);
    front.take(text::run(front, text::solid_chars()) as int)
}

/// The user id in the status of a process; the greatest number if there is
/// none.
pub open spec fn uid_in(status: Option<Seq<char>>) -> nat {
    match status {
        None => u32::MAX as nat,
        Some(s) => match first_after(text::split(s, '\n'), "Uid:"@) {
            None => u32::MAX as nat,
            Some(rest) => match text::unsigned(first_word(rest), u32::MAX as nat) {
                Some(uid) => uid,
                None => u32::MAX as nat,
            },
        },
    }
}

/// The user id in the status of the process (`/proc/self/status`), if that
/// could be read.
pub fn current_uid(status: Option<&str>) -> (r: u32)
    ensures
        r == uid_in(text::opt_str(status)),
{
    let body = match status {
        Some(s) => s,
        None => return u32::MAX,
    };
    let lines = split_on(body, '\n');
    let ghost all = text::texts(lines@);
    let mut i: usize = 0;
    proof {
        assert(all.skip(0) == all);
    }
    while i < lines.len()
        invariant
            i <= lines@.len(),
            all == text::texts(lines@),
            all == text::split(body@, '\n'),
            text::opt_str(status) == Some(body@),
            first_after(all, "Uid:"@) == first_after(all.skip(i as int), "Uid:"@),
        decreases lines.len() - i,
    {
        proof {
            assert(all.skip(i as int)[0] == lines@[i as int]@);
            assert(all.skip(i as int).skip(1) == all.skip(i + 1));
        }
        if let Some(rest) = strip_prefix(lines[i].as_str(), "Uid:") {
            let word = word_at_front(rest.as_str());
            match parse_unsigned(word.as_str(), u32::MAX as u64) {
                Some(uid) => return uid as u32,
                None => return u32::MAX,
            }
        }
        i += 1;
    }
    u32::MAX
}

/// The first word of the text.
fn word_at_front(s: &str) -> (r: String)
    ensures
        r@ == first_word(s@),
{
    let cs = chars_of(s);
    let mut from: usize = 0;
    while from < cs.len() && space(cs[from])
        invariant
            from <= cs@.len(),
            forall|j: int| 0 <= j < from ==> text::is_space(#[trigger] cs@[j]),
        decreases cs.len() - from,
    {
        from += 1;
    }
    let ghost front = cs@.skip(from as int);
    let mut to: usize = from;
    while to < cs.len() && !space(cs[to])
        invariant
            from <= to <= cs@.len(),
            front == cs@.skip(from as int),
            forall|j: int| 0 <= j < to - from ==> !text::is_space(#[trigger] front[j]),
        decreases cs.len() - to,
    {
        proof {
            assert(front[to - from] == cs@[to as int]);
        }
        to += 1;
    }
    proof {
        text::lemma_run_is(cs@, text::space_chars(), from as nat);
        if to < cs@.len() {
            assert(front[to - from] == cs@[to as int]);
        }
        text::lemma_run_is(front, text::solid_chars(), (to - from) as nat);
        assert(front.take(to - from) == cs@.subrange(from as int, to as int));
    }
    slice(&cs, from, to)
}

/// The warning about boxes that run as root.
pub open spec fn rootful_warning(uid: u32) -> Option<Seq<char>> {
    if uid == 0 {
        Some(
            "warning: running as root — boxes run rootful; a box escape is a root escape. Use rootless podman where possible."@,
        )
    } else {
        None
    }
}

/// The warning that is due if the user is root: an escape from a box is
/// then an escape to root.
pub fn warn_rootful(uid: u32) -> (r: Option<String>)
    ensures
        text::opt_text(r) == rootful_warning(uid),
{
    if uid == 0 {
        Some(
            "warning: running as root — boxes run rootful; a box escape is a root escape. Use rootless podman where possible.".to_owned(),
        )
    } else {
        None
    }
}

} // verus!

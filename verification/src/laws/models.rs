//! What the models of values say: everything that the values hold.

use vstd::prelude::*;

use crate::config;
use crate::driver;
use crate::driver::args;
use crate::driver::calls;
use crate::driver::work;
use crate::error;
use crate::error::Error;
use crate::json;
use crate::text;

verus! {

/// The model of a list of texts holds each of them, in order.
pub open spec fn models_list(v: Seq<String>, list: Seq<Seq<char>>) -> bool {
    &&& list.len() == v.len()
    &&& forall|i: int| 0 <= i < v.len() ==> #[trigger] list[i] == v[i]@
}

/// The model of a text that may be missing is there where the text is.
pub open spec fn models_slot(o: Option<String>, slot: Option<Seq<char>>) -> bool {
    match o {
        Some(s) => slot == Some(s@),
        None => slot is None,
    }
}

/// Lists and missing texts are what their models say.
pub proof fn law_models_of_texts(v: Seq<String>, o: Option<String>, s: Option<&str>)
    ensures
        models_list(v, text::texts(v)),
        models_slot(o, text::opt_text(o)),
        match s {
            Some(t) => text::opt_str(s) == Some(t@),
            None => text::opt_str(s) is None,
        },
{
}

/// A failure is its message, and behind it the messages of what caused it,
/// the nearest first.
pub proof fn law_models_of_failures(
    message: Seq<char>,
    cause: error::Fault,
    e: Error,
    r: Result<(), Error>,
)
    ensures
        e@.message == e.message@,
        models_list(e.causes@, e@.causes),
        error::said(message).message == message,
        error::said(message).causes.len() == 0,
        error::under(message, cause).message == message,
        error::under(message, cause).causes.len() == cause.causes.len() + 1,
        error::under(message, cause).causes[0] == cause.message,
        error::under(message, cause).causes.skip(1) == cause.causes,
        match r {
            Ok(_) => error::fault(r) is None,
            Err(f) => error::fault(r) == Some(f@),
        },
{
}

/// What came of a call.
pub proof fn law_models_of_calls(
    why: String,
    code: Option<i32>,
    status: String,
    stdout: Vec<u8>,
    stderr: String,
)
    ensures
        (calls::Call::NotStarted { why })@ == (calls::CallView::NotStarted { why: why@ }),
        (calls::Call::Ended { code, status, stdout, stderr })@ == (calls::CallView::Ended {
            code,
            status: status@,
            stdout: stdout@,
            stderr: stderr@,
        }),
{
}

/// A call to make, and what follows one.
pub proof fn law_models_of_turns(
    argv: Vec<String>,
    removal: work::Turn<work::Removal>,
    entry: work::Turn<work::Entry>,
    creation: work::Turn<work::Creation>,
)
    ensures
        (work::Action::Run(argv))@ matches work::ActionView::Run(words) && models_list(argv@, words),
        (work::Action::Session(argv))@ matches work::ActionView::Session(words) && models_list(
            argv@,
            words,
        ),
        match removal {
            work::Turn::Go(s) => work::removal_turn(removal) == work::TurnView::Go(s@),
            work::Turn::Warn(s, w) => work::removal_turn(removal) == work::TurnView::Warn(s@, w@),
            work::Turn::Done(r) => work::removal_turn(removal) == work::TurnView::<
                work::RemovalView,
            >::Done(error::fault(r)),
        },
        match entry {
            work::Turn::Go(s) => work::entry_turn(entry) == work::TurnView::Go(s@),
            work::Turn::Warn(s, w) => work::entry_turn(entry) == work::TurnView::Warn(s@, w@),
            work::Turn::Done(r) => work::entry_turn(entry) == work::TurnView::<
                work::EntryView,
            >::Done(error::fault(r)),
        },
        match creation {
            work::Turn::Go(s) => work::creation_turn(creation) == work::TurnView::Go(s@),
            work::Turn::Warn(s, w) => work::creation_turn(creation) == work::TurnView::Warn(s@, w@),
            work::Turn::Done(r) => work::creation_turn(creation) == work::TurnView::<
                work::CreationView,
            >::Done(error::fault(r)),
        },
{
}

/// The facts of an image, of a container and of a row.
pub proof fn law_models_of_facts(
    meta: driver::ImageMeta,
    info: driver::BoxInfo,
    row: driver::BoxRow,
)
    ensures
        models_slot(meta.workdir, meta@.workdir),
        models_slot(meta.name, meta@.name),
        meta@.cmd == meta.cmd,
        models_list(meta.env@, meta@.env),
        models_slot(info.state, info@.state),
        models_slot(info.marker, info@.marker),
        models_list(info.env@, info@.env),
        calls::opt_info(Some(info)) == Some(info@),
        calls::opt_info(None) is None,
        row@.name == row.name@,
        row@.state == row.state@,
        row@.image == row.image@,
        row@.created == row.created@,
{
}

/// An init step, and a list of them.
pub proof fn law_models_of_steps(
    words: Vec<String>,
    host: String,
    dest: String,
    steps: args::Init,
    i: int,
)
    ensures
        (args::InitStep::Exec(words))@ matches args::StepView::Exec(w) && models_list(words@, w),
        (args::InitStep::Cp { host, dest })@ == args::StepView::Cp(host@, dest@),
        args::opt_steps(None) is None,
        args::opt_steps(Some(steps)) matches Some(all) && all.len() == steps@.len() && (0 <= i
            < steps@.len() ==> all[i] == steps@[i]@),
{
}

/// A policy.
pub proof fn law_models_of_policies(c: config::SteelbxConfig)
    ensures
        models_slot(c.image, c@.image),
        models_slot(c.network, c@.network),
        models_list(c.extra_hosts@, c@.extra_hosts),
        models_list(c.env_files@, c@.env_files),
        models_list(c.runtime_env@, c@.runtime_env),
        models_list(c.security_opts@, c@.security_opts),
        models_list(c.mounts@, c@.mounts),
        models_slot(c.cgroupns, c@.cgroupns),
        models_slot(c.ipc, c@.ipc),
        models_slot(c.pid, c@.pid),
        models_slot(c.userns, c@.userns),
        models_slot(c.user, c@.user),
        c@.privileged == c.privileged,
        c@.no_hosts == c.no_hosts,
        models_list(c.ulimits@, c@.ulimits),
        models_list(c.entry@, c@.entry),
        models_slot(c.workdir, c@.workdir),
        c@.init == args::opt_steps(c.init),
{
}

/// A box that is to be created.
pub proof fn law_models_of_boxes(s: args::CreateSpec, i: int)
    ensures
        s@.image == s.image@,
        models_slot(s.workdir, s@.workdir),
        s@.mounts.len() == s.mounts@.len(),
        0 <= i < s.mounts@.len() ==> s@.mounts[i] == (s.mounts@[i].host@, s.mounts@[i].dest@),
        models_slot(s.network, s@.network),
        models_list(s.extra_hosts@, s@.extra_hosts),
        models_list(s.runtime_env@, s@.runtime_env),
        models_list(s.security_opts@, s@.security_opts),
        s@.init == args::opt_steps(s.init),
        models_list(s.mount_specs@, s@.mount_specs),
        models_list(s.command@, s@.command),
        models_slot(s.cgroupns, s@.cgroupns),
        models_slot(s.ipc, s@.ipc),
        models_slot(s.pid, s@.pid),
        models_slot(s.userns, s@.userns),
        models_slot(s.user, s@.user),
        s@.privileged == s.privileged,
        s@.no_hosts == s.no_hosts,
        models_list(s.ulimits@, s@.ulimits),
{
}

/// What is asked of a value of JSON.
pub proof fn law_models_of_json(items: Seq<json::JsonView>, s: Seq<char>, v: json::JsonView, i: nat)
    ensures
        json::element(json::JsonView::List(items), i) == if i < items.len() {
            Some(items[i as int])
        } else {
            None
        },
        json::elements(json::JsonView::List(items)) == items,
        json::text_of(json::JsonView::Text(s)) == Some(s),
        !(v is List) ==> json::element(v, i) is None && json::elements(v).len() == 0,
        !(v is Text) ==> json::text_of(v) is None,
        json::opt_text_of(Some(v)) == json::text_of(v),
        json::opt_text_of(None) is None,
{
}

} // verus!

//! The shape of an expanded policy, and the way from a policy as it is
//! declared to one that is ready for use.

use vstd::prelude::*;
use vstd::string::*;

use crate::config;
use crate::config::layers;
use crate::config::layers::{expand_with, EnvFile};
use crate::config::SteelbxConfig;
use crate::driver::args;
use crate::driver::args::{Init, InitStep};
use crate::error;
use crate::error::{failure, failure_under, quote, Error};
use crate::results;
use crate::text;
use crate::text::{decimal_of, has_char, starts_with, trim};
use crate::validate;
use crate::validate::{
    is_valid_env_name, validate_env, validate_extra_hosts, validate_mount_specs,
    validate_ns_value, validate_security_opts,
};
use crate::vars::Vars;

verus! {

// ---------------------------------------------------------------------
// The complaints
// ---------------------------------------------------------------------

/// The first of two complaints.
pub open spec fn first_of(a: Option<error::Fault>, b: Option<error::Fault>) -> Option<error::Fault> {
    if a is Some {
        a
    } else {
        b
    }
}

/// The complaint about an optional namespace or identity value.
pub open spec fn slot_fault(field: Seq<char>, slot: Option<Seq<char>>) -> Option<error::Fault> {
    match slot {
        Some(v) => validate::ns_value_fault(field, v),
        None => None,
    }
}

/// The complaint about the limits.
pub open spec fn ulimits_fault(ulimits: Seq<Seq<char>>) -> Option<error::Fault> {
    results::first_fault(ulimits, |u: Seq<char>| validate::ns_value_fault("ulimits"@, u))
}

/// The complaint about the namespaces, the identity and the limits.
pub open spec fn ns_fault(c: config::ConfigView) -> Option<error::Fault> {
    first_of(
        slot_fault("cgroupns"@, c.cgroupns),
        first_of(
            slot_fault("ipc"@, c.ipc),
            first_of(
                slot_fault("pid"@, c.pid),
                first_of(
                    slot_fault("userns"@, c.userns),
                    first_of(slot_fault("user"@, c.user), ulimits_fault(c.ulimits)),
                ),
            ),
        ),
    )
}

/// The complaint about a runtime env name.
pub open spec fn runtime_name_fault(i: int, name: Seq<char>) -> Option<error::Fault> {
    if validate::valid_env_name(name) {
        None
    } else {
        Some(
            error::said(
                "runtime_env: runtime_env["@ + text::decimal(i as nat) + "] "@ + error::quoted(
                    name,
                ) + " is not a valid variable name ([A-Za-z0-9_] only)"@,
            ),
        )
    }
}

/// The complaint about the runtime env names.
pub open spec fn runtime_env_fault(names: Seq<Seq<char>>) -> Option<error::Fault> {
    results::first_fault_from(names, 0, |i: int, n: Seq<char>| runtime_name_fault(i, n))
}

/// The complaint about the working directory: it must be an absolute path.
pub open spec fn workdir_fault(workdir: Option<Seq<char>>) -> Option<error::Fault> {
    match workdir {
        Some(w) => if text::starts(w, "/"@) {
            None
        } else {
            Some(error::said("workdir: must be a non-empty absolute container path"@))
        },
        None => None,
    }
}

/// The complaint about a word of the main command: it must not be empty.
pub open spec fn entry_word_fault(i: int, word: Seq<char>) -> Option<error::Fault> {
    if word.len() > 0 {
        None
    } else {
        Some(error::said("entry: entry["@ + text::decimal(i as nat) + "] must not be empty"@))
    }
}

/// The complaint about the main command.
pub open spec fn entry_fault(entry: Seq<Seq<char>>) -> Option<error::Fault> {
    results::first_fault_from(entry, 0, |i: int, w: Seq<char>| entry_word_fault(i, w))
}

/// The element at a position, if there is one.
pub open spec fn text_at(v: Seq<Option<String>>, i: int) -> Option<Seq<char>> {
    if 0 <= i < v.len() {
        text::opt_text(v[i])
    } else {
        None
    }
}

/// The place of an init step in messages.
pub open spec fn step_place(i: int) -> Seq<char> {
    "init: init["@ + text::decimal(i as nat) + "]"@
}

/// A path inside the box that something can be copied to: absolute, and
/// without a space.
pub open spec fn is_copy_dest(dest: Seq<char>) -> bool {
    text::starts(dest, "/"@) && !dest.contains(' ')
}

/// What the path at a position resolves to, or why it does not.
pub open spec fn resolution_at(v: Seq<Result<String, Error>>, i: int) -> Result<
    Seq<char>,
    error::Fault,
> {
    if 0 <= i < v.len() {
        match v[i] {
            Ok(s) => Ok(s@),
            Err(e) => Err(e@),
        }
    } else {
        Err(error::said("nothing was looked for"@))
    }
}

/// An init step that is fit to run. A command must not be empty, though
/// its words may be. The source of a copy becomes what it resolves to.
pub open spec fn step_checked(resolved: Seq<Result<String, Error>>) -> spec_fn(
    int,
    args::StepView,
) -> Result<args::StepView, error::Fault> {
    |i: int, step: args::StepView|
        match step {
            args::StepView::Exec(argv) => if argv.len() == 0 {
                Err(error::said(step_place(i) + " is an exec step and requires a command"@))
            } else {
                Ok(step)
            },
            args::StepView::Cp(host, dest) => match resolution_at(resolved, i) {
                Err(why) => Err(
                    error::under(
                        step_place(i) + " (a cp step) source does not exist: "@ + host,
                        why,
                    ),
                ),
                Ok(source) => if is_copy_dest(dest) {
                    Ok(args::StepView::Cp(source, dest))
                } else {
                    Err(
                        error::said(
                            step_place(i)
                                + " (a cp step) destination must be a non-empty absolute container path"@,
                        ),
                    )
                },
            },
        }
}

/// The init steps that are fit to run; there must be some if they are
/// declared at all.
pub open spec fn init_checked(
    init: Option<Seq<args::StepView>>,
    resolved: Seq<Result<String, Error>>,
) -> Result<Option<Seq<args::StepView>>, error::Fault> {
    match init {
        None => Ok(None),
        Some(all) => if all.len() == 0 {
            Err(error::said("init: init must not be empty"@))
        } else {
            match results::collected(all, step_checked(resolved)) {
                Ok(done) => Ok(Some(done)),
                Err(e) => Err(e),
            }
        },
    }
}

/// An optional value without the white space around it; an empty one is
/// the same as none.
pub open spec fn trimmed_or_absent(v: Option<Seq<char>>) -> Option<Seq<char>> {
    match v {
        Some(s) => if text::trimmed(s).len() > 0 {
            Some(text::trimmed(s))
        } else {
            None
        },
        None => None,
    }
}

/// The complaint about what is checked in front of the init steps.
pub open spec fn early_fault(c: config::ConfigView) -> Option<error::Fault> {
    first_of(
        validate::extra_hosts_fault(c.extra_hosts),
        first_of(
            validate::env_names_fault(validate::keys(c.env)),
            first_of(
                runtime_env_fault(c.runtime_env),
                first_of(
                    validate::security_opts_fault(c.security_opts),
                    first_of(
                        validate::mount_specs_fault(c.mounts),
                        first_of(ns_fault(c), workdir_fault(c.workdir)),
                    ),
                ),
            ),
        ),
    )
}

/// The policy in its final shape, if it is accepted.
pub open spec fn shaped(c: config::ConfigView, resolved: Seq<Result<String, Error>>) -> Result<
    config::ConfigView,
    error::Fault,
> {
    match early_fault(c) {
        Some(m) => Err(m),
        None => match init_checked(c.init, resolved) {
            Err(e) => Err(e),
            Ok(init) => match entry_fault(c.entry) {
                Some(m) => Err(m),
                None => Ok(
                    config::ConfigView {
                        init,
                        network: trimmed_or_absent(c.network),
                        image: trimmed_or_absent(c.image),
                        ..c
                    },
                ),
            },
        },
    }
}

// ---------------------------------------------------------------------
// The checks
// ---------------------------------------------------------------------

/// An optional value, if there is one, is a single token.
fn validate_ns_slot(field: &str, slot: &Option<String>) -> (r: Result<(), Error>)
    ensures
        error::fault(r) == slot_fault(field@, text::opt_text(*slot)),
{
    match slot {
        Some(v) => validate_ns_value(field, v.as_str()),
        None => Ok(()),
    }
}

/// The namespaces, the identity and the limits: single tokens.
pub fn validate_ns_and_ulimits(cfg: &SteelbxConfig) -> (r: Result<(), Error>)
    ensures
        error::fault(r) == ns_fault(cfg@),
{
    if let Err(e) = validate_ns_slot("cgroupns", &cfg.cgroupns) {
        return Err(e);
    }
    if let Err(e) = validate_ns_slot("ipc", &cfg.ipc) {
        return Err(e);
    }
    if let Err(e) = validate_ns_slot("pid", &cfg.pid) {
        return Err(e);
    }
    if let Err(e) = validate_ns_slot("userns", &cfg.userns) {
        return Err(e);
    }
    if let Err(e) = validate_ns_slot("user", &cfg.user) {
        return Err(e);
    }
    let ghost all = text::texts(cfg.ulimits@);
    let mut i: usize = 0;
    proof {
        assert(all.skip(0) == all);
    }
    while i < cfg.ulimits.len()
        invariant
            i <= cfg.ulimits@.len(),
            all == text::texts(cfg.ulimits@),
            ns_fault(cfg@) == ulimits_fault(all.skip(i as int)),
        decreases cfg.ulimits.len() - i,
    {
        proof {
            assert(all.skip(i as int)[0] == cfg.ulimits@[i as int]@);
            assert(all.skip(i as int).skip(1) == all.skip(i + 1));
        }
        if let Err(e) = validate_ns_value("ulimits", cfg.ulimits[i].as_str()) {
            return Err(e);
        }
        i += 1;
    }
    Ok(())
}

/// The runtime env: variable names.
pub fn validate_runtime_env(names: &[String]) -> (r: Result<(), Error>)
    ensures
        error::fault(r) == runtime_env_fault(text::texts(names@)),
{
    let ghost all = text::texts(names@);
    let ghost f = |i: int, n: Seq<char>| runtime_name_fault(i, n);
    let mut i: usize = 0;
    proof {
        assert(all.skip(0) == all);
    }
    while i < names.len()
        invariant
            i <= names@.len(),
            all == text::texts(names@),
            f == (|i: int, n: Seq<char>| runtime_name_fault(i, n)),
            results::first_fault_from(all, 0, f) == results::first_fault_from(
                all.skip(i as int),
                i as int,
                f,
            ),
        decreases names.len() - i,
    {
        proof {
            assert(all.skip(i as int)[0] == names@[i as int]@);
            assert(all.skip(i as int).skip(1) == all.skip(i + 1));
        }
        let n = names[i].as_str();
        if !is_valid_env_name(n) {
            return Err(
                failure(
                    "runtime_env: runtime_env[".to_owned().concat(decimal_of(i).as_str()).concat(
                        "] ",
                    ).concat(quote(n).as_str()).concat(
                        " is not a valid variable name ([A-Za-z0-9_] only)",
                    ),
                ),
            );
        }
        i += 1;
    }
    Ok(())
}

/// The working directory: an absolute path inside the box.
pub fn validate_workdir(workdir: &Option<String>) -> (r: Result<(), Error>)
    ensures
        error::fault(r) == workdir_fault(text::opt_text(*workdir)),
{
    if let Some(w) = workdir {
        if !starts_with(w.as_str(), "/") {
            return Err(
                failure("workdir: must be a non-empty absolute container path".to_owned()),
            );
        }
    }
    Ok(())
}

/// The main command: no empty words.
pub fn validate_entry(entry: &[String]) -> (r: Result<(), Error>)
    ensures
        error::fault(r) == entry_fault(text::texts(entry@)),
{
    let ghost all = text::texts(entry@);
    let ghost f = |i: int, w: Seq<char>| entry_word_fault(i, w);
    let mut i: usize = 0;
    proof {
        assert(all.skip(0) == all);
    }
    while i < entry.len()
        invariant
            i <= entry@.len(),
            all == text::texts(entry@),
            f == (|i: int, w: Seq<char>| entry_word_fault(i, w)),
            results::first_fault_from(all, 0, f) == results::first_fault_from(
                all.skip(i as int),
                i as int,
                f,
            ),
        decreases entry.len() - i,
    {
        proof {
            assert(all.skip(i as int)[0] == entry@[i as int]@);
            assert(all.skip(i as int).skip(1) == all.skip(i + 1));
        }
        if entry[i].as_str().is_empty() {
            return Err(
                failure(
                    "entry: entry[".to_owned().concat(decimal_of(i).as_str()).concat(
                        "] must not be empty",
                    ),
                ),
            );
        }
        i += 1;
    }
    Ok(())
}

/// The value without the white space around it; an empty one is the same
/// as none.
pub fn trim_or_absent(v: &Option<String>) -> (r: Option<String>)
    ensures
        text::opt_text(r) == trimmed_or_absent(text::opt_text(*v)),
{
    match v {
        Some(s) => {
            let t = trim(s.as_str());
            if t.as_str().is_empty() {
                None
            } else {
                Some(t)
            }
        },
        None => None,
    }
}

/// The host path that a step copies from, if it copies.
pub open spec fn step_source(step: args::StepView) -> Option<Seq<char>> {
    match step {
        args::StepView::Exec(_) => None,
        args::StepView::Cp(host, _) => Some(host),
    }
}

/// The host paths that the init steps copy from, step by step: what has to
/// be resolved for `validate_config`.
pub fn cp_sources(init: &Option<Init>) -> (r: Vec<Option<String>>)
    ensures
        match args::opt_steps(*init) {
            None => r@.len() == 0,
            Some(all) => {
                &&& r@.len() == all.len()
                &&& forall|i: int|
                    0 <= i < all.len() ==> text_at(r@, i) == step_source(#[trigger] all[i])
            },
        },
{
    let mut out: Vec<Option<String>> = Vec::new();
    if let Some(v) = init {
        let ghost all = args::steps(v@);
        let mut i: usize = 0;
        while i < v.len()
            invariant
                i <= v@.len(),
                all == args::steps(v@),
                out@.len() == i,
                forall|j: int| 0 <= j < i ==> text_at(out@, j) == step_source(#[trigger] all[j]),
            decreases v.len() - i,
        {
            let source = match &v[i] {
                InitStep::Exec(_) => None,
                InitStep::Cp { host, .. } => Some(host.clone()),
            };
            let ghost before = out@;
            proof {
                assert(all[i as int] == v@[i as int]@);
            }
            out.push(source);
            proof {
                assert forall|j: int| 0 <= j <= i implies text_at(out@, j) == step_source(
                    #[trigger] all[j],
                ) by {
                    if j < i {
                        assert(text_at(out@, j) == text_at(before, j));
                    }
                }
            }
            i += 1;
        }
    }
    out
}

/// The init step, if it is fit to run.
fn validate_step(step: &InitStep, i: usize, resolved: &[Result<String, Error>]) -> (r: Result<
    InitStep,
    Error,
>)
    ensures
        match r {
            Ok(s) => step_checked(resolved@)(i as int, step@) == Ok::<args::StepView, error::Fault>(
                s@,
            ),
            Err(e) => step_checked(resolved@)(i as int, step@) == Err::<
                args::StepView,
                error::Fault,
            >(e@),
        },
{
    let place = "init: init[".to_owned().concat(decimal_of(i).as_str()).concat("]");
    match step {
        InitStep::Exec(argv) => {
            if argv.len() == 0 {
                return Err(failure(place.concat(" is an exec step and requires a command")));
            }
            Ok(step.clone())
        },
        InitStep::Cp { host, dest } => {
            let source = if i < resolved.len() {
                match &resolved[i] {
                    Ok(source) => Ok(source.clone()),
                    Err(why) => Err(why.copy()),
                }
            } else {
                Err(failure("nothing was looked for".to_owned()))
            };
            match source {
                Err(why) => Err(
                    failure_under(
                        place.concat(" (a cp step) source does not exist: ").concat(
                            host.as_str(),
                        ),
                        why,
                    ),
                ),
                Ok(source) => {
                    if !starts_with(dest.as_str(), "/") || has_char(dest.as_str(), ' ') {
                        return Err(
                            failure(
                                place.concat(
                                    " (a cp step) destination must be a non-empty absolute container path",
                                ),
                            ),
                        );
                    }
                    Ok(InitStep::Cp { host: source, dest: dest.clone() })
                },
            }
        },
    }
}

/// The init steps, if they are fit to run. `resolved` holds, for each step
/// that copies, what its source resolves to.
pub fn validate_init(init: &Option<Init>, resolved: &[Result<String, Error>]) -> (r: Result<
    Option<Init>,
    Error,
>)
    ensures
        match r {
            Ok(v) => init_checked(args::opt_steps(*init), resolved@) == Ok::<
                Option<Seq<args::StepView>>,
                error::Fault,
            >(args::opt_steps(v)),
            Err(e) => init_checked(args::opt_steps(*init), resolved@) == Err::<
                Option<Seq<args::StepView>>,
                error::Fault,
            >(e@),
        },
{
    match init {
        None => Ok(None),
        Some(v) => {
            let ghost all = args::steps(v@);
            let ghost f = step_checked(resolved@);
            if v.len() == 0 {
                return Err(failure("init: init must not be empty".to_owned()));
            }
            let mut out: Init = Vec::new();
            let mut i: usize = 0;
            proof {
                assert(all.take(0) == Seq::<args::StepView>::empty());
                assert(args::steps(out@) == Seq::<args::StepView>::empty());
            }
            while i < v.len()
                invariant
                    i <= v@.len(),
                    v@.len() > 0,
                    *init == Some(*v),
                    all == args::steps(v@),
                    f == step_checked(resolved@),
                    results::collected(all.take(i as int), f) == Ok::<
                        Seq<args::StepView>,
                        error::Fault,
                    >(args::steps(out@)),
                decreases v.len() - i,
            {
                proof {
                    results::lemma_collected_next(all, f, i as int);
                    assert(all[i as int] == v@[i as int]@);
                }
                match validate_step(&v[i], i, resolved) {
                    Err(e) => return Err(e),
                    Ok(s) => {
                        let ghost before = args::steps(out@);
                        out.push(s);
                        proof {
                            assert(args::steps(out@) == before.push(s@));
                        }
                    },
                }
                i += 1;
            }
            proof {
                assert(all.take(i as int) == all);
            }
            Ok(Some(out))
        },
    }
}

impl SteelbxConfig {
    /// The expanded policy in its final shape: every value is checked, the
    /// sources of copies are what they resolve to, and an empty network or
    /// image is the same as none. `resolved` holds, for each init step that
    /// copies, what its source (see `cp_sources`) resolves to.
    pub fn validate_config(cfg: &SteelbxConfig, resolved: &[Result<String, Error>]) -> (r: Result<
        SteelbxConfig,
        Error,
    >)
        ensures
            match r {
                Ok(c) => shaped(cfg@, resolved@) == Ok::<config::ConfigView, error::Fault>(c@),
                Err(e) => shaped(cfg@, resolved@) == Err::<config::ConfigView, error::Fault>(e@),
            },
    {
        if let Err(e) = validate_extra_hosts(&cfg.extra_hosts) {
            return Err(e);
        }
        if let Err(e) = validate_env(&cfg.env) {
            return Err(e);
        }
        if let Err(e) = validate_runtime_env(&cfg.runtime_env) {
            return Err(e);
        }
        if let Err(e) = validate_security_opts(&cfg.security_opts) {
            return Err(e);
        }
        if let Err(e) = validate_mount_specs(&cfg.mounts) {
            return Err(e);
        }
        if let Err(e) = validate_ns_and_ulimits(cfg) {
            return Err(e);
        }
        if let Err(e) = validate_workdir(&cfg.workdir) {
            return Err(e);
        }
        let init = match validate_init(&cfg.init, resolved) {
            Ok(init) => init,
            Err(e) => return Err(e),
        };
        if let Err(e) = validate_entry(&cfg.entry) {
            return Err(e);
        }
        let mut done = cfg.clone();
        done.init = init;
        done.network = trim_or_absent(&cfg.network);
        done.image = trim_or_absent(&cfg.image);
        Ok(done)
    }
}

// ---------------------------------------------------------------------
// Loading
// ---------------------------------------------------------------------

/// `resolve` may say that the path resolves to this, or why it does not.
pub open spec fn may_resolve<F: Fn(&str) -> Result<String, Error>>(
    resolve: F,
    path: Seq<char>,
    answer: Result<String, Error>,
) -> bool {
    exists|s: &str| s@ == path && #[trigger] call_ensures(resolve, (s,), answer)
}

/// `resolve` may say that the sources of the init steps resolve to these.
pub open spec fn are_resolutions<F: Fn(&str) -> Result<String, Error>>(
    resolve: F,
    init: Option<Seq<args::StepView>>,
    resolved: Seq<Result<String, Error>>,
) -> bool {
    match init {
        None => resolved.len() == 0,
        Some(steps) => {
            &&& resolved.len() == steps.len()
            &&& forall|i: int|
                0 <= i < steps.len() ==> match step_source(#[trigger] steps[i]) {
                    None => resolved[i] is Err,
                    Some(host) => may_resolve(resolve, host, resolved[i]),
                }
        },
    }
}

/// What `load_from` promises of its result: a policy that is not there is
/// the one that declares nothing; any other one is expanded and then
/// checked.
pub open spec fn is_loaded<F: Fn(&str) -> Result<String, Error>>(
    declared: Option<config::ConfigView>,
    caller: Map<Seq<char>, Seq<char>>,
    found_files: Seq<EnvFile>,
    resolve: F,
    r: Result<config::ConfigView, error::Fault>,
) -> bool {
    match declared {
        None => r == Ok::<config::ConfigView, error::Fault>(config::no_policy()),
        Some(c) => match layers::policy_expanded(c, caller, found_files) {
            Err(e) => r == Err::<config::ConfigView, error::Fault>(e),
            Ok(d) => exists|resolved: Seq<Result<String, Error>>| #[trigger]
                are_resolutions(resolve, d.init, resolved) && r == shaped(d, resolved),
        },
    }
}

/// The outcome of loading, as text.
pub open spec fn loaded_view(r: Result<SteelbxConfig, Error>) -> Result<
    config::ConfigView,
    error::Fault,
> {
    match r {
        Ok(c) => Ok(c@),
        Err(e) => Err(e@),
    }
}

/// The policy that a profile declares, as text.
pub open spec fn declared_view(o: Option<SteelbxConfig>) -> Option<config::ConfigView> {
    match o {
        Some(c) => Some(c@),
        None => None,
    }
}

impl SteelbxConfig {
    /// The policy of a profile, ready for use. `declared` is what its file
    /// declares, if there is a file; `found_files` is what was found where
    /// `env_file_path` says to look for its env files; `resolve` says what
    /// a path of the host resolves to.
    pub fn load_from<F: Fn(&str) -> Result<String, Error>>(
        declared: &Option<SteelbxConfig>,
        caller: &Vars,
        found_files: &[EnvFile],
        resolve: F,
    ) -> (r: Result<SteelbxConfig, Error>)
        requires
            forall|s: &str| #[trigger] call_requires(resolve, (s,)),
        ensures
            is_loaded(
                declared_view(*declared),
                caller@,
                found_files@,
                resolve,
                loaded_view(r),
            ),
    {
        let cfg = match declared {
            None => return Ok(SteelbxConfig::default()),
            Some(cfg) => cfg,
        };
        let cfg = match expand_with(cfg, caller, found_files) {
            Ok(cfg) => cfg,
            Err(e) => return Err(e),
        };
        let sources = cp_sources(&cfg.init);
        let mut resolved: Vec<Result<String, Error>> = Vec::new();
        let mut i: usize = 0;
        while i < sources.len()
            invariant
                i <= sources@.len(),
                resolved@.len() == i,
                forall|s: &str| #[trigger] call_requires(resolve, (s,)),
                forall|j: int|
                    0 <= j < i ==> match text::opt_text(#[trigger] sources@[j]) {
                        None => resolved@[j] is Err,
                        Some(host) => may_resolve(resolve, host, resolved@[j]),
                    },
            decreases sources.len() - i,
        {
            let ghost before = resolved@;
            let answer = match &sources[i] {
                None => Err(failure("nothing to look for".to_owned())),
                Some(s) => {
                    let path = s.as_str();
                    let answer = resolve(path);
                    proof {
                        assert(may_resolve(resolve, s@, answer));
                    }
                    answer
                },
            };
            resolved.push(answer);
            proof {
                assert forall|j: int| 0 <= j <= i implies match text::opt_text(
                    #[trigger] sources@[j],
                ) {
                    None => resolved@[j] is Err,
                    Some(host) => may_resolve(resolve, host, resolved@[j]),
                } by {
                    if j < i {
                        assert(resolved@[j] == before[j]);
                    }
                }
            }
            i += 1;
        }
        proof {
            if let Some(steps) = cfg@.init {
                assert forall|j: int| 0 <= j < steps.len() implies match step_source(
                    #[trigger] steps[j],
                ) {
                    None => resolved@[j] is Err,
                    Some(host) => may_resolve(resolve, host, resolved@[j]),
                } by {
                    assert(text_at(sources@, j) == step_source(steps[j]));
                    assert(text::opt_text(sources@[j]) == step_source(steps[j]));
                }
            }
            assert(are_resolutions(resolve, cfg@.init, resolved@));
        }
        Self::validate_config(&cfg, &resolved)
    }
}

// ---------------------------------------------------------------------
// Laws
// ---------------------------------------------------------------------

/// A step that can run: a command has words, and a copy goes to a place
/// that something can be copied to.
pub open spec fn is_fit(step: args::StepView) -> bool {
    match step {
        args::StepView::Exec(argv) => argv.len() > 0,
        args::StepView::Cp(_, dest) => is_copy_dest(dest),
    }
}

/// A value that is not empty, without white space around it.
pub open spec fn is_trimmed(v: Option<Seq<char>>) -> bool {
    v matches Some(s) ==> s.len() > 0 && text::trimmed(s) == s
}

/// A value that is a single token.
pub open spec fn is_token(v: Option<Seq<char>>) -> bool {
    v matches Some(s) ==> validate::single_token(s)
}

/// The shape of a policy that was accepted.
pub open spec fn well_shaped(c: config::ConfigView) -> bool {
    &&& forall|i: int|
        0 <= i < c.extra_hosts.len() ==> validate::is_pair(#[trigger] c.extra_hosts[i], ':')
    &&& forall|i: int|
        0 <= i < c.env.len() ==> validate::valid_env_name((#[trigger] c.env[i]).0)
    &&& forall|i: int|
        0 <= i < c.runtime_env.len() ==> validate::valid_env_name(#[trigger] c.runtime_env[i])
    &&& forall|i: int|
        0 <= i < c.security_opts.len() ==> validate::is_pair(#[trigger] c.security_opts[i], '=')
    &&& forall|i: int|
        0 <= i < c.mounts.len() ==> validate::single_token(#[trigger] c.mounts[i])
    &&& is_token(c.cgroupns)
    &&& is_token(c.ipc)
    &&& is_token(c.pid)
    &&& is_token(c.userns)
    &&& is_token(c.user)
    &&& forall|i: int|
        0 <= i < c.ulimits.len() ==> validate::single_token(#[trigger] c.ulimits[i])
    &&& c.workdir matches Some(w) ==> text::starts(w, "/"@)
    &&& c.init matches Some(steps) ==> steps.len() > 0
    &&& c.init matches Some(steps) ==> forall|i: int|
        0 <= i < steps.len() ==> is_fit(#[trigger] steps[i])
    &&& forall|i: int| 0 <= i < c.entry.len() ==> (#[trigger] c.entry[i]).len() > 0
    &&& is_trimmed(c.network)
    &&& is_trimmed(c.image)
}

proof fn lemma_trimmed_or_absent(v: Option<Seq<char>>)
    ensures
        is_trimmed(trimmed_or_absent(v)),
        trimmed_or_absent(trimmed_or_absent(v)) == trimmed_or_absent(v),
{
    if let Some(s) = v {
        text::lemma_trimmed_ends(s);
        if text::trimmed(s).len() > 0 {
            text::lemma_trimmed_is(text::trimmed(s));
        }
    }
}

/// A policy that is accepted has the shape that all its parts must have.
pub proof fn law_accepted_policy_is_well_shaped(
    c: config::ConfigView,
    resolved: Seq<Result<String, Error>>,
)
    requires
        shaped(c, resolved) is Ok,
    ensures
        well_shaped(shaped(c, resolved)->Ok_0),
{
    let d = shaped(c, resolved)->Ok_0;
    results::lemma_no_fault(c.extra_hosts, |h: Seq<char>| validate::extra_host_fault(h));
    results::lemma_no_fault(validate::keys(c.env), |k: Seq<char>| validate::env_name_fault(k));
    assert forall|i: int| 0 <= i < d.env.len() implies validate::valid_env_name(
        (#[trigger] d.env[i]).0,
    ) by {
        assert(validate::keys(c.env)[i] == d.env[i].0);
    }
    results::lemma_no_fault_from(
        c.runtime_env,
        0,
        |i: int, n: Seq<char>| runtime_name_fault(i, n),
    );
    results::lemma_no_fault(c.security_opts, |o: Seq<char>| validate::security_opt_fault(o));
    results::lemma_no_fault(c.mounts, |s: Seq<char>| validate::mount_spec_fault(s));
    results::lemma_no_fault(
        c.ulimits,
        |u: Seq<char>| validate::ns_value_fault("ulimits"@, u),
    );
    results::lemma_no_fault_from(c.entry, 0, |i: int, w: Seq<char>| entry_word_fault(i, w));
    if let Some(steps) = c.init {
        results::lemma_collected_items(steps, step_checked(resolved));
        let done = d.init->Some_0;
        assert forall|i: int| 0 <= i < done.len() implies is_fit(#[trigger] done[i]) by {
            assert(step_checked(resolved)(i, steps[i]) == Ok::<args::StepView, error::Fault>(
                done[i],
            ));
        }
    }
    lemma_trimmed_or_absent(c.network);
    lemma_trimmed_or_absent(c.image);
}

/// A policy that was accepted is accepted again, and stays as it is.
pub proof fn law_acceptance_is_stable(c: config::ConfigView, resolved: Seq<Result<String, Error>>)
    requires
        shaped(c, resolved) is Ok,
    ensures
        shaped(shaped(c, resolved)->Ok_0, resolved) == shaped(c, resolved),
{
    let d = shaped(c, resolved)->Ok_0;
    lemma_trimmed_or_absent(c.network);
    lemma_trimmed_or_absent(c.image);
    if let Some(steps) = c.init {
        let f = step_checked(resolved);
        results::lemma_collected_items(steps, f);
        let done = d.init->Some_0;
        assert forall|i: int| 0 <= i < done.len() implies f(i, #[trigger] done[i]) == Ok::<
            args::StepView,
            error::Fault,
        >(done[i]) by {
            assert(f(i, steps[i]) == Ok::<args::StepView, error::Fault>(done[i]));
        }
        results::lemma_collected_ok(done, f);
        results::lemma_collected_items(done, f);
        let again = results::collected(done, f)->Ok_0;
        assert forall|i: int| 0 <= i < done.len() implies #[trigger] again[i] == done[i] by {
            assert(f(i, done[i]) == Ok::<args::StepView, error::Fault>(again[i]));
        }
        assert(again == done);
    }
    assert(early_fault(d) == early_fault(c));
}

/// A policy that is ready for use has the shape that all its parts must
/// have, whatever was declared and whatever was found.
pub proof fn law_loaded_policy_is_well_shaped<F: Fn(&str) -> Result<String, Error>>(
    declared: Option<config::ConfigView>,
    caller: Map<Seq<char>, Seq<char>>,
    found_files: Seq<EnvFile>,
    resolve: F,
    d: config::ConfigView,
)
    requires
        is_loaded(declared, caller, found_files, resolve, Ok(d)),
    ensures
        well_shaped(d),
{
    if let Some(c) = declared {
        if let Ok(expanded) = layers::policy_expanded(c, caller, found_files) {
            let resolved = choose|resolved: Seq<Result<String, Error>>| #[trigger]
                are_resolutions(resolve, expanded.init, resolved) && Ok::<
                    config::ConfigView,
                    error::Fault,
                >(d) == shaped(expanded, resolved);
            law_accepted_policy_is_well_shaped(expanded, resolved);
        }
    }
}

} // verus!

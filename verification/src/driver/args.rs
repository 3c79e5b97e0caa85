//! Podman argument vectors. The baseline flag set lives here, and only
//! here.

use indexmap::IndexMap;
use vstd::prelude::*;
use vstd::string::*;

use crate::config;
use crate::config::SteelbxConfig;
use crate::driver;
use crate::driver::{Podman, BOX_ENV_LABEL, BOX_MARKER, BOX_NAME_LABEL};
use crate::error;
use crate::error::{failure, quote, Error};
use crate::lists::{owned, push_all};
use crate::table;
use crate::table::{new_table, table_at, table_clone, table_len};
use crate::text;
use crate::text::{join, same};

verus! {

// ---------------------------------------------------------------------
// Init steps
// ---------------------------------------------------------------------

/// A bind mount: a host path, and where it appears in the box.
#[derive(Debug)]
pub struct Mount {
    /// The canonical host path.
    pub host: String,
    /// The path inside the box.
    pub dest: String,
}

/// A bind mount, as text: the host path and the path inside the box.
pub type MountView = (Seq<char>, Seq<char>);

impl View for Mount {
    type V = MountView;

    open spec fn view(&self) -> MountView {
        (self.host@, self.dest@)
    }
}

/// One step of the initialization of a box.
#[derive(Debug, PartialEq)]
pub enum InitStep {
    /// A command to run in the box.
    Exec(Vec<String>),
    /// A host path to copy to a path inside the box.
    Cp { host: String, dest: String },
}

/// The steps of the initialization, in order.
pub type Init = Vec<InitStep>;

/// An init step, as text.
#[verifier::ext_equal]
pub enum StepView {
    Exec(Seq<Seq<char>>),
    Cp(Seq<char>, Seq<char>),
}

impl View for InitStep {
    type V = StepView;

    open spec fn view(&self) -> StepView {
        match self {
            InitStep::Exec(argv) => StepView::Exec(text::texts(argv@)),
            InitStep::Cp { host, dest } => StepView::Cp(host@, dest@),
        }
    }
}

/// The steps, as text.
pub open spec fn steps(init: Seq<InitStep>) -> Seq<StepView> {
    init.map_values(|s: InitStep| s@)
}

/// The steps of an optional initialization, as text.
pub open spec fn opt_steps(init: Option<Init>) -> Option<Seq<StepView>> {
    match init {
        Some(v) => Some(steps(v@)),
        None => None,
    }
}

impl Clone for InitStep {
    fn clone(&self) -> (r: InitStep)
        ensures
            r@ == self@,
    {
        match self {
            InitStep::Exec(argv) => InitStep::Exec(argv.clone()),
            InitStep::Cp { host, dest } => InitStep::Cp { host: host.clone(), dest: dest.clone() },
        }
    }
}

/// The same steps, once more.
pub fn copy_init(init: &Option<Init>) -> (r: Option<Init>)
    ensures
        opt_steps(r) == opt_steps(*init),
{
    match init {
        None => None,
        Some(v) => {
            let mut out: Init = Vec::new();
            let mut i: usize = 0;
            while i < v.len()
                invariant
                    i <= v@.len(),
                    steps(out@) == steps(v@).take(i as int),
                decreases v.len() - i,
            {
                out.push(v[i].clone());
                proof {
                    assert(steps(v@).take(i + 1) == steps(v@).take(i as int).push(v@[i as int]@));
                }
                i += 1;
            }
            assert(steps(v@).take(v@.len() as int) == steps(v@));
            Some(out)
        },
    }
}

/// The message about a step without words.
pub open spec fn no_verb() -> error::Fault {
    error::said("an init step: an init step is [\"exec\", ...] or [\"cp\", source, dest]"@)
}

/// The message about a copy without a source or a destination.
pub open spec fn short_cp() -> error::Fault {
    error::said("an init step: a cp step is [\"cp\", source, dest]"@)
}

/// The message about a copy with words left over.
pub open spec fn long_cp() -> error::Fault {
    error::said("an init step: a cp step is exactly [\"cp\", source, dest]"@)
}

/// The message about a step that is neither a command nor a copy.
pub open spec fn unknown_verb(verb: Seq<char>) -> error::Fault {
    error::said(
        "an init step: an init step verb must be \"exec\" or \"cp\" (got "@ + error::quoted(
            verb,
        ) + ")"@,
    )
}

/// The step that a list of words denotes: `exec` with the words of a
/// command, or `cp` with a source and a destination.
pub open spec fn step(words: Seq<Seq<char>>) -> Result<StepView, error::Fault> {
    if words.len() == 0 {
        Err(no_verb())
    } else if words[0] == "exec"@ {
        Ok(StepView::Exec(words.skip(1)))
    } else if words[0] == "cp"@ {
        if words.len() < 3 {
            Err(short_cp())
        } else if words.len() > 3 {
            Err(long_cp())
        } else {
            Ok(StepView::Cp(words[1], words[2]))
        }
    } else {
        Err(unknown_verb(words[0]))
    }
}

impl InitStep {
    /// The step that the words denote.
    pub fn from_words(words: &[String]) -> (r: Result<InitStep, Error>)
        ensures
            match r {
                Ok(s) => step(text::texts(words@)) == Ok::<StepView, error::Fault>(s@),
                Err(e) => step(text::texts(words@)) == Err::<StepView, error::Fault>(e@),
            },
    {
        let ghost all = text::texts(words@);
        if words.len() == 0 {
            return Err(
                failure(
                    "an init step: an init step is [\"exec\", ...] or [\"cp\", source, dest]".to_owned(),
                ),
            );
        }
        proof {
            assert(all[0] == words@[0]@);
        }
        let verb = words[0].as_str();
        if same(verb, "exec") {
            let mut argv: Vec<String> = Vec::new();
            let mut i: usize = 1;
            while i < words.len()
                invariant
                    1 <= i <= words@.len(),
                    all == text::texts(words@),
                    text::texts(argv@) == all.subrange(1, i as int),
                decreases words.len() - i,
            {
                argv.push(words[i].clone());
                proof {
                    assert(all.subrange(1, i + 1) == all.subrange(1, i as int).push(
                        words@[i as int]@,
                    ));
                }
                i += 1;
            }
            proof {
                assert(all.subrange(1, all.len() as int) == all.skip(1));
            }
            Ok(InitStep::Exec(argv))
        } else if same(verb, "cp") {
            if words.len() < 3 {
                return Err(
                    failure("an init step: a cp step is [\"cp\", source, dest]".to_owned()),
                );
            }
            if words.len() > 3 {
                return Err(
                    failure("an init step: a cp step is exactly [\"cp\", source, dest]".to_owned()),
                );
            }
            proof {
                assert(all[1] == words@[1]@);
                assert(all[2] == words@[2]@);
            }
            Ok(InitStep::Cp { host: words[1].clone(), dest: words[2].clone() })
        } else {
            Err(
                failure(
                    "an init step: an init step verb must be \"exec\" or \"cp\" (got ".to_owned().concat(
                        quote(verb).as_str(),
                    ).concat(")"),
                ),
            )
        }
    }
}

// ---------------------------------------------------------------------
// What a box is created from
// ---------------------------------------------------------------------

/// Everything that `create` renders: the image, the layout and the policy.
#[derive(Debug)]
pub struct CreateSpec {
    pub image: String,
    /// The working directory of the box; absent, the image's own.
    pub workdir: Option<String>,
    /// The bind mounts.
    pub mounts: Vec<Mount>,
    /// The network; absent, podman's default.
    pub network: Option<String>,
    /// Host entries, `name:address`.
    pub extra_hosts: Vec<String>,
    /// The environment of the box, in order.
    pub env: IndexMap<String, String>,
    /// The names of the runtime env, written to the box as a label.
    pub runtime_env: Vec<String>,
    /// Security options, `key=value`.
    pub security_opts: Vec<String>,
    /// The steps to run right after the box is created.
    pub init: Option<Init>,
    /// Mount specifications for podman, besides the bind mounts.
    pub mount_specs: Vec<String>,
    /// The main command; empty, the image's own.
    pub command: Vec<String>,
    /// Namespaces and identity; absent, podman's default for each.
    pub cgroupns: Option<String>,
    pub ipc: Option<String>,
    pub pid: Option<String>,
    pub userns: Option<String>,
    /// The user of the box; absent, the image's own.
    pub user: Option<String>,
    pub privileged: bool,
    pub no_hosts: bool,
    pub ulimits: Vec<String>,
}

/// What a box is created from, as text.
#[verifier::ext_equal]
pub struct SpecView {
    pub image: Seq<char>,
    pub workdir: Option<Seq<char>>,
    pub mounts: Seq<MountView>,
    pub network: Option<Seq<char>>,
    pub extra_hosts: Seq<Seq<char>>,
    pub env: Seq<(Seq<char>, Seq<char>)>,
    pub runtime_env: Seq<Seq<char>>,
    pub security_opts: Seq<Seq<char>>,
    pub init: Option<Seq<StepView>>,
    pub mount_specs: Seq<Seq<char>>,
    pub command: Seq<Seq<char>>,
    pub cgroupns: Option<Seq<char>>,
    pub ipc: Option<Seq<char>>,
    pub pid: Option<Seq<char>>,
    pub userns: Option<Seq<char>>,
    pub user: Option<Seq<char>>,
    pub privileged: bool,
    pub no_hosts: bool,
    pub ulimits: Seq<Seq<char>>,
}

/// The bind mounts, as text.
pub open spec fn mount_views(mounts: Seq<Mount>) -> Seq<MountView> {
    mounts.map_values(|m: Mount| m@)
}

impl View for CreateSpec {
    type V = SpecView;

    open spec fn view(&self) -> SpecView {
        SpecView {
            image: self.image@,
            workdir: text::opt_text(self.workdir),
            mounts: mount_views(self.mounts@),
            network: text::opt_text(self.network),
            extra_hosts: text::texts(self.extra_hosts@),
            env: table::entries(self.env),
            runtime_env: text::texts(self.runtime_env@),
            security_opts: text::texts(self.security_opts@),
            init: opt_steps(self.init),
            mount_specs: text::texts(self.mount_specs@),
            command: text::texts(self.command@),
            cgroupns: text::opt_text(self.cgroupns),
            ipc: text::opt_text(self.ipc),
            pid: text::opt_text(self.pid),
            userns: text::opt_text(self.userns),
            user: text::opt_text(self.user),
            privileged: self.privileged,
            no_hosts: self.no_hosts,
            ulimits: text::texts(self.ulimits@),
        }
    }
}

/// Nothing declared, and no image.
pub open spec fn bare_spec() -> SpecView {
    SpecView {
        image: Seq::empty(),
        workdir: None,
        mounts: Seq::empty(),
        network: None,
        extra_hosts: Seq::empty(),
        env: Seq::empty(),
        runtime_env: Seq::empty(),
        security_opts: Seq::empty(),
        init: None,
        mount_specs: Seq::empty(),
        command: Seq::empty(),
        cgroupns: None,
        ipc: None,
        pid: None,
        userns: None,
        user: None,
        privileged: false,
        no_hosts: false,
        ulimits: Seq::empty(),
    }
}

impl Default for CreateSpec {
    fn default() -> (r: CreateSpec)
        ensures
            r@ == bare_spec(),
    {
        let r = CreateSpec {
            image: String::new(),
            workdir: None,
            mounts: Vec::new(),
            network: None,
            extra_hosts: Vec::new(),
            env: new_table(),
            runtime_env: Vec::new(),
            security_opts: Vec::new(),
            init: None,
            mount_specs: Vec::new(),
            command: Vec::new(),
            cgroupns: None,
            ipc: None,
            pid: None,
            userns: None,
            user: None,
            privileged: false,
            no_hosts: false,
            ulimits: Vec::new(),
        };
        proof {
            assert(r@ =~= bare_spec());
        }
        r
    }
}

/// What a policy says of a box, without the layout: no image, working
/// directory, bind mounts or command.
pub open spec fn policy_spec(c: config::ConfigView) -> SpecView {
    SpecView {
        network: c.network,
        extra_hosts: c.extra_hosts,
        env: c.env,
        runtime_env: c.runtime_env,
        security_opts: c.security_opts,
        mount_specs: c.mounts,
        init: c.init,
        cgroupns: c.cgroupns,
        ipc: c.ipc,
        pid: c.pid,
        userns: c.userns,
        user: c.user,
        privileged: c.privileged,
        no_hosts: c.no_hosts,
        ulimits: c.ulimits,
        ..bare_spec()
    }
}

impl CreateSpec {
    /// What the policy says of a box. The layout is the caller's to fill
    /// in.
    pub fn from(cfg: &SteelbxConfig) -> (r: CreateSpec)
        ensures
            r@ == policy_spec(cfg@),
    {
        let r = CreateSpec {
            image: String::new(),
            workdir: None,
            mounts: Vec::new(),
            command: Vec::new(),
            network: cfg.network.clone(),
            extra_hosts: cfg.extra_hosts.clone(),
            env: table_clone(&cfg.env),
            runtime_env: cfg.runtime_env.clone(),
            security_opts: cfg.security_opts.clone(),
            mount_specs: cfg.mounts.clone(),
            init: copy_init(&cfg.init),
            cgroupns: cfg.cgroupns.clone(),
            ipc: cfg.ipc.clone(),
            pid: cfg.pid.clone(),
            userns: cfg.userns.clone(),
            user: cfg.user.clone(),
            privileged: cfg.privileged,
            no_hosts: cfg.no_hosts,
            ulimits: cfg.ulimits.clone(),
        };
        proof {
            assert(r@ =~= policy_spec(cfg@));
        }
        r
    }
}

// ---------------------------------------------------------------------
// The argument vectors
// ---------------------------------------------------------------------

/// A flag in front of each value.
pub open spec fn flagged(flag: Seq<char>, values: Seq<Seq<char>>) -> Seq<Seq<char>>
    decreases values.len(),
{
    if values.len() == 0 {
        Seq::empty()
    } else {
        flagged(flag, values.drop_last()) + seq![flag, values.last()]
    }
}

/// A flag with its value, if there is one.
pub open spec fn flag_if(flag: Seq<char>, value: Option<Seq<char>>) -> Seq<Seq<char>> {
    match value {
        Some(v) => seq![flag, v],
        None => Seq::empty(),
    }
}

/// A flag without a value, if it is on.
pub open spec fn switch(flag: Seq<char>, on: bool) -> Seq<Seq<char>> {
    if on {
        seq![flag]
    } else {
        Seq::empty()
    }
}

/// The mount specification of a bind mount.
pub open spec fn bind_spec(m: MountView) -> Seq<char> {
    "type=bind,src="@ + m.0 + ",dst="@ + m.1
}

/// The mount specifications of bind mounts.
pub open spec fn bind_specs(mounts: Seq<MountView>) -> Seq<Seq<char>> {
    mounts.map_values(|m: MountView| bind_spec(m))
}

/// A variable with its value: `KEY=VALUE`.
pub open spec fn assignment(pair: (Seq<char>, Seq<char>)) -> Seq<char> {
    pair.0 + "="@ + pair.1
}

/// The variables with their values, in order.
pub open spec fn assignments(pairs: Seq<(Seq<char>, Seq<char>)>) -> Seq<Seq<char>> {
    pairs.map_values(|p: (Seq<char>, Seq<char>)| assignment(p))
}

/// What every `create` starts with: the name is also the hostname, and
/// podman's own init is the first process.
pub open spec fn base_argv(name: Seq<char>) -> Seq<Seq<char>> {
    seq!["create"@, "--name"@, name, "--hostname"@, name, "--init"@]
}

/// The bind mounts, the network, the other mounts and the host entries.
pub open spec fn mount_argv(s: SpecView) -> Seq<Seq<char>> {
    flagged("--mount"@, bind_specs(s.mounts)) + flag_if("--network"@, s.network) + flagged(
        "--mount"@,
        s.mount_specs,
    ) + flagged("--add-host"@, s.extra_hosts)
}

/// The environment, in order, and the security options.
pub open spec fn value_argv(s: SpecView) -> Seq<Seq<char>> {
    flagged("--env"@, assignments(s.env)) + flagged("--security-opt"@, s.security_opts)
}

/// The namespaces, the identity and the limits.
pub open spec fn identity_argv(s: SpecView) -> Seq<Seq<char>> {
    flag_if("--cgroupns"@, s.cgroupns) + flag_if("--ipc"@, s.ipc) + flag_if("--pid"@, s.pid)
        + flag_if("--userns"@, s.userns) + flag_if("--user"@, s.user) + flagged(
        "--ulimit"@,
        s.ulimits,
    ) + switch("--privileged"@, s.privileged) + switch("--no-hosts"@, s.no_hosts)
}

/// The value of the runtime env label.
pub open spec fn env_label(names: Seq<Seq<char>>) -> Seq<char> {
    text::joined(names, ","@)
}

/// The labels: the marker, the name, and the runtime env if there is any.
pub open spec fn label_argv(name: Seq<char>, s: SpecView) -> Seq<Seq<char>> {
    seq![
        "--label"@,
        driver::BOX_MARKER@ + "=true"@,
        "--label"@,
        driver::BOX_NAME_LABEL@ + "="@ + name,
    ] + flag_if(
        "--label"@,
        if s.runtime_env.len() > 0 {
            Some(driver::BOX_ENV_LABEL@ + "="@ + env_label(s.runtime_env))
        } else {
            None
        },
    )
}

/// The working directory, the image, and the main command.
pub open spec fn tail_argv(s: SpecView) -> Seq<Seq<char>> {
    flag_if("--workdir"@, s.workdir) + seq![s.image] + s.command
}

/// The arguments that create the box.
pub open spec fn create_argv(name: Seq<char>, s: SpecView) -> Seq<Seq<char>> {
    base_argv(name) + mount_argv(s) + value_argv(s) + identity_argv(s) + label_argv(name, s)
        + tail_argv(s)
}

/// The arguments of a session in the box: a bare `-e NAME` for each
/// runtime env name, in front of the box and the shell.
pub open spec fn enter_argv(name: Seq<char>, env: Seq<Seq<char>>) -> Seq<Seq<char>> {
    seq!["exec"@, "--interactive"@, "--tty"@] + flagged("-e"@, env) + seq![name, "/bin/bash"@]
}

/// The arguments of a one-shot command in the box.
pub open spec fn exec_argv(
    name: Seq<char>,
    env: Seq<Seq<char>>,
    command: Seq<Seq<char>>,
) -> Seq<Seq<char>> {
    seq!["exec"@] + flagged("-e"@, env) + seq![name] + command
}

/// The arguments of an init command: as root, in the root directory of the
/// box.
pub open spec fn init_exec_argv(name: Seq<char>, command: Seq<Seq<char>>) -> Seq<Seq<char>> {
    seq!["exec"@, "-u"@, "0"@, "-w"@, "/"@, name] + command
}

/// The arguments of an init copy: from the host into the box.
pub open spec fn init_cp_argv(name: Seq<char>, host: Seq<char>, dest: Seq<char>) -> Seq<
    Seq<char>,
> {
    seq!["cp"@, host, name + ":"@ + dest]
}

proof fn lemma_append(a: Seq<Seq<char>>, b: Seq<Seq<char>>, c: Seq<Seq<char>>)
    ensures
        a + b + c == a + (b + c),
{
}

/// The arguments that run an init command in the box: as root, in the root
/// directory of the box (a working directory of its own may be what the
/// command is there to make).
pub fn init_exec_args(box_name: &str, argv: &[String]) -> (r: Vec<String>)
    ensures
        text::texts(r@) == init_exec_argv(box_name@, text::texts(argv@)),
{
    let mut args = owned(&["exec", "-u", "0", "-w", "/", box_name]);
    proof {
        assert(text::texts(args@) == seq!["exec"@, "-u"@, "0"@, "-w"@, "/"@, box_name@]);
    }
    push_all(&mut args, argv);
    args
}

/// Appends the flag in front of each value.
fn push_flags(args: &mut Vec<String>, flag: &str, values: &[String])
    ensures
        text::texts(final(args)@) == text::texts(old(args)@) + flagged(
            flag@,
            text::texts(values@),
        ),
{
    let ghost before = text::texts(args@);
    let ghost all = text::texts(values@);
    let mut i: usize = 0;
    proof {
        assert(before + flagged(flag@, all.take(0)) == before);
    }
    while i < values.len()
        invariant
            i <= values@.len(),
            all == text::texts(values@),
            text::texts(args@) == before + flagged(flag@, all.take(i as int)),
        decreases values.len() - i,
    {
        let ghost now = text::texts(args@);
        Podman::flag(args, flag, values[i].as_str());
        proof {
            let more = all.take(i + 1);
            assert(more.drop_last() == all.take(i as int));
            assert(more.last() == values@[i as int]@);
            assert(before + (flagged(flag@, all.take(i as int)) + seq![flag@, more.last()]) == now
                + seq![flag@, more.last()]);
        }
        i += 1;
    }
    proof {
        assert(all.take(values@.len() as int) == all);
    }
}

/// Appends the flag and its value, if there is one.
fn push_flag_if(args: &mut Vec<String>, flag: &str, value: &Option<String>)
    ensures
        text::texts(final(args)@) == text::texts(old(args)@) + flag_if(
            flag@,
            text::opt_text(*value),
        ),
{
    match value {
        Some(v) => Podman::flag(args, flag, v.as_str()),
        None => {
            proof {
                assert(text::texts(args@) + Seq::<Seq<char>>::empty() == text::texts(args@));
            }
        },
    }
}

/// Appends the flag, if it is on.
fn push_switch(args: &mut Vec<String>, flag: &str, on: bool)
    ensures
        text::texts(final(args)@) == text::texts(old(args)@) + switch(flag@, on),
{
    let ghost before = text::texts(args@);
    if on {
        let f = flag.to_owned();
        proof {
            text::lemma_texts_push(args@, f);
        }
        args.push(f);
        proof {
            assert(before.push(flag@) == before + seq![flag@]);
        }
    } else {
        proof {
            assert(before + Seq::<Seq<char>>::empty() == before);
        }
    }
}

impl Podman {
    /// Appends a flag and its value.
    pub fn flag(args: &mut Vec<String>, flag: &str, value: &str)
        ensures
            text::texts(final(args)@) == text::texts(old(args)@) + seq![flag@, value@],
    {
        let ghost before = text::texts(args@);
        let f = flag.to_owned();
        let v = value.to_owned();
        proof {
            text::lemma_texts_push(args@, f);
            text::lemma_texts_push(args@.push(f), v);
        }
        args.push(f);
        args.push(v);
        proof {
            assert(before.push(flag@).push(value@) == before + seq![flag@, value@]);
        }
    }

    /// The arguments that create the box, on the pinned baseline: the box
    /// name is the hostname too, and podman's init is the first process.
    pub fn create_args(box_name: &str, spec: &CreateSpec) -> (r: Vec<String>)
        ensures
            text::texts(r@) == create_argv(box_name@, spec@),
    {
        let mut args = owned(&["create", "--name", box_name, "--hostname", box_name, "--init"]);
        proof {
            assert(text::texts(args@) == base_argv(box_name@));
        }
        Self::mount_flags(&mut args, spec);
        Self::value_flags(&mut args, spec);
        Self::identity_flags(&mut args, spec);
        Self::label_flags(&mut args, box_name, spec);
        Self::tail_flags(&mut args, spec);
        args
    }

    /// Appends the bind mounts, the network, the other mounts and the host
    /// entries.
    pub fn mount_flags(args: &mut Vec<String>, spec: &CreateSpec)
        ensures
            text::texts(final(args)@) == text::texts(old(args)@) + mount_argv(spec@),
    {
        let ghost before = text::texts(args@);
        let mut binds: Vec<String> = Vec::new();
        let mut i: usize = 0;
        while i < spec.mounts.len()
            invariant
                i <= spec.mounts@.len(),
                text::texts(binds@) == bind_specs(spec@.mounts).take(i as int),
            decreases spec.mounts.len() - i,
        {
            let m = &spec.mounts[i];
            let b = "type=bind,src=".to_owned().concat(m.host.as_str()).concat(",dst=").concat(
                m.dest.as_str(),
            );
            proof {
                text::lemma_texts_push(binds@, b);
                assert(bind_specs(spec@.mounts).take(i + 1) == bind_specs(spec@.mounts).take(
                    i as int,
                ).push(b@));
            }
            binds.push(b);
            i += 1;
        }
        proof {
            assert(bind_specs(spec@.mounts).take(i as int) == bind_specs(spec@.mounts));
        }
        push_flags(args, "--mount", &binds);
        let ghost done = flagged("--mount"@, bind_specs(spec@.mounts));
        push_flag_if(args, "--network", &spec.network);
        proof {
            lemma_append(before, done, flag_if("--network"@, spec@.network));
        }
        let ghost done = done + flag_if("--network"@, spec@.network);
        push_flags(args, "--mount", &spec.mount_specs);
        proof {
            lemma_append(before, done, flagged("--mount"@, spec@.mount_specs));
        }
        let ghost done = done + flagged("--mount"@, spec@.mount_specs);
        push_flags(args, "--add-host", &spec.extra_hosts);
        proof {
            lemma_append(before, done, flagged("--add-host"@, spec@.extra_hosts));
        }
    }

    /// Appends the environment, in order, and the security options.
    pub fn value_flags(args: &mut Vec<String>, spec: &CreateSpec)
        ensures
            text::texts(final(args)@) == text::texts(old(args)@) + value_argv(spec@),
    {
        let ghost before = text::texts(args@);
        let n = table_len(&spec.env);
        let mut pairs: Vec<String> = Vec::new();
        let mut i: usize = 0;
        while i < n
            invariant
                i <= n,
                n == table::entries(spec.env).len(),
                text::texts(pairs@) == assignments(spec@.env).take(i as int),
            decreases n - i,
        {
            if let Some((k, v)) = table_at(&spec.env, i) {
                let a = k.as_str().to_owned().concat("=").concat(v.as_str());
                proof {
                    text::lemma_texts_push(pairs@, a);
                    assert(assignments(spec@.env).take(i + 1) == assignments(spec@.env).take(
                        i as int,
                    ).push(a@));
                }
                pairs.push(a);
            }
            i += 1;
        }
        proof {
            assert(assignments(spec@.env).take(n as int) == assignments(spec@.env));
        }
        push_flags(args, "--env", &pairs);
        push_flags(args, "--security-opt", &spec.security_opts);
        proof {
            assert(text::texts(args@) == before + value_argv(spec@));
        }
    }

    /// Appends the namespaces, the identity and the limits.
    pub fn identity_flags(args: &mut Vec<String>, spec: &CreateSpec)
        ensures
            text::texts(final(args)@) == text::texts(old(args)@) + identity_argv(spec@),
    {
        let ghost before = text::texts(args@);
        let ghost s = spec@;
        push_flag_if(args, "--cgroupns", &spec.cgroupns);
        let ghost done = flag_if("--cgroupns"@, s.cgroupns);
        push_flag_if(args, "--ipc", &spec.ipc);
        proof {
            lemma_append(before, done, flag_if("--ipc"@, s.ipc));
        }
        let ghost done = done + flag_if("--ipc"@, s.ipc);
        push_flag_if(args, "--pid", &spec.pid);
        proof {
            lemma_append(before, done, flag_if("--pid"@, s.pid));
        }
        let ghost done = done + flag_if("--pid"@, s.pid);
        push_flag_if(args, "--userns", &spec.userns);
        proof {
            lemma_append(before, done, flag_if("--userns"@, s.userns));
        }
        let ghost done = done + flag_if("--userns"@, s.userns);
        push_flag_if(args, "--user", &spec.user);
        proof {
            lemma_append(before, done, flag_if("--user"@, s.user));
        }
        let ghost done = done + flag_if("--user"@, s.user);
        push_flags(args, "--ulimit", &spec.ulimits);
        proof {
            lemma_append(before, done, flagged("--ulimit"@, s.ulimits));
        }
        let ghost done = done + flagged("--ulimit"@, s.ulimits);
        push_switch(args, "--privileged", spec.privileged);
        proof {
            lemma_append(before, done, switch("--privileged"@, s.privileged));
        }
        let ghost done = done + switch("--privileged"@, s.privileged);
        push_switch(args, "--no-hosts", spec.no_hosts);
        proof {
            lemma_append(before, done, switch("--no-hosts"@, s.no_hosts));
        }
    }

    /// Appends the labels that make a container a box: the marker, the
    /// name, and the runtime env names as one value (a label cannot occur
    /// twice).
    pub fn label_flags(args: &mut Vec<String>, box_name: &str, spec: &CreateSpec)
        ensures
            text::texts(final(args)@) == text::texts(old(args)@) + label_argv(box_name@, spec@),
    {
        let ghost before = text::texts(args@);
        Self::flag(args, "--label", BOX_MARKER.to_owned().concat("=true").as_str());
        Self::flag(
            args,
            "--label",
            BOX_NAME_LABEL.to_owned().concat("=").concat(box_name).as_str(),
        );
        if spec.runtime_env.len() > 0 {
            Self::flag(
                args,
                "--label",
                BOX_ENV_LABEL.to_owned().concat("=").concat(
                    join(&spec.runtime_env, ",").as_str(),
                ).as_str(),
            );
        }
        proof {
            assert(text::texts(args@) == before + label_argv(box_name@, spec@));
        }
    }

    /// Appends the working directory, the image, and the main command.
    pub fn tail_flags(args: &mut Vec<String>, spec: &CreateSpec)
        ensures
            text::texts(final(args)@) == text::texts(old(args)@) + tail_argv(spec@),
    {
        let ghost before = text::texts(args@);
        push_flag_if(args, "--workdir", &spec.workdir);
        proof {
            text::lemma_texts_push(args@, spec.image);
        }
        args.push(spec.image.clone());
        push_all(args, &spec.command);
        proof {
            assert(text::texts(args@) == before + tail_argv(spec@));
        }
    }

    /// The arguments of a session in the box: interactive, a shell that is
    /// no login shell, as the user and in the directory of the box. The
    /// names of the runtime env are passed bare, so that podman takes the
    /// values from the caller's environment and none of them is an
    /// argument.
    pub fn enter_args(name: &str, env: &[String]) -> (r: Vec<String>)
        ensures
            text::texts(r@) == enter_argv(name@, text::texts(env@)),
    {
        let mut args = owned(&["exec", "--interactive", "--tty"]);
        proof {
            assert(text::texts(args@) == seq!["exec"@, "--interactive"@, "--tty"@]);
        }
        push_flags(&mut args, "-e", env);
        Self::flag(&mut args, name, "/bin/bash");
        args
    }

    /// The arguments of a one-shot command in the box, as the user and in
    /// the directory of the box. The runtime env is passed as in a session.
    pub fn exec_args(name: &str, env: &[String], cmd: &[String]) -> (r: Vec<String>)
        ensures
            text::texts(r@) == exec_argv(name@, text::texts(env@), text::texts(cmd@)),
    {
        let mut args = owned(&["exec"]);
        proof {
            assert(text::texts(args@) == seq!["exec"@]);
        }
        push_flags(&mut args, "-e", env);
        let own = name.to_owned();
        proof {
            text::lemma_texts_push(args@, own);
            assert(text::texts(args@).push(name@) == text::texts(args@) + seq![name@]);
        }
        args.push(own);
        push_all(&mut args, cmd);
        args
    }
}

/// The arguments that copy a host path into the box.
pub fn init_cp_args(box_name: &str, host: &str, dest: &str) -> (r: Vec<String>)
    ensures
        text::texts(r@) == init_cp_argv(box_name@, host@, dest@),
{
    let target = box_name.to_owned().concat(":").concat(dest);
    let args = owned(&["cp", host, target.as_str()]);
    proof {
        assert(text::texts(args@) == init_cp_argv(box_name@, host@, dest@));
    }
    args
}

// ---------------------------------------------------------------------
// Laws
// ---------------------------------------------------------------------

/// Each value stands behind its flag, in the order of the values.
pub proof fn law_flagged_values_keep_their_order(
    flag: Seq<char>,
    values: Seq<Seq<char>>,
    i: int,
)
    requires
        0 <= i < values.len(),
    ensures
        flagged(flag, values).len() == 2 * values.len(),
        flagged(flag, values)[2 * i] == flag,
        flagged(flag, values)[2 * i + 1] == values[i],
    decreases values.len(),
{
    lemma_flagged_len(flag, values);
    lemma_flagged_len(flag, values.drop_last());
    if i < values.len() - 1 {
        law_flagged_values_keep_their_order(flag, values.drop_last(), i);
    }
}

proof fn lemma_flagged_len(flag: Seq<char>, values: Seq<Seq<char>>)
    ensures
        flagged(flag, values).len() == 2 * values.len(),
    decreases values.len(),
{
    if values.len() > 0 {
        lemma_flagged_len(flag, values.drop_last());
    }
}

/// The baseline is pinned: every creation starts with the box name as the
/// name and as the hostname, and with podman's own init.
pub proof fn law_baseline_is_pinned(name: Seq<char>, s: SpecView)
    ensures
        create_argv(name, s).len() >= 6,
        create_argv(name, s).take(6) == seq![
            "create"@,
            "--name"@,
            name,
            "--hostname"@,
            name,
            "--init"@,
        ],
{
    let rest = mount_argv(s) + value_argv(s) + identity_argv(s) + label_argv(name, s)
        + tail_argv(s);
    assert(create_argv(name, s) == base_argv(name) + rest);
}

/// Where nothing but the image and the command is declared, the arguments
/// are the baseline, the two labels that make a container a box, the image
/// and the command, and no other flag.
pub proof fn law_nothing_declared_adds_nothing(
    name: Seq<char>,
    image: Seq<char>,
    command: Seq<Seq<char>>,
)
    ensures
        create_argv(name, SpecView { image, command, ..bare_spec() }) == base_argv(name) + seq![
            "--label"@,
            driver::BOX_MARKER@ + "=true"@,
            "--label"@,
            driver::BOX_NAME_LABEL@ + "="@ + name,
            image,
        ] + command,
{
    let s = SpecView { image, command, ..bare_spec() };
    assert(bind_specs(s.mounts) == Seq::<Seq<char>>::empty());
    assert(assignments(s.env) == Seq::<Seq<char>>::empty());
    assert(mount_argv(s) == Seq::<Seq<char>>::empty());
    assert(value_argv(s) == Seq::<Seq<char>>::empty());
    assert(identity_argv(s) == Seq::<Seq<char>>::empty());
    assert(create_argv(name, s) == base_argv(name) + seq![
        "--label"@,
        driver::BOX_MARKER@ + "=true"@,
        "--label"@,
        driver::BOX_NAME_LABEL@ + "="@ + name,
        image,
    ] + command);
}

/// The image and the command stand at the end, after all flags.
pub proof fn law_image_and_command_come_last(name: Seq<char>, s: SpecView)
    ensures
        ({
            let argv = create_argv(name, s);
            let n = argv.len() - s.command.len();
            &&& n > 0
            &&& argv[n - 1] == s.image
            &&& argv.skip(n) == s.command
        }),
{
    let front = base_argv(name) + mount_argv(s) + value_argv(s) + identity_argv(s) + label_argv(
        name,
        s,
    ) + flag_if("--workdir"@, s.workdir);
    let argv = create_argv(name, s);
    assert(argv == front + seq![s.image] + s.command);
    let n = argv.len() - s.command.len();
    assert(argv.skip(n) == s.command);
}

/// Every box is created with the marker and with its name as a label.
pub proof fn law_box_labels_are_always_there(name: Seq<char>, s: SpecView)
    ensures
        exists|i: int|
            0 <= i && i + 4 <= create_argv(name, s).len() && #[trigger] create_argv(
                name,
                s,
            ).subrange(i, i + 4) == seq![
                "--label"@,
                driver::BOX_MARKER@ + "=true"@,
                "--label"@,
                driver::BOX_NAME_LABEL@ + "="@ + name,
            ],
{
    let front = base_argv(name) + mount_argv(s) + value_argv(s) + identity_argv(s);
    let argv = create_argv(name, s);
    let i = front.len() as int;
    assert(argv == front + label_argv(name, s) + tail_argv(s));
    assert(argv.subrange(i, i + 4) == seq![
        "--label"@,
        driver::BOX_MARKER@ + "=true"@,
        "--label"@,
        driver::BOX_NAME_LABEL@ + "="@ + name,
    ]);
}

/// The arguments of a session name variables, but give no values: where
/// neither the box name nor a name of the runtime env holds a `=`, no
/// argument does.
pub proof fn law_session_passes_names_only(name: Seq<char>, env: Seq<Seq<char>>, i: int)
    requires
        !name.contains('='),
        forall|k: int| 0 <= k < env.len() ==> !(#[trigger] env[k]).contains('='),
        0 <= i < enter_argv(name, env).len(),
    ensures
        !enter_argv(name, env)[i].contains('='),
{
    reveal_strlit("exec");
    reveal_strlit("--interactive");
    reveal_strlit("--tty");
    reveal_strlit("-e");
    reveal_strlit("/bin/bash");
    lemma_flagged_len("-e"@, env);
    let n = 2 * env.len() as int;
    let argv = enter_argv(name, env);
    if 3 <= i < 3 + n {
        let k = (i - 3) / 2;
        law_flagged_values_keep_their_order("-e"@, env, k);
        assert(i - 3 == 2 * k || i - 3 == 2 * k + 1);
        assert(argv[i] == flagged("-e"@, env)[i - 3]);
    }
}

/// The names of the runtime env stand in front of the box, in their order,
/// each behind `-e`.
pub proof fn law_session_names_come_before_the_box(
    name: Seq<char>,
    env: Seq<Seq<char>>,
    i: int,
)
    requires
        0 <= i < env.len(),
    ensures
        enter_argv(name, env)[3 + 2 * i] == "-e"@,
        enter_argv(name, env)[4 + 2 * i] == env[i],
        enter_argv(name, env)[3 + 2 * env.len() as int] == name,
        enter_argv(name, env).len() == 5 + 2 * env.len(),
{
    lemma_flagged_len("-e"@, env);
    law_flagged_values_keep_their_order("-e"@, env, i);
}

/// The runtime env label is there only if there are names, and then it lists
/// them.
pub proof fn law_env_label_is_there_if_declared(name: Seq<char>, s: SpecView)
    ensures
        s.runtime_env.len() == 0 ==> label_argv(name, s).len() == 4,
        s.runtime_env.len() > 0 ==> label_argv(name, s).skip(4) == seq![
            "--label"@,
            driver::BOX_ENV_LABEL@ + "="@ + env_label(s.runtime_env),
        ],
{
}

} // verus!

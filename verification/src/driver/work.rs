//! Work that takes several podman calls: creating, removing and entering a
//! box.
//!
//! Each kind of work is a state that says which call comes next, and a step
//! from the state and what came of that call to the next state or to the
//! end. The calls themselves are made by the program around this crate.

use vstd::prelude::*;
use vstd::string::*;

use crate::driver;
use crate::driver::args;
use crate::driver::args::{copy_init, init_cp_args, init_exec_args, CreateSpec, Init, InitStep};
use crate::driver::calls;
use crate::driver::calls::{complains, inspect_args, run_outcome, session_outcome, Call};
use crate::driver::Podman;
use crate::error;
use crate::error::{failure, failure_under, Error};
use crate::lists::owned;
use crate::text;
use crate::text::{decimal_of, same};

verus! {

/// A podman call to make.
#[derive(Debug)]
pub enum Action {
    /// With these arguments, time-boxed, and with its output captured.
    Run(Vec<String>),
    /// With these arguments and the terminal of the user, for as long as it
    /// takes.
    Session(Vec<String>),
}

/// A podman call to make, as text.
#[verifier::ext_equal]
pub enum ActionView {
    Run(Seq<Seq<char>>),
    Session(Seq<Seq<char>>),
}

impl View for Action {
    type V = ActionView;

    open spec fn view(&self) -> ActionView {
        match self {
            Action::Run(argv) => ActionView::Run(text::texts(argv@)),
            Action::Session(argv) => ActionView::Session(text::texts(argv@)),
        }
    }
}

/// What follows a call: more work, more work after a warning to the user,
/// or the end, with an error if the work failed.
#[derive(Debug)]
pub enum Turn<S> {
    Go(S),
    Warn(S, String),
    Done(Result<(), Error>),
}

/// What follows a call, as text; the end is the message of the failure, if
/// the work failed.
pub enum TurnView<S> {
    Go(S),
    Warn(S, Seq<char>),
    Done(Option<error::Fault>),
}

// ---------------------------------------------------------------------
// Removal
// ---------------------------------------------------------------------

/// Where the removal of a box stands: which call comes next.
#[derive(Debug)]
pub enum RemovalPhase {
    /// Look at the container.
    Inspect,
    /// Kill it.
    Kill,
    /// Remove it.
    Remove,
    /// Remove it by force, after the removal failed.
    Retry,
}

/// The removal of a box.
#[derive(Debug)]
pub struct Removal {
    pub name: String,
    pub force: bool,
    pub phase: RemovalPhase,
}

/// The removal of a box, as text.
#[verifier::ext_equal]
pub struct RemovalView {
    pub name: Seq<char>,
    pub force: bool,
    pub phase: RemovalPhase,
}

impl View for Removal {
    type V = RemovalView;

    open spec fn view(&self) -> RemovalView {
        RemovalView { name: self.name@, force: self.force, phase: self.phase }
    }
}

/// The removal of a box, at its start.
pub open spec fn removal(name: Seq<char>, force: bool) -> RemovalView {
    RemovalView { name, force, phase: RemovalPhase::Inspect }
}

/// The arguments that kill a container.
pub open spec fn kill_argv(name: Seq<char>) -> Seq<Seq<char>> {
    seq!["kill"@, name]
}

/// The arguments that remove a container.
pub open spec fn rm_argv(name: Seq<char>) -> Seq<Seq<char>> {
    seq!["rm"@, name]
}

/// The arguments that remove a container by force.
pub open spec fn rm_force_argv(name: Seq<char>) -> Seq<Seq<char>> {
    seq!["rm"@, "-f"@, name]
}

/// The arguments that start a container.
pub open spec fn start_argv(name: Seq<char>) -> Seq<Seq<char>> {
    seq!["start"@, name]
}

/// The call that comes next in a removal.
pub open spec fn removal_action(v: RemovalView) -> ActionView {
    match v.phase {
        RemovalPhase::Inspect => ActionView::Run(calls::inspect_argv(v.name)),
        RemovalPhase::Kill => ActionView::Run(kill_argv(v.name)),
        RemovalPhase::Remove => ActionView::Run(rm_argv(v.name)),
        RemovalPhase::Retry => ActionView::Run(rm_force_argv(v.name)),
    }
}

/// The container runs.
pub open spec fn is_running(info: Option<driver::InfoView>) -> bool {
    info matches Some(i) && i.state == Some("running"@)
}

/// The message about a running box that is to be removed without force.
pub open spec fn still_running(name: Seq<char>) -> error::Fault {
    error::said("box '"@ + name + "' is running\nForce-remove it: steelbx rm --force "@ + name)
}

/// The warning about a removal that is tried again.
pub open spec fn retry_warning(name: Seq<char>, message: Seq<char>) -> Seq<char> {
    "warning: 'podman rm "@ + name + "' failed ("@ + message + ") — retrying with force"@
}

/// The message about a box that cannot be removed.
pub open spec fn removal_failed(name: Seq<char>, message: Seq<char>) -> error::Fault {
    error::said(
        "removal of '"@ + name + "' failed even with force: "@ + message
            + "\nManual escape: podman rm -f "@ + name,
    )
}

/// What follows a call of a removal. Without force a running box is
/// refused. With force it is killed first, whatever comes of that. A
/// removal that fails is tried once more, by force.
pub open spec fn removal_next(v: RemovalView, call: calls::CallView) -> TurnView<RemovalView> {
    match v.phase {
        RemovalPhase::Inspect => match calls::inspection(v.name, call) {
            Err(m) => TurnView::Done(Some(m)),
            Ok(info) => if v.force {
                TurnView::Go(RemovalView { phase: RemovalPhase::Kill, ..v })
            } else if is_running(info) {
                TurnView::Done(Some(still_running(v.name)))
            } else {
                TurnView::Go(RemovalView { phase: RemovalPhase::Remove, ..v })
            },
        },
        RemovalPhase::Kill => TurnView::Go(RemovalView { phase: RemovalPhase::Remove, ..v }),
        RemovalPhase::Remove => match calls::outcome(rm_argv(v.name), call) {
            Ok(_) => TurnView::Done(None),
            Err(m) => TurnView::Warn(
                RemovalView { phase: RemovalPhase::Retry, ..v },
                retry_warning(v.name, m.message),
            ),
        },
        RemovalPhase::Retry => match calls::outcome(rm_force_argv(v.name), call) {
            Ok(_) => TurnView::Done(None),
            Err(m) => TurnView::Done(Some(removal_failed(v.name, m.message))),
        },
    }
}

/// What follows a call of a removal, as text.
pub open spec fn removal_turn(t: Turn<Removal>) -> TurnView<RemovalView> {
    match t {
        Turn::Go(s) => TurnView::Go(s@),
        Turn::Warn(s, w) => TurnView::Warn(s@, w@),
        Turn::Done(r) => TurnView::Done(error::fault(r)),
    }
}

/// The arguments that start a container.
fn start_args(name: &str) -> (r: Vec<String>)
    ensures
        text::texts(r@) == start_argv(name@),
{
    let args = owned(&["start", name]);
    proof {
        assert(text::texts(args@) == start_argv(name@));
    }
    args
}

/// The arguments that remove a container.
fn rm_args(name: &str) -> (r: Vec<String>)
    ensures
        text::texts(r@) == rm_argv(name@),
{
    let args = owned(&["rm", name]);
    proof {
        assert(text::texts(args@) == rm_argv(name@));
    }
    args
}

/// The arguments that remove a container by force.
fn rm_force_args(name: &str) -> (r: Vec<String>)
    ensures
        text::texts(r@) == rm_force_argv(name@),
{
    let args = owned(&["rm", "-f", name]);
    proof {
        assert(text::texts(args@) == rm_force_argv(name@));
    }
    args
}

/// Whether the state of a container is that it runs.
fn runs(state: &Option<String>) -> (r: bool)
    ensures
        r == (text::opt_text(*state) == Some("running"@)),
{
    match state {
        Some(s) => same(s.as_str(), "running"),
        None => false,
    }
}

impl Removal {
    /// The call that comes next.
    pub fn action(&self) -> (r: Action)
        ensures
            r@ == removal_action(self@),
    {
        let name = self.name.as_str();
        match self.phase {
            RemovalPhase::Inspect => Action::Run(inspect_args(name)),
            RemovalPhase::Kill => {
                let args = owned(&["kill", name]);
                proof {
                    assert(text::texts(args@) == kill_argv(name@));
                }
                Action::Run(args)
            },
            RemovalPhase::Remove => Action::Run(rm_args(name)),
            RemovalPhase::Retry => Action::Run(rm_force_args(name)),
        }
    }

    /// What follows the call.
    pub fn next(self, call: &Call) -> (r: Turn<Removal>)
        ensures
            removal_turn(r) == removal_next(self@, call@),
    {
        let Removal { name, force, phase } = self;
        match phase {
            RemovalPhase::Inspect => match Podman.inspect(name.as_str(), call) {
                Err(e) => Turn::Done(Err(e)),
                Ok(info) => {
                    let running = match &info {
                        Some(i) => runs(&i.state),
                        None => false,
                    };
                    if force {
                        Turn::Go(Removal { name, force, phase: RemovalPhase::Kill })
                    } else if running {
                        Turn::Done(
                            Err(
                                failure(
                                    "box '".to_owned().concat(name.as_str()).concat(
                                        "' is running\nForce-remove it: steelbx rm --force ",
                                    ).concat(name.as_str()),
                                ),
                            ),
                        )
                    } else {
                        Turn::Go(Removal { name, force, phase: RemovalPhase::Remove })
                    }
                },
            },
            RemovalPhase::Kill => Turn::Go(Removal { name, force, phase: RemovalPhase::Remove }),
            RemovalPhase::Remove => {
                let args = rm_args(name.as_str());
                match run_outcome(&args, call) {
                    Ok(_) => Turn::Done(Ok(())),
                    Err(e) => {
                        let warning = "warning: 'podman rm ".to_owned().concat(
                            name.as_str(),
                        ).concat("' failed (").concat(e.message.as_str()).concat(
                            ") — retrying with force",
                        );
                        Turn::Warn(Removal { name, force, phase: RemovalPhase::Retry }, warning)
                    },
                }
            },
            RemovalPhase::Retry => {
                let args = rm_force_args(name.as_str());
                match run_outcome(&args, call) {
                    Ok(_) => Turn::Done(Ok(())),
                    Err(e) => Turn::Done(
                        Err(
                            failure(
                                "removal of '".to_owned().concat(name.as_str()).concat(
                                    "' failed even with force: ",
                                ).concat(e.message.as_str()).concat(
                                    "\nManual escape: podman rm -f ",
                                ).concat(name.as_str()),
                            ),
                        ),
                    ),
                }
            },
        }
    }
}

impl Podman {
    /// The removal of the box: a running one only by force.
    pub fn remove_container(&self, name: &str, force: bool) -> (r: Removal)
        ensures
            r@ == removal(name@, force),
    {
        Removal { name: name.to_owned(), force, phase: RemovalPhase::Inspect }
    }
}

// ---------------------------------------------------------------------
// Creation
// ---------------------------------------------------------------------

/// Where the creation of a box stands: which call comes next.
#[derive(Debug)]
pub enum CreationPhase {
    /// Create the container.
    Create,
    /// Start it, for the init steps.
    Start,
    /// Run the init step at this position.
    Step(usize),
    /// Look whether a failed creation left a container behind.
    Check { force: bool, error: Error },
    /// Remove the container that a failed creation left behind.
    RollBack { removal: Removal, error: Error },
}

/// The creation of a box.
#[derive(Debug)]
pub struct Creation {
    name: String,
    args: Vec<String>,
    init: Option<Init>,
    phase: CreationPhase,
}

/// Where the creation of a box stands, as text.
#[verifier::ext_equal]
pub enum CreationPhaseView {
    Create,
    Start,
    Step(nat),
    Check { force: bool, error: error::Fault },
    RollBack { removal: RemovalView, error: error::Fault },
}

/// The creation of a box, as text.
#[verifier::ext_equal]
pub struct CreationView {
    pub name: Seq<char>,
    pub argv: Seq<Seq<char>>,
    pub init: Option<Seq<args::StepView>>,
    pub phase: CreationPhaseView,
}

impl View for CreationPhase {
    type V = CreationPhaseView;

    open spec fn view(&self) -> CreationPhaseView {
        match self {
            CreationPhase::Create => CreationPhaseView::Create,
            CreationPhase::Start => CreationPhaseView::Start,
            CreationPhase::Step(i) => CreationPhaseView::Step(*i as nat),
            CreationPhase::Check { force, error } => CreationPhaseView::Check {
                force: *force,
                error: error@,
            },
            CreationPhase::RollBack { removal, error } => CreationPhaseView::RollBack {
                removal: removal@,
                error: error@,
            },
        }
    }
}

impl View for Creation {
    type V = CreationView;

    closed spec fn view(&self) -> CreationView {
        CreationView {
            name: self.name@,
            argv: text::texts(self.args@),
            init: args::opt_steps(self.init),
            phase: self.phase@,
        }
    }
}

/// The creation of a box, at its start.
pub open spec fn creation(name: Seq<char>, spec: args::SpecView) -> CreationView {
    CreationView {
        name,
        argv: args::create_argv(name, spec),
        init: spec.init,
        phase: CreationPhaseView::Create,
    }
}

/// The init steps of a creation.
pub open spec fn steps_of(v: CreationView) -> Seq<args::StepView> {
    match v.init {
        Some(steps) => steps,
        None => Seq::empty(),
    }
}

/// The arguments of an init step.
pub open spec fn step_argv(name: Seq<char>, step: args::StepView) -> Seq<Seq<char>> {
    match step {
        args::StepView::Exec(command) => args::init_exec_argv(name, command),
        args::StepView::Cp(host, dest) => args::init_cp_argv(name, host, dest),
    }
}

/// The init step at a position, in messages.
pub open spec fn step_label(step: args::StepView, i: nat) -> Seq<char> {
    match step {
        args::StepView::Exec(_) => "init.exec["@ + text::decimal(i) + "]"@,
        args::StepView::Cp(_, _) => "init.cp["@ + text::decimal(i) + "]"@,
    }
}

/// The step that a creation is at is one of its steps.
pub open spec fn is_sound(v: CreationView) -> bool {
    v.phase matches CreationPhaseView::Step(i) ==> i < steps_of(v).len()
}

/// The call that comes next in a creation.
pub open spec fn creation_action(v: CreationView) -> ActionView {
    match v.phase {
        CreationPhaseView::Create => ActionView::Run(v.argv),
        CreationPhaseView::Start => ActionView::Run(start_argv(v.name)),
        CreationPhaseView::Step(i) => ActionView::Session(
            step_argv(v.name, steps_of(v)[i as int]),
        ),
        CreationPhaseView::Check { force, error } => ActionView::Run(
            calls::inspect_argv(v.name),
        ),
        CreationPhaseView::RollBack { removal, error } => removal_action(removal),
    }
}

/// A creation that has failed and now looks for what it left behind.
pub open spec fn checking(v: CreationView, force: bool, error: error::Fault) -> TurnView<
    CreationView,
> {
    TurnView::Go(CreationView { phase: CreationPhaseView::Check { force, error }, ..v })
}

/// A creation that goes on with the init step at a position, or ends.
pub open spec fn at_step(v: CreationView, i: nat) -> TurnView<CreationView> {
    if i < steps_of(v).len() {
        TurnView::Go(CreationView { phase: CreationPhaseView::Step(i), ..v })
    } else {
        TurnView::Done(None)
    }
}

/// A call complains that the container name belongs to another container.
pub open spec fn says_taken(call: calls::CallView) -> bool {
    calls::complains_of(call, "container name"@) && calls::complains_of(call, "already in use"@)
}

/// The message about a box that cannot be started for its init steps.
pub open spec fn no_start(cause: error::Fault) -> error::Fault {
    error::under("starting the box for init"@, cause)
}

/// What follows a call of a creation. Init steps need a running container
/// and run in their order. A failure ends the creation: the container it
/// left behind, if there is one, is removed, by force if it was started,
/// and whatever comes of that, the failure is what is reported. Where the
/// name is taken, nothing was left behind: the container of that name is
/// another one, and stays.
pub open spec fn creation_next(v: CreationView, call: calls::CallView) -> TurnView<
    CreationView,
> {
    match v.phase {
        CreationPhaseView::Create => match calls::outcome(v.argv, call) {
            Err(m) => if says_taken(call) {
                TurnView::Done(Some(m))
            } else {
                checking(v, false, m)
            },
            Ok(_) => match v.init {
                None => TurnView::Done(None),
                Some(_) => TurnView::Go(CreationView { phase: CreationPhaseView::Start, ..v }),
            },
        },
        CreationPhaseView::Start => match calls::outcome(start_argv(v.name), call) {
            Err(m) => checking(v, true, no_start(m)),
            Ok(_) => at_step(v, 0),
        },
        CreationPhaseView::Step(i) => match calls::session_fault(
            step_label(steps_of(v)[i as int], i),
            call,
        ) {
            Some(m) => checking(v, true, m),
            None => at_step(v, i + 1),
        },
        CreationPhaseView::Check { force, error } => match calls::inspection(v.name, call) {
            Ok(Some(_)) => TurnView::Go(
                CreationView {
                    phase: CreationPhaseView::RollBack {
                        removal: removal(v.name, force),
                        error,
                    },
                    ..v
                },
            ),
            _ => TurnView::Done(Some(error)),
        },
        CreationPhaseView::RollBack { removal, error } => match removal_next(removal, call) {
            TurnView::Go(r) => TurnView::Go(
                CreationView {
                    phase: CreationPhaseView::RollBack { removal: r, error },
                    ..v
                },
            ),
            TurnView::Warn(r, w) => TurnView::Warn(
                CreationView {
                    phase: CreationPhaseView::RollBack { removal: r, error },
                    ..v
                },
                w,
            ),
            TurnView::Done(_) => TurnView::Done(Some(error)),
        },
    }
}

/// What follows a call of a creation, as text.
pub open spec fn creation_turn(t: Turn<Creation>) -> TurnView<CreationView> {
    match t {
        Turn::Go(s) => TurnView::Go(s@),
        Turn::Warn(s, w) => TurnView::Warn(s@, w@),
        Turn::Done(r) => TurnView::Done(error::fault(r)),
    }
}

/// The init step at a position, in messages.
fn label_of(step: &InitStep, i: usize) -> (r: String)
    ensures
        r@ == step_label(step@, i as nat),
{
    match step {
        InitStep::Exec(_) => "init.exec[".to_owned().concat(decimal_of(i).as_str()).concat("]"),
        InitStep::Cp { .. } => "init.cp[".to_owned().concat(decimal_of(i).as_str()).concat("]"),
    }
}

impl Creation {
    /// The step that the creation is at is one of its steps.
    #[verifier::type_invariant]
    spec fn well_formed(self) -> bool {
        is_sound(self@)
    }

    /// The call that comes next.
    pub fn action(&self) -> (r: Action)
        ensures
            r@ == creation_action(self@),
    {
        proof {
            use_type_invariant(self);
        }
        match &self.phase {
            CreationPhase::Create => Action::Run(self.args.clone()),
            CreationPhase::Start => Action::Run(start_args(self.name.as_str())),
            CreationPhase::Step(i) => match &self.init {
                None => Action::Session(Vec::new()),
                Some(steps) => {
                    proof {
                        assert(steps_of(self@)[*i as int] == steps@[*i as int]@);
                    }
                    match &steps[*i] {
                        InitStep::Exec(command) => Action::Session(
                            init_exec_args(self.name.as_str(), command),
                        ),
                        InitStep::Cp { host, dest } => Action::Session(
                            init_cp_args(self.name.as_str(), host.as_str(), dest.as_str()),
                        ),
                    }
                },
            },
            CreationPhase::Check { .. } => Action::Run(inspect_args(self.name.as_str())),
            CreationPhase::RollBack { removal, .. } => removal.action(),
        }
    }

    /// What follows the call.
    pub fn next(self, call: &Call) -> (r: Turn<Creation>)
        ensures
            creation_turn(r) == creation_next(self@, call@),
    {
        proof {
            use_type_invariant(&self);
        }
        let ghost v = self@;
        let Creation { name, args, init, phase } = self;
        match phase {
            CreationPhase::Create => match run_outcome(&args, call) {
                Err(error) => {
                    if complains(call, "container name") && complains(call, "already in use") {
                        return Turn::Done(Err(error));
                    }
                    Turn::Go(
                        Creation {
                            name,
                            args,
                            init,
                            phase: CreationPhase::Check { force: false, error },
                        },
                    )
                },
                Ok(_) => {
                    if init.is_none() {
                        Turn::Done(Ok(()))
                    } else {
                        Turn::Go(Creation { name, args, init, phase: CreationPhase::Start })
                    }
                },
            },
            CreationPhase::Start => {
                let start = start_args(name.as_str());
                match run_outcome(&start, call) {
                    Err(e) => {
                        let error = failure_under("starting the box for init".to_owned(), e);
                        Turn::Go(
                            Creation {
                                name,
                                args,
                                init,
                                phase: CreationPhase::Check { force: true, error },
                            },
                        )
                    },
                    Ok(_) => Self::go_to_step(name, args, init, 0),
                }
            },
            CreationPhase::Step(i) => {
                let (label, following): (String, usize) = match &init {
                    None => (String::new(), 0),
                    Some(steps) => {
                        proof {
                            assert(steps_of(v)[i as int] == steps@[i as int]@);
                            assert(i < steps.len());
                        }
                        (label_of(&steps[i], i), i + 1)
                    },
                };
                match session_outcome(label.as_str(), call) {
                    Err(error) => Turn::Go(
                        Creation {
                            name,
                            args,
                            init,
                            phase: CreationPhase::Check { force: true, error },
                        },
                    ),
                    Ok(_) => Self::go_to_step(name, args, init, following),
                }
            },
            CreationPhase::Check { force, error } => {
                match Podman.inspect(name.as_str(), call) {
                    Ok(Some(_)) => {
                        let removal = Podman.remove_container(name.as_str(), force);
                        Turn::Go(
                            Creation {
                                name,
                                args,
                                init,
                                phase: CreationPhase::RollBack { removal, error },
                            },
                        )
                    },
                    _ => Turn::Done(Err(error)),
                }
            },
            CreationPhase::RollBack { removal, error } => match removal.next(call) {
                Turn::Go(removal) => Turn::Go(
                    Creation {
                        name,
                        args,
                        init,
                        phase: CreationPhase::RollBack { removal, error },
                    },
                ),
                Turn::Warn(removal, warning) => Turn::Warn(
                    Creation {
                        name,
                        args,
                        init,
                        phase: CreationPhase::RollBack { removal, error },
                    },
                    warning,
                ),
                Turn::Done(_) => Turn::Done(Err(error)),
            },
        }
    }

    /// Goes on with the init step at a position, or ends.
    fn go_to_step(name: String, args: Vec<String>, init: Option<Init>, i: usize) -> (r: Turn<
        Creation,
    >)
        ensures
            creation_turn(r) == at_step(
                CreationView {
                    name: name@,
                    argv: text::texts(args@),
                    init: args::opt_steps(init),
                    phase: CreationPhaseView::Step(i as nat),
                },
                i as nat,
            ),
    {
        let n: usize = match &init {
            None => 0,
            Some(steps) => steps.len(),
        };
        if i < n {
            Turn::Go(Creation { name, args, init, phase: CreationPhase::Step(i) })
        } else {
            Turn::Done(Ok(()))
        }
    }
}

impl Podman {
    /// The creation of the box, with its init steps. The box is left
    /// created, not started, unless it has init steps; a creation that
    /// fails leaves nothing behind that it can remove.
    pub fn create(&self, box_name: &str, spec: &CreateSpec) -> (r: Creation)
        ensures
            r@ == creation(box_name@, spec@),
    {
        Creation {
            name: box_name.to_owned(),
            args: Self::create_args(box_name, spec),
            init: copy_init(&spec.init),
            phase: CreationPhase::Create,
        }
    }
}

// ---------------------------------------------------------------------
// Entering
// ---------------------------------------------------------------------

/// Where an entry into a box stands: which call comes next.
#[derive(Debug)]
pub enum EntryPhase {
    /// Look at the container.
    Inspect,
    /// Start it.
    Start,
    /// Run the session or the command in it.
    Session,
}

/// An entry into a box: a session, or a one-shot command.
#[derive(Debug)]
pub struct Entry {
    pub name: String,
    pub label: String,
    pub args: Vec<String>,
    pub phase: EntryPhase,
}

/// An entry into a box, as text.
#[verifier::ext_equal]
pub struct EntryView {
    pub name: Seq<char>,
    pub label: Seq<char>,
    pub argv: Seq<Seq<char>>,
    pub phase: EntryPhase,
}

impl View for Entry {
    type V = EntryView;

    open spec fn view(&self) -> EntryView {
        EntryView {
            name: self.name@,
            label: self.label@,
            argv: text::texts(self.args@),
            phase: self.phase,
        }
    }
}

/// A session in a box, at its start.
pub open spec fn session(name: Seq<char>, env: Seq<Seq<char>>) -> EntryView {
    EntryView {
        name,
        label: "enter"@,
        argv: args::enter_argv(name, env),
        phase: EntryPhase::Inspect,
    }
}

/// A one-shot command in a box, at its start.
pub open spec fn command(
    name: Seq<char>,
    env: Seq<Seq<char>>,
    words: Seq<Seq<char>>,
) -> EntryView {
    EntryView {
        name,
        label: "exec"@,
        argv: args::exec_argv(name, env, words),
        phase: EntryPhase::Inspect,
    }
}

/// The call that comes next in an entry.
pub open spec fn entry_action(v: EntryView) -> ActionView {
    match v.phase {
        EntryPhase::Inspect => ActionView::Run(calls::inspect_argv(v.name)),
        EntryPhase::Start => ActionView::Run(start_argv(v.name)),
        EntryPhase::Session => ActionView::Session(v.argv),
    }
}

/// The message about a box that does not exist.
pub open spec fn no_such_box(name: Seq<char>) -> error::Fault {
    error::said("box '"@ + name + "' does not exist"@)
}

/// What follows a call of an entry: the box must exist, and is started
/// unless it runs.
pub open spec fn entry_next(v: EntryView, call: calls::CallView) -> TurnView<EntryView> {
    match v.phase {
        EntryPhase::Inspect => match calls::inspection(v.name, call) {
            Err(m) => TurnView::Done(Some(m)),
            Ok(None) => TurnView::Done(Some(no_such_box(v.name))),
            Ok(info) => if is_running(info) {
                TurnView::Go(EntryView { phase: EntryPhase::Session, ..v })
            } else {
                TurnView::Go(EntryView { phase: EntryPhase::Start, ..v })
            },
        },
        EntryPhase::Start => match calls::outcome(start_argv(v.name), call) {
            Err(m) => TurnView::Done(Some(m)),
            Ok(_) => TurnView::Go(EntryView { phase: EntryPhase::Session, ..v }),
        },
        EntryPhase::Session => TurnView::Done(calls::session_fault(v.label, call)),
    }
}

/// What follows a call of an entry, as text.
pub open spec fn entry_turn(t: Turn<Entry>) -> TurnView<EntryView> {
    match t {
        Turn::Go(s) => TurnView::Go(s@),
        Turn::Warn(s, w) => TurnView::Warn(s@, w@),
        Turn::Done(r) => TurnView::Done(error::fault(r)),
    }
}

impl Entry {
    /// The call that comes next.
    pub fn action(&self) -> (r: Action)
        ensures
            r@ == entry_action(self@),
    {
        match self.phase {
            EntryPhase::Inspect => Action::Run(inspect_args(self.name.as_str())),
            EntryPhase::Start => Action::Run(start_args(self.name.as_str())),
            EntryPhase::Session => Action::Session(self.args.clone()),
        }
    }

    /// What follows the call.
    pub fn next(self, call: &Call) -> (r: Turn<Entry>)
        ensures
            entry_turn(r) == entry_next(self@, call@),
    {
        let Entry { name, label, args, phase } = self;
        match phase {
            EntryPhase::Inspect => match Podman.inspect(name.as_str(), call) {
                Err(e) => Turn::Done(Err(e)),
                Ok(None) => Turn::Done(
                    Err(
                        failure(
                            "box '".to_owned().concat(name.as_str()).concat("' does not exist"),
                        ),
                    ),
                ),
                Ok(Some(info)) => {
                    if runs(&info.state) {
                        Turn::Go(Entry { name, label, args, phase: EntryPhase::Session })
                    } else {
                        Turn::Go(Entry { name, label, args, phase: EntryPhase::Start })
                    }
                },
            },
            EntryPhase::Start => {
                let start = start_args(name.as_str());
                match run_outcome(&start, call) {
                    Err(e) => Turn::Done(Err(e)),
                    Ok(_) => Turn::Go(Entry { name, label, args, phase: EntryPhase::Session }),
                }
            },
            EntryPhase::Session => Turn::Done(session_outcome(label.as_str(), call)),
        }
    }
}

impl Podman {
    /// An interactive session in the box, which is started if it does not
    /// run. `env` are the names of the runtime env, which are passed bare.
    pub fn enter(&self, name: &str, env: &[String]) -> (r: Entry)
        ensures
            r@ == session(name@, text::texts(env@)),
    {
        Entry {
            name: name.to_owned(),
            label: "enter".to_owned(),
            args: Self::enter_args(name, env),
            phase: EntryPhase::Inspect,
        }
    }

    /// A one-shot command in the box, which is started if it does not run.
    pub fn exec(&self, name: &str, env: &[String], cmd: &[String]) -> (r: Entry)
        ensures
            r@ == command(name@, text::texts(env@), text::texts(cmd@)),
    {
        Entry {
            name: name.to_owned(),
            label: "exec".to_owned(),
            args: Self::exec_args(name, env, cmd),
            phase: EntryPhase::Inspect,
        }
    }
}

// ---------------------------------------------------------------------
// Laws of removal
// ---------------------------------------------------------------------

/// The calls that a removal makes, where these are what comes of them.
pub open spec fn removal_trace(v: RemovalView, calls: Seq<calls::CallView>) -> Seq<ActionView>
    decreases calls.len(),
{
    if calls.len() == 0 {
        Seq::empty()
    } else {
        seq![removal_action(v)] + match removal_next(v, calls[0]) {
            TurnView::Go(w) => removal_trace(w, calls.skip(1)),
            TurnView::Warn(w, _) => removal_trace(w, calls.skip(1)),
            TurnView::Done(_) => Seq::empty(),
        }
    }
}

/// The end of a removal, where this is what comes of its calls: the message
/// of its failure, or none. `None` if it has not come to an end.
pub open spec fn removal_end(v: RemovalView, calls: Seq<calls::CallView>) -> Option<
    Option<error::Fault>,
>
    decreases calls.len(),
{
    if calls.len() == 0 {
        None
    } else {
        match removal_next(v, calls[0]) {
            TurnView::Go(w) => removal_end(w, calls.skip(1)),
            TurnView::Warn(w, _) => removal_end(w, calls.skip(1)),
            TurnView::Done(r) => Some(r),
        }
    }
}

/// Without force, a running box is refused: the removal looks at it, and
/// makes no other call.
pub proof fn law_running_box_is_refused_without_force(
    name: Seq<char>,
    calls: Seq<calls::CallView>,
    info: Option<driver::InfoView>,
)
    requires
        calls.len() > 0,
        calls::inspection(name, calls[0]) == Ok::<Option<driver::InfoView>, error::Fault>(info),
        is_running(info),
    ensures
        removal_trace(removal(name, false), calls) == seq![
            ActionView::Run(calls::inspect_argv(name)),
        ],
        removal_end(removal(name, false), calls) == Some(Some(still_running(name))),
{
}

proof fn lemma_plain_removal_never_kills(v: RemovalView, calls: Seq<calls::CallView>, i: int)
    requires
        !v.force,
        !(v.phase is Kill),
        0 <= i < removal_trace(v, calls).len(),
    ensures
        removal_trace(v, calls)[i] != ActionView::Run(kill_argv(v.name)),
    decreases calls.len(),
{
    reveal_strlit("kill");
    reveal_strlit("rm");
    reveal_strlit("inspect");
    assert(kill_argv(v.name)[0].len() == 4);
    assert(calls::inspect_argv(v.name)[0].len() == 7);
    assert(rm_argv(v.name)[0].len() == 2);
    assert(rm_force_argv(v.name)[0].len() == 2);
    if i > 0 {
        match removal_next(v, calls[0]) {
            TurnView::Go(w) => {
                lemma_plain_removal_never_kills(w, calls.skip(1), i - 1);
            },
            TurnView::Warn(w, _) => {
                lemma_plain_removal_never_kills(w, calls.skip(1), i - 1);
            },
            TurnView::Done(_) => {},
        }
    }
}

/// Without force, nothing is killed, whatever comes of the calls.
pub proof fn law_nothing_is_killed_without_force(
    name: Seq<char>,
    calls: Seq<calls::CallView>,
    i: int,
)
    requires
        0 <= i < removal_trace(removal(name, false), calls).len(),
    ensures
        removal_trace(removal(name, false), calls)[i] != ActionView::Run(kill_argv(name)),
{
    lemma_plain_removal_never_kills(removal(name, false), calls, i);
}

/// By force, the container is killed and then removed, whether or not it
/// runs, and whatever comes of the kill.
pub proof fn law_force_kills_and_then_removes(name: Seq<char>, calls: Seq<calls::CallView>)
    requires
        calls.len() >= 3,
        calls::inspection(name, calls[0]) is Ok,
    ensures
        removal_trace(removal(name, true), calls).take(3) == seq![
            ActionView::Run(calls::inspect_argv(name)),
            ActionView::Run(kill_argv(name)),
            ActionView::Run(rm_argv(name)),
        ],
{
    let v = removal(name, true);
    let killing = RemovalView { phase: RemovalPhase::Kill, ..v };
    let removing = RemovalView { phase: RemovalPhase::Remove, ..v };
    let after_kill = removal_trace(killing, calls.skip(1));
    let after_rm = removal_trace(removing, calls.skip(1).skip(1));
    assert(removal_trace(v, calls) == seq![removal_action(v)] + after_kill);
    assert(after_kill == seq![removal_action(killing)] + after_rm);
    assert(after_rm[0] == removal_action(removing));
}

/// A removal comes to an end within four calls.
pub proof fn law_removal_ends(name: Seq<char>, force: bool, calls: Seq<calls::CallView>)
    requires
        calls.len() >= 4,
    ensures
        removal_end(removal(name, force), calls) is Some,
        removal_trace(removal(name, force), calls).len() <= 4,
{
    lemma_removal_ends(removal(name, force), calls);
}

/// The greatest number of calls that a removal still makes.
spec fn calls_left(phase: RemovalPhase) -> nat {
    match phase {
        RemovalPhase::Inspect => 4,
        RemovalPhase::Kill => 3,
        RemovalPhase::Remove => 2,
        RemovalPhase::Retry => 1,
    }
}

proof fn lemma_removal_ends(v: RemovalView, calls: Seq<calls::CallView>)
    requires
        calls.len() >= calls_left(v.phase),
    ensures
        removal_end(v, calls) is Some,
        removal_trace(v, calls).len() <= calls_left(v.phase),
    decreases calls.len(),
{
    match removal_next(v, calls[0]) {
        TurnView::Go(w) => {
            lemma_removal_ends(w, calls.skip(1));
        },
        TurnView::Warn(w, _) => {
            lemma_removal_ends(w, calls.skip(1));
        },
        TurnView::Done(_) => {},
    }
}

// ---------------------------------------------------------------------
// Laws of creation
// ---------------------------------------------------------------------

/// The calls that a creation makes, where these are what comes of them.
pub open spec fn creation_trace(v: CreationView, calls: Seq<calls::CallView>) -> Seq<ActionView>
    decreases calls.len(),
{
    if calls.len() == 0 {
        Seq::empty()
    } else {
        seq![creation_action(v)] + match creation_next(v, calls[0]) {
            TurnView::Go(w) => creation_trace(w, calls.skip(1)),
            TurnView::Warn(w, _) => creation_trace(w, calls.skip(1)),
            TurnView::Done(_) => Seq::empty(),
        }
    }
}

/// The end of a creation, where this is what comes of its calls: the
/// message of its failure, or none. `None` if it has not come to an end.
pub open spec fn creation_end(v: CreationView, calls: Seq<calls::CallView>) -> Option<
    Option<error::Fault>,
>
    decreases calls.len(),
{
    if calls.len() == 0 {
        None
    } else {
        match creation_next(v, calls[0]) {
            TurnView::Go(w) => creation_end(w, calls.skip(1)),
            TurnView::Warn(w, _) => creation_end(w, calls.skip(1)),
            TurnView::Done(r) => Some(r),
        }
    }
}

/// The failure that a creation is cleaning up after, if it is.
pub open spec fn failure_of(v: CreationView) -> Option<error::Fault> {
    match v.phase {
        CreationPhaseView::Check { error, .. } => Some(error),
        CreationPhaseView::RollBack { error, .. } => Some(error),
        _ => None,
    }
}

/// A creation that has failed ends with its failure, whatever comes of the
/// clean-up.
pub proof fn law_failure_is_what_is_reported(v: CreationView, calls: Seq<calls::CallView>)
    requires
        failure_of(v) is Some,
        creation_end(v, calls) is Some,
    ensures
        creation_end(v, calls) == Some(failure_of(v)),
    decreases calls.len(),
{
    match creation_next(v, calls[0]) {
        TurnView::Go(w) => {
            law_failure_is_what_is_reported(w, calls.skip(1));
        },
        TurnView::Warn(w, _) => {
            law_failure_is_what_is_reported(w, calls.skip(1));
        },
        TurnView::Done(_) => {},
    }
}

proof fn lemma_rolling_back_is_removing(v: CreationView, calls: Seq<calls::CallView>)
    requires
        v.phase is RollBack,
    ensures
        creation_trace(v, calls) == removal_trace(v.phase->removal, calls),
    decreases calls.len(),
{
    if calls.len() > 0 {
        match creation_next(v, calls[0]) {
            TurnView::Go(w) => {
                lemma_rolling_back_is_removing(w, calls.skip(1));
            },
            TurnView::Warn(w, _) => {
                lemma_rolling_back_is_removing(w, calls.skip(1));
            },
            TurnView::Done(_) => {},
        }
    }
}

/// The calls that clean up after a failure: look for the container, and
/// remove it if it is there.
pub open spec fn clean_up(name: Seq<char>, force: bool, calls: Seq<calls::CallView>) -> Seq<
    ActionView,
> {
    if calls.len() == 0 {
        Seq::empty()
    } else {
        seq![ActionView::Run(calls::inspect_argv(name))] + if calls::inspection(
            name,
            calls[0],
        ) matches Ok(Some(_)) {
            removal_trace(removal(name, force), calls.skip(1))
        } else {
            Seq::empty()
        }
    }
}

/// A creation that fails cleans up: the container that it left behind, if
/// there is one, is removed. One that podman refused to create is removed
/// without force; one that was started for its init steps, whichever of
/// them failed, is removed by force.
pub proof fn law_failed_creation_is_rolled_back(
    v: CreationView,
    calls: Seq<calls::CallView>,
    failed: CreationView,
)
    requires
        calls.len() > 0,
        v.phase is Create || v.phase is Start || v.phase is Step,
        creation_next(v, calls[0]) == TurnView::Go(failed),
        failure_of(failed) is Some,
    ensures
        creation_trace(v, calls) == seq![creation_action(v)] + clean_up(
            v.name,
            !(v.phase is Create),
            calls.skip(1),
        ),
        creation_end(v, calls) matches Some(r) ==> r == failure_of(failed),
{
    let rest = calls.skip(1);
    let force = !(v.phase is Create);
    assert(failed.phase is Check);
    assert(failed.name == v.name);
    assert(creation_trace(v, calls) == seq![creation_action(v)] + creation_trace(failed, rest));
    assert(creation_trace(failed, rest) == clean_up(v.name, force, rest)) by {
        if rest.len() > 0 {
            match creation_next(failed, rest[0]) {
                TurnView::Go(w) => {
                    lemma_rolling_back_is_removing(w, rest.skip(1));
                    assert(w.phase->removal == removal(v.name, force));
                },
                _ => {},
            }
        }
    }
    if creation_end(v, calls) is Some {
        law_failure_is_what_is_reported(failed, rest);
    }
}

/// A creation under a name that is taken ends at once: the container of
/// that name is left alone.
pub proof fn law_taken_name_is_left_alone(
    name: Seq<char>,
    spec: args::SpecView,
    calls: Seq<calls::CallView>,
    failed: error::Fault,
)
    requires
        calls.len() > 0,
        calls::outcome(args::create_argv(name, spec), calls[0]) == Err::<Seq<u8>, error::Fault>(
            failed,
        ),
        says_taken(calls[0]),
    ensures
        creation_trace(creation(name, spec), calls) == seq![
            ActionView::Run(args::create_argv(name, spec)),
        ],
        creation_end(creation(name, spec), calls) == Some(Some(failed)),
{
}

/// The sessions of the init steps from a position on.
pub open spec fn sessions_from(v: CreationView, i: nat) -> Seq<ActionView> {
    Seq::new(
        (steps_of(v).len() - i) as nat,
        |k: int| ActionView::Session(step_argv(v.name, steps_of(v)[i + k])),
    )
}

proof fn lemma_steps_run_in_order(v: CreationView, i: nat, calls: Seq<calls::CallView>)
    requires
        v.phase == CreationPhaseView::Step(i),
        i < steps_of(v).len(),
        creation_end(v, calls) == Some(None::<error::Fault>),
    ensures
        creation_trace(v, calls) == sessions_from(v, i),
    decreases calls.len(),
{
    match creation_next(v, calls[0]) {
        TurnView::Go(w) => {
            if failure_of(w) is Some {
                law_failure_is_what_is_reported(w, calls.skip(1));
            } else {
                lemma_steps_run_in_order(w, i + 1, calls.skip(1));
                assert(steps_of(w) == steps_of(v));
                assert(seq![creation_action(v)] + sessions_from(w, i + 1) == sessions_from(v, i));
            }
        },
        TurnView::Warn(_, _) => {},
        TurnView::Done(_) => {
            assert(seq![creation_action(v)] + Seq::<ActionView>::empty() == sessions_from(v, i));
        },
    }
}

/// A creation that succeeds has created the container and, if there are
/// init steps, started it and run every one of them, in their order, and
/// nothing else.
pub proof fn law_creation_runs_every_step_in_order(
    name: Seq<char>,
    spec: args::SpecView,
    calls: Seq<calls::CallView>,
)
    requires
        creation_end(creation(name, spec), calls) == Some(None::<error::Fault>),
    ensures
        creation_trace(creation(name, spec), calls) == seq![
            ActionView::Run(args::create_argv(name, spec)),
        ] + (match spec.init {
            None => Seq::empty(),
            Some(_) => seq![ActionView::Run(start_argv(name))] + sessions_from(
                creation(name, spec),
                0,
            ),
        }),
{
    let v = creation(name, spec);
    match creation_next(v, calls[0]) {
        TurnView::Go(w) => {
            let rest = calls.skip(1);
            if failure_of(w) is Some {
                law_failure_is_what_is_reported(w, rest);
            } else {
                assert(w.phase is Start);
                assert(creation_end(v, calls) == creation_end(w, rest));
                assert(rest.len() > 0);
                assert(creation_trace(w, rest)[0] == creation_action(w));
                match creation_next(w, rest[0]) {
                    TurnView::Go(x) => {
                        assert(creation_end(w, rest) == creation_end(x, rest.skip(1)));
                        if failure_of(x) is Some {
                            law_failure_is_what_is_reported(x, rest.skip(1));
                        } else {
                            lemma_steps_run_in_order(x, 0, rest.skip(1));
                            assert(sessions_from(x, 0) == sessions_from(v, 0));
                        }
                    },
                    TurnView::Warn(_, _) => {},
                    TurnView::Done(_) => {
                        assert(sessions_from(v, 0) == Seq::<ActionView>::empty());
                    },
                }
            }
        },
        TurnView::Warn(_, _) => {},
        TurnView::Done(_) => {},
    }
}

// ---------------------------------------------------------------------
// Laws of entering
// ---------------------------------------------------------------------

/// The calls that an entry makes, where these are what comes of them.
pub open spec fn entry_trace(v: EntryView, calls: Seq<calls::CallView>) -> Seq<ActionView>
    decreases calls.len(),
{
    if calls.len() == 0 {
        Seq::empty()
    } else {
        seq![entry_action(v)] + match entry_next(v, calls[0]) {
            TurnView::Go(w) => entry_trace(w, calls.skip(1)),
            TurnView::Warn(w, _) => entry_trace(w, calls.skip(1)),
            TurnView::Done(_) => Seq::empty(),
        }
    }
}

/// A box that runs is entered at once; one that does not is started first,
/// and entered only if that succeeds; a box that does not exist is not
/// entered.
pub proof fn law_entry_starts_what_does_not_run(v: EntryView, calls: Seq<calls::CallView>)
    requires
        v.phase is Inspect,
        calls.len() >= 3,
    ensures
        entry_trace(v, calls) == seq![
            ActionView::Run(calls::inspect_argv(v.name)),
        ] + (match calls::inspection(v.name, calls[0]) {
            Err(_) => Seq::empty(),
            Ok(None) => Seq::empty(),
            Ok(info) => if is_running(info) {
                seq![ActionView::Session(v.argv)]
            } else {
                seq![ActionView::Run(start_argv(v.name))] + if calls::outcome(
                    start_argv(v.name),
                    calls[1],
                ) is Ok {
                    seq![ActionView::Session(v.argv)]
                } else {
                    Seq::empty()
                }
            },
        }),
{
    reveal_with_fuel(entry_trace, 4);
    assert(calls.skip(1)[0] == calls[1]);
}

} // verus!

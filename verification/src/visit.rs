//! Work on a box that is there: entering it, running a command in it,
//! removing it.
//!
//! Like the work of the driver, this is a state that says which podman call
//! comes next, and a step from what came of the call. The first call looks
//! at the container. Only a box, a container that carries the marker, is
//! worked on.

use vstd::prelude::*;

use crate::cli;
use crate::cli::{note_unset_env, resolve_box, runtime_env_injection};
use crate::driver;
use crate::driver::calls;
use crate::driver::calls::{inspect_args, Call};
use crate::driver::work;
use crate::driver::work::{Action, Entry, Removal, Turn};
use crate::driver::Podman;
use crate::error;
use crate::error::Error;
use crate::text;
use crate::text::is_among;
use crate::validate;
use crate::validate::validate_cli_env;

verus! {

/// What is to be done with a box.
#[derive(Debug)]
enum Task {
    /// An interactive session, with these names of the command line.
    Enter { env: Vec<String> },
    /// A one-shot command, with these names of the command line.
    Exec { env: Vec<String>, command: Vec<String> },
    /// Its removal.
    Remove { force: bool },
}

/// Where the work on a box stands: which call comes next.
#[derive(Debug)]
enum Stage {
    /// Look at the container. `set` are the names of the variables that are
    /// set in the caller's environment.
    Look { task: Task, set: Vec<String> },
    /// Enter the box.
    Entry(Entry),
    /// Remove it.
    Removal(Removal),
}

/// Work on a box.
#[derive(Debug)]
pub struct Visit {
    name: String,
    stage: Stage,
}

/// What is to be done with a box, as text.
pub enum TaskView {
    Enter { env: Seq<Seq<char>> },
    Exec { env: Seq<Seq<char>>, command: Seq<Seq<char>> },
    Remove { force: bool },
}

/// Where the work on a box stands, as text.
pub enum StageView {
    Look { task: TaskView, set: Seq<Seq<char>> },
    Entry(work::EntryView),
    Removal(work::RemovalView),
}

/// Work on a box, as text.
pub struct VisitView {
    pub name: Seq<char>,
    pub stage: StageView,
}

impl View for Visit {
    type V = VisitView;

    closed spec fn view(&self) -> VisitView {
        VisitView {
            name: self.name@,
            stage: match self.stage {
                Stage::Look { task, set } => StageView::Look {
                    task: match task {
                        Task::Enter { env } => TaskView::Enter { env: text::texts(env@) },
                        Task::Exec { env, command } => TaskView::Exec {
                            env: text::texts(env@),
                            command: text::texts(command@),
                        },
                        Task::Remove { force } => TaskView::Remove { force },
                    },
                    set: text::texts(set@),
                },
                Stage::Entry(entry) => StageView::Entry(entry@),
                Stage::Removal(removal) => StageView::Removal(removal@),
            },
        }
    }
}

/// The call that comes next.
pub open spec fn next_action(v: VisitView) -> work::ActionView {
    match v.stage {
        StageView::Look { .. } => work::ActionView::Run(calls::inspect_argv(v.name)),
        StageView::Entry(entry) => work::entry_action(entry),
        StageView::Removal(removal) => work::removal_action(removal),
    }
}

/// For each of the names, whether it is among those that are set.
pub open spec fn are_set(names: Seq<Seq<char>>, set: Seq<Seq<char>>) -> Seq<bool> {
    names.map_values(|n: Seq<char>| set.contains(n))
}

/// The names that a session passes on: those that the box declares and
/// those of the command line, as far as they are set.
pub open spec fn passed_on(
    declared: Seq<Seq<char>>,
    env: Seq<Seq<char>>,
    set: Seq<Seq<char>>,
) -> Seq<Seq<char>> {
    let names = cli::asked_for(declared, env);
    cli::having(names, are_set(names, set), true)
}

/// The names that a session asks for and that are not set.
pub open spec fn left_alone(
    declared: Seq<Seq<char>>,
    env: Seq<Seq<char>>,
    set: Seq<Seq<char>>,
) -> Seq<Seq<char>> {
    let names = cli::asked_for(declared, env);
    cli::having(names, are_set(names, set), false)
}

/// The work that a task comes to, on a box with these facts.
pub open spec fn work_of(
    name: Seq<char>,
    task: TaskView,
    set: Seq<Seq<char>>,
    info: driver::InfoView,
) -> StageView {
    match task {
        TaskView::Enter { env } => StageView::Entry(
            work::session(name, passed_on(info.env, env, set)),
        ),
        TaskView::Exec { env, command } => StageView::Entry(
            work::command(name, passed_on(info.env, env, set), command),
        ),
        TaskView::Remove { force } => StageView::Removal(work::removal(name, force)),
    }
}

/// The note about names that are not set, which a task begins with, if
/// there are some.
pub open spec fn note_of(
    name: Seq<char>,
    task: TaskView,
    set: Seq<Seq<char>>,
    info: driver::InfoView,
) -> Option<Seq<char>> {
    match task {
        TaskView::Enter { env } => cli::unset_note(name, left_alone(info.env, env, set)),
        TaskView::Exec { env, command } => cli::unset_note(
            name,
            left_alone(info.env, env, set),
        ),
        TaskView::Remove { force } => None,
    }
}

/// What follows a call: a container that is no box ends the visit; on a
/// box, the work follows, which is that of the driver.
pub open spec fn next_turn(v: VisitView, call: calls::CallView) -> work::TurnView<VisitView> {
    match v.stage {
        StageView::Look { task, set } => match cli::box_of(v.name, call) {
            Err(m) => work::TurnView::Done(Some(m)),
            Ok(info) => {
                let begun = VisitView { name: v.name, stage: work_of(v.name, task, set, info) };
                match note_of(v.name, task, set, info) {
                    Some(note) => work::TurnView::Warn(begun, note),
                    None => work::TurnView::Go(begun),
                }
            },
        },
        StageView::Entry(entry) => match work::entry_next(entry, call) {
            work::TurnView::Go(e) => work::TurnView::Go(
                VisitView { name: v.name, stage: StageView::Entry(e) },
            ),
            work::TurnView::Warn(e, w) => work::TurnView::Warn(
                VisitView { name: v.name, stage: StageView::Entry(e) },
                w,
            ),
            work::TurnView::Done(r) => work::TurnView::Done(r),
        },
        StageView::Removal(removal) => match work::removal_next(removal, call) {
            work::TurnView::Go(r) => work::TurnView::Go(
                VisitView { name: v.name, stage: StageView::Removal(r) },
            ),
            work::TurnView::Warn(r, w) => work::TurnView::Warn(
                VisitView { name: v.name, stage: StageView::Removal(r) },
                w,
            ),
            work::TurnView::Done(r) => work::TurnView::Done(r),
        },
    }
}

/// What follows a call, as text.
pub open spec fn turn_view(t: Turn<Visit>) -> work::TurnView<VisitView> {
    match t {
        Turn::Go(s) => work::TurnView::Go(s@),
        Turn::Warn(s, w) => work::TurnView::Warn(s@, w@),
        Turn::Done(r) => work::TurnView::Done(error::fault(r)),
    }
}

/// A visit at its start.
pub open spec fn visit(name: Seq<char>, task: TaskView, set: Seq<Seq<char>>) -> VisitView {
    VisitView { name, stage: StageView::Look { task, set } }
}

/// The names that a session passes on, and those that are not set.
fn sort_names(declared: &[String], env: &[String], set: &Vec<String>) -> (r: (
    Vec<String>,
    Vec<String>,
))
    ensures
        text::texts(r.0@) == passed_on(
            text::texts(declared@),
            text::texts(env@),
            text::texts(set@),
        ),
        text::texts(r.1@) == left_alone(
            text::texts(declared@),
            text::texts(env@),
            text::texts(set@),
        ),
{
    let present = |n: &str| -> (b: bool)
        ensures
            b == text::texts(set@).contains(n@),
        { is_among(set, n) };
    let r = runtime_env_injection(declared, env, present);
    proof {
        let names = cli::asked_for(text::texts(declared@), text::texts(env@));
        let answers = choose|answers: Seq<bool>| #[trigger]
            cli::are_answers(present, names, answers) && text::texts(r.0@) == cli::having(
                names,
                answers,
                true,
            ) && text::texts(r.1@) == cli::having(names, answers, false);
        assert forall|i: int| 0 <= i < names.len() implies answers[i] == are_set(
            names,
            text::texts(set@),
        )[i] by {
            assert(cli::may_answer(present, names[i], answers[i]));
        }
        assert(answers == are_set(names, text::texts(set@)));
    }
    r
}

impl Visit {
    /// A session in a box. `env` are the names of the command line, which
    /// must be bare; `set` are the names of the variables that are set in
    /// the caller's environment.
    pub fn enter(name: &str, env: Vec<String>, set: Vec<String>) -> (r: Result<Visit, Error>)
        ensures
            match r {
                Ok(v) => validate::cli_names_fault(text::texts(env@)) is None && v@ == visit(
                    name@,
                    TaskView::Enter { env: text::texts(env@) },
                    text::texts(set@),
                ),
                Err(e) => validate::cli_names_fault(text::texts(env@)) == Some(e@),
            },
    {
        match validate_cli_env(&env) {
            Err(e) => Err(e),
            Ok(_) => Ok(
                Visit {
                    name: name.to_owned(),
                    stage: Stage::Look { task: Task::Enter { env }, set },
                },
            ),
        }
    }

    /// A one-shot command in a box. `env` and `set` are as for a session.
    pub fn exec(name: &str, env: Vec<String>, command: Vec<String>, set: Vec<String>) -> (r:
        Result<Visit, Error>)
        ensures
            match r {
                Ok(v) => validate::cli_names_fault(text::texts(env@)) is None && v@ == visit(
                    name@,
                    TaskView::Exec { env: text::texts(env@), command: text::texts(command@) },
                    text::texts(set@),
                ),
                Err(e) => validate::cli_names_fault(text::texts(env@)) == Some(e@),
            },
    {
        match validate_cli_env(&env) {
            Err(e) => Err(e),
            Ok(_) => Ok(
                Visit {
                    name: name.to_owned(),
                    stage: Stage::Look { task: Task::Exec { env, command }, set },
                },
            ),
        }
    }

    /// The removal of a box.
    pub fn remove(name: &str, force: bool) -> (r: Visit)
        ensures
            r@ == visit(name@, TaskView::Remove { force }, Seq::empty()),
    {
        let set: Vec<String> = Vec::new();
        proof {
            assert(text::texts(set@) == Seq::<Seq<char>>::empty());
        }
        Visit { name: name.to_owned(), stage: Stage::Look { task: Task::Remove { force }, set } }
    }

    /// Whether the box is being entered: it is one, and its session or
    /// command follows.
    pub fn is_entering(&self) -> (r: bool)
        ensures
            r == (self@.stage is Entry),
    {
        match &self.stage {
            Stage::Entry(_) => true,
            _ => false,
        }
    }

    /// The call that comes next.
    pub fn action(&self) -> (r: Action)
        ensures
            r@ == next_action(self@),
    {
        match &self.stage {
            Stage::Look { .. } => Action::Run(inspect_args(self.name.as_str())),
            Stage::Entry(entry) => entry.action(),
            Stage::Removal(removal) => removal.action(),
        }
    }

    /// What follows the call.
    pub fn next(self, call: &Call) -> (r: Turn<Visit>)
        ensures
            turn_view(r) == next_turn(self@, call@),
    {
        let Visit { name, stage } = self;
        match stage {
            Stage::Look { task, set } => {
                let info = match resolve_box(&Podman, name.as_str(), call) {
                    Ok(info) => info,
                    Err(e) => return Turn::Done(Err(e)),
                };
                match task {
                    Task::Remove { force } => {
                        let removal = Podman.remove_container(name.as_str(), force);
                        Turn::Go(Visit { name, stage: Stage::Removal(removal) })
                    },
                    Task::Enter { env } => {
                        let (inject, unset) = sort_names(&info.env, &env, &set);
                        let entry = Podman.enter(name.as_str(), &inject);
                        Self::begin(name, entry, &unset)
                    },
                    Task::Exec { env, command } => {
                        let (inject, unset) = sort_names(&info.env, &env, &set);
                        let entry = Podman.exec(name.as_str(), &inject, &command);
                        Self::begin(name, entry, &unset)
                    },
                }
            },
            Stage::Entry(entry) => match entry.next(call) {
                Turn::Go(e) => Turn::Go(Visit { name, stage: Stage::Entry(e) }),
                Turn::Warn(e, w) => Turn::Warn(Visit { name, stage: Stage::Entry(e) }, w),
                Turn::Done(r) => Turn::Done(r),
            },
            Stage::Removal(removal) => match removal.next(call) {
                Turn::Go(r) => Turn::Go(Visit { name, stage: Stage::Removal(r) }),
                Turn::Warn(r, w) => Turn::Warn(Visit { name, stage: Stage::Removal(r) }, w),
                Turn::Done(r) => Turn::Done(r),
            },
        }
    }

    /// Goes on with an entry, after a note about the names that are not set.
    fn begin(name: String, entry: Entry, unset: &[String]) -> (r: Turn<Visit>)
        ensures
            turn_view(r) == ({
                let begun = VisitView { name: name@, stage: StageView::Entry(entry@) };
                match cli::unset_note(name@, text::texts(unset@)) {
                    Some(note) => work::TurnView::Warn(begun, note),
                    None => work::TurnView::Go(begun),
                }
            }),
    {
        let note = note_unset_env(name.as_str(), unset);
        let visit = Visit { name, stage: Stage::Entry(entry) };
        match note {
            Some(note) => Turn::Warn(visit, note),
            None => Turn::Go(visit),
        }
    }
}

// ---------------------------------------------------------------------
// Laws
// ---------------------------------------------------------------------

/// The calls of a visit, where these are what comes of them.
pub open spec fn visit_trace(v: VisitView, calls: Seq<calls::CallView>) -> Seq<work::ActionView>
    decreases calls.len(),
{
    if calls.len() == 0 {
        Seq::empty()
    } else {
        seq![next_action(v)] + match next_turn(v, calls[0]) {
            work::TurnView::Go(w) => visit_trace(w, calls.skip(1)),
            work::TurnView::Warn(w, _) => visit_trace(w, calls.skip(1)),
            work::TurnView::Done(_) => Seq::empty(),
        }
    }
}

/// No marker, no access: whatever is to be done, a container that is no box
/// is looked at, and no other call is made.
pub proof fn law_no_marker_no_access(
    name: Seq<char>,
    task: TaskView,
    set: Seq<Seq<char>>,
    calls: Seq<calls::CallView>,
)
    requires
        calls.len() > 0,
        cli::box_of(name, calls[0]) is Err,
    ensures
        visit_trace(visit(name, task, set), calls) == seq![
            work::ActionView::Run(calls::inspect_argv(name)),
        ],
{
}

proof fn lemma_entering_is_entry(v: VisitView, calls: Seq<calls::CallView>)
    requires
        v.stage is Entry,
    ensures
        visit_trace(v, calls) == work::entry_trace(v.stage->Entry_0, calls),
    decreases calls.len(),
{
    if calls.len() > 0 {
        match next_turn(v, calls[0]) {
            work::TurnView::Go(w) => {
                lemma_entering_is_entry(w, calls.skip(1));
            },
            work::TurnView::Warn(w, _) => {
                lemma_entering_is_entry(w, calls.skip(1));
            },
            work::TurnView::Done(_) => {},
        }
    }
}

proof fn lemma_removing_is_removal(v: VisitView, calls: Seq<calls::CallView>)
    requires
        v.stage is Removal,
    ensures
        visit_trace(v, calls) == work::removal_trace(v.stage->Removal_0, calls),
    decreases calls.len(),
{
    if calls.len() > 0 {
        match next_turn(v, calls[0]) {
            work::TurnView::Go(w) => {
                lemma_removing_is_removal(w, calls.skip(1));
            },
            work::TurnView::Warn(w, _) => {
                lemma_removing_is_removal(w, calls.skip(1));
            },
            work::TurnView::Done(_) => {},
        }
    }
}

/// The calls that work makes, where these are what comes of them.
pub open spec fn work_trace(stage: StageView, calls: Seq<calls::CallView>) -> Seq<
    work::ActionView,
> {
    match stage {
        StageView::Look { .. } => Seq::empty(),
        StageView::Entry(entry) => work::entry_trace(entry, calls),
        StageView::Removal(removal) => work::removal_trace(removal, calls),
    }
}

/// On a box, the calls are a look at it and those of the work, and nothing
/// else.
pub proof fn law_box_is_looked_at_and_then_worked_on(
    name: Seq<char>,
    task: TaskView,
    set: Seq<Seq<char>>,
    calls: Seq<calls::CallView>,
    info: driver::InfoView,
)
    requires
        calls.len() > 0,
        cli::box_of(name, calls[0]) == Ok::<driver::InfoView, error::Fault>(info),
    ensures
        visit_trace(visit(name, task, set), calls) == seq![
            work::ActionView::Run(calls::inspect_argv(name)),
        ] + work_trace(work_of(name, task, set, info), calls.skip(1)),
{
    let begun = VisitView { name, stage: work_of(name, task, set, info) };
    match begun.stage {
        StageView::Look { .. } => {},
        StageView::Entry(_) => {
            lemma_entering_is_entry(begun, calls.skip(1));
        },
        StageView::Removal(_) => {
            lemma_removing_is_removal(begun, calls.skip(1));
        },
    }
}

/// A session passes on exactly the names that the box declares or the
/// command line brings and that are set; those that are not set are left
/// alone.
pub proof fn law_set_names_are_passed_on(
    declared: Seq<Seq<char>>,
    env: Seq<Seq<char>>,
    set: Seq<Seq<char>>,
    name: Seq<char>,
)
    ensures
        passed_on(declared, env, set).contains(name) <==> (declared.contains(name)
            || env.contains(name)) && set.contains(name),
        left_alone(declared, env, set).contains(name) <==> (declared.contains(name)
            || env.contains(name)) && !set.contains(name),
{
    let names = cli::asked_for(declared, env);
    cli::law_session_passes_what_is_set(
        declared,
        env,
        are_set(names, set),
        |n: Seq<char>| set.contains(n),
        name,
    );
}

} // verus!

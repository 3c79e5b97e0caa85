//! Which calls are made on a box, and when.

use vstd::prelude::*;

use crate::cli;
use crate::driver;
use crate::driver::args;
use crate::driver::calls;
use crate::driver::calls::CallView;
use crate::driver::work;
use crate::driver::work::{ActionView, TurnView};
use crate::error;
use crate::json;
use crate::laws::answers;
use crate::laws::create;
use crate::new_box;
use crate::results;
use crate::text;
use crate::validate;
use crate::visit;

verus! {

/// The call ended with the exit code zero.
pub open spec fn went_well(call: CallView) -> bool {
    call matches CallView::Ended { code, .. } && code == Some(0i32)
}

// ---------------------------------------------------------------------
// Entering
// ---------------------------------------------------------------------

/// Behind the look at a box that is there, the session is the next call
/// where the state of the box is exactly `running`. For any other state,
/// and for none, the box is started first.
pub proof fn law_box_is_started_unless_it_runs(
    v: work::EntryView,
    call: CallView,
    info: driver::InfoView,
)
    requires
        v.phase is Inspect,
        calls::inspection(v.name, call) == Ok::<Option<driver::InfoView>, error::Fault>(Some(info)),
    ensures
        work::entry_next(v, call) matches TurnView::Go(next) && next.name == v.name && next.argv
            == v.argv && work::entry_action(next) == if info.state == Some("running"@) {
            ActionView::Session(v.argv)
        } else {
            ActionView::Run(seq!["start"@, v.name])
        },
{
}

/// The same, in terms of what podman answers to the look.
pub proof fn law_status_decides_on_the_start(
    v: work::EntryView,
    status: Seq<char>,
    stdout: Seq<u8>,
    stderr: Seq<char>,
    answer: json::JsonView,
)
    requires
        v.phase is Inspect,
        json::json_text(stdout) == Ok::<json::JsonView, Seq<char>>(answer),
    ensures
        ({
            let call = CallView::Ended { code: Some(0i32), status, stdout, stderr };
            let runs = answers::inspected(
                answer,
                "State"@,
                "Status"@,
                json::JsonView::Text("running"@),
            );
            work::entry_next(v, call) matches TurnView::Go(next) && work::entry_action(next) == (
            if runs {
                ActionView::Session(v.argv)
            } else {
                ActionView::Run(seq!["start"@, v.name])
            })
        }),
{
    answers::law_inspection_reads_the_answer(v.name, status, stdout, stderr, answer);
    answers::law_state_is_the_status(answer, "running"@);
}

/// Every entry begins with a look at the box; a box that is not there, or
/// cannot be looked at, is neither started nor entered.
pub proof fn law_missing_box_is_not_entered(v: work::EntryView, call: CallView)
    requires
        v.phase is Inspect,
    ensures
        work::entry_action(v) == ActionView::Run(seq!["inspect"@, v.name]),
        calls::inspection(v.name, call) == Ok::<Option<driver::InfoView>, error::Fault>(None)
            ==> work::entry_next(v, call) == TurnView::<work::EntryView>::Done(
            Some(error::said("box '"@ + v.name + "' does not exist"@)),
        ),
        calls::inspection(v.name, call) matches Err(e) ==> work::entry_next(v, call) == TurnView::<
            work::EntryView,
        >::Done(Some(e)),
{
}

/// A box that was started is entered where the start went well; else the
/// failure is reported. The entry ends with the session.
pub proof fn law_started_box_is_entered(v: work::EntryView, call: CallView)
    ensures
        v.phase is Start && went_well(call) ==> (work::entry_next(v, call) matches TurnView::Go(
            next,
        ) && work::entry_action(next) == ActionView::Session(v.argv)),
        v.phase is Start && !went_well(call) ==> (work::entry_next(v, call) matches TurnView::Done(
            r,
        ) && r is Some),
        v.phase is Session ==> (work::entry_next(v, call) matches TurnView::Done(r) && (r is None
            <==> went_well(call))),
{
}

/// A session is a shell with the user's terminal, a command the words of
/// the command; both pass the names on, each behind `-e`, in front of the
/// box.
pub proof fn law_entry_arguments(
    name: Seq<char>,
    env: Seq<Seq<char>>,
    words: Seq<Seq<char>>,
)
    ensures
        work::session(name, env).name == name,
        work::session(name, env).label == "enter"@,
        work::command(name, env, words).label == "exec"@,
        work::session(name, env).phase is Inspect,
        work::session(name, env).argv == seq!["exec"@, "--interactive"@, "--tty"@] + create::each(
            "-e"@,
            env,
        ) + seq![name, "/bin/bash"@],
        work::command(name, env, words).name == name,
        work::command(name, env, words).phase is Inspect,
        work::command(name, env, words).argv == seq!["exec"@] + create::each("-e"@, env) + seq![
            name,
        ] + words,
{
    create::lemma_each("-e"@, env);
}

// ---------------------------------------------------------------------
// Removing
// ---------------------------------------------------------------------

/// Behind the look, a removal by force kills whatever is there. Without
/// force, a box whose state is exactly `running` is refused, and a box in
/// any other state, or without one, is removed.
pub proof fn law_running_decides_on_the_removal(
    name: Seq<char>,
    force: bool,
    call: CallView,
    info: Option<driver::InfoView>,
)
    requires
        calls::inspection(name, call) == Ok::<Option<driver::InfoView>, error::Fault>(info),
    ensures
        ({
            let v = work::removal(name, force);
            let runs = info matches Some(i) && i.state == Some("running"@);
            &&& work::removal_action(v) == ActionView::Run(seq!["inspect"@, name])
            &&& force ==> (work::removal_next(v, call) matches TurnView::Go(next)
                && work::removal_action(next) == ActionView::Run(seq!["kill"@, name]))
            &&& !force && runs ==> work::removal_next(v, call) == TurnView::<
                work::RemovalView,
            >::Done(
                Some(
                    error::said(
                        "box '"@ + name + "' is running\nForce-remove it: steelbx rm --force "@
                            + name,
                    ),
                ),
            )
            &&& !force && !runs ==> (work::removal_next(v, call) matches TurnView::Go(next)
                && work::removal_action(next) == ActionView::Run(seq!["rm"@, name]))
        }),
{
}

/// A look that fails ends the removal with that failure.
pub proof fn law_removal_needs_a_look(name: Seq<char>, force: bool, call: CallView)
    ensures
        calls::inspection(name, call) matches Err(e) ==> work::removal_next(
            work::removal(name, force),
            call,
        ) == TurnView::<work::RemovalView>::Done(Some(e)),
{
}

/// Where the look says that the box can go, it goes: the calls of a removal
/// are the look, the kill if it is by force, whatever comes of that, and
/// `rm`; where that fails, `rm -f` follows. The removal fails only where
/// that fails too.
pub proof fn law_box_is_removed(
    name: Seq<char>,
    force: bool,
    look: CallView,
    kill: CallView,
    rm: CallView,
    retry: CallView,
    info: Option<driver::InfoView>,
)
    requires
        calls::inspection(name, look) == Ok::<Option<driver::InfoView>, error::Fault>(info),
        force || !(info matches Some(i) && i.state == Some("running"@)),
    ensures
        ({
            let came = if force {
                seq![look, kill, rm, retry]
            } else {
                seq![look, rm, retry]
            };
            let before = if force {
                seq![
                    ActionView::Run(seq!["inspect"@, name]),
                    ActionView::Run(seq!["kill"@, name]),
                ]
            } else {
                seq![ActionView::Run(seq!["inspect"@, name])]
            };
            let v = work::removal(name, force);
            &&& work::removal_trace(v, came) == before + seq![
                ActionView::Run(seq!["rm"@, name]),
            ] + (if went_well(rm) {
                seq![]
            } else {
                seq![ActionView::Run(seq!["rm"@, "-f"@, name])]
            })
            &&& work::removal_end(v, came) matches Some(r) && (r is None <==> went_well(rm)
                || went_well(retry))
        }),
{
    let v = work::removal(name, force);
    let removing = work::RemovalView { phase: work::RemovalPhase::Remove, ..v };
    let last = seq![rm, retry];
    lemma_rm(removing, rm, retry);
    let inspect = ActionView::Run(seq!["inspect"@, name]);
    if force {
        let killing = work::RemovalView { phase: work::RemovalPhase::Kill, ..v };
        let kill_call = ActionView::Run(seq!["kill"@, name]);
        let rest = seq![kill, rm, retry];
        assert(rest.skip(1) == last);
        assert(seq![look, kill, rm, retry].skip(1) == rest);
        assert(work::removal_next(killing, rest[0]) == TurnView::Go(removing));
        assert(work::removal_trace(killing, rest) == seq![kill_call] + work::removal_trace(
            removing,
            last,
        ));
        assert(work::removal_end(killing, rest) == work::removal_end(removing, last));
        let came = seq![look, kill, rm, retry];
        assert(work::removal_next(v, came[0]) == TurnView::Go(killing));
        assert(work::removal_trace(v, came) == seq![inspect] + work::removal_trace(killing, rest));
        assert(work::removal_end(v, came) == work::removal_end(killing, rest));
        assert(seq![inspect] + (seq![kill_call] + work::removal_trace(removing, last)) == seq![
            inspect,
            kill_call,
        ] + work::removal_trace(removing, last));
        lemma_regroup(
            seq![inspect, kill_call],
            seq![ActionView::Run(seq!["rm"@, name])],
            after_rm(name, rm),
        );
    } else {
        let came = seq![look, rm, retry];
        assert(came.skip(1) == last);
        assert(work::removal_next(v, came[0]) == TurnView::Go(removing));
        assert(work::removal_trace(v, came) == seq![inspect] + work::removal_trace(removing, last));
        assert(work::removal_end(v, came) == work::removal_end(removing, last));
        lemma_regroup(
            seq![inspect],
            seq![ActionView::Run(seq!["rm"@, name])],
            after_rm(name, rm),
        );
    }
}

spec fn after_rm(name: Seq<char>, rm: CallView) -> Seq<ActionView> {
    if went_well(rm) {
        seq![]
    } else {
        seq![ActionView::Run(seq!["rm"@, "-f"@, name])]
    }
}

proof fn lemma_regroup(a: Seq<ActionView>, b: Seq<ActionView>, c: Seq<ActionView>)
    ensures
        a + (b + c) == a + b + c,
{
}

proof fn lemma_rm(v: work::RemovalView, rm: CallView, retry: CallView)
    requires
        v.phase is Remove,
    ensures
        work::removal_trace(v, seq![rm, retry]) == seq![ActionView::Run(seq!["rm"@, v.name])]
            + after_rm(v.name, rm),
        work::removal_end(v, seq![rm, retry]) matches Some(r) && (r is None <==> went_well(rm)
            || went_well(retry)),
{
    let last = seq![rm, retry];
    let again = work::RemovalView { phase: work::RemovalPhase::Retry, ..v };
    assert(last.skip(1) == seq![retry]);
    if went_well(rm) {
        assert(work::removal_next(v, last[0]) == TurnView::<work::RemovalView>::Done(None));
        assert(work::removal_end(v, last) == Some(None::<error::Fault>));
    } else {
        assert(work::removal_next(v, last[0]) matches TurnView::Warn(w, _) && w == again);
        assert(work::removal_next(again, seq![retry][0]) is Done);
        assert(work::removal_end(v, last) == work::removal_end(again, seq![retry]));
        assert(work::removal_end(again, seq![retry]) is Some);
        assert(work::removal_trace(again, seq![retry]) == seq![work::removal_action(again)] + Seq::<
            ActionView,
        >::empty());
        assert(work::removal_trace(again, seq![retry]) == after_rm(v.name, rm));
    }
}

/// A removal that fails is told: first as a warning, and where it fails by
/// force too, as its error.
pub proof fn law_failed_removal_is_told(v: work::RemovalView, call: CallView)
    ensures
        v.phase is Remove ==> (calls::outcome(seq!["rm"@, v.name], call) matches Err(e) ==> (
        work::removal_next(v, call) matches TurnView::Warn(next, told) && work::removal_action(next)
            == ActionView::Run(seq!["rm"@, "-f"@, v.name]) && told == "warning: 'podman rm "@
            + v.name + "' failed ("@ + e.message + ") — retrying with force"@)),
        v.phase is Retry ==> (calls::outcome(seq!["rm"@, "-f"@, v.name], call) matches Err(e)
            ==> work::removal_next(v, call) == TurnView::<work::RemovalView>::Done(
            Some(
                error::said(
                    "removal of '"@ + v.name + "' failed even with force: "@ + e.message
                        + "\nManual escape: podman rm -f "@ + v.name,
                ),
            ),
        )),
{
}

// ---------------------------------------------------------------------
// Creating
// ---------------------------------------------------------------------

/// The arguments of an init step: a command runs as root in the root
/// directory of the box, with its words as they are; a copy goes from the
/// host to the path in the box.
pub open spec fn step_call(name: Seq<char>, step: args::StepView) -> Seq<Seq<char>> {
    match step {
        args::StepView::Exec(words) => seq!["exec"@, "-u"@, "0"@, "-w"@, "/"@, name] + words,
        args::StepView::Cp(host, dest) => seq!["cp"@, host, name + ":"@ + dest],
    }
}

/// A creation in which all goes well: the box is created; where there are
/// init steps it is started, and every step is run, in order; that is all.
pub proof fn law_creation_in_which_all_goes_well(
    name: Seq<char>,
    spec: args::SpecView,
    calls: Seq<CallView>,
)
    requires
        forall|k: int| 0 <= k < calls.len() ==> went_well(#[trigger] calls[k]),
        calls.len() >= 2 + (match spec.init {
            Some(steps) => steps.len(),
            None => 0,
        }),
    ensures
        work::creation_trace(work::creation(name, spec), calls) == match spec.init {
            None => seq![ActionView::Run(args::create_argv(name, spec))],
            Some(steps) => seq![
                ActionView::Run(args::create_argv(name, spec)),
                ActionView::Run(seq!["start"@, name]),
            ] + Seq::new(steps.len(), |i: int| ActionView::Session(step_call(name, steps[i]))),
        },
        work::creation_end(work::creation(name, spec), calls) == Some(None::<error::Fault>),
{
    let v = work::creation(name, spec);
    assert(went_well(calls[0]));
    assert(calls::outcome(args::create_argv(name, spec), calls[0]) is Ok);
    match spec.init {
        None => {
            assert(work::creation_next(v, calls[0]) == TurnView::<work::CreationView>::Done(None));
            assert(work::creation_end(v, calls) == Some(None::<error::Fault>));
            assert(seq![work::creation_action(v)] + Seq::<ActionView>::empty() == seq![
                ActionView::Run(args::create_argv(name, spec)),
            ]);
        },
        Some(steps) => {
            let started = work::CreationView { phase: work::CreationPhaseView::Start, ..v };
            let rest = calls.skip(1);
            assert(work::creation_next(v, calls[0]) == TurnView::Go(started));
            assert(rest[0] == calls[1]);
            assert(went_well(calls[1]));
            let after = rest.skip(1);
            assert forall|k: int| 0 <= k < after.len() implies went_well(#[trigger] after[k]) by {
                assert(after[k] == calls[k + 2]);
            }
            let sessions = Seq::new(
                steps.len(),
                |i: int| ActionView::Session(step_call(name, steps[i])),
            );
            if steps.len() > 0 {
                let first = work::CreationView { phase: work::CreationPhaseView::Step(0), ..v };
                lemma_steps_go_well(first, 0, after);
                assert(work::creation_next(started, rest[0]) == TurnView::Go(first));
                assert(steps.skip(0) == steps);
                assert(work::creation_trace(first, after) == sessions);
                assert(work::creation_trace(started, rest) == seq![
                    work::creation_action(started),
                ] + sessions);
            } else {
                assert(work::creation_next(started, rest[0]) == TurnView::<
                    work::CreationView,
                >::Done(None));
                assert(work::creation_trace(started, rest) == seq![
                    work::creation_action(started),
                ] + Seq::<ActionView>::empty());
                assert(sessions == Seq::<ActionView>::empty());
            }
            assert(work::creation_end(started, rest) == Some(None::<error::Fault>));
            assert(work::creation_end(v, calls) == work::creation_end(started, rest));
            assert(work::creation_trace(v, calls) == seq![work::creation_action(v)]
                + work::creation_trace(started, rest));
        },
    }
}

proof fn lemma_steps_go_well(v: work::CreationView, i: nat, calls: Seq<CallView>)
    requires
        v.init is Some,
        v.phase == work::CreationPhaseView::Step(i),
        i < v.init->Some_0.len(),
        calls.len() >= v.init->Some_0.len() - i,
        forall|k: int| 0 <= k < calls.len() ==> went_well(#[trigger] calls[k]),
    ensures
        work::creation_trace(v, calls) == Seq::new(
            (v.init->Some_0.len() - i) as nat,
            |k: int| ActionView::Session(step_call(v.name, v.init->Some_0[i + k])),
        ),
        work::creation_end(v, calls) == Some(None::<error::Fault>),
    decreases v.init->Some_0.len() - i,
{
    let steps = v.init->Some_0;
    assert(went_well(calls[0]));
    let wanted = Seq::new(
        (steps.len() - i) as nat,
        |k: int| ActionView::Session(step_call(v.name, steps[i + k])),
    );
    assert(work::creation_action(v) == ActionView::Session(step_call(v.name, steps[i as int])));
    if i + 1 < steps.len() {
        let next = work::CreationView { phase: work::CreationPhaseView::Step(i + 1), ..v };
        let rest = calls.skip(1);
        assert forall|k: int| 0 <= k < rest.len() implies went_well(#[trigger] rest[k]) by {
            assert(rest[k] == calls[k + 1]);
        }
        lemma_steps_go_well(next, i + 1, rest);
        assert(work::creation_next(v, calls[0]) == TurnView::Go(next));
        assert(work::creation_trace(v, calls) == seq![work::creation_action(v)]
            + work::creation_trace(next, rest));
        assert(work::creation_trace(v, calls) == wanted);
    } else {
        assert(work::creation_trace(v, calls) == seq![work::creation_action(v)] + Seq::<
            ActionView,
        >::empty());
        assert(work::creation_trace(v, calls) == wanted);
    }
}

/// A `create` that fails, in time, with words that say that the name is in
/// use ends the creation; any other failure is followed by a look for what
/// it left behind. Nothing else is done to a container of that name.
pub proof fn law_failed_create(
    name: Seq<char>,
    spec: args::SpecView,
    code: i32,
    status: Seq<char>,
    stdout: Seq<u8>,
    stderr: Seq<char>,
)
    requires
        code != 0 && code != 137 && code != 124,
    ensures
        ({
            let call = CallView::Ended { code: Some(code), status, stdout, stderr };
            let v = work::creation(name, spec);
            let taken = text::occurs(stderr, "container name"@) && text::occurs(
                stderr,
                "already in use"@,
            );
            let failed = error::said(
                "podman "@ + text::joined(args::create_argv(name, spec), " "@) + " failed: "@
                    + stderr,
            );
            &&& taken ==> work::creation_next(v, call) == TurnView::<work::CreationView>::Done(
                Some(failed),
            )
            &&& !taken ==> (work::creation_next(v, call) matches TurnView::Go(next)
                && work::creation_action(next) == ActionView::Run(seq!["inspect"@, name])
                && next.phase == (work::CreationPhaseView::Check { force: false, error: failed }))
        }),
{
}

/// A start or an init step that fails is followed by a look for the
/// container; the clean-up is then by force.
pub proof fn law_failed_init(v: work::CreationView, call: CallView)
    requires
        v.phase is Start || (v.phase matches work::CreationPhaseView::Step(i) && v.init matches Some(
            steps,
        ) && i < steps.len()),
        !went_well(call),
    ensures
        work::creation_next(v, call) matches TurnView::Go(next) && work::creation_action(next)
            == ActionView::Run(seq!["inspect"@, v.name])
            && (next.phase matches work::CreationPhaseView::Check { force, .. } && force),
{
}

/// What a failed creation left behind is removed: where the look finds a
/// container, its removal follows, by force if it was started; where it
/// finds none, or fails, the creation ends with the failure.
pub proof fn law_what_is_left_behind_is_removed(
    v: work::CreationView,
    force: bool,
    failed: error::Fault,
    look: CallView,
)
    requires
        v.phase == (work::CreationPhaseView::Check { force, error: failed }),
    ensures
        (calls::inspection(v.name, look) matches Ok(Some(_))) ==> (work::creation_next(v, look)
            matches TurnView::Go(next) && next.phase == (work::CreationPhaseView::RollBack {
            removal: work::removal(v.name, force),
            error: failed,
        })),
        !(calls::inspection(v.name, look) matches Ok(Some(_))) ==> work::creation_next(v, look)
            == TurnView::<work::CreationView>::Done(Some(failed)),
{
}

/// While it cleans up, a creation makes the calls of that removal, and
/// whatever comes of them, it ends with the failure that it cleans up
/// after.
pub proof fn law_clean_up_is_the_removal(
    v: work::CreationView,
    removal: work::RemovalView,
    failed: error::Fault,
    call: CallView,
)
    requires
        v.phase == (work::CreationPhaseView::RollBack { removal, error: failed }),
    ensures
        work::creation_action(v) == work::removal_action(removal),
        match work::removal_next(removal, call) {
            TurnView::Go(r) => work::creation_next(v, call) matches TurnView::Go(next)
                && next.phase == (work::CreationPhaseView::RollBack { removal: r, error: failed }),
            TurnView::Warn(r, w) => work::creation_next(v, call) matches TurnView::Warn(next, said)
                && said == w && next.phase == (work::CreationPhaseView::RollBack {
                removal: r,
                error: failed,
            }),
            TurnView::Done(_) => work::creation_next(v, call) == TurnView::<
                work::CreationView,
            >::Done(Some(failed)),
        },
{
}

// ---------------------------------------------------------------------
// The whole way
// ---------------------------------------------------------------------

/// On the way to a session, a command or a removal, the container is looked
/// at first, and left alone unless it is there and is a box.
pub proof fn law_only_boxes_are_visited(
    name: Seq<char>,
    task: visit::TaskView,
    set: Seq<Seq<char>>,
    look: CallView,
)
    ensures
        ({
            let v = visit::visit(name, task, set);
            &&& visit::next_action(v) == ActionView::Run(seq!["inspect"@, name])
            &&& match calls::inspection(name, look) {
                Err(e) => visit::next_turn(v, look) == TurnView::<visit::VisitView>::Done(Some(e)),
                Ok(None) => visit::next_turn(v, look) == TurnView::<visit::VisitView>::Done(
                    Some(error::said("box '"@ + name + "' does not exist"@)),
                ),
                Ok(Some(info)) => {
                    &&& info.marker is None ==> visit::next_turn(v, look) == TurnView::<
                        visit::VisitView,
                    >::Done(
                        Some(
                            error::said(
                                "'"@ + name + "' exists but is not a steelbx box (no "@
                                    + "com.github.simon3z.steelbx.box"@
                                    + " label) — refusing; it is not in steelbx's scope"@,
                            ),
                        ),
                    )
                    &&& info.marker is Some ==> !(visit::next_turn(v, look) is Done)
                },
            }
        }),
{
}

/// On a box, the work is the one that was asked for: a session or a command
/// with the names that are passed on, or the removal, with force only where
/// that was asked for.
pub proof fn law_visit_does_what_is_asked(
    name: Seq<char>,
    task: visit::TaskView,
    set: Seq<Seq<char>>,
    look: CallView,
    info: driver::InfoView,
)
    requires
        calls::inspection(name, look) == Ok::<Option<driver::InfoView>, error::Fault>(Some(info)),
        info.marker is Some,
    ensures
        ({
            let next = match visit::next_turn(visit::visit(name, task, set), look) {
                TurnView::Go(w) => w,
                TurnView::Warn(w, _) => w,
                TurnView::Done(_) => visit::visit(name, task, set),
            };
            next.stage == match task {
                visit::TaskView::Enter { env } => visit::StageView::Entry(
                    work::session(name, visit::passed_on(info.env, env, set)),
                ),
                visit::TaskView::Exec { env, command } => visit::StageView::Entry(
                    work::command(name, visit::passed_on(info.env, env, set), command),
                ),
                visit::TaskView::Remove { force } => visit::StageView::Removal(
                    work::removal(name, force),
                ),
            }
        }),
{
}

/// A session or a command tells, before it starts, which names are not set;
/// where all are set, and for a removal, nothing is told.
pub proof fn law_visit_tells_what_is_not_set(
    name: Seq<char>,
    task: visit::TaskView,
    set: Seq<Seq<char>>,
    look: CallView,
    info: driver::InfoView,
)
    requires
        calls::inspection(name, look) == Ok::<Option<driver::InfoView>, error::Fault>(Some(info)),
        info.marker is Some,
    ensures
        ({
            let unset = match task {
                visit::TaskView::Enter { env } => visit::left_alone(info.env, env, set),
                visit::TaskView::Exec { env, command } => visit::left_alone(info.env, env, set),
                visit::TaskView::Remove { force } => Seq::empty(),
            };
            let turn = visit::next_turn(visit::visit(name, task, set), look);
            &&& unset.len() == 0 ==> turn is Go
            &&& unset.len() > 0 ==> (turn matches TurnView::Warn(_, told) && told
                == "note: box '"@ + name + "' runtime env "@ + text::joined(unset, ", "@)
                + " not set (left unset this session)"@)
        }),
{
}

/// A new box is made only where the name is free: a container of that name,
/// in whatever state, ends the way.
pub proof fn law_taken_name_ends_the_way(
    v: new_box::NewBoxView,
    name: Seq<char>,
    spec: args::SpecView,
    look: CallView,
)
    requires
        v.phase == (new_box::PhaseView::Name { name, spec }),
    ensures
        new_box::next_action(v) == ActionView::Run(seq!["inspect"@, name]),
        match calls::inspection(name, look) {
            Ok(None) => new_box::next_turn(v, look) matches TurnView::Go(next)
                && new_box::next_action(next) == ActionView::Run(args::create_argv(name, spec)),
            Ok(Some(info)) => new_box::next_turn(v, look) == TurnView::<new_box::NewBoxView>::Done(
                Some(
                    error::said(
                        "box '"@ + name + "' already exists (state: "@ + (match info.state {
                            Some(state) => state,
                            None => "?"@,
                        }) + ")\nRemove it first: steelbx rm "@ + name,
                    ),
                ),
            ),
            Err(e) => new_box::next_turn(v, look) == TurnView::<new_box::NewBoxView>::Done(
                Some(e),
            ),
        },
{
}

/// Behind the look at the image, the way goes on with the name that the
/// command line gives, or else the image declares, or else the reference to
/// the image ends in, and with the box that the policy and the image
/// declare; a name that no box can have ends it.
pub proof fn law_image_decides_on_the_box(
    v: new_box::NewBoxView,
    look: CallView,
    meta: driver::MetaView,
    mounts: Seq<args::MountView>,
)
    requires
        v.phase is Image,
        calls::image_inspection(v.image, look) == Ok::<driver::MetaView, error::Fault>(meta),
        new_box::mounts_of(v, meta) == Ok::<Seq<args::MountView>, error::Fault>(mounts),
    ensures
        new_box::next_action(v) == ActionView::Run(seq!["image"@, "inspect"@, v.image]),
        ({
            let name = match v.flag {
                Some(n) => n,
                None => match meta.name {
                    Some(n) => n,
                    None => cli::name_of_image(v.image),
                },
            };
            &&& driver::valid_name(name) ==> (new_box::next_turn(v, look) matches TurnView::Go(next)
                && next.phase == (new_box::PhaseView::Name {
                name,
                spec: cli::full_spec(
                    v.cfg,
                    meta,
                    v.image,
                    cli::workdir_override(v.cfg),
                    mounts,
                ),
            }))
            &&& !driver::valid_name(name) ==> new_box::next_turn(v, look) == TurnView::<
                new_box::NewBoxView,
            >::Done(
                Some(
                    error::said(
                        "invalid box name: "@ + error::quoted(name) + " — pass -n <name>"@,
                    ),
                ),
            )
        }),
{
}

/// What fails in the initialization is told: the start with its cause, and
/// an init step with its verb, its position and how it ended.
pub proof fn law_failed_init_is_told(
    v: work::CreationView,
    call: CallView,
    i: nat,
    code: Option<i32>,
    status: Seq<char>,
    stdout: Seq<u8>,
    stderr: Seq<char>,
)
    requires
        call == (CallView::Ended { code, status, stdout, stderr }),
        code != Some(0i32),
    ensures
        v.phase is Start ==> (work::creation_next(v, call) matches TurnView::Go(next)
            && (next.phase matches work::CreationPhaseView::Check { error, .. } && error
            == error::under(
            "starting the box for init"@,
            calls::outcome(seq!["start"@, v.name], call)->Err_0,
        ))),
        v.phase == work::CreationPhaseView::Step(i) ==> (v.init matches Some(steps) ==> (i
            < steps.len() ==> (work::creation_next(v, call) matches TurnView::Go(next) && (
        next.phase matches work::CreationPhaseView::Check { error, .. } && error == error::said(
            (if steps[i as int] is Exec {
                "init.exec["@
            } else {
                "init.cp["@
            }) + text::decimal(i) + "]"@ + " exited: "@ + status,
        ))))),
{
}

/// The names that a session or a command passes on are those of the box and
/// then those of the command line, less those that are not set; the others
/// are left alone. Both stay in order.
pub proof fn law_names_are_passed_on_in_order(
    declared: Seq<Seq<char>>,
    env: Seq<Seq<char>>,
    set: Seq<Seq<char>>,
)
    ensures
        visit::passed_on(declared, env, set) == cli::asked_for(declared, env).filter(
            |n: Seq<char>| set.contains(n),
        ),
        visit::left_alone(declared, env, set) == cli::asked_for(declared, env).filter(
            |n: Seq<char>| !set.contains(n),
        ),
{
    let names = cli::asked_for(declared, env);
    let is_set = |n: Seq<char>| set.contains(n);
    cli::law_session_splits_the_names(declared, env, visit::are_set(names, set), is_set);
    assert(names.filter(|n: Seq<char>| !is_set(n)) == names.filter(
        |n: Seq<char>| !set.contains(n),
    )) by {
        assert((|n: Seq<char>| !is_set(n)) =~= (|n: Seq<char>| !set.contains(n)));
    }
}

/// Once the work on a box has begun, its calls and its end are those of the
/// entry or of the removal.
pub proof fn law_visit_follows_its_work(
    name: Seq<char>,
    entry: work::EntryView,
    removal: work::RemovalView,
    call: CallView,
)
    ensures
        ({
            let v = visit::VisitView { name, stage: visit::StageView::Entry(entry) };
            &&& visit::next_action(v) == work::entry_action(entry)
            &&& match work::entry_next(entry, call) {
                TurnView::Go(e) => visit::next_turn(v, call) matches TurnView::Go(w) && w.stage
                    == visit::StageView::Entry(e),
                TurnView::Warn(e, said) => visit::next_turn(v, call) matches TurnView::Warn(w, told)
                    && told == said && w.stage == visit::StageView::Entry(e),
                TurnView::Done(r) => visit::next_turn(v, call) == TurnView::<
                    visit::VisitView,
                >::Done(r),
            }
        }),
        ({
            let v = visit::VisitView { name, stage: visit::StageView::Removal(removal) };
            &&& visit::next_action(v) == work::removal_action(removal)
            &&& match work::removal_next(removal, call) {
                TurnView::Go(e) => visit::next_turn(v, call) matches TurnView::Go(w) && w.stage
                    == visit::StageView::Removal(e),
                TurnView::Warn(e, said) => visit::next_turn(v, call) matches TurnView::Warn(w, told)
                    && told == said && w.stage == visit::StageView::Removal(e),
                TurnView::Done(r) => visit::next_turn(v, call) == TurnView::<
                    visit::VisitView,
                >::Done(r),
            }
        }),
{
}

/// Once the creation of a new box has begun, its calls and its end are
/// those of the creation.
pub proof fn law_new_box_follows_its_creation(
    v: new_box::NewBoxView,
    name: Seq<char>,
    creation: work::CreationView,
    call: CallView,
)
    requires
        v.phase == (new_box::PhaseView::Create { name, creation }),
    ensures
        new_box::next_action(v) == work::creation_action(creation),
        match work::creation_next(creation, call) {
            TurnView::Go(c) => new_box::next_turn(v, call) matches TurnView::Go(w) && w.phase == (
            new_box::PhaseView::Create { name, creation: c }),
            TurnView::Warn(c, said) => new_box::next_turn(v, call) matches TurnView::Warn(w, told)
                && told == said && w.phase == (new_box::PhaseView::Create { name, creation: c }),
            TurnView::Done(r) => new_box::next_turn(v, call) == TurnView::<
                new_box::NewBoxView,
            >::Done(r),
        },
{
}

/// An image that cannot be looked at, or a mount that cannot be had, ends
/// the way to a new box with its error. The mounts land in the working
/// directory of the policy, else in that of the image, else in `/work`.
pub proof fn law_new_box_needs_its_image_and_mounts(
    v: new_box::NewBoxView,
    look: CallView,
    meta: driver::MetaView,
)
    requires
        v.phase is Image,
    ensures
        calls::image_inspection(v.image, look) matches Err(e) ==> new_box::next_turn(v, look)
            == TurnView::<new_box::NewBoxView>::Done(Some(e)),
        calls::image_inspection(v.image, look) == Ok::<driver::MetaView, error::Fault>(meta) ==> (
        new_box::mounts_of(v, meta) matches Err(e) ==> new_box::next_turn(v, look) == TurnView::<
            new_box::NewBoxView,
        >::Done(Some(e))),
        new_box::mounts_of(v, meta) == results::collected(
            v.hosts,
            validate::mount_of(
                match cli::workdir_override(v.cfg) {
                    Some(w) => w,
                    None => match meta.workdir {
                        Some(w) => w,
                        None => "/work"@,
                    },
                },
            ),
        ),
{
}

} // verus!

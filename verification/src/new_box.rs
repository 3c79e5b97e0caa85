//! The whole way to a new box: from a policy and a command line, over the
//! image and a look whether the name is free, to the creation.
//!
//! Like the work of the driver, this is a state that says which podman call
//! comes next, and a step from what came of the call.

use vstd::prelude::*;

use crate::cli;
use crate::cli::{
    box_name_from, create_layout, create_spec, refuse_existing, resolve_image,
};
use crate::config;
use crate::config::SteelbxConfig;
use crate::driver;
use crate::driver::args;
use crate::driver::args::CreateSpec;
use crate::driver::calls;
use crate::driver::calls::{image_inspect_args, inspect_args, Call};
use crate::driver::work;
use crate::driver::work::{Action, Creation, Turn};
use crate::driver::Podman;
use crate::error;
use crate::error::Error;
use crate::results;
use crate::text;
use crate::validate;
use crate::validate::HostPath;

verus! {

/// Where the way to a new box stands: which call comes next.
#[derive(Debug)]
enum Phase {
    /// Look at the image.
    Image,
    /// Look whether the name is taken.
    Name { name: String, spec: CreateSpec },
    /// Create the box.
    Create { name: String, creation: Creation },
}

/// The way to a new box.
#[derive(Debug)]
pub struct NewBox {
    cfg: SteelbxConfig,
    image: String,
    flag: Option<String>,
    hosts: Vec<HostPath>,
    phase: Phase,
}

/// Where the way to a new box stands, as text.
pub enum PhaseView {
    Image,
    Name { name: Seq<char>, spec: args::SpecView },
    Create { name: Seq<char>, creation: work::CreationView },
}

/// The way to a new box, as text.
pub struct NewBoxView {
    pub cfg: config::ConfigView,
    pub image: Seq<char>,
    pub flag: Option<Seq<char>>,
    pub hosts: Seq<validate::HostView>,
    pub phase: PhaseView,
}

impl View for NewBox {
    type V = NewBoxView;

    closed spec fn view(&self) -> NewBoxView {
        NewBoxView {
            cfg: self.cfg@,
            image: self.image@,
            flag: text::opt_text(self.flag),
            hosts: validate::host_views(self.hosts@),
            phase: match self.phase {
                Phase::Image => PhaseView::Image,
                Phase::Name { name, spec } => PhaseView::Name { name: name@, spec: spec@ },
                Phase::Create { name, creation } => PhaseView::Create {
                    name: name@,
                    creation: creation@,
                },
            },
        }
    }
}

/// The call that comes next.
pub open spec fn next_action(v: NewBoxView) -> work::ActionView {
    match v.phase {
        PhaseView::Image => work::ActionView::Run(calls::image_inspect_argv(v.image)),
        PhaseView::Name { name, spec } => work::ActionView::Run(calls::inspect_argv(name)),
        PhaseView::Create { name, creation } => work::creation_action(creation),
    }
}

/// The mounts of the host paths, under the layout of the image.
pub open spec fn mounts_of(v: NewBoxView, meta: driver::MetaView) -> Result<
    Seq<args::MountView>,
    error::Fault,
> {
    results::collected(v.hosts, validate::mount_of(cli::mount_base(v.cfg, meta)))
}

/// What follows the look at the image: the mounts, the name, and all that
/// the box is created from.
pub open spec fn after_image(v: NewBoxView, meta: driver::MetaView) -> work::TurnView<NewBoxView> {
    let name = cli::wanted_name(v.flag, v.image, meta);
    match mounts_of(v, meta) {
        Err(e) => work::TurnView::Done(Some(e)),
        Ok(mounts) => if !driver::valid_name(name) {
            work::TurnView::Done(Some(cli::invalid_box_name(name)))
        } else {
            work::TurnView::Go(
                NewBoxView {
                    phase: PhaseView::Name {
                        name,
                        spec: cli::full_spec(
                            v.cfg,
                            meta,
                            v.image,
                            cli::workdir_override(v.cfg),
                            mounts,
                        ),
                    },
                    ..v
                },
            )
        },
    }
}

/// The same way, with its creation at another point.
pub open spec fn with_creation(
    v: NewBoxView,
    name: Seq<char>,
    creation: work::CreationView,
) -> NewBoxView {
    NewBoxView { phase: PhaseView::Create { name, creation }, ..v }
}

/// What follows a call. The image must be local, the name must be one that
/// podman accepts, and it must be free: a new box never modifies one that
/// is there.
pub open spec fn next_turn(v: NewBoxView, call: calls::CallView) -> work::TurnView<NewBoxView> {
    match v.phase {
        PhaseView::Image => match calls::image_inspection(v.image, call) {
            Err(e) => work::TurnView::Done(Some(e)),
            Ok(meta) => after_image(v, meta),
        },
        PhaseView::Name { name, spec } => match calls::inspection(name, call) {
            Err(e) => work::TurnView::Done(Some(e)),
            Ok(Some(info)) => work::TurnView::Done(Some(cli::box_exists(name, info))),
            Ok(None) => work::TurnView::Go(with_creation(v, name, work::creation(name, spec))),
        },
        PhaseView::Create { name, creation } => match work::creation_next(creation, call) {
            work::TurnView::Go(c) => work::TurnView::Go(with_creation(v, name, c)),
            work::TurnView::Warn(c, w) => work::TurnView::Warn(with_creation(v, name, c), w),
            work::TurnView::Done(r) => work::TurnView::Done(r),
        },
    }
}

/// What follows a call, as text.
pub open spec fn turn_view(t: Turn<NewBox>) -> work::TurnView<NewBoxView> {
    match t {
        Turn::Go(s) => work::TurnView::Go(s@),
        Turn::Warn(s, w) => work::TurnView::Warn(s@, w@),
        Turn::Done(r) => work::TurnView::Done(error::fault(r)),
    }
}

impl NewBox {
    /// The way to a new box from the policy of a profile. The image and the
    /// name may be asked for; `hosts` are the host paths to mount. Without
    /// an image there is no box.
    pub fn start(
        cfg: SteelbxConfig,
        profile: &str,
        image: Option<&str>,
        box_name: Option<&str>,
        hosts: Vec<HostPath>,
    ) -> (r: Result<NewBox, Error>)
        ensures
            ({
                let wanted = match text::opt_str(image) {
                    Some(i) => Some(i),
                    None => cfg@.image,
                };
                match (wanted, r) {
                    (Some(i), Ok(b)) => b@ == (NewBoxView {
                        cfg: cfg@,
                        image: i,
                        flag: text::opt_str(box_name),
                        hosts: validate::host_views(hosts@),
                        phase: PhaseView::Image,
                    }),
                    (None, Err(e)) => e@ == cli::no_image(profile@),
                    _ => false,
                }
            }),
    {
        let image = match resolve_image(image, &cfg, profile) {
            Ok(image) => image.to_owned(),
            Err(e) => return Err(e),
        };
        let flag = match box_name {
            Some(name) => Some(name.to_owned()),
            None => None,
        };
        Ok(NewBox { cfg, image, flag, hosts, phase: Phase::Image })
    }

    /// The name of the box, once it is being created.
    pub fn name(&self) -> (r: Option<String>)
        ensures
            match self@.phase {
                PhaseView::Create { name, .. } => text::opt_text(r) == Some(name),
                _ => r is None,
            },
    {
        match &self.phase {
            Phase::Create { name, .. } => Some(name.clone()),
            _ => None,
        }
    }

    /// The call that comes next.
    pub fn action(&self) -> (r: Action)
        ensures
            r@ == next_action(self@),
    {
        match &self.phase {
            Phase::Image => Action::Run(image_inspect_args(self.image.as_str())),
            Phase::Name { name, .. } => Action::Run(inspect_args(name.as_str())),
            Phase::Create { creation, .. } => creation.action(),
        }
    }

    /// What follows the call.
    pub fn next(self, call: &Call) -> (r: Turn<NewBox>)
        ensures
            turn_view(r) == next_turn(self@, call@),
    {
        let NewBox { cfg, image, flag, hosts, phase } = self;
        match phase {
            Phase::Image => {
                let meta = match Podman.image_meta(image.as_str(), call) {
                    Ok(meta) => meta,
                    Err(e) => return Turn::Done(Err(e)),
                };
                let (workdir, mounts) = match create_layout(&cfg, &meta, &hosts) {
                    Ok(layout) => layout,
                    Err(e) => return Turn::Done(Err(e)),
                };
                let wanted = match &flag {
                    Some(name) => Some(name.as_str()),
                    None => None,
                };
                let name = match box_name_from(wanted, image.as_str(), &meta) {
                    Ok(name) => name,
                    Err(e) => return Turn::Done(Err(e)),
                };
                let spec = create_spec(&cfg, &meta, image.as_str(), workdir, mounts);
                Turn::Go(NewBox { cfg, image, flag, hosts, phase: Phase::Name { name, spec } })
            },
            Phase::Name { name, spec } => {
                let existing = match Podman.inspect(name.as_str(), call) {
                    Ok(existing) => existing,
                    Err(e) => return Turn::Done(Err(e)),
                };
                if let Err(e) = refuse_existing(name.as_str(), &existing) {
                    return Turn::Done(Err(e));
                }
                let creation = Podman.create(name.as_str(), &spec);
                Turn::Go(
                    NewBox { cfg, image, flag, hosts, phase: Phase::Create { name, creation } },
                )
            },
            Phase::Create { name, creation } => match creation.next(call) {
                Turn::Go(creation) => Turn::Go(
                    NewBox { cfg, image, flag, hosts, phase: Phase::Create { name, creation } },
                ),
                Turn::Warn(creation, warning) => Turn::Warn(
                    NewBox { cfg, image, flag, hosts, phase: Phase::Create { name, creation } },
                    warning,
                ),
                Turn::Done(r) => Turn::Done(r),
            },
        }
    }
}

// ---------------------------------------------------------------------
// Laws
// ---------------------------------------------------------------------

/// The calls on the way to a new box, where these are what comes of them.
pub open spec fn new_box_trace(v: NewBoxView, calls: Seq<calls::CallView>) -> Seq<
    work::ActionView,
>
    decreases calls.len(),
{
    if calls.len() == 0 {
        Seq::empty()
    } else {
        seq![next_action(v)] + match next_turn(v, calls[0]) {
            work::TurnView::Go(w) => new_box_trace(w, calls.skip(1)),
            work::TurnView::Warn(w, _) => new_box_trace(w, calls.skip(1)),
            work::TurnView::Done(_) => Seq::empty(),
        }
    }
}

/// A name that is taken ends the way: nothing is created, started or
/// removed, whatever the further calls would have brought.
pub proof fn law_existing_box_is_not_modified(
    v: NewBoxView,
    name: Seq<char>,
    spec: args::SpecView,
    calls: Seq<calls::CallView>,
)
    requires
        v.phase == (PhaseView::Name { name, spec }),
        calls.len() > 0,
        calls::inspection(name, calls[0]) matches Ok(Some(_)),
    ensures
        new_box_trace(v, calls) == seq![
            work::ActionView::Run(calls::inspect_argv(name)),
        ],
{
}

/// An image that is not local ends the way at its first call.
pub proof fn law_image_comes_first(v: NewBoxView, calls: Seq<calls::CallView>)
    requires
        v.phase is Image,
        calls.len() > 0,
        calls::image_inspection(v.image, calls[0]) is Err,
    ensures
        new_box_trace(v, calls) == seq![
            work::ActionView::Run(calls::image_inspect_argv(v.image)),
        ],
{
}

proof fn lemma_creating_is_creation(
    v: NewBoxView,
    name: Seq<char>,
    creation: work::CreationView,
    calls: Seq<calls::CallView>,
)
    requires
        v.phase == (PhaseView::Create { name, creation }),
    ensures
        new_box_trace(v, calls) == work::creation_trace(creation, calls),
    decreases calls.len(),
{
    if calls.len() > 0 {
        match work::creation_next(creation, calls[0]) {
            work::TurnView::Go(c) => {
                lemma_creating_is_creation(with_creation(v, name, c), name, c, calls.skip(1));
            },
            work::TurnView::Warn(c, _) => {
                lemma_creating_is_creation(with_creation(v, name, c), name, c, calls.skip(1));
            },
            work::TurnView::Done(_) => {},
        }
    }
}

/// Where the image is local, the mounts can be derived, and the name is
/// valid and free, the calls are a look at the image, a look for the name,
/// and those of the creation of the box from the policy on that layout.
pub proof fn law_new_box_is_created_from_policy_and_layout(
    v: NewBoxView,
    meta: driver::MetaView,
    calls: Seq<calls::CallView>,
)
    requires
        v.phase is Image,
        calls.len() >= 2,
        calls::image_inspection(v.image, calls[0]) == Ok::<driver::MetaView, error::Fault>(meta),
        mounts_of(v, meta) is Ok,
        driver::valid_name(cli::wanted_name(v.flag, v.image, meta)),
        calls::inspection(cli::wanted_name(v.flag, v.image, meta), calls[1]) == Ok::<
            Option<driver::InfoView>,
            error::Fault,
        >(None),
    ensures
        ({
            let name = cli::wanted_name(v.flag, v.image, meta);
            let spec = cli::full_spec(
                v.cfg,
                meta,
                v.image,
                cli::workdir_override(v.cfg),
                mounts_of(v, meta)->Ok_0,
            );
            new_box_trace(v, calls) == seq![
                work::ActionView::Run(calls::image_inspect_argv(v.image)),
                work::ActionView::Run(calls::inspect_argv(name)),
            ] + work::creation_trace(work::creation(name, spec), calls.skip(2))
        }),
{
    let name = cli::wanted_name(v.flag, v.image, meta);
    let spec = cli::full_spec(
        v.cfg,
        meta,
        v.image,
        cli::workdir_override(v.cfg),
        mounts_of(v, meta)->Ok_0,
    );
    let named = NewBoxView { phase: PhaseView::Name { name, spec }, ..v };
    let creating = with_creation(named, name, work::creation(name, spec));
    let rest = calls.skip(1);
    assert(rest[0] == calls[1]);
    assert(next_turn(v, calls[0]) == work::TurnView::Go(named));
    assert(next_turn(named, rest[0]) == work::TurnView::Go(creating));
    assert(rest.skip(1) == calls.skip(2));
    lemma_creating_is_creation(creating, name, work::creation(name, spec), calls.skip(2));
    assert(new_box_trace(named, rest) == seq![next_action(named)] + new_box_trace(
        creating,
        rest.skip(1),
    ));
}

} // verus!

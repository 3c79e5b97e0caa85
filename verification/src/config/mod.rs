//! The policy configuration: the schema of a profile, the expansion of its
//! values, and their shape.
//!
//! A profile is one complete file; profiles are not merged. Its string
//! values may refer to variables. The variables come in layers: the
//! caller's environment, the variables of the `env_files`, and the `[env]`
//! of the profile, where a later layer hides an earlier one. The values of
//! the `env_files` expand against the caller's environment alone, those of
//! `[env]` against the first two layers (so they do not see each other),
//! and all others against the three.

pub mod layers;
pub mod profiles;
pub mod shape;

use indexmap::IndexMap;
use vstd::prelude::*;

use crate::driver::args;
use crate::driver::args::{copy_init, Init};
use crate::table;
use crate::table::{new_table, table_clone};
use crate::text;

pub use crate::config::layers::{
    env_file_path, expand_with, load_env_files_env, parse_env_file, EnvFile,
};
pub use crate::config::profiles::{
    config_dir_path, data_dir, profile_file, profiles_dir, system_profiles_dir, Listing,
};
pub use crate::config::shape::cp_sources;

verus! {

// ---------------------------------------------------------------------
// The schema
// ---------------------------------------------------------------------

/// The policy of a profile. An absent key leaves podman's default.
#[derive(Debug)]
pub struct SteelbxConfig {
    /// The image, which must be local.
    pub image: Option<String>,
    /// The network; absent or empty, podman's default.
    pub network: Option<String>,
    /// Host entries, `name:address`.
    pub extra_hosts: Vec<String>,
    /// The environment of the box, in order; the only one that the box is
    /// created with.
    pub env: IndexMap<String, String>,
    /// Files of `KEY=VALUE` lines; their variables can be referred to, but
    /// are not passed to the box.
    pub env_files: Vec<String>,
    /// The names, not the values, of the variables that each session takes
    /// from the caller.
    pub runtime_env: Vec<String>,
    /// Security options, `key=value`.
    pub security_opts: Vec<String>,
    /// Mount specifications for podman, besides the derived bind mounts.
    pub mounts: Vec<String>,
    pub cgroupns: Option<String>,
    pub ipc: Option<String>,
    pub pid: Option<String>,
    pub userns: Option<String>,
    /// The user of the box; absent, the image's own.
    pub user: Option<String>,
    pub privileged: bool,
    pub no_hosts: bool,
    pub ulimits: Vec<String>,
    /// The main command; empty, the image's declared command or the
    /// heartbeat.
    pub entry: Vec<String>,
    /// The path inside the box under which the derived mounts land.
    pub workdir: Option<String>,
    /// The steps that run right after the box is created.
    pub init: Option<Init>,
}

/// A policy, as text.
#[verifier::ext_equal]
pub struct ConfigView {
    pub image: Option<Seq<char>>,
    pub network: Option<Seq<char>>,
    pub extra_hosts: Seq<Seq<char>>,
    pub env: Seq<(Seq<char>, Seq<char>)>,
    pub env_files: Seq<Seq<char>>,
    pub runtime_env: Seq<Seq<char>>,
    pub security_opts: Seq<Seq<char>>,
    pub mounts: Seq<Seq<char>>,
    pub cgroupns: Option<Seq<char>>,
    pub ipc: Option<Seq<char>>,
    pub pid: Option<Seq<char>>,
    pub userns: Option<Seq<char>>,
    pub user: Option<Seq<char>>,
    pub privileged: bool,
    pub no_hosts: bool,
    pub ulimits: Seq<Seq<char>>,
    pub entry: Seq<Seq<char>>,
    pub workdir: Option<Seq<char>>,
    pub init: Option<Seq<args::StepView>>,
}

impl View for SteelbxConfig {
    type V = ConfigView;

    open spec fn view(&self) -> ConfigView {
        ConfigView {
            image: text::opt_text(self.image),
            network: text::opt_text(self.network),
            extra_hosts: text::texts(self.extra_hosts@),
            env: table::entries(self.env),
            env_files: text::texts(self.env_files@),
            runtime_env: text::texts(self.runtime_env@),
            security_opts: text::texts(self.security_opts@),
            mounts: text::texts(self.mounts@),
            cgroupns: text::opt_text(self.cgroupns),
            ipc: text::opt_text(self.ipc),
            pid: text::opt_text(self.pid),
            userns: text::opt_text(self.userns),
            user: text::opt_text(self.user),
            privileged: self.privileged,
            no_hosts: self.no_hosts,
            ulimits: text::texts(self.ulimits@),
            entry: text::texts(self.entry@),
            workdir: text::opt_text(self.workdir),
            init: args::opt_steps(self.init),
        }
    }
}

/// The policy that declares nothing.
pub open spec fn no_policy() -> ConfigView {
    ConfigView {
        image: None,
        network: None,
        extra_hosts: Seq::empty(),
        env: Seq::empty(),
        env_files: Seq::empty(),
        runtime_env: Seq::empty(),
        security_opts: Seq::empty(),
        mounts: Seq::empty(),
        cgroupns: None,
        ipc: None,
        pid: None,
        userns: None,
        user: None,
        privileged: false,
        no_hosts: false,
        ulimits: Seq::empty(),
        entry: Seq::empty(),
        workdir: None,
        init: None,
    }
}

impl Default for SteelbxConfig {
    fn default() -> (r: SteelbxConfig)
        ensures
            r@ == no_policy(),
    {
        let r = SteelbxConfig {
            image: None,
            network: None,
            extra_hosts: Vec::new(),
            env: new_table(),
            env_files: Vec::new(),
            runtime_env: Vec::new(),
            security_opts: Vec::new(),
            mounts: Vec::new(),
            cgroupns: None,
            ipc: None,
            pid: None,
            userns: None,
            user: None,
            privileged: false,
            no_hosts: false,
            ulimits: Vec::new(),
            entry: Vec::new(),
            workdir: None,
            init: None,
        };
        proof {
            assert(r@ =~= no_policy());
        }
        r
    }
}

impl Clone for SteelbxConfig {
    fn clone(&self) -> (r: SteelbxConfig)
        ensures
            r@ == self@,
    {
        SteelbxConfig {
            image: self.image.clone(),
            network: self.network.clone(),
            extra_hosts: self.extra_hosts.clone(),
            env: table_clone(&self.env),
            env_files: self.env_files.clone(),
            runtime_env: self.runtime_env.clone(),
            security_opts: self.security_opts.clone(),
            mounts: self.mounts.clone(),
            cgroupns: self.cgroupns.clone(),
            ipc: self.ipc.clone(),
            pid: self.pid.clone(),
            userns: self.userns.clone(),
            user: self.user.clone(),
            privileged: self.privileged,
            no_hosts: self.no_hosts,
            ulimits: self.ulimits.clone(),
            entry: self.entry.clone(),
            workdir: self.workdir.clone(),
            init: copy_init(&self.init),
        }
    }
}

} // verus!

//! The shape checks: the single point where values of a profile and of the
//! command line are accepted or refused.
//!
//! Every check looks at shape alone; what a value means is podman's to
//! decide.

use indexmap::IndexMap;
use vstd::prelude::*;
use vstd::string::*;

use crate::driver::args;
use crate::driver::args::Mount;
use crate::error;
use crate::error::{failure, failure_under, quote, Error};
use crate::paths;
use crate::paths::{expand_tilde, file_name};
use crate::results;
use crate::table;
use crate::table::{table_at, table_len};
use crate::text;
use crate::text::{chars_of, has_char, split_once, trim, trim_end, word};

verus! {

// ---------------------------------------------------------------------
// What the checks accept, and the messages of what they refuse
// ---------------------------------------------------------------------

/// A variable name: one or more of `[A-Za-z0-9_]`.
pub open spec fn valid_env_name(name: Seq<char>) -> bool {
    name.len() > 0 && forall|i: int| 0 <= i < name.len() ==> text::is_word(#[trigger] name[i])
}

/// A value that is one token: not blank, and without a space.
pub open spec fn single_token(value: Seq<char>) -> bool {
    text::trimmed(value).len() > 0 && !value.contains(' ')
}

/// The two sides of the first `c` are not blank, and there is no space.
pub open spec fn is_pair(value: Seq<char>, c: char) -> bool {
    match text::cut(value, c) {
        Some((a, b)) => {
            &&& text::trimmed(a).len() > 0
            &&& text::trimmed(b).len() > 0
            &&& !value.contains(' ')
        },
        None => false,
    }
}

/// The complaint about a mount specification, if there is one.
pub open spec fn mount_spec_fault(spec: Seq<char>) -> Option<error::Fault> {
    if single_token(spec) {
        None
    } else {
        Some(
            error::said(
                "mounts: "@ + error::quoted(spec)
                    + " must be a podman --mount spec (no spaces)"@,
            ),
        )
    }
}

/// The complaint about a namespace or identity value, if there is one.
pub open spec fn ns_value_fault(field: Seq<char>, value: Seq<char>) -> Option<error::Fault> {
    if single_token(value) {
        None
    } else {
        Some(
            error::said(
                field + ": "@ + error::quoted(value) + " must be a single token (no spaces)"@,
            ),
        )
    }
}

/// The complaint about the name of an `[env]` variable, if there is one.
pub open spec fn env_name_fault(name: Seq<char>) -> Option<error::Fault> {
    if valid_env_name(name) {
        None
    } else {
        Some(
            error::said(
                "env: "@ + error::quoted(name)
                    + " is not a valid variable name ([A-Za-z0-9_] only)"@,
            ),
        )
    }
}

/// The complaint about a security option, if there is one.
pub open spec fn security_opt_fault(opt: Seq<char>) -> Option<error::Fault> {
    if is_pair(opt, '=') {
        None
    } else if text::cut(opt, '=') is None {
        Some(error::said("security_opts: "@ + error::quoted(opt) + " must be 'key=value'"@))
    } else {
        Some(
            error::said(
                "security_opts: "@ + error::quoted(opt) + " must be 'key=value' (no spaces)"@,
            ),
        )
    }
}

/// The complaint about a host entry, if there is one.
pub open spec fn extra_host_fault(host: Seq<char>) -> Option<error::Fault> {
    if is_pair(host, ':') {
        None
    } else if text::cut(host, ':') is None {
        Some(error::said("extra_hosts: "@ + error::quoted(host) + " must be 'name:address'"@))
    } else {
        Some(
            error::said(
                "extra_hosts: "@ + error::quoted(host) + " must be 'name:address' (no spaces)"@,
            ),
        )
    }
}

/// The complaint about a `-e` name of the command line, if there is one.
pub open spec fn cli_env_fault(name: Seq<char>) -> Option<error::Fault> {
    if valid_env_name(name) {
        None
    } else {
        Some(
            error::said(
                "-e: "@ + error::quoted(name)
                    + " is not a valid variable name (bare names only)"@,
            ),
        )
    }
}

/// The complaint about the first of the mount specifications that is not accepted.
pub open spec fn mount_specs_fault(specs: Seq<Seq<char>>) -> Option<error::Fault> {
    results::first_fault(specs, |s: Seq<char>| mount_spec_fault(s))
}

/// The complaint about the first of the security options that is not accepted.
pub open spec fn security_opts_fault(opts: Seq<Seq<char>>) -> Option<error::Fault> {
    results::first_fault(opts, |o: Seq<char>| security_opt_fault(o))
}

/// The complaint about the first of the host entries that is not accepted.
pub open spec fn extra_hosts_fault(hosts: Seq<Seq<char>>) -> Option<error::Fault> {
    results::first_fault(hosts, |h: Seq<char>| extra_host_fault(h))
}

/// The complaint about the first of the `-e` names that is not accepted.
pub open spec fn cli_names_fault(names: Seq<Seq<char>>) -> Option<error::Fault> {
    results::first_fault(names, |n: Seq<char>| cli_env_fault(n))
}

/// The complaint about the first of the names of `[env]` that is not accepted.
pub open spec fn env_names_fault(names: Seq<Seq<char>>) -> Option<error::Fault> {
    results::first_fault(names, |k: Seq<char>| env_name_fault(k))
}

/// The keys of a table's pairs.
pub open spec fn keys(pairs: Seq<(Seq<char>, Seq<char>)>) -> Seq<Seq<char>> {
    pairs.map_values(|p: (Seq<char>, Seq<char>)| p.0)
}

// ---------------------------------------------------------------------
// The checks
// ---------------------------------------------------------------------

/// Whether the text is a variable name: one or more of `[A-Za-z0-9_]`.
pub fn is_valid_env_name(k: &str) -> (r: bool)
    ensures
        r == valid_env_name(k@),
{
    let cs = chars_of(k);
    let mut i: usize = 0;
    while i < cs.len()
        invariant
            i <= cs@.len(),
            cs@ == k@,
            forall|j: int| 0 <= j < i ==> text::is_word(#[trigger] cs@[j]),
        decreases cs.len() - i,
    {
        if !word(cs[i]) {
            return false;
        }
        i += 1;
    }
    cs.len() > 0
}

/// Whether the value is one token.
fn is_single_token(value: &str) -> (r: bool)
    ensures
        r == single_token(value@),
{
    !trim(value).as_str().is_empty() && !has_char(value, ' ')
}

/// Mount specifications: not blank, and without spaces.
pub fn validate_mount_specs(specs: &[String]) -> (r: Result<(), Error>)
    ensures
        error::fault(r) == mount_specs_fault(text::texts(specs@)),
{
    let ghost all = text::texts(specs@);
    let mut i: usize = 0;
    proof {
        assert(all.skip(0) == all);
    }
    while i < specs.len()
        invariant
            i <= specs@.len(),
            all == text::texts(specs@),
            mount_specs_fault(all) == mount_specs_fault(all.skip(i as int)),
        decreases specs.len() - i,
    {
        proof {
            assert(all.skip(i as int)[0] == specs@[i as int]@);
            assert(all.skip(i as int).skip(1) == all.skip(i + 1));
        }
        let s = specs[i].as_str();
        if !is_single_token(s) {
            return Err(
                failure(
                    "mounts: ".to_owned().concat(quote(s).as_str()).concat(
                        " must be a podman --mount spec (no spaces)",
                    ),
                ),
            );
        }
        i += 1;
    }
    Ok(())
}

/// A namespace or identity value: a single token.
pub fn validate_ns_value(field: &str, value: &str) -> (r: Result<(), Error>)
    ensures
        error::fault(r) == ns_value_fault(field@, value@),
{
    if !is_single_token(value) {
        return Err(
            failure(
                field.to_owned().concat(": ").concat(quote(value).as_str()).concat(
                    " must be a single token (no spaces)",
                ),
            ),
        );
    }
    Ok(())
}

/// The names of `[env]`: variable names. The values are free.
pub fn validate_env(env: &IndexMap<String, String>) -> (r: Result<(), Error>)
    ensures
        error::fault(r) == env_names_fault(keys(table::entries(*env))),
{
    let ghost all = keys(table::entries(*env));
    let n = table_len(env);
    let mut i: usize = 0;
    proof {
        assert(all.skip(0) == all);
    }
    while i < n
        invariant
            i <= n,
            n == table::entries(*env).len(),
            all == keys(table::entries(*env)),
            env_names_fault(all) == env_names_fault(all.skip(i as int)),
        decreases n - i,
    {
        proof {
            assert(all.skip(i as int)[0] == table::entries(*env)[i as int].0);
            assert(all.skip(i as int).skip(1) == all.skip(i + 1));
        }
        if let Some((k, _)) = table_at(env, i) {
            if !is_valid_env_name(k.as_str()) {
                return Err(
                    failure(
                        "env: ".to_owned().concat(quote(k.as_str()).as_str()).concat(
                            " is not a valid variable name ([A-Za-z0-9_] only)",
                        ),
                    ),
                );
            }
        }
        i += 1;
    }
    Ok(())
}

/// Whether the value has something on both sides of the first `c` and no
/// space; `None` if it has no `c`.
fn pair_shape(value: &str, c: char) -> (r: Option<bool>)
    ensures
        match r {
            Some(ok) => text::cut(value@, c) is Some && ok == is_pair(value@, c),
            None => text::cut(value@, c) is None,
        },
{
    match split_once(value, c) {
        None => None,
        Some((a, b)) => Some(
            !trim(a.as_str()).as_str().is_empty() && !trim(b.as_str()).as_str().is_empty()
                && !has_char(value, ' '),
        ),
    }
}

/// Security options: `key=value`, without spaces.
pub fn validate_security_opts(opts: &[String]) -> (r: Result<(), Error>)
    ensures
        error::fault(r) == security_opts_fault(text::texts(opts@)),
{
    let ghost all = text::texts(opts@);
    let mut i: usize = 0;
    proof {
        assert(all.skip(0) == all);
    }
    while i < opts.len()
        invariant
            i <= opts@.len(),
            all == text::texts(opts@),
            security_opts_fault(all) == security_opts_fault(all.skip(i as int)),
        decreases opts.len() - i,
    {
        proof {
            assert(all.skip(i as int)[0] == opts@[i as int]@);
            assert(all.skip(i as int).skip(1) == all.skip(i + 1));
        }
        let o = opts[i].as_str();
        match pair_shape(o, '=') {
            None => {
                return Err(
                    failure(
                        "security_opts: ".to_owned().concat(quote(o).as_str()).concat(
                            " must be 'key=value'",
                        ),
                    ),
                );
            },
            Some(ok) => {
                if !ok {
                    return Err(
                        failure(
                            "security_opts: ".to_owned().concat(quote(o).as_str()).concat(
                                " must be 'key=value' (no spaces)",
                            ),
                        ),
                    );
                }
            },
        }
        i += 1;
    }
    Ok(())
}

/// Host entries: `name:address`, without spaces.
pub fn validate_extra_hosts(extra_hosts: &[String]) -> (r: Result<(), Error>)
    ensures
        error::fault(r) == extra_hosts_fault(text::texts(extra_hosts@)),
{
    let ghost all = text::texts(extra_hosts@);
    let mut i: usize = 0;
    proof {
        assert(all.skip(0) == all);
    }
    while i < extra_hosts.len()
        invariant
            i <= extra_hosts@.len(),
            all == text::texts(extra_hosts@),
            extra_hosts_fault(all) == extra_hosts_fault(all.skip(i as int)),
        decreases extra_hosts.len() - i,
    {
        proof {
            assert(all.skip(i as int)[0] == extra_hosts@[i as int]@);
            assert(all.skip(i as int).skip(1) == all.skip(i + 1));
        }
        let h = extra_hosts[i].as_str();
        match pair_shape(h, ':') {
            None => {
                return Err(
                    failure(
                        "extra_hosts: ".to_owned().concat(quote(h).as_str()).concat(
                            " must be 'name:address'",
                        ),
                    ),
                );
            },
            Some(ok) => {
                if !ok {
                    return Err(
                        failure(
                            "extra_hosts: ".to_owned().concat(quote(h).as_str()).concat(
                                " must be 'name:address' (no spaces)",
                            ),
                        ),
                    );
                }
            },
        }
        i += 1;
    }
    Ok(())
}

/// The `-e` names of the command line: bare variable names. A
/// `NAME=VALUE` is refused: a value on the command line is a value in the
/// process list.
pub fn validate_cli_env(env: &[String]) -> (r: Result<(), Error>)
    ensures
        error::fault(r) == cli_names_fault(text::texts(env@)),
{
    let ghost all = text::texts(env@);
    let mut i: usize = 0;
    proof {
        assert(all.skip(0) == all);
    }
    while i < env.len()
        invariant
            i <= env@.len(),
            all == text::texts(env@),
            cli_names_fault(all) == cli_names_fault(all.skip(i as int)),
        decreases env.len() - i,
    {
        proof {
            assert(all.skip(i as int)[0] == env@[i as int]@);
            assert(all.skip(i as int).skip(1) == all.skip(i + 1));
        }
        let n = env[i].as_str();
        if !is_valid_env_name(n) {
            return Err(
                failure(
                    "-e: ".to_owned().concat(quote(n).as_str()).concat(
                        " is not a valid variable name (bare names only)",
                    ),
                ),
            );
        }
        i += 1;
    }
    Ok(())
}

// ---------------------------------------------------------------------
// Host paths
// ---------------------------------------------------------------------

/// The message about a path that does not resolve, for this reason.
pub open spec fn unresolved(path: Seq<char>, why: Seq<char>) -> error::Fault {
    error::under("resolving path '"@ + path + "'"@, error::said(why))
}

/// The error about a path that does not resolve.
pub fn no_resolution(path: &str, why: &str) -> (e: Error)
    ensures
        e@ == unresolved(path@, why@),
{
    failure_under(
        "resolving path '".to_owned().concat(path).concat("'"),
        failure(why.to_owned()),
    )
}

/// The message about a path without a final component.
pub open spec fn no_base_name(path: Seq<char>) -> error::Fault {
    error::said("cannot derive a mount name from '"@ + path + "' (no basename)"@)
}

/// What a path of the host resolves to: on a remote host, which cannot be
/// looked at, the path with its `~` expanded; else what was found there.
pub open spec fn resolution(
    path: Seq<char>,
    home: Seq<char>,
    remote: bool,
    found: Result<Seq<char>, Seq<char>>,
) -> Result<Seq<char>, error::Fault> {
    if remote {
        Ok(paths::tilde_expanded(path, home))
    } else {
        match found {
            Ok(at) => Ok(at),
            Err(why) => Err(unresolved(path, why)),
        }
    }
}

/// What was found, or why nothing was, as text.
pub open spec fn found_view(r: Result<String, String>) -> Result<Seq<char>, Seq<char>> {
    match r {
        Ok(s) => Ok(s@),
        Err(why) => Err(why@),
    }
}

/// Resolves a path of the host. `found` is the real path of what stands at
/// `expand_tilde(path, home)`, or why there is none.
pub fn canonicalize(path: &str, home: &str, remote: bool, found: Result<String, String>) -> (r:
    Result<String, Error>)
    ensures
        match r {
            Ok(s) => resolution(path@, home@, remote, found_view(found)) == Ok::<
                Seq<char>,
                error::Fault,
            >(s@),
            Err(e) => resolution(path@, home@, remote, found_view(found)) == Err::<
                Seq<char>,
                error::Fault,
            >(e@),
        },
{
    if remote {
        return Ok(expand_tilde(path, home));
    }
    match found {
        Ok(at) => Ok(at),
        Err(why) => Err(no_resolution(path, why.as_str())),
    }
}

/// What a path of the host resolves to.
#[derive(Debug)]
pub enum Resolved {
    /// Nothing, for this reason.
    Nothing(String),
    /// Something whose final component is no text.
    Nameless,
    /// This path.
    At(String),
}

/// What a path of the host resolves to, as text.
pub enum ResolvedView {
    Nothing(Seq<char>),
    Nameless,
    At(Seq<char>),
}

impl View for Resolved {
    type V = ResolvedView;

    open spec fn view(&self) -> ResolvedView {
        match self {
            Resolved::Nothing(why) => ResolvedView::Nothing(why@),
            Resolved::Nameless => ResolvedView::Nameless,
            Resolved::At(path) => ResolvedView::At(path@),
        }
    }
}

/// A path of the host: as it was given, and what it resolves to.
#[derive(Debug)]
pub struct HostPath {
    pub given: String,
    pub resolved: Resolved,
}

/// A path of the host, as text.
pub type HostView = (Seq<char>, ResolvedView);

impl View for HostPath {
    type V = HostView;

    open spec fn view(&self) -> HostView {
        (self.given@, self.resolved@)
    }
}

/// The paths of the host, as text.
pub open spec fn host_views(v: Seq<HostPath>) -> Seq<HostView> {
    v.map_values(|p: HostPath| p@)
}

/// Where a host path with this final component appears in the box.
pub open spec fn mount_dest(workdir: Seq<char>, base: Seq<char>) -> Seq<char> {
    text::trim_back(workdir, text::only('/')) + "/"@ + base
}

/// The mount of a host path: its final component under the working
/// directory.
pub open spec fn mount_of(workdir: Seq<char>) -> spec_fn(int, HostView) -> Result<
    args::MountView,
    error::Fault,
> {
    |i: int, p: HostView|
        match p.1 {
            ResolvedView::Nothing(why) => Err(unresolved(p.0, why)),
            ResolvedView::Nameless => Err(no_base_name(p.0)),
            ResolvedView::At(host) => match paths::base_name(host) {
                None => Err(no_base_name(p.0)),
                Some(base) => Ok((host, mount_dest(workdir, base))),
            },
        }
}

/// The error about a path without a final component.
fn no_mount_name(path: &str) -> (e: Error)
    ensures
        e@ == no_base_name(path@),
{
    failure(
        "cannot derive a mount name from '".to_owned().concat(path).concat("' (no basename)"),
    )
}

/// The mounts of the host paths: each appears at `<workdir>/<basename>`. A
/// path that does not resolve or has no final component is an error.
pub fn derive_mounts(paths: &[HostPath], workdir: &str) -> (r: Result<Vec<Mount>, Error>)
    ensures
        match r {
            Ok(v) => results::collected(host_views(paths@), mount_of(workdir@)) == Ok::<
                Seq<args::MountView>,
                error::Fault,
            >(args::mount_views(v@)),
            Err(e) => results::collected(host_views(paths@), mount_of(workdir@)) == Err::<
                Seq<args::MountView>,
                error::Fault,
            >(e@),
        },
{
    let ghost all = host_views(paths@);
    let ghost f = mount_of(workdir@);
    let mut out: Vec<Mount> = Vec::new();
    let mut i: usize = 0;
    proof {
        assert(all.take(0) == Seq::<HostView>::empty());
        assert(args::mount_views(out@) == Seq::<args::MountView>::empty());
    }
    while i < paths.len()
        invariant
            i <= paths@.len(),
            all == host_views(paths@),
            f == mount_of(workdir@),
            results::collected(all.take(i as int), f) == Ok::<Seq<args::MountView>, error::Fault>(
                args::mount_views(out@),
            ),
        decreases paths.len() - i,
    {
        proof {
            results::lemma_collected_next(all, f, i as int);
            assert(all[i as int] == paths@[i as int]@);
        }
        let given = paths[i].given.as_str();
        let host = match &paths[i].resolved {
            Resolved::At(host) => host,
            Resolved::Nothing(why) => {
                return Err(no_resolution(given, why.as_str()));
            },
            Resolved::Nameless => {
                return Err(no_mount_name(given));
            },
        };
        let base = match file_name(host.as_str()) {
            Some(base) => base,
            None => {
                return Err(no_mount_name(given));
            },
        };
        let m = Mount {
            host: host.clone(),
            dest: trim_end(workdir, '/').concat("/").concat(base.as_str()),
        };
        let ghost before = args::mount_views(out@);
        out.push(m);
        proof {
            assert(args::mount_views(out@) == before.push(m@));
        }
        i += 1;
    }
    proof {
        assert(all.take(i as int) == all);
    }
    Ok(out)
}

// ---------------------------------------------------------------------
// Laws
// ---------------------------------------------------------------------

/// Derived mounts stand one to one for the host paths, in their order.
/// Each one shows what the path resolves to, under the final component of
/// that, directly below the working directory.
pub proof fn law_mounts_land_below_the_workdir(hosts: Seq<HostView>, workdir: Seq<char>, i: int)
    requires
        results::collected(hosts, mount_of(workdir)) is Ok,
        0 <= i < hosts.len(),
    ensures
        ({
            let mounts = results::collected(hosts, mount_of(workdir))->Ok_0;
            let base = mounts[i].1.skip(
                text::trim_back(workdir, text::only('/')).len() as int + 1,
            );
            &&& mounts.len() == hosts.len()
            &&& hosts[i].1 == ResolvedView::At(mounts[i].0)
            &&& paths::base_name(mounts[i].0) == Some(base)
            &&& mounts[i].1 == text::trim_back(workdir, text::only('/')) + "/"@ + base
            &&& base.len() > 0
            &&& !base.contains('/')
        }),
{
    results::lemma_collected_items(hosts, mount_of(workdir));
    let mounts = results::collected(hosts, mount_of(workdir))->Ok_0;
    let front = text::trim_back(workdir, text::only('/'));
    assert(mount_of(workdir)(i, hosts[i]) == Ok::<args::MountView, error::Fault>(mounts[i]));
    let base = paths::base_name(mounts[i].0)->Some_0;
    paths::lemma_base_name(mounts[i].0);
    reveal_strlit("/");
    assert((front + "/"@ + base).skip(front.len() as int + 1) == base);
}

/// A name of the command line that brings a value along is refused,
/// wherever it stands among the names.
pub proof fn law_values_on_the_command_line_are_refused(names: Seq<Seq<char>>, i: int)
    requires
        0 <= i < names.len(),
        names[i].contains('='),
    ensures
        cli_names_fault(names) is Some,
{
    let k = choose|k: int| 0 <= k < names[i].len() && names[i][k] == '=';
    assert(!text::is_word(names[i][k]));
    assert(cli_env_fault(names[i]) is Some);
    results::lemma_no_fault(names, |n: Seq<char>| cli_env_fault(n));
}

} // verus!

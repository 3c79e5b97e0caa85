//! What the commands decide on: images, names, directories, mounts,
//! variables, versions and lists.

use vstd::prelude::*;

use crate::cli;
use crate::config;
use crate::config::profiles;
use crate::driver;
use crate::driver::args;
use crate::driver::parse;
use crate::error;
use crate::expand;
use crate::laws::expansion;
use crate::laws::words;
use crate::lists;
use crate::order;
use crate::paths;
use crate::results;
use crate::text;
use crate::validate;
use crate::vars;

verus! {

// ---------------------------------------------------------------------
// A new box
// ---------------------------------------------------------------------

/// The text is made of `/` alone, or empty.
pub open spec fn slashes(s: Seq<char>) -> bool {
    forall|i: int| 0 <= i < s.len() ==> #[trigger] s[i] == '/'
}

proof fn lemma_slashes(dir: Seq<char>, end: Seq<char>)
    requires
        slashes(end),
        dir.len() > 0 ==> dir.last() != '/',
    ensures
        text::trim_back(dir + end, text::only('/')) == dir,
{
    let whole = dir + end;
    assert forall|j: int| dir.len() <= j < whole.len() implies text::only('/')(
        #[trigger] whole[j],
    ) by {
        assert(whole[j] == end[j - dir.len()]);
    }
    if dir.len() > 0 {
        assert(whole[dir.len() - 1] == dir.last());
    }
    text::lemma_trim_back_is(whole, text::only('/'), dir.len());
    assert(whole.take(dir.len() as int) == dir);
}

/// The working directory of the policy comes first, without the slashes at
/// its end, and is also set for the box. Without one, the mounts land in
/// that of the image, and else in `/work`; for the box none is set.
pub proof fn law_working_directory(
    c: config::ConfigView,
    meta: driver::MetaView,
    dir: Seq<char>,
    end: Seq<char>,
)
    requires
        slashes(end),
        dir.len() > 0 ==> dir.last() != '/',
    ensures
        c.workdir == Some(dir + end) && dir.len() > 0 ==> cli::workdir_override(c) == Some(dir)
            && cli::mount_base(c, meta) == dir,
        c.workdir == Some(end) && end.len() > 0 ==> cli::workdir_override(c) == Some("/"@)
            && cli::mount_base(c, meta) == "/"@,
        c.workdir is None || c.workdir == Some(Seq::<char>::empty()) ==> cli::workdir_override(
            c,
        ) is None && cli::mount_base(c, meta) == match meta.workdir {
            Some(w) => w,
            None => "/work"@,
        },
{
    let nothing = Seq::<char>::empty();
    lemma_slashes(dir, end);
    lemma_slashes(nothing, end);
    assert(nothing + end == end);
    lemma_slashes(nothing, nothing);
    assert(nothing + nothing == nothing);
}

/// Every host path is mounted, under its own final component, below the
/// working directory.
pub proof fn law_host_paths_are_mounted(
    hosts: Seq<validate::HostView>,
    dir: Seq<char>,
    end: Seq<char>,
    mounts: Seq<args::MountView>,
    i: int,
    host: Seq<char>,
    base: Seq<char>,
)
    requires
        slashes(end),
        dir.len() > 0 ==> dir.last() != '/',
        results::collected(hosts, validate::mount_of(dir + end)) == Ok::<
            Seq<args::MountView>,
            error::Fault,
        >(mounts),
        0 <= i < hosts.len(),
        hosts[i].1 == validate::ResolvedView::At(host),
        paths::base_name(host) == Some(base),
    ensures
        mounts.len() == hosts.len(),
        mounts[i] == (host, dir + seq!['/'] + base),
{
    lemma_slashes(dir, end);
    let f = validate::mount_of(dir + end);
    results::lemma_collected_items(hosts, f);
    assert(f(i, hosts[i]) == Ok::<args::MountView, error::Fault>(mounts[i]));
    reveal_strlit("/");
    assert("/"@ == seq!['/']);
}

/// The mounts can be had exactly where every host path resolves to
/// something with a final component.
pub proof fn law_mounts_need_their_paths(hosts: Seq<validate::HostView>, workdir: Seq<char>)
    ensures
        results::collected(hosts, validate::mount_of(workdir)) is Ok <==> forall|i: int|
            0 <= i < hosts.len() ==> ((#[trigger] hosts[i]).1 matches validate::ResolvedView::At(
                host,
            ) && paths::base_name(host) is Some),
{
    let f = validate::mount_of(workdir);
    if results::collected(hosts, f) is Ok {
        results::lemma_collected_items(hosts, f);
        let done = results::collected(hosts, f)->Ok_0;
        assert forall|i: int| 0 <= i < hosts.len() implies ((#[trigger] hosts[i]).1
            matches validate::ResolvedView::At(host) && paths::base_name(host) is Some) by {
            assert(f(i, hosts[i]) == Ok::<args::MountView, error::Fault>(done[i]));
        }
    }
    if forall|i: int|
        0 <= i < hosts.len() ==> ((#[trigger] hosts[i]).1 matches validate::ResolvedView::At(host)
            && paths::base_name(host) is Some) {
        assert forall|i: int| 0 <= i < hosts.len() implies f(i, #[trigger] hosts[i]) is Ok by {}
        results::lemma_collected_ok(hosts, f);
    }
}

/// A path of the host is what was found there; on a remote host it is the
/// path itself, with the home directory put in.
pub proof fn law_host_paths_are_resolved(
    path: Seq<char>,
    home: Seq<char>,
    found: Result<Seq<char>, Seq<char>>,
)
    ensures
        validate::resolution(path, home, true, found) == Ok::<Seq<char>, error::Fault>(
            paths::tilde_expanded(path, home),
        ),
        found matches Ok(at) ==> validate::resolution(path, home, false, found) == Ok::<
            Seq<char>,
            error::Fault,
        >(at),
        found is Err ==> validate::resolution(path, home, false, found) is Err,
{
}

proof fn lemma_one_piece(s: Seq<char>, c: char)
    requires
        !s.contains(c),
    ensures
        text::split(s, c) == seq![s],
{
    assert forall|j: int| 0 <= j < s.len() implies text::other_than(c)(#[trigger] s[j]) by {
        assert(s.contains(s[j]));
    }
    text::lemma_run_is(s, text::other_than(c), s.len());
}

proof fn lemma_first_piece(s: Seq<char>, c: char, rest: Seq<char>)
    requires
        !s.contains(c),
    ensures
        text::split(s + seq![c] + rest, c)[0] == s,
{
    words::law_cutting(s, c, rest);
    let whole = s + seq![c] + rest;
    assert(text::split(whole, c)[0] == whole.take(text::position(whole, c) as int));
}

/// The name that an image suggests is what stands behind the last `/` of
/// the reference, up to a `:`.
pub proof fn law_name_of_an_image(path: Seq<char>, name: Seq<char>, tag: Seq<char>)
    requires
        !name.contains('/'),
        !name.contains(':'),
        !tag.contains('/'),
    ensures
        cli::name_of_image(name) == name,
        cli::name_of_image(name + seq![':'] + tag) == name,
        cli::name_of_image(path + seq!['/'] + name) == name,
        cli::name_of_image(path + seq!['/'] + (name + seq![':'] + tag)) == name,
{
    let tagged = name + seq![':'] + tag;
    assert(!tagged.contains('/')) by {
        if tagged.contains('/') {
            let i = choose|i: int| 0 <= i < tagged.len() && tagged[i] == '/';
            if i < name.len() {
                assert(name.contains(name[i]));
            } else if i > name.len() {
                assert(tag.contains(tag[i - name.len() - 1]));
            }
        }
    }
    lemma_one_piece(name, '/');
    lemma_one_piece(tagged, '/');
    lemma_one_piece(name, ':');
    lemma_first_piece(name, ':', tag);
    text::lemma_split_append(path, '/', name);
    text::lemma_split_append(path, '/', tagged);
    assert(seq![name].last() == name);
    assert(seq![tagged].last() == tagged);
}

/// The name of a new box is the one that is asked for, else the one that
/// the image declares, else the one that its reference suggests.
pub proof fn law_name_of_a_new_box(
    asked: Seq<char>,
    image: Seq<char>,
    meta: driver::MetaView,
)
    ensures
        cli::wanted_name(Some(asked), image, meta) == asked,
        meta.name matches Some(n) ==> cli::wanted_name(None, image, meta) == n,
        meta.name is None ==> cli::wanted_name(None, image, meta) == cli::name_of_image(image),
{
}

/// The main command of a box is that of the policy, word for word; else the
/// one that the image brings, for which nothing is passed; else a command
/// that waits.
pub proof fn law_main_command(c: config::ConfigView, meta: driver::MetaView)
    ensures
        c.entry.len() > 0 ==> cli::command_of(c, meta) == c.entry,
        c.entry.len() == 0 && meta.cmd ==> cli::command_of(c, meta) == Seq::<Seq<char>>::empty(),
        c.entry.len() == 0 && !meta.cmd ==> cli::command_of(c, meta) == seq![
            "sleep"@,
            "infinity"@,
        ],
{
}

/// A new box has the image, the directory and the mounts that were decided
/// on, and every setting of the policy.
pub proof fn law_settings_of_a_new_box(
    c: config::ConfigView,
    meta: driver::MetaView,
    image: Seq<char>,
    workdir: Option<Seq<char>>,
    mounts: Seq<args::MountView>,
)
    ensures
        cli::full_spec(c, meta, image, workdir, mounts) == (args::SpecView {
            image,
            workdir,
            mounts,
            network: c.network,
            extra_hosts: c.extra_hosts,
            env: c.env,
            runtime_env: cli::box_env(c.runtime_env, meta.env),
            security_opts: c.security_opts,
            init: c.init,
            mount_specs: c.mounts,
            command: cli::command_of(c, meta),
            cgroupns: c.cgroupns,
            ipc: c.ipc,
            pid: c.pid,
            userns: c.userns,
            user: c.user,
            privileged: c.privileged,
            no_hosts: c.no_hosts,
            ulimits: c.ulimits,
        }),
{
}

proof fn lemma_merged_apart(list: Seq<Seq<char>>, more: Seq<Seq<char>>)
    requires
        more.no_duplicates(),
        forall|i: int| 0 <= i < more.len() ==> !list.contains(#[trigger] more[i]),
    ensures
        lists::merged(list, more) == list + more,
    decreases more.len(),
{
    if more.len() > 0 {
        let front = more.drop_last();
        assert forall|i: int| 0 <= i < front.len() implies !list.contains(#[trigger] front[i]) by {
            assert(front[i] == more[i]);
        }
        lemma_merged_apart(list, front);
        let last = more.last();
        assert(!(list + front).contains(last)) by {
            if (list + front).contains(last) {
                let i = choose|i: int| 0 <= i < (list + front).len() && (list + front)[i] == last;
                if i < list.len() {
                    assert(list[i] == last);
                    assert(list.contains(more[more.len() - 1]));
                } else {
                    assert(more[i - list.len()] == more[more.len() - 1]);
                }
            }
        }
        assert((list + front).push(last) == list + more);
    } else {
        assert(list + more == list);
    }
}

/// The runtime env names of a new box are those of the policy and then
/// those of the image, in their order; so are those of a session, of the
/// box and then of the command line. (Names that occur twice are there
/// once.)
pub proof fn law_names_stay_in_order(a: Seq<Seq<char>>, b: Seq<Seq<char>>)
    requires
        a.no_duplicates(),
        b.no_duplicates(),
        forall|i: int| 0 <= i < b.len() ==> !a.contains(#[trigger] b[i]),
    ensures
        cli::box_env(a, b) == a + b,
        cli::asked_for(a, b) == a + b,
{
    let nothing = Seq::<Seq<char>>::empty();
    lemma_merged_apart(nothing, a);
    assert(nothing + a == a);
    lemma_merged_apart(a, b);
}

/// The names that are not set are told, in order; where there are none,
/// nothing is said.
pub proof fn law_unset_names_are_told(name: Seq<char>, unset: Seq<Seq<char>>)
    ensures
        unset.len() == 0 ==> cli::unset_note(name, unset) is None,
        unset.len() > 0 ==> cli::unset_note(name, unset) == Some(
            "note: box '"@ + name + "' runtime env "@ + text::joined(unset, ", "@)
                + " not set (left unset this session)"@,
        ),
{
}

/// The names of the command line are accepted exactly where all of them are
/// names of variables.
pub proof fn law_names_of_the_command_line(names: Seq<Seq<char>>)
    ensures
        validate::cli_names_fault(names) is None <==> forall|i: int|
            0 <= i < names.len() ==> expansion::is_name(#[trigger] names[i]),
{
    assert forall|n: Seq<char>| #[trigger]
        validate::valid_env_name(n) <==> expansion::is_name(n) by {
        expansion::law_variable_names(n);
    }
    results::lemma_no_fault(names, |n: Seq<char>| validate::cli_env_fault(n));
}

/// An init step is `exec` with the words of a command, or `cp` with exactly
/// a source and a destination; nothing else is one.
pub proof fn law_words_of_a_step(verb: Seq<char>, rest: Seq<Seq<char>>)
    ensures
        ({
            let step = args::step(seq![verb] + rest);
            &&& verb == "exec"@ ==> step == Ok::<args::StepView, error::Fault>(
                args::StepView::Exec(rest),
            )
            &&& verb == "cp"@ && rest.len() == 2 ==> step == Ok::<args::StepView, error::Fault>(
                args::StepView::Cp(rest[0], rest[1]),
            )
            &&& verb == "cp"@ && rest.len() != 2 ==> step is Err
            &&& verb != "exec"@ && verb != "cp"@ ==> step is Err
        }),
        args::step(seq![]) is Err,
{
    reveal_strlit("exec");
    reveal_strlit("cp");
    assert("exec"@.len() == 4 && "cp"@.len() == 2);
    let all = seq![verb] + rest;
    assert(all.skip(1) == rest);
    assert(all[0] == verb);
    if rest.len() == 2 {
        assert(all[1] == rest[0] && all[2] == rest[1]);
    }
}

// ---------------------------------------------------------------------
// Profiles
// ---------------------------------------------------------------------

/// A profile is a file whose name ends in `.conf`, and is called by what
/// stands before that.
pub proof fn law_files_of_profiles(name: Seq<char>, filename: Seq<char>)
    ensures
        profiles::profile_of(name + ".conf"@) == Some(name),
        profiles::profile_of(filename) is Some ==> filename == profiles::profile_of(filename)->Some_0
            + ".conf"@,
{
    words::law_parts_of_a_text(name, ".conf"@, Seq::empty());
    words::law_only_parts_are_found(filename, ".conf"@);
}

/// The profiles of the user stand below the home directory, and the shipped
/// ones below `/etc`; a profile is looked for under its name with `.conf`.
pub proof fn law_places_of_profiles(home: Seq<char>, name: Seq<char>)
    requires
        home.len() > 0,
        home.last() != '/',
        name.len() > 0,
        name[0] != '/',
    ensures
        profiles::candidate(profiles::user_profiles(home), name) == home
            + "/.config/steelbx/profiles/"@ + name + ".conf"@,
        profiles::candidate(profiles::shipped_profiles(), name) == "/etc/steelbx/profiles/"@ + name
            + ".conf"@,
        profiles::config_dir(home) == home + "/.config/steelbx"@,
        profiles::data_path(home) == home + "/.local/share/steelbx"@,
{
    reveal_strlit("/");
    reveal_strlit("profiles");
    reveal_strlit(".conf");
    reveal_strlit(".config/steelbx");
    reveal_strlit("/.config/steelbx");
    reveal_strlit("/.config/steelbx/profiles/");
    reveal_strlit(".local/share/steelbx");
    reveal_strlit("/.local/share/steelbx");
    reveal_strlit("/etc/steelbx/profiles");
    reveal_strlit("/etc/steelbx/profiles/");
    let file = name + ".conf"@;
    assert(file[0] == name[0]);
    let dir = home + "/.config/steelbx"@;
    assert("/"@ + ".config/steelbx"@ =~= "/.config/steelbx"@);
    assert(home + "/"@ + ".config/steelbx"@ == dir);
    assert(dir.last() == 'x');
    let user = dir + "/"@ + "profiles"@;
    assert(profiles::user_profiles(home) == user);
    assert(user.last() == 's');
    assert("/.config/steelbx"@ + "/"@ + "profiles"@ + "/"@ =~= "/.config/steelbx/profiles/"@);
    assert(user + "/"@ + file == home + ("/.config/steelbx"@ + "/"@ + "profiles"@ + "/"@) + name
        + ".conf"@);
    assert("/etc/steelbx/profiles"@.last() == 's');
    assert("/etc/steelbx/profiles"@ + "/"@ =~= "/etc/steelbx/profiles/"@);
    assert("/etc/steelbx/profiles"@ + "/"@ + file == "/etc/steelbx/profiles/"@ + name + ".conf"@);
    assert("/"@ + ".local/share/steelbx"@ =~= "/.local/share/steelbx"@);
    assert(home + "/"@ + ".local/share/steelbx"@ == home + "/.local/share/steelbx"@);
}

/// The profile is the first candidate that is there; where none is, there
/// is no profile.
pub proof fn law_first_candidate_is_taken(
    candidates: Seq<Seq<char>>,
    present: Seq<bool>,
    i: int,
)
    requires
        candidates.len() == present.len(),
        0 <= i <= present.len(),
        i < present.len() ==> present[i],
        forall|j: int| 0 <= j < i ==> !(#[trigger] present[j]),
    ensures
        profiles::first_present(candidates, present) == if i < present.len() {
            Some(candidates[i])
        } else {
            None
        },
    decreases candidates.len(),
{
    if candidates.len() > 0 && i > 0 {
        let rest = present.skip(1);
        assert(!present[0]);
        assert forall|j: int| 0 <= j < i - 1 implies !(#[trigger] rest[j]) by {
            assert(!present[j + 1]);
        }
        law_first_candidate_is_taken(candidates.skip(1), rest, i - 1);
    }
}

/// The directory was read and holds a file of this name.
pub open spec fn holds_file(listing: profiles::Listing, file: Seq<char>) -> bool {
    listing matches profiles::Listing::Files(files) && exists|k: int|
        0 <= k < files@.len() && (#[trigger] files@[k])@ == file
}

/// The list of profiles holds, in order and once, exactly those that one of
/// the directories holds a file of.
pub proof fn law_list_of_profiles(
    dirs: Seq<Seq<char>>,
    listings: Seq<profiles::Listing>,
    names: Seq<Seq<char>>,
    name: Seq<char>,
)
    requires
        profiles::is_listing(dirs, listings, Ok(names)),
        dirs.len() == listings.len(),
    ensures
        names.contains(name) <==> exists|i: int|
            0 <= i < listings.len() && holds_file(#[trigger] listings[i], name + ".conf"@),
        forall|i: int, j: int|
            0 <= i < j < names.len() ==> order::before(#[trigger] names[i], #[trigger] names[j]),
{
    if names.contains(name) {
        let i = choose|i: int|
            0 <= i < dirs.len() && i < listings.len() && profiles::among_files(
                profiles::file_names(#[trigger] listings[i]),
                name,
            );
        let files = profiles::file_names(listings[i]);
        let k = choose|k: int|
            0 <= k < files.len() && profiles::profile_of(#[trigger] files[k]) == Some(name);
        law_files_of_profiles(name, files[k]);
        assert(listings[i] is Files);
        let v = listings[i]->Files_0;
        assert(files[k] == v@[k]@);
        assert(holds_file(listings[i], name + ".conf"@));
    }
    if exists|i: int|
        0 <= i < listings.len() && holds_file(#[trigger] listings[i], name + ".conf"@) {
        let i = choose|i: int|
            0 <= i < listings.len() && holds_file(#[trigger] listings[i], name + ".conf"@);
        let v = listings[i]->Files_0;
        let k = choose|k: int| 0 <= k < v@.len() && (#[trigger] v@[k])@ == name + ".conf"@;
        let files = profiles::file_names(listings[i]);
        assert(files[k] == v@[k]@);
        law_files_of_profiles(name, files[k]);
        assert(profiles::profile_of(files[k]) == Some(name));
        assert(profiles::among_files(files, name));
        assert(profiles::listed(listings, dirs.len() as int, name));
    }
}

/// Each mount that refers to a runtime env name is warned about, in order,
/// and no other.
pub proof fn law_frozen_mounts_are_told(
    name: Seq<char>,
    names: Seq<Seq<char>>,
    mounts: Seq<Seq<char>>,
    mount: Seq<char>,
)
    ensures
        profiles::name_warnings(name, seq![]) == Seq::<Seq<char>>::empty(),
        profiles::name_warnings(name, mounts.push(mount)) == profiles::name_warnings(name, mounts)
            + if expand::refers_to(mount, name) {
            seq![
                "warning: runtime_env "@ + error::quoted(name) + " is referenced in mounts["@
                    + text::decimal(mounts.len())
                    + "] — mount paths are fixed at create time and cannot track the live runtime value"@,
            ]
        } else {
            seq![]
        },
        profiles::mount_warnings(seq![], mounts) == Seq::<Seq<char>>::empty(),
        profiles::mount_warnings(names.push(name), mounts) == profiles::mount_warnings(names, mounts)
            + profiles::name_warnings(name, mounts),
{
    assert(mounts.push(mount).drop_last() == mounts);
    assert(names.push(name).drop_last() == names);
}

// ---------------------------------------------------------------------
// The environment of the program
// ---------------------------------------------------------------------

/// A variable is set where it is not set already, to its place below the
/// home directory, or to the connection; nothing else is set.
pub proof fn law_variables_are_provided(
    home: Seq<char>,
    s: cli::Surroundings,
    name: Seq<char>,
    value: Seq<char>,
)
    requires
        home.len() > 0,
        home.last() != '/',
    ensures
        cli::settings(home, s).contains((name, value)) <==> {
            ||| name == "STEELBX_CONFIG_DIR"@ && value == home + "/.config/steelbx"@
                && !s.has_config_dir
            ||| name == "STEELBX_DATA_DIR"@ && value == home + "/.local/share/steelbx"@
                && !s.has_data_dir
            ||| name == "CONTAINER_HOST"@ && !s.has_container_host && (s.connection matches Some(c)
                && value == c@)
        },
        cli::settings(home, s).len() <= 3,
{
    law_places_of_profiles(home, seq!['a']);
    let a = cli::setting(
        "STEELBX_CONFIG_DIR"@,
        profiles::config_dir(home),
        !s.has_config_dir,
    );
    let b = cli::setting("STEELBX_DATA_DIR"@, profiles::data_path(home), !s.has_data_dir);
    let c = match s.connection {
        Some(x) => cli::setting("CONTAINER_HOST"@, x@, !s.has_container_host),
        None => Seq::empty(),
    };
    let all = cli::settings(home, s);
    assert(all == a + b + c);
    let pair = (name, value);
    if a.contains(pair) {
        let i = choose|i: int| 0 <= i < a.len() && a[i] == pair;
        assert(all[i] == pair);
    }
    if b.contains(pair) {
        let i = choose|i: int| 0 <= i < b.len() && b[i] == pair;
        assert(all[a.len() + i] == pair);
    }
    if c.contains(pair) {
        let i = choose|i: int| 0 <= i < c.len() && c[i] == pair;
        assert(all[a.len() + b.len() + i] == pair);
    }
    if all.contains(pair) {
        let i = choose|i: int| 0 <= i < all.len() && all[i] == pair;
        if i < a.len() {
            assert(a[i] == pair);
        } else if i < a.len() + b.len() {
            assert(b[i - a.len()] == pair);
        } else {
            assert(c[i - a.len() - b.len()] == pair);
        }
    }
    if !s.has_config_dir {
        assert(a[0] == ("STEELBX_CONFIG_DIR"@, profiles::config_dir(home)));
    }
    if !s.has_data_dir {
        assert(b[0] == ("STEELBX_DATA_DIR"@, profiles::data_path(home)));
    }
    if let Some(x) = s.connection {
        if !s.has_container_host {
            assert(c[0] == ("CONTAINER_HOST"@, x@));
        }
    }
}

/// Of two values for a variable, the later one counts.
pub proof fn law_later_binding_counts(
    bindings: Seq<(String, String)>,
    last: (String, String),
    name: Seq<char>,
)
    ensures
        vars::bound(bindings.push(last)).contains_key(last.0@),
        vars::bound(bindings.push(last))[last.0@] == last.1@,
        name != last.0@ ==> vars::bound(bindings.push(last)).contains_key(name) == vars::bound(
            bindings,
        ).contains_key(name),
        name != last.0@ && vars::bound(bindings).contains_key(name) ==> vars::bound(
            bindings.push(last),
        )[name] == vars::bound(bindings)[name],
        vars::bound(seq![]) == Map::<Seq<char>, Seq<char>>::empty(),
{
    assert(bindings.push(last).drop_last() == bindings);
}

// ---------------------------------------------------------------------
// Podman itself
// ---------------------------------------------------------------------

/// The versions that are supported are those whose first number is five or
/// six, of podman as of its remote client.
pub proof fn law_supported_versions(
    bin: Seq<char>,
    remote: bool,
    outer: Seq<char>,
    gap: Seq<char>,
    major: Seq<char>,
    rest: Seq<char>,
    end: Seq<char>,
    n: nat,
)
    requires
        words::all_blank(outer),
        words::all_blank(gap),
        words::all_blank(end),
        major.len() > 0,
        !major.contains('.'),
        text::unsigned(major, u64::MAX as nat) == Some(n),
        words::solid_ends(major + seq!['.'] + rest),
    ensures
        ({
            let said = if remote {
                "podman-remote version"@
            } else {
                "podman version"@
            };
            let answer = outer + (said + gap + (major + seq!['.'] + rest)) + end;
            driver::version_fault(bin, Ok(answer)) is None <==> n == 5 || n == 6
        }),
{
    let version = major + seq!['.'] + rest;
    law_version_is_read(remote, outer, gap, version, end);
    lemma_first_piece(major, '.', rest);
}

/// The version is what stands behind the name of the program and the word
/// `version`, without the white space around it.
pub proof fn law_version_is_read(
    remote: bool,
    outer: Seq<char>,
    gap: Seq<char>,
    version: Seq<char>,
    end: Seq<char>,
)
    requires
        words::all_blank(outer),
        words::all_blank(gap),
        words::all_blank(end),
        version.len() > 0,
        words::solid_ends(version),
    ensures
        ({
            let said = if remote {
                "podman-remote version"@
            } else {
                "podman version"@
            };
            driver::version_in(outer + (said + gap + version) + end) == Some(version)
        }),
{
    let said = if remote {
        "podman-remote version"@
    } else {
        "podman version"@
    };
    let nothing = Seq::<char>::empty();
    let inner = said + gap + version;
    assert(said.len() > 0 && said[0] == 'p') by {
        reveal_strlit("podman-remote version");
        reveal_strlit("podman version");
    }
    assert(inner[0] == 'p');
    assert(inner.last() == version.last());
    words::law_trimming(outer, inner, end);
    assert(inner == said + (gap + version));
    words::law_parts_of_a_text(nothing, said, gap + version);
    words::law_trimming(gap, version, nothing);
    assert(gap + version + nothing == gap + version);
    if !remote {
        lemma_not_remote(inner, gap + version);
    }
}

proof fn lemma_not_remote(inner: Seq<char>, rest: Seq<char>)
    requires
        inner == "podman version"@ + rest,
    ensures
        !text::starts(inner, "podman-remote version"@),
{
    reveal_strlit("podman-remote version");
    reveal_strlit("podman version");
    if text::starts(inner, "podman-remote version"@) {
        let front = inner.subrange(0, "podman-remote version"@.len() as int);
        assert(front[6] == '-');
        assert(inner[6] == "podman version"@[6]);
    }
}

/// An answer that says neither is no version, and neither is one without a
/// number in front of its first dot.
pub proof fn law_other_answers_are_refused(bin: Seq<char>, answer: Seq<char>, why: Seq<char>)
    ensures
        driver::version_fault(bin, Err(why)) is Some,
        !text::starts(text::trimmed(answer), "podman version"@) && !text::starts(
            text::trimmed(answer),
            "podman-remote version"@,
        ) ==> driver::version_fault(bin, Ok(answer)) is Some,
        driver::version_in(answer) matches Some(v) ==> (text::unsigned(
            text::split(v, '.')[0],
            u64::MAX as nat,
        ) is None ==> driver::version_fault(bin, Ok(answer)) is Some),
{
}

/// The number of the user is the first word behind `Uid:`, on the first
/// line that starts with that.
pub proof fn law_number_of_the_user(
    before: Seq<Seq<char>>,
    gap: Seq<char>,
    word: Seq<char>,
    rest: Seq<char>,
    after: Seq<Seq<char>>,
    n: nat,
)
    requires
        forall|i: int|
            0 <= i < before.len() ==> !(#[trigger] before[i]).contains('\n') && !text::starts(
                before[i],
                "Uid:"@,
            ),
        forall|i: int| 0 <= i < after.len() ==> !(#[trigger] after[i]).contains('\n'),
        words::all_blank(gap),
        !gap.contains('\n'),
        word.len() > 0,
        forall|i: int| 0 <= i < word.len() ==> !words::blank(#[trigger] word[i]),
        rest.len() > 0 ==> words::blank(rest[0]),
        !rest.contains('\n'),
        text::unsigned(word, u32::MAX as nat) == Some(n),
    ensures
        driver::uid_in(
            Some(
                text::joined(
                    before + seq!["Uid:"@ + (gap + word + rest)] + after,
                    seq!['\n'],
                ),
            ),
        ) == n,
{
    let line = "Uid:"@ + (gap + word + rest);
    let lines = before + seq![line] + after;
    reveal_strlit("Uid:");
    assert forall|i: int| 0 <= i < lines.len() implies !(#[trigger] lines[i]).contains('\n') by {
        if i < before.len() {
            assert(lines[i] == before[i]);
        } else if i == before.len() {
            assert(lines[i] == line);
            if line.contains('\n') {
                let k = choose|k: int| 0 <= k < line.len() && line[k] == '\n';
                if k < 4 {
                    assert(line[k] == "Uid:"@[k]);
                } else if k < 4 + gap.len() {
                    assert(gap.contains(gap[k - 4]));
                } else if k < 4 + gap.len() + word.len() {
                    assert(!words::blank(word[k - 4 - gap.len()]));
                } else {
                    assert(rest.contains(rest[k - 4 - gap.len() - word.len()]));
                }
            }
        } else {
            assert(lines[i] == after[i - before.len() - 1]);
        }
    }
    text::lemma_split_joined(lines, '\n');
    lemma_first_after(lines, before.len() as int, "Uid:"@, gap + word + rest);
    let s = gap + word + rest;
    assert forall|j: int| 0 <= j < gap.len() implies text::space_chars()(#[trigger] s[j]) by {
        assert(words::blank(gap[j]));
        words::law_white_space(s[j]);
    }
    assert(s[gap.len() as int] == word[0]);
    words::law_white_space(word[0]);
    assert(!words::blank(word[0]));
    text::lemma_run_is(s, text::space_chars(), gap.len());
    let front = text::trim_front(s);
    assert(front == word + rest);
    assert forall|j: int| 0 <= j < word.len() implies text::solid_chars()(
        #[trigger] front[j],
    ) by {
        assert(front[j] == word[j]);
        words::law_white_space(word[j]);
    }
    if rest.len() > 0 {
        assert(front[word.len() as int] == rest[0]);
        words::law_white_space(rest[0]);
    }
    text::lemma_run_is(front, text::solid_chars(), word.len());
    assert(front.take(word.len() as int) == word);
}

/// Where nothing tells the number of the user, it is taken for one that is
/// not root.
pub proof fn law_unknown_user_is_not_root(status: Seq<char>)
    ensures
        driver::uid_in(None) == 0xffff_ffff,
        driver::first_after(text::split(status, '\n'), "Uid:"@) is None ==> driver::uid_in(
            Some(status),
        ) == 0xffff_ffff,
{
}

proof fn lemma_first_after(lines: Seq<Seq<char>>, i: int, part: Seq<char>, rest: Seq<char>)
    requires
        0 <= i < lines.len(),
        lines[i] == part + rest,
        forall|j: int| 0 <= j < i ==> !text::starts(#[trigger] lines[j], part),
    ensures
        driver::first_after(lines, part) == Some(rest),
    decreases lines.len(),
{
    if i == 0 {
        words::law_parts_of_a_text(Seq::empty(), part, rest);
    } else {
        let more = lines.skip(1);
        assert(!text::starts(lines[0], part));
        assert(more[i - 1] == lines[i]);
        assert forall|j: int| 0 <= j < i - 1 implies !text::starts(#[trigger] more[j], part) by {
            assert(more[j] == lines[j + 1]);
        }
        lemma_first_after(more, i - 1, part, rest);
    }
}

/// The warning about a rootful podman is for the user with the number zero,
/// and for no other.
pub proof fn law_only_root_is_warned(uid: u32)
    ensures
        driver::rootful_warning(uid) is Some <==> uid == 0,
        driver::program(true) == "podman-remote"@,
        driver::program(false) == "podman"@,
{
}

// ---------------------------------------------------------------------
// Lists for the user
// ---------------------------------------------------------------------

/// The text is made of spaces alone, or empty.
pub open spec fn all_spaces(s: Seq<char>) -> bool {
    forall|i: int| 0 <= i < s.len() ==> #[trigger] s[i] == ' '
}

/// The line shows the name, the state, the age and the image of the row, in
/// this order, with spaces between them.
pub open spec fn shows_row(
    line: Seq<char>,
    row: parse::RowView,
    p: Seq<char>,
    q: Seq<char>,
    r: Seq<char>,
) -> bool {
    &&& line == row.name + p + " "@ + (row.state + q) + " "@ + (row.created + r) + " "@ + row.image
    &&& all_spaces(p)
    &&& all_spaces(q)
    &&& all_spaces(r)
}

/// The list of boxes has a line for each row, in order, below a line of
/// headings; each shows its row.
pub proof fn law_list_shows_every_row(rows: Seq<parse::RowView>, i: int)
    requires
        0 <= i < rows.len(),
    ensures
        cli::ps_lines(rows).len() == rows.len() + 1,
        exists|p: Seq<char>, q: Seq<char>, r: Seq<char>| #[trigger]
            shows_row(cli::ps_lines(rows)[i + 1], rows[i], p, q, r),
        exists|p: Seq<char>, q: Seq<char>, r: Seq<char>| #[trigger]
            shows_row(
                cli::ps_lines(rows)[0],
                parse::RowView {
                    name: "NAME"@,
                    state: "STATE"@,
                    created: "CREATED"@,
                    image: "IMAGE"@,
                },
                p,
                q,
                r,
            ),
{
    assert(cli::ps_lines(rows)[i + 1] == cli::line_among(rows[i], rows));
    assert(cli::ps_lines(rows)[0] == cli::line_among(cli::headings(), rows));
    lemma_line(rows[i], rows);
    lemma_line(cli::headings(), rows);
}

spec fn pad(s: Seq<char>, w: nat) -> Seq<char> {
    if s.len() < w {
        cli::spaces((w - s.len()) as nat)
    } else {
        Seq::empty()
    }
}

proof fn lemma_pad(s: Seq<char>, w: nat)
    ensures
        cli::padded(s, w) == s + pad(s, w),
        all_spaces(pad(s, w)),
{
    assert(s + Seq::<char>::empty() == s);
}

proof fn lemma_line(row: parse::RowView, rows: Seq<parse::RowView>)
    ensures
        exists|p: Seq<char>, q: Seq<char>, r: Seq<char>| #[trigger]
            shows_row(cli::line_among(row, rows), row, p, q, r),
{
    let a = cli::width("NAME"@, cli::names_of(rows));
    let b = cli::width("STATE"@, cli::states_of(rows));
    let c = cli::width("CREATED"@, cli::ages_of(rows));
    lemma_pad(row.name, a);
    lemma_pad(row.state, b);
    lemma_pad(row.created, c);
    let p = pad(row.name, a);
    let q = pad(row.state, b);
    let r = pad(row.created, c);
    assert(shows_row(cli::line_among(row, rows), row, p, q, r));
}

/// The suggestions for what was typed are the candidates that start with
/// it, in their order.
pub proof fn law_suggestions(
    candidates: Seq<Seq<char>>,
    typed: Seq<char>,
    rest: Seq<char>,
    other: Seq<char>,
)
    requires
        !text::starts(other, typed),
    ensures
        cli::starting_with(seq![], typed) == Seq::<Seq<char>>::empty(),
        cli::starting_with(candidates.push(typed + rest), typed) == cli::starting_with(
            candidates,
            typed,
        ).push(typed + rest),
        cli::starting_with(candidates.push(other), typed) == cli::starting_with(candidates, typed),
{
    words::law_parts_of_a_text(Seq::empty(), typed, rest);
    assert(candidates.push(typed + rest).drop_last() == candidates);
    assert(candidates.push(other).drop_last() == candidates);
}

/// A column is as wide as its heading or its longest entry, and no wider.
pub proof fn law_width_of_a_column(heading: Seq<char>, column: Seq<Seq<char>>, i: int)
    ensures
        cli::byte_len(heading) <= cli::width(heading, column),
        0 <= i < column.len() ==> cli::byte_len(column[i]) <= cli::width(heading, column),
        cli::width(heading, column) == cli::byte_len(heading) || exists|k: int|
            0 <= k < column.len() && cli::width(heading, column) == cli::byte_len(
                #[trigger] column[k],
            ),
    decreases column.len(),
{
    if column.len() > 0 {
        let front = column.drop_last();
        law_width_of_a_column(heading, front, i);
        if cli::width(heading, column) == cli::width(heading, front) {
            if cli::width(heading, front) != cli::byte_len(heading) {
                let k = choose|k: int|
                    0 <= k < front.len() && cli::width(heading, front) == cli::byte_len(
                        #[trigger] front[k],
                    );
                assert(column[k] == front[k]);
            }
        } else {
            assert(column[column.len() - 1] == column.last());
        }
        if 0 <= i < front.len() {
            assert(column[i] == front[i]);
        }
    }
}

/// Each text is filled up with spaces to the width of its column.
pub proof fn law_texts_are_filled_up(s: Seq<char>, w: nat)
    ensures
        s.len() <= w ==> cli::padded(s, w).len() == w,
        s.len() >= w ==> cli::padded(s, w) == s,
        cli::padded(s, w).take(s.len() as int) == s,
        forall|i: int| s.len() <= i < w ==> #[trigger] cli::padded(s, w)[i] == ' ',
{
}

/// The profile of a name is the file of the first directory that has it;
/// where none has it, that is told, and a name that is more than a name is
/// refused.
pub proof fn law_selected_profile(
    name: Seq<char>,
    dirs: Seq<Seq<char>>,
    present: Seq<bool>,
    listings: Seq<profiles::Listing>,
    r: Result<Seq<char>, error::Fault>,
    i: int,
)
    requires
        profiles::is_selection(name, dirs, present, listings, r),
        dirs.len() == present.len(),
        0 <= i <= present.len(),
        i < present.len() ==> present[i],
        forall|j: int| 0 <= j < i ==> !(#[trigger] present[j]),
    ensures
        ({
            let fits = name.len() > 0 && name != "."@ && name != ".."@ && !name.contains('/');
            &&& !fits ==> r is Err
            &&& fits && i == present.len() ==> r is Err
            &&& fits && i < present.len() ==> r == Ok::<Seq<char>, error::Fault>(
                paths::below(dirs[i], name + ".conf"@),
            )
        }),
{
    let all = profiles::candidates(dirs, name);
    law_first_candidate_is_taken(all, present, i);
}

/// What is told about a version, a profile, a path or a user that will not
/// do.
pub proof fn law_words_of_the_refusals(
    bin: Seq<char>,
    answer: Seq<char>,
    v: Seq<char>,
    n: nat,
    why: Seq<char>,
    name: Seq<char>,
    dirs: Seq<Seq<char>>,
    names: Seq<Seq<char>>,
    e: error::Fault,
)
    ensures
        driver::version_fault(bin, Err(why)) == Some(
            error::under("'"@ + bin + "' not found on PATH"@, error::said(why)),
        ),
        driver::version_in(answer) is None ==> driver::version_fault(bin, Ok(answer)) == Some(
            error::said("unexpected '"@ + bin + " --version' output: "@ + text::trimmed(answer)),
        ),
        driver::version_in(answer) == Some(v) && text::unsigned(
            text::split(v, '.')[0],
            u64::MAX as nat,
        ) == Some(n) && n != 5 && n != 6 ==> driver::version_fault(bin, Ok(answer)) == Some(
            error::said("podman "@ + v + " is outside the supported range (5.x–6.x)"@),
        ),
        driver::rootful_warning(0) == Some(
            "warning: running as root — boxes run rootful; a box escape is a root escape. Use rootless podman where possible."@,
        ),
        profiles::invalid_profile_name(name) == error::said(
            "invalid profile name: "@ + error::quoted(name) + " — no path separators, no '..'"@,
        ),
        profiles::profile_not_found(name, dirs, Ok(names)) == error::said(
            "profile '"@ + name + "' not found (looked in: "@ + text::joined(dirs, ", "@)
                + ")\nAvailable profiles: "@ + (if names.len() > 0 {
                text::joined(names, ", "@)
            } else {
                "none"@
            }),
        ),
        profiles::profile_not_found(name, dirs, Err(e)) == error::said(
            "profile '"@ + name + "' not found (looked in: "@ + text::joined(dirs, ", "@)
                + ")\nAvailable profiles: none"@,
        ),
        validate::resolution(name, bin, false, Err(why)) == Err::<Seq<char>, error::Fault>(
            error::under("resolving path '"@ + name + "'"@, error::said(why)),
        ),
        validate::mount_of(bin)(0, (name, validate::ResolvedView::Nothing(why))) == Err::<
            args::MountView,
            error::Fault,
        >(error::under("resolving path '"@ + name + "'"@, error::said(why))),
        validate::mount_of(bin)(0, (name, validate::ResolvedView::Nameless)) == Err::<
            args::MountView,
            error::Fault,
        >(error::said("cannot derive a mount name from '"@ + name + "' (no basename)"@)),
{
    let front = "profile '"@ + name + "' not found (looked in: "@ + text::joined(dirs, ", "@);
    reveal_strlit(")\nAvailable profiles: ");
    reveal_strlit(")\nAvailable profiles: none");
    reveal_strlit("none");
    assert(")\nAvailable profiles: "@ + "none"@ =~= ")\nAvailable profiles: none"@);
    assert(front + ")\nAvailable profiles: "@ + "none"@ == front + ")\nAvailable profiles: none"@);
}

} // verus!

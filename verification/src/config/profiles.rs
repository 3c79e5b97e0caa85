//! Profiles: where they are looked for, which there are, and which one a
//! name selects.

use vstd::prelude::*;
use vstd::string::*;

use crate::config::SteelbxConfig;
use crate::error;
use crate::error::{failure, failure_under, quote, Error};
use crate::expand;
use crate::expand::is_referred_to;
use crate::order;
use crate::order::insert_ascending;
use crate::paths;
use crate::paths::{join_path, single_name};
use crate::text;
use crate::text::{decimal_of, join, strip_suffix};

verus! {

// ---------------------------------------------------------------------
// Directories
// ---------------------------------------------------------------------

/// The directory of the configuration, which holds the profiles.
pub open spec fn config_dir(home: Seq<char>) -> Seq<char> {
    paths::below(home, ".config/steelbx"@)
}

/// The directory of the profiles of a user.
pub open spec fn user_profiles(home: Seq<char>) -> Seq<char> {
    paths::below(config_dir(home), "profiles"@)
}

/// The directory of the profiles that a distribution ships.
pub open spec fn shipped_profiles() -> Seq<char> {
    "/etc/steelbx/profiles"@
}

/// The directory of the data.
pub open spec fn data_path(home: Seq<char>) -> Seq<char> {
    paths::below(home, ".local/share/steelbx"@)
}

/// The directory of the configuration: `~/.config/steelbx`.
pub fn config_dir_path(home: &str) -> (r: String)
    ensures
        r@ == config_dir(home@),
{
    join_path(home, ".config/steelbx")
}

/// The directory of the profiles of a user.
pub fn profiles_dir(home: &str) -> (r: String)
    ensures
        r@ == user_profiles(home@),
{
    join_path(config_dir_path(home).as_str(), "profiles")
}

/// The directory of the profiles that a distribution ships.
pub fn system_profiles_dir() -> (r: String)
    ensures
        r@ == shipped_profiles(),
{
    "/etc/steelbx/profiles".to_owned()
}

/// The directory of the data: `~/.local/share/steelbx`, for files that
/// boxes should see.
pub fn data_dir(home: &str) -> (r: String)
    ensures
        r@ == data_path(home@),
{
    join_path(home, ".local/share/steelbx")
}

// ---------------------------------------------------------------------
// Listing
// ---------------------------------------------------------------------

/// What was found where a directory of profiles was looked for.
#[derive(Debug)]
pub enum Listing {
    /// There is no such directory.
    Absent,
    /// It cannot be read, for this reason.
    Unreadable(String),
    /// The names of the files in it.
    Files(Vec<String>),
}

/// Why a directory cannot be read.
pub open spec fn why_unreadable(listing: Listing) -> Seq<char> {
    match listing {
        Listing::Unreadable(why) => why@,
        _ => Seq::empty(),
    }
}

/// The file names that were found.
pub open spec fn file_names(listing: Listing) -> Seq<Seq<char>> {
    match listing {
        Listing::Files(v) => text::texts(v@),
        _ => Seq::empty(),
    }
}

/// The profile of a file name: `net-off.conf` holds `net-off`.
pub open spec fn profile_of(filename: Seq<char>) -> Option<Seq<char>> {
    text::before_suffix(filename, ".conf"@)
}

/// One of the file names is that of the profile.
pub open spec fn among_files(files: Seq<Seq<char>>, profile: Seq<char>) -> bool {
    exists|i: int| 0 <= i < files.len() && profile_of(#[trigger] files[i]) == Some(profile)
}

/// The profile is in one of the first `n` directories.
pub open spec fn listed(listings: Seq<Listing>, n: int, profile: Seq<char>) -> bool {
    exists|i: int|
        0 <= i < n && i < listings.len() && among_files(
            file_names(#[trigger] listings[i]),
            profile,
        )
}

/// A directory cannot be read, and none before it.
pub open spec fn first_unreadable(listings: Seq<Listing>, i: int) -> bool {
    &&& 0 <= i < listings.len()
    &&& listings[i] is Unreadable
    &&& forall|j: int| 0 <= j < i ==> !(#[trigger] listings[j] is Unreadable)
}

/// What `list_profiles_in` promises of its result.
pub open spec fn is_listing(
    dirs: Seq<Seq<char>>,
    listings: Seq<Listing>,
    r: Result<Seq<Seq<char>>, error::Fault>,
) -> bool {
    match r {
        Ok(names) => {
            &&& forall|i: int|
                0 <= i < dirs.len() && i < listings.len() ==> !(#[trigger] listings[i] is Unreadable)
            &&& order::ascending(names)
            &&& forall|p: Seq<char>| #[trigger]
                names.contains(p) <==> listed(listings, dirs.len() as int, p)
        },
        Err(e) => exists|i: int|
            0 <= i < dirs.len() && #[trigger] first_unreadable(listings, i) && e == error::under(
                "reading profiles dir "@ + dirs[i],
                error::said(why_unreadable(listings[i])),
            ),
    }
}

/// The outcome of a listing, as text.
pub open spec fn listing_view(r: Result<Vec<String>, Error>) -> Result<
    Seq<Seq<char>>,
    error::Fault,
> {
    match r {
        Ok(v) => Ok(text::texts(v@)),
        Err(e) => Err(e@),
    }
}

/// Adds the profiles of the files to an ascending list.
fn add_profiles(names: &mut Vec<String>, files: &[String])
    requires
        order::ascending(text::texts(old(names)@)),
    ensures
        order::ascending(text::texts(final(names)@)),
        forall|p: Seq<char>| #[trigger]
            text::texts(final(names)@).contains(p) <==> text::texts(old(names)@).contains(p)
                || among_files(text::texts(files@), p),
{
    let ghost start = text::texts(names@);
    let ghost all = text::texts(files@);
    let mut i: usize = 0;
    while i < files.len()
        invariant
            i <= files@.len(),
            all == text::texts(files@),
            order::ascending(text::texts(names@)),
            forall|p: Seq<char>| #[trigger]
                text::texts(names@).contains(p) <==> start.contains(p) || among_files(
                    all.take(i as int),
                    p,
                ),
        decreases files.len() - i,
    {
        let ghost sofar = text::texts(names@);
        let found = SteelbxConfig::profile_name_from_filename(files[i].clone());
        proof {
            assert(all[i as int] == files@[i as int]@);
            assert forall|p: Seq<char>| #[trigger] among_files(all.take(i + 1), p) <==> among_files(
                all.take(i as int),
                p,
            ) || profile_of(all[i as int]) == Some(p) by {
                if among_files(all.take(i + 1), p) {
                    let k = choose|k: int|
                        0 <= k < all.take(i + 1).len() && profile_of(
                            #[trigger] all.take(i + 1)[k],
                        ) == Some(p);
                    if k < i {
                        assert(all.take(i as int)[k] == all.take(i + 1)[k]);
                    }
                }
                if among_files(all.take(i as int), p) {
                    let k = choose|k: int|
                        0 <= k < all.take(i as int).len() && profile_of(
                            #[trigger] all.take(i as int)[k],
                        ) == Some(p);
                    assert(all.take(i + 1)[k] == all.take(i as int)[k]);
                }
                if profile_of(all[i as int]) == Some(p) {
                    assert(all.take(i + 1)[i as int] == all[i as int]);
                }
            }
        }
        if let Some(name) = found {
            insert_ascending(names, name);
        }
        i += 1;
    }
    proof {
        assert(all.take(i as int) == all);
    }
}

impl SteelbxConfig {
    /// The profile of a file name, if the file is one.
    pub fn profile_name_from_filename(filename: String) -> (r: Option<String>)
        ensures
            text::opt_text(r) == profile_of(filename@),
    {
        strip_suffix(filename.as_str(), ".conf")
    }

    /// The directories of the profiles: those of the user, then those that
    /// are shipped.
    pub fn profile_dirs(home: &str) -> (r: Vec<String>)
        ensures
            text::texts(r@) == seq![user_profiles(home@), shipped_profiles()],
    {
        let dirs: Vec<String> = vec![profiles_dir(home), system_profiles_dir()];
        proof {
            assert(text::texts(dirs@) == seq![user_profiles(home@), shipped_profiles()]);
        }
        dirs
    }

    /// The names of the profiles of the user and of those that are shipped:
    /// sorted, each once. `found` holds what was found in the two
    /// directories of `profile_dirs`.
    pub fn list_profiles(home: &str, found: &[Listing]) -> (r: Result<Vec<String>, Error>)
        ensures
            is_listing(
                seq![user_profiles(home@), shipped_profiles()],
                found@,
                listing_view(r),
            ),
    {
        Self::list_profiles_in(&Self::profile_dirs(home), found)
    }

    /// The names of the profiles in the directories: sorted, each once.
    /// `found` holds, for each directory, what was found there.
    pub fn list_profiles_in(dirs: &[String], found: &[Listing]) -> (r: Result<Vec<String>, Error>)
        ensures
            is_listing(text::texts(dirs@), found@, listing_view(r)),
    {
        let ghost names_of = text::texts(dirs@);
        let mut names: Vec<String> = Vec::new();
        let mut i: usize = 0;
        while i < dirs.len() && i < found.len()
            invariant
                i <= dirs@.len(),
                i <= found@.len(),
                names_of == text::texts(dirs@),
                forall|j: int| 0 <= j < i ==> !(#[trigger] found@[j] is Unreadable),
                order::ascending(text::texts(names@)),
                forall|p: Seq<char>| #[trigger]
                    text::texts(names@).contains(p) <==> listed(found@, i as int, p),
            decreases dirs.len() - i,
        {
            proof {
                assert forall|p: Seq<char>| #[trigger] listed(found@, i + 1, p) <==> listed(
                    found@,
                    i as int,
                    p,
                ) || among_files(file_names(found@[i as int]), p) by {
                    if listed(found@, i + 1, p) {
                        let k = choose|k: int|
                            0 <= k < i + 1 && k < found@.len() && among_files(
                                file_names(#[trigger] found@[k]),
                                p,
                            );
                        if k < i {
                            assert(among_files(file_names(found@[k]), p));
                        }
                    }
                }
            }
            match &found[i] {
                Listing::Absent => {
                    proof {
                        assert forall|p: Seq<char>| !among_files(
                            file_names(found@[i as int]),
                            p,
                        ) by {}
                    }
                },
                Listing::Unreadable(why) => {
                    proof {
                        assert(first_unreadable(found@, i as int));
                        assert(names_of[i as int] == dirs@[i as int]@);
                    }
                    return Err(
                        failure_under(
                            "reading profiles dir ".to_owned().concat(dirs[i].as_str()),
                            failure(why.clone()),
                        ),
                    );
                },
                Listing::Files(files) => {
                    add_profiles(&mut names, files);
                },
            }
            i += 1;
        }
        proof {
            assert forall|p: Seq<char>| listed(found@, i as int, p) <==> listed(
                found@,
                dirs@.len() as int,
                p,
            ) by {
                if listed(found@, dirs@.len() as int, p) {
                    let k = choose|k: int|
                        0 <= k < dirs@.len() && k < found@.len() && among_files(
                            file_names(#[trigger] found@[k]),
                            p,
                        );
                    assert(k < i);
                    assert(among_files(file_names(found@[k]), p));
                }
                if listed(found@, i as int, p) {
                    let k = choose|k: int|
                        0 <= k < i && k < found@.len() && among_files(
                            file_names(#[trigger] found@[k]),
                            p,
                        );
                    assert(among_files(file_names(found@[k]), p));
                }
            }
        }
        Ok(names)
    }
}

// ---------------------------------------------------------------------
// Selection
// ---------------------------------------------------------------------

/// The file of a profile in a directory.
pub open spec fn candidate(dir: Seq<char>, name: Seq<char>) -> Seq<char> {
    paths::below(dir, name + ".conf"@)
}

/// The files of a profile in the directories.
pub open spec fn candidates(dirs: Seq<Seq<char>>, name: Seq<char>) -> Seq<Seq<char>> {
    dirs.map_values(|d: Seq<char>| candidate(d, name))
}

/// The first of the paths that is there.
pub open spec fn first_present(candidates: Seq<Seq<char>>, present: Seq<bool>) -> Option<
    Seq<char>,
>
    decreases candidates.len(),
{
    if candidates.len() == 0 || present.len() == 0 {
        None
    } else if present[0] {
        Some(candidates[0])
    } else {
        first_present(candidates.skip(1), present.skip(1))
    }
}

/// The message about a profile name that is a path.
pub open spec fn invalid_profile_name(name: Seq<char>) -> error::Fault {
    error::said(
        "invalid profile name: "@ + error::quoted(name) + " — no path separators, no '..'"@,
    )
}

/// The names of a listing, or the word for none.
pub open spec fn names_or_none(listing: Result<Seq<Seq<char>>, error::Fault>) -> Seq<char> {
    match listing {
        Ok(names) => if names.len() > 0 {
            text::joined(names, ", "@)
        } else {
            "none"@
        },
        Err(_) => "none"@,
    }
}

/// The message about a profile that is in none of the directories.
pub open spec fn profile_not_found(
    name: Seq<char>,
    dirs: Seq<Seq<char>>,
    listing: Result<Seq<Seq<char>>, error::Fault>,
) -> error::Fault {
    error::said(
        "profile '"@ + name + "' not found (looked in: "@ + text::joined(dirs, ", "@)
            + ")\nAvailable profiles: "@ + names_or_none(listing),
    )
}

/// What `profile_path_in` promises of its result.
pub open spec fn is_selection(
    name: Seq<char>,
    dirs: Seq<Seq<char>>,
    present: Seq<bool>,
    listings: Seq<Listing>,
    r: Result<Seq<char>, error::Fault>,
) -> bool {
    if !paths::is_single_name(name) {
        r == Err::<Seq<char>, error::Fault>(invalid_profile_name(name))
    } else {
        match first_present(candidates(dirs, name), present) {
            Some(path) => r == Ok::<Seq<char>, error::Fault>(path),
            None => exists|l: Result<Seq<Seq<char>>, error::Fault>| #[trigger]
                is_listing(dirs, listings, l) && r == Err::<Seq<char>, error::Fault>(
                    profile_not_found(name, dirs, l),
                ),
        }
    }
}

/// The outcome of a selection, as text.
pub open spec fn selection_view(r: Result<String, Error>) -> Result<Seq<char>, error::Fault> {
    match r {
        Ok(s) => Ok(s@),
        Err(e) => Err(e@),
    }
}

/// The file of a profile in a directory.
pub fn profile_file(dir: &str, name: &str) -> (r: String)
    ensures
        r@ == candidate(dir@, name@),
{
    join_path(dir, name.to_owned().concat(".conf").as_str())
}

impl SteelbxConfig {
    /// The file of the named profile: the first of the directories that has
    /// one wins. `present` says, for each directory, whether its
    /// `profile_file` is there, and `found` what else is; both are for the
    /// same directories.
    pub fn profile_path_in(
        name: &str,
        dirs: &[String],
        present: &[bool],
        found: &[Listing],
    ) -> (r: Result<String, Error>)
        ensures
            is_selection(name@, text::texts(dirs@), present@, found@, selection_view(r)),
    {
        if !single_name(name) {
            return Err(
                failure(
                    "invalid profile name: ".to_owned().concat(quote(name).as_str()).concat(
                        " — no path separators, no '..'",
                    ),
                ),
            );
        }
        let ghost all = candidates(text::texts(dirs@), name@);
        let mut i: usize = 0;
        proof {
            assert(all.skip(0) == all);
            assert(present@.skip(0) == present@);
        }
        while i < dirs.len() && i < present.len()
            invariant
                i <= dirs@.len(),
                i <= present@.len(),
                all == candidates(text::texts(dirs@), name@),
                paths::is_single_name(name@),
                first_present(all, present@) == first_present(
                    all.skip(i as int),
                    present@.skip(i as int),
                ),
            decreases dirs.len() - i,
        {
            proof {
                assert(all.skip(i as int)[0] == candidate(dirs@[i as int]@, name@));
                assert(all.skip(i as int).skip(1) == all.skip(i + 1));
                assert(present@.skip(i as int).skip(1) == present@.skip(i + 1));
            }
            if present[i] {
                return Ok(profile_file(dirs[i].as_str(), name));
            }
            i += 1;
        }
        let listing = SteelbxConfig::list_profiles_in(dirs, found);
        let ghost seen = listing_view(listing);
        let available = match listing {
            Ok(names) => {
                if names.len() > 0 {
                    join(&names, ", ")
                } else {
                    "none".to_owned()
                }
            },
            Err(_) => "none".to_owned(),
        };
        proof {
            assert(is_listing(text::texts(dirs@), found@, seen));
        }
        Err(
            failure(
                "profile '".to_owned().concat(name).concat("' not found (looked in: ").concat(
                    join(dirs, ", ").as_str(),
                ).concat(")\nAvailable profiles: ").concat(available.as_str()),
            ),
        )
    }
}

// ---------------------------------------------------------------------
// Runtime env in mounts
// ---------------------------------------------------------------------

/// The warning about a mount that refers to a runtime env name.
pub open spec fn frozen_mount(name: Seq<char>, i: int) -> Seq<char> {
    "warning: runtime_env "@ + error::quoted(name) + " is referenced in mounts["@ + text::decimal(
        i as nat,
    )
        + "] — mount paths are fixed at create time and cannot track the live runtime value"@
}

/// The warnings about the mounts that refer to one runtime env name.
pub open spec fn name_warnings(name: Seq<char>, mounts: Seq<Seq<char>>) -> Seq<Seq<char>>
    decreases mounts.len(),
{
    if mounts.len() == 0 {
        Seq::empty()
    } else if expand::refers_to(mounts.last(), name) {
        name_warnings(name, mounts.drop_last()).push(frozen_mount(name, mounts.len() - 1))
    } else {
        name_warnings(name, mounts.drop_last())
    }
}

/// The warnings about the mounts that refer to runtime env names.
pub open spec fn mount_warnings(names: Seq<Seq<char>>, mounts: Seq<Seq<char>>) -> Seq<Seq<char>>
    decreases names.len(),
{
    if names.len() == 0 {
        Seq::empty()
    } else {
        mount_warnings(names.drop_last(), mounts) + name_warnings(names.last(), mounts)
    }
}

impl SteelbxConfig {
    /// The warnings about runtime env names that mounts refer to: mounts
    /// are fixed when the box is created, so they cannot follow a value
    /// that each session takes anew. To be asked before the expansion,
    /// while the references are there.
    pub fn warn_runtime_env_in_mounts(cfg: &SteelbxConfig) -> (r: Vec<String>)
        ensures
            text::texts(r@) == mount_warnings(cfg@.runtime_env, cfg@.mounts),
    {
        let ghost names = text::texts(cfg.runtime_env@);
        let ghost mounts = text::texts(cfg.mounts@);
        let mut out: Vec<String> = Vec::new();
        let mut i: usize = 0;
        while i < cfg.runtime_env.len()
            invariant
                i <= cfg.runtime_env@.len(),
                names == text::texts(cfg.runtime_env@),
                mounts == text::texts(cfg.mounts@),
                text::texts(out@) == mount_warnings(names.take(i as int), mounts),
            decreases cfg.runtime_env.len() - i,
        {
            let name = cfg.runtime_env[i].as_str();
            let ghost start = text::texts(out@);
            let mut j: usize = 0;
            proof {
                assert(mounts.take(0) == Seq::<Seq<char>>::empty());
                assert(start + name_warnings(name@, mounts.take(0)) == start);
            }
            while j < cfg.mounts.len()
                invariant
                    j <= cfg.mounts@.len(),
                    mounts == text::texts(cfg.mounts@),
                    text::texts(out@) == start + name_warnings(name@, mounts.take(j as int)),
                decreases cfg.mounts.len() - j,
            {
                proof {
                    assert(mounts.take(j + 1).drop_last() == mounts.take(j as int));
                    assert(mounts.take(j + 1).last() == cfg.mounts@[j as int]@);
                }
                if is_referred_to(cfg.mounts[j].as_str(), name) {
                    let line = "warning: runtime_env ".to_owned().concat(
                        quote(name).as_str(),
                    ).concat(" is referenced in mounts[").concat(decimal_of(j).as_str()).concat(
                        "] — mount paths are fixed at create time and cannot track the live runtime value",
                    );
                    proof {
                        text::lemma_texts_push(out@, line);
                    }
                    out.push(line);
                }
                proof {
                    assert(text::texts(out@) == start + name_warnings(
                        name@,
                        mounts.take(j + 1),
                    ));
                }
                j += 1;
            }
            proof {
                assert(mounts.take(j as int) == mounts);
                assert(names.take(i + 1).drop_last() == names.take(i as int));
                assert(names.take(i + 1).last() == name@);
            }
            i += 1;
        }
        proof {
            assert(names.take(i as int) == names);
        }
        out
    }
}

// ---------------------------------------------------------------------
// Laws
// ---------------------------------------------------------------------

/// The listing of some directories is one list, whatever it is read from:
/// two outcomes that both keep the promise of the listing are the same, if
/// both are lists.
pub proof fn law_listing_is_unique(
    dirs: Seq<Seq<char>>,
    listings: Seq<Listing>,
    a: Seq<Seq<char>>,
    b: Seq<Seq<char>>,
)
    requires
        is_listing(dirs, listings, Ok(a)),
        is_listing(dirs, listings, Ok(b)),
    ensures
        a == b,
{
    assert forall|x: Seq<char>| a.contains(x) <==> b.contains(x) by {
        assert(a.contains(x) <==> listed(listings, dirs.len() as int, x));
        assert(b.contains(x) <==> listed(listings, dirs.len() as int, x));
    }
    order::lemma_ascending_is_unique(a, b);
}

/// A profile is listed once, though several directories may hold it.
pub proof fn law_listing_has_no_duplicates(
    dirs: Seq<Seq<char>>,
    listings: Seq<Listing>,
    names: Seq<Seq<char>>,
)
    requires
        is_listing(dirs, listings, Ok(names)),
    ensures
        names.no_duplicates(),
{
    assert forall|i: int, j: int| 0 <= i < names.len() && 0 <= j < names.len() && i
        != j implies names[i] != names[j] by {
        order::lemma_not_before_itself(names[i]);
        if i < j {
            assert(order::before(names[i], names[j]));
        } else {
            assert(order::before(names[j], names[i]));
        }
    }
}

/// A profile of the user is selected, whether or not one of the same name
/// is shipped; a shipped one is selected only where the user has none.
pub proof fn law_user_profile_overrides_the_shipped_one(
    home: Seq<char>,
    name: Seq<char>,
    present: Seq<bool>,
)
    requires
        present.len() == 2,
        present[0] || present[1],
    ensures
        first_present(candidates(seq![user_profiles(home), shipped_profiles()], name), present)
            == Some(
            if present[0] {
                candidate(user_profiles(home), name)
            } else {
                candidate(shipped_profiles(), name)
            },
        ),
{
    let all = candidates(seq![user_profiles(home), shipped_profiles()], name);
    assert(all[0] == candidate(user_profiles(home), name));
    assert(all.skip(1)[0] == candidate(shipped_profiles(), name));
    reveal_with_fuel(first_present, 3);
}

/// A name that is empty, `.` or `..`, or that holds a `/`, never selects a
/// file, whatever is there.
pub proof fn law_path_like_names_are_refused(
    name: Seq<char>,
    dirs: Seq<Seq<char>>,
    present: Seq<bool>,
    listings: Seq<Listing>,
    r: Result<Seq<char>, error::Fault>,
)
    requires
        is_selection(name, dirs, present, listings, r),
        name.len() == 0 || name.contains('/') || name == "."@ || name == ".."@,
    ensures
        r == Err::<Seq<char>, error::Fault>(invalid_profile_name(name)),
{
}

/// Directories that are not there hold no profiles, and that is no error.
pub proof fn law_absent_directories_hold_no_profiles(
    dirs: Seq<Seq<char>>,
    listings: Seq<Listing>,
    r: Result<Seq<Seq<char>>, error::Fault>,
)
    requires
        is_listing(dirs, listings, r),
        forall|i: int| 0 <= i < listings.len() ==> #[trigger] listings[i] is Absent,
    ensures
        r == Ok::<Seq<Seq<char>>, error::Fault>(Seq::empty()),
{
    if let Ok(names) = r {
        if names.len() > 0 {
            assert(names.contains(names[0]));
            let i = choose|i: int|
                0 <= i < dirs.len() && i < listings.len() && among_files(
                    file_names(#[trigger] listings[i]),
                    names[0],
                );
            assert(listings[i] is Absent);
        }
        assert(names == Seq::<Seq<char>>::empty());
    }
}

} // verus!

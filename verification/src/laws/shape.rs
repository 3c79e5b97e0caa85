//! Which policies are accepted, and what is loaded of them.

use vstd::prelude::*;

use crate::config;
use crate::config::layers;
use crate::config::layers::EnvFile;
use crate::config::shape;
use crate::driver;
use crate::driver::args;
use crate::error;
use crate::error::Error;
use crate::laws::expansion;
use crate::laws::profile;
use crate::laws::words;
use crate::results;
use crate::table;
use crate::text;
use crate::validate;

verus! {

/// The value is one word: it says something and holds no space.
pub open spec fn one_word(value: Seq<char>) -> bool {
    !words::all_blank(value) && !value.contains(' ')
}

/// The character at `k` is the first `c`, and there is something on both
/// sides of it.
pub open spec fn parted_at(value: Seq<char>, c: char, k: int) -> bool {
    &&& 0 <= k < value.len()
    &&& value[k] == c
    &&& !value.take(k).contains(c)
    &&& !words::all_blank(value.take(k))
    &&& !words::all_blank(value.skip(k + 1))
}

/// The value has two sides, with the character between them, and holds no
/// space.
pub open spec fn two_sides(value: Seq<char>, c: char) -> bool {
    !value.contains(' ') && exists|k: int| parted_at(value, c, k)
}

proof fn lemma_blank(s: Seq<char>)
    ensures
        words::all_blank(s) <==> text::trimmed(s).len() == 0,
{
    let nothing = Seq::<char>::empty();
    if words::all_blank(s) {
        words::law_trimming(s, nothing, nothing);
        assert(s + nothing + nothing == s);
    }
    if text::trimmed(s).len() == 0 {
        words::law_only_white_space_is_trimmed(s);
        let (b, a) = choose|b: Seq<char>, a: Seq<char>| #[trigger]
            words::wraps(s, b, text::trimmed(s), a);
        assert forall|i: int| 0 <= i < s.len() implies words::blank(#[trigger] s[i]) by {
            if i < b.len() {
                assert(s[i] == b[i]);
            } else {
                assert(s[i] == a[i - b.len()]);
            }
        }
    }
}

/// What is accepted as a single word, and as two words with a character
/// between them.
pub proof fn law_words_and_pairs(value: Seq<char>, c: char)
    ensures
        validate::single_token(value) <==> one_word(value),
        validate::is_pair(value, c) <==> two_sides(value, c),
{
    lemma_blank(value);
    if exists|k: int| parted_at(value, c, k) {
        let k = choose|k: int| parted_at(value, c, k);
        let a = value.take(k);
        let b = value.skip(k + 1);
        words::law_cutting(a, c, b);
        assert(value == a + seq![c] + b);
        lemma_blank(a);
        lemma_blank(b);
    }
    text::lemma_run(value, text::other_than(c));
    match text::cut(value, c) {
        Some((a, b)) => {
            let k = text::position(value, c) as int;
            lemma_blank(a);
            lemma_blank(b);
            assert(!value.take(k).contains(c)) by {
                if value.take(k).contains(c) {
                    let j = choose|j: int| 0 <= j < k && value.take(k)[j] == c;
                    assert(text::other_than(c)(value[j]));
                }
            }
            if validate::is_pair(value, c) {
                assert(parted_at(value, c, k));
            }
        },
        None => {},
    }
}

/// The init step can be run: a command has a word; the source of a copy was
/// found, and its destination is an absolute path without a space.
pub open spec fn can_be_run(step: args::StepView, found: Option<Result<String, Error>>) -> bool {
    match step {
        args::StepView::Exec(words) => words.len() > 0,
        args::StepView::Cp(_, dest) => {
            &&& found matches Some(Ok(_))
            &&& dest.len() > 0
            &&& dest[0] == '/'
            &&& !dest.contains(' ')
        },
    }
}

/// What was found for the init step at a position.
pub open spec fn found_at(resolved: Seq<Result<String, Error>>, i: int) -> Option<
    Result<String, Error>,
> {
    if 0 <= i < resolved.len() {
        Some(resolved[i])
    } else {
        None
    }
}

/// A value that is declared is one word.
pub open spec fn word_if_any(slot: Option<Seq<char>>) -> bool {
    slot matches Some(v) ==> one_word(v)
}

/// Every value of the policy is of its kind.
pub open spec fn of_its_kind(c: config::ConfigView) -> bool {
    &&& forall|i: int| 0 <= i < c.extra_hosts.len() ==> two_sides(#[trigger] c.extra_hosts[i], ':')
    &&& forall|i: int| 0 <= i < c.env.len() ==> expansion::is_name((#[trigger] c.env[i]).0)
    &&& forall|i: int|
        0 <= i < c.runtime_env.len() ==> expansion::is_name(#[trigger] c.runtime_env[i])
    &&& forall|i: int|
        0 <= i < c.security_opts.len() ==> two_sides(#[trigger] c.security_opts[i], '=')
    &&& forall|i: int| 0 <= i < c.mounts.len() ==> one_word(#[trigger] c.mounts[i])
    &&& forall|i: int| 0 <= i < c.ulimits.len() ==> one_word(#[trigger] c.ulimits[i])
    &&& forall|i: int| 0 <= i < c.entry.len() ==> (#[trigger] c.entry[i]).len() > 0
    &&& word_if_any(c.cgroupns)
    &&& word_if_any(c.ipc)
    &&& word_if_any(c.pid)
    &&& word_if_any(c.userns)
    &&& word_if_any(c.user)
    &&& c.workdir matches Some(w) ==> w.len() > 0 && w[0] == '/'
}

/// The init steps of the policy, if it declares any, are there and can be
/// run.
pub open spec fn steps_can_be_run(
    init: Option<Seq<args::StepView>>,
    resolved: Seq<Result<String, Error>>,
) -> bool {
    init matches Some(steps) ==> {
        &&& steps.len() > 0
        &&& forall|i: int|
            0 <= i < steps.len() ==> can_be_run(#[trigger] steps[i], found_at(resolved, i))
    }
}

proof fn lemma_starts_with_slash(s: Seq<char>)
    ensures
        text::starts(s, "/"@) <==> s.len() > 0 && s[0] == '/',
{
    reveal_strlit("/");
    assert("/"@ == seq!['/']);
    if s.len() > 0 && s[0] == '/' {
        assert(s.subrange(0, 1) == seq!['/']);
    }
    if text::starts(s, "/"@) {
        assert(s.subrange(0, 1)[0] == '/');
    }
}

proof fn lemma_lists(c: config::ConfigView)
    ensures
        validate::extra_hosts_fault(c.extra_hosts) is None <==> forall|i: int|
            0 <= i < c.extra_hosts.len() ==> two_sides(#[trigger] c.extra_hosts[i], ':'),
        validate::security_opts_fault(c.security_opts) is None <==> forall|i: int|
            0 <= i < c.security_opts.len() ==> two_sides(#[trigger] c.security_opts[i], '='),
        validate::mount_specs_fault(c.mounts) is None <==> forall|i: int|
            0 <= i < c.mounts.len() ==> one_word(#[trigger] c.mounts[i]),
        shape::ulimits_fault(c.ulimits) is None <==> forall|i: int|
            0 <= i < c.ulimits.len() ==> one_word(#[trigger] c.ulimits[i]),
{
    assert forall|v: Seq<char>, ch: char| #[trigger] validate::is_pair(v, ch) <==> two_sides(v, ch) by {
        law_words_and_pairs(v, ch);
    }
    assert forall|v: Seq<char>| #[trigger] validate::single_token(v) <==> one_word(v) by {
        law_words_and_pairs(v, ' ');
    }
    results::lemma_no_fault(c.extra_hosts, |h: Seq<char>| validate::extra_host_fault(h));
    results::lemma_no_fault(c.security_opts, |o: Seq<char>| validate::security_opt_fault(o));
    results::lemma_no_fault(c.mounts, |s: Seq<char>| validate::mount_spec_fault(s));
    results::lemma_no_fault(c.ulimits, |u: Seq<char>| validate::ns_value_fault("ulimits"@, u));
}

proof fn lemma_names(c: config::ConfigView)
    ensures
        validate::env_names_fault(validate::keys(c.env)) is None <==> forall|i: int|
            0 <= i < c.env.len() ==> expansion::is_name((#[trigger] c.env[i]).0),
        shape::runtime_env_fault(c.runtime_env) is None <==> forall|i: int|
            0 <= i < c.runtime_env.len() ==> expansion::is_name(#[trigger] c.runtime_env[i]),
        shape::entry_fault(c.entry) is None <==> forall|i: int|
            0 <= i < c.entry.len() ==> (#[trigger] c.entry[i]).len() > 0,
{
    assert forall|n: Seq<char>| #[trigger]
        validate::valid_env_name(n) <==> expansion::is_name(n) by {
        expansion::law_variable_names(n);
    }
    let keys = validate::keys(c.env);
    results::lemma_no_fault(keys, |k: Seq<char>| validate::env_name_fault(k));
    if validate::env_names_fault(keys) is None {
        assert forall|i: int| 0 <= i < c.env.len() implies expansion::is_name(
            (#[trigger] c.env[i]).0,
        ) by {
            assert(keys[i] == c.env[i].0);
        }
    }
    if forall|i: int| 0 <= i < c.env.len() ==> expansion::is_name((#[trigger] c.env[i]).0) {
        assert forall|i: int| 0 <= i < keys.len() implies (|k: Seq<char>|
            validate::env_name_fault(k))(#[trigger] keys[i]) is None by {
            assert(keys[i] == c.env[i].0);
        }
    }
    let runtime = |i: int, n: Seq<char>| shape::runtime_name_fault(i, n);
    results::lemma_no_fault_from(c.runtime_env, 0, runtime);
    if shape::runtime_env_fault(c.runtime_env) is None {
        assert forall|i: int| 0 <= i < c.runtime_env.len() implies expansion::is_name(
            #[trigger] c.runtime_env[i],
        ) by {
            assert(runtime(0 + i, c.runtime_env[i]) is None);
        }
    }
    let entry = |i: int, w: Seq<char>| shape::entry_word_fault(i, w);
    results::lemma_no_fault_from(c.entry, 0, entry);
    if shape::entry_fault(c.entry) is None {
        assert forall|i: int| 0 <= i < c.entry.len() implies (#[trigger] c.entry[i]).len() > 0 by {
            assert(entry(0 + i, c.entry[i]) is None);
        }
    }
}

proof fn lemma_steps(
    init: Option<Seq<args::StepView>>,
    resolved: Seq<Result<String, Error>>,
)
    ensures
        shape::init_checked(init, resolved) is Ok <==> steps_can_be_run(init, resolved),
{
    if let Some(steps) = init {
        let f = shape::step_checked(resolved);
        assert forall|i: int| 0 <= i < steps.len() implies (f(i, #[trigger] steps[i]) is Ok
            <==> can_be_run(steps[i], found_at(resolved, i))) by {
            if let args::StepView::Cp(_, dest) = steps[i] {
                lemma_starts_with_slash(dest);
            }
        }
        if steps_can_be_run(init, resolved) {
            results::lemma_collected_ok(steps, f);
        }
        if shape::init_checked(init, resolved) is Ok {
            results::lemma_collected_items(steps, f);
            let done = results::collected(steps, f)->Ok_0;
            assert forall|i: int| 0 <= i < steps.len() implies can_be_run(
                #[trigger] steps[i],
                found_at(resolved, i),
            ) by {
                assert(f(i, steps[i]) == Ok::<args::StepView, error::Fault>(done[i]));
            }
        }
    }
}

/// A policy is accepted exactly where every value is of its kind and its
/// init steps can be run.
pub proof fn law_accepted_policies(
    c: config::ConfigView,
    resolved: Seq<Result<String, Error>>,
)
    ensures
        shape::shaped(c, resolved) is Ok <==> of_its_kind(c) && steps_can_be_run(c.init, resolved),
{
    lemma_lists(c);
    lemma_names(c);
    lemma_steps(c.init, resolved);
    assert forall|v: Seq<char>| #[trigger] validate::single_token(v) <==> one_word(v) by {
        law_words_and_pairs(v, ' ');
    }
    if let Some(w) = c.workdir {
        lemma_starts_with_slash(w);
    }
}

/// A value without the white space around it; a blank one counts as none.
pub open spec fn bare_if_any(slot: Option<Seq<char>>, result: Option<Seq<char>>) -> bool {
    match slot {
        Some(v) => if words::all_blank(v) {
            result is None
        } else {
            result matches Some(w) && words::solid_ends(w) && exists|b: Seq<char>, a: Seq<char>|
                #[trigger] words::wraps(v, b, w, a)
        },
        None => result is None,
    }
}

/// What is accepted stays as it is, but for the white space around the
/// image and the network, and for the sources of copies, which are those
/// that were found.
pub proof fn law_accepted_policy_is_kept(
    c: config::ConfigView,
    resolved: Seq<Result<String, Error>>,
    d: config::ConfigView,
)
    requires
        shape::shaped(c, resolved) == Ok::<config::ConfigView, error::Fault>(d),
    ensures
        bare_if_any(c.image, d.image),
        bare_if_any(c.network, d.network),
        d == (config::ConfigView { image: d.image, network: d.network, init: d.init, ..c }),
        match c.init {
            None => d.init is None,
            Some(steps) => d.init matches Some(done) && done.len() == steps.len() && forall|i: int|
                0 <= i < steps.len() ==> #[trigger] done[i] == match steps[i] {
                    args::StepView::Exec(_) => steps[i],
                    args::StepView::Cp(_, dest) => args::StepView::Cp(
                        (resolved[i]->Ok_0)@,
                        dest,
                    ),
                },
        },
{
    lemma_bare(c.image);
    lemma_bare(c.network);
    if let Some(steps) = c.init {
        let f = shape::step_checked(resolved);
        results::lemma_collected_items(steps, f);
        let done = d.init->Some_0;
        assert forall|i: int| 0 <= i < steps.len() implies #[trigger] done[i] == match steps[i] {
            args::StepView::Exec(_) => steps[i],
            args::StepView::Cp(_, dest) => args::StepView::Cp((resolved[i]->Ok_0)@, dest),
        } by {
            assert(f(i, steps[i]) == Ok::<args::StepView, error::Fault>(done[i]));
        }
    }
}

proof fn lemma_bare(slot: Option<Seq<char>>)
    ensures
        bare_if_any(slot, shape::trimmed_or_absent(slot)),
{
    if let Some(v) = slot {
        lemma_blank(v);
        words::law_only_white_space_is_trimmed(v);
    }
}

/// In a loaded policy, a reference to a variable that the environment of
/// the profile sets is what the environment sets it to, whatever the env
/// files and the caller set.
pub proof fn law_loaded_values_see_the_environment<F: Fn(&str) -> Result<String, Error>>(
    c: config::ConfigView,
    caller: Map<Seq<char>, Seq<char>>,
    found_files: Seq<EnvFile>,
    resolve: F,
    d: config::ConfigView,
    i: int,
)
    requires
        table::distinct_keys(c.env),
        shape::is_loaded(Some(c), caller, found_files, resolve, Ok(d)),
        0 <= i < c.env.len(),
    ensures
        d.env.len() == c.env.len(),
        d.env[i].0 == c.env[i].0,
        ({
            let name = c.env[i].0;
            let value = d.env[i].1;
            &&& (c.image matches Some(v) && profile::refers_to(v, name)) ==> bare_if_any(
                Some(value),
                d.image,
            )
            &&& (c.network matches Some(v) && profile::refers_to(v, name)) ==> bare_if_any(
                Some(value),
                d.network,
            )
            &&& profile::passes_slot_on(c.workdir, d.workdir, name, value)
            &&& profile::passes_slot_on(c.cgroupns, d.cgroupns, name, value)
            &&& profile::passes_slot_on(c.ipc, d.ipc, name, value)
            &&& profile::passes_slot_on(c.pid, d.pid, name, value)
            &&& profile::passes_slot_on(c.userns, d.userns, name, value)
            &&& profile::passes_slot_on(c.user, d.user, name, value)
            &&& profile::passes_on(c.mounts, d.mounts, name, value)
            &&& profile::passes_on(c.entry, d.entry, name, value)
            &&& profile::passes_on(c.ulimits, d.ulimits, name, value)
            &&& profile::passes_on(c.extra_hosts, d.extra_hosts, name, value)
            &&& profile::passes_on(c.security_opts, d.security_opts, name, value)
        }),
{
    let e = layers::policy_expanded(c, caller, found_files)->Ok_0;
    let resolved = choose|resolved: Seq<Result<String, Error>>| #[trigger]
        shape::are_resolutions(resolve, e.init, resolved) && Ok::<
            config::ConfigView,
            error::Fault,
        >(d) == shape::shaped(e, resolved);
    law_accepted_policies(e, resolved);
    law_accepted_policy_is_kept(e, resolved, d);
    profile::law_expanded_keys(c, caller, found_files, e);
    assert(e.env[i].0 == c.env[i].0);
    assert(expansion::is_name(e.env[i].0));
    profile::law_profile_environment_wins(c, caller, found_files, e, i);
}

/// Without a profile, there is no policy: nothing is declared.
pub proof fn law_no_profile_declares_nothing<F: Fn(&str) -> Result<String, Error>>(
    caller: Map<Seq<char>, Seq<char>>,
    found_files: Seq<EnvFile>,
    resolve: F,
    r: Result<config::ConfigView, error::Fault>,
)
    requires
        shape::is_loaded(None, caller, found_files, resolve, r),
    ensures
        r matches Ok(d) && d == (config::ConfigView {
            image: None,
            network: None,
            extra_hosts: seq![],
            env: seq![],
            env_files: seq![],
            runtime_env: seq![],
            security_opts: seq![],
            mounts: seq![],
            cgroupns: None,
            ipc: None,
            pid: None,
            userns: None,
            user: None,
            privileged: false,
            no_hosts: false,
            ulimits: seq![],
            entry: seq![],
            workdir: None,
            init: None,
        }),
{
}

/// What is accepted as the name of a box: it starts with a letter or a
/// digit, and holds only these and `.`, `_`, `:`, `/` and `-`.
pub proof fn law_box_names(name: Seq<char>)
    ensures
        driver::valid_name(name) <==> name.len() > 0 && expansion::name_char(name[0]) && name[0]
            != '_' && forall|i: int|
            0 <= i < name.len() ==> expansion::name_char(#[trigger] name[i]) || name[i] == '.'
                || name[i] == ':' || name[i] == '/' || name[i] == '-',
{
    if driver::valid_name(name) {
        assert forall|i: int| 0 <= i < name.len() implies expansion::name_char(#[trigger] name[i])
            || name[i] == '.' || name[i] == ':' || name[i] == '/' || name[i] == '-' by {
            assert(driver::is_name_char(name[i]));
        }
    }
}

/// The first complaint of several, if there is one.
pub open spec fn first_told(complaints: Seq<Option<error::Fault>>) -> Option<error::Fault>
    decreases complaints.len(),
{
    if complaints.len() == 0 {
        None
    } else if complaints[0] is Some {
        complaints[0]
    } else {
        first_told(complaints.skip(1))
    }
}

/// A policy that is refused is complained about in a fixed order of its
/// settings; the init steps are looked at after these, and the main command
/// last.
pub proof fn law_order_of_the_complaints(
    c: config::ConfigView,
    resolved: Seq<Result<String, Error>>,
)
    ensures
        shape::early_fault(c) == first_told(
            seq![
                validate::extra_hosts_fault(c.extra_hosts),
                validate::env_names_fault(validate::keys(c.env)),
                shape::runtime_env_fault(c.runtime_env),
                validate::security_opts_fault(c.security_opts),
                validate::mount_specs_fault(c.mounts),
                shape::slot_fault("cgroupns"@, c.cgroupns),
                shape::slot_fault("ipc"@, c.ipc),
                shape::slot_fault("pid"@, c.pid),
                shape::slot_fault("userns"@, c.userns),
                shape::slot_fault("user"@, c.user),
                shape::ulimits_fault(c.ulimits),
                shape::workdir_fault(c.workdir),
            ],
        ),
        shape::early_fault(c) matches Some(e) ==> shape::shaped(c, resolved) == Err::<
            config::ConfigView,
            error::Fault,
        >(e),
        shape::early_fault(c) is None ==> (shape::init_checked(c.init, resolved) matches Err(e)
            ==> shape::shaped(c, resolved) == Err::<config::ConfigView, error::Fault>(e)),
        shape::early_fault(c) is None && shape::init_checked(c.init, resolved) is Ok ==> (
        shape::entry_fault(c.entry) matches Some(e) ==> shape::shaped(c, resolved) == Err::<
            config::ConfigView,
            error::Fault,
        >(e)),
{
    reveal_with_fuel(first_told, 13);
}

/// What a value that is not of its kind is told.
pub proof fn law_words_of_the_complaints(value: Seq<char>, field: Seq<char>)
    ensures
        !one_word(value) ==> validate::mount_spec_fault(value) == Some(
            error::said(
                "mounts: "@ + error::quoted(value)
                    + " must be a podman --mount spec (no spaces)"@,
            ),
        ),
        !one_word(value) ==> validate::ns_value_fault(field, value) == Some(
            error::said(
                field + ": "@ + error::quoted(value) + " must be a single token (no spaces)"@,
            ),
        ),
        !expansion::is_name(value) ==> validate::env_name_fault(value) == Some(
            error::said(
                "env: "@ + error::quoted(value)
                    + " is not a valid variable name ([A-Za-z0-9_] only)"@,
            ),
        ),
        !expansion::is_name(value) ==> validate::cli_env_fault(value) == Some(
            error::said(
                "-e: "@ + error::quoted(value)
                    + " is not a valid variable name (bare names only)"@,
            ),
        ),
        !value.contains('=') ==> validate::security_opt_fault(value) == Some(
            error::said("security_opts: "@ + error::quoted(value) + " must be 'key=value'"@),
        ),
        value.contains('=') && !two_sides(value, '=') ==> validate::security_opt_fault(value)
            == Some(
            error::said(
                "security_opts: "@ + error::quoted(value) + " must be 'key=value' (no spaces)"@,
            ),
        ),
        !value.contains(':') ==> validate::extra_host_fault(value) == Some(
            error::said("extra_hosts: "@ + error::quoted(value) + " must be 'name:address'"@),
        ),
        value.contains(':') && !two_sides(value, ':') ==> validate::extra_host_fault(value) == Some(
            error::said(
                "extra_hosts: "@ + error::quoted(value) + " must be 'name:address' (no spaces)"@,
            ),
        ),
{
    law_words_and_pairs(value, '=');
    law_words_and_pairs(value, ':');
    expansion::law_variable_names(value);
    lemma_cut(value, '=');
    lemma_cut(value, ':');
}

proof fn lemma_cut(value: Seq<char>, c: char)
    ensures
        text::cut(value, c) is None <==> !value.contains(c),
{
    if !value.contains(c) {
        words::law_cutting(value, c, Seq::empty());
    } else {
        text::lemma_run(value, text::other_than(c));
        let i = choose|i: int| 0 <= i < value.len() && value[i] == c;
        if text::position(value, c) >= value.len() {
            assert(text::other_than(c)(value[i]));
        }
    }
}

} // verus!

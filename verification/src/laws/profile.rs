//! What a loaded policy holds, in terms of what its profile declares, its
//! env files say and the caller has set.

use vstd::prelude::*;

use crate::config;
use crate::config::layers;
use crate::config::layers::EnvFile;
use crate::driver::args;
use crate::error;
use crate::expand;
use crate::laws::expansion;
use crate::laws::words;
use crate::results;
use crate::table;
use crate::text;

verus! {

// ---------------------------------------------------------------------
// Variables
// ---------------------------------------------------------------------

/// One of the pairs has the key.
pub open spec fn sets(pairs: Seq<(Seq<char>, Seq<char>)>, key: Seq<char>) -> bool {
    exists|i: int| 0 <= i < pairs.len() && (#[trigger] pairs[i]).0 == key
}

/// The variables are those of the pairs, and below them those that were
/// there before.
pub open spec fn on_top(
    vars: Map<Seq<char>, Seq<char>>,
    pairs: Seq<(Seq<char>, Seq<char>)>,
    below: Map<Seq<char>, Seq<char>>,
) -> bool {
    &&& forall|i: int|
        0 <= i < pairs.len() ==> vars.contains_key((#[trigger] pairs[i]).0) && vars[pairs[i].0]
            == pairs[i].1
    &&& forall|key: Seq<char>|
        !sets(pairs, key) ==> (#[trigger] vars.contains_key(key) <==> below.contains_key(key))
    &&& forall|key: Seq<char>|
        !sets(pairs, key) && below.contains_key(key) ==> #[trigger] vars[key] == below[key]
}

proof fn lemma_set(
    below: Map<Seq<char>, Seq<char>>,
    pairs: Seq<(Seq<char>, Seq<char>)>,
    i: int,
)
    requires
        table::distinct_keys(pairs),
        0 <= i < pairs.len(),
    ensures
        layers::layered(below, pairs).contains_key(pairs[i].0),
        layers::layered(below, pairs)[pairs[i].0] == pairs[i].1,
{
    let key = pairs[i].0;
    layers::law_upper_layer_wins(below, pairs, key);
    table::lemma_key_index(pairs, key);
    let n = table::key_index(pairs, key) as int;
    if n < i {
        assert(pairs[n].0 != pairs[i].0);
    } else if i < n {
        assert(pairs[i].0 != key);
    }
}

proof fn lemma_not_set(
    below: Map<Seq<char>, Seq<char>>,
    pairs: Seq<(Seq<char>, Seq<char>)>,
    key: Seq<char>,
)
    requires
        table::distinct_keys(pairs),
        !sets(pairs, key),
    ensures
        layers::layered(below, pairs).contains_key(key) == below.contains_key(key),
        below.contains_key(key) ==> layers::layered(below, pairs)[key] == below[key],
{
    layers::law_upper_layer_wins(below, pairs, key);
    table::lemma_key_index(pairs, key);
    let n = table::key_index(pairs, key) as int;
    if n < pairs.len() {
        assert(pairs[n].0 == key);
    }
}

/// A layer of pairs with distinct keys on top of variables gives exactly
/// these: what the pairs set, whatever was set below, and else what was set
/// below.
pub proof fn law_layer_on_top(
    vars: Map<Seq<char>, Seq<char>>,
    pairs: Seq<(Seq<char>, Seq<char>)>,
    below: Map<Seq<char>, Seq<char>>,
)
    requires
        table::distinct_keys(pairs),
    ensures
        on_top(vars, pairs, below) <==> vars == layers::layered(below, pairs),
{
    let all = layers::layered(below, pairs);
    assert forall|i: int| 0 <= i < pairs.len() implies all.contains_key((#[trigger] pairs[i]).0)
        && all[pairs[i].0] == pairs[i].1 by {
        lemma_set(below, pairs, i);
    }
    assert forall|key: Seq<char>| !sets(pairs, key) implies (#[trigger] all.contains_key(key)
        <==> below.contains_key(key)) by {
        lemma_not_set(below, pairs, key);
    }
    assert forall|key: Seq<char>|
        !sets(pairs, key) && below.contains_key(key) implies #[trigger] all[key]
        == below[key] by {
        lemma_not_set(below, pairs, key);
    }
    if on_top(vars, pairs, below) {
        assert forall|key: Seq<char>|
            vars.contains_key(key) == all.contains_key(key) && (vars.contains_key(key)
                ==> vars[key] == all[key]) by {
            if sets(pairs, key) {
                let i = choose|i: int| 0 <= i < pairs.len() && (#[trigger] pairs[i]).0 == key;
                assert(pairs[i].0 == key);
            }
        }
        assert(vars =~= all);
    }
}

// ---------------------------------------------------------------------
// Values
// ---------------------------------------------------------------------

/// The value expands to the text, where these variables are set.
pub open spec fn comes_to(
    value: Seq<char>,
    result: Seq<char>,
    vars: Map<Seq<char>, Seq<char>>,
    place: Seq<char>,
) -> bool {
    expand::expansion(value, vars, place) == Ok::<Seq<char>, error::Fault>(result)
}

/// A value that is declared comes to a value; one that is not stays away.
pub open spec fn slot_comes_to(
    slot: Option<Seq<char>>,
    result: Option<Seq<char>>,
    vars: Map<Seq<char>, Seq<char>>,
    place: Seq<char>,
) -> bool {
    match slot {
        Some(v) => result matches Some(w) && comes_to(v, w, vars, place),
        None => result is None,
    }
}

/// Each value of a list comes to the value at the same position.
pub open spec fn list_comes_to(
    list: Seq<Seq<char>>,
    result: Seq<Seq<char>>,
    vars: Map<Seq<char>, Seq<char>>,
    place: Seq<char>,
) -> bool {
    &&& result.len() == list.len()
    &&& forall|i: int|
        0 <= i < list.len() ==> comes_to(
            list[i],
            #[trigger] result[i],
            vars,
            place + "["@ + text::decimal(i as nat) + "]"@,
        )
}

/// Each value of a table comes to the value of the same key, at the same
/// position.
pub open spec fn table_comes_to(
    pairs: Seq<(Seq<char>, Seq<char>)>,
    result: Seq<(Seq<char>, Seq<char>)>,
    vars: Map<Seq<char>, Seq<char>>,
    place: Seq<char>,
) -> bool {
    &&& result.len() == pairs.len()
    &&& forall|i: int|
        0 <= i < pairs.len() ==> (#[trigger] result[i]).0 == pairs[i].0 && comes_to(
            pairs[i].1,
            result[i].1,
            vars,
            place + "."@ + pairs[i].0,
        )
}

/// Each word of an init step comes to the word at the same position.
pub open spec fn step_comes_to(
    step: args::StepView,
    result: args::StepView,
    vars: Map<Seq<char>, Seq<char>>,
    i: int,
) -> bool {
    let place = "init"@ + "["@ + text::decimal(i as nat) + "]"@;
    match step {
        args::StepView::Exec(words) => result matches args::StepView::Exec(done) && list_comes_to(
            words,
            done,
            vars,
            place,
        ),
        args::StepView::Cp(host, dest) => result matches args::StepView::Cp(h, d) && comes_to(
            host,
            h,
            vars,
            place + ".0"@,
        ) && comes_to(dest, d, vars, place + ".1"@),
    }
}

/// Each init step comes to the step at the same position.
pub open spec fn init_comes_to(
    init: Option<Seq<args::StepView>>,
    result: Option<Seq<args::StepView>>,
    vars: Map<Seq<char>, Seq<char>>,
) -> bool {
    match init {
        Some(steps) => result matches Some(done) && done.len() == steps.len() && forall|i: int|
            0 <= i < steps.len() ==> step_comes_to(steps[i], #[trigger] done[i], vars, i),
        None => result is None,
    }
}

/// Every value outside the environment comes to its value; what is no value
/// is as it was.
pub open spec fn policy_comes_to(
    c: config::ConfigView,
    d: config::ConfigView,
    vars: Map<Seq<char>, Seq<char>>,
) -> bool {
    &&& slot_comes_to(c.image, d.image, vars, "image"@)
    &&& slot_comes_to(c.network, d.network, vars, "network"@)
    &&& slot_comes_to(c.cgroupns, d.cgroupns, vars, "cgroupns"@)
    &&& slot_comes_to(c.ipc, d.ipc, vars, "ipc"@)
    &&& slot_comes_to(c.pid, d.pid, vars, "pid"@)
    &&& slot_comes_to(c.userns, d.userns, vars, "userns"@)
    &&& slot_comes_to(c.user, d.user, vars, "user"@)
    &&& slot_comes_to(c.workdir, d.workdir, vars, "workdir"@)
    &&& list_comes_to(c.ulimits, d.ulimits, vars, "ulimits"@)
    &&& list_comes_to(c.entry, d.entry, vars, "entry"@)
    &&& list_comes_to(c.extra_hosts, d.extra_hosts, vars, "extra_hosts"@)
    &&& list_comes_to(c.security_opts, d.security_opts, vars, "security_opts"@)
    &&& list_comes_to(c.mounts, d.mounts, vars, "mounts"@)
    &&& init_comes_to(c.init, d.init, vars)
    &&& d.env_files == c.env_files
    &&& d.runtime_env == c.runtime_env
    &&& d.privileged == c.privileged
    &&& d.no_hosts == c.no_hosts
}

proof fn lemma_list(
    list: Seq<Seq<char>>,
    result: Seq<Seq<char>>,
    vars: Map<Seq<char>, Seq<char>>,
    place: Seq<char>,
)
    ensures
        list_comes_to(list, result, vars, place) <==> layers::list_expansion(list, place, vars)
            == Ok::<Seq<Seq<char>>, error::Fault>(result),
{
    let f = layers::element_expansion(place, vars);
    if list_comes_to(list, result, vars, place) {
        assert forall|i: int| 0 <= i < list.len() implies f(i, #[trigger] list[i]) is Ok by {
            assert(comes_to(
                list[i],
                result[i],
                vars,
                place + "["@ + text::decimal(i as nat) + "]"@,
            ));
        }
        results::lemma_collected_ok(list, f);
    }
    if results::collected(list, f) is Ok {
        results::lemma_collected_items(list, f);
        let done = results::collected(list, f)->Ok_0;
        assert forall|i: int| 0 <= i < list.len() implies comes_to(
            list[i],
            #[trigger] done[i],
            vars,
            place + "["@ + text::decimal(i as nat) + "]"@,
        ) by {
            assert(f(i, list[i]) == Ok::<Seq<char>, error::Fault>(done[i]));
        }
        if list_comes_to(list, result, vars, place) {
            assert forall|i: int| 0 <= i < list.len() implies done[i] == result[i] by {
                assert(comes_to(
                    list[i],
                    result[i],
                    vars,
                    place + "["@ + text::decimal(i as nat) + "]"@,
                ));
            }
            assert(done =~= result);
        }
    }
}

proof fn lemma_table(
    pairs: Seq<(Seq<char>, Seq<char>)>,
    result: Seq<(Seq<char>, Seq<char>)>,
    vars: Map<Seq<char>, Seq<char>>,
    place: Seq<char>,
)
    ensures
        table_comes_to(pairs, result, vars, place) <==> layers::table_expansion(pairs, place, vars)
            == Ok::<Seq<(Seq<char>, Seq<char>)>, error::Fault>(result),
{
    let f = layers::pair_expansion(place, vars);
    if table_comes_to(pairs, result, vars, place) {
        assert forall|i: int| 0 <= i < pairs.len() implies f(i, #[trigger] pairs[i]) is Ok by {
            assert(result[i].0 == pairs[i].0);
        }
        results::lemma_collected_ok(pairs, f);
    }
    if results::collected(pairs, f) is Ok {
        results::lemma_collected_items(pairs, f);
        let done = results::collected(pairs, f)->Ok_0;
        assert forall|i: int| 0 <= i < pairs.len() implies (#[trigger] done[i]).0 == pairs[i].0
            && comes_to(pairs[i].1, done[i].1, vars, place + "."@ + pairs[i].0) by {
            assert(f(i, pairs[i]) == Ok::<(Seq<char>, Seq<char>), error::Fault>(done[i]));
        }
        if table_comes_to(pairs, result, vars, place) {
            assert forall|i: int| 0 <= i < pairs.len() implies done[i] == result[i] by {
                assert(result[i].0 == pairs[i].0);
            }
            assert(done =~= result);
        }
    }
}

proof fn lemma_step(
    step: args::StepView,
    result: args::StepView,
    vars: Map<Seq<char>, Seq<char>>,
    i: int,
)
    ensures
        step_comes_to(step, result, vars, i) <==> layers::step_expansion(vars)(i, step) == Ok::<
            args::StepView,
            error::Fault,
        >(result),
{
    let place = "init"@ + "["@ + text::decimal(i as nat) + "]"@;
    match step {
        args::StepView::Exec(words) => {
            if let args::StepView::Exec(done) = result {
                lemma_list(words, done, vars, place);
            }
        },
        args::StepView::Cp(host, dest) => {},
    }
}

proof fn lemma_init(
    init: Option<Seq<args::StepView>>,
    result: Option<Seq<args::StepView>>,
    vars: Map<Seq<char>, Seq<char>>,
)
    ensures
        init_comes_to(init, result, vars) <==> layers::init_expansion(init, vars) == Ok::<
            Option<Seq<args::StepView>>,
            error::Fault,
        >(result),
{
    if let Some(steps) = init {
        let f = layers::step_expansion(vars);
        if init_comes_to(init, result, vars) {
            let wanted = result->Some_0;
            assert forall|i: int| 0 <= i < steps.len() implies f(i, #[trigger] steps[i]) is Ok by {
                assert(step_comes_to(steps[i], wanted[i], vars, i));
                lemma_step(steps[i], wanted[i], vars, i);
            }
            results::lemma_collected_ok(steps, f);
        }
        if results::collected(steps, f) is Ok {
            results::lemma_collected_items(steps, f);
            let done = results::collected(steps, f)->Ok_0;
            assert forall|i: int| 0 <= i < steps.len() implies step_comes_to(
                steps[i],
                #[trigger] done[i],
                vars,
                i,
            ) by {
                lemma_step(steps[i], done[i], vars, i);
            }
            if init_comes_to(init, result, vars) {
                let wanted = result->Some_0;
                assert forall|i: int| 0 <= i < steps.len() implies done[i] == wanted[i] by {
                    assert(step_comes_to(steps[i], wanted[i], vars, i));
                    lemma_step(steps[i], wanted[i], vars, i);
                }
                assert(done =~= wanted);
            }
        }
    }
}

proof fn lemma_values(
    c: config::ConfigView,
    d: config::ConfigView,
    vars: Map<Seq<char>, Seq<char>>,
)
    requires
        c.env == d.env,
    ensures
        policy_comes_to(c, d, vars) <==> layers::values_expanded(c, vars) == Ok::<
            config::ConfigView,
            error::Fault,
        >(d),
{
    lemma_list(c.ulimits, d.ulimits, vars, "ulimits"@);
    lemma_list(c.entry, d.entry, vars, "entry"@);
    lemma_list(c.extra_hosts, d.extra_hosts, vars, "extra_hosts"@);
    lemma_list(c.security_opts, d.security_opts, vars, "security_opts"@);
    lemma_list(c.mounts, d.mounts, vars, "mounts"@);
    lemma_init(c.init, d.init, vars);
}

/// A profile is accepted, and comes to a policy, exactly where every value
/// comes to its value. The values of the environment see the variables of
/// the env files, and below them those of the caller. Every other value
/// sees those of the environment, below them those of the env files, and
/// below them those of the caller.
pub proof fn law_values_see_their_layers(
    c: config::ConfigView,
    caller: Map<Seq<char>, Seq<char>>,
    found_files: Seq<EnvFile>,
    d: config::ConfigView,
    files: Seq<(Seq<char>, Seq<char>)>,
    outside: Map<Seq<char>, Seq<char>>,
    inside: Map<Seq<char>, Seq<char>>,
)
    requires
        table::distinct_keys(c.env),
        layers::file_env(c.env_files, found_files, caller) == Ok::<
            Seq<(Seq<char>, Seq<char>)>,
            error::Fault,
        >(files),
        on_top(outside, files, caller),
        on_top(inside, d.env, outside),
    ensures
        layers::policy_expanded(c, caller, found_files) == Ok::<config::ConfigView, error::Fault>(d)
            <==> table_comes_to(c.env, d.env, outside, "env"@) && policy_comes_to(c, d, inside),
{
    lemma_file_keys_are_distinct(c.env_files, found_files, caller);
    law_layer_on_top(outside, files, caller);
    lemma_table(c.env, d.env, outside, "env"@);
    let e = config::ConfigView { env: d.env, ..c };
    lemma_values(e, d, layers::layered(outside, d.env));
    if table_comes_to(c.env, d.env, outside, "env"@) {
        lemma_same_keys(c.env, d.env);
        law_layer_on_top(inside, d.env, outside);
    }
    if layers::policy_expanded(c, caller, found_files) == Ok::<config::ConfigView, error::Fault>(
        d,
    ) {
        let env = layers::table_expansion(c.env, "env"@, outside)->Ok_0;
        assert(env == d.env);
    }
}

proof fn lemma_same_keys(
    a: Seq<(Seq<char>, Seq<char>)>,
    b: Seq<(Seq<char>, Seq<char>)>,
)
    requires
        table::distinct_keys(a),
        a.len() == b.len(),
        forall|i: int| 0 <= i < a.len() ==> (#[trigger] b[i]).0 == a[i].0,
    ensures
        table::distinct_keys(b),
{
    assert forall|i: int, j: int| 0 <= i < j < b.len() implies (#[trigger] b[i]).0 != (
    #[trigger] b[j]).0 by {
        assert(b[i].0 == a[i].0 && b[j].0 == a[j].0);
    }
}

proof fn lemma_files_read_distinct(
    raw: Seq<Seq<char>>,
    files: Seq<EnvFile>,
    caller: Map<Seq<char>, Seq<char>>,
    n: nat,
)
    ensures
        layers::files_read(raw, files, caller, n) matches Ok(pairs) ==> table::distinct_keys(pairs),
    decreases n,
{
    if n > 0 {
        lemma_files_read_distinct(raw, files, caller, (n - 1) as nat);
        if let Ok(pairs) = layers::files_read(raw, files, caller, (n - 1) as nat) {
            if let layers::EnvFileView::Content(p, content) = layers::found(files, n - 1) {
                layers::law_env_file_keeps_keys_distinct(text::split(content, '\n'), 1, p, pairs);
            }
        }
    }
}

proof fn lemma_file_keys_are_distinct(
    raw: Seq<Seq<char>>,
    files: Seq<EnvFile>,
    caller: Map<Seq<char>, Seq<char>>,
)
    ensures
        layers::file_env(raw, files, caller) matches Ok(pairs) ==> table::distinct_keys(pairs),
{
    lemma_files_read_distinct(raw, files, caller, raw.len());
    if let Ok(pairs) = layers::files_read(raw, files, caller, raw.len()) {
        if let Ok(done) = layers::table_expansion(pairs, "env_files"@, caller) {
            lemma_table(pairs, done, caller, "env_files"@);
            lemma_same_keys(pairs, done);
        }
    }
}

// ---------------------------------------------------------------------
// References to the environment of the profile
// ---------------------------------------------------------------------

/// The value is a reference to the variable, and nothing else.
pub open spec fn refers_to(value: Seq<char>, name: Seq<char>) -> bool {
    value == seq!['$'] + name || value == seq!['$', '{'] + name + seq!['}']
}

proof fn lemma_reference_comes_to(
    value: Seq<char>,
    result: Seq<char>,
    vars: Map<Seq<char>, Seq<char>>,
    place: Seq<char>,
    name: Seq<char>,
)
    requires
        comes_to(value, result, vars, place),
        refers_to(value, name),
        expansion::is_name(name),
        vars.contains_key(name),
    ensures
        result == vars[name],
{
    let nothing = Seq::<char>::empty();
    expansion::law_set_variable_is_put_in(name, nothing, vars, place);
    expansion::law_text_before_a_dollar_stays(nothing, nothing, vars, place);
    assert(seq!['$'] + name + nothing == seq!['$'] + name);
    assert(seq!['$', '{'] + name + seq!['}'] + nothing == seq!['$', '{'] + name + seq!['}']);
    assert(vars[name] + nothing == vars[name]);
}

proof fn lemma_references_come_to(
    list: Seq<Seq<char>>,
    result: Seq<Seq<char>>,
    vars: Map<Seq<char>, Seq<char>>,
    place: Seq<char>,
    name: Seq<char>,
)
    requires
        list_comes_to(list, result, vars, place),
        expansion::is_name(name),
        vars.contains_key(name),
    ensures
        passes_on(list, result, name, vars[name]),
{
    assert forall|k: int|
        0 <= k < list.len() && refers_to(#[trigger] list[k], name) implies result[k]
        == vars[name] by {
        let at = place + "["@ + text::decimal(k as nat) + "]"@;
        assert(comes_to(list[k], result[k], vars, at));
        lemma_reference_comes_to(list[k], result[k], vars, at, name);
    }
}

/// Where the value is a reference to the variable, the text is what comes
/// out.
pub open spec fn passes_slot_on(
    slot: Option<Seq<char>>,
    result: Option<Seq<char>>,
    name: Seq<char>,
    t: Seq<char>,
) -> bool {
    (slot matches Some(v) && refers_to(v, name)) ==> result == Some(t)
}

/// Wherever a value of the list is a reference to the variable, the text is
/// what comes out at that position.
pub open spec fn passes_on(
    list: Seq<Seq<char>>,
    result: Seq<Seq<char>>,
    name: Seq<char>,
    t: Seq<char>,
) -> bool {
    &&& result.len() == list.len()
    &&& forall|k: int|
        0 <= k < list.len() && refers_to(#[trigger] list[k], name) ==> result[k] == t
}

/// Wherever a word of an init step is a reference to the variable, the text
/// is what comes out at that position.
pub open spec fn passes_step_on(
    step: args::StepView,
    result: args::StepView,
    name: Seq<char>,
    t: Seq<char>,
) -> bool {
    match step {
        args::StepView::Exec(words) => result matches args::StepView::Exec(done) && passes_on(
            words,
            done,
            name,
            t,
        ),
        args::StepView::Cp(host, dest) => result matches args::StepView::Cp(h, d) && (refers_to(
            host,
            name,
        ) ==> h == t) && (refers_to(dest, name) ==> d == t),
    }
}

/// The environment of an accepted profile keeps its names, in their order.
pub proof fn law_expanded_keys(
    c: config::ConfigView,
    caller: Map<Seq<char>, Seq<char>>,
    found_files: Seq<EnvFile>,
    d: config::ConfigView,
)
    requires
        layers::policy_expanded(c, caller, found_files) == Ok::<config::ConfigView, error::Fault>(
            d,
        ),
    ensures
        d.env.len() == c.env.len(),
        forall|i: int| 0 <= i < c.env.len() ==> (#[trigger] d.env[i]).0 == c.env[i].0,
{
    let files = layers::file_env(c.env_files, found_files, caller)->Ok_0;
    lemma_table(c.env, d.env, layers::layered(caller, files), "env"@);
}

/// In an accepted profile, a reference to a variable that its environment
/// sets comes out, in every value outside the environment, as what the
/// environment sets it to, whatever the env files and the caller set.
pub proof fn law_profile_environment_wins(
    c: config::ConfigView,
    caller: Map<Seq<char>, Seq<char>>,
    found_files: Seq<EnvFile>,
    d: config::ConfigView,
    i: int,
)
    requires
        table::distinct_keys(c.env),
        layers::policy_expanded(c, caller, found_files) == Ok::<config::ConfigView, error::Fault>(
            d,
        ),
        0 <= i < c.env.len(),
        expansion::is_name(c.env[i].0),
    ensures
        d.env.len() == c.env.len(),
        d.env[i].0 == c.env[i].0,
        ({
            let name = c.env[i].0;
            let value = d.env[i].1;
            &&& passes_slot_on(c.image, d.image, name, value)
            &&& passes_slot_on(c.network, d.network, name, value)
            &&& passes_slot_on(c.workdir, d.workdir, name, value)
            &&& passes_slot_on(c.cgroupns, d.cgroupns, name, value)
            &&& passes_slot_on(c.ipc, d.ipc, name, value)
            &&& passes_slot_on(c.pid, d.pid, name, value)
            &&& passes_slot_on(c.userns, d.userns, name, value)
            &&& passes_slot_on(c.user, d.user, name, value)
            &&& passes_on(c.mounts, d.mounts, name, value)
            &&& passes_on(c.entry, d.entry, name, value)
            &&& passes_on(c.ulimits, d.ulimits, name, value)
            &&& passes_on(c.extra_hosts, d.extra_hosts, name, value)
            &&& passes_on(c.security_opts, d.security_opts, name, value)
            &&& c.init matches Some(steps) ==> (d.init matches Some(done) && done.len()
                == steps.len() && forall|k: int|
                0 <= k < steps.len() ==> passes_step_on(steps[k], #[trigger] done[k], name, value))
        }),
{
    let files = layers::file_env(c.env_files, found_files, caller)->Ok_0;
    let outside = layers::layered(caller, files);
    let inside = layers::layered(outside, d.env);
    lemma_file_keys_are_distinct(c.env_files, found_files, caller);
    law_layer_on_top(outside, files, caller);
    lemma_table(c.env, d.env, outside, "env"@);
    lemma_values(config::ConfigView { env: d.env, ..c }, d, inside);
    lemma_same_keys(c.env, d.env);
    lemma_set(outside, d.env, i);
    let name = c.env[i].0;
    let value = d.env[i].1;
    assert(inside.contains_key(name) && inside[name] == value);
    lemma_slot_reference(c.image, d.image, inside, "image"@, name);
    lemma_slot_reference(c.network, d.network, inside, "network"@, name);
    lemma_slot_reference(c.workdir, d.workdir, inside, "workdir"@, name);
    lemma_slot_reference(c.cgroupns, d.cgroupns, inside, "cgroupns"@, name);
    lemma_slot_reference(c.ipc, d.ipc, inside, "ipc"@, name);
    lemma_slot_reference(c.pid, d.pid, inside, "pid"@, name);
    lemma_slot_reference(c.userns, d.userns, inside, "userns"@, name);
    lemma_slot_reference(c.user, d.user, inside, "user"@, name);
    lemma_references_come_to(c.mounts, d.mounts, inside, "mounts"@, name);
    lemma_references_come_to(c.entry, d.entry, inside, "entry"@, name);
    lemma_references_come_to(c.ulimits, d.ulimits, inside, "ulimits"@, name);
    lemma_references_come_to(c.extra_hosts, d.extra_hosts, inside, "extra_hosts"@, name);
    lemma_references_come_to(c.security_opts, d.security_opts, inside, "security_opts"@, name);
    if let Some(steps) = c.init {
        let done = d.init->Some_0;
        assert forall|k: int| 0 <= k < steps.len() implies passes_step_on(
            steps[k],
            #[trigger] done[k],
            name,
            value,
        ) by {
            assert(step_comes_to(steps[k], done[k], inside, k));
            lemma_step_reference(steps[k], done[k], inside, k, name);
        }
    }
}

proof fn lemma_slot_reference(
    slot: Option<Seq<char>>,
    result: Option<Seq<char>>,
    vars: Map<Seq<char>, Seq<char>>,
    place: Seq<char>,
    name: Seq<char>,
)
    requires
        slot_comes_to(slot, result, vars, place),
        expansion::is_name(name),
        vars.contains_key(name),
    ensures
        passes_slot_on(slot, result, name, vars[name]),
{
    if let Some(v) = slot {
        if refers_to(v, name) {
            lemma_reference_comes_to(v, result->Some_0, vars, place, name);
        }
    }
}

proof fn lemma_step_reference(
    step: args::StepView,
    result: args::StepView,
    vars: Map<Seq<char>, Seq<char>>,
    k: int,
    name: Seq<char>,
)
    requires
        step_comes_to(step, result, vars, k),
        expansion::is_name(name),
        vars.contains_key(name),
    ensures
        passes_step_on(step, result, name, vars[name]),
{
    let place = "init"@ + "["@ + text::decimal(k as nat) + "]"@;
    match step {
        args::StepView::Exec(words) => {
            lemma_references_come_to(words, result->Exec_0, vars, place, name);
        },
        args::StepView::Cp(host, dest) => {
            if refers_to(host, name) {
                lemma_reference_comes_to(host, result->Cp_0, vars, place + ".0"@, name);
            }
            if refers_to(dest, name) {
                lemma_reference_comes_to(dest, result->Cp_1, vars, place + ".1"@, name);
            }
        },
    }
}

/// The variables of the env files are those that were read from them, each
/// expanded where only the caller's variables are set: an env file sees no
/// other.
pub proof fn law_env_files_see_the_caller(
    raw: Seq<Seq<char>>,
    found_files: Seq<EnvFile>,
    caller: Map<Seq<char>, Seq<char>>,
    read: Seq<(Seq<char>, Seq<char>)>,
    result: Seq<(Seq<char>, Seq<char>)>,
)
    requires
        layers::files_read(raw, found_files, caller, raw.len()) == Ok::<
            Seq<(Seq<char>, Seq<char>)>,
            error::Fault,
        >(read),
    ensures
        layers::file_env(raw, found_files, caller) == Ok::<
            Seq<(Seq<char>, Seq<char>)>,
            error::Fault,
        >(result) <==> table_comes_to(read, result, caller, "env_files"@),
{
    lemma_table(read, result, caller, "env_files"@);
}

// ---------------------------------------------------------------------
// The lines of an env file
// ---------------------------------------------------------------------

/// A blank line says nothing, and neither does one that starts with `#`.
pub proof fn law_comments_say_nothing(before: Seq<char>, rest: Seq<char>)
    requires
        words::all_blank(before),
    ensures
        layers::line_meaning(before) == layers::Line::Nothing,
        layers::line_meaning(before + seq!['#'] + rest) == layers::Line::Nothing,
{
    let nothing = Seq::<char>::empty();
    words::law_trimming(before, nothing, nothing);
    assert(before + nothing + nothing == before);
    let comment = seq!['#'] + rest;
    words::law_only_white_space_is_trimmed(rest);
    let (b, a) = choose|b: Seq<char>, a: Seq<char>| #[trigger]
        words::wraps(rest, b, text::trimmed(rest), a);
    let inner = text::trimmed(rest);
    reveal_strlit("#");
    assert("#"@ == seq!['#']);
    let line = before + seq!['#'] + rest;
    if inner.len() > 0 {
        let core = seq!['#'] + b + inner;
        words::law_trimming(before, core, a);
        assert(before + core + a == line);
        assert(core.subrange(0, 1) == seq!['#']);
    } else {
        let core = seq!['#'];
        assert(words::all_blank(rest)) by {
            assert forall|i: int| 0 <= i < rest.len() implies words::blank(#[trigger] rest[i]) by {
                if i < b.len() {
                    assert(rest[i] == b[i]);
                } else {
                    assert(rest[i] == a[i - b.len()]);
                }
            }
        }
        words::law_trimming(before, core, rest);
        assert(core.subrange(0, 1) == seq!['#']);
    }
}

/// The text of a setting: the name, `=` and the value, with white space
/// around the `=`; none follows it where the value is empty.
pub open spec fn setting(
    name: Seq<char>,
    before: Seq<char>,
    after: Seq<char>,
    value: Seq<char>,
) -> Seq<char> {
    if value.len() > 0 {
        name + before + seq!['='] + after + value
    } else {
        name + before + seq!['=']
    }
}

proof fn lemma_setting(name: Seq<char>, before: Seq<char>, after: Seq<char>, value: Seq<char>)
    requires
        expansion::is_name(name),
        words::all_blank(before),
        words::all_blank(after),
        words::solid_ends(value),
    ensures
        ({
            let s = setting(name, before, after, value);
            &&& words::solid_ends(s)
            &&& s.len() > name.len()
            &&& text::cut(s, '=') matches Some((k, v)) && text::trimmed(k) == name
                && text::trimmed(v) == value
        }),
{
    let s = setting(name, before, after, value);
    let k = name + before;
    let v = if value.len() > 0 {
        after + value
    } else {
        Seq::empty()
    };
    let nothing = Seq::<char>::empty();
    assert(expansion::name_char(name[0]));
    assert(expansion::name_char(name.last()));
    assert(s[0] == name[0]);
    assert(!k.contains('=')) by {
        if k.contains('=') {
            let i = choose|i: int| 0 <= i < k.len() && k[i] == '=';
            if i < name.len() {
                assert(expansion::name_char(name[i]));
            } else {
                assert(words::blank(before[i - name.len()]));
            }
        }
    }
    assert(s == k + seq!['='] + v);
    words::law_cutting(k, '=', v);
    words::law_trimming(nothing, name, before);
    assert(nothing + name + before == k);
    words::law_trimming(after, value, nothing);
    words::law_trimming(nothing, nothing, nothing);
    assert(after + value + nothing == after + value);
    assert(nothing + nothing + nothing == nothing);
    if value.len() > 0 {
        assert(s.last() == value.last());
    } else {
        assert(s.last() == '=');
    }
}

/// A line that sets a variable says so, whatever white space stands around
/// its name, its `=` and its value; an `export ` in front of it does not
/// count. (A blank behind a variable that is called `export` makes it that
/// word.)
pub proof fn law_line_sets_a_variable(
    outer: Seq<char>,
    name: Seq<char>,
    before: Seq<char>,
    after: Seq<char>,
    value: Seq<char>,
    end: Seq<char>,
)
    requires
        expansion::is_name(name),
        words::all_blank(outer),
        words::all_blank(before),
        words::all_blank(after),
        words::all_blank(end),
        words::solid_ends(value),
    ensures
        !(name == "export"@ && before.len() > 0 && before[0] == ' ') ==> layers::line_meaning(
            outer + setting(name, before, after, value) + end,
        ) == layers::Line::Pair(name, value),
        layers::line_meaning(
            outer + ("export "@ + setting(name, before, after, value)) + end,
        ) == layers::Line::Pair(name, value),
{
    let s = setting(name, before, after, value);
    lemma_setting(name, before, after, value);
    assert(expansion::name_char(name[0]));
    assert(s[0] == name[0]);
    if !(name == "export"@ && before.len() > 0 && before[0] == ' ') {
        lemma_not_export(name, before, after, value);
        lemma_plain_line(outer, s, end);
    }
    lemma_export_line(outer, s, end);
}

proof fn lemma_plain_line(outer: Seq<char>, s: Seq<char>, end: Seq<char>)
    requires
        words::all_blank(outer),
        words::all_blank(end),
        words::solid_ends(s),
        s.len() > 0,
        s[0] != '#',
        !text::starts(s, "export "@),
    ensures
        text::trimmed(outer + s + end) == s,
        !text::starts(s, "#"@),
        layers::after_export(s) == s,
{
    let nothing = Seq::<char>::empty();
    words::law_trimming(outer, s, end);
    words::law_trimming(nothing, s, nothing);
    assert(nothing + s + nothing == s);
    reveal_strlit("#");
    if text::starts(s, "#"@) {
        assert(s.subrange(0, 1)[0] == '#');
    }
}

proof fn lemma_export_line(outer: Seq<char>, s: Seq<char>, end: Seq<char>)
    requires
        words::all_blank(outer),
        words::all_blank(end),
        words::solid_ends(s),
        s.len() > 0,
    ensures
        ({
            let e = "export "@ + s;
            &&& e.len() > 0
            &&& text::trimmed(outer + e + end) == e
            &&& !text::starts(e, "#"@)
            &&& layers::after_export(e) == s
        }),
{
    let e = "export "@ + s;
    let nothing = Seq::<char>::empty();
    reveal_strlit("export ");
    reveal_strlit("#");
    assert(e[0] == 'e');
    assert(e.last() == s.last());
    words::law_trimming(outer, e, end);
    words::law_trimming(nothing, s, nothing);
    assert(nothing + s + nothing == s);
    words::law_parts_of_a_text(nothing, "export "@, s);
    if text::starts(e, "#"@) {
        assert(e.subrange(0, 1)[0] == '#');
    }
}

proof fn lemma_not_export(name: Seq<char>, before: Seq<char>, after: Seq<char>, value: Seq<char>)
    requires
        expansion::is_name(name),
        words::all_blank(before),
        !(name == "export"@ && before.len() > 0 && before[0] == ' '),
    ensures
        !text::starts(setting(name, before, after, value), "export "@),
{
    let s = setting(name, before, after, value);
    reveal_strlit("export ");
    reveal_strlit("export");
    if text::starts(s, "export "@) {
        let part = s.subrange(0, 7);
        assert(part[6] == ' ' && s[6] == ' ');
        let n = name.len() as int;
        if n > 6 {
            assert(s[6] == name[6]);
            assert(expansion::name_char(name[6]));
        } else {
            if before.len() > 0 {
                assert(s[n] == before[0]);
                assert(words::blank(before[0]));
            } else {
                assert(s[n] == '=');
            }
            assert(part[n] == s[n]);
            if n < 6 {
                assert(expansion::name_char("export "@[n]));
            } else {
                assert forall|i: int| 0 <= i < 6 implies name[i] == "export"@[i] by {
                    assert(part[i] == s[i] && s[i] == name[i]);
                }
                assert(name =~= "export"@);
            }
        }
    }
}

/// A line that says something and holds no `=` is no setting; neither is
/// one whose `=` has something else than a name in front of it.
pub proof fn law_other_lines_are_refused(
    outer: Seq<char>,
    s: Seq<char>,
    end: Seq<char>,
    k: Seq<char>,
    v: Seq<char>,
)
    requires
        words::all_blank(outer),
        words::all_blank(end),
        words::solid_ends(s),
        s.len() > 0,
        s[0] != '#',
        !text::starts(s, "export "@),
    ensures
        !s.contains('=') ==> layers::line_meaning(outer + s + end) == layers::Line::NoPair(s),
        s == k + seq!['='] + v && !k.contains('=') && !expansion::is_name(text::trimmed(k))
            ==> layers::line_meaning(outer + s + end) == layers::Line::NoName(text::trimmed(k)),
{
    let nothing = Seq::<char>::empty();
    lemma_plain_line(outer, s, end);
    if !s.contains('=') {
        words::law_cutting(s, '=', nothing);
    }
    if s == k + seq!['='] + v && !k.contains('=') {
        words::law_cutting(k, '=', v);
        expansion::law_variable_names(text::trimmed(k));
    }
}

/// The line is neither a setting nor blank or a comment.
pub open spec fn is_bad(line: Seq<char>) -> bool {
    layers::line_meaning(line) is NoPair || layers::line_meaning(line) is NoName
}

/// An env file is read where none of its lines is bad; else the first that
/// is is complained about, with the number of the line.
pub proof fn law_bad_lines_are_told(
    lines: Seq<Seq<char>>,
    number: nat,
    path: Seq<char>,
    pairs: Seq<(Seq<char>, Seq<char>)>,
    i: int,
)
    requires
        0 <= i <= lines.len(),
        forall|j: int| 0 <= j < i ==> !is_bad(#[trigger] lines[j]),
        i < lines.len() ==> is_bad(lines[i]),
    ensures
        i == lines.len() ==> layers::lines_read(lines, number, path, pairs).1 is None,
        i < lines.len() ==> layers::lines_read(lines, number, path, pairs).1 == Some(
            error::said(
                path + ":"@ + text::decimal((number + i) as nat) + ": "@
                    + match layers::line_meaning(lines[i]) {
                    layers::Line::NoPair(line) => "expected KEY=VALUE (got "@ + error::quoted(line)
                        + ")"@,
                    layers::Line::NoName(key) => error::quoted(key)
                        + " is not a valid variable name"@,
                    _ => ""@,
                },
            ),
        ),
    decreases lines.len(),
{
    if lines.len() > 0 {
        let rest = lines.skip(1);
        if i > 0 {
            assert(!is_bad(lines[0]));
            assert forall|j: int| 0 <= j < i - 1 implies !is_bad(#[trigger] rest[j]) by {
                assert(rest[j] == lines[j + 1]);
            }
            if let layers::Line::Pair(k, v) = layers::line_meaning(lines[0]) {
                law_bad_lines_are_told(rest, number + 1, path, table::put(pairs, k, v), i - 1);
            } else {
                law_bad_lines_are_told(rest, number + 1, path, pairs, i - 1);
            }
        } else {
            let place = path + ":"@ + text::decimal(number) + ": "@;
            match layers::line_meaning(lines[0]) {
                layers::Line::NoPair(line) => {
                    let a = "expected KEY=VALUE (got "@;
                    let b = error::quoted(line);
                    assert(place + a + b + ")"@ == place + (a + b + ")"@));
                },
                layers::Line::NoName(key) => {
                    let b = error::quoted(key);
                    let c = " is not a valid variable name"@;
                    assert(place + b + c == place + (b + c));
                },
                _ => {},
            }
        }
    }
}

/// The lines of an env file are the texts between its line feeds, counted
/// from one.
pub proof fn law_lines_of_an_env_file(
    lines: Seq<Seq<char>>,
    path: Seq<char>,
    pairs: Seq<(Seq<char>, Seq<char>)>,
)
    requires
        lines.len() > 0,
        forall|i: int| 0 <= i < lines.len() ==> !(#[trigger] lines[i]).contains('\n'),
    ensures
        layers::env_file_read(text::joined(lines, seq!['\n']), path, pairs) == layers::lines_read(
            lines,
            1,
            path,
            pairs,
        ),
{
    words::law_splitting(lines, '\n');
}

/// An env file that is declared has to be there: where its path cannot be
/// expanded, or nothing can be read there, the policy is refused.
pub proof fn law_env_files_have_to_be_there(
    raw: Seq<char>,
    file: layers::EnvFileView,
    caller: Map<Seq<char>, Seq<char>>,
    pairs: Seq<(Seq<char>, Seq<char>)>,
)
    requires
        expand::expansion(raw, caller, "env_files"@) is Err || file is Missing
            || file is Unreadable,
    ensures
        layers::file_read(raw, file, caller, pairs) is Err,
{
}

/// The failure of an expansion, if it failed.
pub open spec fn failure_in<A>(r: Result<A, error::Fault>) -> Option<error::Fault> {
    match r {
        Ok(_) => None,
        Err(e) => Some(e),
    }
}

/// The first failure of several, if there is one.
pub open spec fn first_failure(failures: Seq<Option<error::Fault>>) -> Option<error::Fault>
    decreases failures.len(),
{
    if failures.len() == 0 {
        None
    } else if failures[0] is Some {
        failures[0]
    } else {
        first_failure(failures.skip(1))
    }
}

/// Of several values that cannot be expanded, the first in a fixed order of
/// the settings is told, with the name of its setting.
pub proof fn law_order_of_the_failures(
    c: config::ConfigView,
    vars: Map<Seq<char>, Seq<char>>,
)
    ensures
        failure_in(layers::values_expanded(c, vars)) == first_failure(
            seq![
                failure_in(layers::slot_expansion(c.network, "network"@, vars)),
                failure_in(layers::slot_expansion(c.image, "image"@, vars)),
                failure_in(layers::slot_expansion(c.cgroupns, "cgroupns"@, vars)),
                failure_in(layers::slot_expansion(c.ipc, "ipc"@, vars)),
                failure_in(layers::slot_expansion(c.pid, "pid"@, vars)),
                failure_in(layers::slot_expansion(c.userns, "userns"@, vars)),
                failure_in(layers::slot_expansion(c.user, "user"@, vars)),
                failure_in(layers::slot_expansion(c.workdir, "workdir"@, vars)),
                failure_in(layers::list_expansion(c.ulimits, "ulimits"@, vars)),
                failure_in(layers::list_expansion(c.entry, "entry"@, vars)),
                failure_in(layers::init_expansion(c.init, vars)),
                failure_in(layers::list_expansion(c.extra_hosts, "extra_hosts"@, vars)),
                failure_in(layers::list_expansion(c.security_opts, "security_opts"@, vars)),
                failure_in(layers::list_expansion(c.mounts, "mounts"@, vars)),
            ],
        ),
{
    reveal_with_fuel(first_failure, 15);
}

/// Of several values of a list that cannot be expanded, the first is told,
/// with its position; a single one with its setting, and a variable with
/// its name.
pub proof fn law_failed_value_is_told(
    list: Seq<Seq<char>>,
    place: Seq<char>,
    vars: Map<Seq<char>, Seq<char>>,
    i: int,
)
    requires
        0 <= i < list.len(),
        expand::expansion(
            list[i],
            vars,
            place + "["@ + text::decimal(i as nat) + "]"@,
        ) is Err,
        forall|j: int|
            0 <= j < i ==> expand::expansion(
                #[trigger] list[j],
                vars,
                place + "["@ + text::decimal(j as nat) + "]"@,
            ) is Ok,
    ensures
        failure_in(layers::list_expansion(list, place, vars)) == failure_in(
            expand::expansion(list[i], vars, place + "["@ + text::decimal(i as nat) + "]"@),
        ),
        failure_in(layers::slot_expansion(Some(list[i]), place, vars)) == failure_in(
            expand::expansion(list[i], vars, place),
        ),
{
    let f = layers::element_expansion(place, vars);
    assert forall|j: int| 0 <= j < i implies f(j, #[trigger] list[j]) is Ok by {}
    words::law_first_failure_counts(list, f, i);
}

/// The environment is expanded before everything else, and the env files
/// before that: a failure there is the one that is told.
pub proof fn law_environment_fails_first(
    c: config::ConfigView,
    caller: Map<Seq<char>, Seq<char>>,
    found_files: Seq<EnvFile>,
    files: Seq<(Seq<char>, Seq<char>)>,
    outside: Map<Seq<char>, Seq<char>>,
)
    ensures
        layers::file_env(c.env_files, found_files, caller) matches Err(e)
            ==> layers::policy_expanded(c, caller, found_files) == Err::<
            config::ConfigView,
            error::Fault,
        >(e),
        layers::file_env(c.env_files, found_files, caller) == Ok::<
            Seq<(Seq<char>, Seq<char>)>,
            error::Fault,
        >(files) && on_top(outside, files, caller) ==> (layers::table_expansion(
            c.env,
            "env"@,
            outside,
        ) matches Err(e) ==> layers::policy_expanded(c, caller, found_files) == Err::<
            config::ConfigView,
            error::Fault,
        >(e)),
{
    lemma_file_keys_are_distinct(c.env_files, found_files, caller);
    if layers::file_env(c.env_files, found_files, caller) == Ok::<
        Seq<(Seq<char>, Seq<char>)>,
        error::Fault,
    >(files) {
        law_layer_on_top(outside, files, caller);
    }
}

} // verus!

//! What the arguments of a `create` hold.

use vstd::prelude::*;

use crate::config;
use crate::driver::args;
use crate::text;

verus! {

/// The values in order, each directly behind the flag.
pub open spec fn each(flag: Seq<char>, values: Seq<Seq<char>>) -> Seq<Seq<char>> {
    Seq::new(
        2 * values.len(),
        |k: int|
            if k % 2 == 0 {
                flag
            } else {
                values[k / 2]
            },
    )
}

/// The value directly behind the flag, or nothing.
pub open spec fn once(flag: Seq<char>, value: Option<Seq<char>>) -> Seq<Seq<char>> {
    match value {
        Some(v) => seq![flag, v],
        None => seq![],
    }
}

/// The flag alone, or nothing.
pub open spec fn alone(flag: Seq<char>, on: bool) -> Seq<Seq<char>> {
    if on {
        seq![flag]
    } else {
        seq![]
    }
}

/// The bind mounts as podman takes them.
pub open spec fn binds(mounts: Seq<args::MountView>) -> Seq<Seq<char>> {
    Seq::new(
        mounts.len(),
        |i: int| "type=bind,src="@ + mounts[i].0 + ",dst="@ + mounts[i].1,
    )
}

/// The variables with their values, as podman takes them.
pub open spec fn settings(env: Seq<(Seq<char>, Seq<char>)>) -> Seq<Seq<char>> {
    Seq::new(env.len(), |i: int| env[i].0 + "="@ + env[i].1)
}

/// Behind the bind mounts: all other flags, the image and the command.
pub open spec fn behind_binds(name: Seq<char>, s: args::SpecView) -> Seq<Seq<char>> {
    (once("--network"@, s.network) + each("--mount"@, s.mount_specs) + each(
        "--add-host"@,
        s.extra_hosts,
    )) + (each("--env"@, settings(s.env)) + each("--security-opt"@, s.security_opts)) + (once(
        "--cgroupns"@,
        s.cgroupns,
    ) + once("--ipc"@, s.ipc) + once("--pid"@, s.pid) + once("--userns"@, s.userns) + once(
        "--user"@,
        s.user,
    ) + each("--ulimit"@, s.ulimits) + alone("--privileged"@, s.privileged) + alone(
        "--no-hosts"@,
        s.no_hosts,
    )) + (seq![
        "--label"@,
        "com.github.simon3z.steelbx.box"@ + "=true"@,
        "--label"@,
        "com.github.simon3z.steelbx.box.name"@ + "="@ + name,
    ] + once(
        "--label"@,
        if s.runtime_env.len() > 0 {
            Some(
                "com.github.simon3z.steelbx.box.env"@ + "="@ + text::joined(s.runtime_env, ","@),
            )
        } else {
            None
        },
    )) + (once("--workdir"@, s.workdir) + seq![s.image] + s.command)
}

/// The arguments with a flag in front of each value are each value behind
/// its flag.
pub proof fn lemma_each(flag: Seq<char>, values: Seq<Seq<char>>)
    ensures
        args::flagged(flag, values) == each(flag, values),
{
    let all = args::flagged(flag, values);
    let wanted = each(flag, values);
    if values.len() > 0 {
        args::law_flagged_values_keep_their_order(flag, values, 0);
    }
    assert forall|k: int| 0 <= k < wanted.len() implies all[k] == #[trigger] wanted[k] by {
        let i = k / 2;
        args::law_flagged_values_keep_their_order(flag, values, i);
        assert(k == 2 * i || k == 2 * i + 1);
    }
    assert(all == wanted);
}

proof fn lemma_regroup(
    a: Seq<Seq<char>>,
    b: Seq<Seq<char>>,
    w: Seq<Seq<char>>,
    v: Seq<Seq<char>>,
    i: Seq<Seq<char>>,
    l: Seq<Seq<char>>,
    t: Seq<Seq<char>>,
)
    ensures
        a + (b + w) + v + i + l + t == a + b + (w + v + i + l + t),
{
    let f = a + b;
    assert(a + (b + w) == f + w);
    assert(f + w + v == f + (w + v));
    assert(f + (w + v) + i == f + (w + v + i));
    assert(f + (w + v + i) + l == f + (w + v + i + l));
    assert(f + (w + v + i + l) + t == f + (w + v + i + l + t));
}

/// Everything that is declared of the box is passed on, each value behind
/// its own flag, in the order in which it is declared, and nothing else is:
/// the bind mounts, the network, the other mounts, the host entries, the
/// environment, the security options, the namespaces, the user, the limits,
/// the switches, the labels, the working directory; the image and the
/// command come last.
pub proof fn law_create_passes_what_is_declared(name: Seq<char>, s: args::SpecView)
    ensures
        args::create_argv(name, s) == seq![
            "create"@,
            "--name"@,
            name,
            "--hostname"@,
            name,
            "--init"@,
        ] + each("--mount"@, binds(s.mounts)) + behind_binds(name, s),
{
    lemma_each("--mount"@, args::bind_specs(s.mounts));
    assert(args::bind_specs(s.mounts) == binds(s.mounts));
    lemma_each("--mount"@, s.mount_specs);
    lemma_each("--add-host"@, s.extra_hosts);
    lemma_each("--env"@, args::assignments(s.env));
    assert(args::assignments(s.env) == settings(s.env));
    lemma_each("--security-opt"@, s.security_opts);
    lemma_each("--ulimit"@, s.ulimits);
    let b = args::flagged("--mount"@, args::bind_specs(s.mounts));
    let n = args::flag_if("--network"@, s.network);
    let m = args::flagged("--mount"@, s.mount_specs);
    let h = args::flagged("--add-host"@, s.extra_hosts);
    assert(b + n + m + h == b + (n + m + h)) by {
        assert(b + n + m == b + (n + m));
        assert(b + (n + m) + h == b + (n + m + h));
    }
    lemma_regroup(
        args::base_argv(name),
        b,
        n + m + h,
        args::value_argv(s),
        args::identity_argv(s),
        args::label_argv(name, s),
        args::tail_argv(s),
    );
}

/// Every bind mount of the box is passed, wherever it stands in the list:
/// as a `--mount` with its two paths directly behind it, in the order of
/// the list and in front of the image.
pub proof fn law_every_mount_is_passed(name: Seq<char>, s: args::SpecView, i: int)
    requires
        0 <= i < s.mounts.len(),
    ensures
        args::create_argv(name, s)[6 + 2 * i] == "--mount"@,
        args::create_argv(name, s)[7 + 2 * i] == "type=bind,src="@ + s.mounts[i].0 + ",dst="@
            + s.mounts[i].1,
        7 + 2 * i < args::create_argv(name, s).len() - s.command.len() - 1,
        args::create_argv(name, s)[args::create_argv(name, s).len() - s.command.len() - 1]
            == s.image,
{
    law_create_passes_what_is_declared(name, s);
    args::law_image_and_command_come_last(name, s);
    let front = seq!["create"@, "--name"@, name, "--hostname"@, name, "--init"@];
    let rest = behind_binds(name, s);
    lemma_ends_with_image(name, s);
    lemma_each_in_place(front, "--mount"@, binds(s.mounts), rest, i);
}

/// There are as many bind mounts among the arguments as the box has: two
/// boxes that differ in their mounts alone have the same arguments before
/// and behind these.
pub proof fn law_mounts_are_counted(
    name: Seq<char>,
    s: args::SpecView,
    mounts: Seq<args::MountView>,
)
    ensures
        ({
            let one = args::create_argv(name, s);
            let other = args::create_argv(name, args::SpecView { mounts, ..s });
            &&& one.len() - 2 * s.mounts.len() == other.len() - 2 * mounts.len()
            &&& one.take(6) == other.take(6)
            &&& one.skip(6 + 2 * s.mounts.len() as int) == other.skip(6 + 2 * mounts.len() as int)
        }),
{
    let t = args::SpecView { mounts, ..s };
    law_create_passes_what_is_declared(name, s);
    law_create_passes_what_is_declared(name, t);
    let front = seq!["create"@, "--name"@, name, "--hostname"@, name, "--init"@];
    let rest = behind_binds(name, s);
    assert(behind_binds(name, t) == rest);
    lemma_around(front, each("--mount"@, binds(s.mounts)), rest);
    lemma_around(front, each("--mount"@, binds(mounts)), rest);
}

proof fn lemma_around(a: Seq<Seq<char>>, b: Seq<Seq<char>>, c: Seq<Seq<char>>)
    ensures
        (a + b + c).len() == a.len() + b.len() + c.len(),
        (a + b + c).take(a.len() as int) == a,
        (a + b + c).skip((a.len() + b.len()) as int) == c,
{
}

proof fn lemma_each_in_place(
    front: Seq<Seq<char>>,
    flag: Seq<char>,
    values: Seq<Seq<char>>,
    rest: Seq<Seq<char>>,
    i: int,
)
    requires
        0 <= i < values.len(),
    ensures
        (front + each(flag, values) + rest)[front.len() + 2 * i] == flag,
        (front + each(flag, values) + rest)[front.len() + 2 * i + 1] == values[i],
{
    let all = each(flag, values);
    assert((front + all + rest)[front.len() + 2 * i] == all[2 * i]);
    assert((front + all + rest)[front.len() + 2 * i + 1] == all[2 * i + 1]);
    assert((2 * i + 1) / 2 == i);
}

proof fn lemma_ends_with_image(name: Seq<char>, s: args::SpecView)
    ensures
        behind_binds(name, s).len() > s.command.len(),
        behind_binds(name, s)[behind_binds(name, s).len() - s.command.len() - 1] == s.image,
{
    let rest = behind_binds(name, s);
    let tail = once("--workdir"@, s.workdir) + seq![s.image] + s.command;
    let n = rest.len() - tail.len();
    assert(rest.skip(n) == tail);
    assert(tail[tail.len() - s.command.len() - 1] == s.image);
    assert(rest[n + (tail.len() - s.command.len() - 1)] == rest.skip(n)[tail.len()
        - s.command.len() - 1]);
}

/// The box that a policy declares has each of the policy's settings, in
/// the policy's words.
pub proof fn law_policy_settings_reach_the_box(c: config::ConfigView)
    ensures
        ({
            let s = args::policy_spec(c);
            &&& s.network == c.network
            &&& s.extra_hosts == c.extra_hosts
            &&& s.env == c.env
            &&& s.runtime_env == c.runtime_env
            &&& s.security_opts == c.security_opts
            &&& s.mount_specs == c.mounts
            &&& s.init == c.init
            &&& s.cgroupns == c.cgroupns
            &&& s.ipc == c.ipc
            &&& s.pid == c.pid
            &&& s.userns == c.userns
            &&& s.user == c.user
            &&& s.privileged == c.privileged
            &&& s.no_hosts == c.no_hosts
            &&& s.ulimits == c.ulimits
        }),
{
}

} // verus!

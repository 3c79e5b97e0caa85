//! What the answers of podman are read as.

use vstd::prelude::*;

use crate::driver;
use crate::driver::calls;
use crate::driver::parse;
use crate::error;
use crate::json;
use crate::json::JsonView;
use crate::lists;
use crate::text;
use crate::validate;

verus! {

// ---------------------------------------------------------------------
// Values in JSON
// ---------------------------------------------------------------------

/// The pair at `k` is the first one with the key.
pub open spec fn first_pair(pairs: Seq<(Seq<char>, JsonView)>, key: Seq<char>, k: int) -> bool {
    &&& 0 <= k < pairs.len()
    &&& pairs[k].0 == key
    &&& forall|j: int| 0 <= j < k ==> (#[trigger] pairs[j]).0 != key
}

/// The value is an object that has the key, with this value.
pub open spec fn has(j: JsonView, key: Seq<char>, v: JsonView) -> bool {
    j matches JsonView::Object(pairs) && exists|k: int| #[trigger]
        first_pair(pairs, key, k) && pairs[k].1 == v
}

/// The value is no object that has the key.
pub open spec fn lacks(j: JsonView, key: Seq<char>) -> bool {
    j matches JsonView::Object(pairs) ==> forall|k: int|
        0 <= k < pairs.len() ==> (#[trigger] pairs[k]).0 != key
}

/// What stands under a key of an object is what is found there, and nothing
/// is found under a key that the object does not have, or in what is no
/// object.
pub proof fn law_members_are_found(j: JsonView, key: Seq<char>, v: JsonView)
    ensures
        has(j, key, v) <==> json::member(j, key) == Some(v),
        lacks(j, key) <==> json::member(j, key) is None,
{
    if let JsonView::Object(pairs) = j {
        lemma_lookup(pairs, key);
        match json::lookup(pairs, key) {
            Some(found) => {
                let k = choose|k: int| first_pair(pairs, key, k) && pairs[k].1 == found;
                assert(first_pair(pairs, key, k));
                if has(j, key, v) {
                    let i = choose|i: int| first_pair(pairs, key, i) && pairs[i].1 == v;
                    assert(pairs[i].0 == key && pairs[k].0 == key);
                    assert(i == k);
                }
            },
            None => {
                if has(j, key, v) {
                    let i = choose|i: int| first_pair(pairs, key, i) && pairs[i].1 == v;
                    assert(pairs[i].0 == key);
                }
            },
        }
    }
}

proof fn lemma_lookup(pairs: Seq<(Seq<char>, JsonView)>, key: Seq<char>)
    ensures
        match json::lookup(pairs, key) {
            Some(v) => exists|k: int| #[trigger] first_pair(pairs, key, k) && pairs[k].1 == v,
            None => forall|k: int| 0 <= k < pairs.len() ==> (#[trigger] pairs[k]).0 != key,
        },
    decreases pairs.len(),
{
    if pairs.len() > 0 {
        if pairs[0].0 == key {
            assert(first_pair(pairs, key, 0));
        } else {
            let rest = pairs.skip(1);
            lemma_lookup(rest, key);
            match json::lookup(rest, key) {
                Some(v) => {
                    let k = choose|k: int| first_pair(rest, key, k) && rest[k].1 == v;
                    assert(rest[k] == pairs[k + 1]);
                    assert forall|j: int| 0 <= j < k + 1 implies (#[trigger] pairs[j]).0 != key by {
                        if j > 0 {
                            assert(rest[j - 1] == pairs[j]);
                        }
                    }
                    assert(first_pair(pairs, key, k + 1));
                },
                None => {
                    assert forall|k: int| 0 <= k < pairs.len() implies (#[trigger] pairs[k]).0
                        != key by {
                        if k > 0 {
                            assert(rest[k - 1] == pairs[k]);
                        }
                    }
                },
            }
        }
    }
}

/// The text that the value is, if it is a text.
pub open spec fn text_in(v: JsonView) -> Option<Seq<char>> {
    match v {
        JsonView::Text(s) => Some(s),
        _ => None,
    }
}

/// The first item of a list, if the value is a list that has one.
pub open spec fn head_of(v: JsonView) -> Option<JsonView> {
    match v {
        JsonView::List(items) => if items.len() > 0 {
            Some(items[0])
        } else {
            None
        },
        _ => None,
    }
}

/// What stands under the key is the text, or stands for the empty text
/// because there is no text.
pub open spec fn shows(j: JsonView, key: Seq<char>, t: Seq<char>) -> bool {
    &&& forall|v: JsonView| #[trigger]
        has(j, key, v) ==> t == match text_in(v) {
            Some(s) => s,
            None => Seq::empty(),
        }
    &&& lacks(j, key) ==> t == Seq::<char>::empty()
}

// ---------------------------------------------------------------------
// The list of boxes
// ---------------------------------------------------------------------

/// The container goes by the name: the first of its names, or its only one.
pub open spec fn named(c: JsonView, name: Seq<char>) -> bool {
    ||| exists|names: JsonView| #[trigger]
        has(c, "Names"@, names) && head_of(names) == Some(JsonView::Text(name))
    ||| (forall|names: JsonView| #[trigger]
        has(c, "Names"@, names) ==> !(head_of(names) matches Some(JsonView::Text(_)))) && has(
        c,
        "Name"@,
        JsonView::Text(name),
    )
}

/// The container carries the label that makes it a box, with whatever
/// value.
pub open spec fn carries_marker(c: JsonView) -> bool {
    exists|labels: JsonView, mark: JsonView| #[trigger]
        has(c, "Labels"@, labels) && #[trigger] has(
            labels,
            "com.github.simon3z.steelbx.box"@,
            mark,
        )
}

proof fn lemma_named(c: JsonView, name: Seq<char>)
    ensures
        named(c, name) <==> parse::container_name(c) == Some(name),
{
    assert forall|v: JsonView| #[trigger]
        has(c, "Names"@, v) <==> json::member(c, "Names"@) == Some(v) by {
        law_members_are_found(c, "Names"@, v);
    }
    law_members_are_found(c, "Name"@, JsonView::Text(name));
    match json::member(c, "Names"@) {
        Some(names) => {
            assert(has(c, "Names"@, names));
        },
        None => {},
    }
}

proof fn lemma_carries_marker(c: JsonView)
    ensures
        carries_marker(c) <==> parse::is_marked(c),
{
    let key = "com.github.simon3z.steelbx.box"@;
    assert(driver::BOX_MARKER@ == key);
    assert forall|v: JsonView| #[trigger]
        has(c, "Labels"@, v) <==> json::member(c, "Labels"@) == Some(v) by {
        law_members_are_found(c, "Labels"@, v);
    }
    assert forall|l: JsonView, v: JsonView| #[trigger]
        has(l, key, v) <==> json::member(l, key) == Some(v) by {
        law_members_are_found(l, key, v);
    }
    if parse::is_marked(c) {
        let labels = json::member(c, "Labels"@)->Some_0;
        let mark = json::member(labels, key)->Some_0;
        assert(has(c, "Labels"@, labels) && has(labels, key, mark));
    }
}

proof fn lemma_shows(c: JsonView, key: Seq<char>)
    ensures
        shows(c, key, parse::field(c, key)),
{
    assert forall|v: JsonView| #[trigger] has(c, key, v) <==> json::member(c, key) == Some(v) by {
        law_members_are_found(c, key, v);
    }
    law_members_are_found(c, key, JsonView::Null);
}

/// A container with a name that carries the marker has one row in the list
/// of boxes, with its name and the texts of its state, its image and its
/// age, whatever these are.
pub proof fn law_box_has_its_row(c: JsonView, name: Seq<char>)
    requires
        named(c, name),
        carries_marker(c),
    ensures
        parse::rows_of(seq![c]).len() == 1,
        parse::rows_of(seq![c])[0].name == name,
        shows(c, "State"@, parse::rows_of(seq![c])[0].state),
        shows(c, "Image"@, parse::rows_of(seq![c])[0].image),
        shows(c, "CreatedAt"@, parse::rows_of(seq![c])[0].created),
{
    lemma_named(c, name);
    lemma_carries_marker(c);
    lemma_shows(c, "State"@);
    lemma_shows(c, "Image"@);
    lemma_shows(c, "CreatedAt"@);
    assert(seq![c].drop_last() == Seq::<JsonView>::empty());
    assert(parse::rows_of(seq![c].drop_last()) == Seq::<parse::RowView>::empty());
}

/// A container without a name, or without the marker, has none.
pub proof fn law_other_containers_have_no_row(c: JsonView)
    requires
        !carries_marker(c) || forall|name: Seq<char>| !(#[trigger] named(c, name)),
    ensures
        parse::rows_of(seq![c]) == Seq::<parse::RowView>::empty(),
{
    lemma_carries_marker(c);
    if let Some(name) = parse::container_name(c) {
        lemma_named(c, name);
    }
    assert(seq![c].drop_last() == Seq::<JsonView>::empty());
    assert(parse::rows_of(seq![c].drop_last()) == Seq::<parse::RowView>::empty());
}

/// The rows of more containers are the rows of each of them, in their
/// order.
pub proof fn law_rows_keep_the_order(a: Seq<JsonView>, b: Seq<JsonView>)
    ensures
        parse::rows_of(a + b) == parse::rows_of(a) + parse::rows_of(b),
    decreases b.len(),
{
    if b.len() == 0 {
        assert(a + b == a);
        assert(parse::rows_of(b) == Seq::<parse::RowView>::empty());
    } else {
        assert((a + b).drop_last() == a + b.drop_last());
        law_rows_keep_the_order(a, b.drop_last());
    }
}

/// Whether a container has a row depends on its names and its labels alone:
/// two containers that agree in these have the same number of rows.
pub proof fn law_rows_depend_on_name_and_labels(c: JsonView, d: JsonView)
    requires
        forall|key: Seq<char>, v: JsonView|
            (key == "Names"@ || key == "Name"@ || key == "Labels"@) ==> (#[trigger] has(c, key, v)
                <==> has(d, key, v)),
    ensures
        parse::rows_of(seq![c]).len() == parse::rows_of(seq![d]).len(),
        parse::rows_of(seq![c]).len() > 0 ==> parse::rows_of(seq![c])[0].name == parse::rows_of(
            seq![d],
        )[0].name,
{
    lemma_same_member(c, d, "Names"@);
    lemma_same_member(c, d, "Name"@);
    lemma_same_member(c, d, "Labels"@);
    assert(seq![c].drop_last() == Seq::<JsonView>::empty());
    assert(seq![d].drop_last() == Seq::<JsonView>::empty());
    assert(parse::rows_of(Seq::<JsonView>::empty()) == Seq::<parse::RowView>::empty());
}

proof fn lemma_same_member(c: JsonView, d: JsonView, key: Seq<char>)
    requires
        forall|v: JsonView| #[trigger] has(c, key, v) <==> has(d, key, v),
    ensures
        json::member(c, key) == json::member(d, key),
{
    match json::member(c, key) {
        Some(v) => {
            law_members_are_found(c, key, v);
            law_members_are_found(d, key, v);
        },
        None => {
            if let Some(v) = json::member(d, key) {
                law_members_are_found(d, key, v);
                law_members_are_found(c, key, v);
            }
        },
    }
}

// ---------------------------------------------------------------------
// The outcome of a call
// ---------------------------------------------------------------------

/// A call succeeds where it ended with the exit code zero, and nowhere
/// else; what it then gives is its output.
pub proof fn law_success_is_exit_code_zero(argv: Seq<Seq<char>>, call: calls::CallView)
    ensures
        calls::outcome(argv, call) is Ok <==> (call matches calls::CallView::Ended { code, .. }
            && code == Some(0i32)),
        call matches calls::CallView::Ended { code, stdout, .. } ==> code == Some(0i32)
            ==> calls::outcome(argv, call) == Ok::<Seq<u8>, error::Fault>(stdout),
{
}

/// A call that ended with any other exit code, unless it ran out of time,
/// is reported with the words of the call and with what it wrote to its
/// error output.
pub proof fn law_failure_tells_what_was_written(
    argv: Seq<Seq<char>>,
    code: i32,
    status: Seq<char>,
    stdout: Seq<u8>,
    stderr: Seq<char>,
)
    requires
        code != 0 && code != 137 && code != 124,
    ensures
        calls::outcome(
            argv,
            calls::CallView::Ended { code: Some(code), status, stdout, stderr },
        ) == Err::<Seq<u8>, error::Fault>(
            error::said(
                "podman "@ + text::joined(argv, " "@) + " failed: "@ + stderr,
            ),
        ),
{
}

/// A session or an init step succeeds where it ended with the exit code
/// zero, and nowhere else; its output does not matter.
pub proof fn law_session_succeeds_with_exit_code_zero(label: Seq<char>, call: calls::CallView)
    ensures
        calls::session_fault(label, call) is None <==> (call matches calls::CallView::Ended {
            code,
            ..
        } && code == Some(0i32)),
        call matches calls::CallView::Ended { code, status, .. } ==> code != Some(0i32)
            ==> calls::session_fault(label, call) == Some(
            error::said(label + " exited: "@ + status),
        ),
{
}

/// Every call is killed after two minutes: the arguments of the call stand
/// behind the time limit and the program, as they are.
pub proof fn law_calls_are_time_boxed(bin: Seq<char>, argv: Seq<Seq<char>>)
    ensures
        calls::timeout_argv(bin, argv).take(4) == seq!["-s"@, "KILL"@, "120"@, bin],
        calls::timeout_argv(bin, argv).skip(4) == argv,
{
}

// ---------------------------------------------------------------------
// The inspection of a container
// ---------------------------------------------------------------------

/// The answer of an inspection shows the value: it stands in the first
/// item, under the first key and there under the second.
pub open spec fn inspected(v: JsonView, key: Seq<char>, inner: Seq<char>, found: JsonView) -> bool {
    head_of(v) matches Some(c) && exists|m: JsonView| #[trigger]
        has(c, key, m) && has(m, inner, found)
}

/// The answer of an inspection shows the label, with this value.
pub open spec fn labelled(v: JsonView, label: Seq<char>, found: JsonView) -> bool {
    exists|labels: JsonView| #[trigger]
        inspected(v, "Config"@, "Labels"@, labels) && has(labels, label, found)
}

proof fn lemma_inspected(v: JsonView, key: Seq<char>, inner: Seq<char>, found: JsonView)
    ensures
        inspected(v, key, inner, found) <==> parse::child(
            parse::child(json::element(v, 0), key),
            inner,
        ) == Some(found),
{
    if let Some(c) = head_of(v) {
        assert forall|m: JsonView| #[trigger] has(c, key, m) <==> json::member(c, key) == Some(
            m,
        ) by {
            law_members_are_found(c, key, m);
        }
        if let Some(m) = json::member(c, key) {
            assert(has(c, key, m));
            law_members_are_found(m, inner, found);
        }
    }
}

proof fn lemma_labelled(v: JsonView, label: Seq<char>, found: JsonView)
    ensures
        labelled(v, label, found) <==> parse::label(v, label) == Some(found),
{
    assert forall|labels: JsonView| #[trigger]
        inspected(v, "Config"@, "Labels"@, labels) <==> parse::config_member(v, "Labels"@) == Some(
            labels,
        ) by {
        lemma_inspected(v, "Config"@, "Labels"@, labels);
    }
    if let Some(labels) = parse::config_member(v, "Labels"@) {
        assert(inspected(v, "Config"@, "Labels"@, labels));
        law_members_are_found(labels, label, found);
    }
}

/// The state of a container is the text that the inspection shows as
/// `State.Status`, whatever it is; a container has no state where that is
/// no text.
pub proof fn law_state_is_the_status(v: JsonView, state: Seq<char>)
    ensures
        parse::state_of(v) == Some(state) <==> inspected(
            v,
            "State"@,
            "Status"@,
            JsonView::Text(state),
        ),
{
    lemma_inspected(v, "State"@, "Status"@, JsonView::Text(state));
}

/// A container is a box where it carries the marker label, with whatever
/// value; the marker is that value where it is a text.
pub proof fn law_marker_makes_a_box(v: JsonView, found: JsonView)
    ensures
        labelled(v, "com.github.simon3z.steelbx.box"@, found) ==> parse::marker_of(v) == Some(
            match text_in(found) {
                Some(s) => s,
                None => Seq::empty(),
            },
        ),
        parse::marker_of(v) is Some ==> exists|mark: JsonView|
            labelled(v, "com.github.simon3z.steelbx.box"@, mark),
{
    let key = "com.github.simon3z.steelbx.box"@;
    assert(driver::BOX_MARKER@ == key);
    lemma_labelled(v, key, found);
    if let Some(mark) = parse::label(v, key) {
        lemma_labelled(v, key, mark);
        assert(labelled(v, key, mark));
    }
}

/// The runtime env names of a container are those that its label lists,
/// between commas and without the blanks around them, less what is no name;
/// without a label there are none.
pub proof fn law_env_names_come_from_the_label(v: JsonView, value: Seq<char>)
    ensures
        labelled(v, "com.github.simon3z.steelbx.box.env"@, JsonView::Text(value))
            ==> parse::inspected_names(v) == parse::names_among(text::split(value, ',')),
        (forall|found: JsonView| #[trigger]
            labelled(v, "com.github.simon3z.steelbx.box.env"@, found) ==> text_in(found) is None)
            ==> parse::inspected_names(v) == Seq::<Seq<char>>::empty(),
{
    let key = "com.github.simon3z.steelbx.box.env"@;
    assert(driver::BOX_ENV_LABEL@ == key);
    lemma_labelled(v, key, JsonView::Text(value));
    match json::opt_text_of(parse::label(v, key)) {
        Some(s) => {
            lemma_labelled(v, key, JsonView::Text(s));
        },
        None => {
            let nothing = Seq::<char>::empty();
            assert(text::split(nothing, ',') == seq![nothing]);
            text::lemma_trimmed_is(nothing);
            law_names_among_pieces(nothing);
        },
    }
}

/// A piece of the label is a name where it is one without the blanks
/// around it, and else is left out.
pub proof fn law_names_among_pieces(piece: Seq<char>)
    ensures
        parse::names_among(seq![piece]) == if validate::valid_env_name(text::trimmed(piece)) {
            seq![text::trimmed(piece)]
        } else {
            Seq::<Seq<char>>::empty()
        },
{
    assert(seq![piece].drop_last() == Seq::<Seq<char>>::empty());
    assert(parse::names_among(seq![piece].drop_last()) == Seq::<Seq<char>>::empty());
}

/// The names among more pieces are the names of each of them, in their
/// order.
pub proof fn law_names_keep_the_order(a: Seq<Seq<char>>, b: Seq<Seq<char>>)
    ensures
        parse::names_among(a + b) == parse::names_among(a) + parse::names_among(b),
    decreases b.len(),
{
    if b.len() == 0 {
        assert(a + b == a);
        assert(parse::names_among(b) == Seq::<Seq<char>>::empty());
    } else {
        assert((a + b).drop_last() == a + b.drop_last());
        law_names_keep_the_order(a, b.drop_last());
    }
}

/// An inspection that succeeds gives what its answer says of the container:
/// its state, its marker and its runtime env names.
pub proof fn law_inspection_reads_the_answer(
    name: Seq<char>,
    status: Seq<char>,
    stdout: Seq<u8>,
    stderr: Seq<char>,
    v: JsonView,
)
    requires
        json::json_text(stdout) == Ok::<JsonView, Seq<char>>(v),
    ensures
        calls::inspection(
            name,
            calls::CallView::Ended { code: Some(0i32), status, stdout, stderr },
        ) == Ok::<Option<driver::InfoView>, error::Fault>(
            Some(
                driver::InfoView {
                    state: parse::state_of(v),
                    marker: parse::marker_of(v),
                    env: parse::inspected_names(v),
                },
            ),
        ),
{
}

/// A container is absent where the inspection failed, in time, and says so
/// in one of three ways; any other failure is an error.
pub proof fn law_absence_is_said(
    name: Seq<char>,
    code: i32,
    status: Seq<char>,
    stdout: Seq<u8>,
    stderr: Seq<char>,
)
    requires
        code != 0 && code != 137 && code != 124,
    ensures
        ({
            let call = calls::CallView::Ended { code: Some(code), status, stdout, stderr };
            let said = text::occurs(stderr, "no such container"@) || text::occurs(
                stderr,
                "no such object"@,
            ) || text::occurs(stderr, "not found"@);
            &&& said ==> calls::inspection(name, call) == Ok::<
                Option<driver::InfoView>,
                error::Fault,
            >(None)
            &&& !said ==> calls::inspection(name, call) is Err
        }),
{
}

/// A call that never ran, ran out of time, or was ended by a signal never
/// says that a container is absent.
pub proof fn law_no_answer_is_no_absence(name: Seq<char>, call: calls::CallView)
    requires
        call matches calls::CallView::Ended { code, .. } ==> code == Some(137i32) || code == Some(
            124i32,
        ),
    ensures
        calls::inspection(name, call) is Err,
{
}

// ---------------------------------------------------------------------
// The inspection of an image
// ---------------------------------------------------------------------

/// What an image declares is read from its answer: the working directory
/// and the name where they are texts and not empty, its own main command
/// where it has the label, and its runtime env names.
pub proof fn law_image_declares(v: JsonView, t: Seq<char>)
    ensures
        calls::meta_in(v).workdir == Some(t) <==> t.len() > 0 && inspected(
            v,
            "Config"@,
            "WorkingDir"@,
            JsonView::Text(t),
        ),
        calls::meta_in(v).name == Some(t) <==> t.len() > 0 && labelled(
            v,
            "com.github.simon3z.steelbx.box.name"@,
            JsonView::Text(t),
        ),
        calls::meta_in(v).cmd <==> exists|found: JsonView|
            labelled(v, "com.github.simon3z.steelbx.box.cmd"@, found),
        calls::meta_in(v).env == parse::inspected_names(v),
{
    lemma_inspected(v, "Config"@, "WorkingDir"@, JsonView::Text(t));
    let name = "com.github.simon3z.steelbx.box.name"@;
    let cmd = "com.github.simon3z.steelbx.box.cmd"@;
    assert(driver::BOX_NAME_LABEL@ == name);
    lemma_labelled(v, name, JsonView::Text(t));
    assert forall|found: JsonView| #[trigger]
        labelled(v, cmd, found) <==> parse::label(v, cmd) == Some(found) by {
        lemma_labelled(v, cmd, found);
    }
    if let Some(found) = parse::label(v, cmd) {
        assert(labelled(v, cmd, found));
    }
}

/// An image inspection that succeeds gives what its answer declares; one
/// that fails says that the image is not local where podman says so in one
/// of two ways, and else is the error that it was.
pub proof fn law_image_must_be_local(image: Seq<char>, call: calls::CallView, v: JsonView)
    ensures
        calls::outcome(seq!["image"@, "inspect"@, image], call) matches Ok(out) ==> (
        json::json_text(out) == Ok::<JsonView, Seq<char>>(v) ==> calls::image_inspection(image, call)
            == Ok::<driver::MetaView, error::Fault>(calls::meta_in(v))),
        calls::outcome(seq!["image"@, "inspect"@, image], call) matches Err(e) ==> {
            let absent = text::occurs(e.message, "no such image"@) || text::occurs(
                e.message,
                "not found"@,
            );
            &&& absent ==> calls::image_inspection(image, call) == Err::<
                driver::MetaView,
                error::Fault,
            >(
                error::said(
                    "image '"@ + image
                        + "' is not local — steelbx consumes images, it does not pull them: podman pull "@
                        + image,
                ),
            )
            &&& !absent ==> calls::image_inspection(image, call) == Err::<
                driver::MetaView,
                error::Fault,
            >(e)
        },
{
}

// ---------------------------------------------------------------------
// The list of images
// ---------------------------------------------------------------------

/// A reference to an image can be used where it is a text that is not empty
/// and does not end in `:<none>`; the references of a list are those that
/// can be used, in their order.
pub proof fn law_usable_references(item: JsonView, a: Seq<JsonView>, b: Seq<JsonView>)
    ensures
        parse::usable_among(seq![item]) == match text_in(item) {
            Some(s) => if s.len() > 0 && !(s.len() >= 7 && s.skip(s.len() - 7) == ":<none>"@) {
                seq![s]
            } else {
                Seq::<Seq<char>>::empty()
            },
            None => Seq::<Seq<char>>::empty(),
        },
        parse::usable_among(a + b) == parse::usable_among(a) + parse::usable_among(b),
    decreases b.len(),
{
    reveal_strlit(":<none>");
    assert(seq![item].drop_last() == Seq::<JsonView>::empty());
    assert(parse::usable_among(seq![item].drop_last()) == Seq::<Seq<char>>::empty());
    if let Some(s) = text_in(item) {
        if s.len() >= 7 {
            assert(s.skip(s.len() - 7) == s.subrange(s.len() - 7, s.len() as int));
        }
    }
    if b.len() == 0 {
        assert(a + b == a);
        assert(parse::usable_among(b) == Seq::<Seq<char>>::empty());
    } else {
        assert((a + b).drop_last() == a + b.drop_last());
        law_usable_references(item, a, b.drop_last());
    }
}

/// The references of an image stand under one of six keys: the first of
/// these with a usable one is taken, with all that stand there; only where
/// none has one, the repository and the tag make the reference.
pub proof fn law_references_of_an_image(c: JsonView)
    ensures
        parse::image_refs(c) == if parse::refs_under(c, "repoTags"@).len() > 0 {
            parse::refs_under(c, "repoTags"@)
        } else if parse::refs_under(c, "repo_tags"@).len() > 0 {
            parse::refs_under(c, "repo_tags"@)
        } else if parse::refs_under(c, "Names"@).len() > 0 {
            parse::refs_under(c, "Names"@)
        } else if parse::refs_under(c, "names"@).len() > 0 {
            parse::refs_under(c, "names"@)
        } else if parse::refs_under(c, "Tags"@).len() > 0 {
            parse::refs_under(c, "Tags"@)
        } else if parse::refs_under(c, "tags"@).len() > 0 {
            parse::refs_under(c, "tags"@)
        } else {
            match parse::repo_tag(c) {
                Some(r) => seq![r],
                None => Seq::empty(),
            }
        },
{
    reveal_with_fuel(parse::first_refs, 7);
}

/// What stands under such a key is its list; what is no list holds no
/// reference.
pub proof fn law_references_under_a_key(c: JsonView, key: Seq<char>, v: JsonView)
    ensures
        has(c, key, v) ==> parse::refs_under(c, key) == match v {
            JsonView::List(items) => parse::usable_among(items),
            _ => Seq::<Seq<char>>::empty(),
        },
        lacks(c, key) ==> parse::refs_under(c, key) == Seq::<Seq<char>>::empty(),
{
    law_members_are_found(c, key, v);
    assert(parse::usable_among(Seq::<JsonView>::empty()) == Seq::<Seq<char>>::empty());
}

/// The repository and the tag make a reference where both are texts, the
/// tag is not empty, and neither the repository nor the reference ends in
/// `:<none>`.
pub proof fn law_repository_and_tag(c: JsonView, r: Seq<char>, t: Seq<char>)
    requires
        has(c, "repository"@, JsonView::Text(r)),
        has(c, "tag"@, JsonView::Text(t)),
        t.len() > 0,
        !text::ends(r, ":<none>"@),
        !text::ends(r + ":"@ + t, ":<none>"@),
    ensures
        parse::repo_tag(c) == Some(r + ":"@ + t),
{
    law_members_are_found(c, "repository"@, JsonView::Text(r));
    law_members_are_found(c, "tag"@, JsonView::Text(t));
}

/// A reference is listed where one of the images has it, and then once, at
/// the place where it came first.
pub proof fn law_listed_references(images: Seq<JsonView>, reference: Seq<char>, n: int)
    requires
        0 <= n <= images.len(),
    ensures
        parse::all_refs(images).contains(reference) <==> exists|k: int|
            0 <= k < images.len() && parse::image_refs(#[trigger] images[k]).contains(reference),
        parse::all_refs(images).no_duplicates(),
        parse::all_refs(images.take(n)).len() <= parse::all_refs(images).len(),
        parse::all_refs(images.take(n)) == parse::all_refs(images).take(
            parse::all_refs(images.take(n)).len() as int,
        ),
    decreases images.len(),
{
    parse::law_image_refs_are_unique(images);
    if images.len() > 0 {
        let front = images.drop_last();
        let c = images.last();
        if n < images.len() {
            law_listed_references(front, reference, n);
            assert(front.take(n) == images.take(n));
        } else {
            law_listed_references(front, reference, 0);
            assert(images.take(n) == images);
        }
        lists::lemma_merged_keeps(parse::all_refs(front), parse::image_refs(c));
        lists::lemma_merged_members(parse::all_refs(front), parse::image_refs(c), reference);
        if parse::all_refs(front).contains(reference) {
            let k = choose|k: int|
                0 <= k < front.len() && parse::image_refs(#[trigger] front[k]).contains(reference);
            assert(images[k] == front[k]);
        }
        if parse::image_refs(c).contains(reference) {
            assert(images[images.len() - 1] == c);
        }
        if exists|k: int|
            0 <= k < images.len() && parse::image_refs(#[trigger] images[k]).contains(
                reference,
            ) {
            let k = choose|k: int|
                0 <= k < images.len() && parse::image_refs(#[trigger] images[k]).contains(
                    reference,
                );
            if k < front.len() {
                assert(front[k] == images[k]);
            }
        }
        if n < images.len() {
            let all = parse::all_refs(images);
            let old_all = parse::all_refs(front);
            let first = parse::all_refs(images.take(n));
            assert(first == all.take(first.len() as int));
        }
    } else {
        assert(images.take(n) == images);
        assert(parse::all_refs(images) == Seq::<Seq<char>>::empty());
    }
}

/// The list of images asks for the images of boxes and for those of
/// toolboxes, by their labels.
pub proof fn law_images_are_asked_for_by_label()
    ensures
        calls::markers().map_values(|m: Seq<char>| calls::images_argv(m)) == seq![
            seq![
                "images"@,
                "--filter"@,
                "label="@ + "com.github.simon3z.steelbx.box"@,
                "--format"@,
                "json"@,
            ],
            seq![
                "images"@,
                "--filter"@,
                "label="@ + "com.github.containers.toolbox"@,
                "--format"@,
                "json"@,
            ],
        ],
{
}

/// The list of boxes is read from every container that podman lists.
pub proof fn law_boxes_are_read_from_the_list(
    status: Seq<char>,
    stdout: Seq<u8>,
    stderr: Seq<char>,
    containers: Seq<JsonView>,
)
    requires
        json::json_text(stdout) == Ok::<JsonView, Seq<char>>(JsonView::List(containers)),
    ensures
        calls::box_rows(
            calls::CallView::Ended { code: Some(0i32), status, stdout, stderr },
        ) == Ok::<Seq<parse::RowView>, error::Fault>(parse::rows_of(containers)),
        calls::ps_argv() == seq!["ps"@, "--all"@, "--format"@, "json"@],
{
}

/// An answer that is no JSON is an error, of an inspection as of a list.
pub proof fn law_answers_have_to_be_json(
    name: Seq<char>,
    status: Seq<char>,
    stdout: Seq<u8>,
    stderr: Seq<char>,
)
    requires
        json::json_text(stdout) is Err,
    ensures
        ({
            let call = calls::CallView::Ended { code: Some(0i32), status, stdout, stderr };
            &&& calls::inspection(name, call) is Err
            &&& calls::image_inspection(name, call) is Err
            &&& calls::box_rows(call) is Err
            &&& calls::images_in(name, call) is Err
        }),
{
}

/// A list that cannot be had is an error: it is not taken for an empty one.
pub proof fn law_no_list_is_no_empty_list(marker: Seq<char>, call: calls::CallView)
    requires
        !(call matches calls::CallView::Ended { code, .. } && code == Some(0i32)),
    ensures
        calls::box_rows(call) is Err,
        calls::images_in(marker, call) is Err,
{
}

/// The names of the boxes are those of the rows, in their order.
pub proof fn law_names_of_the_rows(rows: Seq<parse::RowView>, i: int)
    requires
        0 <= i < rows.len(),
    ensures
        calls::row_names(rows).len() == rows.len(),
        calls::row_names(rows)[i] == rows[i].name,
{
}

/// A call that ran out of time is told apart: by one of two exit codes, or
/// by the signal that ended it. So is one that could not be started.
pub proof fn law_time_limit_is_told(
    argv: Seq<Seq<char>>,
    code: Option<i32>,
    status: Seq<char>,
    stdout: Seq<u8>,
    stderr: Seq<char>,
    why: Seq<char>,
)
    requires
        code == Some(137i32) || code == Some(124i32) || (code is None && (status == "signal: 9"@
            || text::starts(status, "signal: 9 "@))),
    ensures
        calls::outcome(argv, calls::CallView::Ended { code, status, stdout, stderr }) == Err::<
            Seq<u8>,
            error::Fault,
        >(
            error::said(
                "podman "@ + text::joined(argv, " "@)
                    + " timed out after 120s — a podman process may be stuck (check `ps -ef | grep podman`) and should be killed before retrying"@,
            ),
        ),
        calls::outcome(argv, calls::CallView::NotStarted { why }) == Err::<Seq<u8>, error::Fault>(
            error::under("running podman"@, error::said(why)),
        ),
{
}

/// A call that any other signal ended is a failure like any other.
pub proof fn law_other_signals_are_failures(
    argv: Seq<Seq<char>>,
    status: Seq<char>,
    stdout: Seq<u8>,
    stderr: Seq<char>,
)
    requires
        status != "signal: 9"@,
        !text::starts(status, "signal: 9 "@),
    ensures
        calls::outcome(argv, calls::CallView::Ended { code: None, status, stdout, stderr }) == Err::<
            Seq<u8>,
            error::Fault,
        >(error::said("podman "@ + text::joined(argv, " "@) + " failed: "@ + stderr)),
{
}

/// The list of images holds, once each, the references of both lists that
/// were asked for, those of boxes first; it cannot be had where one of them
/// cannot.
pub proof fn law_list_of_images(
    boxes: calls::CallView,
    toolboxes: calls::CallView,
    reference: Seq<char>,
)
    ensures
        ({
            let all = calls::image_listing(calls::markers(), seq![boxes, toolboxes]);
            let a = calls::images_in("com.github.simon3z.steelbx.box"@, boxes);
            let b = calls::images_in("com.github.containers.toolbox"@, toolboxes);
            &&& all is Ok <==> a is Ok && b is Ok
            &&& all matches Ok(refs) ==> {
                &&& refs.contains(reference) <==> a->Ok_0.contains(reference) || b->Ok_0.contains(
                    reference,
                )
                &&& refs.no_duplicates()
                &&& a->Ok_0.no_duplicates() ==> refs.len() >= a->Ok_0.len() && refs.take(
                    a->Ok_0.len() as int,
                ) == a->Ok_0
            }
        }),
{
    let marks = calls::markers();
    let came = seq![boxes, toolboxes];
    let nothing = Seq::<Seq<char>>::empty();
    reveal_with_fuel(calls::image_listing, 3);
    let one = marks.drop_last();
    assert(one == seq!["com.github.simon3z.steelbx.box"@]);
    assert(one.drop_last() == nothing);
    let a = calls::images_in("com.github.simon3z.steelbx.box"@, boxes);
    let b = calls::images_in("com.github.containers.toolbox"@, toolboxes);
    if a is Ok {
        let first = lists::merged(nothing, a->Ok_0);
        lists::lemma_merged_members(nothing, a->Ok_0, reference);
        lists::lemma_merged_is_unique(nothing, a->Ok_0);
        if a->Ok_0.no_duplicates() {
            lists::lemma_merged_alone(a->Ok_0);
        }
        if b is Ok {
            lists::lemma_merged_members(first, b->Ok_0, reference);
            lists::lemma_merged_is_unique(first, b->Ok_0);
            lists::lemma_merged_keeps(first, b->Ok_0);
        }
    }
}

} // verus!

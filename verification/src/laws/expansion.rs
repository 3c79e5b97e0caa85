//! What the expansion of a value comes to, form by form. Every value is
//! plain text up to its first dollar sign, and one of the forms below from
//! there on.

use vstd::prelude::*;

use crate::error;
use crate::expand;
use crate::text;
use crate::validate;

verus! {

/// A letter, a digit or an underscore, of ASCII.
pub open spec fn name_char(c: char) -> bool {
    ('a' <= c && c <= 'z') || ('A' <= c && c <= 'Z') || ('0' <= c && c <= '9') || c == '_'
}

/// The name of a variable: at least one letter, digit or underscore, and
/// nothing else.
pub open spec fn is_name(name: Seq<char>) -> bool {
    name.len() > 0 && forall|i: int| 0 <= i < name.len() ==> name_char(#[trigger] name[i])
}

/// What is accepted as the name of a variable.
pub proof fn law_variable_names(name: Seq<char>)
    ensures
        validate::valid_env_name(name) <==> is_name(name),
{
    if validate::valid_env_name(name) {
        assert forall|i: int| 0 <= i < name.len() implies name_char(#[trigger] name[i]) by {
            assert(text::is_word(name[i]));
        }
    }
    if is_name(name) {
        assert forall|i: int| 0 <= i < name.len() implies text::is_word(#[trigger] name[i]) by {
            assert(name_char(name[i]));
        }
    }
}

/// Text in front of the first dollar sign stays as it is, and what follows
/// expands on its own.
pub proof fn law_text_before_a_dollar_stays(
    head: Seq<char>,
    tail: Seq<char>,
    vars: Map<Seq<char>, Seq<char>>,
    path: Seq<char>,
)
    requires
        forall|i: int| 0 <= i < head.len() ==> #[trigger] head[i] != '$',
    ensures
        expand::expansion(head, vars, path) == Ok::<Seq<char>, error::Fault>(head),
        match expand::expansion(tail, vars, path) {
            Ok(t) => expand::expansion(head + tail, vars, path) == Ok::<Seq<char>, error::Fault>(
                head + t,
            ),
            Err(e) => expand::expansion(head + tail, vars, path) == Err::<
                Seq<char>,
                error::Fault,
            >(e),
        },
{
    assert(!head.contains('$'));
    expand::law_plain_text_is_unchanged(head, vars, path);
    expand::law_leading_text_is_kept(head, tail, vars, path);
}

/// Two dollar signs stand for one.
pub proof fn law_two_dollars_are_one(
    tail: Seq<char>,
    vars: Map<Seq<char>, Seq<char>>,
    path: Seq<char>,
)
    ensures
        match expand::expansion(tail, vars, path) {
            Ok(t) => expand::expansion(seq!['$', '$'] + tail, vars, path) == Ok::<
                Seq<char>,
                error::Fault,
            >(seq!['$'] + t),
            Err(e) => expand::expansion(seq!['$', '$'] + tail, vars, path) == Err::<
                Seq<char>,
                error::Fault,
            >(e),
        },
{
    expand::law_double_dollar_is_a_dollar(tail, vars, path);
}

/// A variable that is set and not empty wins over the fallback, whatever
/// its value and the fallback are.
pub proof fn law_set_variable_wins_over_the_fallback(
    name: Seq<char>,
    fallback: Seq<char>,
    tail: Seq<char>,
    vars: Map<Seq<char>, Seq<char>>,
    path: Seq<char>,
)
    requires
        is_name(name),
        !fallback.contains('}'),
        vars.contains_key(name),
        vars[name].len() > 0,
    ensures
        ({
            let value = seq!['$', '{'] + name + seq![':', '-'] + fallback + seq!['}'] + tail;
            match expand::expansion(tail, vars, path) {
                Ok(t) => expand::expansion(value, vars, path) == Ok::<Seq<char>, error::Fault>(
                    vars[name] + t,
                ),
                Err(e) => expand::expansion(value, vars, path) == Err::<Seq<char>, error::Fault>(
                    e,
                ),
            }
        }),
{
    law_variable_names(name);
    expand::law_braced_reference(name, Some(fallback), tail, vars, path);
}

/// The fallback is what comes out where the variable is unset or empty, as
/// it stands: it is not expanded itself.
pub proof fn law_fallback_stands_for_nothing_set(
    name: Seq<char>,
    fallback: Seq<char>,
    tail: Seq<char>,
    vars: Map<Seq<char>, Seq<char>>,
    path: Seq<char>,
)
    requires
        is_name(name),
        !fallback.contains('}'),
        !vars.contains_key(name) || vars[name].len() == 0,
    ensures
        ({
            let value = seq!['$', '{'] + name + seq![':', '-'] + fallback + seq!['}'] + tail;
            match expand::expansion(tail, vars, path) {
                Ok(t) => expand::expansion(value, vars, path) == Ok::<Seq<char>, error::Fault>(
                    fallback + t,
                ),
                Err(e) => expand::expansion(value, vars, path) == Err::<Seq<char>, error::Fault>(
                    e,
                ),
            }
        }),
{
    law_variable_names(name);
    expand::law_braced_reference(name, Some(fallback), tail, vars, path);
}

/// A reference without a fallback, with braces or without, stands for the
/// value of its variable, though that may be empty.
pub proof fn law_set_variable_is_put_in(
    name: Seq<char>,
    tail: Seq<char>,
    vars: Map<Seq<char>, Seq<char>>,
    path: Seq<char>,
)
    requires
        is_name(name),
        vars.contains_key(name),
    ensures
        ({
            let braced = seq!['$', '{'] + name + seq!['}'] + tail;
            let bare = seq!['$'] + name + tail;
            match expand::expansion(tail, vars, path) {
                Ok(t) => {
                    &&& expand::expansion(braced, vars, path) == Ok::<Seq<char>, error::Fault>(
                        vars[name] + t,
                    )
                    &&& (tail.len() == 0 || !name_char(tail[0])) ==> expand::expansion(
                        bare,
                        vars,
                        path,
                    ) == Ok::<Seq<char>, error::Fault>(vars[name] + t)
                },
                Err(e) => {
                    &&& expand::expansion(braced, vars, path) == Err::<Seq<char>, error::Fault>(e)
                    &&& (tail.len() == 0 || !name_char(tail[0])) ==> expand::expansion(
                        bare,
                        vars,
                        path,
                    ) == Err::<Seq<char>, error::Fault>(e)
                },
            }
        }),
{
    law_variable_names(name);
    expand::law_braced_reference(name, None, tail, vars, path);
    if tail.len() == 0 || !name_char(tail[0]) {
        expand::law_bare_reference(name, tail, vars, path);
    }
}

/// A reference without a fallback to an unset variable is an error that
/// names the variable, whatever follows.
pub proof fn law_unset_variable_is_an_error(
    name: Seq<char>,
    tail: Seq<char>,
    vars: Map<Seq<char>, Seq<char>>,
    path: Seq<char>,
)
    requires
        is_name(name),
        !vars.contains_key(name),
    ensures
        ({
            let complaint = error::said(
                path + ": references unset variable "@ + error::quoted(name),
            );
            let braced = seq!['$', '{'] + name + seq!['}'] + tail;
            let bare = seq!['$'] + name + tail;
            &&& expand::expansion(braced, vars, path) == Err::<Seq<char>, error::Fault>(complaint)
            &&& (tail.len() == 0 || !name_char(tail[0])) ==> expand::expansion(bare, vars, path)
                == Err::<Seq<char>, error::Fault>(complaint)
        }),
{
    law_variable_names(name);
    expand::law_braced_reference(name, None, tail, vars, path);
    if tail.len() == 0 || !name_char(tail[0]) {
        expand::law_bare_reference(name, tail, vars, path);
    }
}

/// A dollar sign that introduces none of these forms is an error.
pub proof fn law_stray_dollar_is_an_error(
    tail: Seq<char>,
    vars: Map<Seq<char>, Seq<char>>,
    path: Seq<char>,
)
    requires
        tail.len() == 0 || !(name_char(tail[0]) || tail[0] == '$' || tail[0] == '{'),
    ensures
        expand::expansion(seq!['$'] + tail, vars, path) == Err::<Seq<char>, error::Fault>(
            error::said(
                path
                    + ": '$' must introduce $IDENT, ${IDENT} (optionally ${IDENT:-default}), or $$ (a literal dollar)"@,
            ),
        ),
{
    let value = seq!['$'] + tail;
    assert(value.skip(1) == tail);
    if tail.len() > 0 {
        assert(!text::is_word(tail[0]));
    }
    assert(text::run(tail, text::word_chars()) == 0);
}

/// A brace that is not closed is an error.
pub proof fn law_open_brace_is_an_error(
    inner: Seq<char>,
    vars: Map<Seq<char>, Seq<char>>,
    path: Seq<char>,
)
    requires
        !inner.contains('}'),
    ensures
        expand::expansion(seq!['$', '{'] + inner, vars, path) == Err::<Seq<char>, error::Fault>(
            error::said(path + ": unterminated ${...} reference (no closing }"@),
        ),
{
    let value = seq!['$', '{'] + inner;
    assert(value.skip(1)[0] == '{');
    assert(value.skip(1).skip(1) == inner);
    assert forall|j: int| 0 <= j < inner.len() implies text::other_than('}')(
        #[trigger] inner[j],
    ) by {
        assert(inner.contains(inner[j]));
    }
    text::lemma_run_is(inner, text::other_than('}'), inner.len());
}

/// Braces around anything but a name, or a name with a fallback, are an
/// error.
pub proof fn law_braces_hold_a_name(
    inner: Seq<char>,
    tail: Seq<char>,
    vars: Map<Seq<char>, Seq<char>>,
    path: Seq<char>,
)
    requires
        !inner.contains('}'),
        !is_name(inner),
        forall|i: int|
            0 <= i < inner.len() - 1 && inner[i] == ':' && inner[i + 1] == '-' ==> !is_name(
                #[trigger] inner.take(i),
            ),
    ensures
        expand::expansion(seq!['$', '{'] + inner + seq!['}'] + tail, vars, path) is Err,
        (forall|i: int| 0 <= i < inner.len() - 1 && #[trigger] inner[i] == ':' ==> inner[i + 1]
            != '-') ==> expand::expansion(
            seq!['$', '{'] + inner + seq!['}'] + tail,
            vars,
            path,
        ) == Err::<Seq<char>, error::Fault>(
            error::said(path + ": "@ + error::quoted(inner) + " is not a valid variable name"@),
        ),
{
    let value = seq!['$', '{'] + inner + seq!['}'] + tail;
    let after = value.skip(1);
    assert(after[0] == '{');
    assert(after.skip(1) == inner + seq!['}'] + tail);
    assert forall|j: int| 0 <= j < inner.len() implies text::other_than('}')(
        #[trigger] after.skip(1)[j],
    ) by {
        assert(inner.contains(inner[j]));
    }
    text::lemma_run_is(after.skip(1), text::other_than('}'), inner.len());
    assert(after.skip(1).take(inner.len() as int) == inner);
    text::lemma_first_at(inner, expand::fallback_mark());
    match text::cut_at(inner, expand::fallback_mark()) {
        None => {
            law_variable_names(inner);
        },
        Some((name, fallback)) => {
            let i = name.len() as int;
            assert(inner.subrange(i, i + 2) == seq![':', '-']);
            assert(inner[i] == inner.subrange(i, i + 2)[0]);
            assert(inner[i + 1] == inner.subrange(i, i + 2)[1]);
            assert(name == inner.take(i));
            law_variable_names(name);
        },
    }
}

/// A value refers to the variables that its references name, and to no
/// other.
pub proof fn law_references_name_their_variables(
    found: Seq<char>,
    fallback: Seq<char>,
    tail: Seq<char>,
    name: Seq<char>,
)
    requires
        is_name(found),
        !fallback.contains('}'),
    ensures
        expand::refers_to(seq!['$', '{'] + found + seq!['}'] + tail, name) <==> found == name
            || expand::refers_to(tail, name),
        expand::refers_to(
            seq!['$', '{'] + found + seq![':', '-'] + fallback + seq!['}'] + tail,
            name,
        ) <==> found == name || expand::refers_to(tail, name),
        (tail.len() == 0 || !name_char(tail[0])) ==> (expand::refers_to(
            seq!['$'] + found + tail,
            name,
        ) <==> found == name || expand::refers_to(tail, name)),
        expand::refers_to(seq!['$', '$'] + tail, name) <==> expand::refers_to(tail, name),
{
    law_variable_names(found);
    let none = Seq::<char>::empty();
    expand::lemma_braced_parses(found, None, tail, none);
    expand::lemma_braced_parses(found, Some(fallback), tail, none);
    let braced = seq!['$', '{'] + found + seq!['}'] + tail;
    assert(braced == expand::braced(found, None) + tail);
    assert(braced[1] == '{');
    let more = seq!['$', '{'] + found + seq![':', '-'] + fallback + seq!['}'] + tail;
    assert(more == expand::braced(found, Some(fallback)) + tail);
    assert(more[1] == '{');
    if tail.len() == 0 || !name_char(tail[0]) {
        expand::lemma_bare_parses(found, tail, none);
        let bare = seq!['$'] + found + tail;
        assert(text::is_word(found[0]));
        assert(bare[1] == found[0]);
    }
    let two = seq!['$', '$'] + tail;
    assert(two.skip(2) == tail);
}

} // verus!

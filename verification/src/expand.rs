//! Expansion of variable references in configuration values.
//!
//! `$NAME` and `${NAME}` stand for the value of a variable,
//! `${NAME:-fallback}` for the fallback where the variable is unset or
//! empty, `$$` for a dollar sign. Any other dollar sign is an error, and so
//! is a reference to an unset variable without a fallback. There is no
//! shell: what a reference stands for is never scanned again.

use vstd::prelude::*;
use vstd::string::*;

use crate::error;
use crate::error::{failure, quote, Error};
use crate::text;
use crate::text::{chars_of, find_from, find_part, same, slice, word};
use crate::validate;
use crate::validate::is_valid_env_name;
use crate::vars::Vars;

verus! {

/// A parsed reference: the name, the fallback if one is given, and the
/// text behind the reference.
pub struct Reference {
    pub name: Seq<char>,
    pub fallback: Option<Seq<char>>,
    pub rest: Seq<char>,
}

/// The mark between a name and its fallback: `:-`.
pub open spec fn fallback_mark() -> Seq<char> {
    seq![':', '-']
}

/// The message about a brace that is not closed.
pub open spec fn unterminated(path: Seq<char>) -> error::Fault {
    error::said(path + ": unterminated ${...} reference (no closing }"@)
}

/// The message about a dollar sign that introduces nothing.
pub open spec fn stray_dollar(path: Seq<char>) -> error::Fault {
    error::said(
        path
            + ": '$' must introduce $IDENT, ${IDENT} (optionally ${IDENT:-default}), or $$ (a literal dollar)"@,
    )
}

/// The message about a reference to what is no variable name.
pub open spec fn bad_name(path: Seq<char>, name: Seq<char>) -> error::Fault {
    error::said(path + ": "@ + error::quoted(name) + " is not a valid variable name"@)
}

/// The message about a reference to an unset variable.
pub open spec fn unset_variable(path: Seq<char>, name: Seq<char>) -> error::Fault {
    error::said(path + ": references unset variable "@ + error::quoted(name))
}

/// The reference that follows a `$`, which is not part of `after`. A brace
/// opens a name that ends at the first `}` and may carry a fallback;
/// without a brace the name is the longest run of name characters.
pub open spec fn reference(after: Seq<char>, path: Seq<char>) -> Result<Reference, error::Fault> {
    if after.len() > 0 && after[0] == '{' {
        match text::cut(after.skip(1), '}') {
            None => Err(unterminated(path)),
            Some((inner, rest)) => match text::cut_at(inner, fallback_mark()) {
                Some((name, fallback)) => Ok(
                    Reference { name, fallback: Some(fallback), rest },
                ),
                None => Ok(Reference { name: inner, fallback: None, rest }),
            },
        }
    } else {
        let n = text::run(after, text::word_chars()) as int;
        if n == 0 {
            Err(stray_dollar(path))
        } else {
            Ok(Reference { name: after.take(n), fallback: None, rest: after.skip(n) })
        }
    }
}

/// What a reference stands for: the variable if it is set and not empty, or
/// set and without a fallback; else the fallback; `None` if it is unset and
/// has none.
pub open spec fn meaning(
    name: Seq<char>,
    fallback: Option<Seq<char>>,
    vars: Map<Seq<char>, Seq<char>>,
) -> Option<Seq<char>> {
    if vars.contains_key(name) && (vars[name].len() > 0 || fallback is None) {
        Some(vars[name])
    } else {
        fallback
    }
}

/// What the text behind a `$` starts with stands for, and the text behind
/// that.
pub open spec fn token(
    after: Seq<char>,
    vars: Map<Seq<char>, Seq<char>>,
    path: Seq<char>,
) -> Result<(Seq<char>, Seq<char>), error::Fault> {
    if after.len() > 0 && after[0] == '$' {
        Ok((seq!['$'], after.skip(1)))
    } else {
        match reference(after, path) {
            Err(e) => Err(e),
            Ok(r) => if !validate::valid_env_name(r.name) {
                Err(bad_name(path, r.name))
            } else {
                match meaning(r.name, r.fallback, vars) {
                    Some(text) => Ok((text, r.rest)),
                    None => Err(unset_variable(path, r.name)),
                }
            },
        }
    }
}

/// `head` in front of an expansion that succeeded.
pub open spec fn prepend(
    head: Seq<char>,
    tail: Result<Seq<char>, error::Fault>,
) -> Result<Seq<char>, error::Fault> {
    match tail {
        Ok(t) => Ok(head + t),
        Err(e) => Err(e),
    }
}

/// `value` with its references replaced, from left to right; the message of
/// the first one that cannot be, if there is one. `path` says in messages
/// where the value stands.
pub open spec fn expansion(
    value: Seq<char>,
    vars: Map<Seq<char>, Seq<char>>,
    path: Seq<char>,
) -> Result<Seq<char>, error::Fault>
    decreases value.len(),
{
    if value.len() == 0 {
        Ok(Seq::empty())
    } else if value[0] != '$' {
        prepend(seq![value[0]], expansion(value.skip(1), vars, path))
    } else {
        proof {
            lemma_token_shrinks(value.skip(1), vars, path);
        }
        match token(value.skip(1), vars, path) {
            Err(e) => Err(e),
            Ok((text, rest)) => prepend(text, expansion(rest, vars, path)),
        }
    }
}

/// The outcome of an expansion, as text.
pub open spec fn expanded(r: Result<String, Error>) -> Result<Seq<char>, error::Fault> {
    match r {
        Ok(s) => Ok(s@),
        Err(e) => Err(e@),
    }
}

/// The text behind a reference is shorter than the text it stands in.
pub proof fn lemma_token_shrinks(
    after: Seq<char>,
    vars: Map<Seq<char>, Seq<char>>,
    path: Seq<char>,
)
    ensures
        token(after, vars, path) matches Ok((_, rest)) ==> rest.len() <= after.len(),
{
    text::lemma_run(after, text::word_chars());
}

/// Parses the reference that starts at position `at`, behind its `$`. Gives
/// the name, the fallback, and the position behind the reference.
pub fn parse_expansion_ref(cs: &[char], at: usize, path: &str) -> (r: Result<
    (String, Option<String>, usize),
    Error,
>)
    requires
        at <= cs@.len(),
    ensures
        match r {
            Ok((name, fallback, rest)) => {
                &&& at <= rest <= cs@.len()
                &&& reference(cs@.skip(at as int), path@) == Ok::<Reference, error::Fault>(
                    Reference {
                        name: name@,
                        fallback: text::opt_text(fallback),
                        rest: cs@.skip(rest as int),
                    },
                )
            },
            Err(e) => reference(cs@.skip(at as int), path@) == Err::<Reference, error::Fault>(e@),
        },
{
    let ghost after = cs@.skip(at as int);
    if at < cs.len() && cs[at] == '{' {
        let from: usize = at + 1;
        let close = find_from(cs, from, '}');
        proof {
            assert(after.skip(1) == cs@.skip(from as int));
        }
        if close == cs.len() {
            return Err(
                failure(path.to_owned().concat(": unterminated ${...} reference (no closing }")),
            );
        }
        let inner = chars_of(slice(cs, from, close).as_str());
        let mark: Vec<char> = vec![':', '-'];
        let n = find_part(&inner, &mark);
        proof {
            assert(mark@ == fallback_mark());
            assert(inner@ == cs@.skip(from as int).take(close - from));
            assert(cs@.skip(from as int).skip(close - from + 1) == cs@.skip(close + 1));
        }
        if n < inner.len() {
            proof {
                text::lemma_first_at(inner@, mark@);
            }
            let name = slice(&inner, 0, n);
            let fallback = slice(&inner, n + 2, inner.len());
            proof {
                assert(name@ == inner@.take(n as int));
                assert(fallback@ == inner@.skip(n + 2));
            }
            Ok((name, Some(fallback), close + 1))
        } else {
            let name = slice(&inner, 0, inner.len());
            proof {
                assert(name@ == inner@);
            }
            Ok((name, None, close + 1))
        }
    } else {
        let mut end: usize = at;
        while end < cs.len() && word(cs[end])
            invariant
                at <= end <= cs@.len(),
                after == cs@.skip(at as int),
                forall|j: int| 0 <= j < end - at ==> text::is_word(#[trigger] after[j]),
            decreases cs.len() - end,
        {
            proof {
                assert(after[end - at] == cs@[end as int]);
            }
            end += 1;
        }
        proof {
            if end < cs@.len() {
                assert(after[end - at] == cs@[end as int]);
            }
            text::lemma_run_is(after, text::word_chars(), (end - at) as nat);
        }
        if end == at {
            return Err(
                failure(
                    path.to_owned().concat(
                        ": '$' must introduce $IDENT, ${IDENT} (optionally ${IDENT:-default}), or $$ (a literal dollar)",
                    ),
                ),
            );
        }
        let name = slice(cs, at, end);
        proof {
            assert(name@ == after.take(end - at));
            assert(after.skip(end - at) == cs@.skip(end as int));
        }
        Ok((name, None, end))
    }
}

/// Expands the reference that starts at position `at`, behind its `$`.
/// Gives the position behind it and what it stands for.
pub fn expand_token(cs: &[char], at: usize, vars: &Vars, path: &str) -> (r: Result<
    (usize, String),
    Error,
>)
    requires
        at <= cs@.len(),
    ensures
        match r {
            Ok((rest, text)) => {
                &&& at <= rest <= cs@.len()
                &&& token(cs@.skip(at as int), vars@, path@) == Ok::<
                    (Seq<char>, Seq<char>),
                    error::Fault,
                >((text@, cs@.skip(rest as int)))
            },
            Err(e) => token(cs@.skip(at as int), vars@, path@) == Err::<
                (Seq<char>, Seq<char>),
                error::Fault,
            >(e@),
        },
{
    if at < cs.len() && cs[at] == '$' {
        let mut text = String::new();
        text.push('$');
        proof {
            assert(text@ == seq!['$']);
            assert(cs@.skip(at as int).skip(1) == cs@.skip(at + 1));
        }
        return Ok((at + 1, text));
    }
    let (name, fallback, rest) = match parse_expansion_ref(cs, at, path) {
        Ok(parts) => parts,
        Err(e) => return Err(e),
    };
    if !is_valid_env_name(name.as_str()) {
        return Err(
            failure(
                path.to_owned().concat(": ").concat(quote(name.as_str()).as_str()).concat(
                    " is not a valid variable name",
                ),
            ),
        );
    }
    if let Some(value) = vars.get(name.as_str()) {
        if !value.as_str().is_empty() || fallback.is_none() {
            return Ok((rest, value.clone()));
        }
    }
    match fallback {
        Some(text) => Ok((rest, text)),
        None => Err(
            failure(
                path.to_owned().concat(": references unset variable ").concat(
                    quote(name.as_str()).as_str(),
                ),
            ),
        ),
    }
}

/// The value with its variable references replaced. `path` names the value
/// in messages.
pub fn expand_env(value: &str, vars: &Vars, path: &str) -> (r: Result<String, Error>)
    ensures
        expanded(r) == expansion(value@, vars@, path@),
{
    let cs = chars_of(value);
    let mut out = String::new();
    let mut i: usize = 0;
    proof {
        assert(cs@.skip(0) == cs@);
        lemma_prepend_nothing(expansion(cs@, vars@, path@));
    }
    while i < cs.len()
        invariant
            i <= cs@.len(),
            cs@ == value@,
            expansion(value@, vars@, path@) == prepend(
                out@,
                expansion(cs@.skip(i as int), vars@, path@),
            ),
        decreases cs.len() - i,
    {
        let ghost rest = cs@.skip(i as int);
        let ghost before = out@;
        if cs[i] != '$' {
            out.push(cs[i]);
            proof {
                assert(rest.skip(1) == cs@.skip(i + 1));
                lemma_prepend_twice(before, seq![rest[0]], expansion(rest.skip(1), vars@, path@));
                assert(out@ == before + seq![rest[0]]);
            }
            i += 1;
        } else {
            proof {
                assert(rest.skip(1) == cs@.skip(i + 1));
            }
            match expand_token(&cs, i + 1, vars, path) {
                Err(e) => return Err(e),
                Ok((next, text)) => {
                    proof {
                        lemma_prepend_twice(
                            before,
                            text@,
                            expansion(cs@.skip(next as int), vars@, path@),
                        );
                    }
                    out.append(text.as_str());
                    i = next;
                },
            }
        }
    }
    proof {
        assert(cs@.skip(i as int) == Seq::<char>::empty());
        assert(out@ + Seq::<char>::empty() == out@);
    }
    Ok(out)
}

// ---------------------------------------------------------------------
// The variables that a value refers to
// ---------------------------------------------------------------------

/// `value` refers to the variable: one of its references, with or without a
/// fallback, is to that name. A `$$` is no reference, and neither is a name
/// without a dollar sign.
pub open spec fn refers_to(value: Seq<char>, name: Seq<char>) -> bool
    decreases value.len(),
{
    if value.len() == 0 {
        false
    } else if value[0] != '$' {
        refers_to(value.skip(1), name)
    } else if value.len() > 1 && value[1] == '$' {
        refers_to(value.skip(2), name)
    } else {
        proof {
            lemma_reference_shrinks(value.skip(1), Seq::empty());
        }
        match reference(value.skip(1), Seq::empty()) {
            Ok(r) => r.name == name || refers_to(r.rest, name),
            Err(_) => refers_to(value.skip(1), name),
        }
    }
}

/// The text behind a reference is shorter than the text it stands in.
pub proof fn lemma_reference_shrinks(after: Seq<char>, path: Seq<char>)
    ensures
        reference(after, path) matches Ok(r) ==> r.rest.len() <= after.len(),
{
    text::lemma_run(after, text::word_chars());
}

/// Whether the value refers to the variable.
pub fn is_referred_to(value: &str, name: &str) -> (r: bool)
    ensures
        r == refers_to(value@, name@),
{
    let cs = chars_of(value);
    let mut i: usize = 0;
    proof {
        assert(cs@.skip(0) == value@);
    }
    while i < cs.len()
        invariant
            i <= cs@.len(),
            refers_to(value@, name@) == refers_to(cs@.skip(i as int), name@),
        decreases cs.len() - i,
    {
        let ghost rest = cs@.skip(i as int);
        proof {
            assert(rest[0] == cs@[i as int]);
            assert(rest.skip(1) == cs@.skip(i + 1));
        }
        if cs[i] != '$' {
            i += 1;
        } else if i + 1 < cs.len() && cs[i + 1] == '$' {
            proof {
                assert(rest[1] == cs@[i + 1]);
                assert(rest.skip(2) == cs@.skip(i + 2));
            }
            i += 2;
        } else {
            proof {
                reveal_strlit("");
                assert(""@ == Seq::<char>::empty());
                if rest.len() > 1 {
                    assert(rest[1] == cs@[i + 1]);
                }
            }
            match parse_expansion_ref(&cs, i + 1, "") {
                Ok((found, _, behind)) => {
                    if same(found.as_str(), name) {
                        return true;
                    }
                    i = behind;
                },
                Err(_) => {
                    i += 1;
                },
            }
        }
    }
    false
}

// ---------------------------------------------------------------------
// Laws
// ---------------------------------------------------------------------

proof fn lemma_prepend_nothing(r: Result<Seq<char>, error::Fault>)
    ensures
        prepend(Seq::empty(), r) == r,
{
    if let Ok(t) = r {
        assert(Seq::<char>::empty() + t == t);
    }
}

proof fn lemma_prepend_twice(a: Seq<char>, b: Seq<char>, r: Result<Seq<char>, error::Fault>)
    ensures
        prepend(a, prepend(b, r)) == prepend(a + b, r),
{
    if let Ok(t) = r {
        assert(a + (b + t) == a + b + t);
    }
}

/// A value without a dollar sign is its own expansion.
pub proof fn law_plain_text_is_unchanged(
    value: Seq<char>,
    vars: Map<Seq<char>, Seq<char>>,
    path: Seq<char>,
)
    requires
        !value.contains('$'),
    ensures
        expansion(value, vars, path) == Ok::<Seq<char>, error::Fault>(value),
    decreases value.len(),
{
    if value.len() > 0 {
        assert(value.contains(value[0]));
        assert forall|i: int| 0 <= i < value.skip(1).len() implies value.skip(1)[i] != '$' by {
            assert(value.contains(value[i + 1]));
        }
        law_plain_text_is_unchanged(value.skip(1), vars, path);
        assert(seq![value[0]] + value.skip(1) == value);
    } else {
        assert(value == Seq::<char>::empty());
    }
}

/// Text in front of the first dollar sign is kept and changes nothing of
/// what follows.
pub proof fn law_leading_text_is_kept(
    head: Seq<char>,
    tail: Seq<char>,
    vars: Map<Seq<char>, Seq<char>>,
    path: Seq<char>,
)
    requires
        !head.contains('$'),
    ensures
        expansion(head + tail, vars, path) == prepend(head, expansion(tail, vars, path)),
    decreases head.len(),
{
    if head.len() > 0 {
        assert(head.contains(head[0]));
        assert forall|i: int| 0 <= i < head.skip(1).len() implies head.skip(1)[i] != '$' by {
            assert(head.contains(head[i + 1]));
        }
        law_leading_text_is_kept(head.skip(1), tail, vars, path);
        assert((head + tail).skip(1) == head.skip(1) + tail);
        lemma_prepend_twice(seq![head[0]], head.skip(1), expansion(tail, vars, path));
        assert(seq![head[0]] + head.skip(1) == head);
    } else {
        assert(head + tail == tail);
        assert(head == Seq::<char>::empty());
        lemma_prepend_nothing(expansion(tail, vars, path));
    }
}

/// `$$` stands for one dollar sign, wherever it stands, and what follows is
/// expanded on its own.
pub proof fn law_double_dollar_is_a_dollar(
    tail: Seq<char>,
    vars: Map<Seq<char>, Seq<char>>,
    path: Seq<char>,
)
    ensures
        expansion(seq!['$', '$'] + tail, vars, path) == prepend(
            seq!['$'],
            expansion(tail, vars, path),
        ),
{
    let value = seq!['$', '$'] + tail;
    assert(value.skip(1).skip(1) == tail);
    assert(value.skip(1)[0] == '$');
}

/// `text` with every dollar sign doubled.
pub open spec fn escaped(text: Seq<char>) -> Seq<char>
    decreases text.len(),
{
    if text.len() == 0 {
        Seq::empty()
    } else if text[0] == '$' {
        seq!['$', '$'] + escaped(text.skip(1))
    } else {
        seq![text[0]] + escaped(text.skip(1))
    }
}

/// Doubling every dollar sign of a text is undone by expansion, under any
/// variables.
pub proof fn law_expansion_undoes_escaping(
    text: Seq<char>,
    vars: Map<Seq<char>, Seq<char>>,
    path: Seq<char>,
)
    ensures
        expansion(escaped(text), vars, path) == Ok::<Seq<char>, error::Fault>(text),
    decreases text.len(),
{
    if text.len() > 0 {
        law_expansion_undoes_escaping(text.skip(1), vars, path);
        assert(seq![text[0]] + text.skip(1) == text);
        if text[0] == '$' {
            law_double_dollar_is_a_dollar(escaped(text.skip(1)), vars, path);
        } else {
            let head = seq![text[0]];
            assert(head[0] != '$');
            law_leading_text_is_kept(head, escaped(text.skip(1)), vars, path);
        }
    } else {
        assert(text == Seq::<char>::empty());
    }
}

/// The text of a braced reference: `${name}` or `${name:-fallback}`.
pub open spec fn braced(name: Seq<char>, fallback: Option<Seq<char>>) -> Seq<char> {
    match fallback {
        None => seq!['$', '{'] + name + seq!['}'],
        Some(f) => seq!['$', '{'] + name + fallback_mark() + f + seq!['}'],
    }
}

/// The outcome of a reference followed by `tail`: its meaning is put in as
/// it stands, never scanned again, and a reference to an unset variable
/// without a fallback fails with a message that names the variable.
pub open spec fn reference_outcome(
    name: Seq<char>,
    fallback: Option<Seq<char>>,
    tail: Seq<char>,
    vars: Map<Seq<char>, Seq<char>>,
    path: Seq<char>,
) -> Result<Seq<char>, error::Fault> {
    match meaning(name, fallback, vars) {
        Some(text) => prepend(text, expansion(tail, vars, path)),
        None => Err(unset_variable(path, name)),
    }
}

/// A braced reference with a valid name, whose fallback, if any, holds no
/// closing brace, is read back from the text that it is written as.
pub proof fn lemma_braced_parses(
    name: Seq<char>,
    fallback: Option<Seq<char>>,
    tail: Seq<char>,
    path: Seq<char>,
)
    requires
        validate::valid_env_name(name),
        fallback matches Some(f) ==> !f.contains('}'),
    ensures
        (braced(name, fallback) + tail).skip(1)[0] == '{',
        reference((braced(name, fallback) + tail).skip(1), path) == Ok::<Reference, error::Fault>(
            (Reference { name, fallback, rest: tail }),
        ),
{
    let value = braced(name, fallback) + tail;
    let after = value.skip(1);
    let inner = match fallback {
        None => name,
        Some(f) => name + fallback_mark() + f,
    };
    assert(after[0] == '{');
    assert(after.skip(1) == inner + seq!['}'] + tail);
    assert forall|j: int| 0 <= j < inner.len() implies text::other_than('}')(
        #[trigger] after.skip(1)[j],
    ) by {
        if j < name.len() {
            assert(text::is_word(name[j]));
        } else if let Some(f) = fallback {
            if j >= name.len() + 2 {
                assert(f.contains(f[j - name.len() - 2]));
            }
        }
    }
    text::lemma_run_is(after.skip(1), text::other_than('}'), inner.len());
    assert(after.skip(1).take(inner.len() as int) == inner);
    assert(after.skip(1).skip(inner.len() as int + 1) == tail);
    match fallback {
        None => {
            assert forall|j: int| 0 <= j < inner.len() implies !text::stands_at(
                inner,
                fallback_mark(),
                j,
            ) by {
                if text::stands_at(inner, fallback_mark(), j) {
                    assert(inner.subrange(j, j + 2)[0] == ':');
                    assert(text::is_word(name[j]));
                }
            }
            text::lemma_first_at_is(inner, fallback_mark(), inner.len());
        },
        Some(f) => {
            assert forall|j: int| 0 <= j < name.len() implies !text::stands_at(
                inner,
                fallback_mark(),
                j,
            ) by {
                if text::stands_at(inner, fallback_mark(), j) {
                    assert(inner.subrange(j, j + 2)[0] == ':');
                    assert(text::is_word(name[j]));
                }
            }
            assert(inner.subrange(name.len() as int, name.len() as int + 2) == fallback_mark());
            text::lemma_first_at_is(inner, fallback_mark(), name.len());
            assert(inner.take(name.len() as int) == name);
            assert(inner.skip(name.len() as int + 2) == f);
        },
    }
}

/// A braced reference with a valid name, whose fallback, if any, holds no
/// closing brace, stands for the meaning of the name, verbatim.
pub proof fn law_braced_reference(
    name: Seq<char>,
    fallback: Option<Seq<char>>,
    tail: Seq<char>,
    vars: Map<Seq<char>, Seq<char>>,
    path: Seq<char>,
)
    requires
        validate::valid_env_name(name),
        fallback matches Some(f) ==> !f.contains('}'),
    ensures
        expansion(braced(name, fallback) + tail, vars, path) == reference_outcome(
            name,
            fallback,
            tail,
            vars,
            path,
        ),
{
    lemma_braced_parses(name, fallback, tail, path);
}

/// A bare reference with a valid name that no further name character
/// follows is read back from the text that it is written as.
pub proof fn lemma_bare_parses(name: Seq<char>, tail: Seq<char>, path: Seq<char>)
    requires
        validate::valid_env_name(name),
        tail.len() > 0 ==> !text::is_word(tail[0]),
    ensures
        text::is_word((seq!['$'] + name + tail).skip(1)[0]),
        reference((seq!['$'] + name + tail).skip(1), path) == Ok::<Reference, error::Fault>(
            (Reference { name, fallback: None, rest: tail }),
        ),
{
    let value = seq!['$'] + name + tail;
    let after = value.skip(1);
    assert(after == name + tail);
    assert forall|j: int| 0 <= j < name.len() implies text::word_chars()(
        #[trigger] after[j],
    ) by {
        assert(text::is_word(name[j]));
    }
    text::lemma_run_is(after, text::word_chars(), name.len());
    assert(after.take(name.len() as int) == name);
    assert(after.skip(name.len() as int) == tail);
    assert(text::is_word(name[0]));
}

/// A bare reference `$name` with a valid name stands for the meaning of the
/// name, verbatim, where no further name character follows it.
pub proof fn law_bare_reference(
    name: Seq<char>,
    tail: Seq<char>,
    vars: Map<Seq<char>, Seq<char>>,
    path: Seq<char>,
)
    requires
        validate::valid_env_name(name),
        tail.len() > 0 ==> !text::is_word(tail[0]),
    ensures
        expansion(seq!['$'] + name + tail, vars, path) == reference_outcome(
            name,
            None,
            tail,
            vars,
            path,
        ),
{
    lemma_bare_parses(name, tail, path);
}

proof fn lemma_reference_ignores_path(after: Seq<char>, p: Seq<char>, q: Seq<char>)
    ensures
        reference(after, p) matches Ok(r) ==> reference(after, q) == Ok::<
            Reference,
            error::Fault,
        >(r),
{
}

/// What a value expands to depends on the variables that it refers to, and
/// on no other: a variable that it does not refer to may have any value.
pub proof fn law_expansion_depends_on_references_only(
    value: Seq<char>,
    vars: Map<Seq<char>, Seq<char>>,
    path: Seq<char>,
    name: Seq<char>,
    other: Seq<char>,
)
    requires
        !refers_to(value, name),
    ensures
        expansion(value, vars.insert(name, other), path) == expansion(value, vars, path),
    decreases value.len(),
{
    if value.len() > 0 {
        let after = value.skip(1);
        if value[0] != '$' {
            law_expansion_depends_on_references_only(after, vars, path, name, other);
        } else if value.len() > 1 && value[1] == '$' {
            assert(after[0] == '$');
            assert(after.skip(1) == value.skip(2));
            law_expansion_depends_on_references_only(value.skip(2), vars, path, name, other);
        } else {
            if after.len() > 0 {
                assert(after[0] == value[1]);
            }
            lemma_reference_ignores_path(after, path, Seq::empty());
            lemma_reference_shrinks(after, path);
            if let Ok(r) = reference(after, path) {
                law_expansion_depends_on_references_only(r.rest, vars, path, name, other);
            }
        }
    }
}

/// A value without a dollar sign refers to nothing.
pub proof fn law_plain_text_refers_to_nothing(value: Seq<char>, name: Seq<char>)
    requires
        !value.contains('$'),
    ensures
        !refers_to(value, name),
    decreases value.len(),
{
    if value.len() > 0 {
        assert(value.contains(value[0]));
        assert forall|i: int| 0 <= i < value.skip(1).len() implies value.skip(1)[i] != '$' by {
            assert(value.contains(value[i + 1]));
        }
        law_plain_text_refers_to_nothing(value.skip(1), name);
    }
}

proof fn lemma_token_extends(
    after: Seq<char>,
    more: Seq<char>,
    vars: Map<Seq<char>, Seq<char>>,
    path: Seq<char>,
)
    requires
        token(after, vars, path) is Ok,
        more.len() > 0 ==> !text::is_word(more[0]),
    ensures
        token(after + more, vars, path) == Ok::<(Seq<char>, Seq<char>), error::Fault>(
            (token(after, vars, path)->Ok_0.0, token(after, vars, path)->Ok_0.1 + more),
        ),
{
    let all = after + more;
    text::lemma_run(after, text::word_chars());
    assert(after.len() > 0);
    assert(all[0] == after[0]);
    if after[0] == '$' {
        assert(all.skip(1) == after.skip(1) + more);
    } else if after[0] == '{' {
        let p = text::other_than('}');
        let inner = after.skip(1);
        let n = text::position(inner, '}');
        text::lemma_run(inner, p);
        assert(all.skip(1) == inner + more);
        assert forall|j: int| 0 <= j < n implies p(#[trigger] (inner + more)[j]) by {
            assert(p(inner[j]));
        }
        text::lemma_run_is(inner + more, p, n);
        assert((inner + more).take(n as int) == inner.take(n as int));
        assert((inner + more).skip(n as int + 1) == inner.skip(n as int + 1) + more);
    } else {
        let p = text::word_chars();
        let n = text::run(after, p);
        assert forall|j: int| 0 <= j < n implies p(#[trigger] all[j]) by {
            assert(p(after[j]));
        }
        if n < all.len() && n == after.len() {
            assert(all[n as int] == more[0]);
        }
        text::lemma_run_is(all, p, n);
        assert(all.take(n as int) == after.take(n as int));
        assert(all.skip(n as int) == after.skip(n as int) + more);
    }
}

/// A value that expands, followed by another one, expands to the two
/// expansions, one behind the other. The second one must not go on with a
/// character that a name in front of it would take in.
pub proof fn law_expansions_concatenate(
    value: Seq<char>,
    more: Seq<char>,
    vars: Map<Seq<char>, Seq<char>>,
    path: Seq<char>,
)
    requires
        expansion(value, vars, path) is Ok,
        more.len() > 0 ==> !text::is_word(more[0]),
    ensures
        expansion(value + more, vars, path) == prepend(
            expansion(value, vars, path)->Ok_0,
            expansion(more, vars, path),
        ),
    decreases value.len(),
{
    let all = value + more;
    let behind = expansion(more, vars, path);
    if value.len() == 0 {
        assert(all == more);
        lemma_prepend_nothing(behind);
    } else {
        let after = value.skip(1);
        assert(all[0] == value[0]);
        assert(all.skip(1) == after + more);
        if value[0] != '$' {
            law_expansions_concatenate(after, more, vars, path);
            lemma_prepend_twice(seq![value[0]], expansion(after, vars, path)->Ok_0, behind);
        } else {
            lemma_token_shrinks(after, vars, path);
            lemma_token_extends(after, more, vars, path);
            let (text, rest) = token(after, vars, path)->Ok_0;
            law_expansions_concatenate(rest, more, vars, path);
            lemma_prepend_twice(text, expansion(rest, vars, path)->Ok_0, behind);
        }
    }
}

} // verus!

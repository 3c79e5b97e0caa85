//! What the operations on text, lists and paths come to.

use vstd::prelude::*;

use crate::error;
use crate::lists;
use crate::order;
use crate::paths;
use crate::results;
use crate::text;

verus! {

// ---------------------------------------------------------------------
// Text
// ---------------------------------------------------------------------

/// White space, as Unicode has it.
pub open spec fn blank(c: char) -> bool {
    let n = c as u32;
    ||| n == 9 || n == 10 || n == 11 || n == 12 || n == 13 || n == 32
    ||| n == 133 || n == 160 || n == 5760
    ||| 8192 <= n <= 8202
    ||| n == 8232 || n == 8233 || n == 8239 || n == 8287 || n == 12288
}

/// The text is white space, or empty.
pub open spec fn all_blank(s: Seq<char>) -> bool {
    forall|i: int| 0 <= i < s.len() ==> blank(#[trigger] s[i])
}

/// Neither end of the text is white space.
pub open spec fn solid_ends(s: Seq<char>) -> bool {
    s.len() > 0 ==> !blank(s[0]) && !blank(s.last())
}

/// What counts as white space.
pub proof fn law_white_space(c: char)
    ensures
        text::is_space(c) <==> blank(c),
{
}

/// Trimming takes the white space away on both sides, and nothing else.
pub proof fn law_trimming(before: Seq<char>, s: Seq<char>, after: Seq<char>)
    requires
        all_blank(before),
        all_blank(after),
        solid_ends(s),
    ensures
        text::trimmed(before + s + after) == s,
{
    let whole = before + s + after;
    assert forall|i: int| 0 <= i < before.len() implies text::space_chars()(
        #[trigger] whole[i],
    ) by {
        assert(blank(before[i]));
        law_white_space(whole[i]);
    }
    if s.len() == 0 {
        assert forall|i: int| 0 <= i < whole.len() implies text::space_chars()(
            #[trigger] whole[i],
        ) by {
            if i >= before.len() {
                assert(blank(after[i - before.len()]));
            }
            law_white_space(whole[i]);
        }
        text::lemma_run_is(whole, text::space_chars(), whole.len());
        assert(text::trim_front(whole) == Seq::<char>::empty());
        assert(text::trimmed(whole) == s);
    } else {
        assert(whole[before.len() as int] == s[0]);
        law_white_space(s[0]);
        law_white_space(s.last());
        text::lemma_run_is(whole, text::space_chars(), before.len());
        let front = text::trim_front(whole);
        assert(front == s + after);
        assert forall|j: int| s.len() <= j < front.len() implies text::space_chars()(
            #[trigger] front[j],
        ) by {
            assert(blank(after[j - s.len()]));
            law_white_space(front[j]);
        }
        assert(front[s.len() - 1] == s.last());
        text::lemma_trim_back_is(front, text::space_chars(), s.len());
        assert(front.take(s.len() as int) == s);
    }
}

/// The text is the inner one with white space around it.
pub open spec fn wraps(s: Seq<char>, before: Seq<char>, inner: Seq<char>, after: Seq<char>) -> bool {
    &&& s == before + inner + after
    &&& all_blank(before)
    &&& all_blank(after)
}

/// Every text is of that form: what is trimmed off it is white space.
pub proof fn law_only_white_space_is_trimmed(s: Seq<char>)
    ensures
        solid_ends(text::trimmed(s)),
        exists|before: Seq<char>, after: Seq<char>| #[trigger]
            wraps(s, before, text::trimmed(s), after),
{
    let n = text::run(s, text::space_chars());
    text::lemma_run(s, text::space_chars());
    let front = text::trim_front(s);
    text::lemma_trim_back(front, text::space_chars());
    let middle = text::trimmed(s);
    let before = s.take(n as int);
    let after = front.skip(middle.len() as int);
    assert(all_blank(before)) by {
        assert forall|i: int| 0 <= i < before.len() implies blank(#[trigger] before[i]) by {
            assert(text::space_chars()(s[i]));
            law_white_space(s[i]);
        }
    }
    assert(all_blank(after)) by {
        assert forall|i: int| 0 <= i < after.len() implies blank(#[trigger] after[i]) by {
            assert(text::space_chars()(front[middle.len() + i]));
            law_white_space(front[middle.len() + i]);
        }
    }
    assert(s == before + front);
    assert(front == middle + after);
    assert(before + (middle + after) == before + middle + after);
    assert(wraps(s, before, middle, after));
    text::lemma_trimmed_ends(s);
    if middle.len() > 0 {
        law_white_space(middle[0]);
        law_white_space(middle.last());
    }
}

/// A text is cut at the first occurrence of the character, which is left
/// out; a text without it is not cut.
pub proof fn law_cutting(a: Seq<char>, c: char, b: Seq<char>)
    requires
        !a.contains(c),
    ensures
        text::cut(a + seq![c] + b, c) == Some((a, b)),
        text::cut(a, c) is None,
{
    let whole = a + seq![c] + b;
    assert forall|j: int| 0 <= j < a.len() implies text::other_than(c)(#[trigger] whole[j])
        && text::other_than(c)(a[j]) by {
        assert(a.contains(a[j]));
    }
    assert forall|j: int| 0 <= j < a.len() implies text::other_than(c)(#[trigger] a[j]) by {
        assert(a.contains(a[j]));
    }
    assert(whole[a.len() as int] == c);
    text::lemma_run_is(whole, text::other_than(c), a.len());
    text::lemma_run_is(a, text::other_than(c), a.len());
    assert(whole.take(a.len() as int) == a);
    assert(whole.skip(a.len() as int + 1) == b);
}

/// The pieces of a text between a character are the texts that it was put
/// together from with that character between them.
pub proof fn law_splitting(pieces: Seq<Seq<char>>, c: char)
    requires
        pieces.len() > 0,
        forall|i: int| 0 <= i < pieces.len() ==> !(#[trigger] pieces[i]).contains(c),
    ensures
        text::split(text::joined(pieces, seq![c]), c) == pieces,
{
    text::lemma_split_joined(pieces, c);
}

/// Texts are put together in order, with the separator between any two of
/// them, and nothing before or behind them.
pub proof fn law_joining(parts: Seq<Seq<char>>, sep: Seq<char>, last: Seq<char>)
    ensures
        text::joined(seq![], sep) == Seq::<char>::empty(),
        text::joined(seq![last], sep) == last,
        parts.len() > 0 ==> text::joined(parts.push(last), sep) == text::joined(parts, sep) + sep
            + last,
{
    assert(parts.push(last).drop_last() == parts);
}

/// A text starts with a part, ends with it, or holds it, where it is that
/// part with text on the one side, on the other, or on both.
pub proof fn law_parts_of_a_text(a: Seq<char>, part: Seq<char>, b: Seq<char>)
    ensures
        text::starts(part + b, part),
        text::after_prefix(part + b, part) == Some(b),
        text::ends(a + part, part),
        text::before_suffix(a + part, part) == Some(a),
        text::occurs(a + part + b, part),
{
    assert((part + b).subrange(0, part.len() as int) == part);
    assert((part + b).skip(part.len() as int) == b);
    assert((a + part).subrange(a.len() as int, (a + part).len() as int) == part);
    assert((a + part).take(a.len() as int) == a);
    let whole = a + part + b;
    assert(whole.subrange(a.len() as int, (a.len() + part.len()) as int) == part);
    assert(text::stands_at(whole, part, a.len() as int));
}

/// And nowhere else.
pub proof fn law_only_parts_are_found(s: Seq<char>, part: Seq<char>)
    ensures
        text::starts(s, part) ==> s == part + s.skip(part.len() as int),
        text::ends(s, part) ==> part.len() <= s.len() && s == s.take(s.len() - part.len()) + part,
        text::occurs(s, part) ==> exists|a: Seq<char>, b: Seq<char>|
            s == #[trigger] (a + part + b),
        !text::starts(s, part) ==> text::after_prefix(s, part) is None,
        !text::ends(s, part) ==> text::before_suffix(s, part) is None,
{
    if text::starts(s, part) {
        assert(s == s.subrange(0, part.len() as int) + s.skip(part.len() as int));
    }
    if text::ends(s, part) {
        let n = s.len() - part.len();
        assert(s == s.take(n) + s.subrange(n, n + part.len()));
    }
    if text::occurs(s, part) {
        let i = choose|i: int| text::stands_at(s, part, i);
        let a = s.take(i);
        let b = s.skip(i + part.len());
        assert(s == a + s.subrange(i, i + part.len()) + b);
    }
}

/// A number is written with its decimal digits, the last of them for the
/// units.
pub proof fn law_decimal_digits(n: nat, d: nat)
    requires
        d < 10,
    ensures
        text::decimal(d) == seq![(('0' as u32) + d) as char],
        n > 0 ==> text::decimal(10 * n + d) == text::decimal(n).push((('0' as u32) + d) as char),
{
    if n > 0 {
        assert((10 * n + d) / 10 == n);
        assert((10 * n + d) % 10 == d);
    }
}

/// Such a number is read back, as far as it fits; what holds anything but
/// digits is none.
pub proof fn law_numbers_are_read_back(n: nat, max: nat, s: Seq<char>, i: int)
    ensures
        text::unsigned(text::decimal(n), max) == if n <= max {
            Some(n)
        } else {
            None
        },
        text::unsigned(seq![], max) is None,
        0 <= i < s.len() && !('0' <= s[i] <= '9') && !(i == 0 && s[0] == '+') ==> text::unsigned(
            s,
            max,
        ) is None,
{
    lemma_decimal(n);
    assert(text::is_digit(text::decimal(n)[0]));
    if 0 <= i < s.len() && !('0' <= s[i] <= '9') && !(i == 0 && s[0] == '+') {
        let digits = text::after_plus(s);
        if s[0] == '+' {
            assert(digits[i - 1] == s[i]);
        } else {
            assert(digits[i] == s[i]);
        }
    }
}

proof fn lemma_decimal(n: nat)
    ensures
        text::decimal(n).len() > 0,
        text::all_digits(text::decimal(n)),
        text::number(text::decimal(n)) == n,
    decreases n,
{
    if n < 10 {
        let s = text::decimal(n);
        assert(s.drop_last() == Seq::<char>::empty());
        assert(text::number(s.drop_last()) == 0);
        assert(s.last() as nat == 48 + n);
    } else {
        lemma_decimal(n / 10);
        let s = text::decimal(n);
        assert(s.drop_last() == text::decimal(n / 10));
        assert(s.last() as nat == 48 + n % 10);
        assert forall|i: int| 0 <= i < s.len() implies text::is_digit(#[trigger] s[i]) by {
            if i < s.len() - 1 {
                assert(s[i] == text::decimal(n / 10)[i]);
            }
        }
    }
}

// ---------------------------------------------------------------------
// Lists
// ---------------------------------------------------------------------

/// Merging appends what is not there yet, in order, and nothing else.
pub proof fn law_merging(list: Seq<Seq<char>>, more: Seq<Seq<char>>, item: Seq<char>)
    ensures
        lists::merged(list, seq![]) == list,
        lists::merged(list, more).contains(item) ==> lists::merged(list, more.push(item))
            == lists::merged(list, more),
        !lists::merged(list, more).contains(item) ==> lists::merged(list, more.push(item))
            == lists::merged(list, more).push(item),
{
    assert(more.push(item).drop_last() == more);
}

/// Texts are in the order of their first difference; a text comes before
/// its continuations.
pub proof fn law_order_of_texts(
    common: Seq<char>,
    x: char,
    y: char,
    a: Seq<char>,
    b: Seq<char>,
)
    ensures
        order::before(common, common + seq![x] + a),
        !order::before(common + a, common),
        x < y ==> order::before(common + seq![x] + a, common + seq![y] + b),
        x < y ==> !order::before(common + seq![y] + b, common + seq![x] + a),
    decreases common.len(),
{
    let longer = common + seq![x] + a;
    let p = common + seq![x] + a;
    let q = common + seq![y] + b;
    if common.len() == 0 {
        assert(longer[0] == x);
        assert(p[0] == x);
        assert(q[0] == y);
    } else {
        let rest = common.skip(1);
        law_order_of_texts(rest, x, y, a, b);
        assert(longer.skip(1) == rest + seq![x] + a);
        assert((common + a).skip(1) == rest + a);
        assert(q.skip(1) == rest + seq![y] + b);
    }
}

/// Of several complaints about a list, the first counts.
pub proof fn law_first_complaint_counts<A>(
    items: Seq<A>,
    check: spec_fn(A) -> Option<error::Fault>,
    i: int,
)
    requires
        0 <= i < items.len(),
        check(items[i]) is Some,
        forall|j: int| 0 <= j < i ==> check(#[trigger] items[j]) is None,
    ensures
        results::first_fault(items, check) == check(items[i]),
    decreases items.len(),
{
    if i > 0 {
        let rest = items.skip(1);
        assert(check(items[0]) is None);
        assert forall|j: int| 0 <= j < i - 1 implies check(#[trigger] rest[j]) is None by {
            assert(rest[j] == items[j + 1]);
        }
        law_first_complaint_counts(rest, check, i - 1);
    }
}

// ---------------------------------------------------------------------
// Paths
// ---------------------------------------------------------------------

/// A relative path below a directory has one `/` in front of it; an
/// absolute one stays as it is.
pub proof fn law_paths_below(base: Seq<char>, rel: Seq<char>)
    requires
        rel.len() > 0 ==> rel[0] != '/',
    ensures
        base.len() > 0 && base.last() != '/' ==> paths::below(base, rel) == base + seq!['/'] + rel,
        paths::below(base + seq!['/'], rel) == base + seq!['/'] + rel,
        paths::below(seq![], rel) == rel,
        paths::below(base, seq!['/'] + rel) == seq!['/'] + rel,
{
    reveal_strlit("/");
    assert("/"@ == seq!['/']);
    assert((base + seq!['/']).last() == '/');
    assert((seq!['/'] + rel)[0] == '/');
    assert(Seq::<char>::empty() + rel == rel);
}

/// The final component of a path is what stands behind its last `/`; empty
/// components and `.` at the end do not count; a path that ends in `..` has
/// none.
pub proof fn law_final_component(dir: Seq<char>, name: Seq<char>)
    requires
        !name.contains('/'),
    ensures
        name.len() > 0 && name != "."@ && name != ".."@ ==> {
            &&& paths::base_name(name) == Some(name)
            &&& paths::base_name(dir + seq!['/'] + name) == Some(name)
        },
        name.len() == 0 || name == "."@ ==> paths::base_name(dir + seq!['/'] + name)
            == paths::base_name(dir),
        name == ".."@ ==> paths::base_name(dir + seq!['/'] + name) is None,
        paths::base_name(seq![]) is None,
{
    text::lemma_split_append(dir, '/', name);
    let pieces = text::split(dir, '/');
    assert(pieces.push(name).drop_last() == pieces);
    assert(pieces.push(name).last() == name);
    law_cutting(name, '/', seq![]);
    assert forall|j: int| 0 <= j < name.len() implies text::other_than('/')(
        #[trigger] name[j],
    ) by {
        assert(name.contains(name[j]));
    }
    text::lemma_run_is(name, text::other_than('/'), name.len());
    assert(text::split(name, '/') == seq![name]);
    assert(seq![name].last() == name);
    reveal_strlit(".");
    reveal_strlit("..");
    let nothing = Seq::<char>::empty();
    assert(text::split(nothing, '/') == seq![nothing]);
    assert(seq![nothing].drop_last() == Seq::<Seq<char>>::empty());
    assert(paths::last_name(seq![nothing].drop_last()) is None);
}

/// A `~` that is the whole path, or its first component, stands for the
/// home directory; elsewhere it stands for itself.
pub proof fn law_home_directory(home: Seq<char>, rest: Seq<char>, path: Seq<char>)
    ensures
        paths::tilde_expanded(seq!['~'], home) == home,
        paths::tilde_expanded(seq!['~', '/'] + rest, home) == paths::below(home, rest),
        path != seq!['~'] && !(path.len() >= 2 && path[0] == '~' && path[1] == '/')
            ==> paths::tilde_expanded(path, home) == path,
{
    reveal_strlit("~");
    reveal_strlit("~/");
    assert("~"@ == seq!['~']);
    assert("~/"@ == seq!['~', '/']);
    let long = seq!['~', '/'] + rest;
    assert(long.len() >= 2);
    assert(long.subrange(0, 2) == seq!['~', '/']);
    assert(long.skip(2) == rest);
    if text::starts(path, "~/"@) {
        assert(path.subrange(0, 2)[0] == '~');
        assert(path.subrange(0, 2)[1] == '/');
    }
}

/// The same, where the complaints tell the position.
pub proof fn law_first_complaint_with_its_position<A>(
    items: Seq<A>,
    from: int,
    check: spec_fn(int, A) -> Option<error::Fault>,
    i: int,
)
    requires
        0 <= i < items.len(),
        check(from + i, items[i]) is Some,
        forall|j: int| 0 <= j < i ==> check(from + j, #[trigger] items[j]) is None,
    ensures
        results::first_fault_from(items, from, check) == check(from + i, items[i]),
    decreases items.len(),
{
    if i > 0 {
        let rest = items.skip(1);
        assert(check(from + 0, items[0]) is None);
        assert forall|j: int| 0 <= j < i - 1 implies check(
            from + 1 + j,
            #[trigger] rest[j],
        ) is None by {
            assert(rest[j] == items[j + 1]);
            assert(check(from + (j + 1), items[j + 1]) is None);
        }
        assert(rest[i - 1] == items[i]);
        assert(from + 1 + (i - 1) == from + i);
        law_first_complaint_with_its_position(rest, from + 1, check, i - 1);
    }
}

/// Of several failures in a list, the first counts; where there is none,
/// there is a result for each item, at its position.
pub proof fn law_first_failure_counts<A, B>(
    items: Seq<A>,
    f: spec_fn(int, A) -> Result<B, error::Fault>,
    i: int,
)
    requires
        0 <= i <= items.len(),
        i < items.len() ==> f(i, items[i]) is Err,
        forall|j: int| 0 <= j < i ==> f(j, #[trigger] items[j]) is Ok,
    ensures
        i < items.len() ==> results::collected(items, f) == Err::<Seq<B>, error::Fault>(
            f(i, items[i])->Err_0,
        ),
        i == items.len() ==> (results::collected(items, f) matches Ok(done) && done.len() == i
            && forall|j: int| 0 <= j < i ==> f(j, items[j]) == Ok::<B, error::Fault>(
            #[trigger] done[j],
        )),
    decreases items.len(),
{
    if i == items.len() {
        results::lemma_collected_ok(items, f);
        results::lemma_collected_items(items, f);
    } else {
        let front = items.drop_last();
        if i < front.len() {
            assert(front[i] == items[i]);
            assert forall|j: int| 0 <= j < i implies f(j, #[trigger] front[j]) is Ok by {
                assert(front[j] == items[j]);
            }
            law_first_failure_counts(front, f, i);
        } else {
            assert forall|j: int| 0 <= j < front.len() implies f(j, #[trigger] front[j]) is Ok by {
                assert(front[j] == items[j]);
            }
            results::lemma_collected_ok(front, f);
        }
    }
}

} // verus!

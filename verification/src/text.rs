//! Text as sequences of characters: the vocabulary that the contracts of
//! this crate are written in, and the functions that compute it.
//!
//! A `str` or `String` is viewed as the sequence of its characters. The
//! specification functions say what splitting, trimming, joining and
//! searching mean; each executable function states its result with them.

use vstd::prelude::*;
use vstd::string::*;

verus! {

/// `String::push` (std): appends the character `c` to the end of `s` and
/// changes nothing else.
pub assume_specification[ String::push ](s: &mut String, c: char)
    ensures
        final(s)@ == old(s)@.push(c),
;

// ---------------------------------------------------------------------
// Characters
// ---------------------------------------------------------------------

/// An ASCII decimal digit.
pub open spec fn is_digit(c: char) -> bool {
    '0' <= c <= '9'
}

/// An ASCII letter or digit.
pub open spec fn is_alnum(c: char) -> bool {
    ||| is_digit(c)
    ||| 'A' <= c <= 'Z'
    ||| 'a' <= c <= 'z'
}

/// A character of a variable name: `[A-Za-z0-9_]`.
pub open spec fn is_word(c: char) -> bool {
    is_alnum(c) || c == '_'
}

/// A character with the Unicode property White_Space.
pub open spec fn is_space(c: char) -> bool {
    ||| 0x9 <= c as u32 <= 0xD
    ||| c as u32 == 0x20
    ||| c as u32 == 0x85
    ||| c as u32 == 0xA0
    ||| c as u32 == 0x1680
    ||| 0x2000 <= c as u32 <= 0x200A
    ||| c as u32 == 0x2028
    ||| c as u32 == 0x2029
    ||| c as u32 == 0x202F
    ||| c as u32 == 0x205F
    ||| c as u32 == 0x3000
}

/// Whether `c` is an ASCII letter or digit.
pub fn alnum(c: char) -> (r: bool)
    ensures
        r == is_alnum(c),
{
    ('0' <= c && c <= '9') || ('A' <= c && c <= 'Z') || ('a' <= c && c <= 'z')
}

/// Whether `c` may stand in a variable name.
pub fn word(c: char) -> (r: bool)
    ensures
        r == is_word(c),
{
    alnum(c) || c == '_'
}

/// Whether `c` is white space.
pub fn space(c: char) -> (r: bool)
    ensures
        r == is_space(c),
{
    let u: u32 = c as u32;
    (0x9 <= u && u <= 0xD) || u == 0x20 || u == 0x85 || u == 0xA0 || u == 0x1680 || (0x2000 <= u
        && u <= 0x200A) || u == 0x2028 || u == 0x2029 || u == 0x202F || u == 0x205F || u == 0x3000
}

// ---------------------------------------------------------------------
// Views of collections of text
// ---------------------------------------------------------------------

/// The texts of a sequence of strings.
pub open spec fn texts(v: Seq<String>) -> Seq<Seq<char>> {
    v.map_values(|s: String| s@)
}

/// One more string is one more text.
pub proof fn lemma_texts_push(v: Seq<String>, s: String)
    ensures
        texts(v.push(s)) == texts(v).push(s@),
{
}

/// The text of an optional string.
pub open spec fn opt_text(o: Option<String>) -> Option<Seq<char>> {
    match o {
        Some(s) => Some(s@),
        None => None,
    }
}

/// The text of an optional borrowed string.
pub open spec fn opt_str(o: Option<&str>) -> Option<Seq<char>> {
    match o {
        Some(s) => Some(s@),
        None => None,
    }
}

// ---------------------------------------------------------------------
// Searching
// ---------------------------------------------------------------------

/// The length of the longest prefix of `s` whose characters all satisfy
/// `p`.
pub open spec fn run(s: Seq<char>, p: spec_fn(char) -> bool) -> nat
    decreases s.len(),
{
    if s.len() > 0 && p(s[0]) {
        1 + run(s.skip(1), p)
    } else {
        0
    }
}

/// The characters other than `c`.
pub open spec fn other_than(c: char) -> spec_fn(char) -> bool {
    |x: char| x != c
}

/// The character `c` alone.
pub open spec fn only(c: char) -> spec_fn(char) -> bool {
    |x: char| x == c
}

/// The characters of a variable name.
pub open spec fn word_chars() -> spec_fn(char) -> bool {
    |x: char| is_word(x)
}

/// The white space characters.
pub open spec fn space_chars() -> spec_fn(char) -> bool {
    |x: char| is_space(x)
}

/// The characters that are not white space.
pub open spec fn solid_chars() -> spec_fn(char) -> bool {
    |x: char| !is_space(x)
}

/// The position of the first `c` in `s`; the length of `s` if it has none.
pub open spec fn position(s: Seq<char>, c: char) -> nat {
    run(s, other_than(c))
}

/// A run holds characters of `p` alone and ends at the first other one.
pub proof fn lemma_run(s: Seq<char>, p: spec_fn(char) -> bool)
    ensures
        run(s, p) <= s.len(),
        forall|j: int| 0 <= j < run(s, p) ==> p(#[trigger] s[j]),
        run(s, p) < s.len() ==> !p(s[run(s, p) as int]),
    decreases s.len(),
{
    if s.len() > 0 && p(s[0]) {
        lemma_run(s.skip(1), p);
        assert forall|j: int| 0 <= j < run(s, p) implies p(#[trigger] s[j]) by {
            if j > 0 {
                assert(s.skip(1)[j - 1] == s[j]);
            }
        }
    }
}

/// A prefix of characters of `p` that cannot be continued is the run.
pub proof fn lemma_run_is(s: Seq<char>, p: spec_fn(char) -> bool, n: nat)
    requires
        n <= s.len(),
        forall|j: int| 0 <= j < n ==> p(#[trigger] s[j]),
        n < s.len() ==> !p(s[n as int]),
    ensures
        run(s, p) == n,
{
    lemma_run(s, p);
    let m = run(s, p);
    if m < n {
        assert(p(s[m as int]));
    } else if n < m {
        assert(p(s[n as int]));
    }
}

/// The characters of `s`, in order.
pub fn chars_of(s: &str) -> (r: Vec<char>)
    ensures
        r@ == s@,
{
    let mut out: Vec<char> = Vec::new();
    for c in it: s.chars()
        invariant
            it.seq() == s@,
            out@ == s@.take(it.index() as int),
    {
        out.push(c);
        proof {
            assert(s@.take(it.index() as int + 1) == s@.take(it.index() as int).push(c));
        }
    }
    assert(s@.take(s@.len() as int) == s@);
    out
}

/// The text from position `from` up to position `to`.
pub fn slice(cs: &[char], from: usize, to: usize) -> (r: String)
    requires
        from <= to <= cs@.len(),
    ensures
        r@ == cs@.subrange(from as int, to as int),
{
    let mut out = String::new();
    let mut i: usize = from;
    while i < to
        invariant
            from <= i <= to <= cs@.len(),
            out@ == cs@.subrange(from as int, i as int),
        decreases to - i,
    {
        out.push(cs[i]);
        proof {
            assert(cs@.subrange(from as int, i as int + 1) == cs@.subrange(
                from as int,
                i as int,
            ).push(cs@[i as int]));
        }
        i += 1;
    }
    out
}

/// The first position at or after `from` that holds `c`; the length if
/// none does.
pub fn find_from(cs: &[char], from: usize, c: char) -> (r: usize)
    requires
        from <= cs@.len(),
    ensures
        from <= r <= cs@.len(),
        r == from + position(cs@.skip(from as int), c),
{
    let mut i: usize = from;
    while i < cs.len() && cs[i] != c
        invariant
            from <= i <= cs@.len(),
            forall|j: int| from <= j < i ==> cs@[j] != c,
        decreases cs.len() - i,
    {
        i += 1;
    }
    proof {
        lemma_run_is(cs@.skip(from as int), other_than(c), (i - from) as nat);
    }
    i
}

/// Whether the two texts are the same.
pub fn same(a: &str, b: &str) -> (r: bool)
    ensures
        r == (a@ == b@),
{
    let x = chars_of(a);
    let y = chars_of(b);
    if x.len() != y.len() {
        return false;
    }
    let mut i: usize = 0;
    while i < x.len()
        invariant
            i <= x@.len(),
            x@.len() == y@.len(),
            x@ == a@,
            y@ == b@,
            forall|j: int| 0 <= j < i ==> x@[j] == y@[j],
        decreases x.len() - i,
    {
        if x[i] != y[i] {
            return false;
        }
        i += 1;
    }
    assert(x@ == y@);
    true
}

/// Whether `c` occurs in `s`.
pub fn has_char(s: &str, c: char) -> (r: bool)
    ensures
        r == s@.contains(c),
{
    let cs = chars_of(s);
    let n = find_from(&cs, 0, c);
    proof {
        assert(cs@.skip(0) == cs@);
        lemma_run(cs@, other_than(c));
    }
    n < cs.len()
}

/// `part` stands at position `i` of `s`.
pub open spec fn stands_at(s: Seq<char>, part: Seq<char>, i: int) -> bool {
    0 <= i && i + part.len() <= s.len() && s.subrange(i, i + part.len()) == part
}

/// `part` stands somewhere in `s`.
pub open spec fn occurs(s: Seq<char>, part: Seq<char>) -> bool {
    exists|i: int| stands_at(s, part, i)
}

/// `s` starts with `part`.
pub open spec fn starts(s: Seq<char>, part: Seq<char>) -> bool {
    stands_at(s, part, 0)
}

/// `s` ends with `part`.
pub open spec fn ends(s: Seq<char>, part: Seq<char>) -> bool {
    stands_at(s, part, s.len() - part.len())
}

/// Whether `part` stands at position `i`.
pub fn is_at(cs: &[char], part: &[char], i: usize) -> (r: bool)
    ensures
        r == stands_at(cs@, part@, i as int),
{
    if cs.len() < part.len() || i > cs.len() - part.len() {
        return false;
    }
    let mut j: usize = 0;
    while j < part.len()
        invariant
            j <= part@.len(),
            i + part@.len() <= cs.len(),
            forall|k: int| 0 <= k < j ==> cs@[i + k] == part@[k],
        decreases part.len() - j,
    {
        if cs[i + j] != part[j] {
            proof {
                assert(cs@.subrange(i as int, i + part@.len())[j as int] == cs@[i + j]);
            }
            return false;
        }
        j += 1;
    }
    assert(cs@.subrange(i as int, i + part@.len()) == part@);
    true
}

/// Whether `s` starts with `part`.
pub fn starts_with(s: &str, part: &str) -> (r: bool)
    ensures
        r == starts(s@, part@),
{
    is_at(&chars_of(s), &chars_of(part), 0)
}

/// Whether `s` ends with `part`.
pub fn ends_with(s: &str, part: &str) -> (r: bool)
    ensures
        r == ends(s@, part@),
{
    let cs = chars_of(s);
    let ps = chars_of(part);
    if cs.len() < ps.len() {
        return false;
    }
    is_at(&cs, &ps, cs.len() - ps.len())
}

/// Whether `part` stands somewhere in `s`.
pub fn contains(s: &str, part: &str) -> (r: bool)
    ensures
        r == occurs(s@, part@),
{
    let cs = chars_of(s);
    let ps = chars_of(part);
    let mut i: usize = 0;
    loop
        invariant
            i <= cs@.len(),
            cs@ == s@,
            ps@ == part@,
            forall|j: int| 0 <= j < i ==> !stands_at(s@, part@, j),
        decreases cs@.len() - i,
    {
        if is_at(&cs, &ps, i) {
            return true;
        }
        if i == cs.len() {
            return false;
        }
        i += 1;
    }
}

/// The first position of `s` at which `part` stands; the length of `s` if
/// it stands nowhere before that.
pub open spec fn first_at(s: Seq<char>, part: Seq<char>) -> nat
    decreases s.len(),
{
    if s.len() == 0 || starts(s, part) {
        0
    } else {
        1 + first_at(s.skip(1), part)
    }
}

proof fn lemma_stands_at_skip(s: Seq<char>, part: Seq<char>, i: int)
    requires
        0 < i,
        s.len() > 0,
    ensures
        stands_at(s, part, i) == stands_at(s.skip(1), part, i - 1),
{
    if i + part.len() <= s.len() {
        assert(s.subrange(i, i + part.len()) == s.skip(1).subrange(i - 1, i - 1 + part.len()));
    }
}

/// A position at which `part` stands, and none before it, is the first.
pub proof fn lemma_first_at_is(s: Seq<char>, part: Seq<char>, n: nat)
    requires
        n <= s.len(),
        forall|j: int| 0 <= j < n ==> !stands_at(s, part, j),
        n == s.len() || stands_at(s, part, n as int),
    ensures
        first_at(s, part) == n,
    decreases s.len(),
{
    if n > 0 {
        assert(!stands_at(s, part, 0));
        assert forall|j: int| 0 <= j < n - 1 implies !stands_at(s.skip(1), part, j) by {
            lemma_stands_at_skip(s, part, j + 1);
        }
        lemma_stands_at_skip(s, part, n as int);
        lemma_first_at_is(s.skip(1), part, (n - 1) as nat);
    }
}

/// `part` stands at its first position, and at none before it.
pub proof fn lemma_first_at(s: Seq<char>, part: Seq<char>)
    ensures
        first_at(s, part) <= s.len(),
        first_at(s, part) < s.len() ==> stands_at(s, part, first_at(s, part) as int),
        forall|j: int| 0 <= j < first_at(s, part) ==> !stands_at(s, part, j),
    decreases s.len(),
{
    if s.len() > 0 && !starts(s, part) {
        lemma_first_at(s.skip(1), part);
        let n = first_at(s, part);
        lemma_stands_at_skip(s, part, n as int);
        assert forall|j: int| 0 <= j < n implies !stands_at(s, part, j) by {
            if j > 0 {
                lemma_stands_at_skip(s, part, j);
            }
        }
    }
}

/// The first position at which `part` stands; the length if none before
/// that does.
pub fn find_part(cs: &[char], part: &[char]) -> (r: usize)
    ensures
        r <= cs@.len(),
        r == first_at(cs@, part@),
{
    let mut i: usize = 0;
    while i < cs.len() && !is_at(cs, part, i)
        invariant
            i <= cs@.len(),
            forall|j: int| 0 <= j < i ==> !stands_at(cs@, part@, j),
        decreases cs.len() - i,
    {
        i += 1;
    }
    proof {
        lemma_first_at_is(cs@, part@, i as nat);
    }
    i
}

// ---------------------------------------------------------------------
// Taking text apart
// ---------------------------------------------------------------------

/// What stands before and after the first `c` of `s`, if it has one.
pub open spec fn cut(s: Seq<char>, c: char) -> Option<(Seq<char>, Seq<char>)> {
    let n = position(s, c);
    if n < s.len() {
        Some((s.take(n as int), s.skip(n as int + 1)))
    } else {
        None
    }
}

/// What stands before and after the first `part` in `s`, if it is there.
pub open spec fn cut_at(s: Seq<char>, part: Seq<char>) -> Option<(Seq<char>, Seq<char>)> {
    let n = first_at(s, part) as int;
    if stands_at(s, part, n) {
        Some((s.take(n), s.skip(n + part.len())))
    } else {
        None
    }
}

/// `s` without its leading white space.
pub open spec fn trim_front(s: Seq<char>) -> Seq<char> {
    s.skip(run(s, space_chars()) as int)
}

/// `s` without its trailing characters of `p`.
pub open spec fn trim_back(s: Seq<char>, p: spec_fn(char) -> bool) -> Seq<char>
    decreases s.len(),
{
    if s.len() > 0 && p(s.last()) {
        trim_back(s.drop_last(), p)
    } else {
        s
    }
}

/// `s` without leading and trailing white space.
pub open spec fn trimmed(s: Seq<char>) -> Seq<char> {
    trim_back(trim_front(s), space_chars())
}

/// The pieces of `s` between its occurrences of `c`; always at least one.
pub open spec fn split(s: Seq<char>, c: char) -> Seq<Seq<char>>
    decreases s.len(),
{
    let n = position(s, c);
    if n < s.len() {
        seq![s.take(n as int)] + split(s.skip(n as int + 1), c)
    } else {
        seq![s]
    }
}

/// `s` without the prefix `part`, if it starts with it.
pub open spec fn after_prefix(s: Seq<char>, part: Seq<char>) -> Option<Seq<char>> {
    if starts(s, part) {
        Some(s.skip(part.len() as int))
    } else {
        None
    }
}

/// `s` without the suffix `part`, if it ends with it.
pub open spec fn before_suffix(s: Seq<char>, part: Seq<char>) -> Option<Seq<char>> {
    if ends(s, part) {
        Some(s.take(s.len() - part.len()))
    } else {
        None
    }
}

/// What is trimmed is a prefix that does not end in `p`, and all behind it
/// is of `p`.
pub proof fn lemma_trim_back(s: Seq<char>, p: spec_fn(char) -> bool)
    ensures
        trim_back(s, p).len() <= s.len(),
        trim_back(s, p) == s.take(trim_back(s, p).len() as int),
        trim_back(s, p).len() > 0 ==> !p(trim_back(s, p).last()),
        forall|j: int| trim_back(s, p).len() <= j < s.len() ==> p(#[trigger] s[j]),
    decreases s.len(),
{
    if s.len() > 0 && p(s.last()) {
        lemma_trim_back(s.drop_last(), p);
        let n = trim_back(s, p).len() as int;
        assert(s.drop_last().take(n) == s.take(n));
        assert forall|j: int| n <= j < s.len() implies p(#[trigger] s[j]) by {
            if j < s.len() - 1 {
                assert(s.drop_last()[j] == s[j]);
            }
        }
    } else {
        assert(s == s.take(s.len() as int));
    }
}

/// A prefix that does not end in `p`, with all behind it of `p`, is what
/// trimming leaves.
pub proof fn lemma_trim_back_is(s: Seq<char>, p: spec_fn(char) -> bool, n: nat)
    requires
        n <= s.len(),
        n > 0 ==> !p(s[n - 1]),
        forall|j: int| n <= j < s.len() ==> p(#[trigger] s[j]),
    ensures
        trim_back(s, p) == s.take(n as int),
{
    lemma_trim_back(s, p);
    let m = trim_back(s, p).len();
    if m < n {
        assert(p(s[n - 1]));
    } else if n < m {
        assert(p(s[m - 1]));
        assert(trim_back(s, p).last() == s[m - 1]);
    }
}

/// A text without white space at its ends is its own trimmed form.
pub proof fn lemma_trimmed_is(s: Seq<char>)
    requires
        s.len() > 0 ==> !is_space(s[0]) && !is_space(s.last()),
    ensures
        trimmed(s) == s,
{
    assert(run(s, space_chars()) == 0);
    assert(s.skip(0) == s);
}

/// What is trimmed has no white space at its ends.
pub proof fn lemma_trimmed_ends(s: Seq<char>)
    ensures
        trimmed(s).len() > 0 ==> !is_space(trimmed(s)[0]) && !is_space(trimmed(s).last()),
{
    lemma_run(s, space_chars());
    let front = trim_front(s);
    lemma_trim_back(front, space_chars());
    if trimmed(s).len() > 0 {
        assert(trimmed(s)[0] == front[0]);
        assert(front[0] == s[run(s, space_chars()) as int]);
    }
}

/// A text always splits into at least one piece.
pub proof fn lemma_split_some(s: Seq<char>, c: char)
    ensures
        split(s, c).len() > 0,
{
}

/// No piece holds the character that separates them.
pub proof fn lemma_split_pieces(s: Seq<char>, c: char)
    ensures
        forall|i: int| 0 <= i < split(s, c).len() ==> !(#[trigger] split(s, c)[i]).contains(c),
    decreases s.len(),
{
    lemma_run(s, other_than(c));
    let n = position(s, c);
    if n < s.len() {
        let rest = s.skip(n as int + 1);
        lemma_split_pieces(rest, c);
        assert forall|i: int| 0 <= i < split(s, c).len() implies !(#[trigger] split(
            s,
            c,
        )[i]).contains(c) by {
            if i > 0 {
                assert(split(s, c)[i] == split(rest, c)[i - 1]);
            }
        }
    }
}

/// A piece without the separator, put behind one, is one more piece.
pub proof fn lemma_split_append(s: Seq<char>, c: char, piece: Seq<char>)
    requires
        !piece.contains(c),
    ensures
        split(s + seq![c] + piece, c) == split(s, c).push(piece),
    decreases s.len(),
{
    let all = s + seq![c] + piece;
    lemma_run(s, other_than(c));
    let n = position(s, c);
    assert forall|j: int| 0 <= j < n implies other_than(c)(#[trigger] all[j]) by {
        assert(other_than(c)(s[j]));
    }
    lemma_run_is(all, other_than(c), n);
    if n < s.len() {
        let rest = s.skip(n as int + 1);
        assert(all.take(n as int) == s.take(n as int));
        assert(all.skip(n as int + 1) == rest + seq![c] + piece);
        lemma_split_append(rest, c, piece);
        assert(seq![s.take(n as int)] + split(rest, c).push(piece) == (seq![s.take(n as int)]
            + split(rest, c)).push(piece));
    } else {
        assert(all.take(n as int) == s);
        assert(all.skip(n as int + 1) == piece);
        assert forall|j: int| 0 <= j < piece.len() implies other_than(c)(
            #[trigger] piece[j],
        ) by {
            assert(piece.contains(piece[j]));
        }
        lemma_run_is(piece, other_than(c), piece.len());
        assert(split(piece, c) == seq![piece]);
        assert(seq![s] + seq![piece] == seq![s].push(piece));
    }
}

/// Splitting undoes joining, if no part holds the separator.
pub proof fn lemma_split_joined(parts: Seq<Seq<char>>, c: char)
    requires
        parts.len() > 0,
        forall|i: int| 0 <= i < parts.len() ==> !(#[trigger] parts[i]).contains(c),
    ensures
        split(joined(parts, seq![c]), c) == parts,
    decreases parts.len(),
{
    if parts.len() == 1 {
        let s = parts[0];
        assert forall|j: int| 0 <= j < s.len() implies other_than(c)(#[trigger] s[j]) by {
            assert(s.contains(s[j]));
        }
        lemma_run_is(s, other_than(c), s.len());
        assert(parts == seq![s]);
    } else {
        let front = parts.drop_last();
        assert forall|i: int| 0 <= i < front.len() implies !(#[trigger] front[i]).contains(
            c,
        ) by {
            assert(front[i] == parts[i]);
        }
        lemma_split_joined(front, c);
        assert(!parts[parts.len() - 1].contains(c));
        lemma_split_append(joined(front, seq![c]), c, parts.last());
        assert(front.push(parts.last()) == parts);
    }
}

/// The text before and the text after the first `c`.
pub fn split_once(s: &str, c: char) -> (r: Option<(String, String)>)
    ensures
        match r {
            Some((a, b)) => cut(s@, c) == Some((a@, b@)),
            None => cut(s@, c) is None,
        },
{
    let cs = chars_of(s);
    let n = find_from(&cs, 0, c);
    proof {
        assert(cs@.skip(0) == cs@);
    }
    if n < cs.len() {
        let a = slice(&cs, 0, n);
        let b = slice(&cs, n + 1, cs.len());
        proof {
            assert(a@ == s@.take(n as int));
            assert(b@ == s@.skip(n + 1));
        }
        Some((a, b))
    } else {
        None
    }
}

/// The text without leading and trailing white space.
pub fn trim(s: &str) -> (r: String)
    ensures
        r@ == trimmed(s@),
{
    let cs = chars_of(s);
    let mut from: usize = 0;
    while from < cs.len() && space(cs[from])
        invariant
            from <= cs@.len(),
            forall|j: int| 0 <= j < from ==> is_space(#[trigger] cs@[j]),
        decreases cs.len() - from,
    {
        from += 1;
    }
    proof {
        lemma_run_is(cs@, space_chars(), from as nat);
    }
    let ghost front = cs@.skip(from as int);
    let mut to: usize = cs.len();
    while to > from && space(cs[to - 1])
        invariant
            from <= to <= cs@.len(),
            front == cs@.skip(from as int),
            forall|j: int| to - from <= j < front.len() ==> is_space(#[trigger] front[j]),
        decreases to,
    {
        proof {
            assert(front[to - 1 - from] == cs@[to - 1]);
        }
        to -= 1;
    }
    let r = slice(&cs, from, to);
    proof {
        if to > from {
            assert(front[to - from - 1] == cs@[to - 1]);
        }
        lemma_trim_back_is(front, space_chars(), (to - from) as nat);
        assert(r@ == front.take(to - from));
    }
    r
}

/// The text without trailing occurrences of `c`.
pub fn trim_end(s: &str, c: char) -> (r: String)
    ensures
        r@ == trim_back(s@, only(c)),
{
    let cs = chars_of(s);
    let mut to: usize = cs.len();
    while to > 0 && cs[to - 1] == c
        invariant
            to <= cs@.len(),
            forall|j: int| to <= j < cs@.len() ==> cs@[j] == c,
        decreases to,
    {
        to -= 1;
    }
    let r = slice(&cs, 0, to);
    proof {
        lemma_trim_back_is(cs@, only(c), to as nat);
        assert(r@ == cs@.take(to as int));
    }
    r
}

/// The pieces of the text between its occurrences of `c`.
pub fn split_on(s: &str, c: char) -> (r: Vec<String>)
    ensures
        texts(r@) == split(s@, c),
{
    let cs = chars_of(s);
    let mut out: Vec<String> = Vec::new();
    let mut from: usize = 0;
    proof {
        assert(cs@.skip(0) == cs@);
        assert(texts(out@) + split(cs@.skip(0), c) == split(cs@, c));
    }
    loop
        invariant
            from <= cs@.len(),
            texts(out@) + split(cs@.skip(from as int), c) == split(cs@, c),
            cs@ == s@,
        decreases cs@.len() - from,
    {
        let n = find_from(&cs, from, c);
        let piece = slice(&cs, from, n);
        let ghost before = texts(out@);
        let ghost rest = cs@.skip(from as int);
        out.push(piece);
        proof {
            assert(texts(out@) == before.push(piece@));
            assert(piece@ == rest.take(n - from));
        }
        if n == cs.len() {
            proof {
                assert(rest.take(n - from) == rest);
                assert(before.push(piece@) == before + seq![rest]);
            }
            return out;
        }
        proof {
            assert(rest.skip(n - from + 1) == cs@.skip(n + 1));
            assert(before + (seq![piece@] + split(cs@.skip(n + 1), c)) == before.push(piece@)
                + split(cs@.skip(n + 1), c));
        }
        from = n + 1;
    }
}

/// Whether the text is one of the list.
pub fn is_among(list: &[String], s: &str) -> (r: bool)
    ensures
        r == texts(list@).contains(s@),
{
    let mut i: usize = 0;
    while i < list.len()
        invariant
            i <= list@.len(),
            forall|j: int| 0 <= j < i ==> #[trigger] texts(list@)[j] != s@,
        decreases list.len() - i,
    {
        if same(list[i].as_str(), s) {
            proof {
                assert(texts(list@)[i as int] == s@);
            }
            return true;
        }
        i += 1;
    }
    false
}

/// The text after the prefix `part`, if it is there.
pub fn strip_prefix(s: &str, part: &str) -> (r: Option<String>)
    ensures
        opt_text(r) == after_prefix(s@, part@),
{
    let cs = chars_of(s);
    let ps = chars_of(part);
    if is_at(&cs, &ps, 0) {
        let r = slice(&cs, ps.len(), cs.len());
        proof {
            assert(r@ == s@.skip(part@.len() as int));
        }
        Some(r)
    } else {
        None
    }
}

/// The text before the suffix `part`, if it is there.
pub fn strip_suffix(s: &str, part: &str) -> (r: Option<String>)
    ensures
        opt_text(r) == before_suffix(s@, part@),
{
    let cs = chars_of(s);
    let ps = chars_of(part);
    if cs.len() < ps.len() {
        return None;
    }
    let n: usize = cs.len() - ps.len();
    if is_at(&cs, &ps, n) {
        let r = slice(&cs, 0, n);
        proof {
            assert(r@ == s@.take(n as int));
        }
        Some(r)
    } else {
        None
    }
}

// ---------------------------------------------------------------------
// Putting text together
// ---------------------------------------------------------------------

/// The parts with `sep` between each two of them.
pub open spec fn joined(parts: Seq<Seq<char>>, sep: Seq<char>) -> Seq<char>
    decreases parts.len(),
{
    if parts.len() == 0 {
        Seq::empty()
    } else if parts.len() == 1 {
        parts[0]
    } else {
        joined(parts.drop_last(), sep) + sep + parts.last()
    }
}

/// The parts with `sep` between each two of them.
pub fn join(parts: &[String], sep: &str) -> (r: String)
    ensures
        r@ == joined(texts(parts@), sep@),
{
    let mut out = String::new();
    let mut i: usize = 0;
    while i < parts.len()
        invariant
            i <= parts@.len(),
            out@ == joined(texts(parts@).take(i as int), sep@),
        decreases parts.len() - i,
    {
        let ghost done = texts(parts@).take(i as int + 1);
        proof {
            assert(done.drop_last() == texts(parts@).take(i as int));
            assert(done.last() == parts@[i as int]@);
        }
        if i > 0 {
            out.append(sep);
            out.append(parts[i].as_str());
        } else {
            out.append(parts[i].as_str());
            proof {
                assert(out@ == parts@[0]@);
            }
        }
        i += 1;
    }
    proof {
        assert(texts(parts@).take(parts@.len() as int) == texts(parts@));
    }
    out
}

/// A decimal digit as a character.
pub open spec fn digit(d: nat) -> char {
    (48 + d) as char
}

/// A number in decimal notation, without leading zeros.
pub open spec fn decimal(n: nat) -> Seq<char>
    decreases n,
{
    if n < 10 {
        seq![digit(n)]
    } else {
        decimal(n / 10).push(digit(n % 10))
    }
}

/// The number in decimal notation.
pub fn decimal_of(n: usize) -> (r: String)
    ensures
        r@ == decimal(n as nat),
    decreases n,
{
    let d: u8 = (n % 10) as u8;
    let c: char = (48 + d) as char;
    if n < 10 {
        let mut out = String::new();
        out.push(c);
        assert(out@ == seq![digit(n as nat)]);
        out
    } else {
        let mut out = decimal_of(n / 10);
        out.push(c);
        out
    }
}

// ---------------------------------------------------------------------
// Reading numbers
// ---------------------------------------------------------------------

/// The number that a sequence of digits denotes.
pub open spec fn number(s: Seq<char>) -> nat
    decreases s.len(),
{
    if s.len() == 0 {
        0
    } else {
        number(s.drop_last()) * 10 + (s.last() as nat - 48) as nat
    }
}

/// Every character is a digit.
pub open spec fn all_digits(s: Seq<char>) -> bool {
    forall|i: int| 0 <= i < s.len() ==> is_digit(#[trigger] s[i])
}

/// The text after an optional leading `+`.
pub open spec fn after_plus(s: Seq<char>) -> Seq<char> {
    if s.len() > 0 && s[0] == '+' {
        s.skip(1)
    } else {
        s
    }
}

/// What an unsigned number is read from: digits, at least one, after an
/// optional `+`, of a number that is at most `max`.
pub open spec fn unsigned(s: Seq<char>, max: nat) -> Option<nat> {
    let digits = after_plus(s);
    if digits.len() > 0 && all_digits(digits) && number(digits) <= max {
        Some(number(digits))
    } else {
        None
    }
}

proof fn lemma_number_grows(s: Seq<char>, n: nat)
    requires
        n <= s.len(),
        all_digits(s),
    ensures
        number(s.take(n as int)) <= number(s),
    decreases s.len(),
{
    if n < s.len() {
        assert(s.drop_last().take(n as int) == s.take(n as int));
        lemma_number_grows(s.drop_last(), n);
    } else {
        assert(s.take(n as int) == s);
    }
}

/// The unsigned number that the text denotes, if it denotes one that is
/// at most `max`.
pub fn parse_unsigned(s: &str, max: u64) -> (r: Option<u64>)
    ensures
        match r {
            Some(n) => unsigned(s@, max as nat) == Some(n as nat),
            None => unsigned(s@, max as nat) is None,
        },
{
    let cs = chars_of(s);
    let from: usize = if cs.len() > 0 && cs[0] == '+' {
        1
    } else {
        0
    };
    let ghost ds = cs@.skip(from as int);
    proof {
        assert(cs@.skip(0) == cs@);
    }
    if from == cs.len() {
        return None;
    }
    let mut n: u64 = 0;
    let mut i: usize = from;
    proof {
        assert(ds.take(0) == Seq::<char>::empty());
    }
    while i < cs.len()
        invariant
            from <= i <= cs@.len(),
            ds == cs@.skip(from as int),
            ds.len() > 0,
            s@ == cs@,
            ds == after_plus(s@),
            forall|j: int| 0 <= j < i - from ==> is_digit(#[trigger] ds[j]),
            n == number(ds.take(i - from)),
            n <= max,
        decreases cs.len() - i,
    {
        let c: char = cs[i];
        proof {
            assert(ds[i - from] == c);
        }
        if !('0' <= c && c <= '9') {
            assert(!all_digits(ds));
            return None;
        }
        let d: u64 = (c as u32 - 48) as u64;
        proof {
            let done = ds.take(i - from + 1);
            assert(done.drop_last() == ds.take(i - from));
            assert(done.last() == c);
            if all_digits(ds) {
                lemma_number_grows(ds, (i - from + 1) as nat);
            }
        }
        let wide: u128 = n as u128 * 10 + d as u128;
        if wide > max as u128 {
            return None;
        }
        n = wide as u64;
        i += 1;
    }
    proof {
        assert(ds.take(ds.len() as int) == ds);
    }
    Some(n)
}

/// Digit characters.
pub open spec fn digit_chars() -> spec_fn(char) -> bool {
    |c: char| is_digit(c)
}

/// Why a text is no unsigned number that is at most `max`, where it is
/// none: the first thing that is wrong with it, from left to right.
pub open spec fn number_fault(s: Seq<char>, max: nat) -> Seq<char> {
    let rest = after_plus(s);
    if s.len() == 0 {
        "cannot parse integer from empty string"@
    } else if number(rest.take(run(rest, digit_chars()) as int)) > max {
        "number too large to fit in target type"@
    } else {
        "invalid digit found in string"@
    }
}

/// Why the text is no unsigned number that is at most `max`.
pub fn why_no_number(s: &str, max: u64) -> (r: String)
    ensures
        r@ == number_fault(s@, max as nat),
{
    let cs = chars_of(s);
    if cs.len() == 0 {
        return "cannot parse integer from empty string".to_owned();
    }
    let from: usize = if cs[0] == '+' {
        1
    } else {
        0
    };
    let ghost rest = cs@.skip(from as int);
    let mut i: usize = from;
    proof {
        assert(cs@.skip(0) == cs@);
    }
    while i < cs.len() && '0' <= cs[i] && cs[i] <= '9'
        invariant
            from <= i <= cs@.len(),
            rest == cs@.skip(from as int),
            forall|j: int| 0 <= j < i - from ==> is_digit(#[trigger] rest[j]),
        decreases cs.len() - i,
    {
        proof {
            assert(rest[i - from] == cs@[i as int]);
        }
        i += 1;
    }
    let digits = slice(&cs, from, i);
    proof {
        if i < cs@.len() {
            assert(rest[i - from] == cs@[i as int]);
        }
        lemma_run_is(rest, digit_chars(), (i - from) as nat);
        assert(digits@ == rest.take(i - from));
        assert(all_digits(digits@));
        assert(after_plus(digits@) == digits@);
    }
    if i > from && parse_unsigned(digits.as_str(), max).is_none() {
        "number too large to fit in target type".to_owned()
    } else {
        "invalid digit found in string".to_owned()
    }
}

} // verus!

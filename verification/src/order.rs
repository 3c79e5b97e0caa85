//! The order of texts, and sorted lists of texts without duplicates.

use vstd::prelude::*;

use crate::text;
use crate::text::chars_of;

verus! {

/// `a` comes before `b`: the order of their first difference, where a text
/// comes before its continuations.
pub open spec fn before(a: Seq<char>, b: Seq<char>) -> bool
    decreases a.len(),
{
    if b.len() == 0 {
        false
    } else if a.len() == 0 {
        true
    } else if a[0] == b[0] {
        before(a.skip(1), b.skip(1))
    } else {
        a[0] < b[0]
    }
}

/// Each text comes before all that follow it; so none occurs twice.
pub open spec fn ascending(list: Seq<Seq<char>>) -> bool {
    forall|i: int, j: int|
        0 <= i < j < list.len() ==> before(#[trigger] list[i], #[trigger] list[j])
}

/// No text comes before itself.
pub proof fn lemma_not_before_itself(a: Seq<char>)
    ensures
        !before(a, a),
    decreases a.len(),
{
    if a.len() > 0 {
        lemma_not_before_itself(a.skip(1));
    }
}

/// Of two different texts, one comes before the other.
pub proof fn lemma_one_before_the_other(a: Seq<char>, b: Seq<char>)
    ensures
        a == b || before(a, b) || before(b, a),
    decreases a.len(),
{
    if a.len() > 0 && b.len() > 0 && a[0] == b[0] {
        lemma_one_before_the_other(a.skip(1), b.skip(1));
        if a.skip(1) == b.skip(1) {
            assert(a == seq![a[0]] + a.skip(1));
            assert(b == seq![b[0]] + b.skip(1));
        }
    } else if a.len() == 0 && b.len() == 0 {
        assert(a == b);
    }
}

/// What comes before something comes before all that follows it.
pub proof fn lemma_before_chain(a: Seq<char>, b: Seq<char>, c: Seq<char>)
    requires
        before(a, b),
        before(b, c),
    ensures
        before(a, c),
    decreases a.len(),
{
    if a.len() > 0 && a[0] == b[0] && b[0] == c[0] {
        lemma_before_chain(a.skip(1), b.skip(1), c.skip(1));
    }
}

/// An ascending list is determined by its members.
pub proof fn lemma_ascending_is_unique(a: Seq<Seq<char>>, b: Seq<Seq<char>>)
    requires
        ascending(a),
        ascending(b),
        forall|x: Seq<char>| a.contains(x) <==> b.contains(x),
    ensures
        a == b,
    decreases a.len(),
{
    if a.len() == 0 {
        if b.len() > 0 {
            assert(b.contains(b[0]));
            assert(a.contains(b[0]));
        }
        assert(a == b);
    } else {
        assert(a.contains(a[0]));
        assert(b.contains(a[0]));
        let i = choose|i: int| 0 <= i < b.len() && b[i] == a[0];
        assert(b.contains(b[0]));
        assert(a.contains(b[0]));
        let j = choose|j: int| 0 <= j < a.len() && a[j] == b[0];
        lemma_not_before_itself(a[0]);
        if i > 0 && j > 0 {
            assert(before(b[0], b[i]));
            assert(before(a[0], a[j]));
            lemma_before_chain(a[0], b[0], a[0]);
        }
        assert(a[0] == b[0]);
        let x = a.skip(1);
        let y = b.skip(1);
        assert(ascending(x)) by {
            assert forall|k: int, l: int| 0 <= k < l < x.len() implies before(
                #[trigger] x[k],
                #[trigger] x[l],
            ) by {
                assert(before(a[k + 1], a[l + 1]));
            }
        }
        assert(ascending(y)) by {
            assert forall|k: int, l: int| 0 <= k < l < y.len() implies before(
                #[trigger] y[k],
                #[trigger] y[l],
            ) by {
                assert(before(b[k + 1], b[l + 1]));
            }
        }
        assert forall|t: Seq<char>| x.contains(t) <==> y.contains(t) by {
            if x.contains(t) {
                let k = choose|k: int| 0 <= k < x.len() && x[k] == t;
                assert(a[k + 1] == t);
                assert(before(a[0], a[k + 1]));
                assert(a.contains(t));
                let l = choose|l: int| 0 <= l < b.len() && b[l] == t;
                assert(l > 0);
                assert(y[l - 1] == t);
            }
            if y.contains(t) {
                let k = choose|k: int| 0 <= k < y.len() && y[k] == t;
                assert(b[k + 1] == t);
                assert(before(b[0], b[k + 1]));
                assert(b.contains(t));
                let l = choose|l: int| 0 <= l < a.len() && a[l] == t;
                assert(l > 0);
                assert(x[l - 1] == t);
            }
        }
        lemma_ascending_is_unique(x, y);
        assert(a == seq![a[0]] + x);
        assert(b == seq![b[0]] + y);
    }
}

/// Whether `a` comes before `b`.
pub fn comes_before(a: &str, b: &str) -> (r: bool)
    ensures
        r == before(a@, b@),
{
    let x = chars_of(a);
    let y = chars_of(b);
    let mut i: usize = 0;
    proof {
        assert(x@.skip(0) == x@);
        assert(y@.skip(0) == y@);
    }
    while i < x.len() && i < y.len() && x[i] == y[i]
        invariant
            i <= x@.len(),
            i <= y@.len(),
            before(x@, y@) == before(x@.skip(i as int), y@.skip(i as int)),
        decreases x.len() - i,
    {
        proof {
            assert(x@.skip(i as int).skip(1) == x@.skip(i + 1));
            assert(y@.skip(i as int).skip(1) == y@.skip(i + 1));
        }
        i += 1;
    }
    if i == y.len() {
        return false;
    }
    if i == x.len() {
        return true;
    }
    x[i] < y[i]
}

/// Puts a text into an ascending list, at its place, unless it is there.
pub fn insert_ascending(list: &mut Vec<String>, item: String)
    requires
        ascending(text::texts(old(list)@)),
    ensures
        ascending(text::texts(final(list)@)),
        forall|x: Seq<char>| #[trigger]
            text::texts(final(list)@).contains(x) <==> text::texts(old(list)@).contains(x) || x
                == item@,
{
    let ghost all = text::texts(list@);
    let mut i: usize = 0;
    while i < list.len() && comes_before(list[i].as_str(), item.as_str())
        invariant
            i <= list@.len(),
            all == text::texts(list@),
            forall|j: int| 0 <= j < i ==> before(#[trigger] all[j], item@),
        decreases list.len() - i,
    {
        proof {
            assert(all[i as int] == list@[i as int]@);
        }
        i += 1;
    }
    proof {
        if i < all.len() {
            assert(all[i as int] == list@[i as int]@);
            lemma_one_before_the_other(all[i as int], item@);
        }
    }
    if i < list.len() && text::same(list[i].as_str(), item.as_str()) {
        proof {
            assert(all.contains(item@));
        }
        return;
    }
    list.insert(i, item);
    proof {
        let done = text::texts(list@);
        assert(done == all.insert(i as int, item@));
        assert forall|j: int, k: int| 0 <= j < k < done.len() implies before(
            #[trigger] done[j],
            #[trigger] done[k],
        ) by {
            if j < i && k > i {
                assert(before(all[j], all[k - 1]));
            } else if j < i && k < i {
                assert(before(all[j], all[k]));
            } else if j < i {
                assert(before(all[j], item@));
            } else if j == i {
                if k > i + 1 {
                    assert(before(all[i as int], all[k - 1]));
                    lemma_before_chain(item@, all[i as int], all[k - 1]);
                }
            } else {
                assert(before(all[j - 1], all[k - 1]));
            }
        }
        assert forall|x: Seq<char>| #[trigger] done.contains(x) <==> all.contains(x) || x
            == item@ by {
            if done.contains(x) {
                let k = choose|k: int| 0 <= k < done.len() && done[k] == x;
                if k < i {
                    assert(all[k] == x);
                } else if k > i {
                    assert(all[k - 1] == x);
                }
            }
            if all.contains(x) {
                let k = choose|k: int| 0 <= k < all.len() && all[k] == x;
                if k < i {
                    assert(done[k] == x);
                } else {
                    assert(done[k + 1] == x);
                }
            }
            if x == item@ {
                assert(done[i as int] == x);
            }
        }
    }
}

} // verus!

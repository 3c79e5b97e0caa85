//! Lists of texts: putting them together, and merging them so that nothing
//! occurs twice.

use vstd::prelude::*;
use vstd::string::*;

use crate::text;
use crate::text::is_among;

verus! {

/// `item` at the end of the list, unless it is there.
pub open spec fn with_new(list: Seq<Seq<char>>, item: Seq<char>) -> Seq<Seq<char>> {
    if list.contains(item) {
        list
    } else {
        list.push(item)
    }
}

/// The items at the end of the list, in order, each unless it is there.
pub open spec fn merged(list: Seq<Seq<char>>, more: Seq<Seq<char>>) -> Seq<Seq<char>>
    decreases more.len(),
{
    if more.len() == 0 {
        list
    } else {
        with_new(merged(list, more.drop_last()), more.last())
    }
}

/// The list stays in front of what is merged into it.
pub proof fn lemma_merged_keeps(list: Seq<Seq<char>>, more: Seq<Seq<char>>)
    ensures
        merged(list, more).len() >= list.len(),
        merged(list, more).take(list.len() as int) == list,
    decreases more.len(),
{
    if more.len() > 0 {
        lemma_merged_keeps(list, more.drop_last());
        let front = merged(list, more.drop_last());
        assert(front.push(more.last()).take(list.len() as int) == front.take(list.len() as int));
    } else {
        assert(list.take(list.len() as int) == list);
    }
}

/// What is merged holds nothing twice if the list does not.
pub proof fn lemma_merged_is_unique(list: Seq<Seq<char>>, more: Seq<Seq<char>>)
    requires
        list.no_duplicates(),
    ensures
        merged(list, more).no_duplicates(),
    decreases more.len(),
{
    if more.len() > 0 {
        lemma_merged_is_unique(list, more.drop_last());
    }
}

/// What is merged holds what one of the two holds.
pub proof fn lemma_merged_members(list: Seq<Seq<char>>, more: Seq<Seq<char>>, x: Seq<char>)
    ensures
        merged(list, more).contains(x) <==> list.contains(x) || more.contains(x),
    decreases more.len(),
{
    if more.len() > 0 {
        lemma_merged_members(list, more.drop_last(), x);
        let front = merged(list, more.drop_last());
        assert(more =~= more.drop_last().push(more.last()));
        lemma_push_members(more.drop_last(), more.last(), x);
        lemma_push_members(front, more.last(), x);
    }
}

proof fn lemma_push_members(list: Seq<Seq<char>>, item: Seq<char>, x: Seq<char>)
    ensures
        list.push(item).contains(x) <==> list.contains(x) || x == item,
{
    if list.contains(x) {
        let i = choose|i: int| 0 <= i < list.len() && list[i] == x;
        assert(list.push(item)[i] == x);
    }
    if x == item {
        assert(list.push(item)[list.len() as int] == x);
    }
    if list.push(item).contains(x) && x != item {
        let i = choose|i: int| 0 <= i < list.push(item).len() && list.push(item)[i] == x;
        assert(list[i] == x);
    }
}

/// A list without duplicates that is merged into nothing stays as it is.
pub proof fn lemma_merged_alone(list: Seq<Seq<char>>)
    requires
        list.no_duplicates(),
    ensures
        merged(Seq::empty(), list) == list,
    decreases list.len(),
{
    if list.len() > 0 {
        let front = list.drop_last();
        assert(front.no_duplicates());
        lemma_merged_alone(front);
        if front.contains(list.last()) {
            let i = choose|i: int| 0 <= i < front.len() && front[i] == list.last();
            assert(list[i] == list[list.len() - 1]);
        }
        assert(front.push(list.last()) == list);
    }
}

/// Appends copies of the strings.
pub fn push_all(args: &mut Vec<String>, more: &[String])
    ensures
        text::texts(final(args)@) == text::texts(old(args)@) + text::texts(more@),
{
    let ghost before = text::texts(args@);
    let mut i: usize = 0;
    while i < more.len()
        invariant
            i <= more@.len(),
            text::texts(args@) == before + text::texts(more@).take(i as int),
        decreases more.len() - i,
    {
        proof {
            text::lemma_texts_push(args@, more@[i as int]);
        }
        args.push(more[i].clone());
        proof {
            assert(text::texts(more@).take(i + 1) == text::texts(more@).take(i as int).push(
                more@[i as int]@,
            ));
        }
        i += 1;
    }
    proof {
        assert(text::texts(more@).take(more@.len() as int) == text::texts(more@));
    }
}

/// The words, as strings of their own.
pub fn owned(words: &[&str]) -> (r: Vec<String>)
    ensures
        r@.len() == words@.len(),
        forall|i: int| 0 <= i < words@.len() ==> (#[trigger] text::texts(r@)[i]) == words@[i]@,
{
    let mut out: Vec<String> = Vec::new();
    let mut i: usize = 0;
    while i < words.len()
        invariant
            i <= words@.len(),
            out@.len() == i,
            forall|j: int| 0 <= j < i ==> (#[trigger] text::texts(out@)[j]) == words@[j]@,
        decreases words.len() - i,
    {
        let ghost before = text::texts(out@);
        out.push(words[i].to_owned());
        proof {
            assert(text::texts(out@) == before.push(words@[i as int]@));
        }
        i += 1;
    }
    out
}

/// Puts copies of the items at the end of the list, each unless it is
/// there.
pub fn merge_into(list: &mut Vec<String>, more: &[String])
    ensures
        text::texts(final(list)@) == merged(text::texts(old(list)@), text::texts(more@)),
{
    let ghost start = text::texts(list@);
    let ghost all = text::texts(more@);
    let mut i: usize = 0;
    while i < more.len()
        invariant
            i <= more@.len(),
            all == text::texts(more@),
            text::texts(list@) == merged(start, all.take(i as int)),
        decreases more.len() - i,
    {
        proof {
            assert(all.take(i + 1).drop_last() == all.take(i as int));
            assert(all.take(i + 1).last() == more@[i as int]@);
        }
        if !is_among(list, more[i].as_str()) {
            proof {
                text::lemma_texts_push(list@, more@[i as int]);
            }
            list.push(more[i].clone());
        }
        i += 1;
    }
    proof {
        assert(all.take(i as int) == all);
    }
}

} // verus!

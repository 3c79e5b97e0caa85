//! The variables that configuration values are expanded against.

use vstd::prelude::*;

use crate::text::same;

verus! {

/// The variables that a list of bindings defines: a later binding of a
/// name hides an earlier one.
pub open spec fn bound(bindings: Seq<(String, String)>) -> Map<Seq<char>, Seq<char>>
    decreases bindings.len(),
{
    if bindings.len() == 0 {
        Map::empty()
    } else {
        bound(bindings.drop_last()).insert(bindings.last().0@, bindings.last().1@)
    }
}

/// A set of variables, each a name with its value.
#[derive(Debug)]
pub struct Vars {
    bindings: Vec<(String, String)>,
}

impl View for Vars {
    type V = Map<Seq<char>, Seq<char>>;

    closed spec fn view(&self) -> Map<Seq<char>, Seq<char>> {
        bound(self.bindings@)
    }
}

impl Vars {
    /// No variables.
    pub fn new() -> (r: Vars)
        ensures
            r@ == Map::<Seq<char>, Seq<char>>::empty(),
    {
        Vars { bindings: Vec::new() }
    }

    /// Sets `name` to `value`.
    pub fn insert(&mut self, name: String, value: String)
        ensures
            final(self)@ == old(self)@.insert(name@, value@),
    {
        let ghost before = self.bindings@;
        self.bindings.push((name, value));
        proof {
            assert(self.bindings@.drop_last() == before);
        }
    }

    /// The value of `name`, if it is set.
    pub fn get(&self, name: &str) -> (r: Option<&String>)
        ensures
            match r {
                Some(v) => self@.contains_key(name@) && v@ == self@[name@],
                None => !self@.contains_key(name@),
            },
    {
        let mut i: usize = self.bindings.len();
        proof {
            assert(self.bindings@.take(i as int) == self.bindings@);
        }
        while i > 0
            invariant
                i <= self.bindings@.len(),
                self@.contains_key(name@) == bound(
                    self.bindings@.take(i as int),
                ).contains_key(name@),
                self@.contains_key(name@) ==> self@[name@] == bound(
                    self.bindings@.take(i as int),
                )[name@],
            decreases i,
        {
            let ghost front = self.bindings@.take(i as int);
            proof {
                assert(front.drop_last() == self.bindings@.take(i - 1));
            }
            i -= 1;
            if same(self.bindings[i].0.as_str(), name) {
                return Some(&self.bindings[i].1);
            }
        }
        None
    }

    /// The same variables, once more.
    pub fn copy(&self) -> (r: Vars)
        ensures
            r@ == self@,
    {
        let mut bindings: Vec<(String, String)> = Vec::new();
        let mut i: usize = 0;
        while i < self.bindings.len()
            invariant
                i <= self.bindings@.len(),
                bindings@ == self.bindings@.take(i as int),
            decreases self.bindings.len() - i,
        {
            bindings.push((self.bindings[i].0.clone(), self.bindings[i].1.clone()));
            proof {
                assert(self.bindings@.take(i + 1) == self.bindings@.take(i as int).push(
                    self.bindings@[i as int],
                ));
            }
            i += 1;
        }
        proof {
            assert(self.bindings@.take(self.bindings@.len() as int) == self.bindings@);
        }
        Vars { bindings }
    }
}

} // verus!

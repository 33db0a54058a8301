//! The captures of one scope: a map from names to values.

use vstd::prelude::*;
use crate::action_result::{ActionResult, Ast};
use crate::text::str_eq;

verus! {

/// The map that a list of captures stands for, taking the first `n`:
/// a later capture of a name replaces an earlier one.
pub open spec fn map_of(entries: Seq<(String, ActionResult)>, n: int) -> Map<Seq<char>, Ast>
    decreases n,
{
    if 0 < n <= entries.len() {
        map_of(entries, n - 1).insert(entries[n - 1].0@, entries[n - 1].1@)
    } else {
        Map::empty()
    }
}

/// The latest capture of a name decides what the map holds for it.
pub proof fn lemma_map_of_find(entries: Seq<(String, ActionResult)>, n: int, name: Seq<char>, k: int)
    requires
        0 <= k <= n <= entries.len(),
        forall|j: int| k <= j < n ==> (#[trigger] entries[j]).0@ != name,
    ensures
        map_of(entries, n).contains_key(name) == map_of(entries, k).contains_key(name),
        map_of(entries, n).contains_key(name) ==> map_of(entries, n)[name] == map_of(entries, k)[name],
    decreases n,
{
    if n > k {
        lemma_map_of_find(entries, n - 1, name, k);
    }
}

/// The map of a list depends only on the names and values it holds.
pub proof fn lemma_map_of_same(a: Seq<(String, ActionResult)>, b: Seq<(String, ActionResult)>, n: int)
    requires
        0 <= n <= a.len(),
        n <= b.len(),
        forall|j: int| 0 <= j < n ==> (#[trigger] a[j]).0@ == b[j].0@ && a[j].1@ == b[j].1@,
    ensures
        map_of(a, n) == map_of(b, n),
    decreases n,
{
    if n > 0 {
        lemma_map_of_same(a, b, n - 1);
    }
}

/// Captures appended to a list override those of the same names in it.
pub proof fn lemma_map_of_concat(a: Seq<(String, ActionResult)>, b: Seq<(String, ActionResult)>, n: int)
    requires
        0 <= n <= b.len(),
    ensures
        map_of(a + b, a.len() + n) == map_of(a, a.len() as int).union_prefer_right(map_of(b, n)),
    decreases n,
{
    let ab = a + b;
    if n == 0 {
        lemma_map_of_same(ab, a, a.len() as int);
        assert(map_of(a, a.len() as int).union_prefer_right(Map::empty()) =~= map_of(a, a.len() as int));
    } else {
        lemma_map_of_concat(a, b, n - 1);
        assert(ab[a.len() + n - 1] == b[n - 1]);
        assert(map_of(a, a.len() as int).union_prefer_right(map_of(b, n - 1)).insert(
            b[n - 1].0@,
            b[n - 1].1@,
        ) =~= map_of(a, a.len() as int).union_prefer_right(map_of(b, n)));
    }
}

/// The captures of one scope. Capturing under a name that is already
/// there replaces what the name held.
#[derive(Debug)]
pub struct Bindings {
    entries: Vec<(String, ActionResult)>,
}

impl View for Bindings {
    type V = Map<Seq<char>, Ast>;

    closed spec fn view(&self) -> Map<Seq<char>, Ast> {
        map_of(self.entries@, self.entries@.len() as int)
    }
}

impl Bindings {
    /// No captures.
    pub fn new() -> (r: Self)
        ensures
            r@ == Map::<Seq<char>, Ast>::empty(),
    {
        Bindings { entries: Vec::new() }
    }

    /// Captures `value` under `name`, in place of what the name held.
    pub fn insert(&mut self, name: String, value: ActionResult)
        ensures
            final(self)@ == old(self)@.insert(name@, value@),
    {
        let ghost before = self.entries@;
        self.entries.push((name, value));
        proof {
            lemma_map_of_same(self.entries@, before, before.len() as int);
        }
    }

    /// The value captured under `name`, if there is one.
    pub fn get(&self, name: &str) -> (r: Option<&ActionResult>)
        ensures
            r is Some <==> self@.contains_key(name@),
            r matches Some(v) ==> v@ == self@[name@],
    {
        let mut n: usize = self.entries.len();
        while n > 0
            invariant
                n <= self.entries.len(),
                forall|j: int| n <= j < self.entries@.len() ==> (#[trigger] self.entries@[j]).0@ != name@,
            decreases n,
        {
            if str_eq(self.entries[n - 1].0.as_str(), name) {
                proof {
                    lemma_map_of_find(self.entries@, self.entries@.len() as int, name@, n as int);
                }
                return Some(&self.entries[n - 1].1);
            }
            n -= 1;
        }
        proof {
            lemma_map_of_find(self.entries@, self.entries@.len() as int, name@, 0);
        }
        None
    }

    /// Takes over the captures of `other`; where both hold a name, the
    /// one of `other` stays.
    pub fn merge(&mut self, other: Bindings)
        ensures
            final(self)@ == old(self)@.union_prefer_right(other@),
    {
        let mut other = other;
        proof {
            lemma_map_of_concat(self.entries@, other.entries@, other.entries@.len() as int);
        }
        self.entries.append(&mut other.entries);
    }
}

impl Clone for Bindings {
    /// A deep copy: it holds the same captures.
    fn clone(&self) -> (r: Self)
        ensures
            r@ == self@,
    {
        let mut entries: Vec<(String, ActionResult)> = Vec::new();
        let mut i: usize = 0;
        while i < self.entries.len()
            invariant
                i <= self.entries.len(),
                entries@.len() == i,
                forall|j: int|
                    0 <= j < i ==> (#[trigger] entries@[j]).0@ == self.entries@[j].0@ && entries@[j].1@
                        == self.entries@[j].1@,
            decreases self.entries.len() - i,
        {
            let name = self.entries[i].0.clone();
            let value = self.entries[i].1.clone();
            entries.push((name, value));
            i += 1;
        }
        proof {
            lemma_map_of_same(entries@, self.entries@, self.entries@.len() as int);
        }
        Bindings { entries }
    }
}

} // verus!

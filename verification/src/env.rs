use vstd::prelude::*;

use crate::strutil::str_eq;

verus! {

/// A table of environment variables, handed in by the caller so that path
/// expansion never reads ambient process state.
pub struct Env {
    pub vars: Vec<(String, String)>,
}

/// The map that a sequence of `(name, value)` bindings denotes; a later
/// binding of a name overwrites an earlier one.
pub open spec fn bindings_map(s: Seq<(Seq<char>, Seq<char>)>) -> Map<Seq<char>, Seq<char>>
    decreases s.len(),
{
    if s.len() == 0 {
        Map::empty()
    } else {
        bindings_map(s.drop_last()).insert(s.last().0, s.last().1)
    }
}

pub proof fn lemma_bindings_map_dom(s: Seq<(Seq<char>, Seq<char>)>, k: Seq<char>)
    ensures
        bindings_map(s).dom().contains(k) <==> exists|i: int|
            0 <= i < s.len() && #[trigger] s[i].0 == k,
    decreases s.len(),
{
    if s.len() > 0 {
        lemma_bindings_map_dom(s.drop_last(), k);
        if bindings_map(s).dom().contains(k) {
            if s.last().0 != k {
                let i = choose|i: int| 0 <= i < s.drop_last().len() && #[trigger] s.drop_last()[i].0 == k;
                assert(s[i].0 == k);
            }
        }
        if exists|i: int| 0 <= i < s.len() && #[trigger] s[i].0 == k {
            let i = choose|i: int| 0 <= i < s.len() && #[trigger] s[i].0 == k;
            if i < s.len() - 1 {
                assert(s.drop_last()[i].0 == k);
            }
        }
    }
}

pub proof fn lemma_bindings_map_get(s: Seq<(Seq<char>, Seq<char>)>, i: int)
    requires
        0 <= i < s.len(),
        forall|a: int, b: int| 0 <= a < b < s.len() ==> (#[trigger] s[a]).0 != (#[trigger] s[b]).0,
    ensures
        bindings_map(s).dom().contains(s[i].0),
        bindings_map(s)[s[i].0] == s[i].1,
    decreases s.len(),
{
    if i < s.len() - 1 {
        assert(s.drop_last()[i] == s[i]);
        lemma_bindings_map_get(s.drop_last(), i);
        assert(s[i].0 != s.last().0);
    }
}

impl Env {
    /// The bindings as a sequence of view pairs.
    pub open spec fn pairs(self) -> Seq<(Seq<char>, Seq<char>)> {
        self.vars@.map_values(|p: (String, String)| (p.0@, p.1@))
    }

    /// Distinct variable names.
    pub open spec fn wf(self) -> bool {
        forall|i: int, j: int|
            0 <= i < j < self.vars@.len()
                ==> (#[trigger] self.vars@[i]).0@ != (#[trigger] self.vars@[j]).0@
    }

    /// The value bound to `name`, if any.
    pub fn lookup(&self, name: &str) -> (r: Option<&String>)
        requires
            self.wf(),
        ensures
            match r {
                Some(v) => self@.dom().contains(name@) && self@[name@] == v@,
                None => !self@.dom().contains(name@),
            },
    {
        let n = self.vars.len();
        let mut i: usize = 0;
        while i < n
            invariant
                self.wf(),
                n == self.vars@.len(),
                0 <= i <= n,
                forall|j: int| 0 <= j < i ==> (#[trigger] self.vars@[j]).0@ != name@,
            decreases n - i,
        {
            if str_eq(self.vars[i].0.as_str(), name) {
                proof {
                    assert(self.pairs()[i as int].0 == name@);
                    lemma_bindings_map_get(self.pairs(), i as int);
                }
                return Some(&self.vars[i].1);
            }
            i += 1;
        }
        proof {
            lemma_bindings_map_dom(self.pairs(), name@);
        }
        None
    }
}

impl View for Env {
    type V = Map<Seq<char>, Seq<char>>;

    open spec fn view(&self) -> Map<Seq<char>, Seq<char>> {
        bindings_map(self.pairs())
    }
}

} // verus!

use vstd::prelude::*;

use crate::text::same_text;

verus! {

/// The value bound to `name` in `vars`; a later binding of a name hides an earlier one.
pub open spec fn env_lookup(vars: Seq<(Seq<char>, Seq<char>)>, name: Seq<char>) -> Option<Seq<char>>
    decreases vars.len(),
{
    if vars.len() == 0 {
        None
    } else if vars.last().0 == name {
        Some(vars.last().1)
    } else {
        env_lookup(vars.drop_last(), name)
    }
}

/// A read-only view of the process environment that remembers which variables
/// were consulted, so that set-but-ignored ones can be reported.
pub struct Environment {
    vars: Vec<(String, String)>,
    used: Vec<String>,
}

impl Environment {
    /// The bindings, in the order they were given.
    pub closed spec fn vars(&self) -> Seq<(Seq<char>, Seq<char>)> {
        self.vars@.map_values(|p: (String, String)| (p.0@, p.1@))
    }

    /// The names consulted so far, in the order they were asked for.
    pub closed spec fn used(&self) -> Seq<Seq<char>> {
        self.used@.map_values(|s: String| s@)
    }

    /// A view over the given bindings in which nothing has been consulted yet.
    pub fn new(vars: Vec<(String, String)>) -> (r: Self)
        ensures
            r.vars() == vars@.map_values(|p: (String, String)| (p.0@, p.1@)),
            r.used() == Seq::<Seq<char>>::empty(),
    {
        let r = Environment { vars, used: Vec::new() };
        assert(r.used() =~= Seq::<Seq<char>>::empty());
        r
    }

    /// An environment with no variables at all.
    pub fn empty() -> (r: Self)
        ensures
            r.vars() == Seq::<(Seq<char>, Seq<char>)>::empty(),
            r.used() == Seq::<Seq<char>>::empty(),
    {
        let r = Environment { vars: Vec::new(), used: Vec::new() };
        assert(r.vars() =~= Seq::<(Seq<char>, Seq<char>)>::empty());
        assert(r.used() =~= Seq::<Seq<char>>::empty());
        r
    }

    fn find(&self, name: &str) -> (r: Option<String>)
        ensures
            r matches Some(v) ==> env_lookup(self.vars(), name@) == Some(v@),
            r is None ==> env_lookup(self.vars(), name@) is None,
    {
        let ghost all = self.vars();
        let mut i: usize = self.vars.len();
        assert(all.subrange(0, i as int) =~= all);
        while i > 0
            invariant
                i <= self.vars@.len(),
                all == self.vars(),
                env_lookup(all, name@) == env_lookup(all.subrange(0, i as int), name@),
            decreases i,
        {
            let ghost sub = all.subrange(0, i as int);
            assert(sub.drop_last() =~= all.subrange(0, i as int - 1));
            assert(sub.last() == (self.vars@[i - 1].0@, self.vars@[i - 1].1@));
            if same_text(self.vars[i - 1].0.as_str(), name) {
                return Some(self.vars[i - 1].1.clone());
            }
            i = i - 1;
        }
        None
    }

    /// The value of variable `name`, if it is set; the name is recorded as consulted.
    pub fn get_env_str(&mut self, name: &str) -> (r: Option<String>)
        ensures
            final(self).vars() == old(self).vars(),
            final(self).used() == old(self).used().push(name@),
            r matches Some(v) ==> env_lookup(old(self).vars(), name@) == Some(v@),
            r is None ==> env_lookup(old(self).vars(), name@) is None,
    {
        let r = self.find(name);
        let ghost before = self.used@;
        self.used.push(name.to_owned());
        assert(self.used@.map_values(|s: String| s@) =~= before.map_values(|s: String| s@).push(name@));
        r
    }

    /// Whether `name` is set but has not been consulted.
    pub fn has_unused_var(&self, name: &str) -> (r: bool)
        ensures
            r == (env_lookup(self.vars(), name@) is Some && !self.used().contains(name@)),
    {
        if self.find(name).is_none() {
            return false;
        }
        let mut i: usize = 0;
        while i < self.used.len()
            invariant
                i <= self.used@.len(),
                forall|j: int| 0 <= j < i ==> self.used()[j] != name@,
            decreases self.used@.len() - i,
        {
            if same_text(self.used[i].as_str(), name) {
                assert(self.used()[i as int] == name@);
                return false;
            }
            i = i + 1;
        }
        true
    }
}

} // verus!

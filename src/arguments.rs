use vstd::prelude::*;

use crate::error::Error;
use crate::text::{has_any_prefix, starts_with_any, str_views};

verus! {

/// The state of one pooled value: its characters and whether a backend claimed it.
pub type Entry = (Seq<char>, bool);

/// Whether an entry is still free and matches one of `prefixes`.
pub open spec fn claimable(e: Entry, prefixes: Seq<Seq<char>>) -> bool {
    !e.1 && has_any_prefix(e.0, prefixes)
}

/// The values that a claim with `prefixes` takes out of the pool, in order.
pub open spec fn taken(entries: Seq<Entry>, prefixes: Seq<Seq<char>>) -> Seq<Seq<char>> {
    entries.filter(|e: Entry| claimable(e, prefixes)).map_values(|e: Entry| e.0)
}

/// The pool after a claim with `prefixes`: each matching free value becomes claimed.
pub open spec fn after_claim(entries: Seq<Entry>, prefixes: Seq<Seq<char>>) -> Seq<Entry> {
    Seq::new(entries.len(), |i: int| (entries[i].0, entries[i].1 || has_any_prefix(entries[i].0, prefixes)))
}

/// The values that no backend claimed, in order.
pub open spec fn unclaimed(entries: Seq<Entry>) -> Seq<Seq<char>> {
    entries.filter(|e: Entry| !e.1).map_values(|e: Entry| e.0)
}

/// A fresh pool over `tokens`: nothing is claimed yet.
pub open spec fn fresh(tokens: Seq<Seq<char>>) -> Seq<Entry> {
    tokens.map_values(|t: Seq<char>| (t, false))
}

/// On a fresh pool, a claim with `prefixes` takes exactly the tokens that begin with
/// one of them, in the order given, and leaves exactly the other tokens, in
/// the order given, as the unclaimed values that `check` reports.
pub proof fn lemma_claim_partitions(tokens: Seq<Seq<char>>, prefixes: Seq<Seq<char>>)
    ensures
        taken(fresh(tokens), prefixes) == tokens.filter(|t: Seq<char>| has_any_prefix(t, prefixes)),
        unclaimed(after_claim(fresh(tokens), prefixes)) == tokens.filter(|t: Seq<char>| !has_any_prefix(t, prefixes)),
    decreases tokens.len(),
{
    reveal(Seq::filter);
    if tokens.len() > 0 {
        let rest = tokens.drop_last();
        let t = tokens.last();
        lemma_claim_partitions(rest, prefixes);
        let f = fresh(tokens);
        let a = after_claim(f, prefixes);
        assert(f.drop_last() =~= fresh(rest));
        assert(a.drop_last() =~= after_claim(fresh(rest), prefixes));
        assert(f.last() == (t, false));
        let ft = fresh(rest).filter(|e: Entry| claimable(e, prefixes));
        if has_any_prefix(t, prefixes) {
            assert(ft.push((t, false)).map_values(|e: Entry| e.0) =~= ft.map_values(|e: Entry| e.0).push(t));
        } else {
            let fu = after_claim(fresh(rest), prefixes).filter(|e: Entry| !e.1);
            assert(fu.push(a.last()).map_values(|e: Entry| e.0) =~= fu.map_values(|e: Entry| e.0).push(t));
        }
    } else {
        assert(taken(fresh(tokens), prefixes) =~= tokens);
        assert(unclaimed(after_claim(fresh(tokens), prefixes)) =~= tokens);
    }
}

/// The command-line values that typed flags left over; each backend claims the ones
/// written in its own syntax, and whatever is left at the end is an error.
pub struct Arguments {
    values: Vec<String>,
    claimed: Vec<bool>,
}

impl Arguments {
    pub closed spec fn entries(&self) -> Seq<Entry> {
        Seq::new(self.values@.len(), |i: int| (self.values@[i]@, self.claimed@[i]))
    }

    pub closed spec fn wf(&self) -> bool {
        self.values@.len() == self.claimed@.len()
    }

    /// A pool in which every value is still unclaimed.
    pub fn new(values: Vec<String>) -> (r: Self)
        ensures
            r.wf(),
            r.entries() == fresh(values@.map_values(|s: String| s@)),
    {
        let mut claimed: Vec<bool> = Vec::new();
        let mut i: usize = 0;
        while i < values.len()
            invariant
                i <= values@.len(),
                claimed@.len() == i,
                forall|j: int| 0 <= j < i ==> !claimed@[j],
            decreases values@.len() - i,
        {
            claimed.push(false);
            i = i + 1;
        }
        let r = Arguments { values, claimed };
        assert(r.entries() =~= fresh(r.values@.map_values(|s: String| s@)));
        r
    }

    /// Claims every free value that begins with one of `prefixes` and returns them
    /// in the order given; the other values are left as they were.
    pub fn claim(&mut self, prefixes: &[&str]) -> (r: Vec<String>)
        requires
            old(self).wf(),
        ensures
            final(self).wf(),
            r@.map_values(|s: String| s@) == taken(old(self).entries(), str_views(prefixes@)),
            final(self).entries() == after_claim(old(self).entries(), str_views(prefixes@)),
    {
        let ghost pfx = str_views(prefixes@);
        let ghost e0 = self.entries();
        let mut out: Vec<String> = Vec::new();
        let mut i: usize = 0;
        while i < self.values.len()
            invariant
                self.wf(),
                self.values@ == old(self).values@,
                e0 == old(self).entries(),
                pfx == str_views(prefixes@),
                i <= self.values@.len(),
                forall|j: int| i <= j < self.claimed@.len() ==> #[trigger] self.claimed@[j] == e0[j].1,
                forall|j: int| 0 <= j < i ==> #[trigger] self.claimed@[j] == (e0[j].1 || has_any_prefix(e0[j].0, pfx)),
                out@.map_values(|s: String| s@) == taken(e0.subrange(0, i as int), pfx),
            decreases self.values@.len() - i,
        {
            let ghost before = out@;
            let ghost sub = e0.subrange(0, i as int);
            reveal(Seq::filter);
            let ghost next = e0.subrange(0, i as int + 1);
            assert(next.drop_last() =~= sub);
            assert(next.last() == e0[i as int]);
            assert(e0[i as int] == (self.values@[i as int]@, self.claimed@[i as int]));
            let was = self.claimed[i];
            let hit = if was {
                false
            } else {
                starts_with_any(self.values[i].as_str(), prefixes)
            };
            assert(hit == claimable(e0[i as int], pfx));
            if hit {
                self.claimed.set(i, true);
                out.push(self.values[i].clone());
                assert(out@.map_values(|s: String| s@) =~= before.map_values(|s: String| s@).push(e0[i as int].0));
                assert(next.filter(|e: Entry| claimable(e, pfx)) == sub.filter(|e: Entry| claimable(e, pfx)).push(e0[i as int]));
                assert(sub.filter(|e: Entry| claimable(e, pfx)).push(e0[i as int]).map_values(|e: Entry| e.0)
                    =~= sub.filter(|e: Entry| claimable(e, pfx)).map_values(|e: Entry| e.0).push(e0[i as int].0));
            } else {
                assert(next.filter(|e: Entry| claimable(e, pfx)) == sub.filter(|e: Entry| claimable(e, pfx)));
            }
            assert(self.claimed@[i as int] == (e0[i as int].1 || has_any_prefix(e0[i as int].0, pfx)));
            i = i + 1;
        }
        assert(e0.subrange(0, i as int) =~= e0);
        assert(self.entries() =~= after_claim(e0, pfx));
        out
    }

    /// Succeeds when every value was claimed; otherwise lists the values that no
    /// backend recognized, in the order given.
    pub fn check(&self) -> (r: Result<(), Error>)
        requires
            self.wf(),
        ensures
            unclaimed(self.entries()).len() == 0 <==> r is Ok,
            r matches Err(Error::UnrecognizableConnections(v)) ==> v@.map_values(|s: String| s@) == unclaimed(self.entries()),
            !(r matches Err(Error::NoSources)),
    {
        let ghost e0 = self.entries();
        let mut left: Vec<String> = Vec::new();
        let mut i: usize = 0;
        while i < self.values.len()
            invariant
                self.wf(),
                e0 == self.entries(),
                i <= self.values@.len(),
                left@.map_values(|s: String| s@) == unclaimed(e0.subrange(0, i as int)),
            decreases self.values@.len() - i,
        {
            let ghost before = left@;
            let ghost sub = e0.subrange(0, i as int);
            reveal(Seq::filter);
            let ghost next = e0.subrange(0, i as int + 1);
            assert(next.drop_last() =~= sub);
            assert(next.last() == e0[i as int]);
            if !self.claimed[i] {
                left.push(self.values[i].clone());
                assert(left@.map_values(|s: String| s@) =~= before.map_values(|s: String| s@).push(e0[i as int].0));
                assert(next.filter(|e: Entry| !e.1) == sub.filter(|e: Entry| !e.1).push(e0[i as int]));
                assert(sub.filter(|e: Entry| !e.1).push(e0[i as int]).map_values(|e: Entry| e.0)
                    =~= sub.filter(|e: Entry| !e.1).map_values(|e: Entry| e.0).push(e0[i as int].0));
            } else {
                assert(next.filter(|e: Entry| !e.1) == sub.filter(|e: Entry| !e.1));
            }
            i = i + 1;
        }
        assert(e0.subrange(0, i as int) =~= e0);
        if left.len() == 0 {
            Ok(())
        } else {
            Err(Error::UnrecognizableConnections(left))
        }
    }
}

} // verus!

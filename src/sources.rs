use vstd::prelude::*;

use crate::error::Error;
use crate::order::{lemma_lex_irreflexive, lemma_lex_total, lemma_lex_transitive, lemma_sorted_unique, lex_less, lex_lt, strictly_sorted};
use crate::text::same_text;

verus! {

/// The view of a list of (identifier, source) pairs.
pub open spec fn pairs_view<S>(v: Seq<(String, S)>) -> Seq<(Seq<char>, S)> {
    v.map_values(|p: (String, S)| (p.0@, p.1))
}

/// The identifiers of a list of pairs, in order.
pub open spec fn ids_of<S>(v: Seq<(Seq<char>, S)>) -> Seq<Seq<char>> {
    v.map_values(|p: (Seq<char>, S)| p.0)
}

/// Whether some pair of `v` has identifier `k`.
pub open spec fn has_id<S>(v: Seq<(Seq<char>, S)>, k: Seq<char>) -> bool {
    exists|i: int| 0 <= i < v.len() && #[trigger] v[i].0 == k
}

/// Whether no two pairs of `v` share an identifier.
pub open spec fn distinct_ids<S>(v: Seq<(Seq<char>, S)>) -> bool {
    forall|i: int, j: int| 0 <= i < j < v.len() ==> #[trigger] v[i].0 != #[trigger] v[j].0
}

/// The identifiers of the registry, sorted and unique, each with its source.
pub struct Sources<S> {
    entries: Vec<(String, S)>,
}

impl<S> Sources<S> {
    /// The (identifier, source) pairs, in order of identifier.
    pub closed spec fn pairs(&self) -> Seq<(Seq<char>, S)> {
        pairs_view(self.entries@)
    }

    /// The identifiers, in order.
    pub open spec fn ids(&self) -> Seq<Seq<char>> {
        ids_of(self.pairs())
    }

    /// The identifiers are in strictly increasing order.
    pub open spec fn wf(&self) -> bool {
        strictly_sorted(self.ids())
    }

    /// An empty registry.
    pub fn new() -> (r: Self)
        ensures
            r.wf(),
            r.pairs().len() == 0,
    {
        let r = Sources { entries: Vec::new() };
        assert(r.pairs() =~= Seq::<(Seq<char>, S)>::empty());
        r
    }

    /// The number of sources.
    pub fn len(&self) -> (r: usize)
        ensures
            r == self.pairs().len(),
    {
        self.entries.len()
    }

    /// The identifiers, in order.
    pub fn keys(&self) -> (r: Vec<String>)
        ensures
            r@.map_values(|s: String| s@) == self.ids(),
    {
        let mut r: Vec<String> = Vec::new();
        let mut i: usize = 0;
        while i < self.entries.len()
            invariant
                i <= self.entries@.len(),
                r@.len() == i,
                forall|j: int| 0 <= j < i ==> #[trigger] r@[j]@ == self.ids()[j],
            decreases self.entries@.len() - i,
        {
            r.push(self.entries[i].0.clone());
            i = i + 1;
        }
        assert(r@.map_values(|s: String| s@) =~= self.ids());
        r
    }

    /// The source registered under `id`.
    pub fn get(&self, id: &str) -> (r: Option<&S>)
        ensures
            r matches Some(s) ==> self.pairs().contains((id@, *s)),
            r is None ==> !has_id(self.pairs(), id@),
    {
        let mut i: usize = 0;
        while i < self.entries.len()
            invariant
                i <= self.entries@.len(),
                forall|j: int| 0 <= j < i ==> self.pairs()[j].0 != id@,
            decreases self.entries@.len() - i,
        {
            if same_text(self.entries[i].0.as_str(), id) {
                assert(self.pairs()[i as int] == (id@, self.entries@[i as int].1));
                return Some(&self.entries[i].1);
            }
            i = i + 1;
        }
        None
    }

    /// Registers `source` under `id`, replacing a source already registered there and
    /// keeping the identifiers sorted.
    pub fn insert(&mut self, id: String, source: S)
        requires
            old(self).wf(),
        ensures
            final(self).wf(),
            final(self).pairs().contains((id@, source)),
            forall|p: (Seq<char>, S)| old(self).pairs().contains(p) && p.0 != id@ ==> final(self).pairs().contains(p),
            forall|p: (Seq<char>, S)| #[trigger] final(self).pairs().contains(p) ==> p == (id@, source) || old(self).pairs().contains(p),
    {
        let ghost old_pairs = self.pairs();
        let ghost old_ids = self.ids();
        let ghost k = id@;
        let n = self.entries.len();
        let mut p: usize = 0;
        let mut going = true;
        while going && p < n
            invariant
                n == self.entries@.len(),
                p <= n,
                old_pairs == self.pairs(),
                old_ids == self.ids(),
                k == id@,
                forall|j: int| 0 <= j < p ==> lex_lt(#[trigger] old_ids[j], k),
                !going ==> p < n && !lex_lt(old_ids[p as int], k),
            decreases (n - p) * 2 + (if going { 1int } else { 0int }),
        {
            assert(old_ids[p as int] == self.entries@[p as int].0@);
            if lex_less(self.entries[p].0.as_str(), id.as_str()) {
                p = p + 1;
            } else {
                going = false;
            }
        }
        if p < n && same_text(self.entries[p].0.as_str(), id.as_str()) {
            let ghost v = (k, source);
            self.entries.set(p, (id, source));
            assert(self.pairs() =~= old_pairs.update(p as int, v));
            assert(self.ids() =~= old_ids);
            assert(self.pairs()[p as int] == v);
            assert forall|q: (Seq<char>, S)| old_pairs.contains(q) && q.0 != k implies self.pairs().contains(q) by {
                let i = choose|i: int| 0 <= i < old_pairs.len() && old_pairs[i] == q;
                assert(self.pairs()[i] == q);
            }
            assert forall|q: (Seq<char>, S)| #[trigger] self.pairs().contains(q) implies q == v || old_pairs.contains(q) by {
                let i = choose|i: int| 0 <= i < self.pairs().len() && self.pairs()[i] == q;
                if i != p {
                    assert(old_pairs[i] == q);
                }
            }
        } else {
            proof {
                if p < n {
                    assert(old_ids[p as int] == old_pairs[p as int].0);
                    lemma_lex_total(old_ids[p as int], k);
                    assert(lex_lt(k, old_ids[p as int]));
                }
            }
            let ghost v = (k, source);
            self.entries.insert(p, (id, source));
            assert(self.pairs() =~= old_pairs.insert(p as int, v));
            assert(self.ids() =~= old_ids.insert(p as int, k));
            assert(self.pairs()[p as int] == v);
            assert forall|i: int, j: int| 0 <= i < j < self.ids().len() implies lex_lt(#[trigger] self.ids()[i], #[trigger] self.ids()[j]) by {
                let ids = self.ids();
                if j < p {
                    assert(ids[i] == old_ids[i] && ids[j] == old_ids[j]);
                } else if j == p {
                    assert(ids[i] == old_ids[i]);
                } else if i == p {
                    assert(ids[j] == old_ids[j - 1]);
                    if j - 1 > p {
                        assert(lex_lt(old_ids[p as int], old_ids[j - 1]));
                        lemma_lex_transitive(k, old_ids[p as int], old_ids[j - 1]);
                    }
                } else if i < p {
                    assert(ids[i] == old_ids[i] && ids[j] == old_ids[j - 1]);
                    assert(lex_lt(old_ids[i], k));
                    if j - 1 > p {
                        assert(lex_lt(old_ids[p as int], old_ids[j - 1]));
                        lemma_lex_transitive(k, old_ids[p as int], old_ids[j - 1]);
                    }
                    lemma_lex_transitive(old_ids[i], k, old_ids[j - 1]);
                } else {
                    assert(ids[i] == old_ids[i - 1] && ids[j] == old_ids[j - 1]);
                }
            }
            assert forall|q: (Seq<char>, S)| old_pairs.contains(q) && q.0 != k implies self.pairs().contains(q) by {
                let i = choose|i: int| 0 <= i < old_pairs.len() && old_pairs[i] == q;
                if i < p {
                    assert(self.pairs()[i] == q);
                } else {
                    assert(self.pairs()[i + 1] == q);
                }
            }
            assert forall|q: (Seq<char>, S)| #[trigger] self.pairs().contains(q) implies q == v || old_pairs.contains(q) by {
                let i = choose|i: int| 0 <= i < self.pairs().len() && self.pairs()[i] == q;
                if i < p {
                    assert(old_pairs[i] == q);
                } else if i > p {
                    assert(old_pairs[i - 1] == q);
                }
            }
        }
    }
}

/// Every (identifier, source) pair of the successful results, in order.
pub open spec fn all_pairs<S, E>(rs: Seq<Result<Vec<(String, S)>, E>>) -> Seq<(Seq<char>, S)>
    decreases rs.len(),
{
    if rs.len() == 0 {
        Seq::empty()
    } else {
        let rest = all_pairs(rs.drop_last());
        match rs.last() {
            Ok(v) => rest + pairs_view(v@),
            Err(_) => rest,
        }
    }
}

/// The error of the first failed result, if any failed.
pub open spec fn first_error<S, E>(rs: Seq<Result<Vec<(String, S)>, E>>) -> Option<E>
    decreases rs.len(),
{
    if rs.len() == 0 {
        None
    } else {
        match rs[0] {
            Err(e) => Some(e),
            Ok(_) => first_error(rs.drop_first()),
        }
    }
}

/// Whether every pair of `acc` that no later pair overrides is in `s`.
pub open spec fn kept<S>(acc: Seq<(Seq<char>, S)>, s: Seq<(Seq<char>, S)>) -> bool {
    forall|i: int|
        0 <= i < acc.len() && (forall|j: int| i < j < acc.len() ==> #[trigger] acc[j].0 != acc[i].0)
            ==> s.contains(#[trigger] acc[i])
}

/// Joins the results of resolving every backend into one registry. If any backend
/// failed, the error of the first failed one is returned and no registry is built;
/// otherwise the registry holds exactly the identifiers of all results, sorted.
pub fn merge_resolved<S, E>(results: Vec<Result<Vec<(String, S)>, E>>) -> (r: Result<Sources<S>, E>)
    ensures
        r is Err <==> first_error(results@) is Some,
        r matches Err(e) ==> first_error(results@) == Some(e),
        r matches Ok(s) ==> s.wf(),
        r matches Ok(s) ==> forall|p: (Seq<char>, S)| #[trigger] s.pairs().contains(p) ==> all_pairs(results@).contains(p),
        r matches Ok(s) ==> forall|k: Seq<char>| has_id(s.pairs(), k) <==> has_id(all_pairs(results@), k),
        r matches Ok(s) ==> (distinct_ids(all_pairs(results@)) ==> forall|p: (Seq<char>, S)|
            #[trigger] all_pairs(results@).contains(p) ==> s.pairs().contains(p)),
{
    let ghost rs0 = results@;
    let mut rest = results;
    let mut registry: Sources<S> = Sources::new();
    let ghost mut d: int = 0;
    let ghost mut acc: Seq<(Seq<char>, S)> = Seq::empty();
    while rest.len() > 0
        invariant
            0 <= d <= rs0.len(),
            rs0 == results@,
            rest@ == rs0.skip(d),
            first_error(rs0) == first_error(rest@),
            acc == all_pairs(rs0.subrange(0, d)),
            registry.wf(),
            forall|p: (Seq<char>, S)| #[trigger] registry.pairs().contains(p) ==> acc.contains(p),
            forall|i: int| 0 <= i < acc.len() ==> has_id(registry.pairs(), #[trigger] acc[i].0),
            kept(acc, registry.pairs()),
        decreases rest@.len(),
    {
        let ghost before = rest@;
        let item = rest.remove(0);
        assert(rest@ =~= rs0.skip(d + 1));
        assert(before.drop_first() =~= rest@);
        match item {
            Err(e) => {
                assert(first_error(before) == Some(e));
                return Err(e);
            },
            Ok(v) => {
                let ghost v0 = v@;
                let ghost acc0 = acc;
                let mut v = v;
                let ghost mut t: int = 0;
                while v.len() > 0
                    invariant
                        0 <= t <= v0.len(),
                        v@ == v0.skip(t),
                        acc == acc0 + pairs_view(v0.subrange(0, t)),
                        registry.wf(),
                        forall|p: (Seq<char>, S)| #[trigger] registry.pairs().contains(p) ==> acc.contains(p),
                        forall|i: int| 0 <= i < acc.len() ==> has_id(registry.pairs(), #[trigger] acc[i].0),
                        kept(acc, registry.pairs()),
                    decreases v@.len(),
                {
                    let (id, src) = v.remove(0);
                    let ghost q = (id@, src);
                    let ghost reg0 = registry.pairs();
                    let ghost acc1 = acc;
                    registry.insert(id, src);
                    proof {
                        acc = acc.push(q);
                        assert(acc0 + pairs_view(v0.subrange(0, t + 1)) =~= acc);
                        t = t + 1;
                        assert(v@ =~= v0.skip(t));
                        let reg = registry.pairs();
                        assert forall|p: (Seq<char>, S)| #[trigger] reg.contains(p) implies acc.contains(p) by {
                            if p == q {
                                assert(acc[acc.len() - 1] == q);
                            } else {
                                let i = choose|i: int| 0 <= i < acc1.len() && acc1[i] == p;
                                assert(acc[i] == p);
                            }
                        }
                        assert forall|i: int| 0 <= i < acc.len() implies has_id(reg, #[trigger] acc[i].0) by {
                            let wi = choose|w: int| 0 <= w < reg.len() && reg[w] == q;
                            if i == acc.len() - 1 || acc[i].0 == q.0 {
                                assert(reg[wi].0 == acc[i].0);
                            } else {
                                assert(acc[i] == acc1[i]);
                                assert(has_id(reg0, acc1[i].0));
                                let w = choose|w: int| 0 <= w < reg0.len() && #[trigger] reg0[w].0 == acc1[i].0;
                                assert(reg0.contains(reg0[w]));
                                assert(reg.contains(reg0[w]));
                                let w2 = choose|w2: int| 0 <= w2 < reg.len() && reg[w2] == reg0[w];
                                assert(reg[w2].0 == acc[i].0);
                            }
                        }
                        assert forall|i: int|
                            0 <= i < acc.len() && (forall|j: int| i < j < acc.len() ==> #[trigger] acc[j].0 != acc[i].0)
                            implies reg.contains(#[trigger] acc[i]) by {
                            if i == acc.len() - 1 {
                            } else {
                                assert(acc[acc.len() - 1].0 != acc[i].0);
                                assert(acc[i] == acc1[i]);
                                assert forall|j: int| i < j < acc1.len() implies #[trigger] acc1[j].0 != acc1[i].0 by {
                                    assert(acc[j] == acc1[j]);
                                }
                                assert(reg0.contains(acc1[i]));
                            }
                        }
                    }
                }
                proof {
                    assert(d < rs0.len());
                    assert(v0.subrange(0, t) =~= v0);
                    let sub = rs0.subrange(0, d + 1);
                    assert(sub.drop_last() =~= rs0.subrange(0, d));
                    assert(sub.last() == rs0[d]);
                    assert(before[0] == rs0[d]);
                    d = d + 1;
                }
            },
        }
    }
    proof {
        assert(rs0.subrange(0, d) =~= rs0);
        let reg = registry.pairs();
        assert forall|k: Seq<char>| has_id(reg, k) implies has_id(acc, k) by {
            let w = choose|w: int| 0 <= w < reg.len() && #[trigger] reg[w].0 == k;
            assert(reg.contains(reg[w]));
            let i = choose|i: int| 0 <= i < acc.len() && acc[i] == reg[w];
            assert(acc[i].0 == k);
        }
        if distinct_ids(acc) {
            assert forall|p: (Seq<char>, S)| #[trigger] acc.contains(p) implies reg.contains(p) by {
                let i = choose|i: int| 0 <= i < acc.len() && acc[i] == p;
                assert forall|j: int| i < j < acc.len() implies #[trigger] acc[j].0 != acc[i].0 by {
                }
            }
        }
    }
    Ok(registry)
}

/// When exactly one backend result is a failure, the merge reports that failure,
/// whatever its place among the results.
pub proof fn lemma_single_failure<S, E>(rs: Seq<Result<Vec<(String, S)>, E>>, i: int)
    requires
        0 <= i < rs.len(),
        rs[i] is Err,
        forall|j: int| 0 <= j < rs.len() && j != i ==> #[trigger] rs[j] is Ok,
    ensures
        first_error(rs) == Some(rs[i]->Err_0),
    decreases rs.len(),
{
    if i > 0 {
        let rest = rs.drop_first();
        assert forall|j: int| 0 <= j < rest.len() && j != i - 1 implies #[trigger] rest[j] is Ok by {
            assert(rest[j] == rs[j + 1]);
        }
        lemma_single_failure(rest, i - 1);
    }
}

/// Two registries holding the same identifiers list them in the same order, so the
/// order in which backends finished resolving never shows in the result.
pub proof fn lemma_ids_order_independent<S>(a: Sources<S>, b: Sources<S>)
    requires
        a.wf(),
        b.wf(),
        forall|k: Seq<char>| has_id(a.pairs(), k) <==> has_id(b.pairs(), k),
    ensures
        a.ids() == b.ids(),
{
    assert forall|k: Seq<char>| a.ids().to_set().contains(k) implies b.ids().to_set().contains(k) by {
        let i = choose|i: int| 0 <= i < a.ids().len() && a.ids()[i] == k;
        assert(a.pairs()[i].0 == k);
        assert(has_id(a.pairs(), k));
        assert(has_id(b.pairs(), k));
        let j = choose|j: int| 0 <= j < b.pairs().len() && #[trigger] b.pairs()[j].0 == k;
        assert(b.ids()[j] == k);
        assert(b.ids().contains(k));
    }
    assert forall|k: Seq<char>| b.ids().to_set().contains(k) implies a.ids().to_set().contains(k) by {
        let i = choose|i: int| 0 <= i < b.ids().len() && b.ids()[i] == k;
        assert(b.pairs()[i].0 == k);
        assert(has_id(b.pairs(), k));
        assert(has_id(a.pairs(), k));
        let j = choose|j: int| 0 <= j < a.pairs().len() && #[trigger] a.pairs()[j].0 == k;
        assert(a.ids()[j] == k);
        assert(a.ids().contains(k));
    }
    assert(a.ids().to_set() =~= b.ids().to_set());
    lemma_sorted_unique(a.ids(), b.ids());
}

/// Fails with `NoSources` when no backend section holds a record; `section_sizes`
/// gives the number of records of each section.
pub fn require_sources(section_sizes: &[usize]) -> (r: Result<(), Error>)
    ensures
        r is Ok <==> exists|i: int| 0 <= i < section_sizes@.len() && section_sizes@[i] > 0,
        r matches Err(e) ==> e == Error::NoSources,
{
    let mut i: usize = 0;
    while i < section_sizes.len()
        invariant
            i <= section_sizes@.len(),
            forall|j: int| 0 <= j < i ==> section_sizes@[j] == 0,
        decreases section_sizes@.len() - i,
    {
        if section_sizes[i] > 0 {
            return Ok(());
        }
        i = i + 1;
    }
    Err(Error::NoSources)
}

/// The result of a full resolution: the tile sources and the sprite registry.
pub struct AllSources<S, P> {
    pub sources: Sources<S>,
    pub sprites: P,
}

} // verus!

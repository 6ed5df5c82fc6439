use vstd::prelude::*;

use crate::error::Error;
use crate::sources::require_sources;

verus! {

/// The view of a list of (key, value) pairs: each key as its characters.
pub open spec fn keyed<V>(v: Seq<(String, V)>) -> Seq<(Seq<char>, V)> {
    v.map_values(|p: (String, V)| (p.0@, p.1))
}

/// The pairs of `v` with `prefix` put in front of each key, in order.
pub open spec fn prefixed_pairs<V>(prefix: Seq<char>, v: Seq<(String, V)>) -> Seq<(Seq<char>, V)> {
    v.map_values(|p: (String, V)| (prefix + p.0@, p.1))
}

/// The leftover pairs of every section, each key under its section's prefix, section
/// after section.
pub open spec fn sections_leftover<V>(ss: Seq<Section<V>>) -> Seq<(Seq<char>, V)>
    decreases ss.len(),
{
    if ss.len() == 0 {
        Seq::empty()
    } else {
        sections_leftover(ss.drop_last()) + prefixed_pairs(ss.last().prefix@, ss.last().leftover@)
    }
}

/// What validation needs of one backend section of the configuration: the prefix of
/// its keys, how many records it holds, and the values that no field recognized.
pub struct Section<V> {
    pub prefix: String,
    pub records: usize,
    pub leftover: Vec<(String, V)>,
}

/// Appends each pair of `unrecognized` to `result`, in order, with `prefix` put in
/// front of its key.
pub fn copy_unrecognized<V>(result: &mut Vec<(String, V)>, prefix: &str, unrecognized: Vec<(String, V)>)
    ensures
        keyed(final(result)@) == keyed(old(result)@) + prefixed_pairs(prefix@, unrecognized@),
{
    let ghost r0 = result@;
    let ghost u0 = unrecognized@;
    let mut rest = unrecognized;
    let ghost mut t: int = 0;
    while rest.len() > 0
        invariant
            0 <= t <= u0.len(),
            rest@ == u0.skip(t),
            keyed(result@) == keyed(r0) + prefixed_pairs(prefix@, u0.subrange(0, t)),
        decreases rest@.len(),
    {
        let ghost before = result@;
        let (k, v) = rest.remove(0);
        assert(u0[t] == (k, v));
        let mut key = String::from_str(prefix);
        key.append(k.as_str());
        result.push((key, v));
        proof {
            assert(keyed(result@) =~= keyed(before).push((prefix@ + k@, v)));
            assert(prefixed_pairs(prefix@, u0.subrange(0, t + 1)) =~= prefixed_pairs(prefix@, u0.subrange(0, t)).push(
                (prefix@ + k@, v),
            ));
            t = t + 1;
            assert(rest@ =~= u0.skip(t));
        }
    }
    assert(u0.subrange(0, t) =~= u0);
}

/// Validates the merged configuration: fails with `NoSources` when no section holds
/// a record; otherwise returns every unrecognized value, the top-level ones first with
/// their keys as they are, then those of each section under the section's prefix.
pub fn finalize_config<V>(top: Vec<(String, V)>, sections: Vec<Section<V>>) -> (r: Result<Vec<(String, V)>, Error>)
    ensures
        r is Ok <==> exists|i: int| 0 <= i < sections@.len() && sections@[i].records > 0,
        r matches Err(e) ==> e == Error::NoSources,
        r matches Ok(res) ==> keyed(res@) == keyed(top@) + sections_leftover(sections@),
{
    let mut res: Vec<(String, V)> = Vec::new();
    proof {
        reveal_strlit("");
    }
    copy_unrecognized(&mut res, "", top);
    assert(prefixed_pairs(""@, top@) =~= keyed(top@));
    assert(keyed(Seq::<(String, V)>::empty()) =~= Seq::<(Seq<char>, V)>::empty());
    let ghost s0 = sections@;
    let ghost base = keyed(top@);
    let mut rest = sections;
    let mut sizes: Vec<usize> = Vec::new();
    let ghost mut d: int = 0;
    while rest.len() > 0
        invariant
            0 <= d <= s0.len(),
            s0 == sections@,
            rest@ == s0.skip(d),
            sizes@.len() == d,
            forall|j: int| 0 <= j < d ==> #[trigger] sizes@[j] == s0[j].records,
            keyed(res@) == base + sections_leftover(s0.subrange(0, d)),
        decreases rest@.len(),
    {
        let sec = rest.remove(0);
        assert(s0[d] == sec);
        let Section { prefix, records, leftover } = sec;
        sizes.push(records);
        copy_unrecognized(&mut res, prefix.as_str(), leftover);
        proof {
            let sub = s0.subrange(0, d + 1);
            assert(sub.drop_last() =~= s0.subrange(0, d));
            assert(sub.last() == s0[d]);
            d = d + 1;
            assert(rest@ =~= s0.skip(d));
        }
    }
    assert(s0.subrange(0, d) =~= s0);
    match require_sources(sizes.as_slice()) {
        Ok(()) => {
            assert(exists|i: int| 0 <= i < sizes@.len() && sizes@[i] > 0);
            Ok(res)
        },
        Err(e) => {
            assert forall|i: int| 0 <= i < s0.len() implies !(s0[i].records > 0) by {
                assert(sizes@[i] == s0[i].records);
            }
            Err(e)
        },
    }
}

} // verus!

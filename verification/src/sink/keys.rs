//! The keys of a map of jobs.
use vstd::prelude::*;

use std::collections::HashMap;

verus! {

broadcast use vstd::std_specs::hash::group_hash_axioms;

/// The keys of a map, each once, in no particular order.
pub fn job_ids<V>(m: &HashMap<u128, V>) -> (r: Vec<u128>)
    ensures
        r@.no_duplicates(),
        r@.len() == m@.dom().len(),
        forall|k: u128| #[trigger] m@.contains_key(k) <==> r@.contains(k),
{
    let mut out: Vec<u128> = Vec::new();
    for k in it: m.keys()
        invariant
            out@ == it.seq().unref().take(it.index() as int),
    {
        proof {
            let s = it.seq().unref();
            assert(s[it.index() as int] == *k);
            assert(s.take(it.index() + 1) =~= s.take(it.index() as int).push(*k));
        }
        out.push(*k);
    }
    proof {
        let s = vstd::std_specs::iter::IteratorSpec::remaining(&m.keys()).unref();
        assert(out@ =~= s);
        assert forall|i: int, j: int| 0 <= i < j < out@.len() implies out@[i] != out@[j] by {
            let t = vstd::std_specs::iter::IteratorSpec::remaining(&m.keys());
            assert(*t[i] == s[i] && *t[j] == s[j]);
            assert(t[i] != t[j]);
        }
        assert forall|k: u128| #[trigger] m@.contains_key(k) <==> out@.contains(k) by {
            assert(s.to_set().contains(k) <==> s.contains(k));
        }
    }
    out
}

} // verus!

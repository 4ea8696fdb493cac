//! What is needed of sequences.
use vstd::prelude::*;

verus! {

/// What a filter keeps is kept, and it keeps nothing else.
pub proof fn lemma_filter<A>(s: Seq<A>, keep: spec_fn(A) -> bool, v: A)
    ensures
        s.filter(keep).contains(v) <==> s.contains(v) && keep(v),
    decreases s.len(),
{
    reveal(Seq::filter);
    if s.len() > 0 {
        let before = s.drop_last();
        lemma_filter(before, keep, v);
        if s.contains(v) && s.last() != v {
            let i = choose|i: int| 0 <= i < s.len() && s[i] == v;
            assert(before[i] == v);
        }
        if before.contains(v) {
            let i = choose|i: int| 0 <= i < before.len() && before[i] == v;
            assert(s[i] == v);
        }
        let f = before.filter(keep);
        if keep(s.last()) {
            let g = f.push(s.last());
            if f.contains(v) {
                let i = choose|i: int| 0 <= i < f.len() && f[i] == v;
                assert(g[i] == v);
            }
            assert(g[f.len() as int] == s.last());
            if s.last() == v {
                assert(s[s.len() - 1] == v);
            }
            if g.contains(v) && v != s.last() {
                let i = choose|i: int| 0 <= i < g.len() && g[i] == v;
                assert(f[i] == v);
            }
        }
    }
}

/// A filter of two parts is the filters of the parts.
pub proof fn lemma_filter_concat<A>(a: Seq<A>, b: Seq<A>, keep: spec_fn(A) -> bool)
    ensures
        (a + b).filter(keep) == a.filter(keep) + b.filter(keep),
{
    Seq::filter_distributes_over_add(a, b, keep);
}

/// A filter of a longer sequence.
pub proof fn lemma_filter_push<A>(s: Seq<A>, v: A, keep: spec_fn(A) -> bool)
    ensures
        s.push(v).filter(keep) == (if keep(v) {
            s.filter(keep).push(v)
        } else {
            s.filter(keep)
        }),
{
    reveal(Seq::filter);
    assert(s.push(v).drop_last() =~= s);
}

} // verus!

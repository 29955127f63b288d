//! Views of tables and facts about filtered sequences that several modules
//! share.

use vstd::prelude::*;

verus! {

/// The rows of a data set as sequences of feature values.
pub open spec fn rows(data: Seq<Vec<i64>>) -> Seq<Seq<i64>> {
    Seq::new(data.len(), |i: int| data[i]@)
}

/// Extending a sequence by one item extends what a filter keeps of it by that
/// item, or by nothing.
pub proof fn lemma_filter_push<A>(s: Seq<A>, item: A, pred: spec_fn(A) -> bool)
    ensures
        pred(item) ==> s.push(item).filter(pred) == s.filter(pred).push(item),
        !pred(item) ==> s.push(item).filter(pred) == s.filter(pred),
{
    reveal(Seq::filter);
    assert(s.push(item).drop_last() =~= s);
}

/// Whatever a filter keeps was in the sequence.
pub proof fn lemma_filter_within<A>(s: Seq<A>, pred: spec_fn(A) -> bool)
    ensures
        forall|i: int| 0 <= i < s.filter(pred).len() ==> s.contains(#[trigger] s.filter(pred)[i]),
    decreases s.len(),
{
    reveal(Seq::filter);
    if s.len() > 0 {
        lemma_filter_within(s.drop_last(), pred);
        let kept = s.filter(pred);
        assert forall|i: int| 0 <= i < kept.len() implies s.contains(#[trigger] kept[i]) by {
            let before = s.drop_last().filter(pred);
            if i < before.len() {
                assert(s.drop_last().contains(before[i]));
                let k = choose|k: int| 0 <= k < s.drop_last().len() && s.drop_last()[k] == before[i];
                assert(s[k] == kept[i]);
            } else {
                assert(kept[i] == s.last());
                assert(s[s.len() - 1] == kept[i]);
            }
        }
    }
}

} // verus!

use vstd::prelude::*;

verus! {

/// The successes of a sequence of results, in their original order.
pub open spec fn oks_of<T, E>(s: Seq<Result<T, E>>) -> Seq<T>
    decreases s.len(),
{
    if s.len() == 0 {
        seq![]
    } else {
        match s.last() {
            Result::Ok(t) => oks_of(s.drop_last()).push(t),
            Result::Err(_) => oks_of(s.drop_last()),
        }
    }
}

/// The failures of a sequence of results, in their original order.
pub open spec fn errs_of<T, E>(s: Seq<Result<T, E>>) -> Seq<E>
    decreases s.len(),
{
    if s.len() == 0 {
        seq![]
    } else {
        match s.last() {
            Result::Ok(_) => errs_of(s.drop_last()),
            Result::Err(e) => errs_of(s.drop_last()).push(e),
        }
    }
}

/// Every entry of a batch lands in exactly one of the two lists: the
/// success and failure counts always add up to the input count, so a
/// failure is neither dropped nor counted twice.
pub proof fn lemma_partition_counts<T, E>(s: Seq<Result<T, E>>)
    ensures
        oks_of(s).len() + errs_of(s).len() == s.len(),
    decreases s.len(),
{
    if s.len() > 0 {
        lemma_partition_counts(s.drop_last());
    }
}

/// Routes each result to a success list or a failure list in one pass,
/// preserving the original relative order within each list.  A failure is
/// never fatal: every entry is kept, on one side or the other.
pub fn partition_results<T, E>(results: Vec<Result<T, E>>) -> (r: (Vec<T>, Vec<E>))
    ensures
        r.0@ == oks_of(results@),
        r.1@ == errs_of(results@),
{
    let ghost all = results@;
    let mut rest = results;
    let mut oks: Vec<T> = Vec::new();
    let mut errs: Vec<E> = Vec::new();
    proof {
        assert(all.subrange(0, 0) =~= Seq::<Result<T, E>>::empty());
        assert(oks_of(all.subrange(0, 0)) =~= Seq::<T>::empty());
        assert(errs_of(all.subrange(0, 0)) =~= Seq::<E>::empty());
        assert(rest@ =~= all.skip(0));
    }
    while rest.len() > 0
        invariant
            rest@.len() <= all.len(),
            rest@ == all.skip(all.len() - rest@.len()),
            oks@ == oks_of(all.subrange(0, all.len() - rest@.len())),
            errs@ == errs_of(all.subrange(0, all.len() - rest@.len())),
        decreases rest@.len(),
    {
        let ghost k = all.len() - rest@.len();
        let item = rest.remove(0);
        proof {
            assert(item == all[k]);
            assert(rest@ =~= all.skip(k + 1));
            assert(all.subrange(0, k + 1).drop_last() =~= all.subrange(0, k));
            assert(all.subrange(0, k + 1).last() == all[k]);
        }
        match item {
            Ok(t) => oks.push(t),
            Err(e) => errs.push(e),
        }
    }
    proof {
        assert(all.subrange(0, all.len() as int) =~= all);
    }
    (oks, errs)
}

} // verus!

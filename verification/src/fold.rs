//! Fail-fast left folds. Every characteristic-list parser is a fold that
//! threads a partial record through the list and stops at the first error;
//! this module gives that shape one specification.

use vstd::prelude::*;

use crate::error::RosterErrorView;

verus! {

/// The result of folding `step` over `cs` from `st0`, stopping at the
/// first error.
pub open spec fn spec_fold<S, C>(
    step: spec_fn(S, C) -> Result<S, RosterErrorView>,
    st0: S,
    cs: Seq<C>,
) -> Result<S, RosterErrorView>
    decreases cs.len(),
{
    if cs.len() == 0 {
        Ok(st0)
    } else {
        match spec_fold(step, st0, cs.drop_last()) {
            Ok(st) => step(st, cs.last()),
            Err(e) => Err(e),
        }
    }
}

/// Once a prefix of the fold has failed, the whole fold fails the same way.
pub proof fn lemma_fold_prefix_err<S, C>(
    step: spec_fn(S, C) -> Result<S, RosterErrorView>,
    st0: S,
    cs: Seq<C>,
    i: int,
)
    requires
        0 <= i <= cs.len(),
        spec_fold(step, st0, cs.take(i)) is Err,
    ensures
        spec_fold(step, st0, cs) == spec_fold(step, st0, cs.take(i)),
    decreases cs.len() - i,
{
    if i < cs.len() {
        assert(cs.take(i + 1).drop_last() =~= cs.take(i));
        lemma_fold_prefix_err(step, st0, cs, i + 1);
    } else {
        assert(cs.take(i) =~= cs);
    }
}

/// When the whole fold succeeds, so does the fold of every prefix.
pub proof fn lemma_fold_ok_prefix<S, C>(
    step: spec_fn(S, C) -> Result<S, RosterErrorView>,
    st0: S,
    cs: Seq<C>,
    i: int,
)
    requires
        0 <= i <= cs.len(),
        spec_fold(step, st0, cs) is Ok,
    ensures
        spec_fold(step, st0, cs.take(i)) is Ok,
{
    if spec_fold(step, st0, cs.take(i)) is Err {
        lemma_fold_prefix_err(step, st0, cs, i);
        assert(cs.take(cs.len() as int) =~= cs);
    }
}

} // verus!

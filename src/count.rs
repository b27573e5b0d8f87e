//! Sums of line counts over a list of files, in one thread or in several.

use crate::ext::{
    checked_ext_totals, ext_totals, lemma_checked_ext_totals_append, opt_ext_view, ResultsByExt,
};
use crate::stats::{checked_total, lemma_total_append, opt_counts, total, Results};
use rayon::iter::IntoParallelRefIterator;
use rayon::iter::ParallelIterator;
use vstd::prelude::*;

verus! {

/// Relies on rayon's `ParallelIterator::reduce` over a slice: it applies
/// `Results::combine_checked` to the items in their order, under some
/// bracketing, with the identity `Some(Results::new())` inserted where it
/// likes. That operation is associative and has that identity
/// (`lemma_combine_checked_associative`, `lemma_combine_checked_identity`),
/// so every bracketing yields the sequential checked sum
/// (`lemma_checked_total_push`, `lemma_checked_total_append`).
#[verifier::external_body]
fn par_total(stats: &Vec<Results>) -> (r: Option<Results>)
    ensures
        opt_counts(r) == checked_total(stats@),
{
    stats.par_iter().map(|s| Some(*s)).reduce(|| Some(Results::new()), Results::combine_checked)
}

/// Sums the line counts of all files. With `threads` above 1 the sum is
/// computed by rayon's worker pool, else in order in this thread; the result
/// is the same either way. `None` where a total does not fit in `usize`.
pub fn count_lines(stats: &Vec<Results>, threads: usize) -> (r: Option<Results>)
    ensures
        opt_counts(r) == checked_total(stats@),
{
    if threads > 1 {
        return par_total(stats);
    }
    let n = stats.len();
    let mut acc = Results::new();
    for i in 0..n
        invariant
            n == stats@.len(),
            acc@ == total(stats@.take(i as int)),
    {
        let s = stats[i];
        assert(stats@.take(i + 1).drop_last() == stats@.take(i as int));
        if acc.lines_of_code > usize::MAX - s.lines_of_code || acc.empty_lines > usize::MAX
            - s.empty_lines {
            proof {
                lemma_total_append(stats@.take(i + 1), stats@.skip(i + 1));
                assert(stats@.take(i + 1) + stats@.skip(i + 1) == stats@);
            }
            return None;
        }
        acc = acc.combine(s);
    }
    assert(stats@.take(n as int) == stats@);
    Some(acc)
}

/// Relies on rayon's `ParallelIterator::fold` then `reduce` over a slice: the
/// items are cut into runs in their order; each run is folded from
/// `Some(ResultsByExt::new())` with `ResultsByExt::add_checked`, and the
/// partial maps are combined in their order, under some bracketing, with
/// `ResultsByExt::merge_checked`, the identity being inserted where it likes.
/// A fold of a run gives its checked per-extension sums
/// (`lemma_checked_ext_totals_push`), and the merge is associative with that
/// identity (`lemma_merge_checked_associative`,
/// `lemma_merge_checked_identity`), so every split and bracketing yields the
/// sequential result (`lemma_checked_ext_totals_append`).
#[verifier::external_body]
fn par_ext_totals(items: &Vec<(String, Results)>) -> (r: Option<ResultsByExt>)
    ensures
        r matches Some(m) ==> m.wf(),
        opt_ext_view(r) == checked_ext_totals(items@),
{
    items.par_iter().fold(|| Some(ResultsByExt::new()), ResultsByExt::add_checked).reduce(
        || Some(ResultsByExt::new()),
        ResultsByExt::merge_checked,
    )
}

/// Sums the line counts of all files per extension; each item is a file's
/// extension and its counts. With `threads` above 1 the sums are computed by
/// rayon's worker pool, else in order in this thread; the result is the same
/// either way. `None` where a sum does not fit in `usize`.
pub fn count_lines_by_ext(items: &Vec<(String, Results)>, threads: usize) -> (r: Option<
    ResultsByExt,
>)
    ensures
        r matches Some(m) ==> m.wf(),
        opt_ext_view(r) == checked_ext_totals(items@),
{
    if threads > 1 {
        return par_ext_totals(items);
    }
    let n = items.len();
    let mut acc = ResultsByExt::new();
    for i in 0..n
        invariant
            n == items@.len(),
            acc.wf(),
            acc@ == ext_totals(items@.take(i as int)),
    {
        let item = &items[i];
        assert(items@.take(i + 1).drop_last() == items@.take(i as int));
        if !acc.add(&item.0, item.1) {
            proof {
                lemma_checked_ext_totals_append(items@.take(i + 1), items@.skip(i + 1));
                assert(items@.take(i + 1) + items@.skip(i + 1) == items@);
            }
            return None;
        }
    }
    assert(items@.take(n as int) == items@);
    proof {
        acc.lemma_view_of_entries();
    }
    Some(acc)
}

} // verus!

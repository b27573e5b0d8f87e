//! Line counts and their sums.

use vstd::prelude::*;

verus! {

/// Line counts as mathematical values: non-empty lines first, empty lines second.
pub type Counts = (nat, nat);

/// Number of non-empty and of empty lines, in one file or summed over several.
#[derive(Clone, Copy, Debug, PartialEq, Eq, Structural)]
pub struct Results {
    pub lines_of_code: usize,
    pub empty_lines: usize,
}

impl View for Results {
    type V = Counts;

    open spec fn view(&self) -> Counts {
        (self.lines_of_code as nat, self.empty_lines as nat)
    }
}

/// The sum of two counts, field by field.
pub open spec fn add_counts(a: Counts, b: Counts) -> Counts {
    (a.0 + b.0, a.1 + b.1)
}

/// Whether both fields of a count can be held by `Results`.
pub open spec fn fits(c: Counts) -> bool {
    c.0 <= usize::MAX && c.1 <= usize::MAX
}

/// The counts of a sequence of results summed, starting from zero.
pub open spec fn total(s: Seq<Results>) -> Counts
    decreases s.len(),
{
    if s.len() == 0 {
        (0, 0)
    } else {
        add_counts(total(s.drop_last()), s.last()@)
    }
}

/// The sum of a sequence of results, or `None` where it does not fit.
pub open spec fn checked_total(s: Seq<Results>) -> Option<Counts> {
    if fits(total(s)) {
        Some(total(s))
    } else {
        None
    }
}

/// Combination of two partial sums that may each have overflowed already.
pub open spec fn combine_checked(a: Option<Counts>, b: Option<Counts>) -> Option<Counts> {
    match (a, b) {
        (Some(x), Some(y)) => if fits(add_counts(x, y)) {
            Some(add_counts(x, y))
        } else {
            None
        },
        _ => None,
    }
}

/// The view of an optional result.
pub open spec fn opt_counts(o: Option<Results>) -> Option<Counts> {
    match o {
        Some(r) => Some(r@),
        None => None,
    }
}

impl Results {
    /// Zero lines of each kind: the identity of `combine`.
    pub fn new() -> (r: Results)
        ensures
            r@ == (0nat, 0nat),
    {
        Results { lines_of_code: 0, empty_lines: 0 }
    }

    /// The field-by-field sum of two results.
    pub fn combine(self, other: Results) -> (r: Results)
        requires
            fits(add_counts(self@, other@)),
        ensures
            r@ == add_counts(self@, other@),
    {
        Results {
            lines_of_code: self.lines_of_code + other.lines_of_code,
            empty_lines: self.empty_lines + other.empty_lines,
        }
    }

    /// The field-by-field sum of two results, or `None` where either is
    /// `None` or the sum does not fit.
    pub fn combine_checked(a: Option<Results>, b: Option<Results>) -> (r: Option<Results>)
        ensures
            opt_counts(r) == combine_checked(opt_counts(a), opt_counts(b)),
    {
        match (a, b) {
            (Some(x), Some(y)) => {
                if x.lines_of_code <= usize::MAX - y.lines_of_code && x.empty_lines
                    <= usize::MAX - y.empty_lines {
                    Some(x.combine(y))
                } else {
                    None
                }
            },
            _ => None,
        }
    }
}

/// Summing a sequence split in two parts is summing each part, then adding
/// the two sums: the grouping of the results does not change the total.
pub proof fn lemma_total_append(a: Seq<Results>, b: Seq<Results>)
    ensures
        total(a + b) == add_counts(total(a), total(b)),
    decreases b.len(),
{
    if b.len() == 0 {
        assert(a + b == a);
    } else {
        assert((a + b).drop_last() == a + b.drop_last());
        lemma_total_append(a, b.drop_last());
    }
}

/// The checked sum of a sequence split in two parts is the checked
/// combination of the checked sums of the parts: overflow anywhere is
/// overflow of the whole, and otherwise the parts add up to the whole.
pub proof fn lemma_checked_total_append(a: Seq<Results>, b: Seq<Results>)
    ensures
        checked_total(a + b) == combine_checked(checked_total(a), checked_total(b)),
{
    lemma_total_append(a, b);
}

/// Two groups of results give the same checked sum in either order: the
/// order in which the files are split and handled does not matter.
pub proof fn lemma_checked_total_swap(a: Seq<Results>, b: Seq<Results>)
    ensures
        checked_total(a + b) == checked_total(b + a),
{
    lemma_checked_total_append(a, b);
    lemma_checked_total_append(b, a);
    lemma_combine_checked_commutative(checked_total(a), checked_total(b));
}

/// Adding one result to a checked sum extends it by that result.
pub proof fn lemma_checked_total_push(s: Seq<Results>, x: Results)
    ensures
        checked_total(s.push(x)) == combine_checked(checked_total(s), Some(x@)),
{
    assert(s.push(x).drop_last() == s);
}

/// `Some` of zero is the identity of the checked combination, on both sides.
pub proof fn lemma_combine_checked_identity(a: Option<Counts>)
    requires
        a matches Some(x) ==> fits(x),
    ensures
        combine_checked(Some((0nat, 0nat)), a) == a,
        combine_checked(a, Some((0nat, 0nat))) == a,
{
}

/// The checked combination is commutative.
pub proof fn lemma_combine_checked_commutative(a: Option<Counts>, b: Option<Counts>)
    ensures
        combine_checked(a, b) == combine_checked(b, a),
{
}

/// The checked combination is associative.
pub proof fn lemma_combine_checked_associative(
    a: Option<Counts>,
    b: Option<Counts>,
    c: Option<Counts>,
)
    ensures
        combine_checked(combine_checked(a, b), c) == combine_checked(a, combine_checked(b, c)),
{
}

} // verus!

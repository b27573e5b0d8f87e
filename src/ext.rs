//! File extensions, and line counts grouped by them.

use crate::stats::{add_counts, fits, total, Counts, Results};
use vstd::prelude::*;
use vstd::string::*;

verus! {

/// The position of the last `.` in a file name, or -1 where it has none.
pub open spec fn last_dot(name: Seq<char>) -> int
    decreases name.len(),
{
    if name.len() == 0 {
        -1
    } else if name.last() == '.' {
        name.len() - 1
    } else {
        last_dot(name.drop_last())
    }
}

proof fn lemma_last_dot_bounds(name: Seq<char>)
    ensures
        -1 <= last_dot(name) < name.len(),
        last_dot(name) >= 0 ==> name[last_dot(name)] == '.',
    decreases name.len(),
{
    if name.len() > 0 && name.last() != '.' {
        lemma_last_dot_bounds(name.drop_last());
    }
}

/// The extension of a file name: what follows its last `.`, or nothing where
/// the name has no `.` at all.
pub open spec fn ext_of(name: Seq<char>) -> Seq<char> {
    if last_dot(name) < 0 {
        Seq::empty()
    } else {
        name.subrange(last_dot(name) + 1, name.len() as int)
    }
}

/// The extension of a file name, as `ext_of` states it; the empty string
/// stands for a name without extension.
pub fn get_ext(name: &str) -> (r: String)
    ensures
        r@ == ext_of(name@),
{
    let n = name.unicode_len();
    let mut found = false;
    let mut pos: usize = 0;
    let mut i: usize = 0;
    for c in it: name.chars()
        invariant
            it.seq() == name@,
            n == name@.len(),
            i == it.index(),
            found == (last_dot(name@.take(i as int)) >= 0),
            found ==> pos == last_dot(name@.take(i as int)),
    {
        assert(name@.take(i + 1).drop_last() == name@.take(i as int));
        if c == '.' {
            found = true;
            pos = i;
        }
        i = i + 1;
    }
    assert(name@.take(n as int) == name@);
    proof {
        lemma_last_dot_bounds(name@);
    }
    if found {
        name.substring_char(pos + 1, n).to_owned()
    } else {
        String::new()
    }
}

/// Line counts keyed by extension.
pub type ExtCounts = Map<Seq<char>, Counts>;

/// The counts kept under `k`, zero where there are none.
pub open spec fn count_at(m: ExtCounts, k: Seq<char>) -> Counts {
    if m.contains_key(k) {
        m[k]
    } else {
        (0, 0)
    }
}

/// Adds the counts `c` under the key `k`: inserted where `k` is new, summed
/// with what is there otherwise.
pub open spec fn add_at(m: ExtCounts, k: Seq<char>, c: Counts) -> ExtCounts {
    m.insert(k, add_counts(count_at(m, k), c))
}

/// The counts of a list of (extension, counts) pairs, summed per extension.
pub open spec fn ext_totals(items: Seq<(String, Results)>) -> ExtCounts
    decreases items.len(),
{
    if items.len() == 0 {
        Map::empty()
    } else {
        add_at(ext_totals(items.drop_last()), items.last().0@, items.last().1@)
    }
}

/// Two maps of counts merged: every key of either, with the sum of its counts.
pub open spec fn merge_counts(a: ExtCounts, b: ExtCounts) -> ExtCounts {
    Map::new(
        |k: Seq<char>| a.contains_key(k) || b.contains_key(k),
        |k: Seq<char>| add_counts(count_at(a, k), count_at(b, k)),
    )
}

/// Whether every count of the map can be held by `Results`.
pub open spec fn all_fit(m: ExtCounts) -> bool {
    forall|k: Seq<char>| m.contains_key(k) ==> fits(#[trigger] m[k])
}

/// The per-extension sums of a list, or `None` where one does not fit.
pub open spec fn checked_ext_totals(items: Seq<(String, Results)>) -> Option<ExtCounts> {
    if all_fit(ext_totals(items)) {
        Some(ext_totals(items))
    } else {
        None
    }
}

/// One pair added to a partial map that may have overflowed already.
pub open spec fn add_checked(a: Option<ExtCounts>, k: Seq<char>, c: Counts) -> Option<ExtCounts> {
    match a {
        Some(m) => if all_fit(add_at(m, k, c)) {
            Some(add_at(m, k, c))
        } else {
            None
        },
        None => None,
    }
}

/// Two partial maps merged, either of which may have overflowed already.
pub open spec fn merge_checked(a: Option<ExtCounts>, b: Option<ExtCounts>) -> Option<ExtCounts> {
    match (a, b) {
        (Some(x), Some(y)) => if all_fit(merge_counts(x, y)) {
            Some(merge_counts(x, y))
        } else {
            None
        },
        _ => None,
    }
}

/// The map that a list of entries stands for; with unique keys, each entry
/// gives the counts of its key.
pub open spec fn entries_map(es: Seq<(String, Results)>) -> ExtCounts
    decreases es.len(),
{
    if es.len() == 0 {
        Map::empty()
    } else {
        entries_map(es.drop_last()).insert(es.last().0@, es.last().1@)
    }
}

/// No two entries share a key.
pub open spec fn keys_unique(es: Seq<(String, Results)>) -> bool {
    forall|i: int, j: int|
        0 <= i < es.len() && 0 <= j < es.len() && i != j ==> (#[trigger] es[i]).0@ != (
        #[trigger] es[j]).0@
}

/// The sum of the counts of a list of entries.
pub open spec fn entries_total(es: Seq<(String, Results)>) -> Counts
    decreases es.len(),
{
    if es.len() == 0 {
        (0, 0)
    } else {
        add_counts(entries_total(es.drop_last()), es.last().1@)
    }
}

proof fn lemma_entries_map_keys(es: Seq<(String, Results)>, k: Seq<char>)
    ensures
        entries_map(es).contains_key(k) <==> exists|j: int|
            0 <= j < es.len() && (#[trigger] es[j]).0@ == k,
        all_fit(entries_map(es)),
    decreases es.len(),
{
    if es.len() > 0 {
        let p = es.drop_last();
        lemma_entries_map_keys(p, k);
        if exists|j: int| 0 <= j < p.len() && (#[trigger] p[j]).0@ == k {
            let j = choose|j: int| 0 <= j < p.len() && (#[trigger] p[j]).0@ == k;
            assert(es[j] == p[j]);
        }
        if exists|j: int| 0 <= j < es.len() && (#[trigger] es[j]).0@ == k {
            let j = choose|j: int| 0 <= j < es.len() && (#[trigger] es[j]).0@ == k;
            if j < es.len() - 1 {
                assert(p[j] == es[j]);
            }
        }
        assert forall|q: Seq<char>| entries_map(es).contains_key(q) implies fits(
            #[trigger] entries_map(es)[q],
        ) by {
            lemma_entries_map_keys(p, q);
        }
    }
}

proof fn lemma_entries_map_index(es: Seq<(String, Results)>, j: int)
    requires
        keys_unique(es),
        0 <= j < es.len(),
    ensures
        entries_map(es).contains_key(es[j].0@),
        entries_map(es)[es[j].0@] == es[j].1@,
    decreases es.len(),
{
    if j < es.len() - 1 {
        let p = es.drop_last();
        assert(p[j] == es[j]);
        assert(keys_unique(p)) by {
            assert forall|a: int, b: int|
                0 <= a < p.len() && 0 <= b < p.len() && a != b implies (#[trigger] p[a]).0@ != (
            #[trigger] p[b]).0@ by {
                assert(p[a] == es[a] && p[b] == es[b]);
            }
        }
        lemma_entries_map_index(p, j);
        assert(es[j].0@ != es[es.len() - 1].0@);
    }
}

proof fn lemma_keys_unique_drop_last(es: Seq<(String, Results)>)
    requires
        keys_unique(es),
        es.len() > 0,
    ensures
        keys_unique(es.drop_last()),
{
    let p = es.drop_last();
    assert forall|a: int, b: int|
        0 <= a < p.len() && 0 <= b < p.len() && a != b implies (#[trigger] p[a]).0@ != (
    #[trigger] p[b]).0@ by {
        assert(p[a] == es[a] && p[b] == es[b]);
    }
}

/// Grouping a list split in two parts is grouping each part, then merging
/// the two maps: per extension, the grouping of the work does not change the
/// sums.
pub proof fn lemma_ext_totals_append(a: Seq<(String, Results)>, b: Seq<(String, Results)>)
    ensures
        ext_totals(a + b) == merge_counts(ext_totals(a), ext_totals(b)),
    decreases b.len(),
{
    if b.len() == 0 {
        assert(a + b == a);
        assert(ext_totals(a + b) =~= merge_counts(ext_totals(a), ext_totals(b)));
    } else {
        assert((a + b).drop_last() == a + b.drop_last());
        lemma_ext_totals_append(a, b.drop_last());
        assert(ext_totals(a + b) =~= merge_counts(ext_totals(a), ext_totals(b)));
    }
}

proof fn lemma_merge_counts_grows(a: ExtCounts, b: ExtCounts, k: Seq<char>)
    requires
        a.contains_key(k),
        all_fit(merge_counts(a, b)),
    ensures
        fits(a[k]),
{
    assert(merge_counts(a, b).contains_key(k));
    assert(fits(merge_counts(a, b)[k]));
}

/// The checked per-extension sums of a list split in two parts are the
/// checked merge of those of the parts.
pub proof fn lemma_checked_ext_totals_append(a: Seq<(String, Results)>, b: Seq<(String, Results)>)
    ensures
        checked_ext_totals(a + b) == merge_checked(
            checked_ext_totals(a),
            checked_ext_totals(b),
        ),
{
    lemma_ext_totals_append(a, b);
    let (ta, tb) = (ext_totals(a), ext_totals(b));
    if all_fit(merge_counts(ta, tb)) {
        assert forall|k: Seq<char>| ta.contains_key(k) implies fits(#[trigger] ta[k]) by {
            lemma_merge_counts_grows(ta, tb, k);
        }
        assert forall|k: Seq<char>| tb.contains_key(k) implies fits(#[trigger] tb[k]) by {
            assert(merge_counts(ta, tb).contains_key(k));
            assert(fits(merge_counts(ta, tb)[k]));
        }
    }
}

/// Two groups of pairs give the same checked per-extension sums in either
/// order: the order in which the files are split and handled does not matter.
pub proof fn lemma_checked_ext_totals_swap(a: Seq<(String, Results)>, b: Seq<(String, Results)>)
    ensures
        checked_ext_totals(a + b) == checked_ext_totals(b + a),
{
    lemma_checked_ext_totals_append(a, b);
    lemma_checked_ext_totals_append(b, a);
    lemma_merge_checked_commutative(checked_ext_totals(a), checked_ext_totals(b));
}

/// Adding one pair to the checked per-extension sums of a list extends them
/// by that pair.
pub proof fn lemma_checked_ext_totals_push(s: Seq<(String, Results)>, x: (String, Results))
    ensures
        checked_ext_totals(s.push(x)) == add_checked(checked_ext_totals(s), x.0@, x.1@),
{
    assert(s.push(x).drop_last() == s);
    let t = ext_totals(s);
    if all_fit(add_at(t, x.0@, x.1@)) {
        assert forall|k: Seq<char>| t.contains_key(k) implies fits(#[trigger] t[k]) by {
            assert(add_at(t, x.0@, x.1@).contains_key(k));
            assert(fits(add_at(t, x.0@, x.1@)[k]));
        }
    }
}

/// `Some` of the empty map is the identity of the checked merge.
pub proof fn lemma_merge_checked_identity(a: Option<ExtCounts>)
    requires
        a matches Some(m) ==> all_fit(m),
    ensures
        merge_checked(Some(Map::empty()), a) == a,
        merge_checked(a, Some(Map::empty())) == a,
{
    if let Some(m) = a {
        assert(merge_counts(Map::empty(), m) =~= m);
        assert(merge_counts(m, Map::empty()) =~= m);
    }
}

/// The checked merge is commutative.
pub proof fn lemma_merge_checked_commutative(a: Option<ExtCounts>, b: Option<ExtCounts>)
    ensures
        merge_checked(a, b) == merge_checked(b, a),
{
    if let (Some(x), Some(y)) = (a, b) {
        assert(merge_counts(x, y) =~= merge_counts(y, x));
    }
}

/// The checked merge is associative.
pub proof fn lemma_merge_checked_associative(
    a: Option<ExtCounts>,
    b: Option<ExtCounts>,
    c: Option<ExtCounts>,
)
    ensures
        merge_checked(merge_checked(a, b), c) == merge_checked(a, merge_checked(b, c)),
{
    if let (Some(x), Some(y), Some(z)) = (a, b, c) {
        let xy = merge_counts(x, y);
        let yz = merge_counts(y, z);
        assert(merge_counts(xy, z) =~= merge_counts(x, yz));
        let all = merge_counts(xy, z);
        if all_fit(all) {
            assert forall|k: Seq<char>| xy.contains_key(k) implies fits(#[trigger] xy[k]) by {
                assert(all.contains_key(k));
                assert(fits(all[k]));
            }
            assert forall|k: Seq<char>| yz.contains_key(k) implies fits(#[trigger] yz[k]) by {
                assert(all.contains_key(k));
                assert(fits(all[k]));
            }
        }
    }
}

proof fn lemma_entries_map_update(es: Seq<(String, Results)>, j: int, v: (String, Results))
    requires
        keys_unique(es),
        0 <= j < es.len(),
        v.0@ == es[j].0@,
    ensures
        entries_map(es.update(j, v)) == entries_map(es).insert(v.0@, v.1@),
        keys_unique(es.update(j, v)),
    decreases es.len(),
{
    let u = es.update(j, v);
    assert forall|a: int, b: int|
        0 <= a < u.len() && 0 <= b < u.len() && a != b implies (#[trigger] u[a]).0@ != (
    #[trigger] u[b]).0@ by {
        assert(es[a].0@ != es[b].0@);
    }
    if j == es.len() - 1 {
        assert(u.drop_last() == es.drop_last());
        assert(entries_map(u) =~= entries_map(es).insert(v.0@, v.1@));
    } else {
        assert(u.drop_last() == es.drop_last().update(j, v));
        lemma_keys_unique_drop_last(es);
        lemma_entries_map_update(es.drop_last(), j, v);
        assert(es[j].0@ != es[es.len() - 1].0@);
        assert(entries_map(u) =~= entries_map(es).insert(v.0@, v.1@));
    }
}

proof fn lemma_entries_push_new(es: Seq<(String, Results)>, v: (String, Results))
    requires
        keys_unique(es),
        !entries_map(es).contains_key(v.0@),
    ensures
        keys_unique(es.push(v)),
        entries_map(es.push(v)) == entries_map(es).insert(v.0@, v.1@),
{
    let u = es.push(v);
    assert(u.drop_last() == es);
    assert forall|a: int, b: int|
        0 <= a < u.len() && 0 <= b < u.len() && a != b implies (#[trigger] u[a]).0@ != (
    #[trigger] u[b]).0@ by {
        if a == es.len() {
            lemma_entries_map_keys(es, v.0@);
            assert(es[b] == u[b]);
        } else if b == es.len() {
            lemma_entries_map_keys(es, v.0@);
            assert(es[a] == u[a]);
        } else {
            assert(es[a] == u[a] && es[b] == u[b]);
        }
    }
}

proof fn lemma_entries_update_total(es: Seq<(String, Results)>, j: int, v: (String, Results))
    requires
        0 <= j < es.len(),
    ensures
        add_counts(entries_total(es.update(j, v)), es[j].1@) == add_counts(
            entries_total(es),
            v.1@,
        ),
    decreases es.len(),
{
    let u = es.update(j, v);
    if j == es.len() - 1 {
        assert(u.drop_last() == es.drop_last());
    } else {
        assert(u.drop_last() == es.drop_last().update(j, v));
        lemma_entries_update_total(es.drop_last(), j, v);
    }
}

proof fn lemma_entries_remove(es: Seq<(String, Results)>, j: int)
    requires
        keys_unique(es),
        0 <= j < es.len(),
    ensures
        keys_unique(es.remove(j)),
        entries_map(es.remove(j)) == entries_map(es).remove(es[j].0@),
        add_counts(entries_total(es.remove(j)), es[j].1@) == entries_total(es),
    decreases es.len(),
{
    let u = es.remove(j);
    let k = es[j].0@;
    assert forall|a: int, b: int|
        0 <= a < u.len() && 0 <= b < u.len() && a != b implies (#[trigger] u[a]).0@ != (
    #[trigger] u[b]).0@ by {
        let a1 = if a < j { a } else { a + 1 };
        let b1 = if b < j { b } else { b + 1 };
        assert(u[a] == es[a1] && u[b] == es[b1]);
    }
    lemma_keys_unique_drop_last(es);
    if j == es.len() - 1 {
        assert(u == es.drop_last());
        lemma_entries_map_keys(es.drop_last(), k);
        assert(!entries_map(es.drop_last()).contains_key(k)) by {
            if entries_map(es.drop_last()).contains_key(k) {
                let i = choose|i: int|
                    0 <= i < es.drop_last().len() && (#[trigger] es.drop_last()[i]).0@ == k;
                assert(es[i] == es.drop_last()[i]);
            }
        }
        assert(entries_map(u) =~= entries_map(es).remove(k));
    } else {
        assert(u.drop_last() == es.drop_last().remove(j));
        assert(es.drop_last()[j] == es[j]);
        lemma_entries_remove(es.drop_last(), j);
        assert(es[j].0@ != es[es.len() - 1].0@);
        assert(entries_map(u) =~= entries_map(es).remove(k));
    }
}

/// Any listing of the per-extension sums of a list of files, one entry per
/// extension, adds up to the sum of all the files' counts: each file is
/// counted under exactly one extension.
pub proof fn lemma_ext_partition_complete(
    items: Seq<(String, Results)>,
    stats: Seq<Results>,
    es: Seq<(String, Results)>,
)
    requires
        stats.len() == items.len(),
        forall|i: int| 0 <= i < items.len() ==> stats[i] == (#[trigger] items[i]).1,
        keys_unique(es),
        entries_map(es) == ext_totals(items),
    ensures
        entries_total(es) == total(stats),
    decreases items.len(),
{
    if items.len() == 0 {
        if es.len() > 0 {
            lemma_entries_map_index(es, 0);
        }
    } else {
        let p = items.drop_last();
        let ps = stats.drop_last();
        let x = items.last();
        let k = x.0@;
        let prev = ext_totals(p);
        assert forall|i: int| 0 <= i < p.len() implies ps[i] == (#[trigger] p[i]).1 by {
            assert(ps[i] == stats[i] && p[i] == items[i]);
        }
        assert(stats.last() == x.1);
        assert(entries_map(es).contains_key(k));
        lemma_entries_map_keys(es, k);
        let j = choose|j: int| 0 <= j < es.len() && (#[trigger] es[j]).0@ == k;
        lemma_entries_map_index(es, j);
        if prev.contains_key(k) {
            let old_c = prev[k];
            let v = (es[j].0, Results { lines_of_code: old_c.0 as usize, empty_lines: old_c.1 as usize });
            lemma_entries_map_update(es, j, v);
            assert(entries_map(es.update(j, v)) =~= prev);
            lemma_ext_partition_complete(p, ps, es.update(j, v));
            lemma_entries_update_total(es, j, v);
        } else {
            lemma_entries_remove(es, j);
            assert(entries_map(es.remove(j)) =~= prev);
            lemma_ext_partition_complete(p, ps, es.remove(j));
        }
    }
}

/// Line counts per file extension, one entry for each extension seen.
pub struct ResultsByExt {
    entries: Vec<(String, Results)>,
}

impl View for ResultsByExt {
    type V = ExtCounts;

    /// The counts per extension that the entries stand for.
    closed spec fn view(&self) -> ExtCounts {
        entries_map(self.entries@)
    }
}

/// The view of an optional map of counts.
pub open spec fn opt_ext_view(o: Option<ResultsByExt>) -> Option<ExtCounts> {
    match o {
        Some(m) => Some(m@),
        None => None,
    }
}

impl ResultsByExt {
    /// The entries, in no particular order.
    pub closed spec fn entry_list(&self) -> Seq<(String, Results)> {
        self.entries@
    }

    /// Each extension has one entry.
    pub closed spec fn wf(&self) -> bool {
        keys_unique(self.entries@)
    }

    /// The map is the one that the entries stand for, each extension has one
    /// entry, and every count is one that `Results` holds.
    pub proof fn lemma_view_of_entries(&self)
        ensures
            self@ == entries_map(self.entry_list()),
            self.wf() == keys_unique(self.entry_list()),
            all_fit(self@),
    {
        lemma_entries_map_keys(self.entries@, Seq::empty());
    }

    /// No extension at all.
    pub fn new() -> (r: ResultsByExt)
        ensures
            r.wf(),
            r@ == Map::<Seq<char>, Counts>::empty(),
    {
        ResultsByExt { entries: Vec::new() }
    }

    /// The entries, one for each extension, in no particular order.
    pub fn entries(&self) -> (r: &Vec<(String, Results)>)
        ensures
            r@ == self.entry_list(),
    {
        &self.entries
    }

    fn find(&self, ext: &String) -> (r: Option<usize>)
        ensures
            r matches Some(j) ==> j < self.entries@.len() && self.entries@[j as int].0@ == ext@,
            r is None ==> !self@.contains_key(ext@),
    {
        let n = self.entries.len();
        for i in 0..n
            invariant
                n == self.entries@.len(),
                forall|j: int| 0 <= j < i ==> (#[trigger] self.entries@[j]).0@ != ext@,
        {
            if self.entries[i].0 == *ext {
                return Some(i);
            }
        }
        proof {
            lemma_entries_map_keys(self.entries@, ext@);
        }
        None
    }

    /// The counts of the extension `ext`, if it was seen.
    pub fn get(&self, ext: &str) -> (r: Option<Results>)
        requires
            self.wf(),
        ensures
            r is Some <==> self@.contains_key(ext@),
            r matches Some(c) ==> c@ == self@[ext@],
    {
        let key = ext.to_owned();
        match self.find(&key) {
            Some(j) => {
                proof {
                    lemma_entries_map_index(self.entries@, j as int);
                }
                Some(self.entries[j].1)
            },
            None => None,
        }
    }

    /// Adds the counts `stat` under the extension `ext`, where the sum fits;
    /// returns whether it did, and leaves the map as it was where not.
    pub fn add(&mut self, ext: &String, stat: Results) -> (r: bool)
        requires
            old(self).wf(),
        ensures
            final(self).wf(),
            r == all_fit(add_at(old(self)@, ext@, stat@)),
            r ==> final(self)@ == add_at(old(self)@, ext@, stat@),
            !r ==> *final(self) == *old(self),
    {
        proof {
            lemma_entries_map_keys(self.entries@, ext@);
        }
        let ghost m = self@;
        match self.find(ext) {
            Some(j) => {
                proof {
                    lemma_entries_map_index(self.entries@, j as int);
                }
                let cur = self.entries[j].1;
                if cur.lines_of_code > usize::MAX - stat.lines_of_code || cur.empty_lines
                    > usize::MAX - stat.empty_lines {
                    assert(!fits(add_at(m, ext@, stat@)[ext@]));
                    return false;
                }
                let v = (ext.clone(), cur.combine(stat));
                proof {
                    lemma_entries_map_update(self.entries@, j as int, v);
                }
                self.entries.set(j, v);
            },
            None => {
                let v = (ext.clone(), stat);
                proof {
                    lemma_entries_push_new(self.entries@, v);
                }
                self.entries.push(v);
            },
        }
        proof {
            lemma_entries_map_keys(self.entries@, ext@);
            assert(self@ =~= add_at(m, ext@, stat@));
        }
        true
    }

    /// One (extension, counts) pair added to a partial map; `None` where the
    /// map had overflowed already or the new sum does not fit.
    pub fn add_checked(acc: Option<ResultsByExt>, item: &(String, Results)) -> (r: Option<
        ResultsByExt,
    >)
        requires
            acc matches Some(m) ==> m.wf(),
        ensures
            r matches Some(m) ==> m.wf(),
            opt_ext_view(r) == add_checked(opt_ext_view(acc), item.0@, item.1@),
    {
        match acc {
            Some(mut m) => {
                if m.add(&item.0, item.1) {
                    Some(m)
                } else {
                    None
                }
            },
            None => None,
        }
    }

    /// Two partial maps merged; `None` where either had overflowed already or
    /// a merged sum does not fit.
    pub fn merge_checked(a: Option<ResultsByExt>, b: Option<ResultsByExt>) -> (r: Option<
        ResultsByExt,
    >)
        requires
            a matches Some(m) ==> m.wf(),
            b matches Some(m) ==> m.wf(),
        ensures
            r matches Some(m) ==> m.wf(),
            opt_ext_view(r) == merge_checked(opt_ext_view(a), opt_ext_view(b)),
    {
        if a.is_none() || b.is_none() {
            return None;
        }
        match (a, b) {
            (Some(x0), Some(y)) => {
                let ghost a0 = x0@;
                let ghost ys = y.entries@;
                let ghost va = opt_ext_view(a);
                let ghost vb = opt_ext_view(b);
                assert(va == Some(a0) && vb == Some(entries_map(ys)));
                let mut x = x0;
                let n = y.entries.len();
                for i in 0..n
                    invariant
                        n == ys.len(),
                        ys == y.entries@,
                        keys_unique(ys),
                        va == Some(a0) && vb == Some(entries_map(ys)),
                        va == opt_ext_view(a) && vb == opt_ext_view(b),
                        x.wf(),
                        x@ == merge_counts(a0, entries_map(ys.take(i as int))),
                {
                    let ghost t = entries_map(ys.take(i as int));
                    let ghost k = ys[i as int].0@;
                    let ghost c = ys[i as int].1@;
                    proof {
                        assert(ys.take(i + 1).drop_last() == ys.take(i as int));
                        lemma_entries_map_keys(ys.take(i as int), k);
                        assert(!t.contains_key(k)) by {
                            if t.contains_key(k) {
                                let j = choose|j: int|
                                    0 <= j < i && (#[trigger] ys.take(i as int)[j]).0@ == k;
                                assert(ys[j] == ys.take(i as int)[j]);
                            }
                        }
                        assert(merge_counts(a0, entries_map(ys.take(i + 1))) =~= add_at(
                            x@,
                            k,
                            c,
                        ));
                    }
                    let e = &y.entries[i];
                    if !x.add(&e.0, e.1) {
                        proof {
                            let t1 = entries_map(ys.take(i + 1));
                            let whole = merge_counts(a0, entries_map(ys));
                            lemma_entries_map_keys(x.entries@, k);
                            lemma_entries_map_index(ys, i as int);
                            assert(t1 == t.insert(k, c));
                            assert(whole.contains_key(k));
                            assert(whole[k] == add_at(x@, k, c)[k]);
                            if all_fit(whole) {
                                assert(fits(whole[k]));
                                assert forall|q: Seq<char>| #[trigger]
                                    add_at(x@, k, c).contains_key(q) implies fits(
                                    add_at(x@, k, c)[q],
                                ) by {
                                    if q != k {
                                        assert(x@.contains_key(q));
                                        assert(fits(x@[q]));
                                    }
                                }
                            }
                            assert(!all_fit(whole));
                        }
                        return None;
                    }
                }
                proof {
                    assert(ys.take(n as int) == ys);
                    lemma_entries_map_keys(x.entries@, Seq::empty());
                }
                Some(x)
            },
            _ => None,
        }
    }
}

} // verus!
//! Classification of the lines of one file.

use crate::stats::{Counts, Results};
use vstd::prelude::*;

verus! {

/// A character that Unicode gives the `White_Space` property; these are the
/// characters that `str::trim` removes from both ends of a line.
pub open spec fn is_space(c: char) -> bool {
    ||| c == '\t' || c == '\n' || c == '\x0B' || c == '\x0C' || c == '\r' || c == ' '
    ||| c == '\u{85}' || c == '\u{A0}' || c == '\u{1680}'
    ||| ('\u{2000}' <= c && c <= '\u{200A}')
    ||| c == '\u{2028}' || c == '\u{2029}' || c == '\u{202F}' || c == '\u{205F}'
    ||| c == '\u{3000}'
}

/// A line is empty when nothing is left of it once the white space at both of
/// its ends is trimmed away, that is, when it holds white space alone.
pub open spec fn is_blank(line: Seq<char>) -> bool {
    forall|i: int| 0 <= i < line.len() ==> is_space(#[trigger] line[i])
}

/// Whether `c` is a white-space character.
pub fn is_space_char(c: char) -> (r: bool)
    ensures
        r == is_space(c),
{
    match c {
        '\t' | '\n' | '\x0B' | '\x0C' | '\r' | ' ' => true,
        '\u{85}' | '\u{A0}' | '\u{1680}' => true,
        '\u{2000}'..='\u{200A}' => true,
        '\u{2028}' | '\u{2029}' | '\u{202F}' | '\u{205F}' | '\u{3000}' => true,
        _ => false,
    }
}

/// Whether a line counts as empty: it is empty or holds white space alone.
pub fn is_empty_line(line: &str) -> (r: bool)
    ensures
        r == is_blank(line@),
{
    let mut blank = true;
    for c in it: line.chars()
        invariant
            it.seq() == line@,
            blank == (forall|i: int| 0 <= i < it.index() ==> is_space(#[trigger] line@[i])),
    {
        if !is_space_char(c) {
            blank = false;
        }
    }
    blank
}

/// The counts of the lines of a file read in full: each line read is empty or
/// non-empty; a line whose read failed (`None`) counts as neither.
pub open spec fn tally(lines: Seq<Option<String>>) -> Counts
    decreases lines.len(),
{
    if lines.len() == 0 {
        (0, 0)
    } else {
        let prev = tally(lines.drop_last());
        match lines.last() {
            Some(l) => if is_blank(l@) {
                (prev.0, prev.1 + 1)
            } else {
                (prev.0 + 1, prev.1)
            },
            None => prev,
        }
    }
}

/// Whether the read of some line of the file failed.
pub open spec fn read_failed(lines: Seq<Option<String>>) -> bool {
    exists|i: int| 0 <= i < lines.len() && (#[trigger] lines[i]) is None
}

/// What a file contributes: nothing at all where any line could not be read,
/// else the counts of its empty and non-empty lines.
pub open spec fn file_counts(lines: Seq<Option<String>>) -> Counts {
    if read_failed(lines) {
        (0, 0)
    } else {
        tally(lines)
    }
}

/// Counts the empty and non-empty lines of a file, given the outcome of
/// reading each of its lines in order (`None` for a line that could not be
/// read). A failed read discards the whole file: the result is then zero.
pub fn count_lines_in_file(lines: &Vec<Option<String>>) -> (r: Results)
    ensures
        r@ == file_counts(lines@),
{
    let mut res = Results::new();
    let n = lines.len();
    for i in 0..n
        invariant
            n == lines@.len(),
            res@ == tally(lines@.take(i as int)),
            res.lines_of_code + res.empty_lines == i,
            forall|j: int| 0 <= j < i ==> (#[trigger] lines@[j]) is Some,
    {
        assert(lines@.take(i + 1).drop_last() == lines@.take(i as int));
        match &lines[i] {
            None => {
                assert(read_failed(lines@)) by {
                    assert(lines@[i as int] is None);
                }
                return Results::new();
            },
            Some(line) => {
                if is_empty_line(line.as_str()) {
                    res.empty_lines = res.empty_lines + 1;
                } else {
                    res.lines_of_code = res.lines_of_code + 1;
                }
            },
        }
    }
    assert(lines@.take(n as int) == lines@);
    res
}

/// Two reads of a file that gave the same text line by line, and failed at
/// the same lines.
pub open spec fn same_lines(a: Seq<Option<String>>, b: Seq<Option<String>>) -> bool {
    &&& a.len() == b.len()
    &&& forall|i: int|
        0 <= i < a.len() ==> match (#[trigger] a[i], b[i]) {
            (Some(x), Some(y)) => x@ == y@,
            (None, None) => true,
            _ => false,
        }
}

/// Classifying the same unchanged file twice gives the same counts: they
/// depend on the text of its lines alone.
pub proof fn lemma_classify_deterministic(a: Seq<Option<String>>, b: Seq<Option<String>>)
    requires
        same_lines(a, b),
    ensures
        file_counts(a) == file_counts(b),
{
    lemma_tally_same(a, b);
    if read_failed(a) {
        let i = choose|i: int| 0 <= i < a.len() && (#[trigger] a[i]) is None;
        assert(b[i] is None);
    }
    if read_failed(b) {
        let i = choose|i: int| 0 <= i < b.len() && (#[trigger] b[i]) is None;
        assert(a[i] is None);
    }
}

proof fn lemma_tally_same(a: Seq<Option<String>>, b: Seq<Option<String>>)
    requires
        same_lines(a, b),
    ensures
        tally(a) == tally(b),
    decreases a.len(),
{
    if a.len() > 0 {
        let (pa, pb) = (a.drop_last(), b.drop_last());
        assert forall|i: int| 0 <= i < pa.len() implies match (#[trigger] pa[i], pb[i]) {
            (Some(x), Some(y)) => x@ == y@,
            (None, None) => true,
            _ => false,
        } by {
            assert(pa[i] == a[i] && pb[i] == b[i]);
        }
        lemma_tally_same(pa, pb);
        assert(match (a[a.len() - 1], b[a.len() - 1]) {
            (Some(x), Some(y)) => x@ == y@,
            (None, None) => true,
            _ => false,
        });
    }
}

} // verus!

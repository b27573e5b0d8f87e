use line_counter::classify::{count_lines_in_file, is_empty_line, is_space_char};
use line_counter::count::{count_lines, count_lines_by_ext};
use line_counter::ext::{get_ext, ResultsByExt};
use line_counter::stats::Results;

fn lines(text: &[&str]) -> Vec<Option<String>> {
    text.iter().map(|l| Some(l.to_string())).collect()
}

fn res(code: usize, empty: usize) -> Results {
    Results { lines_of_code: code, empty_lines: empty }
}

fn item(ext: &str, code: usize, empty: usize) -> (String, Results) {
    (ext.to_string(), res(code, empty))
}

fn entry_sum(m: &ResultsByExt) -> Results {
    let mut acc = Results::new();
    for (_, r) in m.entries() {
        acc.lines_of_code += r.lines_of_code;
        acc.empty_lines += r.empty_lines;
    }
    acc
}

#[test]
fn whitespace_only_lines_are_empty() {
    assert!(is_empty_line(""));
    assert!(is_empty_line("   "));
    assert!(is_empty_line("\t \t"));
    assert!(is_empty_line("\u{3000}\u{A0}"));
    assert!(!is_empty_line("x"));
    assert!(!is_empty_line("  }  "));
    assert!(!is_empty_line("\t//"));
}

#[test]
fn space_characters() {
    assert!(is_space_char(' '));
    assert!(is_space_char('\r'));
    assert!(is_space_char('\u{2009}'));
    assert!(!is_space_char('a'));
    assert!(!is_space_char('\u{200B}'));
}

#[test]
fn file_lines_are_classified() {
    assert_eq!(count_lines_in_file(&lines(&["hello", "", "  "])), res(1, 2));
    assert_eq!(count_lines_in_file(&lines(&["x"])), res(1, 0));
    assert_eq!(count_lines_in_file(&lines(&[])), res(0, 0));
}

#[test]
fn failed_read_discards_the_file() {
    let mut ls = lines(&["fn main() {", "", "}"]);
    ls.push(None);
    assert_eq!(count_lines_in_file(&ls), res(0, 0));
    let mut early = vec![None];
    early.extend(lines(&["a", "b"]));
    assert_eq!(count_lines_in_file(&early), res(0, 0));
}

#[test]
fn classifying_twice_gives_the_same_counts() {
    let ls = lines(&["a", " ", "", "b", "c"]);
    let first = count_lines_in_file(&ls);
    let second = count_lines_in_file(&ls.clone());
    assert_eq!(first, second);
    assert_eq!(first, res(3, 2));
}

#[test]
fn extensions() {
    assert_eq!(get_ext("a.txt"), "txt");
    assert_eq!(get_ext("archive.tar.gz"), "gz");
    assert_eq!(get_ext("README"), "");
    assert_eq!(get_ext("trailing."), "");
    assert_eq!(get_ext("Main.RS"), "RS");
    assert_eq!(get_ext(""), "");
    assert_eq!(get_ext("caf\u{e9}.r\u{e9}s"), "r\u{e9}s");
}

#[test]
fn empty_file_list() {
    for t in [1, 2, 8] {
        assert_eq!(count_lines(&vec![], t), Some(res(0, 0)));
        let m = count_lines_by_ext(&vec![], t).unwrap();
        assert_eq!(m.entries().len(), 0);
        assert_eq!(m.get("txt"), None);
    }
}

#[test]
fn two_text_files() {
    let a = count_lines_in_file(&lines(&["hello", "", "  "]));
    let b = count_lines_in_file(&lines(&["x"]));
    for t in [1, 2, 8] {
        assert_eq!(count_lines(&vec![a, b], t), Some(res(2, 2)));
        let items = vec![("txt".to_string(), a), ("txt".to_string(), b)];
        let m = count_lines_by_ext(&items, t).unwrap();
        assert_eq!(m.entries().len(), 1);
        assert_eq!(m.get("txt"), Some(res(2, 2)));
    }
}

#[test]
fn file_without_extension_goes_under_empty_key() {
    let items = vec![(get_ext("README"), res(4, 1)), (get_ext("x.md"), res(2, 0))];
    for t in [1, 2, 8] {
        let m = count_lines_by_ext(&items, t).unwrap();
        assert_eq!(m.get(""), Some(res(4, 1)));
        assert_eq!(m.get("md"), Some(res(2, 0)));
        assert_eq!(m.entries().len(), 2);
    }
}

#[test]
fn thread_count_does_not_change_results() {
    let mut stats = Vec::new();
    let mut items = Vec::new();
    let exts = ["rs", "txt", "", "md", "RS"];
    for i in 0..500usize {
        let r = res(i % 7, (i * 3) % 5);
        stats.push(r);
        items.push((exts[i % exts.len()].to_string(), r));
    }
    let seq = count_lines(&stats, 1).unwrap();
    let seq_ext = count_lines_by_ext(&items, 1).unwrap();
    for t in [2, 8] {
        assert_eq!(count_lines(&stats, t), Some(seq));
        let m = count_lines_by_ext(&items, t).unwrap();
        assert_eq!(m.entries().len(), seq_ext.entries().len());
        for e in exts {
            assert_eq!(m.get(e), seq_ext.get(e));
        }
    }
    let (left, right) = stats.split_at(123);
    let l = count_lines(&left.to_vec(), 2);
    let r = count_lines(&right.to_vec(), 8);
    assert_eq!(Results::combine_checked(l, r), Some(seq));
    assert_eq!(Results::combine_checked(r, l), Some(seq));
}

#[test]
fn extension_sums_add_up_to_the_total() {
    let items = vec![
        item("rs", 10, 2),
        item("txt", 3, 3),
        item("", 1, 0),
        item("rs", 5, 1),
        item("toml", 0, 0),
    ];
    let stats: Vec<Results> = items.iter().map(|i| i.1).collect();
    for t in [1, 2, 8] {
        let total = count_lines(&stats, t).unwrap();
        assert_eq!(total, res(19, 6));
        let m = count_lines_by_ext(&items, t).unwrap();
        assert_eq!(entry_sum(&m), total);
        assert_eq!(m.get("toml"), Some(res(0, 0)));
        assert_eq!(m.get("rs"), Some(res(15, 3)));
    }
}

#[test]
fn overflowing_sums_give_none() {
    let stats = vec![res(usize::MAX, 0), res(1, 0)];
    for t in [1, 2, 8] {
        assert_eq!(count_lines(&stats, t), None);
        let same = vec![item("a", 0, usize::MAX), item("a", 0, 1)];
        assert!(count_lines_by_ext(&same, t).is_none());
        let apart = vec![item("a", 0, usize::MAX), item("b", 0, 1)];
        let m = count_lines_by_ext(&apart, t).unwrap();
        assert_eq!(m.get("a"), Some(res(0, usize::MAX)));
        assert_eq!(m.get("b"), Some(res(0, 1)));
    }
}

#[test]
fn combining_results() {
    assert_eq!(res(1, 2).combine(res(3, 4)), res(4, 6));
    assert_eq!(Results::combine_checked(Some(res(1, 2)), Some(res(0, 0))), Some(res(1, 2)));
    assert_eq!(Results::combine_checked(None, Some(res(0, 0))), None);
    assert_eq!(Results::combine_checked(Some(res(0, usize::MAX)), Some(res(0, 1))), None);
}

#[test]
fn adding_and_merging_per_extension() {
    let mut m = ResultsByExt::new();
    assert!(m.add(&"rs".to_string(), res(1, 1)));
    assert!(m.add(&"rs".to_string(), res(2, 0)));
    assert!(m.add(&"c".to_string(), res(0, 5)));
    assert_eq!(m.get("rs"), Some(res(3, 1)));
    assert!(!m.add(&"c".to_string(), res(0, usize::MAX)));
    assert_eq!(m.get("c"), Some(res(0, 5)));
    assert_eq!(m.entries().len(), 2);

    let a = ResultsByExt::add_checked(Some(ResultsByExt::new()), &item("h", 1, 0));
    let b = ResultsByExt::add_checked(Some(m), &item("h", 2, 2));
    let merged = ResultsByExt::merge_checked(a, b).unwrap();
    assert_eq!(merged.get("h"), Some(res(3, 2)));
    assert_eq!(merged.get("rs"), Some(res(3, 1)));
    assert_eq!(merged.get("c"), Some(res(0, 5)));
    assert!(ResultsByExt::merge_checked(None, Some(ResultsByExt::new())).is_none());
    assert!(ResultsByExt::add_checked(None, &item("h", 1, 0)).is_none());
}

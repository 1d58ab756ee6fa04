use term_wrap::utils::cluster::{Cluster, Segmented};
use term_wrap::utils::measure::{find_run_end, take_run, Kind};
use term_wrap::utils::table::{Cell, Table};
use term_wrap::utils::{checked_prefix, prefix, LinesIterator, PrefixResult, Span};

fn table(widths: &[usize]) -> Table {
    Table {
        cells: widths
            .iter()
            .map(|&width| Cell {
                width,
                blank: false,
            })
            .collect(),
        chars: widths.len(),
    }
}

fn words(text: &str) -> Table {
    Table {
        cells: text
            .chars()
            .map(|c| Cell {
                width: 1,
                blank: c == ' ',
            })
            .collect(),
        chars: text.chars().count(),
    }
}

fn spans(source: Table, width: usize) -> Vec<(usize, usize)> {
    let mut it = LinesIterator::new(source, width);
    it.rest().iter().map(|r| (r.start, r.end)).collect()
}

#[test]
fn table_reads_its_cells() {
    let t = Table {
        cells: vec![
            Cell {
                width: 2,
                blank: false,
            },
            Cell {
                width: 1,
                blank: true,
            },
        ],
        chars: 7,
    };
    assert_eq!(t.reach(), 2);
    assert_eq!(t.count_chars(), 7);
    assert_eq!(
        t.read(0),
        Cluster {
            end: 1,
            width: 2,
            blank: false
        }
    );
    assert_eq!(
        t.read(1),
        Cluster {
            end: 2,
            width: 1,
            blank: true
        }
    );
}

#[test]
fn table_of_wide_clusters_is_cut_like_the_string() {
    assert_eq!(spans(table(&[2, 2, 2, 2, 1]), 5), vec![(0, 2), (2, 5)]);
}

#[test]
fn table_of_words_is_wrapped_like_the_string() {
    assert_eq!(spans(words("abra a"), 5), vec![(0, 4), (5, 6)]);
    assert_eq!(spans(words("abra a"), 6), vec![(0, 6)]);
    assert_eq!(spans(words("  ab   cd "), 2), vec![(2, 4), (7, 9)]);
    assert_eq!(spans(words("   "), 2), vec![]);
    assert_eq!(spans(words(""), 2), vec![]);
}

#[test]
fn table_with_a_cluster_wider_than_the_budget() {
    assert_eq!(spans(table(&[1, 3, 1]), 2), vec![(0, 1), (1, 2), (2, 3)]);
    assert_eq!(spans(table(&[3, 3]), 0), vec![(0, 1), (1, 2)]);
    assert_eq!(spans(table(&[0, 0, 5, 0]), 0), vec![(0, 2), (2, 3), (3, 4)]);
    assert_eq!(
        spans(table(&[usize::MAX, usize::MAX, 1]), usize::MAX),
        vec![(0, 1), (1, 2), (2, 3)]
    );
}

#[test]
fn table_rows_one_by_one() {
    let mut it = LinesIterator::new(words("ab cd"), 2);
    assert_eq!(it.next(), Some(Span { start: 0, end: 2 }));
    assert_eq!(it.next(), Some(Span { start: 3, end: 5 }));
    assert_eq!(it.next(), None);
    assert_eq!(it.next(), None);
}

#[test]
fn table_runs() {
    let t = words("ab  cd");
    assert_eq!(find_run_end(&t, 0, Kind::Word), 2);
    assert_eq!(find_run_end(&t, 2, Kind::Separator), 4);
    assert_eq!(find_run_end(&t, 2, Kind::Any), 6);
    let run = take_run(&t, 0, 1, Kind::Word);
    assert_eq!((run.end, run.width, run.whole), (1, 1, false));
    let run = take_run(&t, 0, 2, Kind::Word);
    assert_eq!((run.end, run.width, run.whole), (2, 2, true));
}

#[test]
fn table_prefix() {
    let tokens = [words("abra"), words("a")];
    assert_eq!(prefix(&tokens, 5, words(" ")).length, 4);
    assert_eq!(prefix(&tokens, 6, words(" ")).length, 6);
    assert_eq!(prefix(&tokens, 3, words(" ")).length, 0);
    let long = [
        Table {
            cells: vec![Cell {
                width: 1,
                blank: false,
            }],
            chars: 10,
        },
        Table {
            cells: vec![],
            chars: 3,
        },
    ];
    let gap = Table {
        cells: vec![],
        chars: 2,
    };
    assert_eq!(prefix(&long, 1, gap).length, 15);
}

#[test]
fn table_prefix_too_long_to_count() {
    let huge = || Table {
        cells: vec![],
        chars: usize::MAX,
    };
    let one = || Table {
        cells: vec![],
        chars: 1,
    };
    let empty = || Table {
        cells: vec![],
        chars: 0,
    };
    assert_eq!(checked_prefix(&[huge(), one()], 5, empty()), None);
    assert_eq!(checked_prefix(&[one(), huge()], 0, empty()), None);
    assert_eq!(checked_prefix(&[one(), one()], 5, huge()), None);
    assert_eq!(
        checked_prefix(&[huge()], 5, huge()),
        Some(PrefixResult { length: usize::MAX })
    );
    assert_eq!(
        checked_prefix(&[huge(), empty()], 5, empty()),
        Some(PrefixResult { length: usize::MAX })
    );
}

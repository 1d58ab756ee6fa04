use term_wrap::utils::cluster::{Cluster, Segmented};
use term_wrap::utils::measure::{find_run_end, take_run, Kind};
use term_wrap::utils::prefix_length::bounded_width;
use term_wrap::utils::segment::{byte_length, is_blank, read_cluster, substr};
use unicode_segmentation::UnicodeSegmentation;
use unicode_width::UnicodeWidthStr;

#[test]
fn byte_length_counts_bytes() {
    assert_eq!(byte_length(""), 0);
    assert_eq!(byte_length("abc"), 3);
    assert_eq!(byte_length("Ｈé"), 5);
}

#[test]
fn substr_cuts_between_characters() {
    assert_eq!(substr("aéＨb", 1, 6), "éＨ");
    assert_eq!(substr("aéＨb", 0, 0), "");
    assert_eq!(substr("aéＨb", 7, 7), "");
    assert_eq!(substr("aéＨb", 0, 7), "aéＨb");
}

#[test]
fn is_blank_wants_white_space_only() {
    assert!(is_blank(" "));
    assert!(is_blank(" \t\r\n\u{a0}\u{3000}"));
    assert!(is_blank(""));
    assert!(!is_blank("a"));
    assert!(!is_blank("  a "));
    assert!(!is_blank(" \u{301}"));
}

#[test]
fn read_cluster_measures_one_cluster() {
    let s = "aＨe\u{301}\r\n ";
    let a = read_cluster(s, 0);
    assert_eq!((a.end, a.width, a.blank), (1, 1, false));
    let wide = read_cluster(s, 1);
    assert_eq!((wide.end, wide.width, wide.blank), (4, 2, false));
    let marked = read_cluster(s, 4);
    assert_eq!((marked.end, marked.width, marked.blank), (7, 1, false));
    let line_end = read_cluster(s, 7);
    assert_eq!((line_end.end, line_end.blank), (9, true));
    let space = read_cluster(s, 9);
    assert_eq!((space.end, space.width, space.blank), (10, 1, true));
}

#[test]
fn find_run_end_stops_at_the_other_kind() {
    let s = "ab  cd";
    assert_eq!(find_run_end(&s, 0, Kind::Word), 2);
    assert_eq!(find_run_end(&s, 0, Kind::Separator), 0);
    assert_eq!(find_run_end(&s, 2, Kind::Separator), 4);
    assert_eq!(find_run_end(&s, 2, Kind::Word), 2);
    assert_eq!(find_run_end(&s, 4, Kind::Word), 6);
    assert_eq!(find_run_end(&s, 6, Kind::Word), 6);
    assert_eq!(find_run_end(&s, 1, Kind::Any), 6);
}

#[test]
fn take_run_stops_where_the_room_ends() {
    let s = "abcd  ＨＨ";
    let whole = take_run(&s, 0, 4, Kind::Word);
    assert_eq!((whole.end, whole.width, whole.whole), (4, 4, true));
    let part = take_run(&s, 0, 3, Kind::Word);
    assert_eq!((part.end, part.width, part.whole), (3, 3, false));
    let none = take_run(&s, 0, 0, Kind::Word);
    assert_eq!((none.end, none.width, none.whole), (0, 0, false));
    let other = take_run(&s, 0, 9, Kind::Separator);
    assert_eq!((other.end, other.width, other.whole), (0, 0, true));
    let gap = take_run(&s, 4, 9, Kind::Separator);
    assert_eq!((gap.end, gap.width, gap.whole), (6, 2, true));
    let wide = take_run(&s, 6, 3, Kind::Word);
    assert_eq!((wide.end, wide.width, wide.whole), (9, 2, false));
    let all = take_run(&s, 0, 10, Kind::Any);
    assert_eq!((all.end, all.width, all.whole), (12, 10, true));
    let end = take_run(&s, 12, 0, Kind::Any);
    assert_eq!((end.end, end.width, end.whole), (12, 0, true));
}

#[test]
fn take_run_tells_whether_a_separator_follows() {
    let s = "ab cd";
    assert!(take_run(&s, 0, 5, Kind::Word).followed);
    assert!(!take_run(&s, 0, 1, Kind::Word).followed);
    assert!(!take_run(&s, 3, 5, Kind::Word).followed);
    assert!(take_run(&s, 2, 5, Kind::Separator).followed);
    assert!(take_run(&s, 0, 5, Kind::Separator).followed);
    assert!(!take_run(&s, 0, 5, Kind::Any).followed);
    assert!(!take_run(&s, 5, 5, Kind::Word).followed);
}

#[test]
fn bounded_width_measures_up_to_the_room() {
    assert_eq!(bounded_width(&"", 0), Some(0));
    assert_eq!(bounded_width(&"abc", 3), Some(3));
    assert_eq!(bounded_width(&"abc", 2), None);
    assert_eq!(bounded_width(&"Ｈｅｌｌo", 9), Some(9));
    assert_eq!(bounded_width(&"Ｈｅｌｌo", 8), None);
    assert_eq!(bounded_width(&"e\u{301}", 1), Some(1));
    assert_eq!(bounded_width(&"a b", usize::MAX), Some(3));
}

#[test]
fn kind_accepts_its_clusters() {
    assert!(Kind::Separator.accepts(true));
    assert!(!Kind::Separator.accepts(false));
    assert!(Kind::Word.accepts(false));
    assert!(!Kind::Word.accepts(true));
    assert!(Kind::Any.accepts(true));
    assert!(Kind::Any.accepts(false));
}

#[test]
fn strings_are_read_by_their_bytes() {
    let s = "aＨ b";
    assert_eq!(s.reach(), 6);
    assert_eq!(s.count_chars(), 4);
    assert_eq!(
        s.read(1),
        Cluster {
            end: 4,
            width: 2,
            blank: false
        }
    );
    assert_eq!(
        s.read(4),
        Cluster {
            end: 5,
            width: 1,
            blank: true
        }
    );
}

#[test]
fn clusters_are_the_extended_grapheme_clusters() {
    let texts = [
        "",
        "abc",
        "a\u{310}e\u{301}o\u{308}\u{332}",
        "a\r\nb",
        "\u{1F1F7}\u{1F1FA}\u{1F1F8}\u{1F1F9}",
        "\u{1F1F7}\u{1F1FA}\u{1F1F8}",
        "x\u{1F1F7}\u{1F1FA}\u{1F1F8}\u{1F1F9}\u{1F1EE}\u{1F1F4}y",
        "\u{1F468}\u{200D}\u{1F469}\u{200D}\u{1F467} a \u{1F44D}\u{1F3FD}",
        "\u{915}\u{94D}\u{937}\u{93F} \u{939}\u{93F}\u{928}\u{94D}\u{926}\u{940}",
        "\u{1100}\u{1161}\u{11A8}\u{AC00}",
        "\u{600}1 \u{301}\u{301}",
        "Ｈｅｌｌｏ, ｗｏｒｌｄ!",
    ];
    for text in texts.iter() {
        let expected: Vec<usize> = text
            .grapheme_indices(true)
            .map(|(start, cluster)| start + cluster.len())
            .collect();
        let mut found = Vec::new();
        let mut pos = 0;
        while pos < text.len() {
            let cluster = read_cluster(text, pos);
            assert!(cluster.end > pos);
            pos = cluster.end;
            found.push(pos);
        }
        assert_eq!(found, expected);
    }
}

#[test]
fn cluster_widths_are_those_of_the_width_tables() {
    let text = "a\u{301}Ｈ\u{1F1F7}\u{1F1FA}\u{1F468}\u{200D}\u{1F469} \t\u{200B}x";
    let mut pos = 0;
    while pos < text.len() {
        let cluster = read_cluster(text, pos);
        assert_eq!(cluster.width, text[pos..cluster.end].width());
        pos = cluster.end;
    }
    assert_eq!(read_cluster("Ｈ", 0).width, 2);
    assert_eq!(read_cluster("a", 0).width, 1);
    assert_eq!(read_cluster("\u{301}", 0).width, 0);
}

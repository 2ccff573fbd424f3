use csv_reconcile::columns::{classify, classify_columns, union_columns, ColumnClass};
use csv_reconcile::engine::{reconcile, DiffRow};
use csv_reconcile::index::{build_index, composite_key, find_column, IndexError, RowIndex};
use csv_reconcile::report::{create_summary_table, display_rows, summary_footer};
use csv_reconcile::order::{insert_ascending, str_less};
use csv_reconcile::stats::{diff_breakdown, header_comparison, headers_match, sorted_column_names};
use csv_reconcile::text::{decimal_string, join_strings, row_preview, truncate_string};

fn strings(v: &[&str]) -> Vec<String> {
    v.iter().map(|s| s.to_string()).collect()
}

fn table(rows: &[&[&str]]) -> Vec<Vec<String>> {
    rows.iter().map(|r| strings(r)).collect()
}

fn index(header: &[&str], rows: &[&[&str]], keys: &[&str]) -> RowIndex {
    build_index(&strings(header), &table(rows), &strings(keys)).unwrap()
}

fn diff(key: &str, column: &str, file1: &str, file2: &str) -> DiffRow {
    DiffRow {
        key: key.to_string(),
        column: column.to_string(),
        file1: file1.to_string(),
        file2: file2.to_string(),
    }
}

#[test]
fn truncate_keeps_short_strings() {
    assert_eq!(truncate_string("hello", 5), "hello");
    assert_eq!(truncate_string("", 0), "");
}

#[test]
fn truncate_cuts_long_strings() {
    assert_eq!(truncate_string("hello world", 8), "hello...");
    assert_eq!(truncate_string("abcdef", 3), "...");
}

#[test]
fn truncate_below_three_does_not_underflow() {
    assert_eq!(truncate_string("abcdef", 2), "...");
    assert_eq!(truncate_string("abcdef", 0), "...");
    assert_eq!(truncate_string("ab", 2), "ab");
}

#[test]
fn truncate_counts_characters() {
    assert_eq!(truncate_string("ééééé", 5), "ééééé");
    assert_eq!(truncate_string("éééééé", 5), "éé...");
}

#[test]
fn truncate_twice_changes_nothing() {
    for w in 0..8 {
        for s in ["", "a", "abc", "abcdef", "abcdefghijk"] {
            let once = truncate_string(s, w);
            assert_eq!(truncate_string(&once, w), once);
        }
    }
}

#[test]
fn join_with_separator() {
    assert_eq!(join_strings(&strings(&["a", "b", "c"]), ","), "a,b,c");
    assert_eq!(join_strings(&strings(&["a"]), ","), "a");
    assert_eq!(join_strings(&strings(&[]), ","), "");
}

#[test]
fn preview_short_row() {
    assert_eq!(row_preview(&strings(&["2", "y", "20"])), "2,y,20");
}

#[test]
fn preview_cut_from_fifty_characters() {
    let long = "a".repeat(48);
    let row = strings(&[&long, "b"]);
    let p = row_preview(&row);
    assert_eq!(p.chars().count(), 50);
    assert_eq!(p, format!("{}...", "a".repeat(47)));
    let row49 = strings(&[&"a".repeat(47), "b"]);
    assert_eq!(row_preview(&row49), format!("{},b", "a".repeat(47)));
}

#[test]
fn decimal_numerals() {
    assert_eq!(decimal_string(0), "0");
    assert_eq!(decimal_string(7), "7");
    assert_eq!(decimal_string(10), "10");
    assert_eq!(decimal_string(12345), "12345");
    assert_eq!(decimal_string(usize::MAX), usize::MAX.to_string());
}

#[test]
fn find_column_first_match() {
    let h = strings(&["a", "b", "a"]);
    assert_eq!(find_column(&h, &"a".to_string()), Some(0));
    assert_eq!(find_column(&h, &"b".to_string()), Some(1));
    assert_eq!(find_column(&h, &"c".to_string()), None);
}

#[test]
fn composite_key_joins_with_bar() {
    let row = strings(&["1", "x", "2"]);
    assert_eq!(composite_key(&row, &vec![0, 2]), "1|2");
    assert_eq!(composite_key(&row, &vec![5, 1]), "|x");
    assert_eq!(composite_key(&row, &vec![]), "");
}

#[test]
fn unknown_key_column_is_an_error() {
    let r = build_index(&strings(&["id", "name"]), &table(&[&["1", "x"]]), &strings(&["id", "code"]));
    assert_eq!(r.err(), Some(IndexError::UnknownKeyColumn("code".to_string())));
}

#[test]
fn later_duplicate_replaces_earlier() {
    let idx = index(&["id", "v"], &[&["1", "a"], &["2", "b"], &["1", "c"]], &["id"]);
    assert_eq!(idx.len(), 2);
    assert_eq!(idx.rows_read, 3);
    assert_eq!(idx.collisions(), 1);
    assert_eq!(idx.get(&"1".to_string()), Some(&strings(&["1", "c"])));
    assert_eq!(idx.get(&"2".to_string()), Some(&strings(&["2", "b"])));
    assert_eq!(idx.get(&"3".to_string()), None);
    assert_eq!(idx.entries[0].0, "1");
}

#[test]
fn short_rows_read_as_empty_key_parts() {
    let idx = index(&["a", "b"], &[&["1"]], &["a", "b"]);
    assert_eq!(idx.get(&"1|".to_string()), Some(&strings(&["1"])));
}

#[test]
fn union_keeps_first_appearance() {
    let u = union_columns(&strings(&["id", "name"]), &strings(&["name", "extra", "id"]));
    assert_eq!(u, strings(&["id", "name", "extra"]));
}

#[test]
fn classification_of_columns() {
    let h1 = strings(&["id", "name", "old", "skip"]);
    let h2 = strings(&["id", "name", "extra", "skip"]);
    let keys = strings(&["id"]);
    let ign = strings(&["skip"]);
    let c = classify_columns(&h1, &h2, &keys, &ign);
    let expected = vec![
        ("id".to_string(), ColumnClass::Key),
        ("name".to_string(), ColumnClass::Comparable),
        ("old".to_string(), ColumnClass::LeftOnly),
        ("skip".to_string(), ColumnClass::Ignored),
        ("extra".to_string(), ColumnClass::RightOnly),
    ];
    assert_eq!(c, expected);
    assert_eq!(classify(&"extra".to_string(), &h1, &h2, &keys, &ign), ColumnClass::RightOnly);
}

#[test]
fn example_value_change_and_one_sided_rows() {
    let a = index(&["id", "name", "value"], &[&["1", "x", "10"], &["2", "y", "20"]], &["id"]);
    let b = index(&["id", "name", "value"], &[&["1", "x", "11"], &["3", "z", "30"]], &["id"]);
    let d = reconcile(&a, &b, &strings(&["id"]), &strings(&[]));
    assert_eq!(
        d,
        vec![
            diff("1", "value", "10", "11"),
            diff("2", "[missing in file2]", "2,y,20", ""),
            diff("3", "[missing in file1]", "", "3,z,30"),
        ]
    );
}

#[test]
fn example_extra_column_only_in_second() {
    let a = index(&["id", "name"], &[&["1", "x"], &["2", "y"]], &["id"]);
    let b = index(&["id", "name", "extra"], &[&["1", "x", "e1"], &["2", "y", "e2"]], &["id"]);
    let d = reconcile(&a, &b, &strings(&["id"]), &strings(&[]));
    assert_eq!(
        d,
        vec![
            diff("1", "extra", "[column not in file1]", "e1"),
            diff("2", "extra", "[column not in file1]", "e2"),
        ]
    );
}

#[test]
fn column_only_in_first_is_reported() {
    let a = index(&["id", "old"], &[&["1", "o"]], &["id"]);
    let b = index(&["id"], &[&["1"]], &["id"]);
    let d = reconcile(&a, &b, &strings(&["id"]), &strings(&[]));
    assert_eq!(d, vec![diff("1", "old", "o", "[column not in file2]")]);
}

#[test]
fn ignored_columns_are_not_compared() {
    let a = index(&["id", "ts", "v"], &[&["1", "t1", "a"]], &["id"]);
    let b = index(&["id", "ts", "v"], &[&["1", "t2", "b"]], &["id"]);
    let d = reconcile(&a, &b, &strings(&["id"]), &strings(&["ts"]));
    assert_eq!(d, vec![diff("1", "v", "a", "b")]);
}

#[test]
fn columns_matched_by_name_not_position() {
    let a = index(&["id", "x", "y"], &[&["1", "p", "q"]], &["id"]);
    let b = index(&["y", "id", "x"], &[&["q", "1", "p"]], &["id"]);
    let d = reconcile(&a, &b, &strings(&["id"]), &strings(&[]));
    assert!(d.is_empty());
}

#[test]
fn table_against_itself_has_no_difference() {
    let rows: &[&[&str]] = &[&["1", "a", "b"], &["2", "c"], &["1", "d", "e"]];
    let a = index(&["id", "p", "q"], rows, &["id", "p"]);
    let b = index(&["id", "p", "q"], rows, &["id", "p"]);
    let d = reconcile(&a, &b, &strings(&["id", "p"]), &strings(&[]));
    assert!(d.is_empty());
}

#[test]
fn key_columns_never_appear_as_columns() {
    let a = index(&["k1", "k2", "v"], &[&["1", "a", "x"], &["2", "b", "y"]], &["k1", "k2"]);
    let b = index(&["k2", "k1", "v", "w"], &[&["a", "1", "z", "w"], &["c", "3", "q", "r"]], &["k1", "k2"]);
    let keys = strings(&["k1", "k2"]);
    let d = reconcile(&a, &b, &keys, &strings(&[]));
    assert_eq!(d.len(), 4);
    for r in &d {
        assert!(!keys.contains(&r.column));
    }
}

#[test]
fn every_key_takes_exactly_one_path() {
    let a = index(&["id", "v"], &[&["1", "a"], &["2", "b"], &["4", "d"]], &["id"]);
    let b = index(&["id", "v"], &[&["2", "B"], &["3", "c"], &["4", "d"]], &["id"]);
    let d = reconcile(&a, &b, &strings(&["id"]), &strings(&[]));
    assert_eq!(
        d,
        vec![
            diff("1", "[missing in file2]", "1,a", ""),
            diff("2", "v", "b", "B"),
            diff("3", "[missing in file1]", "", "3,c"),
        ]
    );
}

fn many(n: usize) -> Vec<DiffRow> {
    (0..n).map(|i| diff(&i.to_string(), "c", "a", "b")).collect()
}

#[test]
fn window_head_marker_tail() {
    let shown = display_rows(&many(10), 5, 30);
    assert_eq!(shown.len(), 5);
    assert_eq!(shown[0].key, "0");
    assert_eq!(shown[1].key, "1");
    assert_eq!(shown[2], diff("...", "... (5 more rows) ...", "...", "..."));
    assert_eq!(shown[3].key, "8");
    assert_eq!(shown[4].key, "9");
}

#[test]
fn window_count_for_every_limit() {
    let ds = many(12);
    for m in 1..12usize {
        let shown = display_rows(&ds, m, 30);
        let head = m / 2;
        let tail = m - head - 1;
        assert_eq!(shown.len(), head + 1 + tail);
        assert_eq!(shown[head].column, format!("... ({} more rows) ...", 12 - m));
    }
}

#[test]
fn window_zero_rows_shows_marker_only() {
    let shown = display_rows(&many(3), 0, 30);
    assert_eq!(shown, vec![diff("...", "... (3 more rows) ...", "...", "...")]);
}

#[test]
fn window_not_applied_within_limit() {
    let ds = vec![diff("k", "columns", "a long value here", "b")];
    let shown = display_rows(&ds, 5, 6);
    assert_eq!(shown, vec![diff("k", "col...", "a l...", "b")]);
}

#[test]
fn summary_lines() {
    assert_eq!(summary_footer(3, 20), "\n\n📊 Total differences: 3");
    assert_eq!(
        summary_footer(25, 20),
        "\n\n📊 Summary: 25 total differences found\n   Showing 20 rows (use --max-rows to adjust or --no-truncate to show all)"
    );
}

#[test]
fn report_without_differences() {
    assert_eq!(create_summary_table(vec![], 20, 30, false), "✅ No differences found.");
}

#[test]
fn report_draws_table_and_summary() {
    let r = create_summary_table(vec![diff("1", "value", "10", "11")], 20, 30, false);
    assert!(r.contains("key"));
    assert!(r.contains("file2"));
    assert!(r.contains("value"));
    assert!(r.contains("11"));
    assert!(r.ends_with("\n\n📊 Total differences: 1"));
}

#[test]
fn report_truncated_mentions_hidden_rows() {
    let r = create_summary_table(many(30), 10, 30, false);
    assert!(r.contains("... (20 more rows) ..."));
    assert!(r.contains("Showing 10 rows"));
    assert!(!r.contains("| 12 "));
}

#[test]
fn report_without_truncation_shows_all() {
    let long = "x".repeat(60);
    let r = create_summary_table(vec![diff("1", "c", &long, "y")], 0, 5, true);
    assert!(r.contains(&long));
    assert!(!r.contains("Total differences"));
}

#[test]
fn breakdown_by_category() {
    let ds = vec![
        diff("1", "v", "a", "b"),
        diff("2", "[missing in file2]", "2,b", ""),
        diff("3", "[missing in file1]", "", "3,c"),
        diff("4", "[missing in file1]", "", "4,d"),
    ];
    let b = diff_breakdown(&ds);
    assert_eq!(b.data_differences, 1);
    assert_eq!(b.missing_in_file1, 2);
    assert_eq!(b.missing_in_file2, 1);
}

#[test]
fn header_presence() {
    let h1 = strings(&["id", "a"]);
    let h2 = strings(&["id", "b"]);
    let c = header_comparison(&h1, &h2);
    assert_eq!(c.len(), 3);
    assert_eq!((c[0].name.as_str(), c[0].in_file1, c[0].in_file2), ("a", true, false));
    assert_eq!((c[1].name.as_str(), c[1].in_file1, c[1].in_file2), ("b", false, true));
    assert_eq!((c[2].name.as_str(), c[2].in_file1, c[2].in_file2), ("id", true, true));
    assert_eq!(c[0].status_label(), "Only in File 1");
    assert_eq!(c[1].status_label(), "Only in File 2");
    assert_eq!(c[2].status_label(), "Match");
    assert!(!headers_match(&h1, &h2));
    assert!(headers_match(&h1, &strings(&["id", "a"])));
}

#[test]
fn string_order_by_code_point() {
    let s = |x: &str| x.to_string();
    assert!(str_less(&s("a"), &s("ab")));
    assert!(!str_less(&s("ab"), &s("a")));
    assert!(str_less(&s("Z"), &s("a")));
    assert!(!str_less(&s("a"), &s("a")));
    assert!(str_less(&s(""), &s("a")));
    assert!(str_less(&s("z"), &s("é")));
}

#[test]
fn insertion_keeps_ascending_and_unique() {
    let mut v: Vec<String> = Vec::new();
    for x in ["b", "ab", "a", "b", "c", "a"] {
        insert_ascending(&mut v, x.to_string());
    }
    assert_eq!(v, strings(&["a", "ab", "b", "c"]));
}

#[test]
fn sorted_names_of_both_headers() {
    let names = sorted_column_names(&strings(&["id", "name", "id"]), &strings(&["extra", "name"]));
    assert_eq!(names, strings(&["extra", "id", "name"]));
}

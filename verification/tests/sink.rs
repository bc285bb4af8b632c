use kaeshi::db::{columns_of, esc, join, Glue};
use kaeshi::number::{decimal, parse_decimal, parse_number, Decimal};
use kaeshi::output::{print, printjson, printstd, Grid, OutputType, Printed};
use kaeshi::row::Row;
use kaeshi::storage::{place, DataKey, Place};
use kaeshi::text::{compare, copy, has_tag, same, slice_to_string, Order};

fn row_of(pairs: &[(&str, &str)]) -> Row {
    let mut row = Row::new();
    for (k, v) in pairs {
        row.insert(k.as_bytes().to_vec(), v.as_bytes().to_vec());
    }
    row
}

fn names(list: &[&str]) -> Vec<Vec<u8>> {
    list.iter().map(|s| s.as_bytes().to_vec()).collect()
}

#[test]
fn union_columns() {
    let rows = vec![row_of(&[("a", "1")]), row_of(&[("b", "2")])];
    assert_eq!(columns_of(&rows), names(&["a", "b"]));
    let mut glue = Glue::new();
    let statements = glue.flush(&rows, None, None, b"2020-01-02T03:04:05+00:00");
    assert_eq!(
        statements,
        vec![
            b"CREATE TABLE main (a TEXT,b TEXT);".to_vec(),
            b"INSERT INTO main VALUES ('1','')".to_vec(),
            b"INSERT INTO main VALUES ('','2')".to_vec(),
        ]
    );
    assert_eq!(glue.columns, names(&["a", "b"]));
}

#[test]
fn flush_with_time_column() {
    let rows = vec![row_of(&[("a", "1")]), row_of(&[("b", "2")])];
    let mut glue = Glue::new();
    let statements = glue.flush(
        &rows,
        Some(b"t".to_vec()),
        Some(b"at".to_vec()),
        b"2020-01-02T03:04:05+00:00",
    );
    assert_eq!(
        statements,
        vec![
            b"CREATE TABLE t (a TEXT,b TEXT, at timestamp);".to_vec(),
            b"INSERT INTO t VALUES ('1','', '2020-01-02T03:04:05+00:00')".to_vec(),
            b"INSERT INTO t VALUES ('','2', '2020-01-02T03:04:05+00:00')".to_vec(),
        ]
    );
    assert_eq!(glue.timestamp, Some(b"at".to_vec()));
}

#[test]
fn columns_are_sorted_and_without_repeats() {
    let rows = vec![
        row_of(&[("n", "1"), ("b", "2")]),
        row_of(&[("a", "3"), ("n", "4"), ("ab", "5")]),
        row_of(&[]),
        row_of(&[("B", "6")]),
    ];
    assert_eq!(columns_of(&rows), names(&["B", "a", "ab", "b", "n"]));
    assert_eq!(columns_of(&vec![]), names(&[]));
}

#[test]
fn create_table_with_time_column() {
    let mut glue = Glue::new();
    let sql = glue.create_table(
        Some(b"kaeshi".to_vec()),
        names(&["id", " name "]),
        Some(b"created_at".to_vec()),
    );
    assert_eq!(
        sql,
        b"CREATE TABLE kaeshi (id TEXT,name TEXT, created_at timestamp);".to_vec()
    );
    assert_eq!(glue.table_name(), b"kaeshi".to_vec());
    assert_eq!(glue.timestamp, Some(b"created_at".to_vec()));
}

#[test]
fn insert_with_time() {
    let mut glue = Glue::new();
    glue.create_table(None, names(&["id"]), Some(b"at".to_vec()));
    let row = row_of(&[("id", "7")]);
    assert_eq!(
        glue.insert_at(&row, Some(b"2020-01-02T03:04:05+00:00")),
        b"INSERT INTO main VALUES ('7', '2020-01-02T03:04:05+00:00')".to_vec()
    );
    assert_eq!(
        glue.insert(&row, b"2021-06-07T08:09:10+09:00"),
        b"INSERT INTO main VALUES ('7', '2021-06-07T08:09:10+09:00')".to_vec()
    );
}

#[test]
fn insert_without_time() {
    let mut glue = Glue::new();
    glue.create_table(Some(b"t".to_vec()), names(&["a", "b"]), None);
    let row = row_of(&[("b", "x'y"), ("c", "z")]);
    assert_eq!(
        glue.insert(&row, b"2021-06-07T08:09:10+09:00"),
        b"INSERT INTO t VALUES ('','x''y')".to_vec()
    );
    assert_eq!(glue.insert_at(&row, None), b"INSERT INTO t VALUES ('','x''y')".to_vec());
}

#[test]
fn quotes_are_doubled() {
    assert_eq!(esc(b"Hello, 'World'"), b"Hello, ''World''".to_vec());
    assert_eq!(esc(b""), b"".to_vec());
    assert_eq!(esc(b"''"), b"''''".to_vec());
    assert_eq!(Glue::sql_value(b"it's"), b"'it''s'".to_vec());
}

#[test]
fn join_puts_the_separator_between() {
    assert_eq!(join(&names(&["a", "b", "c"]), b", "), b"a, b, c".to_vec());
    assert_eq!(join(&names(&["a"]), b","), b"a".to_vec());
    assert_eq!(join(&names(&[]), b","), b"".to_vec());
    assert_eq!(join(&names(&["", ""]), b","), b",".to_vec());
}

#[test]
fn rows_keep_their_names_in_order() {
    let mut row = Row::new();
    assert!(row.is_empty());
    row.insert(b"b".to_vec(), b"1".to_vec());
    row.insert(b"a".to_vec(), b"2".to_vec());
    row.insert(b"c".to_vec(), b"3".to_vec());
    row.insert(b"a".to_vec(), b"4".to_vec());
    assert_eq!(row.len(), 3);
    assert_eq!(row.key(0), &b"a".to_vec());
    assert_eq!(row.value(0), &b"4".to_vec());
    assert_eq!(row.key(1), &b"b".to_vec());
    assert_eq!(row.key(2), &b"c".to_vec());
    assert_eq!(row.get(b"b"), Some(&b"1".to_vec()));
    assert_eq!(row.get(b"d"), None);
    assert!(!row.is_empty());
}

#[test]
fn order_of_byte_strings() {
    assert_eq!(compare(b"a", b"b"), Order::Before);
    assert_eq!(compare(b"b", b"a"), Order::After);
    assert_eq!(compare(b"a", b"ab"), Order::Before);
    assert_eq!(compare(b"ab", b"a"), Order::After);
    assert_eq!(compare(b"", b""), Order::Same);
    assert_eq!(compare(b"ab", b"ab"), Order::Same);
    assert_eq!(compare(b"B", b"a"), Order::Before);
    assert!(same(b"ab", b"ab"));
    assert!(!same(b"ab", b"abc"));
    assert!(!same(b"ab", b"ac"));
    assert!(has_tag(b"hello", 1, b"ell"));
    assert!(!has_tag(b"hello", 3, b"low"));
    assert!(has_tag(b"hello", 5, b""));
    assert!(!has_tag(b"hello", 6, b""));
    assert_eq!(copy(b"xy"), b"xy".to_vec());
}

#[test]
fn numbers_are_read_and_written() {
    assert_eq!(parse_number(b"0"), Some(0));
    assert_eq!(parse_number(b"007"), Some(7));
    assert_eq!(parse_number(b"18446744073709551615"), Some(u64::MAX));
    assert_eq!(parse_number(b"18446744073709551616"), None);
    assert_eq!(parse_number(b""), None);
    assert_eq!(parse_number(b"1a"), None);
    assert_eq!(parse_number(b"-1"), None);
    assert_eq!(parse_number(b"1.5"), None);
    assert_eq!(decimal(0), b"0".to_vec());
    assert_eq!(decimal(10), b"10".to_vec());
    assert_eq!(decimal(4294967295), b"4294967295".to_vec());
    assert_eq!(parse_number(&decimal(123456)), Some(123456));
}

#[test]
fn decimal_numbers_are_read() {
    let d = |negative, whole, fraction| Some(Decimal { negative, whole, fraction });
    assert_eq!(parse_decimal(b"0"), d(false, 0, 0));
    assert_eq!(parse_decimal(b"12"), d(false, 12, 0));
    assert_eq!(parse_decimal(b"+12"), d(false, 12, 0));
    assert_eq!(parse_decimal(b"-12"), d(true, 12, 0));
    assert_eq!(parse_decimal(b"1.5"), d(false, 1, 500_000_000_000_000_000));
    assert_eq!(parse_decimal(b"-0.25"), d(true, 0, 250_000_000_000_000_000));
    assert_eq!(parse_decimal(b".5"), d(false, 0, 500_000_000_000_000_000));
    assert_eq!(parse_decimal(b"5."), d(false, 5, 0));
    assert_eq!(parse_decimal(b"-0"), d(false, 0, 0));
    assert_eq!(parse_decimal(b"-0.000"), d(false, 0, 0));
    assert_eq!(parse_decimal(b"0.000000000000000001"), d(false, 0, 1));
    assert_eq!(parse_decimal(b"18446744073709551615.9"), d(false, u64::MAX, 900_000_000_000_000_000));
    assert_eq!(parse_decimal(b"18446744073709551616"), None);
    assert_eq!(parse_decimal(b"0.0000000000000000001"), None);
    assert_eq!(parse_decimal(b""), None);
    assert_eq!(parse_decimal(b"-"), None);
    assert_eq!(parse_decimal(b"."), None);
    assert_eq!(parse_decimal(b"1.2.3"), None);
    assert_eq!(parse_decimal(b"1e3"), None);
    assert_eq!(parse_decimal(b"--1"), None);
    assert_eq!(parse_decimal(b" 1"), None);
    let a = Decimal { negative: true, whole: 3, fraction: 5 };
    let b = Decimal { negative: true, whole: 3, fraction: 4 };
    let zero = Decimal { negative: false, whole: 0, fraction: 0 };
    assert!(a.less(&b));
    assert!(!b.less(&a));
    assert!(a.less(&zero));
    assert!(!zero.less(&a));
    assert!(!zero.less(&zero));
}

#[test]
fn bytes_become_a_string() {
    assert_eq!(slice_to_string(b"abc"), "abc".to_string());
    assert_eq!(slice_to_string("héllo".as_bytes()), "héllo".to_string());
    assert_eq!(slice_to_string(b""), String::new());
}

#[test]
fn table_layout_has_an_empty_cell_for_a_missing_name() {
    let rows = vec![row_of(&[("a", "1")]), row_of(&[("b", "2"), ("a", "3")])];
    let grid = printstd(&rows);
    assert_eq!(
        grid,
        Grid {
            titles: names(&["a", "b"]),
            cells: vec![names(&["1", ""]), names(&["3", "2"])],
        }
    );
    assert_eq!(print(&rows, OutputType::Table), Printed::Table(grid));
}

#[test]
fn json_layout_is_the_pairs_of_each_row() {
    let rows = vec![row_of(&[("b", "2"), ("a", "1")]), row_of(&[])];
    let lists = printjson(&rows);
    assert_eq!(
        lists,
        vec![
            vec![(b"a".to_vec(), b"1".to_vec()), (b"b".to_vec(), b"2".to_vec())],
            vec![],
        ]
    );
    assert_eq!(print(&rows, OutputType::JSON), Printed::Json(lists));
    assert_eq!(print(&rows, OutputType::Csv), Printed::Nothing);
}

#[test]
fn new_rows_find_their_place() {
    assert_eq!(place(None, 0), Place::Append(0));
    assert_eq!(place(None, 5), Place::Append(5));
    assert_eq!(place(Some(&vec![]), 0), Place::Append(1));
    assert_eq!(place(Some(&vec![1, 2]), 0), Place::Append(3));
    assert_eq!(place(Some(&vec![1, 2, 2]), 2), Place::Replace(1));
    assert_eq!(place(Some(&vec![1, 2]), 7), Place::Append(7));
    let key = DataKey { table_name: b"t".to_vec(), id: 3 };
    assert_eq!(key.clone().id, 3);
    assert_eq!(key.table_name, b"t".to_vec());
}

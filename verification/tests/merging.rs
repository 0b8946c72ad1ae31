use parquet_exp::merge::{merge, MergeCursors};
use parquet_exp::record::{FieldValue, Row};
use parquet_exp::rowwritebuffer::create_row;

fn numeric_less_than(a: &i64, b: &i64) -> bool {
    a < b
}

fn keyed(id: i64, tag: &str) -> Row {
    create_row(vec![
        ("id".to_owned(), FieldValue::Int64(id)),
        ("tag".to_owned(), FieldValue::Utf8(tag.to_owned())),
    ])
}

fn smaller_key(a: &Row, b: &Row) -> bool {
    a.get_long(0).unwrap() < b.get_long(0).unwrap()
}

fn owned<T: Clone>(merged: Vec<&T>) -> Vec<T> {
    merged.into_iter().cloned().collect()
}

#[test]
fn two_sorted_sources_merge_into_their_sorted_interleave() {
    let sources = vec![vec![1_i64, 3, 5], vec![2_i64, 4, 6]];
    assert_eq!(owned(merge(&sources, numeric_less_than)), vec![1, 2, 3, 4, 5, 6]);
    let swapped = vec![vec![2_i64, 4, 6], vec![1_i64, 3, 5]];
    assert_eq!(owned(merge(&swapped, numeric_less_than)), vec![1, 2, 3, 4, 5, 6]);
}

#[test]
fn merging_with_an_empty_source_gives_the_other_source() {
    let rows = vec![4_i64, 4, 9, 12];
    let right_empty = vec![rows.clone(), vec![]];
    assert_eq!(owned(merge(&right_empty, numeric_less_than)), rows);
    let left_empty = vec![vec![], rows.clone()];
    assert_eq!(owned(merge(&left_empty, numeric_less_than)), rows);
    let unsorted = vec![vec![3_i64, 1, 2], vec![]];
    assert_eq!(owned(merge(&unsorted, numeric_less_than)), vec![3, 1, 2]);
}

#[test]
fn merging_no_sources_or_empty_sources_gives_nothing() {
    let none: Vec<Vec<i64>> = vec![];
    assert_eq!(owned(merge(&none, numeric_less_than)), Vec::<i64>::new());
    let empty: Vec<Vec<i64>> = vec![vec![], vec![], vec![]];
    assert_eq!(owned(merge(&empty, numeric_less_than)), Vec::<i64>::new());
}

#[test]
fn of_equal_rows_the_one_of_the_earlier_source_comes_first() {
    let sources = vec![
        vec![keyed(1, "a1"), keyed(2, "a2"), keyed(2, "a3")],
        vec![keyed(1, "b1"), keyed(2, "b2"), keyed(3, "b3")],
        vec![keyed(2, "c1")],
    ];
    let tags: Vec<String> = merge(&sources, smaller_key)
        .into_iter()
        .map(|row| row.get_string(1).unwrap().to_owned())
        .collect();
    assert_eq!(tags, vec!["a1", "b1", "a2", "a3", "b2", "c1", "b3"]);
}

#[test]
fn three_sources_merge_into_one_sorted_sequence() {
    let sources = vec![vec![1_i64, 10, 100], vec![-5_i64, 50], vec![7_i64, 8, 9, 1000]];
    assert_eq!(
        owned(merge(&sources, numeric_less_than)),
        vec![-5, 1, 7, 8, 9, 10, 50, 100, 1000]
    );
}

#[test]
fn cursors_select_the_least_row_and_take_the_next_one_of_its_source() {
    let mut readers = vec![vec![1_i64, 3, 5].into_iter(), vec![2_i64, 4, 6].into_iter()];
    let first: Vec<Option<i64>> = readers.iter_mut().map(|reader| reader.next()).collect();
    let mut cursors = MergeCursors::new(first);
    assert_eq!(cursors.len(), 2);
    let mut out = Vec::new();
    while let Some(i) = cursors.select(&numeric_less_than) {
        let next = readers[i].next();
        out.push(cursors.advance(i, next).unwrap());
    }
    assert_eq!(out, vec![1, 2, 3, 4, 5, 6]);
    assert_eq!(cursors.select(&numeric_less_than), None);
    assert_eq!(cursors.advance(0, Some(7)), None);
    assert_eq!(cursors.select(&numeric_less_than), Some(0));
    assert_eq!(cursors.advance(5, Some(1)), None);
    assert_eq!(cursors.advance(0, None), Some(7));
}

#[test]
fn cursors_keep_the_earlier_source_on_a_tie() {
    let cursors = MergeCursors::new(vec![None, Some(4_i64), Some(4_i64), Some(9_i64)]);
    assert_eq!(cursors.select(&numeric_less_than), Some(1));
    let later_less = MergeCursors::new(vec![Some(4_i64), None, Some(3_i64), Some(3_i64)]);
    assert_eq!(later_less.select(&numeric_less_than), Some(2));
}

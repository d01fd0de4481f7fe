use nettrain::data::{append_row, select_columns, CsvParseError, PreparedDataSet};

fn names(names: &[&str]) -> Vec<String> {
    names.iter().map(|name| name.to_string()).collect()
}

fn lines_table() -> Vec<Vec<f32>> {
    vec![
        vec![1., 1., 0., 0., 1., 0.],
        vec![1., 0., 1., 0., 0., 1.],
        vec![0., 0., 0., 0., 0., 0.],
        vec![1., 1., 0., 1., 1., 1.],
        vec![0., 1., 0., 1., 0., 1.],
        vec![0., 1., 0., 0., 0., 0.],
        vec![1., 1., 1., 1., 1., 1.],
        vec![1., 0., 0., 0., 0., 0.],
        vec![0., 1., 0., 1., 0., 1.],
        vec![1., 0., 1., 0., 0., 1.],
        vec![0., 1., 1., 0., 0., 0.],
    ]
}

fn rows_of(data_set: &PreparedDataSet<f32>) -> Vec<(Vec<f32>, Vec<f32>)> {
    let mut rows = Vec::new();
    let mut iter = data_set.iter();
    while iter.has_next() {
        let (inputs, outputs) = iter.next_unchecked();
        rows.push((inputs.to_vec(), outputs.to_vec()));
    }
    rows
}

#[test]
fn selected_columns_make_up_the_rows_in_the_order_asked_for() {
    let header = names(&["0_0", "0_1", "1_0", "1_1", "has_horizontal", "has_vertical"]);
    let selection = select_columns(
        &header,
        &names(&["1_0", "1_1", "0_0", "0_1"]),
        &names(&["has_horizontal", "has_vertical"]),
    )
    .unwrap();
    assert_eq!(selection.independent_indices, vec![2, 3, 0, 1]);
    assert_eq!(selection.dependent_indices, vec![4, 5]);

    let mut data = Vec::new();
    let table = lines_table();
    for row in &table {
        assert_eq!(append_row(&mut data, row, &selection, header.len()), Ok(()));
    }
    let data_set = PreparedDataSet::from_vec(data, 4, 2, table.len());
    assert_eq!(data_set.num_rows(), 11);
    assert_eq!(data_set.num_cols(), 6);
    assert_eq!(data_set.independent_cols(), 4);
    assert_eq!(data_set.dependent_cols(), 2);
    let expected: Vec<(Vec<f32>, Vec<f32>)> = vec![
        (vec![0., 0., 1., 1.], vec![1., 0.]),
        (vec![1., 0., 1., 0.], vec![0., 1.]),
        (vec![0., 0., 0., 0.], vec![0., 0.]),
        (vec![0., 1., 1., 1.], vec![1., 1.]),
        (vec![0., 1., 0., 1.], vec![0., 1.]),
        (vec![0., 0., 0., 1.], vec![0., 0.]),
        (vec![1., 1., 1., 1.], vec![1., 1.]),
        (vec![0., 0., 1., 0.], vec![0., 0.]),
        (vec![0., 1., 0., 1.], vec![0., 1.]),
        (vec![1., 0., 1., 0.], vec![0., 1.]),
        (vec![1., 0., 0., 1.], vec![0., 0.]),
    ];
    assert_eq!(rows_of(&data_set), expected);
}

#[test]
fn selecting_nothing_is_an_error() {
    let header = names(&["a", "b"]);
    assert_eq!(
        select_columns(&header, &[], &names(&["b"])).unwrap_err(),
        CsvParseError::ZeroColumnsSelected
    );
    assert_eq!(
        select_columns(&header, &names(&["a"]), &[]).unwrap_err(),
        CsvParseError::ZeroColumnsSelected
    );
    // asked before anything else
    assert_eq!(
        select_columns(&[], &[], &names(&["b"])).unwrap_err(),
        CsvParseError::ZeroColumnsSelected
    );
}

#[test]
fn a_table_without_columns_is_an_error() {
    assert_eq!(
        select_columns(&[], &names(&["a"]), &names(&["b"])).unwrap_err(),
        CsvParseError::ZeroColumns
    );
}

#[test]
fn a_repeated_column_of_the_table_is_an_error() {
    let header = names(&["a", "b", "c", "b", "a"]);
    assert_eq!(
        select_columns(&header, &names(&["a"]), &names(&["c"])).unwrap_err(),
        CsvParseError::DuplicateColumns("b".to_string())
    );
    // found before a missing column
    assert_eq!(
        select_columns(&header, &names(&["x"]), &names(&["c"])).unwrap_err(),
        CsvParseError::DuplicateColumns("b".to_string())
    );
}

#[test]
fn a_missing_column_is_an_error() {
    let header = names(&["a", "b", "c"]);
    assert_eq!(
        select_columns(&header, &names(&["a", "x", "y"]), &names(&["z"])).unwrap_err(),
        CsvParseError::ColumnNotFound("x".to_string())
    );
    assert_eq!(
        select_columns(&header, &names(&["a", "b"]), &names(&["c", "z"])).unwrap_err(),
        CsvParseError::ColumnNotFound("z".to_string())
    );
    // found before a column asked for twice
    assert_eq!(
        select_columns(&header, &names(&["a", "a"]), &names(&["z"])).unwrap_err(),
        CsvParseError::ColumnNotFound("z".to_string())
    );
}

#[test]
fn a_column_asked_for_twice_is_an_error() {
    let header = names(&["a", "b", "c"]);
    assert_eq!(
        select_columns(&header, &names(&["a", "b", "a"]), &names(&["c"])).unwrap_err(),
        CsvParseError::DuplicateColumnsSpecified("a".to_string())
    );
    // an input column asked for again as an output column
    assert_eq!(
        select_columns(&header, &names(&["a", "b"]), &names(&["c", "b"])).unwrap_err(),
        CsvParseError::DuplicateColumnsSpecified("b".to_string())
    );
    assert_eq!(
        select_columns(&header, &names(&["a"]), &names(&["c", "c"])).unwrap_err(),
        CsvParseError::DuplicateColumnsSpecified("c".to_string())
    );
}

#[test]
fn a_row_of_the_wrong_length_is_an_error_and_adds_nothing() {
    let header = names(&["a", "b", "c"]);
    let selection = select_columns(&header, &names(&["c"]), &names(&["a"])).unwrap();
    let mut data = vec![9, 9];
    assert_eq!(
        append_row(&mut data, &[1, 2], &selection, 3),
        Err(CsvParseError::ColumnCountMismatch(2, 3))
    );
    assert_eq!(
        append_row(&mut data, &[1, 2, 3, 4], &selection, 3),
        Err(CsvParseError::ColumnCountMismatch(4, 3))
    );
    assert_eq!(data, vec![9, 9]);
    assert_eq!(append_row(&mut data, &[1, 2, 3], &selection, 3), Ok(()));
    assert_eq!(data, vec![9, 9, 3, 1]);
}

#[test]
fn partitions_are_cut_from_the_end_and_the_last_takes_the_rest() {
    // 11 rows of one input and one output: row r holds (r, 100 + r)
    let mut data = Vec::new();
    for r in 0..11 {
        data.push(r as f32);
        data.push(100.0 + r as f32);
    }
    let data_set = PreparedDataSet::from_vec(data, 1, 1, 11);
    let parts = data_set.partition(3);
    assert_eq!(parts.len(), 3);
    let sizes: Vec<usize> = parts.iter().map(|p| p.num_rows()).collect();
    assert_eq!(sizes, vec![3, 3, 5]);
    let first: Vec<f32> = rows_of(&parts[0]).iter().map(|row| row.0[0]).collect();
    let second: Vec<f32> = rows_of(&parts[1]).iter().map(|row| row.0[0]).collect();
    let last: Vec<f32> = rows_of(&parts[2]).iter().map(|row| row.0[0]).collect();
    assert_eq!(first, vec![8., 9., 10.]);
    assert_eq!(second, vec![5., 6., 7.]);
    assert_eq!(last, vec![0., 1., 2., 3., 4.]);
    assert_eq!(rows_of(&parts[1])[2], (vec![7.], vec![107.]));

    // every row is in exactly one partition
    let mut seen: Vec<f32> = parts.iter().flat_map(|p| rows_of(p)).map(|row| row.0[0]).collect();
    seen.sort_by(|a, b| a.partial_cmp(b).unwrap());
    let all: Vec<f32> = (0..11).map(|r| r as f32).collect();
    assert_eq!(seen, all);
}

#[test]
fn a_single_partition_is_the_whole_data_set() {
    let data_set = PreparedDataSet::from_vec(vec![1., 2., 3., 4., 5., 6.], 2, 1, 2);
    let parts = data_set.partition(1);
    assert_eq!(parts.len(), 1);
    assert_eq!(rows_of(&parts[0]), rows_of(&data_set));
    assert_eq!(rows_of(&parts[0]), vec![(vec![1., 2.], vec![3.]), (vec![4., 5.], vec![6.])]);
}

#[test]
fn partitions_of_partitions_share_the_rows() {
    let data: Vec<f32> = (0..20).map(|v| v as f32).collect();
    let data_set = PreparedDataSet::from_vec(data, 1, 1, 10);
    let halves = data_set.partition(2);
    let quarters = halves[1].partition(2);
    let sizes: Vec<usize> = quarters.iter().map(|p| p.num_rows()).collect();
    assert_eq!(sizes, vec![2, 3]);
    assert_eq!(rows_of(&quarters[0]), vec![(vec![6.], vec![7.]), (vec![8.], vec![9.])]);
    assert_eq!(rows_of(&quarters[1])[0], (vec![0.], vec![1.]));
    let copy = quarters[0].clone();
    assert_eq!(rows_of(&copy), rows_of(&quarters[0]));
}

#[test]
fn an_iterator_ends_after_the_last_row() {
    let data_set = PreparedDataSet::from_vec(vec![1u8, 2, 3, 4, 5, 6], 1, 2, 2);
    let mut rows = data_set.iter();
    assert!(rows.has_next());
    assert_eq!(rows.next_unchecked(), (&[1u8][..], &[2u8, 3][..]));
    assert!(rows.has_next());
    assert_eq!(rows.next_unchecked(), (&[4u8][..], &[5u8, 6][..]));
    assert!(!rows.has_next());
    let empty = PreparedDataSet::from_vec(Vec::<u8>::new(), 1, 2, 0);
    assert!(!empty.iter().has_next());
}

#[test]
fn errors_say_what_went_wrong() {
    assert_eq!(CsvParseError::ZeroColumns.message(), "Zero columns in dataset");
    assert_eq!(CsvParseError::ZeroColumnsSelected.message(), "Zero columns selected");
    assert_eq!(
        CsvParseError::ColumnCountMismatch(5, 6).message(),
        "Invalid number of columns 5, previous was 6"
    );
    assert_eq!(
        CsvParseError::ColumnNotFound("1_2".to_string()).message(),
        "Column with name 1_2 not found"
    );
    assert_eq!(
        CsvParseError::DuplicateColumns("0_0".to_string()).message(),
        "Duplicate columns found in file: 0_0"
    );
    assert_eq!(
        CsvParseError::DuplicateColumnsSpecified("".to_string()).message(),
        "Duplicate columns specified: "
    );
}

#[test]
fn next_hands_out_rows_until_none_is_left() {
    let data_set = PreparedDataSet::from_vec(vec![1i8, 2, 3, 4], 1, 1, 2);
    let mut rows = data_set.iter();
    assert_eq!(rows.next(), Some((&[1i8][..], &[2i8][..])));
    assert_eq!(rows.next(), Some((&[3i8][..], &[4i8][..])));
    assert_eq!(rows.next(), None);
    assert_eq!(rows.next(), None);
}

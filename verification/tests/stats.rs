use nettrain::stats::{ConfusionMatrices, ConfusionMatrix};

#[test]
fn test_confusion_matrix() {
    let mut m = ConfusionMatrix::new();
    m.record(true, false);
    m.record(true, true);
    m.record(true, false);
    m.record(false, false);
    m.record(false, false);
    m.record(false, true);
    let count = m.count() as f32;
    let rendered = format!(
        "[t+ = {}, t- = {}, f+ = {}, f- = {}]",
        m.true_positive() as f32 / count,
        m.true_negative() as f32 / count,
        m.false_positive() as f32 / count,
        m.false_negative() as f32 / count
    );
    assert_eq!(
        rendered,
        "[t+ = 0.16666667, t- = 0.33333334, f+ = 0.33333334, f- = 0.16666667]".to_string()
    );
}

#[test]
fn confusion_matrix_counts_every_cell() {
    let mut m = ConfusionMatrix::new();
    assert_eq!(m.count(), 0);
    m.record(true, true);
    m.record(true, true);
    m.record(true, false);
    m.record(false, true);
    m.record(false, true);
    m.record(false, true);
    m.record(false, false);
    assert_eq!(m.true_positive(), 2);
    assert_eq!(m.false_positive(), 1);
    assert_eq!(m.false_negative(), 3);
    assert_eq!(m.true_negative(), 1);
    assert_eq!(m.count(), 7);
    assert_eq!(
        m.count(),
        m.true_positive() + m.true_negative() + m.false_positive() + m.false_negative()
    );
    m.reset();
    assert_eq!(m.count(), 0);
    assert_eq!(m.true_positive(), 0);
    assert_eq!(m.false_negative(), 0);
}

#[test]
fn confusion_matrices_are_found_by_index_and_by_name() {
    let mut all = ConfusionMatrices::new();
    all.add_column(4, Some("has_horizontal".to_string()));
    all.add_column(5, None);
    all.add_column(4, Some("has_vertical".to_string()));
    assert_eq!(all.len(), 3);
    all.record_for_output_index(0, true, true);
    all.record_for_output_index(2, false, true);
    all.record_for_output_index(2, false, false);

    let first = all.get_for_column_index(4).unwrap();
    assert_eq!(first.count(), 1);
    assert_eq!(first.true_positive(), 1);
    assert_eq!(all.get_for_column_index(5).unwrap().count(), 0);
    assert!(all.get_for_column_index(6).is_none());

    let named = all.get_for_column_name("has_vertical").unwrap();
    assert_eq!(named.count(), 2);
    assert_eq!(named.false_negative(), 1);
    assert_eq!(named.true_negative(), 1);
    assert_eq!(all.get_for_column_name("has_horizontal").unwrap().count(), 1);
    assert!(all.get_for_column_name("has_diagonal").is_none());
    assert!(all.get_for_column_name("").is_none());
}

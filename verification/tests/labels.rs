use spark_bert::Idx;
use spark_bert::unique_labels;

#[test]
fn should_return_unique_labels() {
    let labels = [
        Idx::new(2),
        Idx::new(1),
        Idx::new(2),
        Idx::new(3),
        Idx::new(1),
    ];

    let uniques = unique_labels(&labels);

    assert_eq!(uniques, vec![Idx::new(1), Idx::new(2), Idx::new(3)]);
}

#[test]
fn unique_labels_drops_sentinels() {
    let labels = [Idx::none(), Idx::new(5), Idx::none(), Idx::new(4)];
    let uniques = unique_labels(&labels);
    assert_eq!(uniques, vec![Idx::new(4), Idx::new(5)]);
}

#[test]
fn unique_labels_of_empty_is_empty() {
    let labels: [Idx; 0] = [];
    assert_eq!(unique_labels(&labels), vec![]);
}

#[test]
fn idx_sentinel_roundtrip() {
    let none = Idx::none();
    assert!(none.is_none());
    assert!(!none.is_some());
    assert_eq!(none.get(), None);
    assert_eq!(none.to_native(), -1);

    let some = Idx::new(42);
    assert!(some.is_some());
    assert!(!some.is_none());
    assert_eq!(some.get(), Some(42));
    assert_eq!(some.to_native(), 42);
}

use spark_bert::RetrievalError;
use spark_bert::TokenTable;
use spark_bert::parse_u64;

#[test]
fn a_json_object_loads_into_the_table() {
    let table = TokenTable::from_json("{\"0\": \"alpha\", \"17\": \"beta\"}").unwrap();
    assert_eq!(table.len(), 2);
    assert_eq!(table.get(0).map(String::as_str), Some("alpha"));
    assert_eq!(table.get(17).map(String::as_str), Some("beta"));
    assert_eq!(table.get(3), None);
}

#[test]
fn a_non_object_document_is_malformed() {
    assert!(matches!(
        TokenTable::from_json("[1, 2, 3]"),
        Err(RetrievalError::MalformedTable)
    ));
    assert!(matches!(
        TokenTable::from_json("not json at all"),
        Err(RetrievalError::MalformedTable)
    ));
}

#[test]
fn a_non_decimal_key_is_malformed() {
    assert!(matches!(
        TokenTable::from_json("{\"seven\": \"t\"}"),
        Err(RetrievalError::MalformedTable)
    ));
    assert!(matches!(
        TokenTable::from_json("{\"-1\": \"t\"}"),
        Err(RetrievalError::MalformedTable)
    ));
    assert!(matches!(
        TokenTable::from_json("{\"18446744073709551616\": \"t\"}"),
        Err(RetrievalError::MalformedTable)
    ));
}

#[test]
fn the_largest_id_is_accepted() {
    let table = TokenTable::from_json("{\"18446744073709551615\": \"last\"}").unwrap();
    assert_eq!(table.get(u64::MAX).map(String::as_str), Some("last"));
}

#[test]
fn two_keys_with_one_id_are_rejected() {
    // distinct JSON keys that denote the same number
    assert!(matches!(
        TokenTable::from_json("{\"7\": \"a\", \"07\": \"b\"}"),
        Err(RetrievalError::DuplicateTableId)
    ));
    assert!(matches!(
        TokenTable::new(vec![(7, "a".to_string()), (7, "b".to_string())]),
        Err(RetrievalError::DuplicateTableId)
    ));
}

#[test]
fn decimal_parsing_covers_the_whole_range() {
    assert_eq!(parse_u64("0"), Some(0));
    assert_eq!(parse_u64("123"), Some(123));
    assert_eq!(parse_u64("007"), Some(7));
    assert_eq!(parse_u64("18446744073709551615"), Some(u64::MAX));
    assert_eq!(parse_u64("18446744073709551616"), None);
    assert_eq!(parse_u64(""), None);
    assert_eq!(parse_u64("1x"), None);
    assert_eq!(parse_u64(" 1"), None);
}

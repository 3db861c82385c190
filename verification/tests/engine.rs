use spark_bert::Config;
use spark_bert::FixtureIndex;
use spark_bert::Idx;
use spark_bert::InvertedIndex;
use spark_bert::RetrievalError;
use spark_bert::SparkBert;
use spark_bert::TokenTable;
use spark_bert::VectorVocabulary;

fn bits(xs: &[f32]) -> Vec<u32> {
    xs.iter().map(|x| x.to_bits()).collect()
}

fn reference_fp8(x: f32) -> u8 {
    float8::F8E4M3::from_f32(x).to_bits()
}

fn table_ab() -> TokenTable {
    TokenTable::new(vec![(0, "A".to_string()), (1, "B".to_string())]).unwrap()
}

// A two-entry vocabulary: id 0 is token A at [1, 0], id 1 is token B at
// [0, 1].  Searching with `doc` returns both entries; searching with `query`
// returns both as well.
fn fixture() -> FixtureIndex {
    let vectors = vec![bits(&[1.0, 0.0]), bits(&[0.0, 1.0])];
    let answers = vec![
        (bits(&[0.6, 0.8]), vec![Idx::new(0), Idx::new(1)]),
        (bits(&[0.9, 0.1]), vec![Idx::new(0), Idx::new(1)]),
    ];
    FixtureIndex::new(2, vectors, answers).unwrap()
}

fn engine() -> SparkBert<FixtureIndex> {
    let vocabulary = VectorVocabulary::build(fixture(), table_ab());
    let config = Config {
        index_n_neighbors: 2,
        min_score_bits: 0.0f32.to_bits(),
        max_df_percent: 15,
    };
    SparkBert::new(vocabulary, config)
}

#[test]
fn round_trip_returns_the_sum_of_quantized_weights() {
    let mut spark = engine();
    let doc_embs = bits(&[0.6, 0.8]);

    let (tokens, token_vecs) = spark.project_document(&doc_embs).unwrap();
    assert_eq!(tokens, vec!["A".to_string(), "B".to_string()]);
    assert_eq!(token_vecs, bits(&[1.0, 0.0, 0.0, 1.0]));

    spark
        .index(7, tokens, bits(&[0.9, 0.4]))
        .unwrap();
    spark.finalize(false).unwrap();

    let hits = spark.search(&bits(&[0.9, 0.1]), 2, 10).unwrap();
    let expected = reference_fp8(0.9) as u64 + reference_fp8(0.4) as u64;
    assert_eq!(hits, vec![(7, expected)]);
}

#[test]
fn search_is_deterministic_for_a_fixed_index_and_query() {
    let mut spark = engine();
    let (tokens, _) = spark.project_document(&bits(&[0.6, 0.8])).unwrap();
    spark.index(7, tokens, bits(&[0.9, 0.4])).unwrap();
    spark.finalize(false).unwrap();

    let first = spark.search(&bits(&[0.9, 0.1]), 2, 10).unwrap();
    let second = spark.search(&bits(&[0.9, 0.1]), 2, 10).unwrap();
    assert_eq!(first, second);
}

#[test]
fn projection_fails_on_a_ragged_embedding_batch() {
    let mut spark = engine();
    let ragged = bits(&[0.5, 0.5, 0.5]);
    assert_eq!(
        spark.project_document(&ragged),
        Err(RetrievalError::DimensionMismatch)
    );
}

#[test]
fn projection_fails_on_an_unknown_vocabulary_id() {
    let vectors = vec![bits(&[1.0, 0.0]), bits(&[0.0, 1.0])];
    let answers = vec![(bits(&[0.6, 0.8]), vec![Idx::new(0), Idx::new(1)])];
    let index = FixtureIndex::new(2, vectors, answers).unwrap();
    // the table knows id 0 only: id 1 is out of sync with the vector index
    let table = TokenTable::new(vec![(0, "A".to_string())]).unwrap();
    let vocabulary = VectorVocabulary::build(index, table);
    let config = Config {
        index_n_neighbors: 2,
        min_score_bits: 0,
        max_df_percent: 15,
    };
    let mut spark = SparkBert::new(vocabulary, config);
    assert_eq!(
        spark.project_document(&bits(&[0.6, 0.8])),
        Err(RetrievalError::UnknownTokenId)
    );
}

#[test]
fn search_fails_on_a_ragged_query_embedding() {
    let mut spark = engine();
    let ragged = bits(&[0.9]);
    assert_eq!(
        spark.search(&ragged, 2, 10),
        Err(RetrievalError::DimensionMismatch)
    );
}

#[test]
fn an_unscripted_query_surfaces_an_ann_failure() {
    let mut spark = engine();
    assert_eq!(
        spark.project_document(&bits(&[0.1, 0.2])),
        Err(RetrievalError::AnnFailure)
    );
}

#[test]
fn num_docs_counts_the_searchable_generation() {
    let mut spark = engine();
    assert_eq!(spark.get_num_docs(), 0);
    let (tokens, _) = spark.project_document(&bits(&[0.6, 0.8])).unwrap();
    spark.index(7, tokens, bits(&[0.9, 0.4])).unwrap();
    assert_eq!(spark.get_num_docs(), 0);
    spark.finalize(false).unwrap();
    assert_eq!(spark.get_num_docs(), 1);
}

#[test]
fn vocabulary_reports_its_size_and_dimension() {
    let spark_vocab = VectorVocabulary::build(fixture(), table_ab());
    assert_eq!(spark_vocab.get_num_tokens(), 2);
    assert_eq!(spark_vocab.get_embedding_dims(), 2);
}

#[test]
fn should_reconstruct_batch_of_embs() {
    let vectors = vec![bits(&[1.0, 0.0, 0.0]), bits(&[0.0, 1.0, 0.0])];
    let index = FixtureIndex::new(3, vectors, vec![]).unwrap();
    let labels = vec![Idx::new(0), Idx::new(1)];

    let embs = spark_bert::reconstruct_batch(&index, &labels).unwrap();

    assert_eq!(embs, bits(&[1.0, 0.0, 0.0, 0.0, 1.0, 0.0]));
}

#[test]
fn reconstruct_batch_rejects_an_unknown_id() {
    let index = FixtureIndex::new(2, vec![bits(&[1.0, 0.0])], vec![]).unwrap();
    let labels = vec![Idx::new(3)];
    assert_eq!(
        spark_bert::reconstruct_batch(&index, &labels),
        Err(RetrievalError::AnnFailure)
    );
}

#[test]
fn describe_names_every_error() {
    let errors = [
        RetrievalError::MalformedTable,
        RetrievalError::DuplicateTableId,
        RetrievalError::UnknownTokenId,
        RetrievalError::DimensionMismatch,
        RetrievalError::AnnFailure,
        RetrievalError::EmptyDocument,
        RetrievalError::AlreadyFinalized,
        RetrievalError::NotFinalized,
    ];
    for e in errors {
        assert!(!e.describe().is_empty());
    }
}

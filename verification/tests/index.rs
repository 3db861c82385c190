use spark_bert::DEFAULT_MIN_SCORE_BITS;
use spark_bert::InvertedIndex;
use spark_bert::RetrievalError;

fn reference_fp8(x: f32) -> u8 {
    float8::F8E4M3::from_f32(x).to_bits()
}

fn s(t: &str) -> String {
    t.to_string()
}

#[test]
fn empty_query_returns_an_empty_list_without_a_finalized_index() {
    let idx = InvertedIndex::open(0, 15);
    let hits = idx.search(&vec![], 10).unwrap();
    assert_eq!(hits, vec![]);
}

#[test]
fn search_before_finalize_is_an_error() {
    let idx = InvertedIndex::open(0, 15);
    assert_eq!(
        idx.search(&vec![s("x")], 10),
        Err(RetrievalError::NotFinalized)
    );
}

#[test]
fn finalize_twice_is_an_error() {
    let mut idx = InvertedIndex::open(0, 15);
    idx.index(1, vec![s("x")], vec![1.0f32.to_bits()]).unwrap();
    idx.finalize(false).unwrap();
    assert_eq!(idx.finalize(false), Err(RetrievalError::AlreadyFinalized));
}

#[test]
fn indexing_after_finalize_is_an_error() {
    let mut idx = InvertedIndex::open(0, 15);
    idx.index(1, vec![s("x")], vec![1.0f32.to_bits()]).unwrap();
    idx.finalize(false).unwrap();
    assert_eq!(
        idx.index(2, vec![s("y")], vec![1.0f32.to_bits()]),
        Err(RetrievalError::AlreadyFinalized)
    );
}

#[test]
fn a_document_with_no_surviving_token_aborts_finalize() {
    let mut idx = InvertedIndex::open(DEFAULT_MIN_SCORE_BITS, 15);
    // 0.9 is far below the default threshold of 22.7136
    idx.index(1, vec![s("x")], vec![0.9f32.to_bits()]).unwrap();
    assert_eq!(idx.finalize(false), Err(RetrievalError::EmptyDocument));
    // all-or-nothing: the index is still not searchable
    assert_eq!(
        idx.search(&vec![s("x")], 10),
        Err(RetrievalError::NotFinalized)
    );
    assert_eq!(idx.get_num_docs(), 0);
}

#[test]
fn top_k_comes_back_in_descending_score_order() {
    // single-token documents whose scores quantize to weights 30, 10 and 20
    assert_eq!(reference_fp8(0.109375), 30);
    assert_eq!(reference_fp8(0.01953125), 10);
    assert_eq!(reference_fp8(0.046875), 20);

    let mut idx = InvertedIndex::open(0, 15);
    idx.index(1, vec![s("x")], vec![0.109375f32.to_bits()])
        .unwrap();
    idx.index(2, vec![s("x")], vec![0.01953125f32.to_bits()])
        .unwrap();
    idx.index(3, vec![s("x")], vec![0.046875f32.to_bits()])
        .unwrap();
    idx.finalize(false).unwrap();

    let hits = idx.search(&vec![s("x")], 2).unwrap();
    assert_eq!(hits, vec![(1, 30), (3, 20)]);

    let all = idx.search(&vec![s("x")], 10).unwrap();
    assert_eq!(all, vec![(1, 30), (3, 20), (2, 10)]);
}

#[test]
fn equal_scores_break_ties_by_ascending_document_id() {
    let mut idx = InvertedIndex::open(0, 15);
    idx.index(9, vec![s("x")], vec![1.0f32.to_bits()]).unwrap();
    idx.index(4, vec![s("x")], vec![1.0f32.to_bits()]).unwrap();
    idx.finalize(false).unwrap();

    let w = reference_fp8(1.0) as u64;
    let hits = idx.search(&vec![s("x")], 5).unwrap();
    assert_eq!(hits, vec![(4, w), (9, w)]);
}

#[test]
fn a_frequent_token_is_pruned_and_unsearchable() {
    // "the" sits in two documents of three: a 67% ratio, over the 50% cap
    let mut idx = InvertedIndex::open(0, 50);
    idx.index(
        1,
        vec![s("the"), s("u1")],
        vec![1.0f32.to_bits(), 1.0f32.to_bits()],
    )
    .unwrap();
    idx.index(
        2,
        vec![s("the"), s("u2")],
        vec![1.0f32.to_bits(), 1.0f32.to_bits()],
    )
    .unwrap();
    idx.index(3, vec![s("u3")], vec![1.0f32.to_bits()]).unwrap();
    idx.finalize(true).unwrap();

    // the pruned token matches nothing, though it was added during ingestion
    assert_eq!(idx.search(&vec![s("the")], 10).unwrap(), vec![]);
    // the rare tokens survive
    let w = reference_fp8(1.0) as u64;
    assert_eq!(idx.search(&vec![s("u1")], 10).unwrap(), vec![(1, w)]);
    assert_eq!(idx.search(&vec![s("u2")], 10).unwrap(), vec![(2, w)]);
}

#[test]
fn pruning_applies_exactly_at_the_ratio() {
    // two documents of four is a 50% ratio: at the 50% cap, pruned; the
    // singleton tokens sit at 25% and survive
    let mut idx = InvertedIndex::open(0, 50);
    idx.index(
        1,
        vec![s("half"), s("k1")],
        vec![1.0f32.to_bits(), 1.0f32.to_bits()],
    )
    .unwrap();
    idx.index(
        2,
        vec![s("half"), s("k2")],
        vec![1.0f32.to_bits(), 1.0f32.to_bits()],
    )
    .unwrap();
    idx.index(3, vec![s("k3")], vec![1.0f32.to_bits()]).unwrap();
    idx.index(4, vec![s("k4")], vec![1.0f32.to_bits()]).unwrap();
    idx.finalize(true).unwrap();
    assert_eq!(idx.search(&vec![s("half")], 10).unwrap(), vec![]);
    let w = reference_fp8(1.0) as u64;
    assert_eq!(idx.search(&vec![s("k3")], 10).unwrap(), vec![(3, w)]);
}

#[test]
fn pruning_off_keeps_every_token() {
    let mut idx = InvertedIndex::open(0, 50);
    idx.index(1, vec![s("the")], vec![1.0f32.to_bits()]).unwrap();
    idx.index(2, vec![s("the")], vec![1.0f32.to_bits()]).unwrap();
    idx.finalize(false).unwrap();
    let w = reference_fp8(1.0) as u64;
    assert_eq!(
        idx.search(&vec![s("the")], 10).unwrap(),
        vec![(1, w), (2, w)]
    );
}

#[test]
fn a_query_of_several_tokens_sums_term_frequencies() {
    let mut idx = InvertedIndex::open(0, 15);
    idx.index(
        1,
        vec![s("a"), s("b")],
        vec![0.109375f32.to_bits(), 0.046875f32.to_bits()],
    )
    .unwrap();
    idx.index(2, vec![s("a")], vec![0.01953125f32.to_bits()]).unwrap();
    idx.finalize(false).unwrap();

    let hits = idx.search(&vec![s("a"), s("b")], 10).unwrap();
    assert_eq!(hits, vec![(1, 50), (2, 10)]);
}

#[test]
fn indexing_the_same_document_twice_extends_its_pending_list() {
    let mut idx = InvertedIndex::open(0, 15);
    idx.index(1, vec![s("a")], vec![0.109375f32.to_bits()]).unwrap();
    idx.index(1, vec![s("b")], vec![0.046875f32.to_bits()]).unwrap();
    idx.finalize(false).unwrap();
    assert_eq!(idx.get_num_docs(), 1);
    let hits = idx.search(&vec![s("a"), s("b")], 10).unwrap();
    assert_eq!(hits, vec![(1, 50)]);
}

#[test]
fn a_zero_weight_entry_contributes_nothing() {
    // +0.0 passes a zero threshold but rounds to the zero pattern
    let mut idx = InvertedIndex::open(0, 15);
    idx.index(
        1,
        vec![s("zero"), s("keep")],
        vec![0.0f32.to_bits(), 1.0f32.to_bits()],
    )
    .unwrap();
    idx.finalize(false).unwrap();
    assert_eq!(idx.search(&vec![s("zero")], 10).unwrap(), vec![]);
    let w = reference_fp8(1.0) as u64;
    assert_eq!(idx.search(&vec![s("keep")], 10).unwrap(), vec![(1, w)]);
}

use spark_bert::RetrievalError;
use spark_bert::calculate_max_sim;

fn dot(a: &[f32], b: &[f32]) -> f32 {
    let mut s = 0.0f32;
    for i in 0..a.len() {
        s += a[i] * b[i];
    }
    s
}

// Build the row-major score matrix (one row per document vector, one column
// per token vector), as the host does with its tensor library.
fn score_matrix(doc_embs: &[f32], token_embs: &[f32], d: usize) -> Vec<u32> {
    let n1 = doc_embs.len() / d;
    let n2 = token_embs.len() / d;
    let mut out = Vec::new();
    for r in 0..n1 {
        for c in 0..n2 {
            out.push(dot(&doc_embs[r * d..(r + 1) * d], &token_embs[c * d..(c + 1) * d]).to_bits());
        }
    }
    out
}

#[test]
fn should_calculate_correct_max_sim_scores() {
    let doc_embs = vec![1f32, 2f32, 2f32, 1f32];
    let token_embs = vec![2f32, 4f32, 5f32, 1f32, 1f32, 1f32];
    let d = 2;
    let matrix = score_matrix(&doc_embs, &token_embs, d);
    let scores = calculate_max_sim(&matrix, token_embs.len() / d).unwrap();
    let scores_f32: Vec<f32> = scores.into_iter().map(f32::from_bits).collect();
    assert_eq!(scores_f32, vec![10f32, 11f32, 3f32]);
}

#[test]
fn max_sim_of_no_rows_is_empty() {
    let matrix: Vec<u32> = vec![];
    assert_eq!(calculate_max_sim(&matrix, 3).unwrap(), Vec::<u32>::new());
    assert_eq!(calculate_max_sim(&matrix, 0).unwrap(), Vec::<u32>::new());
}

#[test]
fn max_sim_rejects_a_ragged_matrix() {
    let matrix: Vec<u32> = vec![0, 0, 0, 0];
    assert_eq!(
        calculate_max_sim(&matrix, 3),
        Err(RetrievalError::DimensionMismatch)
    );
}

#[test]
fn max_sim_ignores_nan_after_the_first_row() {
    let matrix = vec![1.0f32.to_bits(), f32::NAN.to_bits(), 2.0f32.to_bits()];
    let scores = calculate_max_sim(&matrix, 1).unwrap();
    assert_eq!(f32::from_bits(scores[0]), 2.0);
}

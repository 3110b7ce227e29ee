use nous_memory::error::Error;
use nous_memory::models::{
    check_rerank, validate_embedding, EmbeddingResult, ModelEndpoint, ModelRole, RankedIndex,
    RerankResult, ResponseBudget, VectorShape,
};

fn config() -> ModelEndpoint {
    ModelEndpoint {
        enabled: true,
        endpoint: "https://models.example/v1".to_string(),
        model: "m".to_string(),
        revision: "r1".to_string(),
        preprocessing: "identity".to_string(),
        timeout_seconds: 5,
        max_response_bytes: 10,
    }
}

#[test]
fn response_budget_fails_the_chunk_that_overflows() {
    let mut budget = ResponseBudget::new(10);
    assert!(budget.accept_chunk(6, ModelRole::Embedding).is_ok());
    assert!(budget.accept_chunk(4, ModelRole::Embedding).is_ok());
    assert_eq!(budget.received(), 10);
    assert!(budget.accept_chunk(0, ModelRole::Rerank).is_ok());
    assert!(matches!(budget.accept_chunk(1, ModelRole::Generation), Err(Error::Invalid(_))));
    assert_eq!(budget.received(), 10);
    let mut empty = ResponseBudget::new(0);
    assert!(empty.accept_chunk(1, ModelRole::Rerank).is_err());
}

fn ranked(indices: &[(usize, bool)]) -> RerankResult {
    RerankResult {
        model: "m".to_string(),
        revision: "r1".to_string(),
        ranked: indices.iter().map(|&(index, score_finite)| RankedIndex { index, score_finite }).collect(),
    }
}

#[test]
fn rerank_must_rank_each_document_once() {
    assert!(check_rerank(&ranked(&[(2, true), (0, true), (1, true)]), &config(), 3).is_ok());
    assert!(matches!(check_rerank(&ranked(&[(0, true), (0, true), (1, true)]), &config(), 3), Err(Error::Invalid(_))));
    assert!(check_rerank(&ranked(&[(0, true), (3, true), (1, true)]), &config(), 3).is_err());
    assert!(check_rerank(&ranked(&[(0, true), (1, true)]), &config(), 3).is_err());
    assert!(check_rerank(&ranked(&[(0, true), (1, false)]), &config(), 2).is_err());
    let mut other = ranked(&[(0, true)]);
    other.revision = "r2".to_string();
    assert!(check_rerank(&other, &config(), 1).is_err());
    assert!(check_rerank(&ranked(&[]), &config(), 0).is_ok());
}

fn embedding(shapes: &[(usize, bool)]) -> EmbeddingResult {
    EmbeddingResult {
        model: "m".to_string(),
        revision: "r1".to_string(),
        vectors: shapes.iter().map(|&(dimension, values_finite)| VectorShape { dimension, values_finite }).collect(),
    }
}

#[test]
fn embeddings_share_one_bounded_dimension() {
    assert!(validate_embedding(&embedding(&[(3, true), (3, true)]), &config(), 2).is_ok());
    assert!(matches!(validate_embedding(&embedding(&[(3, true), (4, true)]), &config(), 2), Err(Error::Invalid(_))));
    assert!(validate_embedding(&embedding(&[(3, true)]), &config(), 2).is_err());
    assert!(validate_embedding(&embedding(&[(0, true)]), &config(), 1).is_err());
    assert!(validate_embedding(&embedding(&[(65537, true)]), &config(), 1).is_err());
    assert!(validate_embedding(&embedding(&[(65536, true)]), &config(), 1).is_ok());
    assert!(validate_embedding(&embedding(&[(3, true), (3, false)]), &config(), 2).is_err());
    assert!(validate_embedding(&embedding(&[]), &config(), 0).is_err());
}

use wukong::memory::answering::{answer, fetch_limit, query_hash, start_recall};
use wukong::memory::candidates::{
    apply_vector_sims, build_vector_candidates, filter_by_scope, merge_candidates, rank, Candidate, ScoreParts, Scored,
};
use wukong::memory::embed::{blob_to_embedding, embedding_to_blob, MockEmbedder};
use wukong::memory::error::MemoryError;
use wukong::memory::model::{MemoryKind, RecallMode, RecallQuery};
use wukong::memory::scope::Scope;
use wukong::order::Real;

fn number(x: f64) -> Real {
    Real { bits: x.to_bits() }
}

fn value(x: Real) -> f64 {
    f64::from_bits(x.bits)
}

fn cand(id: i64, scope: &str, created_at: i64, bm25: Option<Real>) -> Candidate {
    Candidate {
        id,
        scope: scope.to_string(),
        kind: MemoryKind::Note,
        text: format!("memory {id}"),
        created_at,
        recall_count: 0,
        importance: number(1.0),
        bm25,
        vector_sim: None,
        source_signals: Vec::new(),
    }
}

fn query(text: &str, scope: Option<&str>) -> RecallQuery {
    RecallQuery {
        query: text.to_string(),
        top_k: 5,
        scope: scope.map(|s| s.to_string()),
        mode: RecallMode::Hybrid,
    }
}

fn scaled(x: Option<Real>, all: &[f64], low_is_best: bool) -> f64 {
    let (lo, hi) = (
        all.iter().cloned().fold(f64::INFINITY, f64::min),
        all.iter().cloned().fold(f64::NEG_INFINITY, f64::max),
    );
    match x.map(value) {
        None => 0.0,
        Some(_) if (hi - lo).abs() < 1e-9 => 1.0,
        Some(b) if low_is_best => (hi - b) / (hi - lo),
        Some(b) => (b - lo) / (hi - lo),
    }
}

fn parts_for(cands: &[Candidate], now: i64) -> Vec<ScoreParts> {
    let words: Vec<f64> = cands.iter().filter_map(|c| c.bm25.map(value)).collect();
    let sims: Vec<f64> = cands.iter().filter_map(|c| c.vector_sim.map(value)).collect();
    cands
        .iter()
        .map(|c| {
            let lexical = scaled(c.bm25, &words, true);
            let semantic = scaled(c.vector_sim, &sims, false);
            let decay = 0.5f64.powf((now - c.created_at).max(0) as f64 / 86_400.0 / 90.0);
            let bonus = 0.02 * (1.0 + c.recall_count.max(0) as f64).ln();
            let score = 0.4 * lexical + 0.2 * semantic + 0.25 * decay + 0.15 * value(c.importance) + bonus;
            ScoreParts {
                score: number(score),
                lexical: number(lexical),
                semantic: number(semantic),
                relevance: number(lexical.max(semantic)),
                decay: number(decay),
                recall_bonus: number(bonus),
            }
        })
        .collect()
}

fn ranked(cands: Vec<Candidate>, now: i64, top_k: usize) -> Vec<Scored> {
    let parts = parts_for(&cands, now);
    rank(&cands, &parts, now, top_k)
}

fn blob(v: &[f32]) -> Vec<u8> {
    let bits: Vec<u32> = v.iter().map(|x| x.to_bits()).collect();
    embedding_to_blob(&bits)
}

fn closest(q: &[f32], embedded: Vec<(Candidate, Vec<u8>)>, limit: usize) -> Vec<Candidate> {
    let sims = embedded
        .iter()
        .map(|(_, b)| {
            let v: Vec<f64> = blob_to_embedding(b).into_iter().map(|x| f32::from_bits(x) as f64).collect();
            number(q.iter().zip(&v).map(|(x, y)| *x as f64 * y).sum())
        })
        .collect();
    let cands = embedded.into_iter().map(|(c, _)| c).collect();
    build_vector_candidates(&cands, &sims, limit)
}

#[test]
fn merge_prefers_keyword_rows() {
    let kw = vec![cand(1, "global", 100, Some(number(-2.0)))];
    let recent = vec![cand(1, "global", 100, None), cand(2, "global", 100, None)];
    let merged = merge_candidates(kw, &recent);
    assert_eq!(merged.len(), 2);
    let one = merged.iter().find(|c| c.id == 1).unwrap();
    assert!(one.bm25.is_some()); // kept keyword row
}

#[test]
fn scope_filter_includes_ancestry() {
    let cands = vec![
        cand(1, "agent:main", 100, None),
        cand(2, "global", 100, None),
        cand(3, "project:X", 100, None),
    ];
    let filtered = filter_by_scope(&cands, &Some(Scope::Agent("main".to_string())));
    let ids: Vec<i64> = filtered.iter().map(|c| c.id).collect();
    assert_eq!(ids, vec![1, 2]); // agent:main + global, not project:X
}

#[test]
fn rank_orders_by_score_and_truncates() {
    let cands = vec![
        cand(1, "global", 0, Some(number(-1.0))), // weaker match (less negative bm25)
        cand(2, "global", 0, Some(number(-5.0))), // stronger match (more negative bm25)
    ];
    let ranked = ranked(cands, 0, 1);
    assert_eq!(ranked.len(), 1);
    assert_eq!(ranked[0].id, 2); // more-negative bm25 = better match => higher lexical_norm
}

#[test]
fn rank_explains_score_components_and_signals() {
    let now = 200;
    let mut c = cand(1, "global", 100, Some(number(-5.0)));
    c.vector_sim = Some(number(0.9));
    c.importance = number(0.8);
    c.recall_count = 3;
    c.source_signals = vec![
        "keyword".to_string(),
        "recent".to_string(),
        "vector".to_string(),
    ];

    let ranked = ranked(vec![c], now, 1);

    assert_eq!(ranked.len(), 1);
    let explanation = &ranked[0].explanation;
    assert_eq!(value(explanation.lexical), 1.0);
    assert_eq!(value(explanation.semantic), 1.0);
    assert!(value(explanation.decay) > 0.99);
    assert_eq!(value(explanation.importance), 0.8);
    assert!(value(explanation.recall_bonus) > 0.0);
    assert_eq!(explanation.age_seconds, 100);
    assert_eq!(explanation.recall_count, 3);
    assert_eq!(
        explanation.source_signals,
        vec![
            "keyword".to_string(),
            "recent".to_string(),
            "vector".to_string()
        ]
    );
}

#[test]
fn merge_candidates_preserves_recent_signal_on_duplicate() {
    let mut keyword = cand(1, "global", 100, Some(number(-2.0)));
    keyword.source_signals = vec!["keyword".to_string()];
    let mut recent = cand(1, "global", 100, None);
    recent.source_signals = vec!["recent".to_string()];

    let merged = merge_candidates(vec![keyword], &vec![recent]);

    assert_eq!(merged.len(), 1);
    assert_eq!(
        merged[0].source_signals,
        vec!["keyword".to_string(), "recent".to_string()]
    );
}

#[test]
fn higher_vector_sim_outranks_when_equal_age() {
    let mut a = cand(1, "global", 0, None);
    let mut b = cand(2, "global", 0, None);
    a.vector_sim = Some(number(0.1));
    b.vector_sim = Some(number(0.9));
    let ranked = ranked(vec![a, b], 0, 2);
    assert_eq!(ranked[0].id, 2); // stronger semantic match wins
}

#[test]
fn build_vector_candidates_sorts_and_truncates() {
    let q = vec![1.0f32, 0.0];
    let embedded = vec![
        (cand(1, "global", 0, None), blob(&[0.0, 1.0])), // cosine 0
        (cand(2, "global", 0, None), blob(&[1.0, 0.0])), // cosine 1
    ];
    let out = closest(&q, embedded, 1);
    assert_eq!(out.len(), 1);
    assert_eq!(out[0].id, 2);
    assert!(out[0].vector_sim.map(value).unwrap() > 0.99);
}

#[test]
fn apply_vector_sims_merges_signals_and_appends() {
    let base = vec![cand(1, "global", 0, Some(number(-2.0)))]; // keyword hit
    let mut v1 = cand(1, "global", 0, None);
    v1.vector_sim = Some(number(0.8));
    let mut v2 = cand(2, "global", 0, None);
    v2.vector_sim = Some(number(0.5));
    let merged = apply_vector_sims(base, &vec![v1, v2]);
    assert_eq!(merged.len(), 2);
    let one = merged.iter().find(|c| c.id == 1).unwrap();
    assert!(one.bm25.is_some() && one.vector_sim == Some(number(0.8))); // both signals
}

#[test]
fn trivial_query_returns_empty() {
    assert!(start_recall(&query("of", None)).unwrap().is_none());
}

#[test]
fn low_information_cjk_query_is_skipped() {
    assert!(start_recall(&query("可以", None)).unwrap().is_none());
}

#[test]
fn short_cjk_query_is_not_treated_as_trivial() {
    assert!(start_recall(&query("連線", None)).unwrap().is_some());
}

#[test]
fn a_recall_needs_a_question_and_a_scope() {
    assert!(matches!(start_recall(&query("  ", None)), Err(MemoryError::InvalidQuery(_))));
    assert!(matches!(start_recall(&query("sqlite", Some("nonsense"))), Err(MemoryError::InvalidScope(_))));
    let search = start_recall(&query("sqlite", Some("project:Alpha"))).unwrap().unwrap();
    assert_eq!(search.scopes, Some(vec!["project:Alpha".to_string(), "global".to_string()]));
    assert_eq!(search.limit, fetch_limit(5));
}

#[test]
fn an_answer_names_its_evidence() {
    let cands = vec![cand(1, "global", 0, Some(number(-1.0))), cand(2, "global", 0, Some(number(-5.0)))];
    let parts = parts_for(&cands, 0);
    let a = answer(&cands, &parts, 0, 2);
    assert_eq!(a.hits.len(), 2);
    assert_eq!(a.evidence[0].id, 2);
    assert_eq!(a.touched, vec![2, 1]);
}

#[test]
fn questions_are_hashed_for_telemetry() {
    assert_eq!(query_hash(""), "cbf29ce484222325");
    assert_eq!(query_hash("a"), "af63dc4c8601ec8c");
}

#[test]
fn blob_roundtrip_preserves_values() {
    let v = vec![1.5f32, -2.25, 0.0, 3.125];
    let bits: Vec<u32> = v.iter().map(|x| x.to_bits()).collect();
    let restored: Vec<f32> = blob_to_embedding(&embedding_to_blob(&bits)).into_iter().map(f32::from_bits).collect();
    assert_eq!(v, restored);
    assert_eq!(embedding_to_blob(&[1.5f32.to_bits()]), 1.5f32.to_le_bytes().to_vec());
    assert_eq!(blob_to_embedding(&[0, 0, 0, 0, 9]).len(), 1);
}

#[test]
fn mock_is_deterministic() {
    let e = MockEmbedder::new(8);
    assert_eq!(e.buckets("hello"), e.buckets("hello"));
    assert_eq!(e.model_id(), "mock");
}

#[test]
fn mock_differs_for_different_text() {
    let e = MockEmbedder::new(8);
    assert_ne!(e.buckets("hello"), e.buckets("world!!"));
}

#[test]
fn mock_counts_bytes_by_place() {
    let e = MockEmbedder::new(8);
    assert_eq!(e.buckets("x").len(), 8);
    assert_eq!(e.dim(), 8);
    assert_eq!(e.buckets("x"), vec![1, 0, 0, 0, 0, 0, 0, 0]);
    assert_eq!(e.buckets("xx"), vec![1, 1, 0, 0, 0, 0, 0, 0]);
}

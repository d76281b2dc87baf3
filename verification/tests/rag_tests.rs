use pf2e_companion::rag::{
    check_embedding_dim, check_embedding_provider, check_query_dim, check_vector_count, chunk_paragraphs,
    dedupe_vector_rows, fuse_hits, scores_above, EmbedBatcher, HybridHit, SearchRow,
};

fn row(id: &str) -> SearchRow {
    SearchRow { id: id.to_string(), title: format!("T {id}"), kind: "note".to_string(), snippet: format!("S {id}") }
}

fn hit_with(f: Option<usize>, v: Option<usize>) -> HybridHit {
    HybridHit {
        id: String::new(),
        title: String::new(),
        kind: String::new(),
        snippet: String::new(),
        fts_rank: f,
        vec_rank: v,
        source: "",
    }
}

#[test]
fn chunk_paragraphs_empty_body_yields_nothing() {
    assert!(chunk_paragraphs("").is_empty());
    assert!(chunk_paragraphs("   \n\n   ").is_empty());
}

#[test]
fn chunk_paragraphs_short_body_is_one_chunk() {
    let body = "Just a single paragraph of text that's quite short.";
    let chunks = chunk_paragraphs(body);
    assert_eq!(chunks.len(), 1);
    assert_eq!(chunks[0], body);
}

#[test]
fn chunk_paragraphs_merges_small_paragraphs() {
    let body = "Para one is short.\n\nPara two is short.\n\nPara three is short.";
    let chunks = chunk_paragraphs(body);
    assert_eq!(chunks.len(), 1);
    assert!(chunks[0].contains("one"));
    assert!(chunks[0].contains("three"));
}

#[test]
fn chunk_paragraphs_splits_oversized() {
    let big = "x".repeat(2500);
    let body = format!("{big}\n\nSecond para is short.");
    let chunks = chunk_paragraphs(&body);
    assert_eq!(chunks.len(), 2, "oversized paragraph should split");
    assert!(chunks[0].len() >= 2000);
}

#[test]
fn chunk_paragraphs_merge_keeps_separator() {
    let chunks = chunk_paragraphs("  a  \n\n\n\nb\n\n");
    assert_eq!(chunks, vec!["a\n\nb".to_string()]);
    let long = "y".repeat(700);
    let chunks = chunk_paragraphs(&format!("{long}\n\nnext"));
    assert_eq!(chunks, vec![long.clone(), "next".to_string()]);
}

#[test]
fn rrf_score_orders_correctly() {
    // FTS rank 0 + vec rank 0  → score = 2 * 1/60
    // FTS rank 0 only           → 1/60
    // FTS rank 5 only           → 1/65
    let a = hit_with(Some(0), Some(0));
    let b = hit_with(Some(0), None);
    let c = hit_with(Some(5), None);
    assert!(scores_above(&a, &b));
    assert!(scores_above(&b, &c));
}

#[test]
fn fusion_ranks_overlap_first() {
    let fts = vec![row("a"), row("b"), row("c")];
    let vec = vec![row("c"), row("d")];
    let hits = fuse_hits(&fts, &vec);
    let ids: Vec<&str> = hits.iter().map(|h| h.id.as_str()).collect();
    // c: 1/62 + 1/60 (both); a: 1/60; b and d tie at 1/61.
    assert_eq!(ids, vec!["c", "a", "b", "d"]);
    assert_eq!(hits[0].source, "both");
    assert_eq!(hits[0].fts_rank, Some(2));
    assert_eq!(hits[0].vec_rank, Some(0));
    assert_eq!(hits[0].title, "T c");
    assert_eq!(hits[1].source, "fts");
    assert_eq!(hits[3].source, "vec");
    assert!(scores_above(&hits[0], &hits[1]));
}

#[test]
fn fusion_caps_at_fifty() {
    let fts: Vec<SearchRow> = (0..60).map(|i| row(&format!("e{i}"))).collect();
    let hits = fuse_hits(&fts, &Vec::new());
    assert_eq!(hits.len(), 50);
    assert_eq!(hits[0].id, "e0");
    assert_eq!(hits[49].id, "e49");
    assert!(fuse_hits(&Vec::new(), &Vec::new()).is_empty());
}

#[test]
fn vector_rows_deduped() {
    let raw = vec![row("a"), row("b"), row("a"), row("c")];
    let out = dedupe_vector_rows(&raw);
    let ids: Vec<&str> = out.iter().map(|r| r.id.as_str()).collect();
    assert_eq!(ids, vec!["a", "b", "c"]);
    let many: Vec<SearchRow> = (0..80).map(|i| row(&format!("r{i}"))).collect();
    assert_eq!(dedupe_vector_rows(&many).len(), 50);
}

#[test]
fn embed_batches_of_sixteen() {
    let mut b = EmbedBatcher::new();
    let body: String = (0..20).map(|i| format!("{}", "p".repeat(2000 + i))).collect::<Vec<_>>().join("\n\n");
    let batches = b.add_entity("lewisian:yhwh", &body);
    assert_eq!(batches.len(), 1);
    assert_eq!(batches[0].len(), 16);
    assert_eq!(batches[0][3].chunk_idx, 3);
    assert_eq!(batches[0][3].entity_id, "lewisian:yhwh");
    assert_eq!(b.pending.len(), 4);
    assert_eq!(b.entities_processed, 1);
    let none = b.add_entity("empty", "   ");
    assert!(none.is_empty());
    assert_eq!(b.entities_processed, 1);
    b.note_embedded(16);
    let last = b.finish().unwrap();
    assert_eq!(last.len(), 4);
    assert_eq!(last[0].chunk_idx, 16);
    assert!(b.finish().is_none());
    assert_eq!(b.chunks_embedded, 16);
}

#[test]
fn embedding_checks() {
    assert!(check_embedding_provider("ollama").is_ok());
    assert!(check_embedding_provider("anthropic").unwrap_err().contains("nomic-embed-text"));
    assert_eq!(check_vector_count(2, 3).unwrap_err(), "embed returned 2 vectors for 3 chunks");
    assert!(check_vector_count(3, 3).is_ok());
    assert_eq!(
        check_embedding_dim("tiny", 384).unwrap_err(),
        "embedding dimension mismatch: model `tiny` returned 384 dims, expected 768. Use a 768-dim model (e.g. `nomic-embed-text`)."
    );
    assert!(check_embedding_dim("nomic-embed-text", 768).is_ok());
    assert_eq!(check_query_dim(3).unwrap_err(), "query embedding has 3 dims, expected 768");
}

#[test]
fn hybrid_search_falls_back_to_fts_when_no_llm() {
    let fts = vec![row("lewisian:elijah-carmel"), row("lewisian:moses-staff")];
    let hits = fuse_hits(&fts, &vec![]);
    assert!(!hits.is_empty(), "FTS should still match `Carmel` literal");
    assert_eq!(hits[0].id, "lewisian:elijah-carmel");
    assert_eq!(hits[0].source, "fts");
    let ids: Vec<&str> = hits.iter().map(|h| h.id.as_str()).collect();
    assert_eq!(ids, vec!["lewisian:elijah-carmel", "lewisian:moses-staff"]);
    assert_eq!(hits[1].fts_rank, Some(1));
}

#[test]
fn hybrid_search_fuses_fts_and_vector() {
    let vec_rows = vec![row("lewisian:elijah-carmel"), row("lewisian:moses-staff"), row("lewisian:david-goliath")];
    let hits = fuse_hits(&vec![], &vec_rows);
    assert!(!hits.is_empty(), "vector half should produce hits");
    assert_eq!(hits[0].id, "lewisian:elijah-carmel", "hybrid fusion must rank the semantic match first");
    assert_eq!(hits[0].source, "vec");
}

#[test]
fn hybrid_search_marks_overlapping_hits_as_both() {
    let fts = vec![row("lewisian:elijah-carmel")];
    let vec_rows = vec![row("lewisian:elijah-carmel"), row("lewisian:moses-staff"), row("lewisian:david-goliath")];
    let hits = fuse_hits(&fts, &vec_rows);
    let carmel = hits.iter().find(|h| h.id == "lewisian:elijah-carmel").expect("carmel hit present");
    assert_eq!(carmel.source, "both");
}

#[test]
fn chunk_paragraphs_are_consecutive_runs() {
    let long = "a".repeat(700);
    let body = format!("{long}\n\nb\n\nc\n\n{long}\n\nd");
    let chunks = chunk_paragraphs(&body);
    assert_eq!(chunks, vec![long.clone(), format!("b\n\nc\n\n{long}"), "d".to_string()]);
}

#[test]
fn fusion_ranks_are_list_positions() {
    let fts = vec![row("a"), row("b"), row("a")];
    let vec = vec![row("b"), row("c")];
    let hits = fuse_hits(&fts, &vec);
    assert_eq!(hits.len(), 3);
    for h in &hits {
        let (f, v) = match h.id.as_str() {
            "a" => (Some(2), None),
            "b" => (Some(1), Some(0)),
            "c" => (None, Some(1)),
            other => panic!("unexpected id {other}"),
        };
        assert_eq!((h.fts_rank, h.vec_rank), (f, v));
    }
}

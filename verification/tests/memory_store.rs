use wukong::memory::consolidate::{ConcatSummarizer, ConsolidatePolicy, MockSummarizer, Summarizer};
use wukong::memory::embed::{blob_to_embedding, embedding_to_blob};
use wukong::memory::error::MemoryError;
use wukong::memory::markdown::{civil_from_days, render_markdown_entry, scope_to_filename};
use wukong::memory::model::{MemoryItem, MemoryKind, RememberInput};
use wukong::memory::prune::PrunePolicy;
use wukong::memory::store::Store;
use wukong::order::Real;

const NOW: i64 = 1_780_000_000;

fn number(x: f64) -> Real {
    Real { bits: x.to_bits() }
}

fn blob(v: &[f32]) -> Vec<u8> {
    let bits: Vec<u32> = v.iter().map(|x| x.to_bits()).collect();
    embedding_to_blob(&bits)
}

fn unblob(b: &[u8]) -> Vec<f32> {
    blob_to_embedding(b).into_iter().map(f32::from_bits).collect()
}

fn event(text: &str) -> MemoryItem {
    MemoryItem { kind: MemoryKind::Event, text: text.to_string(), importance: None, dedupe_key: None }
}

fn remember_event(mem: &mut Store, scope: &str, text: &str) {
    mem.remember(
        &RememberInput { scope: scope.to_string(), session_id: None, items: vec![event(text)] },
        NOW,
    )
    .unwrap();
}

#[test]
fn insert_and_recent() {
    let mut store = Store::new();
    store
        .insert_memory(None, "global", MemoryKind::Note, "first", number(1.0), 100, None);
    store
        .insert_memory(None, "global", MemoryKind::Note, "second", number(1.0), 200, None);
    let recent = store.recent_candidates(10, None);
    assert_eq!(recent.len(), 2);
    assert_eq!(recent[0].text, "second"); // newest first
    assert!(recent[0].bm25.is_none());
}

#[test]
fn stats_counts_by_scope() {
    let mut store = Store::new();
    store
        .insert_memory(None, "global", MemoryKind::Note, "a", number(1.0), 100, None);
    store
        .insert_memory(None, "project:X", MemoryKind::Note, "b", number(1.0), 100, None);
    let stats = store.stats();
    assert_eq!(stats.total, 2);
    assert_eq!(stats.by_scope.len(), 2);
}

#[test]
fn list_records_filters_scope_kind_and_limit() {
    let mut store = Store::new();
    let now = 1_700_000_000;

    store
        .insert_memory(
            None,
            "global",
            MemoryKind::Note,
            "global note",
            number(0.7),
            now,
            None,
        );
    store
        .insert_memory(
            None,
            "project:Wukong",
            MemoryKind::Decision,
            "keep this",
            number(1.0),
            now + 1,
            None,
        );
    store
        .insert_memory(
            None,
            "project:Wukong",
            MemoryKind::Note,
            "skip kind",
            number(0.4),
            now + 2,
            None,
        );

    let rows = store
        .list_records(Some("project:Wukong"), Some(MemoryKind::Decision), 10);

    assert_eq!(rows.len(), 1);
    assert_eq!(rows[0].scope, "project:Wukong");
    assert_eq!(rows[0].kind, MemoryKind::Decision);
    assert_eq!(rows[0].text, "keep this");
}

#[test]
fn touch_recalled_bumps_count() {
    let mut store = Store::new();
    let id = store
        .insert_memory(None, "global", MemoryKind::Note, "a", number(1.0), 100, None)
        .0;
    store.touch_recalled(&vec![id], 500);
    let recent = store.recent_candidates(1, None);
    assert_eq!(recent[0].recall_count, 1);
}

#[test]
fn recent_candidates_spend_the_limit_inside_the_scope() {
    let mut store = Store::new();
    store
        .insert_memory(None, "project:Alpha", MemoryKind::Note, "alpha", number(1.0), 100, None);
    for i in 0..60 {
        store
            .insert_memory(
                None,
                "project:Beta",
                MemoryKind::Note,
                "beta",
                number(1.0),
                200 + i,
                None,
            );
    }

    let scoped = vec!["project:Alpha".to_string()];
    let rows = store.recent_candidates(50, Some(&scoped));

    assert_eq!(rows.len(), 1);
    assert_eq!(rows[0].text, "alpha");
    // Unfiltered, the same limit returns only the newer Beta rows.
    let all = store.recent_candidates(50, None);
    assert_eq!(all.len(), 50);
    assert!(all.iter().all(|c| c.scope == "project:Beta"));
}

#[test]
fn embedded_candidates_honour_the_scope_filter() {
    let mut store = Store::new();
    let a = store
        .insert_memory(None, "project:Alpha", MemoryKind::Note, "a", number(1.0), 100, None)
        .0;
    let b = store
        .insert_memory(None, "project:Beta", MemoryKind::Note, "b", number(1.0), 200, None)
        .0;
    for id in [a, b] {
        store
            .update_embedding(id, blob(&[1.0f32, 0.0]), "mock");
    }

    let scoped = vec!["project:Alpha".to_string()];
    let rows = store.embedded_candidates(50, Some(&scoped));

    assert_eq!(rows.len(), 1);
    assert_eq!(rows[0].0.scope, "project:Alpha");
    assert_eq!(store.embedded_candidates(50, None).len(), 2);
}

#[test]
fn count_prune_candidates_matches_the_id_list() {
    let mut store = Store::new();
    let now = 1_000_000_000i64;
    let old = now - 40 * 86_400;
    let a = store
        .insert_memory(None, "project:X", MemoryKind::Event, "a", number(1.0), old, None)
        .0;
    store.mark_consolidated(&vec![a], 999);
    store
        .insert_memory(None, "project:X", MemoryKind::Note, "b", number(0.2), old, None);
    store
        .insert_memory(None, "project:X", MemoryKind::Note, "c", number(0.9), old, None);

    for scope in [Some("project:X"), None] {
        let ids = store
            .prune_candidates(scope, 30 * 86_400, number(0.5), now);
        let count = store
            .count_prune_candidates(scope, 30 * 86_400, number(0.5), now);
        assert_eq!(count, ids.len() as i64);
    }
}

#[test]
fn session_lease_is_exclusive_and_expiry_is_reclaimable() {
    let mut store = Store::new();
    store
        .set_agent_session("global", "ses_1", 100);

    assert!(store
        .acquire_agent_session_lease("global", "owner-1", 100, 10)
        .is_some());
    assert!(store
        .acquire_agent_session_lease("global", "owner-2", 105, 10)
        .is_none());
    assert!(!store
        .renew_agent_session_lease("global", "owner-2", 106, 10));
    assert!(store
        .renew_agent_session_lease("global", "owner-1", 106, 10));
    assert!(store
        .finish_agent_session_turn("global", "owner-2", Some("ses_2"), 107)
        .is_none());
    assert!(store
        .acquire_agent_session_lease("global", "owner-2", 117, 10)
        .is_some());
}

#[test]
fn update_and_read_embedding() {
    let mut store = Store::new();
    let id = store
        .insert_memory(None, "global", MemoryKind::Note, "vec me", number(1.0), 100, None)
        .0;
    let v = vec![0.1f32, 0.2, 0.3];
    store
        .update_embedding(id, blob(&v), "mock");
    let embedded = store.embedded_candidates(10, None);
    assert_eq!(embedded.len(), 1);
    assert_eq!(embedded[0].0.id, id);
    // The blob comes back undecoded; it must round-trip to the original vector.
    assert_eq!(unblob(&embedded[0].1), v);
}

#[test]
fn rows_missing_embedding_excludes_embedded() {
    let mut store = Store::new();
    let a = store
        .insert_memory(None, "global", MemoryKind::Note, "a", number(1.0), 100, None)
        .0;
    let _b = store
        .insert_memory(None, "global", MemoryKind::Note, "b", number(1.0), 100, None);
    store
        .update_embedding(a, blob(&[1.0f32]), "mock");
    let missing = store.rows_missing_embedding(10);
    assert_eq!(missing.len(), 1);
    assert_eq!(missing[0].1, "b");
}

#[test]
fn consolidation_candidates_excludes_consolidated_and_nonfoldable() {
    let mut store = Store::new();
    let e1 = store
        .insert_memory(
            Some("s1"),
            "project:X",
            MemoryKind::Event,
            "e1",
            number(1.0),
            100,
            None,
        )
        .0;
    let _e2 = store
        .insert_memory(None, "project:X", MemoryKind::Note, "n1", number(2.0), 110, None);
    // Decision is never foldable.
    let _d = store
        .insert_memory(
            None,
            "project:X",
            MemoryKind::Decision,
            "d1",
            number(1.0),
            120,
            None,
        );
    // Different scope must not appear.
    let _o = store
        .insert_memory(None, "global", MemoryKind::Event, "other", number(1.0), 130, None);
    // Mark e1 as already consolidated.
    store.mark_consolidated(&vec![e1], 999);

    let rows = store.consolidation_candidates("project:X");
    // Only the unconsolidated Note (n1) remains.
    assert_eq!(rows.len(), 1);
    assert_eq!(rows[0].text, "n1");
    assert_eq!(rows[0].importance, number(2.0));
}

#[test]
fn snapshot_reports_counts() {
    let mut store = Store::new();
    let now = 1_000_000_000i64;
    let old = now - 40 * 86_400;
    let e1 = store
        .insert_memory(None, "project:X", MemoryKind::Event, "e1", number(1.0), now, None)
        .0;
    let _n1 = store
        .insert_memory(None, "project:X", MemoryKind::Note, "n1", number(0.2), old, None);
    let _d1 = store
        .insert_memory(
            None,
            "project:X",
            MemoryKind::Decision,
            "d1",
            number(1.0),
            now,
            None,
        );
    store
        .update_embedding(e1, blob(&[0.1f32]), "mock");

    let snap = store.snapshot(None, now, 30 * 86_400, number(0.5));
    assert_eq!(snap.total, 3);
    // by_kind has event/note/decision.
    assert_eq!(snap.by_kind.iter().map(|k| k.count).sum::<i64>(), 3);
    // age: e1 and d1 are "today", n1 is "older".
    assert_eq!(snap.age.last_day, 2);
    assert_eq!(snap.age.older, 1);
    // 1 of 3 embedded.
    assert_eq!(snap.embedding.embedded, 1);
    assert_eq!(snap.embedding.total, 3);
    // consolidation candidates: e1 + n1 (event/note, unconsolidated) = 2.
    assert_eq!(snap.consolidation_candidates, 2);
    // prune candidates: old low-value n1 = 1.
    assert_eq!(snap.prune_candidates, 1);
}

#[test]
fn prune_candidates_matches_consolidated_or_low_value() {
    let mut store = Store::new();
    let now = 1_000_000_000i64;
    let old = now - 40 * 86_400; // 40 days old
                                 // (a) consolidated event => prunable via main path.
    let a = store
        .insert_memory(None, "project:X", MemoryKind::Event, "a", number(1.0), old, None)
        .0;
    store.mark_consolidated(&vec![a], 999);
    // (b) old, never recalled, low importance note => prunable via fallback.
    let b = store
        .insert_memory(None, "project:X", MemoryKind::Note, "b", number(0.2), old, None)
        .0;
    // (c) old but high importance => NOT prunable.
    let _c = store
        .insert_memory(None, "project:X", MemoryKind::Note, "c", number(0.9), old, None);
    // (d) decision is never prunable, even if old/low.
    let _d = store
        .insert_memory(None, "project:X", MemoryKind::Decision, "d", number(0.1), old, None);
    // (e) recent low-importance note => NOT prunable (too new).
    let _e = store
        .insert_memory(None, "project:X", MemoryKind::Note, "e", number(0.1), now, None);

    let ids = store
        .prune_candidates(Some("project:X"), 30 * 86_400, number(0.5), now);
    let mut ids = ids;
    ids.sort();
    assert_eq!(ids, vec![a, b]);
}

#[test]
fn agent_session_round_trip() {
    let mut mem = Store::new();
    assert_eq!(mem.agent_session("global"), None);
    mem.set_agent_session("global", "ses_1", 100);
    assert_eq!(
        mem.agent_session("global"),
        Some("ses_1".to_string())
    );
    // UPSERT overwrites.
    mem.set_agent_session("global", "ses_2", 100);
    assert_eq!(
        mem.agent_session("global"),
        Some("ses_2".to_string())
    );
    // Clear, including a no-op clear of an unknown scope.
    mem.clear_agent_session("global");
    assert_eq!(mem.agent_session("global"), None);
    mem.clear_agent_session("nope");
}

#[test]
fn agent_session_state_tracks_turns_and_provenance() {
    let mut mem = Store::new();
    mem.set_agent_session("global", "ses_1", 100);
    let lease = mem
        .acquire_agent_session_lease("global", "owner-1", 100, 300)
        .unwrap();
    assert_eq!(lease.session_id.as_deref(), Some("ses_1"));
    assert_eq!(lease.turn_count, 0);

    let finished = mem
        .finish_agent_session_turn("global", "owner-1", Some("ses_1"), 101)
        .unwrap();
    assert_eq!(finished.turn_count, 1);
    assert!(finished.lease_owner.is_none());

    let state = mem.agent_session_state("global").unwrap();
    assert_eq!(state.session_id.as_deref(), Some("ses_1"));
    assert_eq!(state.turn_count, 1);
}

#[test]
fn memory_records_expose_session_provenance() {
    let mut mem = Store::new();
    mem.remember(&RememberInput {
        scope: "project:X".to_string(),
        session_id: Some("ses_1".to_string()),
        items: vec![MemoryItem {
            kind: MemoryKind::Event,
            text: "session event".to_string(),
            importance: None,
            dedupe_key: None,
        }],
    }, NOW)
    .unwrap();

    let records = mem
        .list_records(Some("project:X"), None, 10);
    assert_eq!(records[0].session_id.as_deref(), Some("ses_1"));
}

#[test]
fn consolidate_creates_summary_and_marks_sources() {
    let mut mem = Store::new();
    remember_event(&mut mem, "project:X", "did A");
    remember_event(&mut mem, "project:X", "did B");

    let plan = mem
        .plan_consolidation("project:X", &ConsolidatePolicy { batch_size: 20 });
    assert_eq!(plan.batches.len(), 1);
    assert_eq!(plan.batches[0].len(), 2);

    let summary_ids = mem
        .consolidate(
            "project:X",
            &ConsolidatePolicy { batch_size: 20 },
            &MockSummarizer, NOW)
        .unwrap();
    assert_eq!(summary_ids.len(), 1);

    // Sources are now consolidated => no longer candidates.
    let after = mem
        .plan_consolidation("project:X", &ConsolidatePolicy { batch_size: 20 });
    assert!(after.batches.is_empty());

    // The summary text came from the summarizer.
    let recent = mem.recent_candidates(10, None);
    assert!(recent
        .iter()
        .any(|c| c.kind == MemoryKind::Summary && c.text == "SUMMARY(2)"));
}

#[test]
fn prune_deletes_only_low_value() {
    let mut mem = Store::new();
    // Two events, then consolidate so they become prunable.
    remember_event(&mut mem, "project:X", "did A");
    remember_event(&mut mem, "project:X", "did B");
    mem.consolidate("project:X", &ConsolidatePolicy::default(), &MockSummarizer, NOW)
        .unwrap();

    // dry-run plan lists the two consolidated source events.
    let plan = mem
        .plan_prune(Some("project:X"), &PrunePolicy::default(), NOW);
    assert_eq!(plan.len(), 2);

    let deleted = mem
        .prune(Some("project:X"), &PrunePolicy::default(), NOW);
    assert_eq!(deleted, 2);

    // The summary survives (never prunable).
    let recent = mem.recent_candidates(10, None);
    assert!(recent.iter().all(|c| c.kind == MemoryKind::Summary));
}

#[test]
fn concat_summarizer_joins_texts() {
    let s = ConcatSummarizer;
    let out = s.summarize(&["a".to_string(), "b".to_string()]).unwrap();
    assert!(out.contains("a / b"));
}

#[test]
fn mock_summarizer_reports_count() {
    let s = MockSummarizer;
    assert_eq!(s.summarize(&["x".to_string(), "y".to_string()]).unwrap(), "SUMMARY(2)");
}

#[test]
fn deleted_memories_are_gone() {
    let mut store = Store::new();
    let id = store.insert_memory(None, "global", MemoryKind::Note, "gizmo", number(1.0), 100, None).0;
    assert_eq!(store.delete_memories(&vec![id]), 1);
    assert_eq!(store.recent_candidates(10, None).len(), 0);
    assert_eq!(store.delete_memories(&vec![id]), 0);
}

#[test]
fn a_key_stores_once() {
    let mut store = Store::new();
    let first = store.insert_memory(None, "global", MemoryKind::Event, "a", number(1.0), 1, Some("k"));
    let again = store.insert_memory(None, "global", MemoryKind::Event, "b", number(1.0), 2, Some("k"));
    assert_eq!(first, (1, true));
    assert_eq!(again, (1, false));
    assert_eq!(store.recent_candidates(10, None)[0].text, "a");
}

#[test]
fn invalid_scope_is_rejected() {
    let input = RememberInput { scope: "bogus".to_string(), session_id: None, items: vec![event("x")] };
    assert!(Store::new().remember(&input, NOW).is_err());
}

#[test]
fn what_cannot_be_remembered_is_refused() {
    let mut store = Store::new();
    let mut input = RememberInput { scope: "project:X".to_string(), session_id: None, items: Vec::new() };
    assert!(matches!(store.remember(&input, NOW), Err(MemoryError::InvalidQuery(_))));
    input.items.push(event("  "));
    assert!(matches!(store.remember(&input, NOW), Err(MemoryError::InvalidQuery(_))));
    input.items = vec![event("x")];
    input.scope = "nonsense".to_string();
    assert!(matches!(store.remember(&input, NOW), Err(MemoryError::InvalidScope(_))));
    assert!(store.memories.is_empty());
    input.scope = "project:X".to_string();
    assert_eq!(store.remember(&input, NOW).unwrap(), vec![(1, true)]);
}

#[test]
fn leases_end_by_being_given_back() {
    let mut store = Store::new();
    assert!(store.acquire_agent_session_lease("global", "a", 100, 50).is_some());
    assert!(!store.release_agent_session_lease("global", "b", 101));
    assert!(store.acquire_agent_session_lease("global", "b", 101, 50).is_none());
    assert!(store.release_agent_session_lease("global", "a", 102));
    assert!(store.acquire_agent_session_lease("global", "b", 103, 50).is_some());
    assert!(!store.mark_agent_session_compacted("global", "b", "ses", 104));
    assert!(store.defer_agent_session_compaction("global", "b", 105));
    assert!(!store.defer_agent_session_compaction("global", "a", 105));
}

#[test]
fn folding_in_batches_covers_every_memory() {
    let mut store = Store::new();
    for i in 0..5 {
        store.insert_memory(None, "project:X", MemoryKind::Event, &format!("e{i}"), number(1.0), i, None);
    }
    let plan = store.plan_consolidation("project:X", &ConsolidatePolicy { batch_size: 2 });
    assert_eq!(plan.batches, vec![vec![1, 2], vec![3, 4], vec![5]]);
    assert_eq!(ConsolidatePolicy::default().batch_size, 20);
    assert_eq!(PrunePolicy::default().max_age_secs, 2_592_000);
    assert_eq!(PrunePolicy::default().importance_floor, number(0.5));
}

#[test]
fn chinese_text_is_found_by_its_letters() {
    let mut store = Store::new();
    store.insert_memory(None, "global", MemoryKind::Note, "連線池設定使用 SQLite WAL", number(1.0), 1, None);
    store.insert_memory(None, "project:Y", MemoryKind::Note, "別的", number(1.0), 2, None);
    let hits = store.cjk_fallback_candidates("連線", 10, None);
    assert_eq!(hits.len(), 1);
    assert_eq!(hits[0].id, 1);
    assert_eq!(store.list_scopes(), vec!["global".to_string(), "project:Y".to_string()]);
}

#[test]
fn exports_hold_every_memory() {
    let mut store = Store::new();
    store.insert_memory(None, "project:X", MemoryKind::Note, "x-note", number(1.0), 0, None);
    store.insert_memory(None, "global", MemoryKind::Note, "g-note", number(1.0), 86_400, None);
    let all = store.all_for_export();
    assert_eq!(all.len(), 2);
    assert_eq!(scope_to_filename(&all[0].0), "project_X.md");
    assert!(render_markdown_entry(all[1].1, all[1].2, &all[1].3).contains("g-note"));
}

#[test]
fn records_tell_whether_there_are_more() {
    let mut store = Store::new();
    for i in 0..3 {
        store.insert_memory(None, "global", MemoryKind::Note, "n", number(1.0), i, None);
    }
    assert!(store.records(None, None, 2).has_more);
    assert!(!store.records(None, None, 3).has_more);
    assert_eq!(store.records(None, None, 2).records.len(), 2);
}

#[test]
fn unknown_categories_are_read_as_notes_but_kept() {
    assert!(MemoryKind::is_db_str("note"));
    assert!(!MemoryKind::is_db_str("garbage"));
    let mut store = Store::new();
    let old = NOW - 40 * 86_400;
    let a = store.insert_memory(None, "project:X", MemoryKind::Note, "a", number(0.1), old, None).0;
    store.insert_memory(None, "project:X", MemoryKind::Note, "b", number(0.1), old, None);
    store.memories[1].word = Some("garbage".to_string());
    assert_eq!(store.prune_candidates(None, 30 * 86_400, number(0.5), NOW), vec![a]);
    assert_eq!(store.consolidation_candidates("project:X").len(), 1);
    assert_eq!(store.list_records(None, Some(MemoryKind::Note), 10).len(), 1);
    assert_eq!(store.list_records(None, None, 10).len(), 2);
}

#[test]
fn every_memory_is_counted_once() {
    let mut store = Store::new();
    for (i, word) in [Some("odd"), Some("other"), Some("odd"), None, None, None].iter().enumerate() {
        let scope = if i == 5 { "global" } else { "project:X" };
        store.insert_memory(None, scope, MemoryKind::Note, "t", number(0.5), NOW, None);
        store.memories[i].word = word.map(|w| w.to_string());
    }
    store.insert_memory(None, "global", MemoryKind::Skill, "t", number(0.5), NOW, None);
    let snap = store.snapshot(None, NOW, 30 * 86_400, number(0.5));
    let by_kind: Vec<(MemoryKind, i64)> = snap.by_kind.iter().map(|k| (k.kind, k.count)).collect();
    // Each unknown word is counted by itself and shown as a note.
    assert_eq!(
        by_kind,
        [(MemoryKind::Note, 3), (MemoryKind::Note, 2), (MemoryKind::Skill, 1), (MemoryKind::Note, 1)]
    );
    assert_eq!(by_kind.iter().map(|k| k.1).sum::<i64>(), 7);
    assert_eq!(snap.by_scope.iter().map(|s| s.count).sum::<i64>(), snap.total);
    let snap = store.snapshot(Some("global"), NOW, 30 * 86_400, number(0.5));
    assert_eq!(snap.by_kind.iter().map(|k| k.count).sum::<i64>(), 2);
}

#[test]
fn days_far_away_have_a_date() {
    assert_eq!(civil_from_days(0), (1970, 1, 1));
    assert_eq!(civil_from_days(-719_468), (0, 3, 1));
    assert_eq!(civil_from_days(146_097 * 1_000_000_000_000), (400_000_000_001_970, 1, 1));
    assert!(civil_from_days(i64::MIN).0 < -25_000_000_000_000_000);
}

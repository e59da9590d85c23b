use tempera::episode::{
    parse_outcome, parse_task_type, Invalid, NewEpisode, Outcome, StoreError, TaskType,
    UTILITY_MAX, UTILITY_MIN, UTILITY_NEUTRAL,
};
use tempera::ident::parse_id;
use tempera::review::{ReviewAction, STALE_AGE};
use tempera::store::EpisodeStore;

fn draft(summary: &str, project: Option<&str>, embedding: Vec<i32>) -> NewEpisode {
    NewEpisode {
        summary: summary.to_string(),
        task_type: TaskType::Bugfix,
        outcome: Outcome::Success,
        project: project.map(|p| p.to_string()),
        files_modified: vec![],
        tags: vec![],
        errors_resolved: vec![],
        embedding,
    }
}

fn with_outcome(mut d: NewEpisode, outcome: Outcome) -> NewEpisode {
    d.outcome = outcome;
    d
}

fn proj(p: &str) -> Option<String> {
    Some(p.to_string())
}

#[test]
fn capture_assigns_fresh_ids_and_neutral_utility() {
    let mut s = EpisodeStore::new(3);
    let a = s.insert(draft("first insight", None, vec![1000, 0, 0]), 10).unwrap();
    let b = s.insert(draft("second insight", None, vec![0, 1000, 0]), 20).unwrap();
    assert_ne!(a, b);
    let e = s.get(b).unwrap();
    assert_eq!(e.summary, "second insight");
    assert_eq!(e.utility, UTILITY_NEUTRAL);
    assert_eq!(e.use_count, 0);
    assert_eq!(e.helpful_count, 0);
    assert_eq!(e.created_at, 20);
    assert_eq!(s.len(), 2);
}

#[test]
fn capture_rejects_malformed_drafts() {
    let mut s = EpisodeStore::new(3);
    assert_eq!(
        s.insert(draft("", None, vec![1000, 0, 0]), 1),
        Err(StoreError::Validation(Invalid::EmptySummary))
    );
    assert_eq!(
        s.insert(draft("x", None, vec![1000, 0]), 1),
        Err(StoreError::DimensionMismatch { expected: 3, found: 2 })
    );
    assert_eq!(
        s.insert(draft("x", None, vec![1001, 0, 0]), 1),
        Err(StoreError::Validation(Invalid::ComponentOutOfRange))
    );
    assert_eq!(s.len(), 0);
}

#[test]
fn enum_fields_parse_by_name() {
    assert_eq!(parse_task_type(&"refactor".to_string()), Ok(TaskType::Refactor));
    assert_eq!(parse_task_type(&"setup".to_string()), Ok(TaskType::Setup));
    assert_eq!(
        parse_task_type(&"chore".to_string()),
        Err(StoreError::Validation(Invalid::UnknownTaskType))
    );
    assert_eq!(parse_outcome(&"partial".to_string()), Ok(Outcome::Partial));
    assert_eq!(
        parse_outcome(&"Success".to_string()),
        Err(StoreError::Validation(Invalid::UnknownOutcome))
    );
}

#[test]
fn missing_ids_are_reported() {
    let mut s = EpisodeStore::new(3);
    let a = s.insert(draft("kept", None, vec![1000, 0, 0]), 1).unwrap();
    assert_eq!(s.get(a + 7).err(), Some(StoreError::NotFound(a + 7)));
    assert_eq!(s.delete(a + 7), Err(StoreError::NotFound(a + 7)));
    assert_eq!(s.update_utility(a + 7, 10), Err(StoreError::NotFound(a + 7)));
    assert_eq!(s.delete(a), Ok(()));
    assert_eq!(s.len(), 0);
}

#[test]
fn update_utility_clamps() {
    let mut s = EpisodeStore::new(3);
    let a = s.insert(draft("a", None, vec![1000, 0, 0]), 1).unwrap();
    s.update_utility(a, 5000).unwrap();
    assert_eq!(s.get(a).unwrap().utility, UTILITY_MAX);
    s.update_utility(a, -5).unwrap();
    assert_eq!(s.get(a).unwrap().utility, UTILITY_MIN);
}

#[test]
fn search_orders_by_similarity_and_limits() {
    let mut s = EpisodeStore::new(3);
    let far = s.insert(draft("far", None, vec![0, 0, 1000]), 1).unwrap();
    let near = s.insert(draft("near", None, vec![900, 436, 0]), 2).unwrap();
    let same = s.insert(draft("same", None, vec![1000, 0, 0]), 3).unwrap();
    let hits = s.search(&vec![1000, 0, 0], 2, &None).unwrap();
    assert_eq!(hits, vec![(same, 1_000_000), (near, 799_904)]);
    let all = s.search(&vec![1000, 0, 0], 10, &None).unwrap();
    assert_eq!(all.len(), 3);
    assert_eq!(all[2], (far, -1_000_000));
    assert_eq!(
        s.search(&vec![1000, 0], 2, &None),
        Err(StoreError::DimensionMismatch { expected: 3, found: 2 })
    );
}

#[test]
fn search_ties_go_to_utility_then_recency() {
    let mut s = EpisodeStore::new(3);
    let old = s.insert(draft("old", None, vec![1000, 0, 0]), 1).unwrap();
    let new = s.insert(draft("new", None, vec![1000, 0, 0]), 2).unwrap();
    let hits = s.search(&vec![1000, 0, 0], 2, &None).unwrap();
    assert_eq!(hits[0].0, new);
    s.update_utility(old, 900).unwrap();
    let hits = s.search(&vec![1000, 0, 0], 2, &None).unwrap();
    assert_eq!(hits[0].0, old);
}

#[test]
fn round_trip_capture_then_retrieve() {
    let mut s = EpisodeStore::new(3);
    for i in 0..6 {
        s.insert(draft("other", None, vec![0, 600, 800 - i]), i as u64).unwrap();
    }
    let e = s.insert(draft("the insight", None, vec![600, 800, 0]), 100).unwrap();
    let got = s.retrieve(&vec![600, 800, 0], 5, &None, false, 200).unwrap();
    assert!(got.contains(&e));
    assert_eq!(got[0], e);
}

#[test]
fn retrieval_marks_use() {
    let mut s = EpisodeStore::new(3);
    let a = s.insert(draft("a", None, vec![1000, 0, 0]), 1).unwrap();
    let b = s.insert(draft("b", None, vec![0, 1000, 0]), 2).unwrap();
    let got = s.retrieve(&vec![1000, 0, 0], 1, &None, false, 50).unwrap();
    assert_eq!(got, vec![a]);
    assert_eq!(s.get(a).unwrap().use_count, 1);
    assert_eq!(s.get(a).unwrap().last_used_at, 50);
    assert_eq!(s.get(b).unwrap().use_count, 0);
    assert_eq!(s.get(b).unwrap().last_used_at, 2);
}

#[test]
fn retrieval_ranks_by_combined_score() {
    let mut s = EpisodeStore::new(3);
    let exact = s.insert(draft("exact", None, vec![1000, 0, 0]), 1).unwrap();
    let close = s.insert(draft("close", None, vec![990, 141, 0]), 2).unwrap();
    s.update_utility(close, 1000).unwrap();
    s.update_utility(exact, 0).unwrap();
    let got = s.retrieve(&vec![1000, 0, 0], 2, &None, false, 3).unwrap();
    assert_eq!(got, vec![close, exact]);
}

#[test]
fn project_filter_excludes_other_and_unscoped() {
    let mut s = EpisodeStore::new(3);
    let x = s.insert(draft("x", Some("X"), vec![1000, 0, 0]), 1).unwrap();
    let y = s.insert(draft("y", Some("Y"), vec![1000, 0, 0]), 2).unwrap();
    let g = s.insert(draft("global", None, vec![1000, 0, 0]), 3).unwrap();
    let got = s.retrieve(&vec![1000, 0, 0], 5, &proj("X"), false, 4).unwrap();
    assert_eq!(got, vec![x]);
    let listed = s.retrieve(&vec![1000, 0, 0], 5, &proj("X"), true, 4).unwrap();
    assert_eq!(listed, vec![x]);
    let unfiltered = s.retrieve(&vec![1000, 0, 0], 5, &None, false, 4).unwrap();
    assert_eq!(unfiltered.len(), 3);
    assert!(unfiltered.contains(&y) && unfiltered.contains(&g));
}

#[test]
fn list_all_ignores_query_and_orders_by_recency() {
    let mut s = EpisodeStore::new(3);
    let a = s.insert(draft("a", Some("P"), vec![1000, 0, 0]), 10).unwrap();
    let b = s.insert(draft("b", Some("P"), vec![0, 1000, 0]), 30).unwrap();
    let _other = s.insert(draft("c", Some("Q"), vec![0, 0, 1000]), 40).unwrap();
    let c = s.insert(draft("d", Some("P"), vec![0, 0, 1000]), 20).unwrap();
    let got = s.retrieve(&vec![1, 2], 1, &proj("P"), true, 50).unwrap();
    assert_eq!(got, vec![b, c, a]);
    assert_eq!(s.list_all(&proj("P")), vec![b, c, a]);
}

#[test]
fn feedback_nudges_utility_and_counts_skips() {
    let mut s = EpisodeStore::new(3);
    let a = s.insert(draft("a", None, vec![1000, 0, 0]), 1).unwrap();
    s.retrieve(&vec![1000, 0, 0], 1, &None, false, 2).unwrap();
    let skipped = s.record_feedback(&vec![a, 999], true);
    assert_eq!(skipped, 1);
    assert_eq!(s.get(a).unwrap().utility, 600);
    assert_eq!(s.get(a).unwrap().helpful_count, 1);
    let skipped = s.record_feedback(&vec![a], false);
    assert_eq!(skipped, 0);
    assert_eq!(s.get(a).unwrap().utility, 500);
    assert_eq!(s.get(a).unwrap().helpful_count, 1);
}

#[test]
fn helpful_count_never_passes_use_count() {
    let mut s = EpisodeStore::new(3);
    let a = s.insert(draft("a", None, vec![1000, 0, 0]), 1).unwrap();
    s.record_feedback(&vec![a], true);
    let e = s.get(a).unwrap();
    assert_eq!(e.helpful_count, 0);
    assert_eq!(e.utility, 600);
}

#[test]
fn utility_stays_in_range_under_repeated_signals() {
    let mut s = EpisodeStore::new(3);
    let a = s.insert(draft("a", None, vec![1000, 0, 0]), 1).unwrap();
    let b = s.insert(draft("b", None, vec![990, 141, 0]), 2).unwrap();
    for _ in 0..20 {
        s.record_feedback(&vec![a], true);
        s.propagate(true, &None);
    }
    assert_eq!(s.get(a).unwrap().utility, UTILITY_MAX);
    assert!(s.get(b).unwrap().utility <= UTILITY_MAX);
    for _ in 0..20 {
        s.record_feedback(&vec![a, b], false);
        s.propagate(false, &None);
    }
    assert_eq!(s.get(a).unwrap().utility, UTILITY_MIN);
    assert!(s.get(b).unwrap().utility >= UTILITY_MIN);
}

#[test]
fn scenario_capture_retrieve_feedback_propagate() {
    let mut s = EpisodeStore::new(3);
    let e1 = s
        .insert(
            draft("tree-sitter ERROR nodes split first command", None, vec![1000, 0, 0]),
            100,
        )
        .unwrap();
    assert_eq!(parse_task_type(&"bugfix".to_string()), Ok(TaskType::Bugfix));
    let neighbor = s.insert(draft("sibling stitching", None, vec![900, 436, 0]), 101).unwrap();
    let unrelated = s.insert(draft("docs layout", None, vec![0, 0, 1000]), 102).unwrap();
    let got = s.retrieve(&vec![980, 199, 0], 5, &None, false, 200).unwrap();
    assert!(got.contains(&e1));
    let before = s.get(e1).unwrap().utility;
    assert_eq!(s.record_feedback(&vec![e1], true), 0);
    assert!(s.get(e1).unwrap().utility > before);
    assert_eq!(s.get(e1).unwrap().helpful_count, 1);
    let adjusted = s.propagate(false, &None);
    assert_eq!(adjusted, 1);
    let n = s.get(neighbor).unwrap().utility;
    assert_eq!(n, 539);
    assert!(n > UTILITY_NEUTRAL && n <= UTILITY_NEUTRAL + 200);
    assert_eq!(s.get(unrelated).unwrap().utility, UTILITY_NEUTRAL);
    assert_eq!(s.get(e1).unwrap().utility, 600);
}

#[test]
fn propagation_settles() {
    let mut s = EpisodeStore::new(3);
    let a = s.insert(draft("a", None, vec![1000, 0, 0]), 1).unwrap();
    let b = s.insert(draft("b", None, vec![900, 436, 0]), 2).unwrap();
    s.insert(draft("c", None, vec![800, 600, 0]), 3).unwrap();
    s.retrieve(&vec![1000, 0, 0], 1, &None, false, 4).unwrap();
    s.record_feedback(&vec![a], true);
    s.propagate(false, &None);
    let first: Vec<i64> = s.episodes().iter().map(|e| e.utility).collect();
    assert_eq!(s.propagate(false, &None), 0);
    let second: Vec<i64> = s.episodes().iter().map(|e| e.utility).collect();
    assert_eq!(first, second);
    assert!(s.get(b).unwrap().utility > UTILITY_NEUTRAL);
}

#[test]
fn unrated_influence_fades() {
    let mut s = EpisodeStore::new(3);
    let a = s.insert(draft("a", None, vec![1000, 0, 0]), 1).unwrap();
    let b = s.insert(draft("b", None, vec![900, 436, 0]), 2).unwrap();
    s.record_feedback(&vec![a], true);
    s.propagate(false, &None);
    assert!(s.get(b).unwrap().utility > UTILITY_NEUTRAL);
    s.record_feedback(&vec![a], false);
    s.propagate(false, &None);
    assert_eq!(s.get(b).unwrap().utility, UTILITY_NEUTRAL);
}

#[test]
fn temporal_pass_credits_preceding_episodes() {
    let mut s = EpisodeStore::new(3);
    let partial = Outcome::Partial;
    let step = s.insert(with_outcome(draft("step", Some("P"), vec![1000, 0, 0]), partial), 4000).unwrap();
    let early = s.insert(with_outcome(draft("early", Some("P"), vec![0, 1000, 0]), partial), 10).unwrap();
    let elsewhere = s.insert(with_outcome(draft("other", Some("Q"), vec![0, 1000, 0]), partial), 4500).unwrap();
    s.insert(draft("win", Some("P"), vec![0, 0, 1000]), 5000).unwrap();
    let lost = s.insert(with_outcome(draft("loss", Some("Q"), vec![0, 0, 1000]), Outcome::Failure), 5000).unwrap();
    assert_eq!(s.propagate(false, &None), 0);
    s.propagate(true, &None);
    assert_eq!(s.get(step).unwrap().utility, UTILITY_NEUTRAL + 20);
    assert_eq!(s.get(early).unwrap().utility, UTILITY_NEUTRAL);
    assert_eq!(s.get(elsewhere).unwrap().utility, UTILITY_NEUTRAL - 20);
    assert_eq!(s.get(lost).unwrap().utility, UTILITY_NEUTRAL);
}

#[test]
fn analyze_flags_duplicates_and_stale() {
    let mut s = EpisodeStore::new(3);
    let a = s.insert(draft("a", None, vec![1000, 0, 0]), 0).unwrap();
    let b = s.insert(draft("b", None, vec![990, 141, 0]), 10).unwrap();
    let c = s.insert(draft("c", None, vec![0, 0, 1000]), STALE_AGE + 5).unwrap();
    let now = STALE_AGE + 10;
    let r1 = s.review(&None, ReviewAction::Analyze, now);
    assert_eq!(r1.duplicates, vec![(b, a)]);
    assert_eq!(r1.stale, vec![a, b]);
    assert!(r1.deleted.is_empty());
    let r2 = s.review(&None, ReviewAction::Analyze, now);
    assert_eq!(r1.duplicates, r2.duplicates);
    assert_eq!(r1.stale, r2.stale);
    assert_eq!(s.len(), 3);
    assert!(s.get(c).is_ok());
}

#[test]
fn representative_is_highest_utility() {
    let mut s = EpisodeStore::new(3);
    let a = s.insert(draft("a", None, vec![1000, 0, 0]), 0).unwrap();
    let b = s.insert(draft("b", None, vec![990, 141, 0]), 10).unwrap();
    s.update_utility(b, 700).unwrap();
    let r = s.review(&None, ReviewAction::Analyze, 20);
    assert_eq!(r.duplicates, vec![(a, b)]);
}

#[test]
fn cleanup_deletes_only_safe_duplicates() {
    let mut s = EpisodeStore::new(3);
    let rep = s.insert(draft("rep", None, vec![1000, 0, 0]), 0).unwrap();
    let dup = s.insert(draft("dup", None, vec![990, 141, 0]), 1).unwrap();
    let helped = s.insert(draft("helped", None, vec![995, 99, 0]), 2).unwrap();
    let lone = s.insert(draft("lone", None, vec![0, 0, 1000]), 3).unwrap();
    s.update_utility(rep, 800).unwrap();
    s.retrieve(&vec![995, 99, 0], 1, &None, false, 4).unwrap();
    s.record_feedback(&vec![helped], true);
    s.record_feedback(&vec![helped], false);
    s.record_feedback(&vec![helped], false);
    let r = s.review(&None, ReviewAction::Cleanup, 5);
    assert_eq!(r.deleted, vec![dup]);
    assert!(s.get(rep).is_ok());
    assert!(s.get(helped).is_ok());
    assert!(s.get(lone).is_ok());
    assert!(s.get(dup).is_err());
    let again = s.review(&None, ReviewAction::Cleanup, 6);
    assert!(again.deleted.is_empty());
}

#[test]
fn stats_aggregate_by_project() {
    let mut s = EpisodeStore::new(3);
    let a = s.insert(draft("a", Some("P"), vec![1000, 0, 0]), 5).unwrap();
    s.insert(draft("b", Some("P"), vec![0, 1000, 0]), 9).unwrap();
    s.insert(draft("c", Some("Q"), vec![0, 0, 1000]), 12).unwrap();
    s.update_utility(a, 801).unwrap();
    s.retrieve(&vec![1000, 0, 0], 1, &proj("P"), false, 20).unwrap();
    let st = s.stats(&proj("P"));
    assert_eq!(st.episode_count, 2);
    assert_eq!(st.avg_utility, Some(650));
    assert_eq!(st.last_capture_at, Some(9));
    assert_eq!(st.unused_count, 1);
    let all = s.stats(&None);
    assert_eq!(all.episode_count, 3);
    assert_eq!(all.last_capture_at, Some(12));
    let none = s.stats(&proj("Z"));
    assert_eq!(none.episode_count, 0);
    assert_eq!(none.avg_utility, None);
    assert_eq!(none.last_capture_at, None);
}

#[test]
fn ids_read_from_text() {
    assert_eq!(parse_id("0"), Some(0));
    assert_eq!(parse_id("42"), Some(42));
    assert_eq!(parse_id("18446744073709551615"), Some(u64::MAX));
    assert_eq!(parse_id("18446744073709551616"), None);
    assert_eq!(parse_id("042"), None);
    assert_eq!(parse_id(""), None);
    assert_eq!(parse_id("4a"), None);
    assert_eq!(parse_id(" 4"), None);
}

#[test]
fn an_id_also_satisfies_a_query() {
    let mut s = EpisodeStore::new(3);
    let a = s.insert(draft("a", Some("P"), vec![1000, 0, 0]), 1).unwrap();
    let b = s.insert(draft("b", Some("P"), vec![0, 1000, 0]), 2).unwrap();
    let text = b.to_string();
    let got = s.retrieve_text(&text, &vec![1000, 0, 0], 5, &None, false, 9).unwrap();
    assert_eq!(got, vec![b]);
    assert_eq!(s.get(b).unwrap().use_count, 1);
    assert_eq!(s.get(a).unwrap().use_count, 0);
    let filtered = s.retrieve_text(&text, &vec![1000, 0, 0], 5, &proj("Q"), false, 9).unwrap();
    assert!(filtered.is_empty());
    let by_meaning = s.retrieve_text("no such id", &vec![1000, 0, 0], 1, &None, false, 9).unwrap();
    assert_eq!(by_meaning, vec![a]);
}

#[test]
fn cleanup_keeps_every_named_representative() {
    let mut s = EpisodeStore::new(2);
    let a = s.insert(draft("a", None, vec![1000, 0]), 0).unwrap();
    let b = s.insert(draft("b", None, vec![978, 208]), 0).unwrap();
    let c = s.insert(draft("c", None, vec![914, 407]), 0).unwrap();
    let report = s.review(&None, ReviewAction::Analyze, 1);
    assert_eq!(report.duplicates, vec![(b, a), (c, b)]);
    let cleaned = s.review(&None, ReviewAction::Cleanup, 1);
    assert_eq!(cleaned.deleted, vec![c]);
    assert!(s.get(a).is_ok());
    assert!(s.get(b).is_ok());
}

#[test]
fn listing_breaks_same_time_ties_by_capture_order() {
    let mut s = EpisodeStore::new(3);
    let a = s.insert(draft("a", Some("X"), vec![1000, 0, 0]), 7).unwrap();
    let b = s.insert(draft("b", Some("X"), vec![0, 1000, 0]), 7).unwrap();
    let c = s.insert(draft("c", Some("X"), vec![0, 0, 1000]), 3).unwrap();
    let first = s.retrieve(&vec![1000, 0, 0], 5, &proj("X"), true, 9).unwrap();
    let second = s.retrieve(&vec![0, 0, 1000], 1, &proj("X"), true, 9).unwrap();
    assert_eq!(first, vec![b, a, c]);
    assert_eq!(first, second);
}

#[test]
fn propagation_reaches_every_close_episode() {
    let mut s = EpisodeStore::new(3);
    let src = s.insert(draft("src", None, vec![1000, 0, 0]), 0).unwrap();
    let mut near = vec![];
    for i in 0..7 {
        near.push(s.insert(draft("twin", None, vec![1000, 0, 0]), i + 1).unwrap());
    }
    s.update_utility(src, 300).unwrap();
    assert_eq!(s.propagate(false, &None), 7);
    for id in &near {
        assert_eq!(s.get(*id).unwrap().utility, UTILITY_NEUTRAL - 14);
    }
    assert_eq!(s.propagate(false, &None), 0);
    assert_eq!(s.get(src).unwrap().utility, 300);
}

#[test]
fn own_embedding_outranks_near_copies() {
    let mut s = EpisodeStore::new(2);
    let e = s.insert(draft("e", None, vec![707, 707]), 0).unwrap();
    let other = s.insert(draft("other", None, vec![708, 707]), 1).unwrap();
    s.update_utility(other, 1000).unwrap();
    let hits = s.search(&vec![707, 707], 1, &None).unwrap();
    assert_eq!(hits, vec![(e, 1_000_000)]);
}

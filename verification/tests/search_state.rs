use spog_ui::search::FetchOutcome;
use spog_ui::search::Navigation;
use spog_ui::search::SearchResult;
use spog_ui::search::SearchState;
use spog_ui::search::clamp_nav_offset;
use spog_ui::search::navigate;

fn success(total: Option<u64>) -> FetchOutcome {
    FetchOutcome::Success { result: SearchResult { items: Vec::new(), total } }
}

#[test]
fn pagination_arithmetic() {
    // total = 100, limit = 25
    assert_eq!(navigate(&Navigation::Next, 0, 25, 100), 25);
    assert_eq!(navigate(&Navigation::Previous, 25, 25, 100), 0);
    assert_eq!(navigate(&Navigation::Last, 0, 25, 100), 75);
    assert_eq!(navigate(&Navigation::First, 50, 25, 100), 0);
    assert_eq!(navigate(&Navigation::Page(2), 0, 25, 100), 49);
}

#[test]
fn page_zero_clamps_to_zero() {
    // the page formula yields -1 for page 0; the clamped offset is 0
    let raw = navigate(&Navigation::Page(0), 0, 25, 100);
    assert_eq!(raw, -1);
    assert_eq!(clamp_nav_offset(raw, 100), 0);
}

#[test]
fn clamp_keeps_offsets_in_range() {
    assert_eq!(clamp_nav_offset(-5, 100), 0);
    assert_eq!(clamp_nav_offset(100, 100), 99);
    assert_eq!(clamp_nav_offset(250, 100), 99);
    assert_eq!(clamp_nav_offset(42, 100), 42);
    assert_eq!(clamp_nav_offset(7, 0), 0);
}

#[test]
fn initial_text_prefers_explicit_query() {
    let s = SearchState::new(Some("log4j".to_string()), Some("persisted".to_string()));
    assert_eq!(s.query_text, "log4j");
    assert_eq!(s.draft, "log4j");
}

#[test]
fn initial_text_falls_back_to_persisted_then_empty() {
    let s = SearchState::new(None, Some("persisted".to_string()));
    assert_eq!(s.query_text, "persisted");
    let s = SearchState::new(None, None);
    assert_eq!(s.query_text, "");
    assert_eq!(s.offset, 0);
    assert_eq!(s.limit, 10);
    assert_eq!(s.generation, 0);
    assert!(s.total.is_none());
}

#[test]
fn query_persistence_round_trip() {
    // submitting "log4j" asks the caller to replace the history state
    let mut s = SearchState::new(None, None);
    s.set_draft("log4j".to_string());
    let persist = s.submit();
    assert_eq!(persist, Some("log4j".to_string()));
    assert_eq!(s.query_text, "log4j");
    // a fresh state machine seeded from the persisted value restores it
    let restored = SearchState::new(None, persist);
    assert_eq!(restored.query_text, "log4j");
}

#[test]
fn submitting_unchanged_text_is_a_no_op() {
    let mut s = SearchState::new(Some("log4j".to_string()), None);
    let g = s.generation;
    let persist = s.submit();
    assert_eq!(persist, None);
    assert_eq!(s.generation, g);
}

#[test]
fn clearing_the_draft_does_not_submit() {
    let mut s = SearchState::new(Some("log4j".to_string()), None);
    s.clear_draft();
    assert_eq!(s.draft, "");
    assert_eq!(s.query_text, "log4j");
}

#[test]
fn stale_result_is_discarded() {
    let mut s = SearchState::new(None, None);
    // fetch A is issued for generation 0; submitting a new query issues
    // fetch B for generation 1 before A resolves
    let generation_a = s.generation;
    s.set_draft("b".to_string());
    s.submit();
    let generation_b = s.generation;
    assert_ne!(generation_a, generation_b);
    // B resolves, then A resolves late: the state keeps only B's result
    s.apply_fetch(generation_b, success(Some(7)));
    s.apply_fetch(generation_a, FetchOutcome::Failure { message: "late".to_string() });
    assert_eq!(s.total, Some(7));
    match &s.outcome {
        FetchOutcome::Success { result } => assert_eq!(result.total, Some(7)),
        _ => panic!("stale outcome overwrote the newer one"),
    }
}

#[test]
fn success_records_the_reported_total() {
    let mut s = SearchState::new(None, None);
    s.apply_fetch(0, success(Some(100)));
    assert_eq!(s.total, Some(100));
}

#[test]
fn navigation_without_total_is_inert() {
    let mut s = SearchState::new(None, None);
    s.apply_navigation(&Navigation::Next);
    assert_eq!(s.offset, 0);
    assert_eq!(s.generation, 0);
}

#[test]
fn navigation_applies_the_clamped_target() {
    let mut s = SearchState::new(None, None);
    s.set_limit(25);
    let g = s.generation;
    s.apply_fetch(g, success(Some(100)));
    s.apply_navigation(&Navigation::Next);
    assert_eq!(s.offset, 25);
    s.apply_navigation(&Navigation::Last);
    assert_eq!(s.offset, 75);
    s.apply_navigation(&Navigation::Previous);
    assert_eq!(s.offset, 50);
    s.apply_navigation(&Navigation::First);
    assert_eq!(s.offset, 0);
    s.apply_navigation(&Navigation::Page(2));
    assert_eq!(s.offset, 49);
    // previous at an offset below the limit clamps to the first entry
    s.apply_navigation(&Navigation::Page(0));
    assert_eq!(s.offset, 0);
}

#[test]
fn offset_change_issues_a_new_fetch() {
    let mut s = SearchState::new(None, None);
    s.apply_fetch(0, success(Some(100)));
    let g = s.generation;
    s.apply_navigation(&Navigation::Next);
    assert_eq!(s.generation, g + 1);
    assert!(matches!(s.outcome, FetchOutcome::Pending));
    // navigating to the offset already shown issues nothing
    let g = s.generation;
    s.apply_navigation(&Navigation::Page(2));
    let here = s.offset;
    s.apply_fetch(s.generation, success(Some(100)));
    s.apply_navigation(&Navigation::Page(2));
    assert_eq!(s.offset, here);
    assert_eq!(s.generation, g + 1);
}

#[test]
fn limit_change_issues_a_new_fetch() {
    let mut s = SearchState::new(None, None);
    let g = s.generation;
    s.set_limit(50);
    assert_eq!(s.limit, 50);
    assert_eq!(s.generation, g + 1);
    let g = s.generation;
    s.set_limit(50);
    assert_eq!(s.generation, g);
}

#[test]
fn failure_keeps_previous_total() {
    let mut s = SearchState::new(None, None);
    s.apply_fetch(0, success(Some(31)));
    s.apply_fetch(0, FetchOutcome::Failure { message: "backend unreachable".to_string() });
    assert_eq!(s.total, Some(31));
    match &s.outcome {
        FetchOutcome::Failure { message } => assert_eq!(message, "backend unreachable"),
        _ => panic!("failure outcome was not recorded"),
    }
}

use living_postmortem_mcp::search::{rank_incident, rank_incidents, tokenize, RankedIncident};

fn ranked(id: &str, title: &str, matched: usize) -> RankedIncident {
    RankedIncident {
        incident_id: id.to_string(),
        title: title.to_string(),
        matched_terms: matched,
    }
}

#[test]
fn tokenize_splits_lowercases_and_dedups() {
    let mut tokens = tokenize("Fan-out OVERLOAD, fan_out; p95 überlast fan");
    tokens.sort();
    assert_eq!(tokens, vec!["berlast", "fan", "out", "overload", "p95"]);
}

#[test]
fn tokenize_of_punctuation_is_empty() {
    assert!(tokenize("--- !!! ---").is_empty());
}

#[test]
fn rank_incident_counts_shared_tokens() {
    let markdown = "# 🟠 Database lock storm\n\n## Root Cause\nDeadlock in checkout transaction\n\n## Patterns\n- database deadlock\n";
    let query = tokenize("database deadlock checkout");
    let found = rank_incident(&query, "db-1".to_string(), markdown).expect("shares tokens");
    assert_eq!(found.incident_id, "db-1");
    assert_eq!(found.title, "Database lock storm");
    assert_eq!(found.matched_terms, 3);
    let unrelated = tokenize("cache miss");
    assert!(rank_incident(&unrelated, "db-1".to_string(), markdown).is_none());
}

#[test]
fn rank_incident_without_title_is_untitled() {
    let query = tokenize("untitled");
    let found = rank_incident(&query, "x".to_string(), "no heading").expect("matches the placeholder");
    assert_eq!(found.title, "Untitled incident");
    assert_eq!(found.matched_terms, 1);
}

#[test]
fn ranking_orders_by_matches_then_title_and_truncates() {
    let out = rank_incidents(
        vec![
            ranked("a", "Zeta", 1),
            ranked("b", "Alpha", 1),
            ranked("c", "Mid", 3),
            ranked("d", "Beta", 2),
        ],
        3,
    );
    let ids: Vec<&str> = out.iter().map(|r| r.incident_id.as_str()).collect();
    assert_eq!(ids, vec!["c", "d", "b"]);
}

#[test]
fn ranking_keeps_everything_under_the_limit() {
    let out = rank_incidents(vec![ranked("a", "b", 1), ranked("c", "a", 1)], 50);
    let ids: Vec<&str> = out.iter().map(|r| r.incident_id.as_str()).collect();
    assert_eq!(ids, vec!["c", "a"]);
}

#[test]
fn placeholder_of_empty_patterns_is_not_searched() {
    let markdown = "# 🟠 Disk full\n\n## Root Cause\nVolume filled\n\n## Patterns\n- _None yet_\n";
    assert!(rank_incident(&tokenize("yet"), "disk".to_string(), markdown).is_none());
    assert!(rank_incident(&tokenize("none"), "disk".to_string(), markdown).is_none());
    let found = rank_incident(&tokenize("volume"), "disk".to_string(), markdown).expect("root cause");
    assert_eq!(found.matched_terms, 1);
}

#[test]
fn tokens_ignore_case_and_punctuation() {
    let mut loud = tokenize("Fan-Out OVERLOAD; p95!");
    let mut plain = tokenize("fan out overload  p95 ");
    loud.sort();
    plain.sort();
    assert_eq!(loud, plain);
    assert_eq!(plain, vec!["fan", "out", "overload", "p95"]);
}

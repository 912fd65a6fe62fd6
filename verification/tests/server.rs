use living_postmortem_mcp::search::{rank_incident, rank_incidents};
use living_postmortem_mcp::server::{
    draft_incident, first_free_incident_id, incident_file_name, incident_id_candidate,
    incident_id_from_file_name,
    incident_slug, parse_timestamp, prepare_resolution, prepare_search, prepare_timeline_entry,
    require_non_empty, resolve_markdown, search_limit, AddTimelineEntryParams,
    CreateIncidentParams, ResolveIncidentParams, SearchSimilarIncidentsParams,
};
use living_postmortem_mcp::templates::{
    append_timeline_entry, extract_title, render_incident_markdown, ActionItems, IncidentStatus,
    IncidentTemplateData, TimelineEntry,
};
use living_postmortem_mcp::timestamp::Timestamp;

/// The current instant, read from the system clock.
fn clock() -> Timestamp {
    let since = std::time::SystemTime::now()
        .duration_since(std::time::UNIX_EPOCH)
        .expect("clock after the epoch");
    Timestamp::from_unix(since.as_secs() as i64, since.subsec_nanos()).expect("in range")
}

fn strings(items: &[&str]) -> Vec<String> {
    items.iter().map(|s| s.to_string()).collect()
}

/// Creates an incident the way the `create_incident` tool does, keeping the
/// document in memory; the id is the first candidate not already taken.
fn create(params: CreateIncidentParams, taken: &[String]) -> (String, String, IncidentStatus) {
    let draft = draft_incident(params, clock()).expect("valid incident");
    let incident_id = first_free_incident_id(&draft.base_slug, &draft.timestamp_part, &taken.to_vec());
    let template = draft.into_template(incident_id.clone());
    let status = template.status;
    (incident_id, render_incident_markdown(&template), status)
}

#[test]
fn incident_lifecycle_tools_work_together() {
    let (incident_id, mut markdown, status) = create(
        CreateIncidentParams {
            title: "Search fan-out saturation".to_string(),
            root_cause: Some("Unbounded task fan-out exhausted workers.".to_string()),
            detect_actions: Some(vec!["Add p95 queue alert".to_string()]),
            mitigate_actions: Some(vec!["Throttle fan-out to 20".to_string()]),
            prevent_actions: Some(vec!["Stress tests in CI".to_string()]),
            patterns: Some(vec!["fan-out overload".to_string()]),
            initial_timeline: Some(vec!["Page received from monitoring".to_string()]),
        },
        &[],
    );
    assert_eq!(status, IncidentStatus::Open);
    assert!(markdown.contains("Page received from monitoring"));

    let (added_id, entry) = prepare_timeline_entry(AddTimelineEntryParams {
        incident_id: incident_id.clone(),
        summary: "Mitigation patch deployed".to_string(),
        timestamp: Some("2026-05-01T11:00:00Z".to_string()),
    }, clock())
    .expect("timeline entry should be added");
    assert_eq!(added_id, incident_id);
    markdown = append_timeline_entry(&markdown, &entry);
    assert!(entry.markdown_line().contains("Mitigation patch deployed"));

    let plan = prepare_search(&SearchSimilarIncidentsParams {
        query: "fan-out overload".to_string(),
        limit: Some(10),
    })
    .expect("similar incidents search should succeed");
    let candidates: Vec<_> = rank_incident(&plan.query_tokens, incident_id.clone(), &markdown)
        .into_iter()
        .collect();
    let similar = rank_incidents(candidates, plan.limit);
    assert_eq!(similar.len(), 1);
    assert_eq!(similar[0].incident_id, incident_id);

    let (resolved_id, resolved_at) = prepare_resolution(&ResolveIncidentParams {
        incident_id: incident_id.clone(),
        resolution_summary: Some("Hotfix rolled out and traffic recovered".to_string()),
        resolved_at: Some("2026-05-01T12:00:00Z".to_string()),
    }, clock())
    .expect("incident should resolve");
    assert_eq!(resolved_id, incident_id);
    let final_markdown = resolve_markdown(
        &markdown,
        resolved_at,
        &Some("Hotfix rolled out and traffic recovered".to_string()),
    );
    assert!(final_markdown.contains("status: resolved"));
    assert!(final_markdown.contains("Resolved: Hotfix rolled out and traffic recovered"));
    assert_eq!(resolved_at.to_rfc3339(), "2026-05-01T12:00:00+00:00");
}

#[test]
fn search_ranks_incidents_by_overlap() {
    let (first_id, first, _) = create(
        CreateIncidentParams {
            title: "Database lock storm".to_string(),
            root_cause: Some("Deadlock in checkout transaction".to_string()),
            detect_actions: None,
            mitigate_actions: None,
            prevent_actions: None,
            patterns: Some(vec!["database deadlock".to_string()]),
            initial_timeline: None,
        },
        &[],
    );
    let (second_id, second, _) = create(
        CreateIncidentParams {
            title: "CDN cache misses".to_string(),
            root_cause: Some("Region cache invalidation lag".to_string()),
            detect_actions: None,
            mitigate_actions: None,
            prevent_actions: None,
            patterns: Some(vec!["cache miss".to_string()]),
            initial_timeline: None,
        },
        &[first_id.clone()],
    );
    let plan = prepare_search(&SearchSimilarIncidentsParams {
        query: "database deadlock checkout".to_string(),
        limit: Some(2),
    })
    .expect("search succeeds");
    let candidates: Vec<_> = [(first_id.clone(), first), (second_id.clone(), second)]
        .into_iter()
        .filter_map(|(id, md)| rank_incident(&plan.query_tokens, id, &md))
        .collect();
    let result = rank_incidents(candidates, plan.limit);
    assert_eq!(result.len(), 1);
    assert_eq!(result[0].incident_id, first_id);
    assert_ne!(result[0].incident_id, second_id);
}

#[test]
fn required_fields_are_trimmed_or_refused() {
    assert_eq!(require_non_empty("  abc \n", "title").unwrap(), "abc");
    assert_eq!(
        require_non_empty(" \t", "incident title").unwrap_err().message,
        "incident title cannot be empty"
    );
}

#[test]
fn timestamps_parse_after_trimming() {
    let t = parse_timestamp(Some("  2026-05-01T11:00:00+01:00 "), clock()).unwrap();
    assert_eq!(t.to_rfc3339(), "2026-05-01T10:00:00+00:00");
    let err = parse_timestamp(Some("tomorrow"), clock()).unwrap_err();
    assert!(err.message.starts_with("invalid RFC3339 timestamp supplied: "));
    assert!(err.message.len() > "invalid RFC3339 timestamp supplied: ".len());
    let now = clock();
    assert_eq!(parse_timestamp(None, now).unwrap(), now);
}

#[test]
fn slugs_and_ids() {
    assert_eq!(incident_slug("Search fan-out saturation"), "search-fan-out-saturation");
    assert_eq!(incident_slug("!!!"), "incident");
    let long = incident_slug(&"word ".repeat(40));
    assert!(long.len() <= 64 && !long.ends_with('-'));
    assert_eq!(incident_id_candidate("db", "20260501100000", 0), "db-20260501100000");
    assert_eq!(incident_id_candidate("db", "20260501100000", 12), "db-20260501100000-12");
    assert_eq!(incident_file_name("db-1"), "db-1.md");
}

#[test]
fn draft_fills_defaults() {
    let created = Timestamp::parse_rfc3339("2026-05-01T10:00:00Z").unwrap();
    let draft = draft_incident(
        CreateIncidentParams {
            title: "  Disk full  ".to_string(),
            root_cause: Some("   ".to_string()),
            detect_actions: None,
            mitigate_actions: Some(strings(&["m"])),
            prevent_actions: None,
            patterns: None,
            initial_timeline: Some(strings(&["  first ", "   ", "second"])),
        },
        created,
    )
    .unwrap();
    assert_eq!(draft.title, "Disk full");
    assert_eq!(draft.base_slug, "disk-full");
    assert_eq!(draft.timestamp_part, "20260501100000");
    assert_eq!(draft.root_cause, "_TBD_");
    let summaries: Vec<&str> = draft.timeline.iter().map(|e| e.summary.as_str()).collect();
    assert_eq!(summaries, vec!["first", "second"]);
    assert!(draft.action_items.detect.is_empty());
    assert_eq!(draft.action_items.mitigate, strings(&["m"]));
    let template = draft.into_template("disk-full-20260501100000".to_string());
    let markdown = render_incident_markdown(&template);
    assert_eq!(extract_title(&markdown).as_deref(), Some("Disk full"));
    assert!(markdown.contains("## Root Cause\n_TBD_\n"));
}

#[test]
fn blank_title_is_refused() {
    let err = draft_incident(
        CreateIncidentParams {
            title: "   ".to_string(),
            root_cause: None,
            detect_actions: None,
            mitigate_actions: None,
            prevent_actions: None,
            patterns: None,
            initial_timeline: None,
        },
        clock(),
    )
    .unwrap_err();
    assert_eq!(err.message, "incident title cannot be empty");
}

#[test]
fn timeline_entry_validation_order() {
    let err = prepare_timeline_entry(AddTimelineEntryParams {
        incident_id: " ".to_string(),
        summary: " ".to_string(),
        timestamp: Some("bad".to_string()),
    }, clock())
    .unwrap_err();
    assert_eq!(err.message, "incident_id cannot be empty");
    let err = prepare_timeline_entry(AddTimelineEntryParams {
        incident_id: "x".to_string(),
        summary: " ".to_string(),
        timestamp: Some("bad".to_string()),
    }, clock())
    .unwrap_err();
    assert_eq!(err.message, "summary cannot be empty");
    let err = prepare_timeline_entry(AddTimelineEntryParams {
        incident_id: "x".to_string(),
        summary: "y".to_string(),
        timestamp: Some("bad".to_string()),
    }, clock())
    .unwrap_err();
    assert!(err.message.starts_with("invalid RFC3339 timestamp supplied: "));
}

#[test]
fn resolution_without_summary_only_updates_status() {
    let at = Timestamp::parse_rfc3339("2026-05-01T12:00:00Z").unwrap();
    let doc = "---\nstatus: open\nresolved_at: null\n---\n# 🟠 T\n\n## Timeline\n- a\n\n## Root Cause\nr\n";
    let out = resolve_markdown(doc, at, &Some("   ".to_string()));
    assert_eq!(
        out,
        "---\nstatus: resolved\nresolved_at: 2026-05-01T12:00:00+00:00\n---\n# 🟢 T\n\n## Timeline\n- a\n\n## Root Cause\nr\n"
    );
    let err = prepare_resolution(&ResolveIncidentParams {
        incident_id: "".to_string(),
        resolution_summary: None,
        resolved_at: None,
    }, clock())
    .unwrap_err();
    assert_eq!(err.message, "incident_id cannot be empty");
}

#[test]
fn search_limits_and_queries() {
    assert_eq!(search_limit(None), 5);
    assert_eq!(search_limit(Some(0)), 1);
    assert_eq!(search_limit(Some(7)), 7);
    assert_eq!(search_limit(Some(500)), 50);
    assert_eq!(
        prepare_search(&SearchSimilarIncidentsParams { query: "  ".to_string(), limit: None })
            .unwrap_err()
            .message,
        "query cannot be empty"
    );
    let plan = prepare_search(&SearchSimilarIncidentsParams {
        query: " Cache cache MISS ".to_string(),
        limit: None,
    })
    .unwrap();
    assert_eq!(plan.query, "Cache cache MISS");
    let mut tokens = plan.query_tokens.clone();
    tokens.sort();
    assert_eq!(tokens, strings(&["cache", "miss"]));
}

#[test]
fn incident_file_names() {
    assert_eq!(incident_id_from_file_name("db-1.md").as_deref(), Some("db-1"));
    assert_eq!(incident_id_from_file_name("a.b.md").as_deref(), Some("a.b"));
    assert_eq!(incident_id_from_file_name(".md"), None);
    assert_eq!(incident_id_from_file_name("notes.txt"), None);
    assert_eq!(incident_id_from_file_name("md"), None);
}

#[test]
fn resolving_twice_without_summary_changes_nothing() {
    let at = Timestamp::parse_rfc3339("2026-05-01T12:00:00Z").unwrap();
    let doc = "---\nstatus: open\nresolved_at: null\n---\n# 🟠 T\n\n## Timeline\n- a\n\n## Root Cause\nr\n";
    let once = resolve_markdown(doc, at, &None);
    let twice = resolve_markdown(&once, at, &None);
    assert_eq!(twice, once);
    assert!(once.contains("status: resolved\nresolved_at: 2026-05-01T12:00:00+00:00\n"));
}

#[test]
fn default_timestamp_is_the_given_instant() {
    let now = clock();
    assert_eq!(parse_timestamp(None, now).expect("no text to parse"), now);
    let (_, entry) = prepare_timeline_entry(
        AddTimelineEntryParams {
            incident_id: "x".to_string(),
            summary: "y".to_string(),
            timestamp: None,
        },
        now,
    )
    .unwrap();
    assert_eq!(entry.timestamp, now);
}

#[test]
fn resolving_rendered_incident_renders_it_resolved() {
    let t0 = Timestamp::parse_rfc3339("2026-05-01T10:00:00Z").unwrap();
    let t1 = Timestamp::parse_rfc3339("2026-05-01T12:00:00Z").unwrap();
    let data = IncidentTemplateData {
        incident_id: "disk-full-20260501100000".to_string(),
        title: "Disk full".to_string(),
        status: IncidentStatus::Open,
        created_at: t0,
        resolved_at: None,
        root_cause: "Volume filled".to_string(),
        timeline: vec![TimelineEntry { timestamp: t0, summary: "Alert fired".to_string() }],
        action_items: ActionItems { detect: vec![], mitigate: vec![], prevent: vec![] },
        patterns: vec![],
    };
    let resolved = resolve_markdown(&render_incident_markdown(&data), t1, &Some("  Cleaned up  ".to_string()));
    let mut expected = data.clone();
    expected.status = IncidentStatus::Resolved;
    expected.resolved_at = Some(t1);
    expected.timeline.push(TimelineEntry { timestamp: t1, summary: "Resolved: Cleaned up".to_string() });
    assert_eq!(resolved, render_incident_markdown(&expected));
}

#[test]
fn search_for_placeholder_words_finds_nothing() {
    let (incident_id, markdown, _) = create(
        CreateIncidentParams {
            title: "Disk full".to_string(),
            root_cause: Some("Volume filled".to_string()),
            detect_actions: None,
            mitigate_actions: None,
            prevent_actions: None,
            patterns: None,
            initial_timeline: None,
        },
        &[],
    );
    for query in ["yet", "none", "None yet"] {
        let plan = prepare_search(&SearchSimilarIncidentsParams {
            query: query.to_string(),
            limit: None,
        })
        .expect("search succeeds");
        assert!(rank_incident(&plan.query_tokens, incident_id.clone(), &markdown).is_none());
    }
}

#[test]
fn first_free_incident_id_skips_taken_ids() {
    assert_eq!(first_free_incident_id("db", "20260501100000", &vec![]), "db-20260501100000");
    let taken = strings(&["db-20260501100000", "db-20260501100000-1", "other", "db-20260501100000-3"]);
    assert_eq!(first_free_incident_id("db", "20260501100000", &taken), "db-20260501100000-2");
}

#[test]
fn search_ignores_case_and_punctuation_of_query() {
    let markdown = "# 🟠 Fan out overload\n\n## Root Cause\nworkers\n\n## Patterns\n- fan-out\n";
    let loud = prepare_search(&SearchSimilarIncidentsParams {
        query: " FAN-OUT, Overload! ".to_string(),
        limit: None,
    })
    .unwrap();
    let plain = prepare_search(&SearchSimilarIncidentsParams {
        query: " fan out  overload  ".to_string(),
        limit: None,
    })
    .unwrap();
    let a = rank_incident(&loud.query_tokens, "x".to_string(), markdown).unwrap();
    let b = rank_incident(&plain.query_tokens, "x".to_string(), markdown).unwrap();
    assert_eq!(a.matched_terms, 3);
    assert_eq!(a.matched_terms, b.matched_terms);
    assert_eq!(a.title, b.title);
}

use living_postmortem_mcp::templates::{
    append_timeline_entry, extract_patterns, extract_root_cause, extract_title,
    render_incident_markdown, status_emoji, update_incident_status, ActionItems, IncidentStatus,
    IncidentTemplateData, TimelineEntry,
};
use living_postmortem_mcp::timestamp::Timestamp;

fn at(text: &str) -> Timestamp {
    Timestamp::parse_rfc3339(text).expect("valid timestamp")
}

fn sample_incident() -> IncidentTemplateData {
    IncidentTemplateData {
        incident_id: "incident-001".to_string(),
        title: "Search service degraded under peak traffic".to_string(),
        status: IncidentStatus::Open,
        created_at: at("2026-05-01T10:00:00Z"),
        resolved_at: None,
        root_cause: "Thread pool saturation after unbounded fan-out.".to_string(),
        timeline: vec![TimelineEntry {
            timestamp: at("2026-05-01T10:05:00Z"),
            summary: "First alert fired in EU region.".to_string(),
        }],
        action_items: ActionItems {
            detect: vec!["Add queue depth alert with p95 guardrails.".to_string()],
            mitigate: vec!["Cap concurrent fan-out to 20 requests.".to_string()],
            prevent: vec!["Load test fan-out scenarios in CI.".to_string()],
        },
        patterns: vec![
            "Fan-out overload".to_string(),
            "Insufficient backpressure".to_string(),
        ],
    }
}

#[test]
fn render_incident_has_required_sections() {
    let markdown = render_incident_markdown(&sample_incident());
    assert!(markdown.contains("# 🟠 Search service degraded under peak traffic"));
    assert!(markdown.contains("## Timeline"));
    assert!(markdown.contains("## Root Cause"));
    assert!(markdown.contains("## Action Items"));
    assert!(markdown.contains("### Detect"));
    assert!(markdown.contains("### Mitigate"));
    assert!(markdown.contains("### Prevent"));
    assert!(markdown.contains("## Patterns"));
}

#[test]
fn timeline_entry_is_appended_before_root_cause_section() {
    let base = render_incident_markdown(&sample_incident());
    let appended = append_timeline_entry(
        &base,
        &TimelineEntry {
            timestamp: at("2026-05-01T10:15:00Z"),
            summary: "Traffic shaping enabled.".to_string(),
        },
    );
    let marker = "- 2026-05-01T10:15:00+00:00 — Traffic shaping enabled.";
    assert!(appended.contains(marker));
    assert!(
        appended.find(marker).expect("line present")
            < appended.find("## Root Cause").expect("root cause present")
    );
}

#[test]
fn status_updates_header_and_frontmatter() {
    let base = render_incident_markdown(&sample_incident());
    let resolved = update_incident_status(
        &base,
        IncidentStatus::Resolved,
        Some(at("2026-05-01T11:00:00Z")),
    );

    assert!(resolved.contains("status: resolved"));
    assert!(resolved.contains("resolved_at: 2026-05-01T11:00:00+00:00"));
    assert!(resolved.contains("# 🟢 Search service degraded under peak traffic"));
}

#[test]
fn section_extractors_return_expected_values() {
    let markdown = render_incident_markdown(&sample_incident());
    assert_eq!(
        extract_title(&markdown).as_deref(),
        Some("Search service degraded under peak traffic")
    );
    assert_eq!(
        extract_root_cause(&markdown),
        "Thread pool saturation after unbounded fan-out."
    );
    assert_eq!(
        extract_patterns(&markdown),
        vec![
            "Fan-out overload".to_string(),
            "Insufficient backpressure".to_string()
        ]
    );
}

#[test]
fn rendered_document_is_exact() {
    let markdown = render_incident_markdown(&sample_incident());
    let expected = "---\n\
incident_id: incident-001\n\
status: open\n\
created_at: 2026-05-01T10:00:00+00:00\n\
resolved_at: null\n\
---\n\
# 🟠 Search service degraded under peak traffic\n\
\n\
## Timeline\n\
- 2026-05-01T10:05:00+00:00 — First alert fired in EU region.\n\
\n\
## Root Cause\n\
Thread pool saturation after unbounded fan-out.\n\
\n\
## Action Items\n\
### Detect\n\
- Add queue depth alert with p95 guardrails.\n\
### Mitigate\n\
- Cap concurrent fan-out to 20 requests.\n\
### Prevent\n\
- Load test fan-out scenarios in CI.\n\
\n\
## Patterns\n\
- Fan-out overload\n\
- Insufficient backpressure\n";
    assert_eq!(markdown, expected);
}

#[test]
fn empty_lists_render_placeholder_and_dashed_items_stay() {
    let mut data = sample_incident();
    data.timeline.clear();
    data.action_items.detect.clear();
    data.patterns = vec!["  - already dashed".to_string(), "plain".to_string()];
    data.root_cause = "   spaced out \n".to_string();
    let markdown = render_incident_markdown(&data);
    assert!(markdown.contains("## Timeline\n- _None yet_\n\n## Root Cause\nspaced out\n\n"));
    assert!(markdown.contains("### Detect\n- _None yet_\n### Mitigate"));
    assert!(markdown.contains("## Patterns\n  - already dashed\n- plain\n"));
}

#[test]
fn resolved_incident_renders_resolution_time_and_green_marker() {
    let mut data = sample_incident();
    data.status = IncidentStatus::Resolved;
    data.resolved_at = Some(at("2026-05-01T12:30:00.250Z"));
    let markdown = render_incident_markdown(&data);
    assert!(markdown.contains("status: resolved\n"));
    assert!(markdown.contains("resolved_at: 2026-05-01T12:30:00.250+00:00\n"));
    assert!(markdown.contains("# 🟢 Search service"));
}

#[test]
fn status_and_emoji_words() {
    assert_eq!(IncidentStatus::Open.as_str(), "open");
    assert_eq!(IncidentStatus::Resolved.as_str(), "resolved");
    assert_eq!(status_emoji(IncidentStatus::Open), "🟠");
    assert_eq!(status_emoji(IncidentStatus::Resolved), "🟢");
}

#[test]
fn markdown_line_formats_entry() {
    let entry = TimelineEntry {
        timestamp: at("2026-05-01T10:15:00+02:00"),
        summary: "Rolled back".to_string(),
    };
    assert_eq!(entry.markdown_line(), "- 2026-05-01T08:15:00+00:00 — Rolled back");
}

#[test]
fn append_without_root_cause_goes_to_end() {
    let entry = TimelineEntry {
        timestamp: at("2026-05-01T10:15:00Z"),
        summary: "x".to_string(),
    };
    assert_eq!(
        append_timeline_entry("# t\n\nnotes  \n\n", &entry),
        "# t\n\nnotes\n- 2026-05-01T10:15:00+00:00 — x\n"
    );
}

#[test]
fn append_folds_blank_lines_before_root_cause() {
    let entry = TimelineEntry {
        timestamp: at("2026-05-01T10:15:00Z"),
        summary: "x".to_string(),
    };
    assert_eq!(
        append_timeline_entry("## Timeline\n- a\n\n\n## Root Cause\nr\n", &entry),
        "## Timeline\n- a\n- 2026-05-01T10:15:00+00:00 — x\n\n## Root Cause\nr\n"
    );
}

#[test]
fn status_update_without_resolution_writes_null() {
    let out = update_incident_status(
        "status: resolved\r\nresolved_at: 2026\nplain\n# x Title here",
        IncidentStatus::Open,
        None,
    );
    assert_eq!(out, "status: open\nresolved_at: null\nplain\n# 🟠 Title here\n");
}

#[test]
fn status_update_of_empty_document() {
    assert_eq!(update_incident_status("", IncidentStatus::Open, None), "\n");
}

#[test]
fn status_update_twice_is_status_update_once() {
    let base = render_incident_markdown(&sample_incident());
    let when = Some(at("2026-05-01T11:00:00Z"));
    let once = update_incident_status(&base, IncidentStatus::Resolved, when);
    let twice = update_incident_status(&once, IncidentStatus::Resolved, when);
    assert_eq!(once, twice);
    assert_eq!(extract_title(&once), extract_title(&base));
}

#[test]
fn title_heading_parsing_edge_cases() {
    assert_eq!(extract_title("no heading\n## Sub heading\n"), None);
    assert_eq!(extract_title("#  \n# # a b c\n").as_deref(), Some(""));
    assert_eq!(extract_title("# # a b c\n").as_deref(), Some("b c"));
    assert_eq!(extract_title("# nospace\n# e second\n").as_deref(), Some("second"));
}

#[test]
fn section_extraction_edge_cases() {
    assert_eq!(extract_root_cause("nothing here"), "");
    assert_eq!(extract_root_cause("## Root Cause\n  cause  "), "cause");
    assert_eq!(extract_patterns("## Patterns\n- a\n  - b  \nc\n-d\n## Next\n- e"), vec![
        "a".to_string(),
        "b".to_string()
    ]);
    assert!(extract_patterns("## Timeline\n- a\n").is_empty());
}

#[test]
fn patterns_placeholder_reads_back_as_written() {
    let mut data = sample_incident();
    data.patterns.clear();
    let markdown = render_incident_markdown(&data);
    assert!(markdown.ends_with("## Patterns\n- _None yet_\n"));
    assert_eq!(extract_patterns(&markdown), vec!["_None yet_".to_string()]);
    data.patterns = vec!["_None yet_".to_string()];
    assert_eq!(render_incident_markdown(&data), markdown);
    assert_eq!(extract_patterns("## Patterns\n- _None yet_\n- real\n"), vec![
        "_None yet_".to_string(),
        "real".to_string()
    ]);
}

#[test]
fn appending_to_rendered_document_renders_entry_in_timeline() {
    let data = sample_incident();
    let entry = TimelineEntry {
        timestamp: at("2026-05-01T10:15:00Z"),
        summary: "Traffic shaping enabled.".to_string(),
    };
    let appended = append_timeline_entry(&render_incident_markdown(&data), &entry);
    let mut with_entry = sample_incident();
    with_entry.timeline.push(entry);
    assert_eq!(appended, render_incident_markdown(&with_entry));
    assert_eq!(
        extract_title(&appended).as_deref(),
        Some("Search service degraded under peak traffic")
    );
    assert_eq!(extract_root_cause(&appended), "Thread pool saturation after unbounded fan-out.");
    assert_eq!(extract_patterns(&appended), data.patterns);
}

#[test]
fn status_update_is_idempotent_with_carriage_return_on_status_line() {
    let doc = "x\nstatus: open\r";
    let once = update_incident_status(doc, IncidentStatus::Resolved, None);
    assert_eq!(once, "x\nstatus: resolved\n");
    let twice = update_incident_status(&once, IncidentStatus::Resolved, None);
    assert_eq!(twice, once);
}

#[test]
fn status_update_of_rendered_document_renders_new_status() {
    let data = sample_incident();
    let resolved_at = at("2026-05-01T11:00:00Z");
    let updated = update_incident_status(
        &render_incident_markdown(&data),
        IncidentStatus::Resolved,
        Some(resolved_at),
    );
    let mut resolved = sample_incident();
    resolved.status = IncidentStatus::Resolved;
    resolved.resolved_at = Some(resolved_at);
    assert_eq!(updated, render_incident_markdown(&resolved));
    assert_eq!(extract_root_cause(&updated), "Thread pool saturation after unbounded fan-out.");
    assert_eq!(extract_patterns(&updated), data.patterns);
}

#[test]
fn appending_to_empty_timeline_keeps_what_is_searched() {
    let mut data = sample_incident();
    data.timeline.clear();
    let markdown = render_incident_markdown(&data);
    let appended = append_timeline_entry(
        &markdown,
        &TimelineEntry { timestamp: at("2026-05-01T10:15:00Z"), summary: "First page".to_string() },
    );
    assert!(appended.contains("- _None yet_\n- 2026-05-01T10:15:00+00:00 — First page\n\n## Root Cause"));
    assert_eq!(extract_title(&appended), extract_title(&markdown));
    assert_eq!(extract_root_cause(&appended), extract_root_cause(&markdown));
    assert_eq!(extract_patterns(&appended), extract_patterns(&markdown));
}

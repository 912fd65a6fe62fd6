//! The incident markdown document: rendering it from template data, adding
//! timeline lines, rewriting its status, and reading sections back out.

use vstd::prelude::*;
use crate::text::{
    chars_of, find, find_chars, join_lines, join_lines_of, lines, lines_of, push_all, push_str,
    slice, starts_with, starts_with_chars, string_of, string_views, trim, trim_chars, trim_end,
    trim_end_char, trim_end_char_chars, trim_end_chars, trim_start, trim_start_chars, views,
};
use crate::timestamp::{rfc3339_of, Timestamp};

verus! {

// ---------------------------------------------------------------------------
// Data
// ---------------------------------------------------------------------------

/// Lifecycle state of an incident.
#[derive(Clone, Copy, Debug, PartialEq, Eq, Structural)]
pub enum IncidentStatus {
    Open,
    Resolved,
}

/// The word written for a status in the frontmatter.
pub open spec fn status_text(status: IncidentStatus) -> Seq<char> {
    match status {
        IncidentStatus::Open => "open"@,
        IncidentStatus::Resolved => "resolved"@,
    }
}

/// The marker written before the title for a status.
pub open spec fn emoji_text(status: IncidentStatus) -> Seq<char> {
    match status {
        IncidentStatus::Open => "🟠"@,
        IncidentStatus::Resolved => "🟢"@,
    }
}

impl IncidentStatus {
    /// The word for the status: `open` or `resolved`.
    pub fn as_str(self) -> (res: &'static str)
        ensures
            res@ == status_text(self),
    {
        match self {
            IncidentStatus::Open => "open",
            IncidentStatus::Resolved => "resolved",
        }
    }
}

/// The coloured marker of a status: orange while open, green once resolved.
pub fn status_emoji(status: IncidentStatus) -> (res: &'static str)
    ensures
        res@ == emoji_text(status),
{
    match status {
        IncidentStatus::Open => "🟠",
        IncidentStatus::Resolved => "🟢",
    }
}

/// One dated line of an incident's timeline.
#[derive(Clone, Debug)]
pub struct TimelineEntry {
    pub timestamp: Timestamp,
    pub summary: String,
}

/// The markdown line of a timeline entry: `- <RFC 3339 time> — <summary>`.
pub open spec fn entry_line(timestamp: (i64, u32), summary: Seq<char>) -> Seq<char> {
    "- "@ + rfc3339_of(timestamp) + " — "@ + summary
}

impl TimelineEntry {
    /// The markdown line of this entry.
    pub open spec fn line(self) -> Seq<char> {
        entry_line(self.timestamp@, self.summary@)
    }

    /// The markdown line of this entry.
    pub fn markdown_line(&self) -> (res: String)
        ensures
            res@ == self.line(),
    {
        let mut out: Vec<char> = Vec::new();
        push_str(&mut out, "- ");
        let stamp = self.timestamp.to_rfc3339();
        push_str(&mut out, stamp.as_str());
        push_str(&mut out, " — ");
        push_str(&mut out, self.summary.as_str());
        string_of(&out)
    }
}

/// The three lists of follow-up actions of an incident.
#[derive(Clone, Debug)]
pub struct ActionItems {
    pub detect: Vec<String>,
    pub mitigate: Vec<String>,
    pub prevent: Vec<String>,
}

/// Everything an incident document is rendered from.
#[derive(Clone, Debug)]
pub struct IncidentTemplateData {
    pub incident_id: String,
    pub title: String,
    pub status: IncidentStatus,
    pub created_at: Timestamp,
    pub resolved_at: Option<Timestamp>,
    pub root_cause: String,
    pub timeline: Vec<TimelineEntry>,
    pub action_items: ActionItems,
    pub patterns: Vec<String>,
}

// ---------------------------------------------------------------------------
// The rendered document
// ---------------------------------------------------------------------------

/// A list item as rendered: kept as it is when it already starts (after
/// leading white space) with `- `, else prefixed with `- `.
pub open spec fn bullet(line: Seq<char>) -> Seq<char> {
    if starts_with(trim_start(line), "- "@) {
        line
    } else {
        "- "@ + line
    }
}

/// A list as rendered: its items one per line, or a placeholder when empty.
pub open spec fn bulleted(items: Seq<Seq<char>>) -> Seq<char> {
    if items.len() == 0 {
        "- _None yet_"@
    } else {
        join_lines(items.map_values(|l: Seq<char>| bullet(l)))
    }
}

/// A `###` subsection with its content.
pub open spec fn subsection(name: Seq<char>, content: Seq<char>) -> Seq<char> {
    "### "@ + name + "\n"@ + content + "\n"@
}

/// The frontmatter value of an optional resolution time.
pub open spec fn resolved_text(resolved_at: Option<(i64, u32)>) -> Seq<char> {
    match resolved_at {
        Some(t) => rfc3339_of(t),
        None => "null"@,
    }
}

/// The view of an optional timestamp.
pub open spec fn opt_view(t: Option<Timestamp>) -> Option<(i64, u32)> {
    match t {
        Some(t) => Some(t@),
        None => None,
    }
}

/// The frontmatter block.
pub open spec fn frontmatter(
    incident_id: Seq<char>,
    status: IncidentStatus,
    created_at: (i64, u32),
    resolved_at: Option<(i64, u32)>,
) -> Seq<char> {
    "---\n"@ + "incident_id: "@ + incident_id + "\n"@ + "status: "@ + status_text(status) + "\n"@
        + "created_at: "@ + rfc3339_of(created_at) + "\n"@ + "resolved_at: "@ + resolved_text(
        resolved_at,
    ) + "\n"@ + "---\n"@
}

/// The title heading line and the blank line after it.
pub open spec fn heading(status: IncidentStatus, title: Seq<char>) -> Seq<char> {
    "# "@ + emoji_text(status) + " "@ + title + "\n\n"@
}

/// The timeline section.
pub open spec fn timeline_section(lines: Seq<Seq<char>>) -> Seq<char> {
    "## Timeline"@ + "\n"@ + bulleted(lines) + "\n\n"@
}

/// The root cause section.
pub open spec fn root_cause_section(root_cause: Seq<char>) -> Seq<char> {
    "## Root Cause"@ + "\n"@ + trim(root_cause) + "\n\n"@
}

/// The action items section.
pub open spec fn actions_section(
    detect: Seq<Seq<char>>,
    mitigate: Seq<Seq<char>>,
    prevent: Seq<Seq<char>>,
) -> Seq<char> {
    "## Action Items"@ + "\n"@ + subsection("Detect"@, bulleted(detect)) + subsection(
        "Mitigate"@,
        bulleted(mitigate),
    ) + subsection("Prevent"@, bulleted(prevent)) + "\n"@
}

/// The patterns section.
pub open spec fn patterns_section(patterns: Seq<Seq<char>>) -> Seq<char> {
    "## Patterns"@ + "\n"@ + bulleted(patterns) + "\n"@
}

impl IncidentTemplateData {
    /// The markdown lines of the timeline entries, in order.
    pub open spec fn timeline_lines(self) -> Seq<Seq<char>> {
        Seq::new(self.timeline@.len(), |i: int| self.timeline@[i].line())
    }

    /// The whole markdown document of this incident.
    pub open spec fn markdown(self) -> Seq<char> {
        frontmatter(self.incident_id@, self.status, self.created_at@, opt_view(self.resolved_at))
            + heading(self.status, self.title@) + timeline_section(self.timeline_lines())
            + root_cause_section(self.root_cause@) + actions_section(
            string_views(self.action_items.detect@),
            string_views(self.action_items.mitigate@),
            string_views(self.action_items.prevent@),
        ) + patterns_section(string_views(self.patterns@))
    }
}

/// The characters of each string.
fn chars_of_all(items: &Vec<String>) -> (res: Vec<Vec<char>>)
    ensures
        views(res@) == string_views(items@),
{
    let n = items.len();
    let mut res: Vec<Vec<char>> = Vec::new();
    for i in 0..n
        invariant
            n == items@.len(),
            views(res@) == string_views(items@).take(i as int),
    {
        let ghost before = res@;
        res.push(chars_of(items[i].as_str()));
        assert(views(res@) == views(before).push(items@[i as int]@));
        assert(string_views(items@).take(i + 1) == string_views(items@).take(i as int).push(
            items@[i as int]@,
        ));
    }
    assert(string_views(items@).take(n as int) == string_views(items@));
    res
}

/// Appends the list `items` as rendered by `bulleted`.
fn render_bulleted(out: &mut Vec<char>, items: &Vec<Vec<char>>)
    ensures
        final(out)@ == old(out)@ + bulleted(views(items@)),
{
    let n = items.len();
    if n == 0 {
        push_str(out, "- _None yet_");
        return;
    }
    let ghost all = views(items@).map_values(|l: Seq<char>| bullet(l));
    let ghost start = out@;
    for i in 0..n
        invariant
            n == items@.len(),
            n > 0,
            all == views(items@).map_values(|l: Seq<char>| bullet(l)),
            out@ == start + join_lines(all.take(i as int)),
    {
        assert(all.take(i + 1).drop_last() == all.take(i as int));
        if i > 0 {
            out.push('\n');
        }
        let trimmed = trim_start_chars(&items[i]);
        let dash = chars_of("- ");
        if !starts_with_chars(&trimmed, &dash) {
            push_str(out, "- ");
        }
        push_all(out, &items[i]);
        assert(all.take(i + 1).last() == bullet(items@[i as int]@));
    }
    assert(all.take(n as int) == all);
}

/// The markdown line of each timeline entry.
fn timeline_markdown_lines(data: &IncidentTemplateData) -> (res: Vec<Vec<char>>)
    ensures
        views(res@) == data.timeline_lines(),
{
    let n = data.timeline.len();
    let mut res: Vec<Vec<char>> = Vec::new();
    for i in 0..n
        invariant
            n == data.timeline@.len(),
            views(res@) == data.timeline_lines().take(i as int),
    {
        let ghost before = res@;
        let line = data.timeline[i].markdown_line();
        res.push(chars_of(line.as_str()));
        assert(views(res@) == views(before).push(data.timeline@[i as int].line()));
        assert(data.timeline_lines().take(i + 1) == data.timeline_lines().take(i as int).push(
            data.timeline@[i as int].line(),
        ));
    }
    assert(data.timeline_lines().take(n as int) == data.timeline_lines());
    res
}

fn push_frontmatter(out: &mut Vec<char>, data: &IncidentTemplateData)
    ensures
        final(out)@ == old(out)@ + frontmatter(
            data.incident_id@,
            data.status,
            data.created_at@,
            opt_view(data.resolved_at),
        ),
{
    let ghost start = out@;
    push_str(out, "---\n");
    push_str(out, "incident_id: ");
    push_str(out, data.incident_id.as_str());
    push_str(out, "\n");
    push_str(out, "status: ");
    push_str(out, data.status.as_str());
    push_str(out, "\n");
    push_str(out, "created_at: ");
    let created = data.created_at.to_rfc3339();
    push_str(out, created.as_str());
    push_str(out, "\n");
    push_str(out, "resolved_at: ");
    match &data.resolved_at {
        Some(t) => {
            let resolved = t.to_rfc3339();
            push_str(out, resolved.as_str());
        },
        None => {
            push_str(out, "null");
        },
    }
    push_str(out, "\n");
    push_str(out, "---\n");
    assert(out@ == start + frontmatter(
        data.incident_id@,
        data.status,
        data.created_at@,
        opt_view(data.resolved_at),
    ));
}

fn push_sections(out: &mut Vec<char>, data: &IncidentTemplateData)
    ensures
        final(out)@ == old(out)@ + heading(data.status, data.title@) + timeline_section(
            data.timeline_lines(),
        ) + root_cause_section(data.root_cause@),
{
    let ghost start = out@;
    push_str(out, "# ");
    push_str(out, status_emoji(data.status));
    push_str(out, " ");
    push_str(out, data.title.as_str());
    push_str(out, "\n\n");
    let ghost after_heading = out@;
    assert(after_heading == start + heading(data.status, data.title@));
    push_str(out, "## Timeline");
    push_str(out, "\n");
    let lines = timeline_markdown_lines(data);
    render_bulleted(out, &lines);
    push_str(out, "\n\n");
    let ghost after_timeline = out@;
    assert(after_timeline == after_heading + timeline_section(data.timeline_lines()));
    push_str(out, "## Root Cause");
    push_str(out, "\n");
    let root = chars_of(data.root_cause.as_str());
    let root = trim_chars(&root);
    push_all(out, &root);
    push_str(out, "\n\n");
    assert(out@ == after_timeline + root_cause_section(data.root_cause@));
}

fn render_subsection(out: &mut Vec<char>, name: &str, items: &Vec<String>)
    ensures
        final(out)@ == old(out)@ + subsection(name@, bulleted(string_views(items@))),
{
    let ghost start = out@;
    push_str(out, "### ");
    push_str(out, name);
    push_str(out, "\n");
    let cs = chars_of_all(items);
    render_bulleted(out, &cs);
    push_str(out, "\n");
    assert(out@ == start + subsection(name@, bulleted(string_views(items@))));
}

fn push_tail_sections(out: &mut Vec<char>, data: &IncidentTemplateData)
    ensures
        final(out)@ == old(out)@ + actions_section(
            string_views(data.action_items.detect@),
            string_views(data.action_items.mitigate@),
            string_views(data.action_items.prevent@),
        ) + patterns_section(string_views(data.patterns@)),
{
    let ghost start = out@;
    push_str(out, "## Action Items");
    push_str(out, "\n");
    render_subsection(out, "Detect", &data.action_items.detect);
    render_subsection(out, "Mitigate", &data.action_items.mitigate);
    render_subsection(out, "Prevent", &data.action_items.prevent);
    push_str(out, "\n");
    let ghost after_actions = out@;
    assert(after_actions == start + actions_section(
        string_views(data.action_items.detect@),
        string_views(data.action_items.mitigate@),
        string_views(data.action_items.prevent@),
    ));
    push_str(out, "## Patterns");
    push_str(out, "\n");
    let ps = chars_of_all(&data.patterns);
    render_bulleted(out, &ps);
    push_str(out, "\n");
    assert(out@ == after_actions + patterns_section(string_views(data.patterns@)));
}

/// The markdown document of an incident: frontmatter, the title heading with
/// its status marker, and the Timeline, Root Cause, Action Items (Detect,
/// Mitigate, Prevent) and Patterns sections.
pub fn render_incident_markdown(data: &IncidentTemplateData) -> (res: String)
    ensures
        res@ == data.markdown(),
{
    let mut out: Vec<char> = Vec::new();
    push_frontmatter(&mut out, data);
    let ghost a = out@;
    push_sections(&mut out, data);
    let ghost b = out@;
    push_tail_sections(&mut out, data);
    assert(out@ == data.markdown());
    string_of(&out)
}

// ---------------------------------------------------------------------------
// Editing a document
// ---------------------------------------------------------------------------

/// The document `md` with the timeline line `line` added: right before the
/// first `\n## Root Cause\n` (blank lines before it folded into one line
/// break), or at the end of the trimmed document when there is no such
/// heading.
pub open spec fn appended(md: Seq<char>, line: Seq<char>) -> Seq<char> {
    match find(md, "\n## Root Cause\n"@) {
        Some(idx) => trim_end_char(md.take(idx), '\n') + "\n"@ + line + "\n"@ + md.skip(idx),
        None => trim_end(md) + "\n"@ + line + "\n"@,
    }
}

/// Adds the entry's line to the timeline of a document: before the Root
/// Cause section when there is one, else at the end.
pub fn append_timeline_entry(markdown: &str, entry: &TimelineEntry) -> (res: String)
    ensures
        res@ == appended(markdown@, entry.line()),
{
    let md = chars_of(markdown);
    let marker = chars_of("\n## Root Cause\n");
    let line = entry.markdown_line();
    let mut out: Vec<char>;
    match find_chars(&md, &marker) {
        Some(idx) => {
            proof {
                crate::text::lemma_find(md@, marker@);
            }
            let before = slice(&md, 0, idx);
            out = trim_end_char_chars(&before, '\n');
            push_str(&mut out, "\n");
            push_str(&mut out, line.as_str());
            push_str(&mut out, "\n");
            let after = slice(&md, idx, md.len());
            push_all(&mut out, &after);
            assert(md@.take(idx as int) == md@.subrange(0, idx as int));
            assert(md@.skip(idx as int) == md@.subrange(idx as int, md@.len() as int));
        },
        None => {
            out = trim_end_chars(&md);
            push_str(&mut out, "\n");
            push_str(&mut out, line.as_str());
            push_str(&mut out, "\n");
        },
    }
    string_of(&out)
}

/// `s` with every leading occurrence of `p` removed
/// (`str::trim_start_matches`).
pub open spec fn strip_repeated(s: Seq<char>, p: Seq<char>) -> Seq<char>
    decreases s.len(),
{
    if p.len() > 0 && starts_with(s, p) {
        strip_repeated(s.skip(p.len() as int), p)
    } else {
        s
    }
}

/// The title of a level-one heading line `# <marker> <title>`: the text after
/// the first space that follows the leading `# ` marks, or nothing when the
/// line is no such heading.
pub open spec fn h1_title(line: Seq<char>) -> Option<Seq<char>> {
    if !starts_with(line, "# "@) {
        None
    } else {
        let rest = strip_repeated(line, "# "@);
        match find(rest, " "@) {
            Some(i) => Some(rest.skip(i + 1)),
            None => None,
        }
    }
}

/// The title of a level-one heading line, if `line` is one.
fn parse_h1_title(line: &Vec<char>) -> (res: Option<Vec<char>>)
    ensures
        match res {
            Some(t) => h1_title(line@) == Some(t@),
            None => h1_title(line@) is None,
        },
{
    let mark = chars_of("# ");
    proof {
        reveal_strlit("# ");
        reveal_strlit(" ");
    }
    if !starts_with_chars(line, &mark) {
        return None;
    }
    let mut rest = slice(line, 0, line.len());
    assert(rest@ == line@);
    while starts_with_chars(&rest, &mark)
        invariant
            mark@ == "# "@,
            mark@.len() == 2,
            strip_repeated(line@, mark@) == strip_repeated(rest@, mark@),
        decreases rest@.len(),
    {
        rest = slice(&rest, 2, rest.len());
    }
    let space = chars_of(" ");
    match find_chars(&rest, &space) {
        Some(i) => {
            proof {
                crate::text::lemma_find(rest@, space@);
                assert(crate::text::match_at(rest@, space@, i as int));
            }
            let rest_len = rest.len();
            let title = slice(&rest, i + 1, rest_len);
            assert(title@ == rest@.skip(i + 1));
            Some(title)
        },
        None => None,
    }
}

/// A document line after a status change: the `status: ` and `resolved_at: `
/// frontmatter lines get the new values, a title heading gets the marker of
/// the new status, other lines stay.
pub open spec fn updated_line(line: Seq<char>, status: IncidentStatus, resolved: Seq<char>) -> Seq<
    char,
> {
    if starts_with(line, "status: "@) {
        "status: "@ + status_text(status)
    } else if starts_with(line, "resolved_at: "@) {
        "resolved_at: "@ + resolved
    } else {
        match h1_title(line) {
            Some(t) => "# "@ + emoji_text(status) + " "@ + t,
            None => line,
        }
    }
}

/// The document `md` after a status change: each line updated, the lines
/// joined by `\n`, with a final `\n`.
pub open spec fn status_updated(
    md: Seq<char>,
    status: IncidentStatus,
    resolved_at: Option<(i64, u32)>,
) -> Seq<char> {
    join_lines(
        lines(md).map_values(|l: Seq<char>| updated_line(l, status, resolved_text(resolved_at))),
    ) + "\n"@
}

/// Rewrites the status and resolution time in the frontmatter and the status
/// marker of the title heading.
pub fn update_incident_status(
    markdown: &str,
    status: IncidentStatus,
    resolved_at: Option<Timestamp>,
) -> (res: String)
    ensures
        res@ == status_updated(markdown@, status, opt_view(resolved_at)),
{
    let md = chars_of(markdown);
    let resolved_value = match resolved_at {
        Some(t) => t.to_rfc3339(),
        None => String::from_str("null"),
    };
    let ghost rv = resolved_text(opt_view(resolved_at));
    assert(resolved_value@ == rv);
    let status_mark = chars_of("status: ");
    let resolved_mark = chars_of("resolved_at: ");
    let source = lines_of(&md);
    let n = source.len();
    let ghost updated = lines(md@).map_values(|l: Seq<char>| updated_line(l, status, rv));
    let mut output: Vec<Vec<char>> = Vec::new();
    for i in 0..n
        invariant
            n == source@.len(),
            views(source@) == lines(md@),
            status_mark@ == "status: "@,
            resolved_mark@ == "resolved_at: "@,
            resolved_value@ == rv,
            updated == lines(md@).map_values(|l: Seq<char>| updated_line(l, status, rv)),
            views(output@) == updated.take(i as int),
    {
        let line = &source[i];
        assert(line@ == lines(md@)[i as int]);
        let mut new_line: Vec<char>;
        if starts_with_chars(line, &status_mark) {
            new_line = chars_of("status: ");
            push_str(&mut new_line, status.as_str());
        } else if starts_with_chars(line, &resolved_mark) {
            new_line = chars_of("resolved_at: ");
            push_str(&mut new_line, resolved_value.as_str());
        } else {
            match parse_h1_title(line) {
                Some(title) => {
                    new_line = chars_of("# ");
                    push_str(&mut new_line, status_emoji(status));
                    push_str(&mut new_line, " ");
                    push_all(&mut new_line, &title);
                },
                None => {
                    new_line = slice(line, 0, line.len());
                },
            }
        }
        assert(new_line@ == updated[i as int]);
        let ghost before = output@;
        output.push(new_line);
        assert(views(output@) == views(before).push(updated[i as int]));
        assert(updated.take(i + 1) == updated.take(i as int).push(updated[i as int]));
    }
    assert(updated.take(n as int) == updated);
    let mut out = join_lines_of(&output);
    out.push('\n');
    proof {
        reveal_strlit("\n");
    }
    string_of(&out)
}

// ---------------------------------------------------------------------------
// Reading a document
// ---------------------------------------------------------------------------

/// The title of the first title heading among `ls`.
pub open spec fn first_title(ls: Seq<Seq<char>>) -> Option<Seq<char>>
    decreases ls.len(),
{
    if ls.len() == 0 {
        None
    } else {
        match h1_title(ls[0]) {
            Some(t) => Some(t),
            None => first_title(ls.drop_first()),
        }
    }
}

/// The view of an optional string.
pub open spec fn opt_string_view(s: Option<String>) -> Option<Seq<char>> {
    match s {
        Some(s) => Some(s@),
        None => None,
    }
}

/// The incident title: the title of the first title heading line.
pub fn extract_title(markdown: &str) -> (res: Option<String>)
    ensures
        opt_string_view(res) == first_title(lines(markdown@)),
{
    let md = chars_of(markdown);
    let ls = lines_of(&md);
    let n = ls.len();
    assert(views(ls@).skip(0) == views(ls@));
    for i in 0..n
        invariant
            n == ls@.len(),
            views(ls@) == lines(md@),
            md@ == markdown@,
            first_title(lines(md@)) == first_title(views(ls@).skip(i as int)),
    {
        assert(views(ls@).skip(i as int).drop_first() == views(ls@).skip(i + 1));
        assert(views(ls@).skip(i as int)[0] == ls@[i as int]@);
        match parse_h1_title(&ls[i]) {
            Some(t) => {
                return Some(string_of(&t));
            },
            None => {},
        }
    }
    None
}

/// The trimmed body of the section headed `## <name>`: from after the first
/// `## <name>\n` up to the next `\n## ` or the end.
pub open spec fn section_text(md: Seq<char>, name: Seq<char>) -> Option<Seq<char>> {
    let marker = "## "@ + name + "\n"@;
    match find(md, marker) {
        Some(start) => {
            let rest = md.skip(start + marker.len());
            let end = match find(rest, "\n## "@) {
                Some(e) => e,
                None => rest.len() as int,
            };
            Some(trim(rest.take(end)))
        },
        None => None,
    }
}

/// The trimmed body of a named section, if the document has one.
fn extract_section(markdown: &Vec<char>, section: &str) -> (res: Option<Vec<char>>)
    ensures
        match res {
            Some(t) => section_text(markdown@, section@) == Some(t@),
            None => section_text(markdown@, section@) is None,
        },
{
    let mut marker = chars_of("## ");
    push_str(&mut marker, section);
    push_str(&mut marker, "\n");
    let start = match find_chars(markdown, &marker) {
        Some(s) => s,
        None => return None,
    };
    proof {
        crate::text::lemma_find(markdown@, marker@);
        assert(crate::text::match_at(markdown@, marker@, start as int));
    }
    let md_len = markdown.len();
    let rest = slice(markdown, start + marker.len(), md_len);
    assert(rest@ == markdown@.skip(start + marker@.len()));
    let next = chars_of("\n## ");
    let end = match find_chars(&rest, &next) {
        Some(e) => {
            proof {
                crate::text::lemma_find(rest@, next@);
            }
            e
        },
        None => rest.len(),
    };
    let body = slice(&rest, 0, end);
    assert(body@ == rest@.take(end as int));
    Some(trim_chars(&body))
}

/// The root cause: the trimmed Root Cause section, empty when there is none.
pub fn extract_root_cause(markdown: &str) -> (res: String)
    ensures
        res@ == match section_text(markdown@, "Root Cause"@) {
            Some(t) => t,
            None => Seq::empty(),
        },
{
    let md = chars_of(markdown);
    match extract_section(&md, "Root Cause") {
        Some(t) => string_of(&t),
        None => String::new(),
    }
}

/// The list items among `ls`: each line trimmed, those that start with `- `
/// kept without that prefix.
pub open spec fn list_items(ls: Seq<Seq<char>>) -> Seq<Seq<char>>
    decreases ls.len(),
{
    if ls.len() == 0 {
        Seq::empty()
    } else {
        let t = trim(ls[0]);
        if starts_with(t, "- "@) {
            seq![t.skip(2)] + list_items(ls.drop_first())
        } else {
            list_items(ls.drop_first())
        }
    }
}

/// The patterns of a document as listed in its Patterns section.
pub open spec fn patterns_of(md: Seq<char>) -> Seq<Seq<char>> {
    match section_text(md, "Patterns"@) {
        Some(raw) => list_items(lines(raw)),
        None => Seq::empty(),
    }
}

/// The patterns: the `- ` items of the Patterns section, without the dash.
pub fn extract_patterns(markdown: &str) -> (res: Vec<String>)
    ensures
        string_views(res@) == patterns_of(markdown@),
{
    let md = chars_of(markdown);
    let raw = match extract_section(&md, "Patterns") {
        Some(r) => r,
        None => {
            let empty: Vec<String> = Vec::new();
            assert(string_views(empty@) == Seq::<Seq<char>>::empty());
            return empty;
        },
    };
    let ls = lines_of(&raw);
    let n = ls.len();
    let dash = chars_of("- ");
    proof {
        reveal_strlit("- ");
    }
    let mut res: Vec<String> = Vec::new();
    assert(views(ls@).skip(0) == views(ls@));
    assert(string_views(res@) == Seq::<Seq<char>>::empty());
    for i in 0..n
        invariant
            n == ls@.len(),
            dash@ == "- "@,
            list_items(views(ls@)) == string_views(res@) + list_items(views(ls@).skip(i as int)),
    {
        let ghost rest = views(ls@).skip(i as int);
        assert(rest.drop_first() == views(ls@).skip(i + 1));
        assert(rest[0] == ls@[i as int]@);
        let t = trim_chars(&ls[i]);
        proof {
            reveal_strlit("- ");
        }
        if starts_with_chars(&t, &dash) {
            let item = slice(&t, 2, t.len());
            assert(item@ == t@.skip(2));
            let ghost before = res@;
            res.push(string_of(&item));
            assert(string_views(res@) == string_views(before) + seq![item@]);
        }
    }
    assert(views(ls@).skip(n as int) == Seq::<Seq<char>>::empty());
    assert(string_views(res@) + Seq::<Seq<char>>::empty() == string_views(res@));
    res
}

} // verus!

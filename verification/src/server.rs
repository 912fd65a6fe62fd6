//! The decisions of the four incident tools: validating their parameters,
//! naming new incidents, building the documents they write, and choosing
//! which incidents a search lists. Reading and writing files is left to the
//! caller.

use vstd::prelude::*;
use crate::search::{token_set, tokenize};
use crate::templates::{
    append_timeline_entry, appended, entry_line, opt_string_view, status_updated,
    update_incident_status, ActionItems, IncidentStatus, IncidentTemplateData, TimelineEntry,
};
use crate::text::{chars_of, push_str, starts_with, string_of, string_views, trim, trim_chars};
use crate::timestamp::{compact_text, rfc3339_parse, Timestamp};

verus! {

// ---------------------------------------------------------------------------
// Parameters and results of the tools
// ---------------------------------------------------------------------------

/// Parameters of `create_incident`.
#[derive(Debug)]
pub struct CreateIncidentParams {
    pub title: String,
    pub root_cause: Option<String>,
    pub detect_actions: Option<Vec<String>>,
    pub mitigate_actions: Option<Vec<String>>,
    pub prevent_actions: Option<Vec<String>>,
    pub patterns: Option<Vec<String>>,
    pub initial_timeline: Option<Vec<String>>,
}

/// Result of `create_incident`.
#[derive(Debug)]
pub struct CreateIncidentResult {
    pub incident_id: String,
    pub file_path: String,
    pub status: IncidentStatus,
}

/// Parameters of `add_timeline_entry`.
#[derive(Debug)]
pub struct AddTimelineEntryParams {
    pub incident_id: String,
    pub summary: String,
    pub timestamp: Option<String>,
}

/// Result of `add_timeline_entry`.
#[derive(Debug)]
pub struct AddTimelineEntryResult {
    pub incident_id: String,
    pub file_path: String,
    pub entry: String,
}

/// Parameters of `search_similar_incidents`.
#[derive(Debug)]
pub struct SearchSimilarIncidentsParams {
    pub query: String,
    pub limit: Option<usize>,
}

/// Parameters of `resolve_incident`.
#[derive(Debug)]
pub struct ResolveIncidentParams {
    pub incident_id: String,
    pub resolution_summary: Option<String>,
    pub resolved_at: Option<String>,
}

/// Result of `resolve_incident`.
#[derive(Debug)]
pub struct ResolveIncidentResult {
    pub incident_id: String,
    pub status: IncidentStatus,
    pub resolved_at: String,
    pub file_path: String,
}

/// A request the tools refuse, with the message given back.
#[derive(Debug)]
pub struct InvalidParams {
    pub message: String,
}

// ---------------------------------------------------------------------------
// Validation
// ---------------------------------------------------------------------------

/// The message for an empty required field.
pub open spec fn empty_field_message(field: Seq<char>) -> Seq<char> {
    field + " cannot be empty"@
}

/// A required text field, trimmed; refused when nothing but white space.
pub fn require_non_empty(raw: &str, field: &str) -> (res: Result<String, InvalidParams>)
    ensures
        res is Ok <==> trim(raw@).len() > 0,
        res matches Ok(v) ==> v@ == trim(raw@),
        res matches Err(e) ==> e.message@ == empty_field_message(field@),
{
    let cs = chars_of(raw);
    let trimmed = trim_chars(&cs);
    if trimmed.len() == 0 {
        let mut message = chars_of(field);
        push_str(&mut message, " cannot be empty");
        return Err(InvalidParams { message: string_of(&message) });
    }
    Ok(string_of(&trimmed))
}

/// The prefix of the message for a timestamp that is not RFC 3339.
pub open spec fn bad_timestamp_prefix() -> Seq<char> {
    "invalid RFC3339 timestamp supplied: "@
}

/// An optional RFC 3339 timestamp: the instant the trimmed text names, or
/// `now`, the current instant as the caller read it from the clock, when none
/// is given; refused when the text names no instant.
pub fn parse_timestamp(value: Option<&str>, now: Timestamp) -> (res: Result<
    Timestamp,
    InvalidParams,
>)
    ensures
        value is None ==> res == Ok::<Timestamp, InvalidParams>(now),
        value matches Some(raw) ==> (res is Ok <==> rfc3339_parse(trim(raw@)) is Some),
        value matches Some(raw) ==> (res matches Ok(t) ==> rfc3339_parse(trim(raw@)) == Some(t@)),
        res matches Err(e) ==> starts_with(e.message@, bad_timestamp_prefix()),
{
    match value {
        Some(raw) => {
            let cs = chars_of(raw);
            let trimmed = string_of(&trim_chars(&cs));
            match Timestamp::parse_rfc3339(trimmed.as_str()) {
                Ok(t) => Ok(t),
                Err(detail) => {
                    let mut message = chars_of("invalid RFC3339 timestamp supplied: ");
                    let ghost prefix = message@;
                    push_str(&mut message, detail.as_str());
                    assert(message@.take(prefix.len() as int) == prefix);
                    Err(InvalidParams { message: string_of(&message) })
                },
            }
        },
        None => Ok(now),
    }
}

// ---------------------------------------------------------------------------
// Naming a new incident
// ---------------------------------------------------------------------------

/// What slugify's `slugify(text, stop_words, sep, max_length)` returns.
pub uninterp spec fn slugify_text(
    text: Seq<char>,
    stop_words: Seq<char>,
    sep: Seq<char>,
    max_length: Option<usize>,
) -> Seq<char>;

/// A character slugify may write: a lower-case ASCII letter, a digit or the
/// first character of the separator.
pub open spec fn is_slug_char(c: char, sep: char) -> bool {
    ('a' <= c && c <= 'z') || ('0' <= c && c <= '9') || c == sep
}

/// Calls slugify's `slugify`. Claimed: the result is `slugify_text` of the
/// arguments; it is built only from `a`-`z`, `0`-`9` and the first
/// separator character, and is truncated to `max_length` characters when one
/// is given. `slugify` indexes the separator's first character and writes it
/// as a byte, so the separator must be non-empty and start with an ASCII
/// character.
#[verifier::external_body]
fn slugify_call(text: &str, stop_words: &str, sep: &str, max_length: Option<usize>) -> (res:
    String)
    requires
        sep@.len() > 0,
        (sep@[0] as u32) < 128,
    ensures
        res@ == slugify_text(text@, stop_words@, sep@, max_length),
        forall|i: int| 0 <= i < res@.len() ==> is_slug_char(#[trigger] res@[i], sep@[0]),
        max_length matches Some(m) ==> res@.len() <= m,
{
    slugify::slugify(text, stop_words, sep, max_length)
}

/// The base of an incident's id: the title's slug (no stop words, `-`
/// between words, at most 64 characters), or `incident` when the slug is
/// empty.
pub open spec fn base_slug_of(title: Seq<char>) -> Seq<char> {
    let slug = slugify_text(title, ""@, "-"@, Some(64));
    if slug.len() == 0 {
        "incident"@
    } else {
        slug
    }
}

/// The base of an incident's id for a title.
pub fn incident_slug(title: &str) -> (res: String)
    ensures
        res@ == base_slug_of(title@),
        0 < res@.len() <= 64,
        forall|i: int| 0 <= i < res@.len() ==> is_slug_char(#[trigger] res@[i], '-'),
{
    proof {
        reveal_strlit("-");
        reveal_strlit("incident");
    }
    let slug = slugify_call(title, "", "-", Some(64));
    if slug.as_str().unicode_len() == 0 {
        String::from_str("incident")
    } else {
        slug
    }
}

/// The decimal digit for `d < 10`.
pub open spec fn digit_char(d: nat) -> char {
    if d == 0 {
        '0'
    } else if d == 1 {
        '1'
    } else if d == 2 {
        '2'
    } else if d == 3 {
        '3'
    } else if d == 4 {
        '4'
    } else if d == 5 {
        '5'
    } else if d == 6 {
        '6'
    } else if d == 7 {
        '7'
    } else if d == 8 {
        '8'
    } else {
        '9'
    }
}

/// The decimal numeral of `n`.
pub open spec fn decimal(n: nat) -> Seq<char>
    decreases n,
{
    if n < 10 {
        seq![digit_char(n)]
    } else {
        decimal(n / 10).push(digit_char(n % 10))
    }
}

fn digit(d: u32) -> (res: char)
    requires
        d < 10,
    ensures
        res == digit_char(d as nat),
{
    if d == 0 {
        '0'
    } else if d == 1 {
        '1'
    } else if d == 2 {
        '2'
    } else if d == 3 {
        '3'
    } else if d == 4 {
        '4'
    } else if d == 5 {
        '5'
    } else if d == 6 {
        '6'
    } else if d == 7 {
        '7'
    } else if d == 8 {
        '8'
    } else {
        '9'
    }
}

/// Appends the decimal numeral of `n`.
fn push_decimal(out: &mut Vec<char>, n: u32)
    ensures
        final(out)@ == old(out)@ + decimal(n as nat),
    decreases n,
{
    if n >= 10 {
        push_decimal(out, n / 10);
    }
    out.push(digit(n % 10));
}

/// The id tried for a new incident on the `sequence`-th attempt:
/// `<slug>-<YYYYMMDDhhmmss>`, then `<slug>-<YYYYMMDDhhmmss>-<sequence>`.
pub open spec fn candidate_id(base_slug: Seq<char>, timestamp_part: Seq<char>, sequence: nat) -> Seq<
    char,
> {
    if sequence == 0 {
        base_slug + "-"@ + timestamp_part
    } else {
        base_slug + "-"@ + timestamp_part + "-"@ + decimal(sequence)
    }
}

/// A numeral is never empty.
proof fn lemma_decimal_len(n: nat)
    ensures
        decimal(n).len() >= 1,
        n >= 10 ==> decimal(n).len() >= 2,
    decreases n,
{
    if n >= 10 {
        lemma_decimal_len(n / 10);
    }
}

/// Different numbers have different numerals.
proof fn lemma_decimal_injective(a: nat, b: nat)
    requires
        decimal(a) == decimal(b),
    ensures
        a == b,
    decreases a,
{
    lemma_decimal_len(a);
    lemma_decimal_len(b);
    if a >= 10 && b >= 10 {
        assert(decimal(a).last() == digit_char(a % 10));
        assert(decimal(b).last() == digit_char(b % 10));
        assert(decimal(a).drop_last() == decimal(a / 10));
        assert(decimal(b).drop_last() == decimal(b / 10));
        lemma_decimal_injective(a / 10, b / 10);
    } else if a < 10 && b < 10 {
        assert(decimal(a)[0] == digit_char(a));
        assert(decimal(b)[0] == digit_char(b));
    }
}

/// The attempts at naming a new incident try a different id each time:
/// different sequence numbers give different ids.
pub proof fn lemma_candidate_ids_distinct(
    base_slug: Seq<char>,
    timestamp_part: Seq<char>,
    first: nat,
    second: nat,
)
    requires
        first != second,
    ensures
        candidate_id(base_slug, timestamp_part, first) != candidate_id(
            base_slug,
            timestamp_part,
            second,
        ),
{
    reveal_strlit("-");
    let head = base_slug + "-"@ + timestamp_part;
    lemma_decimal_len(first);
    lemma_decimal_len(second);
    if first > 0 && second > 0 {
        let a = candidate_id(base_slug, timestamp_part, first);
        let b = candidate_id(base_slug, timestamp_part, second);
        if a == b {
            let k = head.len() + 1;
            assert(a.skip(k as int) == decimal(first));
            assert(b.skip(k as int) == decimal(second));
            lemma_decimal_injective(first, second);
        }
    }
}

/// The id tried for a new incident on the `sequence`-th attempt.
pub fn incident_id_candidate(base_slug: &str, timestamp_part: &str, sequence: u32) -> (res:
    String)
    ensures
        res@ == candidate_id(base_slug@, timestamp_part@, sequence as nat),
{
    let mut out = chars_of(base_slug);
    push_str(&mut out, "-");
    push_str(&mut out, timestamp_part);
    if sequence != 0 {
        push_str(&mut out, "-");
        push_decimal(&mut out, sequence);
    }
    string_of(&out)
}

/// Each of the first `n` candidate ids is among `taken`.
pub open spec fn candidates_taken(
    base_slug: Seq<char>,
    timestamp_part: Seq<char>,
    taken: Seq<Seq<char>>,
    n: nat,
) -> bool {
    forall|j: nat| j < n ==> taken.contains(#[trigger] candidate_id(base_slug, timestamp_part, j))
}

/// The candidate ids are all different, so no more of them can be taken
/// than there are ids taken.
proof fn lemma_candidates_taken_bound(
    base_slug: Seq<char>,
    timestamp_part: Seq<char>,
    taken: Seq<Seq<char>>,
    n: nat,
)
    requires
        candidates_taken(base_slug, timestamp_part, taken, n),
    ensures
        n <= taken.len(),
{
    let s = Seq::new(n, |j: int| candidate_id(base_slug, timestamp_part, j as nat));
    assert forall|i: int, j: int| 0 <= i < s.len() && 0 <= j < s.len() && i != j implies s[i]
        != s[j] by {
        lemma_candidate_ids_distinct(base_slug, timestamp_part, i as nat, j as nat);
    }
    assert(s.no_duplicates());
    s.unique_seq_to_set();
    taken.lemma_cardinality_of_set();
    assert forall|x: Seq<char>| s.to_set().contains(x) implies taken.to_set().contains(x) by {
        let i = choose|i: int| 0 <= i < s.len() && s[i] == x;
        assert(taken.contains(candidate_id(base_slug, timestamp_part, i as nat)));
    }
    assert(s.to_set().subset_of(taken.to_set()));
    vstd::set_lib::lemma_len_subset(s.to_set(), taken.to_set());
}

/// Whether one of `items` holds the same characters as `s`.
fn string_in(items: &Vec<String>, s: &String) -> (res: bool)
    ensures
        res == string_views(items@).contains(s@),
{
    let target = chars_of(s.as_str());
    let n = items.len();
    for i in 0..n
        invariant
            n == items@.len(),
            target@ == s@,
            forall|j: int| 0 <= j < i ==> string_views(items@)[j] != s@,
    {
        if crate::text::chars_eq(&chars_of(items[i].as_str()), &target) {
            assert(string_views(items@)[i as int] == s@);
            return true;
        }
    }
    false
}

/// The id a new incident gets: the first candidate id, in the order of the
/// attempts, that is not among the ids already `taken`.
pub fn first_free_incident_id(base_slug: &str, timestamp_part: &str, taken: &Vec<String>) -> (res:
    String)
    requires
        taken@.len() < u32::MAX,
    ensures
        !string_views(taken@).contains(res@),
        exists|k: nat|
            k <= taken@.len() && res@ == candidate_id(base_slug@, timestamp_part@, k)
                && #[trigger] candidates_taken(
                base_slug@,
                timestamp_part@,
                string_views(taken@),
                k,
            ),
{
    let ghost tv = string_views(taken@);
    let mut k: u32 = 0;
    loop
        invariant
            k <= taken@.len(),
            taken@.len() < u32::MAX,
            tv == string_views(taken@),
            candidates_taken(base_slug@, timestamp_part@, tv, k as nat),
        decreases taken@.len() - k,
    {
        let candidate = incident_id_candidate(base_slug, timestamp_part, k);
        if !string_in(taken, &candidate) {
            return candidate;
        }
        proof {
            assert forall|j: nat| j < k + 1 implies tv.contains(
                #[trigger] candidate_id(base_slug@, timestamp_part@, j),
            ) by {
                if j < k {
                    assert(candidates_taken(base_slug@, timestamp_part@, tv, k as nat));
                }
            }
            lemma_candidates_taken_bound(base_slug@, timestamp_part@, tv, (k + 1) as nat);
        }
        k = k + 1;
    }
}

/// The file name of an incident: `<incident_id>.md`.
pub fn incident_file_name(incident_id: &str) -> (res: String)
    ensures
        res@ == incident_id@ + ".md"@,
{
    let mut out = chars_of(incident_id);
    push_str(&mut out, ".md");
    string_of(&out)
}

// ---------------------------------------------------------------------------
// Creating an incident
// ---------------------------------------------------------------------------

/// The strings of an optional list; none when absent.
pub open spec fn list_view(items: Option<Vec<String>>) -> Seq<Seq<char>> {
    match items {
        Some(v) => string_views(v@),
        None => Seq::empty(),
    }
}

/// The trimmed items that are not blank, in order.
pub open spec fn nonblank_trimmed(items: Seq<Seq<char>>) -> Seq<Seq<char>>
    decreases items.len(),
{
    if items.len() == 0 {
        Seq::empty()
    } else if trim(items[0]).len() == 0 {
        nonblank_trimmed(items.drop_first())
    } else {
        seq![trim(items[0])] + nonblank_trimmed(items.drop_first())
    }
}

/// The root cause written for a new incident: the trimmed text, or `_TBD_`
/// when none or only white space is given.
pub open spec fn root_cause_or_placeholder(root_cause: Option<Seq<char>>) -> Seq<char> {
    match root_cause {
        Some(r) => if trim(r).len() > 0 {
            trim(r)
        } else {
            "_TBD_"@
        },
        None => "_TBD_"@,
    }
}

/// A new incident before its id is chosen.
#[derive(Debug)]
pub struct IncidentDraft {
    pub title: String,
    pub base_slug: String,
    pub timestamp_part: String,
    pub created_at: Timestamp,
    pub root_cause: String,
    pub timeline: Vec<TimelineEntry>,
    pub action_items: ActionItems,
    pub patterns: Vec<String>,
}

/// The list given, or an empty one.
fn list_or_empty(items: Option<Vec<String>>) -> (res: Vec<String>)
    ensures
        string_views(res@) == list_view(items),
{
    match items {
        Some(v) => v,
        None => {
            let v: Vec<String> = Vec::new();
            assert(string_views(v@) == Seq::<Seq<char>>::empty());
            v
        },
    }
}

/// The initial timeline: one entry at `created_at` per non-blank summary,
/// trimmed.
fn initial_entries(summaries: &Vec<String>, created_at: Timestamp) -> (res: Vec<TimelineEntry>)
    ensures
        res@.len() == nonblank_trimmed(string_views(summaries@)).len(),
        forall|i: int|
            0 <= i < res@.len() ==> (#[trigger] res@[i]).timestamp@ == created_at@ && res@[i].summary@
                == nonblank_trimmed(string_views(summaries@))[i],
{
    let ghost all = string_views(summaries@);
    let n = summaries.len();
    let mut res: Vec<TimelineEntry> = Vec::new();
    assert(all.skip(0) == all);
    for i in 0..n
        invariant
            n == summaries@.len(),
            all == string_views(summaries@),
            nonblank_trimmed(all) == Seq::new(res@.len(), |k: int| res@[k].summary@)
                + nonblank_trimmed(all.skip(i as int)),
            forall|k: int| 0 <= k < res@.len() ==> (#[trigger] res@[k]).timestamp@ == created_at@,
    {
        let ghost rest = all.skip(i as int);
        assert(rest.drop_first() == all.skip(i + 1));
        assert(rest[0] == summaries@[i as int]@);
        let cs = chars_of(summaries[i].as_str());
        let t = trim_chars(&cs);
        if t.len() > 0 {
            let ghost before = res@;
            res.push(TimelineEntry { timestamp: created_at, summary: string_of(&t) });
            assert(Seq::new(res@.len(), |k: int| res@[k].summary@) == Seq::new(
                before.len(),
                |k: int| before[k].summary@,
            ) + seq![t@]);
        }
    }
    assert(all.skip(n as int) == Seq::<Seq<char>>::empty());
    assert(nonblank_trimmed(all) == Seq::new(res@.len(), |k: int| res@[k].summary@));
    res
}

/// Validates the parameters of a new incident created at `created_at` and
/// prepares its content; refused when the title is blank.
pub fn draft_incident(params: CreateIncidentParams, created_at: Timestamp) -> (res: Result<
    IncidentDraft,
    InvalidParams,
>)
    ensures
        res is Ok <==> trim(params.title@).len() > 0,
        res matches Err(e) ==> e.message@ == empty_field_message("incident title"@),
        res matches Ok(d) ==> {
            &&& d.title@ == trim(params.title@)
            &&& d.base_slug@ == base_slug_of(trim(params.title@))
            &&& d.timestamp_part@ == compact_text(created_at@.0, created_at@.1)
            &&& d.created_at@ == created_at@
            &&& d.root_cause@ == root_cause_or_placeholder(opt_string_view(params.root_cause))
            &&& d.timeline@.len() == nonblank_trimmed(list_view(params.initial_timeline)).len()
            &&& forall|i: int|
                0 <= i < d.timeline@.len() ==> (#[trigger] d.timeline@[i]).timestamp@ == created_at@
                    && d.timeline@[i].summary@ == nonblank_trimmed(
                    list_view(params.initial_timeline),
                )[i]
            &&& string_views(d.action_items.detect@) == list_view(params.detect_actions)
            &&& string_views(d.action_items.mitigate@) == list_view(params.mitigate_actions)
            &&& string_views(d.action_items.prevent@) == list_view(params.prevent_actions)
            &&& string_views(d.patterns@) == list_view(params.patterns)
        },
{
    let title = match require_non_empty(params.title.as_str(), "incident title") {
        Ok(t) => t,
        Err(e) => return Err(e),
    };
    let base_slug = incident_slug(title.as_str());
    let timestamp_part = created_at.compact();
    let summaries = list_or_empty(params.initial_timeline);
    let timeline = initial_entries(&summaries, created_at);
    let root_cause = match params.root_cause {
        Some(r) => {
            let cs = chars_of(r.as_str());
            let t = trim_chars(&cs);
            if t.len() > 0 {
                string_of(&t)
            } else {
                String::from_str("_TBD_")
            }
        },
        None => String::from_str("_TBD_"),
    };
    Ok(
        IncidentDraft {
            title,
            base_slug,
            timestamp_part,
            created_at,
            root_cause,
            timeline,
            action_items: ActionItems {
                detect: list_or_empty(params.detect_actions),
                mitigate: list_or_empty(params.mitigate_actions),
                prevent: list_or_empty(params.prevent_actions),
            },
            patterns: list_or_empty(params.patterns),
        },
    )
}

impl IncidentDraft {
    /// The template of the new, open incident under the chosen id.
    pub fn into_template(self, incident_id: String) -> (res: IncidentTemplateData)
        ensures
            res.incident_id == incident_id,
            res.title == self.title,
            res.status == IncidentStatus::Open,
            res.created_at == self.created_at,
            res.resolved_at is None,
            res.root_cause == self.root_cause,
            res.timeline == self.timeline,
            res.action_items == self.action_items,
            res.patterns == self.patterns,
    {
        IncidentTemplateData {
            incident_id,
            title: self.title,
            status: IncidentStatus::Open,
            created_at: self.created_at,
            resolved_at: None,
            root_cause: self.root_cause,
            timeline: self.timeline,
            action_items: self.action_items,
            patterns: self.patterns,
        }
    }
}

// ---------------------------------------------------------------------------
// Adding a timeline entry, resolving
// ---------------------------------------------------------------------------

/// An optional timestamp text that the tools accept: none, or one whose
/// trimmed text names an instant.
pub open spec fn timestamp_accepted(value: Option<String>) -> bool {
    match value {
        Some(raw) => rfc3339_parse(trim(raw@)) is Some,
        None => true,
    }
}

/// `t` is the instant an optional timestamp text names, or `now` when none
/// is given.
pub open spec fn names_instant(value: Option<String>, now: (i64, u32), t: (i64, u32)) -> bool {
    match value {
        Some(raw) => rfc3339_parse(trim(raw@)) == Some(t),
        None => t == now,
    }
}

/// Parses an optional timestamp held as an owned string.
fn parse_optional_timestamp(value: &Option<String>, now: Timestamp) -> (res: Result<
    Timestamp,
    InvalidParams,
>)
    ensures
        res is Ok <==> timestamp_accepted(*value),
        res matches Ok(t) ==> names_instant(*value, now@, t@),
        res matches Err(e) ==> starts_with(e.message@, bad_timestamp_prefix()),
{
    match value {
        Some(raw) => parse_timestamp(Some(raw.as_str()), now),
        None => parse_timestamp(None, now),
    }
}

/// Validates the parameters of `add_timeline_entry`: the trimmed incident
/// id and the entry to add, checked in that order (id, summary, timestamp);
/// the entry is at `now` when no timestamp is given.
pub fn prepare_timeline_entry(params: AddTimelineEntryParams, now: Timestamp) -> (res: Result<
    (String, TimelineEntry),
    InvalidParams,
>)
    ensures
        res is Ok <==> trim(params.incident_id@).len() > 0 && trim(params.summary@).len() > 0
            && timestamp_accepted(params.timestamp),
        res matches Ok((id, entry)) ==> {
            &&& id@ == trim(params.incident_id@)
            &&& entry.summary@ == trim(params.summary@)
            &&& names_instant(params.timestamp, now@, entry.timestamp@)
        },
        res matches Err(e) ==> if trim(params.incident_id@).len() == 0 {
            e.message@ == empty_field_message("incident_id"@)
        } else if trim(params.summary@).len() == 0 {
            e.message@ == empty_field_message("summary"@)
        } else {
            starts_with(e.message@, bad_timestamp_prefix())
        },
{
    let incident_id = match require_non_empty(params.incident_id.as_str(), "incident_id") {
        Ok(v) => v,
        Err(e) => return Err(e),
    };
    let summary = match require_non_empty(params.summary.as_str(), "summary") {
        Ok(v) => v,
        Err(e) => return Err(e),
    };
    let timestamp = match parse_optional_timestamp(&params.timestamp, now) {
        Ok(t) => t,
        Err(e) => return Err(e),
    };
    Ok((incident_id, TimelineEntry { timestamp, summary }))
}

/// Validates the parameters of `resolve_incident`: the trimmed incident id
/// and the resolution time, checked in that order; the resolution is at
/// `now` when no time is given.
pub fn prepare_resolution(params: &ResolveIncidentParams, now: Timestamp) -> (res: Result<
    (String, Timestamp),
    InvalidParams,
>)
    ensures
        res is Ok <==> trim(params.incident_id@).len() > 0 && timestamp_accepted(
            params.resolved_at,
        ),
        res matches Ok((id, t)) ==> id@ == trim(params.incident_id@) && names_instant(
            params.resolved_at,
            now@,
            t@,
        ),
        res matches Err(e) ==> if trim(params.incident_id@).len() == 0 {
            e.message@ == empty_field_message("incident_id"@)
        } else {
            starts_with(e.message@, bad_timestamp_prefix())
        },
{
    let incident_id = match require_non_empty(params.incident_id.as_str(), "incident_id") {
        Ok(v) => v,
        Err(e) => return Err(e),
    };
    let resolved_at = match parse_optional_timestamp(&params.resolved_at, now) {
        Ok(t) => t,
        Err(e) => return Err(e),
    };
    Ok((incident_id, resolved_at))
}

/// The document of a resolved incident: status and resolution time
/// rewritten, then, when a non-blank summary is given, a timeline line
/// `Resolved: <summary>` at the resolution time.
pub open spec fn resolved_document(
    md: Seq<char>,
    resolved_at: (i64, u32),
    summary: Option<Seq<char>>,
) -> Seq<char> {
    let updated = status_updated(md, IncidentStatus::Resolved, Some(resolved_at));
    match summary {
        Some(s) => if trim(s).len() > 0 {
            appended(updated, entry_line(resolved_at, "Resolved: "@ + trim(s)))
        } else {
            updated
        },
        None => updated,
    }
}

/// Marks an incident document resolved at `resolved_at`, recording the
/// resolution summary on the timeline when one is given.
pub fn resolve_markdown(existing: &str, resolved_at: Timestamp, resolution_summary: &Option<
    String,
>) -> (res: String)
    ensures
        res@ == resolved_document(existing@, resolved_at@, opt_string_view(*resolution_summary)),
{
    let updated = update_incident_status(existing, IncidentStatus::Resolved, Some(resolved_at));
    match resolution_summary {
        Some(s) => {
            let cs = chars_of(s.as_str());
            let t = trim_chars(&cs);
            if t.len() > 0 {
                let mut summary = chars_of("Resolved: ");
                crate::text::push_all(&mut summary, &t);
                let entry = TimelineEntry { timestamp: resolved_at, summary: string_of(&summary) };
                append_timeline_entry(updated.as_str(), &entry)
            } else {
                updated
            }
        },
        None => updated,
    }
}

// ---------------------------------------------------------------------------
// Searching
// ---------------------------------------------------------------------------

/// How many incidents a search lists: the requested number (5 when none is
/// given), kept within 1 to 50.
pub open spec fn limit_of(limit: Option<usize>) -> int {
    let wanted = match limit {
        Some(l) => l as int,
        None => 5,
    };
    if wanted < 1 {
        1
    } else if wanted > 50 {
        50
    } else {
        wanted
    }
}

/// How many incidents a search lists.
pub fn search_limit(limit: Option<usize>) -> (res: usize)
    ensures
        res == limit_of(limit),
        1 <= res <= 50,
{
    let wanted = match limit {
        Some(l) => l,
        None => 5,
    };
    if wanted < 1 {
        1
    } else if wanted > 50 {
        50
    } else {
        wanted
    }
}

/// A validated search: the trimmed query, its distinct tokens and how many
/// incidents to list.
#[derive(Debug)]
pub struct SearchPlan {
    pub query: String,
    pub query_tokens: Vec<String>,
    pub limit: usize,
}

/// Validates the parameters of `search_similar_incidents`; refused when the
/// query is blank.
pub fn prepare_search(params: &SearchSimilarIncidentsParams) -> (res: Result<
    SearchPlan,
    InvalidParams,
>)
    ensures
        res is Ok <==> trim(params.query@).len() > 0,
        res matches Err(e) ==> e.message@ == empty_field_message("query"@),
        res matches Ok(plan) ==> {
            &&& plan.query@ == trim(params.query@)
            &&& string_views(plan.query_tokens@).no_duplicates()
            &&& string_views(plan.query_tokens@).to_set() == token_set(trim(params.query@))
            &&& plan.limit == limit_of(params.limit)
        },
{
    let query = match require_non_empty(params.query.as_str(), "query") {
        Ok(q) => q,
        Err(e) => return Err(e),
    };
    let query_tokens = tokenize(query.as_str());
    let limit = search_limit(params.limit);
    Ok(SearchPlan { query, query_tokens, limit })
}

/// The id of the incident stored in a file named `name`: the name without
/// its `.md` extension, for names that have a non-empty stem and that
/// extension.
pub open spec fn incident_id_of_file(name: Seq<char>) -> Option<Seq<char>> {
    if name.len() > 3 && name.skip(name.len() - 3) == ".md"@ {
        Some(name.take(name.len() - 3))
    } else {
        None
    }
}

/// The incident id a directory entry name stands for, if it is an incident
/// file.
pub fn incident_id_from_file_name(name: &str) -> (res: Option<String>)
    ensures
        opt_string_view(res) == incident_id_of_file(name@),
{
    let cs = chars_of(name);
    let n = cs.len();
    proof {
        reveal_strlit(".md");
    }
    if n > 3 && cs[n - 3] == '.' && cs[n - 2] == 'm' && cs[n - 1] == 'd' {
        assert(cs@.skip(n - 3) == ".md"@);
        let stem = crate::text::slice(&cs, 0, n - 3);
        assert(stem@ == cs@.take(n - 3));
        Some(string_of(&stem))
    } else {
        proof {
            if n > 3 && cs@.skip(n - 3) == ".md"@ {
                assert(cs@.skip(n - 3)[0] == cs@[n - 3]);
                assert(cs@.skip(n - 3)[1] == cs@[n - 2]);
                assert(cs@.skip(n - 3)[2] == cs@[n - 1]);
            }
        }
        None
    }
}

/// A search lists as many incidents as asked for when that is from 1 to
/// 50, never fewer than 1 nor more than 50, and 5 when no number is given.
pub proof fn lemma_search_limit(limit: Option<usize>)
    ensures
        1 <= limit_of(limit) <= 50,
        limit matches Some(l) ==> (1 <= l && l <= 50 ==> limit_of(limit) == l),
        limit matches Some(l) ==> (l > 50 ==> limit_of(limit) == 50),
        limit matches Some(l) ==> (l < 1 ==> limit_of(limit) == 1),
        limit is None ==> limit_of(limit) == 5,
        forall|a: usize, b: usize| a <= b ==> #[trigger] limit_of(Some(a)) <= #[trigger] limit_of(Some(b)),
{
}

/// A new incident keeps the root cause it was given, trimmed; the
/// placeholder `_TBD_` stands only where no root cause, or a blank one, was
/// given.
pub proof fn lemma_root_cause_kept(root_cause: Option<Seq<char>>)
    ensures
        root_cause matches Some(r) ==> (trim(r).len() > 0 ==> root_cause_or_placeholder(
            root_cause,
        ) == trim(r)),
        root_cause_or_placeholder(root_cause) == "_TBD_"@ ==> match root_cause {
            Some(r) => trim(r).len() == 0 || trim(r) == "_TBD_"@,
            None => true,
        },
        trim(root_cause_or_placeholder(root_cause)) == root_cause_or_placeholder(root_cause),
        root_cause_or_placeholder(root_cause).len() > 0,
{
    reveal_strlit("_TBD_");
    let v = root_cause_or_placeholder(root_cause);
    crate::text::lemma_trim_shape(v);
    match root_cause {
        Some(r) => {
            crate::text::lemma_trim_shape(r);
        },
        None => {},
    }
    assert(!crate::text::is_ws('_'));
    crate::text::lemma_trim_fixed(v);
}

} // verus!

//! Lexical similarity between a query and incident documents: tokens are the
//! lower-cased ASCII alphanumeric runs of a text, an incident's score is the
//! number of query tokens that also occur among the tokens of its title, root
//! cause and patterns, and incidents are ranked by that number, then by title.

use vstd::prelude::*;
use vstd::multiset::Multiset;
use crate::templates::{
    extract_patterns, extract_root_cause, extract_title, first_title, patterns_of,
    section_text,
};
use crate::text::{
    chars_eq, chars_of, is_ws, join_with, lemma_trim_end_shape, lemma_trim_start_shape, trim,
    trim_start, lines, push_all, push_str, string_of, string_views, views,
};

verus! {

broadcast use vstd::seq_lib::group_to_multiset_ensures, vstd::seq_lib::seq_to_set_is_finite;

// ---------------------------------------------------------------------------
// Tokens
// ---------------------------------------------------------------------------

/// An ASCII letter or digit.
pub open spec fn is_ascii_alnum(c: char) -> bool {
    ('0' <= c && c <= '9') || ('a' <= c && c <= 'z') || ('A' <= c && c <= 'Z')
}

/// ASCII lower-casing of one character.
pub open spec fn ascii_lower(c: char) -> char {
    if 'A' <= c && c <= 'Z' {
        ((c as u32) + 32) as char
    } else {
        c
    }
}

/// The lower-cased alphanumeric runs of `s`, with the run `cur` already
/// begun.
pub open spec fn runs_from(s: Seq<char>, cur: Seq<char>) -> Seq<Seq<char>>
    decreases s.len(),
{
    if s.len() == 0 {
        if cur.len() == 0 {
            Seq::empty()
        } else {
            seq![cur]
        }
    } else if is_ascii_alnum(s[0]) {
        runs_from(s.drop_first(), cur.push(ascii_lower(s[0])))
    } else if cur.len() == 0 {
        runs_from(s.drop_first(), Seq::empty())
    } else {
        seq![cur] + runs_from(s.drop_first(), Seq::empty())
    }
}

/// The tokens of a text: its maximal runs of ASCII letters and digits,
/// lower-cased.
pub open spec fn token_set(s: Seq<char>) -> Set<Seq<char>> {
    runs_from(s, Seq::empty()).to_set()
}

/// Two texts of one length that differ only in the ASCII case of their
/// letters and in which characters other than ASCII letters and digits stand
/// between their runs.
pub open spec fn same_words(s: Seq<char>, t: Seq<char>) -> bool {
    &&& s.len() == t.len()
    &&& forall|i: int|
        #![trigger s[i]]
        0 <= i < s.len() ==> is_ascii_alnum(s[i]) == is_ascii_alnum(t[i])
    &&& forall|i: int|
        #![trigger s[i]]
        0 <= i < s.len() && is_ascii_alnum(s[i]) ==> ascii_lower(s[i]) == ascii_lower(t[i])
}

proof fn lemma_runs_same_words(s: Seq<char>, t: Seq<char>, cur: Seq<char>)
    requires
        same_words(s, t),
    ensures
        runs_from(s, cur) == runs_from(t, cur),
    decreases s.len(),
{
    if s.len() > 0 {
        let s1 = s.drop_first();
        let t1 = t.drop_first();
        assert(is_ascii_alnum(s[0]) == is_ascii_alnum(t[0]));
        assert forall|i: int| 0 <= i < s1.len() implies is_ascii_alnum(#[trigger] s1[i])
            == is_ascii_alnum(t1[i]) by {
            assert(s1[i] == s[i + 1]);
            assert(t1[i] == t[i + 1]);
        }
        assert forall|i: int| 0 <= i < s1.len() && is_ascii_alnum(#[trigger] s1[i]) implies ascii_lower(
            s1[i],
        ) == ascii_lower(t1[i]) by {
            assert(s1[i] == s[i + 1]);
            assert(t1[i] == t[i + 1]);
        }
        if is_ascii_alnum(s[0]) {
            assert(ascii_lower(s[0]) == ascii_lower(t[0]));
            lemma_runs_same_words(s1, t1, cur.push(ascii_lower(s[0])));
        } else {
            lemma_runs_same_words(s1, t1, Seq::empty());
        }
    }
}

/// Matching ignores ASCII case and punctuation: two texts that differ only
/// in the case of their ASCII letters and in which other characters separate
/// their letters and digits have the same tokens.
pub proof fn lemma_tokens_ignore_case_and_punctuation(s: Seq<char>, t: Seq<char>)
    requires
        same_words(s, t),
    ensures
        token_set(s) == token_set(t),
{
    lemma_runs_same_words(s, t, Seq::empty());
}

/// No character of `s` is an ASCII letter or digit.
pub open spec fn no_alnum(s: Seq<char>) -> bool {
    forall|i: int| 0 <= i < s.len() ==> !is_ascii_alnum(#[trigger] s[i])
}

/// Text without letters or digits after a run ends it and adds nothing.
proof fn lemma_runs_trailing(a: Seq<char>, b: Seq<char>, cur: Seq<char>)
    requires
        no_alnum(b),
    ensures
        runs_from(a + b, cur) == runs_from(a, cur),
    decreases a.len() + b.len(),
{
    if a.len() > 0 {
        assert((a + b)[0] == a[0]);
        assert((a + b).drop_first() == a.drop_first() + b);
        let next = if is_ascii_alnum(a[0]) {
            cur.push(ascii_lower(a[0]))
        } else {
            Seq::empty()
        };
        lemma_runs_trailing(a.drop_first(), b, next);
    } else if b.len() > 0 {
        assert(a + b == b);
        assert(!is_ascii_alnum(b[0]));
        let rest = b.drop_first();
        assert(no_alnum(rest)) by {
            assert forall|i: int| 0 <= i < rest.len() implies !is_ascii_alnum(#[trigger] rest[i]) by {
                assert(rest[i] == b[i + 1]);
            }
        }
        lemma_runs_trailing(Seq::empty(), rest, Seq::empty());
        assert(Seq::<char>::empty() + rest == rest);
        assert(runs_from(rest, Seq::empty()) == Seq::<Seq<char>>::empty());
        if cur.len() > 0 {
            assert(seq![cur] + Seq::<Seq<char>>::empty() == seq![cur]);
        }
    } else {
        assert(a + b == a);
    }
}

/// Text without letters or digits before the first run adds nothing.
proof fn lemma_runs_leading(a: Seq<char>, s: Seq<char>)
    requires
        no_alnum(a),
    ensures
        runs_from(a + s, Seq::empty()) == runs_from(s, Seq::empty()),
    decreases a.len(),
{
    if a.len() > 0 {
        assert((a + s)[0] == a[0]);
        assert((a + s).drop_first() == a.drop_first() + s);
        let rest = a.drop_first();
        assert(no_alnum(rest)) by {
            assert forall|i: int| 0 <= i < rest.len() implies !is_ascii_alnum(#[trigger] rest[i]) by {
                assert(rest[i] == a[i + 1]);
            }
        }
        lemma_runs_leading(rest, s);
    } else {
        assert(a + s == s);
    }
}

/// White space is neither a letter nor a digit.
proof fn lemma_ws_not_alnum(c: char)
    requires
        is_ws(c),
    ensures
        !is_ascii_alnum(c),
{
}

/// Trimming white space keeps the tokens of a text.
pub proof fn lemma_tokens_of_trim(s: Seq<char>)
    ensures
        token_set(trim(s)) == token_set(s),
{
    let k = lemma_trim_start_shape(s);
    let t = trim_start(s);
    let k2 = lemma_trim_end_shape(t);
    let lead = s.take(k);
    let tail = t.skip(k2);
    assert(no_alnum(lead)) by {
        assert forall|i: int| 0 <= i < lead.len() implies !is_ascii_alnum(#[trigger] lead[i]) by {
            assert(lead[i] == s[i]);
            lemma_ws_not_alnum(s[i]);
        }
    }
    assert(no_alnum(tail)) by {
        assert forall|i: int| 0 <= i < tail.len() implies !is_ascii_alnum(#[trigger] tail[i]) by {
            assert(tail[i] == t[k2 + i]);
            lemma_ws_not_alnum(t[k2 + i]);
        }
    }
    assert(s == lead + t);
    assert(t == trim(s) + tail);
    lemma_runs_leading(lead, t);
    lemma_runs_trailing(trim(s), tail, Seq::empty());
}

/// Searching ignores ASCII case and punctuation: two queries that differ
/// only in the case of their ASCII letters and in which other characters
/// separate their letters and digits are matched against every document
/// alike (a search reads the tokens of the trimmed query).
pub proof fn lemma_search_ignores_case_and_punctuation(q: Seq<char>, q2: Seq<char>)
    requires
        same_words(q, q2),
    ensures
        token_set(trim(q)) == token_set(trim(q2)),
        forall|md: Seq<char>|
            #[trigger] matched_terms(token_set(trim(q)), md) == matched_terms(
                token_set(trim(q2)),
                md,
            ),
{
    lemma_tokens_ignore_case_and_punctuation(q, q2);
    lemma_tokens_of_trim(q);
    lemma_tokens_of_trim(q2);
}

/// Whether one of `ts` holds the same characters as `t`.
fn contains_chars(ts: &Vec<Vec<char>>, t: &Vec<char>) -> (res: bool)
    ensures
        res == views(ts@).contains(t@),
{
    let n = ts.len();
    for i in 0..n
        invariant
            n == ts@.len(),
            forall|j: int| 0 <= j < i ==> views(ts@)[j] != t@,
    {
        if chars_eq(&ts[i], t) {
            assert(views(ts@)[i as int] == t@);
            return true;
        }
    }
    false
}

/// Pushing an element adds it to the set of elements.
proof fn lemma_push_to_set<A>(s: Seq<A>, x: A)
    ensures
        s.push(x).to_set() == s.to_set().insert(x),
{
    broadcast use vstd::seq_lib::lemma_seq_contains_after_push;

    assert(s.push(x).to_set() =~= s.to_set().insert(x));
}

/// Adds `cur` to the distinct tokens `out` if it is not among them yet.
fn add_token(out: &mut Vec<Vec<char>>, cur: Vec<char>)
    requires
        views(old(out)@).no_duplicates(),
    ensures
        views(final(out)@).no_duplicates(),
        views(final(out)@).to_set() == views(old(out)@).to_set().insert(cur@),
{
    let ghost before = views(out@);
    if !contains_chars(out, &cur) {
        let ghost c = cur@;
        out.push(cur);
        assert(views(out@) == before.push(c));
        proof {
            lemma_push_to_set(before, c);
        }
    } else {
        assert(before.to_set() =~= before.to_set().insert(cur@));
    }
}

/// The ASCII lower-case form of `c` (`char::to_ascii_lowercase`).
fn to_ascii_lower(c: char) -> (res: char)
    ensures
        res == ascii_lower(c),
{
    if 'A' <= c && c <= 'Z' {
        let b = (c as u8) + 32;
        b as char
    } else {
        c
    }
}

/// The distinct tokens of `s`.
fn tokenize_chars(s: &Vec<char>) -> (res: Vec<Vec<char>>)
    ensures
        views(res@).no_duplicates(),
        views(res@).to_set() == token_set(s@),
{
    let n = s.len();
    let mut out: Vec<Vec<char>> = Vec::new();
    let mut cur: Vec<char> = Vec::new();
    let ghost mut done: Seq<Seq<char>> = Seq::empty();
    assert(s@.skip(0) == s@);
    assert(views(out@) == Seq::<Seq<char>>::empty());
    for i in 0..n
        invariant
            n == s@.len(),
            runs_from(s@, Seq::empty()) == done + runs_from(s@.skip(i as int), cur@),
            views(out@).no_duplicates(),
            views(out@).to_set() == done.to_set(),
    {
        let ghost rest = s@.skip(i as int);
        assert(rest.drop_first() == s@.skip(i + 1));
        assert(rest[0] == s@[i as int]);
        let c = s[i];
        if ('0' <= c && c <= '9') || ('a' <= c && c <= 'z') || ('A' <= c && c <= 'Z') {
            let l = to_ascii_lower(c);
            cur.push(l);
        } else if cur.len() > 0 {
            let ghost run = cur@;
            assert(runs_from(rest, run) == seq![run] + runs_from(s@.skip(i + 1), Seq::empty()));
            add_token(&mut out, cur);
            proof {
                lemma_push_to_set(done, run);
                assert(seq![run] + runs_from(s@.skip(i + 1), Seq::empty()) == seq![run].add(
                    runs_from(s@.skip(i + 1), Seq::empty()),
                ));
                assert(done + (seq![run] + runs_from(s@.skip(i + 1), Seq::empty())) == done.push(
                    run,
                ) + runs_from(s@.skip(i + 1), Seq::empty()));
                done = done.push(run);
            }
            cur = Vec::new();
        } else {
            assert(cur@ == Seq::<char>::empty());
        }
    }
    assert(s@.skip(n as int) == Seq::<char>::empty());
    if cur.len() > 0 {
        let ghost run = cur@;
        add_token(&mut out, cur);
        proof {
            lemma_push_to_set(done, run);
            assert(done + seq![run] == done.push(run));
        }
    } else {
        assert(done + Seq::<Seq<char>>::empty() == done);
    }
    out
}

/// The distinct tokens of a text: its maximal runs of ASCII letters and
/// digits, lower-cased, each once.
pub fn tokenize(input: &str) -> (res: Vec<String>)
    ensures
        string_views(res@).no_duplicates(),
        string_views(res@).to_set() == token_set(input@),
{
    let cs = chars_of(input);
    let ts = tokenize_chars(&cs);
    let n = ts.len();
    let mut res: Vec<String> = Vec::new();
    for i in 0..n
        invariant
            n == ts@.len(),
            string_views(res@) == views(ts@).take(i as int),
    {
        let ghost before = res@;
        res.push(string_of(&ts[i]));
        assert(string_views(res@) == string_views(before).push(views(ts@)[i as int]));
        assert(views(ts@).take(i + 1) == views(ts@).take(i as int).push(views(ts@)[i as int]));
    }
    assert(views(ts@).take(n as int) == views(ts@));
    res
}

/// The characters of each string.
fn chars_of_strings(items: &Vec<String>) -> (res: Vec<Vec<char>>)
    ensures
        views(res@) == string_views(items@),
{
    let n = items.len();
    let mut res: Vec<Vec<char>> = Vec::new();
    for i in 0..n
        invariant
            n == items@.len(),
            views(res@) == string_views(items@).take(i as int),
    {
        let ghost before = res@;
        res.push(chars_of(items[i].as_str()));
        assert(views(res@) == views(before).push(items@[i as int]@));
        assert(string_views(items@).take(i + 1) == string_views(items@).take(i as int).push(
            items@[i as int]@,
        ));
    }
    assert(string_views(items@).take(n as int) == string_views(items@));
    res
}

/// How many of the distinct tokens `query` also occur in `tokens`.
fn shared_count(query: &Vec<Vec<char>>, tokens: &Vec<Vec<char>>) -> (res: usize)
    requires
        views(query@).no_duplicates(),
    ensures
        res == views(query@).to_set().intersect(views(tokens@).to_set()).len(),
{
    let n = query.len();
    let ghost q = views(query@);
    let ghost t = views(tokens@).to_set();
    let mut count: usize = 0;
    assert(q.take(0).to_set().intersect(t) =~= Set::<Seq<char>>::empty());
    for i in 0..n
        invariant
            n == query@.len(),
            q == views(query@),
            q.no_duplicates(),
            t == views(tokens@).to_set(),
            count <= i,
            count == q.take(i as int).to_set().intersect(t).len(),
    {
        let ghost prefix = q.take(i as int);
        assert(q.take(i + 1) == prefix.push(q[i as int]));
        proof {
            lemma_push_to_set(prefix, q[i as int]);
            assert(!prefix.contains(q[i as int]));
        }
        if contains_chars(tokens, &query[i]) {
            assert(q.take(i + 1).to_set().intersect(t) =~= prefix.to_set().intersect(t).insert(
                q[i as int],
            ));
            count = count + 1;
        } else {
            assert(q.take(i + 1).to_set().intersect(t) =~= prefix.to_set().intersect(t));
        }
    }
    assert(q.take(n as int) == q);
    count
}

// ---------------------------------------------------------------------------
// Scoring an incident
// ---------------------------------------------------------------------------

/// The title an incident is listed under: that of its first title heading,
/// or `Untitled incident`.
pub open spec fn title_of(md: Seq<char>) -> Seq<char> {
    match first_title(lines(md)) {
        Some(t) => t,
        None => "Untitled incident"@,
    }
}

/// The root cause text of a document, empty when it has none.
pub open spec fn root_cause_of(md: Seq<char>) -> Seq<char> {
    match section_text(md, "Root Cause"@) {
        Some(t) => t,
        None => Seq::empty(),
    }
}

/// The patterns a search reads: those listed in the Patterns section, but
/// none when the section lists only the placeholder that an empty list of
/// patterns renders as.
pub open spec fn searched_patterns(md: Seq<char>) -> Seq<Seq<char>> {
    if patterns_of(md) == seq!["_None yet_"@] {
        Seq::empty()
    } else {
        patterns_of(md)
    }
}

/// The text a document is matched against: its title, root cause and
/// patterns, separated by spaces.
pub open spec fn corpus_of(md: Seq<char>) -> Seq<char> {
    title_of(md) + " "@ + root_cause_of(md) + " "@ + join_with(searched_patterns(md), " "@)
}

/// How many of the query tokens occur among the tokens of a document.
pub open spec fn matched_terms(query: Set<Seq<char>>, md: Seq<char>) -> nat {
    query.intersect(token_set(corpus_of(md))).len()
}

/// An incident that shares tokens with a query.
#[derive(Clone, Debug)]
pub struct RankedIncident {
    pub incident_id: String,
    pub title: String,
    pub matched_terms: usize,
}

/// The strings joined by single spaces (`[String]::join(" ")`).
fn join_with_spaces(items: &Vec<String>) -> (res: Vec<char>)
    ensures
        res@ == join_with(string_views(items@), " "@),
{
    let n = items.len();
    let mut out: Vec<char> = Vec::new();
    for i in 0..n
        invariant
            n == items@.len(),
            out@ == join_with(string_views(items@).take(i as int), " "@),
    {
        assert(string_views(items@).take(i + 1).drop_last() == string_views(items@).take(i as int));
        if i > 0 {
            push_str(&mut out, " ");
        }
        push_str(&mut out, items[i].as_str());
    }
    assert(string_views(items@).take(n as int) == string_views(items@));
    out
}

/// Scores one incident document against the distinct query tokens: `None`
/// when no token is shared, else its id, listed title and the number of
/// shared tokens.
pub fn rank_incident(query_tokens: &Vec<String>, incident_id: String, markdown: &str) -> (res:
    Option<RankedIncident>)
    requires
        string_views(query_tokens@).no_duplicates(),
    ensures
        res is None <==> matched_terms(string_views(query_tokens@).to_set(), markdown@) == 0,
        res matches Some(r) ==> {
            &&& r.incident_id == incident_id
            &&& r.title@ == title_of(markdown@)
            &&& r.matched_terms == matched_terms(string_views(query_tokens@).to_set(), markdown@)
        },
{
    let title = match extract_title(markdown) {
        Some(t) => t,
        None => String::from_str("Untitled incident"),
    };
    let root_cause = extract_root_cause(markdown);
    let mut patterns = extract_patterns(markdown);
    let placeholder = chars_of("_None yet_");
    let only_placeholder = patterns.len() == 1 && chars_eq(
        &chars_of(patterns[0].as_str()),
        &placeholder,
    );
    proof {
        reveal_strlit("_None yet_");
        let sv = string_views(patterns@);
        if patterns@.len() == 1 {
            assert(sv[0] == patterns@[0]@);
            assert(sv == seq!["_None yet_"@] <==> sv[0] == "_None yet_"@) by {
                if sv[0] == "_None yet_"@ {
                    assert(sv =~= seq!["_None yet_"@]);
                }
            }
        } else {
            assert(sv.len() != seq!["_None yet_"@].len());
        }
        assert(only_placeholder == (sv == seq!["_None yet_"@]));
    }
    if only_placeholder {
        patterns = Vec::new();
        assert(string_views(patterns@) =~= Seq::<Seq<char>>::empty());
    }
    assert(string_views(patterns@) == searched_patterns(markdown@));
    let mut corpus: Vec<char> = Vec::new();
    push_str(&mut corpus, title.as_str());
    push_str(&mut corpus, " ");
    push_str(&mut corpus, root_cause.as_str());
    push_str(&mut corpus, " ");
    let joined = join_with_spaces(&patterns);
    push_all(&mut corpus, &joined);
    assert(corpus@ == corpus_of(markdown@));
    let tokens = tokenize_chars(&corpus);
    let query = chars_of_strings(query_tokens);
    let matched = shared_count(&query, &tokens);
    if matched == 0 {
        None
    } else {
        Some(RankedIncident { incident_id, title, matched_terms: matched })
    }
}

// ---------------------------------------------------------------------------
// Ranking
// ---------------------------------------------------------------------------

/// `a` comes no later than `b` in code-point lexicographic order (the order
/// of `str::cmp`).
pub open spec fn title_le(a: Seq<char>, b: Seq<char>) -> bool
    decreases a.len(),
{
    if a.len() == 0 {
        true
    } else if b.len() == 0 {
        false
    } else if a[0] != b[0] {
        a[0] < b[0]
    } else {
        title_le(a.drop_first(), b.drop_first())
    }
}

/// `a` may be listed before `b`: more shared tokens, or as many and a title
/// that sorts no later.
pub open spec fn ranks_no_later(a: RankedIncident, b: RankedIncident) -> bool {
    a.matched_terms > b.matched_terms || (a.matched_terms == b.matched_terms && title_le(
        a.title@,
        b.title@,
    ))
}

/// A listing in ranking order.
pub open spec fn is_ranked(s: Seq<RankedIncident>) -> bool {
    forall|i: int, j: int| 0 <= i < j < s.len() ==> ranks_no_later(s[i], s[j])
}

/// Any two titles are ordered one way or the other.
pub proof fn lemma_title_le_total(a: Seq<char>, b: Seq<char>)
    ensures
        title_le(a, b) || title_le(b, a),
    decreases a.len(),
{
    if a.len() > 0 && b.len() > 0 {
        if a[0] == b[0] {
            lemma_title_le_total(a.drop_first(), b.drop_first());
        }
    }
}

/// The title order is transitive.
pub proof fn lemma_title_le_trans(a: Seq<char>, b: Seq<char>, c: Seq<char>)
    requires
        title_le(a, b),
        title_le(b, c),
    ensures
        title_le(a, c),
    decreases a.len(),
{
    if a.len() > 0 && b.len() > 0 && c.len() > 0 && a[0] == b[0] && b[0] == c[0] {
        lemma_title_le_trans(a.drop_first(), b.drop_first(), c.drop_first());
    }
}

/// Whether `a` sorts no later than `b`.
fn title_le_exec(a: &String, b: &String) -> (res: bool)
    ensures
        res == title_le(a@, b@),
{
    let x = chars_of(a.as_str());
    let y = chars_of(b.as_str());
    let mut i: usize = 0;
    assert(x@.skip(0) == x@);
    assert(y@.skip(0) == y@);
    while i < x.len() && i < y.len() && x[i] == y[i]
        invariant
            i <= x@.len(),
            i <= y@.len(),
            title_le(a@, b@) == title_le(x@.skip(i as int), y@.skip(i as int)),
            x@ == a@,
            y@ == b@,
        decreases x@.len() - i,
    {
        assert(x@.skip(i as int).drop_first() == x@.skip(i + 1));
        assert(y@.skip(i as int).drop_first() == y@.skip(i + 1));
        i = i + 1;
    }
    if i == x.len() {
        true
    } else if i == y.len() {
        false
    } else {
        assert(x@.skip(i as int)[0] == x@[i as int]);
        assert(y@.skip(i as int)[0] == y@[i as int]);
        x[i] < y[i]
    }
}

/// Whether `a` may be listed before `b`.
fn ranks_no_later_exec(a: &RankedIncident, b: &RankedIncident) -> (res: bool)
    ensures
        res == ranks_no_later(*a, *b),
{
    a.matched_terms > b.matched_terms || (a.matched_terms == b.matched_terms && title_le_exec(
        &a.title,
        &b.title,
    ))
}

/// Where `x` goes into the listing `t`: before the first incident it may be
/// listed before, after all those that rank strictly before it.
pub open spec fn insert_position(x: RankedIncident, t: Seq<RankedIncident>) -> nat
    decreases t.len(),
{
    if t.len() == 0 || ranks_no_later(x, t[0]) {
        0
    } else {
        1 + insert_position(x, t.drop_first())
    }
}

/// The incidents in ranking order: more shared tokens first, then by title,
/// incidents that rank alike kept in the order given.
pub open spec fn ranked_order(s: Seq<RankedIncident>) -> Seq<RankedIncident>
    decreases s.len(),
{
    if s.len() == 0 {
        Seq::empty()
    } else {
        let rest = ranked_order(s.drop_first());
        rest.insert(insert_position(s[0], rest) as int, s[0])
    }
}

/// The insert position is the first position whose incident `x` may be
/// listed before.
proof fn lemma_insert_position(x: RankedIncident, t: Seq<RankedIncident>)
    ensures
        insert_position(x, t) <= t.len(),
        forall|j: int| 0 <= j < insert_position(x, t) ==> !ranks_no_later(x, #[trigger] t[j]),
        insert_position(x, t) < t.len() ==> ranks_no_later(x, t[insert_position(x, t) as int]),
    decreases t.len(),
{
    if t.len() > 0 && !ranks_no_later(x, t[0]) {
        let r = t.drop_first();
        lemma_insert_position(x, r);
        assert forall|j: int| 0 <= j < insert_position(x, t) implies !ranks_no_later(
            x,
            #[trigger] t[j],
        ) by {
            if j > 0 {
                assert(t[j] == r[j - 1]);
            }
        }
        if insert_position(x, t) < t.len() {
            assert(t[insert_position(x, t) as int] == r[insert_position(x, r) as int]);
        }
    }
}

/// A position with the properties of the insert position is the insert
/// position.
proof fn lemma_insert_position_unique(x: RankedIncident, t: Seq<RankedIncident>, p: int)
    requires
        0 <= p <= t.len(),
        forall|j: int| 0 <= j < p ==> !ranks_no_later(x, #[trigger] t[j]),
        p < t.len() ==> ranks_no_later(x, t[p]),
    ensures
        insert_position(x, t) == p,
{
    lemma_insert_position(x, t);
    let q = insert_position(x, t) as int;
    if q < p {
        assert(!ranks_no_later(x, t[q]));
    } else if p < q {
        assert(!ranks_no_later(x, t[p]));
    }
}

/// Inserting at the insert position keeps a listing in ranking order.
proof fn lemma_insert_keeps_ranked(x: RankedIncident, t: Seq<RankedIncident>)
    requires
        is_ranked(t),
    ensures
        is_ranked(t.insert(insert_position(x, t) as int, x)),
{
    lemma_insert_position(x, t);
    let p = insert_position(x, t) as int;
    let u = t.insert(p, x);
    assert forall|j: int| 0 <= j < p implies ranks_no_later(t[j], x) by {
        lemma_title_le_total(t[j].title@, x.title@);
    }
    assert forall|j: int| p <= j < t.len() implies ranks_no_later(x, t[j]) by {
        let q = t[p];
        assert(ranks_no_later(x, q));
        if j > p {
            let r = t[j];
            assert(ranks_no_later(q, r));
            if x.matched_terms == q.matched_terms && q.matched_terms == r.matched_terms {
                lemma_title_le_trans(x.title@, q.title@, r.title@);
            }
        }
    }
    assert forall|i: int, j: int| 0 <= i < j < u.len() implies ranks_no_later(u[i], u[j]) by {
        if j < p {
            assert(u[i] == t[i] && u[j] == t[j]);
        } else if j == p {
            assert(u[i] == t[i]);
        } else if i == p {
            assert(u[j] == t[j - 1]);
        } else if i < p {
            assert(u[i] == t[i] && u[j] == t[j - 1]);
            let q = t[i];
            let r = t[j - 1];
            assert(ranks_no_later(q, x));
            assert(ranks_no_later(x, r));
            if q.matched_terms == x.matched_terms && x.matched_terms == r.matched_terms {
                lemma_title_le_trans(q.title@, x.title@, r.title@);
            }
        } else {
            assert(u[i] == t[i - 1] && u[j] == t[j - 1]);
        }
    }
}

/// The ranking order lists the incidents given, each as often as given, with
/// every incident listed no later than those after it.
pub proof fn lemma_ranked_order(s: Seq<RankedIncident>)
    ensures
        is_ranked(ranked_order(s)),
        ranked_order(s).to_multiset() == s.to_multiset(),
        ranked_order(s).len() == s.len(),
    decreases s.len(),
{
    if s.len() > 0 {
        let rest = ranked_order(s.drop_first());
        lemma_ranked_order(s.drop_first());
        lemma_insert_keeps_ranked(s[0], rest);
        lemma_insert_position(s[0], rest);
        assert(s.drop_first().to_multiset().insert(s[0]) == s.to_multiset()) by {
            assert(s == seq![s[0]] + s.drop_first());
            vstd::seq_lib::lemma_multiset_commutative(seq![s[0]], s.drop_first());
            assert(seq![s[0]].to_multiset() == Multiset::<RankedIncident>::empty().insert(s[0])) by {
                assert(seq![s[0]] == Seq::<RankedIncident>::empty().push(s[0]));
            }
        }
    } else {
        assert(s.to_multiset() =~= Multiset::<RankedIncident>::empty());
    }
}

/// The incidents in ranking order (a stable insertion sort).
fn sort_ranked(items: Vec<RankedIncident>) -> (res: Vec<RankedIncident>)
    ensures
        res@ == ranked_order(items@),
{
    let ghost all = items@;
    let mut rest = items;
    let mut out: Vec<RankedIncident> = Vec::new();
    assert(all.skip(all.len() as int) == Seq::<RankedIncident>::empty());
    while rest.len() > 0
        invariant
            rest@ == all.take(rest@.len() as int),
            rest@.len() <= all.len(),
            out@ == ranked_order(all.skip(rest@.len() as int)),
        decreases rest@.len(),
    {
        let ghost k = rest@.len() as int;
        let x = rest.pop().unwrap();
        assert(x == all[k - 1]);
        assert(rest@ == all.take(k - 1));
        let mut p: usize = 0;
        while p < out.len() && !ranks_no_later_exec(&x, &out[p])
            invariant
                p <= out@.len(),
                forall|j: int| 0 <= j < p ==> !ranks_no_later(x, #[trigger] out@[j]),
            decreases out@.len() - p,
        {
            p = p + 1;
        }
        let ghost before_out = out@;
        proof {
            lemma_insert_position_unique(x, before_out, p as int);
            assert(all.skip(k - 1).drop_first() == all.skip(k));
            assert(all.skip(k - 1)[0] == x);
        }
        out.insert(p, x);
    }
    assert(all.skip(0) == all);
    out
}

/// The listing of at most `limit` incidents: the first `limit` of the
/// incidents in ranking order.
pub fn rank_incidents(incidents: Vec<RankedIncident>, limit: usize) -> (res: Vec<RankedIncident>)
    ensures
        res@ == ranked_order(incidents@).take(
            if limit < incidents@.len() {
                limit as int
            } else {
                incidents@.len() as int
            },
        ),
        is_ranked(res@),
{
    let ghost given = incidents@;
    let mut sorted = sort_ranked(incidents);
    proof {
        lemma_ranked_order(given);
    }
    let ghost all = sorted@;
    sorted.truncate(limit);
    assert(sorted@ == all.take(sorted@.len() as int));
    sorted
}


// ---------------------------------------------------------------------------
// Laws of tokens and of what a search reads
// ---------------------------------------------------------------------------

/// Characters that are ASCII digits or lower-case ASCII letters.
pub open spec fn digits_and_lower(t: Seq<char>) -> bool {
    forall|i: int| 0 <= i < t.len() ==> ('0' <= #[trigger] t[i] && t[i] <= '9') || ('a' <= t[i]
        && t[i] <= 'z')
}

/// Reading `a`, a character that is no letter or digit, then `b`: the runs
/// of `a`, then those of `b` read afresh.
proof fn lemma_runs_split(a: Seq<char>, c: char, b: Seq<char>, cur: Seq<char>)
    requires
        !is_ascii_alnum(c),
    ensures
        runs_from(a + seq![c] + b, cur) == runs_from(a, cur) + runs_from(b, Seq::empty()),
    decreases a.len(),
{
    let x = a + seq![c] + b;
    if a.len() == 0 {
        assert(x == seq![c] + b);
        assert(x[0] == c);
        assert(x.drop_first() == b);
        if cur.len() == 0 {
            assert(runs_from(a, cur) == Seq::<Seq<char>>::empty());
            assert(Seq::<Seq<char>>::empty() + runs_from(b, Seq::empty()) == runs_from(
                b,
                Seq::empty(),
            ));
        } else {
            assert(runs_from(a, cur) == seq![cur]);
        }
    } else {
        assert(x[0] == a[0]);
        assert(x.drop_first() == a.drop_first() + seq![c] + b);
        if is_ascii_alnum(a[0]) {
            lemma_runs_split(a.drop_first(), c, b, cur.push(ascii_lower(a[0])));
        } else if cur.len() == 0 {
            lemma_runs_split(a.drop_first(), c, b, Seq::empty());
        } else {
            lemma_runs_split(a.drop_first(), c, b, Seq::empty());
            let r1 = runs_from(a.drop_first(), Seq::empty());
            let r2 = runs_from(b, Seq::empty());
            assert(seq![cur] + (r1 + r2) == (seq![cur] + r1) + r2);
        }
    }
}

/// Lower-casing keeps digits and makes letters lower-case.
proof fn lemma_lower_of_alnum(c: char)
    requires
        is_ascii_alnum(c),
    ensures
        ('0' <= ascii_lower(c) && ascii_lower(c) <= '9') || ('a' <= ascii_lower(c) && ascii_lower(c)
            <= 'z'),
{
}

/// The runs read from a run of digits and lower-case letters are non-empty
/// runs of digits and lower-case letters.
proof fn lemma_runs_words(s: Seq<char>, cur: Seq<char>)
    requires
        digits_and_lower(cur),
    ensures
        forall|k: int|
            0 <= k < runs_from(s, cur).len() ==> (#[trigger] runs_from(s, cur)[k]).len() > 0
                && digits_and_lower(runs_from(s, cur)[k]),
    decreases s.len(),
{
    if s.len() == 0 {
        if cur.len() > 0 {
            assert(runs_from(s, cur) == seq![cur]);
            assert(runs_from(s, cur)[0] == cur);
        } else {
            assert(runs_from(s, cur) == Seq::<Seq<char>>::empty());
        }
    } else if is_ascii_alnum(s[0]) {
        let next = cur.push(ascii_lower(s[0]));
        assert(runs_from(s, cur) == runs_from(s.drop_first(), next));
        lemma_lower_of_alnum(s[0]);
        assert(digits_and_lower(next)) by {
            assert forall|i: int| 0 <= i < next.len() implies ('0' <= #[trigger] next[i] && next[i]
                <= '9') || ('a' <= next[i] && next[i] <= 'z') by {
                if i < cur.len() {
                    assert(next[i] == cur[i]);
                }
            }
        }
        lemma_runs_words(s.drop_first(), next);
    } else {
        lemma_runs_words(s.drop_first(), Seq::empty());
        if cur.len() == 0 {
            assert(runs_from(s, cur) == runs_from(s.drop_first(), Seq::empty()));
        } else {
            let r = runs_from(s.drop_first(), Seq::empty());
            assert(runs_from(s, cur) == seq![cur] + r);
            assert forall|k: int| 0 <= k < (seq![cur] + r).len() implies (#[trigger] (seq![cur]
                + r)[k]).len() > 0 && digits_and_lower((seq![cur] + r)[k]) by {
                if k > 0 {
                    assert((seq![cur] + r)[k] == r[k - 1]);
                }
            }
        }
    }
}

/// Every token is a non-empty run of ASCII digits and lower-case ASCII
/// letters: no token holds any other character.
pub proof fn lemma_tokens_are_words(s: Seq<char>)
    ensures
        forall|t: Seq<char>| #[trigger]
            token_set(s).contains(t) ==> t.len() > 0 && digits_and_lower(t),
{
    lemma_runs_words(s, Seq::empty());
    assert forall|t: Seq<char>| #[trigger] token_set(s).contains(t) implies t.len() > 0
        && digits_and_lower(t) by {
        let k = choose|k: int| 0 <= k < runs_from(s, Seq::empty()).len() && runs_from(
            s,
            Seq::empty(),
        )[k] == t;
    }
}

/// Any character other than an ASCII letter or digit separates tokens: the
/// tokens of `a`, that character, then `b` are the tokens of `a` together
/// with those of `b`.
pub proof fn lemma_tokens_split_at_separator(a: Seq<char>, c: char, b: Seq<char>)
    requires
        !(('0' <= c && c <= '9') || ('a' <= c && c <= 'z') || ('A' <= c && c <= 'Z')),
    ensures
        token_set(a + seq![c] + b) == token_set(a).union(token_set(b)),
{
    lemma_runs_split(a, c, b, Seq::empty());
    vstd::seq_lib::seq_to_set_distributes_over_add(
        runs_from(a, Seq::empty()),
        runs_from(b, Seq::empty()),
    );
}

/// A text without ASCII letters or digits has no tokens.
pub proof fn lemma_no_tokens_without_words(s: Seq<char>)
    requires
        forall|i: int|
            0 <= i < s.len() ==> !(('0' <= #[trigger] s[i] && s[i] <= '9') || ('a' <= s[i] && s[i]
                <= 'z') || ('A' <= s[i] && s[i] <= 'Z')),
    ensures
        token_set(s) == Set::<Seq<char>>::empty(),
{
    assert(no_alnum(s));
    lemma_runs_leading(s, Seq::empty());
    assert(s + Seq::<char>::empty() == s);
    assert(runs_from(Seq::<char>::empty(), Seq::empty()) == Seq::<Seq<char>>::empty());
    assert(token_set(s) =~= Set::<Seq<char>>::empty());
}

/// The runs of a text of ASCII letters and digits, read from `cur`: one run,
/// `cur` followed by the text lower-cased.
proof fn lemma_runs_of_word(w: Seq<char>, cur: Seq<char>)
    requires
        forall|i: int| 0 <= i < w.len() ==> is_ascii_alnum(#[trigger] w[i]),
        cur.len() + w.len() > 0,
    ensures
        runs_from(w, cur) == seq![cur + Seq::new(w.len(), |i: int| ascii_lower(w[i]))],
    decreases w.len(),
{
    let low = Seq::new(w.len(), |i: int| ascii_lower(w[i]));
    if w.len() == 0 {
        assert(cur + low == cur);
    } else {
        let rest = w.drop_first();
        assert(is_ascii_alnum(w[0]));
        let next = cur.push(ascii_lower(w[0]));
        assert forall|i: int| 0 <= i < rest.len() implies is_ascii_alnum(#[trigger] rest[i]) by {
            assert(rest[i] == w[i + 1]);
        }
        lemma_runs_of_word(rest, next);
        assert(next + Seq::new(rest.len(), |i: int| ascii_lower(rest[i])) =~= cur + low);
    }
}

/// A word of ASCII letters and digits is a single token: the word with its
/// upper-case letters made lower-case (code point plus 32), the other
/// characters kept.
pub proof fn lemma_token_of_word(w: Seq<char>)
    requires
        w.len() > 0,
        forall|i: int|
            0 <= i < w.len() ==> ('0' <= #[trigger] w[i] && w[i] <= '9') || ('a' <= w[i] && w[i]
                <= 'z') || ('A' <= w[i] && w[i] <= 'Z'),
    ensures
        exists|t: Seq<char>|
            #![trigger token_set(w).contains(t)]
            {
                &&& token_set(w) == set![t]
                &&& t.len() == w.len()
                &&& forall|i: int|
                    0 <= i < w.len() ==> if 'A' <= w[i] && w[i] <= 'Z' {
                        t[i] as u32 == (w[i] as u32) + 32
                    } else {
                        t[i] == w[i]
                    }
            },
{
    assert forall|i: int| 0 <= i < w.len() implies is_ascii_alnum(#[trigger] w[i]) by {}
    lemma_runs_of_word(w, Seq::empty());
    let t = Seq::<char>::empty() + Seq::new(w.len(), |i: int| ascii_lower(w[i]));
    assert(runs_from(w, Seq::empty()) == seq![t]);
    assert(token_set(w) =~= set![t]) by {
        assert forall|x: Seq<char>| seq![t].contains(x) <==> x == t by {
            if x == t {
                assert(seq![t][0] == t);
            }
        }
    }
    assert(token_set(w).contains(t));
}

/// The tokens of texts joined by single spaces are the tokens of the texts.
proof fn lemma_tokens_of_joined(ps: Seq<Seq<char>>)
    ensures
        forall|t: Seq<char>|
            token_set(join_with(ps, " "@)).contains(t) <==> exists|i: int|
                0 <= i < ps.len() && #[trigger] token_set(ps[i]).contains(t),
    decreases ps.len(),
{
    reveal_strlit(" ");
    if ps.len() == 0 {
        lemma_no_tokens_without_words(Seq::empty());
    } else if ps.len() == 1 {
        assert forall|t: Seq<char>| token_set(join_with(ps, " "@)).contains(t) <==> exists|i: int|
            0 <= i < ps.len() && #[trigger] token_set(ps[i]).contains(t) by {
            if token_set(ps[0]).contains(t) {
                assert(token_set(ps[0]).contains(t));
            }
        }
    } else {
        let init = ps.drop_last();
        lemma_tokens_of_joined(init);
        assert(join_with(ps, " "@) == join_with(init, " "@) + seq![' '] + ps.last());
        lemma_tokens_split_at_separator(join_with(init, " "@), ' ', ps.last());
        assert forall|t: Seq<char>| token_set(join_with(ps, " "@)).contains(t) <==> exists|i: int|
            0 <= i < ps.len() && #[trigger] token_set(ps[i]).contains(t) by {
            if token_set(join_with(init, " "@)).contains(t) {
                let i = choose|i: int| 0 <= i < init.len() && #[trigger] token_set(init[i]).contains(
                    t,
                );
                assert(ps[i] == init[i]);
            }
            if token_set(ps.last()).contains(t) {
                assert(token_set(ps[ps.len() - 1]).contains(t));
            }
            if exists|i: int| 0 <= i < ps.len() && #[trigger] token_set(ps[i]).contains(t) {
                let i = choose|i: int| 0 <= i < ps.len() && #[trigger] token_set(ps[i]).contains(t);
                if i < ps.len() - 1 {
                    assert(init[i] == ps[i]);
                    assert(token_set(init[i]).contains(t));
                }
            }
        }
    }
}

/// What a search matches a document against: the tokens of its title, of
/// its root cause and of each listed pattern, and no others. The placeholder
/// that an empty list of patterns renders as is not searched.
pub proof fn lemma_searched_tokens(md: Seq<char>)
    ensures
        forall|t: Seq<char>|
            #[trigger] token_set(corpus_of(md)).contains(t) <==> (token_set(title_of(md)).contains(
                t,
            ) || token_set(root_cause_of(md)).contains(t) || exists|i: int|
                0 <= i < searched_patterns(md).len() && token_set(
                    searched_patterns(md)[i],
                ).contains(t)),
        token_set(title_of(md)).subset_of(token_set(corpus_of(md))),
        token_set(root_cause_of(md)).subset_of(token_set(corpus_of(md))),
        patterns_of(md) != seq!["_None yet_"@] ==> forall|i: int|
            0 <= i < patterns_of(md).len() ==> token_set(#[trigger] patterns_of(md)[i]).subset_of(
                token_set(corpus_of(md)),
            ),
{
    reveal_strlit(" ");
    let ps = searched_patterns(md);
    let j = join_with(ps, " "@);
    lemma_tokens_of_joined(ps);
    let a = title_of(md) + " "@ + root_cause_of(md);
    assert(corpus_of(md) == a + seq![' '] + j);
    assert(a == title_of(md) + seq![' '] + root_cause_of(md));
    lemma_tokens_split_at_separator(a, ' ', j);
    lemma_tokens_split_at_separator(title_of(md), ' ', root_cause_of(md));
    if patterns_of(md) != seq!["_None yet_"@] {
        assert(ps == patterns_of(md));
        assert forall|i: int| 0 <= i < patterns_of(md).len() implies token_set(
            #[trigger] patterns_of(md)[i],
        ).subset_of(token_set(corpus_of(md))) by {
            assert forall|t: Seq<char>| token_set(patterns_of(md)[i]).contains(t) implies token_set(
                corpus_of(md),
            ).contains(t) by {
                assert(token_set(ps[i]).contains(t));
            }
        }
    }
}

/// A query token found in a document's title, root cause or a listed
/// pattern counts towards its score: the document shares at least one token
/// with the query.
pub proof fn lemma_shared_token_scores(q: Set<Seq<char>>, md: Seq<char>, t: Seq<char>)
    requires
        q.finite(),
        q.contains(t),
        token_set(title_of(md)).contains(t) || token_set(root_cause_of(md)).contains(t) || (
        patterns_of(md) != seq!["_None yet_"@] && exists|i: int|
            0 <= i < patterns_of(md).len() && #[trigger] token_set(patterns_of(md)[i]).contains(t)),
    ensures
        matched_terms(q, md) >= 1,
{
    lemma_searched_tokens(md);
    if !token_set(title_of(md)).contains(t) && !token_set(root_cause_of(md)).contains(t) {
        let i = choose|i: int|
            0 <= i < patterns_of(md).len() && #[trigger] token_set(patterns_of(md)[i]).contains(t);
        assert(token_set(patterns_of(md)[i]).subset_of(token_set(corpus_of(md))));
    }
    assert(token_set(corpus_of(md)).contains(t));
    let both = q.intersect(token_set(corpus_of(md)));
    assert(both.contains(t));
    assert(set![t].subset_of(both));
    vstd::set_lib::lemma_len_subset(set![t], both);
}
} // verus!

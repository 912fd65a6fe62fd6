//! Laws of the incident document: what reading a document gives back of
//! what was written into it, and how the editing operations interact.

use vstd::prelude::*;
use crate::templates::{
    actions_section, appended, bullet, bulleted, emoji_text, entry_line, first_title,
    frontmatter, h1_title, heading, list_items, opt_view, patterns_of, patterns_section,
    resolved_text, root_cause_section, section_text, status_text, status_updated,
    strip_repeated, subsection, timeline_section, updated_line, IncidentStatus,
    IncidentTemplateData, TimelineEntry,
};
use crate::text::{
    find, is_ws, join_lines, lacks, lemma_find, lemma_find_past, lemma_find_unique,
    lemma_join_first, lemma_join_lacks, lemma_lines_from_plain, lemma_lines_lack,
    lemma_lines_line, lemma_lines_of_joined, lemma_trim_fixed, lemma_trim_shape,
    lemma_trim_trimmed_ws, lines, match_at, no_final_cr, starts_with, string_views, strip_cr,
    trim, trim_end_char, trim_start,
};
use crate::search::{corpus_of, searched_patterns};
use crate::server::resolved_document;
use crate::status_laws::{items_on_one_line, lemma_status_update_of_rendered, one_line};
use crate::timestamp::{is_rfc3339_char, rfc3339_of, Timestamp};

verus! {

/// The status marker is a single character other than `#`, a space or a
/// line break.
pub(crate) proof fn lemma_emoji(status: IncidentStatus)
    ensures
        emoji_text(status).len() == 1,
        emoji_text(status)[0] != '#',
        emoji_text(status)[0] != ' ',
        emoji_text(status)[0] != '\n',
        emoji_text(status)[0] != '\r',
{
    reveal_strlit("🟠");
    reveal_strlit("🟢");
}

/// What is left after stripping leading `p`s is a suffix.
proof fn strip_repeated_offset(s: Seq<char>, p: Seq<char>) -> (k: int)
    ensures
        0 <= k <= s.len(),
        strip_repeated(s, p) == s.skip(k),
    decreases s.len(),
{
    if p.len() > 0 && starts_with(s, p) {
        let k0 = strip_repeated_offset(s.skip(p.len() as int), p);
        assert(s.skip(p.len() as int).skip(k0) == s.skip(p.len() + k0));
        p.len() + k0
    } else {
        assert(s.skip(0) == s);
        0
    }
}

/// A heading's title is a suffix of its line.
proof fn h1_offset(l: Seq<char>) -> (k: int)
    requires
        h1_title(l) is Some,
    ensures
        0 <= k <= l.len(),
        h1_title(l) == Some(l.skip(k)),
{
    reveal_strlit(" ");
    let k0 = strip_repeated_offset(l, "# "@);
    let rest = strip_repeated(l, "# "@);
    lemma_find(rest, " "@);
    let i = find(rest, " "@)->0;
    assert(match_at(rest, " "@, i));
    assert(rest.skip(i + 1) == l.skip(k0 + i + 1));
    k0 + i + 1
}

/// The heading line `# <marker> <t>` has title `t`.
pub(crate) proof fn lemma_h1_of_heading(e: char, t: Seq<char>)
    requires
        e != '#',
        e != ' ',
    ensures
        h1_title("# "@ + seq![e] + " "@ + t) == Some(t),
{
    reveal_strlit("# ");
    reveal_strlit(" ");
    let line = "# "@ + seq![e] + " "@ + t;
    assert(line.take(2) == "# "@);
    let r = line.skip(2);
    assert(r == seq![e] + " "@ + t);
    assert(r.take(2)[0] == e);
    assert(!starts_with(r, "# "@));
    assert(strip_repeated(r, "# "@) == r);
    assert(strip_repeated(line, "# "@) == r);
    assert(r.subrange(1, 2) == " "@);
    assert(match_at(r, " "@, 1));
    assert(!match_at(r, " "@, 0)) by {
        assert(r.subrange(0, 1)[0] == e);
    }
    lemma_find_unique(r, " "@, 1);
    assert(r.skip(2) == t);
}

/// A line that starts with `p` starts with `p[0]`.
pub(crate) proof fn lemma_first_char(l: Seq<char>, p: Seq<char>)
    requires
        starts_with(l, p),
        p.len() > 0,
    ensures
        l.len() > 0 && l[0] == p[0],
{
    assert(l.take(p.len() as int)[0] == l[0]);
}

/// A line whose first character is not `#` is no title heading.
pub(crate) proof fn lemma_not_heading(l: Seq<char>)
    requires
        l.len() > 0 ==> l[0] != '#',
    ensures
        h1_title(l) is None,
{
    reveal_strlit("# ");
    if starts_with(l, "# "@) {
        lemma_first_char(l, "# "@);
    }
}

/// A document line that a status change leaves free of a final carriage
/// return: a frontmatter `status: ` or `resolved_at: ` line, which the change
/// writes anew, or a line that does not end with a carriage return.
pub open spec fn cr_free_after_update(l: Seq<char>) -> bool {
    ||| starts_with(l, "status: "@)
    ||| starts_with(l, "resolved_at: "@)
    ||| no_final_cr(l)
}

/// How one line fares under a status change: it keeps its title (if any),
/// gains no line break and no final carriage return, and changing it again
/// changes nothing.
proof fn lemma_updated_line(l: Seq<char>, status: IncidentStatus, rv: Seq<char>)
    requires
        lacks(l, '\n'),
        cr_free_after_update(l),
        lacks(rv, '\n'),
        no_final_cr(rv),
    ensures
        lacks(updated_line(l, status, rv), '\n'),
        no_final_cr(updated_line(l, status, rv)),
        h1_title(updated_line(l, status, rv)) == h1_title(l),
        updated_line(updated_line(l, status, rv), status, rv) == updated_line(l, status, rv),
{
    reveal_strlit("status: ");
    reveal_strlit("resolved_at: ");
    reveal_strlit("# ");
    reveal_strlit(" ");
    reveal_strlit("open");
    reveal_strlit("resolved");
    lemma_emoji(status);
    let u = updated_line(l, status, rv);
    if starts_with(l, "status: "@) {
        lemma_first_char(l, "status: "@);
        lemma_not_heading(l);
        assert(u.take(8) == "status: "@);
        lemma_not_heading(u);
    } else if starts_with(l, "resolved_at: "@) {
        lemma_first_char(l, "resolved_at: "@);
        lemma_not_heading(l);
        assert(u.take(13) == "resolved_at: "@);
        assert(!starts_with(u, "status: "@)) by {
            if starts_with(u, "status: "@) {
                lemma_first_char(u, "status: "@);
            }
        }
        lemma_not_heading(u);
        if rv.len() > 0 {
            assert(u.last() == rv.last());
        }
    } else {
        match h1_title(l) {
            Some(t) => {
                let k = h1_offset(l);
                let e = emoji_text(status)[0];
                assert(u == "# "@ + seq![e] + " "@ + t);
                assert(u[0] == '#');
                lemma_h1_of_heading(e, t);
                assert(!starts_with(u, "status: "@)) by {
                    if starts_with(u, "status: "@) {
                        lemma_first_char(u, "status: "@);
                    }
                }
                assert(!starts_with(u, "resolved_at: "@)) by {
                    if starts_with(u, "resolved_at: "@) {
                        lemma_first_char(u, "resolved_at: "@);
                    }
                }
                assert forall|i: int| 0 <= i < t.len() implies t[i] != '\n' by {
                    assert(t[i] == l[k + i]);
                }
                if t.len() > 0 {
                    assert(u.last() == t.last());
                    assert(t.last() == l.last());
                }
            },
            None => {},
        }
    }
}

/// The lines of a document after a status change are its lines, each
/// changed, when no line of it but a status or resolution line ends with a
/// carriage return.
proof fn lemma_lines_of_updated(md: Seq<char>, status: IncidentStatus, rv: Seq<char>)
    requires
        forall|i: int| 0 <= i < lines(md).len() ==> cr_free_after_update(#[trigger] lines(md)[i]),
        lacks(rv, '\n'),
        no_final_cr(rv),
    ensures
        lines(md).len() > 0 ==> lines(
            join_lines(lines(md).map_values(|l: Seq<char>| updated_line(l, status, rv))) + seq![
                '\n',
            ],
        ) == lines(md).map_values(|l: Seq<char>| updated_line(l, status, rv)),
{
    let ls = lines(md);
    let us = ls.map_values(|l: Seq<char>| updated_line(l, status, rv));
    lemma_lines_lack(md, '\n');
    assert forall|i: int| 0 <= i < us.len() implies lacks(#[trigger] us[i], '\n') && no_final_cr(
        us[i],
    ) by {
        assert(lacks(ls[i], '\n'));
        lemma_updated_line(ls[i], status, rv);
    }
    if ls.len() > 0 {
        lemma_lines_of_joined(us);
    }
}

/// The frontmatter value of a resolution time holds no line break and does
/// not end with a carriage return, when its RFC 3339 text is made of RFC 3339
/// characters.
pub open spec fn rfc3339_clean(resolved_at: Option<(i64, u32)>) -> bool {
    match resolved_at {
        Some(t) => rfc3339_chars(t),
        None => true,
    }
}

/// The RFC 3339 text of an instant is made of RFC 3339 characters.
pub open spec fn rfc3339_chars(t: (i64, u32)) -> bool {
    forall|i: int| 0 <= i < rfc3339_of(t).len() ==> is_rfc3339_char(#[trigger] rfc3339_of(t)[i])
}

pub(crate) proof fn lemma_resolved_text_clean(resolved_at: Option<(i64, u32)>)
    requires
        rfc3339_clean(resolved_at),
    ensures
        lacks(resolved_text(resolved_at), '\n'),
        no_final_cr(resolved_text(resolved_at)),
{
    reveal_strlit("null");
    match resolved_at {
        Some(t) => {
            let r = rfc3339_of(t);
            assert forall|i: int| 0 <= i < r.len() implies r[i] != '\n' by {
                assert(is_rfc3339_char(r[i]));
            }
            if r.len() > 0 {
                assert(is_rfc3339_char(r[r.len() - 1]));
            }
        },
        None => {},
    }
}

/// Changing each line keeps the first title.
proof fn lemma_first_title_map(ls: Seq<Seq<char>>, status: IncidentStatus, rv: Seq<char>)
    requires
        forall|i: int|
            0 <= i < ls.len() ==> lacks(#[trigger] ls[i], '\n') && cr_free_after_update(ls[i]),
        lacks(rv, '\n'),
        no_final_cr(rv),
    ensures
        first_title(ls.map_values(|l: Seq<char>| updated_line(l, status, rv))) == first_title(ls),
    decreases ls.len(),
{
    let us = ls.map_values(|l: Seq<char>| updated_line(l, status, rv));
    if ls.len() > 0 {
        assert(lacks(ls[0], '\n') && cr_free_after_update(ls[0]));
        lemma_updated_line(ls[0], status, rv);
        let rest = ls.drop_first();
        assert forall|i: int| 0 <= i < rest.len() implies lacks(#[trigger] rest[i], '\n')
            && cr_free_after_update(rest[i]) by {
            assert(rest[i] == ls[i + 1]);
        }
        lemma_first_title_map(rest, status, rv);
        assert(us.drop_first() == rest.map_values(|l: Seq<char>| updated_line(l, status, rv)));
        assert(us[0] == updated_line(ls[0], status, rv));
    }
}

/// Rewriting the status of a document keeps its title: the first title
/// heading reads the same before and after. Holds for documents none of
/// whose lines, but the frontmatter `status: ` and `resolved_at: ` lines,
/// ends with a carriage return, with a resolution time whose RFC 3339 text is
/// made of RFC 3339 characters (as chrono writes it).
pub proof fn lemma_status_update_keeps_title(
    md: Seq<char>,
    status: IncidentStatus,
    resolved_at: Option<(i64, u32)>,
)
    requires
        forall|i: int| 0 <= i < lines(md).len() ==> cr_free_after_update(#[trigger] lines(md)[i]),
        rfc3339_clean(resolved_at),
    ensures
        first_title(lines(status_updated(md, status, resolved_at))) == first_title(lines(md)),
{
    let rv = resolved_text(resolved_at);
    lemma_resolved_text_clean(resolved_at);
    let ls = lines(md);
    let us = ls.map_values(|l: Seq<char>| updated_line(l, status, rv));
    lemma_lines_lack(md, '\n');
    reveal_strlit("\n");
    assert("\n"@ == seq!['\n']);
    lemma_lines_of_updated(md, status, rv);
    if ls.len() > 0 {
        lemma_first_title_map(ls, status, rv);
    } else {
        assert(join_lines(us) == Seq::<char>::empty());
        assert(status_updated(md, status, resolved_at) == seq!['\n']);
        crate::text::lemma_lines_line(Seq::empty(), Seq::empty());
        assert(Seq::<char>::empty() + seq!['\n'] + Seq::<char>::empty() == seq!['\n']);
        assert(lines(seq!['\n']) == seq![Seq::<char>::empty()]);
        lemma_not_heading(Seq::empty());
        let one = seq![Seq::<char>::empty()];
        assert(one[0] == Seq::<char>::empty());
        assert(h1_title(one[0]) is None);
        assert(one.drop_first().len() == 0);
        assert(first_title(one.drop_first()) is None);
        assert(first_title(one) is None);
    }
}

/// Rewriting the status of a document twice the same way gives what
/// rewriting it once gives. Holds under the same conditions as
/// `lemma_status_update_keeps_title`.
pub proof fn lemma_status_update_idempotent(
    md: Seq<char>,
    status: IncidentStatus,
    resolved_at: Option<(i64, u32)>,
)
    requires
        forall|i: int| 0 <= i < lines(md).len() ==> cr_free_after_update(#[trigger] lines(md)[i]),
        rfc3339_clean(resolved_at),
    ensures
        status_updated(status_updated(md, status, resolved_at), status, resolved_at)
            == status_updated(md, status, resolved_at),
{
    let rv = resolved_text(resolved_at);
    lemma_resolved_text_clean(resolved_at);
    let ls = lines(md);
    let us = ls.map_values(|l: Seq<char>| updated_line(l, status, rv));
    let once = status_updated(md, status, resolved_at);
    lemma_lines_lack(md, '\n');
    reveal_strlit("\n");
    assert("\n"@ == seq!['\n']);
    lemma_lines_of_updated(md, status, rv);
    if ls.len() > 0 {
        assert(lines(once) == us);
        assert forall|i: int| 0 <= i < us.len() implies #[trigger] updated_line(us[i], status, rv)
            == us[i] by {
            assert(lacks(ls[i], '\n'));
            lemma_updated_line(ls[i], status, rv);
        }
        assert(us.map_values(|l: Seq<char>| updated_line(l, status, rv)) == us);
    } else {
        assert(join_lines(us) == Seq::<char>::empty());
        assert(once == seq!['\n']);
        crate::text::lemma_lines_line(Seq::empty(), Seq::empty());
        assert(Seq::<char>::empty() + seq!['\n'] + Seq::<char>::empty() == seq!['\n']);
        assert(lines(seq!['\n']) == seq![Seq::<char>::empty()]);
        lemma_not_heading(Seq::empty());
        reveal_strlit("status: ");
        reveal_strlit("resolved_at: ");
        assert(!starts_with(Seq::<char>::empty(), "status: "@));
        assert(!starts_with(Seq::<char>::empty(), "resolved_at: "@));
        let once_lines = seq![Seq::<char>::empty()];
        assert(once_lines.map_values(|l: Seq<char>| updated_line(l, status, rv)) == once_lines);
        assert(join_lines(once_lines) == Seq::<char>::empty());
    }
}

/// Resolving an incident a second time at the same instant, with no
/// resolution summary (none, or a blank one), leaves its document as the
/// first resolution left it. Holds under the conditions of
/// `lemma_status_update_idempotent`.
pub proof fn lemma_resolve_idempotent(
    md: Seq<char>,
    resolved_at: (i64, u32),
    summary: Option<Seq<char>>,
)
    requires
        forall|i: int| 0 <= i < lines(md).len() ==> cr_free_after_update(#[trigger] lines(md)[i]),
        rfc3339_clean(Some(resolved_at)),
        summary matches Some(s) ==> trim(s).len() == 0,
    ensures
        resolved_document(resolved_document(md, resolved_at, summary), resolved_at, summary)
            == resolved_document(md, resolved_at, summary),
{
    lemma_status_update_idempotent(md, IncidentStatus::Resolved, Some(resolved_at));
}

/// Text of RFC 3339 characters holds no line break and does not end with a
/// carriage return.
pub(crate) proof fn lemma_rfc_clean_text(t: (i64, u32))
    requires
        rfc3339_clean(Some(t)),
    ensures
        lacks(rfc3339_of(t), '\n'),
        no_final_cr(rfc3339_of(t)),
{
    lemma_resolved_text_clean(Some(t));
}

/// The frontmatter as its six lines.
pub(crate) proof fn lemma_frontmatter_lines(
    incident_id: Seq<char>,
    status: IncidentStatus,
    created_at: (i64, u32),
    resolved_at: Option<(i64, u32)>,
)
    ensures
        frontmatter(incident_id, status, created_at, resolved_at) == "---"@ + seq!['\n'] + (
        "incident_id: "@ + incident_id) + seq!['\n'] + ("status: "@ + status_text(status)) + seq![
            '\n',
        ] + ("created_at: "@ + rfc3339_of(created_at)) + seq!['\n'] + ("resolved_at: "@
            + resolved_text(resolved_at)) + seq!['\n'] + "---"@ + seq!['\n'],
{
    reveal_strlit("---\n");
    reveal_strlit("---");
    reveal_strlit("\n");
}

/// Six lines with their line breaks, then more text, nested to the right.
pub(crate) proof fn lemma_regroup(
    l1: Seq<char>,
    l2: Seq<char>,
    l3: Seq<char>,
    l4: Seq<char>,
    l5: Seq<char>,
    l6: Seq<char>,
    x: Seq<char>,
)
    ensures
        l1 + seq!['\n'] + l2 + seq!['\n'] + l3 + seq!['\n'] + l4 + seq!['\n'] + l5 + seq!['\n'] + l6
            + seq!['\n'] + x == l1 + seq!['\n'] + (l2 + seq!['\n'] + (l3 + seq!['\n'] + (l4
            + seq!['\n'] + (l5 + seq!['\n'] + (l6 + seq!['\n'] + x))))),
{
    let nl = seq!['\n'];
    assert(l6 + nl + x == l6 + (nl + x));
    assert(l1 + nl + l2 + nl + l3 + nl + l4 + nl + l5 + nl + l6 + nl + x =~= l1 + nl + (l2 + nl
        + (l3 + nl + (l4 + nl + (l5 + nl + (l6 + nl + x))))));
}

/// A line that is no title heading, with its line break, is passed over
/// when looking for the title.
proof fn lemma_skip_line(l: Seq<char>, rest: Seq<char>)
    requires
        lacks(l, '\n'),
        l.len() > 0,
        l[0] != '#',
    ensures
        first_title(lines(l + seq!['\n'] + rest)) == first_title(lines(rest)),
{
    lemma_lines_line(l, rest);
    let s = strip_cr(l);
    if s.len() > 0 {
        assert(s[0] == l[0]);
    }
    lemma_not_heading(s);
    assert((seq![s] + lines(rest))[0] == s);
    assert((seq![s] + lines(rest)).drop_first() == lines(rest));
}

/// The first title of a text that starts with the title heading is its
/// title.
proof fn lemma_heading_title(status: IncidentStatus, title: Seq<char>, tail: Seq<char>)
    requires
        lacks(title, '\n'),
        no_final_cr(title),
    ensures
        first_title(lines(heading(status, title) + tail)) == Some(title),
{
    reveal_strlit("# ");
    reveal_strlit(" ");
    reveal_strlit("\n\n");
    lemma_emoji(status);
    let e = emoji_text(status)[0];
    assert(emoji_text(status) == seq![e]);
    let l7 = "# "@ + seq![e] + " "@ + title;
    let nl = seq!['\n'];
    assert(heading(status, title) + tail == l7 + nl + (nl + tail));
    assert(lacks(l7, '\n'));
    lemma_lines_line(l7, nl + tail);
    assert(strip_cr(l7) == l7) by {
        if title.len() > 0 {
            assert(l7.last() == title.last());
        }
    }
    lemma_h1_of_heading(e, title);
    assert((seq![l7] + lines(nl + tail))[0] == l7);
}

/// The first title of a text that starts with the frontmatter and the title
/// heading is the heading's title.
proof fn lemma_title_after_frontmatter(
    incident_id: Seq<char>,
    status: IncidentStatus,
    created_at: (i64, u32),
    resolved_at: Option<(i64, u32)>,
    title: Seq<char>,
    tail: Seq<char>,
)
    requires
        lacks(incident_id, '\n'),
        lacks(title, '\n'),
        no_final_cr(title),
        rfc3339_clean(Some(created_at)),
        rfc3339_clean(resolved_at),
    ensures
        first_title(lines(frontmatter(incident_id, status, created_at, resolved_at) + heading(
            status,
            title,
        ) + tail)) == Some(title),
{
    reveal_strlit("---");
    reveal_strlit("incident_id: ");
    reveal_strlit("status: ");
    reveal_strlit("created_at: ");
    reveal_strlit("resolved_at: ");
    reveal_strlit("open");
    reveal_strlit("resolved");
    lemma_rfc_clean_text(created_at);
    lemma_resolved_text_clean(resolved_at);
    lemma_frontmatter_lines(incident_id, status, created_at, resolved_at);
    let l1 = "---"@;
    let l2 = "incident_id: "@ + incident_id;
    let l3 = "status: "@ + status_text(status);
    let l4 = "created_at: "@ + rfc3339_of(created_at);
    let l5 = "resolved_at: "@ + resolved_text(resolved_at);
    let l6 = "---"@;
    let nl = seq!['\n'];
    let x = heading(status, title) + tail;
    let fm = frontmatter(incident_id, status, created_at, resolved_at);
    assert(fm + heading(status, title) + tail == fm + x);
    lemma_regroup(l1, l2, l3, l4, l5, l6, x);
    let r6 = l6 + nl + x;
    let r5 = l5 + nl + r6;
    let r4 = l4 + nl + r5;
    let r3 = l3 + nl + r4;
    let r2 = l2 + nl + r3;
    assert(lacks(l2, '\n'));
    assert(lacks(l3, '\n'));
    assert(lacks(l4, '\n'));
    assert(lacks(l5, '\n'));
    lemma_heading_title(status, title, tail);
    lemma_skip_line(l6, x);
    lemma_skip_line(l5, r6);
    lemma_skip_line(l4, r5);
    lemma_skip_line(l3, r4);
    lemma_skip_line(l2, r3);
    lemma_skip_line(l1, r2);
}

/// Reading the title back from a rendered incident document gives the title
/// that was written. Holds for incident ids and titles without line breaks,
/// titles that do not end with a carriage return, and timestamps whose RFC
/// 3339 text is made of RFC 3339 characters (as chrono writes it).
pub proof fn lemma_rendered_title(d: IncidentTemplateData)
    requires
        lacks(d.incident_id@, '\n'),
        lacks(d.title@, '\n'),
        no_final_cr(d.title@),
        rfc3339_clean(Some(d.created_at@)),
        rfc3339_clean(opt_view(d.resolved_at)),
    ensures
        first_title(lines(d.markdown())) == Some(d.title@),
{
    let fm = frontmatter(d.incident_id@, d.status, d.created_at@, opt_view(d.resolved_at));
    let hd = heading(d.status, d.title@);
    let tail = d.markdown().skip((fm.len() + hd.len()) as int);
    assert(d.markdown() == fm + hd + tail);
    lemma_title_after_frontmatter(
        d.incident_id@,
        d.status,
        d.created_at@,
        opt_view(d.resolved_at),
        d.title@,
        tail,
    );
}

/// Trimming trailing `c`s keeps a prefix and removes only `c`s.
proof fn lemma_trim_end_char(s: Seq<char>, c: char)
    ensures
        trim_end_char(s, c).len() <= s.len(),
        trim_end_char(s, c) == s.take(trim_end_char(s, c).len() as int),
        forall|k: int| trim_end_char(s, c).len() <= k < s.len() ==> s[k] == c,
    decreases s.len(),
{
    if s.len() > 0 && s.last() == c {
        lemma_trim_end_char(s.drop_last(), c);
        let t = trim_end_char(s, c);
        assert(s.drop_last().take(t.len() as int) == s.take(t.len() as int));
        assert forall|k: int| t.len() <= k < s.len() implies s[k] == c by {
            if k < s.len() - 1 {
                assert(s.drop_last()[k] == s[k]);
            }
        }
    } else {
        assert(s.take(s.len() as int) == s);
    }
}

/// Where a new timeline line goes in a document that has a Root Cause
/// heading: after the text before the heading, trailing line breaks
/// removed, and one line break.
pub open spec fn entry_position(md: Seq<char>) -> int {
    trim_end_char(md.take(find(md, "\n## Root Cause\n"@)->0), '\n').len() as int + 1
}

/// A new timeline line goes right before the Root Cause section: in the
/// document with the line added, the line stands at `entry_position`, and
/// the first Root Cause heading comes right after it and its line break.
/// Holds for documents that have a Root Cause heading and for lines that
/// start with `- ` and hold no line break, as timeline lines do.
#[verifier::rlimit(40)]
pub proof fn lemma_entry_before_root_cause(md: Seq<char>, line: Seq<char>)
    requires
        find(md, "\n## Root Cause\n"@) is Some,
        lacks(line, '\n'),
        starts_with(line, "- "@),
    ensures
        appended(md, line).subrange(entry_position(md), entry_position(md) + line.len()) == line,
        find(appended(md, line), "\n## Root Cause\n"@) == Some(
            entry_position(md) + line.len() + 1,
        ),
{
    reveal_strlit("\n## Root Cause\n");
    reveal_strlit("- ");
    reveal_strlit("\n");
    let m = "\n## Root Cause\n"@;
    assert(m.len() == 15);
    assert(m[0] == '\n' && m[1] == '#' && m[14] == '\n');
    assert(forall|o: int| 1 <= o <= 13 ==> m[o] != '\n');
    lemma_find(md, m);
    let idx = find(md, m)->0;
    assert(match_at(md, m, idx));
    let t = trim_end_char(md.take(idx), '\n');
    lemma_trim_end_char(md.take(idx), '\n');
    let tl = t.len() as int;
    let sfx = md.skip(idx);
    let nl = seq!['\n'];
    let r = appended(md, line);
    assert(r == t + nl + line + nl + sfx);
    let p = tl + 1;
    let k = p + line.len() + 1;
    assert(line.take(2)[0] == '-');
    assert(line[0] == '-');
    // the line and the heading are where they should be
    assert(r.subrange(p, p + line.len()) == line);
    assert(r.subrange(k, k + 15) == sfx.subrange(0, 15));
    assert(sfx.subrange(0, 15) == md.subrange(idx, idx + 15));
    assert(match_at(r, m, k));
    // characters of `r` by region
    assert forall|i: int| 0 <= i < tl implies r[i] == md[i] by {
        assert(t[i] == md.take(idx)[i]);
    }
    assert(r[tl] == '\n');
    assert forall|i: int| p <= i < p + line.len() implies r[i] == line[i - p] by {}
    assert(r[k - 1] == '\n');
    assert(r[k] == '\n');
    // no earlier heading
    assert forall|j: int| 0 <= j < k implies !match_at(r, m, j) by {
        if match_at(r, m, j) {
            assert forall|o: int| 0 <= o < 15 implies r[j + o] == m[o] by {
                assert(r.subrange(j, j + 15)[o] == r[j + o]);
            }
            if j < tl {
                if j + 14 < tl {
                    assert(md.subrange(j, j + 15) == m) by {
                        assert forall|o: int| 0 <= o < 15 implies md.subrange(j, j + 15)[o]
                            == m[o] by {
                            assert(r[j + o] == md[j + o]);
                        }
                    }
                    assert(match_at(md, m, j));
                } else if j + 14 == tl {
                    if tl < idx {
                        assert(md[tl] == md.take(idx)[tl]);
                    } else {
                        assert(md[idx] == md.subrange(idx, idx + 15)[0]);
                    }
                    assert(md[tl] == '\n');
                    assert(md.subrange(j, j + 15) == m) by {
                        assert forall|o: int| 0 <= o < 15 implies md.subrange(j, j + 15)[o]
                            == m[o] by {
                            if o < 14 {
                                assert(r[j + o] == md[j + o]);
                            }
                        }
                    }
                    assert(match_at(md, m, j));
                } else {
                    let o = tl - j;
                    assert(1 <= o <= 13);
                    assert(r[j + o] == m[o]);
                }
            } else if j == tl {
                assert(r[j + 1] == line[0]);
                assert(r[j + 1] == m[1]);
            } else if j < k - 1 {
                assert(r[j] == line[j - p]);
                assert(r[j] == m[0]);
            } else {
                assert(j == k - 1);
                assert(r[j + 1] == m[1]);
            }
        }
    }
    lemma_find_unique(r, m, k);
}

/// `a` and `b` lack `c`, so their concatenation does.
pub(crate) proof fn lemma_lacks_add(a: Seq<char>, b: Seq<char>, c: char)
    requires
        lacks(a, c),
        lacks(b, c),
    ensures
        lacks(a + b, c),
{
    assert forall|i: int| 0 <= i < (a + b).len() implies (a + b)[i] != c by {
        if i < a.len() {
            assert((a + b)[i] == a[i]);
        } else {
            assert((a + b)[i] == b[i - a.len()]);
        }
    }
}

/// RFC 3339 text holds no `#`.
proof fn lemma_rfc_no_hash(t: (i64, u32))
    requires
        rfc3339_clean(Some(t)),
    ensures
        lacks(rfc3339_of(t), '#'),
{
    assert(rfc3339_chars(t));
    let r = rfc3339_of(t);
    assert forall|i: int| 0 <= i < r.len() implies r[i] != '#' by {
        assert(is_rfc3339_char(r[i]));
    }
}

/// The frontmatter holds no `#` when the id holds none.
proof fn lemma_frontmatter_no_hash(
    incident_id: Seq<char>,
    status: IncidentStatus,
    created_at: (i64, u32),
    resolved_at: Option<(i64, u32)>,
)
    requires
        lacks(incident_id, '#'),
        rfc3339_clean(Some(created_at)),
        rfc3339_clean(resolved_at),
    ensures
        lacks(frontmatter(incident_id, status, created_at, resolved_at), '#'),
{
    reveal_strlit("---");
    reveal_strlit("incident_id: ");
    reveal_strlit("status: ");
    reveal_strlit("created_at: ");
    reveal_strlit("resolved_at: ");
    reveal_strlit("open");
    reveal_strlit("resolved");
    reveal_strlit("null");
    lemma_frontmatter_lines(incident_id, status, created_at, resolved_at);
    lemma_rfc_no_hash(created_at);
    match resolved_at {
        Some(t) => lemma_rfc_no_hash(t),
        None => {},
    }
    let nl = seq!['\n'];
    let c = '#';
    assert(lacks(nl, c));
    assert(lacks("---"@, c));
    assert(lacks("incident_id: "@, c));
    assert(lacks(status_text(status), c));
    assert(lacks(resolved_text(resolved_at), c));
    let mut acc = "---"@ + nl;
    lemma_lacks_add("---"@, nl, c);
    lemma_lacks_add("incident_id: "@, incident_id, c);
    lemma_lacks_add(acc, "incident_id: "@ + incident_id, c);
    acc = acc + ("incident_id: "@ + incident_id);
    lemma_lacks_add(acc, nl, c);
    acc = acc + nl;
    lemma_lacks_add("status: "@, status_text(status), c);
    lemma_lacks_add(acc, "status: "@ + status_text(status), c);
    acc = acc + ("status: "@ + status_text(status));
    lemma_lacks_add(acc, nl, c);
    acc = acc + nl;
    lemma_lacks_add("created_at: "@, rfc3339_of(created_at), c);
    lemma_lacks_add(acc, "created_at: "@ + rfc3339_of(created_at), c);
    acc = acc + ("created_at: "@ + rfc3339_of(created_at));
    lemma_lacks_add(acc, nl, c);
    acc = acc + nl;
    lemma_lacks_add("resolved_at: "@, resolved_text(resolved_at), c);
    lemma_lacks_add(acc, "resolved_at: "@ + resolved_text(resolved_at), c);
    acc = acc + ("resolved_at: "@ + resolved_text(resolved_at));
    lemma_lacks_add(acc, nl, c);
    acc = acc + nl;
    lemma_lacks_add(acc, "---"@, c);
    acc = acc + "---"@;
    lemma_lacks_add(acc, nl, c);
}

/// No match of a pattern starting with `c` starts inside a text lacking
/// `c`; the first match is then the first one after it.
proof fn lemma_find_past_plain(a: Seq<char>, b: Seq<char>, p: Seq<char>)
    requires
        p.len() > 0,
        lacks(a, p[0]),
    ensures
        find(a + b, p) == match find(b, p) {
            Some(k) => Some(k + a.len()),
            None => None,
        },
{
    assert forall|j: int| 0 <= j < a.len() implies !match_at(a + b, p, j) by {
        if match_at(a + b, p, j) {
            assert((a + b).subrange(j, j + p.len())[0] == (a + b)[j]);
            assert((a + b)[j] == a[j]);
        }
    }
    lemma_find_past(a, b, p);
}

/// The Root Cause heading marker.
spec fn root_marker() -> Seq<char> {
    "## "@ + "Root Cause"@ + "\n"@
}

/// The marker is not found inside the two characters `# `.
proof fn lemma_find_past_h1_mark(x: Seq<char>)
    ensures
        find("# "@ + x, root_marker()) == match find(x, root_marker()) {
            Some(k) => Some(k + 2),
            None => None,
        },
{
    reveal_strlit("# ");
    reveal_strlit("## ");
    reveal_strlit("Root Cause");
    reveal_strlit("\n");
    let m = root_marker();
    let a = "# "@;
    assert(m[0] == '#' && m[1] == '#');
    assert forall|j: int| 0 <= j < a.len() implies !match_at(a + x, m, j) by {
        if match_at(a + x, m, j) {
            assert((a + x).subrange(j, j + m.len())[1] == (a + x)[j + 1]);
            assert((a + x).subrange(j, j + m.len())[0] == (a + x)[j]);
            assert((a + x)[1] == ' ');
        }
    }
    lemma_find_past(a, x, m);
}

/// The marker is not found inside `## Timeline`.
proof fn lemma_find_past_timeline_heading(x: Seq<char>)
    ensures
        find("## Timeline"@ + x, root_marker()) == match find(x, root_marker()) {
            Some(k) => Some(k + 11),
            None => None,
        },
{
    reveal_strlit("## Timeline");
    reveal_strlit("## ");
    reveal_strlit("Root Cause");
    reveal_strlit("\n");
    let m = root_marker();
    let a = "## Timeline"@;
    assert(m[0] == '#' && m[1] == '#' && m[3] == 'R');
    assert forall|j: int| 0 <= j < a.len() implies !match_at(a + x, m, j) by {
        if match_at(a + x, m, j) {
            assert forall|o: int| 0 <= o < 4 implies (a + x)[j + o] == m[o] by {
                assert((a + x).subrange(j, j + m.len())[o] == (a + x)[j + o]);
            }
            assert((a + x)[j] == a[j]);
            if j == 0 {
                assert((a + x)[3] == 'T');
            } else {
                assert((a + x)[j + 1] == a[j + 1] || j + 1 >= a.len());
            }
        }
    }
    lemma_find_past(a, x, m);
}

/// The end of the Root Cause section body: right after the root cause and
/// one line break, when the root cause holds no `\n## `.
proof fn lemma_section_end(trc: Seq<char>, tail: Seq<char>)
    requires
        find(trc, "\n## "@) is None,
        starts_with(tail, "## "@),
    ensures
        find(trc + "\n\n"@ + tail, "\n## "@) == Some(trc.len() as int + 1),
{
    reveal_strlit("\n## ");
    reveal_strlit("\n\n");
    reveal_strlit("## ");
    let n = "\n## "@;
    let rest = trc + "\n\n"@ + tail;
    let q = "\n\n"@ + tail;
    assert(rest == trc + q);
    lemma_find(trc, n);
    assert(tail.take(3) == "## "@);
    assert forall|j: int| 0 <= j < trc.len() implies !match_at(trc + q, n, j) by {
        if match_at(trc + q, n, j) {
            assert forall|o: int| 0 <= o < 4 implies (trc + q)[j + o] == n[o] by {
                assert((trc + q).subrange(j, j + 4)[o] == (trc + q)[j + o]);
            }
            if j + 4 <= trc.len() {
                assert(trc.subrange(j, j + 4) == n) by {
                    assert forall|o: int| 0 <= o < 4 implies trc.subrange(j, j + 4)[o] == n[o] by {
                        assert((trc + q)[j + o] == trc[j + o]);
                    }
                }
                assert(match_at(trc, n, j));
            } else {
                let o = trc.len() - j;
                assert(1 <= o <= 3);
                assert((trc + q)[j + o] == q[0]);
                assert(q[0] == '\n');
                assert(n[o] != '\n');
            }
        }
    }
    lemma_find_past(trc, q, n);
    assert(q.subrange(1, 5) == n) by {
        assert(q[1] == '\n');
        assert(q[2] == tail[0] && q[3] == tail[1] && q[4] == tail[2]);
        assert(tail.take(3)[0] == tail[0]);
        assert(tail.take(3)[1] == tail[1]);
        assert(tail.take(3)[2] == tail[2]);
    }
    assert(match_at(q, n, 1));
    assert(!match_at(q, n, 0)) by {
        assert(q.subrange(0, 4)[1] == q[1]);
    }
    crate::text::lemma_find_unique(q, n, 1);
}

/// No timeline line of `d` holds `#`, and each time renders with RFC 3339
/// characters.
pub open spec fn timeline_clean(d: IncidentTemplateData) -> bool {
    forall|i: int|
        0 <= i < d.timeline@.len() ==> lacks((#[trigger] d.timeline@[i]).summary@, '#')
            && rfc3339_chars(d.timeline@[i].timestamp@)
}

/// The rendered timeline list holds no `#`.
proof fn lemma_timeline_block_no_hash(d: IncidentTemplateData)
    requires
        timeline_clean(d),
    ensures
        lacks(bulleted(d.timeline_lines()), '#'),
{
    reveal_strlit("- ");
    reveal_strlit(" — ");
    reveal_strlit("- _None yet_");
    let ls = d.timeline_lines();
    if ls.len() > 0 {
        let bs = ls.map_values(|l: Seq<char>| bullet(l));
        assert forall|i: int| 0 <= i < bs.len() implies lacks(#[trigger] bs[i], '#') by {
            let e = d.timeline@[i];
            assert(lacks(e.summary@, '#') && rfc3339_chars(e.timestamp@));
            lemma_rfc_no_hash(e.timestamp@);
            let l = ls[i];
            assert(l == entry_line(e.timestamp@, e.summary@));
            lemma_lacks_add("- "@, rfc3339_of(e.timestamp@), '#');
            lemma_lacks_add("- "@ + rfc3339_of(e.timestamp@), " — "@, '#');
            lemma_lacks_add("- "@ + rfc3339_of(e.timestamp@) + " — "@, e.summary@, '#');
            lemma_lacks_add("- "@, l, '#');
        }
        lemma_join_lacks(bs, '#');
    }
}

/// The Root Cause section of a text laid out as a rendered document:
/// frontmatter, title heading, timeline section, Root Cause heading, root
/// cause, then further sections.
#[verifier::spinoff_prover]
proof fn lemma_root_cause_of_layout(
    fm: Seq<char>,
    hdr: Seq<char>,
    tsr: Seq<char>,
    rc: Seq<char>,
    tail: Seq<char>,
)
    requires
        lacks(fm, '#'),
        lacks(hdr, '#'),
        lacks(tsr, '#'),
        find(trim(rc), "\n## "@) is None,
        starts_with(tail, "## "@),
    ensures
        section_text(
            fm + ("# "@ + (hdr + ("## Timeline"@ + (tsr + (root_marker() + (trim(rc) + "\n\n"@
                + tail)))))),
            "Root Cause"@,
        ) == Some(trim(rc)),
{
    let m = root_marker();
    reveal_strlit("## ");
    assert(m[0] == '#');
    let trc = trim(rc);
    let after = trc + "\n\n"@ + tail;
    let x4 = tsr + (m + after);
    let x3 = "## Timeline"@ + x4;
    let x2 = hdr + x3;
    let x1 = "# "@ + x2;
    let md = fm + x1;
    lemma_find_at_start_of(m, after);
    lemma_find_past_plain(tsr, m + after, m);
    lemma_find_past_timeline_heading(x4);
    lemma_find_past_plain(hdr, x3, m);
    lemma_find_past_h1_mark(x2);
    lemma_find_past_plain(fm, x1, m);
    let start = fm.len() + 2 + hdr.len() + 11 + tsr.len();
    assert(find(md, m) == Some(start as int));
    reveal_strlit("# ");
    reveal_strlit("## Timeline");
    assert(md.skip((start + m.len()) as int) == after);
    lemma_section_end(trc, tail);
    reveal_strlit("\n\n");
    assert(after.take(trc.len() as int + 1) == trc.push('\n'));
    lemma_trim_trimmed_ws(rc, '\n');
}

/// The title heading as `# ` and the rest of it.
proof fn lemma_heading_parts(status: IncidentStatus, title: Seq<char>)
    requires
        lacks(title, '#'),
    ensures
        heading(status, title) == "# "@ + (seq![emoji_text(status)[0]] + " "@ + title + "\n\n"@),
        lacks(seq![emoji_text(status)[0]] + " "@ + title + "\n\n"@, '#'),
{
    reveal_strlit(" ");
    reveal_strlit("\n\n");
    lemma_emoji(status);
    let e = emoji_text(status)[0];
    assert(emoji_text(status) == seq![e]);
    lemma_lacks_add(seq![e], " "@, '#');
    lemma_lacks_add(seq![e] + " "@, title, '#');
    lemma_lacks_add(seq![e] + " "@ + title, "\n\n"@, '#');
}

/// The timeline section as `## Timeline` and the rest of it.
proof fn lemma_timeline_parts(d: IncidentTemplateData)
    requires
        timeline_clean(d),
    ensures
        timeline_section(d.timeline_lines()) == "## Timeline"@ + ("\n"@ + bulleted(
            d.timeline_lines(),
        ) + "\n\n"@),
        lacks("\n"@ + bulleted(d.timeline_lines()) + "\n\n"@, '#'),
{
    reveal_strlit("\n");
    reveal_strlit("\n\n");
    lemma_timeline_block_no_hash(d);
    lemma_lacks_add("\n"@, bulleted(d.timeline_lines()), '#');
    lemma_lacks_add("\n"@ + bulleted(d.timeline_lines()), "\n\n"@, '#');
}

/// The Root Cause section and what follows, as the marker and the rest.
proof fn lemma_root_section_parts(rc: Seq<char>, tail: Seq<char>)
    ensures
        root_cause_section(rc) + tail == root_marker() + (trim(rc) + "\n\n"@ + tail),
{
    reveal_strlit("## ");
    reveal_strlit("Root Cause");
    reveal_strlit("## Root Cause");
    reveal_strlit("\n");
}

/// The sections after the Root Cause section start with `## `.
proof fn lemma_tail_starts(
    detect: Seq<Seq<char>>,
    mitigate: Seq<Seq<char>>,
    prevent: Seq<Seq<char>>,
    patterns: Seq<Seq<char>>,
)
    ensures
        starts_with(actions_section(detect, mitigate, prevent) + patterns_section(patterns), "## "@),
{
    reveal_strlit("## ");
    reveal_strlit("## Action Items");
    let t = actions_section(detect, mitigate, prevent) + patterns_section(patterns);
    assert(t.take(3) == "## "@);
}

/// Reading the root cause back from a rendered incident document gives the
/// root cause that was written, trimmed. Holds when no `#` occurs before the
/// Root Cause section (in the id, the title and the timeline summaries), the
/// timestamps render with RFC 3339 characters (as chrono writes them), and
/// the trimmed root cause holds no `\n## ` (which would end the section).
#[verifier::spinoff_prover]
pub proof fn lemma_rendered_root_cause(d: IncidentTemplateData)
    requires
        lacks(d.incident_id@, '#'),
        lacks(d.title@, '#'),
        timeline_clean(d),
        rfc3339_clean(Some(d.created_at@)),
        rfc3339_clean(opt_view(d.resolved_at)),
        find(trim(d.root_cause@), "\n## "@) is None,
    ensures
        section_text(d.markdown(), "Root Cause"@) == Some(trim(d.root_cause@)),
{
    let fm = frontmatter(d.incident_id@, d.status, d.created_at@, opt_view(d.resolved_at));
    let hd = heading(d.status, d.title@);
    let ts = timeline_section(d.timeline_lines());
    let rcs = root_cause_section(d.root_cause@);
    let tail = actions_section(
        string_views(d.action_items.detect@),
        string_views(d.action_items.mitigate@),
        string_views(d.action_items.prevent@),
    ) + patterns_section(string_views(d.patterns@));
    let md = d.markdown();
    assert(md == fm + (hd + (ts + (rcs + tail))));
    lemma_frontmatter_no_hash(d.incident_id@, d.status, d.created_at@, opt_view(d.resolved_at));
    lemma_heading_parts(d.status, d.title@);
    lemma_timeline_parts(d);
    lemma_root_section_parts(d.root_cause@, tail);
    lemma_tail_starts(
        string_views(d.action_items.detect@),
        string_views(d.action_items.mitigate@),
        string_views(d.action_items.prevent@),
        string_views(d.patterns@),
    );
    let hdr = seq![emoji_text(d.status)[0]] + " "@ + d.title@ + "\n\n"@;
    let tsr = "\n"@ + bulleted(d.timeline_lines()) + "\n\n"@;
    let after = trim(d.root_cause@) + "\n\n"@ + tail;
    assert(rcs + tail == root_marker() + after);
    assert(ts + (rcs + tail) == "## Timeline"@ + (tsr + (root_marker() + after)));
    assert(hd + (ts + (rcs + tail)) == "# "@ + (hdr + ("## Timeline"@ + (tsr + (root_marker()
        + after)))));
    lemma_root_cause_of_layout(fm, hdr, tsr, d.root_cause@, tail);
}

// ---------------------------------------------------------------------------
// Reading the patterns back
// ---------------------------------------------------------------------------

/// `h[j + o]` differs from `m[o]`.
pub open spec fn mismatch_at(h: Seq<char>, m: Seq<char>, j: int, o: int) -> bool {
    0 <= o < m.len() && j + o < h.len() && h[j + o] != m[o]
}

/// No occurrence of `m` can start inside `h`, whatever follows it: from each
/// position of `h`, some character of `h` differs from `m`.
pub open spec fn blocks(h: Seq<char>, m: Seq<char>) -> bool {
    forall|j: int| 0 <= j < h.len() ==> #[trigger] starts_blocked(h, m, j)
}

/// Some character of `h` from position `j` on differs from `m`.
pub open spec fn starts_blocked(h: Seq<char>, m: Seq<char>, j: int) -> bool {
    exists|o: int| #[trigger] mismatch_at(h, m, j, o)
}

/// A text that lacks the first character of `m` blocks it.
proof fn lemma_blocks_plain(h: Seq<char>, m: Seq<char>)
    requires
        m.len() > 0,
        lacks(h, m[0]),
    ensures
        blocks(h, m),
{
    assert forall|j: int| 0 <= j < h.len() implies starts_blocked(h, m, j) by {
        assert(mismatch_at(h, m, j, 0));
    }
}

/// Blocking texts joined block.
proof fn lemma_blocks_add(a: Seq<char>, b: Seq<char>, m: Seq<char>)
    requires
        blocks(a, m),
        blocks(b, m),
    ensures
        blocks(a + b, m),
{
    assert forall|j: int| 0 <= j < (a + b).len() implies starts_blocked(a + b, m, j) by {
        if j < a.len() {
            assert(starts_blocked(a, m, j));
            let o = choose|o: int| #[trigger] mismatch_at(a, m, j, o);
            assert((a + b)[j + o] == a[j + o]);
            assert(mismatch_at(a + b, m, j, o));
        } else {
            assert(starts_blocked(b, m, j - a.len()));
            let o = choose|o: int| #[trigger] mismatch_at(b, m, j - a.len(), o);
            assert((a + b)[j + o] == b[j - a.len() + o]);
            assert(mismatch_at(a + b, m, j, o));
        }
    }
}

/// No match starts inside a blocking text.
proof fn lemma_find_past_blocking(h: Seq<char>, x: Seq<char>, m: Seq<char>)
    requires
        blocks(h, m),
    ensures
        find(h + x, m) == match find(x, m) {
            Some(k) => Some(k + h.len()),
            None => None,
        },
{
    assert forall|j: int| 0 <= j < h.len() implies !match_at(h + x, m, j) by {
        assert(starts_blocked(h, m, j));
        let o = choose|o: int| #[trigger] mismatch_at(h, m, j, o);
        if match_at(h + x, m, j) {
            assert((h + x).subrange(j, j + m.len())[o] == (h + x)[j + o]);
            assert((h + x)[j + o] == h[j + o]);
        }
    }
    lemma_find_past(h, x, m);
}

/// The Patterns heading marker.
spec fn patterns_marker() -> Seq<char> {
    "## "@ + "Patterns"@ + "\n"@
}

/// The headings before the Patterns section block its marker.
proof fn lemma_headings_block()
    ensures
        blocks("# "@, patterns_marker()),
        blocks("## Timeline"@, patterns_marker()),
        blocks("## Root Cause"@, patterns_marker()),
        blocks("## Action Items"@, patterns_marker()),
        blocks("### Detect"@, patterns_marker()),
        blocks("### Mitigate"@, patterns_marker()),
        blocks("### Prevent"@, patterns_marker()),
{
    reveal_strlit("## ");
    reveal_strlit("Patterns");
    reveal_strlit("\n");
    reveal_strlit("# ");
    reveal_strlit("## Timeline");
    reveal_strlit("## Root Cause");
    reveal_strlit("## Action Items");
    reveal_strlit("### Detect");
    reveal_strlit("### Mitigate");
    reveal_strlit("### Prevent");
    let m = patterns_marker();
    assert(m[0] == '#' && m[1] == '#' && m[2] == ' ' && m[3] == 'P' && m[4] == 'a');
    let h = "# "@;
    assert forall|j: int| 0 <= j < h.len() implies starts_blocked(h, m, j) by {
        if j == 0 {
            assert(mismatch_at(h, m, j, 1));
        } else {
            assert(mismatch_at(h, m, j, 0));
        }
    }
    let h2 = "## Timeline"@;
    assert forall|j: int| 0 <= j < h2.len() implies starts_blocked(h2, m, j) by {
        if j == 0 {
            assert(mismatch_at(h2, m, j, 3));
        } else if j == 1 {
            assert(mismatch_at(h2, m, j, 1));
        } else {
            assert(mismatch_at(h2, m, j, 0));
        }
    }
    let h3 = "## Root Cause"@;
    assert forall|j: int| 0 <= j < h3.len() implies starts_blocked(h3, m, j) by {
        if j == 0 {
            assert(mismatch_at(h3, m, j, 3));
        } else if j == 1 {
            assert(mismatch_at(h3, m, j, 1));
        } else {
            assert(mismatch_at(h3, m, j, 0));
        }
    }
    let h4 = "## Action Items"@;
    assert forall|j: int| 0 <= j < h4.len() implies starts_blocked(h4, m, j) by {
        if j == 0 {
            assert(mismatch_at(h4, m, j, 3));
        } else if j == 1 {
            assert(mismatch_at(h4, m, j, 1));
        } else {
            assert(mismatch_at(h4, m, j, 0));
        }
    }
    let h5 = "### Detect"@;
    assert forall|j: int| 0 <= j < h5.len() implies starts_blocked(h5, m, j) by {
        if j == 0 {
            assert(mismatch_at(h5, m, j, 2));
        } else if j == 1 {
            assert(mismatch_at(h5, m, j, 3));
        } else if j == 2 {
            assert(mismatch_at(h5, m, j, 1));
        } else {
            assert(mismatch_at(h5, m, j, 0));
        }
    }
    let h6 = "### Mitigate"@;
    assert forall|j: int| 0 <= j < h6.len() implies starts_blocked(h6, m, j) by {
        if j == 0 {
            assert(mismatch_at(h6, m, j, 2));
        } else if j == 1 {
            assert(mismatch_at(h6, m, j, 3));
        } else if j == 2 {
            assert(mismatch_at(h6, m, j, 1));
        } else {
            assert(mismatch_at(h6, m, j, 0));
        }
    }
    let h7 = "### Prevent"@;
    assert forall|j: int| 0 <= j < h7.len() implies starts_blocked(h7, m, j) by {
        if j == 0 {
            assert(mismatch_at(h7, m, j, 2));
        } else if j == 1 {
            assert(mismatch_at(h7, m, j, 4));
        } else if j == 2 {
            assert(mismatch_at(h7, m, j, 1));
        } else {
            assert(mismatch_at(h7, m, j, 0));
        }
    }
}

/// A list whose items lack `#` renders without `#`.
proof fn lemma_bulleted_no_hash(items: Seq<Seq<char>>)
    requires
        forall|i: int| 0 <= i < items.len() ==> lacks(#[trigger] items[i], '#'),
    ensures
        lacks(bulleted(items), '#'),
{
    reveal_strlit("- ");
    reveal_strlit("- _None yet_");
    if items.len() > 0 {
        let bs = items.map_values(|l: Seq<char>| bullet(l));
        assert forall|i: int| 0 <= i < bs.len() implies lacks(#[trigger] bs[i], '#') by {
            assert(lacks(items[i], '#'));
            lemma_lacks_add("- "@, items[i], '#');
        }
        lemma_join_lacks(bs, '#');
    }
}

/// Each item lacks `#`.
pub open spec fn items_without_hash(items: Seq<Seq<char>>) -> bool {
    forall|i: int| 0 <= i < items.len() ==> lacks(#[trigger] items[i], '#')
}

/// A `###` subsection as its heading and the rest of it.
proof fn lemma_subsection_parts(name: Seq<char>, heading_text: Seq<char>, content: Seq<char>)
    requires
        heading_text == "### "@ + name,
    ensures
        subsection(name, content) == heading_text + ("\n"@ + content + "\n"@),
{
}

/// Text lacking `c` blocks any pattern starting with `c`, wherever it is
/// added.
proof fn lemma_blocks_plain_add(acc: Seq<char>, h: Seq<char>, m: Seq<char>)
    requires
        blocks(acc, m),
        m.len() > 0,
        lacks(h, m[0]),
    ensures
        blocks(acc + h, m),
{
    lemma_blocks_plain(h, m);
    lemma_blocks_add(acc, h, m);
}

/// The text of a rendered document before its Patterns section blocks the
/// Patterns marker.
#[verifier::spinoff_prover]
proof fn lemma_before_patterns_blocks(d: IncidentTemplateData)
    requires
        lacks(d.incident_id@, '#'),
        lacks(d.title@, '#'),
        lacks(d.root_cause@, '#'),
        timeline_clean(d),
        rfc3339_clean(Some(d.created_at@)),
        rfc3339_clean(opt_view(d.resolved_at)),
        items_without_hash(string_views(d.action_items.detect@)),
        items_without_hash(string_views(d.action_items.mitigate@)),
        items_without_hash(string_views(d.action_items.prevent@)),
    ensures
        blocks(
            frontmatter(d.incident_id@, d.status, d.created_at@, opt_view(d.resolved_at)) + heading(
                d.status,
                d.title@,
            ) + timeline_section(d.timeline_lines()) + root_cause_section(d.root_cause@)
                + actions_section(
                string_views(d.action_items.detect@),
                string_views(d.action_items.mitigate@),
                string_views(d.action_items.prevent@),
            ),
            patterns_marker(),
        ),
{
    reveal_strlit("## ");
    reveal_strlit("Patterns");
    reveal_strlit("\n");
    reveal_strlit("\n\n");
    reveal_strlit("## Root Cause");
    reveal_strlit("## Action Items");
    reveal_strlit("### ");
    reveal_strlit("Detect");
    reveal_strlit("Mitigate");
    reveal_strlit("Prevent");
    reveal_strlit("### Detect");
    reveal_strlit("### Mitigate");
    reveal_strlit("### Prevent");
    let m = patterns_marker();
    assert(m[0] == '#');
    lemma_headings_block();
    let fm = frontmatter(d.incident_id@, d.status, d.created_at@, opt_view(d.resolved_at));
    lemma_frontmatter_no_hash(d.incident_id@, d.status, d.created_at@, opt_view(d.resolved_at));
    lemma_blocks_plain(fm, m);
    // the title heading
    lemma_heading_parts(d.status, d.title@);
    let hdr = seq![emoji_text(d.status)[0]] + " "@ + d.title@ + "\n\n"@;
    lemma_blocks_add(fm, "# "@, m);
    lemma_blocks_plain_add(fm + "# "@, hdr, m);
    let acc1 = fm + "# "@ + hdr;
    // the timeline
    lemma_timeline_parts(d);
    let tsr = "\n"@ + bulleted(d.timeline_lines()) + "\n\n"@;
    lemma_blocks_add(acc1, "## Timeline"@, m);
    lemma_blocks_plain_add(acc1 + "## Timeline"@, tsr, m);
    let acc2 = acc1 + "## Timeline"@ + tsr;
    // the root cause
    let rc = d.root_cause@;
    let k0 = crate::text::lemma_trim_start_shape(rc);
    let k1 = crate::text::lemma_trim_end_shape(trim_start(rc));
    assert(lacks(trim(rc), '#')) by {
        assert forall|i: int| 0 <= i < trim(rc).len() implies trim(rc)[i] != '#' by {
            assert(trim(rc)[i] == rc[k0 + i]);
        }
    }
    let rcr = "\n"@ + trim(rc) + "\n\n"@;
    lemma_lacks_add("\n"@, trim(rc), '#');
    lemma_lacks_add("\n"@ + trim(rc), "\n\n"@, '#');
    lemma_blocks_add(acc2, "## Root Cause"@, m);
    lemma_blocks_plain_add(acc2 + "## Root Cause"@, rcr, m);
    let acc3 = acc2 + "## Root Cause"@ + rcr;
    // the action items
    let bd = bulleted(string_views(d.action_items.detect@));
    let bm = bulleted(string_views(d.action_items.mitigate@));
    let bp = bulleted(string_views(d.action_items.prevent@));
    lemma_bulleted_no_hash(string_views(d.action_items.detect@));
    lemma_bulleted_no_hash(string_views(d.action_items.mitigate@));
    lemma_bulleted_no_hash(string_views(d.action_items.prevent@));
    let dr = "\n"@ + bd + "\n"@;
    let mr = "\n"@ + bm + "\n"@;
    let pr = "\n"@ + bp + "\n"@;
    lemma_lacks_add("\n"@, bd, '#');
    lemma_lacks_add("\n"@ + bd, "\n"@, '#');
    lemma_lacks_add("\n"@, bm, '#');
    lemma_lacks_add("\n"@ + bm, "\n"@, '#');
    lemma_lacks_add("\n"@, bp, '#');
    lemma_lacks_add("\n"@ + bp, "\n"@, '#');
    lemma_blocks_add(acc3, "## Action Items"@, m);
    lemma_blocks_plain_add(acc3 + "## Action Items"@, "\n"@, m);
    let acc4 = acc3 + "## Action Items"@ + "\n"@;
    lemma_blocks_add(acc4, "### Detect"@, m);
    lemma_blocks_plain_add(acc4 + "### Detect"@, dr, m);
    let acc5 = acc4 + "### Detect"@ + dr;
    lemma_blocks_add(acc5, "### Mitigate"@, m);
    lemma_blocks_plain_add(acc5 + "### Mitigate"@, mr, m);
    let acc6 = acc5 + "### Mitigate"@ + mr;
    lemma_blocks_add(acc6, "### Prevent"@, m);
    lemma_blocks_plain_add(acc6 + "### Prevent"@, pr, m);
    let acc7 = acc6 + "### Prevent"@ + pr;
    lemma_blocks_plain_add(acc7, "\n"@, m);
    assert("### Detect"@ =~= "### "@ + "Detect"@);
    assert("### Mitigate"@ =~= "### "@ + "Mitigate"@);
    assert("### Prevent"@ =~= "### "@ + "Prevent"@);
    lemma_subsection_parts("Detect"@, "### Detect"@, bd);
    lemma_subsection_parts("Mitigate"@, "### Mitigate"@, bm);
    lemma_subsection_parts("Prevent"@, "### Prevent"@, bp);
    assert(root_cause_section(rc) == "## Root Cause"@ + rcr);
    assert(fm + heading(d.status, d.title@) + timeline_section(d.timeline_lines())
        + root_cause_section(rc) + actions_section(
        string_views(d.action_items.detect@),
        string_views(d.action_items.mitigate@),
        string_views(d.action_items.prevent@),
    ) == acc7 + "\n"@);
}

/// A pattern that reads back exactly as written: not empty, trimmed, on one
/// line, without `#`, and not already starting with `- `.
pub open spec fn listable(p: Seq<char>) -> bool {
    &&& p.len() > 0
    &&& trim(p) == p
    &&& lacks(p, '\n')
    &&& lacks(p, '#')
    &&& !starts_with(p, "- "@)
}

/// How a listable pattern is rendered as a list item.
proof fn lemma_bullet_listable(p: Seq<char>)
    requires
        listable(p),
    ensures
        bullet(p) == "- "@ + p,
        lacks(bullet(p), '\n'),
        lacks(bullet(p), '#'),
        no_final_cr(bullet(p)),
        trim(bullet(p)) == bullet(p),
        bullet(p).len() > 0,
        bullet(p)[0] == '-',
        bullet(p).last() == p.last(),
{
    reveal_strlit("- ");
    lemma_trim_shape(p);
    assert(!is_ws(p[0]));
    assert(trim_start(p) == p);
    let b = "- "@ + p;
    assert(b[0] == '-');
    assert(b.last() == p.last());
    assert(!is_ws(b[0]));
    lemma_trim_fixed(b);
    lemma_lacks_add("- "@, p, '\n');
    lemma_lacks_add("- "@, p, '#');
}

/// The list items of rendered listable patterns are the patterns.
proof fn lemma_list_items_of_bullets(ps: Seq<Seq<char>>)
    requires
        forall|i: int| 0 <= i < ps.len() ==> listable(#[trigger] ps[i]),
    ensures
        list_items(ps.map_values(|p: Seq<char>| bullet(p))) == ps,
    decreases ps.len(),
{
    reveal_strlit("- ");
    let bs = ps.map_values(|p: Seq<char>| bullet(p));
    if ps.len() > 0 {
        assert(listable(ps[0]));
        lemma_bullet_listable(ps[0]);
        let rest = ps.drop_first();
        assert forall|i: int| 0 <= i < rest.len() implies listable(#[trigger] rest[i]) by {
            assert(rest[i] == ps[i + 1]);
        }
        lemma_list_items_of_bullets(rest);
        assert(bs.drop_first() == rest.map_values(|p: Seq<char>| bullet(p)));
        assert(bs[0] == bullet(ps[0]));
        assert(trim(bs[0]) == "- "@ + ps[0]);
        assert(starts_with(trim(bs[0]), "- "@)) by {
            assert(("- "@ + ps[0]).take(2) == "- "@);
        }
        assert(trim(bs[0]).skip(2) == ps[0]);
        assert(seq![ps[0]] + rest == ps);
    }
}

/// Joined lines read back as the same lines, when none holds a line break
/// or ends with a carriage return and the last one is not empty.
proof fn lemma_lines_of_join_open(ls: Seq<Seq<char>>)
    requires
        ls.len() > 0,
        forall|i: int| 0 <= i < ls.len() ==> lacks(#[trigger] ls[i], '\n') && no_final_cr(ls[i]),
        ls.last().len() > 0,
    ensures
        lines(join_lines(ls)) == ls,
    decreases ls.len(),
{
    assert(lacks(ls[0], '\n') && no_final_cr(ls[0]));
    if ls.len() == 1 {
        lemma_lines_from_plain(ls[0], Seq::empty(), Seq::empty());
        assert(ls[0] + Seq::<char>::empty() == ls[0]);
        assert(Seq::<char>::empty() + ls[0] == ls[0]);
        assert(seq![ls[0]] == ls);
    } else {
        lemma_join_first(ls);
        let rest = ls.drop_first();
        assert forall|i: int| 0 <= i < rest.len() implies lacks(#[trigger] rest[i], '\n')
            && no_final_cr(rest[i]) by {
            assert(rest[i] == ls[i + 1]);
        }
        assert(rest.last() == ls.last());
        lemma_lines_of_join_open(rest);
        lemma_lines_line(ls[0], join_lines(rest));
        assert(seq![ls[0]] + rest == ls);
    }
}

/// The first and last characters of joined lines.
proof fn lemma_join_bounds(ls: Seq<Seq<char>>)
    requires
        ls.len() > 0,
        ls[0].len() > 0,
        ls.last().len() > 0,
    ensures
        join_lines(ls).len() > 0,
        join_lines(ls)[0] == ls[0][0],
        join_lines(ls).last() == ls.last().last(),
    decreases ls.len(),
{
    if ls.len() >= 2 {
        lemma_join_first(ls);
        assert(join_lines(ls) == join_lines(ls.drop_last()) + seq!['\n'] + ls.last());
    }
}

/// A pattern that cannot start inside a text lacking its second character.
proof fn lemma_find_none_lacking(x: Seq<char>, p: Seq<char>)
    requires
        p.len() >= 2,
        lacks(x, p[1]),
    ensures
        find(x, p) is None,
{
    lemma_find(x, p);
    match find(x, p) {
        Some(k) => {
            assert(x.subrange(k, k + p.len())[1] == x[k + 1]);
        },
        None => {},
    }
}

/// The marker found at the start of a text.
proof fn lemma_find_at_start_of(m: Seq<char>, y: Seq<char>)
    ensures
        find(m + y, m) == Some(0int),
{
    assert((m + y).subrange(0, m.len() as int) == m);
    crate::text::lemma_find_unique(m + y, m, 0);
}

/// The body of a Patterns section rendered from no patterns: it reaches to
/// the end of the document, trims to the empty-list placeholder, and lists
/// the placeholder's text as its one item.
proof fn lemma_rendered_no_patterns(rest: Seq<char>)
    requires
        rest == "- _None yet_"@ + "\n"@,
    ensures
        find(rest, "\n## "@) is None,
        trim(rest.take(rest.len() as int)) == "- _None yet_"@,
        list_items(lines("- _None yet_"@)) == seq!["_None yet_"@],
{
    reveal_strlit("- _None yet_");
    reveal_strlit("_None yet_");
    reveal_strlit("- ");
    reveal_strlit("\n");
    reveal_strlit("\n## ");
    let p = "- _None yet_"@;
    assert(lacks(rest, '#'));
    lemma_find_none_lacking(rest, "\n## "@);
    assert(rest.take(rest.len() as int) == rest);
    assert(!is_ws(p[0]) && !is_ws(p.last()));
    lemma_trim_fixed(p);
    lemma_trim_trimmed_ws(p, '\n');
    assert(rest == p.push('\n'));
    // the placeholder as a list
    assert(lacks(p, '\n'));
    lemma_lines_from_plain(p, Seq::empty(), Seq::empty());
    assert(p + Seq::<char>::empty() == p);
    assert(Seq::<char>::empty() + p == p);
    assert(lines(p) == seq![p]);
    assert(p.take(2) == "- "@);
    assert(p.skip(2) =~= "_None yet_"@);
    assert(seq![p].drop_first() =~= Seq::<Seq<char>>::empty());
    assert(list_items(seq![p]) == seq![p.skip(2)] + list_items(Seq::<Seq<char>>::empty()));
    assert(seq![p.skip(2)] + Seq::<Seq<char>>::empty() == seq![p.skip(2)]);
}

/// Reading the patterns back from a rendered incident document gives the
/// patterns that were written; a document rendered without patterns lists
/// the placeholder's text, `_None yet_`, as its one pattern. Holds when each
/// pattern is listable (not empty, trimmed, on one line, without `#`, not
/// already starting with `- `), no `#` occurs before the Patterns section (in
/// the id, the title, the timeline summaries, the root cause and the action
/// items), and the timestamps render with RFC 3339 characters (as chrono
/// writes them).
#[verifier::spinoff_prover]
pub proof fn lemma_rendered_patterns(d: IncidentTemplateData)
    requires
        lacks(d.incident_id@, '#'),
        lacks(d.title@, '#'),
        lacks(d.root_cause@, '#'),
        timeline_clean(d),
        rfc3339_clean(Some(d.created_at@)),
        rfc3339_clean(opt_view(d.resolved_at)),
        items_without_hash(string_views(d.action_items.detect@)),
        items_without_hash(string_views(d.action_items.mitigate@)),
        items_without_hash(string_views(d.action_items.prevent@)),
        forall|i: int|
            0 <= i < d.patterns@.len() ==> listable(#[trigger] string_views(d.patterns@)[i]),
    ensures
        patterns_of(d.markdown()) == if d.patterns@.len() == 0 {
            seq!["_None yet_"@]
        } else {
            string_views(d.patterns@)
        },
{
    reveal_strlit("## ");
    reveal_strlit("Patterns");
    reveal_strlit("## Patterns");
    reveal_strlit("\n");
    reveal_strlit("\n## ");
    let ps = string_views(d.patterns@);
    let m = patterns_marker();
    let before = frontmatter(d.incident_id@, d.status, d.created_at@, opt_view(d.resolved_at))
        + heading(d.status, d.title@) + timeline_section(d.timeline_lines()) + root_cause_section(
        d.root_cause@,
    ) + actions_section(
        string_views(d.action_items.detect@),
        string_views(d.action_items.mitigate@),
        string_views(d.action_items.prevent@),
    );
    let listing = bulleted(ps);
    let rest = listing + "\n"@;
    let md = d.markdown();
    assert(patterns_section(ps) == m + rest);
    assert(md == before + (m + rest));
    lemma_before_patterns_blocks(d);
    lemma_find_at_start_of(m, rest);
    lemma_find_past_blocking(before, m + rest, m);
    assert(md.skip((before.len() + m.len()) as int) == rest);
    if ps.len() == 0 {
        assert(listing == "- _None yet_"@);
        lemma_rendered_no_patterns(rest);
        return;
    }
    // the listing
    let bs = ps.map_values(|p: Seq<char>| bullet(p));
    assert(listing == join_lines(bs));
    assert forall|i: int| 0 <= i < bs.len() implies lacks(#[trigger] bs[i], '\n') && no_final_cr(
        bs[i],
    ) && lacks(bs[i], '#') by {
        assert(listable(ps[i]));
        lemma_bullet_listable(ps[i]);
    }
    lemma_join_lacks(bs, '#');
    lemma_lacks_add(listing, "\n"@, '#');
    lemma_find_none_lacking(rest, "\n## "@);
    assert(rest.take(rest.len() as int) == rest);
    // trimming the listing
    assert(listable(ps[0]));
    assert(listable(ps[ps.len() - 1]));
    lemma_bullet_listable(ps[0]);
    lemma_bullet_listable(ps[ps.len() - 1]);
    assert(bs[0] == bullet(ps[0]));
    assert(bs.last() == bullet(ps.last()));
    lemma_join_bounds(bs);
    lemma_trim_shape(ps.last());
    assert(!is_ws(listing.last()));
    assert(!is_ws(listing[0]));
    lemma_trim_fixed(listing);
    lemma_trim_trimmed_ws(listing, '\n');
    assert(rest == listing.push('\n'));
    assert(trim(rest) == listing);
    // the items
    lemma_lines_of_join_open(bs);
    lemma_list_items_of_bullets(ps);
}

/// What a search reads of the patterns of a rendered incident document: the
/// patterns that were written, none when none were (the placeholder of an
/// empty list is not searched). Holds under the conditions of
/// `lemma_rendered_patterns`, for lists other than the single pattern
/// `_None yet_`, which renders as that placeholder.
pub proof fn lemma_rendered_searched_patterns(d: IncidentTemplateData)
    requires
        lacks(d.incident_id@, '#'),
        lacks(d.title@, '#'),
        lacks(d.root_cause@, '#'),
        timeline_clean(d),
        rfc3339_clean(Some(d.created_at@)),
        rfc3339_clean(opt_view(d.resolved_at)),
        items_without_hash(string_views(d.action_items.detect@)),
        items_without_hash(string_views(d.action_items.mitigate@)),
        items_without_hash(string_views(d.action_items.prevent@)),
        forall|i: int|
            0 <= i < d.patterns@.len() ==> listable(#[trigger] string_views(d.patterns@)[i]),
        string_views(d.patterns@) != seq!["_None yet_"@],
    ensures
        searched_patterns(d.markdown()) == string_views(d.patterns@),
{
    lemma_rendered_patterns(d);
    if d.patterns@.len() == 0 {
        assert(string_views(d.patterns@) =~= Seq::<Seq<char>>::empty());
    }
}

// ---------------------------------------------------------------------------
// Adding a timeline line to a rendered document
// ---------------------------------------------------------------------------

/// A timeline line is its own list item: it already starts with `- `.
pub(crate) proof fn lemma_entry_line_bullet(t: (i64, u32), summary: Seq<char>)
    ensures
        entry_line(t, summary).len() >= 2,
        entry_line(t, summary)[0] == '-',
        bullet(entry_line(t, summary)) == entry_line(t, summary),
{
    reveal_strlit("- ");
    let l = entry_line(t, summary);
    assert(l[0] == '-');
    assert(l[1] == ' ');
    assert(!is_ws(l[0]));
    assert(trim_start(l) == l);
    assert(l.take(2) == "- "@);
}

/// A timeline line holds no line break when its summary holds none and its
/// time renders with RFC 3339 characters.
proof fn lemma_entry_line_breakless(t: (i64, u32), summary: Seq<char>)
    requires
        rfc3339_clean(Some(t)),
        lacks(summary, '\n'),
    ensures
        lacks(entry_line(t, summary), '\n'),
{
    reveal_strlit("- ");
    reveal_strlit(" — ");
    lemma_rfc_clean_text(t);
    let r = rfc3339_of(t);
    lemma_lacks_add("- "@, r, '\n');
    lemma_lacks_add("- "@ + r, " — "@, '\n');
    lemma_lacks_add("- "@ + r + " — "@, summary, '\n');
}

/// The heading marks before the timeline list block the marker of the Root
/// Cause heading.
proof fn lemma_heading_marks_block()
    ensures
        blocks("\n# "@, "\n## Root Cause\n"@),
        blocks("\n\n## Timeline"@, "\n## Root Cause\n"@),
{
    reveal_strlit("\n## Root Cause\n");
    reveal_strlit("\n# ");
    reveal_strlit("\n\n## Timeline");
    let m = "\n## Root Cause\n"@;
    assert(m[0] == '\n' && m[1] == '#' && m[2] == '#' && m[3] == ' ' && m[4] == 'R');
    let h = "\n# "@;
    assert forall|j: int| 0 <= j < h.len() implies starts_blocked(h, m, j) by {
        if j == 0 {
            assert(mismatch_at(h, m, j, 2));
        } else {
            assert(mismatch_at(h, m, j, 0));
        }
    }
    let h2 = "\n\n## Timeline"@;
    assert forall|j: int| 0 <= j < h2.len() implies starts_blocked(h2, m, j) by {
        if j == 0 {
            assert(mismatch_at(h2, m, j, 1));
        } else if j == 1 {
            assert(mismatch_at(h2, m, j, 4));
        } else {
            assert(mismatch_at(h2, m, j, 0));
        }
    }
}

/// A rendered document up to the end of its timeline list.
spec fn rendered_lead(d: IncidentTemplateData) -> Seq<char> {
    frontmatter(d.incident_id@, d.status, d.created_at@, opt_view(d.resolved_at)) + heading(
        d.status,
        d.title@,
    ) + "## Timeline"@ + "\n"@ + bulleted(d.timeline_lines())
}

/// A rendered document from its Root Cause heading on.
spec fn rendered_rest(d: IncidentTemplateData) -> Seq<char> {
    root_cause_section(d.root_cause@) + actions_section(
        string_views(d.action_items.detect@),
        string_views(d.action_items.mitigate@),
        string_views(d.action_items.prevent@),
    ) + patterns_section(string_views(d.patterns@))
}

/// Timeline lines are their own list items.
proof fn lemma_timeline_lines_bullet(d: IncidentTemplateData)
    ensures
        d.timeline_lines().map_values(|l: Seq<char>| bullet(l)) == d.timeline_lines(),
        forall|i: int| 0 <= i < d.timeline_lines().len() ==> (#[trigger] d.timeline_lines()[i]).len() > 0,
{
    let ls = d.timeline_lines();
    let bs = ls.map_values(|l: Seq<char>| bullet(l));
    assert forall|i: int| 0 <= i < ls.len() implies #[trigger] bs[i] == ls[i] && ls[i].len() > 0 by {
        let t = d.timeline@[i];
        assert(ls[i] == entry_line(t.timestamp@, t.summary@));
        lemma_entry_line_bullet(t.timestamp@, t.summary@);
    }
    assert(bs =~= ls);
}

/// A rendered document: its lead, a blank line, its rest.
proof fn lemma_markdown_split(d: IncidentTemplateData)
    ensures
        d.markdown() == rendered_lead(d) + "\n\n"@ + rendered_rest(d),
{
    let ls = d.timeline_lines();
    let fm = frontmatter(d.incident_id@, d.status, d.created_at@, opt_view(d.resolved_at));
    let hd = heading(d.status, d.title@);
    let tail = actions_section(
        string_views(d.action_items.detect@),
        string_views(d.action_items.mitigate@),
        string_views(d.action_items.prevent@),
    ) + patterns_section(string_views(d.patterns@));
    let rc = root_cause_section(d.root_cause@);
    assert(d.markdown() == fm + hd + timeline_section(ls) + rc + tail);
    assert(timeline_section(ls) == "## Timeline"@ + "\n"@ + bulleted(ls) + "\n\n"@);
    assert(d.markdown() =~= rendered_lead(d) + "\n\n"@ + rendered_rest(d));
}

/// A text without line breaks blocks the Root Cause marker, which begins
/// with one.
proof fn lemma_break_free_blocks(h: Seq<char>)
    requires
        lacks(h, '\n'),
    ensures
        blocks(h, "\n## Root Cause\n"@),
{
    reveal_strlit("\n## Root Cause\n");
    let m = "\n## Root Cause\n"@;
    assert(m[0] == '\n');
    assert forall|j: int| 0 <= j < h.len() implies starts_blocked(h, m, j) by {
        assert(mismatch_at(h, m, j, 0));
    }
}

/// A line break and a line that does not begin with `##` block the Root
/// Cause marker.
proof fn lemma_line_blocks(l: Seq<char>)
    requires
        lacks(l, '\n'),
        l.len() >= 2,
        l[0] != '#' || l[1] != '#',
    ensures
        blocks("\n"@ + l, "\n## Root Cause\n"@),
{
    reveal_strlit("\n## Root Cause\n");
    reveal_strlit("\n");
    let m = "\n## Root Cause\n"@;
    let h = "\n"@ + l;
    assert(m[0] == '\n' && m[1] == '#' && m[2] == '#');
    assert forall|j: int| 0 <= j < h.len() implies starts_blocked(h, m, j) by {
        if j == 0 {
            if l[0] != '#' {
                assert(h[1] == l[0]);
                assert(mismatch_at(h, m, j, 1));
            } else {
                assert(h[2] == l[1]);
                assert(mismatch_at(h, m, j, 2));
            }
        } else {
            assert(h[j] == l[j - 1]);
            assert(mismatch_at(h, m, j, 0));
        }
    }
}

/// A line break and lines joined, none of which begins with `#`, block the
/// Root Cause marker.
proof fn lemma_joined_lines_block(ls: Seq<Seq<char>>)
    requires
        ls.len() > 0,
        forall|i: int|
            0 <= i < ls.len() ==> lacks(#[trigger] ls[i], '\n') && ls[i].len() >= 2 && ls[i][0]
                != '#',
    ensures
        blocks("\n"@ + join_lines(ls), "\n## Root Cause\n"@),
    decreases ls.len(),
{
    reveal_strlit("\n");
    assert(lacks(ls[0], '\n') && ls[0].len() >= 2 && ls[0][0] != '#');
    lemma_line_blocks(ls[0]);
    if ls.len() >= 2 {
        lemma_join_first(ls);
        let rest = ls.drop_first();
        assert forall|i: int| 0 <= i < rest.len() implies lacks(#[trigger] rest[i], '\n')
            && rest[i].len() >= 2 && rest[i][0] != '#' by {
            assert(rest[i] == ls[i + 1]);
        }
        lemma_joined_lines_block(rest);
        lemma_blocks_add("\n"@ + ls[0], "\n"@ + join_lines(rest), "\n## Root Cause\n"@);
        assert("\n"@ + join_lines(ls) =~= ("\n"@ + ls[0]) + ("\n"@ + join_lines(rest)));
    } else {
        assert(join_lines(ls) == ls[0]);
    }
}

/// The frontmatter, without its final line break, blocks the Root Cause
/// marker.
#[verifier::spinoff_prover]
proof fn lemma_frontmatter_blocks_root(
    incident_id: Seq<char>,
    status: IncidentStatus,
    created_at: (i64, u32),
    resolved_at: Option<(i64, u32)>,
)
    requires
        lacks(incident_id, '\n'),
        rfc3339_clean(Some(created_at)),
        rfc3339_clean(resolved_at),
    ensures
        frontmatter(incident_id, status, created_at, resolved_at).len() > 0,
        frontmatter(incident_id, status, created_at, resolved_at).last() == '\n',
        blocks(
            frontmatter(incident_id, status, created_at, resolved_at).drop_last(),
            "\n## Root Cause\n"@,
        ),
{
    reveal_strlit("---");
    reveal_strlit("incident_id: ");
    reveal_strlit("status: ");
    reveal_strlit("created_at: ");
    reveal_strlit("resolved_at: ");
    reveal_strlit("open");
    reveal_strlit("resolved");
    reveal_strlit("\n");
    let m = "\n## Root Cause\n"@;
    let nl = "\n"@;
    assert(nl == seq!['\n']);
    lemma_frontmatter_lines(incident_id, status, created_at, resolved_at);
    lemma_rfc_clean_text(created_at);
    lemma_resolved_text_clean(resolved_at);
    let l2 = "incident_id: "@ + incident_id;
    let l3 = "status: "@ + status_text(status);
    let l4 = "created_at: "@ + rfc3339_of(created_at);
    let l5 = "resolved_at: "@ + resolved_text(resolved_at);
    lemma_lacks_add("incident_id: "@, incident_id, '\n');
    lemma_lacks_add("status: "@, status_text(status), '\n');
    lemma_lacks_add("created_at: "@, rfc3339_of(created_at), '\n');
    lemma_lacks_add("resolved_at: "@, resolved_text(resolved_at), '\n');
    lemma_break_free_blocks("---"@);
    lemma_line_blocks(l2);
    lemma_line_blocks(l3);
    lemma_line_blocks(l4);
    lemma_line_blocks(l5);
    lemma_line_blocks("---"@);
    lemma_blocks_add("---"@, nl + l2, m);
    lemma_blocks_add("---"@ + (nl + l2), nl + l3, m);
    lemma_blocks_add("---"@ + (nl + l2) + (nl + l3), nl + l4, m);
    lemma_blocks_add("---"@ + (nl + l2) + (nl + l3) + (nl + l4), nl + l5, m);
    lemma_blocks_add("---"@ + (nl + l2) + (nl + l3) + (nl + l4) + (nl + l5), nl + "---"@, m);
    let fm = frontmatter(incident_id, status, created_at, resolved_at);
    assert(fm.drop_last() =~= "---"@ + (nl + l2) + (nl + l3) + (nl + l4) + (nl + l5) + (nl
        + "---"@));
}

/// The lead of a rendered document blocks the Root Cause marker and does
/// not end with a line break, when the id, the title and the timeline
/// summaries hold no line break and the timestamps render with RFC 3339
/// characters.
#[verifier::spinoff_prover]
proof fn lemma_lead_blocks(d: IncidentTemplateData)
    requires
        lacks(d.incident_id@, '\n'),
        lacks(d.title@, '\n'),
        forall|i: int|
            0 <= i < d.timeline@.len() ==> lacks((#[trigger] d.timeline@[i]).summary@, '\n')
                && rfc3339_chars(d.timeline@[i].timestamp@),
        rfc3339_clean(Some(d.created_at@)),
        rfc3339_clean(opt_view(d.resolved_at)),
    ensures
        blocks(rendered_lead(d), "\n## Root Cause\n"@),
        rendered_lead(d).len() > 0,
        rendered_lead(d).last() != '\n',
{
    reveal_strlit("## Timeline");
    reveal_strlit("\n\n## Timeline");
    reveal_strlit("# ");
    reveal_strlit("\n");
    reveal_strlit("\n\n");
    reveal_strlit(" ");
    reveal_strlit("- _None yet_");
    let m = "\n## Root Cause\n"@;
    let nl = "\n"@;
    // the timeline list
    let ls = d.timeline_lines();
    let listing = bulleted(ls);
    if ls.len() == 0 {
        let ph = "- _None yet_"@;
        assert(listing == ph);
        assert(ph[0] == '-' && ph.last() == '_');
        lemma_line_blocks(ph);
    } else {
        lemma_timeline_lines_bullet(d);
        assert(listing == join_lines(ls));
        assert forall|i: int| 0 <= i < ls.len() implies lacks(#[trigger] ls[i], '\n')
            && ls[i].len() >= 2 && ls[i][0] != '#' by {
            let t = d.timeline@[i];
            assert(lacks(t.summary@, '\n') && rfc3339_chars(t.timestamp@));
            assert(ls[i] == entry_line(t.timestamp@, t.summary@));
            lemma_entry_line_bullet(t.timestamp@, t.summary@);
            lemma_entry_line_breakless(t.timestamp@, t.summary@);
        }
        lemma_joined_lines_block(ls);
        lemma_join_bounds(ls);
        assert(ls.last() == ls[ls.len() - 1]);
        assert(ls.last().last() != '\n');
    }
    assert((nl + listing).last() == listing.last());
    // the frontmatter, without its final line break
    let fm = frontmatter(d.incident_id@, d.status, d.created_at@, opt_view(d.resolved_at));
    lemma_frontmatter_blocks_root(d.incident_id@, d.status, d.created_at@, opt_view(d.resolved_at));
    let fm0 = fm.drop_last();
    assert(fm =~= fm0 + nl);
    // the title heading line
    lemma_emoji(d.status);
    let h = "# "@ + emoji_text(d.status) + " "@ + d.title@;
    assert(h[0] == '#' && h[1] == ' ');
    assert(lacks("# "@ + emoji_text(d.status) + " "@, '\n'));
    lemma_lacks_add("# "@ + emoji_text(d.status) + " "@, d.title@, '\n');
    lemma_line_blocks(h);
    lemma_heading_marks_block();
    // all of it
    lemma_blocks_add(fm0, nl + h, m);
    lemma_blocks_add(fm0 + (nl + h), "\n\n## Timeline"@, m);
    lemma_blocks_add(fm0 + (nl + h) + "\n\n## Timeline"@, nl + listing, m);
    assert(heading(d.status, d.title@) =~= h + "\n\n"@);
    assert(rendered_lead(d) =~= fm0 + (nl + h) + "\n\n## Timeline"@ + (nl + listing));
}

/// Adding a line before the Root Cause heading of text laid out as a lead
/// that blocks the heading's marker, a blank line, and the heading with what
/// follows it.
proof fn lemma_appended_after_lead(p: Seq<char>, rest: Seq<char>, line: Seq<char>)
    requires
        blocks(p, "\n## Root Cause\n"@),
        p.len() > 0,
        p.last() != '\n',
        starts_with(rest, "## Root Cause\n"@),
    ensures
        appended(p + "\n\n"@ + rest, line) == p + "\n"@ + line + "\n\n"@ + rest,
{
    reveal_strlit("\n## Root Cause\n");
    reveal_strlit("## Root Cause\n");
    reveal_strlit("\n");
    reveal_strlit("\n\n");
    let m = "\n## Root Cause\n"@;
    let md = p + "\n\n"@ + rest;
    let z = "\n\n"@ + rest;
    assert(md == p + z);
    assert(rest.take(14) == "## Root Cause\n"@);
    assert(z.subrange(1, 16) =~= m) by {
        assert forall|o: int| 0 <= o < 15 implies z.subrange(1, 16)[o] == m[o] by {
            if o > 0 {
                assert(z[1 + o] == rest[o - 1]);
                assert(rest.take(14)[o - 1] == rest[o - 1]);
            }
        }
    }
    assert(match_at(z, m, 1));
    assert(!match_at(z, m, 0)) by {
        assert(z.subrange(0, 15)[1] == z[1]);
    }
    lemma_find_unique(z, m, 1);
    lemma_find_past_blocking(p, z, m);
    let idx = p.len() + 1;
    assert(find(md, m) == Some(idx as int));
    assert(md.take(idx as int) =~= p.push('\n'));
    assert(md.skip(idx as int) =~= "\n"@ + rest);
    assert(p.push('\n').drop_last() == p);
    assert(trim_end_char(p.push('\n'), '\n') == trim_end_char(p, '\n'));
    assert(trim_end_char(p, '\n') == p);
    assert(appended(md, line) == p + "\n"@ + line + "\n"@ + ("\n"@ + rest));
    assert(p + "\n"@ + line + "\n"@ + ("\n"@ + rest) =~= p + "\n"@ + line + "\n\n"@ + rest);
}

/// Adding a timeline line to a rendered incident document gives the
/// document rendered with the entry added at the end of its timeline. Holds
/// when the timeline already has an entry (an empty timeline renders as a
/// placeholder, which stays), the id, the title and the summaries hold no
/// line break, and the timestamps render with RFC 3339 characters (as chrono
/// writes them).
pub proof fn lemma_append_to_rendered(
    d: IncidentTemplateData,
    e: TimelineEntry,
    d2: IncidentTemplateData,
)
    requires
        d.timeline@.len() > 0,
        lacks(d.incident_id@, '\n'),
        lacks(d.title@, '\n'),
        forall|i: int|
            0 <= i < d.timeline@.len() ==> lacks((#[trigger] d.timeline@[i]).summary@, '\n')
                && rfc3339_chars(d.timeline@[i].timestamp@),
        rfc3339_clean(Some(d.created_at@)),
        rfc3339_clean(opt_view(d.resolved_at)),
        d2.incident_id == d.incident_id,
        d2.title == d.title,
        d2.status == d.status,
        d2.created_at == d.created_at,
        d2.resolved_at == d.resolved_at,
        d2.root_cause == d.root_cause,
        d2.action_items == d.action_items,
        d2.patterns == d.patterns,
        d2.timeline@ == d.timeline@.push(e),
    ensures
        appended(d.markdown(), e.line()) == d2.markdown(),
{
    reveal_strlit("## Root Cause");
    reveal_strlit("## Root Cause\n");
    reveal_strlit("\n");
    let line = e.line();
    lemma_markdown_split(d);
    lemma_markdown_split(d2);
    lemma_lead_blocks(d);
    let rest = rendered_rest(d);
    assert(rest.take(14) =~= "## Root Cause\n"@);
    lemma_appended_after_lead(rendered_lead(d), rest, line);
    // the lead with the line added
    let ls = d.timeline_lines();
    let ls2 = d2.timeline_lines();
    assert(ls2 =~= ls.push(line));
    assert(ls.push(line).drop_last() == ls);
    lemma_timeline_lines_bullet(d);
    lemma_timeline_lines_bullet(d2);
    assert(bulleted(ls) == join_lines(ls));
    assert(bulleted(ls2) == join_lines(ls2));
    assert(join_lines(ls2) == join_lines(ls) + seq!['\n'] + line);
    assert(rendered_lead(d2) =~= rendered_lead(d) + "\n"@ + line);
    assert(rendered_rest(d2) == rest);
}

/// The headings before the Root Cause section block its marker.
proof fn lemma_headings_block_root()
    ensures
        blocks("# "@, root_marker()),
        blocks("## Timeline"@, root_marker()),
{
    reveal_strlit("## ");
    reveal_strlit("Root Cause");
    reveal_strlit("\n");
    reveal_strlit("# ");
    reveal_strlit("## Timeline");
    let m = root_marker();
    assert(m[0] == '#' && m[1] == '#' && m[2] == ' ' && m[3] == 'R');
    let h = "# "@;
    assert forall|j: int| 0 <= j < h.len() implies starts_blocked(h, m, j) by {
        if j == 0 {
            assert(mismatch_at(h, m, j, 1));
        } else {
            assert(mismatch_at(h, m, j, 0));
        }
    }
    let h2 = "## Timeline"@;
    assert forall|j: int| 0 <= j < h2.len() implies starts_blocked(h2, m, j) by {
        if j == 0 {
            assert(mismatch_at(h2, m, j, 3));
        } else if j == 1 {
            assert(mismatch_at(h2, m, j, 1));
        } else {
            assert(mismatch_at(h2, m, j, 0));
        }
    }
}

/// A rendered document up to its Root Cause heading.
spec fn rendered_front(d: IncidentTemplateData) -> Seq<char> {
    frontmatter(d.incident_id@, d.status, d.created_at@, opt_view(d.resolved_at)) + heading(
        d.status,
        d.title@,
    ) + timeline_section(d.timeline_lines())
}

/// The lead of a rendered document, up to the end of its timeline list,
/// blocks a section marker that starts with `#` and is blocked by the
/// headings there.
#[verifier::spinoff_prover]
proof fn lemma_lead_blocks_marker(d: IncidentTemplateData, m: Seq<char>)
    requires
        m.len() > 0,
        m[0] == '#',
        blocks("# "@, m),
        blocks("## Timeline"@, m),
        lacks(d.incident_id@, '#'),
        lacks(d.title@, '#'),
        timeline_clean(d),
        rfc3339_clean(Some(d.created_at@)),
        rfc3339_clean(opt_view(d.resolved_at)),
    ensures
        blocks(rendered_lead(d), m),
{
    reveal_strlit("\n");
    let fm = frontmatter(d.incident_id@, d.status, d.created_at@, opt_view(d.resolved_at));
    lemma_frontmatter_no_hash(d.incident_id@, d.status, d.created_at@, opt_view(d.resolved_at));
    lemma_blocks_plain(fm, m);
    lemma_heading_parts(d.status, d.title@);
    let hdr = seq![emoji_text(d.status)[0]] + " "@ + d.title@ + "\n\n"@;
    lemma_blocks_add(fm, "# "@, m);
    lemma_blocks_plain_add(fm + "# "@, hdr, m);
    lemma_timeline_block_no_hash(d);
    let tsr = "\n"@ + bulleted(d.timeline_lines());
    lemma_lacks_add("\n"@, bulleted(d.timeline_lines()), '#');
    lemma_blocks_add(fm + "# "@ + hdr, "## Timeline"@, m);
    lemma_blocks_plain_add(fm + "# "@ + hdr + "## Timeline"@, tsr, m);
    assert(rendered_lead(d) =~= fm + "# "@ + hdr + "## Timeline"@ + tsr);
}

/// The text of a rendered document before its Root Cause heading blocks a
/// section marker that starts with `#` and is blocked by the headings there.
proof fn lemma_front_blocks(d: IncidentTemplateData, m: Seq<char>)
    requires
        m.len() > 0,
        m[0] == '#',
        blocks("# "@, m),
        blocks("## Timeline"@, m),
        lacks(d.incident_id@, '#'),
        lacks(d.title@, '#'),
        timeline_clean(d),
        rfc3339_clean(Some(d.created_at@)),
        rfc3339_clean(opt_view(d.resolved_at)),
    ensures
        blocks(rendered_front(d), m),
{
    reveal_strlit("\n");
    reveal_strlit("\n\n");
    lemma_lead_blocks_marker(d, m);
    lemma_blocks_plain_add(rendered_lead(d), "\n\n"@, m);
    assert(rendered_front(d) =~= rendered_lead(d) + "\n\n"@);
}

/// A section is read the same from a text and from that text behind a
/// prefix that blocks the section's marker.
proof fn lemma_section_behind_blocking(a: Seq<char>, rest: Seq<char>, name: Seq<char>)
    requires
        blocks(a, "## "@ + name + "\n"@),
    ensures
        section_text(a + rest, name) == section_text(rest, name),
{
    let m = "## "@ + name + "\n"@;
    lemma_find_past_blocking(a, rest, m);
    match find(rest, m) {
        Some(k) => {
            lemma_find(rest, m);
            assert((a + rest).skip(a.len() + k + m.len()) =~= rest.skip(k + m.len()));
        },
        None => {},
    }
}

/// A rendered document with a timeline line added: its lead, the line,
/// then the Root Cause heading and what follows it.
proof fn lemma_appended_layout(d: IncidentTemplateData, line: Seq<char>)
    requires
        lacks(d.incident_id@, '\n'),
        lacks(d.title@, '\n'),
        forall|i: int|
            0 <= i < d.timeline@.len() ==> lacks((#[trigger] d.timeline@[i]).summary@, '\n')
                && rfc3339_chars(d.timeline@[i].timestamp@),
        rfc3339_clean(Some(d.created_at@)),
        rfc3339_clean(opt_view(d.resolved_at)),
    ensures
        appended(d.markdown(), line) == rendered_lead(d) + "\n"@ + line + "\n\n"@ + rendered_rest(
            d,
        ),
{
    reveal_strlit("## Root Cause");
    reveal_strlit("## Root Cause\n");
    reveal_strlit("\n");
    lemma_markdown_split(d);
    lemma_lead_blocks(d);
    let rest = rendered_rest(d);
    assert(rest.take(14) =~= "## Root Cause\n"@);
    lemma_appended_after_lead(rendered_lead(d), rest, line);
}

/// Adding a timeline line to a rendered incident document keeps its title:
/// the first title heading still reads the title that was written. Holds
/// when the id, the title and the timeline summaries hold no line break, the
/// title does not end with a carriage return, and the timestamps render with
/// RFC 3339 characters (as chrono writes them).
pub proof fn lemma_append_keeps_title(d: IncidentTemplateData, line: Seq<char>)
    requires
        lacks(d.incident_id@, '\n'),
        lacks(d.title@, '\n'),
        no_final_cr(d.title@),
        forall|i: int|
            0 <= i < d.timeline@.len() ==> lacks((#[trigger] d.timeline@[i]).summary@, '\n')
                && rfc3339_chars(d.timeline@[i].timestamp@),
        rfc3339_clean(Some(d.created_at@)),
        rfc3339_clean(opt_view(d.resolved_at)),
    ensures
        first_title(lines(appended(d.markdown(), line))) == Some(d.title@),
{
    lemma_appended_layout(d, line);
    let fm = frontmatter(d.incident_id@, d.status, d.created_at@, opt_view(d.resolved_at));
    let hd = heading(d.status, d.title@);
    let tail = "## Timeline"@ + "\n"@ + bulleted(d.timeline_lines()) + "\n"@ + line + "\n\n"@
        + rendered_rest(d);
    assert(appended(d.markdown(), line) =~= fm + hd + tail);
    lemma_title_after_frontmatter(
        d.incident_id@,
        d.status,
        d.created_at@,
        opt_view(d.resolved_at),
        d.title@,
        tail,
    );
}

/// Adding a timeline line leaves what a search reads of a rendered incident
/// document: its title, its Root Cause and Patterns sections, and so the text
/// its tokens are drawn from. Timeline text is never searched. Holds when no
/// `#` occurs before the Root Cause section (in the id, the title and the
/// timeline summaries, the new one included), the id, the title and the
/// existing summaries hold no line break, the title does not end with a
/// carriage return, and the timestamps render with RFC 3339 characters (as
/// chrono writes them).
#[verifier::spinoff_prover]
pub proof fn lemma_append_not_searched(d: IncidentTemplateData, e: TimelineEntry)
    requires
        lacks(d.incident_id@, '#'),
        lacks(d.incident_id@, '\n'),
        lacks(d.title@, '#'),
        lacks(d.title@, '\n'),
        no_final_cr(d.title@),
        timeline_clean(d),
        forall|i: int|
            0 <= i < d.timeline@.len() ==> lacks((#[trigger] d.timeline@[i]).summary@, '\n'),
        lacks(e.summary@, '#'),
        rfc3339_chars(e.timestamp@),
        rfc3339_clean(Some(d.created_at@)),
        rfc3339_clean(opt_view(d.resolved_at)),
    ensures
        first_title(lines(appended(d.markdown(), e.line()))) == Some(d.title@),
        section_text(appended(d.markdown(), e.line()), "Root Cause"@) == section_text(
            d.markdown(),
            "Root Cause"@,
        ),
        patterns_of(appended(d.markdown(), e.line())) == patterns_of(d.markdown()),
        corpus_of(appended(d.markdown(), e.line())) == corpus_of(d.markdown()),
{
    reveal_strlit("## ");
    reveal_strlit("Root Cause");
    reveal_strlit("Patterns");
    reveal_strlit("\n");
    reveal_strlit("\n\n");
    reveal_strlit("- ");
    reveal_strlit(" — ");
    let line = e.line();
    assert forall|i: int| 0 <= i < d.timeline@.len() implies lacks(
        (#[trigger] d.timeline@[i]).summary@,
        '\n',
    ) && rfc3339_chars(d.timeline@[i].timestamp@) by {
        assert(lacks(d.timeline@[i].summary@, '#') && rfc3339_chars(d.timeline@[i].timestamp@));
    }
    lemma_append_keeps_title(d, line);
    lemma_rendered_title(d);
    lemma_appended_layout(d, line);
    lemma_markdown_split(d);
    // the added line holds no `#`
    lemma_rfc_no_hash(e.timestamp@);
    lemma_lacks_add("- "@, rfc3339_of(e.timestamp@), '#');
    lemma_lacks_add("- "@ + rfc3339_of(e.timestamp@), " — "@, '#');
    lemma_lacks_add("- "@ + rfc3339_of(e.timestamp@) + " — "@, e.summary@, '#');
    let gap = "\n"@ + line + "\n\n"@;
    lemma_lacks_add("\n"@, line, '#');
    lemma_lacks_add("\n"@ + line, "\n\n"@, '#');
    let lead = rendered_lead(d);
    let rest = rendered_rest(d);
    assert(appended(d.markdown(), line) =~= (lead + gap) + rest);
    assert(d.markdown() =~= (lead + "\n\n"@) + rest);
    lemma_headings_block_root();
    lemma_headings_block();
    assert(root_marker()[0] == '#');
    assert(patterns_marker()[0] == '#');
    lemma_lead_blocks_marker(d, root_marker());
    lemma_lead_blocks_marker(d, patterns_marker());
    lemma_blocks_plain_add(lead, gap, root_marker());
    lemma_blocks_plain_add(lead, gap, patterns_marker());
    lemma_blocks_plain_add(lead, "\n\n"@, root_marker());
    lemma_blocks_plain_add(lead, "\n\n"@, patterns_marker());
    lemma_section_behind_blocking(lead + gap, rest, "Root Cause"@);
    lemma_section_behind_blocking(lead + "\n\n"@, rest, "Root Cause"@);
    lemma_section_behind_blocking(lead + gap, rest, "Patterns"@);
    lemma_section_behind_blocking(lead + "\n\n"@, rest, "Patterns"@);
}

/// Changing the status of a rendered incident document leaves what a search
/// reads of it: its title, its Root Cause and Patterns sections, and so the
/// text its tokens are drawn from. Holds under the conditions of
/// `lemma_status_update_of_rendered`, with no `#` in the id, the title and
/// the timeline summaries, and a new resolution time that renders with RFC
/// 3339 characters (as chrono writes it).
#[verifier::spinoff_prover]
pub proof fn lemma_status_update_not_searched(d: IncidentTemplateData, d2: IncidentTemplateData)
    requires
        one_line(d.incident_id@),
        one_line(d.title@),
        lacks(d.incident_id@, '#'),
        lacks(d.title@, '#'),
        lacks(trim(d.root_cause@), '\n'),
        !starts_with(trim(d.root_cause@), "status: "@),
        !starts_with(trim(d.root_cause@), "resolved_at: "@),
        !starts_with(trim(d.root_cause@), "# "@),
        timeline_clean(d),
        forall|i: int|
            0 <= i < d.timeline@.len() ==> one_line((#[trigger] d.timeline@[i]).summary@),
        items_on_one_line(string_views(d.action_items.detect@)),
        items_on_one_line(string_views(d.action_items.mitigate@)),
        items_on_one_line(string_views(d.action_items.prevent@)),
        items_on_one_line(string_views(d.patterns@)),
        rfc3339_clean(Some(d.created_at@)),
        rfc3339_clean(opt_view(d.resolved_at)),
        rfc3339_clean(opt_view(d2.resolved_at)),
        d2.incident_id == d.incident_id,
        d2.title == d.title,
        d2.created_at == d.created_at,
        d2.root_cause == d.root_cause,
        d2.timeline == d.timeline,
        d2.action_items == d.action_items,
        d2.patterns == d.patterns,
    ensures
        first_title(lines(status_updated(d.markdown(), d2.status, opt_view(d2.resolved_at))))
            == Some(d.title@),
        section_text(status_updated(d.markdown(), d2.status, opt_view(d2.resolved_at)), "Root Cause"@)
            == section_text(d.markdown(), "Root Cause"@),
        patterns_of(status_updated(d.markdown(), d2.status, opt_view(d2.resolved_at)))
            == patterns_of(d.markdown()),
        corpus_of(status_updated(d.markdown(), d2.status, opt_view(d2.resolved_at))) == corpus_of(
            d.markdown(),
        ),
{
    reveal_strlit("## ");
    reveal_strlit("Root Cause");
    reveal_strlit("Patterns");
    reveal_strlit("\n");
    assert forall|i: int| 0 <= i < d.timeline@.len() implies one_line(
        (#[trigger] d.timeline@[i]).summary@,
    ) && rfc3339_chars(d.timeline@[i].timestamp@) by {
        assert(lacks(d.timeline@[i].summary@, '#') && rfc3339_chars(d.timeline@[i].timestamp@));
    }
    lemma_status_update_of_rendered(d, d2);
    assert(d2.timeline_lines() =~= d.timeline_lines());
    assert(timeline_clean(d2));
    lemma_rendered_title(d);
    lemma_rendered_title(d2);
    let rest = rendered_rest(d);
    assert(rendered_rest(d2) == rest);
    assert(d.markdown() =~= rendered_front(d) + rest);
    assert(d2.markdown() =~= rendered_front(d2) + rest);
    lemma_headings_block_root();
    lemma_headings_block();
    assert(root_marker()[0] == '#');
    assert(patterns_marker()[0] == '#');
    lemma_front_blocks(d, root_marker());
    lemma_front_blocks(d2, root_marker());
    lemma_front_blocks(d, patterns_marker());
    lemma_front_blocks(d2, patterns_marker());
    lemma_section_behind_blocking(rendered_front(d), rest, "Root Cause"@);
    lemma_section_behind_blocking(rendered_front(d2), rest, "Root Cause"@);
    lemma_section_behind_blocking(rendered_front(d), rest, "Patterns"@);
    lemma_section_behind_blocking(rendered_front(d2), rest, "Patterns"@);
}

/// Resolving a rendered incident gives the document rendered resolved: with
/// status `resolved`, the resolution time, and, when a resolution summary
/// that is not blank is given, a `Resolved: <summary>` line at the end of its
/// timeline. Holds under the conditions of `lemma_status_update_of_rendered`
/// and `lemma_append_to_rendered`, for a resolution time that renders with
/// RFC 3339 characters (as chrono writes it).
#[verifier::spinoff_prover]
pub proof fn lemma_resolve_rendered(
    d: IncidentTemplateData,
    resolved_at: (i64, u32),
    summary: Option<Seq<char>>,
    d3: IncidentTemplateData,
)
    requires
        d.timeline@.len() > 0,
        one_line(d.incident_id@),
        one_line(d.title@),
        lacks(d.incident_id@, '#'),
        lacks(d.title@, '#'),
        lacks(trim(d.root_cause@), '\n'),
        !starts_with(trim(d.root_cause@), "status: "@),
        !starts_with(trim(d.root_cause@), "resolved_at: "@),
        !starts_with(trim(d.root_cause@), "# "@),
        timeline_clean(d),
        forall|i: int|
            0 <= i < d.timeline@.len() ==> one_line((#[trigger] d.timeline@[i]).summary@),
        items_on_one_line(string_views(d.action_items.detect@)),
        items_on_one_line(string_views(d.action_items.mitigate@)),
        items_on_one_line(string_views(d.action_items.prevent@)),
        items_on_one_line(string_views(d.patterns@)),
        rfc3339_clean(Some(d.created_at@)),
        rfc3339_clean(opt_view(d.resolved_at)),
        rfc3339_chars(resolved_at),
        d3.incident_id == d.incident_id,
        d3.title == d.title,
        d3.status == IncidentStatus::Resolved,
        d3.created_at == d.created_at,
        opt_view(d3.resolved_at) == Some(resolved_at),
        d3.root_cause == d.root_cause,
        d3.action_items == d.action_items,
        d3.patterns == d.patterns,
        match summary {
            Some(s) => if trim(s).len() > 0 {
                &&& d3.timeline@ == d.timeline@.push(d3.timeline@.last())
                &&& d3.timeline@.last().timestamp@ == resolved_at
                &&& d3.timeline@.last().summary@ == "Resolved: "@ + trim(s)
            } else {
                d3.timeline == d.timeline
            },
            None => d3.timeline == d.timeline,
        },
    ensures
        resolved_document(d.markdown(), resolved_at, summary) == d3.markdown(),
{
    assert forall|i: int| 0 <= i < d.timeline@.len() implies one_line(
        (#[trigger] d.timeline@[i]).summary@,
    ) && rfc3339_chars(d.timeline@[i].timestamp@) by {
        assert(lacks(d.timeline@[i].summary@, '#') && rfc3339_chars(d.timeline@[i].timestamp@));
    }
    let dm = IncidentTemplateData {
        incident_id: d.incident_id,
        title: d.title,
        status: IncidentStatus::Resolved,
        created_at: d.created_at,
        resolved_at: d3.resolved_at,
        root_cause: d.root_cause,
        timeline: d.timeline,
        action_items: d.action_items,
        patterns: d.patterns,
    };
    lemma_status_update_of_rendered(d, dm);
    let updated = status_updated(d.markdown(), IncidentStatus::Resolved, Some(resolved_at));
    assert(updated == dm.markdown());
    match summary {
        Some(s) => {
            if trim(s).len() > 0 {
                let e = d3.timeline@.last();
                assert(forall|i: int|
                    0 <= i < dm.timeline@.len() ==> lacks(
                        (#[trigger] dm.timeline@[i]).summary@,
                        '\n',
                    ));
                lemma_append_to_rendered(dm, e, d3);
                assert(e.line() == entry_line(resolved_at, "Resolved: "@ + trim(s)));
            } else {
                assert(d3.timeline_lines() =~= dm.timeline_lines());
                assert(d3.markdown() == dm.markdown());
            }
        },
        None => {
            assert(d3.timeline_lines() =~= dm.timeline_lines());
            assert(d3.markdown() == dm.markdown());
        },
    }
}

/// Changing the status of a rendered incident document keeps its title.
/// Holds under the conditions of `lemma_status_update_of_rendered` (no `#`
/// needed), for a new resolution time that renders with RFC 3339 characters
/// (as chrono writes it).
pub proof fn lemma_rendered_status_update_keeps_title(
    d: IncidentTemplateData,
    status: IncidentStatus,
    resolved_at: Option<Timestamp>,
)
    requires
        one_line(d.incident_id@),
        one_line(d.title@),
        lacks(trim(d.root_cause@), '\n'),
        !starts_with(trim(d.root_cause@), "status: "@),
        !starts_with(trim(d.root_cause@), "resolved_at: "@),
        !starts_with(trim(d.root_cause@), "# "@),
        forall|i: int|
            0 <= i < d.timeline@.len() ==> one_line((#[trigger] d.timeline@[i]).summary@)
                && rfc3339_chars(d.timeline@[i].timestamp@),
        items_on_one_line(string_views(d.action_items.detect@)),
        items_on_one_line(string_views(d.action_items.mitigate@)),
        items_on_one_line(string_views(d.action_items.prevent@)),
        items_on_one_line(string_views(d.patterns@)),
        rfc3339_clean(Some(d.created_at@)),
        rfc3339_clean(opt_view(d.resolved_at)),
        rfc3339_clean(opt_view(resolved_at)),
    ensures
        first_title(lines(status_updated(d.markdown(), status, opt_view(resolved_at)))) == Some(
            d.title@,
        ),
{
    let d2 = IncidentTemplateData {
        incident_id: d.incident_id,
        title: d.title,
        status: status,
        created_at: d.created_at,
        resolved_at: resolved_at,
        root_cause: d.root_cause,
        timeline: d.timeline,
        action_items: d.action_items,
        patterns: d.patterns,
    };
    lemma_status_update_of_rendered(d, d2);
    lemma_rendered_title(d2);
}

} // verus!

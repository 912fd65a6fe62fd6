//! What a status change does to a rendered incident document: it is the
//! document rendered with the new status and resolution time.

use vstd::prelude::*;
use crate::properties::{
    lemma_emoji, lemma_first_char, lemma_frontmatter_lines, lemma_h1_of_heading,
    lemma_lacks_add, lemma_not_heading, lemma_resolved_text_clean, rfc3339_chars,
    rfc3339_clean,
};
use crate::templates::{
    actions_section, bullet, bulleted, emoji_text, frontmatter, heading, opt_view,
    patterns_section, resolved_text, root_cause_section, status_text, status_updated,
    subsection, timeline_section, updated_line, IncidentStatus, IncidentTemplateData,
};
use crate::text::{
    is_ws, join_lines, lacks, lemma_lines_line, lemma_lines_of_joined, lines,
    lines_from, no_final_cr, starts_with, string_views, strip_cr, trim, trim_start,
};
use crate::timestamp::rfc3339_of;

verus! {

// ---------------------------------------------------------------------------
// Rewriting text line by line
// ---------------------------------------------------------------------------

/// A text with each of its lines changed as a status change changes it, each
/// followed by a line break; nothing for a text without lines.
#[verifier::opaque]
pub open spec fn relined(md: Seq<char>, status: IncidentStatus, rv: Seq<char>) -> Seq<char> {
    if lines(md).len() == 0 {
        Seq::empty()
    } else {
        join_lines(lines(md).map_values(|l: Seq<char>| updated_line(l, status, rv))) + "\n"@
    }
}

/// A status change of a text with lines rewrites it line by line.
proof fn lemma_status_updated_relined(
    md: Seq<char>,
    status: IncidentStatus,
    resolved_at: Option<(i64, u32)>,
)
    requires
        lines(md).len() > 0,
    ensures
        status_updated(md, status, resolved_at) == relined(md, status, resolved_text(resolved_at)),
{
    reveal(relined);
}

/// A text that ends with a line break is read line by line on its own.
proof fn lemma_lines_from_concat(x: Seq<char>, y: Seq<char>, cur: Seq<char>)
    requires
        x.len() > 0,
        x.last() == '\n',
    ensures
        lines_from(x + y, cur) == lines_from(x, cur) + lines_from(y, Seq::empty()),
    decreases x.len(),
{
    assert((x + y)[0] == x[0]);
    assert((x + y).drop_first() == x.drop_first() + y);
    if x[0] == '\n' {
        if x.len() == 1 {
            assert(x.drop_first() + y == y);
            assert(lines_from(x.drop_first(), Seq::empty()) == Seq::<Seq<char>>::empty());
            assert(lines_from(x, cur) == seq![strip_cr(cur)]);
        } else {
            assert(x.drop_first().last() == x.last());
            lemma_lines_from_concat(x.drop_first(), y, Seq::empty());
            assert(lines_from(x + y, cur) == seq![strip_cr(cur)] + (lines_from(
                x.drop_first(),
                Seq::empty(),
            ) + lines_from(y, Seq::empty())));
        }
    } else {
        assert(x.drop_first().last() == x.last());
        lemma_lines_from_concat(x.drop_first(), y, cur.push(x[0]));
    }
}

/// Joining two non-empty runs of lines puts one line break between them.
proof fn lemma_join_concat(a: Seq<Seq<char>>, b: Seq<Seq<char>>)
    requires
        a.len() > 0,
        b.len() > 0,
    ensures
        join_lines(a + b) == join_lines(a) + seq!['\n'] + join_lines(b),
    decreases b.len(),
{
    let ab = a + b;
    assert(ab.len() >= 2);
    if b.len() == 1 {
        assert(ab.drop_last() == a);
        assert(ab.last() == b[0]);
    } else {
        assert(ab.drop_last() == a + b.drop_last());
        assert(ab.last() == b.last());
        lemma_join_concat(a, b.drop_last());
    }
}

/// Rewriting text line by line goes piece by piece, where the first piece
/// ends with a line break.
proof fn lemma_relined_concat(x: Seq<char>, y: Seq<char>, status: IncidentStatus, rv: Seq<char>)
    requires
        x.len() > 0,
        x.last() == '\n',
    ensures
        relined(x + y, status, rv) == relined(x, status, rv) + relined(y, status, rv),
{
    reveal(relined);
    reveal_strlit("\n");
    lemma_lines_from_concat(x, y, Seq::empty());
    let lx = lines(x);
    let ly = lines(y);
    assert(lines(x + y) == lx + ly);
    lemma_lines_from_concat(x, Seq::empty(), Seq::empty());
    assert(x + Seq::<char>::empty() == x);
    assert(lines_from(Seq::<char>::empty(), Seq::empty()) == Seq::<Seq<char>>::empty());
    assert(lx.len() > 0) by {
        let k = x.len() - 1;
        assert(x == x.take(k) + seq!['\n']);
        if lacks(x.take(k), '\n') {
            lemma_lines_line(x.take(k), Seq::empty());
            assert(x.take(k) + seq!['\n'] + Seq::<char>::empty() == x);
        } else {
            let j = choose|j: int| 0 <= j < x.take(k).len() && x.take(k)[j] == '\n';
            assert(x[j] == '\n');
            assert(lines_from(x, Seq::empty()).len() > 0) by {
                lemma_first_break(x, Seq::empty(), j);
            }
        }
    }
    let mx = lx.map_values(|l: Seq<char>| updated_line(l, status, rv));
    let my = ly.map_values(|l: Seq<char>| updated_line(l, status, rv));
    assert((lx + ly).map_values(|l: Seq<char>| updated_line(l, status, rv)) == mx + my);
    if ly.len() == 0 {
        assert(lx + ly == lx);
        assert(mx + my == mx);
        assert(relined(y, status, rv) == Seq::<char>::empty());
        assert(relined(x, status, rv) + Seq::<char>::empty() == relined(x, status, rv));
    } else {
        lemma_join_concat(mx, my);
        assert("\n"@ == seq!['\n']);
        assert(join_lines(mx + my) + "\n"@ == (join_lines(mx) + "\n"@) + (join_lines(my)
            + "\n"@));
    }
}

/// Text with a line break somewhere has at least one line.
proof fn lemma_first_break(s: Seq<char>, cur: Seq<char>, j: int)
    requires
        0 <= j < s.len(),
        s[j] == '\n',
    ensures
        lines_from(s, cur).len() > 0,
    decreases s.len(),
{
    if s[0] != '\n' {
        assert(s.drop_first()[j - 1] == '\n');
        lemma_first_break(s.drop_first(), cur.push(s[0]), j - 1);
    }
}

/// One line and its line break, rewritten.
proof fn lemma_relined_line(l: Seq<char>, status: IncidentStatus, rv: Seq<char>)
    requires
        lacks(l, '\n'),
        no_final_cr(l),
    ensures
        relined(l + "\n"@, status, rv) == updated_line(l, status, rv) + "\n"@,
{
    reveal(relined);
    reveal_strlit("\n");
    lemma_lines_line(l, Seq::empty());
    assert(l + seq!['\n'] + Seq::<char>::empty() == l + "\n"@);
    assert(lines(Seq::<char>::empty()) == Seq::<Seq<char>>::empty());
    assert(strip_cr(l) == l);
    assert(lines(l + "\n"@) == seq![l]);
    assert(seq![l].map_values(|x: Seq<char>| updated_line(x, status, rv)) == seq![
        updated_line(l, status, rv),
    ]);
}

/// Lines joined, with a final line break, rewritten.
proof fn lemma_relined_joined(ls: Seq<Seq<char>>, status: IncidentStatus, rv: Seq<char>)
    requires
        ls.len() > 0,
        forall|i: int| 0 <= i < ls.len() ==> lacks(#[trigger] ls[i], '\n') && no_final_cr(ls[i]),
    ensures
        relined(join_lines(ls) + "\n"@, status, rv) == join_lines(
            ls.map_values(|l: Seq<char>| updated_line(l, status, rv)),
        ) + "\n"@,
{
    reveal(relined);
    reveal_strlit("\n");
    assert("\n"@ == seq!['\n']);
    lemma_lines_of_joined(ls);
}

// ---------------------------------------------------------------------------
// Lines a status change leaves as they are
// ---------------------------------------------------------------------------

/// Text on one line: no line break, no final carriage return.
pub open spec fn one_line(s: Seq<char>) -> bool {
    lacks(s, '\n') && no_final_cr(s)
}

/// Each item is on one line.
pub open spec fn items_on_one_line(items: Seq<Seq<char>>) -> bool {
    forall|i: int| 0 <= i < items.len() ==> one_line(#[trigger] items[i])
}

/// A line that starts with neither `s`, `r` nor `#` is left as it is.
proof fn lemma_plain_line_fixed(l: Seq<char>, status: IncidentStatus, rv: Seq<char>)
    requires
        l.len() > 0 ==> l[0] != 's' && l[0] != 'r' && l[0] != '#',
    ensures
        updated_line(l, status, rv) == l,
{
    reveal_strlit("status: ");
    reveal_strlit("resolved_at: ");
    if starts_with(l, "status: "@) {
        lemma_first_char(l, "status: "@);
    }
    if starts_with(l, "resolved_at: "@) {
        lemma_first_char(l, "resolved_at: "@);
    }
    lemma_not_heading(l);
}

/// A `##` heading line is left as it is.
proof fn lemma_subheading_fixed(l: Seq<char>, status: IncidentStatus, rv: Seq<char>)
    requires
        l.len() >= 2,
        l[0] == '#',
        l[1] == '#',
    ensures
        updated_line(l, status, rv) == l,
{
    reveal_strlit("status: ");
    reveal_strlit("resolved_at: ");
    reveal_strlit("# ");
    if starts_with(l, "status: "@) {
        lemma_first_char(l, "status: "@);
    }
    if starts_with(l, "resolved_at: "@) {
        lemma_first_char(l, "resolved_at: "@);
    }
    assert(!starts_with(l, "# "@)) by {
        if starts_with(l, "# "@) {
            assert(l.take(2)[1] == l[1]);
        }
    }
}

/// White space is none of `s`, `r` and `#`.
proof fn lemma_ws_plain(c: char)
    requires
        is_ws(c),
    ensures
        c != 's' && c != 'r' && c != '#',
{
}

/// A list item on one line renders on one line that a status change leaves
/// as it is.
proof fn lemma_bullet_fixed(x: Seq<char>, status: IncidentStatus, rv: Seq<char>)
    requires
        one_line(x),
    ensures
        one_line(bullet(x)),
        updated_line(bullet(x), status, rv) == bullet(x),
{
    reveal_strlit("- ");
    if starts_with(trim_start(x), "- "@) {
        let k = crate::text::lemma_trim_start_shape(x);
        lemma_first_char(trim_start(x), "- "@);
        if k > 0 {
            assert(is_ws(x[0]));
            lemma_ws_plain(x[0]);
        } else {
            assert(x[0] == trim_start(x)[0]);
        }
        lemma_plain_line_fixed(x, status, rv);
    } else {
        let b = "- "@ + x;
        assert(b[0] == '-');
        lemma_lacks_add("- "@, x, '\n');
        if x.len() > 0 {
            assert(b.last() == x.last());
        }
        lemma_plain_line_fixed(b, status, rv);
    }
}

/// The lines of a rendered list: one per item, or the placeholder line.
spec fn list_lines(items: Seq<Seq<char>>) -> Seq<Seq<char>> {
    if items.len() == 0 {
        seq!["- _None yet_"@]
    } else {
        items.map_values(|l: Seq<char>| bullet(l))
    }
}

/// A rendered list of items on one line: its lines, each on one line and
/// left as it is by a status change.
proof fn lemma_list_fixed(items: Seq<Seq<char>>, status: IncidentStatus, rv: Seq<char>)
    requires
        items_on_one_line(items),
    ensures
        bulleted(items) == join_lines(list_lines(items)),
        list_lines(items).len() > 0,
        forall|i: int|
            0 <= i < list_lines(items).len() ==> one_line(#[trigger] list_lines(items)[i]),
        list_lines(items).map_values(|l: Seq<char>| updated_line(l, status, rv)) == list_lines(
            items,
        ),
{
    reveal_strlit("- _None yet_");
    let ll = list_lines(items);
    if items.len() == 0 {
        let ph = "- _None yet_"@;
        assert(ph[0] == '-');
        assert(ph.last() == '_');
        lemma_plain_line_fixed(ph, status, rv);
        assert(ll[0] == ph);
        assert(ll.map_values(|l: Seq<char>| updated_line(l, status, rv)) =~= ll);
    } else {
        assert forall|i: int| 0 <= i < ll.len() implies one_line(#[trigger] ll[i]) && updated_line(
            ll[i],
            status,
            rv,
        ) == ll[i] by {
            assert(one_line(items[i]));
            lemma_bullet_fixed(items[i], status, rv);
        }
        assert(ll.map_values(|l: Seq<char>| updated_line(l, status, rv)) =~= ll);
    }
}

/// A line a status change leaves as it is, with its line break, rewritten.
proof fn lemma_fixed_line_piece(l: Seq<char>, status: IncidentStatus, rv: Seq<char>)
    requires
        one_line(l),
        updated_line(l, status, rv) == l,
    ensures
        relined(l + "\n"@, status, rv) == l + "\n"@,
{
    lemma_relined_line(l, status, rv);
}

/// A rendered list of items on one line, with its line break, rewritten.
proof fn lemma_fixed_list_piece(items: Seq<Seq<char>>, status: IncidentStatus, rv: Seq<char>)
    requires
        items_on_one_line(items),
    ensures
        relined(bulleted(items) + "\n"@, status, rv) == bulleted(items) + "\n"@,
{
    lemma_list_fixed(items, status, rv);
    lemma_relined_joined(list_lines(items), status, rv);
}

/// A blank line, rewritten.
proof fn lemma_blank_piece(status: IncidentStatus, rv: Seq<char>)
    ensures
        relined("\n"@, status, rv) == "\n"@,
{
    lemma_plain_line_fixed(Seq::empty(), status, rv);
    lemma_relined_line(Seq::empty(), status, rv);
    assert(Seq::<char>::empty() + "\n"@ == "\n"@);
}

/// A piece of text that ends with a line break.
spec fn ends_line(x: Seq<char>) -> bool {
    x.len() > 0 && x.last() == '\n'
}

/// Two pieces rewritten one after the other.
proof fn lemma_pieces(
    x: Seq<char>,
    y: Seq<char>,
    x2: Seq<char>,
    y2: Seq<char>,
    status: IncidentStatus,
    rv: Seq<char>,
)
    requires
        ends_line(x),
        relined(x, status, rv) == x2,
        relined(y, status, rv) == y2,
    ensures
        relined(x + y, status, rv) == x2 + y2,
{
    lemma_relined_concat(x, y, status, rv);
}

// ---------------------------------------------------------------------------
// The sections of a rendered document, rewritten
// ---------------------------------------------------------------------------

/// A line `p + v` is on one line when the literal `p` and the value `v` are.
proof fn lemma_labelled_one_line(p: Seq<char>, v: Seq<char>)
    requires
        p.len() > 0,
        one_line(p),
        one_line(v),
    ensures
        one_line(p + v),
{
    lemma_lacks_add(p, v, '\n');
    if v.len() > 0 {
        assert((p + v).last() == v.last());
    } else {
        assert(p + v == p);
    }
}

/// Six lines, each with its line break, rewritten line by line.
proof fn lemma_six_pieces(
    ls: Seq<Seq<char>>,
    ns: Seq<Seq<char>>,
    status: IncidentStatus,
    rv: Seq<char>,
)
    requires
        ls.len() == 6,
        ns.len() == 6,
        forall|i: int| 0 <= i < 6 ==> relined(#[trigger] ls[i] + "\n"@, status, rv) == ns[i] + "\n"@,
    ensures
        relined(
            ls[0] + seq!['\n'] + (ls[1] + seq!['\n'] + (ls[2] + seq!['\n'] + (ls[3] + seq!['\n'] + (
            ls[4] + seq!['\n'] + (ls[5] + seq!['\n'] + Seq::empty()))))),
            status,
            rv,
        ) == ns[0] + seq!['\n'] + (ns[1] + seq!['\n'] + (ns[2] + seq!['\n'] + (ns[3] + seq!['\n'] + (
        ns[4] + seq!['\n'] + (ns[5] + seq!['\n'] + Seq::empty()))))),
{
    reveal_strlit("\n");
    let nl = seq!['\n'];
    assert("\n"@ == nl);
    assert(relined(ls[5] + nl, status, rv) == ns[5] + nl);
    assert(ls[5] + nl + Seq::empty() == ls[5] + nl);
    assert(ns[5] + nl + Seq::empty() == ns[5] + nl);
    let t5 = ls[5] + nl + Seq::empty();
    let u5 = ns[5] + nl + Seq::empty();
    assert(relined(ls[4] + nl, status, rv) == ns[4] + nl);
    lemma_pieces(ls[4] + nl, t5, ns[4] + nl, u5, status, rv);
    let t4 = ls[4] + nl + t5;
    let u4 = ns[4] + nl + u5;
    assert(relined(ls[3] + nl, status, rv) == ns[3] + nl);
    lemma_pieces(ls[3] + nl, t4, ns[3] + nl, u4, status, rv);
    let t3 = ls[3] + nl + t4;
    let u3 = ns[3] + nl + u4;
    assert(relined(ls[2] + nl, status, rv) == ns[2] + nl);
    lemma_pieces(ls[2] + nl, t3, ns[2] + nl, u3, status, rv);
    let t2 = ls[2] + nl + t3;
    let u2 = ns[2] + nl + u3;
    assert(relined(ls[1] + nl, status, rv) == ns[1] + nl);
    lemma_pieces(ls[1] + nl, t2, ns[1] + nl, u2, status, rv);
    let t1 = ls[1] + nl + t2;
    let u1 = ns[1] + nl + u2;
    assert(relined(ls[0] + nl, status, rv) == ns[0] + nl);
    lemma_pieces(ls[0] + nl, t1, ns[0] + nl, u1, status, rv);
}

/// The lines of the frontmatter before and after a status change.
proof fn lemma_frontmatter_line_updates(
    incident_id: Seq<char>,
    created_at: (i64, u32),
    old_status: IncidentStatus,
    old_resolved: Option<(i64, u32)>,
    status: IncidentStatus,
    rv: Seq<char>,
)
    requires
        one_line(incident_id),
        rfc3339_clean(Some(created_at)),
        rfc3339_clean(old_resolved),
    ensures
        relined("---"@ + "\n"@, status, rv) == "---"@ + "\n"@,
        relined("incident_id: "@ + incident_id + "\n"@, status, rv) == "incident_id: "@
            + incident_id + "\n"@,
        relined("status: "@ + status_text(old_status) + "\n"@, status, rv) == "status: "@
            + status_text(status) + "\n"@,
        relined("created_at: "@ + rfc3339_of(created_at) + "\n"@, status, rv) == "created_at: "@
            + rfc3339_of(created_at) + "\n"@,
        relined("resolved_at: "@ + resolved_text(old_resolved) + "\n"@, status, rv)
            == "resolved_at: "@ + rv + "\n"@,
{
    reveal_strlit("---");
    reveal_strlit("incident_id: ");
    reveal_strlit("status: ");
    reveal_strlit("created_at: ");
    reveal_strlit("resolved_at: ");
    reveal_strlit("open");
    reveal_strlit("resolved");
    crate::properties::lemma_rfc_clean_text(created_at);
    lemma_resolved_text_clean(old_resolved);
    let l1 = "---"@;
    let l2 = "incident_id: "@ + incident_id;
    let l3 = "status: "@ + status_text(old_status);
    let l4 = "created_at: "@ + rfc3339_of(created_at);
    let l5 = "resolved_at: "@ + resolved_text(old_resolved);
    assert(one_line(l1));
    assert(one_line("incident_id: "@) && one_line("status: "@) && one_line("created_at: "@)
        && one_line("resolved_at: "@));
    assert(one_line(status_text(old_status)));
    lemma_labelled_one_line("incident_id: "@, incident_id);
    lemma_labelled_one_line("status: "@, status_text(old_status));
    lemma_labelled_one_line("created_at: "@, rfc3339_of(created_at));
    lemma_labelled_one_line("resolved_at: "@, resolved_text(old_resolved));
    lemma_plain_line_fixed(l1, status, rv);
    lemma_plain_line_fixed(l2, status, rv);
    lemma_plain_line_fixed(l4, status, rv);
    assert(l3.take(8) == "status: "@);
    assert(!starts_with(l5, "status: "@)) by {
        if starts_with(l5, "status: "@) {
            lemma_first_char(l5, "status: "@);
        }
    }
    assert(l5.take(13) == "resolved_at: "@);
    lemma_relined_line(l1, status, rv);
    lemma_relined_line(l2, status, rv);
    lemma_relined_line(l3, status, rv);
    lemma_relined_line(l4, status, rv);
    lemma_relined_line(l5, status, rv);
}

/// The frontmatter after a status change: the new status and resolution
/// time, the rest as it was.
proof fn lemma_frontmatter_relined(
    incident_id: Seq<char>,
    created_at: (i64, u32),
    old_status: IncidentStatus,
    old_resolved: Option<(i64, u32)>,
    status: IncidentStatus,
    resolved: Option<(i64, u32)>,
)
    requires
        one_line(incident_id),
        rfc3339_clean(Some(created_at)),
        rfc3339_clean(old_resolved),
    ensures
        relined(
            frontmatter(incident_id, old_status, created_at, old_resolved),
            status,
            resolved_text(resolved),
        ) == frontmatter(incident_id, status, created_at, resolved),
{
    reveal_strlit("---");
    reveal_strlit("\n");
    let rv = resolved_text(resolved);
    let nl = seq!['\n'];
    lemma_frontmatter_line_updates(
        incident_id,
        created_at,
        old_status,
        old_resolved,
        status,
        rv,
    );
    let ls = seq![
        "---"@,
        "incident_id: "@ + incident_id,
        "status: "@ + status_text(old_status),
        "created_at: "@ + rfc3339_of(created_at),
        "resolved_at: "@ + resolved_text(old_resolved),
        "---"@,
    ];
    let ns = seq![
        "---"@,
        "incident_id: "@ + incident_id,
        "status: "@ + status_text(status),
        "created_at: "@ + rfc3339_of(created_at),
        "resolved_at: "@ + rv,
        "---"@,
    ];
    assert forall|i: int| 0 <= i < 6 implies relined(#[trigger] ls[i] + "\n"@, status, rv)
        == ns[i] + "\n"@ by {}
    lemma_six_pieces(ls, ns, status, rv);
    lemma_frontmatter_lines(incident_id, old_status, created_at, old_resolved);
    lemma_frontmatter_lines(incident_id, status, created_at, resolved);
    crate::properties::lemma_regroup(ls[0], ls[1], ls[2], ls[3], ls[4], ls[5], Seq::empty());
    crate::properties::lemma_regroup(ns[0], ns[1], ns[2], ns[3], ns[4], ns[5], Seq::empty());
    assert(ls[0] + nl + ls[1] + nl + ls[2] + nl + ls[3] + nl + ls[4] + nl + ls[5] + nl
        + Seq::empty() == frontmatter(incident_id, old_status, created_at, old_resolved));
    assert(ns[0] + nl + ns[1] + nl + ns[2] + nl + ns[3] + nl + ns[4] + nl + ns[5] + nl
        + Seq::empty() == frontmatter(incident_id, status, created_at, resolved));
}

/// The title heading after a status change: the marker of the new status,
/// the same title.
proof fn lemma_heading_relined(
    old_status: IncidentStatus,
    title: Seq<char>,
    status: IncidentStatus,
    rv: Seq<char>,
)
    requires
        one_line(title),
    ensures
        relined(heading(old_status, title), status, rv) == heading(status, title),
{
    reveal_strlit("# ");
    reveal_strlit(" ");
    reveal_strlit("\n");
    reveal_strlit("\n\n");
    reveal_strlit("status: ");
    reveal_strlit("resolved_at: ");
    lemma_emoji(old_status);
    lemma_emoji(status);
    let e = emoji_text(old_status)[0];
    assert(emoji_text(old_status) == seq![e]);
    let h = "# "@ + seq![e] + " "@ + title;
    let n = "# "@ + emoji_text(status) + " "@ + title;
    lemma_h1_of_heading(e, title);
    assert(h[0] == '#');
    if starts_with(h, "status: "@) {
        lemma_first_char(h, "status: "@);
    }
    if starts_with(h, "resolved_at: "@) {
        lemma_first_char(h, "resolved_at: "@);
    }
    assert(updated_line(h, status, rv) == n);
    assert(one_line("# "@ + seq![e] + " "@));
    lemma_labelled_one_line("# "@ + seq![e] + " "@, title);
    lemma_relined_line(h, status, rv);
    lemma_blank_piece(status, rv);
    lemma_pieces(h + "\n"@, "\n"@, n + "\n"@, "\n"@, status, rv);
    assert(heading(old_status, title) =~= h + "\n"@ + "\n"@);
    assert(heading(status, title) =~= n + "\n"@ + "\n"@);
}

/// A `##` or `###` heading with its line break, rewritten.
proof fn lemma_subheading_piece(l: Seq<char>, status: IncidentStatus, rv: Seq<char>)
    requires
        l.len() >= 2,
        l[0] == '#',
        l[1] == '#',
        lacks(l, '\n'),
        l.last() != '\r',
    ensures
        relined(l + "\n"@, status, rv) == l + "\n"@,
{
    lemma_subheading_fixed(l, status, rv);
    lemma_fixed_line_piece(l, status, rv);
}

/// A section of a heading and a list, as rendered, rewritten: left as it is.
proof fn lemma_list_section_relined(
    head: Seq<char>,
    items: Seq<Seq<char>>,
    status: IncidentStatus,
    rv: Seq<char>,
)
    requires
        head.len() >= 2,
        head[0] == '#',
        head[1] == '#',
        lacks(head, '\n'),
        head.last() != '\r',
        items_on_one_line(items),
    ensures
        relined(head + "\n"@ + (bulleted(items) + "\n"@), status, rv) == head + "\n"@ + (bulleted(
            items,
        ) + "\n"@),
{
    reveal_strlit("\n");
    lemma_subheading_piece(head, status, rv);
    lemma_fixed_list_piece(items, status, rv);
    lemma_pieces(
        head + "\n"@,
        bulleted(items) + "\n"@,
        head + "\n"@,
        bulleted(items) + "\n"@,
        status,
        rv,
    );
}

/// A timeline line is on one line when its summary is.
proof fn lemma_entry_one_line(t: (i64, u32), summary: Seq<char>)
    requires
        rfc3339_chars(t),
        one_line(summary),
    ensures
        one_line(crate::templates::entry_line(t, summary)),
{
    reveal_strlit("- ");
    reveal_strlit(" — ");
    crate::properties::lemma_rfc_clean_text(t);
    let r = rfc3339_of(t);
    lemma_lacks_add("- "@, r, '\n');
    lemma_lacks_add("- "@ + r, " — "@, '\n');
    let p = "- "@ + r + " — "@;
    assert(p.last() == ' ');
    lemma_labelled_one_line(p, summary);
}

/// The timeline section, rewritten: left as it is.
proof fn lemma_timeline_relined(d: IncidentTemplateData, status: IncidentStatus, rv: Seq<char>)
    requires
        forall|i: int|
            0 <= i < d.timeline@.len() ==> one_line((#[trigger] d.timeline@[i]).summary@)
                && rfc3339_chars(d.timeline@[i].timestamp@),
    ensures
        relined(timeline_section(d.timeline_lines()), status, rv) == timeline_section(
            d.timeline_lines(),
        ),
{
    reveal_strlit("## Timeline");
    reveal_strlit("\n");
    reveal_strlit("\n\n");
    let ls = d.timeline_lines();
    assert forall|i: int| 0 <= i < ls.len() implies one_line(#[trigger] ls[i]) by {
        let t = d.timeline@[i];
        lemma_entry_one_line(t.timestamp@, t.summary@);
    }
    let head = "## Timeline"@;
    lemma_list_section_relined(head, ls, status, rv);
    let x = head + "\n"@ + (bulleted(ls) + "\n"@);
    lemma_blank_piece(status, rv);
    lemma_pieces(x, "\n"@, x, "\n"@, status, rv);
    assert(timeline_section(ls) =~= x + "\n"@);
}

/// The Root Cause section, rewritten: left as it is, when the trimmed root
/// cause is on one line and starts with none of the lines a status change
/// rewrites.
proof fn lemma_root_cause_relined(rc: Seq<char>, status: IncidentStatus, rv: Seq<char>)
    requires
        lacks(trim(rc), '\n'),
        !starts_with(trim(rc), "status: "@),
        !starts_with(trim(rc), "resolved_at: "@),
        !starts_with(trim(rc), "# "@),
    ensures
        relined(root_cause_section(rc), status, rv) == root_cause_section(rc),
{
    reveal_strlit("## Root Cause");
    reveal_strlit("\n");
    reveal_strlit("\n\n");
    let trc = trim(rc);
    crate::text::lemma_trim_shape(rc);
    assert(no_final_cr(trc));
    assert(updated_line(trc, status, rv) == trc);
    lemma_fixed_line_piece(trc, status, rv);
    let head = "## Root Cause"@;
    lemma_subheading_piece(head, status, rv);
    lemma_pieces(head + "\n"@, trc + "\n"@, head + "\n"@, trc + "\n"@, status, rv);
    let x = head + "\n"@ + (trc + "\n"@);
    lemma_blank_piece(status, rv);
    lemma_pieces(x, "\n"@, x, "\n"@, status, rv);
    assert(root_cause_section(rc) =~= x + "\n"@);
}

/// The Action Items section, rewritten: left as it is.
proof fn lemma_actions_relined(
    detect: Seq<Seq<char>>,
    mitigate: Seq<Seq<char>>,
    prevent: Seq<Seq<char>>,
    status: IncidentStatus,
    rv: Seq<char>,
)
    requires
        items_on_one_line(detect),
        items_on_one_line(mitigate),
        items_on_one_line(prevent),
    ensures
        relined(actions_section(detect, mitigate, prevent), status, rv) == actions_section(
            detect,
            mitigate,
            prevent,
        ),
{
    reveal_strlit("## Action Items");
    reveal_strlit("### ");
    reveal_strlit("Detect");
    reveal_strlit("Mitigate");
    reveal_strlit("Prevent");
    reveal_strlit("\n");
    let nl = "\n"@;
    let hd = "### "@ + "Detect"@;
    let hm = "### "@ + "Mitigate"@;
    let hp = "### "@ + "Prevent"@;
    let sd = hd + nl + (bulleted(detect) + nl);
    let sm = hm + nl + (bulleted(mitigate) + nl);
    let sp = hp + nl + (bulleted(prevent) + nl);
    assert(subsection("Detect"@, bulleted(detect)) =~= sd);
    assert(subsection("Mitigate"@, bulleted(mitigate)) =~= sm);
    assert(subsection("Prevent"@, bulleted(prevent)) =~= sp);
    lemma_list_section_relined(hd, detect, status, rv);
    lemma_list_section_relined(hm, mitigate, status, rv);
    lemma_list_section_relined(hp, prevent, status, rv);
    let head = "## Action Items"@;
    lemma_subheading_piece(head, status, rv);
    lemma_blank_piece(status, rv);
    lemma_pieces(sp, nl, sp, nl, status, rv);
    lemma_pieces(sm, sp + nl, sm, sp + nl, status, rv);
    lemma_pieces(sd, sm + (sp + nl), sd, sm + (sp + nl), status, rv);
    lemma_pieces(head + nl, sd + (sm + (sp + nl)), head + nl, sd + (sm + (sp + nl)), status, rv);
    assert(actions_section(detect, mitigate, prevent) =~= head + nl + (sd + (sm + (sp + nl))));
}

/// The Patterns section, rewritten: left as it is.
proof fn lemma_patterns_relined(patterns: Seq<Seq<char>>, status: IncidentStatus, rv: Seq<char>)
    requires
        items_on_one_line(patterns),
    ensures
        relined(patterns_section(patterns), status, rv) == patterns_section(patterns),
{
    reveal_strlit("## Patterns");
    reveal_strlit("\n");
    lemma_list_section_relined("## Patterns"@, patterns, status, rv);
    assert(patterns_section(patterns) =~= "## Patterns"@ + "\n"@ + (bulleted(patterns) + "\n"@));
}

// ---------------------------------------------------------------------------
// The law
// ---------------------------------------------------------------------------

/// Changing the status of a rendered incident document gives the document
/// rendered with the new status and resolution time. Holds when the id, the
/// title, the timeline summaries, the action items and the patterns are each
/// on one line (no line break, no final carriage return), the trimmed root
/// cause holds no line break and starts with none of `status: `,
/// `resolved_at: ` and `# ` (which a status change rewrites), and the
/// timestamps render with RFC 3339 characters (as chrono writes them).
#[verifier::spinoff_prover]
pub proof fn lemma_status_update_of_rendered(d: IncidentTemplateData, d2: IncidentTemplateData)
    requires
        one_line(d.incident_id@),
        one_line(d.title@),
        lacks(trim(d.root_cause@), '\n'),
        !starts_with(trim(d.root_cause@), "status: "@),
        !starts_with(trim(d.root_cause@), "resolved_at: "@),
        !starts_with(trim(d.root_cause@), "# "@),
        forall|i: int|
            0 <= i < d.timeline@.len() ==> one_line((#[trigger] d.timeline@[i]).summary@)
                && rfc3339_chars(d.timeline@[i].timestamp@),
        items_on_one_line(string_views(d.action_items.detect@)),
        items_on_one_line(string_views(d.action_items.mitigate@)),
        items_on_one_line(string_views(d.action_items.prevent@)),
        items_on_one_line(string_views(d.patterns@)),
        rfc3339_clean(Some(d.created_at@)),
        rfc3339_clean(opt_view(d.resolved_at)),
        d2.incident_id == d.incident_id,
        d2.title == d.title,
        d2.created_at == d.created_at,
        d2.root_cause == d.root_cause,
        d2.timeline == d.timeline,
        d2.action_items == d.action_items,
        d2.patterns == d.patterns,
    ensures
        status_updated(d.markdown(), d2.status, opt_view(d2.resolved_at)) == d2.markdown(),
{
    reveal_strlit("\n");
    let status = d2.status;
    let rv = resolved_text(opt_view(d2.resolved_at));
    let fm = frontmatter(d.incident_id@, d.status, d.created_at@, opt_view(d.resolved_at));
    let fm2 = frontmatter(d.incident_id@, status, d.created_at@, opt_view(d2.resolved_at));
    let hd = heading(d.status, d.title@);
    let hd2 = heading(status, d.title@);
    let ts = timeline_section(d.timeline_lines());
    let rcs = root_cause_section(d.root_cause@);
    let acts = actions_section(
        string_views(d.action_items.detect@),
        string_views(d.action_items.mitigate@),
        string_views(d.action_items.prevent@),
    );
    let pats = patterns_section(string_views(d.patterns@));
    lemma_frontmatter_relined(
        d.incident_id@,
        d.created_at@,
        d.status,
        opt_view(d.resolved_at),
        status,
        opt_view(d2.resolved_at),
    );
    lemma_heading_relined(d.status, d.title@, status, rv);
    lemma_timeline_relined(d, status, rv);
    lemma_root_cause_relined(d.root_cause@, status, rv);
    lemma_actions_relined(
        string_views(d.action_items.detect@),
        string_views(d.action_items.mitigate@),
        string_views(d.action_items.prevent@),
        status,
        rv,
    );
    lemma_patterns_relined(string_views(d.patterns@), status, rv);
    lemma_section_ends(d);
    lemma_sections(fm, hd, ts, rcs, acts, pats, fm2, hd2, status, rv);
    assert(d2.timeline_lines() =~= d.timeline_lines());
    assert(d2.markdown() == fm2 + hd2 + ts + rcs + acts + pats);
    // the document has lines, so rewriting it is rewriting it line by line
    let md = d.markdown();
    assert(md == fm + hd + ts + rcs + acts + pats);
    assert(md[fm.len() - 1] == fm[fm.len() - 1]);
    lemma_first_break(md, Seq::empty(), fm.len() - 1);
    lemma_status_updated_relined(md, status, opt_view(d2.resolved_at));
}

/// The sections of a rendered document, but the last, end with a line
/// break.
proof fn lemma_section_ends(d: IncidentTemplateData)
    ensures
        ends_line(frontmatter(d.incident_id@, d.status, d.created_at@, opt_view(d.resolved_at))),
        ends_line(heading(d.status, d.title@)),
        ends_line(timeline_section(d.timeline_lines())),
        ends_line(root_cause_section(d.root_cause@)),
        ends_line(
            actions_section(
                string_views(d.action_items.detect@),
                string_views(d.action_items.mitigate@),
                string_views(d.action_items.prevent@),
            ),
        ),
{
    reveal_strlit("\n");
    reveal_strlit("\n\n");
    lemma_frontmatter_lines(d.incident_id@, d.status, d.created_at@, opt_view(d.resolved_at));
}

/// Six sections rewritten one after the other.
proof fn lemma_sections(
    fm: Seq<char>,
    hd: Seq<char>,
    ts: Seq<char>,
    rcs: Seq<char>,
    acts: Seq<char>,
    pats: Seq<char>,
    fm2: Seq<char>,
    hd2: Seq<char>,
    status: IncidentStatus,
    rv: Seq<char>,
)
    requires
        ends_line(fm),
        ends_line(hd),
        ends_line(ts),
        ends_line(rcs),
        ends_line(acts),
        relined(fm, status, rv) == fm2,
        relined(hd, status, rv) == hd2,
        relined(ts, status, rv) == ts,
        relined(rcs, status, rv) == rcs,
        relined(acts, status, rv) == acts,
        relined(pats, status, rv) == pats,
    ensures
        relined(fm + hd + ts + rcs + acts + pats, status, rv) == fm2 + hd2 + ts + rcs + acts
            + pats,
{
    lemma_pieces(acts, pats, acts, pats, status, rv);
    lemma_pieces(rcs, acts + pats, rcs, acts + pats, status, rv);
    lemma_pieces(ts, rcs + (acts + pats), ts, rcs + (acts + pats), status, rv);
    lemma_pieces(hd, ts + (rcs + (acts + pats)), hd2, ts + (rcs + (acts + pats)), status, rv);
    lemma_pieces(
        fm,
        hd + (ts + (rcs + (acts + pats))),
        fm2,
        hd2 + (ts + (rcs + (acts + pats))),
        status,
        rv,
    );
    assert(fm + hd + ts + rcs + acts + pats =~= fm + (hd + (ts + (rcs + (acts + pats)))));
    assert(fm2 + hd2 + ts + rcs + acts + pats =~= fm2 + (hd2 + (ts + (rcs + (acts + pats)))));
}

} // verus!

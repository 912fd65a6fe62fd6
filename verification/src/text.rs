//! Character-sequence model of the string operations the library relies on:
//! whitespace trimming, substring search, prefix tests, line splitting and
//! joining, each as a spec function over `Seq<char>` with an executable
//! counterpart over `Vec<char>`.

use vstd::prelude::*;
use vstd::std_specs::iter::IteratorSpec;

verus! {

// ---------------------------------------------------------------------------
// Specifications
// ---------------------------------------------------------------------------

/// Unicode `White_Space` (what `char::is_whitespace` tests).
pub open spec fn is_ws(c: char) -> bool {
    let v = c as u32;
    ||| (0x09 <= v && v <= 0x0d)
    ||| v == 0x20
    ||| v == 0x85
    ||| v == 0xa0
    ||| v == 0x1680
    ||| (0x2000 <= v && v <= 0x200a)
    ||| v == 0x2028
    ||| v == 0x2029
    ||| v == 0x202f
    ||| v == 0x205f
    ||| v == 0x3000
}

/// `s` without its leading whitespace.
pub open spec fn trim_start(s: Seq<char>) -> Seq<char>
    decreases s.len(),
{
    if s.len() > 0 && is_ws(s[0]) {
        trim_start(s.drop_first())
    } else {
        s
    }
}

/// `s` without its trailing whitespace.
pub open spec fn trim_end(s: Seq<char>) -> Seq<char>
    decreases s.len(),
{
    if s.len() > 0 && is_ws(s.last()) {
        trim_end(s.drop_last())
    } else {
        s
    }
}

/// `s` without leading and trailing whitespace.
pub open spec fn trim(s: Seq<char>) -> Seq<char> {
    trim_end(trim_start(s))
}

/// `s` without every trailing occurrence of `c`.
pub open spec fn trim_end_char(s: Seq<char>, c: char) -> Seq<char>
    decreases s.len(),
{
    if s.len() > 0 && s.last() == c {
        trim_end_char(s.drop_last(), c)
    } else {
        s
    }
}

/// `s` begins with `p`.
pub open spec fn starts_with(s: Seq<char>, p: Seq<char>) -> bool {
    p.len() <= s.len() && s.take(p.len() as int) == p
}

/// `p` occurs in `s` at position `i`.
pub open spec fn match_at(s: Seq<char>, p: Seq<char>, i: int) -> bool {
    0 <= i && i + p.len() <= s.len() && s.subrange(i, i + p.len()) == p
}

/// The first position at or after `from` where `p` occurs in `s`.
pub open spec fn find_from(s: Seq<char>, p: Seq<char>, from: int) -> Option<int>
    decreases s.len() + 1 - from,
{
    if from < 0 || from + p.len() > s.len() {
        None
    } else if match_at(s, p, from) {
        Some(from)
    } else {
        find_from(s, p, from + 1)
    }
}

/// The first position where `p` occurs in `s` (what `str::find` returns).
pub open spec fn find(s: Seq<char>, p: Seq<char>) -> Option<int> {
    find_from(s, p, 0)
}

/// `l` without one trailing carriage return.
pub open spec fn strip_cr(l: Seq<char>) -> Seq<char> {
    if l.len() > 0 && l.last() == '\r' {
        l.drop_last()
    } else {
        l
    }
}

/// Line splitting with a partial current line `cur` already read.
pub open spec fn lines_from(s: Seq<char>, cur: Seq<char>) -> Seq<Seq<char>>
    decreases s.len(),
{
    if s.len() == 0 {
        if cur.len() == 0 {
            Seq::empty()
        } else {
            seq![cur]
        }
    } else if s[0] == '\n' {
        seq![strip_cr(cur)] + lines_from(s.drop_first(), Seq::empty())
    } else {
        lines_from(s.drop_first(), cur.push(s[0]))
    }
}

/// The lines of `s` as `str::lines` yields them: split at `\n`, a `\r`
/// right before a `\n` dropped, no empty line after a final `\n`.
pub open spec fn lines(s: Seq<char>) -> Seq<Seq<char>> {
    lines_from(s, Seq::empty())
}

/// The lines `ls` joined by single `\n` characters.
pub open spec fn join_lines(ls: Seq<Seq<char>>) -> Seq<char>
    decreases ls.len(),
{
    if ls.len() == 0 {
        Seq::empty()
    } else if ls.len() == 1 {
        ls[0]
    } else {
        join_lines(ls.drop_last()) + seq!['\n'] + ls.last()
    }
}

/// The lines `ls` joined by `sep`.
pub open spec fn join_with(ls: Seq<Seq<char>>, sep: Seq<char>) -> Seq<char>
    decreases ls.len(),
{
    if ls.len() == 0 {
        Seq::empty()
    } else if ls.len() == 1 {
        ls[0]
    } else {
        join_with(ls.drop_last(), sep) + sep + ls.last()
    }
}

/// The character views of a sequence of character vectors.
pub open spec fn views(v: Seq<Vec<char>>) -> Seq<Seq<char>> {
    Seq::new(v.len(), |i: int| v[i]@)
}

/// The character views of a sequence of strings.
pub open spec fn string_views(v: Seq<String>) -> Seq<Seq<char>> {
    Seq::new(v.len(), |i: int| v[i]@)
}

/// No character of `s` is `c`.
pub open spec fn lacks(s: Seq<char>, c: char) -> bool {
    forall|i: int| 0 <= i < s.len() ==> s[i] != c
}

// ---------------------------------------------------------------------------
// Lemmas
// ---------------------------------------------------------------------------

/// What `find_from` returns: the first match at or after `from`.
pub proof fn lemma_find_from(s: Seq<char>, p: Seq<char>, from: int)
    requires
        0 <= from,
    ensures
        match find_from(s, p, from) {
            Some(k) => from <= k && match_at(s, p, k) && forall|j: int|
                from <= j < k ==> !match_at(s, p, j),
            None => forall|j: int| from <= j ==> !match_at(s, p, j),
        },
    decreases s.len() + 1 - from,
{
    if from + p.len() > s.len() {
    } else if match_at(s, p, from) {
    } else {
        lemma_find_from(s, p, from + 1);
    }
}

/// `find` is the first match.
pub proof fn lemma_find(s: Seq<char>, p: Seq<char>)
    ensures
        match find(s, p) {
            Some(k) => match_at(s, p, k) && forall|j: int| 0 <= j < k ==> !match_at(s, p, j),
            None => forall|j: int| !match_at(s, p, j),
        },
{
    lemma_find_from(s, p, 0);
}

/// A first match pins down `find`.
pub proof fn lemma_find_unique(s: Seq<char>, p: Seq<char>, k: int)
    requires
        match_at(s, p, k),
        forall|j: int| 0 <= j < k ==> !match_at(s, p, j),
    ensures
        find(s, p) == Some(k),
{
    lemma_find(s, p);
    match find(s, p) {
        Some(k2) => {
            if k2 < k {
                assert(!match_at(s, p, k2));
            } else if k < k2 {
                assert(!match_at(s, p, k));
            }
        },
        None => {
            assert(!match_at(s, p, k));
        },
    }
}

/// Every line lacks `c` when the text and the partial line do, for `c`
/// either the line break or any other character.
pub proof fn lemma_lines_from_lack(s: Seq<char>, cur: Seq<char>, c: char)
    requires
        lacks(cur, '\n'),
        c == '\n' || (lacks(s, c) && lacks(cur, c)),
    ensures
        forall|i: int|
            0 <= i < lines_from(s, cur).len() ==> lacks(#[trigger] lines_from(s, cur)[i], c),
    decreases s.len(),
{
    if s.len() == 0 {
        if cur.len() > 0 {
            assert(lines_from(s, cur) == seq![cur]);
            assert(lines_from(s, cur)[0] == cur);
            assert(lacks(cur, c));
        } else {
            assert(lines_from(s, cur).len() == 0);
        }
    } else if s[0] == '\n' {
        assert(lacks(strip_cr(cur), c));
        if c != '\n' {
            assert forall|k: int| 0 <= k < s.drop_first().len() implies s.drop_first()[k] != c by {
                assert(s.drop_first()[k] == s[k + 1]);
            }
        }
        lemma_lines_from_lack(s.drop_first(), Seq::empty(), c);
        let rest = lines_from(s.drop_first(), Seq::empty());
        assert forall|i: int| 0 <= i < lines_from(s, cur).len() implies lacks(
            #[trigger] lines_from(s, cur)[i],
            c,
        ) by {
            if i == 0 {
                assert(lines_from(s, cur)[0] == strip_cr(cur));
            } else {
                assert(lines_from(s, cur)[i] == rest[i - 1]);
            }
        }
    } else {
        if c != '\n' {
            assert forall|k: int| 0 <= k < s.drop_first().len() implies s.drop_first()[k] != c by {
                assert(s.drop_first()[k] == s[k + 1]);
            }
            assert(lacks(cur.push(s[0]), c));
        }
        assert(lacks(cur.push(s[0]), '\n'));
        lemma_lines_from_lack(s.drop_first(), cur.push(s[0]), c);
        assert(lines_from(s, cur) == lines_from(s.drop_first(), cur.push(s[0])));
    }
}

/// The lines of a text never hold a line break, and hold no `c` when the
/// text holds none.
pub proof fn lemma_lines_lack(s: Seq<char>, c: char)
    requires
        c == '\n' || lacks(s, c),
    ensures
        forall|i: int| 0 <= i < lines(s).len() ==> lacks(#[trigger] lines(s)[i], c),
{
    lemma_lines_from_lack(s, Seq::empty(), c);
}

/// Reading characters other than line breaks extends the current line.
pub proof fn lemma_lines_from_plain(a: Seq<char>, rest: Seq<char>, cur: Seq<char>)
    requires
        lacks(a, '\n'),
    ensures
        lines_from(a + rest, cur) == lines_from(rest, cur + a),
    decreases a.len(),
{
    if a.len() == 0 {
        assert(a + rest == rest);
        assert(cur + a == cur);
    } else {
        assert((a + rest)[0] == a[0]);
        assert((a + rest).drop_first() == a.drop_first() + rest);
        lemma_lines_from_plain(a.drop_first(), rest, cur.push(a[0]));
        assert(cur.push(a[0]) + a.drop_first() == cur + a);
    }
}

/// A line without line breaks followed by a line break is the first line.
pub proof fn lemma_lines_line(a: Seq<char>, rest: Seq<char>)
    requires
        lacks(a, '\n'),
    ensures
        lines(a + seq!['\n'] + rest) == seq![strip_cr(a)] + lines(rest),
{
    lemma_lines_from_plain(a, seq!['\n'] + rest, Seq::empty());
    assert(a + seq!['\n'] + rest == a + (seq!['\n'] + rest));
    assert((seq!['\n'] + rest)[0] == '\n');
    assert((seq!['\n'] + rest).drop_first() == rest);
    assert(Seq::<char>::empty() + a == a);
}

/// Joining splits off the first line.
pub proof fn lemma_join_first(ls: Seq<Seq<char>>)
    requires
        ls.len() >= 2,
    ensures
        join_lines(ls) == ls[0] + seq!['\n'] + join_lines(ls.drop_first()),
    decreases ls.len(),
{
    if ls.len() == 2 {
        assert(ls.drop_last().len() == 1);
        assert(ls.drop_first().len() == 1);
        assert(join_lines(ls.drop_last()) == ls[0]);
        assert(join_lines(ls.drop_first()) == ls[1]);
    } else {
        lemma_join_first(ls.drop_last());
        assert(ls.drop_last().drop_first() == ls.drop_first().drop_last());
        assert(ls.drop_first().last() == ls.last());
        assert(ls.drop_last()[0] == ls[0]);
        let a = join_lines(ls.drop_last().drop_first());
        assert(join_lines(ls.drop_first()) == a + seq!['\n'] + ls.last());
        assert(join_lines(ls) == ls[0] + seq!['\n'] + a + seq!['\n'] + ls.last());
        assert(ls[0] + seq!['\n'] + a + seq!['\n'] + ls.last() == ls[0] + seq!['\n'] + (a + seq![
            '\n',
        ] + ls.last()));
    }
}

/// A line that does not end with a carriage return.
pub open spec fn no_final_cr(l: Seq<char>) -> bool {
    !(l.len() > 0 && l.last() == '\r')
}

/// Lines joined with a final line break read back as the same lines, when
/// none holds a line break or ends with a carriage return.
pub proof fn lemma_lines_of_joined(ls: Seq<Seq<char>>)
    requires
        ls.len() > 0,
        forall|i: int| 0 <= i < ls.len() ==> lacks(#[trigger] ls[i], '\n') && no_final_cr(ls[i]),
    ensures
        lines(join_lines(ls) + seq!['\n']) == ls,
    decreases ls.len(),
{
    assert(lacks(ls[0], '\n') && no_final_cr(ls[0]));
    if ls.len() == 1 {
        lemma_lines_line(ls[0], Seq::empty());
        assert(ls[0] + seq!['\n'] + Seq::<char>::empty() == ls[0] + seq!['\n']);
        assert(lines(Seq::<char>::empty()) == Seq::<Seq<char>>::empty());
        assert(seq![ls[0]] + Seq::<Seq<char>>::empty() == ls);
    } else {
        lemma_join_first(ls);
        let rest = ls.drop_first();
        assert forall|i: int| 0 <= i < rest.len() implies lacks(#[trigger] rest[i], '\n')
            && no_final_cr(rest[i]) by {
            assert(rest[i] == ls[i + 1]);
        }
        lemma_lines_of_joined(rest);
        lemma_lines_line(ls[0], join_lines(rest) + seq!['\n']);
        assert(join_lines(ls) + seq!['\n'] == ls[0] + seq!['\n'] + (join_lines(rest) + seq![
            '\n',
        ]));
        assert(seq![ls[0]] + rest == ls);
    }
}

/// What `trim_start` leaves is a suffix that starts with no white space.
pub proof fn lemma_trim_start_shape(s: Seq<char>) -> (k: int)
    ensures
        0 <= k <= s.len(),
        trim_start(s) == s.skip(k),
        forall|i: int| 0 <= i < k ==> is_ws(#[trigger] s[i]),
        trim_start(s).len() > 0 ==> !is_ws(trim_start(s)[0]),
    decreases s.len(),
{
    if s.len() > 0 && is_ws(s[0]) {
        let k0 = lemma_trim_start_shape(s.drop_first());
        assert(s.drop_first().skip(k0) == s.skip(k0 + 1));
        assert forall|i: int| 0 <= i < k0 + 1 implies is_ws(#[trigger] s[i]) by {
            if i > 0 {
                assert(s[i] == s.drop_first()[i - 1]);
            }
        }
        k0 + 1
    } else {
        assert(s.skip(0) == s);
        0
    }
}

/// What `trim_end` leaves is a prefix that ends with no white space.
pub proof fn lemma_trim_end_shape(s: Seq<char>) -> (k: int)
    ensures
        0 <= k <= s.len(),
        trim_end(s) == s.take(k),
        forall|i: int| k <= i < s.len() ==> is_ws(#[trigger] s[i]),
        trim_end(s).len() > 0 ==> !is_ws(trim_end(s).last()),
    decreases s.len(),
{
    if s.len() > 0 && is_ws(s.last()) {
        let k0 = lemma_trim_end_shape(s.drop_last());
        assert(s.drop_last().take(k0) == s.take(k0));
        assert forall|i: int| k0 <= i < s.len() implies is_ws(#[trigger] s[i]) by {
            if i < s.len() - 1 {
                assert(s[i] == s.drop_last()[i]);
            }
        }
        k0
    } else {
        assert(s.take(s.len() as int) == s);
        s.len() as int
    }
}

/// A trimmed text neither starts nor ends with white space.
pub proof fn lemma_trim_shape(s: Seq<char>)
    ensures
        trim(s).len() > 0 ==> !is_ws(trim(s)[0]) && !is_ws(trim(s).last()),
{
    let k0 = lemma_trim_start_shape(s);
    let t = trim_start(s);
    let k1 = lemma_trim_end_shape(t);
    if trim(s).len() > 0 {
        assert(trim(s)[0] == t[0]);
    }
}

/// A text with no white space at either end is its own trim.
pub proof fn lemma_trim_fixed(t: Seq<char>)
    requires
        t.len() > 0 ==> !is_ws(t[0]) && !is_ws(t.last()),
    ensures
        trim(t) == t,
{
}

/// Trimming a trimmed text followed by white space gives the trimmed text.
pub proof fn lemma_trim_trimmed_ws(s: Seq<char>, c: char)
    requires
        is_ws(c),
    ensures
        trim(trim(s).push(c)) == trim(s),
{
    let t = trim(s);
    lemma_trim_shape(s);
    if t.len() > 0 {
        assert(t.push(c)[0] == t[0]);
        assert(trim_start(t.push(c)) == t.push(c));
        assert(t.push(c).drop_last() == t);
        assert(trim_end(t.push(c)) == trim_end(t));
        lemma_trim_fixed(t);
    } else {
        assert(t.push(c) == seq![c]);
        assert(seq![c].drop_first().len() == 0);
        assert(trim_start(seq![c]) == trim_start(seq![c].drop_first()));
    }
}

/// A match in `b` is a match in `a + b`, shifted by the length of `a`.
pub proof fn lemma_match_shift(a: Seq<char>, b: Seq<char>, p: Seq<char>, j: int)
    requires
        0 <= j,
    ensures
        match_at(a + b, p, j + a.len()) == match_at(b, p, j),
{
    if j + p.len() <= b.len() {
        assert((a + b).subrange(j + a.len(), j + a.len() + p.len()) == b.subrange(j, j + p.len()));
    }
}

/// When no match starts inside `a`, the first match in `a + b` is the first
/// match in `b`, shifted by the length of `a`.
pub proof fn lemma_find_past(a: Seq<char>, b: Seq<char>, p: Seq<char>)
    requires
        forall|j: int| 0 <= j < a.len() ==> !match_at(a + b, p, j),
    ensures
        find(a + b, p) == match find(b, p) {
            Some(k) => Some(k + a.len()),
            None => None,
        },
{
    lemma_find(b, p);
    lemma_find(a + b, p);
    match find(b, p) {
        Some(k) => {
            lemma_match_shift(a, b, p, k);
            assert forall|j: int| 0 <= j < k + a.len() implies !match_at(a + b, p, j) by {
                if j >= a.len() {
                    lemma_match_shift(a, b, p, j - a.len());
                }
            }
            lemma_find_unique(a + b, p, k + a.len());
        },
        None => {
            match find(a + b, p) {
                Some(k2) => {
                    lemma_match_shift(a, b, p, k2 - a.len());
                },
                None => {},
            }
        },
    }
}

/// Lines that lack `c` joined by line breaks lack `c`, for `c` other than
/// the line break.
pub proof fn lemma_join_lacks(ls: Seq<Seq<char>>, c: char)
    requires
        c != '\n',
        forall|i: int| 0 <= i < ls.len() ==> lacks(#[trigger] ls[i], c),
    ensures
        lacks(join_lines(ls), c),
    decreases ls.len(),
{
    if ls.len() > 1 {
        assert forall|i: int| 0 <= i < ls.drop_last().len() implies lacks(
            #[trigger] ls.drop_last()[i],
            c,
        ) by {
            assert(ls.drop_last()[i] == ls[i]);
        }
        lemma_join_lacks(ls.drop_last(), c);
        assert(lacks(ls.last(), c));
    } else if ls.len() == 1 {
        assert(lacks(ls[0], c));
    }
}

// ---------------------------------------------------------------------------
// Executable operations
// ---------------------------------------------------------------------------

/// Appends one character to a `String` (std's `String::push`).
#[verifier::external_body]
fn string_push(s: &mut String, c: char)
    ensures
        final(s)@ == old(s)@.push(c),
{
    s.push(c);
}

/// The characters of a string slice, in order.
pub fn chars_of(s: &str) -> (res: Vec<char>)
    ensures
        res@ == s@,
{
    let mut res: Vec<char> = Vec::new();
    for c in it: s.chars()
        invariant
            res@ == it.seq().take(it.index() as int),
    {
        res.push(c);
    }
    res
}

/// A `String` holding exactly the given characters.
pub fn string_of(cs: &Vec<char>) -> (res: String)
    ensures
        res@ == cs@,
{
    let mut res = String::new();
    let n = cs.len();
    for i in 0..n
        invariant
            n == cs@.len(),
            res@ == cs@.take(i as int),
    {
        string_push(&mut res, cs[i]);
        assert(cs@.take(i + 1) == cs@.take(i as int).push(cs@[i as int]));
    }
    assert(cs@.take(n as int) == cs@);
    res
}

/// Appends the characters of `src` to `dst`.
pub fn push_all(dst: &mut Vec<char>, src: &Vec<char>)
    ensures
        final(dst)@ == old(dst)@ + src@,
{
    let n = src.len();
    for i in 0..n
        invariant
            n == src@.len(),
            dst@ == old(dst)@ + src@.take(i as int),
    {
        dst.push(src[i]);
        assert(src@.take(i + 1) == src@.take(i as int).push(src@[i as int]));
    }
    assert(src@.take(n as int) == src@);
}

/// Appends the characters of a string slice to `dst`.
pub fn push_str(dst: &mut Vec<char>, src: &str)
    ensures
        final(dst)@ == old(dst)@ + src@,
{
    let cs = chars_of(src);
    push_all(dst, &cs);
}

/// The characters `cs[lo..hi]` as a new vector.
pub fn slice(cs: &Vec<char>, lo: usize, hi: usize) -> (res: Vec<char>)
    requires
        lo <= hi <= cs@.len(),
    ensures
        res@ == cs@.subrange(lo as int, hi as int),
{
    let mut res: Vec<char> = Vec::new();
    let mut i = lo;
    while i < hi
        invariant
            lo <= i <= hi <= cs@.len(),
            res@ == cs@.subrange(lo as int, i as int),
        decreases hi - i,
    {
        res.push(cs[i]);
        assert(cs@.subrange(lo as int, i + 1) == cs@.subrange(lo as int, i as int).push(
            cs@[i as int],
        ));
        i = i + 1;
    }
    res
}

/// Whether `c` is Unicode white space (`char::is_whitespace`).
pub fn is_whitespace(c: char) -> (res: bool)
    ensures
        res == is_ws(c),
{
    let v = c as u32;
    (0x09 <= v && v <= 0x0d) || v == 0x20 || v == 0x85 || v == 0xa0 || v == 0x1680 || (0x2000
        <= v && v <= 0x200a) || v == 0x2028 || v == 0x2029 || v == 0x202f || v == 0x205f || v
        == 0x3000
}

/// Position of the first character of `s` that is not white space.
fn trim_start_index(cs: &Vec<char>) -> (i: usize)
    ensures
        i <= cs@.len(),
        trim_start(cs@) == cs@.subrange(i as int, cs@.len() as int),
{
    let n = cs.len();
    let mut i: usize = 0;
    assert(cs@.subrange(0, n as int) == cs@);
    while i < n && is_whitespace(cs[i])
        invariant
            n == cs@.len(),
            i <= n,
            trim_start(cs@) == trim_start(cs@.subrange(i as int, n as int)),
        decreases n - i,
    {
        assert(cs@.subrange(i as int, n as int).drop_first() == cs@.subrange(i + 1, n as int));
        i = i + 1;
    }
    i
}

/// End of the characters of `cs[lo..]` before its trailing white space.
fn trim_end_index(cs: &Vec<char>, lo: usize) -> (j: usize)
    requires
        lo <= cs@.len(),
    ensures
        lo <= j <= cs@.len(),
        trim_end(cs@.subrange(lo as int, cs@.len() as int)) == cs@.subrange(lo as int, j as int),
{
    let n = cs.len();
    let mut j: usize = n;
    while j > lo && is_whitespace(cs[j - 1])
        invariant
            n == cs@.len(),
            lo <= j <= n,
            trim_end(cs@.subrange(lo as int, n as int)) == trim_end(
                cs@.subrange(lo as int, j as int),
            ),
        decreases j,
    {
        assert(cs@.subrange(lo as int, j as int).drop_last() == cs@.subrange(
            lo as int,
            j - 1,
        ));
        j = j - 1;
    }
    j
}

/// `cs` without leading and trailing white space (`str::trim`).
pub fn trim_chars(cs: &Vec<char>) -> (res: Vec<char>)
    ensures
        res@ == trim(cs@),
{
    let i = trim_start_index(cs);
    let j = trim_end_index(cs, i);
    slice(cs, i, j)
}

/// `cs` without leading white space (`str::trim_start`).
pub fn trim_start_chars(cs: &Vec<char>) -> (res: Vec<char>)
    ensures
        res@ == trim_start(cs@),
{
    let i = trim_start_index(cs);
    slice(cs, i, cs.len())
}

/// `cs` without trailing white space (`str::trim_end`).
pub fn trim_end_chars(cs: &Vec<char>) -> (res: Vec<char>)
    ensures
        res@ == trim_end(cs@),
{
    let j = trim_end_index(cs, 0);
    assert(cs@.subrange(0, cs@.len() as int) == cs@);
    slice(cs, 0, j)
}

/// `cs` without every trailing `c` (`str::trim_end_matches` with a char).
pub fn trim_end_char_chars(cs: &Vec<char>, c: char) -> (res: Vec<char>)
    ensures
        res@ == trim_end_char(cs@, c),
{
    let n = cs.len();
    let mut j: usize = n;
    assert(cs@.subrange(0, n as int) == cs@);
    while j > 0 && cs[j - 1] == c
        invariant
            n == cs@.len(),
            j <= n,
            trim_end_char(cs@, c) == trim_end_char(cs@.subrange(0, j as int), c),
        decreases j,
    {
        assert(cs@.subrange(0, j as int).drop_last() == cs@.subrange(0, j - 1));
        j = j - 1;
    }
    slice(cs, 0, j)
}

/// Whether `p` occurs in `s` at position `i`.
pub fn matches_at(s: &Vec<char>, p: &Vec<char>, i: usize) -> (res: bool)
    ensures
        res == match_at(s@, p@, i as int),
{
    if i > s.len() || p.len() > s.len() - i {
        return false;
    }
    let m = p.len();
    let sl = s.len();
    let mut k: usize = 0;
    while k < m
        invariant
            m == p@.len(),
            sl == s@.len(),
            i + m <= sl,
            k <= m,
            forall|t: int| 0 <= t < k ==> s@[i + t] == p@[t],
        decreases m - k,
    {
        assert(i + k < s@.len());
        if s[i + k] != p[k] {
            assert(s@.subrange(i as int, i + m)[k as int] != p@[k as int]);
            return false;
        }
        k = k + 1;
    }
    assert(s@.subrange(i as int, i + m) == p@);
    true
}

/// Whether `a` and `b` hold the same characters.
pub fn chars_eq(a: &Vec<char>, b: &Vec<char>) -> (res: bool)
    ensures
        res == (a@ == b@),
{
    if a.len() != b.len() {
        return false;
    }
    let n = a.len();
    for i in 0..n
        invariant
            n == a@.len(),
            n == b@.len(),
            forall|j: int| 0 <= j < i ==> a@[j] == b@[j],
    {
        if a[i] != b[i] {
            return false;
        }
    }
    assert(a@ == b@);
    true
}

/// Whether `s` begins with `p` (`str::starts_with`).
pub fn starts_with_chars(s: &Vec<char>, p: &Vec<char>) -> (res: bool)
    ensures
        res == starts_with(s@, p@),
{
    let r = matches_at(s, p, 0);
    assert(r ==> s@.subrange(0, p@.len() as int) == s@.take(p@.len() as int));
    r
}

/// The first position at or after `from` where `p` occurs in `s`.
pub fn find_chars_from(s: &Vec<char>, p: &Vec<char>, from: usize) -> (res: Option<usize>)
    ensures
        match res {
            Some(k) => find_from(s@, p@, from as int) == Some(k as int),
            None => find_from(s@, p@, from as int) is None,
        },
{
    let mut i = from;
    while i <= s.len() && p.len() <= s.len() - i
        invariant
            from <= i,
            find_from(s@, p@, from as int) == find_from(s@, p@, i as int),
        decreases s@.len() + 1 - i,
    {
        if matches_at(s, p, i) {
            return Some(i);
        }
        if i == s.len() {
            assert(find_from(s@, p@, i + 1) is None);
            return None;
        }
        i = i + 1;
    }
    None
}

/// The first position where `p` occurs in `s` (`str::find`).
pub fn find_chars(s: &Vec<char>, p: &Vec<char>) -> (res: Option<usize>)
    ensures
        match res {
            Some(k) => find(s@, p@) == Some(k as int),
            None => find(s@, p@) is None,
        },
{
    find_chars_from(s, p, 0)
}

/// The lines of `cs` (`str::lines`).
pub fn lines_of(cs: &Vec<char>) -> (res: Vec<Vec<char>>)
    ensures
        views(res@) == lines(cs@),
{
    let n = cs.len();
    let mut out: Vec<Vec<char>> = Vec::new();
    let mut cur: Vec<char> = Vec::new();
    assert(cs@.subrange(0, n as int) == cs@);
    for i in 0..n
        invariant
            n == cs@.len(),
            lines(cs@) == views(out@) + lines_from(cs@.subrange(i as int, n as int), cur@),
    {
        let ghost rest = cs@.subrange(i as int, n as int);
        assert(rest.drop_first() == cs@.subrange(i + 1, n as int));
        if cs[i] == '\n' {
            let mut line = cur;
            if line.len() > 0 && line[line.len() - 1] == '\r' {
                line.pop();
            }
            let ghost old_out = out@;
            out.push(line);
            assert(views(out@) == views(old_out) + seq![line@]);
            cur = Vec::new();
        } else {
            cur.push(cs[i]);
        }
    }
    assert(cs@.subrange(n as int, n as int) == Seq::<char>::empty());
    if cur.len() > 0 {
        let ghost old_out = out@;
        out.push(cur);
        assert(views(out@) == views(old_out) + seq![cur@]);
    } else {
        assert(views(out@) + Seq::<Seq<char>>::empty() == views(out@));
    }
    out
}

/// The lines `ls` joined by `\n` (`[String]::join("\n")`).
pub fn join_lines_of(ls: &Vec<Vec<char>>) -> (res: Vec<char>)
    ensures
        res@ == join_lines(views(ls@)),
{
    let n = ls.len();
    let mut out: Vec<char> = Vec::new();
    for i in 0..n
        invariant
            n == ls@.len(),
            out@ == join_lines(views(ls@).take(i as int)),
    {
        assert(views(ls@).take(i + 1).drop_last() == views(ls@).take(i as int));
        if i > 0 {
            out.push('\n');
        }
        push_all(&mut out, &ls[i]);
    }
    assert(views(ls@).take(n as int) == views(ls@));
    out
}

} // verus!

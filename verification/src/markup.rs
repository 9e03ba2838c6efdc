//! The markup that the knowledge base reads in a page's markdown.
//!
//! An internal link is written `[text](u:Target)` (a link that points one
//! way) or `[text](b:Target)` (a link that points both ways). The text may be
//! empty; the target may not. Neither may span a line break. Links are found
//! from left to right without overlapping; for a link that starts at a `[`,
//! the text ends at the first `]` after which the rest of the link follows,
//! and the target ends at the first `)` after at least one character.
//!
//! The summary of a page is its first line that holds more than white space.

use vstd::prelude::*;
use crate::text::{ascii_white_space, is_ws, is_whitespace, trim, trim_end, trim_start};

verus! {

/// The index of the first `)` at or after `k`, unless a line break or the end
/// of `s` comes first.
pub open spec fn close_paren_from(s: Seq<char>, k: int) -> Option<int>
    decreases s.len() - k,
{
    if k < 0 || k >= s.len() {
        None
    } else if s[k] == '\n' {
        None
    } else if s[k] == ')' {
        Some(k)
    } else {
        close_paren_from(s, k + 1)
    }
}

/// Where a link target that starts at `a` ends: the target holds at least
/// one character and ends before the first `)` that follows it on its line.
pub open spec fn target_close(s: Seq<char>, a: int) -> Option<int> {
    if 0 <= a < s.len() && s[a] != '\n' {
        close_paren_from(s, a + 1)
    } else {
        None
    }
}

/// Whether `s[j + 1..]` starts with `(b:` or `(u:`.
pub open spec fn kind_marker_at(s: Seq<char>, j: int) -> bool {
    &&& 0 <= j
    &&& j + 3 < s.len()
    &&& s[j + 1] == '('
    &&& (s[j + 2] == 'b' || s[j + 2] == 'u')
    &&& s[j + 3] == ':'
}

/// When a `]` at `j` closes a link text: the index of the `)` that closes the link.
pub open spec fn tail_at(s: Seq<char>, j: int) -> Option<int> {
    if kind_marker_at(s, j) {
        target_close(s, j + 4)
    } else {
        None
    }
}

/// The first `]` at or after `j`, on the same line, that closes a link text,
/// with the index of the `)` that closes that link.
pub open spec fn text_close_from(s: Seq<char>, j: int) -> Option<(int, int)>
    decreases s.len() - j,
{
    if j < 0 || j >= s.len() {
        None
    } else if s[j] == '\n' {
        None
    } else if s[j] == ']' && tail_at(s, j) is Some {
        Some((j, tail_at(s, j)->0))
    } else {
        text_close_from(s, j + 1)
    }
}

/// The link that starts at `i`, if one does: the index of the `]` that closes
/// its text and the index of the `)` that closes it.
pub open spec fn link_at(s: Seq<char>, i: int) -> Option<(int, int)> {
    if 0 <= i < s.len() && s[i] == '[' {
        text_close_from(s, i + 1)
    } else {
        None
    }
}

proof fn lemma_close_paren_from(s: Seq<char>, k: int)
    ensures
        close_paren_from(s, k) matches Some(m) ==> 0 <= k <= m < s.len() && s[m] == ')',
    decreases s.len() - k,
{
    if 0 <= k < s.len() && s[k] != '\n' && s[k] != ')' {
        lemma_close_paren_from(s, k + 1);
    }
}

proof fn lemma_text_close_from(s: Seq<char>, j: int)
    ensures
        text_close_from(s, j) matches Some((c, k)) ==> {
            &&& 0 <= j <= c
            &&& c + 4 < k < s.len()
            &&& s[c] == ']'
            &&& kind_marker_at(s, c)
            &&& tail_at(s, c) == Some(k)
        },
    decreases s.len() - j,
{
    if 0 <= j < s.len() && s[j] != '\n' {
        if s[j] == ']' && tail_at(s, j) is Some {
            lemma_close_paren_from(s, j + 5);
        } else {
            lemma_text_close_from(s, j + 1);
        }
    }
}

/// Where the parts of a link found at `i` lie.
pub proof fn lemma_link_at(s: Seq<char>, i: int)
    ensures
        link_at(s, i) matches Some((j, k)) ==> {
            &&& 0 <= i < j
            &&& j + 4 < k < s.len()
            &&& s[i] == '['
            &&& s[j] == ']'
            &&& kind_marker_at(s, j)
            &&& s[k] == ')'
        },
{
    if 0 <= i < s.len() && s[i] == '[' {
        lemma_text_close_from(s, i + 1);
        if let Some((j, k)) = link_at(s, i) {
            lemma_close_paren_from(s, j + 5);
        }
    }
}

proof fn lemma_close_paren_over(s: Seq<char>, k: int, m: int)
    requires
        0 <= k <= m < s.len(),
        s[m] == ')',
        forall|i: int| k <= i < m ==> #[trigger] s[i] != ')' && s[i] != '\n',
    ensures
        close_paren_from(s, k) == Some(m),
    decreases m - k,
{
    if k < m {
        lemma_close_paren_over(s, k + 1, m);
    }
}

proof fn lemma_text_close_over(s: Seq<char>, j: int, c: int)
    requires
        0 <= j <= c < s.len(),
        s[c] == ']',
        tail_at(s, c) is Some,
        forall|i: int|
            j <= i < c ==> #[trigger] s[i] != '\n' && (s[i] == ']' ==> tail_at(s, i) is None),
    ensures
        text_close_from(s, j) == Some((c, tail_at(s, c)->0)),
    decreases c - j,
{
    if j < c {
        lemma_text_close_over(s, j + 1, c);
    }
}

/// The text of an internal link: `[`, the link text `x`, `](` followed by the
/// kind `b` or `u` and `:`, the target `t` and `)`.
pub open spec fn link_markup(x: Seq<char>, kind: char, t: Seq<char>) -> Seq<char> {
    seq!['['] + x + seq![']', '(', kind, ':'] + t + seq![')']
}

/// Whether `x` can be the text of a link: it spans no line break, and no `]`
/// in it is followed by `(`.
pub open spec fn link_text_ok(x: Seq<char>) -> bool {
    forall|i: int|
        0 <= i < x.len() ==> #[trigger] x[i] != '\n' && (x[i] == ']' && i + 1 < x.len() ==> x[i
            + 1] != '(')
}

/// Whether `t` can be the target of a link: it is not empty, spans no line
/// break, and holds no `)` after its first character.
pub open spec fn link_target_ok(t: Seq<char>) -> bool {
    &&& t.len() > 0
    &&& forall|i: int| 0 <= i < t.len() ==> #[trigger] t[i] != '\n' && (i > 0 ==> t[i] != ')')
}

/// Whether `s` holds no `[` from `q` up to `p`, so that no link starts there.
pub open spec fn no_open_bracket(s: Seq<char>, q: int, p: int) -> bool {
    forall|i: int| q <= i < p ==> #[trigger] s[i] != '['
}

/// Where no `[` stands, no link starts: the search passes over such a stretch.
pub proof fn lemma_links_pass_plain_text(s: Seq<char>, q: int, p: int)
    requires
        0 <= q <= p <= s.len(),
        no_open_bracket(s, q, p),
    ensures
        links_from(s, q) == links_from(s, p),
    decreases p - q,
{
    if q < p {
        lemma_links_pass_plain_text(s, q + 1, p);
    }
}

/// Law: `[x](u:t)` and `[x](b:t)` form a link whatever characters the text
/// and the target start with, as long as the text spans no line break and
/// holds no `](`, and the target is not empty, spans no line break and holds
/// no `)` after its first character. The link ends at its own `)`, whatever
/// follows it.
pub proof fn lemma_link_markup(x: Seq<char>, kind: char, t: Seq<char>, post: Seq<char>)
    requires
        link_text_ok(x),
        link_target_ok(t),
        kind == 'b' || kind == 'u',
    ensures
        link_at(link_markup(x, kind, t) + post, 0) == Some(
            (x.len() + 1int, link_markup(x, kind, t).len() - 1int),
        ),
        links_of(link_markup(x, kind, t) + post) == seq![
            (0int, x.len() + 1int, link_markup(x, kind, t).len() - 1int),
        ] + links_from(link_markup(x, kind, t) + post, link_markup(x, kind, t).len() as int),
{
    let l = link_markup(x, kind, t);
    let s = l + post;
    let c: int = x.len() + 1int;
    let k: int = l.len() - 1int;
    assert(s[0] == '[');
    assert(s[c] == ']' && s[c + 1] == '(' && s[c + 2] == kind && s[c + 3] == ':');
    assert(s[k] == ')');
    assert(s[c + 4] == t[0]);
    assert forall|i: int| c + 5 <= i < k implies #[trigger] s[i] != ')' && s[i] != '\n' by {
        assert(s[i] == t[i - c - 4]);
    }
    assert forall|i: int| 1 <= i < c implies #[trigger] s[i] != '\n' && (s[i] == ']' ==> tail_at(
        s,
        i,
    ) is None) by {
        assert(s[i] == x[i - 1]);
        if i + 1 < c {
            assert(s[i + 1] == x[i]);
        } else {
            assert(s[i + 1] == ']');
        }
    }
    lemma_close_paren_over(s, c + 5, k);
    assert(tail_at(s, c) == Some(k));
    lemma_text_close_over(s, 1, c);
    assert(links_from(s, 0) =~= seq![(0int, c, k)] + links_from(s, k + 1));
}

/// The links of `s` that start at or after `p`, from left to right, each as
/// (index of `[`, index of `]`, index of `)`). A link found is skipped as a
/// whole before the search goes on.
pub open spec fn links_from(s: Seq<char>, p: int) -> Seq<(int, int, int)>
    decreases s.len() - p,
{
    if p < 0 || p >= s.len() {
        Seq::empty()
    } else {
        match link_at(s, p) {
            Some((j, k)) => {
                proof {
                    lemma_link_at(s, p);
                }
                seq![(p, j, k)] + links_from(s, k + 1)
            },
            None => links_from(s, p + 1),
        }
    }
}

/// All the links of `s`.
pub open spec fn links_of(s: Seq<char>) -> Seq<(int, int, int)> {
    links_from(s, 0)
}

/// The index of the first `)` at or after `k` on its line, as [`close_paren_from`] says.
fn find_close_paren(cs: &Vec<char>, k: usize) -> (r: Option<usize>)
    ensures
        match r {
            Some(m) => close_paren_from(cs@, k as int) == Some(m as int),
            None => close_paren_from(cs@, k as int) is None,
        },
{
    let mut m = k;
    while m < cs.len()
        invariant
            k <= m,
            close_paren_from(cs@, k as int) == close_paren_from(cs@, m as int),
        decreases cs.len() - m,
    {
        if cs[m] == '\n' {
            return None;
        }
        if cs[m] == ')' {
            return Some(m);
        }
        m = m + 1;
    }
    None
}

/// The end of the link whose text a `]` at `j` would close, as [`tail_at`] says.
fn find_tail(cs: &Vec<char>, j: usize) -> (r: Option<usize>)
    ensures
        match r {
            Some(k) => tail_at(cs@, j as int) == Some(k as int),
            None => tail_at(cs@, j as int) is None,
        },
{
    if j < cs.len() && cs.len() - j > 4 && cs[j + 1] == '(' && (cs[j + 2] == 'b' || cs[j + 2]
        == 'u') && cs[j + 3] == ':' && cs[j + 4] != '\n' {
        find_close_paren(cs, j + 5)
    } else {
        None
    }
}

/// The link that starts at `i`, as [`link_at`] says.
pub fn find_link_at(cs: &Vec<char>, i: usize) -> (r: Option<(usize, usize)>)
    ensures
        match r {
            Some((j, k)) => link_at(cs@, i as int) == Some((j as int, k as int)),
            None => link_at(cs@, i as int) is None,
        },
{
    if i >= cs.len() || cs[i] != '[' {
        return None;
    }
    let mut j = i + 1;
    while j < cs.len()
        invariant
            i < j,
            i < cs.len(),
            cs@[i as int] == '[',
            link_at(cs@, i as int) == text_close_from(cs@, j as int),
        decreases cs.len() - j,
    {
        if cs[j] == '\n' {
            return None;
        }
        if cs[j] == ']' {
            match find_tail(cs, j) {
                Some(k) => {
                    return Some((j, k));
                },
                None => {},
            }
        }
        j = j + 1;
    }
    None
}

/// The first index at or after `q` that does not hold white space, or the length of `s`.
pub open spec fn skip_ws_from(s: Seq<char>, q: int) -> int
    decreases s.len() - q,
{
    if q < 0 || q >= s.len() {
        s.len() as int
    } else if is_ws(s[q]) {
        skip_ws_from(s, q + 1)
    } else {
        q
    }
}

/// The index of the first line break at or after `q`, or the length of `s`.
pub open spec fn line_end_from(s: Seq<char>, q: int) -> int
    decreases s.len() - q,
{
    if q < 0 || q >= s.len() {
        s.len() as int
    } else if s[q] == '\n' {
        q
    } else {
        line_end_from(s, q + 1)
    }
}

/// The summary of a page's markdown `s`: its first line that holds more than
/// white space, trimmed. Where no such line exists, the summary is empty when
/// `s` holds anything but line breaks, and there is none otherwise.
pub open spec fn summary_of(s: Seq<char>) -> Option<Seq<char>> {
    let p = skip_ws_from(s, 0);
    if p < s.len() {
        Some(trim(s.subrange(p, line_end_from(s, p))))
    } else if exists|i: int| 0 <= i < s.len() && s[i] != '\n' {
        Some(Seq::empty())
    } else {
        None
    }
}

/// Whether `s` holds no line break.
pub open spec fn single_line(s: Seq<char>) -> bool {
    forall|i: int| 0 <= i < s.len() ==> #[trigger] s[i] != '\n'
}

proof fn lemma_line_end_single_line(s: Seq<char>, q: int)
    requires
        0 <= q <= s.len(),
    ensures
        q <= line_end_from(s, q) <= s.len(),
        single_line(s.subrange(q, line_end_from(s, q))),
    decreases s.len() - q,
{
    if q < s.len() && s[q] != '\n' {
        lemma_line_end_single_line(s, q + 1);
        let e = line_end_from(s, q);
        assert forall|i: int| 0 <= i < e - q implies #[trigger] s.subrange(q, e)[i] != '\n' by {
            if i > 0 {
                assert(s.subrange(q, e)[i] == s.subrange(q + 1, e)[i - 1]);
            }
        }
    }
}

proof fn lemma_trim_single_line(s: Seq<char>)
    requires
        single_line(s),
    ensures
        single_line(trim_start(s)),
        single_line(trim_end(s)),
    decreases s.len(),
{
    if s.len() > 0 {
        assert(single_line(s.drop_first()));
        assert(single_line(s.drop_last()));
        lemma_trim_single_line(s.drop_first());
        lemma_trim_single_line(s.drop_last());
    }
}

/// Law: a summary is a single line.
pub proof fn lemma_summary_is_single_line(s: Seq<char>)
    ensures
        summary_of(s) matches Some(t) ==> single_line(t),
{
    let p = skip_ws_from(s, 0);
    if p < s.len() {
        lemma_skip_ws_bound(s, 0);
        lemma_line_end_single_line(s, p);
        let line = s.subrange(p, line_end_from(s, p));
        lemma_trim_single_line(line);
        lemma_trim_single_line(trim_start(line));
    }
}

proof fn lemma_skip_ws_bound(s: Seq<char>, q: int)
    requires
        0 <= q,
    ensures
        q <= s.len() ==> q <= skip_ws_from(s, q) <= s.len(),
    decreases s.len() - q,
{
    if q < s.len() && is_ws(s[q]) {
        lemma_skip_ws_bound(s, q + 1);
    }
}

proof fn lemma_skip_ws_facts(s: Seq<char>, q: int)
    requires
        0 <= q <= s.len(),
    ensures
        q <= skip_ws_from(s, q) <= s.len(),
        forall|i: int| q <= i < skip_ws_from(s, q) ==> is_ws(#[trigger] s[i]),
        skip_ws_from(s, q) < s.len() ==> !is_ws(s[skip_ws_from(s, q)]),
    decreases s.len() - q,
{
    if q < s.len() && is_ws(s[q]) {
        lemma_skip_ws_facts(s, q + 1);
    }
}

proof fn lemma_skip_ws_finds(s: Seq<char>, i: int)
    requires
        0 <= i < s.len(),
        !is_ws(s[i]),
    ensures
        skip_ws_from(s, 0) <= i,
{
    lemma_skip_ws_facts(s, 0);
}

proof fn lemma_line_end_facts(s: Seq<char>, q: int)
    requires
        0 <= q <= s.len(),
    ensures
        q <= line_end_from(s, q) <= s.len(),
        forall|i: int| q <= i < line_end_from(s, q) ==> #[trigger] s[i] != '\n',
        line_end_from(s, q) < s.len() ==> s[line_end_from(s, q)] == '\n',
    decreases s.len() - q,
{
    if q < s.len() && s[q] != '\n' {
        lemma_line_end_facts(s, q + 1);
    }
}

proof fn lemma_skip_ws_suffix(s: Seq<char>, x: Seq<char>, off: int, q: int)
    requires
        ends_with_at(s, x, off),
        0 <= q <= s.len(),
        forall|i: int| q <= i < off ==> is_ws(#[trigger] s[i]),
    ensures
        skip_ws_from(s, q) == skip_ws_from(x, if q < off { 0 } else { q - off }) + off,
    decreases s.len() - q,
{
    if q < s.len() {
        if q >= off {
            assert(s[q] == x[q - off]);
        }
        lemma_skip_ws_suffix(s, x, off, q + 1);
    }
}

proof fn lemma_line_end_suffix(s: Seq<char>, x: Seq<char>, off: int, q: int)
    requires
        ends_with_at(s, x, off),
        off <= q <= s.len(),
    ensures
        line_end_from(s, q) == line_end_from(x, q - off) + off,
    decreases s.len() - q,
{
    if q < s.len() {
        assert(s[q] == x[q - off]);
        lemma_line_end_suffix(s, x, off, q + 1);
    }
}

proof fn lemma_skip_ws_prefix(s: Seq<char>, a: Seq<char>, q: int)
    requires
        line_then(s, a),
        0 <= q <= a.len(),
        skip_ws_from(a, q) < a.len(),
    ensures
        skip_ws_from(s, q) == skip_ws_from(a, q),
    decreases a.len() - q,
{
    assert(s[q] == a[q]);
    if is_ws(a[q]) {
        lemma_skip_ws_prefix(s, a, q + 1);
    }
}

proof fn lemma_line_end_prefix(s: Seq<char>, a: Seq<char>, q: int)
    requires
        line_then(s, a),
        0 <= q <= a.len(),
    ensures
        line_end_from(s, q) == line_end_from(a, q),
    decreases a.len() - q,
{
    if q < a.len() {
        assert(s[q] == a[q]);
        lemma_line_end_prefix(s, a, q + 1);
    }
}

proof fn lemma_trim_start_skips(s: Seq<char>, q: int, p: int)
    requires
        0 <= q <= p <= s.len(),
        forall|i: int| q <= i < p ==> is_ws(#[trigger] s[i]),
    ensures
        trim_start(s.subrange(q, s.len() as int)) == trim_start(s.subrange(p, s.len() as int)),
    decreases p - q,
{
    if q < p {
        crate::text::lemma_trim_start_step(s, q, s.len() as int);
        lemma_trim_start_skips(s, q + 1, p);
    }
}

/// Law: the summary of a single line that holds a character other than white
/// space is that whole line, trimmed.
pub proof fn lemma_summary_of_single_line(s: Seq<char>)
    requires
        single_line(s),
        exists|i: int| 0 <= i < s.len() && !is_ws(#[trigger] s[i]),
    ensures
        summary_of(s) == Some(trim(s)),
{
    let i = choose|i: int| 0 <= i < s.len() && !is_ws(#[trigger] s[i]);
    lemma_skip_ws_finds(s, i);
    lemma_skip_ws_facts(s, 0);
    let p = skip_ws_from(s, 0);
    lemma_line_end_facts(s, p);
    let n = s.len() as int;
    if line_end_from(s, p) < n {
        assert(s[line_end_from(s, p)] != '\n');
    }
    lemma_trim_start_skips(s, 0, p);
    assert(s.subrange(0, n) =~= s);
}

/// Law: only the first line that holds a character other than white space
/// makes the summary; what follows its line break plays no part.
pub proof fn lemma_summary_ignores_later_lines(a: Seq<char>, b: Seq<char>)
    requires
        exists|i: int| 0 <= i < a.len() && !is_ws(#[trigger] a[i]),
    ensures
        summary_of(a + seq!['\n'] + b) == summary_of(a),
{
    let s = a + seq!['\n'] + b;
    assert(line_then(s, a));
    let i = choose|i: int| 0 <= i < a.len() && !is_ws(#[trigger] a[i]);
    lemma_skip_ws_finds(a, i);
    lemma_skip_ws_facts(a, 0);
    let p = skip_ws_from(a, 0);
    lemma_skip_ws_prefix(s, a, 0);
    lemma_line_end_prefix(s, a, p);
    lemma_line_end_facts(a, p);
    let e = line_end_from(a, p);
    assert(s.subrange(p, e) =~= a.subrange(p, e));
}

/// Law: a text has no summary exactly when it holds nothing but line breaks;
/// white space alone, with any character other than a line break, gives an
/// empty summary.
pub proof fn lemma_summary_none_only_for_line_breaks(s: Seq<char>)
    ensures
        summary_of(s) is None <==> forall|i: int| 0 <= i < s.len() ==> #[trigger] s[i] == '\n',
        (forall|i: int| 0 <= i < s.len() ==> is_ws(#[trigger] s[i])) && (exists|i: int|
            0 <= i < s.len() && #[trigger] s[i] != '\n') ==> summary_of(s) == Some(
            Seq::<char>::empty(),
        ),
{
    lemma_skip_ws_facts(s, 0);
    if skip_ws_from(s, 0) < s.len() {
        let p = skip_ws_from(s, 0);
        assert(s[p] != '\n');
        assert(!is_ws(s[p]));
    }
}

/// Law: white space of the ASCII range before the first character that is not
/// white space, line breaks and carriage returns among it, is passed over by
/// the summary; so `"\r\nMy page"` has the summary `"My page"`.
pub proof fn lemma_summary_skips_leading_space(w: Seq<char>, x: Seq<char>)
    requires
        forall|i: int| 0 <= i < w.len() ==> ascii_white_space(#[trigger] w[i]),
        exists|i: int| 0 <= i < x.len() && !is_ws(#[trigger] x[i]),
    ensures
        summary_of(w + x) == summary_of(x),
{
    let s = w + x;
    let off = w.len() as int;
    assert(ends_with_at(s, x, off));
    assert forall|i: int| 0 <= i < off implies is_ws(#[trigger] s[i]) by {
        assert(s[i] == w[i]);
    }
    let i = choose|i: int| 0 <= i < x.len() && !is_ws(#[trigger] x[i]);
    lemma_skip_ws_finds(x, i);
    lemma_skip_ws_facts(x, 0);
    lemma_skip_ws_suffix(s, x, off, 0);
    let p = skip_ws_from(x, 0);
    lemma_line_end_suffix(s, x, off, p + off);
    lemma_line_end_facts(x, p);
    let e = line_end_from(x, p);
    assert(s.subrange(p + off, e + off) =~= x.subrange(p, e));
}

/// Whether `s` begins with `a` followed by a line break.
pub open spec fn line_then(s: Seq<char>, a: Seq<char>) -> bool {
    &&& a.len() < s.len()
    &&& s[a.len() as int] == '\n'
    &&& forall|i: int| 0 <= i < a.len() ==> s[i] == a[i]
}

/// Whether `s` ends with `b`, which starts at `off`.
pub open spec fn ends_with_at(s: Seq<char>, b: Seq<char>, off: int) -> bool {
    &&& 0 <= off
    &&& off + b.len() == s.len()
    &&& forall|i: int| 0 <= i < b.len() ==> s[off + i] == b[i]
}

/// `o` moved by `d`.
pub open spec fn shift_index(o: Option<int>, d: int) -> Option<int> {
    match o {
        Some(x) => Some(x + d),
        None => None,
    }
}

/// `o` moved by `d`.
pub open spec fn shift_pair(o: Option<(int, int)>, d: int) -> Option<(int, int)> {
    match o {
        Some((x, y)) => Some((x + d, y + d)),
        None => None,
    }
}

/// The match `m` moved by `d`.
pub open spec fn shift_match(m: (int, int, int), d: int) -> (int, int, int) {
    (m.0 + d, m.1 + d, m.2 + d)
}

proof fn lemma_close_paren_prefix(s: Seq<char>, a: Seq<char>, k: int)
    requires
        line_then(s, a),
        0 <= k <= a.len(),
    ensures
        close_paren_from(s, k) == close_paren_from(a, k),
    decreases a.len() - k,
{
    if k < a.len() {
        assert(s[k] == a[k]);
        lemma_close_paren_prefix(s, a, k + 1);
    }
}

proof fn lemma_text_close_prefix(s: Seq<char>, a: Seq<char>, j: int)
    requires
        line_then(s, a),
        0 <= j <= a.len(),
    ensures
        text_close_from(s, j) == text_close_from(a, j),
    decreases a.len() - j,
{
    if j < a.len() {
        assert(s[j] == a[j]);
        let n = a.len() as int;
        if j + 3 < n {
            assert(s[j + 1] == a[j + 1] && s[j + 2] == a[j + 2] && s[j + 3] == a[j + 3]);
            if j + 4 < n {
                assert(s[j + 4] == a[j + 4]);
                lemma_close_paren_prefix(s, a, j + 5);
            }
        }
        assert(tail_at(s, j) == tail_at(a, j));
        lemma_text_close_prefix(s, a, j + 1);
    }
}

/// Over a first line, the links of a text are those of the line alone.
pub proof fn lemma_link_at_prefix(s: Seq<char>, a: Seq<char>, p: int)
    requires
        line_then(s, a),
        0 <= p <= a.len(),
    ensures
        link_at(s, p) == link_at(a, p),
{
    if p < a.len() {
        assert(s[p] == a[p]);
        lemma_text_close_prefix(s, a, p + 1);
    }
}

/// The links of `s` from `p` on, where `s` begins with the line `a` and `p`
/// lies in it: those of `a`, then those after the line break.
pub proof fn lemma_links_from_prefix(s: Seq<char>, a: Seq<char>, p: int)
    requires
        line_then(s, a),
        0 <= p <= a.len(),
    ensures
        links_from(s, p) == links_from(a, p) + links_from(s, a.len() as int + 1),
    decreases a.len() - p,
{
    lemma_link_at_prefix(s, a, p);
    if p == a.len() {
        assert(links_from(a, p) =~= Seq::<(int, int, int)>::empty());
        assert(links_from(s, p) == links_from(s, p + 1));
        assert(links_from(s, p) =~= links_from(a, p) + links_from(s, a.len() as int + 1));
    } else {
        match link_at(a, p) {
            Some((j, k)) => {
                lemma_link_at(a, p);
                lemma_links_from_prefix(s, a, k + 1);
                assert(links_from(s, p) =~= links_from(a, p) + links_from(s, a.len() as int + 1));
            },
            None => {
                lemma_links_from_prefix(s, a, p + 1);
            },
        }
    }
}

proof fn lemma_close_paren_suffix(s: Seq<char>, b: Seq<char>, off: int, k: int)
    requires
        ends_with_at(s, b, off),
        off <= k <= s.len(),
    ensures
        close_paren_from(s, k) == shift_index(close_paren_from(b, k - off), off),
    decreases s.len() - k,
{
    if k < s.len() {
        assert(s[k] == b[k - off]);
        lemma_close_paren_suffix(s, b, off, k + 1);
    }
}

proof fn lemma_text_close_suffix(s: Seq<char>, b: Seq<char>, off: int, j: int)
    requires
        ends_with_at(s, b, off),
        off <= j <= s.len(),
    ensures
        text_close_from(s, j) == shift_pair(text_close_from(b, j - off), off),
    decreases s.len() - j,
{
    if j < s.len() {
        let x = j - off;
        assert(s[j] == b[x]);
        if j + 3 < s.len() {
            assert(s[j + 1] == b[x + 1] && s[j + 2] == b[x + 2] && s[j + 3] == b[x + 3]);
            if j + 4 < s.len() {
                assert(s[j + 4] == b[x + 4]);
                lemma_close_paren_suffix(s, b, off, j + 5);
            }
        }
        assert(tail_at(s, j) == shift_index(tail_at(b, x), off));
        lemma_text_close_suffix(s, b, off, j + 1);
    }
}

/// Over a last part `b` of a text, the links of the text are those of `b`, moved.
pub proof fn lemma_link_at_suffix(s: Seq<char>, b: Seq<char>, off: int, q: int)
    requires
        ends_with_at(s, b, off),
        off <= q <= s.len(),
    ensures
        link_at(s, q) == shift_pair(link_at(b, q - off), off),
{
    if q < s.len() {
        assert(s[q] == b[q - off]);
        lemma_text_close_suffix(s, b, off, q + 1);
    }
}

/// The links of `s` from `q` on, where `s` ends with `b` at `off` and `q`
/// lies in `b`: those of `b`, moved by `off`.
pub proof fn lemma_links_from_suffix(s: Seq<char>, b: Seq<char>, off: int, q: int)
    requires
        ends_with_at(s, b, off),
        off <= q <= s.len(),
    ensures
        links_from(s, q) == links_from(b, q - off).map_values(
            |m: (int, int, int)| shift_match(m, off),
        ),
    decreases s.len() - q,
{
    lemma_link_at_suffix(s, b, off, q);
    if q == s.len() {
        assert(links_from(s, q) =~= links_from(b, q - off).map_values(
            |m: (int, int, int)| shift_match(m, off),
        ));
    } else {
        match link_at(b, q - off) {
            Some((j, k)) => {
                lemma_link_at(b, q - off);
                lemma_links_from_suffix(s, b, off, k + off + 1);
                assert(links_from(b, q - off) == seq![(q - off, j, k)] + links_from(b, k + 1));
                assert(links_from(s, q) =~= links_from(b, q - off).map_values(
                    |m: (int, int, int)| shift_match(m, off),
                ));
            },
            None => {
                lemma_links_from_suffix(s, b, off, q + 1);
            },
        }
    }
}

/// Every link found from `p` on lies in `s`, after `p`, in the shape of [`lemma_link_at`].
pub proof fn lemma_links_from_bounds(s: Seq<char>, p: int)
    requires
        0 <= p,
    ensures
        forall|x: int|
            0 <= x < links_from(s, p).len() ==> {
                let m = #[trigger] links_from(s, p)[x];
                &&& p <= m.0 < m.1
                &&& m.1 + 4 < m.2 < s.len()
                &&& link_at(s, m.0) == Some((m.1, m.2))
            },
    decreases s.len() - p,
{
    if p < s.len() {
        match link_at(s, p) {
            Some((j, k)) => {
                lemma_link_at(s, p);
                lemma_links_from_bounds(s, k + 1);
                let rest = links_from(s, k + 1);
                assert forall|x: int| 0 <= x < links_from(s, p).len() implies {
                    let m = #[trigger] links_from(s, p)[x];
                    &&& p <= m.0 < m.1
                    &&& m.1 + 4 < m.2 < s.len()
                    &&& link_at(s, m.0) == Some((m.1, m.2))
                } by {
                    if x > 0 {
                        assert(links_from(s, p)[x] == rest[x - 1]);
                    }
                }
            },
            None => {
                lemma_links_from_bounds(s, p + 1);
            },
        }
    }
}

/// The links of a text made of the line `a`, a line break and `b`: those of
/// `a`, then those of `b` moved past the line break.
pub proof fn lemma_links_of_lines(a: Seq<char>, b: Seq<char>)
    ensures
        links_of(a + seq!['\n'] + b) == links_of(a) + links_of(b).map_values(
            |m: (int, int, int)| shift_match(m, a.len() as int + 1),
        ),
{
    let s = a + seq!['\n'] + b;
    let off = a.len() as int + 1;
    assert(line_then(s, a));
    assert(ends_with_at(s, b, off));
    lemma_links_from_prefix(s, a, 0);
    lemma_links_from_suffix(s, b, off, off);
}

/// The summary of `cs`, as [`summary_of`] says.
pub fn find_summary(cs: &Vec<char>) -> (r: Option<String>)
    ensures
        match r {
            Some(t) => summary_of(cs@) == Some(t@),
            None => summary_of(cs@) is None,
        },
{
    let mut p: usize = 0;
    while p < cs.len() && is_whitespace(cs[p])
        invariant
            p <= cs.len(),
            skip_ws_from(cs@, 0) == skip_ws_from(cs@, p as int),
            forall|x: int| 0 <= x < p ==> is_ws(#[trigger] cs@[x]),
        decreases cs.len() - p,
    {
        p = p + 1;
    }
    if p < cs.len() {
        let mut q = p;
        while q < cs.len() && cs[q] != '\n'
            invariant
                p <= q <= cs.len(),
                line_end_from(cs@, p as int) == line_end_from(cs@, q as int),
            decreases cs.len() - q,
        {
            q = q + 1;
        }
        let (a, b) = crate::text::trim_bounds(cs, p, q);
        Some(crate::text::string_of_range(cs, a, b))
    } else {
        assert(skip_ws_from(cs@, 0) == cs@.len());
        let mut i: usize = 0;
        while i < cs.len()
            invariant
                i <= cs.len(),
                forall|x: int| 0 <= x < i ==> cs@[x] == '\n',
                skip_ws_from(cs@, 0) == cs@.len(),
            decreases cs.len() - i,
        {
            if cs[i] != '\n' {
                assert(cs@[i as int] != '\n');
                let e = String::new();
                assert(e@ =~= Seq::<char>::empty());
                return Some(e);
            }
            i = i + 1;
        }
        None
    }
}

} // verus!

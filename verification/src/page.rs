//! A page of the knowledge base as it is read from its markdown: the text,
//! the summary line and the internal links.

use vstd::prelude::*;
use crate::markup::{find_link_at, find_summary, lemma_link_at, links_from, links_of, summary_of};
use crate::markup::{lemma_links_from_bounds, lemma_links_of_lines, shift_match};
use crate::markup::{ends_with_at, lemma_link_markup, lemma_links_from_suffix, lemma_links_pass_plain_text};
use crate::markup::{link_markup, link_target_ok, link_text_ok, no_open_bracket};
use crate::text::{chars_of, compare_chars, lex_lt, string_of_range, trim, trim_bounds, Order3};
use crate::text::{lemma_lex_irreflexive, lemma_lex_total, lemma_lex_transitive};

verus! {

/// A link as plain values: (target, whether it points both ways, text).
pub type LinkView = (Seq<char>, bool, Seq<char>);

/// An internal link from a page to the page titled `target`. Links are
/// ordered as [`link_lt`] says: by target, then direction, then text.
#[derive(Debug, PartialOrd, Ord)]
pub struct Link {
    pub target: String,
    pub bidirectional: bool,
    pub text: String,
}

impl View for Link {
    type V = LinkView;

    open spec fn view(&self) -> LinkView {
        (self.target@, self.bidirectional, self.text@)
    }
}

impl PartialEq for Link {
    fn eq(&self, other: &Self) -> (r: bool) {
        self.target == other.target && self.bidirectional == other.bidirectional && self.text
            == other.text
    }
}

impl vstd::std_specs::cmp::PartialEqSpecImpl for Link {
    open spec fn obeys_eq_spec() -> bool {
        true
    }

    open spec fn eq_spec(&self, other: &Self) -> bool {
        self@ == other@
    }
}

impl Eq for Link {
}

/// A page: its markdown text, its summary and its links.
#[derive(Debug)]
pub struct Page {
    pub text: String,
    pub summary: Option<String>,
    pub links: Vec<Link>,
}

/// The links of a list, as plain values.
pub open spec fn links_view(links: Seq<Link>) -> Seq<LinkView> {
    links.map_values(|l: Link| l@)
}

/// The summary of a page, as plain values.
pub open spec fn summary_view(summary: Option<String>) -> Option<Seq<char>> {
    match summary {
        Some(t) => Some(t@),
        None => None,
    }
}

/// The link that a match `(i, j, k)` of the link markup in `s` stands for:
/// its target is the trimmed text between `:` and `)`, it points both ways
/// when marked `b`, and its text is the trimmed text between the brackets, or
/// the target where that is empty.
pub open spec fn link_of_match(s: Seq<char>, m: (int, int, int)) -> LinkView {
    let text = trim(s.subrange(m.0 + 1, m.1));
    let target = trim(s.subrange(m.1 + 4, m.2));
    (target, s[m.1 + 2] == 'b', if text.len() > 0 {
        text
    } else {
        target
    })
}

/// The links of a page's markdown `s`, in the order in which they occur.
pub open spec fn page_links(s: Seq<char>) -> Seq<LinkView> {
    links_of(s).map_values(|m: (int, int, int)| link_of_match(s, m))
}

/// The order of links: by target, then links that point one way before links
/// that point both ways, then by text.
pub open spec fn link_lt(a: LinkView, b: LinkView) -> bool {
    ||| lex_lt(a.0, b.0)
    ||| (a.0 == b.0 && !a.1 && b.1)
    ||| (a.0 == b.0 && a.1 == b.1 && lex_lt(a.2, b.2))
}

/// Whether the targets of `out` descend strictly, so that no two links in it
/// share a target.
pub open spec fn strictly_descending(out: Seq<LinkView>) -> bool {
    forall|i: int, j: int| 0 <= i < j < out.len() ==> lex_lt(#[trigger] out[j].0, #[trigger] out[i].0)
}

/// Whether `out` holds a link to the target of `l` that is not less than `l`.
#[verifier::opaque]
pub open spec fn covers(out: Seq<LinkView>, l: LinkView) -> bool {
    exists|i: int| 0 <= i < out.len() && out[i].0 == l.0 && !link_lt(#[trigger] out[i], l)
}

/// What [`Page::unique`] makes of the links `input`: a list of fewer than two
/// links stays as it is. Otherwise the result keeps, for each target, the
/// greatest of the links to it (so a link that points both ways wins over one
/// that points one way), ordered by descending target.
pub open spec fn unique_links(input: Seq<LinkView>, out: Seq<LinkView>) -> bool {
    if input.len() < 2 {
        out == input
    } else {
        &&& strictly_descending(out)
        &&& forall|i: int| 0 <= i < out.len() ==> input.contains(#[trigger] out[i])
        &&& forall|l: LinkView| #[trigger] input.contains(l) ==> covers(out, l)
    }
}

/// The order on links is a strict total order.
pub proof fn lemma_link_order(a: LinkView, b: LinkView, c: LinkView)
    ensures
        !link_lt(a, a),
        !(link_lt(a, b) && link_lt(b, a)),
        a != b ==> (link_lt(a, b) || link_lt(b, a)),
        link_lt(a, b) && link_lt(b, c) ==> link_lt(a, c),
{
    lemma_lex_irreflexive(a.0);
    lemma_lex_irreflexive(a.2);
    lemma_lex_total(a.0, b.0);
    lemma_lex_total(a.2, b.2);
    lemma_lex_total(b.0, c.0);
    lemma_lex_total(a.0, c.0);
    if lex_lt(a.0, b.0) && lex_lt(b.0, c.0) {
        lemma_lex_transitive(a.0, b.0, c.0);
    }
    if lex_lt(a.2, b.2) && lex_lt(b.2, c.2) {
        lemma_lex_transitive(a.2, b.2, c.2);
    }
}

/// Compares two strings in the order [`lex_lt`].
pub fn compare_strings(a: &String, b: &String) -> (r: Order3)
    ensures
        r is Less <==> lex_lt(a@, b@),
        r is Equal <==> a@ == b@,
        r is Greater <==> lex_lt(b@, a@),
{
    let ca = chars_of(a.as_str());
    let cb = chars_of(b.as_str());
    compare_chars(&ca, &cb)
}

/// Whether `a` comes before `b` in the order [`lex_lt`].
pub fn string_lt(a: &String, b: &String) -> (r: bool)
    ensures
        r == lex_lt(a@, b@),
{
    match compare_strings(a, b) {
        Order3::Less => true,
        _ => false,
    }
}

/// Whether `a` comes before `b` in the order of links, both to the same target.
fn same_target_link_lt(a: &Link, b: &Link) -> (r: bool)
    requires
        a.target@ == b.target@,
    ensures
        r == link_lt(a@, b@),
{
    proof {
        lemma_lex_irreflexive(a.target@);
    }
    if a.bidirectional != b.bidirectional {
        b.bidirectional
    } else {
        string_lt(&a.text, &b.text)
    }
}

/// Puts `link` into `out`, a list with strictly descending targets: next to
/// the links with greater targets, or in place of the link to the same target
/// where `link` is greater than it.
fn insert_link(out: &mut Vec<Link>, link: Link)
    requires
        strictly_descending(links_view(old(out)@)),
    ensures
        strictly_descending(links_view(final(out)@)),
        forall|i: int|
            0 <= i < final(out)@.len() ==> links_view(old(out)@).contains(
                #[trigger] links_view(final(out)@)[i],
            ) || links_view(final(out)@)[i] == link@,
        forall|x: LinkView| covers(links_view(old(out)@), x) ==> covers(links_view(final(out)@), x),
        covers(links_view(final(out)@), link@),
{
    reveal(covers);
    let ghost old_v = links_view(out@);
    let mut p: usize = 0;
    while p < out.len() && string_lt(&link.target, &out[p].target)
        invariant
            p <= out.len(),
            out@ == old(out)@,
            old_v == links_view(out@),
            forall|q: int| 0 <= q < p ==> lex_lt(link@.0, #[trigger] old_v[q].0),
        decreases out.len() - p,
    {
        p = p + 1;
    }
    if p < out.len() && link.target == out[p].target {
        if same_target_link_lt(&out[p], &link) {
            let ghost lv = link@;
            out.set(p, link);
            let ghost new_v = links_view(out@);
            assert(new_v =~= old_v.update(p as int, lv));
            proof {
                assert forall|i: int, j: int| 0 <= i < j < new_v.len() implies lex_lt(#[trigger] new_v[j].0, #[trigger] new_v[i].0) by {
                    assert(new_v[i].0 == old_v[i].0);
                    assert(new_v[j].0 == old_v[j].0);
                    assert(lex_lt(old_v[j].0, old_v[i].0));
                }
                assert forall|x: LinkView| covers(old_v, x) implies covers(new_v, x) by {
                    let i = choose|i: int| 0 <= i < old_v.len() && old_v[i].0 == x.0 && !link_lt(#[trigger] old_v[i], x);
                    if i == p {
                        lemma_link_order(x, old_v[i], lv);
                        lemma_link_order(lv, x, old_v[i]);
                        assert(!link_lt(new_v[i], x));
                    } else {
                        assert(new_v[i] == old_v[i]);
                    }
                }
                lemma_link_order(lv, lv, lv);
                assert(new_v[p as int] == lv);
                assert forall|i: int| 0 <= i < new_v.len() implies old_v.contains(#[trigger] new_v[i]) || new_v[i] == lv by {
                    if i != p {
                        assert(new_v[i] == old_v[i]);
                    }
                }
            }
        } else {
            proof {
                assert(old_v[p as int].0 == link@.0);
                assert(covers(old_v, link@));
            }
        }
    } else {
        let ghost lv = link@;
        out.insert(p, link);
        let ghost new_v = links_view(out@);
        assert(new_v =~= old_v.insert(p as int, lv));
        proof {
            if p < old_v.len() {
                lemma_lex_total(lv.0, old_v[p as int].0);
                assert(lex_lt(old_v[p as int].0, lv.0));
            }
            assert forall|i: int, j: int| 0 <= i < j < new_v.len() implies lex_lt(#[trigger] new_v[j].0, #[trigger] new_v[i].0) by {
                if j < p {
                } else if j == p {
                } else if i == p {
                    if j - 1 > p {
                        lemma_lex_transitive(old_v[j - 1].0, old_v[p as int].0, lv.0);
                    }
                } else if i < p {
                    assert(lex_lt(old_v[j - 1].0, old_v[i].0));
                } else {
                    assert(lex_lt(old_v[j - 1].0, old_v[i - 1].0));
                }
            }
            assert forall|x: LinkView| covers(old_v, x) implies covers(new_v, x) by {
                let i = choose|i: int| 0 <= i < old_v.len() && old_v[i].0 == x.0 && !link_lt(#[trigger] old_v[i], x);
                if i < p {
                    assert(new_v[i] == old_v[i]);
                } else {
                    assert(new_v[i + 1] == old_v[i]);
                }
            }
            lemma_link_order(lv, lv, lv);
            assert(new_v[p as int] == lv);
            assert forall|i: int| 0 <= i < new_v.len() implies old_v.contains(#[trigger] new_v[i]) || new_v[i] == lv by {
                if i < p {
                    assert(new_v[i] == old_v[i]);
                } else if i > p {
                    assert(new_v[i] == old_v[i - 1]);
                }
            }
        }
    }
}

/// One more link of `input`, the one at `n - 1`, has been put into `after`.
#[verifier::spinoff_prover]
proof fn lemma_absorbed(input: Seq<LinkView>, n: int, before: Seq<LinkView>, after: Seq<LinkView>)
    requires
        1 <= n <= input.len(),
        forall|i: int|
            0 <= i < before.len() ==> input.subrange(n, input.len() as int).contains(#[trigger] before[i]),
        forall|l: LinkView| #[trigger] input.subrange(n, input.len() as int).contains(l) ==> covers(before, l),
        forall|i: int| 0 <= i < after.len() ==> before.contains(#[trigger] after[i]) || after[i] == input[n - 1],
        forall|x: LinkView| covers(before, x) ==> covers(after, x),
        covers(after, input[n - 1]),
    ensures
        forall|i: int|
            0 <= i < after.len() ==> input.subrange(n - 1, input.len() as int).contains(#[trigger] after[i]),
        forall|l: LinkView| #[trigger] input.subrange(n - 1, input.len() as int).contains(l) ==> covers(after, l),
{
    let lv = input[n - 1];
    let done_before = input.subrange(n, input.len() as int);
    let done_after = input.subrange(n - 1, input.len() as int);
    assert forall|i: int| 0 <= i < after.len() implies done_after.contains(#[trigger] after[i]) by {
        if after[i] == lv {
            assert(done_after[0] == lv);
        } else {
            let q = choose|q: int| 0 <= q < before.len() && before[q] == after[i];
            assert(done_before.contains(before[q]));
            let r = choose|r: int| 0 <= r < done_before.len() && done_before[r] == before[q];
            assert(done_after[r + 1] == done_before[r]);
        }
    }
    assert forall|l: LinkView| #[trigger] done_after.contains(l) implies covers(after, l) by {
        let r = choose|r: int| 0 <= r < done_after.len() && done_after[r] == l;
        if r > 0 {
            assert(done_before[r - 1] == l);
            assert(done_before.contains(l));
            assert(covers(before, l));
        }
    }
}

/// Law: after [`Page::unique`], no two links share a target.
pub proof fn lemma_unique_targets_distinct(input: Seq<LinkView>, out: Seq<LinkView>, i: int, j: int)
    requires
        unique_links(input, out),
        input.len() >= 2,
        0 <= i < out.len(),
        0 <= j < out.len(),
        out[i].0 == out[j].0,
    ensures
        i == j,
{
    lemma_descending_distinct(out, i, j);
}

proof fn lemma_descending_distinct(out: Seq<LinkView>, i: int, j: int)
    requires
        strictly_descending(out),
        0 <= i < out.len(),
        0 <= j < out.len(),
        out[i].0 == out[j].0,
    ensures
        i == j,
{
    lemma_lex_irreflexive(out[i].0);
    if i < j {
        assert(lex_lt(out[j].0, out[i].0));
    } else if j < i {
        assert(lex_lt(out[i].0, out[j].0));
    }
}

/// Law: after [`Page::unique`], a link points both ways exactly when some
/// link of the page to the same target did.
pub proof fn lemma_unique_prefers_bidirectional(input: Seq<LinkView>, out: Seq<LinkView>, i: int)
    requires
        unique_links(input, out),
        input.len() >= 2,
        0 <= i < out.len(),
    ensures
        out[i].1 <==> exists|l: LinkView| #[trigger] input.contains(l) && l.0 == out[i].0 && l.1,
{
    reveal(covers);
    assert(input.contains(out[i]));
    if !out[i].1 {
        assert forall|l: LinkView| #[trigger] input.contains(l) && l.0 == out[i].0 implies !l.1 by {
            assert(covers(out, l));
            let q = choose|q: int| 0 <= q < out.len() && out[q].0 == l.0 && !link_lt(#[trigger] out[q], l);
            lemma_descending_distinct(out, q, i);
        }
    }
}

/// Every element of `xs` is an element of `ys`.
pub open spec fn contained_in(xs: Seq<LinkView>, ys: Seq<LinkView>) -> bool {
    forall|i: int| 0 <= i < xs.len() ==> ys.contains(#[trigger] xs[i])
}

proof fn lemma_result_contained(input: Seq<LinkView>, xs: Seq<LinkView>, ys: Seq<LinkView>)
    requires
        input.len() >= 2,
        unique_links(input, xs),
        unique_links(input, ys),
    ensures
        contained_in(xs, ys),
{
    reveal(covers);
    assert forall|i: int| 0 <= i < xs.len() implies ys.contains(#[trigger] xs[i]) by {
        let x = xs[i];
        assert(input.contains(x));
        assert(covers(ys, x));
        let q = choose|q: int| 0 <= q < ys.len() && ys[q].0 == x.0 && !link_lt(#[trigger] ys[q], x);
        let y = ys[q];
        assert(input.contains(y));
        assert(covers(xs, y));
        let r = choose|r: int| 0 <= r < xs.len() && xs[r].0 == y.0 && !link_lt(#[trigger] xs[r], y);
        lemma_descending_distinct(xs, r, i);
        lemma_link_order(x, y, x);
        assert(y == x);
    }
}

proof fn lemma_descending_equal(xs: Seq<LinkView>, ys: Seq<LinkView>)
    requires
        strictly_descending(xs),
        strictly_descending(ys),
        contained_in(xs, ys),
        contained_in(ys, xs),
    ensures
        xs == ys,
    decreases xs.len(),
{
    if xs.len() == 0 {
        if ys.len() > 0 {
            assert(xs.contains(ys[0]));
        }
        assert(xs =~= ys);
    } else {
        assert(ys.contains(xs[0]));
        let q = choose|q: int| 0 <= q < ys.len() && ys[q] == xs[0];
        assert(xs.contains(ys[0]));
        let r = choose|r: int| 0 <= r < xs.len() && xs[r] == ys[0];
        if q > 0 {
            assert(lex_lt(ys[q].0, ys[0].0));
            lemma_lex_irreflexive(xs[0].0);
            if r > 0 {
                assert(lex_lt(xs[r].0, xs[0].0));
                lemma_lex_total(xs[r].0, xs[0].0);
            }
        }
        assert(ys[0] == xs[0]);
        let xt = xs.drop_first();
        let yt = ys.drop_first();
        assert forall|i: int| 0 <= i < xt.len() implies yt.contains(#[trigger] xt[i]) by {
            assert(ys.contains(xs[i + 1]));
            let p = choose|p: int| 0 <= p < ys.len() && ys[p] == xs[i + 1];
            if p == 0 {
                assert(xs[i + 1].0 == xs[0].0);
                lemma_descending_distinct(xs, 0, i + 1);
            }
            assert(yt[p - 1] == xt[i]);
        }
        assert forall|i: int| 0 <= i < yt.len() implies xt.contains(#[trigger] yt[i]) by {
            assert(xs.contains(ys[i + 1]));
            let p = choose|p: int| 0 <= p < xs.len() && xs[p] == ys[i + 1];
            if p == 0 {
                assert(ys[i + 1].0 == ys[0].0);
                lemma_descending_distinct(ys, 0, i + 1);
            }
            assert(xt[p - 1] == yt[i]);
        }
        assert(strictly_descending(xt)) by {
            assert forall|i: int, j: int| 0 <= i < j < xt.len() implies lex_lt(#[trigger] xt[j].0, #[trigger] xt[i].0) by {
                assert(lex_lt(xs[j + 1].0, xs[i + 1].0));
            }
        }
        assert(strictly_descending(yt)) by {
            assert forall|i: int, j: int| 0 <= i < j < yt.len() implies lex_lt(#[trigger] yt[j].0, #[trigger] yt[i].0) by {
                assert(lex_lt(ys[j + 1].0, ys[i + 1].0));
            }
        }
        lemma_descending_equal(xt, yt);
        assert(xs =~= seq![xs[0]] + xt);
        assert(ys =~= seq![ys[0]] + yt);
    }
}

/// Law: what [`Page::unique`] keeps of a list of links is determined by the list.
pub proof fn lemma_unique_determined(input: Seq<LinkView>, xs: Seq<LinkView>, ys: Seq<LinkView>)
    requires
        unique_links(input, xs),
        unique_links(input, ys),
    ensures
        xs == ys,
{
    if input.len() >= 2 {
        lemma_result_contained(input, xs, ys);
        lemma_result_contained(input, ys, xs);
        lemma_descending_equal(xs, ys);
    }
}

/// Law: [`Page::unique`] applied to its own result changes nothing.
pub proof fn lemma_unique_idempotent(input: Seq<LinkView>, out: Seq<LinkView>, again: Seq<LinkView>)
    requires
        unique_links(input, out),
        unique_links(out, again),
    ensures
        again == out,
{
    if out.len() >= 2 {
        reveal(covers);
        assert forall|i: int| 0 <= i < out.len() implies out.contains(#[trigger] out[i]) by {}
        assert forall|l: LinkView| #[trigger] out.contains(l) implies covers(out, l) by {
            let q = choose|q: int| 0 <= q < out.len() && out[q] == l;
            lemma_link_order(l, l, l);
            assert(out[q].0 == l.0 && !link_lt(out[q], l));
        }
        assert(unique_links(out, out));
        lemma_unique_determined(out, out, again);
    }
}

/// Law: no link spans a line break, so the links of a text made of `a`, a
/// line break and `b` are those of `a` followed by those of `b`.
pub proof fn lemma_links_split_at_line_break(a: Seq<char>, b: Seq<char>)
    ensures
        page_links(a + seq!['\n'] + b) == page_links(a) + page_links(b),
{
    let s = a + seq!['\n'] + b;
    let off = a.len() as int + 1;
    lemma_links_of_lines(a, b);
    lemma_links_from_bounds(a, 0);
    lemma_links_from_bounds(b, 0);
    let la = links_of(a);
    let lb = links_of(b);
    let whole = page_links(s);
    let parts = page_links(a) + page_links(b);
    assert(whole.len() == parts.len());
    assert forall|x: int| 0 <= x < whole.len() implies whole[x] == parts[x] by {
        if x < la.len() {
            let m = la[x];
            assert(links_from(a, 0)[x] == m);
            assert(s.subrange(m.0 + 1, m.1) =~= a.subrange(m.0 + 1, m.1));
            assert(s.subrange(m.1 + 4, m.2) =~= a.subrange(m.1 + 4, m.2));
            assert(s[m.1 + 2] == a[m.1 + 2]);
            assert(links_of(s)[x] == m);
        } else {
            let y = x - la.len();
            let m = lb[y];
            assert(links_from(b, 0)[y] == m);
            let sm = shift_match(m, off);
            assert(links_of(s)[x] == sm);
            assert(s.subrange(sm.0 + 1, sm.1) =~= b.subrange(m.0 + 1, m.1));
            assert(s.subrange(sm.1 + 4, sm.2) =~= b.subrange(m.1 + 4, m.2));
            assert(s[sm.1 + 2] == b[m.1 + 2]);
        }
    }
    assert(whole =~= parts);
}

proof fn lemma_page_links_from_suffix(s: Seq<char>, b: Seq<char>, off: int)
    requires
        ends_with_at(s, b, off),
    ensures
        links_from(s, off).map_values(|m: (int, int, int)| link_of_match(s, m)) == page_links(b),
{
    lemma_links_from_suffix(s, b, off, off);
    lemma_links_from_bounds(b, 0);
    let lb = links_of(b);
    let left = links_from(s, off).map_values(|m: (int, int, int)| link_of_match(s, m));
    let right = page_links(b);
    assert(left.len() == right.len());
    assert forall|x: int| 0 <= x < left.len() implies left[x] == right[x] by {
        let m = lb[x];
        assert(links_from(b, 0)[x] == m);
        let sm = shift_match(m, off);
        assert(links_from(s, off)[x] == sm);
        assert(s.subrange(sm.0 + 1, sm.1) =~= b.subrange(m.0 + 1, m.1));
        assert(s.subrange(sm.1 + 4, sm.2) =~= b.subrange(m.1 + 4, m.2));
        assert(s[sm.1 + 2] == b[m.1 + 2]);
    }
    assert(left =~= right);
}

/// Law: an internal link `[x](u:t)` or `[x](b:t)` after text without `[`
/// is found whatever characters its text and its target start with, as long
/// as the text spans no line break and holds no `](`, and the target is not
/// empty, spans no line break and holds no `)` after its first character. It
/// is the first link of the page: to the trimmed target, pointing both ways
/// when marked `b`, shown with the trimmed text or, where that is empty, the
/// trimmed target. The links of what follows it come after it.
pub proof fn lemma_page_of_one_link(
    pre: Seq<char>,
    x: Seq<char>,
    kind: char,
    t: Seq<char>,
    post: Seq<char>,
)
    requires
        no_open_bracket(pre, 0, pre.len() as int),
        link_text_ok(x),
        link_target_ok(t),
        kind == 'b' || kind == 'u',
    ensures
        page_links(pre + link_markup(x, kind, t) + post) == seq![
            (trim(t), kind == 'b', if trim(x).len() > 0 {
                trim(x)
            } else {
                trim(t)
            }),
        ] + page_links(post),
{
    let l = link_markup(x, kind, t);
    let r = l + post;
    let s = pre + r;
    let n: int = pre.len() as int;
    let c: int = x.len() + 1int;
    let k: int = l.len() - 1int;
    assert(pre + l + post =~= s);
    assert forall|i: int| 0 <= i < n implies #[trigger] s[i] != '[' by {
        assert(s[i] == pre[i]);
    }
    lemma_links_pass_plain_text(s, 0, n);
    assert(ends_with_at(s, r, n));
    lemma_page_links_from_suffix(s, r, n);
    lemma_link_markup(x, kind, t, post);
    assert(ends_with_at(r, post, l.len() as int));
    lemma_page_links_from_suffix(r, post, l.len() as int);
    assert(r.subrange(1, c) =~= x);
    assert(r.subrange(c + 4, k) =~= t);
    assert(r[c + 2] == kind);
    assert(page_links(r) =~= seq![link_of_match(r, (0int, c, k))] + links_from(r, l.len() as int).map_values(
        |m: (int, int, int)| link_of_match(r, m),
    ));
}

impl Page {
    /// Reads a page from its markdown `text`: the text itself, its summary
    /// (see [`summary_of`]) and its links in the order in which they occur
    /// (see [`page_links`]).
    pub fn from(text: &str) -> (r: Self)
        ensures
            r.text@ == text@,
            summary_view(r.summary) == summary_of(text@),
            links_view(r.links@) == page_links(text@),
    {
        let cs = chars_of(text);
        let summary = find_summary(&cs);
        let mut links: Vec<Link> = Vec::new();
        let mut p: usize = 0;
        let ghost mut done: Seq<(int, int, int)> = Seq::empty();
        while p < cs.len()
            invariant
                p <= cs.len(),
                cs@ == text@,
                links_of(cs@) == done + links_from(cs@, p as int),
                links_view(links@) == done.map_values(|m: (int, int, int)| link_of_match(cs@, m)),
            decreases cs.len() - p,
        {
            match find_link_at(&cs, p) {
                Some((j, k)) => {
                    proof {
                        lemma_link_at(cs@, p as int);
                    }
                    let (ta, tb) = trim_bounds(&cs, p + 1, j);
                    let (ua, ub) = trim_bounds(&cs, j + 4, k);
                    let target = string_of_range(&cs, ua, ub);
                    let shown = if ta < tb {
                        string_of_range(&cs, ta, tb)
                    } else {
                        string_of_range(&cs, ua, ub)
                    };
                    let link = Link { target, bidirectional: cs[j + 2] == 'b', text: shown };
                    let ghost m = (p as int, j as int, k as int);
                    assert(link@ == link_of_match(cs@, m));
                    let ghost prev = links@;
                    links.push(link);
                    proof {
                        assert(links_view(links@) =~= links_view(prev).push(link@));
                        assert(done.push(m).map_values(|m: (int, int, int)| link_of_match(cs@, m)) =~= done.map_values(|m: (int, int, int)| link_of_match(cs@, m)).push(link_of_match(cs@, m)));
                        assert(links_from(cs@, p as int) == seq![m] + links_from(cs@, k + 1));
                        assert(done + links_from(cs@, p as int) =~= done.push(m) + links_from(cs@, k + 1));
                        assert(links_view(links@) =~= done.push(m).map_values(|m: (int, int, int)| link_of_match(cs@, m)));
                        done = done.push(m);
                    }
                    p = k + 1;
                },
                None => {
                    assert(links_from(cs@, p as int) == links_from(cs@, p + 1));
                    p = p + 1;
                },
            }
        }
        assert(links_from(cs@, p as int) == Seq::<(int, int, int)>::empty());
        assert(done + Seq::<(int, int, int)>::empty() =~= done);
        Page { text: text.to_owned(), summary, links }
    }

    /// Keeps one link per target: the greatest link to it in the order
    /// [`link_lt`], so that a link that points both ways wins over one that
    /// points one way; the links come out by descending target. A page with
    /// fewer than two links is returned as it is. See [`unique_links`].
    pub fn unique(page: Page) -> (r: Self)
        ensures
            r.text@ == page.text@,
            summary_view(r.summary) == summary_view(page.summary),
            unique_links(links_view(page.links@), links_view(r.links@)),
    {
        if page.links.len() < 2 {
            return page;
        }
        let Page { text, summary, links } = page;
        let mut links = links;
        let ghost input = links_view(links@);
        let mut out: Vec<Link> = Vec::new();
        while links.len() > 0
            invariant
                input.len() >= 2,
                links.len() <= input.len(),
                links_view(links@) == input.subrange(0, links.len() as int),
                strictly_descending(links_view(out@)),
                forall|i: int|
                    0 <= i < out.len() ==> input.subrange(links.len() as int, input.len() as int).contains(
                        #[trigger] links_view(out@)[i],
                    ),
                forall|l: LinkView|
                    #[trigger] input.subrange(links.len() as int, input.len() as int).contains(l)
                        ==> covers(links_view(out@), l),
            decreases links.len(),
        {
            let ghost n = links.len() as int;
            let ghost before = links_view(out@);
            let ghost pre = links@;
            let link = links.pop().unwrap();
            let ghost lv = link@;
            assert(links@ =~= pre.drop_last());
            assert(link == pre.last());
            assert(lv == input[n - 1]) by {
                assert(links_view(pre)[n - 1] == pre[n - 1]@);
                assert(input.subrange(0, n)[n - 1] == input[n - 1]);
            };
            assert(links_view(links@) =~= input.subrange(0, n - 1)) by {
                assert forall|i: int| 0 <= i < n - 1 implies links_view(links@)[i] == input[i] by {
                    assert(links_view(pre)[i] == input.subrange(0, n)[i]);
                }
            };
            insert_link(&mut out, link);
            proof {
                lemma_absorbed(input, n, before, links_view(out@));
            }
        }
        assert(input.subrange(0, input.len() as int) =~= input);
        Page { text, summary, links: out }
    }
}

} // verus!

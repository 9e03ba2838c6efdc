//! Rewriting of internal links before markdown is rendered, percent-encoding
//! of link targets, and the rendering of markdown to HTML.

use vstd::prelude::*;
use vstd::utf8::encode_utf8;
use crate::error::{KBError, KBResult};
use crate::markup::{find_link_at, lemma_link_at, link_at, links_from, links_of};
use crate::markup::{ends_with_at, lemma_link_at_prefix, lemma_link_at_suffix, line_then};
use crate::markup::{lemma_link_markup, link_markup, link_target_ok, link_text_ok, no_open_bracket};
use crate::text::{chars_of, push_range, string_of_range};

verus! {

/// Whether the ASCII byte `b` belongs to the fragment set of percent-encoding:
/// the controls, space, `"`, `<`, `>` and `` ` ``.
pub open spec fn in_fragment_set(b: u8) -> bool {
    b <= 0x1f || b == 0x7f || b == 0x20 || b == 0x22 || b == 0x3c || b == 0x3e || b == 0x60
}

/// Whether percent-encoding with the fragment set escapes the byte `b`:
/// every byte outside ASCII, and every byte of the set.
pub open spec fn must_escape(b: u8) -> bool {
    b >= 0x80 || in_fragment_set(b)
}

fn escapes(b: u8) -> (r: bool)
    ensures
        r == must_escape(b),
{
    b >= 0x80 || b <= 0x1f || b == 0x7f || b == 0x20 || b == 0x22 || b == 0x3c || b == 0x3e || b
        == 0x60
}

/// The upper-case hexadecimal digit for `n` (below 16).
pub open spec fn hex_digit(n: int) -> char {
    if n < 10 {
        (48 + n) as char
    } else {
        (55 + n) as char
    }
}

/// `b` escaped: `%` followed by its two upper-case hexadecimal digits.
pub open spec fn escaped_byte(b: u8) -> Seq<char> {
    seq!['%', hex_digit(b as int / 16), hex_digit(b as int % 16)]
}

/// The bytes `bytes` percent-encoded with the fragment set: each byte that
/// [`must_escape`] is escaped, each other byte stands as the ASCII character it is.
pub open spec fn percent_encoded(bytes: Seq<u8>) -> Seq<char>
    decreases bytes.len(),
{
    if bytes.len() == 0 {
        Seq::empty()
    } else {
        let b = bytes.last();
        percent_encoded(bytes.drop_last()) + if must_escape(b) {
            escaped_byte(b)
        } else {
            seq![b as char]
        }
    }
}

/// `percent_encoding::percent_encode_byte`: the escape of one byte, `%`
/// followed by the byte's two upper-case hexadecimal digits.
#[verifier::external_body]
fn escape_byte(b: u8) -> (r: &'static str)
    ensures
        r@ == escaped_byte(b),
{
    percent_encoding::percent_encode_byte(b)
}

/// Percent-encodes the UTF-8 encoding of `input` with the fragment set.
pub fn utf8_percent_encode(input: &str) -> (r: String)
    ensures
        r@ == percent_encoded(encode_utf8(input@)),
{
    let bytes = input.as_bytes();
    let mut out = String::new();
    let mut i: usize = 0;
    while i < bytes.len()
        invariant
            i <= bytes@.len(),
            bytes@ == encode_utf8(input@),
            out@ == percent_encoded(bytes@.subrange(0, i as int)),
        decreases bytes@.len() - i,
    {
        let b = bytes[i];
        assert(bytes@.subrange(0, i + 1).drop_last() =~= bytes@.subrange(0, i as int));
        if escapes(b) {
            out.append(escape_byte(b));
        } else {
            out.push(b as char);
        }
        i = i + 1;
    }
    assert(bytes@.subrange(0, i as int) =~= bytes@);
    out
}

/// The markdown that stands in for a link matched at `m` of `s`: the link
/// text (or, where it is empty, the target) in brackets, and in parentheses
/// `prefix` followed by the target percent-encoded with the fragment set.
pub open spec fn link_replacement(s: Seq<char>, m: (int, int, int), prefix: Seq<char>) -> Seq<char> {
    let text = s.subrange(m.0 + 1, m.1);
    let url = s.subrange(m.1 + 4, m.2);
    let shown = if text.len() == 0 {
        url
    } else {
        text
    };
    seq!['['] + shown + seq![']', '('] + prefix + percent_encoded(encode_utf8(url))
        + seq![')']
}

/// `s` from `p` on, with each link found (see [`links_from`]) replaced by its
/// [`link_replacement`] and everything else kept.
pub open spec fn preprocessed_from(s: Seq<char>, prefix: Seq<char>, p: int) -> Seq<char>
    decreases s.len() - p,
{
    if p < 0 || p >= s.len() {
        Seq::empty()
    } else {
        match link_at(s, p) {
            Some((j, k)) => {
                proof {
                    lemma_link_at(s, p);
                }
                link_replacement(s, (p, j, k), prefix) + preprocessed_from(s, prefix, k + 1)
            },
            None => seq![s[p]] + preprocessed_from(s, prefix, p + 1),
        }
    }
}

/// `s` with every internal link rewritten into a plain markdown link.
pub open spec fn preprocessed(s: Seq<char>, prefix: Seq<char>) -> Seq<char> {
    preprocessed_from(s, prefix, 0)
}

/// Rewrites one internal link, with text `text` and target `url`, into a
/// markdown link to `prefix` followed by the percent-encoded target; an empty
/// text shows the target.
pub fn encode_internal_link_with_spaces(text: &str, url: &str, prefix: &str) -> (r: KBResult<
    String,
>)
    ensures
        r matches Ok(t) && t@ == seq!['['] + (if text@.len() == 0 {
            url@
        } else {
            text@
        }) + seq![']', '('] + prefix@ + percent_encoded(encode_utf8(url@))
            + seq![')'],
{
    let encoded = utf8_percent_encode(url);
    let mut out = String::new();
    out.push('[');
    if text.is_empty() {
        out.append(url);
    } else {
        out.append(text);
    }
    out.push(']');
    out.push('(');
    out.append(prefix);
    out.append(encoded.as_str());
    out.push(')');
    let ghost shown = if text@.len() == 0 {
        url@
    } else {
        text@
    };
    assert(out@ =~= seq!['['] + shown + seq![']', '('] + prefix@ + percent_encoded(encode_utf8(url@)) + seq![')']);
    Ok(out)
}

/// Rewrites each internal link of `text` (see [`links_of`]) into a markdown
/// link whose destination is `prefix` followed by the percent-encoded target
/// (see [`preprocessed`]); everything else is kept as it stands.
pub fn preprocess_internal_links(text: &str, prefix: &str) -> (r: KBResult<String>)
    ensures
        r matches Ok(t) && t@ == preprocessed(text@, prefix@),
{
    let cs = chars_of(text);
    let ghost s = cs@;
    let ghost total = preprocessed(s, prefix@);
    let mut out = String::new();
    let mut last: usize = 0;
    let mut p: usize = 0;
    while p < cs.len()
        invariant
            last <= p <= cs.len(),
            s == cs@,
            total == preprocessed(s, prefix@),
            out@ + s.subrange(last as int, p as int) + preprocessed_from(s, prefix@, p as int)
                == total,
        decreases cs.len() - p,
    {
        match find_link_at(&cs, p) {
            Some((j, k)) => {
                proof {
                    lemma_link_at(s, p as int);
                }
                let ghost before = out@;
                push_range(&mut out, &cs, last, p);
                let shown = string_of_range(&cs, p + 1, j);
                let url = string_of_range(&cs, j + 4, k);
                let piece = match encode_internal_link_with_spaces(
                    shown.as_str(),
                    url.as_str(),
                    prefix,
                ) {
                    Ok(piece) => piece,
                    Err(e) => {
                        return Err(e);
                    },
                };
                out.append(piece.as_str());
                proof {
                    let m = (p as int, j as int, k as int);
                    assert(piece@ == link_replacement(s, m, prefix@));
                    assert(preprocessed_from(s, prefix@, p as int) == link_replacement(s, m, prefix@)
                        + preprocessed_from(s, prefix@, k + 1));
                    assert(s.subrange(k + 1, k + 1) =~= Seq::<char>::empty());
                    assert(out@ + s.subrange(k + 1, k + 1) + preprocessed_from(s, prefix@, k + 1)
                        =~= before + s.subrange(last as int, p as int) + preprocessed_from(
                        s,
                        prefix@,
                        p as int,
                    ));
                }
                last = k + 1;
                p = k + 1;
            },
            None => {
                proof {
                    assert(preprocessed_from(s, prefix@, p as int) == seq![s[p as int]]
                        + preprocessed_from(s, prefix@, p + 1));
                    assert(s.subrange(last as int, p + 1) =~= s.subrange(last as int, p as int)
                        + seq![s[p as int]]);
                    assert(out@ + s.subrange(last as int, p + 1) + preprocessed_from(s, prefix@, p + 1)
                        =~= out@ + s.subrange(last as int, p as int) + preprocessed_from(
                        s,
                        prefix@,
                        p as int,
                    ));
                }
                p = p + 1;
            },
        }
    }
    let ghost before = out@;
    push_range(&mut out, &cs, last, p);
    assert(preprocessed_from(s, prefix@, p as int) =~= Seq::<char>::empty());
    assert(out@ =~= before + s.subrange(last as int, p as int) + preprocessed_from(
        s,
        prefix@,
        p as int,
    ));
    Ok(out)
}

proof fn lemma_preprocess_prefix(s: Seq<char>, a: Seq<char>, prefix: Seq<char>, p: int)
    requires
        line_then(s, a),
        0 <= p <= a.len(),
    ensures
        preprocessed_from(s, prefix, p) == preprocessed_from(a, prefix, p) + seq!['\n']
            + preprocessed_from(s, prefix, a.len() as int + 1),
    decreases a.len() - p,
{
    let n = a.len() as int;
    lemma_link_at_prefix(s, a, p);
    if p == n {
        assert(preprocessed_from(a, prefix, p) =~= Seq::<char>::empty());
        assert(preprocessed_from(s, prefix, p) == seq![s[p]] + preprocessed_from(s, prefix, p + 1));
        assert(preprocessed_from(s, prefix, p) =~= preprocessed_from(a, prefix, p) + seq!['\n']
            + preprocessed_from(s, prefix, n + 1));
    } else {
        match link_at(a, p) {
            Some((j, k)) => {
                lemma_link_at(a, p);
                lemma_preprocess_prefix(s, a, prefix, k + 1);
                assert(s.subrange(p + 1, j) =~= a.subrange(p + 1, j));
                assert(s.subrange(j + 4, k) =~= a.subrange(j + 4, k));
                assert(link_replacement(s, (p, j, k), prefix) == link_replacement(a, (p, j, k), prefix));
                assert(preprocessed_from(s, prefix, p) =~= preprocessed_from(a, prefix, p) + seq!['\n']
                    + preprocessed_from(s, prefix, n + 1));
            },
            None => {
                lemma_preprocess_prefix(s, a, prefix, p + 1);
                assert(s[p] == a[p]);
                assert(preprocessed_from(s, prefix, p) =~= preprocessed_from(a, prefix, p) + seq!['\n']
                    + preprocessed_from(s, prefix, n + 1));
            },
        }
    }
}

proof fn lemma_preprocess_suffix(s: Seq<char>, b: Seq<char>, off: int, prefix: Seq<char>, q: int)
    requires
        ends_with_at(s, b, off),
        off <= q <= s.len(),
    ensures
        preprocessed_from(s, prefix, q) == preprocessed_from(b, prefix, q - off),
    decreases s.len() - q,
{
    lemma_link_at_suffix(s, b, off, q);
    if q < s.len() {
        let x = q - off;
        match link_at(b, x) {
            Some((j, k)) => {
                lemma_link_at(b, x);
                lemma_preprocess_suffix(s, b, off, prefix, k + off + 1);
                assert(s.subrange(q + 1, j + off) =~= b.subrange(x + 1, j));
                assert(s.subrange(j + off + 4, k + off) =~= b.subrange(j + 4, k));
                assert(link_replacement(s, (q, j + off, k + off), prefix) == link_replacement(
                    b,
                    (x, j, k),
                    prefix,
                ));
            },
            None => {
                lemma_preprocess_suffix(s, b, off, prefix, q + 1);
                assert(s[q] == b[x]);
            },
        }
    }
}

/// Law: no link spans a line break, so rewriting a text made of `a`, a line
/// break and `b` gives the rewritten `a`, a line break and the rewritten `b`.
pub proof fn lemma_preprocess_split_at_line_break(a: Seq<char>, b: Seq<char>, prefix: Seq<char>)
    ensures
        preprocessed(a + seq!['\n'] + b, prefix) == preprocessed(a, prefix) + seq!['\n']
            + preprocessed(b, prefix),
{
    let s = a + seq!['\n'] + b;
    let off = a.len() as int + 1;
    assert(line_then(s, a));
    assert(ends_with_at(s, b, off));
    lemma_preprocess_prefix(s, a, prefix, 0);
    lemma_preprocess_suffix(s, b, off, prefix, off);
}

/// Law: markdown without internal links is left as it is by [`preprocessed`].
pub proof fn lemma_preprocess_keeps_text_without_links(s: Seq<char>, prefix: Seq<char>)
    requires
        links_of(s).len() == 0,
    ensures
        preprocessed(s, prefix) == s,
{
    lemma_preprocess_without_links_from(s, prefix, 0);
    assert(s.subrange(0, s.len() as int) =~= s);
}

proof fn lemma_preprocess_without_links_from(s: Seq<char>, prefix: Seq<char>, p: int)
    requires
        0 <= p <= s.len(),
        links_from(s, p).len() == 0,
    ensures
        preprocessed_from(s, prefix, p) == s.subrange(p, s.len() as int),
    decreases s.len() - p,
{
    if p < s.len() {
        assert(link_at(s, p) is None);
        lemma_preprocess_without_links_from(s, prefix, p + 1);
        assert(s.subrange(p, s.len() as int) =~= seq![s[p]] + s.subrange(p + 1, s.len() as int));
    } else {
        assert(s.subrange(p, s.len() as int) =~= Seq::<char>::empty());
    }
}

proof fn lemma_preprocess_plain_text(s: Seq<char>, prefix: Seq<char>, q: int, p: int)
    requires
        0 <= q <= p <= s.len(),
        no_open_bracket(s, q, p),
    ensures
        preprocessed_from(s, prefix, q) == s.subrange(q, p) + preprocessed_from(s, prefix, p),
    decreases p - q,
{
    if q < p {
        lemma_preprocess_plain_text(s, prefix, q + 1, p);
        assert(s.subrange(q, p) =~= seq![s[q]] + s.subrange(q + 1, p));
    } else {
        assert(s.subrange(q, p) =~= Seq::<char>::empty());
    }
}

/// The markdown link that an internal link with text `x` and target `t`
/// becomes: the text (or, where it is empty, the target) in brackets, and in
/// parentheses `prefix` followed by the percent-encoded target.
pub open spec fn rewritten_link(x: Seq<char>, t: Seq<char>, prefix: Seq<char>) -> Seq<char> {
    seq!['['] + (if x.len() == 0 {
        t
    } else {
        x
    }) + seq![']', '('] + prefix + percent_encoded(encode_utf8(t)) + seq![')']
}

proof fn lemma_preprocess_link_then(
    x: Seq<char>,
    kind: char,
    t: Seq<char>,
    post: Seq<char>,
    prefix: Seq<char>,
)
    requires
        link_text_ok(x),
        link_target_ok(t),
        kind == 'b' || kind == 'u',
    ensures
        preprocessed(link_markup(x, kind, t) + post, prefix) == rewritten_link(x, t, prefix)
            + preprocessed(post, prefix),
{
    let l = link_markup(x, kind, t);
    let r = l + post;
    let c: int = x.len() + 1int;
    let k: int = l.len() - 1int;
    lemma_link_markup(x, kind, t, post);
    assert(ends_with_at(r, post, l.len() as int));
    lemma_preprocess_suffix(r, post, l.len() as int, prefix, l.len() as int);
    assert(r.subrange(1, c) =~= x);
    assert(r.subrange(c + 4, k) =~= t);
    assert(link_replacement(r, (0int, c, k), prefix) == rewritten_link(x, t, prefix));
}

/// Law: an internal link `[x](u:t)` or `[x](b:t)` after text without `[` is
/// rewritten whatever characters its text and its target start with, as long
/// as the text spans no line break and holds no `](`, and the target is not
/// empty, spans no line break and holds no `)` after its first character: the
/// text before it stays, the link becomes `[x](` followed by `prefix`, the
/// percent-encoded target and `)` (the target shown where the text is empty),
/// and what follows it is rewritten on its own.
pub proof fn lemma_preprocess_one_link(
    pre: Seq<char>,
    x: Seq<char>,
    kind: char,
    t: Seq<char>,
    post: Seq<char>,
    prefix: Seq<char>,
)
    requires
        no_open_bracket(pre, 0, pre.len() as int),
        link_text_ok(x),
        link_target_ok(t),
        kind == 'b' || kind == 'u',
    ensures
        preprocessed(pre + link_markup(x, kind, t) + post, prefix) == pre + rewritten_link(
            x,
            t,
            prefix,
        ) + preprocessed(post, prefix),
{
    let l = link_markup(x, kind, t);
    let r = l + post;
    let s = pre + r;
    let n: int = pre.len() as int;
    assert(pre + l + post =~= s);
    assert forall|i: int| 0 <= i < n implies #[trigger] s[i] != '[' by {
        assert(s[i] == pre[i]);
    }
    lemma_preprocess_plain_text(s, prefix, 0, n);
    assert(s.subrange(0, n) =~= pre);
    assert(ends_with_at(s, r, n));
    lemma_preprocess_suffix(s, r, n, prefix, n);
    lemma_preprocess_link_then(x, kind, t, post, prefix);
    assert(pre + (rewritten_link(x, t, prefix) + preprocessed(post, prefix)) =~= pre
        + rewritten_link(x, t, prefix) + preprocessed(post, prefix));
}

/// Whether `c` is an upper-case hexadecimal digit.
pub open spec fn is_upper_hex(c: char) -> bool {
    ('0' <= c && c <= '9') || ('A' <= c && c <= 'F')
}

/// The value of the upper-case hexadecimal digit `c`.
pub open spec fn hex_value(c: char) -> int {
    if '0' <= c && c <= '9' {
        (c as u32) - 48
    } else {
        (c as u32) - 55
    }
}

/// Law: percent-encoding goes byte by byte: the encoding of two byte
/// sequences one after the other is their two encodings one after the other.
pub proof fn lemma_percent_encoded_concat(x: Seq<u8>, y: Seq<u8>)
    ensures
        percent_encoded(x + y) == percent_encoded(x) + percent_encoded(y),
    decreases y.len(),
{
    if y.len() == 0 {
        assert(x + y =~= x);
        assert(percent_encoded(x) + percent_encoded(y) =~= percent_encoded(x));
    } else {
        assert((x + y).drop_last() =~= x + y.drop_last());
        assert((x + y).last() == y.last());
        lemma_percent_encoded_concat(x, y.drop_last());
    }
}

/// Law: percent-encoding of one byte. A printable ASCII byte other than
/// `"`, `<`, `>` and `` ` `` (such as `+`) stands as the character it is; any
/// other byte (a control, space, one of those four, or a byte outside ASCII)
/// becomes `%` followed by two upper-case hexadecimal digits whose value is
/// the byte.
pub proof fn lemma_percent_encoded_byte(b: u8)
    ensures
        (0x21 <= b <= 0x7e && b != 0x22 && b != 0x3c && b != 0x3e && b != 0x60) ==> percent_encoded(
            seq![b],
        ) == seq![b as char],
        !(0x21 <= b <= 0x7e && b != 0x22 && b != 0x3c && b != 0x3e && b != 0x60) ==> {
            let r = percent_encoded(seq![b]);
            &&& r.len() == 3
            &&& r[0] == '%'
            &&& is_upper_hex(r[1])
            &&& is_upper_hex(r[2])
            &&& 16 * hex_value(r[1]) + hex_value(r[2]) == b
        },
{
    let one = seq![b];
    assert(one.drop_last() =~= Seq::<u8>::empty());
    assert(one.last() == b);
    let r = percent_encoded(one);
    assert(percent_encoded(one.drop_last()) == Seq::<char>::empty());
    let piece = if must_escape(b) {
        escaped_byte(b)
    } else {
        seq![b as char]
    };
    assert(r == Seq::<char>::empty() + piece);
    assert(r =~= piece);
    if must_escape(b) {
        assert(r =~= escaped_byte(b));
        let hi = b as int / 16;
        let lo = b as int % 16;
        assert(0 <= hi < 16 && 0 <= lo < 16);
        assert(is_upper_hex(hex_digit(hi)) && hex_value(hex_digit(hi)) == hi);
        assert(is_upper_hex(hex_digit(lo)) && hex_value(hex_digit(lo)) == lo);
    } else {
        assert(r =~= seq![b as char]);
    }
}

/// Whether `c` may stand in text percent-encoded with the fragment set: it
/// is an ASCII character outside the set.
pub open spec fn encoded_char_ok(c: char) -> bool {
    (c as int) < 0x80 && !in_fragment_set(c as u8)
}

/// Law: percent-encoding leaves in its result no character of the fragment
/// set and nothing outside ASCII; a link target with spaces thus becomes a
/// destination without spaces.
pub proof fn lemma_percent_encoded_chars(bytes: Seq<u8>)
    ensures
        forall|i: int|
            0 <= i < percent_encoded(bytes).len() ==> encoded_char_ok(
                #[trigger] percent_encoded(bytes)[i],
            ),
    decreases bytes.len(),
{
    if bytes.len() > 0 {
        let b = bytes.last();
        lemma_percent_encoded_chars(bytes.drop_last());
        let front = percent_encoded(bytes.drop_last());
        let piece = if must_escape(b) {
            escaped_byte(b)
        } else {
            seq![b as char]
        };
        let whole = percent_encoded(bytes);
        assert(whole == front + piece);
        assert forall|i: int| 0 <= i < whole.len() implies encoded_char_ok(#[trigger] whole[i]) by {
            if i < front.len() {
                assert(whole[i] == front[i]);
            } else {
                let k = i - front.len();
                assert(whole[i] == piece[k]);
                if must_escape(b) {
                    if k > 0 {
                        let d = if k == 1 {
                            b as int / 16
                        } else {
                            b as int % 16
                        };
                        assert(0 <= d < 16);
                        assert(piece[k] == hex_digit(d));
                    }
                } else {
                    assert((b as char) as u8 == b);
                }
            }
        }
    }
}

/// The HTML that `pulldown_cmark` renders from `markdown` with tables enabled.
pub uninterp spec fn markdown_html(markdown: Seq<char>) -> Seq<char>;

/// `pulldown_cmark::Parser::new_ext` with `Options::ENABLE_TABLES`, written
/// out by `pulldown_cmark::html::push_html` into an empty string. The HTML
/// depends on the markdown alone; this contract names it [`markdown_html`]
/// and states nothing of its shape.
#[verifier::external_body]
fn render_markdown_with_tables(markdown: &str) -> (html: String)
    ensures
        html@ == markdown_html(markdown@),
{
    let mut options = pulldown_cmark::Options::empty();
    options.insert(pulldown_cmark::Options::ENABLE_TABLES);
    let mut html = String::new();
    pulldown_cmark::html::push_html(&mut html, pulldown_cmark::Parser::new_ext(markdown, options));
    html
}

/// Renders page markdown to HTML: internal links are first rewritten with
/// `prefix` (see [`preprocessed`]), then the markdown is rendered with tables
/// enabled.
pub fn markdown2html(markdown: &str, prefix: &str) -> (r: KBResult<String>)
    ensures
        r matches Ok(h) && h@ == markdown_html(preprocessed(markdown@, prefix@)),
{
    let rewritten = preprocess_internal_links(markdown, prefix)?;
    Ok(render_markdown_with_tables(rewritten.as_str()))
}

} // verus!

//! Character-level helpers shared by the page and link logic: Unicode white
//! space, trimming, and lexicographic order on character sequences.

use vstd::prelude::*;

verus! {

/// The Unicode `White_Space` property: the characters that `char::is_whitespace`
/// accepts, that `str::trim` removes and that `\s` matches in a regular expression.
pub open spec fn is_ws(c: char) -> bool {
    ||| ('\u{9}' <= c && c <= '\u{d}')
    ||| c == ' '
    ||| c == '\u{85}'
    ||| c == '\u{a0}'
    ||| c == '\u{1680}'
    ||| ('\u{2000}' <= c && c <= '\u{200a}')
    ||| c == '\u{2028}'
    ||| c == '\u{2029}'
    ||| c == '\u{202f}'
    ||| c == '\u{205f}'
    ||| c == '\u{3000}'
}

/// Whether `c` is white space (see [`is_ws`]).
pub fn is_whitespace(c: char) -> (r: bool)
    ensures
        r == is_ws(c),
{
    ('\u{9}' <= c && c <= '\u{d}') || c == ' ' || c == '\u{85}' || c == '\u{a0}' || c
        == '\u{1680}' || ('\u{2000}' <= c && c <= '\u{200a}') || c == '\u{2028}' || c
        == '\u{2029}' || c == '\u{202f}' || c == '\u{205f}' || c == '\u{3000}'
}

/// `s` without its leading white space.
pub open spec fn trim_start(s: Seq<char>) -> Seq<char>
    decreases s.len(),
{
    if s.len() > 0 && is_ws(s[0]) {
        trim_start(s.drop_first())
    } else {
        s
    }
}

/// `s` without its trailing white space.
pub open spec fn trim_end(s: Seq<char>) -> Seq<char>
    decreases s.len(),
{
    if s.len() > 0 && is_ws(s.last()) {
        trim_end(s.drop_last())
    } else {
        s
    }
}

/// `s` without leading and trailing white space, as `str::trim` gives it.
pub open spec fn trim(s: Seq<char>) -> Seq<char> {
    trim_end(trim_start(s))
}

/// The white space of the ASCII range: space, tab, line feed, vertical tab,
/// form feed and carriage return.
pub open spec fn ascii_white_space(c: char) -> bool {
    c == ' ' || c == '\t' || c == '\n' || c == '\u{b}' || c == '\u{c}' || c == '\r'
}

proof fn lemma_trim_start_passes(w: Seq<char>, y: Seq<char>)
    requires
        forall|i: int| 0 <= i < w.len() ==> ascii_white_space(#[trigger] w[i]),
    ensures
        trim_start(w + y) == trim_start(y),
    decreases w.len(),
{
    if w.len() > 0 {
        assert((w + y).drop_first() =~= w.drop_first() + y);
        assert((w + y)[0] == w[0]);
        lemma_trim_start_passes(w.drop_first(), y);
    } else {
        assert(w + y =~= y);
    }
}

proof fn lemma_trim_end_passes(y: Seq<char>, w: Seq<char>)
    requires
        forall|i: int| 0 <= i < w.len() ==> ascii_white_space(#[trigger] w[i]),
    ensures
        trim_end(y + w) == trim_end(y),
    decreases w.len(),
{
    if w.len() > 0 {
        assert((y + w).drop_last() =~= y + w.drop_last());
        assert((y + w).last() == w.last());
        lemma_trim_end_passes(y, w.drop_last());
    } else {
        assert(y + w =~= y);
    }
}

/// Law: trimming takes off the white space of the ASCII range at both ends,
/// carriage returns and line breaks among it, down to a text that starts and
/// ends with a character other than white space.
pub proof fn lemma_trim_takes_off_ascii_space(w1: Seq<char>, x: Seq<char>, w2: Seq<char>)
    requires
        forall|i: int| 0 <= i < w1.len() ==> ascii_white_space(#[trigger] w1[i]),
        forall|i: int| 0 <= i < w2.len() ==> ascii_white_space(#[trigger] w2[i]),
        x.len() > 0 ==> !is_ws(x[0]) && !is_ws(x.last()),
    ensures
        trim(w1 + x + w2) == x,
{
    lemma_trim_start_passes(w1, x + w2);
    assert(w1 + x + w2 =~= w1 + (x + w2));
    if x.len() > 0 {
        assert((x + w2)[0] == x[0]);
        lemma_trim_end_passes(x, w2);
    } else {
        assert(x + w2 =~= w2 + x);
        lemma_trim_start_passes(w2, x);
    }
}

/// The characters of `s`, one by one.
pub fn chars_of(s: &str) -> (r: Vec<char>)
    ensures
        r@ == s@,
{
    broadcast use vstd::string::group_string_axioms;

    let mut r: Vec<char> = Vec::new();
    for c in it: s.chars()
        invariant
            it.seq() == s@,
            r@ == it.seq().take(it.index() as int),
    {
        r.push(c);
    }
    r
}


/// `String::push` appends one character at the end of the string.
pub assume_specification[ String::push ](string: &mut String, ch: char)
    ensures
        final(string)@ == old(string)@.push(ch),
;

/// Appends `cs[a..b]` to `out`.
pub fn push_range(out: &mut String, cs: &Vec<char>, a: usize, b: usize)
    requires
        a <= b <= cs.len(),
    ensures
        final(out)@ == old(out)@ + cs@.subrange(a as int, b as int),
{
    let mut i = a;
    while i < b
        invariant
            a <= i <= b <= cs.len(),
            out@ == old(out)@ + cs@.subrange(a as int, i as int),
        decreases b - i,
    {
        out.push(cs[i]);
        i = i + 1;
        assert(cs@.subrange(a as int, i as int) =~= cs@.subrange(a as int, i - 1).push(cs@[i - 1]));
    }
}

/// The string made of `cs[a..b]`.
pub fn string_of_range(cs: &Vec<char>, a: usize, b: usize) -> (r: String)
    requires
        a <= b <= cs.len(),
    ensures
        r@ == cs@.subrange(a as int, b as int),
{
    let mut r = String::new();
    push_range(&mut r, cs, a, b);
    assert(r@ =~= cs@.subrange(a as int, b as int));
    r
}

/// Trimming the start passes over one leading white-space character.
pub proof fn lemma_trim_start_step(s: Seq<char>, a: int, b: int)
    requires
        0 <= a < b <= s.len(),
        is_ws(s[a]),
    ensures
        trim_start(s.subrange(a, b)) == trim_start(s.subrange(a + 1, b)),
{
    assert(s.subrange(a, b).drop_first() =~= s.subrange(a + 1, b));
}

/// Trimming the end passes over one trailing white-space character.
pub proof fn lemma_trim_end_step(s: Seq<char>, a: int, b: int)
    requires
        0 <= a < b <= s.len(),
        is_ws(s[b - 1]),
    ensures
        trim_end(s.subrange(a, b)) == trim_end(s.subrange(a, b - 1)),
{
    assert(s.subrange(a, b).drop_last() =~= s.subrange(a, b - 1));
}

/// The bounds of `trim(cs[a..b])` inside `cs`.
pub fn trim_bounds(cs: &Vec<char>, a: usize, b: usize) -> (r: (usize, usize))
    requires
        a <= b <= cs.len(),
    ensures
        a <= r.0 <= r.1 <= b,
        cs@.subrange(r.0 as int, r.1 as int) == trim(cs@.subrange(a as int, b as int)),
{
    let mut lo = a;
    while lo < b && is_whitespace(cs[lo])
        invariant
            a <= lo <= b <= cs.len(),
            trim_start(cs@.subrange(a as int, b as int)) == trim_start(
                cs@.subrange(lo as int, b as int),
            ),
        decreases b - lo,
    {
        proof {
            lemma_trim_start_step(cs@, lo as int, b as int);
        }
        lo = lo + 1;
    }
    assert(trim_start(cs@.subrange(lo as int, b as int)) == cs@.subrange(lo as int, b as int));
    let mut hi = b;
    while hi > lo && is_whitespace(cs[hi - 1])
        invariant
            a <= lo <= hi <= b <= cs.len(),
            trim(cs@.subrange(a as int, b as int)) == trim_end(cs@.subrange(lo as int, hi as int)),
        decreases hi - lo,
    {
        proof {
            lemma_trim_end_step(cs@, lo as int, hi as int);
        }
        hi = hi - 1;
    }
    (lo, hi)
}


/// Lexicographic order on character sequences, by code point; on the UTF-8
/// encodings this is the byte order by which `String` compares.
pub open spec fn lex_lt(a: Seq<char>, b: Seq<char>) -> bool
    decreases a.len(),
{
    if a.len() == 0 {
        b.len() > 0
    } else if b.len() == 0 {
        false
    } else if a[0] != b[0] {
        a[0] < b[0]
    } else {
        lex_lt(a.drop_first(), b.drop_first())
    }
}

/// No sequence comes before itself.
pub proof fn lemma_lex_irreflexive(a: Seq<char>)
    ensures
        !lex_lt(a, a),
    decreases a.len(),
{
    if a.len() > 0 {
        lemma_lex_irreflexive(a.drop_first());
    }
}

/// Of two different sequences, exactly one comes first.
pub proof fn lemma_lex_total(a: Seq<char>, b: Seq<char>)
    ensures
        a != b ==> (lex_lt(a, b) || lex_lt(b, a)),
        !(lex_lt(a, b) && lex_lt(b, a)),
    decreases a.len(),
{
    if a.len() > 0 && b.len() > 0 && a[0] == b[0] {
        lemma_lex_total(a.drop_first(), b.drop_first());
        if a != b {
            assert(a.drop_first() != b.drop_first()) by {
                if a.drop_first() == b.drop_first() {
                    assert(a =~= seq![a[0]] + a.drop_first());
                    assert(b =~= seq![b[0]] + b.drop_first());
                }
            }
        }
    } else if a.len() == 0 && b.len() == 0 {
        assert(a =~= b);
    }
}

/// The order is transitive.
pub proof fn lemma_lex_transitive(a: Seq<char>, b: Seq<char>, c: Seq<char>)
    requires
        lex_lt(a, b),
        lex_lt(b, c),
    ensures
        lex_lt(a, c),
    decreases a.len(),
{
    if a.len() > 0 && b.len() > 0 && c.len() > 0 && a[0] == b[0] && b[0] == c[0] {
        lemma_lex_transitive(a.drop_first(), b.drop_first(), c.drop_first());
    }
}

proof fn lemma_lex_skip(a: Seq<char>, b: Seq<char>, i: int)
    requires
        0 <= i <= a.len(),
        i <= b.len(),
        a.subrange(0, i) == b.subrange(0, i),
    ensures
        lex_lt(a, b) == lex_lt(a.subrange(i, a.len() as int), b.subrange(i, b.len() as int)),
    decreases i,
{
    if i == 0 {
        assert(a.subrange(0, a.len() as int) =~= a);
        assert(b.subrange(0, b.len() as int) =~= b);
    } else {
        assert(a[0] == a.subrange(0, i)[0]);
        assert(b[0] == b.subrange(0, i)[0]);
        assert(a.drop_first().subrange(0, i - 1) =~= a.subrange(0, i).drop_first());
        assert(b.drop_first().subrange(0, i - 1) =~= b.subrange(0, i).drop_first());
        lemma_lex_skip(a.drop_first(), b.drop_first(), i - 1);
        assert(a.drop_first().subrange(i - 1, a.len() - 1) =~= a.subrange(i, a.len() as int));
        assert(b.drop_first().subrange(i - 1, b.len() - 1) =~= b.subrange(i, b.len() as int));
    }
}

/// Law: a sequence comes before every longer sequence that begins with it.
pub proof fn lemma_lex_prefix_first(a: Seq<char>, b: Seq<char>)
    requires
        b.len() > 0,
    ensures
        lex_lt(a, a + b),
{
    let n = a.len() as int;
    assert((a + b).subrange(0, n) =~= a.subrange(0, n));
    lemma_lex_skip(a, a + b, n);
    assert(a.subrange(n, n) =~= Seq::<char>::empty());
    assert((a + b).subrange(n, (a + b).len() as int) =~= b);
}

/// Law: after a common beginning `p`, the first character in which two
/// sequences differ decides which comes first, whatever follows it.
pub proof fn lemma_lex_first_difference(p: Seq<char>, c1: char, x: Seq<char>, c2: char, y: Seq<char>)
    requires
        c1 < c2,
    ensures
        lex_lt(p + seq![c1] + x, p + seq![c2] + y),
{
    let a = p + seq![c1] + x;
    let b = p + seq![c2] + y;
    let n = p.len() as int;
    assert(a.subrange(0, n) =~= p);
    assert(b.subrange(0, n) =~= p);
    lemma_lex_skip(a, b, n);
    let ra = a.subrange(n, a.len() as int);
    let rb = b.subrange(n, b.len() as int);
    assert(ra[0] == c1 && rb[0] == c2);
}

/// The result of a three-way comparison.
pub enum Order3 {
    Less,
    Equal,
    Greater,
}

/// Compares two character sequences in the order [`lex_lt`].
pub fn compare_chars(a: &Vec<char>, b: &Vec<char>) -> (r: Order3)
    ensures
        r is Less <==> lex_lt(a@, b@),
        r is Equal <==> a@ == b@,
        r is Greater <==> lex_lt(b@, a@),
{
    let mut i: usize = 0;
    while i < a.len() && i < b.len() && a[i] == b[i]
        invariant
            i <= a.len(),
            i <= b.len(),
            a@.subrange(0, i as int) == b@.subrange(0, i as int),
        decreases a.len() - i,
    {
        assert(a@.subrange(0, i + 1) =~= a@.subrange(0, i as int).push(a@[i as int]));
        assert(b@.subrange(0, i + 1) =~= b@.subrange(0, i as int).push(b@[i as int]));
        i = i + 1;
    }
    proof {
        lemma_lex_skip(a@, b@, i as int);
        lemma_lex_skip(b@, a@, i as int);
        lemma_lex_total(a@, b@);
        lemma_lex_irreflexive(a@);
    }
    let ghost ra = a@.subrange(i as int, a.len() as int);
    let ghost rb = b@.subrange(i as int, b.len() as int);
    if i == a.len() && i == b.len() {
        assert(a@ =~= a@.subrange(0, i as int));
        assert(b@ =~= b@.subrange(0, i as int));
        Order3::Equal
    } else if i == a.len() {
        assert(ra.len() == 0 && rb.len() > 0);
        Order3::Less
    } else if i == b.len() {
        assert(rb.len() == 0 && ra.len() > 0);
        Order3::Greater
    } else {
        assert(ra[0] == a@[i as int] && rb[0] == b@[i as int]);
        if a[i] < b[i] {
            Order3::Less
        } else {
            Order3::Greater
        }
    }
}

} // verus!

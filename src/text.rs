use vstd::prelude::*;
use crate::chars::{chars_of, push_chars, string_of};

verus! {

/// Unicode White_Space, the set that `char::is_whitespace` tests.
pub open spec fn is_ws(c: char) -> bool {
    ('\t' <= c && c <= '\r') || c == ' ' || c == '\u{85}' || c == '\u{A0}' || c == '\u{1680}'
        || ('\u{2000}' <= c && c <= '\u{200A}') || c == '\u{2028}' || c == '\u{2029}'
        || c == '\u{202F}' || c == '\u{205F}' || c == '\u{3000}'
}

/// `s` without its leading whitespace.
pub open spec fn trim_start(s: Seq<char>) -> Seq<char>
    decreases s.len(),
{
    if s.len() > 0 && is_ws(s[0]) {
        trim_start(s.drop_first())
    } else {
        s
    }
}

/// `s` without its trailing whitespace.
pub open spec fn trim_end(s: Seq<char>) -> Seq<char>
    decreases s.len(),
{
    if s.len() > 0 && is_ws(s.last()) {
        trim_end(s.drop_last())
    } else {
        s
    }
}

/// `s` without surrounding whitespace.
pub open spec fn trim(s: Seq<char>) -> Seq<char> {
    trim_end(trim_start(s))
}

/// The pieces of `s` between newline characters; there is always one more
/// piece than there are newlines.
pub open spec fn split_nl(s: Seq<char>) -> Seq<Seq<char>>
    decreases s.len(),
{
    if s.len() == 0 {
        seq![seq![]]
    } else {
        let p = split_nl(s.drop_last());
        if s.last() == '\n' {
            p.push(seq![])
        } else {
            p.update(p.len() - 1, p.last().push(s.last()))
        }
    }
}

/// A line without the carriage return that ended it.
pub open spec fn strip_cr(l: Seq<char>) -> Seq<char> {
    if l.len() > 0 && l.last() == '\r' {
        l.drop_last()
    } else {
        l
    }
}

/// The lines of `s`: the newline-separated pieces, with no empty piece after
/// a final newline, and a carriage return dropped where it came just before a
/// newline.
pub open spec fn lines_of(s: Seq<char>) -> Seq<Seq<char>> {
    let p = split_nl(s);
    let n: int = if p.last().len() == 0 { p.len() - 1 } else { p.len() as int };
    Seq::new(n as nat, |i: int| if i < p.len() - 1 { strip_cr(p[i]) } else { p[i] })
}

/// The concatenation of all pieces, in order.
pub open spec fn concat_all(ps: Seq<Seq<char>>) -> Seq<char>
    decreases ps.len(),
{
    if ps.len() == 0 {
        seq![]
    } else {
        concat_all(ps.drop_last()) + ps.last()
    }
}

/// The pieces joined with a newline between each two.
pub open spec fn join_nl(ps: Seq<Seq<char>>) -> Seq<char>
    decreases ps.len(),
{
    if ps.len() == 0 {
        seq![]
    } else if ps.len() == 1 {
        ps[0]
    } else {
        join_nl(ps.drop_last()) + seq!['\n'] + ps.last()
    }
}

/// A blank line becomes a paragraph break; any other line is trimmed and
/// padded with one space on each side.
pub open spec fn clean_line(l: Seq<char>) -> Seq<char> {
    if trim(l).len() == 0 {
        seq!['\n', '\n']
    } else {
        seq![' '] + trim(l) + seq![' ']
    }
}

/// The reflowed prose of `s`: each line cleaned, all concatenated.
pub open spec fn clean_text_of(s: Seq<char>) -> Seq<char> {
    concat_all(lines_of(s).map_values(|l: Seq<char>| clean_line(l)))
}

/// The number of spaces that start `l`.
pub open spec fn leading_spaces(l: Seq<char>) -> nat
    decreases l.len(),
{
    if l.len() > 0 && l[0] == ' ' {
        1 + leading_spaces(l.drop_first())
    } else {
        0
    }
}

/// Whether `l` holds a character other than a space.
pub open spec fn has_non_space(l: Seq<char>) -> bool {
    leading_spaces(l) < l.len()
}

/// The smallest indentation among the lines that hold more than spaces.
pub open spec fn min_indent(ls: Seq<Seq<char>>) -> Option<nat>
    decreases ls.len(),
{
    if ls.len() == 0 {
        None
    } else {
        let rest = min_indent(ls.drop_last());
        let l = ls.last();
        if has_non_space(l) {
            match rest {
                Some(r) => Some(if r <= leading_spaces(l) { r } else { leading_spaces(l) }),
                None => Some(leading_spaces(l)),
            }
        } else {
            rest
        }
    }
}

/// The indentation that a code block loses.
pub open spec fn block_indent(s: Seq<char>) -> nat {
    match min_indent(lines_of(s)) {
        Some(m) => m,
        None => 0,
    }
}

/// A code line with `m` characters cut from its start, or trimmed where it is
/// shorter than that, then indented by four spaces.
pub open spec fn code_line(l: Seq<char>, m: nat) -> Seq<char> {
    seq![' ', ' ', ' ', ' '] + if l.len() >= m {
        l.subrange(m as int, l.len() as int)
    } else {
        trim(l)
    }
}

/// A code block re-indented: its common indentation replaced by four spaces.
pub open spec fn codeblock_of(s: Seq<char>) -> Seq<char> {
    join_nl(split_nl(s).map_values(|l: Seq<char>| code_line(l, block_indent(s))))
}

/// The views of a list of character vectors.
pub open spec fn views(v: Seq<Vec<char>>) -> Seq<Seq<char>> {
    v.map_values(|x: Vec<char>| x@)
}

/// Whether `c` is whitespace.
pub fn is_whitespace(c: char) -> (r: bool)
    ensures
        r == is_ws(c),
{
    ('\t' <= c && c <= '\r') || c == ' ' || c == '\u{85}' || c == '\u{A0}' || c == '\u{1680}'
        || ('\u{2000}' <= c && c <= '\u{200A}') || c == '\u{2028}' || c == '\u{2029}'
        || c == '\u{202F}' || c == '\u{205F}' || c == '\u{3000}'
}

proof fn lemma_trim_start_skip(s: Seq<char>, i: int)
    requires
        0 <= i <= s.len(),
        forall|k: int| 0 <= k < i ==> is_ws(#[trigger] s[k]),
    ensures
        trim_start(s) == trim_start(s.subrange(i, s.len() as int)),
    decreases i,
{
    if i > 0 {
        lemma_trim_start_skip(s.drop_first(), i - 1);
        assert(s.drop_first().subrange(i - 1, s.len() - 1) == s.subrange(i, s.len() as int));
    } else {
        assert(s.subrange(0, s.len() as int) == s);
    }
}

proof fn lemma_trim_end_skip(s: Seq<char>, j: int)
    requires
        0 <= j <= s.len(),
        forall|k: int| j <= k < s.len() ==> is_ws(#[trigger] s[k]),
    ensures
        trim_end(s) == trim_end(s.subrange(0, j)),
    decreases s.len() - j,
{
    if j < s.len() {
        lemma_trim_end_skip(s.drop_last(), j);
        assert(s.drop_last().subrange(0, j) == s.subrange(0, j));
    } else {
        assert(s.subrange(0, j) == s);
    }
}

/// The characters of `s` without surrounding whitespace.
pub fn trim_chars(s: &Vec<char>) -> (r: Vec<char>)
    ensures
        r@ == trim(s@),
{
    let n = s.len();
    let mut i: usize = 0;
    while i < n && is_whitespace(s[i])
        invariant
            n == s@.len(),
            i <= n,
            forall|k: int| 0 <= k < i ==> is_ws(#[trigger] s@[k]),
        decreases n - i,
    {
        i = i + 1;
    }
    let mut j: usize = n;
    while j > i && is_whitespace(s[j - 1])
        invariant
            n == s@.len(),
            i <= j <= n,
            forall|k: int| j <= k < n ==> is_ws(#[trigger] s@[k]),
        decreases j,
    {
        j = j - 1;
    }
    let mut r: Vec<char> = Vec::new();
    let mut k: usize = i;
    while k < j
        invariant
            i <= k <= j <= n == s@.len(),
            r@ == s@.subrange(i as int, k as int),
        decreases j - k,
    {
        r.push(s[k]);
        k = k + 1;
    }
    proof {
        lemma_trim_start_skip(s@, i as int);
        let t = s@.subrange(i as int, n as int);
        assert(!(t.len() > 0 && is_ws(t[0])));
        assert(trim_start(s@) == t);
        lemma_trim_end_skip(t, j - i);
        assert(t.subrange(0, j - i) == r@);
        assert(!(r@.len() > 0 && is_ws(r@.last())));
    }
    r
}

/// The newline-separated pieces of `s`.
pub fn split_pieces(s: &Vec<char>) -> (r: Vec<Vec<char>>)
    ensures
        views(r@) == split_nl(s@),
{
    let mut out: Vec<Vec<char>> = Vec::new();
    let mut cur: Vec<char> = Vec::new();
    let mut i: usize = 0;
    while i < s.len()
        invariant
            i <= s@.len(),
            views(out@).push(cur@) == split_nl(s@.subrange(0, i as int)),
        decreases s@.len() - i,
    {
        let ghost pre = s@.subrange(0, i as int);
        assert(s@.subrange(0, i + 1).drop_last() == pre);
        let ghost out0 = out@;
        let ghost cur0 = cur@;
        if s[i] == '\n' {
            out.push(cur);
            cur = Vec::new();
            assert(views(out@) == views(out0).push(cur0));
        } else {
            let ghost oldcur = cur@;
            cur.push(s[i]);
            assert(views(out@).push(cur@) == views(out@).push(oldcur).update(
                views(out@).len() as int,
                oldcur.push(s@[i as int]),
            ));
        }
        i = i + 1;
    }
    assert(s@.subrange(0, s@.len() as int) == s@);
    let ghost out0 = out@;
    let ghost cur0 = cur@;
    out.push(cur);
    assert(views(out@) == views(out0).push(cur0));
    out
}

/// The lines of `s`, as `str::lines` gives them.
pub fn lines_vec(s: &Vec<char>) -> (r: Vec<Vec<char>>)
    ensures
        views(r@) == lines_of(s@),
{
    let p = split_pieces(s);
    let ghost ps = split_nl(s@);
    assert(ps.len() >= 1) by {
        lemma_split_nonempty(s@);
    };
    let n = p.len();
    assert(p@[n - 1]@ == ps.last());
    let count = if p[n - 1].len() == 0 { n - 1 } else { n };
    let mut r: Vec<Vec<char>> = Vec::new();
    let mut i: usize = 0;
    while i < count
        invariant
            views(p@) == ps,
            n == ps.len(),
            count <= n,
            i <= count,
            r@.len() == i,
            forall|k: int| 0 <= k < i ==> (#[trigger] r@[k])@ == (if k < n - 1 { strip_cr(ps[k]) } else { ps[k] }),
        decreases count - i,
    {
        let piece = &p[i];
        assert(piece@ == ps[i as int]);
        let mut l: Vec<char> = piece.clone();
        if i < n - 1 && l.len() > 0 && l[l.len() - 1] == '\r' {
            l.pop();
        }
        r.push(l);
        i = i + 1;
    }
    assert(views(r@) == lines_of(s@));
    r
}

proof fn lemma_split_nonempty(s: Seq<char>)
    ensures
        split_nl(s).len() >= 1,
    decreases s.len(),
{
    if s.len() > 0 {
        lemma_split_nonempty(s.drop_last());
    }
}

/// Reflows prose: every line is trimmed and padded with one space on each
/// side, and a blank line becomes a paragraph break (two newlines).
pub fn clean_text(text: &str) -> (r: String)
    ensures
        r@ == clean_text_of(text@),
{
    string_of(&clean_chars(&chars_of(text)))
}

/// The reflowed prose of the characters `cs`.
pub fn clean_chars(cs: &Vec<char>) -> (r: Vec<char>)
    ensures
        r@ == clean_text_of(cs@),
{
    let ghost text = cs@;
    let ls = lines_vec(&cs);
    let ghost cleaned = lines_of(text).map_values(|l: Seq<char>| clean_line(l));
    let mut out: Vec<char> = Vec::new();
    let mut i: usize = 0;
    while i < ls.len()
        invariant
            views(ls@) == lines_of(text),
            cleaned == lines_of(text).map_values(|l: Seq<char>| clean_line(l)),
            i <= ls@.len(),
            out@ == concat_all(cleaned.subrange(0, i as int)),
        decreases ls@.len() - i,
    {
        let t = trim_chars(&ls[i]);
        assert(t@ == trim(lines_of(text)[i as int]));
        let ghost out0 = out@;
        if t.len() == 0 {
            out.push('\n');
            out.push('\n');
        } else {
            out.push(' ');
            push_chars(&mut out, &t);
            out.push(' ');
        }
        assert(out@ =~= out0 + cleaned[i as int]);
        assert(cleaned.subrange(0, i + 1).drop_last() == cleaned.subrange(0, i as int));
        i = i + 1;
    }
    assert(cleaned.subrange(0, i as int) == cleaned);
    out
}

proof fn lemma_leading_spaces(l: Seq<char>, i: int)
    requires
        0 <= i <= l.len(),
        forall|k: int| 0 <= k < i ==> #[trigger] l[k] == ' ',
        i == l.len() || l[i] != ' ',
    ensures
        leading_spaces(l) == i,
    decreases i,
{
    if i > 0 {
        lemma_leading_spaces(l.drop_first(), i - 1);
    }
}

/// The number of spaces that start `l`.
fn indent_of(l: &Vec<char>) -> (r: usize)
    ensures
        r == leading_spaces(l@),
        r <= l@.len(),
{
    let mut i: usize = 0;
    while i < l.len() && l[i] == ' '
        invariant
            i <= l@.len(),
            forall|k: int| 0 <= k < i ==> #[trigger] l@[k] == ' ',
        decreases l@.len() - i,
    {
        i = i + 1;
    }
    proof {
        lemma_leading_spaces(l@, i as int);
    }
    i
}

/// Re-indents a code block: the smallest indentation among its lines that
/// hold more than spaces is cut from every line (a shorter line is trimmed
/// instead), and every line is indented by four spaces.
pub fn trim_codeblock(text: &str) -> (r: String)
    ensures
        r@ == codeblock_of(text@),
{
    string_of(&codeblock_chars(&chars_of(text)))
}

/// The re-indented code block of the characters `cs`.
pub fn codeblock_chars(cs: &Vec<char>) -> (r: Vec<char>)
    ensures
        r@ == codeblock_of(cs@),
{
    let ghost text = cs@;
    let ls = lines_vec(cs);
    let mut m: Option<usize> = None;
    let mut i: usize = 0;
    while i < ls.len()
        invariant
            views(ls@) == lines_of(text),
            i <= ls@.len(),
            m matches Some(x) ==> min_indent(lines_of(text).subrange(0, i as int)) == Some(x as nat),
            m is None ==> min_indent(lines_of(text).subrange(0, i as int)) is None,
        decreases ls@.len() - i,
    {
        let ghost sub = lines_of(text).subrange(0, i + 1);
        assert(sub.drop_last() == lines_of(text).subrange(0, i as int));
        assert(sub.last() == ls@[i as int]@);
        let d = indent_of(&ls[i]);
        if d < ls[i].len() {
            m = match m {
                Some(x) => Some(if x <= d { x } else { d }),
                None => Some(d),
            };
        }
        i = i + 1;
    }
    assert(lines_of(text).subrange(0, i as int) == lines_of(text));
    let m: usize = match m {
        Some(x) => x,
        None => 0,
    };
    assert(m == block_indent(text));
    let ps = split_pieces(cs);
    let ghost coded = split_nl(text).map_values(|l: Seq<char>| code_line(l, block_indent(text)));
    let mut out: Vec<char> = Vec::new();
    let mut j: usize = 0;
    while j < ps.len()
        invariant
            views(ps@) == split_nl(text),
            coded == split_nl(text).map_values(|l: Seq<char>| code_line(l, block_indent(text))),
            m == block_indent(text),
            j <= ps@.len(),
            out@ == join_nl(coded.subrange(0, j as int)),
        decreases ps@.len() - j,
    {
        let l = &ps[j];
        assert(l@ == split_nl(text)[j as int]);
        let ghost out0 = out@;
        if j > 0 {
            out.push('\n');
        }
        out.push(' ');
        out.push(' ');
        out.push(' ');
        out.push(' ');
        if l.len() >= m {
            let mut k: usize = m;
            while k < l.len()
                invariant
                    m <= k <= l@.len(),
                    out@ == out0 + (if j > 0 { seq!['\n'] } else { seq![] }) + seq![' ', ' ', ' ', ' '] + l@.subrange(m as int, k as int),
                decreases l@.len() - k,
            {
                out.push(l[k]);
                k = k + 1;
            }
        } else {
            let t = trim_chars(l);
            push_chars(&mut out, &t);
        }
        assert(out@ =~= out0 + (if j > 0 { seq!['\n'] } else { seq![] }) + coded[j as int]);
        assert(coded.subrange(0, j + 1).drop_last() == coded.subrange(0, j as int));
        j = j + 1;
    }
    assert(coded.subrange(0, j as int) == coded);
    out
}

/// `s` with each pair `a b` replaced by `b`, scanning left to right and
/// never reusing a character of a replaced pair.
pub open spec fn replace_pair(s: Seq<char>, a: char, b: char) -> Seq<char>
    decreases s.len(),
{
    if s.len() == 0 {
        seq![]
    } else if s.len() >= 2 && s[0] == a && s[1] == b {
        seq![b] + replace_pair(s.subrange(2, s.len() as int), a, b)
    } else {
        seq![s[0]] + replace_pair(s.drop_first(), a, b)
    }
}

/// The characters of `s` with each pair `a b` replaced by `b`, left to right.
pub fn replace_pair_chars(s: &Vec<char>, a: char, b: char) -> (r: Vec<char>)
    ensures
        r@ == replace_pair(s@, a, b),
{
    let n = s.len();
    let mut out: Vec<char> = Vec::new();
    let mut i: usize = 0;
    assert(s@.subrange(0, n as int) == s@);
    assert(out@ + replace_pair(s@, a, b) =~= replace_pair(s@, a, b));
    while i < n
        invariant
            n == s@.len(),
            i <= n,
            out@ + replace_pair(s@.subrange(i as int, n as int), a, b) == replace_pair(s@, a, b),
        decreases n - i,
    {
        let ghost rest = s@.subrange(i as int, n as int);
        if i + 1 < n && s[i] == a && s[i + 1] == b {
            assert(rest.subrange(2, rest.len() as int) == s@.subrange(i + 2, n as int));
            out.push(b);
            i = i + 2;
        } else {
            assert(rest.drop_first() == s@.subrange(i + 1, n as int));
            out.push(s[i]);
            i = i + 1;
        }
        assert(out@ + replace_pair(s@.subrange(i as int, n as int), a, b) =~= replace_pair(s@, a, b));
    }
    assert(s@.subrange(n as int, n as int) == Seq::<char>::empty());
    out
}

} // verus!

//! Splitting pasted text into trimmed, non-empty paragraphs.

use vstd::prelude::*;

verus! {

/// The Unicode `White_Space` property (PropList.txt), which is what
/// `char::is_whitespace` and `str::trim` go by.
pub open spec fn is_white_space(c: char) -> bool {
    ||| ('\u{9}' <= c && c <= '\u{d}')
    ||| c == ' '
    ||| c == '\u{85}'
    ||| c == '\u{a0}'
    ||| c == '\u{1680}'
    ||| ('\u{2000}' <= c && c <= '\u{200a}')
    ||| c == '\u{2028}'
    ||| c == '\u{2029}'
    ||| c == '\u{202f}'
    ||| c == '\u{205f}'
    ||| c == '\u{3000}'
}

/// `s` with its leading white space removed.
pub open spec fn trim_start(s: Seq<char>) -> Seq<char>
    decreases s.len(),
{
    if s.len() > 0 && is_white_space(s[0]) {
        trim_start(s.drop_first())
    } else {
        s
    }
}

/// `s` with its trailing white space removed.
pub open spec fn trim_end(s: Seq<char>) -> Seq<char>
    decreases s.len(),
{
    if s.len() > 0 && is_white_space(s.last()) {
        trim_end(s.drop_last())
    } else {
        s
    }
}

/// `s` with leading and trailing white space removed.
pub open spec fn trim(s: Seq<char>) -> Seq<char> {
    trim_end(trim_start(s))
}

/// Every `"\r\n"` replaced by `"\n"`, scanning from the left without overlap.
pub open spec fn replace_crlf(s: Seq<char>) -> Seq<char>
    decreases s.len(),
{
    if s.len() == 0 {
        s
    } else if s.len() >= 2 && s[0] == '\r' && s[1] == '\n' {
        seq!['\n'] + replace_crlf(s.skip(2))
    } else {
        seq![s[0]] + replace_crlf(s.skip(1))
    }
}

/// Every remaining `'\r'` replaced by `'\n'`.
pub open spec fn replace_cr(s: Seq<char>) -> Seq<char> {
    s.map_values(|c: char| if c == '\r' { '\n' } else { c })
}

/// The text with Windows and old Mac line breaks turned into `'\n'`.
pub open spec fn normalize_line_breaks(s: Seq<char>) -> Seq<char> {
    replace_cr(replace_crlf(s))
}

/// The pieces between the `'\n'` characters of `s`, as `str::split('\n')`
/// yields them: one more piece than there are separators.
pub open spec fn split_lines(s: Seq<char>) -> Seq<Seq<char>>
    decreases s.len(),
{
    if s.len() == 0 {
        seq![Seq::<char>::empty()]
    } else {
        let prev = split_lines(s.drop_last());
        if s.last() == '\n' {
            prev.push(Seq::<char>::empty())
        } else {
            prev.update(prev.len() - 1, prev.last().push(s.last()))
        }
    }
}

/// The trimmed pieces, in order, without those that trimming left empty.
pub open spec fn keep_trimmed(pieces: Seq<Seq<char>>) -> Seq<Seq<char>>
    decreases pieces.len(),
{
    if pieces.len() == 0 {
        Seq::<Seq<char>>::empty()
    } else {
        let rest = keep_trimmed(pieces.drop_last());
        let t = trim(pieces.last());
        if t.len() > 0 {
            rest.push(t)
        } else {
            rest
        }
    }
}

/// The paragraphs of a text: its lines after line-break normalization,
/// trimmed, with the empty ones dropped.
pub open spec fn paragraphs(text: Seq<char>) -> Seq<Seq<char>> {
    keep_trimmed(split_lines(normalize_line_breaks(text)))
}

/// The views of a vector of strings.
pub open spec fn strings_view(v: Seq<String>) -> Seq<Seq<char>> {
    v.map_values(|s: String| s@)
}

/// Whether `c` has the Unicode `White_Space` property.
pub fn is_white_space_char(c: char) -> (r: bool)
    ensures
        r == is_white_space(c),
{
    ('\u{9}' <= c && c <= '\u{d}') || c == ' ' || c == '\u{85}' || c == '\u{a0}' || c
        == '\u{1680}' || ('\u{2000}' <= c && c <= '\u{200a}') || c == '\u{2028}' || c
        == '\u{2029}' || c == '\u{202f}' || c == '\u{205f}' || c == '\u{3000}'
}

/// Appends `c` to `s` (`String::push`).
#[verifier::external_body]
fn string_push(s: &mut String, c: char)
    ensures
        final(s)@ == old(s)@.push(c),
{
    s.push(c);
}

/// The characters of `text`, in order.
pub(crate) fn chars_of(text: &str) -> (v: Vec<char>)
    ensures
        v@ == text@,
{
    let mut v: Vec<char> = Vec::new();
    for c in it: text.chars()
        invariant
            v@ == it.seq().take(it.index() as int),
    {
        v.push(c);
    }
    v
}

proof fn lemma_split_lines_nonempty(s: Seq<char>)
    ensures
        split_lines(s).len() >= 1,
    decreases s.len(),
{
    if s.len() > 0 {
        lemma_split_lines_nonempty(s.drop_last());
    }
}

/// The line-break normalization of `s`.
fn normalize_chars(s: &Vec<char>) -> (r: Vec<char>)
    ensures
        r@ == normalize_line_breaks(s@),
{
    let n = s.len();
    let mut a: Vec<char> = Vec::new();
    let mut i: usize = 0;
    assert(s@.skip(0) == s@);
    while i < n
        invariant
            n == s@.len(),
            i <= n,
            a@ + replace_crlf(s@.skip(i as int)) == replace_crlf(s@),
        decreases n - i,
    {
        let ghost rest = s@.skip(i as int);
        if i + 1 < n && s[i] == '\r' && s[i + 1] == '\n' {
            a.push('\n');
            assert(rest.skip(2) == s@.skip(i + 2));
            i = i + 2;
        } else {
            a.push(s[i]);
            assert(rest.skip(1) == s@.skip(i + 1));
            i = i + 1;
        }
        assert(a@ + replace_crlf(s@.skip(i as int)) == replace_crlf(s@));
    }
    assert(a@ == replace_crlf(s@));
    let mut r: Vec<char> = Vec::new();
    let m = a.len();
    for j in 0..m
        invariant
            m == a@.len(),
            r@ == replace_cr(a@.take(j as int)),
    {
        let c = a[j];
        if c == '\r' {
            r.push('\n');
        } else {
            r.push(c);
        }
        assert(r@ == replace_cr(a@.take(j + 1)));
    }
    assert(a@.take(m as int) == a@);
    r
}

proof fn lemma_trim_start_skip(s: Seq<char>, k: int)
    requires
        0 <= k <= s.len(),
        forall|j: int| 0 <= j < k ==> is_white_space(#[trigger] s[j]),
    ensures
        trim_start(s) == trim_start(s.skip(k)),
    decreases k,
{
    if k > 0 {
        assert(s.skip(1) == s.drop_first());
        lemma_trim_start_skip(s.drop_first(), k - 1);
        assert(s.drop_first().skip(k - 1) == s.skip(k));
    } else {
        assert(s.skip(0) == s);
    }
}

proof fn lemma_trim_end_take(s: Seq<char>, k: int)
    requires
        0 <= k <= s.len(),
        forall|j: int| k <= j < s.len() ==> is_white_space(#[trigger] s[j]),
    ensures
        trim_end(s) == trim_end(s.take(k)),
    decreases s.len() - k,
{
    if k < s.len() {
        lemma_trim_end_take(s.drop_last(), k);
        assert(s.drop_last().take(k) == s.take(k));
    } else {
        assert(s.take(k) == s);
    }
}

/// The positions `(a, b)` such that `piece[a..b]` is `piece` trimmed.
fn trim_bounds(piece: &Vec<char>) -> (r: (usize, usize))
    ensures
        r.0 <= r.1 <= piece@.len(),
        piece@.subrange(r.0 as int, r.1 as int) == trim(piece@),
{
    let n = piece.len();
    let mut a: usize = 0;
    while a < n && is_white_space_char(piece[a])
        invariant
            n == piece@.len(),
            a <= n,
            forall|j: int| 0 <= j < a ==> is_white_space(#[trigger] piece@[j]),
        decreases n - a,
    {
        a = a + 1;
    }
    proof {
        lemma_trim_start_skip(piece@, a as int);
        let t = piece@.skip(a as int);
        if a < n {
            assert(t[0] == piece@[a as int]);
        }
        assert(trim_start(t) == t);
    }
    let mut b: usize = n;
    while b > a && is_white_space_char(piece[b - 1])
        invariant
            n == piece@.len(),
            a <= b <= n,
            forall|j: int| b <= j < n ==> is_white_space(#[trigger] piece@[j]),
        decreases b,
    {
        b = b - 1;
    }
    proof {
        let t = piece@.skip(a as int);
        assert forall|j: int| b - a <= j < t.len() implies is_white_space(#[trigger] t[j]) by {
            assert(t[j] == piece@[j + a]);
        }
        lemma_trim_end_take(t, b - a);
        let u = t.take(b - a);
        if b > a {
            assert(u.last() == piece@[b - 1]);
        }
        assert(trim_end(u) == u);
        assert(u == piece@.subrange(a as int, b as int));
    }
    (a, b)
}

/// The string made of `v[a..b]`.
fn string_of_range(v: &Vec<char>, a: usize, b: usize) -> (r: String)
    requires
        a <= b <= v@.len(),
    ensures
        r@ == v@.subrange(a as int, b as int),
{
    let mut r = String::new();
    let mut i = a;
    while i < b
        invariant
            a <= i <= b <= v@.len(),
            r@ == v@.subrange(a as int, i as int),
        decreases b - i,
    {
        string_push(&mut r, v[i]);
        assert(r@ == v@.subrange(a as int, i + 1));
        i = i + 1;
    }
    r
}

/// Pushes `piece` trimmed onto `out` unless trimming leaves it empty.
fn push_trimmed(out: &mut Vec<String>, piece: &Vec<char>)
    ensures
        strings_view(final(out)@) == if trim(piece@).len() > 0 {
            strings_view(old(out)@).push(trim(piece@))
        } else {
            strings_view(old(out)@)
        },
{
    let (a, b) = trim_bounds(piece);
    if a < b {
        let t = string_of_range(piece, a, b);
        let ghost before = out@;
        out.push(t);
        assert(strings_view(out@) == strings_view(before).push(t@));
    }
}

/// Normalize pasted text into stable paragraphs for grid rendering.
///
/// Line breaks `"\r\n"` and `'\r'` count as `'\n'`; each line is trimmed of
/// white space, and the lines that trimming leaves empty are dropped.
pub fn split_text_paragraphs(text: &str) -> (r: Vec<String>)
    ensures
        strings_view(r@) == paragraphs(text@),
{
    let chars = chars_of(text);
    let norm = normalize_chars(&chars);
    let n = norm.len();
    let mut out: Vec<String> = Vec::new();
    let mut cur: Vec<char> = Vec::new();
    assert(norm@.take(0) == Seq::<char>::empty());
    assert(strings_view(out@) == Seq::<Seq<char>>::empty());
    for i in 0..n
        invariant
            n == norm@.len(),
            split_lines(norm@.take(i as int)).last() == cur@,
            keep_trimmed(split_lines(norm@.take(i as int)).drop_last()) == strings_view(out@),
    {
        let ghost prev = split_lines(norm@.take(i as int));
        let ghost next = split_lines(norm@.take(i + 1));
        proof {
            lemma_split_lines_nonempty(norm@.take(i as int));
            assert(norm@.take(i + 1).drop_last() == norm@.take(i as int));
            assert(norm@.take(i + 1).last() == norm@[i as int]);
        }
        let c = norm[i];
        if c == '\n' {
            push_trimmed(&mut out, &cur);
            cur = Vec::new();
            proof {
                assert(next == prev.push(Seq::<char>::empty()));
                assert(next.drop_last() == prev);
            }
        } else {
            cur.push(c);
            proof {
                assert(next == prev.update(prev.len() - 1, prev.last().push(c)));
                assert(next.drop_last() == prev.drop_last());
            }
        }
    }
    proof {
        assert(norm@.take(n as int) == norm@);
        lemma_split_lines_nonempty(norm@);
    }
    push_trimmed(&mut out, &cur);
    out
}

/// `s` has no white space at either end.
pub open spec fn is_trimmed(s: Seq<char>) -> bool {
    s.len() > 0 ==> !is_white_space(s[0]) && !is_white_space(s.last())
}

/// `s` holds no line break character.
pub open spec fn is_single_line(s: Seq<char>) -> bool {
    forall|i: int| 0 <= i < s.len() ==> #[trigger] s[i] != '\n' && s[i] != '\r'
}

proof fn lemma_trim_start_suffix(s: Seq<char>) -> (k: int)
    ensures
        0 <= k <= s.len(),
        trim_start(s) == s.skip(k),
        trim_start(s).len() > 0 ==> !is_white_space(trim_start(s)[0]),
    decreases s.len(),
{
    if s.len() > 0 && is_white_space(s[0]) {
        let k = lemma_trim_start_suffix(s.drop_first());
        assert(s.drop_first().skip(k) == s.skip(k + 1));
        k + 1
    } else {
        assert(s.skip(0) == s);
        0
    }
}

proof fn lemma_trim_end_prefix(s: Seq<char>) -> (k: int)
    ensures
        0 <= k <= s.len(),
        trim_end(s) == s.take(k),
        trim_end(s).len() > 0 ==> !is_white_space(trim_end(s).last()),
    decreases s.len(),
{
    if s.len() > 0 && is_white_space(s.last()) {
        let k = lemma_trim_end_prefix(s.drop_last());
        assert(s.drop_last().take(k) == s.take(k));
        k
    } else {
        assert(s.take(s.len() as int) == s);
        s.len() as int
    }
}

/// `trim(s)` is the stretch `s[a..b]` of `s`, with no white space at either end.
proof fn lemma_trim_shape(s: Seq<char>) -> (r: (int, int))
    ensures
        0 <= r.0 <= r.1 <= s.len(),
        trim(s) == s.subrange(r.0, r.1),
        is_trimmed(trim(s)),
{
    let a = lemma_trim_start_suffix(s);
    let t = trim_start(s);
    let k = lemma_trim_end_prefix(t);
    assert(t.take(k) == s.subrange(a, a + k));
    if k > 0 {
        assert(trim(s)[0] == t[0]);
    }
    (a, a + k)
}

proof fn lemma_split_lines_avoid(s: Seq<char>, c: char)
    requires
        forall|k: int| 0 <= k < s.len() ==> #[trigger] s[k] != c || c == '\n',
    ensures
        forall|i: int, j: int|
            0 <= i < split_lines(s).len() && 0 <= j < split_lines(s)[i].len()
                ==> #[trigger] split_lines(s)[i][j] != c && split_lines(s)[i][j] != '\n',
    decreases s.len(),
{
    lemma_split_lines_nonempty(s);
    if s.len() > 0 {
        let prev = split_lines(s.drop_last());
        lemma_split_lines_avoid(s.drop_last(), c);
        lemma_split_lines_nonempty(s.drop_last());
        let cur = split_lines(s);
        assert forall|i: int, j: int|
            0 <= i < cur.len() && 0 <= j < cur[i].len() implies #[trigger] cur[i][j] != c
            && cur[i][j] != '\n' by {
            if i < prev.len() - 1 || (i == prev.len() - 1 && j < prev[i].len()) {
                assert(cur[i][j] == prev[i][j]);
            } else {
                assert(cur[i][j] == s.last());
            }
        }
    }
}

proof fn lemma_normalized_has_no_cr(s: Seq<char>)
    ensures
        forall|k: int| 0 <= k < normalize_line_breaks(s).len() ==> #[trigger] normalize_line_breaks(s)[k] != '\r',
{
}

proof fn lemma_keep_trimmed_clean(pieces: Seq<Seq<char>>)
    requires
        forall|i: int| 0 <= i < pieces.len() ==> is_single_line(#[trigger] pieces[i]),
    ensures
        forall|i: int| 0 <= i < keep_trimmed(pieces).len() ==> {
            &&& #[trigger] keep_trimmed(pieces)[i].len() > 0
            &&& is_trimmed(keep_trimmed(pieces)[i])
            &&& is_single_line(keep_trimmed(pieces)[i])
        },
    decreases pieces.len(),
{
    if pieces.len() > 0 {
        let prev = pieces.drop_last();
        assert forall|i: int| 0 <= i < prev.len() implies is_single_line(#[trigger] prev[i]) by {
            assert(prev[i] == pieces[i]);
        }
        lemma_keep_trimmed_clean(prev);
        let rest = keep_trimmed(prev);
        let p = pieces.last();
        let (a, b) = lemma_trim_shape(p);
        assert(is_single_line(p));
        assert forall|j: int| 0 <= j < trim(p).len() implies #[trigger] trim(p)[j] != '\n' && trim(p)[j] != '\r' by {
            assert(trim(p)[j] == p[a + j]);
        }
        let all = keep_trimmed(pieces);
        assert forall|i: int| 0 <= i < all.len() implies {
            &&& #[trigger] all[i].len() > 0
            &&& is_trimmed(all[i])
            &&& is_single_line(all[i])
        } by {
            if i < rest.len() {
                assert(all[i] == rest[i]);
                assert(rest[i].len() > 0);
            } else {
                assert(all[i] == trim(p));
            }
        }
    }
}

/// The paragraphs are clean: none is empty, none starts or ends with white
/// space, and none holds a line break.
pub proof fn lemma_paragraphs_are_clean(text: Seq<char>, i: int)
    requires
        0 <= i < paragraphs(text).len(),
    ensures
        paragraphs(text)[i].len() > 0,
        is_trimmed(paragraphs(text)[i]),
        is_single_line(paragraphs(text)[i]),
{
    let n = normalize_line_breaks(text);
    lemma_normalized_has_no_cr(n);
    lemma_split_lines_avoid(n, '\r');
    let pieces = split_lines(n);
    assert forall|k: int| 0 <= k < pieces.len() implies is_single_line(#[trigger] pieces[k]) by {
        assert forall|j: int| 0 <= j < pieces[k].len() implies #[trigger] pieces[k][j] != '\n'
            && pieces[k][j] != '\r' by {
            assert(split_lines(n)[k][j] != '\r');
        }
    }
    lemma_keep_trimmed_clean(pieces);
}

/// `c` ends a line: `'\n'` or `'\r'`.
pub open spec fn is_line_break(c: char) -> bool {
    c == '\n' || c == '\r'
}

/// The pieces of `s` between its line break characters, each `'\r'` and each
/// `'\n'` ending a piece.
pub open spec fn split_breaks(s: Seq<char>) -> Seq<Seq<char>>
    decreases s.len(),
{
    if s.len() == 0 {
        seq![Seq::<char>::empty()]
    } else {
        let prev = split_breaks(s.drop_last());
        if is_line_break(s.last()) {
            prev.push(Seq::<char>::empty())
        } else {
            prev.update(prev.len() - 1, prev.last().push(s.last()))
        }
    }
}

/// The lines with `sep` between each two of them.
pub open spec fn join_with(lines: Seq<Seq<char>>, sep: Seq<char>) -> Seq<char>
    decreases lines.len(),
{
    if lines.len() == 0 {
        Seq::<char>::empty()
    } else if lines.len() == 1 {
        lines[0]
    } else {
        join_with(lines.drop_last(), sep) + sep + lines.last()
    }
}

/// Every `'\n'` of `s` written as `"\r\n"`.
pub open spec fn lf_to_crlf(s: Seq<char>) -> Seq<char>
    decreases s.len(),
{
    if s.len() == 0 {
        s
    } else if s.last() == '\n' {
        lf_to_crlf(s.drop_last()) + seq!['\r', '\n']
    } else {
        lf_to_crlf(s.drop_last()).push(s.last())
    }
}

proof fn lemma_split_breaks_nonempty(s: Seq<char>)
    ensures
        split_breaks(s).len() >= 1,
    decreases s.len(),
{
    if s.len() > 0 {
        lemma_split_breaks_nonempty(s.drop_last());
    }
}

proof fn lemma_split_lines_replace_cr(t: Seq<char>)
    ensures
        split_lines(replace_cr(t)) == split_breaks(t),
    decreases t.len(),
{
    if t.len() > 0 {
        lemma_split_lines_replace_cr(t.drop_last());
        assert(replace_cr(t).drop_last() == replace_cr(t.drop_last()));
        assert(replace_cr(t).last() == if t.last() == '\r' { '\n' } else { t.last() });
    } else {
        assert(replace_cr(t) == t);
    }
}

proof fn lemma_split_breaks_concat(x: Seq<char>, c: char, y: Seq<char>)
    requires
        is_line_break(c),
    ensures
        split_breaks(x + seq![c] + y) == split_breaks(x) + split_breaks(y),
    decreases y.len(),
{
    let s = x + seq![c] + y;
    lemma_split_breaks_nonempty(x);
    if y.len() == 0 {
        assert(s.drop_last() == x);
        assert(s.last() == c);
        assert(split_breaks(y) == seq![Seq::<char>::empty()]);
        assert(split_breaks(x).push(Seq::<char>::empty()) =~= split_breaks(x) + split_breaks(y));
    } else {
        let t = y.drop_last();
        lemma_split_breaks_concat(x, c, t);
        lemma_split_breaks_nonempty(t);
        assert(s.drop_last() == x + seq![c] + t);
        assert(s.last() == y.last());
        let a = split_breaks(x);
        let b = split_breaks(t);
        if is_line_break(y.last()) {
            assert((a + b).push(Seq::<char>::empty()) =~= a + b.push(Seq::<char>::empty()));
        } else {
            assert((a + b).update((a + b).len() - 1, (a + b).last().push(y.last())) =~= a + b.update(
                b.len() - 1,
                b.last().push(y.last()),
            ));
        }
    }
}

proof fn lemma_keep_trimmed_concat(xs: Seq<Seq<char>>, ys: Seq<Seq<char>>)
    ensures
        keep_trimmed(xs + ys) == keep_trimmed(xs) + keep_trimmed(ys),
    decreases ys.len(),
{
    if ys.len() == 0 {
        assert(xs + ys == xs);
        assert(keep_trimmed(xs) + keep_trimmed(ys) == keep_trimmed(xs));
    } else {
        lemma_keep_trimmed_concat(xs, ys.drop_last());
        assert((xs + ys).drop_last() == xs + ys.drop_last());
        assert((xs + ys).last() == ys.last());
        let t = trim(ys.last());
        if t.len() > 0 {
            assert((keep_trimmed(xs) + keep_trimmed(ys.drop_last())).push(t) =~= keep_trimmed(xs)
                + keep_trimmed(ys.drop_last()).push(t));
        }
    }
}

proof fn lemma_keep_trimmed_empty_piece(ys: Seq<Seq<char>>)
    ensures
        keep_trimmed(seq![Seq::<char>::empty()] + ys) == keep_trimmed(ys),
{
    let e = Seq::<char>::empty();
    lemma_keep_trimmed_concat(seq![e], ys);
    assert(seq![e].drop_last() =~= Seq::<Seq<char>>::empty());
    assert(keep_trimmed(seq![e].drop_last()) == Seq::<Seq<char>>::empty());
    assert(seq![e].last() == e);
    assert(trim_start(e) == e);
    assert(trim(e) == e);
    assert(keep_trimmed(seq![e]) =~= Seq::<Seq<char>>::empty());
    assert(Seq::<Seq<char>>::empty() + keep_trimmed(ys) =~= keep_trimmed(ys));
}

proof fn lemma_crlf_pieces(x: Seq<char>, s: Seq<char>)
    ensures
        keep_trimmed(split_breaks(x + replace_crlf(s))) == keep_trimmed(split_breaks(x + s)),
    decreases s.len(),
{
    if s.len() == 0 {
    } else if s.len() >= 2 && s[0] == '\r' && s[1] == '\n' {
        let t = s.skip(2);
        let e = Seq::<char>::empty();
        lemma_crlf_pieces(e, t);
        assert(e + replace_crlf(t) == replace_crlf(t));
        assert(e + t == t);
        assert(x + replace_crlf(s) == x + seq!['\n'] + replace_crlf(t));
        lemma_split_breaks_concat(x, '\n', replace_crlf(t));
        lemma_keep_trimmed_concat(split_breaks(x), split_breaks(replace_crlf(t)));
        assert(x + s == x + seq!['\r'] + (seq!['\n'] + t));
        lemma_split_breaks_concat(x, '\r', seq!['\n'] + t);
        assert(seq!['\n'] + t == e + seq!['\n'] + t);
        lemma_split_breaks_concat(e, '\n', t);
        assert(split_breaks(e) == seq![e]);
        lemma_keep_trimmed_concat(split_breaks(x), split_breaks(seq!['\n'] + t));
        lemma_keep_trimmed_empty_piece(split_breaks(t));
    } else {
        let t = s.skip(1);
        lemma_crlf_pieces(x + seq![s[0]], t);
        assert(x + replace_crlf(s) == (x + seq![s[0]]) + replace_crlf(t));
        assert(x + s == (x + seq![s[0]]) + t);
    }
}

/// The paragraphs are the trimmed, non-empty pieces between line break
/// characters, whatever the line-ending style.
proof fn lemma_paragraphs_by_breaks(s: Seq<char>)
    ensures
        paragraphs(s) == keep_trimmed(split_breaks(s)),
{
    lemma_split_lines_replace_cr(replace_crlf(s));
    let e = Seq::<char>::empty();
    lemma_crlf_pieces(e, s);
    assert(e + replace_crlf(s) == replace_crlf(s));
    assert(e + s == s);
}

/// A line break separates paragraphs: splitting `a`, a line break and `b`
/// gives the paragraphs of `a` followed by those of `b`.
pub proof fn lemma_paragraphs_concat(a: Seq<char>, c: char, b: Seq<char>)
    requires
        is_line_break(c),
    ensures
        paragraphs(a + seq![c] + b) == paragraphs(a) + paragraphs(b),
{
    lemma_paragraphs_by_breaks(a + seq![c] + b);
    lemma_paragraphs_by_breaks(a);
    lemma_paragraphs_by_breaks(b);
    lemma_split_breaks_concat(a, c, b);
    lemma_keep_trimmed_concat(split_breaks(a), split_breaks(b));
}

proof fn lemma_split_breaks_replace_cr(s: Seq<char>)
    ensures
        split_breaks(replace_cr(s)) == split_breaks(s),
    decreases s.len(),
{
    if s.len() > 0 {
        lemma_split_breaks_replace_cr(s.drop_last());
        assert(replace_cr(s).drop_last() == replace_cr(s.drop_last()));
        assert(replace_cr(s).last() == if s.last() == '\r' { '\n' } else { s.last() });
    } else {
        assert(replace_cr(s) == s);
    }
}

proof fn lemma_lf_to_crlf_pieces(s: Seq<char>, y: Seq<char>)
    ensures
        keep_trimmed(split_breaks(lf_to_crlf(s) + y)) == keep_trimmed(split_breaks(s + y)),
    decreases s.len(),
{
    if s.len() == 0 {
        assert(lf_to_crlf(s) == s);
    } else {
        let p = s.drop_last();
        let c = s.last();
        assert(s + y == p + (seq![c] + y));
        if c == '\n' {
            let e = Seq::<char>::empty();
            lemma_lf_to_crlf_pieces(p, e);
            assert(lf_to_crlf(p) + e == lf_to_crlf(p));
            assert(p + e == p);
            assert(lf_to_crlf(s) + y == lf_to_crlf(p) + seq!['\r'] + (seq!['\n'] + y));
            lemma_split_breaks_concat(lf_to_crlf(p), '\r', seq!['\n'] + y);
            assert(seq!['\n'] + y == e + seq!['\n'] + y);
            lemma_split_breaks_concat(e, '\n', y);
            assert(split_breaks(e) == seq![e]);
            lemma_keep_trimmed_concat(split_breaks(lf_to_crlf(p)), split_breaks(seq!['\n'] + y));
            lemma_keep_trimmed_empty_piece(split_breaks(y));
            assert(p + (seq![c] + y) == p + seq!['\n'] + y);
            lemma_split_breaks_concat(p, '\n', y);
            lemma_keep_trimmed_concat(split_breaks(p), split_breaks(y));
        } else {
            lemma_lf_to_crlf_pieces(p, seq![c] + y);
            assert(lf_to_crlf(s) + y == lf_to_crlf(p) + (seq![c] + y));
        }
    }
}

/// The line-ending style does not change the paragraphs: writing `"\r\n"` as
/// `"\n"`, `'\r'` as `'\n'`, or `'\n'` as `"\r\n"` gives the same paragraphs.
pub proof fn lemma_paragraphs_line_endings(s: Seq<char>)
    ensures
        paragraphs(replace_crlf(s)) == paragraphs(s),
        paragraphs(replace_cr(s)) == paragraphs(s),
        paragraphs(lf_to_crlf(s)) == paragraphs(s),
{
    let e = Seq::<char>::empty();
    lemma_paragraphs_by_breaks(s);
    lemma_paragraphs_by_breaks(replace_crlf(s));
    lemma_crlf_pieces(e, s);
    assert(e + replace_crlf(s) == replace_crlf(s));
    assert(e + s == s);
    lemma_paragraphs_by_breaks(replace_cr(s));
    lemma_split_breaks_replace_cr(s);
    lemma_paragraphs_by_breaks(lf_to_crlf(s));
    lemma_lf_to_crlf_pieces(s, e);
    assert(lf_to_crlf(s) + e == lf_to_crlf(s));
}

proof fn lemma_split_breaks_single(y: Seq<char>)
    requires
        is_single_line(y),
    ensures
        split_breaks(y) == seq![y],
    decreases y.len(),
{
    if y.len() > 0 {
        let t = y.drop_last();
        assert forall|k: int| 0 <= k < t.len() implies #[trigger] t[k] != '\n' && t[k] != '\r' by {
            assert(t[k] == y[k]);
        }
        lemma_split_breaks_single(t);
        assert(!is_line_break(y.last()));
        assert(t.push(y.last()) == y);
        assert(seq![t].update(0, t.push(y.last())) =~= seq![y]);
    } else {
        assert(y == Seq::<char>::empty());
    }
}

proof fn lemma_trimmed_trim(p: Seq<char>)
    requires
        is_trimmed(p),
    ensures
        trim(p) == p,
{
    assert(trim_start(p) == p);
}

proof fn lemma_clean_line_pieces(p: Seq<char>)
    requires
        p.len() > 0,
        is_trimmed(p),
        is_single_line(p),
    ensures
        keep_trimmed(split_breaks(p)) == seq![p],
{
    lemma_split_breaks_single(p);
    lemma_trimmed_trim(p);
    assert(seq![p].drop_last() =~= Seq::<Seq<char>>::empty());
    assert(keep_trimmed(seq![p].drop_last()) == Seq::<Seq<char>>::empty());
    assert(seq![p].last() == p);
    assert(Seq::<Seq<char>>::empty().push(p) =~= seq![p]);
}

proof fn lemma_breaks_then_pieces(b: Seq<char>, y: Seq<char>)
    requires
        forall|k: int| 0 <= k < b.len() ==> is_line_break(#[trigger] b[k]),
    ensures
        keep_trimmed(split_breaks(b + y)) == keep_trimmed(split_breaks(y)),
    decreases b.len(),
{
    if b.len() > 0 {
        let e = Seq::<char>::empty();
        let rest = b.skip(1);
        assert forall|k: int| 0 <= k < rest.len() implies is_line_break(#[trigger] rest[k]) by {
            assert(rest[k] == b[k + 1]);
        }
        lemma_breaks_then_pieces(rest, y);
        assert(is_line_break(b[0]));
        assert(b + y == e + seq![b[0]] + (rest + y));
        lemma_split_breaks_concat(e, b[0], rest + y);
        assert(split_breaks(e) == seq![e]);
        lemma_keep_trimmed_empty_piece(split_breaks(rest + y));
    } else {
        assert(b + y == y);
    }
}

proof fn lemma_join_clean_lines(lines: Seq<Seq<char>>, sep: Seq<char>)
    requires
        sep.len() > 0,
        forall|k: int| 0 <= k < sep.len() ==> is_line_break(#[trigger] sep[k]),
        forall|i: int| 0 <= i < lines.len() ==> {
            &&& #[trigger] lines[i].len() > 0
            &&& is_trimmed(lines[i])
            &&& is_single_line(lines[i])
        },
    ensures
        keep_trimmed(split_breaks(join_with(lines, sep))) == lines,
    decreases lines.len(),
{
    if lines.len() == 0 {
        let e = Seq::<char>::empty();
        assert(join_with(lines, sep) == e);
        assert(split_breaks(e) == seq![e]);
        lemma_keep_trimmed_empty_piece(Seq::<Seq<char>>::empty());
        assert(seq![e] + Seq::<Seq<char>>::empty() =~= seq![e]);
        assert(lines =~= Seq::<Seq<char>>::empty());
    } else if lines.len() == 1 {
        assert(lines[0].len() > 0);
        lemma_clean_line_pieces(lines[0]);
        assert(seq![lines[0]] =~= lines);
    } else {
        let prev = lines.drop_last();
        let last = lines.last();
        assert forall|i: int| 0 <= i < prev.len() implies {
            &&& #[trigger] prev[i].len() > 0
            &&& is_trimmed(prev[i])
            &&& is_single_line(prev[i])
        } by {
            assert(prev[i] == lines[i]);
        }
        lemma_join_clean_lines(prev, sep);
        let j = join_with(prev, sep);
        let rest = sep.skip(1);
        assert(join_with(lines, sep) == j + seq![sep[0]] + (rest + last));
        assert(is_line_break(sep[0]));
        lemma_split_breaks_concat(j, sep[0], rest + last);
        lemma_keep_trimmed_concat(split_breaks(j), split_breaks(rest + last));
        assert forall|k: int| 0 <= k < rest.len() implies is_line_break(#[trigger] rest[k]) by {
            assert(rest[k] == sep[k + 1]);
        }
        lemma_breaks_then_pieces(rest, last);
        assert(last.len() > 0 && is_trimmed(last) && is_single_line(last));
        lemma_clean_line_pieces(last);
        assert(prev + seq![last] =~= lines);
    }
}

/// The paragraphs are stable: joining them with any separator made of line
/// breaks (`"\n"`, `"\r\n"`, ...) and splitting the result again gives the
/// same paragraphs.
pub proof fn lemma_paragraphs_stable(text: Seq<char>, sep: Seq<char>)
    requires
        sep.len() > 0,
        forall|k: int| 0 <= k < sep.len() ==> is_line_break(#[trigger] sep[k]),
    ensures
        paragraphs(join_with(paragraphs(text), sep)) == paragraphs(text),
{
    let ps = paragraphs(text);
    assert forall|i: int| 0 <= i < ps.len() implies {
        &&& #[trigger] ps[i].len() > 0
        &&& is_trimmed(ps[i])
        &&& is_single_line(ps[i])
    } by {
        lemma_paragraphs_are_clean(text, i);
    }
    lemma_paragraphs_by_breaks(join_with(ps, sep));
    lemma_join_clean_lines(ps, sep);
}

/// Each paragraph, split on its own, is that one paragraph.
pub proof fn lemma_paragraph_resplits(text: Seq<char>, i: int)
    requires
        0 <= i < paragraphs(text).len(),
    ensures
        paragraphs(paragraphs(text)[i]) == seq![paragraphs(text)[i]],
{
    lemma_paragraphs_are_clean(text, i);
    lemma_paragraphs_by_breaks(paragraphs(text)[i]);
    lemma_clean_line_pieces(paragraphs(text)[i]);
}

} // verus!

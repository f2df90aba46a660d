//! Character-level text handling: the string operations the viewer's
//! parsers are written in, each stated over `Seq<char>`.

use vstd::prelude::*;

verus! {

// ---------------------------------------------------------------------------
// Conversions between `str`/`String` and `Vec<char>`.

/// The characters of a string slice, in order.
pub fn chars_of(s: &str) -> (v: Vec<char>)
    ensures
        v@ == s@,
{
    broadcast use vstd::string::group_string_axioms;
    let mut v: Vec<char> = Vec::new();
    for c in it: s.chars()
        invariant
            v@ == it.seq().take(it.index() as int),
    {
        v.push(c);
    }
    assert(v@ =~= s@);
    v
}

/// `String::push`: appends one character.
#[verifier::external_body]
fn push_char(s: &mut String, c: char)
    ensures
        final(s)@ == old(s)@.push(c),
{
    s.push(c);
}

/// The string made of the given characters.
pub fn string_of(v: &Vec<char>) -> (s: String)
    ensures
        s@ == v@,
{
    let mut s = String::new();
    for i in 0..v.len()
        invariant
            s@ == v@.take(i as int),
    {
        push_char(&mut s, v[i]);
        assert(v@.take(i + 1) =~= v@.take(i as int).push(v@[i as int]));
    }
    assert(v@.take(v@.len() as int) =~= v@);
    s
}

/// Appends all of `t` to `v`.
pub fn append_chars(v: &mut Vec<char>, t: &Vec<char>)
    ensures
        final(v)@ == old(v)@ + t@,
{
    let ghost v0 = v@;
    for i in 0..t.len()
        invariant
            v@ == v0 + t@.take(i as int),
    {
        v.push(t[i]);
        assert(t@.take(i + 1) =~= t@.take(i as int).push(t@[i as int]));
    }
    assert(t@.take(t@.len() as int) =~= t@);
}

/// Appends the characters of a string slice to `v`.
pub fn append_str(v: &mut Vec<char>, t: &str)
    ensures
        final(v)@ == old(v)@ + t@,
{
    let c = chars_of(t);
    append_chars(v, &c);
}

/// The characters `s[a..b]`.
pub fn slice_chars(s: &Vec<char>, a: usize, b: usize) -> (r: Vec<char>)
    requires
        a <= b <= s@.len(),
    ensures
        r@ == s@.subrange(a as int, b as int),
{
    let mut r: Vec<char> = Vec::new();
    let mut i = a;
    while i < b
        invariant
            a <= i <= b <= s@.len(),
            r@ == s@.subrange(a as int, i as int),
        decreases b - i,
    {
        r.push(s[i]);
        i = i + 1;
        assert(r@ =~= s@.subrange(a as int, i as int));
    }
    r
}

/// Whether two character sequences are equal.
pub fn chars_eq(a: &Vec<char>, b: &Vec<char>) -> (r: bool)
    ensures
        r == (a@ == b@),
{
    if a.len() != b.len() {
        return false;
    }
    for i in 0..a.len()
        invariant
            a@.len() == b@.len(),
            forall|j: int| 0 <= j < i ==> a@[j] == b@[j],
    {
        if a[i] != b[i] {
            return false;
        }
    }
    assert(a@ =~= b@);
    true
}

/// Whether the characters equal those of a string slice.
pub fn chars_eq_str(a: &Vec<char>, b: &str) -> (r: bool)
    ensures
        r == (a@ == b@),
{
    let bv = chars_of(b);
    chars_eq(a, &bv)
}

// ---------------------------------------------------------------------------
// Character classes.

/// Unicode `White_Space`, the set `char::is_whitespace` documents.
pub open spec fn is_ws(c: char) -> bool {
    ||| c == ' '
    ||| ('\t' <= c && c <= '\r')
    ||| c == '\u{85}'
    ||| c == '\u{A0}'
    ||| c == '\u{1680}'
    ||| ('\u{2000}' <= c && c <= '\u{200A}')
    ||| c == '\u{2028}'
    ||| c == '\u{2029}'
    ||| c == '\u{202F}'
    ||| c == '\u{205F}'
    ||| c == '\u{3000}'
}

/// Whether `c` is whitespace.
pub fn is_whitespace(c: char) -> (r: bool)
    ensures
        r == is_ws(c),
{
    c == ' ' || ('\t' <= c && c <= '\r') || c == '\u{85}' || c == '\u{A0}' || c == '\u{1680}'
        || ('\u{2000}' <= c && c <= '\u{200A}') || c == '\u{2028}' || c == '\u{2029}'
        || c == '\u{202F}' || c == '\u{205F}' || c == '\u{3000}'
}

/// ASCII lowercase of one character; every other character is unchanged.
pub open spec fn lower_char(c: char) -> char {
    if 'A' <= c && c <= 'Z' {
        ((c as u32) + 32) as char
    } else {
        c
    }
}

/// ASCII lowercase of a string, as `str::to_ascii_lowercase` defines it.
pub open spec fn lower(s: Seq<char>) -> Seq<char> {
    s.map_values(|c: char| lower_char(c))
}

/// The ASCII lowercase of `s`.
pub fn to_lower(s: &Vec<char>) -> (r: Vec<char>)
    ensures
        r@ == lower(s@),
{
    let mut r: Vec<char> = Vec::new();
    for i in 0..s.len()
        invariant
            r@ == lower(s@.take(i as int)),
    {
        let c = s[i];
        let d = if 'A' <= c && c <= 'Z' {
            ((c as u8) + 32) as char
        } else {
            c
        };
        assert(d == lower_char(c));
        r.push(d);
        assert(s@.take(i + 1) =~= s@.take(i as int).push(c));
        assert(r@ =~= lower(s@.take(i + 1)));
    }
    assert(s@.take(s@.len() as int) =~= s@);
    r
}

/// Lowercasing twice changes nothing more.
pub proof fn lemma_lower_idempotent(s: Seq<char>)
    ensures
        lower(lower(s)) == lower(s),
{
    assert(lower(lower(s)) =~= lower(s));
}

// ---------------------------------------------------------------------------
// Substring search and splitting at a pattern.

/// The pattern `p` occurs in `s` at position `i`.
pub open spec fn matches_at(s: Seq<char>, p: Seq<char>, i: int) -> bool {
    0 <= i && i + p.len() <= s.len() && s.subrange(i, i + p.len()) == p
}

/// The first position at or after `i` where `p` occurs in `s`.
pub open spec fn find_from(s: Seq<char>, p: Seq<char>, i: int) -> Option<int>
    decreases s.len() + 1 - i,
{
    if i < 0 || i + p.len() > s.len() {
        None
    } else if matches_at(s, p, i) {
        Some(i)
    } else {
        find_from(s, p, i + 1)
    }
}

/// The first position where `p` occurs in `s` (`str::find`).
pub open spec fn find(s: Seq<char>, p: Seq<char>) -> Option<int> {
    find_from(s, p, 0)
}

/// The pieces of `s[start..]` between the non-overlapping occurrences of `p`
/// found scanning left to right from `i`.
pub open spec fn split_from(s: Seq<char>, p: Seq<char>, start: int, i: int) -> Seq<Seq<char>>
    decreases s.len() - i,
{
    if p.len() == 0 || i < start || start < 0 || i + p.len() > s.len() {
        seq![s.subrange(start, s.len() as int)]
    } else if matches_at(s, p, i) {
        seq![s.subrange(start, i)] + split_from(s, p, i + p.len(), i + p.len())
    } else {
        split_from(s, p, start, i + 1)
    }
}

proof fn lemma_split_from_shift(pre: Seq<char>, b: Seq<char>, p: Seq<char>, x: int, y: int)
    requires
        0 <= x <= y <= b.len(),
        p.len() > 0,
    ensures
        split_from(pre + b, p, pre.len() + x, pre.len() + y) == split_from(b, p, x, y),
    decreases b.len() - y,
{
    let s = pre + b;
    let d = pre.len() as int;
    if y + p.len() > b.len() {
        assert(s.subrange(d + x, s.len() as int) =~= b.subrange(x, b.len() as int));
    } else {
        assert(s.subrange(d + y, d + y + p.len()) =~= b.subrange(y, y + p.len()));
        if matches_at(b, p, y) {
            assert(s.subrange(d + x, d + y) =~= b.subrange(x, y));
            lemma_split_from_shift(pre, b, p, y + p.len(), y + p.len());
        } else {
            lemma_split_from_shift(pre, b, p, x, y + 1);
        }
    }
}

proof fn lemma_split_from_concat(a: Seq<char>, b: Seq<char>, c: char, start: int, i: int)
    requires
        0 <= start <= i <= a.len(),
    ensures
        split_from(a + seq![c] + b, seq![c], start, i) == split_from(a, seq![c], start, i) + split(
            b,
            seq![c],
        ),
    decreases a.len() - i,
{
    let s = a + seq![c] + b;
    let p = seq![c];
    let n = a.len() as int;
    if i == n {
        assert(s.subrange(n, n + 1) =~= p);
        assert(s.subrange(start, n) =~= a.subrange(start, n));
        assert(s =~= (a + seq![c]) + b);
        lemma_split_from_shift(a + seq![c], b, p, 0, 0);
    } else {
        assert(s.subrange(i, i + 1) =~= a.subrange(i, i + 1));
        if matches_at(a, p, i) {
            assert(s.subrange(start, i) =~= a.subrange(start, i));
            lemma_split_from_concat(a, b, c, i + 1, i + 1);
            assert(seq![a.subrange(start, i)] + split_from(a, p, i + 1, i + 1) + split(b, p)
                =~= seq![a.subrange(start, i)] + (split_from(a, p, i + 1, i + 1) + split(b, p)));
        } else {
            lemma_split_from_concat(a, b, c, start, i + 1);
        }
    }
}

/// Splitting at a character is compatible with concatenation: the pieces
/// of `a`, the character, then `b` are the pieces of `a` followed by those
/// of `b`.
pub proof fn lemma_split_concat(a: Seq<char>, b: Seq<char>, c: char)
    ensures
        split(a + seq![c] + b, seq![c]) == split(a, seq![c]) + split(b, seq![c]),
{
    lemma_split_from_concat(a, b, c, 0, 0);
}

/// A text without the separator is one piece.
pub proof fn lemma_split_no_sep(a: Seq<char>, c: char)
    requires
        !a.contains(c),
    ensures
        split(a, seq![c]) == seq![a],
{
    assert forall|start: int, i: int| 0 <= start <= i <= a.len() implies split_from(a, seq![c], start, i)
        == seq![a.subrange(start, a.len() as int)] by {
        lemma_split_from_no_sep(a, c, start, i);
    }
    assert(a.subrange(0, a.len() as int) =~= a);
}

proof fn lemma_split_from_no_sep(a: Seq<char>, c: char, start: int, i: int)
    requires
        !a.contains(c),
        0 <= start <= i <= a.len(),
    ensures
        split_from(a, seq![c], start, i) == seq![a.subrange(start, a.len() as int)],
    decreases a.len() - i,
{
    if i + 1 <= a.len() {
        if a.subrange(i, i + 1) == seq![c] {
            assert(a[i] == a.subrange(i, i + 1)[0]);
            assert(a.contains(c));
        }
        lemma_split_from_no_sep(a, c, start, i + 1);
    }
}

/// `str::split` at a non-empty pattern.
pub open spec fn split(s: Seq<char>, p: Seq<char>) -> Seq<Seq<char>> {
    split_from(s, p, 0, 0)
}

/// The pieces joined with `sep` between them (`[T]::join`).
pub open spec fn join(ps: Seq<Seq<char>>, sep: Seq<char>) -> Seq<char>
    decreases ps.len(),
{
    if ps.len() == 0 {
        seq![]
    } else if ps.len() == 1 {
        ps[0]
    } else {
        join(ps.drop_last(), sep) + sep + ps.last()
    }
}

/// `str::replace` at a non-empty pattern.
pub open spec fn replace(s: Seq<char>, from: Seq<char>, to: Seq<char>) -> Seq<char> {
    join(split(s, from), to)
}

/// The views of a vector of character vectors.
pub open spec fn views(v: Seq<Vec<char>>) -> Seq<Seq<char>> {
    v.map_values(|x: Vec<char>| x@)
}

/// The pieces one after another.
pub open spec fn concat_all(ps: Seq<Seq<char>>) -> Seq<char>
    decreases ps.len(),
{
    if ps.len() == 0 {
        seq![]
    } else {
        concat_all(ps.drop_last()) + ps.last()
    }
}

/// The views of a vector of strings.
pub open spec fn string_views(v: Seq<String>) -> Seq<Seq<char>> {
    v.map_values(|x: String| x@)
}

/// Whether `p` occurs in `s` at `i`.
pub fn matches_at_exec(s: &Vec<char>, p: &Vec<char>, i: usize) -> (r: bool)
    ensures
        r == matches_at(s@, p@, i as int),
{
    if i > s.len() || p.len() > s.len() - i {
        return false;
    }
    let slen = s.len();
    let mut k: usize = 0;
    while k < p.len()
        invariant
            slen == s@.len(),
            i + p@.len() <= s@.len(),
            k <= p@.len(),
            forall|j: int| 0 <= j < k ==> s@[i + j] == p@[j],
        decreases p@.len() - k,
    {
        let idx: usize = i + k;
        if s[idx] != p[k] {
            assert(s@.subrange(i as int, i + p@.len())[k as int] != p@[k as int]);
            return false;
        }
        k = k + 1;
    }
    assert(s@.subrange(i as int, i + p@.len()) =~= p@);
    true
}

/// The first occurrence of `p` in `s` at or after `i`.
pub fn find_from_exec(s: &Vec<char>, p: &Vec<char>, i: usize) -> (r: Option<usize>)
    requires
        p@.len() > 0,
    ensures
        match r {
            Some(j) => find_from(s@, p@, i as int) == Some(j as int),
            None => find_from(s@, p@, i as int) is None,
        },
{
    let mut k = i;
    while k <= s.len() && p.len() <= s.len() - k
        invariant
            i <= k,
            p@.len() > 0,
            find_from(s@, p@, i as int) == find_from(s@, p@, k as int),
        decreases s@.len() - k,
    {
        if matches_at_exec(s, p, k) {
            return Some(k);
        }
        k = k + 1;
    }
    None
}

/// `str::find` of a character: the first position of `c` in `s`.
pub open spec fn find_char(s: Seq<char>, c: char) -> Option<int> {
    find(s, seq![c])
}

/// The first position of `c` in `s`.
pub fn find_char_exec(s: &Vec<char>, c: char) -> (r: Option<usize>)
    ensures
        match r {
            Some(j) => find_char(s@, c) == Some(j as int),
            None => find_char(s@, c) is None,
        },
{
    let mut p: Vec<char> = Vec::new();
    p.push(c);
    assert(p@ =~= seq![c]);
    find_from_exec(s, &p, 0)
}

/// Splits `s` at every non-overlapping occurrence of the non-empty `p`.
pub fn split_exec(s: &Vec<char>, p: &Vec<char>) -> (r: Vec<Vec<char>>)
    requires
        p@.len() > 0,
    ensures
        views(r@) == split(s@, p@),
{
    let mut r: Vec<Vec<char>> = Vec::new();
    let mut start: usize = 0;
    let mut i: usize = 0;
    while i <= s.len() && p.len() <= s.len() - i
        invariant
            p@.len() > 0,
            start <= i <= s@.len(),
            views(r@) + split_from(s@, p@, start as int, i as int) == split(s@, p@),
        decreases s@.len() - i,
    {
        if matches_at_exec(s, p, i) {
            let piece = slice_chars(s, start, i);
            let ghost old_r = r@;
            r.push(piece);
            assert(views(r@) =~= views(old_r).push(piece@));
            assert(views(old_r) + split_from(s@, p@, start as int, i as int) =~= views(r@)
                + split_from(s@, p@, (i + p@.len()) as int, (i + p@.len()) as int));
            i = i + p.len();
            start = i;
        } else {
            i = i + 1;
        }
    }
    let piece = slice_chars(s, start, s.len());
    let ghost old_r = r@;
    r.push(piece);
    assert(views(r@) =~= views(old_r).push(piece@));
    assert(views(old_r) + split_from(s@, p@, start as int, i as int) =~= views(r@));
    r
}

proof fn lemma_split_from_len(s: Seq<char>, p: Seq<char>, start: int, i: int)
    ensures
        split_from(s, p, start, i).len() >= 1,
    decreases s.len() - i,
{
    if !(p.len() == 0 || i < start || start < 0 || i + p.len() > s.len()) {
        if matches_at(s, p, i) {
            lemma_split_from_len(s, p, i + p.len(), i + p.len());
        } else {
            lemma_split_from_len(s, p, start, i + 1);
        }
    }
}

/// Splitting gives at least one piece.
pub proof fn lemma_split_len(s: Seq<char>, p: Seq<char>)
    ensures
        split(s, p).len() >= 1,
{
    lemma_split_from_len(s, p, 0, 0);
}

/// A line without the `\r` of a `\r\n` ending.
pub open spec fn strip_cr(l: Seq<char>) -> Seq<char> {
    if l.len() > 0 && l.last() == '\r' {
        l.drop_last()
    } else {
        l
    }
}

/// `str::lines`: the pieces between `\n` characters, each without the `\r`
/// of a `\r\n` ending; a final empty piece (after a last `\n`, or of an
/// empty text) is not a line.
pub open spec fn lines(s: Seq<char>) -> Seq<Seq<char>> {
    let ps = split(s, seq!['\n']);
    let body = ps.drop_last().map_values(|l: Seq<char>| strip_cr(l));
    if ps.last().len() == 0 {
        body
    } else {
        body.push(ps.last())
    }
}

/// The lines of `s`.
pub fn lines_exec(s: &Vec<char>) -> (r: Vec<Vec<char>>)
    ensures
        views(r@) == lines(s@),
{
    let nl: Vec<char> = vec!['\n'];
    assert(nl@ =~= seq!['\n']);
    let mut ps = split_exec(s, &nl);
    proof {
        lemma_split_len(s@, nl@);
    }
    let ghost all = views(ps@);
    let last = ps.pop().unwrap();
    let ghost dl = all.drop_last();
    assert(views(ps@) =~= dl);
    let mut r: Vec<Vec<char>> = Vec::new();
    let n = ps.len();
    for i in 0..n
        invariant
            n == ps@.len(),
            views(ps@) == dl,
            views(r@) == dl.take(i as int).map_values(|l: Seq<char>| strip_cr(l)),
    {
        let l = &ps[i];
        let m = l.len();
        let piece = if m > 0 && l[m - 1] == '\r' {
            slice_chars(l, 0, m - 1)
        } else {
            slice_chars(l, 0, m)
        };
        assert(piece@ == strip_cr(l@)) by {
            if m > 0 && l@[m - 1] == '\r' {
                assert(l@.subrange(0, m - 1) =~= l@.drop_last());
            } else {
                assert(l@.subrange(0, m as int) =~= l@);
            }
        }
        let ghost old_r = r@;
        assert(l@ == dl[i as int]);
        r.push(piece);
        assert(views(r@) =~= views(old_r).push(piece@));
        assert(dl.take(i + 1) =~= dl.take(i as int).push(dl[i as int]));
        assert(views(r@) =~= dl.take(i + 1).map_values(|l: Seq<char>| strip_cr(l)));
    }
    assert(dl.take(n as int) =~= dl);
    if last.len() > 0 {
        r.push(last);
        assert(views(r@) =~= lines(s@));
    } else {
        assert(views(r@) =~= lines(s@));
    }
    r
}

/// Joins the pieces with `sep` between them.
pub fn join_exec(ps: &Vec<Vec<char>>, sep: &Vec<char>) -> (r: Vec<char>)
    ensures
        r@ == join(views(ps@), sep@),
{
    let mut r: Vec<char> = Vec::new();
    for i in 0..ps.len()
        invariant
            r@ == join(views(ps@.take(i as int)), sep@),
    {
        let ghost before = views(ps@.take(i as int));
        assert(views(ps@.take(i + 1)) =~= before.push(ps@[i as int]@));
        assert(views(ps@.take(i + 1)).drop_last() =~= before);
        if i > 0 {
            append_chars(&mut r, sep);
        }
        append_chars(&mut r, &ps[i]);
        assert(i == 0 ==> r@ =~= ps@[0]@);
    }
    assert(ps@.take(ps@.len() as int) =~= ps@);
    r
}

/// `str::replace` of every occurrence of the non-empty `from` by `to`.
pub fn replace_exec(s: &Vec<char>, from: &Vec<char>, to: &Vec<char>) -> (r: Vec<char>)
    requires
        from@.len() > 0,
    ensures
        r@ == replace(s@, from@, to@),
{
    let ps = split_exec(s, from);
    join_exec(&ps, to)
}

// ---------------------------------------------------------------------------
// Trimming and whitespace-separated words.

/// `s` without its leading whitespace.
pub open spec fn trim_start(s: Seq<char>) -> Seq<char>
    decreases s.len(),
{
    if s.len() > 0 && is_ws(s[0]) {
        trim_start(s.drop_first())
    } else {
        s
    }
}

/// `s` without its trailing whitespace (`str::trim_end`).
pub open spec fn trim_end(s: Seq<char>) -> Seq<char>
    decreases s.len(),
{
    if s.len() > 0 && is_ws(s.last()) {
        trim_end(s.drop_last())
    } else {
        s
    }
}

/// `s` without leading and trailing whitespace (`str::trim`).
pub open spec fn trim(s: Seq<char>) -> Seq<char> {
    trim_end(trim_start(s))
}

proof fn lemma_trim_start_at(s: Seq<char>, a: int)
    requires
        0 <= a <= s.len(),
        forall|j: int| 0 <= j < a ==> is_ws(s[j]),
        a == s.len() || !is_ws(s[a]),
    ensures
        trim_start(s) == s.subrange(a, s.len() as int),
    decreases a,
{
    if a == 0 {
        assert(s.subrange(0, s.len() as int) =~= s);
    } else {
        let t = s.drop_first();
        assert forall|j: int| 0 <= j < a - 1 implies is_ws(t[j]) by {
            assert(t[j] == s[j + 1]);
        }
        lemma_trim_start_at(t, a - 1);
        assert(t.subrange(a - 1, t.len() as int) =~= s.subrange(a, s.len() as int));
    }
}

proof fn lemma_trim_end_at(s: Seq<char>, b: int)
    requires
        0 <= b <= s.len(),
        forall|j: int| b <= j < s.len() ==> is_ws(s[j]),
        b == 0 || !is_ws(s[b - 1]),
    ensures
        trim_end(s) == s.subrange(0, b),
    decreases s.len() - b,
{
    if b == s.len() {
        assert(s.subrange(0, b) =~= s);
    } else {
        let t = s.drop_last();
        lemma_trim_end_at(t, b);
        assert(t.subrange(0, b) =~= s.subrange(0, b));
    }
}

/// The start and end of `s` with surrounding whitespace left out.
fn trim_bounds(s: &Vec<char>) -> (r: (usize, usize))
    ensures
        r.0 <= r.1 <= s@.len(),
        trim(s@) == s@.subrange(r.0 as int, r.1 as int),
        trim_start(s@) == s@.subrange(r.0 as int, s@.len() as int),
{
    let mut a: usize = 0;
    while a < s.len() && is_whitespace(s[a])
        invariant
            a <= s@.len(),
            forall|j: int| 0 <= j < a ==> is_ws(s@[j]),
        decreases s@.len() - a,
    {
        a = a + 1;
    }
    proof {
        lemma_trim_start_at(s@, a as int);
    }
    let mut b: usize = s.len();
    while b > a && is_whitespace(s[b - 1])
        invariant
            a <= b <= s@.len(),
            forall|j: int| b <= j < s@.len() ==> is_ws(s@[j]),
        decreases b,
    {
        b = b - 1;
    }
    proof {
        let t = s@.subrange(a as int, s@.len() as int);
        assert forall|j: int| b - a <= j < t.len() implies is_ws(t[j]) by {
            assert(t[j] == s@[a + j]);
        }
        if b > a {
            assert(t[b - a - 1] == s@[b - 1]);
        }
        lemma_trim_end_at(t, b - a);
        assert(t.subrange(0, b - a) =~= s@.subrange(a as int, b as int));
    }
    (a, b)
}

/// `str::trim`.
pub fn trim_exec(s: &Vec<char>) -> (r: Vec<char>)
    ensures
        r@ == trim(s@),
{
    let (a, b) = trim_bounds(s);
    slice_chars(s, a, b)
}

/// `str::trim_end`.
pub fn trim_end_exec(s: &Vec<char>) -> (r: Vec<char>)
    ensures
        r@ == trim_end(s@),
{
    let mut b: usize = s.len();
    while b > 0 && is_whitespace(s[b - 1])
        invariant
            b <= s@.len(),
            forall|j: int| b <= j < s@.len() ==> is_ws(s@[j]),
        decreases b,
    {
        b = b - 1;
    }
    proof {
        lemma_trim_end_at(s@, b as int);
    }
    slice_chars(s, 0, b)
}

/// Whether `s` holds only whitespace (`s.trim().is_empty()`).
pub fn is_blank(s: &Vec<char>) -> (r: bool)
    ensures
        r == (trim(s@).len() == 0),
{
    let (a, b) = trim_bounds(s);
    a == b
}

/// The pieces of `s` between whitespace characters, empty ones included.
pub open spec fn ws_pieces(s: Seq<char>) -> Seq<Seq<char>>
    decreases s.len(),
{
    if s.len() == 0 {
        seq![seq![]]
    } else {
        let p = ws_pieces(s.drop_last());
        if is_ws(s.last()) {
            p.push(seq![])
        } else {
            p.update(p.len() - 1, p.last().push(s.last()))
        }
    }
}

/// The pieces that are not empty, in order.
pub open spec fn drop_empty(ps: Seq<Seq<char>>) -> Seq<Seq<char>>
    decreases ps.len(),
{
    if ps.len() == 0 {
        ps
    } else if ps.last().len() > 0 {
        drop_empty(ps.drop_last()).push(ps.last())
    } else {
        drop_empty(ps.drop_last())
    }
}

/// `str::split_whitespace`: the non-empty runs of non-whitespace characters.
pub open spec fn words(s: Seq<char>) -> Seq<Seq<char>> {
    drop_empty(ws_pieces(s))
}

pub proof fn lemma_ws_pieces_len(s: Seq<char>)
    ensures
        ws_pieces(s).len() >= 1,
    decreases s.len(),
{
    if s.len() > 0 {
        lemma_ws_pieces_len(s.drop_last());
    }
}

/// The words of `s`.
pub fn words_exec(s: &Vec<char>) -> (r: Vec<Vec<char>>)
    ensures
        views(r@) == words(s@),
{
    let mut r: Vec<Vec<char>> = Vec::new();
    let mut cur: Vec<char> = Vec::new();
    for i in 0..s.len()
        invariant
            ws_pieces(s@.take(i as int)).len() >= 1,
            views(r@) == drop_empty(ws_pieces(s@.take(i as int)).drop_last()),
            cur@ == ws_pieces(s@.take(i as int)).last(),
    {
        let ghost pre = s@.take(i as int);
        let ghost ps = ws_pieces(pre);
        let c = s[i];
        assert(s@.take(i + 1).drop_last() =~= pre);
        assert(s@.take(i + 1).last() == c);
        proof {
            lemma_ws_pieces_len(pre);
        }
        if is_whitespace(c) {
            let ghost old_r = r@;
            if cur.len() > 0 {
                r.push(cur);
                assert(views(r@) =~= views(old_r).push(ps.last()));
            }
            cur = Vec::new();
            let ghost np = ps.push(seq![]);
            assert(np.drop_last() =~= ps);
            assert(ps =~= ps.drop_last().push(ps.last()));
            assert(views(r@) =~= drop_empty(np.drop_last()));
            assert(cur@ =~= np.last());
        } else {
            cur.push(c);
            let ghost np = ps.update(ps.len() - 1, ps.last().push(c));
            assert(np.drop_last() =~= ps.drop_last());
        }
    }
    assert(s@.take(s@.len() as int) =~= s@);
    let ghost ps = ws_pieces(s@);
    assert(ps =~= ps.drop_last().push(ps.last()));
    if cur.len() > 0 {
        r.push(cur);
    }
    assert(views(r@) =~= words(s@));
    r
}

} // verus!

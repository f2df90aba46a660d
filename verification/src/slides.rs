//! Text outlines of presentations: pptx slides in number order, and the
//! pages of an ODF presentation.

use vstd::prelude::*;
use crate::fmt::{digits, digits_exec};
use crate::term::{bold_colour, coded};
use crate::text::{
    append_chars, append_str, chars_of, drop_empty, find_char, find_char_exec, lines, lines_exec,
    replace, slice_chars, string_views, concat_all, is_blank, replace_exec, split, split_exec, string_of, trim, trim_exec, views, lemma_split_len,
};
use crate::xml::{runs_text, extract_runs, strip_tags_chars, strip_tags_text};

verus! {

// ---------------------------------------------------------------------------
// Slide numbers.

/// `s` with every leading occurrence of the non-empty `p` removed
/// (`str::trim_start_matches`).
pub open spec fn strip_prefixes(s: Seq<char>, p: Seq<char>) -> Seq<char>
    decreases s.len(),
{
    if p.len() > 0 && s.len() >= p.len() && s.take(p.len() as int) == p {
        strip_prefixes(s.skip(p.len() as int), p)
    } else {
        s
    }
}

/// `s` with every trailing occurrence of the non-empty `p` removed
/// (`str::trim_end_matches`).
pub open spec fn strip_suffixes(s: Seq<char>, p: Seq<char>) -> Seq<char>
    decreases s.len(),
{
    if p.len() > 0 && s.len() >= p.len() && s.skip(s.len() - p.len()) == p {
        strip_suffixes(s.take(s.len() - p.len()), p)
    } else {
        s
    }
}

/// Whether every character of `s` is an ASCII digit.
pub open spec fn all_digits(s: Seq<char>) -> bool {
    forall|i: int| 0 <= i < s.len() ==> '0' <= #[trigger] s[i] && s[i] <= '9'
}

/// The number an all-digit string spells in decimal.
pub open spec fn decimal_value(s: Seq<char>) -> nat
    decreases s.len(),
{
    if s.len() == 0 {
        0
    } else {
        decimal_value(s.drop_last()) * 10 + ((s.last() as int) - ('0' as int)) as nat
    }
}

/// `u32::from_str`: an optional `+`, then at least one digit, the value
/// fitting in 32 bits.
pub open spec fn parse_u32(s: Seq<char>) -> Option<u32> {
    let d = if s.len() > 0 && s[0] == '+' {
        s.drop_first()
    } else {
        s
    };
    if d.len() > 0 && all_digits(d) && decimal_value(d) <= u32::MAX {
        Some(decimal_value(d) as u32)
    } else {
        None
    }
}

proof fn lemma_decimal_value_mono(s: Seq<char>, k: int)
    requires
        0 <= k <= s.len(),
        all_digits(s),
    ensures
        decimal_value(s.take(k)) <= decimal_value(s),
    decreases s.len() - k,
{
    if k < s.len() {
        let t = s.take(k + 1);
        assert(t.drop_last() =~= s.take(k));
        assert('0' <= t.last() && t.last() <= '9') by {
            assert(t.last() == s[k]);
        }
        lemma_decimal_value_mono(s, k + 1);
    } else {
        assert(s.take(k) =~= s);
    }
}

pub(crate) fn strip_prefixes_exec(s: &Vec<char>, p: &Vec<char>) -> (r: Vec<char>)
    requires
        p@.len() > 0,
    ensures
        r@ == strip_prefixes(s@, p@),
{
    let mut i: usize = 0;
    let n = s.len();
    assert(s@.skip(0) =~= s@);
    while i <= n && p.len() <= n - i && crate::text::matches_at_exec(s, p, i)
        invariant
            n == s@.len(),
            p@.len() > 0,
            i <= n,
            strip_prefixes(s@, p@) == strip_prefixes(s@.skip(i as int), p@),
        decreases n - i,
    {
        let ghost t = s@.skip(i as int);
        assert(t.take(p@.len() as int) =~= s@.subrange(i as int, i + p@.len()));
        assert(t.skip(p@.len() as int) =~= s@.skip(i + p@.len()));
        i = i + p.len();
    }
    proof {
        let t = s@.skip(i as int);
        if t.len() >= p@.len() {
            assert(t.take(p@.len() as int) =~= s@.subrange(i as int, i + p@.len()));
        }
    }
    slice_chars(s, i, n)
}

fn strip_suffixes_exec(s: &Vec<char>, p: &Vec<char>) -> (r: Vec<char>)
    requires
        p@.len() > 0,
    ensures
        r@ == strip_suffixes(s@, p@),
{
    let mut e: usize = s.len();
    assert(s@.take(e as int) =~= s@);
    while e >= p.len() && crate::text::matches_at_exec(s, p, e - p.len())
        invariant
            e <= s@.len(),
            p@.len() > 0,
            strip_suffixes(s@, p@) == strip_suffixes(s@.take(e as int), p@),
        decreases e,
    {
        let ghost t = s@.take(e as int);
        assert(t.skip(t.len() - p@.len()) =~= s@.subrange(e - p@.len(), e as int));
        assert(t.take(t.len() - p@.len()) =~= s@.take(e - p@.len()));
        e = e - p.len();
    }
    proof {
        let t = s@.take(e as int);
        if t.len() >= p@.len() {
            assert(t.skip(t.len() - p@.len()) =~= s@.subrange(e - p@.len(), e as int));
        }
    }
    slice_chars(s, 0, e)
}

/// `u32::from_str`.
pub fn parse_u32_exec(s: &Vec<char>) -> (r: Option<u32>)
    ensures
        r == parse_u32(s@),
{
    let start: usize = if s.len() > 0 && s[0] == '+' {
        1
    } else {
        0
    };
    let d = slice_chars(s, start, s.len());
    assert(s@.len() > 0 && s@[0] == '+' ==> d@ =~= s@.drop_first());
    assert(!(s@.len() > 0 && s@[0] == '+') ==> d@ =~= s@);
    if d.len() == 0 {
        return None;
    }
    let mut v: u64 = 0;
    let n = d.len();
    for i in 0..n
        invariant
            n == d@.len(),
            d@ == (if s@.len() > 0 && s@[0] == '+' {
                s@.drop_first()
            } else {
                s@
            }),
            all_digits(d@.take(i as int)),
            v == decimal_value(d@.take(i as int)),
            v <= u32::MAX,
    {
        let c = d[i];
        if !('0' <= c && c <= '9') {
            assert(!all_digits(d@)) by {
                assert(d@[i as int] == c);
            }
            return None;
        }
        let ghost t = d@.take(i + 1);
        assert(t.drop_last() =~= d@.take(i as int));
        assert(t.last() == c);
        assert(all_digits(t));
        v = v * 10 + ((c as u32) - ('0' as u32)) as u64;
        if v > 4_294_967_295 {
            proof {
                if all_digits(d@) {
                    lemma_decimal_value_mono(d@, i + 1);
                }
            }
            return None;
        }
    }
    assert(d@.take(n as int) =~= d@);
    Some(v as u32)
}

/// The number of a pptx slide file `ppt/slides/slideN.xml`, or 0 when the
/// name does not hold one.
pub open spec fn slide_num_of(name: Seq<char>) -> u32 {
    match parse_u32(strip_suffixes(strip_prefixes(name, "ppt/slides/slide"@), ".xml"@)) {
        Some(n) => n,
        None => 0,
    }
}

fn slide_num_chars(name: &Vec<char>) -> (r: u32)
    ensures
        r == slide_num_of(name@),
{
    proof {
        reveal_strlit("ppt/slides/slide");
        reveal_strlit(".xml");
    }
    let pre = chars_of("ppt/slides/slide");
    let suf = chars_of(".xml");
    let a = strip_prefixes_exec(name, &pre);
    let b = strip_suffixes_exec(&a, &suf);
    match parse_u32_exec(&b) {
        Some(n) => n,
        None => 0,
    }
}

/// The number of a pptx slide file, or 0.
pub fn slide_num(name: &str) -> (r: u32)
    ensures
        r == slide_num_of(name@),
{
    let c = chars_of(name);
    slide_num_chars(&c)
}

// ---------------------------------------------------------------------------
// Slide headers.

/// The divider that starts each slide of an outline: `── Slide N ──`, in
/// bold colour 11.
pub open spec fn header_text(n: nat) -> Seq<char> {
    bold_colour("\u{2500}\u{2500} Slide "@ + digits(n, 10) + " \u{2500}\u{2500}"@, "11"@)
}

/// The divider for slide `n`.
pub fn slide_header(n: usize) -> (r: String)
    ensures
        r@ == header_text(n as nat),
{
    let mut t: Vec<char> = Vec::new();
    append_str(&mut t, "\u{2500}\u{2500} Slide ");
    let ds = digits_exec(n as u64, 10);
    append_chars(&mut t, &ds);
    append_str(&mut t, " \u{2500}\u{2500}");
    let s = string_of(&t);
    coded(s.as_str(), "11,,b")
}

// ---------------------------------------------------------------------------
// pptx: the slide files, in number order.

/// A file name of the archive listing that is a slide.
pub open spec fn is_slide_file(name: Seq<char>) -> bool {
    name.len() >= "ppt/slides/slide"@.len() && name.take("ppt/slides/slide"@.len() as int)
        == "ppt/slides/slide"@ && name.len() >= ".xml"@.len() && name.skip(
        name.len() - ".xml"@.len(),
    ) == ".xml"@
}

/// The slide files of a listing, in listing order.
pub open spec fn slide_files(names: Seq<Seq<char>>) -> Seq<Seq<char>>
    decreases names.len(),
{
    if names.len() == 0 {
        seq![]
    } else if is_slide_file(names.last()) {
        slide_files(names.drop_last()).push(names.last())
    } else {
        slide_files(names.drop_last())
    }
}

/// `r` holds the items of `f` ordered by slide number, items with equal
/// numbers in their order in `f` (a stable sort): `r[i] == f[idx[i]]` for
/// a permutation `idx` along which (number, position in `f`) increases.
pub open spec fn stable_by_number(f: Seq<Seq<char>>, r: Seq<Seq<char>>, idx: Seq<int>) -> bool {
    &&& r.len() == f.len()
    &&& idx.len() == f.len()
    &&& forall|i: int| 0 <= i < idx.len() ==> 0 <= #[trigger] idx[i] < f.len()
    &&& forall|i: int| 0 <= i < r.len() ==> #[trigger] r[i] == f[idx[i]]
    &&& forall|i: int, j: int|
        #![trigger idx[i], idx[j]]
        0 <= i < j < idx.len() ==> {
            let (a, b) = (slide_num_of(f[idx[i]]), slide_num_of(f[idx[j]]));
            a < b || (a == b && idx[i] < idx[j])
        }
}

fn is_slide_file_exec(name: &Vec<char>) -> (r: bool)
    ensures
        r == is_slide_file(name@),
{
    proof {
        reveal_strlit("ppt/slides/slide");
        reveal_strlit(".xml");
    }
    let pre = chars_of("ppt/slides/slide");
    let suf = chars_of(".xml");
    let n = name.len();
    if n < pre.len() || n < suf.len() {
        return false;
    }
    let a = crate::text::matches_at_exec(name, &pre, 0);
    let b = crate::text::matches_at_exec(name, &suf, n - suf.len());
    assert(name@.subrange(0, pre@.len() as int) =~= name@.take(pre@.len() as int));
    assert(name@.subrange(n - suf@.len(), n as int) =~= name@.skip(n - suf@.len()));
    a && b
}

/// The slide files that a `unzip -Z1` listing names, ordered by slide
/// number (a stable sort, so equal numbers keep their listing order).
pub fn pptx_slide_files(listing: &str) -> (r: Vec<String>)
    ensures
        exists|idx: Seq<int>|
            #[trigger] stable_by_number(
                slide_files(lines(listing@)),
                string_views(r@),
                idx,
            ),
{
    let lc = chars_of(listing);
    let ls = lines_exec(&lc);
    let ghost lv = views(ls@);
    // The slide files, in listing order.
    let mut f: Vec<Vec<char>> = Vec::new();
    let n = ls.len();
    for i in 0..n
        invariant
            n == ls@.len(),
            lv == views(ls@),
            views(f@) == slide_files(lv.take(i as int)),
    {
        assert(lv.take(i + 1).drop_last() =~= lv.take(i as int));
        assert(lv.take(i + 1).last() == ls@[i as int]@);
        if is_slide_file_exec(&ls[i]) {
            let c = slice_chars(&ls[i], 0, ls[i].len());
            assert(c@ =~= ls@[i as int]@);
            let ghost before = views(f@);
            f.push(c);
            assert(views(f@) =~= before.push(c@));
        }
    }
    assert(lv.take(n as int) =~= lv);
    let ghost fv = views(f@);
    // Their numbers.
    let mut keys: Vec<u32> = Vec::new();
    let m = f.len();
    for i in 0..m
        invariant
            m == f@.len(),
            fv == views(f@),
            keys@.len() == i,
            forall|j: int| 0 <= j < i ==> keys@[j] == slide_num_of(fv[j]),
    {
        keys.push(slide_num_chars(&f[i]));
    }
    // Insertion sort of the positions by (number, position).
    let mut ord: Vec<usize> = Vec::new();
    for k in 0..m
        invariant
            m == f@.len(),
            m == keys@.len(),
            forall|j: int| 0 <= j < m ==> keys@[j] == slide_num_of(fv[j]),
            ord@.len() == k,
            forall|a: int| 0 <= a < ord@.len() ==> #[trigger] ord@[a] < k,
            forall|a: int, b: int|
                0 <= a < b < ord@.len() ==> keys@[ord@[a] as int] < keys@[ord@[b] as int] || (
                keys@[ord@[a] as int] == keys@[ord@[b] as int] && ord@[a] < ord@[b]),
    {
        let kn = keys[k];
        let mut p: usize = 0;
        while p < ord.len() && keys[ord[p]] <= kn
            invariant
                ord@.len() == k,
                m == keys@.len(),
                k < m,
                kn == keys@[k as int],
                p <= ord@.len(),
                forall|a: int| 0 <= a < ord@.len() ==> #[trigger] ord@[a] < k,
                forall|a: int| 0 <= a < p ==> keys@[#[trigger] ord@[a] as int] <= kn,
            decreases ord@.len() - p,
        {
            p = p + 1;
        }
        let ghost o = ord@;
        proof {
            // Everything after p is larger: the order is by number first.
            assert forall|a: int| p <= a < o.len() implies kn < keys@[#[trigger] o[a] as int] by {
                if keys@[o[a] as int] <= kn {
                    assert(keys@[o[p as int] as int] > kn);
                    assert(keys@[o[p as int] as int] < keys@[o[a] as int] || (keys@[o[p as int] as int] == keys@[o[a] as int] && o[p as int] < o[a]));
                }
            }
        }
        ord.insert(p, k);
        assert(ord@ =~= o.insert(p as int, k));
        assert forall|a: int, b: int|
            0 <= a < b < ord@.len() implies keys@[ord@[a] as int] < keys@[ord@[b] as int] || (
            keys@[ord@[a] as int] == keys@[ord@[b] as int] && ord@[a] < ord@[b]) by {
            if b < p {
            } else if b == p {
                assert(ord@[a] == o[a]);
            } else if a == p {
                assert(ord@[b] == o[b - 1]);
            } else if a < p {
                assert(ord@[b] == o[b - 1]);
            } else {
                assert(ord@[a] == o[a - 1]);
                assert(ord@[b] == o[b - 1]);
            }
        }
    }
    // The names in that order.
    let mut r: Vec<String> = Vec::new();
    for i in 0..m
        invariant
            m == f@.len(),
            m == ord@.len(),
            fv == views(f@),
            forall|a: int| 0 <= a < ord@.len() ==> #[trigger] ord@[a] < m,
            r@.len() == i,
            forall|j: int| 0 <= j < i ==> #[trigger] r@[j]@ == fv[ord@[j] as int],
    {
        r.push(string_of(&f[ord[i]]));
    }
    proof {
        let idx = ord@.map_values(|x: usize| x as int);
        let rv = string_views(r@);
        assert(stable_by_number(fv, rv, idx));
    }
    r
}

/// What the slide view does next with the archive listing of a pptx.
pub enum SlidePlan {
    /// Show this text: the listing failed, or it names no slides.
    Show(String),
    /// Read these slide files, in this order, and outline them.
    Read(Vec<String>),
}

/// The notice shown when listing the archive failed with error `e`.
pub open spec fn unzip_failed_text(e: Seq<char>) -> Seq<char> {
    "unzip failed: "@ + e + "\n(install unzip to view .pptx)"@
}

/// The slide files to read from a pptx, given the outcome of listing the
/// archive (`unzip -Z1`): the slides in number order, or the message to
/// show when the listing failed (with its error) or names no slides.
pub fn plan_slides(listing: Result<&str, &str>) -> (r: SlidePlan)
    ensures
        listing matches Err(e) ==> (r matches SlidePlan::Show(t) && t@ == unzip_failed_text(e@)),
        listing matches Ok(l) ==> (slide_files(lines(l@)).len() == 0 ==> (r matches SlidePlan::Show(
            t,
        ) && t@ == "(no slides found)"@)),
        listing matches Ok(l) ==> (slide_files(lines(l@)).len() > 0 ==> (r matches SlidePlan::Read(
            names,
        ) && exists|idx: Seq<int>|
            #[trigger] stable_by_number(slide_files(lines(l@)), string_views(names@), idx))),
{
    match listing {
        Err(e) => {
            let mut t: Vec<char> = Vec::new();
            append_str(&mut t, "unzip failed: ");
            append_str(&mut t, e);
            append_str(&mut t, "\n(install unzip to view .pptx)");
            assert(t@ =~= unzip_failed_text(e@));
            let r = SlidePlan::Show(string_of(&t));
            assert(r matches SlidePlan::Show(u) && u@ == unzip_failed_text(e@));
            r
        },
        Ok(l) => {
            let files = pptx_slide_files(l);
            if files.len() == 0 {
                proof {
                    let idx = choose|idx: Seq<int>|
                        #[trigger] stable_by_number(slide_files(lines(l@)), string_views(files@), idx);
                    assert(string_views(files@).len() == 0);
                    assert(stable_by_number(slide_files(lines(l@)), string_views(files@), idx));
                    assert(slide_files(lines(l@)).len() == 0);
                }
                SlidePlan::Show(string_of(&chars_of("(no slides found)")))
            } else {
                assert(exists|idx: Seq<int>|
                    #[trigger] stable_by_number(slide_files(lines(l@)), string_views(files@), idx));
                let ghost idx = choose|idx: Seq<int>|
                    #[trigger] stable_by_number(slide_files(lines(l@)), string_views(files@), idx);
                let ghost fv = files@;
                let r = SlidePlan::Read(files);
                assert(r->Read_0@ == fv);
                assert(stable_by_number(slide_files(lines(l@)), string_views(r->Read_0@), idx));
                r
            }
        },
    }
}

/// The text of one pptx slide: its `<a:t>` runs, one line per paragraph.
pub open spec fn pptx_slide_text(xml: Seq<char>) -> Seq<char> {
    runs_text(xml, "a:t"@, "</a:p>"@)
}

/// The outline of slide `n` with slide XML `xml`: the divider, then the
/// slide's text or `(no text)`, then a blank line.
pub open spec fn pptx_slide_block(n: nat, xml: Seq<char>) -> Seq<char> {
    let t = pptx_slide_text(xml);
    header_text(n) + seq!['\n'] + (if trim(t).len() == 0 {
        "(no text)"@
    } else {
        t
    }) + "\n\n"@
}

/// The outline of a pptx whose slides, in order, have the XML `xmls`.
pub open spec fn pptx_outline_text(xmls: Seq<Seq<char>>) -> Seq<char> {
    concat_all(Seq::new(xmls.len(), |i: int| pptx_slide_block((i + 1) as nat, xmls[i])))
}

/// The outline of a pptx from the XML of its slides, in order.
pub fn pptx_outline(xmls: &Vec<String>) -> (r: String)
    ensures
        r@ == pptx_outline_text(string_views(xmls@)),
{
    proof {
        reveal_strlit("</a:p>");
    }
    let ghost xs = string_views(xmls@);
    let ghost blocks = Seq::new(xs.len(), |i: int| pptx_slide_block((i + 1) as nat, xs[i]));
    let mut out: Vec<char> = Vec::new();
    let n = xmls.len();
    for i in 0..n
        invariant
            n == xmls@.len(),
            xs == string_views(xmls@),
            blocks == Seq::new(xs.len(), |i: int| pptx_slide_block((i + 1) as nat, xs[i])),
            "</a:p>"@.len() > 0,
            out@ == concat_all(blocks.take(i as int)),
    {
        let ghost before = out@;
        let h = slide_header(i + 1);
        append_str(&mut out, h.as_str());
        out.push('\n');
        let text = extract_runs(xmls[i].as_str(), "a:t", "</a:p>");
        let tc = chars_of(text.as_str());
        if is_blank(&tc) {
            append_str(&mut out, "(no text)");
        } else {
            append_chars(&mut out, &tc);
        }
        append_str(&mut out, "\n\n");
        assert(xs[i as int] == xmls@[i as int]@);
        assert(blocks.take(i + 1).drop_last() =~= blocks.take(i as int));
        assert(out@ =~= before + blocks[i as int]);
    }
    assert(blocks.take(n as int) =~= blocks);
    string_of(&out)
}

// ---------------------------------------------------------------------------
// ODF presentations.

/// The text lines of an ODF slide's markup: paragraphs and headings end
/// lines, tags are stripped, each line is trimmed and empty lines dropped.
/// (`str::lines` also drops a `\r` before each `\n`; trimming removes it
/// anyway, so cutting at `\n` gives the same lines.)
pub open spec fn odp_lines(slide: Seq<char>) -> Seq<Seq<char>> {
    let body = replace(replace(slide, "</text:p>"@, "\n"@), "</text:h>"@, "\n"@);
    drop_empty(split(strip_tags_text(body), seq!['\n']).map_values(|l: Seq<char>| trim(l)))
}

/// The markup of one slide from the text that follows a `<draw:page `:
/// past the end of the opening tag, up to the closing `</draw:page>`.
pub open spec fn odp_slide_markup(part: Seq<char>) -> Seq<char> {
    let after = match find_char(part, '>') {
        Some(i) => part.subrange(i + 1, part.len() as int),
        None => part,
    };
    split(after, "</draw:page>"@)[0]
}

/// The outline of ODF slide `n`: the divider, the slide's lines (or
/// `(no text)`), and a blank line.
pub open spec fn odp_slide_block(n: nat, part: Seq<char>) -> Seq<char> {
    let ls = odp_lines(odp_slide_markup(part));
    header_text(n) + seq!['\n'] + (if ls.len() == 0 {
        "(no text)\n"@
    } else {
        concat_all(ls.map_values(|l: Seq<char>| l + seq!['\n']))
    }) + seq!['\n']
}

/// The view of an ODF presentation from its `content.xml`: one block per
/// `<draw:page ` element, numbered from 1; without such elements, the text
/// of the whole document with paragraphs on lines of their own; for an
/// empty (unreadable) document a notice.
pub open spec fn odp_text(xml: Seq<char>) -> Seq<char> {
    if xml.len() == 0 {
        "(could not read content.xml)"@
    } else {
        let parts = split(xml, "<draw:page "@);
        if parts.len() <= 1 {
            strip_tags_text(replace(xml, "</text:p>"@, "\n"@))
        } else {
            concat_all(
                Seq::new(
                    (parts.len() - 1) as nat,
                    |i: int| odp_slide_block((i + 1) as nat, parts[i + 1]),
                ),
            )
        }
    }
}

fn lit(s: &str) -> (r: Vec<char>)
    ensures
        r@ == s@,
{
    chars_of(s)
}

fn odp_slide(n: usize, part: &Vec<char>) -> (r: Vec<char>)
    ensures
        r@ == odp_slide_block(n as nat, part@),
{
    proof {
        reveal_strlit("</draw:page>");
        reveal_strlit("</text:p>");
        reveal_strlit("</text:h>");
    }
    let plen = part.len();
    proof {
        crate::xml::lemma_find_from_ge(part@, seq!['>'], 0);
    }
    let after = match find_char_exec(part, '>') {
        Some(i) => slice_chars(part, i + 1, plen),
        None => slice_chars(part, 0, part.len()),
    };
    assert(find_char(part@, '>') is None ==> after@ =~= part@);
    let pieces = split_exec(&after, &lit("</draw:page>"));
    proof {
        lemma_split_len(after@, "</draw:page>"@);
    }
    let slide = slice_chars(&pieces[0], 0, pieces[0].len());
    assert(slide@ =~= odp_slide_markup(part@));
    let b1 = replace_exec(&slide, &lit("</text:p>"), &lit("\n"));
    let body = replace_exec(&b1, &lit("</text:h>"), &lit("\n"));
    let stripped = strip_tags_chars(&body);
    let nl: Vec<char> = vec!['\n'];
    assert(nl@ =~= seq!['\n']);
    let ls = split_exec(&stripped, &nl);
    let ghost lv = views(ls@).map_values(|l: Seq<char>| trim(l));
    let ghost kept = odp_lines(slide@);
    assert(kept == drop_empty(lv));
    let mut out: Vec<char> = Vec::new();
    let h = slide_header(n);
    append_str(&mut out, h.as_str());
    out.push('\n');
    let ghost head = out@;
    let mut any = false;
    let mut body_out: Vec<char> = Vec::new();
    let m = ls.len();
    for i in 0..m
        invariant
            m == ls@.len(),
            lv == views(ls@).map_values(|l: Seq<char>| trim(l)),
            body_out@ == concat_all(
                drop_empty(lv.take(i as int)).map_values(|l: Seq<char>| l + seq!['\n']),
            ),
            any == (drop_empty(lv.take(i as int)).len() > 0),
    {
        let t = trim_exec(&ls[i]);
        assert(t@ == lv[i as int]);
        assert(lv.take(i + 1).drop_last() =~= lv.take(i as int));
        assert(lv.take(i + 1).last() == lv[i as int]);
        if t.len() > 0 {
            let ghost before = body_out@;
            let ghost d = drop_empty(lv.take(i as int));
            append_chars(&mut body_out, &t);
            body_out.push('\n');
            let ghost d2 = d.push(t@);
            assert(d2.map_values(|l: Seq<char>| l + seq!['\n']).drop_last() =~= d.map_values(
                |l: Seq<char>| l + seq!['\n'],
            ));
            assert(body_out@ =~= before + (t@ + seq!['\n']));
            any = true;
        }
    }
    assert(lv.take(m as int) =~= lv);
    if any {
        append_chars(&mut out, &body_out);
    } else {
        append_str(&mut out, "(no text)\n");
    }
    out.push('\n');
    assert(out@ =~= odp_slide_block(n as nat, part@));
    out
}

/// The view of an ODF presentation from its `content.xml` (empty when it
/// could not be read).
pub fn render_odp(xml: &str) -> (r: String)
    ensures
        r@ == odp_text(xml@),
{
    proof {
        reveal_strlit("<draw:page ");
        reveal_strlit("</text:p>");
    }
    let x = chars_of(xml);
    if x.len() == 0 {
        return string_of(&lit("(could not read content.xml)"));
    }
    let parts = split_exec(&x, &lit("<draw:page "));
    let ghost pv = views(parts@);
    if parts.len() <= 1 {
        let t = replace_exec(&x, &lit("</text:p>"), &lit("\n"));
        let r = strip_tags_chars(&t);
        return string_of(&r);
    }
    let ghost blocks = Seq::new(
        (pv.len() - 1) as nat,
        |i: int| odp_slide_block((i + 1) as nat, pv[i + 1]),
    );
    let mut out: Vec<char> = Vec::new();
    let n = parts.len();
    for k in 1..n
        invariant
            n == parts@.len(),
            n >= 2,
            pv == views(parts@),
            blocks == Seq::new(
                (pv.len() - 1) as nat,
                |i: int| odp_slide_block((i + 1) as nat, pv[i + 1]),
            ),
            out@ == concat_all(blocks.take(k - 1)),
    {
        let b = odp_slide(k, &parts[k]);
        let ghost before = out@;
        append_chars(&mut out, &b);
        assert(blocks.take(k as int).drop_last() =~= blocks.take(k - 1));
        assert(blocks[k - 1] == b@);
    }
    assert(blocks.take(n - 1) =~= blocks);
    string_of(&out)
}

/// pptx and ODF outlines share the divider: the block of slide `n` starts
/// with `── Slide n ──` and a line break in both formats.
pub proof fn law_shared_divider(n: nat, xml: Seq<char>, part: Seq<char>)
    ensures
        pptx_slide_block(n, xml).take(header_text(n).len() + 1int) == header_text(n) + seq!['\n'],
        odp_slide_block(n, part).take(header_text(n).len() + 1int) == header_text(n) + seq!['\n'],
{
    let h = header_text(n) + seq!['\n'];
    assert(pptx_slide_block(n, xml).take(h.len() as int) =~= h);
    assert(odp_slide_block(n, part).take(h.len() as int) =~= h);
}

} // verus!

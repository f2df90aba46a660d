//! Pulling the text out of office XML: tag stripping, entity unescaping,
//! and the text runs of a paragraph.

use vstd::prelude::*;
use crate::text::{
    append_chars, chars_of, drop_empty, find_from, find_from_exec, join, join_exec, replace,
    replace_exec, split, split_exec, string_of, trim, trim_exec, views,
};

verus! {

/// The five predefined XML entities decoded, `&amp;` first, as chained
/// `str::replace` calls do it (so `&amp;lt;` becomes `<`).
pub open spec fn unescape_text(s: Seq<char>) -> Seq<char> {
    let s = replace(s, "&amp;"@, "&"@);
    let s = replace(s, "&lt;"@, "<"@);
    let s = replace(s, "&gt;"@, ">"@);
    let s = replace(s, "&quot;"@, "\""@);
    replace(s, "&apos;"@, "'"@)
}

fn replace_lit(s: &Vec<char>, from: &str, to: &str) -> (r: Vec<char>)
    requires
        from@.len() > 0,
    ensures
        r@ == replace(s@, from@, to@),
{
    let f = chars_of(from);
    let t = chars_of(to);
    replace_exec(s, &f, &t)
}

/// Decodes the predefined XML entities.
pub fn unescape_chars(s: &Vec<char>) -> (r: Vec<char>)
    ensures
        r@ == unescape_text(s@),
{
    proof {
        reveal_strlit("&amp;");
        reveal_strlit("&lt;");
        reveal_strlit("&gt;");
        reveal_strlit("&quot;");
        reveal_strlit("&apos;");
    }
    let a = replace_lit(s, "&amp;", "&");
    let b = replace_lit(&a, "&lt;", "<");
    let c = replace_lit(&b, "&gt;", ">");
    let d = replace_lit(&c, "&quot;", "\"");
    replace_lit(&d, "&apos;", "'")
}

/// Decodes the predefined XML entities of a string.
pub fn unescape(s: &str) -> (r: String)
    ensures
        r@ == unescape_text(s@),
{
    let c = chars_of(s);
    let r = unescape_chars(&c);
    string_of(&r)
}

/// Whether a tag is open at the end of `s`: its last `<` or `>` is a `<`.
pub open spec fn tag_open_after(s: Seq<char>) -> bool
    decreases s.len(),
{
    if s.len() == 0 {
        false
    } else if s.last() == '<' {
        true
    } else if s.last() == '>' {
        false
    } else {
        tag_open_after(s.drop_last())
    }
}

/// The characters of `s` outside `<...>` tags, the brackets left out.
pub open spec fn outside_tags(s: Seq<char>) -> Seq<char>
    decreases s.len(),
{
    if s.len() == 0 {
        seq![]
    } else {
        let before = s.drop_last();
        let c = s.last();
        if c != '<' && c != '>' && !tag_open_after(before) {
            outside_tags(before).push(c)
        } else {
            outside_tags(before)
        }
    }
}

/// The text of some markup: the characters outside tags, entities decoded.
pub open spec fn strip_tags_text(s: Seq<char>) -> Seq<char> {
    unescape_text(outside_tags(s))
}

/// The text of some markup.
pub fn strip_tags_chars(s: &Vec<char>) -> (r: Vec<char>)
    ensures
        r@ == strip_tags_text(s@),
{
    let mut out: Vec<char> = Vec::new();
    let mut in_tag = false;
    let n = s.len();
    for i in 0..n
        invariant
            n == s@.len(),
            in_tag == tag_open_after(s@.take(i as int)),
            out@ == outside_tags(s@.take(i as int)),
    {
        let c = s[i];
        assert(s@.take(i + 1).drop_last() =~= s@.take(i as int));
        assert(s@.take(i + 1).last() == c);
        if c == '<' {
            in_tag = true;
        } else if c == '>' {
            in_tag = false;
        } else if !in_tag {
            out.push(c);
        }
    }
    assert(s@.take(n as int) =~= s@);
    unescape_chars(&out)
}

/// The text of some markup: tags left out, entities decoded.
pub fn strip_tags(s: &str) -> (r: String)
    ensures
        r@ == strip_tags_text(s@),
{
    let c = chars_of(s);
    let r = strip_tags_chars(&c);
    string_of(&r)
}

pub proof fn lemma_find_from_ge(s: Seq<char>, p: Seq<char>, i: int)
    ensures
        find_from(s, p, i) matches Some(j) ==> i <= j && j + p.len() <= s.len(),
    decreases s.len() + 1 - i,
{
    if !(i < 0 || i + p.len() > s.len()) && !(0 <= i && i + p.len() <= s.len() && s.subrange(
        i,
        i + p.len(),
    ) == p) {
        lemma_find_from_ge(s, p, i + 1);
    }
}

/// The opening of a `tag` element, attributes excluded: `<tag`.
pub open spec fn open_of(tag: Seq<char>) -> Seq<char> {
    seq!['<'] + tag
}

/// The closing of a `tag` element: `</tag>`.
pub open spec fn close_of(tag: Seq<char>) -> Seq<char> {
    seq!['<', '/'] + tag + seq!['>']
}

/// The contents of the complete `<tag ...>...</tag>` runs of `s`, found
/// left to right from position `i` and concatenated. The scan stops at the
/// first run that is not complete.
pub open spec fn runs_from(s: Seq<char>, open: Seq<char>, close: Seq<char>, i: int) -> Seq<char>
    decreases s.len() + 1 - i,
{
    if i < 0 || open.len() == 0 || close.len() == 0 {
        seq![]
    } else {
        match find_from(s, open, i) {
            None => seq![],
            Some(a) => match find_from(s, seq!['>'], a + open.len()) {
                None => seq![],
                Some(g) => match find_from(s, close, g + 1) {
                    None => seq![],
                    Some(j) => {
                        proof {
                            lemma_find_from_ge(s, open, i);
                            lemma_find_from_ge(s, seq!['>'], a + open.len());
                            lemma_find_from_ge(s, close, g + 1);
                        }
                        s.subrange(g + 1, j) + runs_from(s, open, close, j + close.len())
                    },
                },
            },
        }
    }
}

/// The line a paragraph of office XML gives: the text of its `tag` runs,
/// trimmed, entities decoded.
pub open spec fn paragraph_line(chunk: Seq<char>, tag: Seq<char>) -> Seq<char> {
    unescape_text(trim(runs_from(chunk, open_of(tag), close_of(tag), 0)))
}

/// The text of office XML: one line per paragraph (the pieces between
/// `para_close` markers) that has text in `tag` runs, joined by newlines.
/// An empty marker cuts the XML into single characters, and no single
/// character holds a whole run: the text is then empty.
pub open spec fn runs_text(xml: Seq<char>, tag: Seq<char>, para_close: Seq<char>) -> Seq<char> {
    if para_close.len() == 0 {
        seq![]
    } else {
        join(
            drop_empty(split(xml, para_close).map_values(|c: Seq<char>| paragraph_line(c, tag))),
            seq!['\n'],
        )
    }
}

/// The contents of the complete runs of `s` from position `start`.
fn runs_exec(s: &Vec<char>, open: &Vec<char>, close: &Vec<char>) -> (r: Vec<char>)
    requires
        open@.len() > 0,
        close@.len() > 0,
    ensures
        r@ == runs_from(s@, open@, close@, 0),
{
    let mut out: Vec<char> = Vec::new();
    let mut i: usize = 0;
    let gt: Vec<char> = vec!['>'];
    assert(gt@ =~= seq!['>']);
    let slen = s.len();
    loop
        invariant
            slen == s@.len(),
            open@.len() > 0,
            close@.len() > 0,
            gt@ == seq!['>'],
            i <= s@.len(),
            runs_from(s@, open@, close@, 0) == out@ + runs_from(s@, open@, close@, i as int),
        decreases s@.len() - i,
    {
        proof {
            lemma_find_from_ge(s@, open@, i as int);
        }
        let a = match find_from_exec(s, open, i) {
            Some(a) => a,
            None => {
                assert(out@ + runs_from(s@, open@, close@, i as int) =~= out@);
                return out;
            },
        };
        proof {
            lemma_find_from_ge(s@, gt@, (a + open@.len()) as int);
        }
        let g = match find_from_exec(s, &gt, a + open.len()) {
            Some(g) => g,
            None => {
                assert(out@ + runs_from(s@, open@, close@, i as int) =~= out@);
                return out;
            },
        };
        proof {
            lemma_find_from_ge(s@, close@, (g + 1) as int);
        }
        let j = match find_from_exec(s, close, g + 1) {
            Some(j) => j,
            None => {
                assert(out@ + runs_from(s@, open@, close@, i as int) =~= out@);
                return out;
            },
        };
        let piece = crate::text::slice_chars(s, g + 1, j);
        let ghost before = out@;
        append_chars(&mut out, &piece);
        assert(before + runs_from(s@, open@, close@, i as int) =~= out@ + runs_from(
            s@,
            open@,
            close@,
            (j + close@.len()) as int,
        ));
        i = j + close.len();
    }
}

/// The text of office XML: for each paragraph (the pieces between
/// `para_close` markers) the text inside its `<tag ...>...</tag>` runs,
/// trimmed and unescaped; paragraphs without text are left out and the
/// rest joined by newlines.
pub fn extract_runs(xml: &str, tag: &str, para_close: &str) -> (r: String)
    ensures
        r@ == runs_text(xml@, tag@, para_close@),
{
    let x = chars_of(xml);
    let t = chars_of(tag);
    let pc = chars_of(para_close);
    if pc.len() == 0 {
        return String::new();
    }
    let mut open: Vec<char> = vec!['<'];
    append_chars(&mut open, &t);
    let mut close: Vec<char> = vec!['<', '/'];
    append_chars(&mut close, &t);
    close.push('>');
    assert(open@ =~= open_of(t@));
    assert(close@ =~= close_of(t@));
    let chunks = split_exec(&x, &pc);
    let ghost cs = views(chunks@);
    let ghost mapped = cs.map_values(|c: Seq<char>| paragraph_line(c, t@));
    let mut lines: Vec<Vec<char>> = Vec::new();
    let n = chunks.len();
    for k in 0..n
        invariant
            n == chunks@.len(),
            cs == views(chunks@),
            mapped == cs.map_values(|c: Seq<char>| paragraph_line(c, t@)),
            open@ == open_of(t@),
            close@ == close_of(t@),
            views(lines@) == drop_empty(mapped.take(k as int)),
    {
        let runs = runs_exec(&chunks[k], &open, &close);
        let trimmed = trim_exec(&runs);
        let line = unescape_chars(&trimmed);
        assert(line@ == mapped[k as int]);
        assert(mapped.take(k + 1).drop_last() =~= mapped.take(k as int));
        assert(mapped.take(k + 1).last() == mapped[k as int]);
        let ghost before = views(lines@);
        if line.len() > 0 {
            lines.push(line);
            assert(views(lines@) =~= before.push(mapped[k as int]));
        }
    }
    assert(mapped.take(n as int) =~= mapped);
    let nl: Vec<char> = vec!['\n'];
    assert(nl@ =~= seq!['\n']);
    let r = join_exec(&lines, &nl);
    string_of(&r)
}

} // verus!

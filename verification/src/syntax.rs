//! Syntax highlighting of text files through the `highlight` library, and
//! the choice of highlighter by file extension.

use vstd::prelude::*;
use crate::slides::strip_prefixes;
use crate::text::{
    chars_eq_str, chars_of, find_char, find_char_exec, find_from, find_from_exec, is_whitespace,
    is_ws, lines, lines_exec, matches_at, matches_at_exec, replace, replace_exec, slice_chars,
    split, split_exec, string_of, trim, trim_exec, views,
};
use crate::xml::lemma_find_from_ge;

verus! {

/// Whether the `highlight` library knows the extension as a language: the
/// six with dedicated highlighters (`md`, `markdown`, `tex`, `latex`,
/// `hl`, `woim`) and those of its keyword table.
pub open spec fn lang_known(ext: Seq<char>) -> bool {
    set![
        "md"@, "markdown"@, "tex"@, "latex"@, "hl"@, "woim"@,
        "rs"@, "py"@, "rb"@, "gemspec"@, "js"@, "ts"@, "jsx"@, "tsx"@, "go"@,
        "c"@, "h"@, "cpp"@, "hpp"@, "cc"@, "sh"@, "bash"@, "zsh"@, "fish"@, "lua"@,
        "java"@, "kt"@, "kts"@, "scala"@, "toml"@, "yaml"@, "yml"@, "ini"@, "conf"@,
        "cfg"@, "sql"@, "css"@, "scss"@, "less"@, "html"@, "htm"@, "xml"@, "svg"@,
        "asm"@, "s"@, "pl"@, "pm"@, "xrpn"@, "zig"@
    ].contains(ext)
}

/// `highlight::lang_known`. The contract claims that the answer is
/// `lang_known` of the extension: the function matches the six names with
/// dedicated highlighters and otherwise looks the extension up in the
/// keyword table of `lang_for`, whose arms name exactly the other
/// extensions listed there.
#[verifier::external_body]
fn is_lang_known(ext: &str) -> (r: bool)
    ensures
        r == lang_known(ext@),
{
    highlight::lang_known(ext).is_some()
}

/// `out` is a result `highlight::highlight_hyperlist` gives for `text`
/// with at most `max_lines` lines.
pub uninterp spec fn hyperlist_output(text: Seq<char>, max_lines: usize, out: Seq<char>) -> bool;

/// `out` is a result `highlight::highlight_markdown` gives for `text` with
/// at most `max_lines` lines.
pub uninterp spec fn markdown_output(text: Seq<char>, max_lines: usize, out: Seq<char>) -> bool;

/// `out` is a result `highlight::highlight_tex` gives for `text` with at
/// most `max_lines` lines.
pub uninterp spec fn tex_output(text: Seq<char>, max_lines: usize, out: Seq<char>) -> bool;

/// `out` is a result `highlight::highlight_text` gives for `text` with at
/// most `max_lines` lines.
pub uninterp spec fn plain_output(text: Seq<char>, max_lines: usize, out: Seq<char>) -> bool;

/// `out` is a result `highlight::highlight` gives for `text` in the
/// language of extension `ext`, with at most `max_lines` lines.
pub uninterp spec fn source_output(
    text: Seq<char>,
    ext: Seq<char>,
    max_lines: usize,
    out: Seq<char>,
) -> bool;

/// `highlight::highlight_hyperlist`. The contract claims that the result is
/// one the function gives for these arguments (`hyperlist_output`), and
/// that a text without lines gives an empty result: the function emits
/// output for each line of `text.lines()` and for nothing else. What a line
/// becomes depends on state the library keeps in globals (the colour theme
/// among it), so the relation claims no single result.
#[verifier::external_body]
fn hyperlist(text: &str, max_lines: usize) -> (r: String)
    ensures
        hyperlist_output(text@, max_lines, r@),
        text@.len() == 0 ==> r@.len() == 0,
{
    highlight::highlight_hyperlist(text, max_lines)
}

/// `highlight::highlight_markdown`. The contract claims that the result is
/// one the function gives for these arguments (`markdown_output`), and
/// that a text without lines gives an empty result: the function emits
/// output for each line of `text.lines()` and for nothing else. What a line
/// becomes depends on state the library keeps in globals (the colour theme
/// among it), so the relation claims no single result. Texts in which the
/// function may meet an inline colour span with a colour value it slices
/// inside a character are left out (`markdown_safe_text`): there it panics.
#[verifier::external_body]
pub(crate) fn markdown(text: &str, max_lines: usize) -> (r: String)
    requires
        markdown_safe_text(text@),
    ensures
        markdown_output(text@, max_lines, r@),
        text@.len() == 0 ==> r@.len() == 0,
{
    highlight::highlight_markdown(text, max_lines)
}

/// `highlight::highlight_tex`. The contract claims that the result is one
/// the function gives for these arguments (`tex_output`), and that a text
/// without lines gives an empty result: the function emits output for each
/// line of `text.lines()` and for nothing else. What a line becomes depends
/// on state the library keeps in globals (the colour theme among it), so
/// the relation claims no single result.
#[verifier::external_body]
fn tex(text: &str, max_lines: usize) -> (r: String)
    ensures
        tex_output(text@, max_lines, r@),
        text@.len() == 0 ==> r@.len() == 0,
{
    highlight::highlight_tex(text, max_lines)
}

/// `highlight::highlight_text`. The contract claims that the result is one
/// the function gives for these arguments (`plain_output`), and that a
/// text without lines gives an empty result: the function emits output for
/// each line of `text.lines()` and for nothing else. What a line becomes
/// depends on state the library keeps in globals, so the relation claims
/// no single result.
#[verifier::external_body]
pub(crate) fn plain(text: &str, max_lines: usize) -> (r: String)
    ensures
        plain_output(text@, max_lines, r@),
        text@.len() == 0 ==> r@.len() == 0,
{
    highlight::highlight_text(text, max_lines)
}

/// `highlight::highlight`. The contract claims that the result is one the
/// function gives for these arguments (`source_output`), and that a text
/// without lines gives an empty result: the function emits output for each
/// line of `text.lines()` and for nothing else. What a line becomes depends
/// on state the library keeps in globals (the colour theme among it), so
/// the relation claims no single result.
#[verifier::external_body]
fn source(text: &str, ext: &str, max_lines: usize) -> (r: String)
    ensures
        source_output(text@, ext@, max_lines, r@),
        text@.len() == 0 ==> r@.len() == 0,
{
    highlight::highlight(text, ext, max_lines)
}

// ---------------------------------------------------------------------------
// Markdown the highlighter can take.
//
// `highlight_markdown` renders inline colour spans: at a `<span style="`
// it takes the opening tag up to the first `>`, the declarations between
// the opening quote and the last `"` of the tag, and for the keys `color`
// and `background-color` parses the value as a hex colour. The parser
// strips leading `#`s and, when the rest is 3 or 6 bytes long, slices it
// at byte positions, which panics when a slice ends inside a character.
// Markdown tables are re-laid out first: each cell's words are joined by
// single spaces, so `<span`, whitespace and `style="` become a span even
// when they were apart, and the rest of a tag stays on its output line only
// while it is one word.

/// The start of an inline colour span in markdown.
pub open spec fn span_open() -> Seq<char> {
    "<span style=\""@
}

/// The bytes UTF-8 takes for `c`.
pub open spec fn char_bytes(c: char) -> nat {
    if (c as u32) < 0x80 {
        1
    } else if (c as u32) < 0x800 {
        2
    } else if (c as u32) < 0x10000 {
        3
    } else {
        4
    }
}

/// The length of `s` in UTF-8 bytes.
pub open spec fn utf8_len(s: Seq<char>) -> nat
    decreases s.len(),
{
    if s.len() == 0 {
        0
    } else {
        utf8_len(s.drop_last()) + char_bytes(s.last())
    }
}

/// Every character of `s` is ASCII.
pub open spec fn all_ascii(s: Seq<char>) -> bool {
    forall|i: int| 0 <= i < s.len() ==> (#[trigger] s[i] as u32) < 0x80
}

/// A colour value the hex parser cuts inside a character: without its
/// leading `#`s it is 3 or 6 bytes long and not all ASCII.
pub open spec fn risky_colour(v: Seq<char>) -> bool {
    let h = strip_prefixes(v, "#"@);
    (utf8_len(h) == 3 || utf8_len(h) == 6) && !all_ascii(h)
}

/// The key of a CSS declaration: before its first `:`, trimmed.
pub open spec fn decl_key(d: Seq<char>) -> Seq<char> {
    match find_char(d, ':') {
        Some(p) => trim(d.take(p)),
        None => trim(d),
    }
}

/// The value of a CSS declaration: after its first `:`, trimmed; empty
/// without a `:`.
pub open spec fn decl_value(d: Seq<char>) -> Seq<char> {
    match find_char(d, ':') {
        Some(p) => trim(d.skip(p + 1)),
        None => seq![],
    }
}

/// A declaration list (`key:value;...`) in which a `color` or
/// `background-color` declaration has a risky value.
pub open spec fn risky_decls(decls: Seq<char>) -> bool {
    let ds = split(decls, seq![';']);
    exists|k: int|
        0 <= k < ds.len() && (decl_key(#[trigger] ds[k]) == "color"@ || decl_key(ds[k])
            == "background-color"@) && risky_colour(decl_value(ds[k]))
}

/// The position of the last `"` in `l[s..g]`.
pub open spec fn last_quote(l: Seq<char>, s: int, g: int) -> Option<int>
    decreases g - s,
{
    if g <= s {
        None
    } else if l[g - 1] == '"' {
        Some(g - 1)
    } else {
        last_quote(l, s, g - 1)
    }
}

/// The declarations of a tag whose declarations start at `s` and whose
/// `>` is at `g`: up to the last `"` before `g`, empty when there is none.
pub open spec fn decls_of(l: Seq<char>, s: int, g: int) -> Seq<char> {
    match last_quote(l, s, g) {
        Some(q) => l.subrange(s, q),
        None => seq![],
    }
}

/// A `<span style="` at `i` whose tag closes (at the first `>` after it)
/// and declares a risky colour.
pub open spec fn risky_span_at(l: Seq<char>, i: int) -> bool {
    matches_at(l, span_open(), i) && match find_from(l, seq!['>'], i + 13) {
        Some(g) => risky_decls(decls_of(l, i + 13, g)),
        None => false,
    }
}

/// The position of the `>` that ends the word starting at `j`, if the word
/// (no whitespace, no `|`) reaches one.
pub open spec fn word_tag_end(l: Seq<char>, j: int) -> Option<int>
    decreases l.len() - j,
{
    if j < 0 || j >= l.len() {
        None
    } else if l[j] == '>' {
        Some(j)
    } else if is_ws(l[j]) || l[j] == '|' {
        None
    } else {
        word_tag_end(l, j + 1)
    }
}

/// `l[a..b]` is a non-empty run of whitespace.
pub open spec fn ws_run(l: Seq<char>, a: int, b: int) -> bool {
    0 <= a < b <= l.len() && forall|k: int| a <= k < b ==> is_ws(#[trigger] l[k])
}

/// On a table row: `<span` at `i`, whitespace, and `style="` at `j` may
/// become a span once the row is re-laid out; it is risky unless the word
/// from `j` closes the tag and the tag declares no risky colour.
pub open spec fn risky_table_span_at(l: Seq<char>, i: int, j: int) -> bool {
    &&& matches_at(l, "<span"@, i)
    &&& ws_run(l, i + 5, j)
    &&& matches_at(l, "style=\""@, j)
    &&& (match word_tag_end(l, j) {
        Some(g) => risky_decls(decls_of(l, j + 7, g)),
        None => true,
    })
}

/// `l` looks like a row of a markdown table (after trimming it starts with
/// `|`): the highlighter may re-lay such rows out before it colours them.
pub open spec fn table_like(l: Seq<char>) -> bool {
    trim(l).len() > 0 && trim(l)[0] == '|'
}

/// A markdown line on which the highlighter may meet a colour value it
/// cuts inside a character.
pub open spec fn risky_line(l: Seq<char>) -> bool {
    if table_like(l) {
        exists|i: int, j: int| #[trigger] risky_table_span_at(l, i, j)
    } else {
        exists|i: int| #[trigger] risky_span_at(l, i)
    }
}

/// Markdown that `highlight::highlight_markdown` takes without panicking:
/// no line is `risky_line`.
pub open spec fn markdown_safe_text(text: Seq<char>) -> bool {
    forall|k: int| 0 <= k < lines(text).len() ==> !risky_line(#[trigger] lines(text)[k])
}

proof fn lemma_utf8_prefix(s: Seq<char>, k: int)
    requires
        0 <= k <= s.len(),
    ensures
        utf8_len(s.take(k)) <= utf8_len(s),
    decreases s.len(),
{
    if k < s.len() {
        lemma_utf8_prefix(s.drop_last(), k);
        assert(s.drop_last().take(k) =~= s.take(k));
    } else {
        assert(s.take(k) =~= s);
    }
}

/// Whether `h` is 3 or 6 bytes long in UTF-8.
fn three_or_six_bytes(h: &Vec<char>) -> (r: bool)
    ensures
        r == (utf8_len(h@) == 3 || utf8_len(h@) == 6),
{
    let n = h.len();
    let mut acc: usize = 0;
    let mut k: usize = 0;
    while k < n
        invariant
            n == h@.len(),
            k <= n,
            acc == utf8_len(h@.take(k as int)),
            acc <= 6,
        decreases n - k,
    {
        let x = h[k] as u32;
        let b: usize = if x < 0x80 {
            1
        } else if x < 0x800 {
            2
        } else if x < 0x10000 {
            3
        } else {
            4
        };
        assert(h@.take(k + 1).drop_last() =~= h@.take(k as int));
        assert(utf8_len(h@.take(k + 1)) == acc + b);
        if acc + b > 6 {
            proof {
                lemma_utf8_prefix(h@, k + 1);
            }
            return false;
        }
        acc = acc + b;
        k = k + 1;
    }
    assert(h@.take(n as int) =~= h@);
    acc == 3 || acc == 6
}

/// Whether every character of `h` is ASCII.
fn ascii_only(h: &Vec<char>) -> (r: bool)
    ensures
        r == all_ascii(h@),
{
    let n = h.len();
    for k in 0..n
        invariant
            n == h@.len(),
            forall|j: int| 0 <= j < k ==> (#[trigger] h@[j] as u32) < 0x80,
    {
        if (h[k] as u32) >= 0x80 {
            return false;
        }
    }
    true
}

/// Whether `v` is a `risky_colour`.
fn colour_risky(v: &Vec<char>) -> (r: bool)
    ensures
        r == risky_colour(v@),
{
    proof {
        reveal_strlit("#");
    }
    let hash: Vec<char> = vec!['#'];
    assert(hash@ =~= "#"@);
    let h = crate::slides::strip_prefixes_exec(v, &hash);
    three_or_six_bytes(&h) && !ascii_only(&h)
}

/// The key and the value of a CSS declaration.
fn decl_parts(d: &Vec<char>) -> (r: (Vec<char>, Vec<char>))
    ensures
        r.0@ == decl_key(d@),
        r.1@ == decl_value(d@),
{
    proof {
        lemma_find_from_ge(d@, seq![':'], 0);
        assert(find_char(d@, ':') == find_from(d@, seq![':'], 0));
    }
    match find_char_exec(d, ':') {
        Some(p) => {
            assert(p + 1 <= d.len());
            let k = slice_chars(d, 0, p);
            let v = slice_chars(d, p + 1, d.len());
            assert(k@ =~= d@.take(p as int));
            assert(v@ =~= d@.skip(p + 1));
            (trim_exec(&k), trim_exec(&v))
        },
        None => (trim_exec(d), Vec::new()),
    }
}

/// Whether a declaration list is `risky_decls`.
fn decls_risky(decls: &Vec<char>) -> (r: bool)
    ensures
        r == risky_decls(decls@),
{
    let semi: Vec<char> = vec![';'];
    assert(semi@ =~= seq![';']);
    let ds = split_exec(decls, &semi);
    let ghost dv = views(ds@);
    let n = ds.len();
    for k in 0..n
        invariant
            n == ds@.len(),
            dv == views(ds@),
            dv == split(decls@, seq![';']),
            forall|j: int|
                0 <= j < k ==> !((decl_key(#[trigger] dv[j]) == "color"@ || decl_key(dv[j])
                    == "background-color"@) && risky_colour(decl_value(dv[j]))),
    {
        let (key, value) = decl_parts(&ds[k]);
        assert(ds@[k as int]@ == dv[k as int]);
        if (chars_eq_str(&key, "color") || chars_eq_str(&key, "background-color")) && colour_risky(
            &value,
        ) {
            return true;
        }
    }
    false
}

/// The declarations of the tag whose declarations start at `s` and whose
/// `>` is at `g`.
fn decls_between(l: &Vec<char>, s: usize, g: usize) -> (r: Vec<char>)
    requires
        s <= g <= l@.len(),
    ensures
        r@ == decls_of(l@, s as int, g as int),
{
    let mut q = g;
    while q > s && l[q - 1] != '"'
        invariant
            s <= q <= g <= l@.len(),
            last_quote(l@, s as int, g as int) == last_quote(l@, s as int, q as int),
        decreases q,
    {
        q = q - 1;
    }
    if q > s {
        slice_chars(l, s, q - 1)
    } else {
        Vec::new()
    }
}

/// The end of the tag word starting at `j` (`word_tag_end`).
fn tag_word_end(l: &Vec<char>, j: usize) -> (r: Option<usize>)
    ensures
        match r {
            Some(g) => word_tag_end(l@, j as int) == Some(g as int),
            None => word_tag_end(l@, j as int) is None,
        },
{
    let n = l.len();
    let mut k = j;
    while k < n
        invariant
            n == l@.len(),
            j <= k,
            word_tag_end(l@, j as int) == word_tag_end(l@, k as int),
        decreases n - k,
    {
        if l[k] == '>' {
            return Some(k);
        }
        if is_whitespace(l[k]) || l[k] == '|' {
            return None;
        }
        k = k + 1;
    }
    None
}

proof fn lemma_word_tag_end_ge(l: Seq<char>, j: int)
    ensures
        word_tag_end(l, j) matches Some(g) ==> j <= g < l.len() && l[g] == '>',
    decreases l.len() - j,
{
    if 0 <= j < l.len() && l[j] != '>' && !(is_ws(l[j]) || l[j] == '|') {
        lemma_word_tag_end_ge(l, j + 1);
    }
}

/// A word whose first `m` characters hold no `>` ends its tag past them.
proof fn lemma_word_tag_end_past(l: Seq<char>, j: int, m: int)
    requires
        0 <= j,
        0 <= m,
        j + m <= l.len(),
        forall|k: int| j <= k < j + m ==> l[k] != '>' && !is_ws(l[k]) && l[k] != '|',
    ensures
        word_tag_end(l, j) == word_tag_end(l, j + m),
    decreases m,
{
    if m > 0 {
        lemma_word_tag_end_past(l, j + 1, m - 1);
    }
}

/// Whether a markdown line is `risky_line`.
fn line_risky(l: &Vec<char>) -> (r: bool)
    ensures
        r == risky_line(l@),
{
    proof {
        reveal_strlit("<span style=\"");
        reveal_strlit("<span");
        reveal_strlit("style=\"");
    }
    let t = trim_exec(l);
    let table = t.len() > 0 && t[0] == '|';
    let n = l.len();
    if table {
        let open = chars_of("<span");
        let style = chars_of("style=\"");
        assert(style@ =~= seq!['s', 't', 'y', 'l', 'e', '=', '"']);
        let mut i: usize = 0;
        while i < n
            invariant
                n == l@.len(),
                i <= n,
                open@ == "<span"@,
                style@ == "style=\""@,
                open@.len() == 5,
                style@ == seq!['s', 't', 'y', 'l', 'e', '=', '"'],
                table_like(l@),
                forall|i2: int, j2: int|
                    0 <= i2 < i ==> !#[trigger] risky_table_span_at(l@, i2, j2),
            decreases n - i,
        {
            if matches_at_exec(l, &open, i) {
                let mut j = i + 5;
                while j < n && is_whitespace(l[j])
                    invariant
                        n == l@.len(),
                        i + 5 <= j <= n,
                        forall|k: int| i + 5 <= k < j ==> is_ws(#[trigger] l@[k]),
                    decreases n - j,
                {
                    j = j + 1;
                }
                assert forall|j2: int| #[trigger] risky_table_span_at(l@, i as int, j2) implies j2
                    == j by {
                    if j2 < j {
                        assert(is_ws(l@[j2]));
                        assert(matches_at(l@, style@, j2));
                        assert(l@.subrange(j2, j2 + 7)[0] == l@[j2]);
                    } else if j2 > j {
                        assert(is_ws(l@[j as int]));
                    }
                }
                if j > i + 5 && matches_at_exec(l, &style, j) {
                    match tag_word_end(l, j) {
                        None => {
                            assert(risky_table_span_at(l@, i as int, j as int));
                            return true;
                        },
                        Some(g) => {
                            proof {
                                lemma_word_tag_end_ge(l@, j as int);
                                assert forall|k: int| j <= k < j + 7 implies l@[k] != '>' && !is_ws(
                                    l@[k],
                                ) && l@[k] != '|' by {
                                    assert(l@[k] == l@.subrange(j as int, j + 7)[k - j]);
                                    assert(l@.subrange(j as int, j + 7) == style@);
                                }
                                lemma_word_tag_end_past(l@, j as int, 7);
                            }
                            let d = decls_between(l, j + 7, g);
                            if decls_risky(&d) {
                                assert(risky_table_span_at(l@, i as int, j as int));
                                return true;
                            }
                        },
                    }
                }
            }
            i = i + 1;
        }
        proof {
            assert forall|i2: int, j2: int| !#[trigger] risky_table_span_at(l@, i2, j2) by {
                if risky_table_span_at(l@, i2, j2) {
                    assert(0 <= i2 < n);
                }
            }
        }
        false
    } else {
        let sp = chars_of("<span style=\"");
        let gt: Vec<char> = vec!['>'];
        assert(gt@ =~= seq!['>']);
        let mut i: usize = 0;
        while i < n
            invariant
                n == l@.len(),
                i <= n,
                sp@ == span_open(),
                sp@.len() == 13,
                gt@ == seq!['>'],
                !table_like(l@),
                forall|i2: int| 0 <= i2 < i ==> !#[trigger] risky_span_at(l@, i2),
            decreases n - i,
        {
            if matches_at_exec(l, &sp, i) {
                proof {
                    lemma_find_from_ge(l@, seq!['>'], i + 13);
                }
                match find_from_exec(l, &gt, i + 13) {
                    Some(g) => {
                        let d = decls_between(l, i + 13, g);
                        if decls_risky(&d) {
                            assert(risky_span_at(l@, i as int));
                            return true;
                        }
                    },
                    None => {},
                }
            }
            i = i + 1;
        }
        proof {
            assert forall|i2: int| !#[trigger] risky_span_at(l@, i2) by {
                if risky_span_at(l@, i2) {
                    assert(0 <= i2 < n);
                }
            }
        }
        false
    }
}

/// Whether `highlight::highlight_markdown` takes `text`
/// (`markdown_safe_text`).
pub fn markdown_safe(text: &str) -> (r: bool)
    ensures
        r == markdown_safe_text(text@),
{
    let ls = lines_exec(&chars_of(text));
    let n = ls.len();
    for k in 0..n
        invariant
            n == ls@.len(),
            views(ls@) == lines(text@),
            forall|j: int| 0 <= j < k ==> !risky_line(#[trigger] lines(text@)[j]),
    {
        assert(ls@[k as int]@ == lines(text@)[k as int]);
        if line_risky(&ls[k]) {
            return false;
        }
    }
    true
}

/// Highlight the whole file: the viewer scrolls.
pub const ALL: usize = usize::MAX;

/// Which highlighter renders a text file.
#[derive(Clone, Copy, Debug, PartialEq, Eq, Structural)]
pub enum Highlighter {
    HyperList,
    Markdown,
    Tex,
    Plain,
    Source,
}

/// The highlighter for a (lowercase) extension: the dedicated ones for
/// HyperList, Markdown, LaTeX and plain text, a language definition when
/// the library has one, plain text otherwise.
pub open spec fn highlighter_for(ext: Seq<char>) -> Highlighter {
    if ext == "hl"@ {
        Highlighter::HyperList
    } else if ext == "md"@ || ext == "markdown"@ {
        Highlighter::Markdown
    } else if ext == "tex"@ || ext == "latex"@ || ext == "ltx"@ || ext == "sty"@ || ext == "cls"@
        || ext == "bib"@ {
        Highlighter::Tex
    } else if ext == "txt"@ || ext == "text"@ || ext == "log"@ || ext == "readme"@ {
        Highlighter::Plain
    } else if lang_known(ext) {
        Highlighter::Source
    } else {
        Highlighter::Plain
    }
}

/// The highlighter for an extension.
pub fn choose_highlighter(ext: &str) -> (r: Highlighter)
    ensures
        r == highlighter_for(ext@),
{
    let e = chars_of(ext);
    if chars_eq_str(&e, "hl") {
        Highlighter::HyperList
    } else if chars_eq_str(&e, "md") || chars_eq_str(&e, "markdown") {
        Highlighter::Markdown
    } else if chars_eq_str(&e, "tex") || chars_eq_str(&e, "latex") || chars_eq_str(&e, "ltx")
        || chars_eq_str(&e, "sty") || chars_eq_str(&e, "cls") || chars_eq_str(&e, "bib") {
        Highlighter::Tex
    } else if chars_eq_str(&e, "txt") || chars_eq_str(&e, "text") || chars_eq_str(&e, "log")
        || chars_eq_str(&e, "readme") {
        Highlighter::Plain
    } else if is_lang_known(ext) {
        Highlighter::Source
    } else {
        Highlighter::Plain
    }
}

/// The text handed to the highlighter: HyperList tabs become three spaces,
/// everything else is passed as it is.
pub open spec fn highlighter_input(content: Seq<char>, h: Highlighter) -> Seq<char> {
    if h == Highlighter::HyperList {
        replace(content, seq!['\t'], seq![' ', ' ', ' '])
    } else {
        content
    }
}

/// The text to hand to highlighter `h`.
pub fn prepare_text(content: &str, h: Highlighter) -> (r: String)
    ensures
        r@ == highlighter_input(content@, h),
{
    let c = chars_of(content);
    if h == Highlighter::HyperList {
        let tab: Vec<char> = vec!['\t'];
        let spaces: Vec<char> = vec![' ', ' ', ' '];
        assert(tab@ =~= seq!['\t']);
        assert(spaces@ =~= seq![' ', ' ', ' ']);
        let r = replace_exec(&c, &tab, &spaces);
        string_of(&r)
    } else {
        string_of(&c)
    }
}

/// What a text file with (lowercase) extension `ext` and text `content`
/// may show as `out`: the text that `highlighter_input` prepares for the
/// highlighter `highlighter_for(ext)` picks, run through that highlighter
/// on all its lines. Markdown that the markdown highlighter cannot take
/// (see `markdown_safe_text`) is highlighted as plain text.
pub open spec fn text_view(content: Seq<char>, ext: Seq<char>, out: Seq<char>) -> bool {
    let h = highlighter_for(ext);
    let t = highlighter_input(content, h);
    match h {
        Highlighter::HyperList => hyperlist_output(t, ALL, out),
        Highlighter::Markdown => if markdown_safe_text(t) {
            markdown_output(t, ALL, out)
        } else {
            plain_output(t, ALL, out)
        },
        Highlighter::Tex => tex_output(t, ALL, out),
        Highlighter::Plain => plain_output(t, ALL, out),
        Highlighter::Source => source_output(t, ext, ALL, out),
    }
}

/// Text files are highlighted by extension as the viewer's table says:
/// HyperList for `hl`; markdown for `md` and `markdown` (shown as the
/// markdown highlighter's output whenever it can take the text); TeX for
/// `tex`, `latex`, `ltx`, `sty`, `cls` and `bib`; plain text for `txt`,
/// `text`, `log` and `readme`; any other extension by its language when
/// the library knows one, as plain text otherwise.
pub proof fn law_highlighter_table(ext: Seq<char>, content: Seq<char>, out: Seq<char>)
    ensures
        highlighter_for("hl"@) == Highlighter::HyperList,
        highlighter_for("md"@) == Highlighter::Markdown,
        highlighter_for("markdown"@) == Highlighter::Markdown,
        highlighter_for("tex"@) == Highlighter::Tex,
        highlighter_for("latex"@) == Highlighter::Tex,
        highlighter_for("ltx"@) == Highlighter::Tex,
        highlighter_for("sty"@) == Highlighter::Tex,
        highlighter_for("cls"@) == Highlighter::Tex,
        highlighter_for("bib"@) == Highlighter::Tex,
        highlighter_for("txt"@) == Highlighter::Plain,
        highlighter_for("text"@) == Highlighter::Plain,
        highlighter_for("log"@) == Highlighter::Plain,
        highlighter_for("readme"@) == Highlighter::Plain,
        !set![
            "hl"@, "md"@, "markdown"@, "tex"@, "latex"@, "ltx"@, "sty"@, "cls"@, "bib"@, "txt"@,
            "text"@, "log"@, "readme"@
        ].contains(ext) ==> highlighter_for(ext) == (if lang_known(ext) {
            Highlighter::Source
        } else {
            Highlighter::Plain
        }),
        markdown_safe_text(content) ==> (text_view(content, "md"@, out) == markdown_output(
            content,
            ALL,
            out,
        )),
        markdown_safe_text(content) ==> (text_view(content, "markdown"@, out) == markdown_output(
            content,
            ALL,
            out,
        )),
{
    reveal_strlit("hl");
    reveal_strlit("md");
    reveal_strlit("markdown");
    reveal_strlit("tex");
    reveal_strlit("latex");
    reveal_strlit("ltx");
    reveal_strlit("sty");
    reveal_strlit("cls");
    reveal_strlit("bib");
    reveal_strlit("txt");
    reveal_strlit("text");
    reveal_strlit("log");
    reveal_strlit("readme");
    assert("hl"@ =~= seq!['h', 'l']);
    assert("md"@ =~= seq!['m', 'd']);
    assert("markdown"@ =~= seq!['m', 'a', 'r', 'k', 'd', 'o', 'w', 'n']);
    assert("tex"@ =~= seq!['t', 'e', 'x']);
    assert("latex"@ =~= seq!['l', 'a', 't', 'e', 'x']);
    assert("ltx"@ =~= seq!['l', 't', 'x']);
    assert("sty"@ =~= seq!['s', 't', 'y']);
    assert("cls"@ =~= seq!['c', 'l', 's']);
    assert("bib"@ =~= seq!['b', 'i', 'b']);
    assert("txt"@ =~= seq!['t', 'x', 't']);
    assert("text"@ =~= seq!['t', 'e', 'x', 't']);
    assert("log"@ =~= seq!['l', 'o', 'g']);
    assert("readme"@ =~= seq!['r', 'e', 'a', 'd', 'm', 'e']);
}

/// The read-only view of a text file with extension `ext` (lowercase): the
/// file's text highlighted by the highlighter its extension picks
/// (`text_view`). An empty file gives an empty view.
pub fn render_text(content: &str, ext: &str) -> (r: String)
    ensures
        text_view(content@, ext@, r@),
        content@.len() == 0 ==> r@.len() == 0,
{
    let h = choose_highlighter(ext);
    let input = prepare_text(content, h);
    match h {
        Highlighter::HyperList => hyperlist(input.as_str(), ALL),
        Highlighter::Markdown => {
            if markdown_safe(input.as_str()) {
                markdown(input.as_str(), ALL)
            } else {
                plain(input.as_str(), ALL)
            }
        },
        Highlighter::Tex => tex(input.as_str(), ALL),
        Highlighter::Plain => plain(input.as_str(), ALL),
        Highlighter::Source => source(input.as_str(), ext, ALL),
    }
}

} // verus!

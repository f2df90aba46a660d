//! Spreadsheets as text: quote-aware CSV/TSV splitting, and the aligned
//! table layout with a bold header row.

use vstd::prelude::*;
use crate::term::{bold, coded, display_width, truncate_ansi, truncated, width_of};
use crate::text::{
    append_chars, append_str, chars_of, chars_eq_str, concat_all, join, lines, lines_exec, string_of,
    string_views, trim_end, trim_end_exec, views,
};

verus! {

// ---------------------------------------------------------------------------
// CSV and TSV.

/// The fields of a CSV line, read left to right from position `i` in the
/// quoting state `in_q`, with the field so far `cur` and the finished
/// fields `out`. A `"` toggles quoting, except that `""` inside quotes is a
/// literal quote; a separator outside quotes ends a field; every other
/// character belongs to the field.
pub open spec fn csv_scan(
    line: Seq<char>,
    sep: char,
    i: int,
    in_q: bool,
    cur: Seq<char>,
    out: Seq<Seq<char>>,
) -> Seq<Seq<char>>
    decreases line.len() - i,
{
    if i < 0 || i >= line.len() {
        out.push(cur)
    } else {
        let ch = line[i];
        if ch == '"' {
            if in_q && i + 1 < line.len() && line[i + 1] == '"' {
                csv_scan(line, sep, i + 2, in_q, cur.push('"'), out)
            } else {
                csv_scan(line, sep, i + 1, !in_q, cur, out)
            }
        } else if ch == sep && !in_q {
            csv_scan(line, sep, i + 1, in_q, seq![], out.push(cur))
        } else {
            csv_scan(line, sep, i + 1, in_q, cur.push(ch), out)
        }
    }
}

/// The fields of one CSV line (RFC 4180 style: `""` escapes a quote).
pub open spec fn csv_fields(line: Seq<char>, sep: char) -> Seq<Seq<char>> {
    csv_scan(line, sep, 0, false, seq![], seq![])
}

fn split_line_chars(line: &Vec<char>, sep: char) -> (r: Vec<Vec<char>>)
    ensures
        views(r@) == csv_fields(line@, sep),
{
    let mut out: Vec<Vec<char>> = Vec::new();
    let mut cur: Vec<char> = Vec::new();
    let mut in_q = false;
    let mut i: usize = 0;
    let n = line.len();
    assert(views(out@) =~= Seq::<Seq<char>>::empty());
    assert(cur@ =~= Seq::<char>::empty());
    while i < n
        invariant
            n == line@.len(),
            i <= n,
            csv_fields(line@, sep) == csv_scan(line@, sep, i as int, in_q, cur@, views(out@)),
        decreases n - i,
    {
        let ch = line[i];
        if ch == '"' {
            if in_q && i + 1 < n && line[i + 1] == '"' {
                cur.push('"');
                i = i + 2;
            } else {
                in_q = !in_q;
                i = i + 1;
            }
        } else if ch == sep && !in_q {
            let ghost o = views(out@);
            out.push(cur);
            assert(views(out@) =~= o.push(cur@));
            cur = Vec::new();
            assert(cur@ =~= Seq::<char>::empty());
            i = i + 1;
        } else {
            cur.push(ch);
            i = i + 1;
        }
    }
    let ghost o = views(out@);
    out.push(cur);
    assert(views(out@) =~= o.push(cur@));
    out
}

/// The fields of one line of a CSV (or, with a tab separator, TSV) file.
pub fn split_line(line: &str, sep: char) -> (r: Vec<String>)
    ensures
        string_views(r@) == csv_fields(line@, sep),
{
    let c = chars_of(line);
    let fs = split_line_chars(&c, sep);
    let mut r: Vec<String> = Vec::new();
    let n = fs.len();
    for i in 0..n
        invariant
            n == fs@.len(),
            string_views(r@) == views(fs@).take(i as int),
    {
        let s = string_of(&fs[i]);
        let ghost o = string_views(r@);
        r.push(s);
        assert(string_views(r@) =~= o.push(s@));
        assert(views(fs@).take(i + 1) =~= views(fs@).take(i as int).push(fs@[i as int]@));
    }
    assert(views(fs@).take(n as int) =~= views(fs@));
    r
}

/// The rows of a CSV/TSV text: one per line, split into fields.
pub open spec fn csv_rows(text: Seq<char>, sep: char) -> Seq<Seq<Seq<char>>> {
    lines(text).map_values(|l: Seq<char>| csv_fields(l, sep))
}

/// The views of a table of strings.
pub open spec fn table_views(rows: Seq<Vec<String>>) -> Seq<Seq<Seq<char>>> {
    rows.map_values(|r: Vec<String>| string_views(r@))
}

/// The rows of a CSV/TSV text.
pub fn parse_csv(text: &str, sep: char) -> (r: Vec<Vec<String>>)
    ensures
        table_views(r@) == csv_rows(text@, sep),
{
    let c = chars_of(text);
    let ls = lines_exec(&c);
    let ghost lv = views(ls@);
    let mut rows: Vec<Vec<String>> = Vec::new();
    let n = ls.len();
    for i in 0..n
        invariant
            n == ls@.len(),
            lv == views(ls@),
            table_views(rows@) == lv.take(i as int).map_values(|l: Seq<char>| csv_fields(l, sep)),
    {
        let s = string_of(&ls[i]);
        let fields = split_line(s.as_str(), sep);
        let ghost o = table_views(rows@);
        rows.push(fields);
        assert(table_views(rows@) =~= o.push(string_views(fields@)));
        assert(lv.take(i + 1) =~= lv.take(i as int).push(lv[i as int]));
        assert(table_views(rows@) =~= lv.take(i + 1).map_values(|l: Seq<char>| csv_fields(l, sep)));
    }
    assert(lv.take(n as int) =~= lv);
    rows
}

/// The field separator of a delimited text file: `,` for csv, a tab for
/// tsv; other extensions are spreadsheets read otherwise.
pub open spec fn separator_for(ext: Seq<char>) -> Option<char> {
    if ext == "csv"@ {
        Some(',')
    } else if ext == "tsv"@ {
        Some('\t')
    } else {
        None
    }
}

/// The field separator for an extension, if it names a delimited text file.
pub fn csv_separator(ext: &str) -> (r: Option<char>)
    ensures
        r == separator_for(ext@),
{
    let e = chars_of(ext);
    if chars_eq_str(&e, "csv") {
        Some(',')
    } else if chars_eq_str(&e, "tsv") {
        Some('\t')
    } else {
        None
    }
}

// ---------------------------------------------------------------------------
// The aligned table.

/// The widest a column is drawn, in cells.
pub const MAX_COL: usize = 28;

/// The cells a column needs for `cell`: its display width, at most
/// `MAX_COL`.
pub open spec fn capped_width(cell: Seq<char>) -> usize {
    if display_width(cell) < MAX_COL {
        display_width(cell)
    } else {
        MAX_COL
    }
}

/// The number of columns: the length of the longest row.
pub open spec fn column_count(rows: Seq<Seq<Seq<char>>>) -> nat
    decreases rows.len(),
{
    if rows.len() == 0 {
        0
    } else {
        let n = column_count(rows.drop_last());
        if rows.last().len() > n {
            rows.last().len()
        } else {
            n
        }
    }
}

/// The width of column `c`: the largest capped width of its cells.
pub open spec fn column_width(rows: Seq<Seq<Seq<char>>>, c: int) -> usize
    decreases rows.len(),
{
    if rows.len() == 0 {
        0
    } else {
        let w = column_width(rows.drop_last(), c);
        let x = if 0 <= c < rows.last().len() {
            capped_width(rows.last()[c])
        } else {
            0
        };
        if x > w {
            x
        } else {
            w
        }
    }
}

/// A column is as wide as its widest cell, capped at `MAX_COL` cells: no
/// narrower than any of its cells (each counted at most `MAX_COL`), over
/// every row, and exactly as wide as one of them (0 when no row reaches
/// the column).
pub proof fn law_column_width_is_widest(rows: Seq<Seq<Seq<char>>>, c: int)
    ensures
        forall|r: int|
            0 <= r < rows.len() && 0 <= c < rows[r].len() ==> column_width(rows, c) >= (if display_width(
                #[trigger] rows[r][c],
            ) < MAX_COL {
                display_width(rows[r][c])
            } else {
                MAX_COL
            }),
        column_width(rows, c) == 0 || exists|r: int|
            0 <= r < rows.len() && 0 <= c < rows[r].len() && column_width(rows, c) == (if display_width(
                #[trigger] rows[r][c],
            ) < MAX_COL {
                display_width(rows[r][c])
            } else {
                MAX_COL
            }),
    decreases rows.len(),
{
    if rows.len() > 0 {
        let d = rows.drop_last();
        law_column_width_is_widest(d, c);
        assert forall|r: int| 0 <= r < rows.len() && 0 <= c < rows[r].len() implies column_width(
            rows,
            c,
        ) >= (if display_width(#[trigger] rows[r][c]) < MAX_COL {
            display_width(rows[r][c])
        } else {
            MAX_COL
        }) by {
            if r < d.len() {
                assert(d[r] == rows[r]);
                assert(d[r][c] == rows[r][c]);
            }
        }
        if column_width(rows, c) != column_width(d, c) {
            let r = rows.len() - 1;
            assert(0 <= c < rows[r].len());
            assert(column_width(rows, c) == capped_width(rows[r][c]));
        } else if column_width(d, c) != 0 {
            let r = choose|r: int|
                0 <= r < d.len() && 0 <= c < d[r].len() && column_width(d, c) == (if display_width(
                    #[trigger] d[r][c],
                ) < MAX_COL {
                    display_width(d[r][c])
                } else {
                    MAX_COL
                });
            assert(rows[r] == d[r]);
        }
    }
}

/// The cell of a row in column `c`, empty past the row's end.
pub open spec fn cell_at(row: Seq<Seq<char>>, c: int) -> Seq<char> {
    if 0 <= c < row.len() {
        row[c]
    } else {
        seq![]
    }
}

/// `s` made exactly `w` cells wide: padded with spaces, or cut to `w - 1`
/// cells followed by `…` when it is wider.
pub open spec fn fit_text(s: Seq<char>, w: usize) -> Seq<char> {
    let sw = display_width(s);
    if sw == w {
        s
    } else if sw < w {
        s + Seq::new((w - sw) as nat, |i: int| ' ')
    } else {
        truncated(
            s,
            if w >= 1 {
                (w - 1) as usize
            } else {
                0
            },
        ) + seq!['\u{2026}']
    }
}

/// Line `r` of the table: each column's cell fitted to the column's width
/// and followed by two spaces, trailing whitespace removed.
pub open spec fn row_text(rows: Seq<Seq<Seq<char>>>, r: int) -> Seq<char> {
    trim_end(
        concat_all(
            Seq::new(
                column_count(rows),
                |c: int| fit_text(cell_at(rows[r], c), column_width(rows, c)) + "  "@,
            ),
        ),
    )
}

/// Line `r` of the table as shown: the header row bold.
pub open spec fn shown_row(rows: Seq<Seq<Seq<char>>>, r: int) -> Seq<char> {
    (if r == 0 {
        bold(row_text(rows, r))
    } else {
        row_text(rows, r)
    }) + seq!['\n']
}

/// The table view of some rows: aligned columns, the first row bold as a
/// header, `(empty)` when there are no rows.
pub open spec fn table_text(rows: Seq<Seq<Seq<char>>>) -> Seq<char> {
    if rows.len() == 0 {
        "(empty)"@
    } else {
        concat_all(Seq::new(rows.len(), |r: int| shown_row(rows, r)))
    }
}

/// Pads or truncates `s` to exactly `w` display cells (`…` on overflow).
pub fn fit(s: &str, w: usize) -> (r: String)
    ensures
        r@ == fit_text(s@, w),
{
    let sw = width_of(s);
    if sw == w {
        string_of(&chars_of(s))
    } else if sw < w {
        let mut out = chars_of(s);
        let ghost o = out@;
        let k = w - sw;
        for i in 0..k
            invariant
                out@ == o + Seq::new(i as nat, |j: int| ' '),
        {
            out.push(' ');
            assert(out@ =~= o + Seq::new((i + 1) as nat, |j: int| ' '));
        }
        string_of(&out)
    } else {
        let cut = if w >= 1 {
            w - 1
        } else {
            0
        };
        let t = truncate_ansi(s, cut);
        let mut out = chars_of(t.as_str());
        out.push('\u{2026}');
        string_of(&out)
    }
}

proof fn lemma_column_count(rows: Seq<Seq<Seq<char>>>, r: int)
    requires
        0 <= r < rows.len(),
    ensures
        rows[r].len() <= column_count(rows),
    decreases rows.len(),
{
    if r < rows.len() - 1 {
        lemma_column_count(rows.drop_last(), r);
    }
}

/// The columns' widths.
fn column_widths(rows: &Vec<Vec<String>>, ncols: usize) -> (widths: Vec<usize>)
    requires
        ncols == column_count(table_views(rows@)),
    ensures
        widths@.len() == ncols,
        forall|c: int| 0 <= c < ncols ==> widths@[c] == column_width(table_views(rows@), c),
{
    let ghost tv = table_views(rows@);
    let mut widths: Vec<usize> = Vec::new();
    for c in 0..ncols
        invariant
            widths@.len() == c,
            forall|j: int| 0 <= j < c ==> widths@[j] == 0,
    {
        widths.push(0);
    }
    let n = rows.len();
    for r in 0..n
        invariant
            n == rows@.len(),
            tv == table_views(rows@),
            ncols == column_count(tv),
            widths@.len() == ncols,
            forall|c: int| 0 <= c < ncols ==> widths@[c] == column_width(tv.take(r as int), c),
    {
        let row = &rows[r];
        proof {
            lemma_column_count(tv, r as int);
        }
        let ghost tr = tv[r as int];
        assert(tr == string_views(row@));
        let ghost pre = tv.take(r as int);
        let ghost post = tv.take(r + 1);
        assert(post.drop_last() =~= pre);
        assert(post.last() == tr);
        let m = row.len();
        for c in 0..m
            invariant
                m == row@.len(),
                m <= ncols,
                tr == string_views(row@),
                post.len() > 0,
                post.last() == tr,
                post.drop_last() == pre,
                widths@.len() == ncols,
                forall|j: int| 0 <= j < c ==> widths@[j] == column_width(post, j),
                forall|j: int| c <= j < ncols ==> widths@[j] == column_width(pre, j),
        {
            let w0 = width_of(row[c].as_str());
            let w = if w0 < MAX_COL {
                w0
            } else {
                MAX_COL
            };
            assert(w == capped_width(tr[c as int]));
            assert(column_width(post, c as int) == (if w > column_width(pre, c as int) {
                w
            } else {
                column_width(pre, c as int)
            }));
            if w > widths[c] {
                widths.set(c, w);
            }
        }
        assert forall|j: int| m <= j < ncols implies widths@[j] == column_width(post, j) by {
            assert(column_width(post, j) == column_width(pre, j));
        }
    }
    assert(tv.take(n as int) =~= tv);
    widths
}

/// Lays rows out as an aligned table; the first row is bold, as a header.
pub fn format_table(rows: &Vec<Vec<String>>) -> (r: String)
    ensures
        r@ == table_text(table_views(rows@)),
{
    let ghost tv = table_views(rows@);
    if rows.len() == 0 {
        return string_of(&chars_of("(empty)"));
    }
    let n = rows.len();
    let mut ncols: usize = 0;
    for r in 0..n
        invariant
            n == rows@.len(),
            tv == table_views(rows@),
            ncols == column_count(tv.take(r as int)),
    {
        assert(tv.take(r + 1).drop_last() =~= tv.take(r as int));
        assert(tv.take(r + 1).last() == string_views(rows@[r as int]@));
        if rows[r].len() > ncols {
            ncols = rows[r].len();
        }
    }
    assert(tv.take(n as int) =~= tv);
    let widths = column_widths(rows, ncols);
    let ghost lines = Seq::new(tv.len(), |r: int| shown_row(tv, r));
    let mut out: Vec<char> = Vec::new();
    for r in 0..n
        invariant
            n == rows@.len(),
            tv == table_views(rows@),
            ncols == column_count(tv),
            widths@.len() == ncols,
            forall|c: int| 0 <= c < ncols ==> widths@[c] == column_width(tv, c),
            lines == Seq::new(tv.len(), |r: int| shown_row(tv, r)),
            out@ == concat_all(lines.take(r as int)),
    {
        let row = &rows[r];
        let ghost tr = tv[r as int];
        assert(tr == string_views(row@));
        let ghost cells = Seq::new(
            column_count(tv),
            |c: int| fit_text(cell_at(tr, c), column_width(tv, c)) + "  "@,
        );
        let mut line: Vec<char> = Vec::new();
        for c in 0..ncols
            invariant
                ncols == column_count(tv),
                widths@.len() == ncols,
                forall|c: int| 0 <= c < ncols ==> widths@[c] == column_width(tv, c),
                tr == string_views(row@),
                cells == Seq::new(
                    column_count(tv),
                    |c: int| fit_text(cell_at(tr, c), column_width(tv, c)) + "  "@,
                ),
                line@ == concat_all(cells.take(c as int)),
        {
            let fitted = if c < row.len() {
                fit(row[c].as_str(), widths[c])
            } else {
                fit("", widths[c])
            };
            proof {
                if c >= row@.len() {
                    reveal_strlit("");
                    assert(""@ =~= cell_at(tr, c as int));
                }
            }
            let ghost before = line@;
            append_str(&mut line, fitted.as_str());
            append_str(&mut line, "  ");
            assert(cells.take(c + 1).drop_last() =~= cells.take(c as int));
            assert(line@ =~= before + cells[c as int]);
        }
        assert(cells.take(ncols as int) =~= cells);
        let trimmed = trim_end_exec(&line);
        assert(trimmed@ == row_text(tv, r as int));
        let ghost before = out@;
        if r == 0 {
            let s = string_of(&trimmed);
            let styled = coded(s.as_str(), ",,b");
            append_str(&mut out, styled.as_str());
        } else {
            append_chars(&mut out, &trimmed);
        }
        out.push('\n');
        assert(lines.take(r + 1).drop_last() =~= lines.take(r as int));
        assert(out@ =~= before + lines[r as int]);
    }
    assert(lines.take(n as int) =~= lines);
    string_of(&out)
}

/// The table view of a spreadsheet, or the notice that it could not be
/// read (with the error).
pub fn render_table(rows: Result<&Vec<Vec<String>>, &str>) -> (r: String)
    ensures
        match rows {
            Ok(rs) => r@ == table_text(table_views(rs@)),
            Err(e) => r@ == "cannot read spreadsheet: "@ + e@,
        },
{
    match rows {
        Ok(rs) => format_table(rs),
        Err(e) => {
            let mut out = chars_of("cannot read spreadsheet: ");
            append_str(&mut out, e);
            string_of(&out)
        },
    }
}

// ---------------------------------------------------------------------------
// Laws of CSV splitting.

/// `x` with each `"` doubled.
pub open spec fn escape_quotes(x: Seq<char>) -> Seq<char>
    decreases x.len(),
{
    if x.len() == 0 {
        seq![]
    } else {
        (if x[0] == '"' {
            seq!['"', '"']
        } else {
            seq![x[0]]
        }) + escape_quotes(x.drop_first())
    }
}

/// `x` as a quoted CSV field.
pub open spec fn quoted(x: Seq<char>) -> Seq<char> {
    seq!['"'] + escape_quotes(x) + seq!['"']
}

/// A field as written: quoted, or as it is.
pub open spec fn written(x: Seq<char>, quote: bool) -> Seq<char> {
    if quote {
        quoted(x)
    } else {
        x
    }
}

/// A field that can be written without quotes: it holds neither the
/// separator nor a quote.
pub open spec fn plain_field(x: Seq<char>, sep: char) -> bool {
    !x.contains(sep) && !x.contains('"')
}

proof fn lemma_scan_plain(
    s: Seq<char>,
    sep: char,
    i: int,
    x: Seq<char>,
    cur: Seq<char>,
    out: Seq<Seq<char>>,
)
    requires
        0 <= i,
        i + x.len() <= s.len(),
        s.subrange(i, i + x.len()) == x,
        plain_field(x, sep),
    ensures
        csv_scan(s, sep, i, false, cur, out) == csv_scan(s, sep, i + x.len(), false, cur + x, out),
    decreases x.len(),
{
    if x.len() == 0 {
        assert(cur + x =~= cur);
    } else {
        assert(s[i] == x[0]) by {
            assert(s.subrange(i, i + x.len())[0] == s[i]);
        }
        assert(x.contains(x[0]));
        let t = x.drop_first();
        assert(s.subrange(i + 1, i + 1 + t.len()) =~= t);
        assert(!t.contains(sep) && !t.contains('"')) by {
            if t.contains(sep) {
                let k = choose|k: int| 0 <= k < t.len() && t[k] == sep;
                assert(x[k + 1] == sep);
            }
            if t.contains('"') {
                let k = choose|k: int| 0 <= k < t.len() && t[k] == '"';
                assert(x[k + 1] == '"');
            }
        }
        lemma_scan_plain(s, sep, i + 1, t, cur.push(x[0]), out);
        assert(cur.push(x[0]) + t =~= cur + x);
    }
}

proof fn lemma_scan_escaped(
    s: Seq<char>,
    sep: char,
    i: int,
    x: Seq<char>,
    cur: Seq<char>,
    out: Seq<Seq<char>>,
)
    requires
        0 <= i,
        i + escape_quotes(x).len() < s.len(),
        s.subrange(i, i + escape_quotes(x).len()) == escape_quotes(x),
        s[i + escape_quotes(x).len()] == '"',
        i + escape_quotes(x).len() + 1 == s.len() || s[i + escape_quotes(x).len() + 1] != '"',
    ensures
        csv_scan(s, sep, i, true, cur, out) == csv_scan(
            s,
            sep,
            i + escape_quotes(x).len() + 1,
            false,
            cur + x,
            out,
        ),
    decreases x.len(),
{
    let e = escape_quotes(x);
    if x.len() == 0 {
        assert(cur + x =~= cur);
    } else {
        let t = x.drop_first();
        let et = escape_quotes(t);
        let head = if x[0] == '"' {
            seq!['"', '"']
        } else {
            seq![x[0]]
        };
        assert(e == head + et);
        let h = head.len() as int;
        assert(s.subrange(i, i + e.len()).subrange(0, h) =~= head);
        assert(s[i] == head[0]) by {
            assert(s.subrange(i, i + e.len())[0] == s[i]);
        }
        if x[0] == '"' {
            assert(s[i + 1] == '"') by {
                assert(s.subrange(i, i + e.len())[1] == s[i + 1]);
            }
        }
        assert(s.subrange(i + h, i + h + et.len()) =~= et) by {
            assert(s.subrange(i + h, i + h + et.len()) =~= s.subrange(i, i + e.len()).subrange(
                h,
                e.len() as int,
            ));
        }
        lemma_scan_escaped(s, sep, i + h, t, cur.push(x[0]), out);
        assert(cur.push(x[0]) + t =~= cur + x);
    }
}

proof fn lemma_scan_field(
    s: Seq<char>,
    sep: char,
    i: int,
    x: Seq<char>,
    quote: bool,
    out: Seq<Seq<char>>,
)
    requires
        0 <= i,
        i + written(x, quote).len() <= s.len(),
        s.subrange(i, i + written(x, quote).len()) == written(x, quote),
        quote || plain_field(x, sep),
        quote ==> (i + written(x, quote).len() == s.len() || s[i + written(x, quote).len()]
            != '"'),
    ensures
        csv_scan(s, sep, i, false, seq![], out) == csv_scan(
            s,
            sep,
            i + written(x, quote).len(),
            false,
            x,
            out,
        ),
{
    if quote {
        let w = quoted(x);
        let e = escape_quotes(x);
        assert(s[i] == '"') by {
            assert(s.subrange(i, i + w.len())[0] == s[i]);
        }
        assert(s.subrange(i + 1, i + 1 + e.len()) =~= e) by {
            assert(s.subrange(i + 1, i + 1 + e.len()) =~= s.subrange(i, i + w.len()).subrange(
                1,
                (1 + e.len()) as int,
            ));
        }
        assert(s[i + 1 + e.len()] == '"') by {
            assert(s.subrange(i, i + w.len())[(1 + e.len()) as int] == s[i + 1 + e.len()]);
        }
        if e.len() == 0 {
            // `""`: the second quote is not doubled, so it closes the field.
        }
        lemma_scan_escaped(s, sep, i + 1, x, seq![], out);
        assert(Seq::<char>::empty() + x =~= x);
    } else {
        lemma_scan_plain(s, sep, i, x, seq![], out);
        assert(Seq::<char>::empty() + x =~= x);
    }
}

proof fn lemma_join_prefix(ps: Seq<Seq<char>>, sep: Seq<char>, m: int)
    requires
        1 <= m <= ps.len(),
    ensures
        join(ps.take(m), sep).len() <= join(ps, sep).len(),
        m < ps.len() ==> join(ps.take(m), sep).len() + sep.len() <= join(ps, sep).len(),
        join(ps, sep).subrange(0, join(ps.take(m), sep).len() as int) == join(ps.take(m), sep),
        m < ps.len() ==> join(ps, sep).subrange(
            join(ps.take(m), sep).len() as int,
            (join(ps.take(m), sep).len() + sep.len()) as int,
        ) == sep,
    decreases ps.len(),
{
    let j = join(ps, sep);
    if m == ps.len() {
        assert(ps.take(m) =~= ps);
        assert(j.subrange(0, j.len() as int) =~= j);
    } else {
        let d = ps.drop_last();
        assert(ps.len() >= 2);
        assert(j == join(d, sep) + sep + ps.last());
        lemma_join_prefix(d, sep, m);
        assert(d.take(m) =~= ps.take(m));
        let jm = join(ps.take(m), sep);
        let jd = join(d, sep);
        assert(j.subrange(0, jm.len() as int) =~= jd.subrange(0, jm.len() as int));
        if m < d.len() {
            assert(j.subrange(jm.len() as int, (jm.len() + sep.len()) as int) =~= jd.subrange(
                jm.len() as int,
                (jm.len() + sep.len()) as int,
            ));
        } else {
            assert(d.take(m) =~= d);
            assert(j.subrange(jm.len() as int, (jm.len() + sep.len()) as int) =~= sep);
        }
    }
}

/// Where field `k` of a joined line starts.
spec fn field_start(ps: Seq<Seq<char>>, sep: char, k: int) -> int {
    if k == 0 {
        0
    } else {
        (join(ps.take(k), seq![sep]).len() + 1) as int
    }
}

proof fn lemma_scan_fields(f: Seq<Seq<char>>, sep: char, quote: bool, k: int)
    requires
        0 <= k < f.len(),
        sep != '"',
        !quote ==> forall|j: int| 0 <= j < f.len() ==> plain_field(#[trigger] f[j], sep),
    ensures
        ({
            let ps = f.map_values(|x: Seq<char>| written(x, quote));
            let s = join(ps, seq![sep]);
            csv_scan(s, sep, field_start(ps, sep, k), false, seq![], f.take(k)) == f
        }),
    decreases f.len() - k,
{
    let ps = f.map_values(|x: Seq<char>| written(x, quote));
    let s = join(ps, seq![sep]);
    let st = field_start(ps, sep, k);
    let w = ps[k];
    lemma_join_prefix(ps, seq![sep], k + 1);
    let jk1 = join(ps.take(k + 1), seq![sep]);
    // The field occupies s[st .. st + |w|] = s[st .. |jk1|].
    if k == 0 {
        assert(ps.take(1) =~= seq![ps[0]]);
        assert(jk1 == ps[0]);
    } else {
        assert(ps.take(k + 1).drop_last() =~= ps.take(k));
        assert(ps.take(k + 1).last() == ps[k]);
        assert(jk1 == join(ps.take(k), seq![sep]) + seq![sep] + ps[k]);
    }
    assert(st + w.len() == jk1.len());
    assert(s.subrange(st, st + w.len()) =~= jk1.subrange(st, jk1.len() as int));
    assert(jk1.subrange(st, jk1.len() as int) =~= w);
    if k + 1 < f.len() {
        assert(s[jk1.len() as int] == sep) by {
            assert(s.subrange(jk1.len() as int, (jk1.len() + 1) as int)[0] == s[jk1.len() as int]);
        }
    } else {
        assert(ps.take(k + 1) =~= ps);
    }
    lemma_scan_field(s, sep, st, f[k], quote, f.take(k));
    if k + 1 < f.len() {
        lemma_scan_fields(f, sep, quote, k + 1);
        assert(f.take(k).push(f[k]) =~= f.take(k + 1));
        assert(field_start(ps, sep, k + 1) == jk1.len() + 1);
    } else {
        assert(f.take(k).push(f[k]) =~= f);
    }
}

/// Splitting a line of fields joined by the separator gives the fields
/// back when each is written quoted (any content: separators, quotes,
/// anything), or when none holds a separator or a quote and all are
/// written as they are.
pub proof fn law_csv_roundtrip(f: Seq<Seq<char>>, sep: char, quote: bool)
    requires
        f.len() >= 1,
        sep != '"',
        !quote ==> forall|j: int| 0 <= j < f.len() ==> plain_field(#[trigger] f[j], sep),
    ensures
        csv_fields(join(f.map_values(|x: Seq<char>| written(x, quote)), seq![sep]), sep) == f,
{
    lemma_scan_fields(f, sep, quote, 0);
    assert(f.take(0) =~= Seq::<Seq<char>>::empty());
}

} // verus!

//! The read-only view of a file, from its path and kind to the text shown.
//! Reading the file and running the converters is the caller's work: a
//! rendering says what it needs next, takes what came back, and ends with
//! the text to show. Every decision between those steps is made here.

use vstd::prelude::*;
use crate::documents::{doc_view, pandoc_failed_text, pdf_text, render_doc, render_pdf};
use crate::dump::{dump_text, render_hex};
use crate::paths::{ext, ext_of};
use crate::registry::Kind;
use crate::slides::{
    plan_slides, pptx_outline, pptx_outline_text, render_odp, odp_text, slide_files,
    stable_by_number, unzip_failed_text, SlidePlan,
};
use crate::syntax::{render_text, text_view};
use crate::table::{
    csv_rows, csv_separator, format_table, parse_csv, render_table, separator_for, table_text,
    table_views,
};
use crate::text::{chars_of, lines, string_of, string_views, trim};

verus! {

/// Outside work that a rendering waits for.
pub enum Request {
    /// Read the file as UTF-8 text.
    ReadText,
    /// Read the file's bytes.
    ReadBytes,
    /// Read the cells of the first sheet of a spreadsheet, as text.
    ReadSheet,
    /// Run a program with these arguments and take its standard output,
    /// or its error text when it could not run or failed.
    Run(String, Vec<String>),
}

/// What the outside work gave back.
pub enum Reply {
    /// The file's text, or `None` when it is not readable as UTF-8 text.
    Text(Option<String>),
    /// The file's bytes, or the error that stopped the read.
    Bytes(Result<Vec<u8>, String>),
    /// A program's standard output, or its error text.
    Output(Result<String, String>),
    /// The sheet's rows of cell texts, or the error that stopped the read.
    Rows(Result<Vec<Vec<String>>, String>),
}

/// What a rendering does next.
pub enum Step {
    /// Wait for this work to be done.
    Ask(Request),
    /// Show this text: the rendering is over.
    Show(String),
}

/// Where a rendering stands.
pub enum Rendering {
    /// Waiting for the text of a text file with this (lowercase) extension.
    Text { ext: String },
    /// Waiting for the bytes of a file shown as a hex dump.
    Hex,
    /// Waiting for pandoc's markdown of the word processor document at `path`.
    Doc { path: String },
    /// Waiting for pdftotext's text of the PDF at `path`.
    Pdf { path: String },
    /// Waiting for the text of a CSV or TSV file with this separator.
    Csv { sep: char },
    /// Waiting for the rows of a spreadsheet.
    Sheet,
    /// Waiting for the `content.xml` of the ODF presentation at `path`.
    Odp { path: String },
    /// Waiting for the archive listing of the pptx at `path`.
    Listing { path: String },
    /// Reading the slide files `names` of the pptx at `path` one by one;
    /// `xmls` holds those read so far.
    Slides { path: String, names: Vec<String>, xmls: Vec<String> },
    /// Over.
    Done,
}

/// `step` asks for the run of program `cmd` with arguments `args`.
pub open spec fn asks_run(step: Step, cmd: Seq<char>, args: Seq<Seq<char>>) -> bool {
    step matches Step::Ask(Request::Run(c, a)) && c@ == cmd && string_views(a@) == args
}

/// `step` shows `text`.
pub open spec fn shows(step: Step, text: Seq<char>) -> bool {
    step matches Step::Show(t) && t@ == text
}

/// `step` asks for the work that a rendering in state `s` waits for.
pub open spec fn awaits(s: Rendering, step: Step) -> bool {
    match s {
        Rendering::Text { .. } => step matches Step::Ask(Request::ReadText),
        Rendering::Csv { .. } => step matches Step::Ask(Request::ReadText),
        Rendering::Hex => step matches Step::Ask(Request::ReadBytes),
        Rendering::Sheet => step matches Step::Ask(Request::ReadSheet),
        Rendering::Doc { path } => asks_run(
            step,
            "pandoc"@,
            seq!["-t"@, "markdown"@, "--wrap=none"@, path@],
        ),
        Rendering::Pdf { path } => asks_run(step, "pdftotext"@, seq!["-layout"@, path@, "-"@]),
        Rendering::Odp { path } => asks_run(step, "unzip"@, seq!["-p"@, path@, "content.xml"@]),
        Rendering::Listing { path } => asks_run(step, "unzip"@, seq!["-Z1"@, path@]),
        Rendering::Slides { path, names, xmls } => xmls@.len() < names@.len() && asks_run(
            step,
            "unzip"@,
            seq!["-p"@, path@, names@[xmls@.len() as int]@],
        ),
        Rendering::Done => false,
    }
}

fn owned(s: &str) -> (r: String)
    ensures
        r@ == s@,
{
    string_of(&chars_of(s))
}

fn run2(cmd: &str, a: &str, b: &str) -> (r: Step)
    ensures
        asks_run(r, cmd@, seq![a@, b@]),
{
    let mut args: Vec<String> = Vec::new();
    args.push(owned(a));
    args.push(owned(b));
    assert(string_views(args@) =~= seq![a@, b@]);
    Step::Ask(Request::Run(owned(cmd), args))
}

fn run3(cmd: &str, a: &str, b: &str, c: &str) -> (r: Step)
    ensures
        asks_run(r, cmd@, seq![a@, b@, c@]),
{
    let mut args: Vec<String> = Vec::new();
    args.push(owned(a));
    args.push(owned(b));
    args.push(owned(c));
    assert(string_views(args@) =~= seq![a@, b@, c@]);
    Step::Ask(Request::Run(owned(cmd), args))
}

fn run4(cmd: &str, a: &str, b: &str, c: &str, d: &str) -> (r: Step)
    ensures
        asks_run(r, cmd@, seq![a@, b@, c@, d@]),
{
    let mut args: Vec<String> = Vec::new();
    args.push(owned(a));
    args.push(owned(b));
    args.push(owned(c));
    args.push(owned(d));
    assert(string_views(args@) =~= seq![a@, b@, c@, d@]);
    Step::Ask(Request::Run(owned(cmd), args))
}

/// Starts the view of the file at `path`, rendered as `kind`: text files
/// are read as text, tables as CSV/TSV text or as a spreadsheet by their
/// extension, documents through pandoc, PDFs through pdftotext, ODF
/// presentations from their `content.xml` and pptx from their archive
/// listing, both through unzip; binary files are read as bytes. Images
/// are drawn elsewhere and show no text.
pub fn render(path: &str, kind: Kind) -> (r: (Rendering, Step))
    ensures
        kind == Kind::Text ==> (r.0 matches Rendering::Text { ext } && ext@ == ext_of(path@)),
        kind == Kind::Table ==> (match separator_for(ext_of(path@)) {
            Some(sep) => r.0 == Rendering::Csv { sep },
            None => r.0 is Sheet,
        }),
        kind == Kind::Doc ==> (r.0 matches Rendering::Doc { path: p } && p@ == path@),
        kind == Kind::Pdf ==> (r.0 matches Rendering::Pdf { path: p } && p@ == path@),
        kind == Kind::Slides ==> (if ext_of(path@) == "odp"@ {
            r.0 matches Rendering::Odp { path: p } && p@ == path@
        } else {
            r.0 matches Rendering::Listing { path: p } && p@ == path@
        }),
        kind == Kind::Image ==> r.0 is Done && shows(r.1, seq![]),
        kind == Kind::Hex ==> r.0 is Hex,
        kind != Kind::Image ==> awaits(r.0, r.1),
{
    match kind {
        Kind::Text => (Rendering::Text { ext: ext(path) }, Step::Ask(Request::ReadText)),
        Kind::Table => {
            let e = ext(path);
            match csv_separator(e.as_str()) {
                Some(sep) => (Rendering::Csv { sep }, Step::Ask(Request::ReadText)),
                None => (Rendering::Sheet, Step::Ask(Request::ReadSheet)),
            }
        },
        Kind::Doc => (
            Rendering::Doc { path: owned(path) },
            run4("pandoc", "-t", "markdown", "--wrap=none", path),
        ),
        Kind::Pdf => (Rendering::Pdf { path: owned(path) }, run3("pdftotext", "-layout", path, "-")),
        Kind::Slides => {
            let e = ext(path);
            let ec = chars_of(e.as_str());
            if crate::text::chars_eq_str(&ec, "odp") {
                (Rendering::Odp { path: owned(path) }, run3("unzip", "-p", path, "content.xml"))
            } else {
                (Rendering::Listing { path: owned(path) }, run2("unzip", "-Z1", path))
            }
        },
        Kind::Image => (Rendering::Done, Step::Show(String::new())),
        Kind::Hex => (Rendering::Hex, Step::Ask(Request::ReadBytes)),
    }
}

/// A program's output as a result of texts.
pub open spec fn output_view(o: Result<String, String>) -> Result<Seq<char>, Seq<char>> {
    match o {
        Ok(s) => Ok(s@),
        Err(e) => Err(e@),
    }
}

/// A program's output, or nothing when it failed.
pub open spec fn output_or_empty(o: Result<String, String>) -> Seq<char> {
    match o {
        Ok(s) => s@,
        Err(_) => seq![],
    }
}

/// The bytes read, or the error, as plain values.
pub open spec fn bytes_view(b: Result<Vec<u8>, String>) -> Result<Seq<u8>, Seq<char>> {
    match b {
        Ok(v) => Ok(v@),
        Err(e) => Err(e@),
    }
}

/// The table view of the rows read from a spreadsheet, or the notice that
/// it could not be read.
pub open spec fn sheet_text(rows: Result<Vec<Vec<String>>, String>) -> Seq<char> {
    match rows {
        Ok(rs) => table_text(table_views(rs@)),
        Err(e) => "cannot read spreadsheet: "@ + e@,
    }
}

/// `reply` is of the sort of work that a rendering in state `s` waits for.
pub open spec fn answers(s: Rendering, reply: Reply) -> bool {
    match s {
        Rendering::Text { .. } => reply is Text,
        Rendering::Csv { .. } => reply is Text,
        Rendering::Hex => reply is Bytes,
        Rendering::Sheet => reply is Rows,
        Rendering::Doc { .. } => reply is Output,
        Rendering::Pdf { .. } => reply is Output,
        Rendering::Odp { .. } => reply is Output,
        Rendering::Listing { .. } => reply is Output,
        Rendering::Slides { .. } => reply is Output,
        Rendering::Done => false,
    }
}

/// How far a rendering is from its end, first part: a text file may still
/// turn into a hex dump, and a pptx listing still turns into slide reads.
pub open spec fn phase(s: Rendering) -> nat {
    match s {
        Rendering::Text { .. } => 1,
        Rendering::Listing { .. } => 1,
        _ => 0,
    }
}

/// How far a rendering is from its end, second part: the reads left.
pub open spec fn reads_left(s: Rendering) -> nat {
    match s {
        Rendering::Slides { names, xmls, .. } => if xmls@.len() < names@.len() {
            (names@.len() - xmls@.len()) as nat
        } else {
            0
        },
        Rendering::Done => 0,
        _ => 1,
    }
}

/// `t` is nearer its end than `s`.
pub open spec fn nearer(t: Rendering, s: Rendering) -> bool {
    phase(t) < phase(s) || (phase(t) == phase(s) && reads_left(t) < reads_left(s))
}

fn slide_request(path: &String, names: &Vec<String>, i: usize) -> (r: Step)
    requires
        i < names@.len(),
    ensures
        asks_run(r, "unzip"@, seq!["-p"@, path@, names@[i as int]@]),
{
    run3("unzip", "-p", path.as_str(), names[i].as_str())
}

impl Rendering {
    /// Takes what the work asked for last gave back, and goes on: to the
    /// text to show, or to the next work. A reply of another sort than the
    /// work asked for is ignored and the same work is asked for again.
    /// A text file is shown highlighted by its extension (`text_view`), or,
    /// when it is not UTF-8, as a hex dump; a document is shown as pandoc's
    /// markdown highlighted (`doc_view`); an unreadable
    /// CSV file counts as empty; a pptx whose listing names slides has each
    /// slide file read in number order, a failed read counting as a slide
    /// without text.
    pub fn advance(self, reply: Reply) -> (r: (Rendering, Step))
        ensures
            self matches Rendering::Text { ext } ==> match reply {
                Reply::Text(Some(c)) => r.0 is Done && (r.1 matches Step::Show(t) && text_view(
                    c@,
                    ext@,
                    t@,
                )),
                Reply::Text(None) => r.0 is Hex && awaits(r.0, r.1),
                _ => r.0 == self && awaits(r.0, r.1),
            },
            self is Hex ==> match reply {
                Reply::Bytes(b) => r.0 is Done && shows(r.1, dump_text(bytes_view(b))),
                _ => r.0 == self && awaits(r.0, r.1),
            },
            self is Doc ==> match reply {
                Reply::Output(o) => r.0 is Done && r.1 is Show && (o matches Ok(s) ==> (trim(s@).len()
                    == 0 ==> shows(r.1, "(empty document)"@))) && (o matches Ok(s) ==> (trim(s@).len()
                    > 0 ==> (r.1 matches Step::Show(t) && doc_view(s@, t@)))) && (o matches Err(e)
                    ==> shows(r.1, pandoc_failed_text(e@))),
                _ => r.0 == self && awaits(r.0, r.1),
            },
            self is Pdf ==> match reply {
                Reply::Output(o) => r.0 is Done && shows(r.1, pdf_text(output_view(o))),
                _ => r.0 == self && awaits(r.0, r.1),
            },
            self matches Rendering::Csv { sep } ==> match reply {
                Reply::Text(t) => r.0 is Done && shows(
                    r.1,
                    table_text(
                        csv_rows(
                            match t {
                                Some(s) => s@,
                                None => seq![],
                            },
                            sep,
                        ),
                    ),
                ),
                _ => r.0 == self && awaits(r.0, r.1),
            },
            self is Sheet ==> match reply {
                Reply::Rows(rows) => r.0 is Done && shows(r.1, sheet_text(rows)),
                _ => r.0 == self && awaits(r.0, r.1),
            },
            self is Odp ==> match reply {
                Reply::Output(o) => r.0 is Done && shows(r.1, odp_text(output_or_empty(o))),
                _ => r.0 == self && awaits(r.0, r.1),
            },
            self matches Rendering::Listing { path } ==> match reply {
                Reply::Output(Err(e)) => r.0 is Done && shows(r.1, unzip_failed_text(e@)),
                Reply::Output(Ok(l)) => if slide_files(lines(l@)).len() == 0 {
                    r.0 is Done && shows(r.1, "(no slides found)"@)
                } else {
                    &&& r.0 matches Rendering::Slides { path: p, names, xmls }
                    &&& p == path
                    &&& xmls@.len() == 0
                    &&& exists|idx: Seq<int>|
                        #[trigger] stable_by_number(
                            slide_files(lines(l@)),
                            string_views(names@),
                            idx,
                        )
                    &&& awaits(r.0, r.1)
                },
                _ => r.0 == self && awaits(r.0, r.1),
            },
            self matches Rendering::Slides { path, names, xmls } ==> match reply {
                Reply::Output(o) => {
                    let xs = string_views(xmls@).push(output_or_empty(o));
                    if xs.len() < names@.len() {
                        &&& r.0 matches Rendering::Slides { path: p, names: n, xmls: x }
                        &&& p == path
                        &&& n == names
                        &&& string_views(x@) == xs
                        &&& awaits(r.0, r.1)
                    } else {
                        r.0 is Done && shows(r.1, pptx_outline_text(xs))
                    }
                },
                _ => if xmls@.len() < names@.len() {
                    r.0 == self && awaits(r.0, r.1)
                } else {
                    r.0 is Done && shows(r.1, pptx_outline_text(string_views(xmls@)))
                },
            },
            self is Done ==> r.0 is Done && shows(r.1, seq![]),
            answers(self, reply) ==> r.0 is Done || nearer(r.0, self),
            !(r.0 is Done) ==> awaits(r.0, r.1),
    {
        match self {
            Rendering::Text { ext } => match reply {
                Reply::Text(Some(c)) => (
                    Rendering::Done,
                    Step::Show(render_text(c.as_str(), ext.as_str())),
                ),
                Reply::Text(None) => (Rendering::Hex, Step::Ask(Request::ReadBytes)),
                _ => (Rendering::Text { ext }, Step::Ask(Request::ReadText)),
            },
            Rendering::Hex => match reply {
                Reply::Bytes(Ok(b)) => (Rendering::Done, Step::Show(render_hex(Ok(b.as_slice())))),
                Reply::Bytes(Err(e)) => (Rendering::Done, Step::Show(render_hex(Err(e.as_str())))),
                _ => (Rendering::Hex, Step::Ask(Request::ReadBytes)),
            },
            Rendering::Doc { path } => match reply {
                Reply::Output(Ok(s)) => (Rendering::Done, Step::Show(render_doc(Ok(s.as_str())))),
                Reply::Output(Err(e)) => (
                    Rendering::Done,
                    Step::Show(render_doc(Err(e.as_str()))),
                ),
                _ => {
                    let step = run4("pandoc", "-t", "markdown", "--wrap=none", path.as_str());
                    (Rendering::Doc { path }, step)
                },
            },
            Rendering::Pdf { path } => match reply {
                Reply::Output(Ok(s)) => (Rendering::Done, Step::Show(render_pdf(Ok(s.as_str())))),
                Reply::Output(Err(e)) => (
                    Rendering::Done,
                    Step::Show(render_pdf(Err(e.as_str()))),
                ),
                _ => {
                    let step = run3("pdftotext", "-layout", path.as_str(), "-");
                    (Rendering::Pdf { path }, step)
                },
            },
            Rendering::Csv { sep } => match reply {
                Reply::Text(t) => {
                    let text = match t {
                        Some(s) => s,
                        None => String::new(),
                    };
                    let rows = parse_csv(text.as_str(), sep);
                    (Rendering::Done, Step::Show(format_table(&rows)))
                },
                _ => (Rendering::Csv { sep }, Step::Ask(Request::ReadText)),
            },
            Rendering::Sheet => match reply {
                Reply::Rows(Ok(rows)) => (Rendering::Done, Step::Show(render_table(Ok(&rows)))),
                Reply::Rows(Err(e)) => (Rendering::Done, Step::Show(render_table(Err(e.as_str())))),
                _ => (Rendering::Sheet, Step::Ask(Request::ReadSheet)),
            },
            Rendering::Odp { path } => match reply {
                Reply::Output(Ok(x)) => (Rendering::Done, Step::Show(render_odp(x.as_str()))),
                Reply::Output(Err(_)) => {
                    let none = String::new();
                    (Rendering::Done, Step::Show(render_odp(none.as_str())))
                },
                _ => {
                    let step = run3("unzip", "-p", path.as_str(), "content.xml");
                    (Rendering::Odp { path }, step)
                },
            },
            Rendering::Listing { path } => match reply {
                Reply::Output(o) => {
                    let plan = match &o {
                        Ok(l) => plan_slides(Ok(l.as_str())),
                        Err(e) => plan_slides(Err(e.as_str())),
                    };
                    match plan {
                        SlidePlan::Show(t) => (Rendering::Done, Step::Show(t)),
                        SlidePlan::Read(names) => {
                            let step = slide_request(&path, &names, 0);
                            (Rendering::Slides { path, names, xmls: Vec::new() }, step)
                        },
                    }
                },
                _ => {
                    let step = run2("unzip", "-Z1", path.as_str());
                    (Rendering::Listing { path }, step)
                },
            },
            Rendering::Slides { path, names, xmls } => {
                let mut xmls = xmls;
                let ghost x0 = string_views(xmls@);
                match reply {
                    Reply::Output(o) => {
                        let x = match o {
                            Ok(s) => s,
                            Err(_) => String::new(),
                        };
                        xmls.push(x);
                        assert(string_views(xmls@) =~= x0.push(output_or_empty(o)));
                        if xmls.len() < names.len() {
                            let step = slide_request(&path, &names, xmls.len());
                            (Rendering::Slides { path, names, xmls }, step)
                        } else {
                            (Rendering::Done, Step::Show(pptx_outline(&xmls)))
                        }
                    },
                    _ => {
                        if xmls.len() < names.len() {
                            let step = slide_request(&path, &names, xmls.len());
                            (Rendering::Slides { path, names, xmls }, step)
                        } else {
                            (Rendering::Done, Step::Show(pptx_outline(&xmls)))
                        }
                    },
                }
            },
            Rendering::Done => (Rendering::Done, Step::Show(String::new())),
        }
    }
}

} // verus!

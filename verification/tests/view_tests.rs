use viewer::syntax::{choose_highlighter, markdown_safe, Highlighter};
use viewer::view::{render, Rendering, Reply, Request, Step};
use viewer::Kind;

const BOLD_11: &str = "\x1b[38;5;11;1m";
const RESET: &str = "\x1b[0m";

fn header(n: usize) -> String {
    format!("{}\u{2500}\u{2500} Slide {} \u{2500}\u{2500}{}", BOLD_11, n, RESET)
}

fn shown(step: Step) -> String {
    match step {
        Step::Show(t) => t,
        Step::Ask(_) => panic!("expected text to show"),
    }
}

fn run_args(step: &Step) -> (String, Vec<String>) {
    match step {
        Step::Ask(Request::Run(cmd, args)) => (cmd.clone(), args.clone()),
        _ => panic!("expected a program run"),
    }
}

fn strings(v: &[&str]) -> Vec<String> {
    v.iter().map(|s| s.to_string()).collect()
}

#[test]
fn text_file_reads_text_then_highlights() {
    let (state, step) = render("notes/README.MD", Kind::Text);
    assert!(matches!(&state, Rendering::Text { ext } if ext == "md"));
    assert!(matches!(step, Step::Ask(Request::ReadText)));
    let (state, step) = state.advance(Reply::Text(Some("# Title\n".to_string())));
    assert!(matches!(state, Rendering::Done));
    assert!(matches!(step, Step::Show(_)));
}

#[test]
fn text_file_that_is_not_utf8_becomes_a_hex_dump() {
    let (state, _) = render("blob.txt", Kind::Text);
    let (state, step) = state.advance(Reply::Text(None));
    assert!(matches!(state, Rendering::Hex));
    assert!(matches!(step, Step::Ask(Request::ReadBytes)));
    let (state, step) = state.advance(Reply::Bytes(Ok(vec![0x41, 0x00, 0xff])));
    assert!(matches!(state, Rendering::Done));
    let expected = format!(
        "(binary file \u{2014} first 2 KB)\n\n00000000  {:<47}  A..\n",
        "41 00 ff"
    );
    assert_eq!(shown(step), expected);
}

#[test]
fn hex_read_error_is_reported() {
    let (state, step) = render("x.bin", Kind::Hex);
    assert!(matches!(step, Step::Ask(Request::ReadBytes)));
    let (_, step) = state.advance(Reply::Bytes(Err("permission denied".to_string())));
    assert_eq!(shown(step), "cannot read file: permission denied");
}

#[test]
fn a_reply_of_another_sort_asks_again() {
    let (state, _) = render("x.bin", Kind::Hex);
    let (state, step) = state.advance(Reply::Text(None));
    assert!(matches!(state, Rendering::Hex));
    assert!(matches!(step, Step::Ask(Request::ReadBytes)));
    let (state, _) = render("a.pdf", Kind::Pdf);
    let (state, step) = state.advance(Reply::Rows(Ok(vec![])));
    assert!(matches!(&state, Rendering::Pdf { path } if path == "a.pdf"));
    assert_eq!(run_args(&step), ("pdftotext".to_string(), strings(&["-layout", "a.pdf", "-"])));
}

#[test]
fn document_goes_through_pandoc() {
    let (state, step) = render("/home/u/report.docx", Kind::Doc);
    assert_eq!(
        run_args(&step),
        (
            "pandoc".to_string(),
            strings(&["-t", "markdown", "--wrap=none", "/home/u/report.docx"])
        )
    );
    let (_, step) = state.advance(Reply::Output(Err("pandoc: not found".to_string())));
    assert_eq!(shown(step), "pandoc failed: pandoc: not found\n(install pandoc to view .docx/.odt)");
    let (state, _) = render("r.odt", Kind::Doc);
    let (_, step) = state.advance(Reply::Output(Ok("  \n\t".to_string())));
    assert_eq!(shown(step), "(empty document)");
    let (state, _) = render("r.odt", Kind::Doc);
    let (state, step) = state.advance(Reply::Output(Ok("# Heading\n".to_string())));
    assert!(matches!(state, Rendering::Done));
    assert!(matches!(step, Step::Show(_)));
}

#[test]
fn pdf_goes_through_pdftotext() {
    let (state, step) = render("paper.pdf", Kind::Pdf);
    assert_eq!(run_args(&step), ("pdftotext".to_string(), strings(&["-layout", "paper.pdf", "-"])));
    let (_, step) = state.advance(Reply::Output(Ok("Abstract\n".to_string())));
    assert_eq!(shown(step), "Abstract\n");
    let (state, _) = render("scan.pdf", Kind::Pdf);
    let (_, step) = state.advance(Reply::Output(Ok(" \n\n".to_string())));
    assert_eq!(shown(step), "(no extractable text \u{2014} scanned PDF?)");
    let (state, _) = render("scan.pdf", Kind::Pdf);
    let (_, step) = state.advance(Reply::Output(Err("no such program".to_string())));
    assert_eq!(shown(step), "pdftotext failed: no such program\n(install poppler-utils to view PDFs)");
}

#[test]
fn csv_and_tsv_are_read_as_text() {
    let (state, step) = render("data.CSV", Kind::Table);
    assert!(matches!(state, Rendering::Csv { sep: ',' }));
    assert!(matches!(step, Step::Ask(Request::ReadText)));
    let (_, step) = state.advance(Reply::Text(Some("a,bb\nccc".to_string())));
    assert_eq!(shown(step), "\x1b[1ma    bb\x1b[0m\nccc\n");
    let (state, _) = render("data.tsv", Kind::Table);
    assert!(matches!(state, Rendering::Csv { sep: '\t' }));
    let (_, step) = state.advance(Reply::Text(Some("x\ty\n1\t2\n".to_string())));
    assert_eq!(shown(step), "\x1b[1mx  y\x1b[0m\n1  2\n");
    let (state, _) = render("gone.csv", Kind::Table);
    let (_, step) = state.advance(Reply::Text(None));
    assert_eq!(shown(step), "(empty)");
}

#[test]
fn spreadsheets_are_read_as_sheets() {
    let (state, step) = render("book.xlsx", Kind::Table);
    assert!(matches!(state, Rendering::Sheet));
    assert!(matches!(step, Step::Ask(Request::ReadSheet)));
    let (_, step) = state.advance(Reply::Rows(Err("no sheets".to_string())));
    assert_eq!(shown(step), "cannot read spreadsheet: no sheets");
    let (state, _) = render("book.ods", Kind::Table);
    let rows = vec![strings(&["n", "v"]), strings(&["x", "12"])];
    let (_, step) = state.advance(Reply::Rows(Ok(rows)));
    assert_eq!(shown(step), "\x1b[1mn  v\x1b[0m\nx  12\n");
}

#[test]
fn odp_reads_content_xml() {
    let (state, step) = render("deck.ODP", Kind::Slides);
    assert_eq!(
        run_args(&step),
        ("unzip".to_string(), strings(&["-p", "deck.ODP", "content.xml"]))
    );
    let xml = "<office:body><draw:page draw:name=\"p1\"><text:p>Hello &amp; welcome</text:p>\
               <text:h>Part</text:h></draw:page><draw:page draw:name=\"p2\"></draw:page></office:body>";
    let (_, step) = state.advance(Reply::Output(Ok(xml.to_string())));
    let expected = format!(
        "{}\nHello & welcome\nPart\n\n{}\n(no text)\n\n",
        header(1),
        header(2)
    );
    assert_eq!(shown(step), expected);
    let (state, _) = render("deck.odp", Kind::Slides);
    let (_, step) = state.advance(Reply::Output(Err("unzip missing".to_string())));
    assert_eq!(shown(step), "(could not read content.xml)");
}

#[test]
fn pptx_lists_then_reads_each_slide_in_number_order() {
    let (state, step) = render("talk.pptx", Kind::Slides);
    assert!(matches!(&state, Rendering::Listing { path } if path == "talk.pptx"));
    assert_eq!(run_args(&step), ("unzip".to_string(), strings(&["-Z1", "talk.pptx"])));
    let listing = "[Content_Types].xml\nppt/slides/slide10.xml\nppt/slides/slide2.xml\n\
                   ppt/slides/_rels/slide2.xml.rels\nppt/media/image1.png\n";
    let (state, step) = state.advance(Reply::Output(Ok(listing.to_string())));
    assert_eq!(
        run_args(&step),
        ("unzip".to_string(), strings(&["-p", "talk.pptx", "ppt/slides/slide2.xml"]))
    );
    let slide = "<p:sld><a:p><a:r><a:t>Hello</a:t></a:r><a:r><a:t xml:space=\"preserve\"> world</a:t></a:r></a:p></p:sld>";
    let (state, step) = state.advance(Reply::Output(Ok(slide.to_string())));
    assert_eq!(
        run_args(&step),
        ("unzip".to_string(), strings(&["-p", "talk.pptx", "ppt/slides/slide10.xml"]))
    );
    let (state, step) = state.advance(Reply::Output(Err("bad entry".to_string())));
    assert!(matches!(state, Rendering::Done));
    let expected = format!("{}\nHello world\n\n{}\n(no text)\n\n", header(1), header(2));
    assert_eq!(shown(step), expected);
}

#[test]
fn pptx_listing_failures() {
    let (state, _) = render("talk.pptx", Kind::Slides);
    let (_, step) = state.advance(Reply::Output(Err("cannot find zipfile".to_string())));
    assert_eq!(shown(step), "unzip failed: cannot find zipfile\n(install unzip to view .pptx)");
    let (state, _) = render("talk.pptx", Kind::Slides);
    let (_, step) = state.advance(Reply::Output(Ok("ppt/presentation.xml\n".to_string())));
    assert_eq!(shown(step), "(no slides found)");
}

#[test]
fn images_show_no_text() {
    let (state, step) = render("photo.png", Kind::Image);
    assert!(matches!(state, Rendering::Done));
    assert_eq!(shown(step), "");
}

#[test]
fn a_finished_rendering_stays_finished() {
    let (state, _) = render("photo.png", Kind::Image);
    let (state, step) = state.advance(Reply::Text(Some("x".to_string())));
    assert!(matches!(state, Rendering::Done));
    assert_eq!(shown(step), "");
}

#[test]
fn slide_reads_are_asked_again_after_a_stray_reply() {
    let (state, _) = render("t.pptx", Kind::Slides);
    let (state, step) = state.advance(Reply::Bytes(Ok(vec![])));
    assert!(matches!(&state, Rendering::Listing { path } if path == "t.pptx"));
    assert_eq!(run_args(&step), ("unzip".to_string(), strings(&["-Z1", "t.pptx"])));
    let (state, _) = state.advance(Reply::Output(Ok("ppt/slides/slide1.xml\n".to_string())));
    let (state, step) = state.advance(Reply::Text(None));
    assert!(matches!(&state, Rendering::Slides { xmls, .. } if xmls.is_empty()));
    assert_eq!(
        run_args(&step),
        ("unzip".to_string(), strings(&["-p", "t.pptx", "ppt/slides/slide1.xml"]))
    );
    let (state, step) = state.advance(Reply::Output(Ok("<a:t>Only</a:t>".to_string())));
    assert!(matches!(state, Rendering::Done));
    assert_eq!(shown(step), format!("{}\nOnly\n\n", header(1)));
}

#[test]
fn an_empty_text_file_shows_nothing() {
    for ext in ["md", "hl", "tex", "txt", "rs", "unknownext"] {
        assert_eq!(viewer::syntax::render_text("", ext), "", "{}", ext);
    }
}

#[test]
fn markdown_the_highlighter_cannot_take() {
    assert!(markdown_safe("# Title\n\nplain *text*\n"));
    assert!(markdown_safe("<span style=\"color:#ab1\">caf\u{e9}</span>\n"));
    assert!(markdown_safe("<span style=\"color:#abc\">x</span>"));
    assert!(markdown_safe("<span style=\"font-family:Caf\u{e9};color:#abc\">x</span>"));
    // a 3- or 6-byte colour value with a character outside ASCII is cut inside it
    assert!(!markdown_safe("a\n<span style=\"color:#\u{e9}1\">x</span>\n"));
    assert!(!markdown_safe("<span style=\"background-color: #\u{e9}\u{e9}\u{e9}\">x</span>"));
    // other lengths are not sliced at all
    assert!(markdown_safe("<span style=\"color:#\u{e9}\u{e9}\u{e9}\u{e9}\">x</span>"));
    // an unclosed opening tag is not read
    assert!(markdown_safe("<span style=\"color:#\u{e9}1"));
    // ASCII colour spans on table rows are fine
    assert!(markdown_safe("| a | b |\n|---|---|\n| <span style=\"color:#ff0000\">x</span> | y |\n"));
    // on a table row, `<span` and `style="` apart still make a span once re-laid out
    assert!(!markdown_safe(
        "| h |\n|---|\n| <span  style=\"color:#1\u{e9}234\">x</span> and many more words here |\n"
    ));
    // a tag that is more than one word may be split by the re-layout
    assert!(!markdown_safe("| <span style=\"color: #abc\">x</span> |\n"));
}

#[test]
fn risky_markdown_is_shown_without_panicking() {
    let md = "<span style=\"color:#\u{e9}1\">x</span>\n";
    let (state, _) = render("notes.md", Kind::Text);
    let (_, step) = state.advance(Reply::Text(Some(md.to_string())));
    assert!(matches!(step, Step::Show(_)));
    let (state, _) = render("letter.docx", Kind::Doc);
    let (_, step) = state.advance(Reply::Output(Ok(md.to_string())));
    assert!(matches!(step, Step::Show(_)));
    let table = "| h |\n|---|\n| <span  style=\"color:#1\u{e9}234\">x</span> and then a good many more \
                 words to make the cell wider than forty columns |\n";
    let (state, _) = render("table.md", Kind::Text);
    let (_, step) = state.advance(Reply::Text(Some(table.to_string())));
    assert!(matches!(step, Step::Show(_)));
}

#[test]
fn highlighters_by_extension() {
    assert_eq!(choose_highlighter("hl"), Highlighter::HyperList);
    assert_eq!(choose_highlighter("markdown"), Highlighter::Markdown);
    assert_eq!(choose_highlighter("bib"), Highlighter::Tex);
    assert_eq!(choose_highlighter("log"), Highlighter::Plain);
    assert_eq!(choose_highlighter("zig"), Highlighter::Source);
    assert_eq!(choose_highlighter("woim"), Highlighter::Source);
    assert_eq!(choose_highlighter("gemspec"), Highlighter::Source);
    assert_eq!(choose_highlighter("csv"), Highlighter::Plain);
}

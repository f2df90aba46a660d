use viewer::registry::{defaults, edit, merge};
use viewer::paths::ext;
use viewer::{Handler, Kind, Registry};

fn same(h: &Handler, kind: Kind, edit: Option<&str>) -> bool {
    h.kind == kind && h.edit.as_deref() == edit
}

#[test]
fn parse_reads_kind_names_in_any_case() {
    assert_eq!(Kind::parse("text"), Some(Kind::Text));
    assert_eq!(Kind::parse("TABLE"), Some(Kind::Table));
    assert_eq!(Kind::parse("Doc"), Some(Kind::Doc));
    assert_eq!(Kind::parse("sLiDeS"), Some(Kind::Slides));
    assert_eq!(Kind::parse("pdf"), Some(Kind::Pdf));
    assert_eq!(Kind::parse("image"), Some(Kind::Image));
    assert_eq!(Kind::parse("HEX"), Some(Kind::Hex));
    assert_eq!(Kind::parse("document"), None);
    assert_eq!(Kind::parse("binary"), None);
    assert_eq!(Kind::parse(""), None);
    assert_eq!(Kind::parse(" text"), None);
}

#[test]
fn labels_name_each_kind() {
    assert_eq!(Kind::Text.label(), "text");
    assert_eq!(Kind::Table.label(), "table");
    assert_eq!(Kind::Doc.label(), "document");
    assert_eq!(Kind::Slides.label(), "slides");
    assert_eq!(Kind::Pdf.label(), "pdf");
    assert_eq!(Kind::Image.label(), "image");
    assert_eq!(Kind::Hex.label(), "binary");
}

#[test]
fn edit_wraps_the_command() {
    assert_eq!(edit("grid"), Some("grid".to_string()));
    assert_eq!(edit(""), Some(String::new()));
}

#[test]
fn extension_is_lowercased_and_may_be_missing() {
    assert_eq!(ext("photo.JPG"), "jpg");
    assert_eq!(ext("dir/archive.tar.Gz"), "gz");
    assert_eq!(ext("Makefile"), "");
    assert_eq!(ext(".bashrc"), "");
    assert_eq!(ext("notes.md"), "md");
}

#[test]
fn defaults_cover_the_shipped_formats() {
    let r = defaults();
    assert!(same(&r.lookup("a.csv"), Kind::Table, Some("grid")));
    assert!(same(&r.lookup("a.tsv"), Kind::Table, Some("grid")));
    assert!(same(&r.lookup("book.XLSX"), Kind::Table, Some("grid")));
    assert!(same(&r.lookup("b.ods"), Kind::Table, Some("grid")));
    assert!(same(&r.lookup("README.md"), Kind::Text, Some("scribe")));
    assert!(same(&r.lookup("list.hl"), Kind::Text, Some("scribe")));
    assert!(same(&r.lookup("main.rs"), Kind::Text, Some("$EDITOR")));
    assert!(same(&r.lookup("page.html"), Kind::Text, Some("$EDITOR")));
    assert!(same(&r.lookup("letter.docx"), Kind::Doc, None));
    assert!(same(&r.lookup("letter.odt"), Kind::Doc, None));
    assert!(same(&r.lookup("deck.pptx"), Kind::Slides, None));
    assert!(same(&r.lookup("deck.odp"), Kind::Slides, None));
    assert!(same(&r.lookup("paper.pdf"), Kind::Pdf, None));
    assert!(same(&r.lookup("pic.PNG"), Kind::Image, None));
    assert!(same(&r.lookup("pic.webp"), Kind::Image, None));
}

#[test]
fn unknown_extensions_fall_back_to_text() {
    let r = defaults();
    assert!(same(&r.lookup("data.bin"), Kind::Text, Some("$EDITOR")));
    assert!(same(&r.lookup("Makefile"), Kind::Text, Some("$EDITOR")));
    assert!(same(&r.lookup(".profile"), Kind::Text, Some("$EDITOR")));
}

#[test]
fn merge_reads_config_lines() {
    let mut r = defaults();
    merge(
        &mut r,
        "# my formats\n\n   \nRS  text  nvim -p\nDOCX doc pandoc-edit\npptx slides -\nzzz bogus y\nonlyone\nlog hex\r\nepub doc  -\n",
    );
    assert!(same(&r.lookup("x.rs"), Kind::Text, Some("nvim -p")));
    assert!(same(&r.lookup("x.docx"), Kind::Doc, Some("pandoc-edit")));
    assert!(same(&r.lookup("x.pptx"), Kind::Slides, None));
    assert!(same(&r.lookup("x.zzz"), Kind::Text, Some("$EDITOR")));
    assert!(same(&r.lookup("x.log"), Kind::Hex, None));
    assert!(same(&r.lookup("x.epub"), Kind::Doc, None));
    assert!(same(&r.lookup("x.csv"), Kind::Table, Some("grid")));
}

#[test]
fn comment_lines_are_ignored() {
    let mut r = defaults();
    merge(&mut r, "  # csv hex\n#csv hex");
    assert!(same(&r.lookup("x.csv"), Kind::Table, Some("grid")));
}

#[test]
fn a_later_line_wins() {
    let mut r = defaults();
    merge(&mut r, "csv hex\ncsv pdf viewer-x\n");
    assert!(same(&r.lookup("x.csv"), Kind::Pdf, Some("viewer-x")));
}

#[test]
fn merging_joined_texts_is_merging_each() {
    let a = "csv hex\nmd pdf edit me";
    let b = "csv image\nfoo table grid";
    let mut joined = defaults();
    merge(&mut joined, &format!("{}\n{}", a, b));
    let mut each = defaults();
    merge(&mut each, a);
    merge(&mut each, b);
    for p in ["x.csv", "x.md", "x.foo", "x.rs", "x.pdf"] {
        let h1 = joined.lookup(p);
        let h2 = each.lookup(p);
        assert!(h1.kind == h2.kind && h1.edit == h2.edit, "{}", p);
    }
}

#[test]
fn merging_twice_is_merging_once() {
    let cfg = "csv hex\nCSV image -\nrs doc a  b   c\n";
    let mut once = defaults();
    merge(&mut once, cfg);
    let mut twice = defaults();
    merge(&mut twice, cfg);
    merge(&mut twice, cfg);
    for p in ["x.csv", "x.rs", "x.md"] {
        let h1 = once.lookup(p);
        let h2 = twice.lookup(p);
        assert!(h1.kind == h2.kind && h1.edit == h2.edit, "{}", p);
    }
    assert!(same(&once.lookup("x.rs"), Kind::Doc, Some("a b c")));
}

#[test]
fn config_extensions_match_any_case() {
    let mut r = defaults();
    merge(&mut r, "XYZ pdf");
    assert!(same(&r.lookup("file.xyz"), Kind::Pdf, None));
    assert!(same(&r.lookup("FILE.XyZ"), Kind::Pdf, None));
}

#[test]
fn load_applies_the_config_over_the_defaults() {
    let plain = Registry::load(None);
    assert!(same(&plain.lookup("a.pdf"), Kind::Pdf, None));
    let custom = Registry::load(Some("pdf text zathura\n"));
    assert!(same(&custom.lookup("a.pdf"), Kind::Text, Some("zathura")));
    assert!(same(&custom.lookup("a.png"), Kind::Image, None));
}

#[test]
fn handlers_clone_with_their_fields() {
    let h = Handler { kind: Kind::Doc, edit: Some("x y".to_string()) };
    let c = h.clone();
    assert!(same(&c, Kind::Doc, Some("x y")));
}

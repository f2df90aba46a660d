use viewer::table::{csv_separator, fit, format_table, parse_csv, render_table, split_line};

fn strings(v: &[&str]) -> Vec<String> {
    v.iter().map(|s| s.to_string()).collect()
}

#[test]
fn split_line_plain_fields() {
    assert_eq!(split_line("a,b,c", ','), strings(&["a", "b", "c"]));
    assert_eq!(split_line("", ','), strings(&[""]));
    assert_eq!(split_line("a,,", ','), strings(&["a", "", ""]));
    assert_eq!(split_line("x\ty", '\t'), strings(&["x", "y"]));
    assert_eq!(split_line("x,y", '\t'), strings(&["x,y"]));
}

#[test]
fn split_line_quotes() {
    assert_eq!(split_line("\"a,b\",c", ','), strings(&["a,b", "c"]));
    assert_eq!(split_line("\"say \"\"hi\"\"\",x", ','), strings(&["say \"hi\"", "x"]));
    // a quote that does not open a field still toggles quoting
    assert_eq!(split_line("ab\"c,d\"e,f", ','), strings(&["abc,de", "f"]));
    // an unclosed quote runs to the end of the line
    assert_eq!(split_line("\"open,still", ','), strings(&["open,still"]));
    // outside quotes a doubled quote is an empty quoted run
    assert_eq!(split_line("a\"\"b", ','), strings(&["ab"]));
}

#[test]
fn written_fields_split_back() {
    // quoted fields come back whatever they hold
    let fields = ["plain", "with,comma", "with \"quote\"", ""];
    let written: Vec<String> =
        fields.iter().map(|f| format!("\"{}\"", f.replace('"', "\"\""))).collect();
    assert_eq!(split_line(&written.join(","), ','), strings(&fields));
    // plain fields come back as they are
    let plain = ["a", "b c", "", "d"];
    assert_eq!(split_line(&plain.join(";"), ';'), strings(&plain));
}

#[test]
fn parse_csv_splits_lines() {
    let rows = parse_csv("h1,h2\r\nv1,\"v,2\"\n\nlast", ',');
    assert_eq!(
        rows,
        vec![strings(&["h1", "h2"]), strings(&["v1", "v,2"]), strings(&[""]), strings(&["last"])]
    );
    assert_eq!(parse_csv("", ','), Vec::<Vec<String>>::new());
    assert_eq!(parse_csv("a\n", ','), vec![strings(&["a"])]);
}

#[test]
fn separators_by_extension() {
    assert_eq!(csv_separator("csv"), Some(','));
    assert_eq!(csv_separator("tsv"), Some('\t'));
    assert_eq!(csv_separator("xlsx"), None);
    assert_eq!(csv_separator("CSV"), None);
}

#[test]
fn fit_pads_or_cuts() {
    assert_eq!(fit("abc", 3), "abc");
    assert_eq!(fit("ab", 5), "ab   ");
    assert_eq!(fit("", 2), "  ");
    // the cut keeps w - 1 cells and marks the cut, then one more mark follows
    assert_eq!(fit("abcdef", 4), "ab\u{2026}\x1b[0m\u{2026}");
    assert_eq!(fit("abcdef", 1), "\x1b[0m\u{2026}");
}

#[test]
fn format_table_aligns_columns() {
    let rows = vec![strings(&["a", "bb"]), strings(&["ccc"])];
    assert_eq!(format_table(&rows), "\x1b[1ma    bb\x1b[0m\nccc\n");
    assert_eq!(format_table(&vec![]), "(empty)");
    let rows = vec![strings(&["name", "qty"]), strings(&["apple", "3"]), strings(&["fig", "12"])];
    assert_eq!(
        format_table(&rows),
        "\x1b[1mname   qty\x1b[0m\napple  3\nfig    12\n"
    );
}

#[test]
fn format_table_caps_wide_columns() {
    let wide = "x".repeat(40);
    let rows = vec![strings(&["h"]), vec![wide.clone()]];
    let cut = format!("{}\u{2026}\x1b[0m\u{2026}", "x".repeat(26));
    assert_eq!(format_table(&rows), format!("\x1b[1mh\x1b[0m\n{}\n", cut));
}

#[test]
fn render_table_reports_read_errors() {
    assert_eq!(render_table(Err("zip error")), "cannot read spreadsheet: zip error");
    let rows = vec![strings(&["k"]), strings(&["v"])];
    assert_eq!(render_table(Ok(&rows)), "\x1b[1mk\x1b[0m\nv\n");
}

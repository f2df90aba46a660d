use viewer::ui::{
    ai_edit_prompt, edit_words, editor_value, editor_variable, first_pick, footer_line, help_geometry,
    help_text, help_widths, key_action, pane_layout, pick_list_path, title_line, wraps, Action,
};
use viewer::Kind;

fn strings(v: &[&str]) -> Vec<String> {
    v.iter().map(|s| s.to_string()).collect()
}

#[test]
fn editor_command_words() {
    assert_eq!(edit_words(None), Some(strings(&["xdg-open"])));
    assert_eq!(edit_words(Some("  grid  --tab ")), Some(strings(&["grid", "--tab"])));
    assert_eq!(edit_words(Some("   ")), None);
    assert_eq!(edit_words(Some("")), None);
}

#[test]
fn editor_variables() {
    assert_eq!(editor_variable("$EDITOR"), Some("EDITOR".to_string()));
    assert_eq!(editor_variable("$"), Some(String::new()));
    assert_eq!(editor_variable("vim"), None);
    assert_eq!(editor_value(Some("nano")), "nano");
    assert_eq!(editor_value(Some("")), "vim");
    assert_eq!(editor_value(None), "vim");
}

#[test]
fn ai_edit_prompts() {
    assert_eq!(
        ai_edit_prompt("/d/a.docx", "  ", false),
        "Edit the file /d/a.docx, preserving its existing layout and formatting. Ask me what changes I want."
    );
    assert_eq!(
        ai_edit_prompt("/d/a.docx", " fix typos \n", false),
        "Edit the file /d/a.docx \u{2014} fix typos. Preserve its existing layout and formatting as much as possible."
    );
    assert_eq!(
        ai_edit_prompt("/d/t.pptx", "", true),
        "Edit the file /d/t.pptx, preserving its existing layout and formatting. Ask me what changes I want. \
         This is a slide deck. After each change you make to it, run `slidepreview /d/t.pptx` in the shell \
         so my live PDF preview refreshes. Run it once now to show the current state."
    );
}

#[test]
fn title_and_footer() {
    assert_eq!(
        title_line("a.csv", Kind::Table),
        " \x1b[1ma.csv\x1b[0m   \x1b[38;5;11;1mtable\x1b[0m"
    );
    assert_eq!(
        footer_line("", true, "0.3.1"),
        " j/k scroll  e edit  c AI edit  x open  o browse  ? keys  q quit   viewer 0.3.1"
    );
    assert_eq!(
        footer_line("", false, "1"),
        " j/k scroll  e open  c AI edit  x open  o browse  ? keys  q quit   viewer 1"
    );
    assert_eq!(footer_line("saved", true, "1"), " saved");
}

#[test]
fn help_popup_geometry() {
    assert_eq!(help_geometry(80, 24, 40, 9), (19, 6, 44, 14));
    // narrow screens still get the minimum size
    assert_eq!(help_geometry(10, 4, 40, 9), (1, 1, 24, 6));
    // short content is widened to 24
    assert_eq!(help_geometry(100, 50, 5, 1), (39, 23, 24, 6));
}

#[test]
fn help_popup_text() {
    let keys: &[(&str, &str)] = &[("q", "quit"), ("PgUp", "page up")];
    let (kw, cw) = help_widths(keys);
    assert_eq!((kw, cw), (4, 13));
    let expected = "\x1b[38;5;11;1m viewer \u{2014} keys\x1b[0m\n\n \x1b[38;5;14;1m   q\x1b[0m  quit\n \
                    \x1b[38;5;14;1mPgUp\x1b[0m  page up\n\n Press any key to close.";
    assert_eq!(help_text(keys, kw), expected);
    assert_eq!(help_widths(&[]), (8, 30));
}

#[test]
fn keys_map_to_actions() {
    assert_eq!(key_action("q"), Action::Quit);
    assert_eq!(key_action("ESC"), Action::Quit);
    assert_eq!(key_action("j"), Action::LineDown);
    assert_eq!(key_action("DOWN"), Action::LineDown);
    assert_eq!(key_action("k"), Action::LineUp);
    assert_eq!(key_action("UP"), Action::LineUp);
    assert_eq!(key_action(" "), Action::PageDown);
    assert_eq!(key_action("PgDOWN"), Action::PageDown);
    assert_eq!(key_action("b"), Action::PageUp);
    assert_eq!(key_action("PgUP"), Action::PageUp);
    assert_eq!(key_action("g"), Action::Top);
    assert_eq!(key_action("HOME"), Action::Top);
    assert_eq!(key_action("G"), Action::Bottom);
    assert_eq!(key_action("END"), Action::Bottom);
    assert_eq!(key_action("e"), Action::Edit);
    assert_eq!(key_action("ENTER"), Action::Edit);
    assert_eq!(key_action("c"), Action::AiEdit);
    assert_eq!(key_action("x"), Action::OpenExternal);
    assert_eq!(key_action("?"), Action::Help);
    assert_eq!(key_action("o"), Action::Browse);
    assert_eq!(key_action("RESIZE"), Action::Resize);
    assert_eq!(key_action("Q"), Action::Nothing);
    assert_eq!(key_action(""), Action::Nothing);
}

#[test]
fn prose_wraps() {
    assert!(wraps(Kind::Text));
    assert!(wraps(Kind::Doc));
    assert!(wraps(Kind::Slides));
    assert!(!wraps(Kind::Table));
    assert!(!wraps(Kind::Pdf));
    assert!(!wraps(Kind::Image));
    assert!(!wraps(Kind::Hex));
}

#[test]
fn panes_split_the_screen() {
    assert_eq!(pane_layout(80, 24), ((1, 1, 80, 1), (1, 2, 80, 22), (1, 24, 80, 1)));
    assert_eq!(pane_layout(10, 1), ((1, 1, 10, 1), (1, 2, 10, 0), (1, 1, 10, 1)));
}

#[test]
fn browser_picks() {
    assert_eq!(pick_list_path(4242), "/tmp/viewer_pick_4242.txt");
    assert_eq!(pick_list_path(0), "/tmp/viewer_pick_0.txt");
    assert_eq!(first_pick("\n  \n  /home/u/a.md  \n/b\n"), Some("/home/u/a.md".to_string()));
    assert_eq!(first_pick(""), None);
    assert_eq!(first_pick(" \n\t\n"), None);
}

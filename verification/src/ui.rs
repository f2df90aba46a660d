//! The text of the viewer's chrome: title and footer lines, the key-help
//! popup, the editor command line and the prompt for an AI edit.

use vstd::prelude::*;
use crate::registry::{Kind, label_of};
use crate::term::{bold, bold_colour, coded};
use crate::text::{
    chars_eq_str, lines, lines_exec, append_chars, append_str, chars_of, concat_all, string_of, string_views, trim, trim_exec, views, words,
    words_exec, slice_chars,
};

verus! {

// ---------------------------------------------------------------------------
// The editor command line.

/// The words of a handler's editor command; with no command the file is
/// handed to `xdg-open`, the system's default application.
pub open spec fn edit_words_of(edit: Option<Seq<char>>) -> Seq<Seq<char>> {
    match edit {
        Some(cmd) => words(cmd),
        None => words("xdg-open"@),
    }
}

/// The editor command line (without the file), or `None` when the command
/// has no words.
pub fn edit_words(edit: Option<&str>) -> (r: Option<Vec<String>>)
    ensures
        match r {
            Some(ws) => string_views(ws@) == edit_words_of(
                match edit {
                    Some(c) => Some(c@),
                    None => None,
                },
            ) && ws@.len() > 0,
            None => edit_words_of(
                match edit {
                    Some(c) => Some(c@),
                    None => None,
                },
            ).len() == 0,
        },
{
    let raw = match edit {
        Some(c) => chars_of(c),
        None => chars_of("xdg-open"),
    };
    let ws = words_exec(&raw);
    if ws.len() == 0 {
        return None;
    }
    let mut r: Vec<String> = Vec::new();
    let n = ws.len();
    for i in 0..n
        invariant
            n == ws@.len(),
            string_views(r@) == views(ws@).take(i as int),
    {
        let s = string_of(&ws[i]);
        let ghost o = string_views(r@);
        r.push(s);
        assert(string_views(r@) =~= o.push(s@));
        assert(views(ws@).take(i + 1) =~= views(ws@).take(i as int).push(ws@[i as int]@));
    }
    assert(views(ws@).take(n as int) =~= views(ws@));
    Some(r)
}

/// The environment variable a command word names with a leading `$`.
pub open spec fn variable_of(word: Seq<char>) -> Option<Seq<char>> {
    if word.len() > 0 && word[0] == '$' {
        Some(word.drop_first())
    } else {
        None
    }
}

/// The environment variable a command word names, if it starts with `$`.
pub fn editor_variable(word: &str) -> (r: Option<String>)
    ensures
        match r {
            Some(v) => variable_of(word@) == Some(v@),
            None => variable_of(word@) is None,
        },
{
    let w = chars_of(word);
    if w.len() > 0 && w[0] == '$' {
        let rest = slice_chars(&w, 1, w.len());
        assert(rest@ =~= w@.drop_first());
        Some(string_of(&rest))
    } else {
        None
    }
}

/// The editor a `$VAR` word stands for: the variable's value when it is
/// set and not empty, `vim` otherwise.
pub open spec fn editor_of(value: Option<Seq<char>>) -> Seq<char> {
    match value {
        Some(v) => if v.len() > 0 {
            v
        } else {
            "vim"@
        },
        None => "vim"@,
    }
}

/// The editor for a `$VAR` word, given the variable's value.
pub fn editor_value(value: Option<&str>) -> (r: String)
    ensures
        r@ == editor_of(
            match value {
                Some(v) => Some(v@),
                None => None,
            },
        ),
{
    match value {
        Some(v) => {
            let c = chars_of(v);
            if c.len() > 0 {
                string_of(&c)
            } else {
                string_of(&chars_of("vim"))
            }
        },
        None => string_of(&chars_of("vim")),
    }
}

// ---------------------------------------------------------------------------
// The AI edit prompt.

/// The prompt for an AI edit of `file` with the user's instruction; for a
/// slide deck it also asks to refresh the live PDF preview after each
/// change.
pub open spec fn prompt_text(file: Seq<char>, instruction: Seq<char>, slides: bool) -> Seq<char> {
    let t = trim(instruction);
    let base = if t.len() == 0 {
        "Edit the file "@ + file
            + ", preserving its existing layout and formatting. Ask me what changes I want."@
    } else {
        "Edit the file "@ + file + " \u{2014} "@ + t
            + ". Preserve its existing layout and formatting as much as possible."@
    };
    if slides {
        base
            + " This is a slide deck. After each change you make to it, run `slidepreview "@ + file
            + "` in the shell so my live PDF preview refreshes. Run it once now to show the current state."@
    } else {
        base
    }
}

/// The prompt that starts an AI edit of `file`.
pub fn ai_edit_prompt(file: &str, instruction: &str, slides: bool) -> (r: String)
    ensures
        r@ == prompt_text(file@, instruction@, slides),
{
    let t = trim_exec(&chars_of(instruction));
    let mut out = chars_of("Edit the file ");
    append_str(&mut out, file);
    if t.len() == 0 {
        append_str(
            &mut out,
            ", preserving its existing layout and formatting. Ask me what changes I want.",
        );
    } else {
        append_str(&mut out, " \u{2014} ");
        append_chars(&mut out, &t);
        append_str(&mut out, ". Preserve its existing layout and formatting as much as possible.");
    }
    if slides {
        append_str(
            &mut out,
            " This is a slide deck. After each change you make to it, run `slidepreview ",
        );
        append_str(&mut out, file);
        append_str(
            &mut out,
            "` in the shell so my live PDF preview refreshes. Run it once now to show the current state.",
        );
    }
    assert(out@ =~= prompt_text(file@, instruction@, slides));
    string_of(&out)
}

// ---------------------------------------------------------------------------
// Title and footer.

/// The title line: the file name in bold and the kind's label in bold
/// colour 11.
pub open spec fn title_text(name: Seq<char>, kind: Kind) -> Seq<char> {
    " "@ + bold(name) + "   "@ + bold_colour(label_of(kind), "11"@)
}

/// The title line for a file.
pub fn title_line(name: &str, kind: Kind) -> (r: String)
    ensures
        r@ == title_text(name@, kind),
{
    let mut out = chars_of(" ");
    let a = coded(name, ",,b");
    append_str(&mut out, a.as_str());
    append_str(&mut out, "   ");
    let b = coded(kind.label(), "11,,b");
    append_str(&mut out, b.as_str());
    assert(out@ =~= title_text(name@, kind));
    string_of(&out)
}

/// The footer line: the status message when there is one, else the key
/// hints (`e edit` when the format has an editor, `e open` otherwise) and
/// the version. The hint for `c` names the AI assistant generically, not
/// by product name.
pub open spec fn footer_text(status: Seq<char>, can_edit: bool, version: Seq<char>) -> Seq<char> {
    if status.len() == 0 {
        " j/k scroll  "@ + (if can_edit {
            "e edit"@
        } else {
            "e open"@
        }) + "  c AI edit  x open  o browse  ? keys  q quit   viewer "@ + version
    } else {
        " "@ + status
    }
}

/// The footer line.
pub fn footer_line(status: &str, can_edit: bool, version: &str) -> (r: String)
    ensures
        r@ == footer_text(status@, can_edit, version@),
{
    let st = chars_of(status);
    let mut out: Vec<char> = Vec::new();
    if st.len() == 0 {
        append_str(&mut out, " j/k scroll  ");
        if can_edit {
            append_str(&mut out, "e edit");
        } else {
            append_str(&mut out, "e open");
        }
        append_str(&mut out, "  c AI edit  x open  o browse  ? keys  q quit   viewer ");
        append_str(&mut out, version);
    } else {
        append_str(&mut out, " ");
        append_chars(&mut out, &st);
    }
    assert(out@ =~= footer_text(status@, can_edit, version@));
    string_of(&out)
}

// ---------------------------------------------------------------------------
// The key-help popup.

/// `a - b`, or 0 when `b` is larger (`saturating_sub`).
pub open spec fn minus_floor(a: int, b: int) -> int {
    if a >= b {
        a - b
    } else {
        0
    }
}

/// `x` kept within `lo..=hi` the way `x.min(hi).max(lo)` does (`lo` wins
/// when `hi < lo`).
pub open spec fn min_then_max(x: int, hi: int, lo: int) -> int {
    let m = if x < hi {
        x
    } else {
        hi
    };
    if m > lo {
        m
    } else {
        lo
    }
}

/// The popup's width and height on a `cols` by `rows` screen, for content
/// `content_width` columns wide with `key_count` key lines, and its
/// 1-based position, centred.
pub open spec fn help_box(cols: int, rows: int, content_width: int, key_count: int) -> (
    int,
    int,
    int,
    int,
) {
    let w = min_then_max(content_width + 4, minus_floor(cols, 2), 24);
    let h = min_then_max(key_count + 5, minus_floor(rows, 2), 6);
    (minus_floor(cols, w) / 2 + 1, minus_floor(rows, h) / 2 + 1, w, h)
}

/// The position and size of the key-help popup.
pub fn help_geometry(cols: u16, rows: u16, content_width: u16, key_count: u16) -> (r: (
    u16,
    u16,
    u16,
    u16,
))
    requires
        content_width <= u16::MAX - 4,
        key_count <= u16::MAX - 5,
    ensures
        (r.0 as int, r.1 as int, r.2 as int, r.3 as int) == help_box(
            cols as int,
            rows as int,
            content_width as int,
            key_count as int,
        ),
{
    let c2 = cols.saturating_sub(2);
    let r2 = rows.saturating_sub(2);
    let w0 = content_width + 4;
    let w1 = if w0 < c2 {
        w0
    } else {
        c2
    };
    let pw = if w1 > 24 {
        w1
    } else {
        24
    };
    let h0 = key_count + 5;
    let h1 = if h0 < r2 {
        h0
    } else {
        r2
    };
    let ph = if h1 > 6 {
        h1
    } else {
        6
    };
    let px = cols.saturating_sub(pw) / 2 + 1;
    let py = rows.saturating_sub(ph) / 2 + 1;
    (px, py, pw, ph)
}

/// A key-help entry as plain values: the keys and what they do.
pub open spec fn entry_views(keys: Seq<(&str, &str)>) -> Seq<(Seq<char>, Seq<char>)> {
    keys.map_values(|e: (&str, &str)| (e.0@, e.1@))
}

/// The longest `keys` column, in characters.
pub open spec fn longest_key(keys: Seq<(Seq<char>, Seq<char>)>) -> nat
    decreases keys.len(),
{
    if keys.len() == 0 {
        0
    } else {
        let m = longest_key(keys.drop_last());
        if keys.last().0.len() > m {
            keys.last().0.len()
        } else {
            m
        }
    }
}

/// The width of the keys column: the longest keys, or 8 with no entries.
pub open spec fn key_width(keys: Seq<(Seq<char>, Seq<char>)>) -> nat {
    if keys.len() == 0 {
        8
    } else {
        longest_key(keys)
    }
}

/// The longest entry line with keys `kw` wide.
pub open spec fn longest_line(keys: Seq<(Seq<char>, Seq<char>)>, kw: nat) -> nat
    decreases keys.len(),
{
    if keys.len() == 0 {
        0
    } else {
        let m = longest_line(keys.drop_last(), kw);
        let l = kw + 2 + keys.last().1.len();
        if l > m {
            l
        } else {
            m
        }
    }
}

/// The width of the popup's content: the longest entry line, or 30 with
/// no entries.
pub open spec fn content_width(keys: Seq<(Seq<char>, Seq<char>)>) -> nat {
    if keys.len() == 0 {
        30
    } else {
        longest_line(keys, key_width(keys))
    }
}

/// `s` right-aligned in `w` characters (`{:>w$}`).
pub open spec fn pad_left(s: Seq<char>, w: nat) -> Seq<char> {
    if s.len() >= w {
        s
    } else {
        Seq::new((w - s.len()) as nat, |i: int| ' ') + s
    }
}

/// One line of the popup: the keys right-aligned in bold colour 14, then
/// what they do.
pub open spec fn help_line(entry: (Seq<char>, Seq<char>), kw: nat) -> Seq<char> {
    " "@ + bold_colour(pad_left(entry.0, kw), "14"@) + "  "@ + entry.1 + seq!['\n']
}

/// The text of the key-help popup, keys right-aligned in `kw` characters
/// (the popup uses `key_width` of its entries).
pub open spec fn help_text_of(keys: Seq<(Seq<char>, Seq<char>)>, kw: nat) -> Seq<char> {
    bold_colour(" viewer \u{2014} keys"@, "11"@) + "\n\n"@ + concat_all(
        Seq::new(keys.len(), |i: int| help_line(keys[i], kw)),
    ) + "\n Press any key to close."@
}

/// The widths of the keys column and of the popup's content.
pub fn help_widths(keys: &[(&str, &str)]) -> (r: (usize, usize))
    requires
        forall|i: int, j: int|
            0 <= i < keys@.len() && 0 <= j < keys@.len() ==> #[trigger] keys@[i].0@.len() + 2
                + #[trigger] keys@[j].1@.len() <= usize::MAX,
    ensures
        r.0 == key_width(entry_views(keys@)),
        r.1 == content_width(entry_views(keys@)),
{
    let ghost ev = entry_views(keys@);
    let n = keys.len();
    if n == 0 {
        return (8, 30);
    }
    let mut kw: usize = 0;
    for i in 0..n
        invariant
            n == keys@.len(),
            ev == entry_views(keys@),
            kw == longest_key(ev.take(i as int)),
            forall|j: int| 0 <= j < i ==> ev[j].0.len() <= kw,
            i > 0 ==> exists|j: int| 0 <= j < i && ev[j].0.len() == kw,
            i == 0 ==> kw == 0,
    {
        let l = chars_of(keys[i].0).len();
        assert(ev.take(i + 1).drop_last() =~= ev.take(i as int));
        assert(ev[i as int].0 == keys@[i as int].0@);
        if l > kw {
            kw = l;
        }
    }
    assert(ev.take(n as int) =~= ev);
    let mut cw: usize = 0;
    for i in 0..n
        invariant
            n == keys@.len(),
            n > 0,
            ev == entry_views(keys@),
            kw == key_width(ev),
            exists|j: int| 0 <= j < n && ev[j].0.len() == kw,
            forall|a: int, b: int|
                0 <= a < keys@.len() && 0 <= b < keys@.len() ==> #[trigger] keys@[a].0@.len() + 2
                    + #[trigger] keys@[b].1@.len() <= usize::MAX,
            cw == longest_line(ev.take(i as int), kw as nat),
    {
        let l = chars_of(keys[i].1).len();
        assert(ev.take(i + 1).drop_last() =~= ev.take(i as int));
        assert(ev[i as int].1 == keys@[i as int].1@);
        let ghost j = choose|j: int| 0 <= j < n && ev[j].0.len() == kw;
        assert(keys@[j].0@.len() + 2 + keys@[i as int].1@.len() <= usize::MAX);
        let line = kw + 2 + l;
        if line > cw {
            cw = line;
        }
    }
    assert(ev.take(n as int) =~= ev);
    (kw, cw)
}

/// The text of the key-help popup for the given entries, with a keys
/// column `kw` characters wide.
pub fn help_text(keys: &[(&str, &str)], kw: usize) -> (r: String)
    ensures
        r@ == help_text_of(entry_views(keys@), kw as nat),
{
    let ghost ev = entry_views(keys@);
    let ghost ls = Seq::new(ev.len(), |i: int| help_line(ev[i], kw as nat));
    let title = coded(" viewer \u{2014} keys", "11,,b");
    let mut out = chars_of(title.as_str());
    append_str(&mut out, "\n\n");
    let ghost head = out@;
    let n = keys.len();
    for i in 0..n
        invariant
            n == keys@.len(),
            ev == entry_views(keys@),
            ls == Seq::new(ev.len(), |i: int| help_line(ev[i], kw as nat)),
            out@ == head + concat_all(ls.take(i as int)),
    {
        let k = chars_of(keys[i].0);
        let mut padded: Vec<char> = Vec::new();
        let kl = k.len();
        if kl < kw {
            let pad = kw - kl;
            for j in 0..pad
                invariant
                    padded@ == Seq::new(j as nat, |x: int| ' '),
            {
                padded.push(' ');
                assert(padded@ =~= Seq::new((j + 1) as nat, |x: int| ' '));
            }
        }
        append_chars(&mut padded, &k);
        assert(ev[i as int] == (keys@[i as int].0@, keys@[i as int].1@));
        assert(padded@ =~= pad_left(ev[i as int].0, kw as nat));
        let ghost before = out@;
        append_str(&mut out, " ");
        let ps = string_of(&padded);
        let styled = coded(ps.as_str(), "14,,b");
        append_str(&mut out, styled.as_str());
        append_str(&mut out, "  ");
        append_str(&mut out, keys[i].1);
        out.push('\n');
        assert(ls.take(i + 1).drop_last() =~= ls.take(i as int));
        assert(ls[i as int] == help_line(ev[i as int], kw as nat));
        assert(styled@ == bold_colour(pad_left(ev[i as int].0, kw as nat), "14"@));
        assert(out@ =~= before + (" "@ + styled@ + "  "@ + ev[i as int].1 + seq!['\n']));
        assert(out@ =~= before + ls[i as int]);
    }
    assert(ls.take(n as int) =~= ls);
    append_str(&mut out, "\n Press any key to close.");
    assert(out@ =~= help_text_of(ev, kw as nat));
    string_of(&out)
}

// ---------------------------------------------------------------------------
// Keys, panes and the file browser.

/// What a key press does in the viewer.
#[derive(Clone, Copy, Debug, PartialEq, Eq, Structural)]
pub enum Action {
    Quit,
    LineDown,
    LineUp,
    PageDown,
    PageUp,
    Top,
    Bottom,
    Edit,
    AiEdit,
    OpenExternal,
    Help,
    Browse,
    Resize,
    Nothing,
}

/// The action bound to a key, by the key's name as the terminal library
/// reports it.
pub open spec fn action_for(key: Seq<char>) -> Action {
    if key == "q"@ || key == "ESC"@ {
        Action::Quit
    } else if key == "j"@ || key == "DOWN"@ {
        Action::LineDown
    } else if key == "k"@ || key == "UP"@ {
        Action::LineUp
    } else if key == "PgDOWN"@ || key == " "@ {
        Action::PageDown
    } else if key == "PgUP"@ || key == "b"@ {
        Action::PageUp
    } else if key == "g"@ || key == "HOME"@ {
        Action::Top
    } else if key == "G"@ || key == "END"@ {
        Action::Bottom
    } else if key == "e"@ || key == "ENTER"@ {
        Action::Edit
    } else if key == "c"@ {
        Action::AiEdit
    } else if key == "x"@ {
        Action::OpenExternal
    } else if key == "?"@ {
        Action::Help
    } else if key == "o"@ {
        Action::Browse
    } else if key == "RESIZE"@ {
        Action::Resize
    } else {
        Action::Nothing
    }
}

/// The action for a key press.
pub fn key_action(key: &str) -> (r: Action)
    ensures
        r == action_for(key@),
{
    let k = chars_of(key);
    if chars_eq_str(&k, "q") || chars_eq_str(&k, "ESC") {
        Action::Quit
    } else if chars_eq_str(&k, "j") || chars_eq_str(&k, "DOWN") {
        Action::LineDown
    } else if chars_eq_str(&k, "k") || chars_eq_str(&k, "UP") {
        Action::LineUp
    } else if chars_eq_str(&k, "PgDOWN") || chars_eq_str(&k, " ") {
        Action::PageDown
    } else if chars_eq_str(&k, "PgUP") || chars_eq_str(&k, "b") {
        Action::PageUp
    } else if chars_eq_str(&k, "g") || chars_eq_str(&k, "HOME") {
        Action::Top
    } else if chars_eq_str(&k, "G") || chars_eq_str(&k, "END") {
        Action::Bottom
    } else if chars_eq_str(&k, "e") || chars_eq_str(&k, "ENTER") {
        Action::Edit
    } else if chars_eq_str(&k, "c") {
        Action::AiEdit
    } else if chars_eq_str(&k, "x") {
        Action::OpenExternal
    } else if chars_eq_str(&k, "?") {
        Action::Help
    } else if chars_eq_str(&k, "o") {
        Action::Browse
    } else if chars_eq_str(&k, "RESIZE") {
        Action::Resize
    } else {
        Action::Nothing
    }
}

/// Whether the body wraps long lines for a kind: prose does, tables, hex
/// dumps and images do not.
pub open spec fn wraps_lines(kind: Kind) -> bool {
    kind == Kind::Text || kind == Kind::Doc || kind == Kind::Slides
}

/// Whether the body wraps long lines when showing `kind`.
pub fn wraps(kind: Kind) -> (r: bool)
    ensures
        r == wraps_lines(kind),
{
    match kind {
        Kind::Text | Kind::Doc | Kind::Slides => true,
        _ => false,
    }
}

/// The panes of a `w` by `h` screen as (x, y, width, height), 1-based: a
/// title line on top, the body, and a footer line at the bottom.
pub fn pane_layout(w: u16, h: u16) -> (r: ((u16, u16, u16, u16), (u16, u16, u16, u16), (
    u16,
    u16,
    u16,
    u16,
)))
    ensures
        r.0 == (1u16, 1u16, w, 1u16),
        r.1 == (1u16, 2u16, w, minus_floor(h as int, 2) as u16),
        r.2 == (1u16, h, w, 1u16),
{
    ((1, 1, w, 1), (1, 2, w, h.saturating_sub(2)), (1, h, w, 1))
}

/// The file the browser writes its picks to, named by the process id.
pub open spec fn pick_list_path_of(pid: nat) -> Seq<char> {
    "/tmp/viewer_pick_"@ + crate::fmt::digits(pid, 10) + ".txt"@
}

/// The pick-list file for process `pid`.
pub fn pick_list_path(pid: u32) -> (r: String)
    ensures
        r@ == pick_list_path_of(pid as nat),
{
    let mut out = chars_of("/tmp/viewer_pick_");
    let ds = crate::fmt::digits_exec(pid as u64, 10);
    append_chars(&mut out, &ds);
    append_str(&mut out, ".txt");
    string_of(&out)
}

/// The first of `ls` that is not blank, trimmed.
pub open spec fn first_nonblank(ls: Seq<Seq<char>>) -> Option<Seq<char>>
    decreases ls.len(),
{
    if ls.len() == 0 {
        None
    } else if trim(ls[0]).len() > 0 {
        Some(trim(ls[0]))
    } else {
        first_nonblank(ls.drop_first())
    }
}

/// The path the browser picked: the first line of its pick list that is
/// not blank, trimmed; none when every line is blank.
pub fn first_pick(list: &str) -> (r: Option<String>)
    ensures
        match r {
            Some(p) => first_nonblank(lines(list@)) == Some(p@),
            None => first_nonblank(lines(list@)) is None,
        },
{
    let ls = lines_exec(&chars_of(list));
    let ghost lv = views(ls@);
    let n = ls.len();
    let mut i: usize = 0;
    assert(lv.subrange(0, n as int) =~= lv);
    while i < n
        invariant
            n == ls@.len(),
            lv == views(ls@),
            lv == lines(list@),
            i <= n,
            first_nonblank(lv) == first_nonblank(lv.subrange(i as int, n as int)),
        decreases n - i,
    {
        let t = trim_exec(&ls[i]);
        assert(lv.subrange(i as int, n as int).drop_first() =~= lv.subrange(i + 1, n as int));
        if t.len() > 0 {
            return Some(string_of(&t));
        }
        i = i + 1;
    }
    None
}

} // verus!

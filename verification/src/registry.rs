//! The format registry: which view kind and which editor command belong to
//! a file extension. Shipped with defaults and extended or overridden by a
//! plain config file of lines `ext  kind  edit-command` (`-` for no editor,
//! `#` for comments).

use vstd::prelude::*;
use crate::paths::{ext_of, ext_chars, path_extension};
use crate::text::{
    lemma_split_concat, lemma_split_no_sep, lemma_lower_idempotent, chars_of, chars_eq, chars_eq_str, join, join_exec, lower, split, split_exec, to_lower, trim,
    trim_exec, views, words, words_exec, string_of,
};

verus! {

/// How a file is rendered read-only.
#[derive(Clone, Copy, Debug, PartialEq, Eq, Structural)]
pub enum Kind {
    /// UTF-8 text (markdown, plain text, source code, HyperList).
    Text,
    /// Spreadsheets: csv and tsv natively, xlsx and ods through calamine.
    Table,
    /// Word processor documents, through pandoc.
    Doc,
    /// Presentations: a text outline of the slides.
    Slides,
    /// PDF, through pdftotext.
    Pdf,
    /// Images, drawn inline.
    Image,
    /// The fallback hex dump for binary files.
    Hex,
}

/// The word shown for a kind in the title bar.
pub open spec fn label_of(kind: Kind) -> Seq<char> {
    match kind {
        Kind::Text => "text"@,
        Kind::Table => "table"@,
        Kind::Doc => "document"@,
        Kind::Slides => "slides"@,
        Kind::Pdf => "pdf"@,
        Kind::Image => "image"@,
        Kind::Hex => "binary"@,
    }
}

/// The kind a config file names with the (already lowercase) word `name`.
pub open spec fn kind_named(name: Seq<char>) -> Option<Kind> {
    if name == "text"@ {
        Some(Kind::Text)
    } else if name == "table"@ {
        Some(Kind::Table)
    } else if name == "doc"@ {
        Some(Kind::Doc)
    } else if name == "slides"@ {
        Some(Kind::Slides)
    } else if name == "pdf"@ {
        Some(Kind::Pdf)
    } else if name == "image"@ {
        Some(Kind::Image)
    } else if name == "hex"@ {
        Some(Kind::Hex)
    } else {
        None
    }
}

/// The kind a config file names with `word`, in any ASCII case.
pub open spec fn parse_kind(word: Seq<char>) -> Option<Kind> {
    kind_named(lower(word))
}

impl Kind {
    /// The kind named by a config word, case-insensitively.
    pub fn parse(s: &str) -> (r: Option<Kind>)
        ensures
            r == parse_kind(s@),
    {
        let cs = chars_of(s);
        Self::parse_chars(&cs)
    }

    fn parse_chars(s: &Vec<char>) -> (r: Option<Kind>)
        ensures
            r == parse_kind(s@),
    {
        let l = to_lower(s);
        if chars_eq_str(&l, "text") {
            Some(Kind::Text)
        } else if chars_eq_str(&l, "table") {
            Some(Kind::Table)
        } else if chars_eq_str(&l, "doc") {
            Some(Kind::Doc)
        } else if chars_eq_str(&l, "slides") {
            Some(Kind::Slides)
        } else if chars_eq_str(&l, "pdf") {
            Some(Kind::Pdf)
        } else if chars_eq_str(&l, "image") {
            Some(Kind::Image)
        } else if chars_eq_str(&l, "hex") {
            Some(Kind::Hex)
        } else {
            None
        }
    }

    /// The word shown for this kind in the title bar.
    pub fn label(self) -> (r: &'static str)
        ensures
            r@ == label_of(self),
    {
        match self {
            Kind::Text => "text",
            Kind::Table => "table",
            Kind::Doc => "document",
            Kind::Slides => "slides",
            Kind::Pdf => "pdf",
            Kind::Image => "image",
            Kind::Hex => "binary",
        }
    }
}

/// What the viewer does with one kind of file: how it renders it, and the
/// editor command line (without the file argument) that `e` launches;
/// `None` means view-only. A leading `$VAR` in the command names an
/// environment variable.
pub struct Handler {
    pub kind: Kind,
    pub edit: Option<String>,
}

/// A handler as plain values: its kind and its editor command.
pub type HandlerView = (Kind, Option<Seq<char>>);

impl View for Handler {
    type V = HandlerView;

    open spec fn view(&self) -> HandlerView {
        (
            self.kind,
            match self.edit {
                Some(s) => Some(s@),
                None => None,
            },
        )
    }
}

impl Clone for Handler {
    fn clone(&self) -> (r: Self)
        ensures
            r@ == self@,
    {
        Handler {
            kind: self.kind,
            edit: match &self.edit {
                Some(s) => Some(s.clone()),
                None => None,
            },
        }
    }
}

/// One registry entry: a lowercase extension and its handler.
struct Entry {
    ext: Vec<char>,
    handler: Handler,
}

/// The map that a list of entries stands for; a later entry for the same
/// extension wins.
spec fn entry_map(es: Seq<Entry>) -> Map<Seq<char>, HandlerView>
    decreases es.len(),
{
    if es.len() == 0 {
        Map::empty()
    } else {
        entry_map(es.drop_last()).insert(es.last().ext@, es.last().handler@)
    }
}

/// No two entries share an extension.
spec fn distinct_exts(es: Seq<Entry>) -> bool {
    forall|i: int, j: int| 0 <= i < es.len() && 0 <= j < es.len() && i != j ==> es[i].ext@ != es[j].ext@
}

/// The table from file extension to handler.
pub struct Registry {
    entries: Vec<Entry>,
}

impl View for Registry {
    type V = Map<Seq<char>, HandlerView>;

    closed spec fn view(&self) -> Map<Seq<char>, HandlerView> {
        entry_map(self.entries@)
    }
}

proof fn lemma_entry_map_dom(es: Seq<Entry>, k: Seq<char>)
    ensures
        entry_map(es).dom().contains(k) <==> exists|i: int| 0 <= i < es.len() && es[i].ext@ == k,
    decreases es.len(),
{
    if es.len() > 0 {
        let d = es.drop_last();
        lemma_entry_map_dom(d, k);
        if exists|i: int| 0 <= i < d.len() && d[i].ext@ == k {
            let i = choose|i: int| 0 <= i < d.len() && d[i].ext@ == k;
            assert(es[i].ext@ == k);
        }
        if exists|i: int| 0 <= i < es.len() && es[i].ext@ == k {
            let i = choose|i: int| 0 <= i < es.len() && es[i].ext@ == k;
            if i < es.len() - 1 {
                assert(d[i].ext@ == k);
            }
        }
    }
}

proof fn lemma_entry_map_get(es: Seq<Entry>, i: int)
    requires
        distinct_exts(es),
        0 <= i < es.len(),
    ensures
        entry_map(es).dom().contains(es[i].ext@),
        entry_map(es)[es[i].ext@] == es[i].handler@,
    decreases es.len(),
{
    let d = es.drop_last();
    if i < es.len() - 1 {
        assert(es[i].ext@ != es.last().ext@);
        assert(d[i] == es[i]);
        lemma_entry_map_get(d, i);
    }
}

proof fn lemma_entry_map_update(es: Seq<Entry>, i: int, e: Entry)
    requires
        distinct_exts(es),
        0 <= i < es.len(),
        e.ext@ == es[i].ext@,
    ensures
        distinct_exts(es.update(i, e)),
        entry_map(es.update(i, e)) == entry_map(es).insert(e.ext@, e.handler@),
    decreases es.len(),
{
    let u = es.update(i, e);
    assert(distinct_exts(u)) by {
        assert forall|a: int, b: int| 0 <= a < u.len() && 0 <= b < u.len() && a != b implies u[a].ext@ != u[b].ext@ by {
            assert(es[a].ext@ != es[b].ext@);
        }
    }
    let d = es.drop_last();
    if i == es.len() - 1 {
        assert(u.drop_last() =~= d);
        assert(!entry_map(d).dom().contains(e.ext@)) by {
            lemma_entry_map_dom(d, e.ext@);
            if exists|j: int| 0 <= j < d.len() && d[j].ext@ == e.ext@ {
                let j = choose|j: int| 0 <= j < d.len() && d[j].ext@ == e.ext@;
                assert(es[j].ext@ == es[i].ext@);
            }
        }
        assert(entry_map(u) =~= entry_map(es).insert(e.ext@, e.handler@));
    } else {
        assert(distinct_exts(d)) by {
            assert forall|a: int, b: int| 0 <= a < d.len() && 0 <= b < d.len() && a != b implies d[a].ext@ != d[b].ext@ by {
                assert(es[a].ext@ != es[b].ext@);
            }
        }
        assert(d[i] == es[i]);
        lemma_entry_map_update(d, i, e);
        assert(u.drop_last() =~= d.update(i, e));
        assert(u.last() == es.last());
        assert(es.last().ext@ != e.ext@) by {
            assert(es[es.len() - 1].ext@ != es[i].ext@);
        }
        assert(entry_map(u) =~= entry_map(es).insert(e.ext@, e.handler@));
    }
}

impl Registry {
    #[verifier::type_invariant]
    spec fn inv(self) -> bool {
        distinct_exts(self.entries@)
    }

    /// A registry with no entries.
    fn empty() -> (r: Registry)
        ensures
            r@ == Map::<Seq<char>, HandlerView>::empty(),
    {
        let r = Registry { entries: Vec::new() };
        assert(r@ =~= Map::<Seq<char>, HandlerView>::empty());
        r
    }

    /// Sets the handler of `key`, replacing any earlier one.
    fn set(&mut self, key: Vec<char>, handler: Handler)
        ensures
            final(self)@ == old(self)@.insert(key@, handler@),
    {
        proof {
            use_type_invariant(&*self);
        }
        let mut es: Vec<Entry> = Vec::new();
        std::mem::swap(&mut es, &mut self.entries);
        let ghost es0 = es@;
        let mut found: Option<usize> = None;
        let n = es.len();
        for i in 0..n
            invariant
                n == es@.len(),
                es@ == es0,
                found is None ==> forall|j: int| 0 <= j < i ==> es@[j].ext@ != key@,
                found matches Some(f) ==> f < n && es@[f as int].ext@ == key@,
        {
            if found.is_none() && chars_eq(&es[i].ext, &key) {
                found = Some(i);
            }
        }
        let e = Entry { ext: key, handler };
        match found {
            Some(f) => {
                proof {
                    lemma_entry_map_update(es@, f as int, e);
                }
                es.set(f, e);
            },
            None => {
                es.push(e);
                assert(es@.drop_last() =~= es0);
                assert(distinct_exts(es@)) by {
                    assert forall|a: int, b: int| 0 <= a < es@.len() && 0 <= b < es@.len() && a != b implies es@[a].ext@ != es@[b].ext@ by {
                        if a < es0.len() && b < es0.len() {
                            assert(es0[a].ext@ != es0[b].ext@);
                        }
                    }
                }
            },
        }
        self.entries = es;
    }

    /// The handler for `key`, if there is one.
    fn get(&self, key: &Vec<char>) -> (r: Option<&Handler>)
        ensures
            match r {
                Some(h) => self@.dom().contains(key@) && self@[key@] == h@,
                None => !self@.dom().contains(key@),
            },
    {
        proof {
            use_type_invariant(self);
        }
        let n = self.entries.len();
        for i in 0..n
            invariant
                n == self.entries@.len(),
                distinct_exts(self.entries@),
                forall|j: int| 0 <= j < i ==> self.entries@[j].ext@ != key@,
        {
            if chars_eq(&self.entries[i].ext, key) {
                proof {
                    lemma_entry_map_get(self.entries@, i as int);
                }
                return Some(&self.entries[i].handler);
            }
        }
        proof {
            lemma_entry_map_dom(self.entries@, key@);
        }
        None
    }
}

/// An editor command as a handler field.
pub fn edit(cmd: &str) -> (r: Option<String>)
    ensures
        r matches Some(s) && s@ == cmd@,
{
    let cs = chars_of(cmd);
    Some(string_of(&cs))
}

/// The character sequences of a list of string slices.
pub open spec fn strs(xs: Seq<&str>) -> Seq<Seq<char>> {
    xs.map_values(|x: &str| x@)
}

/// `m` with every extension of `exts` mapped to `h`, in order.
pub open spec fn add_all(
    m: Map<Seq<char>, HandlerView>,
    exts: Seq<Seq<char>>,
    h: HandlerView,
) -> Map<Seq<char>, HandlerView>
    decreases exts.len(),
{
    if exts.len() == 0 {
        m
    } else {
        add_all(m, exts.drop_last(), h).insert(exts.last(), h)
    }
}

/// The handler view of a kind and an optional editor command.
pub open spec fn handler_of(kind: Kind, e: Option<Seq<char>>) -> HandlerView {
    (kind, e)
}

/// The table the viewer ships with.
pub open spec fn default_map() -> Map<Seq<char>, HandlerView> {
    let m = Map::<Seq<char>, HandlerView>::empty();
    let m = add_all(m, seq!["csv"@, "tsv"@], handler_of(Kind::Table, Some("grid"@)));
    let m = add_all(
        m,
        seq!["xlsx"@, "xlsm"@, "xlsb"@, "xls"@, "ods"@],
        handler_of(Kind::Table, Some("grid"@)),
    );
    let m = add_all(
        m,
        seq!["md"@, "markdown"@, "txt"@, "text"@, "hl"@],
        handler_of(Kind::Text, Some("scribe"@)),
    );
    let m = add_all(
        m,
        seq![
            "rs"@, "py"@, "sh"@, "bash"@, "js"@, "ts"@, "c"@, "h"@, "cpp"@, "rb"@, "go"@,
            "lua"@, "vim"@, "toml"@, "json"@, "yaml"@, "yml"@, "conf"@, "ini"@, "css"@,
            "html"@, "xml"@,
        ],
        handler_of(Kind::Text, Some("$EDITOR"@)),
    );
    let m = add_all(m, seq!["docx"@, "odt"@], handler_of(Kind::Doc, None));
    let m = add_all(m, seq!["pptx"@, "odp"@], handler_of(Kind::Slides, None));
    let m = add_all(m, seq!["pdf"@], handler_of(Kind::Pdf, None));
    let m = add_all(
        m,
        seq!["png"@, "jpg"@, "jpeg"@, "gif"@, "webp"@, "bmp"@],
        handler_of(Kind::Image, None),
    );
    m
}

/// Maps each of `exts` to a handler of `kind` with editor command `e`.
fn add_exts(m: &mut Registry, exts: &[&str], kind: Kind, e: Option<String>)
    ensures
        final(m)@ == add_all(
            old(m)@,
            strs(exts@),
            handler_of(
                kind,
                match e {
                    Some(s) => Some(s@),
                    None => None,
                },
            ),
        ),
{
    let h = Handler { kind, edit: e };
    let ghost m0 = m@;
    let n = exts.len();
    for i in 0..n
        invariant
            n == exts@.len(),
            m@ == add_all(m0, strs(exts@).take(i as int), h@),
    {
        let key = chars_of(exts[i]);
        m.set(key, h.clone());
        assert(strs(exts@).take(i + 1).drop_last() =~= strs(exts@).take(i as int));
    }
    assert(strs(exts@).take(n as int) =~= strs(exts@));
}

/// The registry the viewer ships with.
pub fn defaults() -> (r: Registry)
    ensures
        r@ == default_map(),
{
    let mut m = Registry::empty();
    let a: &[&str] = &["csv", "tsv"];
    assert(strs(a@) =~= seq!["csv"@, "tsv"@]);
    add_exts(&mut m, a, Kind::Table, edit("grid"));
    let a: &[&str] = &["xlsx", "xlsm", "xlsb", "xls", "ods"];
    assert(strs(a@) =~= seq!["xlsx"@, "xlsm"@, "xlsb"@, "xls"@, "ods"@]);
    add_exts(&mut m, a, Kind::Table, edit("grid"));
    let a: &[&str] = &["md", "markdown", "txt", "text", "hl"];
    assert(strs(a@) =~= seq!["md"@, "markdown"@, "txt"@, "text"@, "hl"@]);
    add_exts(&mut m, a, Kind::Text, edit("scribe"));
    let a: &[&str] = &[
        "rs", "py", "sh", "bash", "js", "ts", "c", "h", "cpp", "rb", "go", "lua", "vim", "toml",
        "json", "yaml", "yml", "conf", "ini", "css", "html", "xml",
    ];
    assert(strs(a@) =~= seq![
        "rs"@, "py"@, "sh"@, "bash"@, "js"@, "ts"@, "c"@, "h"@, "cpp"@, "rb"@, "go"@,
        "lua"@, "vim"@, "toml"@, "json"@, "yaml"@, "yml"@, "conf"@, "ini"@, "css"@,
        "html"@, "xml"@,
    ]);
    add_exts(&mut m, a, Kind::Text, edit("$EDITOR"));
    let a: &[&str] = &["docx", "odt"];
    assert(strs(a@) =~= seq!["docx"@, "odt"@]);
    add_exts(&mut m, a, Kind::Doc, None);
    let a: &[&str] = &["pptx", "odp"];
    assert(strs(a@) =~= seq!["pptx"@, "odp"@]);
    add_exts(&mut m, a, Kind::Slides, None);
    let a: &[&str] = &["pdf"];
    assert(strs(a@) =~= seq!["pdf"@]);
    add_exts(&mut m, a, Kind::Pdf, None);
    let a: &[&str] = &["png", "jpg", "jpeg", "gif", "webp", "bmp"];
    assert(strs(a@) =~= seq!["png"@, "jpg"@, "jpeg"@, "gif"@, "webp"@, "bmp"@]);
    add_exts(&mut m, a, Kind::Image, None);
    m
}

/// What one config line says: the lowercase extension and its handler, or
/// nothing for a blank line, a `#` comment, a line of fewer than two words,
/// or an unknown kind. Words after the kind form the editor command; a
/// lone `-` (or none) leaves the format view-only.
pub open spec fn config_entry(line: Seq<char>) -> Option<(Seq<char>, HandlerView)> {
    let t = trim(line);
    let w = words(t);
    if t.len() == 0 || t[0] == '#' || w.len() < 2 {
        None
    } else {
        match parse_kind(w[1]) {
            None => None,
            Some(kind) => {
                let rest = join(w.subrange(2, w.len() as int), seq![' ']);
                Some(
                    (
                        lower(w[0]),
                        (
                            kind,
                            if rest.len() == 0 || rest == seq!['-'] {
                                None
                            } else {
                                Some(rest)
                            },
                        ),
                    ),
                )
            },
        }
    }
}

/// `m` after applying each of `lines` in order; a later line for the same
/// extension wins.
pub open spec fn apply_lines(
    m: Map<Seq<char>, HandlerView>,
    lines: Seq<Seq<char>>,
) -> Map<Seq<char>, HandlerView>
    decreases lines.len(),
{
    if lines.len() == 0 {
        m
    } else {
        let before = apply_lines(m, lines.drop_last());
        match config_entry(lines.last()) {
            Some((k, h)) => before.insert(k, h),
            None => before,
        }
    }
}

/// `m` after merging the config text `text`, line by line. The text is cut
/// at each `\n`; a `\r` before it is whitespace, which the words of a line
/// leave out anyway.
pub open spec fn merged(m: Map<Seq<char>, HandlerView>, text: Seq<char>) -> Map<
    Seq<char>,
    HandlerView,
> {
    apply_lines(m, split(text, seq!['\n']))
}

/// The entry one config line gives, if any.
fn config_line(line: &Vec<char>) -> (r: Option<(Vec<char>, Handler)>)
    ensures
        match r {
            Some((k, h)) => config_entry(line@) == Some((k@, h@)),
            None => config_entry(line@) is None,
        },
{
    let t = trim_exec(line);
    if t.len() == 0 || t[0] == '#' {
        return None;
    }
    let mut w = words_exec(&t);
    if w.len() < 2 {
        return None;
    }
    let kind = match Kind::parse_chars(&w[1]) {
        Some(k) => k,
        None => {
            return None;
        },
    };
    let key = to_lower(&w[0]);
    let ghost all = views(w@);
    let rest_words = w.split_off(2);
    assert(views(rest_words@) =~= all.subrange(2, all.len() as int));
    let sep: Vec<char> = vec![' '];
    assert(sep@ =~= seq![' ']);
    let rest = join_exec(&rest_words, &sep);
    let edit = if rest.len() == 0 || (rest.len() == 1 && rest[0] == '-') {
        assert(rest@.len() == 1 ==> rest@ =~= seq!['-']);
        None
    } else {
        assert(rest@.len() == 1 ==> rest@ != seq!['-']) by {
            if rest@.len() == 1 && rest@ == seq!['-'] {
                assert(rest@[0] == '-');
            }
        }
        Some(string_of(&rest))
    };
    Some((key, Handler { kind, edit }))
}

/// Merges an override config into the registry: one `ext  kind  edit...`
/// entry per line.
pub fn merge(map: &mut Registry, text: &str)
    ensures
        final(map)@ == merged(old(map)@, text@),
{
    let cs = chars_of(text);
    let nl: Vec<char> = vec!['\n'];
    assert(nl@ =~= seq!['\n']);
    let lines = split_exec(&cs, &nl);
    let ghost m0 = map@;
    let ghost ls = views(lines@);
    let n = lines.len();
    for i in 0..n
        invariant
            n == lines@.len(),
            ls == views(lines@),
            map@ == apply_lines(m0, ls.take(i as int)),
    {
        assert(ls.take(i + 1).drop_last() =~= ls.take(i as int));
        assert(ls.take(i + 1).last() == lines@[i as int]@);
        match config_line(&lines[i]) {
            Some((k, h)) => {
                map.set(k, h);
            },
            None => {},
        }
    }
    assert(ls.take(n as int) =~= ls);
}

/// The handler used for an extension the registry does not know: text,
/// edited with `$EDITOR`.
pub open spec fn fallback() -> HandlerView {
    (Kind::Text, Some("$EDITOR"@))
}

/// The handler the registry `m` gives a file at `path`: the one for its
/// lowercase extension, or the fallback.
pub open spec fn handler_for(m: Map<Seq<char>, HandlerView>, path: Seq<char>) -> HandlerView {
    let e = ext_of(path);
    if m.dom().contains(e) {
        m[e]
    } else {
        fallback()
    }
}

/// The registry the viewer starts with: the defaults, then the user's
/// config text when there is one.
pub open spec fn loaded(config: Option<Seq<char>>) -> Map<Seq<char>, HandlerView> {
    match config {
        Some(text) => merged(default_map(), text),
        None => default_map(),
    }
}

impl Registry {
    /// The defaults, overridden by the user's config text if there is one.
    pub fn load(config: Option<&str>) -> (r: Registry)
        ensures
            r@ == loaded(
                match config {
                    Some(t) => Some(t@),
                    None => None,
                },
            ),
    {
        let mut map = defaults();
        match config {
            Some(text) => merge(&mut map, text),
            None => {},
        }
        map
    }

    /// The handler for a path, by its extension in any case. Unknown
    /// extensions fall back to text.
    pub fn lookup(&self, path: &str) -> (r: Handler)
        ensures
            r@ == handler_for(self@, path@),
    {
        let e = ext_chars(path);
        match self.get(&e) {
            Some(h) => h.clone(),
            None => Handler { kind: Kind::Text, edit: edit("$EDITOR") },
        }
    }
}

// ---------------------------------------------------------------------------
// Laws of the registry.

proof fn lemma_apply_lines_concat(
    m: Map<Seq<char>, HandlerView>,
    a: Seq<Seq<char>>,
    b: Seq<Seq<char>>,
)
    ensures
        apply_lines(m, a + b) == apply_lines(apply_lines(m, a), b),
    decreases b.len(),
{
    if b.len() == 0 {
        assert(a + b =~= a);
    } else {
        lemma_apply_lines_concat(m, a, b.drop_last());
        assert((a + b).drop_last() =~= a + b.drop_last());
        assert((a + b).last() == b.last());
    }
}

proof fn lemma_apply_lines_union(m: Map<Seq<char>, HandlerView>, ls: Seq<Seq<char>>)
    ensures
        apply_lines(m, ls) == m.union_prefer_right(
            apply_lines(Map::<Seq<char>, HandlerView>::empty(), ls),
        ),
    decreases ls.len(),
{
    if ls.len() == 0 {
        assert(m.union_prefer_right(Map::<Seq<char>, HandlerView>::empty()) =~= m);
    } else {
        lemma_apply_lines_union(m, ls.drop_last());
        let e = apply_lines(Map::<Seq<char>, HandlerView>::empty(), ls.drop_last());
        match config_entry(ls.last()) {
            Some((k, h)) => {
                assert(m.union_prefer_right(e).insert(k, h) =~= m.union_prefer_right(e.insert(k, h)));
            },
            None => {},
        }
    }
}

/// Config text is read line by line: merging two texts joined by a newline
/// is merging the first, then the second.
pub proof fn law_merge_concat(m: Map<Seq<char>, HandlerView>, a: Seq<char>, b: Seq<char>)
    ensures
        merged(m, a + seq!['\n'] + b) == merged(merged(m, a), b),
{
    lemma_split_concat(a, b, '\n');
    lemma_apply_lines_concat(m, split(a, seq!['\n']), split(b, seq!['\n']));
}

/// Merging the same config twice changes nothing beyond merging it once.
pub proof fn law_merge_idempotent(m: Map<Seq<char>, HandlerView>, text: Seq<char>)
    ensures
        merged(merged(m, text), text) == merged(m, text),
{
    let ls = split(text, seq!['\n']);
    let e = apply_lines(Map::<Seq<char>, HandlerView>::empty(), ls);
    lemma_apply_lines_union(m, ls);
    lemma_apply_lines_union(m.union_prefer_right(e), ls);
    assert(m.union_prefer_right(e).union_prefer_right(e) =~= m.union_prefer_right(e));
}

/// A config line for an extension sets that extension's handler, whatever
/// came before it: the last line for an extension wins over earlier lines
/// and over the defaults.
pub proof fn law_line_overrides(
    m: Map<Seq<char>, HandlerView>,
    text: Seq<char>,
    line: Seq<char>,
    k: Seq<char>,
    h: HandlerView,
)
    requires
        !line.contains('\n'),
        config_entry(line) == Some((k, h)),
    ensures
        merged(m, text + seq!['\n'] + line).dom().contains(k),
        merged(m, text + seq!['\n'] + line)[k] == h,
{
    law_merge_concat(m, text, line);
    lemma_split_no_sep(line, '\n');
    let ls = seq![line];
    assert(ls.drop_last() =~= Seq::<Seq<char>>::empty());
}

/// Blank lines, comments and lines the registry does not understand
/// change nothing.
pub proof fn law_ignored_line(m: Map<Seq<char>, HandlerView>, line: Seq<char>)
    requires
        !line.contains('\n'),
        config_entry(line) is None,
    ensures
        merged(m, line) == m,
{
    lemma_split_no_sep(line, '\n');
    let ls = seq![line];
    assert(ls.drop_last() =~= Seq::<Seq<char>>::empty());
    assert(apply_lines(m, ls.drop_last()) == m);
    assert(ls.last() == line);
}

/// The extensions a config line sets are lowercase.
pub proof fn law_config_keys_lowercase(line: Seq<char>)
    ensures
        config_entry(line) matches Some((k, h)) ==> lower(k) == k,
{
    if let Some((k, h)) = config_entry(line) {
        let t = trim(line);
        let w = words(t);
        lemma_lower_idempotent(w[0]);
    }
}

/// Adding a format is a one-line edit: a config line `ext kind edit...`
/// appended to any configuration makes every file whose extension is `ext`,
/// in any case, use that handler.
pub proof fn law_config_line_applies(
    m: Map<Seq<char>, HandlerView>,
    text: Seq<char>,
    line: Seq<char>,
    k: Seq<char>,
    h: HandlerView,
    path: Seq<char>,
)
    requires
        !line.contains('\n'),
        config_entry(line) == Some((k, h)),
        path_extension(path) matches Some(e) && lower(e) == k,
    ensures
        handler_for(merged(m, text + seq!['\n'] + line), path) == h,
{
    law_line_overrides(m, text, line, k, h);
}

/// `line` is a config line that sets extension `k`.
pub open spec fn sets_key(line: Seq<char>, k: Seq<char>) -> bool {
    config_entry(line) matches Some((k2, _)) && k2 == k
}

proof fn lemma_apply_lines_keeps(m: Map<Seq<char>, HandlerView>, ls: Seq<Seq<char>>, k: Seq<char>)
    requires
        forall|i: int| 0 <= i < ls.len() ==> !sets_key(#[trigger] ls[i], k),
    ensures
        apply_lines(m, ls).dom().contains(k) == m.dom().contains(k),
        m.dom().contains(k) ==> apply_lines(m, ls)[k] == m[k],
    decreases ls.len(),
{
    if ls.len() > 0 {
        let d = ls.drop_last();
        assert forall|i: int| 0 <= i < d.len() implies !sets_key(#[trigger] d[i], k) by {
            assert(d[i] == ls[i]);
        }
        lemma_apply_lines_keeps(m, d, k);
        assert(!sets_key(ls[ls.len() - 1], k));
    }
}

/// A config extends the registry: an extension that no line of the config
/// sets keeps the handler it had, so the shipped defaults stay unless a
/// line names them.
pub proof fn law_unmentioned_kept(m: Map<Seq<char>, HandlerView>, text: Seq<char>, k: Seq<char>)
    requires
        forall|i: int|
            0 <= i < split(text, seq!['\n']).len() ==> !sets_key(
                #[trigger] split(text, seq!['\n'])[i],
                k,
            ),
    ensures
        merged(m, text).dom().contains(k) == m.dom().contains(k),
        m.dom().contains(k) ==> merged(m, text)[k] == m[k],
{
    lemma_apply_lines_keeps(m, split(text, seq!['\n']), k);
}

/// The extensions that some line of `ls` sets.
pub open spec fn keys_set(ls: Seq<Seq<char>>) -> Set<Seq<char>> {
    Set::new(|k: Seq<char>| exists|i: int| 0 <= i < ls.len() && sets_key(#[trigger] ls[i], k))
}

proof fn lemma_apply_lines_dom(m: Map<Seq<char>, HandlerView>, ls: Seq<Seq<char>>)
    ensures
        apply_lines(m, ls).dom() == m.dom().union(keys_set(ls)),
    decreases ls.len(),
{
    if ls.len() == 0 {
        assert(m.dom().union(keys_set(ls)) =~= m.dom());
    } else {
        let d = ls.drop_last();
        lemma_apply_lines_dom(m, d);
        let l = ls.last();
        assert forall|k: Seq<char>| #[trigger] keys_set(ls).contains(k) <==> (keys_set(d).contains(k)
            || sets_key(l, k)) by {
            if keys_set(ls).contains(k) {
                let i = choose|i: int| 0 <= i < ls.len() && sets_key(#[trigger] ls[i], k);
                if i < ls.len() - 1 {
                    assert(d[i] == ls[i]);
                }
            }
            if keys_set(d).contains(k) {
                let i = choose|i: int| 0 <= i < d.len() && sets_key(#[trigger] d[i], k);
                assert(ls[i] == d[i]);
            }
            if sets_key(l, k) {
                assert(ls[ls.len() - 1] == l);
            }
        }
        assert(apply_lines(m, ls).dom() =~= m.dom().union(keys_set(ls)));
    }
}

/// Merging a config changes exactly the extensions that some line sets:
/// the keys after merging are the keys before and those of its lines.
pub proof fn law_merge_keys(m: Map<Seq<char>, HandlerView>, text: Seq<char>)
    ensures
        merged(m, text).dom() == m.dom().union(keys_set(split(text, seq!['\n']))),
{
    lemma_apply_lines_dom(m, split(text, seq!['\n']));
}

/// `k` is one of `exts`.
pub open spec fn listed(k: Seq<char>, exts: Seq<Seq<char>>) -> bool
    decreases exts.len(),
{
    exts.len() > 0 && (exts.last() == k || listed(k, exts.drop_last()))
}

proof fn lemma_add_all_at(
    m: Map<Seq<char>, HandlerView>,
    exts: Seq<Seq<char>>,
    h: HandlerView,
    k: Seq<char>,
)
    ensures
        listed(k, exts) ==> add_all(m, exts, h).dom().contains(k) && add_all(m, exts, h)[k] == h,
        !listed(k, exts) ==> (add_all(m, exts, h).dom().contains(k) == m.dom().contains(k)),
        !listed(k, exts) && m.dom().contains(k) ==> add_all(m, exts, h)[k] == m[k],
    decreases exts.len(),
{
    if exts.len() > 0 {
        lemma_add_all_at(m, exts.drop_last(), h, k);
    }
}

/// The shipped table, extension by extension, for a file whose lowercase
/// extension is `e`: csv, tsv and the spreadsheet formats are tables edited
/// with `grid`; markdown, plain text and HyperList are text edited with
/// `scribe`; source and config formats are text edited with `$EDITOR`;
/// docx and odt are documents, pptx and odp slides, pdf a PDF, and the
/// image formats images, all without an editor; any other extension is
/// text edited with `$EDITOR`.
pub proof fn law_default_table(path: Seq<char>)
    ensures
        (ext_of(path) == "csv"@
            || ext_of(path) == "tsv"@
        ) ==> handler_for(default_map(), path) == (Kind::Table, Some("grid"@)),
        (ext_of(path) == "xlsx"@
            || ext_of(path) == "xlsm"@
            || ext_of(path) == "xlsb"@
            || ext_of(path) == "xls"@
            || ext_of(path) == "ods"@
        ) ==> handler_for(default_map(), path) == (Kind::Table, Some("grid"@)),
        (ext_of(path) == "md"@
            || ext_of(path) == "markdown"@
            || ext_of(path) == "txt"@
            || ext_of(path) == "text"@
            || ext_of(path) == "hl"@
        ) ==> handler_for(default_map(), path) == (Kind::Text, Some("scribe"@)),
        (ext_of(path) == "rs"@
            || ext_of(path) == "py"@
            || ext_of(path) == "sh"@
            || ext_of(path) == "bash"@
            || ext_of(path) == "js"@
            || ext_of(path) == "ts"@
            || ext_of(path) == "c"@
            || ext_of(path) == "h"@
            || ext_of(path) == "cpp"@
            || ext_of(path) == "rb"@
            || ext_of(path) == "go"@
            || ext_of(path) == "lua"@
            || ext_of(path) == "vim"@
            || ext_of(path) == "toml"@
            || ext_of(path) == "json"@
            || ext_of(path) == "yaml"@
            || ext_of(path) == "yml"@
            || ext_of(path) == "conf"@
            || ext_of(path) == "ini"@
            || ext_of(path) == "css"@
            || ext_of(path) == "html"@
            || ext_of(path) == "xml"@
        ) ==> handler_for(default_map(), path) == (Kind::Text, Some("$EDITOR"@)),
        (ext_of(path) == "docx"@
            || ext_of(path) == "odt"@
        ) ==> handler_for(default_map(), path) == (Kind::Doc, None::<Seq<char>>),
        (ext_of(path) == "pptx"@
            || ext_of(path) == "odp"@
        ) ==> handler_for(default_map(), path) == (Kind::Slides, None::<Seq<char>>),
        (ext_of(path) == "pdf"@
        ) ==> handler_for(default_map(), path) == (Kind::Pdf, None::<Seq<char>>),
        (ext_of(path) == "png"@
            || ext_of(path) == "jpg"@
            || ext_of(path) == "jpeg"@
            || ext_of(path) == "gif"@
            || ext_of(path) == "webp"@
            || ext_of(path) == "bmp"@
        ) ==> handler_for(default_map(), path) == (Kind::Image, None::<Seq<char>>),
        (ext_of(path) != "csv"@
            && ext_of(path) != "tsv"@
            && ext_of(path) != "xlsx"@
            && ext_of(path) != "xlsm"@
            && ext_of(path) != "xlsb"@
            && ext_of(path) != "xls"@
            && ext_of(path) != "ods"@
            && ext_of(path) != "md"@
            && ext_of(path) != "markdown"@
            && ext_of(path) != "txt"@
            && ext_of(path) != "text"@
            && ext_of(path) != "hl"@
            && ext_of(path) != "rs"@
            && ext_of(path) != "py"@
            && ext_of(path) != "sh"@
            && ext_of(path) != "bash"@
            && ext_of(path) != "js"@
            && ext_of(path) != "ts"@
            && ext_of(path) != "c"@
            && ext_of(path) != "h"@
            && ext_of(path) != "cpp"@
            && ext_of(path) != "rb"@
            && ext_of(path) != "go"@
            && ext_of(path) != "lua"@
            && ext_of(path) != "vim"@
            && ext_of(path) != "toml"@
            && ext_of(path) != "json"@
            && ext_of(path) != "yaml"@
            && ext_of(path) != "yml"@
            && ext_of(path) != "conf"@
            && ext_of(path) != "ini"@
            && ext_of(path) != "css"@
            && ext_of(path) != "html"@
            && ext_of(path) != "xml"@
            && ext_of(path) != "docx"@
            && ext_of(path) != "odt"@
            && ext_of(path) != "pptx"@
            && ext_of(path) != "odp"@
            && ext_of(path) != "pdf"@
            && ext_of(path) != "png"@
            && ext_of(path) != "jpg"@
            && ext_of(path) != "jpeg"@
            && ext_of(path) != "gif"@
            && ext_of(path) != "webp"@
            && ext_of(path) != "bmp"@
        ) ==> handler_for(default_map(), path) == (Kind::Text, Some("$EDITOR"@)),
{
    let e = ext_of(path);
    let m0 = Map::<Seq<char>, HandlerView>::empty();
    let m1 = add_all(m0, seq!["csv"@, "tsv"@], handler_of(Kind::Table, Some("grid"@)));
    lemma_add_all_at(m0, seq!["csv"@, "tsv"@], handler_of(Kind::Table, Some("grid"@)), e);
    let m2 = add_all(m1, seq!["xlsx"@, "xlsm"@, "xlsb"@, "xls"@, "ods"@], handler_of(Kind::Table, Some("grid"@)));
    lemma_add_all_at(m1, seq!["xlsx"@, "xlsm"@, "xlsb"@, "xls"@, "ods"@], handler_of(Kind::Table, Some("grid"@)), e);
    let m3 = add_all(m2, seq!["md"@, "markdown"@, "txt"@, "text"@, "hl"@], handler_of(Kind::Text, Some("scribe"@)));
    lemma_add_all_at(m2, seq!["md"@, "markdown"@, "txt"@, "text"@, "hl"@], handler_of(Kind::Text, Some("scribe"@)), e);
    let m4 = add_all(m3, seq!["rs"@, "py"@, "sh"@, "bash"@, "js"@, "ts"@, "c"@, "h"@, "cpp"@, "rb"@, "go"@, "lua"@, "vim"@, "toml"@, "json"@, "yaml"@, "yml"@, "conf"@, "ini"@, "css"@, "html"@, "xml"@], handler_of(Kind::Text, Some("$EDITOR"@)));
    lemma_add_all_at(m3, seq!["rs"@, "py"@, "sh"@, "bash"@, "js"@, "ts"@, "c"@, "h"@, "cpp"@, "rb"@, "go"@, "lua"@, "vim"@, "toml"@, "json"@, "yaml"@, "yml"@, "conf"@, "ini"@, "css"@, "html"@, "xml"@], handler_of(Kind::Text, Some("$EDITOR"@)), e);
    let m5 = add_all(m4, seq!["docx"@, "odt"@], handler_of(Kind::Doc, None));
    lemma_add_all_at(m4, seq!["docx"@, "odt"@], handler_of(Kind::Doc, None), e);
    let m6 = add_all(m5, seq!["pptx"@, "odp"@], handler_of(Kind::Slides, None));
    lemma_add_all_at(m5, seq!["pptx"@, "odp"@], handler_of(Kind::Slides, None), e);
    let m7 = add_all(m6, seq!["pdf"@], handler_of(Kind::Pdf, None));
    lemma_add_all_at(m6, seq!["pdf"@], handler_of(Kind::Pdf, None), e);
    let m8 = add_all(m7, seq!["png"@, "jpg"@, "jpeg"@, "gif"@, "webp"@, "bmp"@], handler_of(Kind::Image, None));
    lemma_add_all_at(m7, seq!["png"@, "jpg"@, "jpeg"@, "gif"@, "webp"@, "bmp"@], handler_of(Kind::Image, None), e);
    assert(default_map() == m8);
    reveal_with_fuel(listed, 23);
    reveal_strlit("csv");
    reveal_strlit("tsv");
    reveal_strlit("xlsx");
    reveal_strlit("xlsm");
    reveal_strlit("xlsb");
    reveal_strlit("xls");
    reveal_strlit("ods");
    reveal_strlit("md");
    reveal_strlit("markdown");
    reveal_strlit("txt");
    reveal_strlit("text");
    reveal_strlit("hl");
    reveal_strlit("rs");
    reveal_strlit("py");
    reveal_strlit("sh");
    reveal_strlit("bash");
    reveal_strlit("js");
    reveal_strlit("ts");
    reveal_strlit("c");
    reveal_strlit("h");
    reveal_strlit("cpp");
    reveal_strlit("rb");
    reveal_strlit("go");
    reveal_strlit("lua");
    reveal_strlit("vim");
    reveal_strlit("toml");
    reveal_strlit("json");
    reveal_strlit("yaml");
    reveal_strlit("yml");
    reveal_strlit("conf");
    reveal_strlit("ini");
    reveal_strlit("css");
    reveal_strlit("html");
    reveal_strlit("xml");
    reveal_strlit("docx");
    reveal_strlit("odt");
    reveal_strlit("pptx");
    reveal_strlit("odp");
    reveal_strlit("pdf");
    reveal_strlit("png");
    reveal_strlit("jpg");
    reveal_strlit("jpeg");
    reveal_strlit("gif");
    reveal_strlit("webp");
    reveal_strlit("bmp");
    reveal_strlit("grid");
    reveal_strlit("scribe");
    reveal_strlit("$EDITOR");
    assert("csv"@ =~= seq!['c', 's', 'v']);
    assert("tsv"@ =~= seq!['t', 's', 'v']);
    assert("xlsx"@ =~= seq!['x', 'l', 's', 'x']);
    assert("xlsm"@ =~= seq!['x', 'l', 's', 'm']);
    assert("xlsb"@ =~= seq!['x', 'l', 's', 'b']);
    assert("xls"@ =~= seq!['x', 'l', 's']);
    assert("ods"@ =~= seq!['o', 'd', 's']);
    assert("md"@ =~= seq!['m', 'd']);
    assert("markdown"@ =~= seq!['m', 'a', 'r', 'k', 'd', 'o', 'w', 'n']);
    assert("txt"@ =~= seq!['t', 'x', 't']);
    assert("text"@ =~= seq!['t', 'e', 'x', 't']);
    assert("hl"@ =~= seq!['h', 'l']);
    assert("rs"@ =~= seq!['r', 's']);
    assert("py"@ =~= seq!['p', 'y']);
    assert("sh"@ =~= seq!['s', 'h']);
    assert("bash"@ =~= seq!['b', 'a', 's', 'h']);
    assert("js"@ =~= seq!['j', 's']);
    assert("ts"@ =~= seq!['t', 's']);
    assert("c"@ =~= seq!['c']);
    assert("h"@ =~= seq!['h']);
    assert("cpp"@ =~= seq!['c', 'p', 'p']);
    assert("rb"@ =~= seq!['r', 'b']);
    assert("go"@ =~= seq!['g', 'o']);
    assert("lua"@ =~= seq!['l', 'u', 'a']);
    assert("vim"@ =~= seq!['v', 'i', 'm']);
    assert("toml"@ =~= seq!['t', 'o', 'm', 'l']);
    assert("json"@ =~= seq!['j', 's', 'o', 'n']);
    assert("yaml"@ =~= seq!['y', 'a', 'm', 'l']);
    assert("yml"@ =~= seq!['y', 'm', 'l']);
    assert("conf"@ =~= seq!['c', 'o', 'n', 'f']);
    assert("ini"@ =~= seq!['i', 'n', 'i']);
    assert("css"@ =~= seq!['c', 's', 's']);
    assert("html"@ =~= seq!['h', 't', 'm', 'l']);
    assert("xml"@ =~= seq!['x', 'm', 'l']);
    assert("docx"@ =~= seq!['d', 'o', 'c', 'x']);
    assert("odt"@ =~= seq!['o', 'd', 't']);
    assert("pptx"@ =~= seq!['p', 'p', 't', 'x']);
    assert("odp"@ =~= seq!['o', 'd', 'p']);
    assert("pdf"@ =~= seq!['p', 'd', 'f']);
    assert("png"@ =~= seq!['p', 'n', 'g']);
    assert("jpg"@ =~= seq!['j', 'p', 'g']);
    assert("jpeg"@ =~= seq!['j', 'p', 'e', 'g']);
    assert("gif"@ =~= seq!['g', 'i', 'f']);
    assert("webp"@ =~= seq!['w', 'e', 'b', 'p']);
    assert("bmp"@ =~= seq!['b', 'm', 'p']);
}

/// Kind names are read case-insensitively.
pub proof fn law_parse_case_insensitive(word: Seq<char>)
    ensures
        parse_kind(word) == parse_kind(lower(word)),
{
    lemma_lower_idempotent(word);
}

/// Lookup ignores the case of the extension: two paths whose extensions
/// differ only in ASCII case get the same handler.
pub proof fn law_lookup_case_insensitive(
    m: Map<Seq<char>, HandlerView>,
    p1: Seq<char>,
    p2: Seq<char>,
)
    requires
        path_extension(p1) matches Some(e1) && path_extension(p2) matches Some(e2) && lower(e1)
            == lower(e2),
    ensures
        handler_for(m, p1) == handler_for(m, p2),
{
}

} // verus!

//! Linux: XDG `.desktop` entries, read with a structured INI parse and a
//! line-oriented fallback, and icons resolved through the icon-theme tree.
use vstd::prelude::*;
use crate::common::{App, AppView, AppError, SearchPath, Reconciler, apps_view, dedup, opt_view};
use crate::scan::{WalkEntry, descriptors, select_descriptors, lemma_depth_bound};
use crate::text::{
    chars_of, string_of, slice_of, concat, chars_eq, is_whitespace, is_ws, trim, trim_range,
    occurs_at, matches_at, split, split_on, after_last, after_last_of, parse_u16, parse_u16_of,
    extension, file_name, file_name_of, file_stem, has_extension, file_stem_of, join, join_path,
};

verus! {

/// The words of `s` after those already gathered in `cur`: maximal runs of
/// characters that are not white space.
pub open spec fn words_from(s: Seq<char>, cur: Seq<char>) -> Seq<Seq<char>>
    decreases s.len(),
{
    if s.len() == 0 {
        if cur.len() > 0 {
            seq![cur]
        } else {
            seq![]
        }
    } else if is_ws(s[0]) {
        (if cur.len() > 0 {
            seq![cur]
        } else {
            seq![]
        }) + words_from(s.drop_first(), seq![])
    } else {
        words_from(s.drop_first(), cur.push(s[0]))
    }
}

/// The words of `s`, as `str::split_whitespace` yields them.
pub open spec fn words(s: Seq<char>) -> Seq<Seq<char>> {
    words_from(s, seq![])
}

/// Whether `w` is a field-code placeholder such as `%f` or `%U`.
pub open spec fn is_placeholder(w: Seq<char>) -> bool {
    w.len() > 0 && w[0] == '%'
}

/// How many words come before the first placeholder.
pub open spec fn kept_words(ws: Seq<Seq<char>>) -> nat
    decreases ws.len(),
{
    if ws.len() == 0 || is_placeholder(ws[0]) {
        0
    } else {
        1 + kept_words(ws.drop_first())
    }
}

/// The words joined with one space between each two.
pub open spec fn join_words(ws: Seq<Seq<char>>) -> Seq<char>
    decreases ws.len(),
{
    if ws.len() == 0 {
        seq![]
    } else if ws.len() == 1 {
        ws[0]
    } else {
        join_words(ws.drop_last()) + seq![' '] + ws.last()
    }
}

/// An `Exec` command cut before its first placeholder, its words joined by
/// single spaces.
pub open spec fn clean_exec(s: Seq<char>) -> Seq<char> {
    let ws = words(s);
    join_words(ws.take(kept_words(ws) as int))
}

/// The words of `s`.
fn split_words(s: &[char]) -> (r: Vec<Vec<char>>)
    ensures
        r@.map_values(|v: Vec<char>| v@) == words(s@),
{
    let mut done: Vec<Vec<char>> = Vec::new();
    let mut cur: Vec<char> = Vec::new();
    let mut i: usize = 0;
    assert(s@.skip(0) =~= s@);
    while i < s.len()
        invariant
            i <= s@.len(),
            words(s@) == done@.map_values(|v: Vec<char>| v@) + words_from(s@.skip(i as int), cur@),
        decreases s@.len() - i,
    {
        let ghost rest = s@.skip(i as int);
        assert(rest.drop_first() =~= s@.skip(i + 1));
        assert(rest[0] == s@[i as int]);
        let c = s[i];
        if is_whitespace(c) {
            if cur.len() > 0 {
                let ghost before = done@.map_values(|v: Vec<char>| v@);
                done.push(cur);
                assert(done@.map_values(|v: Vec<char>| v@) =~= before + seq![cur@]);
                cur = Vec::new();
                assert(before + (seq![done@.last()@] + words_from(s@.skip(i + 1), seq![])) =~= (
                before + seq![done@.last()@]) + words_from(s@.skip(i + 1), seq![]));
            } else {
                assert(cur@ =~= Seq::<char>::empty());
                assert(Seq::<Seq<char>>::empty() + words_from(s@.skip(i + 1), seq![]) =~= words_from(
                    s@.skip(i + 1),
                    seq![],
                ));
                cur = Vec::new();
            }
        } else {
            cur.push(c);
        }
        i = i + 1;
    }
    assert(s@.skip(i as int) =~= Seq::<char>::empty());
    if cur.len() > 0 {
        let ghost before = done@.map_values(|v: Vec<char>| v@);
        done.push(cur);
        assert(done@.map_values(|v: Vec<char>| v@) =~= before + seq![cur@]);
    } else {
        assert(done@.map_values(|v: Vec<char>| v@) + Seq::<Seq<char>>::empty() =~= done@.map_values(
            |v: Vec<char>| v@,
        ));
    }
    done
}

/// Removes the desktop-entry field codes (`%f`, `%U`, ...) from an `Exec`
/// value: the command is cut at its first word that starts with `%`, and the
/// words before it are joined with single spaces.
pub fn clean_exec_path(exec: &str) -> (r: String)
    ensures
        r@ == clean_exec(exec@),
{
    let s = chars_of(exec);
    let ws = split_words(&s);
    let ghost wv = ws@.map_values(|v: Vec<char>| v@);
    let mut out: Vec<char> = Vec::new();
    let mut k: usize = 0;
    assert(wv.skip(0) =~= wv);
    assert(wv.take(0) =~= Seq::<Seq<char>>::empty());
    while k < ws.len() && !(ws[k].len() > 0 && ws[k][0] == '%')
        invariant
            wv == ws@.map_values(|v: Vec<char>| v@),
            wv == words(s@),
            k <= ws@.len(),
            kept_words(wv) == k + kept_words(wv.skip(k as int)),
            out@ == join_words(wv.take(k as int)),
        decreases ws@.len() - k,
    {
        assert(wv.skip(k as int).drop_first() =~= wv.skip(k + 1));
        assert(wv.skip(k as int)[0] == wv[k as int]);
        assert(wv.take(k + 1).drop_last() =~= wv.take(k as int));
        if k == 0 {
            out = slice_of(&ws[k], 0, ws[k].len());
            assert(wv.take(1) =~= seq![wv[0]]);
            assert(out@ =~= wv[0]);
        } else {
            out.push(' ');
            out = concat(&out, &ws[k]);
        }
        k = k + 1;
    }
    if k < ws.len() {
        assert(wv.skip(k as int)[0] == wv[k as int]);
    }
    string_of(&out)
}

/// Where the line that holds position `i` of `s` ends: the next `\n`, or
/// the end of `s`.
pub open spec fn line_end(s: Seq<char>, i: nat) -> nat
    decreases s.len() - i,
{
    if i >= s.len() || s[i as int] == '\n' {
        i
    } else {
        line_end(s, i + 1)
    }
}

proof fn lemma_line_end(s: Seq<char>, i: nat)
    ensures
        i <= s.len() ==> i <= line_end(s, i) <= s.len(),
    decreases s.len() - i,
{
    if i < s.len() && s[i as int] != '\n' {
        lemma_line_end(s, i + 1);
    }
}

/// The first of `names`, from the `k`-th on, that `s` holds at `i` followed
/// by `=`.
pub open spec fn first_name_at(s: Seq<char>, i: int, names: Seq<Seq<char>>, k: int) -> Option<int>
    decreases names.len() - k,
{
    if k < 0 || k >= names.len() {
        None
    } else if occurs_at(s, i, names[k].push('=')) {
        Some(k)
    } else {
        first_name_at(s, i, names, k + 1)
    }
}

proof fn lemma_first_name_at(s: Seq<char>, i: int, names: Seq<Seq<char>>, k: int)
    ensures
        first_name_at(s, i, names, k) matches Some(m) ==> 0 <= k <= m < names.len() && occurs_at(
            s,
            i,
            names[m].push('='),
        ),
    decreases names.len() - k,
{
    if 0 <= k < names.len() && !occurs_at(s, i, names[k].push('=')) {
        lemma_first_name_at(s, i, names, k + 1);
    }
}

/// The value of the first line of `s`, from position `i` on, that starts
/// with one of `names` followed by `=`: the rest of that line, trimmed.
/// `at_start` tells whether `i` opens a line.
pub open spec fn entry_scan(s: Seq<char>, names: Seq<Seq<char>>, i: nat, at_start: bool) -> Option<
    Seq<char>,
>
    decreases s.len() - i,
{
    if i >= s.len() {
        None
    } else if at_start && first_name_at(s, i as int, names, 0) is Some {
        let k = first_name_at(s, i as int, names, 0)->0;
        let from = (i + names[k].len() + 1) as nat;
        Some(trim(s.subrange(from as int, line_end(s, from) as int)))
    } else {
        entry_scan(s, names, i + 1, s[i as int] == '\n')
    }
}

/// The value that the line-oriented scan finds for one of `names` in `text`.
pub open spec fn find_entry(text: Seq<char>, names: Seq<Seq<char>>) -> Option<Seq<char>> {
    entry_scan(text, names, 0, true)
}

/// The characters of each name.
pub open spec fn names_view(names: Seq<&str>) -> Seq<Seq<char>> {
    names.map_values(|n: &str| n@)
}

/// Where the line that holds position `i` of `s` ends.
fn find_line_end(s: &[char], i: usize) -> (r: usize)
    requires
        i <= s@.len(),
    ensures
        r == line_end(s@, i as nat),
{
    let mut j: usize = i;
    while j < s.len() && s[j] != '\n'
        invariant
            i <= j <= s@.len(),
            line_end(s@, i as nat) == line_end(s@, j as nat),
        decreases s@.len() - j,
    {
        j = j + 1;
    }
    j
}

/// The first of `names`, each followed by `=`, that `s` holds at `i`.
fn name_at(s: &[char], i: usize, keys: &Vec<Vec<char>>, names: Ghost<Seq<Seq<char>>>) -> (r: Option<
    usize,
>)
    requires
        keys@.len() == names@.len(),
        forall|k: int| 0 <= k < keys@.len() ==> keys@[k]@ == names@[k].push('='),
    ensures
        r == (match first_name_at(s@, i as int, names@, 0) {
            Some(k) => Some(k as usize),
            None => None::<usize>,
        }),
        r matches Some(k) ==> k < keys@.len(),
{
    let mut k: usize = 0;
    while k < keys.len()
        invariant
            k <= keys@.len(),
            keys@.len() == names@.len(),
            forall|j: int| 0 <= j < keys@.len() ==> keys@[j]@ == names@[j].push('='),
            first_name_at(s@, i as int, names@, 0) == first_name_at(s@, i as int, names@, k as int),
        decreases keys@.len() - k,
    {
        if matches_at(s, i, &keys[k]) {
            return Some(k);
        }
        k = k + 1;
    }
    None
}

/// The value of the first line of `text` that starts with one of
/// `entry_names` followed by `=`: the rest of that line, trimmed. A
/// line-oriented fallback for descriptors that the INI parse cannot read.
pub fn brute_force_find_entry(text: &str, entry_names: &[&str]) -> (r: Option<String>)
    ensures
        crate::common::opt_view(r) == find_entry(text@, names_view(entry_names@)),
{
    let ghost names = names_view(entry_names@);
    let s = chars_of(text);
    let mut keys: Vec<Vec<char>> = Vec::new();
    let mut k: usize = 0;
    while k < entry_names.len()
        invariant
            names == names_view(entry_names@),
            k <= entry_names@.len(),
            keys@.len() == k,
            forall|j: int| 0 <= j < k ==> keys@[j]@ == names[j].push('='),
        decreases entry_names@.len() - k,
    {
        let mut key = chars_of(entry_names[k]);
        key.push('=');
        keys.push(key);
        k = k + 1;
    }
    let mut i: usize = 0;
    let mut at_start = true;
    while i < s.len()
        invariant
            s@ == text@,
            names == names_view(entry_names@),
            keys@.len() == names.len(),
            forall|j: int| 0 <= j < keys@.len() ==> keys@[j]@ == names[j].push('='),
            i <= s@.len(),
            find_entry(s@, names) == entry_scan(s@, names, i as nat, at_start),
        decreases s@.len() - i,
    {
        if at_start {
            match name_at(&s, i, &keys, Ghost(names)) {
                Some(m) => {
                    proof {
                        lemma_first_name_at(s@, i as int, names, 0);
                    }
                    assert(keys@[m as int]@.len() == names[m as int].len() + 1);
                    assert(occurs_at(s@, i as int, keys@[m as int]@));
                    let from = i + keys[m].len();
                    let end = find_line_end(&s, from);
                    proof {
                        lemma_line_end(s@, from as nat);
                    }
                    let v = trim_range(&s, from, end);
                    return Some(string_of(&v));
                },
                None => {},
            }
        }
        at_start = s[i] == '\n';
        i = i + 1;
    }
    None
}

/// The `Icon` value that the line-oriented fallback finds in `text`.
pub fn brute_force_find_icon(text: &str) -> (r: Option<String>)
    ensures
        crate::common::opt_view(r) == find_entry(text@, seq!["Icon"@, "icon"@]),
{
    let names: [&str; 2] = ["Icon", "icon"];
    let r = brute_force_find_entry(text, &names);
    assert(names_view(names@) =~= seq!["Icon"@, "icon"@]);
    r
}

/// The `Exec` value that the line-oriented fallback finds in `text`.
pub fn brute_force_find_exec(text: &str) -> (r: Option<String>)
    ensures
        crate::common::opt_view(r) == find_entry(text@, seq!["Exec"@, "exec"@]),
{
    let names: [&str; 2] = ["Exec", "exec"];
    let r = brute_force_find_entry(text, &names);
    assert(names_view(names@) =~= seq!["Exec"@, "exec"@]);
    r
}

/// What `ini::macro_safe_read` makes of a text: `None` where it refuses the
/// text, else each section's name mapped to its keys, each key mapped to its
/// value, if it has one.
pub uninterp spec fn ini_sections(text: Seq<char>) -> Option<
    Map<Seq<char>, Map<Seq<char>, Option<Seq<char>>>>,
>;

/// Whether the lines of `s` from position `i` on may be handed to the INI
/// reader. Each line is read up to its first `;` or `#`, where a comment
/// begins; the reader cannot take a line whose last `]` stands before its
/// first `[`, that is, one with a `]` before its first `[` and none after
/// it (trimming white space changes neither). The flags describe the line
/// read so far: a comment has begun, a `[` was seen, a `]` came before the
/// first `[`, a `]` came after it.
pub open spec fn brackets_from(
    s: Seq<char>,
    i: nat,
    comment: bool,
    open: bool,
    close_before: bool,
    close_after: bool,
) -> bool
    decreases s.len() - i,
{
    let line_refused = open && close_before && !close_after;
    if i >= s.len() {
        !line_refused
    } else if s[i as int] == '\n' {
        !line_refused && brackets_from(s, i + 1, false, false, false, false)
    } else if comment {
        brackets_from(s, i + 1, comment, open, close_before, close_after)
    } else if s[i as int] == ';' || s[i as int] == '#' {
        brackets_from(s, i + 1, true, open, close_before, close_after)
    } else if s[i as int] == '[' {
        brackets_from(s, i + 1, comment, true, close_before, close_after)
    } else if s[i as int] == ']' {
        brackets_from(s, i + 1, comment, open, close_before || !open, close_after || open)
    } else {
        brackets_from(s, i + 1, comment, open, close_before, close_after)
    }
}

/// Whether the INI reader can take `text`: no line, cut at its comment and
/// trimmed, has its last `]` before its first `[`.
pub open spec fn ini_readable(text: Seq<char>) -> bool {
    brackets_from(text, 0, false, false, false, false)
}

/// Whether the INI reader can take `text`.
pub fn ini_readable_text(text: &str) -> (r: bool)
    ensures
        r == ini_readable(text@),
{
    let s = chars_of(text);
    let mut comment = false;
    let mut open = false;
    let mut close_before = false;
    let mut close_after = false;
    let mut i: usize = 0;
    while i < s.len()
        invariant
            s@ == text@,
            i <= s@.len(),
            ini_readable(s@) == brackets_from(s@, i as nat, comment, open, close_before, close_after),
        decreases s@.len() - i,
    {
        let c = s[i];
        if c == '\n' {
            if open && close_before && !close_after {
                return false;
            }
            comment = false;
            open = false;
            close_before = false;
            close_after = false;
        } else if comment {
        } else if c == ';' || c == '#' {
            comment = true;
        } else if c == '[' {
            open = true;
        } else if c == ']' {
            close_before = close_before || !open;
            close_after = close_after || open;
        }
        i = i + 1;
    }
    !(open && close_before && !close_after)
}

/// The value that the INI parse gives `key` in `section` of `text`, if the
/// reader can take the text, the parse succeeds, the key is there and it
/// has a value.
pub open spec fn ini_value(text: Seq<char>, section: Seq<char>, key: Seq<char>) -> Option<
    Seq<char>,
> {
    if !ini_readable(text) {
        None
    } else {
        ini_parsed_value(text, section, key)
    }
}

/// The value that the INI parse gives `key` in `section` of `text`.
pub open spec fn ini_parsed_value(text: Seq<char>, section: Seq<char>, key: Seq<char>) -> Option<
    Seq<char>,
> {
    match ini_sections(text) {
        Some(m) => if m.contains_key(section) && m[section].contains_key(key) {
            m[section][key]
        } else {
            None
        },
        None => None,
    }
}

/// Relies on `ini::macro_safe_read`, configparser's INI reader: on success it
/// returns the sections of the text, each a map from key to optional value,
/// which this looks `section` and `key` up in. The reader slices each
/// section header between its first `[` and last `]`, so it is handed only
/// texts where those come in that order.
#[verifier::external_body]
fn ini_get(text: &str, section: &str, key: &str) -> (r: Option<String>)
    requires
        ini_readable(text@),
    ensures
        opt_view(r) == (match ini_sections(text@) {
            Some(m) => if m.contains_key(section@) && m[section@].contains_key(key@) {
                m[section@][key@]
            } else {
                None
            },
            None => None,
        }),
{
    match ini::macro_safe_read(text) {
        Ok(map) => map.get(section).and_then(|entries| entries.get(key)).cloned().flatten(),
        Err(_) => None,
    }
}

/// A field of the `[Desktop Entry]` section: the INI parse first, then the
/// line-oriented scan for `names`.
pub open spec fn desktop_field(text: Seq<char>, key: Seq<char>, names: Seq<Seq<char>>) -> Option<
    Seq<char>,
> {
    match ini_value(text, "desktop entry"@, key) {
        Some(v) => Some(v),
        None => find_entry(text, names),
    }
}

/// Whether the entry may be shown: it does not say `NoDisplay=true`.
pub open spec fn is_displayed(text: Seq<char>) -> bool {
    ini_value(text, "desktop entry"@, "nodisplay"@) != Some("true"@)
}

/// The app that the `.desktop` file at `path`, holding `text`, describes.
pub open spec fn desktop_app(path: Seq<char>, text: Seq<char>) -> AppView {
    AppView {
        name: match ini_value(text, "desktop entry"@, "name"@) {
            Some(n) => n,
            None => seq![],
        },
        icon_path: desktop_field(text, "icon"@, seq!["Icon"@, "icon"@]),
        app_path_exe: match desktop_field(text, "exec"@, seq!["Exec"@, "exec"@]) {
            Some(e) => Some(clean_exec(e)),
            None => None,
        },
        app_desktop_path: path,
    }
}

/// The `[Desktop Entry]` value of `key`, where the INI reader can take the
/// text.
fn entry_value(content: &str, readable: bool, key: &str) -> (r: Option<String>)
    requires
        readable == ini_readable(content@),
    ensures
        opt_view(r) == ini_value(content@, "desktop entry"@, key@),
{
    if readable {
        ini_get(content, "desktop entry", key)
    } else {
        None
    }
}

/// Reads the `.desktop` file at `desktop_file_path`, whose text is
/// `content`: the app it describes, and whether it may be shown. A text
/// that the INI reader cannot take (see [`ini_readable`]) is read by the
/// line-oriented scan alone: it has no name and is shown.
pub fn parse_desktop_file(desktop_file_path: &str, content: &str) -> (r: (App, bool))
    ensures
        r.0@ == desktop_app(desktop_file_path@, content@),
        r.1 == is_displayed(content@),
        !ini_readable(content@) ==> r.0@.name.len() == 0 && r.1 && r.0@.icon_path == find_entry(
            content@,
            seq!["Icon"@, "icon"@],
        ),
{
    let readable = ini_readable_text(content);
    let nodisplay = entry_value(content, readable, "nodisplay");
    let display = match &nodisplay {
        Some(v) => {
            let vc = chars_of(v.as_str());
            let t = chars_of("true");
            !chars_eq(&vc, &t)
        },
        None => true,
    };
    let exec = match entry_value(content, readable, "exec") {
        Some(v) => Some(v),
        None => brute_force_find_exec(content),
    };
    let app_path_exe = match exec {
        Some(e) => Some(clean_exec_path(e.as_str())),
        None => None,
    };
    let icon_path = match entry_value(content, readable, "icon") {
        Some(v) => Some(v),
        None => brute_force_find_icon(content),
    };
    let name = match entry_value(content, readable, "name") {
        Some(v) => v,
        None => String::new(),
    };
    let app = App { name, icon_path, app_path_exe, app_desktop_path: desktop_file_path.to_string() };
    (app, display)
}

/// One icon of the icon-theme tree.
#[derive(Debug, Clone)]
pub struct AppIcon {
    /// The icon's file name; without its `.png` extension it is the name
    /// that entries use.
    pub name: String,
    /// The icon file.
    pub path: String,
    /// The pixel size that the theme's directory names, when it names one.
    pub dimensions: Option<u16>,
}

impl AppIcon {
    /// A copy of this icon.
    pub fn clone_icon(&self) -> (r: AppIcon)
        ensures
            r@ == self@,
    {
        AppIcon { name: self.name.clone(), path: self.path.clone(), dimensions: self.dimensions }
    }
}

impl View for AppIcon {
    type V = (Seq<char>, Seq<char>, Option<u16>);

    open spec fn view(&self) -> (Seq<char>, Seq<char>, Option<u16>) {
        (self.name@, self.path@, self.dimensions)
    }
}

/// The pixel size that an icon path names: its sixth `/`-separated piece
/// (`/usr/share/icons/<theme>/<W>x<H>/...`), read after its last `x`.
pub open spec fn icon_dimension(path: Seq<char>) -> Option<u16> {
    let parts = split(path, '/');
    if parts.len() < 6 {
        None
    } else {
        parse_u16(after_last(parts[5], 'x'))
    }
}

/// The icon at `path`, if it is a `.png` file.
pub open spec fn icon_at(path: Seq<char>) -> Option<(Seq<char>, Seq<char>, Option<u16>)> {
    if extension(path, false) == Some("png"@) {
        Some((file_name(path, false), path, icon_dimension(path)))
    } else {
        None
    }
}

/// The icons among `paths`, in order.
pub open spec fn icons_of(paths: Seq<Seq<char>>) -> Seq<(Seq<char>, Seq<char>, Option<u16>)>
    decreases paths.len(),
{
    if paths.len() == 0 {
        seq![]
    } else {
        let r = icons_of(paths.drop_last());
        match icon_at(paths.last()) {
            Some(i) => r.push(i),
            None => r,
        }
    }
}

/// The icon at `path`, if it is a `.png` file.
pub fn icon_from_path(path: &str) -> (r: Option<AppIcon>)
    ensures
        match r {
            Some(i) => icon_at(path@) == Some(i@),
            None => icon_at(path@) is None,
        },
{
    let p = chars_of(path);
    let png = chars_of("png");
    if !has_extension(&p, &png, false) {
        return None;
    }
    let file = file_name_of(&p, false);
    let parts = split_on(&p, '/');
    let dimensions = if parts.len() < 6 {
        None
    } else {
        assert(parts@[5]@ == split(p@, '/')[5]);
        let size = after_last_of(&parts[5], 'x');
        parse_u16_of(&size)
    };
    Some(AppIcon { name: string_of(&file), path: path.to_string(), dimensions })
}

/// The icon index of one scan: every `.png` file among `paths`, the files
/// found below the icon-theme root.
pub fn find_all_app_icons(paths: &Vec<String>) -> (r: Vec<AppIcon>)
    ensures
        r@.map_values(|i: AppIcon| i@) == icons_of(crate::scan::strs_view(paths@)),
{
    let ghost pv = crate::scan::strs_view(paths@);
    let mut r: Vec<AppIcon> = Vec::new();
    let mut i: usize = 0;
    while i < paths.len()
        invariant
            pv == crate::scan::strs_view(paths@),
            i <= paths@.len(),
            r@.map_values(|x: AppIcon| x@) == icons_of(pv.take(i as int)),
        decreases paths@.len() - i,
    {
        assert(pv.take(i + 1).drop_last() =~= pv.take(i as int));
        assert(pv.take(i + 1).last() == paths@[i as int]@);
        match icon_from_path(paths[i].as_str()) {
            Some(icon) => {
                let ghost before = r@.map_values(|x: AppIcon| x@);
                r.push(icon);
                assert(r@.map_values(|x: AppIcon| x@) =~= before.push(icon@));
            },
            None => {},
        }
        i = i + 1;
    }
    assert(pv.take(paths@.len() as int) =~= pv);
    r
}

/// The name by which entries ask for an icon: its file name without the
/// extension.
pub open spec fn icon_key(icon: (Seq<char>, Seq<char>, Option<u16>)) -> Seq<char> {
    file_stem(icon.0, false)
}

/// How good an icon's size is: any known size beats an unknown one, and a
/// larger size beats a smaller one.
pub open spec fn icon_rank(d: Option<u16>) -> int {
    match d {
        Some(x) => x as int + 1,
        None => 0,
    }
}

/// The position of the icon chosen for `name`: among the icons of that name,
/// one of the best rank, the earliest of those.
pub open spec fn best_icon(icons: Seq<(Seq<char>, Seq<char>, Option<u16>)>, name: Seq<char>) -> Option<
    int,
>
    decreases icons.len(),
{
    if icons.len() == 0 {
        None
    } else {
        let b = best_icon(icons.drop_last(), name);
        let last = icons.last();
        if icon_key(last) == name && (b is None || icon_rank(last.2) > icon_rank(icons[b->0].2)) {
            Some(icons.len() - 1)
        } else {
            b
        }
    }
}

/// The choice of icon is the largest known size for the name, an unknown
/// size only where no size is known, and the earliest among equals; there is
/// a choice exactly when some icon has the name.
pub proof fn lemma_icon_tie_break(icons: Seq<(Seq<char>, Seq<char>, Option<u16>)>, name: Seq<char>)
    ensures
        match best_icon(icons, name) {
            Some(k) => {
                &&& 0 <= k < icons.len()
                &&& icon_key(icons[k]) == name
                &&& forall|j: int|
                    0 <= j < icons.len() && icon_key(icons[j]) == name ==> icon_rank(icons[j].2)
                        <= icon_rank(icons[k].2)
                &&& forall|j: int|
                    0 <= j < k && icon_key(icons[j]) == name ==> icon_rank(icons[j].2) < icon_rank(
                        icons[k].2,
                    )
            },
            None => forall|j: int| 0 <= j < icons.len() ==> icon_key(icons[j]) != name,
        },
    decreases icons.len(),
{
    if icons.len() > 0 {
        let p = icons.drop_last();
        lemma_icon_tie_break(p, name);
        assert forall|j: int| 0 <= j < p.len() implies p[j] == icons[j] by {}
    }
}

/// Which icon the index offers for `name`.
pub fn best_icon_for(icons: &Vec<AppIcon>, name: &str) -> (r: Option<usize>)
    ensures
        r == (match best_icon(icons@.map_values(|i: AppIcon| i@), name@) {
            Some(k) => Some(k as usize),
            None => None::<usize>,
        }),
        r matches Some(k) ==> k < icons@.len(),
{
    let ghost iv = icons@.map_values(|i: AppIcon| i@);
    let want = chars_of(name);
    let mut best: Option<usize> = None;
    let mut i: usize = 0;
    while i < icons.len()
        invariant
            iv == icons@.map_values(|x: AppIcon| x@),
            want@ == name@,
            i <= icons@.len(),
            best == (match best_icon(iv.take(i as int), name@) {
                Some(k) => Some(k as usize),
                None => None::<usize>,
            }),
            best matches Some(k) ==> k < i,
        decreases icons@.len() - i,
    {
        proof {
            lemma_icon_tie_break(iv.take(i as int), name@);
        }
        assert(iv.take(i + 1).drop_last() =~= iv.take(i as int));
        let ghost t = iv.take(i + 1);
        assert(t.last() == icons@[i as int]@);
        let icon = &icons[i];
        let here = file_stem_of(&chars_of(icon.name.as_str()), false);
        if chars_eq(&here, &want) {
            let better = match best {
                None => true,
                Some(b) => {
                    assert(iv.take(i as int)[b as int] == t[b as int]);
                    match (icon.dimensions, icons[b].dimensions) {
                        (Some(x), Some(y)) => x > y,
                        (Some(_), None) => true,
                        (None, _) => false,
                    }
                },
            };
            if better {
                best = Some(i);
            }
        }
        i = i + 1;
    }
    assert(iv.take(icons@.len() as int) =~= iv);
    best
}

/// `l` with `x` placed after every icon of at least its rank.
pub open spec fn insert_by_size(
    l: Seq<(Seq<char>, Seq<char>, Option<u16>)>,
    x: (Seq<char>, Seq<char>, Option<u16>),
) -> Seq<(Seq<char>, Seq<char>, Option<u16>)>
    decreases l.len(),
{
    if l.len() == 0 {
        seq![x]
    } else if icon_rank(x.2) > icon_rank(l[0].2) {
        seq![x] + l
    } else {
        seq![l[0]] + insert_by_size(l.drop_first(), x)
    }
}

/// The index's entry for `name`: the icons of that name, each once, by
/// descending size, unknown sizes last, equals in the order found.
pub open spec fn candidates(icons: Seq<(Seq<char>, Seq<char>, Option<u16>)>, name: Seq<char>) -> Seq<
    (Seq<char>, Seq<char>, Option<u16>),
>
    decreases icons.len(),
{
    if icons.len() == 0 {
        seq![]
    } else {
        let c = candidates(icons.drop_last(), name);
        let x = icons.last();
        if icon_key(x) == name && !c.contains(x) {
            insert_by_size(c, x)
        } else {
            c
        }
    }
}

/// Whether the icons come by descending size, unknown sizes last.
pub open spec fn by_size(l: Seq<(Seq<char>, Seq<char>, Option<u16>)>) -> bool {
    forall|i: int, j: int| 0 <= i < j < l.len() ==> icon_rank(l[i].2) >= icon_rank(l[j].2)
}

proof fn lemma_insert_by_size(
    l: Seq<(Seq<char>, Seq<char>, Option<u16>)>,
    x: (Seq<char>, Seq<char>, Option<u16>),
)
    ensures
        insert_by_size(l, x).len() == l.len() + 1,
        forall|y: (Seq<char>, Seq<char>, Option<u16>)|
            #[trigger] insert_by_size(l, x).contains(y) <==> (l.contains(y) || y == x),
        by_size(l) ==> by_size(insert_by_size(l, x)),
        l.no_duplicates() && !l.contains(x) ==> insert_by_size(l, x).no_duplicates(),
        insert_by_size(l, x)[0] == (if l.len() == 0 || icon_rank(x.2) > icon_rank(l[0].2) {
            x
        } else {
            l[0]
        }),
    decreases l.len(),
{
    let r = insert_by_size(l, x);
    if l.len() == 0 {
        assert forall|y: (Seq<char>, Seq<char>, Option<u16>)| r.contains(y) <==> (l.contains(y) || y == x) by {
            if y == x {
                assert(r[0] == x);
            }
        }
    } else if icon_rank(x.2) > icon_rank(l[0].2) {
        assert forall|y: (Seq<char>, Seq<char>, Option<u16>)| r.contains(y) <==> (l.contains(y) || y == x) by {
            if l.contains(y) {
                let k = choose|k: int| 0 <= k < l.len() && l[k] == y;
                assert(r[k + 1] == y);
            }
            if y == x {
                assert(r[0] == x);
            }
            if r.contains(y) && y != x {
                let k = choose|k: int| 0 <= k < r.len() && r[k] == y;
                assert(l[k - 1] == y);
            }
        }
        if by_size(l) {
            assert forall|i: int, j: int| 0 <= i < j < r.len() implies icon_rank(r[i].2) >= icon_rank(r[j].2) by {
                if i > 0 {
                    assert(r[i] == l[i - 1] && r[j] == l[j - 1]);
                } else {
                    assert(r[j] == l[j - 1]);
                    assert(icon_rank(l[0].2) >= icon_rank(l[j - 1].2));
                }
            }
        }
        if l.no_duplicates() && !l.contains(x) {
            assert forall|i: int, j: int| 0 <= i < j < r.len() implies r[i] != r[j] by {
                if i > 0 {
                    assert(r[i] == l[i - 1] && r[j] == l[j - 1]);
                } else {
                    assert(r[j] == l[j - 1]);
                }
            }
        }
    } else {
        let t = l.drop_first();
        lemma_insert_by_size(t, x);
        let rt = insert_by_size(t, x);
        assert(r == seq![l[0]] + rt);
        assert forall|y: (Seq<char>, Seq<char>, Option<u16>)| r.contains(y) <==> (l.contains(y) || y == x) by {
            if l.contains(y) {
                let k = choose|k: int| 0 <= k < l.len() && l[k] == y;
                if k == 0 {
                    assert(r[0] == y);
                } else {
                    assert(t[k - 1] == y);
                    assert(t.contains(y));
                    assert(rt.contains(y));
                    let m = choose|m: int| 0 <= m < rt.len() && rt[m] == y;
                    assert(r[m + 1] == y);
                }
            }
            if y == x {
                assert(rt.contains(x));
                let m = choose|m: int| 0 <= m < rt.len() && rt[m] == x;
                assert(r[m + 1] == x);
            }
            if r.contains(y) {
                let k = choose|k: int| 0 <= k < r.len() && r[k] == y;
                if k == 0 {
                    assert(l[0] == y);
                } else {
                    assert(rt[k - 1] == y);
                    assert(rt.contains(y));
                    if y != x {
                        assert(t.contains(y));
                        let m = choose|m: int| 0 <= m < t.len() && t[m] == y;
                        assert(l[m + 1] == y);
                    }
                }
            }
        }
        if by_size(l) {
            assert(by_size(t)) by {
                assert forall|i: int, j: int| 0 <= i < j < t.len() implies icon_rank(t[i].2) >= icon_rank(t[j].2) by {
                    assert(t[i] == l[i + 1] && t[j] == l[j + 1]);
                }
            }
            assert forall|i: int, j: int| 0 <= i < j < r.len() implies icon_rank(r[i].2) >= icon_rank(r[j].2) by {
                if i > 0 {
                    assert(r[i] == rt[i - 1] && r[j] == rt[j - 1]);
                } else {
                    assert(r[j] == rt[j - 1]);
                    assert(rt.contains(rt[j - 1]));
                    let y = rt[j - 1];
                    if y != x {
                        let m = choose|m: int| 0 <= m < t.len() && t[m] == y;
                        assert(l[m + 1] == y);
                    }
                }
            }
        }
        if l.no_duplicates() && !l.contains(x) {
            assert(t.no_duplicates()) by {
                assert forall|i: int, j: int| 0 <= i < j < t.len() implies t[i] != t[j] by {
                    assert(t[i] == l[i + 1] && t[j] == l[j + 1]);
                }
            }
            assert(!t.contains(x)) by {
                if t.contains(x) {
                    let m = choose|m: int| 0 <= m < t.len() && t[m] == x;
                    assert(l[m + 1] == x);
                }
            }
            assert forall|i: int, j: int| 0 <= i < j < r.len() implies r[i] != r[j] by {
                if i > 0 {
                    assert(r[i] == rt[i - 1] && r[j] == rt[j - 1]);
                } else {
                    assert(r[j] == rt[j - 1]);
                    assert(rt.contains(rt[j - 1]));
                    if rt[j - 1] == l[0] {
                        assert(l[0] != x);
                        assert(t.contains(l[0]));
                        let m = choose|m: int| 0 <= m < t.len() && t[m] == l[0];
                        assert(l[m + 1] == l[0]);
                    }
                }
            }
        }
    }
}

/// The index's entry for a name holds exactly the icons of that name, each
/// once, by descending size with unknown sizes last; its head is the icon
/// that resolution chooses, and it is empty exactly when none is chosen.
pub proof fn lemma_candidates(icons: Seq<(Seq<char>, Seq<char>, Option<u16>)>, name: Seq<char>)
    ensures
        by_size(candidates(icons, name)),
        candidates(icons, name).no_duplicates(),
        forall|y: (Seq<char>, Seq<char>, Option<u16>)|
            #[trigger] candidates(icons, name).contains(y) <==> (icons.contains(y) && icon_key(y)
                == name),
        candidates(icons, name).len() > 0 <==> best_icon(icons, name) is Some,
        candidates(icons, name).len() > 0 ==> candidates(icons, name)[0] == icons[best_icon(
            icons,
            name,
        )->0],
    decreases icons.len(),
{
    lemma_icon_tie_break(icons, name);
    if icons.len() > 0 {
        let p = icons.drop_last();
        let x = icons.last();
        lemma_candidates(p, name);
        lemma_icon_tie_break(p, name);
        let c = candidates(p, name);
        lemma_insert_by_size(c, x);
        let b = best_icon(p, name);
        if b is Some {
            assert(icons[b->0] == p[b->0]);
        }
        assert forall|y: (Seq<char>, Seq<char>, Option<u16>)|
            #[trigger] candidates(icons, name).contains(y) <==> (icons.contains(y) && icon_key(y)
                == name) by {
            assert(c.contains(y) <==> (p.contains(y) && icon_key(y) == name));
            if icon_key(x) == name && !c.contains(x) {
                assert(candidates(icons, name) == insert_by_size(c, x));
                assert(insert_by_size(c, x).contains(y) <==> (c.contains(y) || y == x));
            } else {
                assert(candidates(icons, name) == c);
            }
            if icons.contains(y) && y != x {
                let k = choose|k: int| 0 <= k < icons.len() && icons[k] == y;
                assert(p[k] == y);
            }
            if p.contains(y) {
                let k = choose|k: int| 0 <= k < p.len() && p[k] == y;
                assert(icons[k] == y);
            }
            if y == x {
                assert(icons[icons.len() - 1] == x);
            }
        }
        if icon_key(x) == name && c.contains(x) {
            let k = choose|k: int| 0 <= k < c.len() && c[k] == x;
            if k > 0 {
                assert(icon_rank(c[0].2) >= icon_rank(c[k].2));
            }
        }
    }
}

/// The views of a sequence of icons.
pub open spec fn icons_view(v: Seq<AppIcon>) -> Seq<(Seq<char>, Seq<char>, Option<u16>)> {
    v.map_values(|i: AppIcon| i@)
}

/// The index's entry for `name`; see [`candidates`].
pub fn icon_candidates(icons: &Vec<AppIcon>, name: &str) -> (r: Vec<AppIcon>)
    ensures
        r@.map_values(|i: AppIcon| i@) == candidates(icons@.map_values(|i: AppIcon| i@), name@),
        by_size(r@.map_values(|i: AppIcon| i@)),
        r@.map_values(|i: AppIcon| i@).no_duplicates(),
        forall|y: (Seq<char>, Seq<char>, Option<u16>)|
            #[trigger] icons_view(r@).contains(y) <==> (icons_view(icons@).contains(y) && icon_key(y)
                == name@),
{
    proof {
        lemma_candidates(icons@.map_values(|i: AppIcon| i@), name@);
    }
    let ghost iv = icons@.map_values(|i: AppIcon| i@);
    let want = chars_of(name);
    let mut c: Vec<AppIcon> = Vec::new();
    let mut i: usize = 0;
    while i < icons.len()
        invariant
            iv == icons@.map_values(|x: AppIcon| x@),
            want@ == name@,
            i <= icons@.len(),
            c@.map_values(|x: AppIcon| x@) == candidates(iv.take(i as int), name@),
        decreases icons@.len() - i,
    {
        let ghost t = iv.take(i + 1);
        assert(t.drop_last() =~= iv.take(i as int));
        assert(t.last() == icons@[i as int]@);
        let icon = &icons[i];
        let key = file_stem_of(&chars_of(icon.name.as_str()), false);
        if chars_eq(&key, &want) && !holds_icon(&c, icon) {
            c = insert_icon(&c, icon);
        }
        i = i + 1;
    }
    assert(iv.take(icons@.len() as int) =~= iv);
    c
}

/// The rank of a size, as [`icon_rank`] gives it.
fn rank_of(d: Option<u16>) -> (r: u32)
    ensures
        r as int == icon_rank(d),
{
    match d {
        Some(x) => x as u32 + 1,
        None => 0,
    }
}

/// Whether `c` holds an icon equal to `icon`.
fn holds_icon(c: &Vec<AppIcon>, icon: &AppIcon) -> (r: bool)
    ensures
        r == c@.map_values(|i: AppIcon| i@).contains(icon@),
{
    let ghost cv = c@.map_values(|i: AppIcon| i@);
    let mut k: usize = 0;
    while k < c.len()
        invariant
            cv == c@.map_values(|i: AppIcon| i@),
            k <= c@.len(),
            forall|j: int| 0 <= j < k ==> cv[j] != icon@,
        decreases c@.len() - k,
    {
        if c[k].name == icon.name && c[k].path == icon.path && c[k].dimensions == icon.dimensions {
            assert(cv[k as int] == icon@);
            return true;
        }
        k = k + 1;
    }
    false
}

/// `c` with `icon` placed after every icon of at least its rank.
fn insert_icon(c: &Vec<AppIcon>, icon: &AppIcon) -> (r: Vec<AppIcon>)
    ensures
        r@.map_values(|i: AppIcon| i@) == insert_by_size(c@.map_values(|i: AppIcon| i@), icon@),
{
    let ghost cv = c@.map_values(|i: AppIcon| i@);
    let x = rank_of(icon.dimensions);
    let mut r: Vec<AppIcon> = Vec::new();
    let mut k: usize = 0;
    assert(cv.skip(0) =~= cv);
    assert(cv.take(0) + insert_by_size(cv, icon@) =~= insert_by_size(cv, icon@));
    while k < c.len() && rank_of(c[k].dimensions) >= x
        invariant
            cv == c@.map_values(|i: AppIcon| i@),
            x as int == icon_rank(icon@.2),
            k <= c@.len(),
            r@.map_values(|i: AppIcon| i@) == cv.take(k as int),
            insert_by_size(cv, icon@) == cv.take(k as int) + insert_by_size(cv.skip(k as int), icon@),
        decreases c@.len() - k,
    {
        let ghost rest = cv.skip(k as int);
        assert(rest[0] == cv[k as int]);
        assert(rest.drop_first() =~= cv.skip(k + 1));
        assert(cv.take(k as int) + seq![rest[0]] =~= cv.take(k + 1));
        assert(cv.take(k as int) + (seq![rest[0]] + insert_by_size(cv.skip(k + 1), icon@)) =~= cv.take(
            k + 1,
        ) + insert_by_size(cv.skip(k + 1), icon@));
        r.push(c[k].clone_icon());
        assert(r@.map_values(|i: AppIcon| i@) =~= cv.take(k + 1));
        k = k + 1;
    }
    let ghost rest = cv.skip(k as int);
    assert(insert_by_size(rest, icon@) =~= seq![icon@] + rest);
    r.push(icon.clone_icon());
    let mut m: usize = k;
    assert(r@.map_values(|i: AppIcon| i@) =~= cv.take(k as int) + seq![icon@]);
    while m < c.len()
        invariant
            cv == c@.map_values(|i: AppIcon| i@),
            k <= m <= c@.len(),
            r@.map_values(|i: AppIcon| i@) == cv.take(k as int) + seq![icon@] + cv.subrange(
                k as int,
                m as int,
            ),
        decreases c@.len() - m,
    {
        let ghost before = r@.map_values(|i: AppIcon| i@);
        let d = c[m].clone_icon();
        assert(d@ == cv[m as int]);
        r.push(d);
        assert(r@.map_values(|i: AppIcon| i@) =~= before.push(d@));
        assert(r@.map_values(|i: AppIcon| i@) =~= cv.take(k as int) + seq![icon@] + cv.subrange(
            k as int,
            m + 1,
        ));
        m = m + 1;
    }
    assert(cv.subrange(k as int, c@.len() as int) =~= rest);
    assert(insert_by_size(cv, icon@) =~= cv.take(k as int) + seq![icon@] + rest);
    r
}

/// The app with its icon reference resolved: a reference that names no
/// existing file is looked up by name in the icon index, and dropped where
/// the index has no icon of that name.
pub open spec fn resolve_icon(
    app: AppView,
    icon_exists: bool,
    icons: Seq<(Seq<char>, Seq<char>, Option<u16>)>,
) -> AppView {
    match app.icon_path {
        Some(reference) => if icon_exists {
            app
        } else {
            match best_icon(icons, reference) {
                Some(k) => AppView { icon_path: Some(icons[k].1), ..app },
                None => AppView { icon_path: None, ..app },
            }
        },
        None => app,
    }
}

/// One `.desktop` file that a scan found.
#[derive(Debug, Clone)]
pub struct DesktopFile {
    /// Where the file lies.
    pub path: String,
    /// Its text.
    pub content: String,
    /// Whether the icon reference that the file names exists as a file.
    pub icon_exists: bool,
}

/// The apps that `files` describe, in order, without those that may not be
/// shown, with icons resolved against `icons`.
pub open spec fn linux_raw(
    files: Seq<DesktopFile>,
    icons: Seq<(Seq<char>, Seq<char>, Option<u16>)>,
) -> Seq<AppView>
    decreases files.len(),
{
    if files.len() == 0 {
        seq![]
    } else {
        let r = linux_raw(files.drop_last(), icons);
        let f = files.last();
        if is_displayed(f.content@) {
            r.push(resolve_icon(desktop_app(f.path@, f.content@), f.icon_exists, icons))
        } else {
            r
        }
    }
}

/// The app that one `.desktop` file describes, its icon resolved.
pub fn app_from_desktop_file(file: &DesktopFile, icons: &Vec<AppIcon>) -> (r: Option<App>)
    ensures
        match r {
            Some(a) => is_displayed(file.content@) && a@ == resolve_icon(
                desktop_app(file.path@, file.content@),
                file.icon_exists,
                icons@.map_values(|i: AppIcon| i@),
            ),
            None => !is_displayed(file.content@),
        },
{
    let (mut app, display) = parse_desktop_file(file.path.as_str(), file.content.as_str());
    if !display {
        return None;
    }
    let ghost iv = icons@.map_values(|i: AppIcon| i@);
    let ghost parsed = app@;
    proof {
        if parsed.icon_path is Some {
            lemma_icon_tie_break(iv, parsed.icon_path->0);
        }
    }
    if !file.icon_exists {
        let resolved: Option<Option<String>> = match &app.icon_path {
            Some(reference) => {
                assert(reference@ == parsed.icon_path->0);
                let rs = reference.as_str();
                assert(rs@ == parsed.icon_path->0);
                let found = best_icon_for(icons, rs);
                assert(found == (match best_icon(iv, rs@) {
                    Some(k) => Some(k as usize),
                    None => None::<usize>,
                }));
                match found {
                    Some(k) => {
                        assert(iv[k as int].1 == icons@[k as int].path@);
                        proof {
                            lemma_icon_tie_break(iv, rs@);
                        }
                        let ghost b = best_icon(iv, rs@);
                        assert(b is Some);
                        assert(iv.len() == icons.len());
                        assert(0 <= b->0 < iv.len());
                        assert(b->0 == k as int);
                        Some(Some(icons[k].path.clone()))
                    },
                    None => {
                        assert(best_icon(iv, parsed.icon_path->0) is None);
                        Some(None)
                    },
                }
            },
            None => None,
        };
        match resolved {
            Some(icon) => {
                app.icon_path = icon;
            },
            None => {},
        }
    }
    Some(app)
}

/// The Linux app list of one scan: the apps that `files` describe, without
/// those marked `NoDisplay=true`, icons resolved against the index `icons`,
/// each app once, in the order first found.
pub fn get_all_apps(files: &Vec<DesktopFile>, icons: &Vec<AppIcon>) -> (r: Vec<App>)
    ensures
        apps_view(r@) == dedup(linux_raw(files@, icons@.map_values(|i: AppIcon| i@))),
{
    let ghost iv = icons@.map_values(|i: AppIcon| i@);
    let mut rec = Reconciler::new();
    let mut i: usize = 0;
    assert(apps_view(rec.apps@) =~= dedup(linux_raw(files@.take(0), iv)));
    while i < files.len()
        invariant
            iv == icons@.map_values(|x: AppIcon| x@),
            i <= files@.len(),
            apps_view(rec.apps@) == dedup(linux_raw(files@.take(i as int), iv)),
        decreases files@.len() - i,
    {
        let ghost t = files@.take(i + 1);
        assert(t.drop_last() =~= files@.take(i as int));
        assert(t.last() == files@[i as int]);
        let ghost prev = linux_raw(files@.take(i as int), iv);
        match app_from_desktop_file(&files[i], icons) {
            Some(app) => {
                assert(linux_raw(t, iv) == prev.push(app@));
                assert(prev.push(app@).drop_last() =~= prev);
                rec.insert(app);
            },
            None => {
                assert(linux_raw(t, iv) == prev);
            },
        }
        i = i + 1;
    }
    assert(files@.take(files@.len() as int) =~= files@);
    rec.apps
}

impl DesktopFile {
    /// A copy of this file record.
    pub fn duplicate(&self) -> (r: DesktopFile)
        ensures
            r == *self,
    {
        DesktopFile { path: self.path.clone(), content: self.content.clone(), icon_exists: self.icon_exists }
    }
}

/// The first of `files` read at `p`.
pub open spec fn file_at(files: Seq<DesktopFile>, p: Seq<char>) -> Option<DesktopFile>
    decreases files.len(),
{
    if files.len() == 0 {
        None
    } else if files[0].path@ == p {
        Some(files[0])
    } else {
        file_at(files.drop_first(), p)
    }
}

/// The files read at `paths`, in order; a path that could not be read is
/// left out.
pub open spec fn files_of(paths: Seq<Seq<char>>, files: Seq<DesktopFile>) -> Seq<DesktopFile>
    decreases paths.len(),
{
    if paths.len() == 0 {
        seq![]
    } else {
        let r = files_of(paths.drop_last(), files);
        match file_at(files, paths.last()) {
            Some(f) => r.push(f),
            None => r,
        }
    }
}

/// What the walk below the `i`-th root found; nothing where no walk is given.
pub open spec fn walk_of(walks: Seq<Vec<WalkEntry>>, i: int) -> Seq<WalkEntry> {
    if 0 <= i < walks.len() {
        walks[i]@
    } else {
        seq![]
    }
}

/// The `.desktop` files below the `i`-th root, within its depth.
pub open spec fn root_descriptors(roots: Seq<SearchPath>, walks: Seq<Vec<WalkEntry>>, i: int) -> Seq<
    Seq<char>,
> {
    descriptors(walk_of(walks, i), roots[i].depth, false, "desktop"@, false)
}

/// The files that a scan of `roots` reads, root by root, in walk order.
pub open spec fn scanned_files(
    roots: Seq<SearchPath>,
    walks: Seq<Vec<WalkEntry>>,
    files: Seq<DesktopFile>,
) -> Seq<DesktopFile>
    decreases roots.len(),
{
    if roots.len() == 0 {
        seq![]
    } else {
        scanned_files(roots.drop_last(), walks, files) + files_of(
            root_descriptors(roots, walks, roots.len() - 1),
            files,
        )
    }
}

/// Where the first of `files` read at `p` stands.
fn find_file(files: &Vec<DesktopFile>, p: &String) -> (r: Option<usize>)
    ensures
        match r {
            Some(k) => k < files@.len() && file_at(files@, p@) == Some(files@[k as int]),
            None => file_at(files@, p@) is None,
        },
{
    let mut k: usize = 0;
    assert(files@.skip(0) =~= files@);
    while k < files.len()
        invariant
            k <= files@.len(),
            file_at(files@, p@) == file_at(files@.skip(k as int), p@),
        decreases files@.len() - k,
    {
        assert(files@.skip(k as int)[0] == files@[k as int]);
        assert(files@.skip(k as int).drop_first() =~= files@.skip(k + 1));
        if files[k].path == *p {
            return Some(k);
        }
        k = k + 1;
    }
    None
}

/// The Linux app list of a scan over `roots`: `walks[i]` is what the walk
/// below `roots[i]` found and `files` the `.desktop` files that could be
/// read. The `.desktop` files within each root's depth are taken, root by
/// root, and their apps listed as [`get_all_apps`] lists them.
pub fn scan_roots(
    roots: &Vec<SearchPath>,
    walks: &Vec<Vec<WalkEntry>>,
    files: &Vec<DesktopFile>,
    icons: &Vec<AppIcon>,
) -> (r: Vec<App>)
    ensures
        apps_view(r@) == dedup(linux_raw(scanned_files(roots@, walks@, files@), icons_view(icons@))),
{
    let empty: Vec<WalkEntry> = Vec::new();
    let mut found: Vec<DesktopFile> = Vec::new();
    let mut i: usize = 0;
    assert(found@ =~= scanned_files(roots@.take(0), walks@, files@));
    while i < roots.len()
        invariant
            i <= roots@.len(),
            empty@.len() == 0,
            found@ == scanned_files(roots@.take(i as int), walks@, files@),
        decreases roots@.len() - i,
    {
        let walk = if i < walks.len() {
            &walks[i]
        } else {
            &empty
        };
        assert(walk@ =~= walk_of(walks@, i as int));
        let sel = select_descriptors(&roots[i], walk, false, "desktop", false);
        let ghost t = roots@.take(i + 1);
        assert(t.drop_last() =~= roots@.take(i as int));
        assert(root_descriptors(t, walks@, i as int) == root_descriptors(roots@, walks@, i as int));
        let ghost sv = crate::scan::strs_view(sel@);
        let ghost before = found@;
        let mut j: usize = 0;
        assert(sv.take(0) =~= Seq::<Seq<char>>::empty());
        assert(before + files_of(sv.take(0), files@) =~= before);
        while j < sel.len()
            invariant
                sv == crate::scan::strs_view(sel@),
                j <= sel@.len(),
                found@ == before + files_of(sv.take(j as int), files@),
            decreases sel@.len() - j,
        {
            assert(sv.take(j + 1).drop_last() =~= sv.take(j as int));
            assert(sv.take(j + 1).last() == sel@[j as int]@);
            match find_file(files, &sel[j]) {
                Some(k) => {
                    let f = files[k].duplicate();
                    found.push(f);
                    assert(found@ =~= before + files_of(sv.take(j + 1), files@));
                },
                None => {},
            }
            j = j + 1;
        }
        assert(sv.take(sel@.len() as int) =~= sv);
        assert(found@ == scanned_files(t, walks@, files@));
        i = i + 1;
    }
    assert(roots@.take(roots@.len() as int) =~= roots@);
    get_all_apps(&found, icons)
}

proof fn lemma_file_at(files: Seq<DesktopFile>, p: Seq<char>)
    ensures
        file_at(files, p) matches Some(f) ==> f.path@ == p,
    decreases files.len(),
{
    if files.len() > 0 && files[0].path@ != p {
        lemma_file_at(files.drop_first(), p);
    }
}

proof fn lemma_files_of(paths: Seq<Seq<char>>, files: Seq<DesktopFile>)
    ensures
        forall|k: int|
            0 <= k < files_of(paths, files).len() ==> #[trigger] paths.contains(
                files_of(paths, files)[k].path@,
            ),
    decreases paths.len(),
{
    if paths.len() > 0 {
        let p = paths.drop_last();
        lemma_files_of(p, files);
        lemma_file_at(files, paths.last());
        let r = files_of(paths, files);
        let rp = files_of(p, files);
        assert forall|k: int| 0 <= k < r.len() implies #[trigger] paths.contains(r[k].path@) by {
            if k < rp.len() {
                assert(r[k] == rp[k]);
                assert(p.contains(rp[k].path@));
                let m = choose|m: int| 0 <= m < p.len() && p[m] == rp[k].path@;
                assert(paths[m] == p[m]);
            } else {
                assert(paths[paths.len() - 1] == r[k].path@);
            }
        }
    }
}

proof fn lemma_scanned_within_roots(
    roots: Seq<SearchPath>,
    walks: Seq<Vec<WalkEntry>>,
    files: Seq<DesktopFile>,
)
    ensures
        forall|k: int|
            0 <= k < scanned_files(roots, walks, files).len() ==> exists|i: int, j: int|
                0 <= i < roots.len() && 0 <= j < walk_of(walks, i).len() && walk_of(walks, i)[j].path@
                    == #[trigger] scanned_files(roots, walks, files)[k].path@ && 1 <= walk_of(
                    walks,
                    i,
                )[j].depth <= roots[i].depth,
    decreases roots.len(),
{
    if roots.len() > 0 {
        let p = roots.drop_last();
        let last = roots.len() - 1;
        lemma_scanned_within_roots(p, walks, files);
        let d = root_descriptors(roots, walks, last);
        lemma_files_of(d, files);
        lemma_depth_bound(walk_of(walks, last), roots[last].depth, false, "desktop"@, false);
        let sp = scanned_files(p, walks, files);
        let fl = files_of(d, files);
        let s = scanned_files(roots, walks, files);
        assert(s == sp + fl);
        assert forall|k: int| 0 <= k < s.len() implies exists|i: int, j: int|
            0 <= i < roots.len() && 0 <= j < walk_of(walks, i).len() && walk_of(walks, i)[j].path@
                == #[trigger] s[k].path@ && 1 <= walk_of(walks, i)[j].depth <= roots[i].depth by {
            if k < sp.len() {
                assert(s[k] == sp[k]);
                let (i, j) = choose|i: int, j: int|
                    0 <= i < p.len() && 0 <= j < walk_of(walks, i).len() && walk_of(walks, i)[j].path@
                        == sp[k].path@ && 1 <= walk_of(walks, i)[j].depth <= p[i].depth;
                assert(p[i] == roots[i]);
            } else {
                assert(s[k] == fl[k - sp.len()]);
                assert(d.contains(fl[k - sp.len()].path@));
                let m = choose|m: int| 0 <= m < d.len() && d[m] == fl[k - sp.len()].path@;
                assert(0 <= m < d.len());
            }
        }
    }
}

/// Every app of a scan over `roots` comes from a `.desktop` file that the
/// walk below one of the roots found between one and that root's depth
/// levels down: a root of depth 0 contributes nothing.
pub proof fn lemma_scan_depth_bound(
    roots: Seq<SearchPath>,
    walks: Seq<Vec<WalkEntry>>,
    files: Seq<DesktopFile>,
    icons: Seq<(Seq<char>, Seq<char>, Option<u16>)>,
)
    ensures
        forall|a: AppView|
            #[trigger] dedup(linux_raw(scanned_files(roots, walks, files), icons)).contains(a)
                ==> exists|i: int, j: int|
                0 <= i < roots.len() && 0 <= j < walk_of(walks, i).len() && walk_of(walks, i)[j].path@
                    == a.app_desktop_path && 1 <= walk_of(walks, i)[j].depth <= roots[i].depth,
{
    let s = scanned_files(roots, walks, files);
    lemma_raw_sources(s, icons);
    crate::common::lemma_dedup_contains(linux_raw(s, icons));
    lemma_scanned_within_roots(roots, walks, files);
    assert forall|a: AppView| #[trigger] dedup(linux_raw(s, icons)).contains(a) implies exists|i: int, j: int|
        0 <= i < roots.len() && 0 <= j < walk_of(walks, i).len() && walk_of(walks, i)[j].path@
            == a.app_desktop_path && 1 <= walk_of(walks, i)[j].depth <= roots[i].depth by {
        assert(linux_raw(s, icons).contains(a));
        let k = choose|k: int|
            0 <= k < s.len() && is_displayed(s[k].content@) && a.app_desktop_path == s[k].path@;
        assert(s[k].path@ == a.app_desktop_path);
    }
}

proof fn lemma_raw_sources(
    files: Seq<DesktopFile>,
    icons: Seq<(Seq<char>, Seq<char>, Option<u16>)>,
)
    ensures
        forall|a: AppView|
            #[trigger] linux_raw(files, icons).contains(a) ==> exists|j: int|
                0 <= j < files.len() && is_displayed(files[j].content@) && a.app_desktop_path
                    == files[j].path@,
    decreases files.len(),
{
    if files.len() > 0 {
        let p = files.drop_last();
        lemma_raw_sources(p, icons);
        assert forall|a: AppView| #[trigger] linux_raw(files, icons).contains(a) implies exists|j: int|
            0 <= j < files.len() && is_displayed(files[j].content@) && a.app_desktop_path
                == files[j].path@ by {
            let r = linux_raw(p, icons);
            let k = choose|k: int| 0 <= k < linux_raw(files, icons).len() && linux_raw(files, icons)[k] == a;
            if k < r.len() {
                assert(r[k] == a);
                assert(r.contains(a));
                let j = choose|j: int|
                    0 <= j < p.len() && is_displayed(p[j].content@) && a.app_desktop_path
                        == p[j].path@;
                assert(files[j] == p[j]);
            } else {
                assert(files[files.len() - 1] == files.last());
            }
        }
    }
}

/// A `.desktop` file that says `NoDisplay=true` gives no app in the final
/// list, whatever else it holds, where every file found at its path holds
/// its text.
pub proof fn lemma_nodisplay_suppressed(
    files: Seq<DesktopFile>,
    icons: Seq<(Seq<char>, Seq<char>, Option<u16>)>,
    i: int,
)
    requires
        0 <= i < files.len(),
        ini_value(files[i].content@, "desktop entry"@, "nodisplay"@) == Some("true"@),
        forall|j: int|
            0 <= j < files.len() && files[j].path@ == files[i].path@ ==> files[j].content@
                == files[i].content@,
    ensures
        forall|a: AppView|
            #[trigger] dedup(linux_raw(files, icons)).contains(a) ==> a.app_desktop_path
                != files[i].path@,
{
    lemma_raw_sources(files, icons);
    crate::common::lemma_dedup_contains(linux_raw(files, icons));
    assert forall|a: AppView| #[trigger] dedup(linux_raw(files, icons)).contains(a) implies a.app_desktop_path
        != files[i].path@ by {
        assert(linux_raw(files, icons).contains(a));
        if a.app_desktop_path == files[i].path@ {
            let j = choose|j: int|
                0 <= j < files.len() && is_displayed(files[j].content@) && a.app_desktop_path
                    == files[j].path@;
            assert(files[j].content@ == files[i].content@);
        }
    }
}

/// The default roots that hold `.desktop` files, each scanned one level
/// deep: the system and snap application folders, the session and autostart
/// folders, the user's own applications below `home`, and each directory of
/// `xdg_data_dirs` (`/usr/share` when it is not set).
pub open spec fn default_search_paths(xdg_data_dirs: Option<Seq<char>>, home: Seq<char>) -> Seq<
    (Seq<char>, u8),
> {
    let xdg = match xdg_data_dirs {
        Some(d) => d,
        None => "/usr/share"@,
    };
    seq![
        ("/usr/share/applications"@, 1u8),
        ("/usr/share/xsessions"@, 1u8),
        ("/etc/xdg/autostart"@, 1u8),
        ("/var/lib/snapd/desktop/applications"@, 1u8),
        (join(home, ".local/share/applications"@, false), 1u8),
    ] + split(xdg, ':').map_values(|d: Seq<char>| (d, 1u8))
}

/// The default Linux search roots, from the values of `XDG_DATA_DIRS` and
/// `HOME`; without a home directory there is no complete list.
pub fn get_default_search_paths(xdg_data_dirs: Option<String>, home: Option<String>) -> (r: Result<
    Vec<SearchPath>,
    AppError,
>)
    ensures
        match r {
            Ok(v) => home is Some && crate::common::paths_view(v@) == default_search_paths(
                opt_view(xdg_data_dirs),
                home->0@,
            ),
            Err(e) => home is None && e == AppError::MissingEnvironment,
        },
{
    let home = match home {
        Some(h) => h,
        None => {
            return Err(AppError::MissingEnvironment);
        },
    };
    let xdg = match xdg_data_dirs {
        Some(d) => chars_of(d.as_str()),
        None => chars_of("/usr/share"),
    };
    let h = chars_of(home.as_str());
    let rel = chars_of(".local/share/applications");
    let local = join_path(&h, &rel, false);
    let mut v: Vec<SearchPath> = Vec::new();
    v.push(SearchPath::new("/usr/share/applications".to_string(), 1));
    v.push(SearchPath::new("/usr/share/xsessions".to_string(), 1));
    v.push(SearchPath::new("/etc/xdg/autostart".to_string(), 1));
    v.push(SearchPath::new("/var/lib/snapd/desktop/applications".to_string(), 1));
    v.push(SearchPath::new(string_of(&local), 1));
    let ghost head = crate::common::paths_view(v@);
    let dirs = split_on(&xdg, ':');
    let ghost dv = dirs@.map_values(|d: Vec<char>| d@);
    let mut i: usize = 0;
    while i < dirs.len()
        invariant
            dv == dirs@.map_values(|d: Vec<char>| d@),
            i <= dirs@.len(),
            crate::common::paths_view(v@) == head + dv.take(i as int).map_values(
                |d: Seq<char>| (d, 1u8),
            ),
        decreases dirs@.len() - i,
    {
        let ghost before = crate::common::paths_view(v@);
        v.push(SearchPath::new(string_of(&dirs[i]), 1));
        assert(dv[i as int] == dirs@[i as int]@);
        assert(crate::common::paths_view(v@) =~= before.push((dv[i as int], 1u8)));
        assert(dv.take(i + 1).map_values(|d: Seq<char>| (d, 1u8)) =~= dv.take(i as int).map_values(
            |d: Seq<char>| (d, 1u8),
        ).push((dv[i as int], 1u8)));
        assert(crate::common::paths_view(v@) =~= head + dv.take(i + 1).map_values(
            |d: Seq<char>| (d, 1u8),
        ));
        i = i + 1;
    }
    assert(dv.take(dirs@.len() as int) =~= dv);
    assert(crate::common::paths_view(v@) =~= default_search_paths(opt_view(xdg_data_dirs), home@));
    Ok(v)
}

/// Running applications: not available on Linux.
pub fn get_running_apps() -> (r: Result<Vec<App>, AppError>)
    ensures
        r is Err && r->Err_0 == AppError::NotImplemented,
{
    Err(AppError::NotImplemented)
}

/// The command that opens `file_path` with `app`: its executable, then the
/// file; `None` when the app has no executable.
pub fn open_file_with(file_path: &str, app: &App) -> (r: Option<Vec<String>>)
    ensures
        match r {
            Some(v) => app.app_path_exe is Some && crate::scan::strs_view(v@) == seq![
                app.app_path_exe->0@,
                file_path@,
            ],
            None => app.app_path_exe is None,
        },
{
    crate::common::exec_command(file_path, app)
}

/// The id of the active window in what `xprop -root _NET_ACTIVE_WINDOW`
/// printed: its last word.
pub open spec fn active_window_id(output: Seq<char>) -> Option<Seq<char>> {
    let ws = words(output);
    if ws.len() > 0 {
        Some(ws.last())
    } else {
        None
    }
}

/// The id of the active window that `xprop` printed.
pub fn parse_active_window(output: &str) -> (r: Option<String>)
    ensures
        opt_view(r) == active_window_id(output@),
{
    let s = chars_of(output);
    let ws = split_words(&s);
    if ws.len() > 0 {
        Some(string_of(&ws[ws.len() - 1]))
    } else {
        None
    }
}

/// The class name in what `xprop -id <id> WM_CLASS` printed: the text
/// between its first two double quotes.
pub open spec fn wm_class_name(output: Seq<char>) -> Option<Seq<char>> {
    let parts = split(output, '"');
    if parts.len() > 1 {
        Some(parts[1])
    } else {
        None
    }
}

/// The position of the first app named `name`.
pub open spec fn first_named(apps: Seq<AppView>, name: Seq<char>) -> Option<int>
    decreases apps.len(),
{
    if apps.len() == 0 {
        None
    } else {
        match first_named(apps.drop_last(), name) {
            Some(k) => Some(k),
            None => if apps.last().name == name {
                Some(apps.len() - 1)
            } else {
                None
            },
        }
    }
}

proof fn lemma_first_named_range(apps: Seq<AppView>, name: Seq<char>)
    ensures
        first_named(apps, name) matches Some(k) ==> 0 <= k < apps.len(),
    decreases apps.len(),
{
    if apps.len() > 0 {
        lemma_first_named_range(apps.drop_last(), name);
    }
}

/// The frontmost application: the first of `apps` named as the window class
/// in `wm_class_output`, what `xprop` printed for the active window.
pub fn get_frontmost_application(wm_class_output: &str, apps: &Vec<App>) -> (r: Result<
    App,
    AppError,
>)
    ensures
        match wm_class_name(wm_class_output@) {
            None => r == Err::<App, AppError>(AppError::QueryFailed),
            Some(n) => match first_named(apps_view(apps@), n) {
                Some(k) => r is Ok && r->Ok_0@ == apps@[k]@,
                None => r == Err::<App, AppError>(AppError::NoMatchingApp),
            },
        },
{
    let s = chars_of(wm_class_output);
    let parts = split_on(&s, '"');
    if parts.len() < 2 {
        return Err(AppError::QueryFailed);
    }
    let name = string_of(&parts[1]);
    assert(name@ == wm_class_name(wm_class_output@)->0);
    let ghost av = apps_view(apps@);
    let mut i: usize = 0;
    while i < apps.len()
        invariant
            av == apps_view(apps@),
            wm_class_name(wm_class_output@) == Some(name@),
            i <= apps@.len(),
            first_named(av.take(i as int), name@) is None,
        decreases apps@.len() - i,
    {
        let ghost t = av.take(i + 1);
        assert(t.drop_last() =~= av.take(i as int));
        assert(t.last() == apps@[i as int]@);
        if apps[i].name == name {
            assert(first_named(t, name@) == Some(i as int));
            proof {
                lemma_first_named_range(av, name@);
                lemma_first_named_prefix(av, name@, i + 1);
            }
            return Ok(apps[i].duplicate());
        }
        i = i + 1;
    }
    assert(av.take(apps@.len() as int) =~= av);
    Err(AppError::NoMatchingApp)
}

proof fn lemma_first_named_prefix(apps: Seq<AppView>, name: Seq<char>, n: int)
    requires
        0 <= n <= apps.len(),
        first_named(apps.take(n), name) is Some,
    ensures
        first_named(apps, name) == first_named(apps.take(n), name),
    decreases apps.len() - n,
{
    if n < apps.len() {
        assert(apps.take(n + 1).drop_last() =~= apps.take(n));
        lemma_first_named_prefix(apps, name, n + 1);
    } else {
        assert(apps.take(n) =~= apps);
    }
}

} // verus!

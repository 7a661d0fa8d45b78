//! Desktop entries, Chromium and Firefox profile lists.
use vstd::prelude::*;

use crate::json::{
    json_parse_outcome, lemma_members_len, lemma_members_model, member, member_of,
    members_model, parse_json, JsonModel, JsonValue,
};
use crate::link::opt_text;
use crate::text::{
    chars_of, concat, eq_ascii_ci, eq_ignore_ascii_case, has_char, has_char_text, lines,
    lines_text, same, slice, split_char, split_once, split_text, starts_with, starts_with_text,
    string_of, texts, trim, trim_char, trim_char_text, trim_text, words, words_text, first_index,
};

verus! {

/// The fields of a `.desktop` file's `[Desktop Entry]` group that matter here.
#[derive(Debug)]
pub struct DesktopEntry {
    pub name: String,
    pub exec_line: String,
    pub icon: Option<String>,
    pub categories: String,
    pub mime_types: String,
}

pub struct DesktopModel {
    pub name: Seq<char>,
    pub exec_line: Seq<char>,
    pub icon: Option<Seq<char>>,
    pub categories: Seq<char>,
    pub mime_types: Seq<char>,
}

impl View for DesktopEntry {
    type V = DesktopModel;

    open spec fn view(&self) -> DesktopModel {
        DesktopModel {
            name: self.name@,
            exec_line: self.exec_line@,
            icon: opt_text(self.icon),
            categories: self.categories@,
            mime_types: self.mime_types@,
        }
    }
}

pub open spec fn empty_model() -> DesktopModel {
    DesktopModel {
        name: Seq::empty(),
        exec_line: Seq::empty(),
        icon: None,
        categories: Seq::empty(),
        mime_types: Seq::empty(),
    }
}

/// Whether some `;`-separated category is `WebBrowser`, in any ASCII case.
pub open spec fn lists_web_browser(categories: Seq<char>) -> bool {
    exists|i: int|
        0 <= i < split_char(categories, ';').len() && eq_ascii_ci(
            trim(#[trigger] split_char(categories, ';')[i]),
            "WebBrowser"@,
        )
}

pub open spec fn is_link_mime(m: Seq<char>) -> bool {
    m == "x-scheme-handler/http"@ || m == "x-scheme-handler/https"@
}

/// Whether some `;`-separated MIME type is the http or https scheme handler.
pub open spec fn handles_links(mime_types: Seq<char>) -> bool {
    exists|i: int|
        0 <= i < split_char(mime_types, ';').len() && is_link_mime(
            trim(#[trigger] split_char(mime_types, ';')[i]),
        )
}

pub open spec fn is_browser_spec(e: DesktopModel) -> bool {
    lists_web_browser(e.categories) || handles_links(e.mime_types)
}

impl DesktopEntry {
    pub fn new() -> (e: DesktopEntry)
        ensures
            e@ == empty_model(),
    {
        DesktopEntry {
            name: String::new(),
            exec_line: String::new(),
            icon: None,
            categories: String::new(),
            mime_types: String::new(),
        }
    }

    /// Whether the entry describes a web browser: a `WebBrowser` category, or
    /// the handling of http or https links.
    pub fn is_browser(&self) -> (b: bool)
        ensures
            b == is_browser_spec(self@),
    {
        let cats = split_text(&chars_of(self.categories.as_str()), ';');
        let wb = chars_of("WebBrowser");
        let mut i: usize = 0;
        while i < cats.len()
            invariant
                i <= cats.len(),
                texts(cats@) == split_char(self.categories@, ';'),
                wb@ == "WebBrowser"@,
                forall|j: int|
                    0 <= j < i ==> !eq_ascii_ci(
                        trim(#[trigger] split_char(self.categories@, ';')[j]),
                        "WebBrowser"@,
                    ),
            decreases cats.len() - i,
        {
            let t = trim_text(&cats[i]);
            if eq_ignore_ascii_case(&t, &wb) {
                assert(eq_ascii_ci(trim(split_char(self.categories@, ';')[i as int]), "WebBrowser"@));
                return true;
            }
            i += 1;
        }
        let mimes = split_text(&chars_of(self.mime_types.as_str()), ';');
        let http = chars_of("x-scheme-handler/http");
        let https = chars_of("x-scheme-handler/https");
        let mut j: usize = 0;
        while j < mimes.len()
            invariant
                j <= mimes.len(),
                texts(mimes@) == split_char(self.mime_types@, ';'),
                http@ == "x-scheme-handler/http"@,
                https@ == "x-scheme-handler/https"@,
                !lists_web_browser(self.categories@),
                forall|q: int|
                    0 <= q < j ==> !is_link_mime(trim(#[trigger] split_char(self.mime_types@, ';')[q])),
            decreases mimes.len() - j,
        {
            let t = trim_text(&mimes[j]);
            if same(&t, &http) || same(&t, &https) {
                assert(is_link_mime(trim(split_char(self.mime_types@, ';')[j as int])));
                return true;
            }
            j += 1;
        }
        false
    }
}

/// `s` without leading and trailing square brackets.
pub open spec fn strip_brackets_start(s: Seq<char>) -> Seq<char>
    decreases s.len(),
{
    if s.len() > 0 && (s[0] == '[' || s[0] == ']') {
        strip_brackets_start(s.drop_first())
    } else {
        s
    }
}

pub open spec fn strip_brackets_end(s: Seq<char>) -> Seq<char>
    decreases s.len(),
{
    if s.len() > 0 && (s.last() == '[' || s.last() == ']') {
        strip_brackets_end(s.drop_last())
    } else {
        s
    }
}

pub open spec fn group_name(line: Seq<char>) -> Seq<char> {
    trim(strip_brackets_end(strip_brackets_start(line)))
}

/// The entry read so far, and whether the current group is `[Desktop Entry]`.
pub open spec fn desktop_step(state: (Option<DesktopModel>, bool), raw: Seq<char>) -> (
    Option<DesktopModel>,
    bool,
) {
    let line = trim(raw);
    let (entry, in_entry) = state;
    if line.len() == 0 || line[0] == '#' {
        state
    } else if line[0] == '[' {
        let now_in = group_name(line) == "Desktop Entry"@;
        if now_in && entry is None {
            (Some(empty_model()), now_in)
        } else {
            (entry, now_in)
        }
    } else if entry is None || !in_entry || !has_char(line, '=') {
        state
    } else {
        let e = choose|e: int| first_index(line, '=', e);
        let key = trim(line.take(e));
        let value = trim(line.skip(e + 1));
        let cur = entry->Some_0;
        let next = if key == "Name"@ {
            DesktopModel { name: value, ..cur }
        } else if key == "Exec"@ {
            DesktopModel { exec_line: value, ..cur }
        } else if key == "Icon"@ {
            DesktopModel { icon: Some(value), ..cur }
        } else if key == "Categories"@ {
            DesktopModel { categories: value, ..cur }
        } else if key == "MimeType"@ {
            DesktopModel { mime_types: value, ..cur }
        } else {
            cur
        };
        (Some(next), in_entry)
    }
}

pub open spec fn desktop_scan(ls: Seq<Seq<char>>) -> (Option<DesktopModel>, bool)
    decreases ls.len(),
{
    if ls.len() == 0 {
        (None, false)
    } else {
        desktop_step(desktop_scan(ls.drop_last()), ls.last())
    }
}

/// The `[Desktop Entry]` of a `.desktop` file, when there is one with a
/// non-empty `Exec`.
pub open spec fn parse_desktop_spec(content: Seq<char>) -> Option<DesktopModel> {
    match desktop_scan(lines(content)).0 {
        Some(m) => if m.exec_line.len() > 0 {
            Some(m)
        } else {
            None
        },
        None => None,
    }
}

fn strip_brackets(s: &Vec<char>) -> (out: Vec<char>)
    ensures
        out@ == strip_brackets_end(strip_brackets_start(s@)),
{
    let n = s.len();
    let mut a: usize = 0;
    assert(s@.skip(0) =~= s@);
    while a < n && (s[a] == '[' || s[a] == ']')
        invariant
            a <= n == s.len(),
            strip_brackets_start(s@) == strip_brackets_start(s@.skip(a as int)),
        decreases n - a,
    {
        assert(s@.skip(a as int).drop_first() =~= s@.skip(a + 1));
        a += 1;
    }
    let t = slice(s, a, n);
    assert(t@ == s@.skip(a as int));
    assert(strip_brackets_start(t@) == t@);
    let mut b: usize = t.len();
    assert(t@.take(t.len() as int) =~= t@);
    while b > 0 && (t[b - 1] == '[' || t[b - 1] == ']')
        invariant
            b <= t.len(),
            strip_brackets_end(t@) == strip_brackets_end(t@.take(b as int)),
        decreases b,
    {
        assert(t@.take(b as int).drop_last() =~= t@.take(b - 1));
        b -= 1;
    }
    let out = slice(&t, 0, b);
    assert(out@ == t@.take(b as int));
    assert(strip_brackets_end(out@) == out@);
    out
}

fn lit(s: &str) -> (v: Vec<char>)
    ensures
        v@ == s@,
{
    chars_of(s)
}

/// Reads the `[Desktop Entry]` group of a `.desktop` file. Gives nothing
/// when there is no such group or its `Exec` is empty.
pub fn parse_desktop(content: &str) -> (r: Option<DesktopEntry>)
    ensures
        match r {
            Some(e) => parse_desktop_spec(content@) == Some(e@),
            None => parse_desktop_spec(content@) is None,
        },
{
    let ls = lines_text(&chars_of(content));
    let ghost lv = texts(ls@);
    let mut entry: Option<DesktopEntry> = None;
    let mut in_entry = false;
    let mut i: usize = 0;
    assert(lv.take(0) =~= Seq::<Seq<char>>::empty());
    while i < ls.len()
        invariant
            i <= ls.len(),
            lv == texts(ls@),
            lv == lines(content@),
            desktop_scan(lv.take(i as int)) == (
                match entry {
                    Some(e) => Some(e@),
                    None => None::<DesktopModel>,
                },
                in_entry,
            ),
        decreases ls.len() - i,
    {
        assert(lv.take(i + 1).drop_last() =~= lv.take(i as int));
        assert(lv.take(i + 1).last() == ls@[i as int]@);
        let line = trim_text(&ls[i]);
        if line.len() == 0 || line[0] == '#' {
        } else if line[0] == '[' {
            let now_in = same(&trim_text(&strip_brackets(&line)), &lit("Desktop Entry"));
            in_entry = now_in;
            if now_in && entry.is_none() {
                entry = Some(DesktopEntry::new());
            }
        } else if entry.is_some() && in_entry {
            match split_once(&line, '=') {
                Some((k, v)) => {
                    let key = trim_text(&k);
                    let value = trim_text(&v);
                    let ghost e = choose|e: int| first_index(line@, '=', e);
                    proof {
                        let w = choose|w: int|
                            first_index(line@, '=', w) && k@ == line@.take(w) && v@ == line@.skip(
                                w + 1,
                            );
                        crate::mimeapps::lemma_first_index_unique(line@, '=', w, e);
                    }
                    let ghost before = entry;
                    match entry {
                        Some(ref mut cur) => {
                            let vs = string_of(&value);
                            if same(&key, &lit("Name")) {
                                cur.name = vs;
                            } else if same(&key, &lit("Exec")) {
                                cur.exec_line = vs;
                            } else if same(&key, &lit("Icon")) {
                                cur.icon = Some(vs);
                            } else if same(&key, &lit("Categories")) {
                                cur.categories = vs;
                            } else if same(&key, &lit("MimeType")) {
                                cur.mime_types = vs;
                            }
                        },
                        None => {},
                    }
                },
                None => {},
            }
        }
        i += 1;
    }
    assert(lv.take(ls.len() as int) =~= lv);
    match entry {
        Some(e) => {
            if e.exec_line.as_str().is_empty() {
                None
            } else {
                Some(e)
            }
        },
        None => None,
    }
}


/// The word of an `Exec` line that names the program: the first word, or,
/// after `env`, the first word that is not a `NAME=value` setting.
pub open spec fn program_word(ws: Seq<Seq<char>>) -> Seq<char> {
    if ws[0] == "env"@ && exists|j: int| 1 <= j < ws.len() && !has_char(#[trigger] ws[j], '=') {
        let j = choose|j: int|
            1 <= j < ws.len() && !has_char(#[trigger] ws[j], '=') && forall|q: int|
                1 <= q < j ==> has_char(#[trigger] ws[q], '=');
        ws[j]
    } else {
        ws[0]
    }
}

/// The program of a desktop entry's `Exec` line, without surrounding quotes.
pub open spec fn exec_command_spec(exec: Seq<char>) -> Option<Seq<char>> {
    let ws = words(exec);
    if ws.len() == 0 {
        None
    } else {
        let cleaned = trim_char(trim_char(program_word(ws), '"'), '\'');
        if cleaned.len() == 0 {
            None
        } else {
            Some(cleaned)
        }
    }
}

/// The program that a desktop entry's `Exec` line runs.
pub fn desktop_exec_command(exec: &str) -> (r: Option<String>)
    ensures
        opt_text(r) == exec_command_spec(exec@),
{
    let ws = words_text(&chars_of(exec));
    let ghost wv = texts(ws@);
    if ws.len() == 0 {
        return None;
    }
    let mut first: usize = 0;
    if same(&ws[0], &lit("env")) {
        let mut j: usize = 1;
        while j < ws.len() && has_char_text(&ws[j], '=')
            invariant
                1 <= j <= ws.len(),
                wv == texts(ws@),
                forall|q: int| 1 <= q < j ==> has_char(#[trigger] wv[q], '='),
            decreases ws.len() - j,
        {
            j += 1;
        }
        if j < ws.len() {
            first = j;
            proof {
                let jj = j as int;
                assert(1 <= jj < wv.len() && !has_char(wv[jj], '='));
                let c = choose|c: int|
                    1 <= c < wv.len() && !has_char(#[trigger] wv[c], '=') && forall|q: int|
                        1 <= q < c ==> has_char(#[trigger] wv[q], '=');
                assert(c == jj) by {
                    if c < jj {
                        assert(has_char(wv[c], '='));
                    }
                    if jj < c {
                        assert(has_char(wv[jj], '='));
                    }
                }
            }
        }
    }
    assert(wv[first as int] == program_word(wv));
    let cleaned = trim_char_text(&trim_char_text(&ws[first], '"'), '\'');
    if cleaned.len() == 0 {
        None
    } else {
        Some(string_of(&cleaned))
    }
}


/// `base` joined with `path` the way a Unix `Path::join` does it: an absolute
/// `path` replaces `base`, otherwise a `/` separates them unless `base` is
/// empty or already ends with one.
pub open spec fn join_path_spec(base: Seq<char>, path: Seq<char>) -> Seq<char> {
    if path.len() > 0 && path[0] == '/' {
        path
    } else if base.len() == 0 || base.last() == '/' {
        base + path
    } else {
        base + seq!['/'] + path
    }
}

/// `base` joined with `path`, Unix style.
pub fn join_path(base: &str, path: &str) -> (r: String)
    ensures
        r@ == join_path_spec(base@, path@),
{
    let b = chars_of(base);
    let p = chars_of(path);
    if p.len() > 0 && p[0] == '/' {
        return string_of(&p);
    }
    if b.len() == 0 || b[b.len() - 1] == '/' {
        string_of(&concat(&b, &p))
    } else {
        let mut sep: Vec<char> = Vec::new();
        sep.push('/');
        string_of(&concat(&concat(&b, &sep), &p))
    }
}

/// A Firefox profile: its name and its directory.
#[derive(Debug, PartialEq)]
pub struct FirefoxProfile {
    pub name: String,
    pub dir: String,
}

pub struct SectionModel {
    pub name: Seq<char>,
    pub path: Seq<char>,
    pub is_relative: bool,
}

pub open spec fn empty_section() -> SectionModel {
    SectionModel { name: Seq::empty(), path: Seq::empty(), is_relative: false }
}

pub open spec fn complete(s: SectionModel) -> bool {
    s.name.len() > 0 && s.path.len() > 0
}

/// The finished sections and the section being read.
pub open spec fn ini_step(state: (Seq<SectionModel>, Option<SectionModel>), raw: Seq<char>) -> (
    Seq<SectionModel>,
    Option<SectionModel>,
) {
    let line = trim(raw);
    let (done, current) = state;
    if line.len() == 0 || line[0] == ';' || line[0] == '#' {
        state
    } else if line[0] == '[' {
        let done2 = match current {
            Some(sec) => if complete(sec) {
                done.push(sec)
            } else {
                done
            },
            None => done,
        };
        (done2, Some(empty_section()))
    } else if current is None || !has_char(line, '=') {
        state
    } else {
        let e = choose|e: int| first_index(line, '=', e);
        let key = trim(line.take(e));
        let value = trim(line.skip(e + 1));
        let cur = current->Some_0;
        let next = if key == "Name"@ {
            SectionModel { name: value, ..cur }
        } else if key == "Path"@ {
            SectionModel { path: value, ..cur }
        } else if key == "IsRelative"@ {
            SectionModel { is_relative: value != "0"@, ..cur }
        } else {
            cur
        };
        (done, Some(next))
    }
}

pub open spec fn ini_scan(ls: Seq<Seq<char>>) -> (Seq<SectionModel>, Option<SectionModel>)
    decreases ls.len(),
{
    if ls.len() == 0 {
        (Seq::empty(), None)
    } else {
        ini_step(ini_scan(ls.drop_last()), ls.last())
    }
}

/// The sections of `profiles.ini` that name a profile and its path, in order.
pub open spec fn ini_sections(content: Seq<char>) -> Seq<SectionModel> {
    let (done, current) = ini_scan(lines(content));
    match current {
        Some(sec) => if complete(sec) {
            done.push(sec)
        } else {
            done
        },
        None => done,
    }
}

/// A section's profile directory: its path, joined to `base` (Windows style
/// when `windows` holds) when the path is relative.
pub open spec fn profile_dir_spec(windows: bool, base: Seq<char>, s: SectionModel) -> Seq<char> {
    if s.is_relative {
        crate::detectors::expand::join_for(windows, base, s.path)
    } else {
        s.path
    }
}

/// The profiles listed in a Firefox `profiles.ini`: name and directory,
/// relative paths joined Windows style when `windows` holds.
pub open spec fn firefox_profiles_for(windows: bool, content: Seq<char>, base: Seq<char>) -> Seq<
    (Seq<char>, Seq<char>),
> {
    ini_sections(content).map_values(|s: SectionModel| (s.name, profile_dir_spec(windows, base, s)))
}

/// The profiles listed in a Firefox `profiles.ini`: name and directory.
pub open spec fn firefox_profiles_spec(content: Seq<char>, base: Seq<char>) -> Seq<(Seq<char>, Seq<char>)> {
    firefox_profiles_for(false, content, base)
}

pub open spec fn firefox_view(v: Seq<FirefoxProfile>) -> Seq<(Seq<char>, Seq<char>)> {
    v.map_values(|p: FirefoxProfile| (p.name@, p.dir@))
}

struct Section {
    name: Vec<char>,
    path: Vec<char>,
    is_relative: bool,
}

impl View for Section {
    type V = SectionModel;

    closed spec fn view(&self) -> SectionModel {
        SectionModel { name: self.name@, path: self.path@, is_relative: self.is_relative }
    }
}

spec fn sections_view(v: Seq<Section>) -> Seq<SectionModel> {
    v.map_values(|s: Section| s@)
}

spec fn opt_section(o: Option<Section>) -> Option<SectionModel> {
    match o {
        Some(s) => Some(s@),
        None => None,
    }
}

fn new_section() -> (s: Section)
    ensures
        s@ == empty_section(),
{
    Section { name: Vec::new(), path: Vec::new(), is_relative: false }
}

/// Reads the profiles of a Firefox `profiles.ini`; relative paths are joined
/// to `base`.
pub fn parse_profiles_ini(content: &str, base: &str) -> (r: Vec<FirefoxProfile>)
    ensures
        firefox_view(r@) == firefox_profiles_spec(content@, base@),
{
    parse_profiles_ini_for(false, content, base)
}

/// Reads the profiles of a Firefox `profiles.ini`; relative paths are joined
/// to `base`, Windows style when `windows` holds.
pub fn parse_profiles_ini_for(windows: bool, content: &str, base: &str) -> (r: Vec<FirefoxProfile>)
    ensures
        firefox_view(r@) == firefox_profiles_for(windows, content@, base@),
{
    let ls = lines_text(&chars_of(content));
    let ghost lv = texts(ls@);
    let mut done: Vec<Section> = Vec::new();
    let mut current: Option<Section> = None;
    let mut i: usize = 0;
    assert(lv.take(0) =~= Seq::<Seq<char>>::empty());
    assert(sections_view(done@) =~= Seq::<SectionModel>::empty());
    while i < ls.len()
        invariant
            i <= ls.len(),
            lv == texts(ls@),
            lv == lines(content@),
            ini_scan(lv.take(i as int)) == (sections_view(done@), opt_section(current)),
        decreases ls.len() - i,
    {
        assert(lv.take(i + 1).drop_last() =~= lv.take(i as int));
        assert(lv.take(i + 1).last() == ls@[i as int]@);
        let line = trim_text(&ls[i]);
        if line.len() == 0 || line[0] == ';' || line[0] == '#' {
        } else if line[0] == '[' {
            let ghost before = sections_view(done@);
            match current {
                Some(sec) => {
                    if sec.name.len() > 0 && sec.path.len() > 0 {
                        let ghost sv = sec@;
                        done.push(sec);
                        assert(sections_view(done@) =~= before.push(sv));
                    }
                },
                None => {},
            }
            current = Some(new_section());
        } else if current.is_some() {
            match split_once(&line, '=') {
                Some((k, v)) => {
                    let key = trim_text(&k);
                    let value = trim_text(&v);
                    let ghost e = choose|e: int| first_index(line@, '=', e);
                    proof {
                        let w = choose|w: int|
                            first_index(line@, '=', w) && k@ == line@.take(w) && v@ == line@.skip(
                                w + 1,
                            );
                        crate::mimeapps::lemma_first_index_unique(line@, '=', w, e);
                    }
                    match current {
                        Some(ref mut cur) => {
                            if same(&key, &lit("Name")) {
                                cur.name = value;
                            } else if same(&key, &lit("Path")) {
                                cur.path = value;
                            } else if same(&key, &lit("IsRelative")) {
                                cur.is_relative = !same(&value, &lit("0"));
                            }
                        },
                        None => {},
                    }
                },
                None => {},
            }
        }
        i += 1;
    }
    assert(lv.take(ls.len() as int) =~= lv);
    match current {
        Some(sec) => {
            if sec.name.len() > 0 && sec.path.len() > 0 {
                let ghost before = sections_view(done@);
                let ghost sv = sec@;
                done.push(sec);
                assert(sections_view(done@) =~= before.push(sv));
            }
        },
        None => {},
    }
    let ghost secs = ini_sections(content@);
    assert(sections_view(done@) == secs);
    let mut out: Vec<FirefoxProfile> = Vec::new();
    let mut j: usize = 0;
    while j < done.len()
        invariant
            j <= done.len(),
            sections_view(done@) == secs,
            secs == ini_sections(content@),
            firefox_view(out@) == firefox_profiles_for(windows, content@, base@).take(j as int),
        decreases done.len() - j,
    {
        let sec = &done[j];
        let name = string_of(&sec.name);
        let path = string_of(&sec.path);
        let dir = if sec.is_relative {
            if windows {
                crate::detectors::expand::join_windows(base, path.as_str())
            } else {
                join_path(base, path.as_str())
            }
        } else {
            path
        };
        let ghost before = firefox_view(out@);
        assert(sec@ == secs[j as int]);
        let ghost fp = firefox_profiles_for(windows, content@, base@);
        assert(fp.len() == secs.len());
        assert(fp[j as int] == (sec@.name, profile_dir_spec(windows, base@, sec@)));
        out.push(FirefoxProfile { name, dir });
        j += 1;
        assert(firefox_view(out@) =~= before.push((sec@.name, profile_dir_spec(windows, base@, sec@))));
        assert(firefox_profiles_for(windows, content@, base@).take(j as int) =~= firefox_profiles_for(
            windows,
            content@,
            base@,
        ).take(j - 1).push((sec@.name, profile_dir_spec(windows, base@, sec@))));
    }
    assert(firefox_profiles_for(windows, content@, base@).take(done.len() as int) =~= firefox_profiles_for(
        windows,
        content@,
        base@,
    ));
    out
}


pub open spec fn is_digit(c: char) -> bool {
    '0' <= c && c <= '9'
}

pub open spec fn all_digits(s: Seq<char>) -> bool {
    forall|i: int| 0 <= i < s.len() ==> is_digit(#[trigger] s[i])
}

/// The decimal value of a string of digits.
pub open spec fn digits_value(s: Seq<char>) -> int
    decreases s.len(),
{
    if s.len() == 0 {
        0
    } else {
        digits_value(s.drop_last()) * 10 + (s.last() as int - '0' as int)
    }
}

/// What `str::parse::<usize>` gives: an optional `+`, then one or more
/// decimal digits whose value fits in a `usize`.
pub open spec fn parse_usize_spec(s: Seq<char>) -> Option<int> {
    let d = if s.len() > 0 && s[0] == '+' {
        s.skip(1)
    } else {
        s
    };
    if d.len() > 0 && all_digits(d) && digits_value(d) <= usize::MAX {
        Some(digits_value(d))
    } else {
        None
    }
}

proof fn lemma_digits_value_grows(s: Seq<char>, k: int)
    requires
        0 <= k <= s.len(),
        all_digits(s),
    ensures
        digits_value(s) >= digits_value(s.take(k)),
        digits_value(s) >= 0,
    decreases s.len() - k,
{
    if k < s.len() {
        assert(s.drop_last().take(k) =~= s.take(k));
        assert(all_digits(s.drop_last())) by {
            assert forall|i: int| 0 <= i < s.drop_last().len() implies is_digit(
                #[trigger] s.drop_last()[i],
            ) by {
                assert(s.drop_last()[i] == s[i]);
            }
        }
        lemma_digits_value_grows(s.drop_last(), k);
        assert(is_digit(s.last()));
    } else {
        assert(s.take(k) =~= s);
        lemma_digits_nonneg(s);
    }
}

proof fn lemma_digits_nonneg(s: Seq<char>)
    requires
        all_digits(s),
    ensures
        digits_value(s) >= 0,
    decreases s.len(),
{
    if s.len() > 0 {
        assert(all_digits(s.drop_last())) by {
            assert forall|i: int| 0 <= i < s.drop_last().len() implies is_digit(
                #[trigger] s.drop_last()[i],
            ) by {
                assert(s.drop_last()[i] == s[i]);
            }
        }
        lemma_digits_nonneg(s.drop_last());
        assert(is_digit(s.last()));
    }
}

/// `str::parse::<usize>`.
pub fn parse_usize(s: &Vec<char>) -> (r: Option<usize>)
    ensures
        match r {
            Some(n) => parse_usize_spec(s@) == Some(n as int),
            None => parse_usize_spec(s@) is None,
        },
{
    let start: usize = if s.len() > 0 && s[0] == '+' {
        1
    } else {
        0
    };
    let ghost d = if s@.len() > 0 && s@[0] == '+' {
        s@.skip(1)
    } else {
        s@
    };
    assert(d == s@.skip(start as int));
    if start >= s.len() {
        return None;
    }
    let mut value: usize = 0;
    let mut i: usize = start;
    assert(d.take(0) =~= Seq::<char>::empty());
    while i < s.len()
        invariant
            start <= i <= s.len(),
            d == s@.skip(start as int),
            d == (if s@.len() > 0 && s@[0] == '+' {
                s@.skip(1)
            } else {
                s@
            }),
            all_digits(d.take(i - start)),
            value as int == digits_value(d.take(i - start)),
        decreases s.len() - i,
    {
        let c = s[i];
        let ghost k = i - start;
        assert(d[k] == c);
        if !('0' <= c && c <= '9') {
            assert(!all_digits(d));
            return None;
        }
        let digit: usize = ((c as u32) - ('0' as u32)) as usize;
        assert(d.take(k + 1).drop_last() =~= d.take(k));
        assert(d.take(k + 1).last() == c);
        assert(all_digits(d.take(k + 1))) by {
            assert forall|q: int| 0 <= q < k + 1 implies is_digit(#[trigger] d.take(k + 1)[q]) by {
                if q < k {
                    assert(d.take(k + 1)[q] == d.take(k)[q]);
                }
            }
        }
        match value.checked_mul(10) {
            Some(v10) => match v10.checked_add(digit) {
                Some(v) => {
                    value = v;
                },
                None => {
                    proof {
                        if all_digits(d) {
                            lemma_digits_value_grows(d, k + 1);
                        }
                    }
                    return None;
                },
            },
            None => {
                proof {
                    if all_digits(d) {
                        lemma_digits_value_grows(d, k + 1);
                        lemma_digits_nonneg(d.take(k + 1));
                        assert(digit >= 0);
                    }
                }
                return None;
            },
        }
        i += 1;
    }
    assert(d.take(s.len() - start) =~= d);
    Some(value)
}

/// A Chromium profile: the directory under the browser's data directory, and
/// the name shown for it.
#[derive(Debug, PartialEq)]
pub struct ChromiumProfile {
    pub directory: String,
    pub display_name: String,
}

impl View for ChromiumProfile {
    type V = (Seq<char>, Seq<char>);

    open spec fn view(&self) -> (Seq<char>, Seq<char>) {
        (self.directory@, self.display_name@)
    }
}

pub open spec fn chromium_view(v: Seq<ChromiumProfile>) -> Seq<(Seq<char>, Seq<char>)> {
    v.map_values(|p: ChromiumProfile| p@)
}

/// How Chromium profile directories are ordered: `Default` first, then
/// `Profile N` by `N`, then everything else.
pub open spec fn rank_spec(directory: Seq<char>) -> (int, int) {
    if directory == "Default"@ {
        (0, 0)
    } else if starts_with(directory, "Profile "@) {
        match parse_usize_spec(directory.skip(8)) {
            Some(n) => (1, n),
            None => (2, usize::MAX as int),
        }
    } else {
        (2, usize::MAX as int)
    }
}

pub open spec fn rank_gt(a: (int, int), b: (int, int)) -> bool {
    a.0 > b.0 || (a.0 == b.0 && a.1 > b.1)
}

/// `x` placed after every element of `s` that does not rank above it.
pub open spec fn insert_by_rank(s: Seq<(Seq<char>, Seq<char>)>, x: (Seq<char>, Seq<char>)) -> Seq<
    (Seq<char>, Seq<char>),
>
    decreases s.len(),
{
    if s.len() == 0 {
        seq![x]
    } else if rank_gt(rank_spec(s.last().0), rank_spec(x.0)) {
        insert_by_rank(s.drop_last(), x).push(s.last())
    } else {
        s.push(x)
    }
}

/// The profiles in a stable order by directory rank.
pub open spec fn sort_by_rank(s: Seq<(Seq<char>, Seq<char>)>) -> Seq<(Seq<char>, Seq<char>)>
    decreases s.len(),
{
    if s.len() == 0 {
        Seq::empty()
    } else {
        insert_by_rank(sort_by_rank(s.drop_last()), s.last())
    }
}

/// The rank of a Chromium profile directory.
pub fn chromium_rank(directory: &str) -> (r: (u8, usize))
    ensures
        rank_spec(directory@) == (r.0 as int, r.1 as int),
{
    let d = chars_of(directory);
    if same(&d, &lit("Default")) {
        return (0, 0);
    }
    let prefix = lit("Profile ");
    if starts_with_text(&d, &prefix) {
        proof {
            reveal_strlit("Profile ");
        }
        let rest = slice(&d, 8, d.len());
        assert(rest@ == d@.skip(8));
        match parse_usize(&rest) {
            Some(n) => (1, n),
            None => (2, usize::MAX),
        }
    } else {
        (2, usize::MAX)
    }
}

proof fn lemma_insert_by_rank_at(s: Seq<(Seq<char>, Seq<char>)>, x: (Seq<char>, Seq<char>), p: int)
    requires
        0 <= p <= s.len(),
        forall|q: int| p <= q < s.len() ==> rank_gt(rank_spec(#[trigger] s[q].0), rank_spec(x.0)),
        p > 0 ==> !rank_gt(rank_spec(s[p - 1].0), rank_spec(x.0)),
    ensures
        insert_by_rank(s, x) == s.insert(p, x),
    decreases s.len() - p,
{
    if p == s.len() {
        if s.len() == 0 {
            assert(s.insert(0, x) =~= seq![x]);
        } else {
            assert(s.insert(p, x) =~= s.push(x));
        }
    } else {
        let s0 = s.drop_last();
        assert forall|q: int| p <= q < s0.len() implies rank_gt(rank_spec(#[trigger] s0[q].0), rank_spec(x.0)) by {
            assert(s0[q] == s[q]);
        }
        if p > 0 {
            assert(s0[p - 1] == s[p - 1]);
        }
        lemma_insert_by_rank_at(s0, x, p);
        assert(rank_gt(rank_spec(s.last().0), rank_spec(x.0)));
        assert(s0.insert(p, x).push(s.last()) =~= s.insert(p, x));
    }
}

/// The profiles of the entries of Chromium's `Local State` profile cache,
/// each a directory with the profile name it records, if any: a missing or
/// empty name shows as the directory. Sorted by [`chromium_rank`], stably.
pub open spec fn entries_profiles(entries: Seq<(Seq<char>, Option<Seq<char>>)>) -> Seq<(Seq<char>, Seq<char>)> {
    entries.map_values(
        |e: (Seq<char>, Option<Seq<char>>)|
            (
                e.0,
                match e.1 {
                    Some(n) => if n.len() > 0 {
                        n
                    } else {
                        e.0
                    },
                    None => e.0,
                },
            ),
    )
}

pub open spec fn entries_view(v: Seq<(String, Option<String>)>) -> Seq<(Seq<char>, Option<Seq<char>>)> {
    v.map_values(|e: (String, Option<String>)| (e.0@, opt_text(e.1)))
}

impl Clone for ChromiumProfile {
    fn clone(&self) -> (r: Self)
        ensures
            r@ == self@,
    {
        ChromiumProfile { directory: self.directory.clone(), display_name: self.display_name.clone() }
    }
}

fn rank_greater(a: (u8, usize), b: (u8, usize)) -> (r: bool)
    ensures
        r == rank_gt((a.0 as int, a.1 as int), (b.0 as int, b.1 as int)),
{
    a.0 > b.0 || (a.0 == b.0 && a.1 > b.1)
}

/// Sorts profiles stably by the rank of their directory.
pub fn sort_chromium_profiles(profiles: &Vec<ChromiumProfile>) -> (r: Vec<ChromiumProfile>)
    ensures
        chromium_view(r@) == sort_by_rank(chromium_view(profiles@)),
{
    let ghost input = chromium_view(profiles@);
    let mut out: Vec<ChromiumProfile> = Vec::new();
    let mut ranks: Vec<(u8, usize)> = Vec::new();
    let mut i: usize = 0;
    assert(input.take(0) =~= Seq::<(Seq<char>, Seq<char>)>::empty());
    while i < profiles.len()
        invariant
            i <= profiles.len(),
            input == chromium_view(profiles@),
            chromium_view(out@) == sort_by_rank(input.take(i as int)),
            ranks.len() == out.len(),
            forall|q: int|
                0 <= q < out.len() ==> rank_spec(#[trigger] out@[q].directory@) == (
                    ranks@[q].0 as int,
                    ranks@[q].1 as int,
                ),
        decreases profiles.len() - i,
    {
        let x = profiles[i].clone();
        let r = chromium_rank(x.directory.as_str());
        let ghost sv = chromium_view(out@);
        let mut p: usize = out.len();
        while p > 0 && rank_greater(ranks[p - 1], r)
            invariant
                p <= out.len(),
                ranks.len() == out.len(),
                sv == chromium_view(out@),
                rank_spec(x@.0) == (r.0 as int, r.1 as int),
                forall|q: int|
                    0 <= q < out.len() ==> rank_spec(#[trigger] out@[q].directory@) == (
                        ranks@[q].0 as int,
                        ranks@[q].1 as int,
                    ),
                forall|q: int| p <= q < sv.len() ==> rank_gt(rank_spec(#[trigger] sv[q].0), rank_spec(x@.0)),
            decreases p,
        {
            assert(sv[p - 1].0 == out@[p - 1].directory@);
            p -= 1;
        }
        proof {
            if p > 0 {
                assert(sv[p - 1].0 == out@[p - 1].directory@);
            }
            lemma_insert_by_rank_at(sv, x@, p as int);
            assert(input.take(i + 1).drop_last() =~= input.take(i as int));
            assert(input.take(i + 1).last() == x@);
        }
        let ghost xv = x@;
        let ghost oldo = out@;
        let ghost oldr = ranks@;
        out.insert(p, x);
        ranks.insert(p, r);
        assert(chromium_view(out@) =~= sv.insert(p as int, xv));
        assert forall|q: int|
            0 <= q < out.len() implies rank_spec(#[trigger] out@[q].directory@) == (
            ranks@[q].0 as int,
            ranks@[q].1 as int,
        ) by {
            if q < p {
                assert(out@[q] == oldo[q] && ranks@[q] == oldr[q]);
            } else if q > p {
                assert(out@[q] == oldo[q - 1] && ranks@[q] == oldr[q - 1]);
            }
        }
        i += 1;
    }
    assert(input.take(profiles.len() as int) =~= input);
    out
}


/// The name recorded for a profile of the cache: its `name` member when it
/// is a string.
pub open spec fn entry_name(m: JsonModel) -> Option<Seq<char>> {
    match member_of(m, "name"@) {
        Some(JsonModel::Text(s)) => Some(s),
        _ => None,
    }
}

/// Each member of the profile cache: its key, the profile directory, and the
/// name recorded for it.
pub open spec fn cache_entries(ms: Seq<(Seq<char>, JsonModel)>) -> Seq<(Seq<char>, Option<Seq<char>>)> {
    ms.map_values(|e: (Seq<char>, JsonModel)| (e.0, entry_name(e.1)))
}

/// The profile cache of a Chromium `Local State` document: the members of
/// the object at `profile.info_cache`; nothing when there is no such object.
pub open spec fn local_state_spec(m: JsonModel) -> Option<Seq<(Seq<char>, Option<Seq<char>>)>> {
    match member_of(m, "profile"@) {
        Some(p) => match member_of(p, "info_cache"@) {
            Some(JsonModel::Object(ms)) => Some(cache_entries(ms)),
            _ => None,
        },
        None => None,
    }
}

/// The profile cache of a `Local State` file's text; nothing when the text
/// is not JSON or holds no profile cache.
pub open spec fn local_state_of(text: Seq<char>) -> Option<Seq<(Seq<char>, Option<Seq<char>>)>> {
    match json_parse_outcome(text) {
        Some(m) => local_state_spec(m),
        None => None,
    }
}

fn text_member(v: &JsonValue, key: &str) -> (r: Option<String>)
    ensures
        opt_text(r) == match member_of(v@, key@) {
            Some(JsonModel::Text(s)) => Some(s),
            _ => None::<Seq<char>>,
        },
{
    match member(v, key) {
        Some(JsonValue::Text(s)) => Some(s.clone()),
        _ => None,
    }
}

/// The profile cache of a parsed Chromium `Local State` document: for each
/// member of the object at `profile.info_cache`, its key and the string at
/// its `name`, if any.
pub fn local_state_entries(v: &JsonValue) -> (r: Option<Vec<(String, Option<String>)>>)
    ensures
        match r {
            Some(es) => local_state_spec(v@) == Some(entries_view(es@)),
            None => local_state_spec(v@) is None,
        },
{
    let profile = match member(v, "profile") {
        Some(p) => p,
        None => {
            return None;
        },
    };
    let ms = match member(profile, "info_cache") {
        Some(JsonValue::Object(ms)) => ms,
        _ => {
            return None;
        },
    };
    let ghost mm = members_model(ms@);
    proof {
        lemma_members_len(ms@);
    }
    let mut out: Vec<(String, Option<String>)> = Vec::new();
    let mut i: usize = 0;
    while i < ms.len()
        invariant
            i <= ms.len(),
            mm == members_model(ms@),
            mm.len() == ms@.len(),
            entries_view(out@) == cache_entries(mm).take(i as int),
        decreases ms.len() - i,
    {
        proof {
            lemma_members_model(ms@, i as int);
        }
        let name = text_member(&ms[i].1, "name");
        let ghost before = entries_view(out@);
        out.push((ms[i].0.clone(), name));
        assert(entries_view(out@) =~= before.push(cache_entries(mm)[i as int]));
        i += 1;
        assert(cache_entries(mm).take(i as int) =~= cache_entries(mm).take(i - 1).push(
            cache_entries(mm)[i - 1],
        ));
    }
    assert(cache_entries(mm).take(ms.len() as int) =~= cache_entries(mm));
    Some(out)
}

/// The profiles of the entries of a `Local State` profile cache, ordered by
/// [`chromium_rank`].
pub fn chromium_profiles_from_entries(entries: &Vec<(String, Option<String>)>) -> (r: Vec<
    ChromiumProfile,
>)
    ensures
        chromium_view(r@) == sort_by_rank(entries_profiles(entries_view(entries@))),
{
    let ghost ev = entries_profiles(entries_view(entries@));
    let mut ps: Vec<ChromiumProfile> = Vec::new();
    let mut i: usize = 0;
    while i < entries.len()
        invariant
            i <= entries.len(),
            ev == entries_profiles(entries_view(entries@)),
            chromium_view(ps@) == ev.take(i as int),
        decreases entries.len() - i,
    {
        let (directory, name) = &entries[i];
        let display_name = match name {
            Some(n) => if n.as_str().is_empty() {
                directory.clone()
            } else {
                n.clone()
            },
            None => directory.clone(),
        };
        let ghost before = chromium_view(ps@);
        let p = ChromiumProfile { directory: directory.clone(), display_name };
        assert(entries_view(entries@)[i as int] == (directory@, opt_text(*name)));
        assert(ev[i as int] == p@);
        ps.push(p);
        i += 1;
        assert(ev.take(i as int) =~= ev.take(i - 1).push(ev[i - 1]));
        assert(chromium_view(ps@) =~= ev.take(i as int));
    }
    assert(ev.take(entries.len() as int) =~= ev);
    sort_chromium_profiles(&ps)
}

/// The profiles listed in a Chromium `Local State` file, ordered by
/// [`chromium_rank`]; nothing when the file cannot be read as one.
pub fn chromium_profiles_from_local_state(local_state: &str) -> (r: Option<Vec<ChromiumProfile>>)
    ensures
        match local_state_of(local_state@) {
            Some(e) => r is Some && chromium_view(r->Some_0@) == sort_by_rank(entries_profiles(e)),
            None => r is None,
        },
{
    match parse_json(local_state) {
        Some(doc) => match local_state_entries(&doc) {
            Some(entries) => Some(chromium_profiles_from_entries(&entries)),
            None => None,
        },
        None => None,
    }
}

/// Whether a directory name is that of a Chromium profile.
pub open spec fn is_profile_dir(name: Seq<char>) -> bool {
    name == "Default"@ || starts_with(name, "Profile "@)
}

/// The profile directories among `names`, in order, each shown by its name.
pub open spec fn dir_profiles(names: Seq<Seq<char>>) -> Seq<(Seq<char>, Seq<char>)>
    decreases names.len(),
{
    if names.len() == 0 {
        Seq::empty()
    } else if is_profile_dir(names.last()) {
        dir_profiles(names.drop_last()).push((names.last(), names.last()))
    } else {
        dir_profiles(names.drop_last())
    }
}

/// The profiles found by listing a Chromium data directory, given the names
/// of its subdirectories: `Default` and `Profile *`, ordered by [`chromium_rank`].
pub fn chromium_profiles_from_dirs(names: &Vec<String>) -> (r: Vec<ChromiumProfile>)
    ensures
        chromium_view(r@) == sort_by_rank(dir_profiles(crate::text::strings(names@))),
{
    let ghost nv = crate::text::strings(names@);
    let mut ps: Vec<ChromiumProfile> = Vec::new();
    let mut i: usize = 0;
    let def = lit("Default");
    let pre = lit("Profile ");
    assert(nv.take(0) =~= Seq::<Seq<char>>::empty());
    while i < names.len()
        invariant
            i <= names.len(),
            nv == crate::text::strings(names@),
            def@ == "Default"@,
            pre@ == "Profile "@,
            chromium_view(ps@) == dir_profiles(nv.take(i as int)),
        decreases names.len() - i,
    {
        let d = chars_of(names[i].as_str());
        assert(nv.take(i + 1).drop_last() =~= nv.take(i as int));
        assert(nv.take(i + 1).last() == d@);
        if same(&d, &def) || starts_with_text(&d, &pre) {
            let ghost before = chromium_view(ps@);
            ps.push(ChromiumProfile { directory: names[i].clone(), display_name: names[i].clone() });
            assert(chromium_view(ps@) =~= before.push((d@, d@)));
        }
        i += 1;
    }
    assert(nv.take(names.len() as int) =~= nv);
    sort_chromium_profiles(&ps)
}

/// The profiles of a Chromium data directory: those of its `Local State`
/// file when it lists any, else those found by listing its subdirectories.
pub open spec fn pick_profiles_spec(local_state: Option<Seq<char>>, names: Seq<Seq<char>>) -> Seq<
    (Seq<char>, Seq<char>),
> {
    match local_state {
        Some(t) => match local_state_of(t) {
            Some(e) => if entries_profiles(e).len() > 0 {
                sort_by_rank(entries_profiles(e))
            } else {
                sort_by_rank(dir_profiles(names))
            },
            None => sort_by_rank(dir_profiles(names)),
        },
        None => sort_by_rank(dir_profiles(names)),
    }
}

proof fn lemma_sort_by_rank_len(s: Seq<(Seq<char>, Seq<char>)>)
    ensures
        sort_by_rank(s).len() == s.len(),
    decreases s.len(),
{
    if s.len() > 0 {
        lemma_sort_by_rank_len(s.drop_last());
        lemma_insert_by_rank_len(sort_by_rank(s.drop_last()), s.last());
    }
}

proof fn lemma_insert_by_rank_len(s: Seq<(Seq<char>, Seq<char>)>, x: (Seq<char>, Seq<char>))
    ensures
        insert_by_rank(s, x).len() == s.len() + 1,
    decreases s.len(),
{
    if s.len() > 0 {
        lemma_insert_by_rank_len(s.drop_last(), x);
    }
}

/// The profiles of a Chromium data directory, given the text of its
/// `Local State` file when it could be read and the names of its subdirectories.
pub fn pick_chromium_profiles(local_state: Option<String>, dir_names: &Vec<String>) -> (r: Vec<
    ChromiumProfile,
>)
    ensures
        chromium_view(r@) == pick_profiles_spec(opt_text(local_state), crate::text::strings(dir_names@)),
{
    match local_state {
        Some(t) => match chromium_profiles_from_local_state(t.as_str()) {
            Some(ps) => {
                proof {
                    let e = local_state_of(t@)->Some_0;
                    lemma_sort_by_rank_len(entries_profiles(e));
                }
                if ps.len() > 0 {
                    return ps;
                }
            },
            None => {},
        },
        None => {},
    }
    chromium_profiles_from_dirs(dir_names)
}

} // verus!

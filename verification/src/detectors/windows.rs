//! Windows: registry commands, install locations, and the profiles that a
//! detected browser offers.
use vstd::prelude::*;

use crate::detectors::assemble::{finish_profiles, finish_spec};
use crate::detectors::common::{chromium_view, ChromiumProfile};
use crate::detectors::expand::{
    chromium_entries, entry_spec, expand_chromium, expand_firefox, firefox_entries, is_win_sep,
    join_windows, join_windows_spec, make_entry,
};
use crate::domain::{profiles_view, BrowserProfile, ProfileView};
use crate::link::opt_text;
use crate::text::{
    chars_of, concat, first_index, has_char, lowercase_text, same, slice, string_of, strings,
    texts, trim, trim_text, unicode_lowercase, words, words_text,
};

verus! {

/// Finds the browsers installed on a Windows system.
pub struct WindowsBrowserDetector;

impl WindowsBrowserDetector {
    pub fn new() -> (d: WindowsBrowserDetector) {
        WindowsBrowserDetector
    }
}

/// The program of a registry `shell\open\command` value: the quoted path at
/// its start, or else its first word.
pub open spec fn reg_command_spec(command: Seq<char>) -> Option<Seq<char>> {
    let t = trim(command);
    if t.len() > 0 && t[0] == '"' {
        let rest = t.skip(1);
        if has_char(rest, '"') {
            let e = choose|e: int| first_index(rest, '"', e);
            if e == 0 {
                None
            } else {
                Some(rest.take(e))
            }
        } else {
            None
        }
    } else {
        let ws = words(t);
        if ws.len() > 0 {
            Some(ws[0])
        } else {
            None
        }
    }
}

/// The program of a registry command line.
pub fn parse_reg_command(command: &str) -> (r: Option<String>)
    ensures
        opt_text(r) == reg_command_spec(command@),
{
    let t = trim_text(&chars_of(command));
    if t.len() > 0 && t[0] == '"' {
        let rest = slice(&t, 1, t.len());
        assert(rest@ == t@.skip(1));
        match crate::text::find_char(&rest, '"') {
            Some(e) => {
                proof {
                    let c = choose|c: int| first_index(rest@, '"', c);
                    crate::mimeapps::lemma_first_index_unique(rest@, '"', c, e as int);
                }
                if e == 0 {
                    None
                } else {
                    let p = slice(&rest, 0, e);
                    assert(p@ == rest@.take(e as int));
                    Some(string_of(&p))
                }
            },
            None => None,
        }
    } else {
        let ws = words_text(&t);
        if ws.len() > 0 {
            Some(string_of(&ws[0]))
        } else {
            None
        }
    }
}

pub open spec fn win_last_sep(p: Seq<char>) -> int {
    choose|i: int|
        0 <= i < p.len() && is_win_sep(p[i]) && forall|j: int| i < j < p.len() ==> !is_win_sep(p[j])
}

pub open spec fn strip_win_seps(p: Seq<char>) -> Seq<char>
    decreases p.len(),
{
    if p.len() > 0 && is_win_sep(p.last()) {
        strip_win_seps(p.drop_last())
    } else {
        p
    }
}

/// The last component of a Windows path; empty for `..`.
pub open spec fn win_file_name(path: Seq<char>) -> Seq<char> {
    let p = strip_win_seps(path);
    let name = if exists|i: int| 0 <= i < p.len() && is_win_sep(p[i]) {
        p.skip(win_last_sep(p) + 1)
    } else {
        p
    };
    if name == ".."@ {
        Seq::empty()
    } else {
        name
    }
}

/// A file name without its extension, as `Path::file_stem` cuts it.
pub open spec fn stem_spec(name: Seq<char>) -> Seq<char> {
    if has_char(name, '.') {
        let d = choose|d: int|
            0 <= d < name.len() && name[d] == '.' && forall|j: int| d < j < name.len() ==> name[j] != '.';
        if d == 0 {
            name
        } else {
            name.take(d)
        }
    } else {
        name
    }
}

/// The lower-case file stem of an executable.
pub open spec fn exe_stem_spec(executable: Seq<char>) -> Seq<char> {
    unicode_lowercase(stem_spec(win_file_name(executable)))
}

fn win_file_name_text(executable: &str) -> (n: Vec<char>)
    ensures
        n@ == win_file_name(executable@),
{
    let e = chars_of(executable);
    let mut end = e.len();
    assert(e@.take(e@.len() as int) =~= e@);
    while end > 0 && (e[end - 1] == '\\' || e[end - 1] == '/')
        invariant
            end <= e.len(),
            strip_win_seps(e@) == strip_win_seps(e@.take(end as int)),
        decreases end,
    {
        assert(e@.take(end as int).drop_last() =~= e@.take(end - 1));
        end -= 1;
    }
    let p = slice(&e, 0, end);
    assert(p@ == e@.take(end as int));
    assert(strip_win_seps(p@) == p@);
    let mut start = end;
    while start > 0 && !(p[start - 1] == '\\' || p[start - 1] == '/')
        invariant
            start <= end == p.len(),
            forall|j: int| start <= j < end ==> !is_win_sep(p@[j]),
        decreases start,
    {
        start -= 1;
    }
    let name = slice(&p, start, end);
    proof {
        if start > 0 {
            let i = (start - 1) as int;
            assert(is_win_sep(p@[i]));
            let w = win_last_sep(p@);
            assert(0 <= i < p@.len() && is_win_sep(p@[i]) && forall|j: int| i < j < p@.len() ==> !is_win_sep(p@[j]));
            assert(w == i) by {
                if w < i {
                    assert(!is_win_sep(p@[i]));
                }
                if i < w {
                    assert(!is_win_sep(p@[w]));
                }
            }
            assert(name@ =~= p@.skip(i + 1));
        } else {
            assert(name@ =~= p@);
        }
    }
    if same(&name, &chars_of("..")) {
        Vec::new()
    } else {
        name
    }
}

/// The lower-case file stem of an executable.
pub fn exe_stem(executable: &str) -> (s: String)
    ensures
        s@ == exe_stem_spec(executable@),
{
    let name = win_file_name_text(executable);
    let mut d = name.len();
    while d > 0 && name[d - 1] != '.'
        invariant
            d <= name.len(),
            forall|j: int| d <= j < name.len() ==> name@[j] != '.',
        decreases d,
    {
        d -= 1;
    }
    let stem = if d == 0 {
        slice(&name, 0, name.len())
    } else {
        let dot = d - 1;
        proof {
            let c = choose|c: int|
                0 <= c < name@.len() && name@[c] == '.' && forall|j: int| c < j < name@.len() ==> name@[j] != '.';
            assert(name@[dot as int] == '.');
            assert(c == dot) by {
                if c < dot {
                    assert(name@[dot as int] != '.');
                }
                if dot < c {
                    assert(name@[c] != '.');
                }
            }
        }
        if dot == 0 {
            slice(&name, 0, name.len())
        } else {
            slice(&name, 0, dot)
        }
    };
    proof {
        if d == 0 {
            assert(!has_char(name@, '.'));
        }
        assert(name@.subrange(0, name@.len() as int) == name@);
    }
    assert(stem@ == stem_spec(name@));
    string_of(&lowercase_text(&stem))
}

/// Where a Chromium-family browser keeps its profiles, under the local
/// application data directory.
pub open spec fn chromium_data_dir_spec(bin: Seq<char>) -> Option<Seq<char>> {
    if bin == "chrome"@ {
        Some("Google/Chrome/User Data"@)
    } else if bin == "chromium"@ {
        Some("Chromium/User Data"@)
    } else if bin == "msedge"@ {
        Some("Microsoft/Edge/User Data"@)
    } else if bin == "brave"@ {
        Some("BraveSoftware/Brave-Browser/User Data"@)
    } else if bin == "vivaldi"@ {
        Some("Vivaldi/User Data"@)
    } else {
        None
    }
}

/// The Chromium-family browsers and where each keeps its profiles under the
/// local application data directory: chrome, chromium, msedge, brave and
/// vivaldi; no other executable has such a place.
pub proof fn law_chromium_data_dirs(bin: Seq<char>)
    ensures
        chromium_data_dir_spec("chrome"@) == Some("Google/Chrome/User Data"@),
        chromium_data_dir_spec("chromium"@) == Some("Chromium/User Data"@),
        chromium_data_dir_spec("msedge"@) == Some("Microsoft/Edge/User Data"@),
        chromium_data_dir_spec("brave"@) == Some("BraveSoftware/Brave-Browser/User Data"@),
        chromium_data_dir_spec("vivaldi"@) == Some("Vivaldi/User Data"@),
        chromium_data_dir_spec(bin) is Some ==> {
            ||| bin == "chrome"@ || bin == "chromium"@ || bin == "msedge"@
            ||| bin == "brave"@ || bin == "vivaldi"@
        },
{
    reveal_strlit("chrome");
    reveal_strlit("chromium");
    reveal_strlit("msedge");
    reveal_strlit("brave");
    reveal_strlit("vivaldi");
    assert("chrome"@.len() == 6);
    assert("chromium"@.len() == 8);
    assert("msedge"@.len() == 6);
    assert("brave"@.len() == 5);
    assert("vivaldi"@.len() == 7);
    assert("msedge"@[0] != "chrome"@[0]);
}

/// Where a Chromium-family browser keeps its profiles.
pub fn chromium_data_dir(bin: &str) -> (r: Option<&'static str>)
    ensures
        match r {
            Some(d) => chromium_data_dir_spec(bin@) == Some(d@),
            None => chromium_data_dir_spec(bin@) is None,
        },
{
    let b = chars_of(bin);
    if same(&b, &chars_of("chrome")) {
        Some("Google/Chrome/User Data")
    } else if same(&b, &chars_of("chromium")) {
        Some("Chromium/User Data")
    } else if same(&b, &chars_of("msedge")) {
        Some("Microsoft/Edge/User Data")
    } else if same(&b, &chars_of("brave")) {
        Some("BraveSoftware/Brave-Browser/User Data")
    } else if same(&b, &chars_of("vivaldi")) {
        Some("Vivaldi/User Data")
    } else {
        None
    }
}

/// Where Firefox keeps `profiles.ini`, under the roaming application data directory.
pub open spec fn firefox_base_spec(roaming: Seq<char>) -> Seq<char> {
    join_windows_spec(join_windows_spec(roaming, "Mozilla"@), "Firefox"@)
}

/// What to read for the browser at `executable`: the directory that holds
/// Firefox's `profiles.ini`, and the Chromium data directory.
pub open spec fn windows_sources_spec(local: Seq<char>, roaming: Seq<char>, exe: Seq<char>) -> (
    Option<Seq<char>>,
    Option<Seq<char>>,
) {
    let bin = exe_stem_spec(exe);
    (
        if bin == "firefox"@ {
            Some(firefox_base_spec(roaming))
        } else {
            None
        },
        match chromium_data_dir_spec(bin) {
            Some(rel) => Some(join_windows_spec(local, rel)),
            None => None,
        },
    )
}

/// What to read for the browser at `executable`: the directory that holds
/// Firefox's `profiles.ini`, and the Chromium data directory.
pub fn windows_sources(local: &str, roaming: &str, executable: &str) -> (r: (Option<String>, Option<String>))
    ensures
        (opt_text(r.0), opt_text(r.1)) == windows_sources_spec(local@, roaming@, executable@),
{
    let bin = exe_stem(executable);
    let ff = if same(&chars_of(bin.as_str()), &chars_of("firefox")) {
        let m = join_windows(roaming, "Mozilla");
        Some(join_windows(m.as_str(), "Firefox"))
    } else {
        None
    };
    let ch = match chromium_data_dir(bin.as_str()) {
        Some(rel) => Some(join_windows(local, rel)),
        None => None,
    };
    (ff, ch)
}

/// The profiles that the browser at `exe` offers: one per Firefox profile of
/// its `profiles.ini`, one per Chromium profile of its data directory, or one
/// for the whole browser.
pub open spec fn windows_browser_profiles(
    local: Seq<char>,
    roaming: Seq<char>,
    exe: Seq<char>,
    name: Seq<char>,
    firefox_ini: Option<Seq<char>>,
    chromium: Seq<(Seq<char>, Seq<char>)>,
) -> Seq<ProfileView> {
    let bin = exe_stem_spec(exe);
    let base = "windows/"@ + bin;
    let bname = win_file_name(exe);
    let single = seq![entry_spec(base, name, bname, exe, None, None, Seq::empty())];
    let ff = match firefox_ini {
        Some(c) => crate::detectors::common::firefox_profiles_for(true, c, firefox_base_spec(roaming)),
        None => Seq::empty(),
    };
    if bin == "firefox"@ && ff.len() > 0 {
        firefox_entries(base, name, bname, exe, None, ff)
    } else {
        match chromium_data_dir_spec(bin) {
            Some(rel) => if chromium.len() == 0 {
                single
            } else {
                chromium_entries(true, base, name, bname, exe, None, join_windows_spec(local, rel), chromium)
            },
            None => single,
        }
    }
}

/// The profiles that the browser at `executable` offers, given the contents
/// of Firefox's `profiles.ini` when it could be read and the Chromium
/// profiles of its data directory.
pub fn profiles_for_browser(
    local: &str,
    roaming: &str,
    executable: &str,
    name: &str,
    firefox_ini: &Option<String>,
    chromium: &Vec<ChromiumProfile>,
) -> (r: Vec<BrowserProfile>)
    ensures
        profiles_view(r@) == windows_browser_profiles(
            local@,
            roaming@,
            executable@,
            name@,
            opt_text(*firefox_ini),
            chromium_view(chromium@),
        ),
{
    let bin = exe_stem(executable);
    let base = concat(&chars_of("windows/"), &chars_of(bin.as_str()));
    let bname = string_of(&win_file_name_text(executable));
    let no_icon: Option<String> = None;
    let m = join_windows(roaming, "Mozilla");
    let ff_base = join_windows(m.as_str(), "Firefox");
    let is_firefox = same(&chars_of(bin.as_str()), &chars_of("firefox"));
    if is_firefox {
        match firefox_ini {
            Some(c) => {
                let detected = crate::detectors::common::parse_profiles_ini_for(true, c.as_str(), ff_base.as_str());
                if detected.len() > 0 {
                    return expand_firefox(&base, name, bname.as_str(), executable, &no_icon, &detected);
                }
            },
            None => {},
        }
    }
    match chromium_data_dir(bin.as_str()) {
        Some(rel) => {
            if chromium.len() > 0 {
                let data_dir = join_windows(local, rel);
                return expand_chromium(true, &base, name, bname.as_str(), executable, &no_icon, data_dir.as_str(), chromium);
            }
        },
        None => {},
    }
    let no_args: Vec<String> = Vec::new();
    assert(strings(no_args@) =~= Seq::<Seq<char>>::empty());
    let e = make_entry(base, chars_of(name), bname.as_str(), executable, &no_icon, None, no_args);
    let mut out: Vec<BrowserProfile> = Vec::new();
    let ghost ev = e@;
    out.push(e);
    assert(profiles_view(out@) =~= seq![ev]);
    out
}

/// The install locations tried under each program files directory.
pub open spec fn fallback_installs() -> Seq<(Seq<char>, Seq<char>)> {
    seq![
        ("Google Chrome"@, "Google/Chrome/Application/chrome.exe"@),
        ("Brave"@, "BraveSoftware/Brave-Browser/Application/brave.exe"@),
        ("Microsoft Edge"@, "Microsoft/Edge/Application/msedge.exe"@),
        ("Chromium"@, "Chromium/Application/chrome.exe"@),
        ("Firefox"@, "Mozilla Firefox/firefox.exe"@),
        ("Vivaldi"@, "Vivaldi/Application/vivaldi.exe"@),
        ("Opera"@, "Opera/launcher.exe"@),
    ]
}

fn fallback_install(i: usize) -> (r: (&'static str, &'static str))
    requires
        i < 7,
    ensures
        (r.0@, r.1@) == fallback_installs()[i as int],
{
    if i == 0 {
        ("Google Chrome", "Google/Chrome/Application/chrome.exe")
    } else if i == 1 {
        ("Brave", "BraveSoftware/Brave-Browser/Application/brave.exe")
    } else if i == 2 {
        ("Microsoft Edge", "Microsoft/Edge/Application/msedge.exe")
    } else if i == 3 {
        ("Chromium", "Chromium/Application/chrome.exe")
    } else if i == 4 {
        ("Firefox", "Mozilla Firefox/firefox.exe")
    } else if i == 5 {
        ("Vivaldi", "Vivaldi/Application/vivaldi.exe")
    } else {
        ("Opera", "Opera/launcher.exe")
    }
}

/// The programs that registry entries name, each with the entry's name.
pub open spec fn registry_candidates(reg: Seq<(Seq<char>, Seq<char>)>) -> Seq<(Seq<char>, Seq<char>)>
    decreases reg.len(),
{
    if reg.len() == 0 {
        Seq::empty()
    } else {
        let r = registry_candidates(reg.drop_last());
        match reg_command_spec(reg.last().1) {
            Some(exe) => r.push((exe, reg.last().0)),
            None => r,
        }
    }
}

/// The known install locations under each program files directory.
pub open spec fn install_candidates(roots: Seq<Seq<char>>) -> Seq<(Seq<char>, Seq<char>)>
    decreases roots.len(),
{
    if roots.len() == 0 {
        Seq::empty()
    } else {
        install_candidates(roots.drop_last()) + fallback_installs().map_values(
            |f: (Seq<char>, Seq<char>)| (join_windows_spec(roots.last(), f.1), f.0),
        )
    }
}

pub open spec fn pairs_of(v: Seq<(String, String)>) -> Seq<(Seq<char>, Seq<char>)> {
    v.map_values(|p: (String, String)| (p.0@, p.1@))
}

/// The executables where a browser may be installed, each with its name:
/// those that the registry entries name, then the known install locations.
pub fn windows_candidates(registry: &Vec<(String, String)>, program_files: &Vec<String>) -> (r: Vec<
    (String, String),
>)
    ensures
        pairs_of(r@) == registry_candidates(pairs_of(registry@)) + install_candidates(
            strings(program_files@),
        ),
{
    let ghost reg = pairs_of(registry@);
    let mut out: Vec<(String, String)> = Vec::new();
    let mut i: usize = 0;
    assert(reg.take(0) =~= Seq::<(Seq<char>, Seq<char>)>::empty());
    while i < registry.len()
        invariant
            i <= registry.len(),
            reg == pairs_of(registry@),
            pairs_of(out@) == registry_candidates(reg.take(i as int)),
        decreases registry.len() - i,
    {
        assert(reg.take(i + 1).drop_last() =~= reg.take(i as int));
        assert(reg.take(i + 1).last() == reg[i as int]);
        let ghost before = pairs_of(out@);
        match parse_reg_command(registry[i].1.as_str()) {
            Some(exe) => {
                let ghost pv = (exe@, registry@[i as int].0@);
                out.push((exe, registry[i].0.clone()));
                assert(pairs_of(out@) =~= before.push(pv));
            },
            None => {},
        }
        i += 1;
    }
    assert(reg.take(registry.len() as int) =~= reg);
    let ghost from_reg = pairs_of(out@);
    let ghost roots = strings(program_files@);
    let mut k: usize = 0;
    assert(roots.take(0) =~= Seq::<Seq<char>>::empty());
    assert(from_reg + install_candidates(roots.take(0)) =~= from_reg);
    while k < program_files.len()
        invariant
            k <= program_files.len(),
            roots == strings(program_files@),
            pairs_of(out@) == from_reg + install_candidates(roots.take(k as int)),
        decreases program_files.len() - k,
    {
        assert(roots.take(k + 1).drop_last() =~= roots.take(k as int));
        assert(roots.take(k + 1).last() == program_files@[k as int]@);
        let ghost before = pairs_of(out@);
        let ghost add = fallback_installs().map_values(
            |f: (Seq<char>, Seq<char>)| (join_windows_spec(program_files@[k as int]@, f.1), f.0),
        );
        let mut f: usize = 0;
        while f < 7
            invariant
                f <= 7,
                pairs_of(out@) == before + add.take(f as int),
                add == fallback_installs().map_values(
                    |f: (Seq<char>, Seq<char>)| (join_windows_spec(program_files@[k as int]@, f.1), f.0),
                ),
                k < program_files.len(),
            decreases 7 - f,
        {
            let (display, relative) = fallback_install(f);
            let exe = join_windows(program_files[k].as_str(), relative);
            let ghost mid = pairs_of(out@);
            let ghost pv = (exe@, display@);
            out.push((exe, display.to_owned()));
            assert(pairs_of(out@) =~= mid.push(pv));
            assert(add[f as int] == pv);
            f += 1;
            assert(add.take(f as int) =~= add.take(f - 1).push(add[f - 1]));
        }
        assert(add.take(7) =~= add);
        k += 1;
        assert(before + add =~= from_reg + install_candidates(roots.take(k as int)));
    }
    assert(roots.take(program_files.len() as int) =~= roots);
    out
}

/// A browser found on Windows, with what could be read of its profiles.
pub struct WindowsFound {
    pub executable: String,
    pub name: String,
    pub firefox_ini: Option<String>,
    pub chromium: Vec<ChromiumProfile>,
}

pub struct WindowsFoundModel {
    pub executable: Seq<char>,
    pub name: Seq<char>,
    pub firefox_ini: Option<Seq<char>>,
    pub chromium: Seq<(Seq<char>, Seq<char>)>,
}

pub open spec fn windows_found_view(v: Seq<WindowsFound>) -> Seq<WindowsFoundModel> {
    v.map_values(
        |b: WindowsFound|
            WindowsFoundModel {
                executable: b.executable@,
                name: b.name@,
                firefox_ini: opt_text(b.firefox_ini),
                chromium: chromium_view(b.chromium@),
            },
    )
}

pub open spec fn all_windows_profiles(local: Seq<char>, roaming: Seq<char>, bs: Seq<WindowsFoundModel>) -> Seq<
    ProfileView,
>
    decreases bs.len(),
{
    if bs.len() == 0 {
        Seq::empty()
    } else {
        let b = bs.last();
        all_windows_profiles(local, roaming, bs.drop_last()) + windows_browser_profiles(
            local,
            roaming,
            b.executable,
            b.name,
            b.firefox_ini,
            b.chromium,
        )
    }
}

/// The profiles offered on Windows: those of each found browser, one per id,
/// ordered by id.
pub fn windows_profiles(local: &str, roaming: &str, found: &Vec<WindowsFound>) -> (r: Vec<BrowserProfile>)
    ensures
        profiles_view(r@) == finish_spec(all_windows_profiles(local@, roaming@, windows_found_view(found@))),
{
    let ghost bv = windows_found_view(found@);
    let mut all: Vec<BrowserProfile> = Vec::new();
    let mut i: usize = 0;
    assert(bv.take(0) =~= Seq::<WindowsFoundModel>::empty());
    while i < found.len()
        invariant
            i <= found.len(),
            bv == windows_found_view(found@),
            profiles_view(all@) == all_windows_profiles(local@, roaming@, bv.take(i as int)),
        decreases found.len() - i,
    {
        let b = &found[i];
        let more = profiles_for_browser(local, roaming, b.executable.as_str(), b.name.as_str(), &b.firefox_ini, &b.chromium);
        assert(bv.take(i + 1).drop_last() =~= bv.take(i as int));
        assert(bv.take(i + 1).last() == bv[i as int]);
        crate::detectors::linux::append_profiles(&mut all, more);
        i += 1;
    }
    assert(bv.take(found.len() as int) =~= bv);
    finish_profiles(all)
}

} // verus!

verus! {

/// Entry `i` has a key that an earlier entry has.
pub open spec fn key_seen_before(s: Seq<(Seq<char>, Option<Seq<char>>)>, i: int) -> bool {
    exists|j: int| 0 <= j < i && (#[trigger] s[j]).0 == s[i].0
}

/// The browsers that the registry lists, given each subkey found, hive after
/// hive, with its command when it could be read: the first occurrence of each
/// subkey counts, and only when its command was read.
pub open spec fn registry_pick(s: Seq<(Seq<char>, Option<Seq<char>>)>) -> Seq<(Seq<char>, Seq<char>)>
    decreases s.len(),
{
    if s.len() == 0 {
        Seq::empty()
    } else {
        let r = registry_pick(s.drop_last());
        if key_seen_before(s, s.len() - 1) {
            r
        } else {
            match s.last().1 {
                Some(c) => r.push((s.last().0, c)),
                None => r,
            }
        }
    }
}

pub open spec fn keyed_view(v: Seq<(String, Option<String>)>) -> Seq<(Seq<char>, Option<Seq<char>>)> {
    v.map_values(|e: (String, Option<String>)| (e.0@, opt_text(e.1)))
}

fn seen_key(seen: &Vec<String>, key: &str) -> (r: bool)
    ensures
        r == exists|q: int| 0 <= q < seen@.len() && (#[trigger] seen@[q])@ == key@,
{
    let want = chars_of(key);
    let mut q: usize = 0;
    while q < seen.len()
        invariant
            q <= seen.len(),
            want@ == key@,
            forall|r: int| 0 <= r < q ==> (#[trigger] seen@[r])@ != key@,
        decreases seen.len() - q,
    {
        if same(&chars_of(seen[q].as_str()), &want) {
            return true;
        }
        q += 1;
    }
    false
}

/// The browsers that the registry lists: each subkey once, the first found,
/// with its command; a subkey whose command could not be read is skipped.
pub fn registry_browsers_from(entries: &Vec<(String, Option<String>)>) -> (r: Vec<(String, String)>)
    ensures
        pairs_of(r@) == registry_pick(keyed_view(entries@)),
{
    let ghost input = keyed_view(entries@);
    let mut seen: Vec<String> = Vec::new();
    let mut out: Vec<(String, String)> = Vec::new();
    let mut i: usize = 0;
    while i < entries.len()
        invariant
            i <= entries.len(),
            input == keyed_view(entries@),
            seen@.len() == i,
            forall|q: int| 0 <= q < i ==> (#[trigger] seen@[q])@ == input[q].0,
            pairs_of(out@) == registry_pick(input.take(i as int)),
        decreases entries.len() - i,
    {
        let ghost t = input.take(i + 1);
        assert(t.drop_last() =~= input.take(i as int));
        assert(t.last() == input[i as int]);
        let key = entries[i].0.as_str();
        let dup = seen_key(&seen, key);
        proof {
            if dup {
                let q = choose|q: int| 0 <= q < seen@.len() && (#[trigger] seen@[q])@ == key@;
                assert(t[q].0 == t[i as int].0);
                assert(key_seen_before(t, i as int));
            } else {
                if key_seen_before(t, i as int) {
                    let j = choose|j: int| 0 <= j < i && (#[trigger] t[j]).0 == t[i as int].0;
                    assert(seen@[j]@ == key@);
                }
            }
        }
        if !dup {
            match &entries[i].1 {
                Some(c) => {
                    let ghost before = pairs_of(out@);
                    out.push((entries[i].0.clone(), c.clone()));
                    assert(pairs_of(out@) =~= before.push((input[i as int].0, c@)));
                },
                None => {},
            }
        }
        seen.push(entries[i].0.clone());
        i += 1;
    }
    assert(input.take(entries.len() as int) =~= input);
    out
}

} // verus!

verus! {

proof fn lemma_registry_pick_keys(s: Seq<(Seq<char>, Option<Seq<char>>)>, k: int)
    requires
        0 <= k < registry_pick(s).len(),
    ensures
        exists|j: int| 0 <= j < s.len() && (#[trigger] s[j]).0 == registry_pick(s)[k].0,
    decreases s.len(),
{
    let d = s.drop_last();
    let r = registry_pick(d);
    if k < r.len() {
        lemma_registry_pick_keys(d, k);
        let j = choose|j: int| 0 <= j < d.len() && (#[trigger] d[j]).0 == r[k].0;
        assert(s[j] == d[j]);
        assert(registry_pick(s)[k] == r[k]);
    } else {
        assert(s[s.len() - 1].0 == registry_pick(s)[k].0);
    }
}

/// The browsers read from the registry name each subkey once, although the
/// machine and the user hives may both list it.
pub proof fn law_registry_subkeys_once(s: Seq<(Seq<char>, Option<Seq<char>>)>)
    ensures
        forall|a: int, b: int|
            0 <= a < b < registry_pick(s).len() ==> (#[trigger] registry_pick(s)[a]).0 != (
            #[trigger] registry_pick(s)[b]).0,
    decreases s.len(),
{
    if s.len() > 0 {
        let d = s.drop_last();
        law_registry_subkeys_once(d);
        let r = registry_pick(d);
        let n = s.len() - 1;
        if !key_seen_before(s, n) && s.last().1 is Some {
            let t = r.push((s.last().0, s.last().1->Some_0));
            assert(registry_pick(s) == t);
            assert forall|a: int, b: int| 0 <= a < b < t.len() implies (#[trigger] t[a]).0 != (
            #[trigger] t[b]).0 by {
                if b == r.len() {
                    assert(t[a] == r[a]);
                    if r[a].0 == s.last().0 {
                        lemma_registry_pick_keys(d, a);
                        let j = choose|j: int| 0 <= j < d.len() && (#[trigger] d[j]).0 == r[a].0;
                        assert(s[j] == d[j]);
                        assert(s[n] == s.last());
                        assert(key_seen_before(s, n));
                    }
                } else {
                    assert(t[a] == r[a] && t[b] == r[b]);
                }
            }
        }
    }
}

} // verus!

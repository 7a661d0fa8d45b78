//! The profile entries made from a browser's Chromium or Firefox profiles.
use vstd::prelude::*;

use crate::detectors::common::{
    chromium_view, firefox_view, join_path, join_path_spec, ChromiumProfile, FirefoxProfile,
};
use crate::domain::{profiles_view, BrowserProfile, ProfileView};
use crate::link::opt_text;
use crate::text::{
    chars_of, concat, replace_char, replace_char_text, string_of, strings,
};

verus! {

/// Whether `c` separates path components on Windows.
pub open spec fn is_win_sep(c: char) -> bool {
    c == '\\' || c == '/'
}

/// `base` joined with `path` on Windows: a `path` that starts at a root or a
/// drive replaces `base`, otherwise a backslash separates them unless `base`
/// is empty or already ends with a separator.
pub open spec fn join_windows_spec(base: Seq<char>, path: Seq<char>) -> Seq<char> {
    if (path.len() > 0 && is_win_sep(path[0])) || (path.len() > 1 && path[1] == ':') {
        path
    } else if base.len() == 0 || is_win_sep(base.last()) {
        base + path
    } else {
        base + seq!['\\'] + path
    }
}

/// `base` joined with `path` on Windows.
pub fn join_windows(base: &str, path: &str) -> (r: String)
    ensures
        r@ == join_windows_spec(base@, path@),
{
    let b = chars_of(base);
    let p = chars_of(path);
    if (p.len() > 0 && (p[0] == '\\' || p[0] == '/')) || (p.len() > 1 && p[1] == ':') {
        return string_of(&p);
    }
    if b.len() == 0 || b[b.len() - 1] == '\\' || b[b.len() - 1] == '/' {
        string_of(&concat(&b, &p))
    } else {
        let mut sep: Vec<char> = Vec::new();
        sep.push('\\');
        string_of(&concat(&concat(&b, &sep), &p))
    }
}

/// `base` joined with `path`, Windows style when `windows` holds.
pub open spec fn join_for(windows: bool, base: Seq<char>, path: Seq<char>) -> Seq<char> {
    if windows {
        join_windows_spec(base, path)
    } else {
        join_path_spec(base, path)
    }
}

pub open spec fn entry_spec(
    id: Seq<char>,
    name: Seq<char>,
    browser_name: Seq<char>,
    exe: Seq<char>,
    icon: Option<Seq<char>>,
    dir: Option<Seq<char>>,
    args: Seq<Seq<char>>,
) -> ProfileView {
    ProfileView { id, name, browser_name, executable: exe, profile_dir: dir, icon, args }
}

pub open spec fn shown_name(browser: Seq<char>, profile: Seq<char>) -> Seq<char> {
    browser + " \u{b7} "@ + profile
}

pub open spec fn sub_id(base: Seq<char>, part: Seq<char>) -> Seq<char> {
    base + seq!['/'] + replace_char(part, ' ', '-')
}

/// One entry per Chromium profile.
pub open spec fn chromium_entries(
    windows: bool,
    base: Seq<char>,
    name: Seq<char>,
    browser_name: Seq<char>,
    exe: Seq<char>,
    icon: Option<Seq<char>>,
    data_dir: Seq<char>,
    ps: Seq<(Seq<char>, Seq<char>)>,
) -> Seq<ProfileView> {
    ps.map_values(
        |p: (Seq<char>, Seq<char>)|
            entry_spec(
                sub_id(base, p.0),
                shown_name(name, p.1),
                browser_name,
                exe,
                icon,
                Some(join_for(windows, data_dir, p.0)),
                seq!["--profile-directory="@ + p.0],
            ),
    )
}

/// One entry per Firefox profile.
pub open spec fn firefox_entries(
    base: Seq<char>,
    name: Seq<char>,
    browser_name: Seq<char>,
    exe: Seq<char>,
    icon: Option<Seq<char>>,
    ps: Seq<(Seq<char>, Seq<char>)>,
) -> Seq<ProfileView> {
    ps.map_values(
        |p: (Seq<char>, Seq<char>)|
            entry_spec(
                sub_id(base, p.0),
                shown_name(name, p.0),
                browser_name,
                exe,
                icon,
                Some(p.1),
                seq!["-P"@, p.0],
            ),
    )
}

/// A profile entry.
pub fn make_entry(
    id: Vec<char>,
    name: Vec<char>,
    browser_name: &str,
    exe: &str,
    icon: &Option<String>,
    dir: Option<String>,
    args: Vec<String>,
) -> (p: BrowserProfile)
    ensures
        p@ == entry_spec(id@, name@, browser_name@, exe@, opt_text(*icon), opt_text(dir), strings(args@)),
{
    BrowserProfile {
        id: string_of(&id),
        name: string_of(&name),
        browser_name: browser_name.to_owned(),
        executable: exe.to_owned(),
        profile_dir: dir,
        icon: crate::domain::clone_opt(icon),
        args,
    }
}

fn sub_id_text(base: &Vec<char>, part: &str) -> (r: Vec<char>)
    ensures
        r@ == sub_id(base@, part@),
{
    let mut slash: Vec<char> = Vec::new();
    slash.push('/');
    concat(&concat(base, &slash), &replace_char_text(&chars_of(part), ' ', '-'))
}

fn shown_name_text(name: &str, profile: &str) -> (r: Vec<char>)
    ensures
        r@ == shown_name(name@, profile@),
{
    concat(&concat(&chars_of(name), &chars_of(" \u{b7} ")), &chars_of(profile))
}

/// One entry per Chromium profile of the data directory `data_dir`.
pub fn expand_chromium(
    windows: bool,
    base: &Vec<char>,
    name: &str,
    browser_name: &str,
    exe: &str,
    icon: &Option<String>,
    data_dir: &str,
    detected: &Vec<ChromiumProfile>,
) -> (r: Vec<BrowserProfile>)
    ensures
        profiles_view(r@) == chromium_entries(
            windows,
            base@,
            name@,
            browser_name@,
            exe@,
            opt_text(*icon),
            data_dir@,
            chromium_view(detected@),
        ),
{
    let ghost cv = chromium_view(detected@);
    let ghost iv = opt_text(*icon);
    let mut out: Vec<BrowserProfile> = Vec::new();
    let mut i: usize = 0;
    while i < detected.len()
        invariant
            i <= detected.len(),
            cv == chromium_view(detected@),
            iv == opt_text(*icon),
            profiles_view(out@) == chromium_entries(
                windows,
                base@,
                name@,
                browser_name@,
                exe@,
                iv,
                data_dir@,
                cv.take(i as int),
            ),
        decreases detected.len() - i,
    {
        let p = &detected[i];
        let id = sub_id_text(base, p.directory.as_str());
        let shown = shown_name_text(name, p.display_name.as_str());
        let dir = if windows {
            join_windows(data_dir, p.directory.as_str())
        } else {
            join_path(data_dir, p.directory.as_str())
        };
        let arg = string_of(&concat(&chars_of("--profile-directory="), &chars_of(p.directory.as_str())));
        let mut args: Vec<String> = Vec::new();
        args.push(arg);
        assert(strings(args@) =~= seq![arg@]);
        let ghost before = profiles_view(out@);
        let e = make_entry(id, shown, browser_name, exe, icon, Some(dir), args);
        let ghost ev = e@;
        assert(ev == entry_spec(
            sub_id(base@, cv[i as int].0),
            shown_name(name@, cv[i as int].1),
            browser_name@,
            exe@,
            iv,
            Some(join_for(windows, data_dir@, cv[i as int].0)),
            seq!["--profile-directory="@ + cv[i as int].0],
        ));
        out.push(e);
        assert(profiles_view(out@) =~= before.push(ev));
        i += 1;
        assert(cv.take(i as int) =~= cv.take(i - 1).push(cv[i - 1]));
        assert(chromium_entries(windows, base@, name@, browser_name@, exe@, iv, data_dir@, cv.take(i as int))
            =~= chromium_entries(windows, base@, name@, browser_name@, exe@, iv, data_dir@, cv.take(i - 1)).push(ev));
    }
    assert(cv.take(detected.len() as int) =~= cv);
    out
}

/// One entry per Firefox profile.
pub fn expand_firefox(
    base: &Vec<char>,
    name: &str,
    browser_name: &str,
    exe: &str,
    icon: &Option<String>,
    detected: &Vec<FirefoxProfile>,
) -> (r: Vec<BrowserProfile>)
    ensures
        profiles_view(r@) == firefox_entries(
            base@,
            name@,
            browser_name@,
            exe@,
            opt_text(*icon),
            firefox_view(detected@),
        ),
{
    let ghost dv = firefox_view(detected@);
    let ghost iv = opt_text(*icon);
    let mut out: Vec<BrowserProfile> = Vec::new();
    let mut i: usize = 0;
    while i < detected.len()
        invariant
            i <= detected.len(),
            dv == firefox_view(detected@),
            iv == opt_text(*icon),
            profiles_view(out@) == firefox_entries(base@, name@, browser_name@, exe@, iv, dv.take(i as int)),
        decreases detected.len() - i,
    {
        let p = &detected[i];
        let id = sub_id_text(base, p.name.as_str());
        let shown = shown_name_text(name, p.name.as_str());
        let mut args: Vec<String> = Vec::new();
        args.push("-P".to_owned());
        args.push(p.name.clone());
        assert(strings(args@) =~= seq!["-P"@, p.name@]);
        let ghost before = profiles_view(out@);
        let e = make_entry(id, shown, browser_name, exe, icon, Some(p.dir.clone()), args);
        let ghost ev = e@;
        assert(ev == entry_spec(
            sub_id(base@, dv[i as int].0),
            shown_name(name@, dv[i as int].0),
            browser_name@,
            exe@,
            iv,
            Some(dv[i as int].1),
            seq!["-P"@, dv[i as int].0],
        ));
        out.push(e);
        assert(profiles_view(out@) =~= before.push(ev));
        i += 1;
        assert(dv.take(i as int) =~= dv.take(i - 1).push(dv[i - 1]));
        assert(firefox_entries(base@, name@, browser_name@, exe@, iv, dv.take(i as int))
            =~= firefox_entries(base@, name@, browser_name@, exe@, iv, dv.take(i - 1)).push(ev));
    }
    assert(dv.take(detected.len() as int) =~= dv);
    out
}

} // verus!

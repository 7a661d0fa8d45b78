//! Linux: the profiles that a detected browser offers.
use vstd::prelude::*;

use crate::detectors::assemble::{finish_profiles, finish_spec};
use crate::detectors::common::{
    chromium_view, firefox_profiles_spec, firefox_view, join_path, join_path_spec,
    parse_profiles_ini, ChromiumProfile,
};
use crate::domain::{clone_opt, profiles_view, BrowserProfile, ProfileView};
use crate::link::opt_text;
use crate::text::{
    chars_of, concat, replace_char, replace_char_text, same, slice, string_of, strings, texts,
};

verus! {

/// Finds the browsers installed on a Linux system.
pub struct LinuxBrowserDetector;

impl LinuxBrowserDetector {
    pub fn new() -> (d: LinuxBrowserDetector) {
        LinuxBrowserDetector
    }
}

/// The last piece of a `/`-separated path that is neither empty nor `.`;
/// empty when there is none.
pub open spec fn last_name(ps: Seq<Seq<char>>) -> Seq<char>
    decreases ps.len(),
{
    if ps.len() == 0 {
        Seq::empty()
    } else if ps.last().len() == 0 || ps.last() == "."@ {
        last_name(ps.drop_last())
    } else {
        ps.last()
    }
}

/// The file name of a path, as `Path::file_name` gives it on Unix: its last
/// component once empty and `.` components are passed over; empty when that
/// component is `..`, or when the path has none.
pub open spec fn file_name_spec(path: Seq<char>) -> Seq<char> {
    let name = last_name(crate::text::split_char(path, '/'));
    if name == ".."@ {
        Seq::empty()
    } else {
        name
    }
}

/// The file name of an executable.
pub fn bin_name(executable: &str) -> (n: String)
    ensures
        n@ == file_name_spec(executable@),
{
    let ps = crate::text::split_text(&chars_of(executable), '/');
    let ghost pv = texts(ps@);
    let dot = chars_of(".");
    let mut k: usize = ps.len();
    assert(pv.take(k as int) =~= pv);
    while k > 0 && (ps[k - 1].len() == 0 || same(&ps[k - 1], &dot))
        invariant
            k <= ps.len(),
            pv == texts(ps@),
            dot@ == "."@,
            last_name(pv) == last_name(pv.take(k as int)),
        decreases k,
    {
        assert(pv.take(k as int).drop_last() =~= pv.take(k - 1));
        assert(pv.take(k as int).last() == ps@[k - 1]@);
        k -= 1;
    }
    let name: Vec<char> = if k == 0 {
        assert(pv.take(0) =~= Seq::<Seq<char>>::empty());
        Vec::new()
    } else {
        assert(pv.take(k as int).last() == ps@[k - 1]@);
        slice(&ps[k - 1], 0, ps[k - 1].len())
    };
    proof {
        if k > 0 {
            assert(ps@[k - 1]@.subrange(0, ps@[k - 1]@.len() as int) =~= ps@[k - 1]@);
        }
    }
    assert(name@ == last_name(pv));
    if same(&name, &chars_of("..")) {
        String::new()
    } else {
        string_of(&name)
    }
}

/// `value` with spaces turned into dashes.
pub fn slug(value: &str) -> (s: String)
    ensures
        s@ == replace_char(value@, ' ', '-'),
{
    string_of(&replace_char_text(&chars_of(value), ' ', '-'))
}

/// Where a Chromium-family browser keeps its profiles, under the home directory.
pub open spec fn chromium_config_dir_spec(bin: Seq<char>) -> Option<Seq<char>> {
    if bin == "google-chrome"@ || bin == "google-chrome-stable"@ || bin == "chrome"@ {
        Some(".config/google-chrome"@)
    } else if bin == "chromium"@ || bin == "chromium-browser"@ || bin == "chromium-stable"@ {
        Some(".config/chromium"@)
    } else if bin == "brave-browser"@ || bin == "brave"@ {
        Some(".config/BraveSoftware/Brave-Browser"@)
    } else if bin == "vivaldi"@ || bin == "vivaldi-stable"@ {
        Some(".config/vivaldi"@)
    } else if bin == "microsoft-edge"@ || bin == "microsoft-edge-stable"@ || bin == "msedge"@ {
        Some(".config/microsoft-edge"@)
    } else if bin == "opera"@ {
        Some(".config/opera"@)
    } else if bin == "arc"@ {
        Some(".config/Arc"@)
    } else {
        None
    }
}

/// The Chromium-family browsers and where each keeps its profiles: Chrome
/// (google-chrome, google-chrome-stable, chrome), Chromium (chromium,
/// chromium-browser, chromium-stable), Brave (brave-browser, brave), Vivaldi
/// (vivaldi, vivaldi-stable), Edge (microsoft-edge, microsoft-edge-stable,
/// msedge), Opera (opera) and Arc (arc); no other binary has such a place.
pub proof fn law_chromium_data_dirs(bin: Seq<char>)
    ensures
        chromium_config_dir_spec("google-chrome"@) == Some(".config/google-chrome"@),
        chromium_config_dir_spec("google-chrome-stable"@) == Some(".config/google-chrome"@),
        chromium_config_dir_spec("chrome"@) == Some(".config/google-chrome"@),
        chromium_config_dir_spec("chromium"@) == Some(".config/chromium"@),
        chromium_config_dir_spec("chromium-browser"@) == Some(".config/chromium"@),
        chromium_config_dir_spec("chromium-stable"@) == Some(".config/chromium"@),
        chromium_config_dir_spec("brave-browser"@) == Some(".config/BraveSoftware/Brave-Browser"@),
        chromium_config_dir_spec("brave"@) == Some(".config/BraveSoftware/Brave-Browser"@),
        chromium_config_dir_spec("vivaldi"@) == Some(".config/vivaldi"@),
        chromium_config_dir_spec("vivaldi-stable"@) == Some(".config/vivaldi"@),
        chromium_config_dir_spec("microsoft-edge"@) == Some(".config/microsoft-edge"@),
        chromium_config_dir_spec("microsoft-edge-stable"@) == Some(".config/microsoft-edge"@),
        chromium_config_dir_spec("msedge"@) == Some(".config/microsoft-edge"@),
        chromium_config_dir_spec("opera"@) == Some(".config/opera"@),
        chromium_config_dir_spec("arc"@) == Some(".config/Arc"@),
        chromium_config_dir_spec(bin) is Some ==> {
            ||| bin == "google-chrome"@ || bin == "google-chrome-stable"@ || bin == "chrome"@
            ||| bin == "chromium"@ || bin == "chromium-browser"@ || bin == "chromium-stable"@
            ||| bin == "brave-browser"@ || bin == "brave"@
            ||| bin == "vivaldi"@ || bin == "vivaldi-stable"@
            ||| bin == "microsoft-edge"@ || bin == "microsoft-edge-stable"@ || bin == "msedge"@
            ||| bin == "opera"@ || bin == "arc"@
        },
{
    reveal_strlit("google-chrome");
    reveal_strlit("google-chrome-stable");
    reveal_strlit("chrome");
    reveal_strlit("chromium");
    reveal_strlit("chromium-browser");
    reveal_strlit("chromium-stable");
    reveal_strlit("brave-browser");
    reveal_strlit("brave");
    reveal_strlit("vivaldi");
    reveal_strlit("vivaldi-stable");
    reveal_strlit("microsoft-edge");
    reveal_strlit("microsoft-edge-stable");
    reveal_strlit("msedge");
    reveal_strlit("opera");
    reveal_strlit("arc");
    assert("google-chrome"@.len() == 13);
    assert("google-chrome-stable"@.len() == 20);
    assert("chrome"@.len() == 6);
    assert("chromium"@.len() == 8);
    assert("chromium-browser"@.len() == 16);
    assert("chromium-stable"@.len() == 15);
    assert("brave-browser"@.len() == 13);
    assert("brave"@.len() == 5);
    assert("vivaldi"@.len() == 7);
    assert("vivaldi-stable"@.len() == 14);
    assert("microsoft-edge"@.len() == 14);
    assert("microsoft-edge-stable"@.len() == 21);
    assert("msedge"@.len() == 6);
    assert("opera"@.len() == 5);
    assert("arc"@.len() == 3);
    assert("brave-browser"@[0] != "google-chrome"@[0]);
    assert("msedge"@[0] != "chrome"@[0]);
    assert("microsoft-edge"@[0] != "vivaldi-stable"@[0]);
    assert("opera"@[0] != "brave"@[0]);
}

fn is(a: &Vec<char>, s: &str) -> (r: bool)
    ensures
        r == (a@ == s@),
{
    same(a, &chars_of(s))
}

/// Where a Chromium-family browser keeps its profiles, under the home directory.
pub fn chromium_config_dir(bin: &str) -> (r: Option<&'static str>)
    ensures
        match r {
            Some(d) => chromium_config_dir_spec(bin@) == Some(d@),
            None => chromium_config_dir_spec(bin@) is None,
        },
{
    let b = chars_of(bin);
    if is(&b, "google-chrome") || is(&b, "google-chrome-stable") || is(&b, "chrome") {
        Some(".config/google-chrome")
    } else if is(&b, "chromium") || is(&b, "chromium-browser") || is(&b, "chromium-stable") {
        Some(".config/chromium")
    } else if is(&b, "brave-browser") || is(&b, "brave") {
        Some(".config/BraveSoftware/Brave-Browser")
    } else if is(&b, "vivaldi") || is(&b, "vivaldi-stable") {
        Some(".config/vivaldi")
    } else if is(&b, "microsoft-edge") || is(&b, "microsoft-edge-stable") || is(&b, "msedge") {
        Some(".config/microsoft-edge")
    } else if is(&b, "opera") {
        Some(".config/opera")
    } else if is(&b, "arc") {
        Some(".config/Arc")
    } else {
        None
    }
}

/// The directories where a Firefox-family browser may keep `profiles.ini`.
pub open spec fn firefox_homes_spec(home: Seq<char>, bin: Seq<char>) -> Seq<Seq<char>> {
    if bin == "firefox"@ {
        seq![join_path_spec(join_path_spec(home, ".mozilla"@), "firefox"@)]
    } else if bin == "zen-browser"@ || bin == "zen"@ {
        seq![
            join_path_spec(home, ".zen"@),
            join_path_spec(join_path_spec(home, ".mozilla"@), "zen"@),
        ]
    } else {
        Seq::empty()
    }
}

/// The Firefox-family browsers and where each may keep `profiles.ini`:
/// firefox under `.mozilla/firefox`, zen-browser and zen under `.zen` and then
/// `.mozilla/zen`; any other binary has no such place.
pub proof fn law_firefox_homes(home: Seq<char>, bin: Seq<char>)
    ensures
        firefox_homes_spec(home, "firefox"@) == seq![
            join_path_spec(join_path_spec(home, ".mozilla"@), "firefox"@),
        ],
        firefox_homes_spec(home, "zen-browser"@) == seq![
            join_path_spec(home, ".zen"@),
            join_path_spec(join_path_spec(home, ".mozilla"@), "zen"@),
        ],
        firefox_homes_spec(home, "zen"@) == firefox_homes_spec(home, "zen-browser"@),
        bin != "firefox"@ && bin != "zen-browser"@ && bin != "zen"@ ==> firefox_homes_spec(
            home,
            bin,
        ).len() == 0,
{
    reveal_strlit("firefox");
    reveal_strlit("zen-browser");
    reveal_strlit("zen");
    assert("firefox"@.len() == 7);
    assert("zen-browser"@.len() == 11);
    assert("zen"@.len() == 3);
}

/// The directories where a Firefox-family browser may keep `profiles.ini`.
pub fn firefox_homes(home: &str, bin: &str) -> (r: Vec<String>)
    ensures
        strings(r@) == firefox_homes_spec(home@, bin@),
{
    let b = chars_of(bin);
    let mut r: Vec<String> = Vec::new();
    if is(&b, "firefox") {
        let m = join_path(home, ".mozilla");
        r.push(join_path(m.as_str(), "firefox"));
        assert(strings(r@) =~= firefox_homes_spec(home@, bin@));
    } else if is(&b, "zen-browser") || is(&b, "zen") {
        r.push(join_path(home, ".zen"));
        let m = join_path(home, ".mozilla");
        r.push(join_path(m.as_str(), "zen"));
        assert(strings(r@) =~= firefox_homes_spec(home@, bin@));
    } else {
        assert(strings(r@) =~= firefox_homes_spec(home@, bin@));
    }
    r
}

/// A profile of the browser at `executable`.
pub open spec fn profile_spec(
    id: Seq<char>,
    name: Seq<char>,
    executable: Seq<char>,
    icon: Option<Seq<char>>,
    profile_dir: Option<Seq<char>>,
    args: Seq<Seq<char>>,
) -> ProfileView {
    ProfileView {
        id,
        name,
        browser_name: file_name_spec(executable),
        executable,
        profile_dir,
        icon,
        args,
    }
}

/// A profile of the browser at `executable`, named after its file.
pub fn browser_profile(
    id: &str,
    name: &str,
    executable: &str,
    icon: Option<&str>,
    profile_dir: Option<String>,
    args: Vec<String>,
) -> (p: BrowserProfile)
    ensures
        p@ == profile_spec(
            id@,
            name@,
            executable@,
            match icon {
                Some(i) => Some(i@),
                None => None,
            },
            opt_text(profile_dir),
            strings(args@),
        ),
{
    BrowserProfile {
        id: id.to_owned(),
        name: name.to_owned(),
        browser_name: bin_name(executable),
        executable: executable.to_owned(),
        profile_dir,
        icon: match icon {
            Some(i) => Some(i.to_owned()),
            None => None,
        },
        args,
    }
}

pub open spec fn middle_dot() -> Seq<char> {
    " \u{b7} "@
}

/// The profile that stands for the whole browser.
pub open spec fn default_linux_profile(exe: Seq<char>, name: Seq<char>, icon: Option<Seq<char>>) -> ProfileView {
    profile_spec("linux/"@ + file_name_spec(exe), name, exe, icon, None, Seq::empty())
}

/// The profile for one Chromium profile directory.
pub open spec fn chromium_linux_profile(
    exe: Seq<char>,
    name: Seq<char>,
    icon: Option<Seq<char>>,
    config_dir: Seq<char>,
    p: (Seq<char>, Seq<char>),
) -> ProfileView {
    profile_spec(
        "linux/"@ + file_name_spec(exe) + seq!['/'] + replace_char(p.0, ' ', '-'),
        name + middle_dot() + p.1,
        exe,
        icon,
        Some(join_path_spec(config_dir, p.0)),
        seq!["--profile-directory="@ + p.0],
    )
}

/// The profile for one Firefox profile.
pub open spec fn firefox_linux_profile(
    exe: Seq<char>,
    name: Seq<char>,
    icon: Option<Seq<char>>,
    p: (Seq<char>, Seq<char>),
) -> ProfileView {
    profile_spec(
        "linux/"@ + file_name_spec(exe) + seq!['/'] + replace_char(p.0, ' ', '-'),
        name + middle_dot() + p.0,
        exe,
        icon,
        Some(p.1),
        seq!["-P"@, p.0],
    )
}

pub open spec fn chromium_linux_profiles(
    exe: Seq<char>,
    name: Seq<char>,
    icon: Option<Seq<char>>,
    config_dir: Seq<char>,
    ps: Seq<(Seq<char>, Seq<char>)>,
) -> Seq<ProfileView> {
    ps.map_values(|p: (Seq<char>, Seq<char>)| chromium_linux_profile(exe, name, icon, config_dir, p))
}

pub open spec fn firefox_linux_profiles(
    exe: Seq<char>,
    name: Seq<char>,
    icon: Option<Seq<char>>,
    ps: Seq<(Seq<char>, Seq<char>)>,
) -> Seq<ProfileView> {
    ps.map_values(|p: (Seq<char>, Seq<char>)| firefox_linux_profile(exe, name, icon, p))
}

/// The index of the first readable `profiles.ini`.
pub open spec fn first_readable(inis: Seq<Option<Seq<char>>>, k: int) -> bool {
    0 <= k < inis.len() && inis[k] is Some && forall|j: int| 0 <= j < k ==> inis[j] is None
}

/// The profiles that a browser offers: one per Chromium profile when it is a
/// Chromium-family browser with profiles, one per Firefox profile listed by
/// the first `profiles.ini` that could be read when it is a Firefox-family
/// browser, else one for the whole browser. `chromium` holds the Chromium
/// profiles of its data directory and `inis` the contents of the
/// `profiles.ini` of each of its Firefox homes, as far as they could be read.
pub open spec fn linux_browser_profiles(
    home: Seq<char>,
    exe: Seq<char>,
    name: Seq<char>,
    icon: Option<Seq<char>>,
    chromium: Seq<(Seq<char>, Seq<char>)>,
    inis: Seq<Option<Seq<char>>>,
) -> Seq<ProfileView> {
    let bin = file_name_spec(exe);
    match chromium_config_dir_spec(bin) {
        Some(rel) => {
            let config_dir = join_path_spec(home, rel);
            if chromium.len() == 0 {
                seq![default_linux_profile(exe, name, icon)]
            } else {
                chromium_linux_profiles(exe, name, icon, config_dir, chromium)
            }
        },
        None => {
            let homes = firefox_homes_spec(home, bin);
            if exists|k: int| first_readable(inis, k) && k < homes.len() {
                let k = choose|k: int| first_readable(inis, k) && k < homes.len();
                let detected = firefox_profiles_spec(inis[k]->Some_0, homes[k]);
                if detected.len() == 0 {
                    seq![default_linux_profile(exe, name, icon)]
                } else {
                    firefox_linux_profiles(exe, name, icon, detected)
                }
            } else {
                seq![default_linux_profile(exe, name, icon)]
            }
        },
    }
}

fn text_string(parts: &Vec<char>) -> (s: String)
    ensures
        s@ == parts@,
{
    string_of(parts)
}

fn opt_str(o: &Option<String>) -> (r: Option<&str>)
    ensures
        match r {
            Some(s) => Some(s@) == opt_text(*o),
            None => o is None,
        },
{
    match o {
        Some(s) => Some(s.as_str()),
        None => None,
    }
}

/// The profiles that the browser at `executable` offers.
pub fn profiles_for_browser(
    home: &str,
    executable: &str,
    name: &str,
    icon: &Option<String>,
    chromium: &Vec<ChromiumProfile>,
    inis: &Vec<Option<String>>,
) -> (r: Vec<BrowserProfile>)
    ensures
        profiles_view(r@) == linux_browser_profiles(
            home@,
            executable@,
            name@,
            opt_text(*icon),
            chromium_view(chromium@),
            inis@.map_values(|o: Option<String>| opt_text(o)),
        ),
{
    let bin = bin_name(executable);
    let ghost iv = opt_text(*icon);
    let mut linux_bin = chars_of("linux/");
    linux_bin = concat(&linux_bin, &chars_of(bin.as_str()));
    let default_id = text_string(&linux_bin);
    let mut out: Vec<BrowserProfile> = Vec::new();
    match chromium_config_dir(bin.as_str()) {
        Some(rel) => {
            let config_dir = join_path(home, rel);
            if chromium.len() == 0 {
                let no_args: Vec<String> = Vec::new();
                assert(strings(no_args@) =~= Seq::<Seq<char>>::empty());
                let bp = browser_profile(default_id.as_str(), name, executable, opt_str(icon), None, no_args);
                assert(bp@ == default_linux_profile(executable@, name@, iv));
                out.push(bp);
                assert(profiles_view(out@) =~= seq![default_linux_profile(executable@, name@, iv)]);
                return out;
            }
            let ghost cv = chromium_view(chromium@);
            let mut i: usize = 0;
            while i < chromium.len()
                invariant
                    i <= chromium.len(),
                    cv == chromium_view(chromium@),
                    iv == opt_text(*icon),
                    bin@ == file_name_spec(executable@),
                    linux_bin@ == "linux/"@ + bin@,
                    config_dir@ == join_path_spec(home@, rel@),
                    profiles_view(out@) == chromium_linux_profiles(
                        executable@,
                        name@,
                        iv,
                        config_dir@,
                        cv.take(i as int),
                    ),
                decreases chromium.len() - i,
            {
                let p = &chromium[i];
                let mut slash: Vec<char> = Vec::new();
                slash.push('/');
                let id = text_string(
                    &concat(&concat(&linux_bin, &slash), &chars_of(slug(p.directory.as_str()).as_str())),
                );
                let shown = text_string(
                    &concat(
                        &concat(&chars_of(name), &chars_of(" \u{b7} ")),
                        &chars_of(p.display_name.as_str()),
                    ),
                );
                let dir = join_path(config_dir.as_str(), p.directory.as_str());
                let arg = text_string(
                    &concat(&chars_of("--profile-directory="), &chars_of(p.directory.as_str())),
                );
                let mut args: Vec<String> = Vec::new();
                args.push(arg);
                let ghost before = profiles_view(out@);
                let bp = browser_profile(id.as_str(), shown.as_str(), executable, opt_str(icon), Some(dir), args);
                assert(strings(args@) =~= seq![arg@]);
                assert(bp@ == chromium_linux_profile(executable@, name@, iv, config_dir@, cv[i as int]));
                let ghost bv = bp@;
                out.push(bp);
                assert(profiles_view(out@) =~= before.push(bv));
                i += 1;
                assert(cv.take(i as int) =~= cv.take(i - 1).push(cv[i - 1]));
                assert(chromium_linux_profiles(executable@, name@, iv, config_dir@, cv.take(i as int))
                    =~= chromium_linux_profiles(executable@, name@, iv, config_dir@, cv.take(i - 1)).push(bv));
                assert(profiles_view(out@) =~= chromium_linux_profiles(
                    executable@,
                    name@,
                    iv,
                    config_dir@,
                    cv.take(i as int),
                ));
            }
            assert(cv.take(chromium.len() as int) =~= cv);
            out
        },
        None => {
            let homes = firefox_homes(home, bin.as_str());
            let ghost inv = inis@.map_values(|o: Option<String>| opt_text(o));
            let mut k: usize = 0;
            while k < inis.len() && k < homes.len() && inis[k].is_none()
                invariant
                    k <= inis.len(),
                    inv == inis@.map_values(|o: Option<String>| opt_text(o)),
                    forall|j: int| 0 <= j < k ==> inv[j] is None,
                decreases inis.len() - k,
            {
                k += 1;
            }
            if k < inis.len() && k < homes.len() {
                assert(first_readable(inv, k as int));
                let content = match &inis[k] {
                    Some(c) => c,
                    None => {
                        assert(false);
                        return out;
                    },
                };
                let detected = parse_profiles_ini(content.as_str(), homes[k].as_str());
                let ghost dv = firefox_view(detected@);
                proof {
                    let c = choose|c: int| first_readable(inv, c) && c < strings(homes@).len();
                    assert(c == k) by {
                        if c < k {
                            assert(inv[c] is None);
                        }
                        if k < c {
                            assert(inv[k as int] is None);
                        }
                    }
                }
                if detected.len() == 0 {
                    let no_args: Vec<String> = Vec::new();
                assert(strings(no_args@) =~= Seq::<Seq<char>>::empty());
                let bp = browser_profile(default_id.as_str(), name, executable, opt_str(icon), None, no_args);
                assert(bp@ == default_linux_profile(executable@, name@, iv));
                out.push(bp);
                    assert(profiles_view(out@) =~= seq![default_linux_profile(executable@, name@, iv)]);
                    return out;
                }
                let mut i: usize = 0;
                while i < detected.len()
                    invariant
                        i <= detected.len(),
                        dv == firefox_view(detected@),
                        iv == opt_text(*icon),
                        bin@ == file_name_spec(executable@),
                        linux_bin@ == "linux/"@ + bin@,
                        profiles_view(out@) == firefox_linux_profiles(executable@, name@, iv, dv.take(i as int)),
                    decreases detected.len() - i,
                {
                    let p = &detected[i];
                    let mut slash: Vec<char> = Vec::new();
                    slash.push('/');
                    let id = text_string(
                        &concat(&concat(&linux_bin, &slash), &chars_of(slug(p.name.as_str()).as_str())),
                    );
                    let shown = text_string(
                        &concat(&concat(&chars_of(name), &chars_of(" \u{b7} ")), &chars_of(p.name.as_str())),
                    );
                    let mut args: Vec<String> = Vec::new();
                    args.push("-P".to_owned());
                    args.push(p.name.clone());
                    let ghost before = profiles_view(out@);
                    let bp = browser_profile(id.as_str(), shown.as_str(), executable, opt_str(icon), Some(p.dir.clone()), args);
                    assert(strings(args@) =~= seq!["-P"@, p.name@]);
                    assert(bp@ == firefox_linux_profile(executable@, name@, iv, dv[i as int]));
                    let ghost bv = bp@;
                    out.push(bp);
                    assert(profiles_view(out@) =~= before.push(bv));
                    i += 1;
                    assert(dv.take(i as int) =~= dv.take(i - 1).push(dv[i - 1]));
                    assert(firefox_linux_profiles(executable@, name@, iv, dv.take(i as int))
                        =~= firefox_linux_profiles(executable@, name@, iv, dv.take(i - 1)).push(bv));
                    assert(profiles_view(out@) =~= firefox_linux_profiles(
                        executable@,
                        name@,
                        iv,
                        dv.take(i as int),
                    ));
                }
                assert(dv.take(detected.len() as int) =~= dv);
                out
            } else {
                proof {
                    if exists|c: int| first_readable(inv, c) && c < strings(homes@).len() {
                        let c = choose|c: int| first_readable(inv, c) && c < strings(homes@).len();
                        assert(c >= k);
                    }
                }
                let no_args: Vec<String> = Vec::new();
                assert(strings(no_args@) =~= Seq::<Seq<char>>::empty());
                let bp = browser_profile(default_id.as_str(), name, executable, opt_str(icon), None, no_args);
                assert(bp@ == default_linux_profile(executable@, name@, iv));
                out.push(bp);
                assert(profiles_view(out@) =~= seq![default_linux_profile(executable@, name@, iv)]);
                out
            }
        },
    }
}


/// A browser found on the system, with what could be read of its profiles:
/// the Chromium profiles of its data directory, and the contents of the
/// `profiles.ini` of each of its Firefox homes.
pub struct FoundBrowser {
    pub executable: String,
    pub name: String,
    pub icon: Option<String>,
    pub chromium: Vec<ChromiumProfile>,
    pub firefox_inis: Vec<Option<String>>,
}

pub struct FoundModel {
    pub executable: Seq<char>,
    pub name: Seq<char>,
    pub icon: Option<Seq<char>>,
    pub chromium: Seq<(Seq<char>, Seq<char>)>,
    pub firefox_inis: Seq<Option<Seq<char>>>,
}

impl View for FoundBrowser {
    type V = FoundModel;

    open spec fn view(&self) -> FoundModel {
        FoundModel {
            executable: self.executable@,
            name: self.name@,
            icon: opt_text(self.icon),
            chromium: chromium_view(self.chromium@),
            firefox_inis: self.firefox_inis@.map_values(|o: Option<String>| opt_text(o)),
        }
    }
}

pub open spec fn found_view(v: Seq<FoundBrowser>) -> Seq<FoundModel> {
    v.map_values(|b: FoundBrowser| b@)
}

/// The profiles of each browser, browser after browser.
pub open spec fn all_linux_profiles(home: Seq<char>, bs: Seq<FoundModel>) -> Seq<ProfileView>
    decreases bs.len(),
{
    if bs.len() == 0 {
        Seq::empty()
    } else {
        let b = bs.last();
        all_linux_profiles(home, bs.drop_last()) + linux_browser_profiles(
            home,
            b.executable,
            b.name,
            b.icon,
            b.chromium,
            b.firefox_inis,
        )
    }
}

/// The profile for the browser named by the `BROWSER` variable.
pub open spec fn env_profile(exe: Seq<char>) -> ProfileView {
    profile_spec("env/browser"@, "BROWSER"@, exe, None, None, Seq::empty())
}

/// The profiles offered on Linux: those of each found browser, then the
/// `BROWSER` program when it exists; one per id, ordered by id.
pub open spec fn linux_profiles_spec(home: Seq<char>, bs: Seq<FoundModel>, env: Option<Seq<char>>) -> Seq<
    ProfileView,
> {
    let all = all_linux_profiles(home, bs);
    finish_spec(
        match env {
            Some(e) => all.push(env_profile(e)),
            None => all,
        },
    )
}

pub fn append_profiles(out: &mut Vec<BrowserProfile>, more: Vec<BrowserProfile>)
    ensures
        profiles_view(final(out)@) == profiles_view(old(out)@) + profiles_view(more@),
{
    let ghost start = profiles_view(out@);
    let mut i: usize = 0;
    while i < more.len()
        invariant
            i <= more.len(),
            profiles_view(out@) == start + profiles_view(more@).take(i as int),
        decreases more.len() - i,
    {
        let ghost before = profiles_view(out@);
        let p = more[i].clone();
        out.push(p);
        i += 1;
        assert(profiles_view(more@).take(i as int) =~= profiles_view(more@).take(i - 1).push(
            more@[i - 1]@,
        ));
        assert(profiles_view(out@) =~= before.push(more@[i - 1]@));
    }
    assert(profiles_view(more@).take(more.len() as int) =~= profiles_view(more@));
}

/// The profiles offered on Linux, given the browsers found and the `BROWSER`
/// program when it names an existing file.
pub fn linux_profiles(home: &str, browsers: &Vec<FoundBrowser>, env_browser: Option<String>) -> (r: Vec<
    BrowserProfile,
>)
    ensures
        profiles_view(r@) == linux_profiles_spec(home@, found_view(browsers@), opt_text(env_browser)),
{
    let ghost bv = found_view(browsers@);
    let mut all: Vec<BrowserProfile> = Vec::new();
    let mut i: usize = 0;
    assert(bv.take(0) =~= Seq::<FoundModel>::empty());
    while i < browsers.len()
        invariant
            i <= browsers.len(),
            bv == found_view(browsers@),
            profiles_view(all@) == all_linux_profiles(home@, bv.take(i as int)),
        decreases browsers.len() - i,
    {
        let b = &browsers[i];
        let more = profiles_for_browser(home, b.executable.as_str(), b.name.as_str(), &b.icon, &b.chromium, &b.firefox_inis);
        assert(bv.take(i + 1).drop_last() =~= bv.take(i as int));
        assert(bv.take(i + 1).last() == b@);
        append_profiles(&mut all, more);
        i += 1;
    }
    assert(bv.take(browsers.len() as int) =~= bv);
    match env_browser {
        Some(exe) => {
            let no_args: Vec<String> = Vec::new();
            assert(strings(no_args@) =~= Seq::<Seq<char>>::empty());
            let p = browser_profile("env/browser", "BROWSER", exe.as_str(), None, None, no_args);
            proof {
                reveal_strlit("env/browser");
                reveal_strlit("BROWSER");
            }
            assert(p@ == env_profile(exe@));
            let ghost before = profiles_view(all@);
            all.push(p);
            assert(profiles_view(all@) =~= before.push(env_profile(exe@)));
        },
        None => {},
    }
    finish_profiles(all)
}

/// A candidate browser: its executable, name and icon.
pub open spec fn exe_seen_before(s: Seq<(Seq<char>, Seq<char>, Option<Seq<char>>)>, i: int) -> bool {
    exists|j: int| 0 <= j < i && (#[trigger] s[j]).0 == s[i].0
}

/// The candidates with one per executable, the first given for each.
pub open spec fn first_per_executable(s: Seq<(Seq<char>, Seq<char>, Option<Seq<char>>)>) -> Seq<
    (Seq<char>, Seq<char>, Option<Seq<char>>),
>
    decreases s.len(),
{
    if s.len() == 0 {
        Seq::empty()
    } else if exe_seen_before(s, s.len() - 1) {
        first_per_executable(s.drop_last())
    } else {
        first_per_executable(s.drop_last()).push(s.last())
    }
}

pub open spec fn candidates_view(v: Seq<(String, String, Option<String>)>) -> Seq<
    (Seq<char>, Seq<char>, Option<Seq<char>>),
> {
    v.map_values(|c: (String, String, Option<String>)| (c.0@, c.1@, opt_text(c.2)))
}

pub open spec fn has_exe(s: Seq<(Seq<char>, Seq<char>, Option<Seq<char>>)>, e: Seq<char>) -> bool {
    exists|q: int| 0 <= q < s.len() && (#[trigger] s[q]).0 == e
}

fn find_exe(out: &Vec<(String, String, Option<String>)>, exe: &Vec<char>) -> (r: bool)
    ensures
        r == has_exe(candidates_view(out@), exe@),
{
    let mut q: usize = 0;
    while q < out.len()
        invariant
            q <= out.len(),
            forall|r: int| 0 <= r < q ==> (#[trigger] candidates_view(out@)[r]).0 != exe@,
        decreases out.len() - q,
    {
        if same(&chars_of(out[q].0.as_str()), exe) {
            assert(candidates_view(out@)[q as int].0 == exe@);
            return true;
        }
        q += 1;
    }
    false
}

/// Keeps the first candidate of each executable, in order.
pub fn merge_candidates(candidates: &Vec<(String, String, Option<String>)>) -> (r: Vec<
    (String, String, Option<String>),
>)
    ensures
        candidates_view(r@) == first_per_executable(candidates_view(candidates@)),
{
    let ghost input = candidates_view(candidates@);
    let mut out: Vec<(String, String, Option<String>)> = Vec::new();
    let mut i: usize = 0;
    assert(input.take(0) =~= Seq::<(Seq<char>, Seq<char>, Option<Seq<char>>)>::empty());
    while i < candidates.len()
        invariant
            i <= candidates.len(),
            input == candidates_view(candidates@),
            candidates_view(out@) == first_per_executable(input.take(i as int)),
            forall|q: int|
                0 <= q < out.len() ==> has_exe(
                    input.take(i as int),
                    #[trigger] candidates_view(out@)[q].0,
                ),
            forall|j: int| 0 <= j < i ==> has_exe(candidates_view(out@), #[trigger] input[j].0),
        decreases candidates.len() - i,
    {
        let ghost t = input.take(i + 1);
        let ghost ov = candidates_view(out@);
        assert(t.drop_last() =~= input.take(i as int));
        assert(t.last() == input[i as int]);
        let exe = chars_of(candidates[i].0.as_str());
        let seen = find_exe(&out, &exe);
        proof {
            if seen {
                let q = choose|q: int| 0 <= q < ov.len() && ov[q].0 == exe@;
                assert(has_exe(input.take(i as int), ov[q].0));
                let j = choose|j: int| 0 <= j < i && input.take(i as int)[j].0 == ov[q].0;
                assert(t[j].0 == t[i as int].0);
                assert(exe_seen_before(t, i as int));
            } else {
                if exe_seen_before(t, i as int) {
                    let j = choose|j: int| 0 <= j < i && t[j].0 == t[i as int].0;
                    assert(has_exe(ov, input[j].0));
                }
            }
        }
        if !seen {
            let c = (candidates[i].0.clone(), candidates[i].1.clone(), clone_opt(&candidates[i].2));
            out.push(c);
            assert(candidates_view(out@) =~= ov.push(input[i as int]));
        }
        proof {
            let nv = candidates_view(out@);
            assert forall|q: int| 0 <= q < out.len() implies has_exe(t, #[trigger] nv[q].0) by {
                if q < ov.len() {
                    assert(nv[q] == ov[q]);
                    let j = choose|j: int| 0 <= j < i && input.take(i as int)[j].0 == ov[q].0;
                    assert(t[j] == input.take(i as int)[j]);
                } else {
                    assert(t[i as int].0 == nv[q].0);
                }
            }
            assert forall|j: int| 0 <= j < i + 1 implies has_exe(nv, #[trigger] input[j].0) by {
                if j < i {
                    let q = choose|q: int| 0 <= q < ov.len() && ov[q].0 == input[j].0;
                    assert(nv[q] == ov[q]);
                } else if !seen {
                    assert(nv[ov.len() as int] == input[i as int]);
                } else {
                    let q = choose|q: int| 0 <= q < ov.len() && ov[q].0 == exe@;
                    assert(nv[q] == ov[q]);
                }
            }
        }
        i += 1;
    }
    assert(input.take(candidates.len() as int) =~= input);
    out
}

} // verus!

verus! {

/// The directories searched for desktop entries; `~/` stands for the home
/// directory.
pub open spec fn applications_dirs_raw() -> Seq<Seq<char>> {
    seq![
        "/usr/share/applications"@,
        "/usr/local/share/applications"@,
        "/var/lib/snapd/desktop/applications"@,
        "/var/lib/flatpak/exports/share/applications"@,
        "~/.local/share/applications"@,
        "~/.local/share/flatpak/exports/share/applications"@,
    ]
}

/// `raw` with a leading `~/` resolved against `home`.
pub open spec fn expand_home(home: Seq<char>, raw: Seq<char>) -> Seq<char> {
    if crate::text::starts_with(raw, "~/"@) {
        join_path_spec(home, raw.skip(2))
    } else {
        raw
    }
}

/// The directories searched for desktop entries, for the home directory `home`.
pub fn applications_dirs(home: &str) -> (r: Vec<String>)
    ensures
        strings(r@) == applications_dirs_raw().map_values(|raw: Seq<char>| expand_home(home@, raw)),
{
    let raws: [&str; 6] = [
        "/usr/share/applications",
        "/usr/local/share/applications",
        "/var/lib/snapd/desktop/applications",
        "/var/lib/flatpak/exports/share/applications",
        "~/.local/share/applications",
        "~/.local/share/flatpak/exports/share/applications",
    ];
    let ghost want = applications_dirs_raw().map_values(|raw: Seq<char>| expand_home(home@, raw));
    assert(forall|k: int| 0 <= k < 6 ==> raws@[k]@ == #[trigger] applications_dirs_raw()[k]);
    let tilde = chars_of("~/");
    proof {
        reveal_strlit("~/");
    }
    let mut out: Vec<String> = Vec::new();
    let mut i: usize = 0;
    while i < 6
        invariant
            i <= 6,
            tilde@ == "~/"@,
            tilde@.len() == 2,
            want == applications_dirs_raw().map_values(|raw: Seq<char>| expand_home(home@, raw)),
            forall|k: int| 0 <= k < 6 ==> raws@[k]@ == #[trigger] applications_dirs_raw()[k],
            strings(out@) == want.take(i as int),
        decreases 6 - i,
    {
        let raw = chars_of(raws[i]);
        let d = if crate::text::starts_with_text(&raw, &tilde) {
            let rest = string_of(&slice(&raw, 2, raw.len()));
            assert(rest@ == raw@.skip(2));
            join_path(home, rest.as_str())
        } else {
            string_of(&raw)
        };
        assert(d@ == want[i as int]);
        let ghost before = strings(out@);
        out.push(d);
        assert(strings(out@) =~= before.push(want[i as int]));
        i += 1;
        assert(want.take(i as int) =~= want.take(i - 1).push(want[i - 1]));
    }
    assert(want.take(6) =~= want);
    out
}

/// The browsers looked for on the search path: each name with its program
/// names, tried in order.
pub open spec fn known_binaries_spec() -> Seq<(Seq<char>, Seq<Seq<char>>)> {
    seq![
        ("Chromium"@, seq!["chromium"@, "chromium-browser"@, "chromium-stable"@]),
        ("Google Chrome"@, seq!["google-chrome"@, "google-chrome-stable"@]),
        ("Brave"@, seq!["brave-browser"@, "brave"@]),
        ("Firefox"@, seq!["firefox"@]),
        ("Microsoft Edge"@, seq!["microsoft-edge"@, "microsoft-edge-stable"@]),
        ("Vivaldi"@, seq!["vivaldi"@, "vivaldi-stable"@]),
        ("Opera"@, seq!["opera"@]),
        ("Zen Browser"@, seq!["zen-browser"@]),
        ("Arc"@, seq!["arc"@]),
    ]
}

fn texts_of(items: &[&str]) -> (r: Vec<String>)
    ensures
        strings(r@) == items@.map_values(|s: &str| s@),
{
    let mut out: Vec<String> = Vec::new();
    let mut i: usize = 0;
    while i < items.len()
        invariant
            i <= items.len(),
            strings(out@) == items@.map_values(|s: &str| s@).take(i as int),
        decreases items.len() - i,
    {
        let ghost before = strings(out@);
        out.push(items[i].to_owned());
        assert(strings(out@) =~= before.push(items@[i as int]@));
        i += 1;
        assert(items@.map_values(|s: &str| s@).take(i as int) =~= items@.map_values(|s: &str| s@).take(
            i - 1,
        ).push(items@[i - 1]@));
    }
    assert(items@.map_values(|s: &str| s@).take(items.len() as int) =~= items@.map_values(
        |s: &str| s@,
    ));
    out
}

fn known_binary(i: usize) -> (r: (String, Vec<String>))
    requires
        i < 9,
    ensures
        (r.0@, strings(r.1@)) == known_binaries_spec()[i as int],
{
    let (name, bins): (&str, &[&str]) = if i == 0 {
        ("Chromium", &["chromium", "chromium-browser", "chromium-stable"])
    } else if i == 1 {
        ("Google Chrome", &["google-chrome", "google-chrome-stable"])
    } else if i == 2 {
        ("Brave", &["brave-browser", "brave"])
    } else if i == 3 {
        ("Firefox", &["firefox"])
    } else if i == 4 {
        ("Microsoft Edge", &["microsoft-edge", "microsoft-edge-stable"])
    } else if i == 5 {
        ("Vivaldi", &["vivaldi", "vivaldi-stable"])
    } else if i == 6 {
        ("Opera", &["opera"])
    } else if i == 7 {
        ("Zen Browser", &["zen-browser"])
    } else {
        ("Arc", &["arc"])
    };
    let v = texts_of(bins);
    proof {
        assert(bins@.map_values(|s: &str| s@) =~= known_binaries_spec()[i as int].1);
    }
    (name.to_owned(), v)
}

/// The browsers looked for on the search path: each name with its program
/// names, tried in order.
pub fn known_binaries() -> (r: Vec<(String, Vec<String>)>)
    ensures
        r@.len() == known_binaries_spec().len(),
        forall|k: int|
            0 <= k < r@.len() ==> ((#[trigger] r@[k]).0@, strings(r@[k].1@))
                == known_binaries_spec()[k],
{
    let mut out: Vec<(String, Vec<String>)> = Vec::new();
    let mut i: usize = 0;
    while i < 9
        invariant
            i <= 9,
            out@.len() == i,
            forall|k: int|
                0 <= k < i ==> ((#[trigger] out@[k]).0@, strings(out@[k].1@))
                    == known_binaries_spec()[k],
        decreases 9 - i,
    {
        out.push(known_binary(i));
        i += 1;
    }
    out
}

/// The first entry of the `BROWSER` variable, whose entries are separated by `:`.
pub open spec fn first_entry_spec(value: Seq<char>) -> Seq<char> {
    if crate::text::has_char(value, ':') {
        value.take(choose|i: int| crate::text::first_index(value, ':', i))
    } else {
        value
    }
}

/// The first entry of the `BROWSER` variable, whose entries are separated by `:`.
pub fn browser_env_entry(value: &str) -> (r: String)
    ensures
        r@ == first_entry_spec(value@),
{
    let v = chars_of(value);
    match crate::text::find_char(&v, ':') {
        Some(i) => {
            proof {
                let w = choose|w: int| crate::text::first_index(v@, ':', w);
                assert(crate::text::first_index(v@, ':', i as int));
                assert(w == i as int) by {
                    if w < i {
                        assert(v@[w] != ':');
                    }
                    if i < w {
                        assert(v@[i as int] != ':');
                    }
                }
            }
            string_of(&slice(&v, 0, i))
        },
        None => string_of(&v),
    }
}

/// Whether a desktop entry's command names a file by its path rather than a
/// program to look for on the search path.
pub fn names_a_path(command: &str) -> (b: bool)
    ensures
        b == crate::text::has_char(command@, '/'),
{
    crate::text::has_char_text(&chars_of(command), '/')
}

} // verus!

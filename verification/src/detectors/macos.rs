//! macOS: application bundles and the profiles that a detected browser offers.
use vstd::prelude::*;

use crate::detectors::assemble::{finish_profiles, finish_spec};
use crate::detectors::common::{
    chromium_view, firefox_profiles_spec, join_path, join_path_spec, parse_profiles_ini,
    ChromiumProfile,
};
use crate::detectors::expand::{
    chromium_entries, entry_spec, expand_chromium, expand_firefox, firefox_entries, make_entry,
};
use crate::detectors::linux::{append_profiles, bin_name, file_name_spec};
use crate::detectors::windows::pairs_of;
use crate::domain::{profiles_view, BrowserProfile, ProfileView};
use crate::link::opt_text;
use crate::text::{
    ascii_lowercase, ascii_lowercase_text, chars_of, concat, replace_char, replace_char_text,
    same, strings,
};

verus! {

/// Finds the browsers installed on a macOS system.
pub struct MacOsBrowserDetector;

impl MacOsBrowserDetector {
    pub fn new() -> (d: MacOsBrowserDetector) {
        MacOsBrowserDetector
    }
}

/// The browsers looked for: each display name with its application bundle.
pub open spec fn macos_bundles_spec() -> Seq<(Seq<char>, Seq<char>)> {
    seq![
        ("Safari"@, "Safari.app"@),
        ("Google Chrome"@, "Google Chrome.app"@),
        ("Brave"@, "Brave Browser.app"@),
        ("Firefox"@, "Firefox.app"@),
        ("Microsoft Edge"@, "Microsoft Edge.app"@),
        ("Vivaldi"@, "Vivaldi.app"@),
        ("Opera"@, "Opera.app"@),
        ("Arc"@, "Arc.app"@),
        ("Orion"@, "Orion.app"@),
        ("Zen Browser"@, "Zen Browser.app"@),
    ]
}

/// The browsers looked for: each display name with its application bundle.
pub fn macos_bundles() -> (r: Vec<(String, String)>)
    ensures
        pairs_of(r@) == macos_bundles_spec(),
{
    let names: [&str; 10] = [
        "Safari",
        "Google Chrome",
        "Brave",
        "Firefox",
        "Microsoft Edge",
        "Vivaldi",
        "Opera",
        "Arc",
        "Orion",
        "Zen Browser",
    ];
    let files: [&str; 10] = [
        "Safari.app",
        "Google Chrome.app",
        "Brave Browser.app",
        "Firefox.app",
        "Microsoft Edge.app",
        "Vivaldi.app",
        "Opera.app",
        "Arc.app",
        "Orion.app",
        "Zen Browser.app",
    ];
    let ghost want = macos_bundles_spec();
    assert(forall|k: int| 0 <= k < 10 ==> (names@[k]@, files@[k]@) == #[trigger] want[k]);
    let mut out: Vec<(String, String)> = Vec::new();
    let mut i: usize = 0;
    while i < 10
        invariant
            i <= 10,
            want == macos_bundles_spec(),
            forall|k: int| 0 <= k < 10 ==> (names@[k]@, files@[k]@) == #[trigger] want[k],
            pairs_of(out@) == want.take(i as int),
        decreases 10 - i,
    {
        let ghost before = pairs_of(out@);
        out.push((names[i].to_owned(), files[i].to_owned()));
        assert(pairs_of(out@) =~= before.push(want[i as int]));
        i += 1;
        assert(want.take(i as int) =~= want.take(i - 1).push(want[i - 1]));
    }
    assert(want.take(10) =~= want);
    out
}

/// The name of the program inside a browser's bundle.
pub open spec fn bundle_binary_spec(name: Seq<char>) -> Seq<char> {
    if name == "Safari.app"@ || name == "Safari"@ {
        "Safari"@
    } else if name == "Google Chrome.app"@ || name == "Google Chrome"@ {
        "Google Chrome"@
    } else if name == "Brave Browser.app"@ || name == "Brave"@ {
        "Brave Browser"@
    } else if name == "Firefox.app"@ || name == "Firefox"@ {
        "firefox"@
    } else if name == "Microsoft Edge.app"@ || name == "Microsoft Edge"@ {
        "Microsoft Edge"@
    } else if name == "Vivaldi.app"@ || name == "Vivaldi"@ {
        "Vivaldi"@
    } else if name == "Opera.app"@ || name == "Opera"@ {
        "Opera"@
    } else if name == "Arc.app"@ || name == "Arc"@ {
        "Arc"@
    } else if name == "Orion.app"@ || name == "Orion"@ {
        "Orion"@
    } else if name == "Zen Browser.app"@ || name == "Zen Browser"@ {
        "zen"@
    } else {
        name
    }
}

/// The programs inside the bundles of the known browsers: each bundle or
/// display name (Safari, Google Chrome, Brave, Firefox, Microsoft Edge,
/// Vivaldi, Opera, Arc, Orion, Zen Browser, with or without `.app`) gives its
/// program's name; any other name is its own program's name.
pub proof fn law_bundle_binaries(name: Seq<char>)
    ensures
        bundle_binary_spec("Safari.app"@) == "Safari"@,
        bundle_binary_spec("Safari"@) == "Safari"@,
        bundle_binary_spec("Google Chrome.app"@) == "Google Chrome"@,
        bundle_binary_spec("Google Chrome"@) == "Google Chrome"@,
        bundle_binary_spec("Brave Browser.app"@) == "Brave Browser"@,
        bundle_binary_spec("Brave"@) == "Brave Browser"@,
        bundle_binary_spec("Firefox.app"@) == "firefox"@,
        bundle_binary_spec("Firefox"@) == "firefox"@,
        bundle_binary_spec("Microsoft Edge.app"@) == "Microsoft Edge"@,
        bundle_binary_spec("Microsoft Edge"@) == "Microsoft Edge"@,
        bundle_binary_spec("Vivaldi.app"@) == "Vivaldi"@,
        bundle_binary_spec("Vivaldi"@) == "Vivaldi"@,
        bundle_binary_spec("Opera.app"@) == "Opera"@,
        bundle_binary_spec("Opera"@) == "Opera"@,
        bundle_binary_spec("Arc.app"@) == "Arc"@,
        bundle_binary_spec("Arc"@) == "Arc"@,
        bundle_binary_spec("Orion.app"@) == "Orion"@,
        bundle_binary_spec("Orion"@) == "Orion"@,
        bundle_binary_spec("Zen Browser.app"@) == "zen"@,
        bundle_binary_spec("Zen Browser"@) == "zen"@,
        !({
            ||| name == "Safari.app"@ || name == "Safari"@
            ||| name == "Google Chrome.app"@ || name == "Google Chrome"@
            ||| name == "Brave Browser.app"@ || name == "Brave"@
            ||| name == "Firefox.app"@ || name == "Firefox"@
            ||| name == "Microsoft Edge.app"@ || name == "Microsoft Edge"@
            ||| name == "Vivaldi.app"@ || name == "Vivaldi"@
            ||| name == "Opera.app"@ || name == "Opera"@
            ||| name == "Arc.app"@ || name == "Arc"@
            ||| name == "Orion.app"@ || name == "Orion"@
            ||| name == "Zen Browser.app"@ || name == "Zen Browser"@
        }) ==> bundle_binary_spec(name) == name,
{
    reveal_strlit("Safari.app");
    reveal_strlit("Safari");
    reveal_strlit("Google Chrome.app");
    reveal_strlit("Google Chrome");
    reveal_strlit("Brave Browser.app");
    reveal_strlit("Brave");
    reveal_strlit("Firefox.app");
    reveal_strlit("Firefox");
    reveal_strlit("Microsoft Edge.app");
    reveal_strlit("Microsoft Edge");
    reveal_strlit("Vivaldi.app");
    reveal_strlit("Vivaldi");
    reveal_strlit("Opera.app");
    reveal_strlit("Opera");
    reveal_strlit("Arc.app");
    reveal_strlit("Arc");
    reveal_strlit("Orion.app");
    reveal_strlit("Orion");
    reveal_strlit("Zen Browser.app");
    reveal_strlit("Zen Browser");
    assert("Safari.app"@.len() == 10);
    assert("Safari"@.len() == 6);
    assert("Google Chrome.app"@.len() == 17);
    assert("Google Chrome"@.len() == 13);
    assert("Brave Browser.app"@.len() == 17);
    assert("Brave"@.len() == 5);
    assert("Firefox.app"@.len() == 11);
    assert("Firefox"@.len() == 7);
    assert("Microsoft Edge.app"@.len() == 18);
    assert("Microsoft Edge"@.len() == 14);
    assert("Vivaldi.app"@.len() == 11);
    assert("Vivaldi"@.len() == 7);
    assert("Opera.app"@.len() == 9);
    assert("Opera"@.len() == 5);
    assert("Arc.app"@.len() == 7);
    assert("Arc"@.len() == 3);
    assert("Orion.app"@.len() == 9);
    assert("Orion"@.len() == 5);
    assert("Zen Browser.app"@.len() == 15);
    assert("Zen Browser"@.len() == 11);
    assert("Brave Browser.app"@[0] != "Google Chrome.app"@[0]);
    assert("Vivaldi.app"@[0] != "Firefox.app"@[0]);
    assert("Vivaldi"@[0] != "Firefox"@[0]);
    assert("Opera"@[0] != "Brave"@[0]);
    assert("Arc.app"@[0] != "Firefox"@[0]);
    assert("Arc.app"@[0] != "Vivaldi"@[0]);
    assert("Orion.app"@[1] != "Opera.app"@[1]);
    assert("Orion"@[0] != "Brave"@[0]);
    assert("Orion"@[1] != "Opera"@[1]);
    assert("Zen Browser"@[0] != "Firefox.app"@[0]);
    assert("Zen Browser"@[0] != "Vivaldi.app"@[0]);
}

fn either(n: &Vec<char>, a: &str, b: &str) -> (r: bool)
    ensures
        r == (n@ == a@ || n@ == b@),
{
    same(n, &chars_of(a)) || same(n, &chars_of(b))
}

/// The name of the program inside a browser's bundle, for a bundle or
/// display name.
pub fn bundle_binary<'a>(name: &'a str) -> (r: &'a str)
    ensures
        r@ == bundle_binary_spec(name@),
{
    let n = chars_of(name);
    if either(&n, "Safari.app", "Safari") {
        "Safari"
    } else if either(&n, "Google Chrome.app", "Google Chrome") {
        "Google Chrome"
    } else if either(&n, "Brave Browser.app", "Brave") {
        "Brave Browser"
    } else if either(&n, "Firefox.app", "Firefox") {
        "firefox"
    } else if either(&n, "Microsoft Edge.app", "Microsoft Edge") {
        "Microsoft Edge"
    } else if either(&n, "Vivaldi.app", "Vivaldi") {
        "Vivaldi"
    } else if either(&n, "Opera.app", "Opera") {
        "Opera"
    } else if either(&n, "Arc.app", "Arc") {
        "Arc"
    } else if either(&n, "Orion.app", "Orion") {
        "Orion"
    } else if either(&n, "Zen Browser.app", "Zen Browser") {
        "zen"
    } else {
        name
    }
}

/// The application directories searched, in order.
pub open spec fn macos_search_dirs_spec(home: Seq<char>) -> Seq<Seq<char>> {
    seq![
        "/Applications"@,
        "/System/Applications"@,
        "/Network/Applications"@,
        join_path_spec(home, "Applications"@),
    ]
}

/// The application directories searched, in order.
pub fn macos_search_dirs(home: &str) -> (r: Vec<String>)
    ensures
        strings(r@) == macos_search_dirs_spec(home@),
{
    let mut r: Vec<String> = Vec::new();
    r.push("/Applications".to_owned());
    r.push("/System/Applications".to_owned());
    r.push("/Network/Applications".to_owned());
    r.push(join_path(home, "Applications"));
    assert(strings(r@) =~= macos_search_dirs_spec(home@));
    r
}

/// Where the program of the bundle at `app_dir` lies.
pub open spec fn bundle_executable_spec(app_dir: Seq<char>, name: Seq<char>) -> Seq<char> {
    join_path_spec(
        join_path_spec(join_path_spec(app_dir, "Contents"@), "MacOS"@),
        bundle_binary_spec(name),
    )
}

/// The bundle `file` under the application directory `dir`, and the program
/// inside it of the browser called `name`.
pub fn bundle_paths(dir: &str, name: &str, file: &str) -> (r: (String, String))
    ensures
        r.0@ == join_path_spec(dir@, file@),
        r.1@ == bundle_executable_spec(r.0@, name@),
{
    let app_dir = join_path(dir, file);
    let contents = join_path(app_dir.as_str(), "Contents");
    let macos = join_path(contents.as_str(), "MacOS");
    let exe = join_path(macos.as_str(), bundle_binary(name));
    (app_dir, exe)
}

/// The first position that holds `true`.
pub fn first_present(present: &Vec<bool>) -> (r: Option<usize>)
    ensures
        match r {
            Some(i) => i < present.len() && present@[i as int] && forall|j: int|
                0 <= j < i ==> !present@[j],
            None => forall|j: int| 0 <= j < present.len() ==> !present@[j],
        },
{
    let mut i: usize = 0;
    while i < present.len()
        invariant
            i <= present.len(),
            forall|j: int| 0 <= j < i ==> !present@[j],
        decreases present.len() - i,
    {
        if present[i] {
            return Some(i);
        }
        i += 1;
    }
    None
}

/// Where a Chromium-family browser keeps its profiles, under the
/// application support directory.
pub open spec fn app_data_dir_spec(name: Seq<char>) -> Option<Seq<char>> {
    if name == "Google Chrome"@ {
        Some("Google/Chrome"@)
    } else if name == "Brave"@ {
        Some("BraveSoftware/Brave-Browser"@)
    } else if name == "Microsoft Edge"@ {
        Some("Microsoft Edge"@)
    } else if name == "Vivaldi"@ {
        Some("Vivaldi"@)
    } else if name == "Chromium"@ {
        Some("Chromium"@)
    } else if name == "Arc"@ {
        Some("Arc/User Data"@)
    } else {
        None
    }
}

/// The Chromium-family browsers and where each keeps its profiles under the
/// application support directory: Google Chrome, Brave, Microsoft Edge,
/// Vivaldi, Chromium and Arc; no other browser has such a place.
pub proof fn law_app_data_dirs(name: Seq<char>)
    ensures
        app_data_dir_spec("Google Chrome"@) == Some("Google/Chrome"@),
        app_data_dir_spec("Brave"@) == Some("BraveSoftware/Brave-Browser"@),
        app_data_dir_spec("Microsoft Edge"@) == Some("Microsoft Edge"@),
        app_data_dir_spec("Vivaldi"@) == Some("Vivaldi"@),
        app_data_dir_spec("Chromium"@) == Some("Chromium"@),
        app_data_dir_spec("Arc"@) == Some("Arc/User Data"@),
        app_data_dir_spec(name) is Some ==> {
            ||| name == "Google Chrome"@ || name == "Brave"@ || name == "Microsoft Edge"@
            ||| name == "Vivaldi"@ || name == "Chromium"@ || name == "Arc"@
        },
{
    reveal_strlit("Google Chrome");
    reveal_strlit("Brave");
    reveal_strlit("Microsoft Edge");
    reveal_strlit("Vivaldi");
    reveal_strlit("Chromium");
    reveal_strlit("Arc");
    assert("Google Chrome"@.len() == 13);
    assert("Brave"@.len() == 5);
    assert("Microsoft Edge"@.len() == 14);
    assert("Vivaldi"@.len() == 7);
    assert("Chromium"@.len() == 8);
    assert("Arc"@.len() == 3);
}

/// Where a Chromium-family browser keeps its profiles, under the
/// application support directory.
pub fn chromium_app_data_dir(name: &str) -> (r: Option<&'static str>)
    ensures
        match r {
            Some(d) => app_data_dir_spec(name@) == Some(d@),
            None => app_data_dir_spec(name@) is None,
        },
{
    let n = chars_of(name);
    if same(&n, &chars_of("Google Chrome")) {
        Some("Google/Chrome")
    } else if same(&n, &chars_of("Brave")) {
        Some("BraveSoftware/Brave-Browser")
    } else if same(&n, &chars_of("Microsoft Edge")) {
        Some("Microsoft Edge")
    } else if same(&n, &chars_of("Vivaldi")) {
        Some("Vivaldi")
    } else if same(&n, &chars_of("Chromium")) {
        Some("Chromium")
    } else if same(&n, &chars_of("Arc")) {
        Some("Arc/User Data")
    } else {
        None
    }
}

/// The application support directory of the user whose home is `home`.
pub open spec fn app_support_spec(home: Seq<char>) -> Seq<char> {
    join_path_spec(join_path_spec(home, "Library"@), "Application Support"@)
}

/// The application support directory of the user whose home is `home`.
pub fn application_support(home: &str) -> (r: String)
    ensures
        r@ == app_support_spec(home@),
{
    let lib = join_path(home, "Library");
    join_path(lib.as_str(), "Application Support")
}

/// What to read for the browser called `name`: the directory that holds
/// Firefox's `profiles.ini`, and the Chromium data directory.
pub open spec fn macos_sources_spec(home: Seq<char>, name: Seq<char>) -> (
    Option<Seq<char>>,
    Option<Seq<char>>,
) {
    let support = app_support_spec(home);
    match app_data_dir_spec(name) {
        Some(rel) => (None, Some(join_path_spec(support, rel))),
        None => if name == "Firefox"@ {
            (Some(join_path_spec(support, "Firefox"@)), None)
        } else {
            (None, None)
        },
    }
}

/// What to read for the browser called `name`: the directory that holds
/// Firefox's `profiles.ini`, and the Chromium data directory.
pub fn macos_sources(home: &str, name: &str) -> (r: (Option<String>, Option<String>))
    ensures
        (opt_text(r.0), opt_text(r.1)) == macos_sources_spec(home@, name@),
{
    let support = application_support(home);
    match chromium_app_data_dir(name) {
        Some(rel) => (None, Some(join_path(support.as_str(), rel))),
        None => {
            if same(&chars_of(name), &chars_of("Firefox")) {
                (Some(join_path(support.as_str(), "Firefox")), None)
            } else {
                (None, None)
            }
        },
    }
}

/// The id of the browser called `name`.
pub open spec fn macos_id_spec(name: Seq<char>) -> Seq<char> {
    "macos/"@ + replace_char(ascii_lowercase(name), ' ', '-')
}

/// The profiles that the browser called `name`, whose program is `exe`,
/// offers: one per Chromium profile of its data directory, one per Firefox
/// profile of its `profiles.ini`, or one for the whole browser.
pub open spec fn macos_browser_profiles(
    home: Seq<char>,
    name: Seq<char>,
    exe: Seq<char>,
    icon: Option<Seq<char>>,
    firefox_ini: Option<Seq<char>>,
    chromium: Seq<(Seq<char>, Seq<char>)>,
) -> Seq<ProfileView> {
    let base = macos_id_spec(name);
    let bname = file_name_spec(exe);
    let support = app_support_spec(home);
    let single = seq![entry_spec(base, name, bname, exe, icon, None, Seq::empty())];
    match app_data_dir_spec(name) {
        Some(rel) => if chromium.len() == 0 {
            single
        } else {
            chromium_entries(false, base, name, bname, exe, icon, join_path_spec(support, rel), chromium)
        },
        None => {
            let ff = match firefox_ini {
                Some(c) => firefox_profiles_spec(c, join_path_spec(support, "Firefox"@)),
                None => Seq::empty(),
            };
            if name == "Firefox"@ && ff.len() > 0 {
                firefox_entries(base, name, bname, exe, icon, ff)
            } else {
                single
            }
        },
    }
}

/// The profiles that the browser called `name`, whose program is
/// `executable`, offers, given the contents of Firefox's `profiles.ini` when
/// it could be read and the Chromium profiles of its data directory.
pub fn profiles_for_browser(
    home: &str,
    name: &str,
    executable: &str,
    icon: &Option<String>,
    firefox_ini: &Option<String>,
    chromium: &Vec<ChromiumProfile>,
) -> (r: Vec<BrowserProfile>)
    ensures
        profiles_view(r@) == macos_browser_profiles(
            home@,
            name@,
            executable@,
            opt_text(*icon),
            opt_text(*firefox_ini),
            chromium_view(chromium@),
        ),
{
    let prefix: Vec<char> = chars_of("macos/");
    let base = concat(&prefix, &replace_char_text(&ascii_lowercase_text(&chars_of(name)), ' ', '-'));
    let bname = bin_name(executable);
    let support = application_support(home);
    match chromium_app_data_dir(name) {
        Some(rel) => {
            if chromium.len() > 0 {
                let data_dir = join_path(support.as_str(), rel);
                return expand_chromium(false, &base, name, bname.as_str(), executable, icon, data_dir.as_str(), chromium);
            }
        },
        None => {
            if same(&chars_of(name), &chars_of("Firefox")) {
                match firefox_ini {
                    Some(c) => {
                        let ff_base = join_path(support.as_str(), "Firefox");
                        let detected = parse_profiles_ini(c.as_str(), ff_base.as_str());
                        if detected.len() > 0 {
                            return expand_firefox(&base, name, bname.as_str(), executable, icon, &detected);
                        }
                    },
                    None => {},
                }
            }
        },
    }
    let no_args: Vec<String> = Vec::new();
    assert(strings(no_args@) =~= Seq::<Seq<char>>::empty());
    let e = make_entry(base, chars_of(name), bname.as_str(), executable, icon, None, no_args);
    let mut out: Vec<BrowserProfile> = Vec::new();
    let ghost ev = e@;
    out.push(e);
    assert(profiles_view(out@) =~= seq![ev]);
    out
}

/// A browser found on macOS, with what could be read of its profiles.
pub struct MacFound {
    pub name: String,
    pub executable: String,
    pub icon: Option<String>,
    pub firefox_ini: Option<String>,
    pub chromium: Vec<ChromiumProfile>,
}

pub struct MacFoundModel {
    pub name: Seq<char>,
    pub executable: Seq<char>,
    pub icon: Option<Seq<char>>,
    pub firefox_ini: Option<Seq<char>>,
    pub chromium: Seq<(Seq<char>, Seq<char>)>,
}

pub open spec fn mac_found_view(v: Seq<MacFound>) -> Seq<MacFoundModel> {
    v.map_values(
        |b: MacFound|
            MacFoundModel {
                name: b.name@,
                executable: b.executable@,
                icon: opt_text(b.icon),
                firefox_ini: opt_text(b.firefox_ini),
                chromium: chromium_view(b.chromium@),
            },
    )
}

/// The profiles of each browser, browser after browser.
pub open spec fn all_macos_profiles(home: Seq<char>, bs: Seq<MacFoundModel>) -> Seq<ProfileView>
    decreases bs.len(),
{
    if bs.len() == 0 {
        Seq::empty()
    } else {
        let b = bs.last();
        all_macos_profiles(home, bs.drop_last()) + macos_browser_profiles(
            home,
            b.name,
            b.executable,
            b.icon,
            b.firefox_ini,
            b.chromium,
        )
    }
}

/// The profiles offered on macOS: those of each found browser, one per id,
/// ordered by id.
pub fn macos_profiles(home: &str, found: &Vec<MacFound>) -> (r: Vec<BrowserProfile>)
    ensures
        profiles_view(r@) == finish_spec(all_macos_profiles(home@, mac_found_view(found@))),
{
    let ghost bv = mac_found_view(found@);
    let mut all: Vec<BrowserProfile> = Vec::new();
    let mut i: usize = 0;
    assert(bv.take(0) =~= Seq::<MacFoundModel>::empty());
    while i < found.len()
        invariant
            i <= found.len(),
            bv == mac_found_view(found@),
            profiles_view(all@) == all_macos_profiles(home@, bv.take(i as int)),
        decreases found.len() - i,
    {
        let b = &found[i];
        let more = profiles_for_browser(home, b.name.as_str(), b.executable.as_str(), &b.icon, &b.firefox_ini, &b.chromium);
        assert(bv.take(i + 1).drop_last() =~= bv.take(i as int));
        assert(bv.take(i + 1).last() == bv[i as int]);
        append_profiles(&mut all, more);
        i += 1;
    }
    assert(bv.take(found.len() as int) =~= bv);
    finish_profiles(all)
}

} // verus!

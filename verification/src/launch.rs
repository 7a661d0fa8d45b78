//! How a link is opened in a browser profile.
use vstd::prelude::*;

use crate::config::Platform;
use crate::domain::{clone_strings, BrowserProfile};
use crate::link::Link;
use crate::text::strings;

verus! {

/// Opens links by starting the profile's browser program.
pub struct ProcessLauncher;

impl ProcessLauncher {
    pub fn new() -> (l: ProcessLauncher) {
        ProcessLauncher
    }

    /// The program to start and its arguments: the profile's own arguments,
    /// then the link.
    pub fn command_for(&self, profile: &BrowserProfile, url: &Link) -> (r: (String, Vec<String>))
        ensures
            r.0@ == profile.executable@,
            strings(r.1@) == strings(profile.args@).push(url@),
    {
        let mut args = clone_strings(&profile.args);
        args.push(url.as_str().to_owned());
        assert(strings(args@) =~= strings(profile.args@).push(url@));
        (profile.executable.clone(), args)
    }
}

/// The program that opens a link with the system's default handler, and its
/// arguments: `open` on macOS, `cmd /C start` on Windows, `xdg-open` on
/// Linux; none elsewhere.
pub open spec fn default_opener_spec(platform: Platform, url: Seq<char>) -> Option<(Seq<char>, Seq<Seq<char>>)> {
    match platform {
        Platform::MacOs => Some(("open"@, seq![url])),
        Platform::Windows => Some(("cmd"@, seq!["/C"@, "start"@, ""@, url])),
        Platform::Linux => Some(("xdg-open"@, seq![url])),
        Platform::Other => None,
    }
}

/// On macOS, Windows and Linux there is a default opener, and the link is
/// handed to it unchanged as its last argument; elsewhere there is none.
pub proof fn law_default_opener_passes_link_last(platform: Platform, url: Seq<char>)
    ensures
        platform != Platform::Other <==> default_opener_spec(platform, url) is Some,
        default_opener_spec(platform, url) matches Some((_, args)) ==> args.len() > 0
            && args.last() == url,
        default_opener_spec(Platform::Linux, url) == Some(("xdg-open"@, seq![url])),
        default_opener_spec(Platform::MacOs, url) == Some(("open"@, seq![url])),
        default_opener_spec(Platform::Windows, url) == Some(
            ("cmd"@, seq!["/C"@, "start"@, ""@, url]),
        ),
{
}

/// The program that opens a link with the system's default handler, and its
/// arguments.
pub fn default_opener(platform: Platform, url: &Link) -> (r: Option<(String, Vec<String>)>)
    ensures
        match r {
            Some((program, args)) => default_opener_spec(platform, url@) == Some(
                (program@, strings(args@)),
            ),
            None => default_opener_spec(platform, url@) is None,
        },
{
    let target = url.as_str().to_owned();
    let mut args: Vec<String> = Vec::new();
    match platform {
        Platform::MacOs => {
            args.push(target);
            assert(strings(args@) =~= seq![url@]);
            Some(("open".to_owned(), args))
        },
        Platform::Windows => {
            args.push("/C".to_owned());
            args.push("start".to_owned());
            args.push("".to_owned());
            args.push(target);
            assert(strings(args@) =~= seq!["/C"@, "start"@, ""@, url@]);
            Some(("cmd".to_owned(), args))
        },
        Platform::Linux => {
            args.push(target);
            assert(strings(args@) =~= seq![url@]);
            Some(("xdg-open".to_owned(), args))
        },
        Platform::Other => None,
    }
}

} // verus!

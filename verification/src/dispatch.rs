//! Links handed to the application by the system: which argument is the
//! link, whether a link was just handled, and what to do with a decision.
use vstd::prelude::*;

use crate::domain::{BrowserProfile, RouteDecision};
use crate::link::{url_parse_outcome, url_scheme_of, Link};
use crate::sanitizer::{is_short, is_short_url};
use crate::text::{chars_of, concat, same, string_of, trim, trim_text};

verus! {

/// Whether `candidate` parses as a link whose scheme is `http` or `https`.
pub open spec fn is_web_link(candidate: Seq<char>) -> bool {
    match url_parse_outcome(candidate) {
        Ok(s) => url_scheme_of(s) == "http"@ || url_scheme_of(s) == "https"@,
        Err(_) => false,
    }
}

/// Argument `i` is the first whose trimmed text is a web link.
pub open spec fn first_link_arg(args: Seq<String>, i: int) -> bool {
    &&& 0 <= i < args.len()
    &&& is_web_link(trim(args[i]@))
    &&& forall|j: int| 0 <= j < i ==> !is_web_link(trim((#[trigger] args[j])@))
}

fn is_web_scheme(u: &Link) -> (b: bool)
    ensures
        b == (url_scheme_of(u@) == "http"@ || url_scheme_of(u@) == "https"@),
{
    let s = chars_of(u.scheme().as_str());
    same(&s, &chars_of("http")) || same(&s, &chars_of("https"))
}

/// The first argument that, trimmed, is an `http` or `https` link; trimmed.
pub fn extract_url_arg(args: &[String]) -> (r: Option<String>)
    ensures
        match r {
            Some(s) => exists|i: int| first_link_arg(args@, i) && s@ == trim(args@[i]@),
            None => forall|i: int| 0 <= i < args@.len() ==> !is_web_link(trim((#[trigger] args@[i])@)),
        },
{
    let mut i: usize = 0;
    while i < args.len()
        invariant
            i <= args.len(),
            forall|j: int| 0 <= j < i ==> !is_web_link(trim((#[trigger] args@[j])@)),
        decreases args.len() - i,
    {
        let candidate = string_of(&trim_text(&chars_of(args[i].as_str())));
        match Link::parse(candidate.as_str()) {
            Ok(u) => {
                if is_web_scheme(&u) {
                    assert(first_link_arg(args@, i as int));
                    return Some(candidate);
                }
            },
            Err(_) => {},
        }
        i += 1;
    }
    None
}

/// How long a link is remembered, in milliseconds: the same link arriving
/// again sooner is dropped.
pub open spec fn repeat_window() -> int {
    500
}

/// Whether the link `url`, arriving at `now`, is handled, given the last
/// link handled and when: not when it is that link within the window.
pub open spec fn handles(last: Option<(Seq<char>, int)>, url: Seq<char>, now: int) -> bool {
    match last {
        Some((previous, at)) => !(previous == url && (if now >= at {
            now - at
        } else {
            0
        }) < repeat_window()),
        None => true,
    }
}

/// What is remembered after the link `url` arrives at `now`.
pub open spec fn after_link(last: Option<(Seq<char>, int)>, url: Seq<char>, now: int) -> Option<
    (Seq<char>, int),
> {
    if handles(last, url, now) {
        Some((url, now))
    } else {
        last
    }
}

/// Remembers the last link handled, so that a link delivered twice in quick
/// succession is opened once.
pub struct RecentLink {
    last: Option<(String, u64)>,
}

impl View for RecentLink {
    type V = Option<(Seq<char>, int)>;

    closed spec fn view(&self) -> Option<(Seq<char>, int)> {
        match self.last {
            Some((u, at)) => Some((u@, at as int)),
            None => None,
        }
    }
}

impl RecentLink {
    pub fn new() -> (r: RecentLink)
        ensures
            r@ is None,
    {
        RecentLink { last: None }
    }

    /// Whether to handle the link `url`, arriving at `now_ms` milliseconds;
    /// a handled link is remembered.
    pub fn should_handle(&mut self, url: &str, now_ms: u64) -> (b: bool)
        ensures
            b == handles(old(self)@, url@, now_ms as int),
            final(self)@ == after_link(old(self)@, url@, now_ms as int),
    {
        let repeat = match &self.last {
            Some((previous, at)) => {
                let elapsed: u64 = if now_ms >= *at {
                    now_ms - *at
                } else {
                    0
                };
                same(&chars_of(previous.as_str()), &chars_of(url)) && elapsed < 500
            },
            None => false,
        };
        if repeat {
            return false;
        }
        self.last = Some((url.to_owned(), now_ms));
        true
    }
}

/// A link delivered twice within the window is handled once: after the
/// first is handled at `t1`, the second, at `t2` no later than the window
/// after it, is dropped.
pub proof fn law_repeat_dropped(last: Option<(Seq<char>, int)>, url: Seq<char>, t1: int, t2: int)
    requires
        handles(last, url, t1),
        t1 <= t2 < t1 + repeat_window(),
    ensures
        !handles(after_link(last, url, t1), url, t2),
{
}

/// The window is half a second: the link last handled at `t1` is dropped
/// when it comes again less than 500 ms later (or with an earlier time), and
/// handled again from 500 ms on.
pub proof fn law_repeat_window_half_second(url: Seq<char>, t1: int, t2: int)
    ensures
        t2 < t1 + 500 ==> !handles(Some((url, t1)), url, t2),
        t2 >= t1 + 500 ==> handles(Some((url, t1)), url, t2),
{
}

/// A link other than the last one handled is always handled.
pub proof fn law_other_link_handled(last: Option<(Seq<char>, int)>, url: Seq<char>, now: int)
    requires
        last matches Some((previous, _)) ==> previous != url,
    ensures
        handles(last, url, now),
{
}

/// What the text delivered to the application turns into: a parsed web link,
/// nothing for a link of another scheme, or the message of a parse failure.
pub open spec fn incoming_spec(raw: Seq<char>) -> Result<Option<Seq<char>>, Seq<char>> {
    match url_parse_outcome(trim(raw)) {
        Ok(s) => if url_scheme_of(s) == "http"@ || url_scheme_of(s) == "https"@ {
            Ok(Some(s))
        } else {
            Ok(None)
        },
        Err(m) => Err("url inv\u{e1}lida en dispatcher: "@ + m),
    }
}

/// Parses the trimmed text delivered to the application: the link when it is
/// an `http` or `https` one, nothing for another scheme, an error message
/// when it does not parse.
pub fn parse_incoming(raw: &str) -> (r: Result<Option<Link>, String>)
    ensures
        match r {
            Ok(Some(u)) => incoming_spec(raw@) == Ok::<Option<Seq<char>>, Seq<char>>(Some(u@)),
            Ok(None) => incoming_spec(raw@) == Ok::<Option<Seq<char>>, Seq<char>>(None),
            Err(m) => incoming_spec(raw@) == Err::<Option<Seq<char>>, Seq<char>>(m@),
        },
{
    let t = string_of(&trim_text(&chars_of(raw)));
    match Link::parse(t.as_str()) {
        Ok(u) => {
            if is_web_scheme(&u) {
                Ok(Some(u))
            } else {
                Ok(None)
            }
        },
        Err(m) => Err(string_of(&concat(&chars_of("url inv\u{e1}lida en dispatcher: "), &chars_of(m.as_str())))),
    }
}

/// What to do with a routing decision.
#[derive(Debug)]
pub enum DispatchAction {
    /// Open `url` with the profile at `profile_index` in the detected profiles.
    Launch { profile_index: usize, url: Link },
    /// Show the prompt for `url`.
    Prompt { url: Link },
}

/// The action for a decision: launch the chosen profile when it was
/// detected, show the prompt otherwise.
#[verifier::loop_isolation(false)]
pub fn dispatch_action(decision: RouteDecision, profiles: &[BrowserProfile]) -> (a: DispatchAction)
    ensures
        match decision {
            RouteDecision::Launch { url, profile_id } => match a {
                DispatchAction::Launch { profile_index, url: out } => {
                    &&& out@ == url@
                    &&& profile_index < profiles@.len()
                    &&& profiles@[profile_index as int].id@ == profile_id@
                    &&& forall|j: int|
                        0 <= j < profile_index ==> (#[trigger] profiles@[j]).id@ != profile_id@
                },
                DispatchAction::Prompt { url: out } => out@ == url@ && forall|j: int|
                    0 <= j < profiles@.len() ==> (#[trigger] profiles@[j]).id@ != profile_id@,
            },
            RouteDecision::Prompt { url, .. } => a matches DispatchAction::Prompt { url: out }
                && out@ == url@,
            RouteDecision::NoBrowser { url } => a matches DispatchAction::Prompt { url: out }
                && out@ == url@,
        },
{
    match decision {
        RouteDecision::Launch { url, profile_id } => {
            let want = chars_of(profile_id.as_str());
            let mut k: usize = 0;
            while k < profiles.len()
                invariant
                    k <= profiles.len(),
                    want@ == profile_id@,
                    forall|j: int| 0 <= j < k ==> (#[trigger] profiles@[j]).id@ != profile_id@,
                decreases profiles.len() - k,
            {
                if same(&chars_of(profiles[k].id.as_str()), &want) {
                    return DispatchAction::Launch { profile_index: k, url };
                }
                k += 1;
            }
            DispatchAction::Prompt { url }
        },
        RouteDecision::Prompt { url, .. } => DispatchAction::Prompt { url },
        RouteDecision::NoBrowser { url } => DispatchAction::Prompt { url },
    }
}

/// What to do with a web link received before it is routed: a link to a
/// known shortener is first followed to its final destination.
#[derive(Debug)]
pub enum IncomingStep {
    /// Follow the redirects of `url`, then route where they end.
    Resolve { url: Link },
    /// Route `url` as it is.
    Route { url: Link },
}

/// The step for a received web link: resolve a short link, route any other.
pub fn incoming_step(url: Link) -> (s: IncomingStep)
    ensures
        is_short(url@) ==> (s matches IncomingStep::Resolve { url: u } && u@ == url@),
        !is_short(url@) ==> (s matches IncomingStep::Route { url: u } && u@ == url@),
{
    if is_short_url(&url) {
        IncomingStep::Resolve { url }
    } else {
        IncomingStep::Route { url }
    }
}

/// The link to route once a short link was followed: where its redirects
/// ended when that is an `http` or `https` link, the link as received
/// otherwise.
pub fn link_after_redirects(received: Link, destination: Option<Link>) -> (r: Link)
    ensures
        r@ == match destination {
            Some(f) => if url_scheme_of(f@) == "http"@ || url_scheme_of(f@) == "https"@ {
                f@
            } else {
                received@
            },
            None => received@,
        },
{
    match destination {
        Some(f) => {
            if is_web_scheme(&f) {
                f
            } else {
                received
            }
        },
        None => received,
    }
}

} // verus!

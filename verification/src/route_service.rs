//! Routing decisions for incoming links.
use vstd::prelude::*;

use crate::domain::{profiles_view, BrowserProfile, RouteDecision, Rule, UrlRouteRequest};
use crate::error::RouteError;
use crate::link::opt_text;
use crate::rules::{compile_spec, first_refused, rule_matches, selected, MatcherModel, RulesEngine};
use crate::sanitizer::{sanitize_url, sanitized};

verus! {

/// The decision for `url` from `source`, given the rules and the detected profiles.
pub open spec fn decision_spec(
    rules: Seq<Rule>,
    url: Seq<char>,
    source: Option<Seq<char>>,
    profiles: Seq<BrowserProfile>,
    d: RouteDecision,
) -> bool {
    match d {
        RouteDecision::Launch { url: out, profile_id } => {
            &&& out@ == sanitized(url)
            &&& exists|i: int|
                selected(rules, url, source, i) && profile_id@ == rules[i].target_profile_id@
        },
        RouteDecision::Prompt { url: out, candidates } => {
            &&& out@ == sanitized(url)
            &&& forall|i: int| 0 <= i < rules.len() ==> !rule_matches(#[trigger] rules[i], url, source)
            &&& profiles.len() > 0
            &&& profiles_view(candidates@) == profiles_view(profiles)
        },
        RouteDecision::NoBrowser { url: out } => {
            &&& out@ == sanitized(url)
            &&& forall|i: int| 0 <= i < rules.len() ==> !rule_matches(#[trigger] rules[i], url, source)
            &&& profiles.len() == 0
        },
    }
}

pub struct RouteEvaluator {
    engine: RulesEngine,
}

impl View for RouteEvaluator {
    type V = Seq<Rule>;

    closed spec fn view(&self) -> Seq<Rule> {
        self.engine@
    }
}

/// A copy of the profiles.
fn copy_profiles(profiles: &[BrowserProfile]) -> (v: Vec<BrowserProfile>)
    ensures
        profiles_view(v@) == profiles_view(profiles@),
{
    let mut v: Vec<BrowserProfile> = Vec::new();
    let mut i: usize = 0;
    while i < profiles.len()
        invariant
            i <= profiles.len(),
            profiles_view(v@) == profiles_view(profiles@.take(i as int)),
        decreases profiles.len() - i,
    {
        let ghost before = profiles_view(v@);
        let p = profiles[i].clone();
        v.push(p);
        i += 1;
        assert(profiles_view(v@) =~= before.push(profiles@[i - 1]@));
        assert(profiles_view(profiles@.take(i as int)) =~= profiles_view(profiles@.take(i - 1)).push(
            profiles@[i - 1]@,
        ));
    }
    assert(profiles@.take(profiles.len() as int) =~= profiles@);
    v
}

impl RouteEvaluator {
    /// Compiles the rules; fails as [`RulesEngine::new`] does.
    pub fn new(rules: Vec<Rule>) -> (r: Result<Self, RouteError>)
        ensures
            match r {
                Ok(e) => e@ == rules@ && forall|i: int|
                    0 <= i < rules@.len() && (#[trigger] rules@[i]).enabled ==> compile_spec(
                        rules@[i].pattern,
                    ) is Ok,
                Err(e) => exists|i: int|
                    first_refused(rules@, i) && (e matches RouteError::RuleEngine(m)
                        && compile_spec(rules@[i].pattern) == Err::<MatcherModel, Seq<char>>(
                        m@,
                    )),
            },
    {
        match RulesEngine::new(rules) {
            Ok(engine) => Ok(RouteEvaluator { engine }),
            Err(e) => Err(e),
        }
    }

    /// The rule chosen for the request, as [`RulesEngine::find_match`] gives it.
    pub fn match_rule(&self, request: &UrlRouteRequest) -> (r: Option<&Rule>)
        ensures
            match r {
                Some(rule) => exists|i: int|
                    selected(self@, request.url@, opt_text(request.source_app), i) && *rule
                        == self@[i],
                None => forall|i: int|
                    0 <= i < self@.len() ==> !rule_matches(
                        #[trigger] self@[i],
                        request.url@,
                        opt_text(request.source_app),
                    ),
            },
    {
        let r = self.engine.find_match(request);
        assert(self@ == self.engine@);
        r
    }

    /// Launch the chosen rule's profile when a rule matches; otherwise prompt
    /// among the detected profiles, or report that there is none. The link is
    /// cleaned of tracking parameters first. Never fails.
    pub fn evaluate(&self, request: UrlRouteRequest, profiles: &[BrowserProfile]) -> (r: Result<
        RouteDecision,
        RouteError,
    >)
        ensures
            match r {
                Ok(d) => decision_spec(
                    self@,
                    request.url@,
                    opt_text(request.source_app),
                    profiles@,
                    d,
                ),
                Err(_) => false,
            },
    {
        let cleaned = sanitize_url(&request.url);
        match self.engine.find_match(&request) {
            Some(rule) => {
                return Ok(
                    RouteDecision::Launch { url: cleaned, profile_id: rule.target_profile_id.clone() },
                );
            },
            None => {},
        }
        if profiles.len() == 0 {
            return Ok(RouteDecision::NoBrowser { url: cleaned });
        }
        Ok(RouteDecision::Prompt { url: cleaned, candidates: copy_profiles(profiles) })
    }
}

} // verus!

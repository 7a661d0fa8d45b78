//! The values that rules, requests and routing decisions are made of.
use vstd::prelude::*;

use crate::link::{opt_text, Link};
use crate::text::strings;

verus! {

/// A browser, or one profile of a browser, that a link can be opened in.
#[derive(Debug, PartialEq)]
pub struct BrowserProfile {
    pub id: String,
    pub name: String,
    pub browser_name: String,
    pub executable: String,
    pub profile_dir: Option<String>,
    pub icon: Option<String>,
    pub args: Vec<String>,
}

/// The contents of a [`BrowserProfile`].
pub struct ProfileView {
    pub id: Seq<char>,
    pub name: Seq<char>,
    pub browser_name: Seq<char>,
    pub executable: Seq<char>,
    pub profile_dir: Option<Seq<char>>,
    pub icon: Option<Seq<char>>,
    pub args: Seq<Seq<char>>,
}

impl View for BrowserProfile {
    type V = ProfileView;

    open spec fn view(&self) -> ProfileView {
        ProfileView {
            id: self.id@,
            name: self.name@,
            browser_name: self.browser_name@,
            executable: self.executable@,
            profile_dir: opt_text(self.profile_dir),
            icon: opt_text(self.icon),
            args: strings(self.args@),
        }
    }
}

pub open spec fn profiles_view(v: Seq<BrowserProfile>) -> Seq<ProfileView> {
    v.map_values(|p: BrowserProfile| p@)
}

impl Clone for BrowserProfile {
    fn clone(&self) -> (r: Self)
        ensures
            r@ == self@,
    {
        BrowserProfile {
            id: self.id.clone(),
            name: self.name.clone(),
            browser_name: self.browser_name.clone(),
            executable: self.executable.clone(),
            profile_dir: clone_opt(&self.profile_dir),
            icon: clone_opt(&self.icon),
            args: clone_strings(&self.args),
        }
    }
}

/// A copy of an optional text.
pub fn clone_opt(o: &Option<String>) -> (r: Option<String>)
    ensures
        r == *o,
{
    match o {
        Some(s) => Some(s.clone()),
        None => None,
    }
}

/// A copy of a list of texts.
pub fn clone_strings(v: &Vec<String>) -> (r: Vec<String>)
    ensures
        r@ == v@,
{
    let mut r: Vec<String> = Vec::new();
    let mut i: usize = 0;
    while i < v.len()
        invariant
            i <= v.len(),
            r@ == v@.take(i as int),
        decreases v.len() - i,
    {
        r.push(v[i].clone());
        i += 1;
        assert(r@ =~= v@.take(i as int));
    }
    assert(v@.take(v.len() as int) =~= v@);
    r
}

/// A link to route, with the application it came from when that is known.
#[derive(Debug)]
pub struct UrlRouteRequest {
    pub url: Link,
    pub source_app: Option<String>,
}

/// What to do with a link.
#[derive(Debug)]
pub enum RouteDecision {
    Launch { url: Link, profile_id: String },
    Prompt { url: Link, candidates: Vec<BrowserProfile> },
    NoBrowser { url: Link },
}

/// What a rule looks for in a link.
#[derive(Debug, PartialEq)]
pub enum RulePattern {
    Exact { pattern: String },
    Domain { pattern: String },
    Regex { pattern: String },
    Path { pattern: String },
    SourceApp { app_name: String },
}

impl Clone for RulePattern {
    fn clone(&self) -> (r: Self)
        ensures
            r == *self,
    {
        match self {
            RulePattern::Exact { pattern } => RulePattern::Exact { pattern: pattern.clone() },
            RulePattern::Domain { pattern } => RulePattern::Domain { pattern: pattern.clone() },
            RulePattern::Regex { pattern } => RulePattern::Regex { pattern: pattern.clone() },
            RulePattern::Path { pattern } => RulePattern::Path { pattern: pattern.clone() },
            RulePattern::SourceApp { app_name } => RulePattern::SourceApp {
                app_name: app_name.clone(),
            },
        }
    }
}

pub open spec fn kind_label_of(p: RulePattern) -> Seq<char> {
    match p {
        RulePattern::Exact { .. } => "exact"@,
        RulePattern::Domain { .. } => "domain"@,
        RulePattern::Regex { .. } => "regex"@,
        RulePattern::Path { .. } => "path"@,
        RulePattern::SourceApp { .. } => "sourceApp"@,
    }
}

/// The text a pattern was written with.
pub open spec fn pattern_text_of(p: RulePattern) -> Seq<char> {
    match p {
        RulePattern::Exact { pattern } => pattern@,
        RulePattern::Domain { pattern } => pattern@,
        RulePattern::Regex { pattern } => pattern@,
        RulePattern::Path { pattern } => pattern@,
        RulePattern::SourceApp { app_name } => app_name@,
    }
}

impl RulePattern {
    /// The name of the pattern's kind.
    pub fn kind_label(&self) -> (s: &'static str)
        ensures
            s@ == kind_label_of(*self),
    {
        match self {
            RulePattern::Exact { .. } => "exact",
            RulePattern::Domain { .. } => "domain",
            RulePattern::Regex { .. } => "regex",
            RulePattern::Path { .. } => "path",
            RulePattern::SourceApp { .. } => "sourceApp",
        }
    }

    /// The text the pattern was written with.
    pub fn pattern_text(&self) -> (s: &str)
        ensures
            s@ == pattern_text_of(*self),
    {
        match self {
            RulePattern::Exact { pattern } => pattern.as_str(),
            RulePattern::Domain { pattern } => pattern.as_str(),
            RulePattern::Regex { pattern } => pattern.as_str(),
            RulePattern::Path { pattern } => pattern.as_str(),
            RulePattern::SourceApp { app_name } => app_name.as_str(),
        }
    }
}

/// Whether a rule read without an `enabled` field is enabled.
pub fn rule_enabled_default() -> (b: bool)
    ensures
        b,
{
    true
}

/// Sends links that match `pattern` to the profile `target_profile_id`.
/// A lower `priority` is tried first.
#[derive(Debug, PartialEq)]
pub struct Rule {
    pub id: String,
    pub priority: u32,
    pub enabled: bool,
    pub pattern: RulePattern,
    pub target_profile_id: String,
}

impl Clone for Rule {
    fn clone(&self) -> (r: Self)
        ensures
            r == *self,
    {
        Rule {
            id: self.id.clone(),
            priority: self.priority,
            enabled: self.enabled,
            pattern: self.pattern.clone(),
            target_profile_id: self.target_profile_id.clone(),
        }
    }
}

/// The rule that a link matched.
#[derive(Debug)]
pub struct RuleMatch {
    pub rule_id: String,
    pub target_profile_id: String,
    pub pattern_kind: &'static str,
}

/// A link, the link cleaned of tracking parameters, and the rule it matched.
#[derive(Debug)]
pub struct RuleEvaluation {
    pub url: String,
    pub cleaned_url: String,
    pub matched: Option<RuleMatch>,
}

} // verus!

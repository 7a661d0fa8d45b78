//! Rules: what each kind of pattern matches, and the engine that picks the
//! rule for a link.
use vstd::prelude::*;

use crate::domain::{Rule, RulePattern, UrlRouteRequest};
use crate::error::RouteError;
use crate::link::{opt_text, url_host_of, url_path_of, Link};
use crate::text::{
    chars_of, concat, contains, contains_text, ends_with, ends_with_text, eq_ascii_ci,
    eq_ignore_ascii_case, has_char, has_char_text, lemma_strip_start_prefix, lowercase_text, same,
    slice, starts_with, starts_with_text, string_of, strip_start_char, trim, trim_end,
    trim_end_text, trim_text, unicode_lowercase,
};

verus! {

#[verifier::external_type_specification]
#[verifier::external_body]
pub struct ExRegex(regex::Regex);

/// What `regex::Regex::new` gives for `pattern`: success, or the text of its error.
pub uninterp spec fn regex_compile_outcome(pattern: Seq<char>) -> Result<(), Seq<char>>;

/// `Regex::is_match` of the regular expression `pattern` on `haystack`.
pub uninterp spec fn regex_is_match(pattern: Seq<char>, haystack: Seq<char>) -> bool;

/// A regular expression together with the pattern it was compiled from.
pub struct CompiledRegex {
    pattern: String,
    inner: regex::Regex,
}

impl View for CompiledRegex {
    type V = Seq<char>;

    closed spec fn view(&self) -> Seq<char> {
        self.pattern@
    }
}

/// Calls `regex::Regex::new`; an error is returned as its text.
#[verifier::external_body]
fn regex_new_outside(pattern: &str) -> (r: Result<CompiledRegex, String>)
    ensures
        match r {
            Ok(c) => regex_compile_outcome(pattern@) is Ok && c@ == pattern@,
            Err(m) => regex_compile_outcome(pattern@) == Err::<(), Seq<char>>(m@),
        },
{
    match regex::Regex::new(pattern) {
        Ok(inner) => Ok(CompiledRegex { pattern: pattern.to_string(), inner }),
        Err(e) => Err(e.to_string()),
    }
}

/// Calls `regex::Regex::is_match`.
#[verifier::external_body]
fn regex_is_match_outside(re: &CompiledRegex, haystack: &str) -> (b: bool)
    ensures
        b == regex_is_match(re@, haystack@),
{
    re.inner.is_match(haystack)
}

/// A pattern once checked and normalised.
pub enum MatcherModel {
    Exact { full_url: bool, expected: Seq<char> },
    Domain { apex: Seq<char>, subdomains_only: bool },
    Regex { pattern: Seq<char> },
    Path { prefix: Seq<char>, full_url: bool },
    SourceApp { app_name: Seq<char> },
}

pub open spec fn exact_empty_msg() -> Seq<char> {
    "exact pattern cannot be empty"@
}

pub open spec fn domain_invalid_msg() -> Seq<char> {
    "domain pattern must be a host like 'github.com' or '*.github.com'"@
}

pub open spec fn regex_empty_msg() -> Seq<char> {
    "regex pattern cannot be empty"@
}

pub open spec fn path_empty_msg() -> Seq<char> {
    "path prefix cannot be empty"@
}

/// The prefix that is dropped from a wildcard domain pattern.
pub open spec fn wildcard_prefix() -> Seq<char> {
    "*."@
}

pub open spec fn scheme_separator() -> Seq<char> {
    "://"@
}

/// The domain a domain pattern names, before lower-casing, and whether it
/// names only the subdomains.
pub open spec fn domain_parts(pattern: Seq<char>) -> (Seq<char>, bool) {
    let t = trim(pattern);
    if starts_with(t, wildcard_prefix()) {
        (t.skip(2), true)
    } else {
        (t, false)
    }
}

/// The prefix a path pattern stands for: trimmed, without one final `*`, and
/// trimmed again at its end.
pub open spec fn path_prefix(pattern: Seq<char>) -> Seq<char> {
    let t = trim(pattern);
    let u = if t.len() > 0 && t.last() == '*' {
        t.drop_last()
    } else {
        t
    };
    trim_end(u)
}

/// What a pattern compiles to, or the reason it is refused.
pub open spec fn compile_spec(p: RulePattern) -> Result<MatcherModel, Seq<char>> {
    match p {
        RulePattern::Exact { pattern } => {
            let t = trim(pattern@);
            if t.len() == 0 {
                Err(exact_empty_msg())
            } else {
                Ok(MatcherModel::Exact { full_url: contains(t, scheme_separator()), expected: t })
            }
        },
        RulePattern::Domain { pattern } => {
            let (apex, sub) = domain_parts(pattern@);
            if apex.len() == 0 || contains(apex, scheme_separator()) || has_char(apex, '/') {
                Err(domain_invalid_msg())
            } else {
                Ok(MatcherModel::Domain { apex: unicode_lowercase(apex), subdomains_only: sub })
            }
        },
        RulePattern::Regex { pattern } => {
            let t = trim(pattern@);
            if t.len() == 0 {
                Err(regex_empty_msg())
            } else {
                match regex_compile_outcome(t) {
                    Ok(_) => Ok(MatcherModel::Regex { pattern: t }),
                    Err(m) => Err(m),
                }
            }
        },
        RulePattern::Path { pattern } => {
            let prefix = path_prefix(pattern@);
            if prefix.len() == 0 {
                Err(path_empty_msg())
            } else {
                Ok(MatcherModel::Path { prefix, full_url: contains(prefix, scheme_separator()) })
            }
        },
        RulePattern::SourceApp { app_name } => Ok(
            MatcherModel::SourceApp { app_name: unicode_lowercase(trim(app_name@)) },
        ),
    }
}

/// The host of the URL with serialization `url`, in lower case.
pub open spec fn host_spec(url: Seq<char>) -> Option<Seq<char>> {
    match url_host_of(url) {
        Some(h) => Some(unicode_lowercase(h)),
        None => None,
    }
}

/// What a path pattern is compared with: the whole URL, or the host, a
/// slash and the path without its leading slashes.
pub open spec fn path_candidate_spec(url: Seq<char>, full_url: bool) -> Seq<char> {
    if full_url {
        url
    } else {
        let h = match host_spec(url) {
            Some(h) => h,
            None => Seq::empty(),
        };
        h + seq!['/'] + strip_start_char(url_path_of(url), '/')
    }
}

/// Whether a compiled pattern matches a link with serialization `url` that
/// came from the application `source`.
pub open spec fn model_matches(m: MatcherModel, url: Seq<char>, source: Option<Seq<char>>) -> bool {
    match m {
        MatcherModel::Exact { full_url, expected } => if full_url {
            eq_ascii_ci(url, expected)
        } else {
            match host_spec(url) {
                Some(h) => eq_ascii_ci(h, expected),
                None => false,
            }
        },
        MatcherModel::Domain { apex, subdomains_only } => match host_spec(url) {
            Some(h) => {
                let suffix = seq!['.'] + apex;
                if subdomains_only {
                    h != apex && ends_with(h, suffix)
                } else {
                    h == apex || ends_with(h, suffix)
                }
            },
            None => false,
        },
        MatcherModel::Regex { pattern } => regex_is_match(pattern, url),
        MatcherModel::Path { prefix, full_url } => starts_with(
            path_candidate_spec(url, full_url),
            prefix,
        ),
        MatcherModel::SourceApp { app_name } => match source {
            Some(s) => unicode_lowercase(s) == app_name,
            None => false,
        },
    }
}

/// Whether `rule` is enabled, valid and matches the link.
pub open spec fn rule_matches(rule: Rule, url: Seq<char>, source: Option<Seq<char>>) -> bool {
    rule.enabled && match compile_spec(rule.pattern) {
        Ok(m) => model_matches(m, url, source),
        Err(_) => false,
    }
}

/// Rule `a` is tried before rule `b`: lower priority value first, then the
/// one given first.
pub open spec fn key_lt(rules: Seq<Rule>, a: int, b: int) -> bool {
    ||| rules[a].priority < rules[b].priority
    ||| (rules[a].priority == rules[b].priority && a < b)
}

/// Rule `i` is the one chosen for the link: it matches, and is tried before
/// every other rule that matches.
pub open spec fn selected(rules: Seq<Rule>, url: Seq<char>, source: Option<Seq<char>>, i: int) -> bool {
    &&& 0 <= i < rules.len()
    &&& rule_matches(rules[i], url, source)
    &&& forall|j: int|
        0 <= j < rules.len() && j != i && rule_matches(#[trigger] rules[j], url, source)
            ==> key_lt(rules, i, j)
}

/// Rule `i` is the enabled rule, refused by compilation, that is tried first.
pub open spec fn first_refused(rules: Seq<Rule>, i: int) -> bool {
    &&& 0 <= i < rules.len()
    &&& rules[i].enabled
    &&& compile_spec(rules[i].pattern) is Err
    &&& forall|j: int|
        0 <= j < rules.len() && j != i && (#[trigger] rules[j]).enabled && compile_spec(
            rules[j].pattern,
        ) is Err ==> key_lt(rules, i, j)
}

enum Matcher {
    Exact { full_url: bool, expected: Vec<char> },
    Domain { apex: Vec<char>, subdomains_only: bool },
    Regex(CompiledRegex),
    Path { prefix: Vec<char>, full_url: bool },
    SourceApp { app_name: Vec<char> },
}

impl View for Matcher {
    type V = MatcherModel;

    closed spec fn view(&self) -> MatcherModel {
        match self {
            Matcher::Exact { full_url, expected } => MatcherModel::Exact {
                full_url: *full_url,
                expected: expected@,
            },
            Matcher::Domain { apex, subdomains_only } => MatcherModel::Domain {
                apex: apex@,
                subdomains_only: *subdomains_only,
            },
            Matcher::Regex(re) => MatcherModel::Regex { pattern: re@ },
            Matcher::Path { prefix, full_url } => MatcherModel::Path {
                prefix: prefix@,
                full_url: *full_url,
            },
            Matcher::SourceApp { app_name } => MatcherModel::SourceApp { app_name: app_name@ },
        }
    }
}

struct CompiledRule {
    source: Rule,
    matcher: Matcher,
}

pub open spec fn opt_chars(o: Option<Vec<char>>) -> Option<Seq<char>> {
    match o {
        Some(v) => Some(v@),
        None => None,
    }
}

/// The host of `url` in lower case.
fn host(url: &Link) -> (h: Option<Vec<char>>)
    ensures
        opt_chars(h) == host_spec(url@),
{
    match url.host_str() {
        Some(h) => Some(lowercase_text(&chars_of(h.as_str()))),
        None => None,
    }
}

fn path_candidate(url: &Link, full_url: bool) -> (c: Vec<char>)
    ensures
        c@ == path_candidate_spec(url@, full_url),
{
    if full_url {
        chars_of(url.as_str())
    } else {
        let h = match host(url) {
            Some(h) => h,
            None => Vec::new(),
        };
        let p = url.path();
        let tail = trim_char_start_text(&chars_of(p.as_str()), '/');
        let mut slash: Vec<char> = Vec::new();
        slash.push('/');
        concat(&concat(&h, &slash), &tail)
    }
}

/// `s` without its leading occurrences of `c`.
pub fn trim_char_start_text(s: &Vec<char>, c: char) -> (out: Vec<char>)
    ensures
        out@ == strip_start_char(s@, c),
{
    let n = s.len();
    let mut a: usize = 0;
    while a < n && s[a] == c
        invariant
            a <= n == s.len(),
            forall|j: int| 0 <= j < a ==> s@[j] == c,
        decreases n - a,
    {
        a += 1;
    }
    proof {
        lemma_strip_start_prefix(s@, c, a as int);
        assert(s@.subrange(a as int, n as int) == s@.skip(a as int));
    }
    slice(s, a, n)
}

impl Matcher {
    fn matches(&self, request: &UrlRouteRequest) -> (b: bool)
        ensures
            b == model_matches(self@, request.url@, opt_text(request.source_app)),
    {
        match self {
            Matcher::Exact { full_url, expected } => {
                if *full_url {
                    eq_ignore_ascii_case(&chars_of(request.url.as_str()), expected)
                } else {
                    match host(&request.url) {
                        Some(h) => eq_ignore_ascii_case(&h, expected),
                        None => false,
                    }
                }
            },
            Matcher::Domain { apex, subdomains_only } => match host(&request.url) {
                Some(h) => {
                    let mut dot: Vec<char> = Vec::new();
                    dot.push('.');
                    let suffix = concat(&dot, apex);
                    assert(dot@ == seq!['.']);
                    if *subdomains_only {
                        !same(&h, apex) && ends_with_text(&h, &suffix)
                    } else {
                        same(&h, apex) || ends_with_text(&h, &suffix)
                    }
                },
                None => false,
            },
            Matcher::Regex(re) => regex_is_match_outside(re, request.url.as_str()),
            Matcher::Path { prefix, full_url } => {
                let candidate = path_candidate(&request.url, *full_url);
                starts_with_text(&candidate, prefix)
            },
            Matcher::SourceApp { app_name } => match &request.source_app {
                Some(source) => {
                    let low = lowercase_text(&chars_of(source.as_str()));
                    same(&low, app_name)
                },
                None => false,
            },
        }
    }
}

fn engine_error(msg: &str) -> (e: RouteError)
    ensures
        e matches RouteError::RuleEngine(m) && m@ == msg@,
{
    RouteError::RuleEngine(msg.to_owned())
}

/// Compiles a pattern, or says why it is refused.
fn compile_matcher(pattern: &RulePattern) -> (r: Result<Matcher, RouteError>)
    ensures
        match r {
            Ok(m) => compile_spec(*pattern) == Ok::<MatcherModel, Seq<char>>(m@),
            Err(e) => e matches RouteError::RuleEngine(msg) && compile_spec(*pattern) == Err::<
                MatcherModel,
                Seq<char>,
            >(msg@),
        },
{
    match pattern {
        RulePattern::Exact { pattern } => {
            let trimmed = trim_text(&chars_of(pattern.as_str()));
            if trimmed.len() == 0 {
                return Err(engine_error("exact pattern cannot be empty"));
            }
            let full_url = contains_text(&trimmed, &chars_of("://"));
            Ok(Matcher::Exact { full_url, expected: trimmed })
        },
        RulePattern::Domain { pattern } => {
            let trimmed = trim_text(&chars_of(pattern.as_str()));
            let subdomains_only = starts_with_text(&trimmed, &chars_of("*."));
            let apex = if subdomains_only {
                proof {
                    reveal_strlit("*.");
                }
                slice(&trimmed, 2, trimmed.len())
            } else {
                slice(&trimmed, 0, trimmed.len())
            };
            assert(subdomains_only ==> apex@ == trimmed@.skip(2));
            assert(!subdomains_only ==> apex@ == trimmed@);
            if apex.len() == 0 || contains_text(&apex, &chars_of("://")) || has_char_text(
                &apex,
                '/',
            ) {
                return Err(
                    engine_error(
                        "domain pattern must be a host like 'github.com' or '*.github.com'",
                    ),
                );
            }
            Ok(Matcher::Domain { apex: lowercase_text(&apex), subdomains_only })
        },
        RulePattern::Regex { pattern } => {
            let trimmed = trim_text(&chars_of(pattern.as_str()));
            if trimmed.len() == 0 {
                return Err(engine_error("regex pattern cannot be empty"));
            }
            let text = string_of(&trimmed);
            match regex_new_outside(text.as_str()) {
                Ok(re) => Ok(Matcher::Regex(re)),
                Err(m) => Err(RouteError::RuleEngine(m)),
            }
        },
        RulePattern::Path { pattern } => {
            let trimmed = trim_text(&chars_of(pattern.as_str()));
            let cut = if trimmed.len() > 0 && trimmed[trimmed.len() - 1] == '*' {
                slice(&trimmed, 0, trimmed.len() - 1)
            } else {
                slice(&trimmed, 0, trimmed.len())
            };
            assert(trimmed@.subrange(0, trimmed@.len() as int) == trimmed@);
            let prefix = trim_end_text(&cut);
            if prefix.len() == 0 {
                return Err(engine_error("path prefix cannot be empty"));
            }
            let full_url = contains_text(&prefix, &chars_of("://"));
            Ok(Matcher::Path { prefix, full_url })
        },
        RulePattern::SourceApp { app_name } => {
            let name = lowercase_text(&trim_text(&chars_of(app_name.as_str())));
            Ok(Matcher::SourceApp { app_name: name })
        },
    }
}

/// The enabled rules, in the order they are tried, ready to match links.
pub struct RulesEngine {
    compiled: Vec<CompiledRule>,
    order: Ghost<Seq<int>>,
    rules: Ghost<Seq<Rule>>,
}

impl View for RulesEngine {
    type V = Seq<Rule>;

    /// The rules the engine was built from, in the order given.
    closed spec fn view(&self) -> Seq<Rule> {
        self.rules@
    }
}

/// `order` lists the enabled rules of `rules`, each once, in the order they are tried.
pub open spec fn trial_order(rules: Seq<Rule>, order: Seq<int>) -> bool {
    &&& forall|t: int| 0 <= t < order.len() ==> 0 <= #[trigger] order[t] < rules.len()
    &&& forall|t: int| 0 <= t < order.len() ==> rules[#[trigger] order[t]].enabled
    &&& forall|a: int, b: int|
        0 <= a < b < order.len() ==> key_lt(rules, #[trigger] order[a], #[trigger] order[b])
    &&& forall|k: int|
        0 <= k < rules.len() && (#[trigger] rules[k]).enabled ==> exists|t: int|
            0 <= t < order.len() && order[t] == k
}

impl RulesEngine {
    #[verifier::type_invariant]
    closed spec fn wf(self) -> bool {
        let rules = self.rules@;
        let order = self.order@;
        &&& order.len() == self.compiled.len()
        &&& trial_order(rules, order)
        &&& forall|t: int|
            0 <= t < order.len() ==> {
                &&& (#[trigger] self.compiled@[t]).source == rules[order[t]]
                &&& compile_spec(rules[order[t]].pattern) == Ok::<MatcherModel, Seq<char>>(
                    self.compiled@[t].matcher@,
                )
            }
    }

    /// Builds the engine; fails with the reason of the first enabled rule, in
    /// trial order, whose pattern is refused.
    pub fn new(rules: Vec<Rule>) -> (r: Result<Self, RouteError>)
        ensures
            match r {
                Ok(e) => e@ == rules@ && forall|i: int|
                    0 <= i < rules@.len() && (#[trigger] rules@[i]).enabled ==> compile_spec(
                        rules@[i].pattern,
                    ) is Ok,
                Err(e) => exists|i: int|
                    first_refused(rules@, i) && (e matches RouteError::RuleEngine(m)
                        && compile_spec(rules@[i].pattern) == Err::<MatcherModel, Seq<char>>(
                        m@,
                    )),
            },
    {
        let mut order: Vec<usize> = Vec::new();
        let n = rules.len();
        let mut i: usize = 0;
        while i < n
            invariant
                n == rules.len(),
                i <= n,
                forall|t: int| 0 <= t < order.len() ==> #[trigger] order@[t] < i,
                trial_order(rules@.take(i as int), order@.map_values(|x: usize| x as int)),
            decreases n - i,
        {
            if rules[i].enabled {
                let p = rules[i].priority;
                let mut pos: usize = 0;
                while pos < order.len() && rules[order[pos]].priority <= p
                    invariant
                        n == rules.len(),
                        pos <= order.len(),
                        i < n,
                        forall|t: int| 0 <= t < order.len() ==> #[trigger] order@[t] < i,
                        forall|t: int| 0 <= t < pos ==> rules@[#[trigger] order@[t] as int].priority <= p,
                    decreases order.len() - pos,
                {
                    pos += 1;
                }
                proof {
                    lemma_insert_keeps_order(rules@, order@, i as int, pos as int);
                }
                order.insert(pos, i);
            }
            proof {
                lemma_extend_order(rules@, order@, i as int);
            }
            i += 1;
        }
        assert(rules@.take(n as int) =~= rules@);
        let ghost ord = order@.map_values(|x: usize| x as int);
        let mut compiled: Vec<CompiledRule> = Vec::new();
        let mut j: usize = 0;
        while j < order.len()
            invariant
                n == rules.len(),
                trial_order(rules@, ord),
                ord == order@.map_values(|x: usize| x as int),
                j <= order.len(),
                compiled.len() == j,
                forall|t: int|
                    0 <= t < j ==> {
                        &&& (#[trigger] compiled@[t]).source == rules@[ord[t]]
                        &&& compile_spec(rules@[ord[t]].pattern) == Ok::<
                            MatcherModel,
                            Seq<char>,
                        >(compiled@[t].matcher@)
                    },
            decreases order.len() - j,
        {
            let k = order[j];
            assert(ord[j as int] == k as int);
            match compile_matcher(&rules[k].pattern) {
                Ok(m) => {
                    compiled.push(CompiledRule { source: rules[k].clone(), matcher: m });
                },
                Err(e) => {
                    proof {
                        assert forall|q: int|
                            0 <= q < rules@.len() && q != k && (#[trigger] rules@[q]).enabled
                                && compile_spec(rules@[q].pattern) is Err implies key_lt(
                            rules@,
                            k as int,
                            q,
                        ) by {
                            let t = choose|t: int| 0 <= t < ord.len() && ord[t] == q;
                            if t < j {
                                assert(compiled@[t].source == rules@[ord[t]]);
                            }
                            assert(t != j);
                            assert(key_lt(rules@, ord[j as int], ord[t]));
                        }
                        assert(first_refused(rules@, k as int));
                    }
                    return Err(e);
                },
            }
            j += 1;
        }
        proof {
            assert forall|q: int|
                0 <= q < rules@.len() && (#[trigger] rules@[q]).enabled implies compile_spec(
                rules@[q].pattern,
            ) is Ok by {
                let t = choose|t: int| 0 <= t < ord.len() && ord[t] == q;
                assert(compiled@[t].source == rules@[ord[t]]);
            }
        }
        Ok(RulesEngine { compiled, order: Ghost(ord), rules: Ghost(rules@) })
    }

    /// Whether `rule`'s pattern compiles.
    pub fn validate_rule(rule: &Rule) -> (r: Result<(), RouteError>)
        ensures
            match r {
                Ok(_) => compile_spec(rule.pattern) is Ok,
                Err(e) => e matches RouteError::RuleEngine(m) && compile_spec(rule.pattern)
                    == Err::<MatcherModel, Seq<char>>(m@),
            },
    {
        match compile_matcher(&rule.pattern) {
            Ok(_) => Ok(()),
            Err(e) => Err(e),
        }
    }

    /// The rule chosen for the link: the matching enabled rule that is tried first.
    pub fn find_match(&self, request: &UrlRouteRequest) -> (r: Option<&Rule>)
        ensures
            match r {
                Some(rule) => exists|i: int|
                    selected(self@, request.url@, opt_text(request.source_app), i) && *rule
                        == self@[i],
                None => forall|i: int|
                    0 <= i < self@.len() ==> !rule_matches(
                        #[trigger] self@[i],
                        request.url@,
                        opt_text(request.source_app),
                    ),
            },
    {
        proof {
            use_type_invariant(self);
        }
        let ghost rules = self.rules@;
        let ghost ord = self.order@;
        let ghost url = request.url@;
        let ghost src = opt_text(request.source_app);
        let mut j: usize = 0;
        while j < self.compiled.len()
            invariant
                j <= self.compiled.len(),
                rules == self.rules@,
                ord == self.order@,
                url == request.url@,
                src == opt_text(request.source_app),
                ord.len() == self.compiled.len(),
                trial_order(rules, ord),
                forall|t: int|
                    0 <= t < ord.len() ==> {
                        &&& (#[trigger] self.compiled@[t]).source == rules[ord[t]]
                        &&& compile_spec(rules[ord[t]].pattern) == Ok::<MatcherModel, Seq<char>>(
                            self.compiled@[t].matcher@,
                        )
                    },
                forall|t: int| 0 <= t < j ==> !rule_matches(rules[#[trigger] ord[t]], url, src),
            decreases self.compiled.len() - j,
        {
            let c = &self.compiled[j];
            assert(c.source == rules[ord[j as int]]);
            if c.matcher.matches(request) {
                proof {
                    let i = ord[j as int];
                    assert(rules[i].enabled);
                    assert(compile_spec(rules[i].pattern) == Ok::<MatcherModel, Seq<char>>(
                        c.matcher@,
                    ));
                    assert(model_matches(c.matcher@, url, src));
                    assert(rule_matches(rules[i], url, src));
                    assert forall|q: int|
                        0 <= q < rules.len() && q != i && rule_matches(
                            #[trigger] rules[q],
                            url,
                            src,
                        ) implies key_lt(rules, i, q) by {
                        let t = choose|t: int| 0 <= t < ord.len() && ord[t] == q;
                        if t < j {
                            assert(!rule_matches(rules[ord[t]], url, src));
                        }
                        assert(t != j);
                    }
                    assert(selected(rules, url, src, i));
                    assert(self@ == rules);
                    assert(selected(self@, request.url@, opt_text(request.source_app), i)
                        && c.source == self@[i]);
                }
                return Some(&c.source);
            }
            proof {
                assert(!rule_matches(rules[ord[j as int]], url, src));
            }
            j += 1;
        }
        proof {
            assert forall|q: int| 0 <= q < rules.len() implies !rule_matches(
                #[trigger] rules[q],
                url,
                src,
            ) by {
                if rules[q].enabled {
                    let t = choose|t: int| 0 <= t < ord.len() && ord[t] == q;
                    assert(!rule_matches(rules[ord[t]], url, src));
                }
            }
        }
        None
    }
}

proof fn lemma_insert_keeps_order(rules: Seq<Rule>, order: Seq<usize>, i: int, pos: int)
    requires
        0 <= i < rules.len(),
        rules[i].enabled,
        0 <= pos <= order.len(),
        forall|t: int| 0 <= t < order.len() ==> #[trigger] order[t] < i,
        trial_order(rules.take(i), order.map_values(|x: usize| x as int)),
        forall|t: int| 0 <= t < pos ==> rules[#[trigger] order[t] as int].priority <= rules[i].priority,
        pos < order.len() ==> rules[order[pos] as int].priority > rules[i].priority,
        i <= usize::MAX,
    ensures
        trial_order(rules.take(i + 1), order.insert(pos, i as usize).map_values(|x: usize| x as int)),
        forall|t: int| 0 <= t < order.len() + 1 ==> #[trigger] order.insert(pos, i as usize)[t] <= i,
{
    let old_o = order.map_values(|x: usize| x as int);
    let new_o = order.insert(pos, i as usize).map_values(|x: usize| x as int);
    let r1 = rules.take(i + 1);
    let r0 = rules.take(i);
    assert(new_o.len() == old_o.len() + 1);
    assert forall|t: int| 0 <= t < new_o.len() implies #[trigger] new_o[t] == if t < pos {
        old_o[t]
    } else if t == pos {
        i
    } else {
        old_o[t - 1]
    } by {}
    assert forall|t: int| 0 <= t < old_o.len() implies 0 <= #[trigger] old_o[t] < i by {}
    // all entries after pos have a higher priority value than rule i
    assert forall|t: int| pos <= t < old_o.len() implies rules[#[trigger] old_o[t]].priority
        > rules[i].priority by {
        if t > pos {
            assert(key_lt(r0, old_o[pos], old_o[t]));
        }
    }
    assert forall|a: int, b: int| 0 <= a < b < new_o.len() implies key_lt(
        r1,
        #[trigger] new_o[a],
        #[trigger] new_o[b],
    ) by {
        if a < pos && b < pos {
            assert(key_lt(r0, old_o[a], old_o[b]));
        } else if a < pos && b == pos {
        } else if a < pos && b > pos {
            assert(key_lt(r0, old_o[a], old_o[b - 1]));
        } else if a == pos {
        } else {
            assert(key_lt(r0, old_o[a - 1], old_o[b - 1]));
        }
    }
    assert forall|k: int| 0 <= k < r1.len() && (#[trigger] r1[k]).enabled implies exists|t: int|
        0 <= t < new_o.len() && new_o[t] == k by {
        if k == i {
            assert(new_o[pos] == k);
        } else {
            assert(r0[k] == r1[k]);
            let t = choose|t: int| 0 <= t < old_o.len() && old_o[t] == k;
            if t < pos {
                assert(new_o[t] == k);
            } else {
                assert(new_o[t + 1] == k);
            }
        }
    }
    assert forall|t: int| 0 <= t < new_o.len() implies r1[#[trigger] new_o[t]].enabled by {
        if t != pos {
            let s = if t < pos { t } else { t - 1 };
            assert(r0[old_o[s]].enabled);
        }
    }
    assert forall|t: int| 0 <= t < order.len() + 1 implies #[trigger] order.insert(
        pos,
        i as usize,
    )[t] <= i by {
        assert(new_o[t] <= i);
    }
}

proof fn lemma_extend_order(rules: Seq<Rule>, order: Seq<usize>, i: int)
    requires
        0 <= i < rules.len(),
        forall|t: int| 0 <= t < order.len() ==> #[trigger] order[t] <= i,
        rules[i].enabled ==> trial_order(rules.take(i + 1), order.map_values(|x: usize| x as int)),
        !rules[i].enabled ==> trial_order(rules.take(i), order.map_values(|x: usize| x as int))
            && forall|t: int| 0 <= t < order.len() ==> #[trigger] order[t] < i,
    ensures
        trial_order(rules.take(i + 1), order.map_values(|x: usize| x as int)),
        forall|t: int| 0 <= t < order.len() ==> #[trigger] order[t] < i + 1,
{
    if !rules[i].enabled {
        let o = order.map_values(|x: usize| x as int);
        let r0 = rules.take(i);
        let r1 = rules.take(i + 1);
        assert forall|t: int| 0 <= t < o.len() implies r1[#[trigger] o[t]].enabled by {
            assert(r0[o[t]].enabled);
        }
        assert forall|a: int, b: int| 0 <= a < b < o.len() implies key_lt(
            r1,
            #[trigger] o[a],
            #[trigger] o[b],
        ) by {
            assert(key_lt(r0, o[a], o[b]));
        }
        assert forall|k: int| 0 <= k < r1.len() && (#[trigger] r1[k]).enabled implies exists|t: int|
            0 <= t < o.len() && o[t] == k by {
            assert(k != i);
            assert(r0[k] == r1[k]);
        }
    }
}

} // verus!

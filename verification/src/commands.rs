//! What the user interface asks of the router: rule management, link
//! evaluation and the choice of a profile, each answered with a value or a
//! [`CommandError`].
use vstd::prelude::*;

use crate::domain::{
    kind_label_of, pattern_text_of, profiles_view, BrowserProfile, RouteDecision, Rule,
    RuleEvaluation, RuleMatch, UrlRouteRequest,
};
use crate::error::{route_error_text, RouteError};
use crate::link::{opt_text, url_parse_outcome, Link};
use crate::route_service::{decision_spec, RouteEvaluator};
use crate::rules::{compile_spec, rule_matches, selected, MatcherModel, RulesEngine};
use crate::sanitizer::{sanitize_url, sanitized};
use crate::text::{chars_of, concat, same, string_of, trim, trim_text};

verus! {

/// An error answered to the user interface: a stable code and a message.
#[derive(Debug)]
pub struct CommandError {
    pub code: String,
    pub message: String,
}

/// `e` carries the code `code` and the message `message`.
pub open spec fn error_is(e: CommandError, code: Seq<char>, message: Seq<char>) -> bool {
    e.code@ == code && e.message@ == message
}

impl CommandError {
    pub fn new(code: &str, message: String) -> (e: CommandError)
        ensures
            error_is(e, code@, message@),
    {
        CommandError { code: code.to_owned(), message }
    }

    /// A link that does not parse, with the parser's message.
    pub fn invalid_url(message: String) -> (e: CommandError)
        ensures
            error_is(e, "invalid_url"@, message@),
    {
        CommandError::new("invalid_url", message)
    }

    /// A routing error, with its text.
    pub fn from_route_error(err: &RouteError) -> (e: CommandError)
        ensures
            error_is(e, "route_error"@, route_error_text(*err)),
    {
        CommandError::new("route_error", err.message())
    }

    /// A failure to change the default handler.
    pub fn default_handler(message: String) -> (e: CommandError)
        ensures
            error_is(e, "default_handler"@, message@),
    {
        CommandError::new("default_handler", message)
    }

    /// A failure of an adapter: detection, launching, storage.
    pub fn adapter(message: String) -> (e: CommandError)
        ensures
            error_is(e, "adapter_error"@, message@),
    {
        CommandError::new("adapter_error", message)
    }

    /// Shared state that a panicking thread left locked.
    pub fn poisoned() -> (e: CommandError)
        ensures
            error_is(e, "poisoned"@, "internal state lock poisoned"@),
    {
        CommandError::new("poisoned", "internal state lock poisoned".to_owned())
    }
}

/// The serialization of the link that `raw` parses to.
pub open spec fn parsed_of(raw: Seq<char>) -> Seq<char> {
    match url_parse_outcome(raw) {
        Ok(s) => s,
        Err(_) => Seq::empty(),
    }
}

/// `e` is the `invalid_url` error for `raw`, which does not parse: its
/// message is the parser's.
pub open spec fn refused_link(raw: Seq<char>, e: CommandError) -> bool {
    url_parse_outcome(raw) == Err::<Seq<char>, Seq<char>>(e.message@) && e.code@ == "invalid_url"@
}

/// Parses a link; a refused link is an `invalid_url` error.
pub fn parse_url(raw: &str) -> (r: Result<Link, CommandError>)
    ensures
        match r {
            Ok(u) => url_parse_outcome(raw@) == Ok::<Seq<char>, Seq<char>>(u@),
            Err(e) => refused_link(raw@, e),
        },
{
    match Link::parse(raw) {
        Ok(u) => Ok(u),
        Err(m) => Err(CommandError::invalid_url(m)),
    }
}

/// `rule` inserted into `s`, which is ordered by priority: after every rule
/// whose priority is not greater than its own.
pub open spec fn insert_rule(s: Seq<Rule>, x: Rule) -> Seq<Rule>
    decreases s.len(),
{
    if s.len() == 0 {
        seq![x]
    } else if x.priority < s.last().priority {
        insert_rule(s.drop_last(), x).push(s.last())
    } else {
        s.push(x)
    }
}

/// The rules ordered by priority; rules of equal priority keep their order.
pub open spec fn sort_rules(s: Seq<Rule>) -> Seq<Rule>
    decreases s.len(),
{
    if s.len() == 0 {
        s
    } else {
        insert_rule(sort_rules(s.drop_last()), s.last())
    }
}

proof fn lemma_insert_rule_at(s: Seq<Rule>, x: Rule, pos: int)
    requires
        0 <= pos <= s.len(),
        pos == 0 || s[pos - 1].priority <= x.priority,
        forall|k: int| pos <= k < s.len() ==> x.priority < #[trigger] s[k].priority,
    ensures
        insert_rule(s, x) == s.insert(pos, x),
    decreases s.len(),
{
    if s.len() == 0 {
        assert(s.insert(pos, x) =~= seq![x]);
    } else if pos == s.len() {
        assert(s.insert(pos, x) =~= s.push(x));
    } else {
        lemma_insert_rule_at(s.drop_last(), x, pos);
        assert(s.drop_last().insert(pos, x).push(s.last()) =~= s.insert(pos, x));
    }
}

/// The rules ordered by priority; rules of equal priority keep their order.
pub fn sorted_rules(rules: &[Rule]) -> (r: Vec<Rule>)
    ensures
        r@ == sort_rules(rules@),
{
    let mut out: Vec<Rule> = Vec::new();
    let mut i: usize = 0;
    while i < rules.len()
        invariant
            i <= rules.len(),
            out@ == sort_rules(rules@.take(i as int)),
        decreases rules.len() - i,
    {
        let x = rules[i].clone();
        let mut pos: usize = out.len();
        while pos > 0 && x.priority < out[pos - 1].priority
            invariant
                pos <= out.len(),
                forall|k: int| pos <= k < out.len() ==> x.priority < #[trigger] out@[k].priority,
            decreases pos,
        {
            pos -= 1;
        }
        proof {
            lemma_insert_rule_at(out@, x, pos as int);
            assert(rules@.take(i + 1).drop_last() =~= rules@.take(i as int));
            assert(rules@.take(i + 1).last() == x);
        }
        out.insert(pos, x);
        i += 1;
    }
    assert(rules@.take(rules.len() as int) =~= rules@);
    out
}

/// Some rule of `rules` has the id `id`.
pub open spec fn has_rule_id(rules: Seq<Rule>, id: Seq<char>) -> bool {
    exists|k: int| 0 <= k < rules.len() && (#[trigger] rules[k]).id@ == id
}

/// Rule `k` is the first of `rules` with the id `id`.
pub open spec fn first_with_id(rules: Seq<Rule>, id: Seq<char>, k: int) -> bool {
    &&& 0 <= k < rules.len()
    &&& rules[k].id@ == id
    &&& forall|j: int| 0 <= j < k ==> (#[trigger] rules[j]).id@ != id
}

pub open spec fn quoted(before: Seq<char>, id: Seq<char>, after: Seq<char>) -> Seq<char> {
    before + id + after
}

/// Why `rule` cannot be added to `rules`, as a code and a message; `None`
/// when it can.
pub open spec fn create_refusal(rules: Seq<Rule>, rule: Rule) -> Option<(Seq<char>, Seq<char>)> {
    if trim(rule.id@).len() == 0 {
        Some(("invalid_rule"@, "rule id cannot be empty"@))
    } else if trim(pattern_text_of(rule.pattern)).len() == 0 {
        Some(("invalid_rule"@, "rule pattern cannot be empty"@))
    } else if let Err(m) = compile_spec(rule.pattern) {
        Some(("route_error"@, "rule engine failure: "@ + m))
    } else if has_rule_id(rules, rule.id@) {
        Some(("duplicate_rule"@, quoted("rule '"@, rule.id@, "' already exists"@)))
    } else {
        None
    }
}

/// Why `rule` cannot replace the rule with its id in `rules`; `None` when it can.
pub open spec fn update_refusal(rules: Seq<Rule>, rule: Rule) -> Option<(Seq<char>, Seq<char>)> {
    if let Err(m) = compile_spec(rule.pattern) {
        Some(("route_error"@, "rule engine failure: "@ + m))
    } else if !has_rule_id(rules, rule.id@) {
        Some(("rule_not_found"@, quoted("rule '"@, rule.id@, "' not found"@)))
    } else {
        None
    }
}

fn quote_text(before: &str, id: &str, after: &str) -> (s: String)
    ensures
        s@ == quoted(before@, id@, after@),
{
    string_of(&concat(&concat(&chars_of(before), &chars_of(id)), &chars_of(after)))
}

fn is_blank(s: &str) -> (b: bool)
    ensures
        b == (trim(s@).len() == 0),
{
    trim_text(&chars_of(s)).len() == 0
}

/// The position of the first rule with the id `id`.
pub fn position_of_rule(rules: &Vec<Rule>, id: &str) -> (r: Option<usize>)
    ensures
        match r {
            Some(k) => first_with_id(rules@, id@, k as int),
            None => !has_rule_id(rules@, id@),
        },
{
    let want = chars_of(id);
    let mut k: usize = 0;
    while k < rules.len()
        invariant
            k <= rules.len(),
            want@ == id@,
            forall|j: int| 0 <= j < k ==> (#[trigger] rules@[j]).id@ != id@,
        decreases rules.len() - k,
    {
        if same(&chars_of(rules[k].id.as_str()), &want) {
            return Some(k);
        }
        k += 1;
    }
    None
}

/// Adds `rule` to `rules` when its id and pattern are not blank, its pattern
/// compiles and no rule has its id yet; otherwise leaves `rules` as they were
/// and says why.
pub fn create_rule(rules: &mut Vec<Rule>, rule: Rule) -> (r: Result<Rule, CommandError>)
    ensures
        match create_refusal(old(rules)@, rule) {
            Some((code, message)) => final(rules)@ == old(rules)@ && (r matches Err(e) && error_is(
                e,
                code,
                message,
            )),
            None => final(rules)@ == old(rules)@.push(rule) && r == Ok::<Rule, CommandError>(rule),
        },
{
    if is_blank(rule.id.as_str()) {
        return Err(CommandError::new("invalid_rule", "rule id cannot be empty".to_owned()));
    }
    if is_blank(rule.pattern.pattern_text()) {
        return Err(CommandError::new("invalid_rule", "rule pattern cannot be empty".to_owned()));
    }
    match RulesEngine::validate_rule(&rule) {
        Ok(_) => {},
        Err(e) => {
            return Err(CommandError::from_route_error(&e));
        },
    }
    match position_of_rule(rules, rule.id.as_str()) {
        Some(_) => {
            return Err(
                CommandError::new("duplicate_rule", quote_text("rule '", rule.id.as_str(), "' already exists")),
            );
        },
        None => {},
    }
    rules.push(rule.clone());
    Ok(rule)
}

/// Replaces the first rule with `rule`'s id by `rule`, when its pattern
/// compiles and such a rule exists; otherwise leaves `rules` as they were and
/// says why.
pub fn update_rule(rules: &mut Vec<Rule>, rule: Rule) -> (r: Result<Rule, CommandError>)
    ensures
        match update_refusal(old(rules)@, rule) {
            Some((code, message)) => final(rules)@ == old(rules)@ && (r matches Err(e) && error_is(
                e,
                code,
                message,
            )),
            None => r == Ok::<Rule, CommandError>(rule) && exists|k: int|
                first_with_id(old(rules)@, rule.id@, k) && final(rules)@ == old(rules)@.update(
                    k,
                    rule,
                ),
        },
{
    match RulesEngine::validate_rule(&rule) {
        Ok(_) => {},
        Err(e) => {
            return Err(CommandError::from_route_error(&e));
        },
    }
    match position_of_rule(rules, rule.id.as_str()) {
        Some(k) => {
            rules[k] = rule.clone();
            Ok(rule)
        },
        None => Err(CommandError::new("rule_not_found", quote_text("rule '", rule.id.as_str(), "' not found"))),
    }
}

/// Keeps the rules whose id is not `id`.
pub open spec fn id_is_not(id: Seq<char>) -> spec_fn(Rule) -> bool {
    |x: Rule| x.id@ != id
}

/// Removes every rule with the id `rule_id`; the others keep their order.
pub fn delete_rule(rules: &mut Vec<Rule>, rule_id: &str)
    ensures
        final(rules)@ == old(rules)@.filter(id_is_not(rule_id@)),
{
    let want = chars_of(rule_id);
    let ghost start = rules@;
    let mut kept: Vec<Rule> = Vec::new();
    let mut i: usize = 0;
    while i < rules.len()
        invariant
            i <= rules.len(),
            rules@ == start,
            want@ == rule_id@,
            kept@ == start.take(i as int).filter(id_is_not(rule_id@)),
        decreases rules.len() - i,
    {
        proof {
            reveal(Seq::filter);
        }
        assert(start.take(i + 1).drop_last() =~= start.take(i as int));
        assert(start.take(i + 1).last() == start[i as int]);
        if !same(&chars_of(rules[i].id.as_str()), &want) {
            kept.push(rules[i].clone());
        }
        i += 1;
    }
    assert(start.take(start.len() as int) =~= start);
    *rules = kept;
}

/// The match reported for the rule chosen for a link.
pub open spec fn reports_rule(m: RuleMatch, rule: Rule) -> bool {
    &&& m.rule_id@ == rule.id@
    &&& m.target_profile_id@ == rule.target_profile_id@
    &&& m.pattern_kind@ == kind_label_of(rule.pattern)
}

/// Evaluates `url` against the rules: the link as given, the link cleaned of
/// tracking parameters, and the rule it matched. A link that does not parse
/// is an `invalid_url` error.
pub fn evaluate_url(evaluator: &RouteEvaluator, url: String, source_app: Option<String>) -> (r: Result<
    RuleEvaluation,
    CommandError,
>)
    ensures
        match r {
            Ok(ev) => {
                    let parsed = parsed_of(url@);
                    &&& url_parse_outcome(url@) is Ok
                    &&& ev.url@ == url@
                    &&& ev.cleaned_url@ == sanitized(parsed)
                    &&& match ev.matched {
                        Some(m) => exists|i: int|
                            selected(evaluator@, parsed, opt_text(source_app), i) && reports_rule(
                                m,
                                evaluator@[i],
                            ),
                        None => forall|i: int|
                            0 <= i < evaluator@.len() ==> !rule_matches(
                                #[trigger] evaluator@[i],
                                parsed,
                                opt_text(source_app),
                            ),
                    }
                },
            Err(e) => refused_link(url@, e),
        },
{
    let parsed = match parse_url(url.as_str()) {
        Ok(u) => u,
        Err(e) => {
            return Err(e);
        },
    };
    let ghost src = opt_text(source_app);
    let request = UrlRouteRequest { url: parsed.clone(), source_app };
    let matched = match evaluator.match_rule(&request) {
        Some(rule) => Some(
            RuleMatch {
                rule_id: rule.id.clone(),
                target_profile_id: rule.target_profile_id.clone(),
                pattern_kind: rule.pattern.kind_label(),
            },
        ),
        None => None,
    };
    let cleaned = sanitize_url(&parsed);
    let cleaned_url = cleaned.as_str().to_owned();
    assert(parsed_of(url@) == parsed@);
    assert(cleaned_url@ == sanitized(parsed@));
    assert(request.url@ == parsed@);
    assert(opt_text(request.source_app) == src);
    Ok(RuleEvaluation { url, cleaned_url, matched })
}

/// Routes `url` among the detected profiles, as [`RouteEvaluator::evaluate`]
/// decides. A link that does not parse is an `invalid_url` error.
pub fn evaluate_url_route(
    evaluator: &RouteEvaluator,
    url: &str,
    source_app: Option<String>,
    profiles: &[BrowserProfile],
) -> (r: Result<RouteDecision, CommandError>)
    ensures
        match r {
            Ok(d) => url_parse_outcome(url@) is Ok && decision_spec(
                    evaluator@,
                    parsed_of(url@),
                    opt_text(source_app),
                    profiles@,
                    d,
                ),
            Err(e) => refused_link(url@, e),
        },
{
    let parsed = match parse_url(url) {
        Ok(u) => u,
        Err(e) => {
            return Err(e);
        },
    };
    let request = UrlRouteRequest { url: parsed, source_app };
    match evaluator.evaluate(request, profiles) {
        Ok(d) => Ok(d),
        Err(e) => Err(CommandError::from_route_error(&e)),
    }
}

/// Profile `k` is the first of `profiles` with the id `id`.
pub open spec fn first_profile_with_id(profiles: Seq<BrowserProfile>, id: Seq<char>, k: int) -> bool {
    &&& 0 <= k < profiles.len()
    &&& profiles[k].id@ == id
    &&& forall|j: int| 0 <= j < k ==> (#[trigger] profiles[j]).id@ != id
}

/// The first profile with the id `profile_id`; a `profile_not_found` error
/// when there is none.
pub fn find_profile<'a>(profiles: &'a [BrowserProfile], profile_id: &str) -> (r: Result<
    &'a BrowserProfile,
    CommandError,
>)
    ensures
        match r {
            Ok(p) => exists|k: int|
                first_profile_with_id(profiles@, profile_id@, k) && *p == profiles@[k],
            Err(e) => (forall|k: int|
                0 <= k < profiles@.len() ==> (#[trigger] profiles@[k]).id@ != profile_id@)
                && error_is(e, "profile_not_found"@, quoted("profile '"@, profile_id@, "' not found"@)),
        },
{
    let want = chars_of(profile_id);
    let mut k: usize = 0;
    while k < profiles.len()
        invariant
            k <= profiles.len(),
            want@ == profile_id@,
            forall|j: int| 0 <= j < k ==> (#[trigger] profiles@[j]).id@ != profile_id@,
        decreases profiles.len() - k,
    {
        if same(&chars_of(profiles[k].id.as_str()), &want) {
            return Ok(&profiles[k]);
        }
        k += 1;
    }
    Err(CommandError::new("profile_not_found", quote_text("profile '", profile_id, "' not found")))
}

/// The evaluator for the rules read at start: all of them when their
/// patterns compile, none otherwise.
pub fn initial_evaluator(rules: Vec<Rule>) -> (r: RouteEvaluator)
    ensures
        (forall|i: int|
            0 <= i < rules@.len() && (#[trigger] rules@[i]).enabled ==> compile_spec(
                rules@[i].pattern,
            ) is Ok) ==> r@ == rules@,
        !(forall|i: int|
            0 <= i < rules@.len() && (#[trigger] rules@[i]).enabled ==> compile_spec(
                rules@[i].pattern,
            ) is Ok) ==> r@ == Seq::<Rule>::empty(),
{
    let ghost given = rules@;
    match RouteEvaluator::new(rules) {
        Ok(e) => e,
        Err(_) => {
            let none: Vec<Rule> = Vec::new();
            match RouteEvaluator::new(none) {
                Ok(e) => e,
                Err(_) => vstd::pervasive::unreached(),
            }
        },
    }
}

} // verus!

//! What holds of the rule chosen for a link, and of the rule list that the
//! user interface edits.
use vstd::prelude::*;

use crate::commands::{has_rule_id, id_is_not, insert_rule, sort_rules};
use crate::domain::{BrowserProfile, RouteDecision, Rule};
use crate::link::{url_host_of, url_path_of};
use crate::route_service::decision_spec;
use crate::rules::{
    compile_spec, domain_parts, key_lt, path_prefix, regex_compile_outcome, regex_is_match,
    rule_matches, scheme_separator, selected,
};
use crate::text::{
    contains, ends_with, eq_ascii_ci, occurs_at, starts_with, strip_start_char, trim, unicode_lowercase,
};

verus! {

/// A disabled rule is never chosen.
pub proof fn law_chosen_rule_is_enabled(rules: Seq<Rule>, url: Seq<char>, source: Option<Seq<char>>, i: int)
    requires
        selected(rules, url, source, i),
    ensures
        rules[i].enabled,
{
}

/// At most one rule is chosen for a link.
pub proof fn law_chosen_rule_is_unique(
    rules: Seq<Rule>,
    url: Seq<char>,
    source: Option<Seq<char>>,
    i: int,
    j: int,
)
    requires
        selected(rules, url, source, i),
        selected(rules, url, source, j),
    ensures
        i == j,
{
    if i != j {
        assert(rule_matches(rules[j], url, source));
        assert(rule_matches(rules[i], url, source));
    }
}

/// Of the rules that match, the one with the lowest priority value is
/// chosen; among those of equal priority, the one given first.
pub proof fn law_priority_then_order(
    rules: Seq<Rule>,
    url: Seq<char>,
    source: Option<Seq<char>>,
    i: int,
    j: int,
)
    requires
        selected(rules, url, source, i),
        0 <= j < rules.len(),
        j != i,
        rule_matches(rules[j], url, source),
    ensures
        rules[i].priority <= rules[j].priority,
        rules[i].priority == rules[j].priority ==> i < j,
{
}

/// Rules ordered by priority: no rule precedes one of lower priority value.
pub open spec fn by_priority(s: Seq<Rule>) -> bool {
    forall|a: int, b: int| 0 <= a < b < s.len() ==> (#[trigger] s[a]).priority <= (#[trigger] s[b]).priority
}

proof fn lemma_insert_rule_facts(s: Seq<Rule>, x: Rule)
    requires
        by_priority(s),
    ensures
        by_priority(insert_rule(s, x)),
        insert_rule(s, x).to_multiset() == s.to_multiset().insert(x),
    decreases s.len(),
{
    broadcast use vstd::seq_lib::group_to_multiset_ensures;
    if s.len() == 0 {
        assert(seq![x] =~= Seq::<Rule>::empty().push(x));
    } else if x.priority < s.last().priority {
        let d = s.drop_last();
        assert(by_priority(d));
        lemma_insert_rule_facts(d, x);
        let r = insert_rule(d, x);
        assert(s =~= d.push(s.last()));
        assert forall|k: int| 0 <= k < r.len() implies (#[trigger] r[k]).priority <= s.last().priority by {
            assert(r.to_multiset().count(r[k]) > 0);
            assert(r.to_multiset() == d.to_multiset().insert(x));
            if r[k] != x {
                assert(d.to_multiset().count(r[k]) > 0);
                assert(d.contains(r[k]));
                let q = choose|q: int| 0 <= q < d.len() && d[q] == r[k];
                assert(s[q] == d[q]);
                assert(s[s.len() - 1] == s.last());
            }
        }
        assert(by_priority(r.push(s.last())));
        assert(r.push(s.last()).to_multiset() =~= s.to_multiset().insert(x));
    } else {
        assert forall|a: int, b: int| 0 <= a < b < s.push(x).len() implies (#[trigger] s.push(x)[a]).priority
            <= (#[trigger] s.push(x)[b]).priority by {
            if b == s.len() {
                assert(s[s.len() - 1] == s.last());
                if a < s.len() - 1 {
                    assert(s[a].priority <= s[s.len() - 1].priority);
                }
            }
        }
    }
}

proof fn lemma_sort_rules_facts(s: Seq<Rule>)
    ensures
        by_priority(sort_rules(s)),
        sort_rules(s).to_multiset() == s.to_multiset(),
    decreases s.len(),
{
    broadcast use vstd::seq_lib::group_to_multiset_ensures;
    if s.len() > 0 {
        let d = s.drop_last();
        lemma_sort_rules_facts(d);
        lemma_insert_rule_facts(sort_rules(d), s.last());
        assert(s =~= d.push(s.last()));
    }
}

/// The rules that the user interface lists are ordered by priority, and are
/// the stored rules, each as often as it is stored.
pub proof fn law_listed_rules_ordered(rules: Seq<Rule>)
    ensures
        by_priority(sort_rules(rules)),
        sort_rules(rules).to_multiset() == rules.to_multiset(),
{
    lemma_sort_rules_facts(rules);
}

/// Deleting a rule that was just created gives the rules back as they were.
pub proof fn law_delete_undoes_create(rules: Seq<Rule>, rule: Rule)
    requires
        !has_rule_id(rules, rule.id@),
    ensures
        rules.push(rule).filter(id_is_not(rule.id@)) == rules,
    decreases rules.len(),
{
    reveal(Seq::filter);
    assert(rules.push(rule).drop_last() =~= rules);
    lemma_filter_keeps_all(rules, rule.id@);
}

proof fn lemma_filter_keeps_all(rules: Seq<Rule>, id: Seq<char>)
    requires
        !has_rule_id(rules, id),
    ensures
        rules.filter(id_is_not(id)) == rules,
    decreases rules.len(),
{
    reveal(Seq::filter);
    if rules.len() > 0 {
        let d = rules.drop_last();
        assert(!has_rule_id(d, id)) by {
            if has_rule_id(d, id) {
                let k = choose|k: int| 0 <= k < d.len() && (#[trigger] d[k]).id@ == id;
                assert(rules[k] == d[k]);
            }
        }
        lemma_filter_keeps_all(d, id);
        assert(rules[rules.len() - 1] == rules.last());
        assert(rules.last().id@ != id);
        assert(d.push(rules.last()) =~= rules);
    }
}

/// A link that some rule matches is opened directly, in the profile of the
/// rule chosen for it, whatever profiles were detected; only a link that no
/// rule matches leads to the prompt, or to nothing when no profile was found.
pub proof fn law_matching_link_launches_chosen_profile(
    rules: Seq<Rule>,
    url: Seq<char>,
    source: Option<Seq<char>>,
    profiles: Seq<BrowserProfile>,
    d: RouteDecision,
    i: int,
)
    requires
        decision_spec(rules, url, source, profiles, d),
        selected(rules, url, source, i),
    ensures
        d matches RouteDecision::Launch { profile_id, .. } && profile_id@ == rules[i].target_profile_id@,
{
    match d {
        RouteDecision::Launch { profile_id, .. } => {
            let j = choose|j: int| selected(rules, url, source, j) && profile_id@ == rules[j].target_profile_id@;
            law_chosen_rule_is_unique(rules, url, source, i, j);
        },
        RouteDecision::Prompt { .. } => {
            assert(!rule_matches(rules[i], url, source));
        },
        RouteDecision::NoBrowser { .. } => {
            assert(!rule_matches(rules[i], url, source));
        },
    }
}

/// Whenever some rule matches a link, a rule is chosen for it.
pub proof fn law_some_rule_chosen(rules: Seq<Rule>, url: Seq<char>, source: Option<Seq<char>>, j: int)
    requires
        0 <= j < rules.len(),
        rule_matches(rules[j], url, source),
    ensures
        exists|i: int| selected(rules, url, source, i),
    decreases rules.len(),
{
    let n = rules.len() - 1;
    let d = rules.drop_last();
    if exists|k: int| 0 <= k < n && rule_matches(d[k], url, source) {
        let k = choose|k: int| 0 <= k < n && rule_matches(d[k], url, source);
        law_some_rule_chosen(d, url, source, k);
        let i0 = choose|i: int| selected(d, url, source, i);
        assert(rules[i0] == d[i0]);
        if rule_matches(rules[n], url, source) && key_lt(rules, n, i0) {
            assert forall|q: int|
                0 <= q < rules.len() && q != n && rule_matches(#[trigger] rules[q], url, source)
                    implies key_lt(rules, n, q) by {
                if q != i0 {
                    assert(rules[q] == d[q]);
                    assert(key_lt(d, i0, q));
                }
            }
            assert(selected(rules, url, source, n));
        } else {
            assert forall|q: int|
                0 <= q < rules.len() && q != i0 && rule_matches(#[trigger] rules[q], url, source)
                    implies key_lt(rules, i0, q) by {
                if q < n {
                    assert(rules[q] == d[q]);
                    assert(key_lt(d, i0, q));
                }
            }
            assert(selected(rules, url, source, i0));
        }
    } else {
        assert(j == n) by {
            if j < n {
                assert(rules[j] == d[j]);
            }
        }
        assert forall|q: int|
            0 <= q < rules.len() && q != n && rule_matches(#[trigger] rules[q], url, source)
                implies key_lt(rules, n, q) by {
            assert(rules[q] == d[q]);
        }
        assert(selected(rules, url, source, n));
    }
}

/// An exact pattern without "://" names one host: an enabled rule with it
/// matches a link exactly when the pattern, trimmed, is not empty and the
/// link's host, in lower case, equals it up to ASCII case. A host of another
/// length, such as one with a further subdomain label, is never matched.
pub proof fn law_exact_pattern_names_one_host(rule: Rule, url: Seq<char>, source: Option<Seq<char>>)
    requires
        rule.enabled,
        rule.pattern is Exact,
        !contains(trim(rule.pattern->Exact_pattern@), scheme_separator()),
    ensures
        rule_matches(rule, url, source) <==> ({
            &&& trim(rule.pattern->Exact_pattern@).len() > 0
            &&& url_host_of(url) is Some
            &&& eq_ascii_ci(
                unicode_lowercase(url_host_of(url)->0),
                trim(rule.pattern->Exact_pattern@),
            )
        }),
        url_host_of(url) is Some && unicode_lowercase(url_host_of(url)->0).len() != trim(
            rule.pattern->Exact_pattern@,
        ).len() ==> !rule_matches(rule, url, source),
{
}

/// A valid domain pattern `d` or `*.d` is compared in lower case: an enabled
/// rule with it matches a link exactly when the link's host, lower-cased, ends
/// with a dot and `d` lower-cased, or (for `d` alone) is `d` lower-cased.
pub proof fn law_domain_pattern_in_lower_case(rule: Rule, url: Seq<char>, source: Option<Seq<char>>)
    requires
        rule.enabled,
        rule.pattern is Domain,
        compile_spec(rule.pattern) is Ok,
    ensures
        ({
            let d = unicode_lowercase(domain_parts(rule.pattern->Domain_pattern@).0);
            let wildcard = domain_parts(rule.pattern->Domain_pattern@).1;
            rule_matches(rule, url, source) <==> match url_host_of(url) {
                Some(h) => {
                    let lh = unicode_lowercase(h);
                    ||| (!wildcard && lh == d)
                    ||| (lh != d && ends_with(lh, seq!['.'] + d))
                },
                None => false,
            }
        }),
{
}

/// Two valid domain patterns whose domains are the same in lower case, both
/// with or both without the `*.` prefix, match the same links: the case of
/// the letters in a domain pattern does not matter.
pub proof fn law_domain_patterns_alike_in_lower_case(
    a: Rule,
    b: Rule,
    url: Seq<char>,
    source: Option<Seq<char>>,
)
    requires
        a.enabled,
        b.enabled,
        a.pattern is Domain,
        b.pattern is Domain,
        compile_spec(a.pattern) is Ok,
        compile_spec(b.pattern) is Ok,
        unicode_lowercase(domain_parts(a.pattern->Domain_pattern@).0) == unicode_lowercase(
            domain_parts(b.pattern->Domain_pattern@).0,
        ),
        domain_parts(a.pattern->Domain_pattern@).1 == domain_parts(b.pattern->Domain_pattern@).1,
    ensures
        rule_matches(a, url, source) == rule_matches(b, url, source),
{
}

/// A disabled rule, or one whose pattern is refused, matches no link.
pub proof fn law_disabled_or_refused_rule_matches_nothing(
    rule: Rule,
    url: Seq<char>,
    source: Option<Seq<char>>,
)
    requires
        !rule.enabled || compile_spec(rule.pattern) is Err,
    ensures
        !rule_matches(rule, url, source),
{
}

/// An exact pattern with "://" names one whole link: an enabled rule with it
/// matches exactly the links whose text equals the trimmed pattern up to
/// ASCII case.
pub proof fn law_exact_pattern_names_one_link(rule: Rule, url: Seq<char>, source: Option<Seq<char>>)
    requires
        rule.enabled,
        rule.pattern is Exact,
        contains(trim(rule.pattern->Exact_pattern@), scheme_separator()),
    ensures
        rule_matches(rule, url, source) <==> eq_ascii_ci(url, trim(rule.pattern->Exact_pattern@)),
{
    let t = trim(rule.pattern->Exact_pattern@);
    reveal_strlit("://");
    let i = choose|i: int| occurs_at(t, scheme_separator(), i);
    assert(t.len() > 0);
}

/// A path pattern is a prefix: trimmed, without one final `*`, and trimmed
/// again at its end. With "://" it is a prefix of the whole link; without,
/// of the link's host in lower case, a slash, and the path without its
/// leading slashes. An enabled rule with a non-empty prefix matches exactly
/// the links that start with it so.
pub proof fn law_path_pattern_is_prefix(rule: Rule, url: Seq<char>, source: Option<Seq<char>>)
    requires
        rule.enabled,
        rule.pattern is Path,
        path_prefix(rule.pattern->Path_pattern@).len() > 0,
    ensures
        ({
            let prefix = path_prefix(rule.pattern->Path_pattern@);
            let host = match url_host_of(url) {
                Some(h) => unicode_lowercase(h),
                None => Seq::empty(),
            };
            let candidate = if contains(prefix, scheme_separator()) {
                url
            } else {
                host + seq!['/'] + strip_start_char(url_path_of(url), '/')
            };
            rule_matches(rule, url, source) <==> starts_with(candidate, prefix)
        }),
{
}

/// A source application pattern names an application, compared in lower
/// case: an enabled rule with it matches exactly the links handed over by an
/// application whose name, lower-cased, is the trimmed pattern lower-cased,
/// and never a link whose source is unknown.
pub proof fn law_source_app_pattern(rule: Rule, url: Seq<char>, source: Option<Seq<char>>)
    requires
        rule.enabled,
        rule.pattern is SourceApp,
    ensures
        rule_matches(rule, url, source) <==> match source {
            Some(s) => unicode_lowercase(s) == unicode_lowercase(
                trim(rule.pattern->SourceApp_app_name@),
            ),
            None => false,
        },
{
}

/// A regular expression pattern is tried on the whole link: an enabled rule
/// with a trimmed pattern that is not empty and that `regex` accepts matches
/// exactly the links on which that expression finds a match.
pub proof fn law_regex_pattern_on_whole_link(rule: Rule, url: Seq<char>, source: Option<Seq<char>>)
    requires
        rule.enabled,
        rule.pattern is Regex,
        trim(rule.pattern->Regex_pattern@).len() > 0,
        regex_compile_outcome(trim(rule.pattern->Regex_pattern@)) is Ok,
    ensures
        rule_matches(rule, url, source) <==> regex_is_match(trim(rule.pattern->Regex_pattern@), url),
{
}

} // verus!

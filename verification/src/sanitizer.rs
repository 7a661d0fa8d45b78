//! Removal of tracking parameters from links.
use vstd::prelude::*;

use crate::link::{
    pairs_view, url_fragment_of, url_host_of, url_path_of, url_port_of, url_query_pairs_of,
    url_scheme_of, url_with_query_pairs, Link,
};
use crate::text::{
    chars_of, ends_with, ends_with_text, lowercase_text, same, starts_with, starts_with_text,
    unicode_lowercase,
};

verus! {

/// Query keys that are dropped whatever their value (compared in lower case).
pub open spec fn tracking_exact(l: Seq<char>) -> bool {
    ||| l == "fbclid"@
    ||| l == "gclid"@
    ||| l == "dclid"@
    ||| l == "msclkid"@
    ||| l == "yclid"@
    ||| l == "igshid"@
    ||| l == "si"@
    ||| l == "spm"@
    ||| l == "cmpid"@
    ||| l == "gclsrc"@
}

/// Query key prefixes that mark a tracking parameter (compared in lower case).
pub open spec fn tracking_prefixed(l: Seq<char>) -> bool {
    ||| starts_with(l, "utm_"@)
    ||| starts_with(l, "ref_"@)
    ||| starts_with(l, "ga_"@)
    ||| starts_with(l, "_ga"@)
    ||| starts_with(l, "mc_"@)
    ||| starts_with(l, "mtm_"@)
}

/// Whether a query key names a tracking parameter; case does not matter.
pub open spec fn is_tracking(key: Seq<char>) -> bool {
    let l = unicode_lowercase(key);
    tracking_exact(l) || tracking_prefixed(l)
}

/// The pairs whose key is not a tracking key, in their order.
pub open spec fn untracked(pairs: Seq<(Seq<char>, Seq<char>)>) -> Seq<(Seq<char>, Seq<char>)>
    decreases pairs.len(),
{
    if pairs.len() == 0 {
        Seq::empty()
    } else {
        let r = untracked(pairs.drop_last());
        if is_tracking(pairs.last().0) {
            r
        } else {
            r.push(pairs.last())
        }
    }
}

/// The link with its query rewritten to hold only the untracked pairs.
pub open spec fn sanitized(url: Seq<char>) -> Seq<char> {
    url_with_query_pairs(url, untracked(url_query_pairs_of(url)))
}

fn lit_eq(l: &Vec<char>, s: &str) -> (b: bool)
    ensures
        b == (l@ == s@),
{
    same(l, &chars_of(s))
}

fn lit_prefix(l: &Vec<char>, s: &str) -> (b: bool)
    ensures
        b == starts_with(l@, s@),
{
    starts_with_text(l, &chars_of(s))
}

/// Whether a query key names a tracking parameter.
pub fn is_tracking_key(key: &str) -> (b: bool)
    ensures
        b == is_tracking(key@),
{
    let lower = lowercase_text(&chars_of(key));
    if lit_eq(&lower, "fbclid") || lit_eq(&lower, "gclid") || lit_eq(&lower, "dclid") || lit_eq(
        &lower,
        "msclkid",
    ) || lit_eq(&lower, "yclid") || lit_eq(&lower, "igshid") || lit_eq(&lower, "si") || lit_eq(
        &lower,
        "spm",
    ) || lit_eq(&lower, "cmpid") || lit_eq(&lower, "gclsrc") {
        return true;
    }
    lit_prefix(&lower, "utm_") || lit_prefix(&lower, "ref_") || lit_prefix(&lower, "ga_")
        || lit_prefix(&lower, "_ga") || lit_prefix(&lower, "mc_") || lit_prefix(&lower, "mtm_")
}

/// The link without its tracking query parameters; the other parameters keep
/// their order, and the scheme, host, port, path and fragment are kept.
/// Cleaning the result again changes nothing.
pub fn sanitize_url(url: &Link) -> (r: Link)
    ensures
        r@ == sanitized(url@),
        url_query_pairs_of(r@) == untracked(url_query_pairs_of(url@)),
        url_scheme_of(r@) == url_scheme_of(url@),
        url_host_of(r@) == url_host_of(url@),
        url_port_of(r@) == url_port_of(url@),
        url_path_of(r@) == url_path_of(url@),
        url_fragment_of(r@) == url_fragment_of(url@),
        sanitized(r@) == r@,
{
    let pairs = url.query_pairs();
    let ghost all = url_query_pairs_of(url@);
    let mut kept: Vec<(String, String)> = Vec::new();
    let mut i: usize = 0;
    while i < pairs.len()
        invariant
            i <= pairs.len(),
            pairs_view(pairs@) == all,
            pairs_view(kept@) == untracked(all.take(i as int)),
        decreases pairs.len() - i,
    {
        let ghost before = pairs_view(kept@);
        assert(all.take(i + 1).drop_last() =~= all.take(i as int));
        assert(all.take(i + 1).last() == all[i as int]);
        let (k, v) = &pairs[i];
        if !is_tracking_key(k.as_str()) {
            kept.push((k.clone(), v.clone()));
            assert(pairs_view(kept@) =~= before.push(all[i as int]));
        }
        i += 1;
    }
    assert(all.take(pairs.len() as int) =~= all);
    let r = url.with_query_pairs(&kept);
    proof {
        law_cleaning_is_idempotent(all);
        assert(url_with_query_pairs(r@, untracked(all)) == url_with_query_pairs(url@, untracked(all)));
    }
    r
}

/// The host of a link, in lower case, or nothing.
pub open spec fn short_host(url: Seq<char>) -> Seq<char> {
    match url_host_of(url) {
        Some(h) => unicode_lowercase(h),
        None => unicode_lowercase(Seq::empty()),
    }
}

/// Whether the link points at a known link shortener.
pub open spec fn is_short(url: Seq<char>) -> bool {
    let d = short_host(url);
    d == "t.co"@ || d == "bit.ly"@ || d == "tinyurl.com"@ || ends_with(d, "tiny.cc"@)
}

/// Whether the link points at a known link shortener.
pub fn is_short_url(url: &Link) -> (b: bool)
    ensures
        b == is_short(url@),
{
    let host = match url.host_str() {
        Some(h) => chars_of(h.as_str()),
        None => Vec::new(),
    };
    let domain = lowercase_text(&host);
    lit_eq(&domain, "t.co") || lit_eq(&domain, "bit.ly") || lit_eq(&domain, "tinyurl.com")
        || ends_with_text(&domain, &chars_of("tiny.cc"))
}

} // verus!

verus! {

/// Whether the pair's key is not a tracking key.
pub open spec fn kept_pair(kv: (Seq<char>, Seq<char>)) -> bool {
    !is_tracking(kv.0)
}

/// Cleaning keeps exactly the pairs whose key is not a tracking key, in
/// their order: no tracking key is left, and no other pair is lost.
pub proof fn law_cleaning_keeps_legitimate_pairs(pairs: Seq<(Seq<char>, Seq<char>)>)
    ensures
        untracked(pairs) == pairs.filter(|kv: (Seq<char>, Seq<char>)| kept_pair(kv)),
        forall|k: int| 0 <= k < untracked(pairs).len() ==> !is_tracking((#[trigger] untracked(pairs)[k]).0),
    decreases pairs.len(),
{
    reveal(Seq::filter);
    if pairs.len() > 0 {
        law_cleaning_keeps_legitimate_pairs(pairs.drop_last());
        let r = untracked(pairs.drop_last());
        if !is_tracking(pairs.last().0) {
            assert forall|k: int| 0 <= k < r.push(pairs.last()).len() implies !is_tracking(
                (#[trigger] r.push(pairs.last())[k]).0,
            ) by {
                if k < r.len() {
                    assert(r.push(pairs.last())[k] == r[k]);
                }
            }
        }
    }
}

/// Cleaning twice is cleaning once.
pub proof fn law_cleaning_is_idempotent(pairs: Seq<(Seq<char>, Seq<char>)>)
    ensures
        untracked(untracked(pairs)) == untracked(pairs),
    decreases pairs.len(),
{
    if pairs.len() > 0 {
        let d = pairs.drop_last();
        law_cleaning_is_idempotent(d);
        if !is_tracking(pairs.last().0) {
            let r = untracked(d);
            assert(r.push(pairs.last()).drop_last() =~= r);
        }
    }
}

/// The tracking keys: a query key is a tracking key exactly when, in lower
/// case, it is one of fbclid, gclid, dclid, msclkid, yclid, igshid, si, spm,
/// cmpid and gclsrc, or begins with utm_, ref_, ga_, _ga, mc_ or mtm_.
pub proof fn law_tracking_keys(key: Seq<char>)
    ensures
        unicode_lowercase(key) == "fbclid"@ ==> is_tracking(key),
        unicode_lowercase(key) == "gclid"@ ==> is_tracking(key),
        unicode_lowercase(key) == "dclid"@ ==> is_tracking(key),
        unicode_lowercase(key) == "msclkid"@ ==> is_tracking(key),
        unicode_lowercase(key) == "yclid"@ ==> is_tracking(key),
        unicode_lowercase(key) == "igshid"@ ==> is_tracking(key),
        unicode_lowercase(key) == "si"@ ==> is_tracking(key),
        unicode_lowercase(key) == "spm"@ ==> is_tracking(key),
        unicode_lowercase(key) == "cmpid"@ ==> is_tracking(key),
        unicode_lowercase(key) == "gclsrc"@ ==> is_tracking(key),
        starts_with(unicode_lowercase(key), "utm_"@) ==> is_tracking(key),
        starts_with(unicode_lowercase(key), "ref_"@) ==> is_tracking(key),
        starts_with(unicode_lowercase(key), "ga_"@) ==> is_tracking(key),
        starts_with(unicode_lowercase(key), "_ga"@) ==> is_tracking(key),
        starts_with(unicode_lowercase(key), "mc_"@) ==> is_tracking(key),
        starts_with(unicode_lowercase(key), "mtm_"@) ==> is_tracking(key),
        is_tracking(key) ==> {
            let l = unicode_lowercase(key);
            ||| l == "fbclid"@ || l == "gclid"@ || l == "dclid"@ || l == "msclkid"@
            ||| l == "yclid"@ || l == "igshid"@ || l == "si"@ || l == "spm"@
            ||| l == "cmpid"@ || l == "gclsrc"@
            ||| starts_with(l, "utm_"@) || starts_with(l, "ref_"@) || starts_with(l, "ga_"@)
            ||| starts_with(l, "_ga"@) || starts_with(l, "mc_"@) || starts_with(l, "mtm_"@)
        },
{
}

/// A pair whose key is a tracking key does not survive cleaning.
pub proof fn law_tracking_pair_removed(pairs: Seq<(Seq<char>, Seq<char>)>, k: int)
    requires
        0 <= k < pairs.len(),
        is_tracking(pairs[k].0),
    ensures
        !untracked(pairs).contains(pairs[k]),
{
    law_cleaning_keeps_legitimate_pairs(pairs);
    if untracked(pairs).contains(pairs[k]) {
        let j = choose|j: int| 0 <= j < untracked(pairs).len() && untracked(pairs)[j] == pairs[k];
        assert(!is_tracking(untracked(pairs)[j].0));
    }
}

/// The link shorteners: a link is a short link exactly when its host, in
/// lower case, is t.co, bit.ly or tinyurl.com, or ends with tiny.cc.
pub proof fn law_short_hosts(url: Seq<char>)
    ensures
        short_host(url) == "t.co"@ ==> is_short(url),
        short_host(url) == "bit.ly"@ ==> is_short(url),
        short_host(url) == "tinyurl.com"@ ==> is_short(url),
        ends_with(short_host(url), "tiny.cc"@) ==> is_short(url),
        is_short(url) ==> {
            let d = short_host(url);
            d == "t.co"@ || d == "bit.ly"@ || d == "tinyurl.com"@ || ends_with(d, "tiny.cc"@)
        },
{
}

} // verus!

//! What holds of every profile list that a detector returns: one profile
//! per id, the first one found, and ids in increasing order.
use vstd::prelude::*;

use crate::detectors::assemble::{
    dedup_spec, finish_spec, has_id, id_seen_before, insert_by_id, sort_by_id, text_lt,
};
use crate::detectors::common::{insert_by_rank, rank_gt, rank_spec, sort_by_rank};
use crate::domain::ProfileView;

verus! {

broadcast use vstd::seq_lib::group_to_multiset_ensures;

proof fn lemma_text_lt_irreflexive(a: Seq<char>)
    ensures
        !text_lt(a, a),
    decreases a.len(),
{
    if a.len() > 0 {
        lemma_text_lt_irreflexive(a.drop_first());
    }
}

proof fn lemma_text_lt_transitive(a: Seq<char>, b: Seq<char>, c: Seq<char>)
    requires
        text_lt(a, b),
        text_lt(b, c),
    ensures
        text_lt(a, c),
    decreases a.len(),
{
    if a.len() > 0 && a[0] == b[0] && b[0] == c[0] {
        lemma_text_lt_transitive(a.drop_first(), b.drop_first(), c.drop_first());
    }
}

proof fn lemma_text_lt_total(a: Seq<char>, b: Seq<char>)
    requires
        a != b,
    ensures
        text_lt(a, b) || text_lt(b, a),
    decreases a.len(),
{
    if a.len() > 0 && b.len() > 0 && a[0] == b[0] {
        if a.drop_first() == b.drop_first() {
            assert(a =~= seq![a[0]] + a.drop_first());
            assert(b =~= seq![b[0]] + b.drop_first());
        }
        lemma_text_lt_total(a.drop_first(), b.drop_first());
    } else if a.len() == 0 && b.len() == 0 {
        assert(a =~= b);
    }
}

/// Ids increase from each profile to the next; so no id occurs twice.
pub open spec fn ids_increasing(s: Seq<ProfileView>) -> bool {
    forall|a: int, b: int| 0 <= a < b < s.len() ==> text_lt((#[trigger] s[a]).id, (#[trigger] s[b]).id)
}

/// No id occurs twice.
pub open spec fn ids_distinct(s: Seq<ProfileView>) -> bool {
    forall|a: int, b: int| 0 <= a < b < s.len() ==> (#[trigger] s[a]).id != (#[trigger] s[b]).id
}

proof fn lemma_insert_by_id(s: Seq<ProfileView>, x: ProfileView)
    requires
        ids_increasing(s),
        !has_id(s, x.id),
    ensures
        ids_increasing(insert_by_id(s, x)),
        insert_by_id(s, x).to_multiset() == s.to_multiset().insert(x),
    decreases s.len(),
{
    if s.len() == 0 {
        assert(seq![x] =~= Seq::<ProfileView>::empty().push(x));
    } else {
        let n = s.len() - 1;
        let last = s[n];
        let d = s.drop_last();
        assert(s =~= d.push(last));
        if text_lt(x.id, last.id) {
            assert(ids_increasing(d));
            assert(!has_id(d, x.id)) by {
                if has_id(d, x.id) {
                    let q = choose|q: int| 0 <= q < d.len() && (#[trigger] d[q]).id == x.id;
                    assert(s[q].id == x.id);
                }
            }
            lemma_insert_by_id(d, x);
            let r = insert_by_id(d, x);
            assert forall|k: int| 0 <= k < r.len() implies text_lt((#[trigger] r[k]).id, last.id) by {
                assert(r.to_multiset().count(r[k]) > 0);
                if r[k] != x {
                    assert(d.to_multiset().insert(x).count(r[k]) > 0);
                    assert(d.to_multiset().count(r[k]) > 0);
                    assert(d.contains(r[k]));
                    let q = choose|q: int| 0 <= q < d.len() && d[q] == r[k];
                    assert(s[q] == d[q]);
                }
            }
            let t = r.push(last);
            assert forall|a: int, b: int| 0 <= a < b < t.len() implies text_lt(
                (#[trigger] t[a]).id,
                (#[trigger] t[b]).id,
            ) by {
                if b == r.len() {
                    assert(t[a] == r[a]);
                } else {
                    assert(t[a] == r[a] && t[b] == r[b]);
                }
            }
            assert(t.to_multiset() =~= s.to_multiset().insert(x));
        } else {
            assert(last.id != x.id);
            lemma_text_lt_total(x.id, last.id);
            let t = s.push(x);
            assert forall|a: int, b: int| 0 <= a < b < t.len() implies text_lt(
                (#[trigger] t[a]).id,
                (#[trigger] t[b]).id,
            ) by {
                if b == s.len() {
                    if a < n {
                        assert(text_lt(s[a].id, s[n].id));
                        lemma_text_lt_transitive(s[a].id, last.id, x.id);
                    }
                }
            }
        }
    }
}

proof fn lemma_sort_by_id(s: Seq<ProfileView>)
    requires
        ids_distinct(s),
    ensures
        ids_increasing(sort_by_id(s)),
        sort_by_id(s).to_multiset() == s.to_multiset(),
    decreases s.len(),
{
    if s.len() == 0 {
        assert(sort_by_id(s) =~= s);
    } else {
        let n = s.len() - 1;
        let d = s.drop_last();
        assert(ids_distinct(d));
        lemma_sort_by_id(d);
        let sd = sort_by_id(d);
        assert(!has_id(sd, s[n].id)) by {
            if has_id(sd, s[n].id) {
                let k = choose|k: int| 0 <= k < sd.len() && (#[trigger] sd[k]).id == s[n].id;
                assert(sd.to_multiset().count(sd[k]) > 0);
                assert(d.to_multiset().count(sd[k]) > 0);
                assert(d.contains(sd[k]));
                let q = choose|q: int| 0 <= q < d.len() && d[q] == sd[k];
                assert(s[q] == d[q]);
            }
        }
        lemma_insert_by_id(sd, s[n]);
        assert(s =~= d.push(s[n]));
    }
}

/// Profile `j` of `s` is the first with its id.
pub open spec fn first_of_its_id(s: Seq<ProfileView>, j: int) -> bool {
    0 <= j < s.len() && !id_seen_before(s, j)
}

proof fn lemma_dedup(s: Seq<ProfileView>)
    ensures
        ids_distinct(dedup_spec(s)),
        forall|k: int|
            0 <= k < dedup_spec(s).len() ==> exists|j: int|
                first_of_its_id(s, j) && s[j] == #[trigger] dedup_spec(s)[k],
        forall|j: int| 0 <= j < s.len() ==> has_id(dedup_spec(s), (#[trigger] s[j]).id),
    decreases s.len(),
{
    if s.len() > 0 {
        let n = s.len() - 1;
        let d = s.drop_last();
        lemma_dedup(d);
        let dd = dedup_spec(d);
        assert forall|j: int| 0 <= j < d.len() implies id_seen_before(d, j) == id_seen_before(s, j) by {
            if id_seen_before(s, j) {
                let q = choose|q: int| 0 <= q < j && (#[trigger] s[q]).id == s[j].id;
                assert(d[q] == s[q]);
            }
            if id_seen_before(d, j) {
                let q = choose|q: int| 0 <= q < j && (#[trigger] d[q]).id == d[j].id;
                assert(d[q] == s[q]);
            }
        }
        if id_seen_before(s, n) {
            assert(dedup_spec(s) == dd);
            assert forall|k: int| 0 <= k < dd.len() implies exists|j: int|
                first_of_its_id(s, j) && s[j] == #[trigger] dd[k] by {
                let j = choose|j: int| first_of_its_id(d, j) && d[j] == dd[k];
                assert(s[j] == d[j]);
            }
            assert forall|j: int| 0 <= j < s.len() implies has_id(dd, (#[trigger] s[j]).id) by {
                if j < n {
                    assert(d[j] == s[j]);
                    assert(has_id(dd, d[j].id));
                } else {
                    let q = choose|q: int| 0 <= q < n && (#[trigger] s[q]).id == s[n].id;
                    assert(d[q] == s[q]);
                    assert(has_id(dd, d[q].id));
                }
            }
        } else {
            let r = dd.push(s[n]);
            assert(dedup_spec(s) == r);
            assert forall|k: int| 0 <= k < dd.len() implies (#[trigger] dd[k]).id != s[n].id by {
                let j = choose|j: int| first_of_its_id(d, j) && d[j] == dd[k];
                assert(s[j] == d[j]);
                if dd[k].id == s[n].id {
                    assert(id_seen_before(s, n));
                }
            }
            assert forall|a: int, b: int| 0 <= a < b < r.len() implies (#[trigger] r[a]).id != (
            #[trigger] r[b]).id by {
                if b == dd.len() {
                    assert(r[a] == dd[a]);
                } else {
                    assert(r[a] == dd[a] && r[b] == dd[b]);
                }
            }
            assert forall|k: int| 0 <= k < r.len() implies exists|j: int|
                first_of_its_id(s, j) && s[j] == #[trigger] r[k] by {
                if k < dd.len() {
                    let j = choose|j: int| first_of_its_id(d, j) && d[j] == dd[k];
                    assert(s[j] == d[j]);
                    assert(r[k] == dd[k]);
                } else {
                    assert(first_of_its_id(s, n));
                }
            }
            assert forall|j: int| 0 <= j < s.len() implies has_id(r, (#[trigger] s[j]).id) by {
                if j < n {
                    assert(d[j] == s[j]);
                    assert(has_id(dd, d[j].id));
                    let q = choose|q: int| 0 <= q < dd.len() && (#[trigger] dd[q]).id == d[j].id;
                    assert(r[q] == dd[q]);
                } else {
                    assert(r[dd.len() as int] == s[n]);
                }
            }
        }
    }
}

/// Every detector's result holds one profile per id, ids in increasing
/// order; each profile is the first found with its id, and every id found is
/// kept.
pub proof fn law_detected_profiles_unique_and_ordered(found: Seq<ProfileView>)
    ensures
        ids_increasing(finish_spec(found)),
        forall|k: int|
            0 <= k < finish_spec(found).len() ==> exists|j: int|
                first_of_its_id(found, j) && found[j] == #[trigger] finish_spec(found)[k],
        forall|j: int| 0 <= j < found.len() ==> has_id(finish_spec(found), (#[trigger] found[j]).id),
{
    lemma_dedup(found);
    let dd = dedup_spec(found);
    lemma_sort_by_id(dd);
    let f = finish_spec(found);
    assert forall|k: int| 0 <= k < f.len() implies exists|j: int|
        first_of_its_id(found, j) && found[j] == #[trigger] f[k] by {
        assert(f.to_multiset().count(f[k]) > 0);
        assert(dd.to_multiset().count(f[k]) > 0);
        assert(dd.contains(f[k]));
        let q = choose|q: int| 0 <= q < dd.len() && dd[q] == f[k];
        assert(exists|j: int| first_of_its_id(found, j) && found[j] == dd[q]);
    }
    assert forall|j: int| 0 <= j < found.len() implies has_id(f, (#[trigger] found[j]).id) by {
        assert(has_id(dd, found[j].id));
        let q = choose|q: int| 0 <= q < dd.len() && (#[trigger] dd[q]).id == found[j].id;
        assert(dd.to_multiset().count(dd[q]) > 0);
        assert(f.to_multiset().count(dd[q]) > 0);
        assert(f.contains(dd[q]));
        let k = choose|k: int| 0 <= k < f.len() && f[k] == dd[q];
        assert(f[k].id == found[j].id);
    }
}

/// No two profiles of a detector's result share an id.
pub proof fn law_detected_ids_distinct(found: Seq<ProfileView>)
    ensures
        ids_distinct(finish_spec(found)),
{
    law_detected_profiles_unique_and_ordered(found);
    let f = finish_spec(found);
    assert forall|a: int, b: int| 0 <= a < b < f.len() implies (#[trigger] f[a]).id != (
    #[trigger] f[b]).id by {
        if f[a].id == f[b].id {
            lemma_text_lt_irreflexive(f[a].id);
        }
    }
}

/// Chromium profiles ordered by the rank of their directory: none ranks
/// above one that follows it.
pub open spec fn by_rank(s: Seq<(Seq<char>, Seq<char>)>) -> bool {
    forall|a: int, b: int|
        0 <= a < b < s.len() ==> !rank_gt(rank_spec((#[trigger] s[a]).0), rank_spec((#[trigger] s[b]).0))
}

proof fn lemma_insert_by_rank(s: Seq<(Seq<char>, Seq<char>)>, x: (Seq<char>, Seq<char>))
    requires
        by_rank(s),
    ensures
        by_rank(insert_by_rank(s, x)),
        insert_by_rank(s, x).to_multiset() == s.to_multiset().insert(x),
    decreases s.len(),
{
    if s.len() == 0 {
        assert(seq![x] =~= Seq::<(Seq<char>, Seq<char>)>::empty().push(x));
    } else {
        let n = s.len() - 1;
        let last = s[n];
        let d = s.drop_last();
        assert(s =~= d.push(last));
        if rank_gt(rank_spec(last.0), rank_spec(x.0)) {
            assert(by_rank(d));
            lemma_insert_by_rank(d, x);
            let r = insert_by_rank(d, x);
            assert forall|k: int| 0 <= k < r.len() implies !rank_gt(
                rank_spec((#[trigger] r[k]).0),
                rank_spec(last.0),
            ) by {
                assert(r.to_multiset().count(r[k]) > 0);
                if r[k] != x {
                    assert(d.to_multiset().insert(x).count(r[k]) > 0);
                    assert(d.to_multiset().count(r[k]) > 0);
                    assert(d.contains(r[k]));
                    let q = choose|q: int| 0 <= q < d.len() && d[q] == r[k];
                    assert(s[q] == d[q]);
                }
            }
            let t = r.push(last);
            assert forall|a: int, b: int| 0 <= a < b < t.len() implies !rank_gt(
                rank_spec((#[trigger] t[a]).0),
                rank_spec((#[trigger] t[b]).0),
            ) by {
                if b == r.len() {
                    assert(t[a] == r[a]);
                } else {
                    assert(t[a] == r[a] && t[b] == r[b]);
                }
            }
            assert(t.to_multiset() =~= s.to_multiset().insert(x));
        } else {
            let t = s.push(x);
            assert forall|a: int, b: int| 0 <= a < b < t.len() implies !rank_gt(
                rank_spec((#[trigger] t[a]).0),
                rank_spec((#[trigger] t[b]).0),
            ) by {
                if b == s.len() && a < n {
                    assert(!rank_gt(rank_spec(s[a].0), rank_spec(s[n].0)));
                }
            }
        }
    }
}

/// Chromium profiles are listed `Default` first, then `Profile N` by `N`,
/// then the others; the list holds the profiles given, each as often.
pub proof fn law_chromium_profiles_ranked(s: Seq<(Seq<char>, Seq<char>)>)
    ensures
        by_rank(sort_by_rank(s)),
        sort_by_rank(s).to_multiset() == s.to_multiset(),
    decreases s.len(),
{
    if s.len() == 0 {
        assert(sort_by_rank(s) =~= s);
    } else {
        let d = s.drop_last();
        law_chromium_profiles_ranked(d);
        lemma_insert_by_rank(sort_by_rank(d), s.last());
        assert(s =~= d.push(s.last()));
    }
}

} // verus!

//! The last step of every detector: one profile per id, ordered by id.
use vstd::prelude::*;

use crate::domain::{profiles_view, BrowserProfile, ProfileView};

verus! {

/// `a` sorts before `b`: compared character by character, a proper prefix first.
pub open spec fn text_lt(a: Seq<char>, b: Seq<char>) -> bool
    decreases a.len(),
{
    if a.len() == 0 {
        b.len() > 0
    } else if b.len() == 0 {
        false
    } else if a[0] != b[0] {
        a[0] < b[0]
    } else {
        text_lt(a.drop_first(), b.drop_first())
    }
}

/// Whether `a` sorts before `b`.
pub fn text_less(a: &str, b: &str) -> (r: bool)
    ensures
        r == text_lt(a@, b@),
{
    let x = crate::text::chars_of(a);
    let y = crate::text::chars_of(b);
    let mut i: usize = 0;
    assert(x@.skip(0) =~= x@);
    assert(y@.skip(0) =~= y@);
    while i < x.len() && i < y.len() && x[i] == y[i]
        invariant
            i <= x.len(),
            i <= y.len(),
            text_lt(x@, y@) == text_lt(x@.skip(i as int), y@.skip(i as int)),
        decreases x.len() - i,
    {
        assert(x@.skip(i as int).drop_first() =~= x@.skip(i + 1));
        assert(y@.skip(i as int).drop_first() =~= y@.skip(i + 1));
        i += 1;
    }
    if i == x.len() {
        i < y.len()
    } else if i == y.len() {
        false
    } else {
        x[i] < y[i]
    }
}

/// Whether an earlier profile has the id of profile `i`.
pub open spec fn id_seen_before(s: Seq<ProfileView>, i: int) -> bool {
    exists|j: int| 0 <= j < i && (#[trigger] s[j]).id == s[i].id
}

/// The profiles without those whose id an earlier profile has.
pub open spec fn dedup_spec(s: Seq<ProfileView>) -> Seq<ProfileView>
    decreases s.len(),
{
    if s.len() == 0 {
        Seq::empty()
    } else if id_seen_before(s, s.len() - 1) {
        dedup_spec(s.drop_last())
    } else {
        dedup_spec(s.drop_last()).push(s.last())
    }
}

/// `x` placed after every element whose id does not sort after its own.
pub open spec fn insert_by_id(s: Seq<ProfileView>, x: ProfileView) -> Seq<ProfileView>
    decreases s.len(),
{
    if s.len() == 0 {
        seq![x]
    } else if text_lt(x.id, s.last().id) {
        insert_by_id(s.drop_last(), x).push(s.last())
    } else {
        s.push(x)
    }
}

/// The profiles sorted by id, stably.
pub open spec fn sort_by_id(s: Seq<ProfileView>) -> Seq<ProfileView>
    decreases s.len(),
{
    if s.len() == 0 {
        Seq::empty()
    } else {
        insert_by_id(sort_by_id(s.drop_last()), s.last())
    }
}

/// One profile per id, the first given, ordered by id.
pub open spec fn finish_spec(s: Seq<ProfileView>) -> Seq<ProfileView> {
    sort_by_id(dedup_spec(s))
}

pub open spec fn has_id(s: Seq<ProfileView>, id: Seq<char>) -> bool {
    exists|q: int| 0 <= q < s.len() && (#[trigger] s[q]).id == id
}

fn find_id(out: &Vec<BrowserProfile>, id: &str) -> (r: bool)
    ensures
        r == has_id(profiles_view(out@), id@),
{
    let mut q: usize = 0;
    while q < out.len()
        invariant
            q <= out.len(),
            forall|r: int| 0 <= r < q ==> (#[trigger] out@[r]).id@ != id@,
        decreases out.len() - q,
    {
        if text_eq(out[q].id.as_str(), id) {
            assert(profiles_view(out@)[q as int].id == id@);
            return true;
        }
        q += 1;
    }
    assert forall|r: int| 0 <= r < out.len() implies (#[trigger] profiles_view(out@)[r]).id != id@ by {
        assert(profiles_view(out@)[r].id == out@[r].id@);
    }
    false
}

/// The profiles with one profile per id, the first of each, in their order.
pub fn dedup(profiles: Vec<BrowserProfile>) -> (r: Vec<BrowserProfile>)
    ensures
        profiles_view(r@) == dedup_spec(profiles_view(profiles@)),
{
    let ghost input = profiles_view(profiles@);
    let mut out: Vec<BrowserProfile> = Vec::new();
    let mut i: usize = 0;
    assert(input.take(0) =~= Seq::<ProfileView>::empty());
    while i < profiles.len()
        invariant
            i <= profiles.len(),
            input == profiles_view(profiles@),
            profiles_view(out@) == dedup_spec(input.take(i as int)),
            forall|q: int|
                0 <= q < out.len() ==> has_id(input.take(i as int), #[trigger] profiles_view(out@)[q].id),
            forall|j: int| 0 <= j < i ==> has_id(profiles_view(out@), #[trigger] input[j].id),
        decreases profiles.len() - i,
    {
        let ghost t = input.take(i + 1);
        let ghost ov = profiles_view(out@);
        assert(t.drop_last() =~= input.take(i as int));
        assert(t.last() == input[i as int]);
        let seen = find_id(&out, profiles[i].id.as_str());
        proof {
            if seen {
                let q = choose|q: int| 0 <= q < ov.len() && ov[q].id == input[i as int].id;
                assert(has_id(input.take(i as int), ov[q].id));
                let j = choose|j: int| 0 <= j < i && input.take(i as int)[j].id == ov[q].id;
                assert(t[j].id == t[i as int].id);
                assert(id_seen_before(t, i as int));
            } else {
                if id_seen_before(t, i as int) {
                    let j = choose|j: int| 0 <= j < i && t[j].id == t[i as int].id;
                    assert(has_id(ov, input[j].id));
                }
            }
        }
        if !seen {
            let p = profiles[i].clone();
            out.push(p);
            assert(profiles_view(out@) =~= ov.push(input[i as int]));
        }
        proof {
            let nv = profiles_view(out@);
            assert forall|q: int| 0 <= q < out.len() implies has_id(t, #[trigger] nv[q].id) by {
                if q < ov.len() {
                    assert(nv[q] == ov[q]);
                    let j = choose|j: int| 0 <= j < i && input.take(i as int)[j].id == ov[q].id;
                    assert(t[j] == input.take(i as int)[j]);
                } else {
                    assert(t[i as int].id == nv[q].id);
                }
            }
            assert forall|j: int| 0 <= j < i + 1 implies has_id(nv, #[trigger] input[j].id) by {
                if j < i {
                    let q = choose|q: int| 0 <= q < ov.len() && ov[q].id == input[j].id;
                    assert(nv[q] == ov[q]);
                } else if !seen {
                    assert(nv[ov.len() as int] == input[i as int]);
                }
            }
        }
        i += 1;
    }
    assert(input.take(profiles.len() as int) =~= input);
    out
}

fn text_eq(a: &str, b: &str) -> (r: bool)
    ensures
        r == (a@ == b@),
{
    crate::text::same(&crate::text::chars_of(a), &crate::text::chars_of(b))
}

proof fn lemma_insert_by_id_at(s: Seq<ProfileView>, x: ProfileView, p: int)
    requires
        0 <= p <= s.len(),
        forall|q: int| p <= q < s.len() ==> text_lt(x.id, (#[trigger] s[q]).id),
        p > 0 ==> !text_lt(x.id, s[p - 1].id),
    ensures
        insert_by_id(s, x) == s.insert(p, x),
    decreases s.len() - p,
{
    if p == s.len() {
        if s.len() == 0 {
            assert(s.insert(0, x) =~= seq![x]);
        } else {
            assert(s.insert(p, x) =~= s.push(x));
        }
    } else {
        let s0 = s.drop_last();
        assert forall|q: int| p <= q < s0.len() implies text_lt(x.id, (#[trigger] s0[q]).id) by {
            assert(s0[q] == s[q]);
        }
        if p > 0 {
            assert(s0[p - 1] == s[p - 1]);
        }
        lemma_insert_by_id_at(s0, x, p);
        assert(s0.insert(p, x).push(s.last()) =~= s.insert(p, x));
    }
}

/// The profiles sorted by id, stably.
pub fn sort_profiles_by_id(profiles: Vec<BrowserProfile>) -> (r: Vec<BrowserProfile>)
    ensures
        profiles_view(r@) == sort_by_id(profiles_view(profiles@)),
{
    let ghost input = profiles_view(profiles@);
    let mut out: Vec<BrowserProfile> = Vec::new();
    let mut i: usize = 0;
    assert(input.take(0) =~= Seq::<ProfileView>::empty());
    while i < profiles.len()
        invariant
            i <= profiles.len(),
            input == profiles_view(profiles@),
            profiles_view(out@) == sort_by_id(input.take(i as int)),
        decreases profiles.len() - i,
    {
        let x = profiles[i].clone();
        let ghost sv = profiles_view(out@);
        let mut p: usize = out.len();
        while p > 0 && text_less(x.id.as_str(), out[p - 1].id.as_str())
            invariant
                p <= out.len(),
                sv == profiles_view(out@),
                forall|q: int| p <= q < sv.len() ==> text_lt(x@.id, (#[trigger] sv[q]).id),
            decreases p,
        {
            assert(sv[p - 1].id == out@[p - 1].id@);
            p -= 1;
        }
        proof {
            if p > 0 {
                assert(sv[p - 1].id == out@[p - 1].id@);
            }
            lemma_insert_by_id_at(sv, x@, p as int);
            assert(input.take(i + 1).drop_last() =~= input.take(i as int));
            assert(input.take(i + 1).last() == x@);
        }
        let ghost xv = x@;
        out.insert(p, x);
        assert(profiles_view(out@) =~= sv.insert(p as int, xv));
        i += 1;
    }
    assert(input.take(profiles.len() as int) =~= input);
    out
}

/// One profile per id, the first given, ordered by id.
pub fn finish_profiles(profiles: Vec<BrowserProfile>) -> (r: Vec<BrowserProfile>)
    ensures
        profiles_view(r@) == finish_spec(profiles_view(profiles@)),
{
    sort_profiles_by_id(dedup(profiles))
}

} // verus!

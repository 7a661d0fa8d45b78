//! Laws of the `mimeapps.list` editing.
use vstd::prelude::*;

use crate::mimeapps::{
    add_association_spec, added_header, default_header, ensure_header_spec, entry_index,
    eq_index, first_entry, first_header, has_entry, has_header, header_index, in_section,
    is_bracket, is_default_lines, is_default_spec, is_entry, key_of, lemma_first_entry_unique,
    lemma_first_header_unique, lemma_first_index_unique, lemma_header_ensured, list_sep, lists,
    pair_line, scheme_key_spec, set_pair_spec, trims, upsert_spec, value_of,
};
use crate::text::{
    ends_with, first_index, has_char, is_ws, join, lines, split_char, strip_cr, strip_crs, trim,
    trim_end, trim_start,
};

verus! {

/// `in_section` at line `i` depends only on the lines before `i`.
pub proof fn lemma_in_section_prefix(a: Seq<Seq<char>>, b: Seq<Seq<char>>, i: int, h: Seq<char>)
    requires
        0 <= i <= a.len(),
        i <= b.len(),
        forall|q: int| 0 <= q < i ==> a[q] == b[q],
    ensures
        in_section(a, i, h) == in_section(b, i, h),
    decreases i,
{
    if i > 0 {
        lemma_in_section_prefix(a, b, i - 1, h);
    }
}

/// Inserting a line that is not a section header shifts the section of the
/// lines after it and changes nothing else.
pub proof fn lemma_in_section_insert(ts: Seq<Seq<char>>, p: int, x: Seq<char>, h: Seq<char>, j: int)
    requires
        0 <= p <= ts.len(),
        !is_bracket(x),
        p < j <= ts.len() + 1,
    ensures
        in_section(ts.insert(p, x), j, h) == in_section(ts, j - 1, h),
    decreases j,
{
    let n = ts.insert(p, x);
    if j == p + 1 {
        lemma_in_section_prefix(n, ts, p, h);
    } else {
        assert(n[j - 1] == ts[j - 2]);
        lemma_in_section_insert(ts, p, x, h, j - 1);
    }
}

/// Replacing a line that is not a section header with another such line
/// changes no line's section.
pub proof fn lemma_in_section_update(ts: Seq<Seq<char>>, p: int, x: Seq<char>, h: Seq<char>, j: int)
    requires
        0 <= p < ts.len(),
        !is_bracket(x),
        !is_bracket(ts[p]),
        0 <= j <= ts.len(),
    ensures
        in_section(ts.update(p, x), j, h) == in_section(ts, j, h),
    decreases j,
{
    if j > 0 {
        lemma_in_section_update(ts, p, x, h, j - 1);
    }
}

/// A line lies in at most one section.
pub proof fn lemma_one_section(ts: Seq<Seq<char>>, i: int, h1: Seq<char>, h2: Seq<char>)
    requires
        in_section(ts, i, h1),
        in_section(ts, i, h2),
    ensures
        h1 == h2,
    decreases i,
{
    if i > 0 && !is_bracket(ts[i - 1]) {
        lemma_one_section(ts, i - 1, h1, h2);
    }
}

pub proof fn lemma_trims_update(ls: Seq<Seq<char>>, i: int, x: Seq<char>)
    requires
        0 <= i < ls.len(),
    ensures
        trims(ls.update(i, x)) == trims(ls).update(i, trim(x)),
{
    assert(trims(ls.update(i, x)) =~= trims(ls).update(i, trim(x)));
}

pub proof fn lemma_trims_insert(ls: Seq<Seq<char>>, i: int, x: Seq<char>)
    requires
        0 <= i <= ls.len(),
    ensures
        trims(ls.insert(i, x)) == trims(ls).insert(i, trim(x)),
{
    assert(trims(ls.insert(i, x)) =~= trims(ls).insert(i, trim(x)));
}

/// The key and value of a line written as `key=value`.
pub proof fn lemma_pair_line_parts(k: Seq<char>, v: Seq<char>)
    requires
        !has_char(k, '='),
        trim(k) == k,
    ensures
        key_of(pair_line(k, v)) == Some(k),
        value_of(pair_line(k, v)) == trim(v),
{
    let pl = pair_line(k, v);
    assert(pl[k.len() as int] == '=');
    assert forall|j: int| 0 <= j < k.len() implies pl[j] != '=' by {
        assert(pl[j] == k[j]);
    }
    assert(first_index(pl, '=', k.len() as int));
    assert(has_char(pl, '='));
    lemma_first_index_unique(pl, '=', k.len() as int, eq_index(pl));
    assert(pl.take(k.len() as int) =~= k);
    assert(pl.skip(k.len() + 1int) =~= v);
}

pub proof fn lemma_trim_start_nonws(s: Seq<char>)
    requires
        s.len() > 0,
        !is_ws(s[0]),
    ensures
        trim_start(s) == s,
{
}

pub proof fn lemma_trim_end_nonws(s: Seq<char>)
    requires
        s.len() > 0,
        !is_ws(s.last()),
    ensures
        trim_end(s) == s,
{
}

pub proof fn lemma_trim_end_len(s: Seq<char>)
    ensures
        trim_end(s).len() <= s.len(),
    decreases s.len(),
{
    if s.len() > 0 && is_ws(s.last()) {
        lemma_trim_end_len(s.drop_last());
    }
}

/// A `key=value` line with a key that starts, and a value that ends, with a
/// visible character is its own trim.
pub proof fn lemma_pair_line_trimmed(k: Seq<char>, v: Seq<char>)
    requires
        k.len() > 0,
        !is_ws(k[0]),
        v.len() > 0 ==> !is_ws(v.last()),
    ensures
        trim(pair_line(k, v)) == pair_line(k, v),
{
    let pl = pair_line(k, v);
    assert(pl[0] == k[0]);
    lemma_trim_start_nonws(pl);
    if v.len() > 0 {
        assert(pl.last() == v.last());
    } else {
        assert(pl.last() == '=');
    }
    lemma_trim_end_nonws(pl);
}

/// Dropping one trailing white-space character does not change the trim.
pub proof fn lemma_trim_drop_last_ws(s: Seq<char>)
    requires
        s.len() > 0,
        is_ws(s.last()),
    ensures
        trim(s) == trim(s.drop_last()),
    decreases s.len(),
{
    if s.len() == 1 {
        assert(trim_start(s) == trim_start(s.drop_first()));
        assert(s.drop_first() =~= Seq::<char>::empty());
        assert(s.drop_last() =~= Seq::<char>::empty());
    } else if is_ws(s[0]) {
        lemma_trim_drop_last_ws(s.drop_first());
        assert(s.drop_first().drop_last() =~= s.drop_last().drop_first());
        assert(s.drop_last()[0] == s[0]);
    } else {
        assert(s.drop_last()[0] == s[0]);
        lemma_trim_start_nonws(s.drop_last());
    }
}

pub proof fn lemma_trim_strip_cr(l: Seq<char>)
    ensures
        trim(strip_cr(l)) == trim(l),
{
    if l.len() > 0 && l.last() == '\r' {
        lemma_trim_drop_last_ws(l);
    }
}

pub proof fn lemma_trims_strip_crs(ls: Seq<Seq<char>>)
    ensures
        trims(strip_crs(ls)) == trims(ls),
{
    assert forall|i: int| 0 <= i < ls.len() implies #[trigger] trims(strip_crs(ls))[i] == trims(
        ls,
    )[i] by {
        lemma_trim_strip_cr(ls[i]);
    }
    assert(trims(strip_crs(ls)) =~= trims(ls));
}

pub proof fn lemma_split_no_sep(s: Seq<char>, c: char)
    requires
        !has_char(s, c),
    ensures
        split_char(s, c) == seq![s],
    decreases s.len(),
{
    if s.len() > 0 {
        assert(!has_char(s.drop_last(), c)) by {
            if has_char(s.drop_last(), c) {
                let i = choose|i: int| 0 <= i < s.drop_last().len() && s.drop_last()[i] == c;
                assert(s[i] == c);
            }
        }
        lemma_split_no_sep(s.drop_last(), c);
        assert(s.last() != c);
        assert(s.drop_last().push(s.last()) =~= s);
        assert(seq![s.drop_last()].update(0, s.drop_last().push(s.last())) =~= seq![s]);
    } else {
        assert(s =~= Seq::<char>::empty());
    }
}

pub proof fn lemma_split_append(s: Seq<char>, t: Seq<char>, c: char)
    requires
        !has_char(t, c),
    ensures
        split_char(s + t, c) == split_char(s, c).update(
            split_char(s, c).len() - 1,
            split_char(s, c).last() + t,
        ),
        split_char(s, c).len() >= 1,
    decreases t.len(),
{
    crate::text::lemma_split_nonempty(s, c);
    let p = split_char(s, c);
    if t.len() == 0 {
        assert(s + t =~= s);
        assert(p.last() + t =~= p.last());
        assert(p.update(p.len() - 1, p.last() + t) =~= p);
    } else {
        let t0 = t.drop_last();
        assert(!has_char(t0, c)) by {
            if has_char(t0, c) {
                let i = choose|i: int| 0 <= i < t0.len() && t0[i] == c;
                assert(t[i] == c);
            }
        }
        lemma_split_append(s, t0, c);
        assert((s + t).drop_last() =~= s + t0);
        assert((s + t).last() == t.last());
        assert(t.last() != c);
        let q = split_char(s + t0, c);
        assert(q.len() == p.len());
        assert(q.last() == p.last() + t0);
        assert((p.last() + t0).push(t.last()) =~= p.last() + t);
        assert(q.update(q.len() - 1, q.last().push(t.last())) =~= p.update(
            p.len() - 1,
            p.last() + t,
        ));
    }
}

pub open spec fn no_newline_lines(ls: Seq<Seq<char>>) -> bool {
    forall|i: int| 0 <= i < ls.len() ==> !has_char(#[trigger] ls[i], '\n')
}

/// Splitting the joined lines at newlines gives back the lines.
pub proof fn lemma_split_join(ls: Seq<Seq<char>>)
    requires
        ls.len() >= 1,
        no_newline_lines(ls),
    ensures
        split_char(join(ls, seq!['\n']), '\n') == ls,
    decreases ls.len(),
{
    if ls.len() == 1 {
        lemma_split_no_sep(ls[0], '\n');
        assert(seq![ls[0]] =~= ls);
    } else {
        let l0 = ls.drop_last();
        assert(no_newline_lines(l0)) by {
            assert forall|i: int| 0 <= i < l0.len() implies !has_char(#[trigger] l0[i], '\n') by {
                assert(l0[i] == ls[i]);
            }
        }
        lemma_split_join(l0);
        let j0 = join(l0, seq!['\n']);
        let x = ls.last();
        assert(!has_char(x, '\n'));
        assert(join(ls, seq!['\n']) == j0 + seq!['\n'] + x);
        // splitting at the newline adds an empty piece
        let s1 = j0 + seq!['\n'];
        assert(s1.drop_last() =~= j0);
        assert(s1.last() == '\n');
        assert(split_char(s1, '\n') == l0.push(Seq::<char>::empty()));
        lemma_split_append(s1, x, '\n');
        assert(Seq::<char>::empty() + x =~= x);
        assert(l0.push(Seq::<char>::empty()).update(l0.len() as int, x) =~= ls);
    }
}

/// The lines of the joined lines, followed by a newline, are the lines
/// without a final carriage return.
pub proof fn lemma_lines_of_join(ls: Seq<Seq<char>>)
    requires
        ls.len() >= 1,
        no_newline_lines(ls),
    ensures
        lines(join(ls, seq!['\n']) + seq!['\n']) == strip_crs(ls),
{
    let s = join(ls, seq!['\n']) + seq!['\n'];
    lemma_split_join(ls);
    let j = join(ls, seq!['\n']);
    assert(s.drop_last() =~= j);
    assert(s.last() == '\n');
    assert(split_char(s, '\n') == ls.push(Seq::<char>::empty()));
    assert(ls.push(Seq::<char>::empty()).drop_last() =~= ls);
}


pub proof fn lemma_first_entry_exists(ts: Seq<Seq<char>>, h: Seq<char>, k: Seq<char>, i: int)
    requires
        is_entry(ts, i, h, k),
    ensures
        first_entry(ts, h, k, entry_index(ts, h, k)),
    decreases i,
{
    if exists|j: int| 0 <= j < i && is_entry(ts, j, h, k) {
        let j = choose|j: int| 0 <= j < i && is_entry(ts, j, h, k);
        lemma_first_entry_exists(ts, h, k, j);
    } else {
        assert(first_entry(ts, h, k, i));
    }
}

pub proof fn lemma_first_index_exists(t: Seq<char>, c: char)
    requires
        has_char(t, c),
    ensures
        exists|e: int| first_index(t, c, e),
{
    let i = choose|i: int| 0 <= i < t.len() && t[i] == c;
    lemma_first_index_below(t, c, i);
}

proof fn lemma_first_index_below(t: Seq<char>, c: char, i: int)
    requires
        0 <= i < t.len(),
        t[i] == c,
    ensures
        exists|e: int| first_index(t, c, e),
    decreases i,
{
    if exists|j: int| 0 <= j < i && t[j] == c {
        let j = choose|j: int| 0 <= j < i && t[j] == c;
        lemma_first_index_below(t, c, j);
    } else {
        assert(first_index(t, c, i));
    }
}

pub proof fn lemma_first_header_exists(ts: Seq<Seq<char>>, h: Seq<char>, i: int)
    requires
        0 <= i < ts.len(),
        ts[i] == h,
    ensures
        first_header(ts, h, header_index(ts, h)),
    decreases i,
{
    if exists|j: int| 0 <= j < i && ts[j] == h {
        let j = choose|j: int| 0 <= j < i && ts[j] == h;
        lemma_first_header_exists(ts, h, j);
    } else {
        assert(first_header(ts, h, i));
    }
}

/// `trim_start(s)` drops a prefix of `s`.
pub proof fn lemma_trim_start_is_skip(s: Seq<char>) -> (a: int)
    ensures
        0 <= a <= s.len(),
        trim_start(s) == s.skip(a),
    decreases s.len(),
{
    if s.len() > 0 && is_ws(s[0]) {
        let a0 = lemma_trim_start_is_skip(s.drop_first());
        assert(s.drop_first().skip(a0) =~= s.skip(a0 + 1));
        a0 + 1
    } else {
        assert(s.skip(0) =~= s);
        0
    }
}

/// `trim_end(s)` keeps a prefix of `s`.
pub proof fn lemma_trim_end_is_take(s: Seq<char>) -> (b: int)
    ensures
        0 <= b <= s.len(),
        trim_end(s) == s.take(b),
    decreases s.len(),
{
    if s.len() > 0 && is_ws(s.last()) {
        let b0 = lemma_trim_end_is_take(s.drop_last());
        assert(s.drop_last().take(b0) =~= s.take(b0));
        b0
    } else {
        assert(s.take(s.len() as int) =~= s);
        s.len() as int
    }
}

pub proof fn lemma_sub_no_char(s: Seq<char>, a: int, b: int, c: char)
    requires
        0 <= a <= b <= s.len(),
        !has_char(s, c),
    ensures
        !has_char(s.subrange(a, b), c),
{
    if has_char(s.subrange(a, b), c) {
        let i = choose|i: int| 0 <= i < b - a && s.subrange(a, b)[i] == c;
        assert(s[a + i] == c);
    }
}

pub proof fn lemma_trim_no_char(s: Seq<char>, c: char)
    requires
        !has_char(s, c),
    ensures
        !has_char(trim(s), c),
{
    let a = lemma_trim_start_is_skip(s);
    let t = trim_start(s);
    assert(t == s.subrange(a, s.len() as int));
    lemma_sub_no_char(s, a, s.len() as int, c);
    let b = lemma_trim_end_is_take(t);
    assert(trim_end(t) == t.subrange(0, b));
    lemma_sub_no_char(t, 0, b, c);
}

pub proof fn lemma_concat_no_char(a: Seq<char>, b: Seq<char>, c: char)
    requires
        !has_char(a, c),
        !has_char(b, c),
    ensures
        !has_char(a + b, c),
{
    if has_char(a + b, c) {
        let i = choose|i: int| 0 <= i < (a + b).len() && (a + b)[i] == c;
        if i < a.len() {
            assert(a[i] == c);
        } else {
            assert(b[i - a.len()] == c);
        }
    }
}

pub proof fn lemma_split_pieces_no_sep(s: Seq<char>, c: char)
    ensures
        forall|i: int|
            0 <= i < split_char(s, c).len() ==> !has_char(#[trigger] split_char(s, c)[i], c),
    decreases s.len(),
{
    if s.len() > 0 {
        lemma_split_pieces_no_sep(s.drop_last(), c);
        crate::text::lemma_split_nonempty(s.drop_last(), c);
        let r = split_char(s.drop_last(), c);
        if s.last() != c {
            assert(!has_char(seq![s.last()], c));
            lemma_concat_no_char(r.last(), seq![s.last()], c);
            assert(r.last().push(s.last()) =~= r.last() + seq![s.last()]);
        }
    }
}

pub proof fn lemma_lines_no_newline(s: Seq<char>)
    ensures
        no_newline_lines(lines(s)),
{
    if s.len() > 0 {
        let p = split_char(s, '\n');
        lemma_split_pieces_no_sep(s, '\n');
        crate::text::lemma_split_nonempty(s, '\n');
        let ls = lines(s);
        assert forall|i: int| 0 <= i < ls.len() implies !has_char(#[trigger] ls[i], '\n') by {
            if i < p.len() - 1 {
                assert(ls[i] == strip_cr(p[i]));
                if p[i].len() > 0 && p[i].last() == '\r' {
                    lemma_sub_no_char(p[i], 0, p[i].len() - 1, '\n');
                    assert(p[i].subrange(0, p[i].len() - 1) == p[i].drop_last());
                }
            } else {
                assert(ls[i] == p.last());
            }
        }
    }
}

/// What the key, the value and the section header must satisfy for
/// `key=value` to be read back as written.
pub open spec fn plain_key(k: Seq<char>) -> bool {
    &&& k.len() > 0
    &&& !is_ws(k[0])
    &&& k[0] != '['
    &&& !has_char(k, '=')
    &&& !has_char(k, '\n')
    &&& trim(k) == k
}

pub open spec fn plain_value(v: Seq<char>) -> bool {
    &&& (v.len() > 0 ==> !is_ws(v.last()))
    &&& !has_char(v, '\n')
}

pub open spec fn plain_header(h: Seq<char>) -> bool {
    &&& is_bracket(h)
    &&& trim(h) == h
    &&& !has_char(h, '\n')
}

pub proof fn lemma_pair_line_facts(k: Seq<char>, v: Seq<char>)
    requires
        plain_key(k),
        plain_value(v),
    ensures
        trim(pair_line(k, v)) == pair_line(k, v),
        !is_bracket(pair_line(k, v)),
        key_of(pair_line(k, v)) == Some(k),
        value_of(pair_line(k, v)) == trim(v),
        !has_char(pair_line(k, v), '\n'),
{
    lemma_pair_line_trimmed(k, v);
    lemma_pair_line_parts(k, v);
    assert(pair_line(k, v)[0] == k[0]);
    lemma_concat_no_char(k, seq!['='], '\n');
    lemma_concat_no_char(k + seq!['='], v, '\n');
}

pub proof fn lemma_ensure_header_prefix(ls: Seq<Seq<char>>, h: Seq<char>)
    requires
        plain_header(h),
        no_newline_lines(ls),
    ensures
        ensure_header_spec(ls, h).len() >= ls.len(),
        ensure_header_spec(ls, h).len() >= 1,
        forall|q: int| 0 <= q < ls.len() ==> #[trigger] ensure_header_spec(ls, h)[q] == ls[q],
        no_newline_lines(ensure_header_spec(ls, h)),
        has_header(trims(ensure_header_spec(ls, h)), h),
{
    lemma_header_ensured(ls, h);
    let l1 = ensure_header_spec(ls, h);
    assert(!has_char(Seq::<char>::empty(), '\n'));
    assert forall|i: int| 0 <= i < l1.len() implies !has_char(#[trigger] l1[i], '\n') by {
        if i >= ls.len() {
            assert(l1[i] == h || l1[i] == Seq::<char>::empty());
        }
    }
}

/// After `set_pair`, the first entry for `k` in section `h` is `k=v`.
pub proof fn lemma_set_pair_entry(ls: Seq<Seq<char>>, h: Seq<char>, k: Seq<char>, v: Seq<char>) -> (i: int)
    requires
        plain_header(h),
        plain_key(k),
        plain_value(v),
        no_newline_lines(ls),
    ensures
        first_entry(trims(set_pair_spec(ls, h, k, v)), h, k, i),
        trims(set_pair_spec(ls, h, k, v))[i] == pair_line(k, v),
        set_pair_spec(ls, h, k, v)[i] == pair_line(k, v),
        no_newline_lines(set_pair_spec(ls, h, k, v)),
        set_pair_spec(ls, h, k, v).len() >= 1,
{
    lemma_ensure_header_prefix(ls, h);
    lemma_pair_line_facts(k, v);
    let l1 = ensure_header_spec(ls, h);
    let ts = trims(l1);
    let pl = pair_line(k, v);
    let out = set_pair_spec(ls, h, k, v);
    if has_entry(ts, h, k) {
        let w = choose|w: int| is_entry(ts, w, h, k);
        lemma_first_entry_exists(ts, h, k, w);
        let i = entry_index(ts, h, k);
        assert(out == l1.update(i, pl));
        lemma_trims_update(l1, i, pl);
        let nt = trims(out);
        assert(nt == ts.update(i, pl));
        assert forall|j: int| 0 <= j <= ts.len() implies in_section(nt, j, h) == in_section(ts, j, h) by {
            lemma_in_section_update(ts, i, pl, h, j);
        }
        assert(is_entry(nt, i, h, k));
        assert forall|j: int| 0 <= j < i implies !is_entry(nt, j, h, k) by {
            assert(nt[j] == ts[j]);
            assert(!is_entry(ts, j, h, k));
            assert(in_section(nt, j, h) == in_section(ts, j, h));
        }
        assert(no_newline_lines(out)) by {
            assert forall|q: int| 0 <= q < out.len() implies !has_char(#[trigger] out[q], '\n') by {
                if q != i {
                    assert(out[q] == l1[q]);
                }
            }
        }
        i
    } else {
        let w = choose|w: int| 0 <= w < ts.len() && ts[w] == h;
        lemma_first_header_exists(ts, h, w);
        let p = header_index(ts, h);
        assert(out == l1.insert(p + 1, pl));
        lemma_trims_insert(l1, p + 1, pl);
        let nt = trims(out);
        assert(nt == ts.insert(p + 1, pl));
        assert forall|j: int| 0 <= j <= p + 1 implies in_section(nt, j, h) == in_section(ts, j, h) by {
            lemma_in_section_prefix(nt, ts, j, h);
        }
        assert(nt[p] == h);
        assert(in_section(nt, p + 1, h));
        assert(is_entry(nt, p + 1, h, k));
        assert forall|j: int| 0 <= j < p + 1 implies !is_entry(nt, j, h, k) by {
            assert(nt[j] == ts[j]);
            assert(!is_entry(ts, j, h, k));
        }
        assert(no_newline_lines(out)) by {
            assert forall|q: int| 0 <= q < out.len() implies !has_char(#[trigger] out[q], '\n') by {
                if q < p + 1 {
                    assert(out[q] == l1[q]);
                } else if q > p + 1 {
                    assert(out[q] == l1[q - 1]);
                }
            }
        }
        p + 1
    }
}


pub proof fn lemma_headers_differ()
    ensures
        added_header() != default_header(),
        plain_header(added_header()),
        plain_header(default_header()),
{
    reveal_strlit("[Added Associations]");
    reveal_strlit("[Default Applications]");
    assert(added_header().len() != default_header().len());
    let a = added_header();
    let d = default_header();
    lemma_trim_start_nonws(a);
    lemma_trim_end_nonws(a);
    lemma_trim_start_nonws(d);
    lemma_trim_end_nonws(d);
    assert(!has_char(a, '\n')) by {
        if has_char(a, '\n') {
            let i = choose|i: int| 0 <= i < a.len() && a[i] == '\n';
        }
    }
    assert(!has_char(d, '\n')) by {
        if has_char(d, '\n') {
            let i = choose|i: int| 0 <= i < d.len() && d[i] == '\n';
        }
    }
}

/// The line that `add_association` writes for a list of names.
pub proof fn lemma_association_line_facts(k: Seq<char>, names: Seq<char>, d: Seq<char>)
    requires
        plain_key(k),
        !has_char(names, '\n'),
        !has_char(d, '\n'),
    ensures
        plain_value(names + list_sep(names) + d + seq![';']),
        plain_value(d + seq![';']),
{
    let v = names + list_sep(names) + d + seq![';'];
    assert(v.last() == ';');
    assert(!has_char(list_sep(names), '\n'));
    assert(!has_char(seq![';'], '\n'));
    lemma_concat_no_char(names, list_sep(names), '\n');
    lemma_concat_no_char(names + list_sep(names), d, '\n');
    lemma_concat_no_char(names + list_sep(names) + d, seq![';'], '\n');
    lemma_concat_no_char(d, seq![';'], '\n');
    assert((d + seq![';']).last() == ';');
}

/// `add_association` for the key `k` keeps the first default entry for
/// the key `kd`, at a possibly shifted position.
pub proof fn lemma_add_association_keeps_default(
    ls: Seq<Seq<char>>,
    k: Seq<char>,
    d: Seq<char>,
    kd: Seq<char>,
    i1: int,
) -> (i2: int)
    requires
        plain_key(k),
        !has_char(d, '\n'),
        no_newline_lines(ls),
        first_entry(trims(ls), default_header(), kd, i1),
    ensures
        first_entry(trims(add_association_spec(ls, k, d)), default_header(), kd, i2),
        trims(add_association_spec(ls, k, d))[i2] == trims(ls)[i1],
        add_association_spec(ls, k, d)[i2] == ls[i1],
        no_newline_lines(add_association_spec(ls, k, d)),
        add_association_spec(ls, k, d).len() >= 1,
{
    let dh = default_header();
    let ah = added_header();
    lemma_headers_differ();
    lemma_ensure_header_prefix(ls, ah);
    let l1 = ensure_header_spec(ls, ah);
    let t0 = trims(ls);
    let ts = trims(l1);
    assert forall|q: int| 0 <= q < ls.len() implies ts[q] == t0[q] by {
        assert(l1[q] == ls[q]);
    }
    assert forall|j: int| 0 <= j <= ls.len() implies in_section(ts, j, dh) == in_section(t0, j, dh) by {
        lemma_in_section_prefix(ts, t0, j, dh);
    }
    assert(first_entry(ts, dh, kd, i1)) by {
        assert(is_entry(ts, i1, dh, kd));
        assert forall|j: int| 0 <= j < i1 implies !is_entry(ts, j, dh, kd) by {
            assert(!is_entry(t0, j, dh, kd));
        }
    }
    let out = add_association_spec(ls, k, d);
    if has_entry(ts, ah, k) {
        let w = choose|w: int| is_entry(ts, w, ah, k);
        lemma_first_entry_exists(ts, ah, k, w);
        let ia = entry_index(ts, ah, k);
        let names = value_of(ts[ia]);
        if lists(names, d) {
            assert(out == l1);
            i1
        } else {
            // the names come from a line without newlines
            assert(!has_char(names, '\n')) by {
                assert(!has_char(l1[ia], '\n'));
                lemma_trim_no_char(l1[ia], '\n');
                let t = ts[ia];
                assert(key_of(t) == Some(k));
                assert(has_char(t, '='));
                lemma_first_index_exists(t, '=');
                let e = eq_index(t);
                assert(first_index(t, '=', e));
                lemma_sub_no_char(t, e + 1, t.len() as int, '\n');
                assert(t.subrange(e + 1, t.len() as int) == t.skip(e + 1));
                lemma_trim_no_char(t.skip(e + 1), '\n');
            }
            let v = names + list_sep(names) + d + seq![';'];
            lemma_association_line_facts(k, names, d);
            lemma_pair_line_facts(k, v);
            let pl = pair_line(k, v);
            assert(out == l1.update(ia, pl));
            assert(ia != i1) by {
                if ia == i1 {
                    lemma_one_section(ts, ia, ah, dh);
                }
            }
            lemma_trims_update(l1, ia, pl);
            let nt = trims(out);
            assert(nt == ts.update(ia, pl));
            assert forall|j: int| 0 <= j <= ts.len() implies in_section(nt, j, dh) == in_section(ts, j, dh) by {
                lemma_in_section_update(ts, ia, pl, dh, j);
            }
            assert(is_entry(nt, i1, dh, kd));
            assert forall|j: int| 0 <= j < i1 implies !is_entry(nt, j, dh, kd) by {
                assert(!is_entry(ts, j, dh, kd));
                if j == ia {
                    if in_section(ts, j, dh) {
                        lemma_one_section(ts, ia, ah, dh);
                    }
                } else {
                    assert(nt[j] == ts[j]);
                }
            }
            assert(no_newline_lines(out)) by {
                assert forall|q: int| 0 <= q < out.len() implies !has_char(#[trigger] out[q], '\n') by {
                    if q != ia {
                        assert(out[q] == l1[q]);
                    }
                }
            }
            i1
        }
    } else {
        let w = choose|w: int| 0 <= w < ts.len() && ts[w] == ah;
        lemma_first_header_exists(ts, ah, w);
        let p = header_index(ts, ah);
        let v = d + seq![';'];
        lemma_association_line_facts(k, Seq::empty(), d);
        lemma_pair_line_facts(k, v);
        let pl = pair_line(k, v);
        assert(out == l1.insert(p + 1, pl));
        lemma_trims_insert(l1, p + 1, pl);
        let nt = trims(out);
        assert(nt == ts.insert(p + 1, pl));
        assert(ts[p] == ah);
        assert(i1 != p);
        assert forall|j: int| 0 <= j <= p + 1 implies in_section(nt, j, dh) == in_section(ts, j, dh) by {
            lemma_in_section_prefix(nt, ts, j, dh);
        }
        assert forall|j: int| p + 1 < j <= ts.len() + 1 implies in_section(nt, j, dh) == in_section(ts, j - 1, dh) by {
            lemma_in_section_insert(ts, p + 1, pl, dh, j);
        }
        assert(nt[p] == ah);
        assert(!in_section(nt, p + 1, dh));
        assert(no_newline_lines(out)) by {
            assert forall|q: int| 0 <= q < out.len() implies !has_char(#[trigger] out[q], '\n') by {
                if q < p + 1 {
                    assert(out[q] == l1[q]);
                } else if q > p + 1 {
                    assert(out[q] == l1[q - 1]);
                }
            }
        }
        if i1 < p + 1 {
            assert(nt[i1] == ts[i1]);
            assert(is_entry(nt, i1, dh, kd));
            assert forall|j: int| 0 <= j < i1 implies !is_entry(nt, j, dh, kd) by {
                assert(nt[j] == ts[j]);
                assert(!is_entry(ts, j, dh, kd));
            }
            i1
        } else {
            assert(nt[i1 + 1] == ts[i1]);
            assert(is_entry(nt, i1 + 1, dh, kd));
            assert forall|j: int| 0 <= j < i1 + 1 implies !is_entry(nt, j, dh, kd) by {
                if j < p + 1 {
                    assert(nt[j] == ts[j]);
                    assert(!is_entry(ts, j, dh, kd));
                } else if j > p + 1 {
                    assert(nt[j] == ts[j - 1]);
                    assert(!is_entry(ts, j - 1, dh, kd));
                }
            }
            i1 + 1
        }
    }
}


pub proof fn lemma_scheme_key_plain(scheme: Seq<char>)
    requires
        !has_char(scheme, '='),
        !has_char(scheme, '\n'),
        scheme.len() > 0 ==> !is_ws(scheme.last()),
    ensures
        plain_key(scheme_key_spec(scheme)),
{
    reveal_strlit("x-scheme-handler/");
    let p = "x-scheme-handler/"@;
    let k = scheme_key_spec(scheme);
    assert(k[0] == 'x');
    assert(!has_char(p, '=')) by {
        if has_char(p, '=') {
            let i = choose|i: int| 0 <= i < p.len() && p[i] == '=';
        }
    }
    assert(!has_char(p, '\n')) by {
        if has_char(p, '\n') {
            let i = choose|i: int| 0 <= i < p.len() && p[i] == '\n';
        }
    }
    lemma_concat_no_char(p, scheme, '=');
    lemma_concat_no_char(p, scheme, '\n');
    lemma_trim_start_nonws(k);
    if scheme.len() > 0 {
        assert(k.last() == scheme.last());
    } else {
        assert(k.last() == '/');
    }
    lemma_trim_end_nonws(k);
}

/// After `upsert_mimeapps(content, scheme, desktop)`, the first entry for the
/// scheme in `[Default Applications]` holds exactly `desktop`, so
/// `is_default(content, scheme, desktop)` holds. The scheme must be written
/// without `=`, newlines or trailing white space, and the desktop file name
/// without `;`, newlines or white space at its ends: otherwise the line that
/// is written does not read back as the same key and value.
pub proof fn law_upsert_makes_default(content: Seq<char>, scheme: Seq<char>, desktop: Seq<char>)
    requires
        !has_char(scheme, '='),
        !has_char(scheme, '\n'),
        scheme.len() > 0 ==> !is_ws(scheme.last()),
        !has_char(desktop, ';'),
        !has_char(desktop, '\n'),
        desktop.len() > 0 ==> !is_ws(desktop[0]) && !is_ws(desktop.last()),
    ensures
        is_default_spec(upsert_spec(content, scheme, desktop), scheme, desktop),
        value_of(
            trims(lines(upsert_spec(content, scheme, desktop)))[entry_index(
                trims(lines(upsert_spec(content, scheme, desktop))),
                default_header(),
                scheme_key_spec(scheme),
            )],
        ) == desktop,
{
    let k = scheme_key_spec(scheme);
    lemma_scheme_key_plain(scheme);
    lemma_headers_differ();
    let l0 = lines(content);
    lemma_lines_no_newline(content);
    let i1 = lemma_set_pair_entry(l0, default_header(), k, desktop);
    let l1 = set_pair_spec(l0, default_header(), k, desktop);
    let i2 = lemma_add_association_keeps_default(l1, k, desktop, k, i1);
    let l2 = add_association_spec(l1, k, desktop);
    lemma_lines_of_join(l2);
    let out = upsert_spec(content, scheme, desktop);
    assert(out == join(l2, seq!['\n']) + seq!['\n']);
    lemma_trims_strip_crs(l2);
    let ts = trims(lines(out));
    assert(ts == trims(l2));
    lemma_first_entry_unique(ts, default_header(), k, i2);
    lemma_pair_line_facts(k, desktop);
    assert(ts[i2] == pair_line(k, desktop));
    if desktop.len() > 0 {
        lemma_trim_start_nonws(desktop);
        lemma_trim_end_nonws(desktop);
    } else {
        assert(desktop =~= Seq::<char>::empty());
    }
    assert(value_of(ts[i2]) == desktop);
    lemma_split_no_sep(desktop, ';');
    assert(split_char(desktop, ';')[0] == desktop);
    assert(lists(desktop, desktop));
}

/// A line in section `h` follows a line that reads `h`.
proof fn lemma_in_section_after_header(ts: Seq<Seq<char>>, i: int, h: Seq<char>) -> (j: int)
    requires
        in_section(ts, i, h),
        i <= ts.len(),
    ensures
        0 <= j < i,
        ts[j] == h,
    decreases i,
{
    if is_bracket(ts[i - 1]) {
        i - 1
    } else {
        lemma_in_section_after_header(ts, i - 1, h)
    }
}

/// Trailing white space stops before a character that is not white space.
proof fn lemma_trim_end_keeps(s: Seq<char>, j: int) -> (b: int)
    requires
        0 <= j < s.len(),
        !is_ws(s[j]),
    ensures
        j < b <= s.len(),
        trim_end(s) == s.take(b),
    decreases s.len(),
{
    if is_ws(s.last()) {
        let d = s.drop_last();
        assert(d[j] == s[j]);
        let b0 = lemma_trim_end_keeps(d, j);
        assert(d.take(b0) =~= s.take(b0));
        b0
    } else {
        assert(s.take(s.len() as int) =~= s);
        s.len() as int
    }
}

/// The trimmed line `key=value` is an entry for `key`, whatever the value.
proof fn lemma_pair_line_key(k: Seq<char>, v: Seq<char>)
    requires
        plain_key(k),
    ensures
        !is_bracket(trim(pair_line(k, v))),
        key_of(trim(pair_line(k, v))) == Some(k),
{
    let pl = pair_line(k, v);
    assert(pl[0] == k[0]);
    lemma_trim_start_nonws(pl);
    assert(pl[k.len() as int] == '=');
    let b = lemma_trim_end_keeps(pl, k.len() as int);
    let tp = trim(pl);
    assert(tp == pl.take(b));
    assert(tp[0] == k[0]);
    assert(tp[k.len() as int] == '=');
    assert forall|j: int| 0 <= j < k.len() implies tp[j] != '=' by {
        assert(tp[j] == k[j]);
    }
    assert(first_index(tp, '=', k.len() as int));
    assert(has_char(tp, '='));
    lemma_first_index_unique(tp, '=', k.len() as int, eq_index(tp));
    assert(tp.take(k.len() as int) =~= k);
}

/// `set_pair` for the key `k` keeps the first entry of section `h` for
/// another key `kd`, at a possibly shifted position.
proof fn lemma_set_pair_keeps_other(
    ls: Seq<Seq<char>>,
    h: Seq<char>,
    k: Seq<char>,
    v: Seq<char>,
    kd: Seq<char>,
    i1: int,
) -> (i2: int)
    requires
        plain_header(h),
        plain_key(k),
        !has_char(v, '\n'),
        no_newline_lines(ls),
        kd != k,
        first_entry(trims(ls), h, kd, i1),
    ensures
        first_entry(trims(set_pair_spec(ls, h, k, v)), h, kd, i2),
        trims(set_pair_spec(ls, h, k, v))[i2] == trims(ls)[i1],
        no_newline_lines(set_pair_spec(ls, h, k, v)),
{
    lemma_ensure_header_prefix(ls, h);
    lemma_pair_line_key(k, v);
    let ts = trims(ls);
    let jh = lemma_in_section_after_header(ts, i1, h);
    assert(has_header(ts, h));
    assert(ensure_header_spec(ls, h) == ls);
    let pl = pair_line(k, v);
    let tp = trim(pl);
    assert(!has_char(pl, '\n')) by {
        lemma_concat_no_char(k, seq!['='], '\n');
        lemma_concat_no_char(k + seq!['='], v, '\n');
    }
    let out = set_pair_spec(ls, h, k, v);
    if has_entry(ts, h, k) {
        let w = choose|w: int| is_entry(ts, w, h, k);
        lemma_first_entry_exists(ts, h, k, w);
        let ie = entry_index(ts, h, k);
        assert(out == ls.update(ie, pl));
        assert(ie != i1);
        lemma_trims_update(ls, ie, pl);
        let nt = trims(out);
        assert(nt == ts.update(ie, tp));
        assert forall|j: int| 0 <= j <= ts.len() implies in_section(nt, j, h) == in_section(ts, j, h) by {
            lemma_in_section_update(ts, ie, tp, h, j);
        }
        assert(is_entry(nt, i1, h, kd));
        assert forall|j: int| 0 <= j < i1 implies !is_entry(nt, j, h, kd) by {
            if j != ie {
                assert(nt[j] == ts[j]);
                assert(!is_entry(ts, j, h, kd));
            }
        }
        assert(no_newline_lines(out)) by {
            assert forall|q: int| 0 <= q < out.len() implies !has_char(#[trigger] out[q], '\n') by {
                if q != ie {
                    assert(out[q] == ls[q]);
                }
            }
        }
        i1
    } else {
        lemma_first_header_exists(ts, h, jh);
        let p = header_index(ts, h);
        assert(p <= jh);
        assert(out == ls.insert(p + 1, pl));
        lemma_trims_insert(ls, p + 1, pl);
        let nt = trims(out);
        assert(nt == ts.insert(p + 1, tp));
        assert forall|j: int| 0 <= j <= p + 1 implies in_section(nt, j, h) == in_section(ts, j, h) by {
            lemma_in_section_prefix(nt, ts, j, h);
        }
        assert forall|j: int| p + 1 < j <= ts.len() + 1 implies in_section(nt, j, h) == in_section(ts, j - 1, h) by {
            lemma_in_section_insert(ts, p + 1, tp, h, j);
        }
        assert(nt[i1 + 1] == ts[i1]);
        assert(is_entry(nt, i1 + 1, h, kd));
        assert forall|j: int| 0 <= j < i1 + 1 implies !is_entry(nt, j, h, kd) by {
            if j < p + 1 {
                assert(nt[j] == ts[j]);
                assert(!is_entry(ts, j, h, kd));
            } else if j > p + 1 {
                assert(nt[j] == ts[j - 1]);
                assert(!is_entry(ts, j - 1, h, kd));
            }
        }
        assert(no_newline_lines(out)) by {
            assert forall|q: int| 0 <= q < out.len() implies !has_char(#[trigger] out[q], '\n') by {
                if q < p + 1 {
                    assert(out[q] == ls[q]);
                } else if q > p + 1 {
                    assert(out[q] == ls[q - 1]);
                }
            }
        }
        i1 + 1
    }
}

/// Making a program the handler of one scheme leaves the handler of every
/// other scheme as it was: when `other`'s default entry lists `name` before
/// `upsert_mimeapps(content, scheme, desktop)`, it lists it after. The scheme
/// must be written without `=`, newlines or trailing white space, and the
/// desktop file name without newlines: otherwise the line written for the
/// scheme can read as an entry for `other`, or as more than one line.
pub proof fn law_upsert_keeps_other_schemes(
    content: Seq<char>,
    scheme: Seq<char>,
    desktop: Seq<char>,
    other: Seq<char>,
    name: Seq<char>,
)
    requires
        !has_char(scheme, '='),
        !has_char(scheme, '\n'),
        scheme.len() > 0 ==> !is_ws(scheme.last()),
        !has_char(desktop, '\n'),
        other != scheme,
        is_default_spec(content, other, name),
    ensures
        is_default_spec(upsert_spec(content, scheme, desktop), other, name),
{
    let k = scheme_key_spec(scheme);
    let kd = scheme_key_spec(other);
    assert(kd != k) by {
        let pre = "x-scheme-handler/"@;
        if kd == k {
            assert(kd.skip(pre.len() as int) =~= other);
            assert(k.skip(pre.len() as int) =~= scheme);
        }
    }
    lemma_scheme_key_plain(scheme);
    lemma_headers_differ();
    let l0 = lines(content);
    lemma_lines_no_newline(content);
    let t0 = trims(l0);
    let w = choose|w: int| is_entry(t0, w, default_header(), kd);
    lemma_first_entry_exists(t0, default_header(), kd, w);
    let i0 = entry_index(t0, default_header(), kd);
    let i1 = lemma_set_pair_keeps_other(l0, default_header(), k, desktop, kd, i0);
    let l1 = set_pair_spec(l0, default_header(), k, desktop);
    let i2 = lemma_add_association_keeps_default(l1, k, desktop, kd, i1);
    let l2 = add_association_spec(l1, k, desktop);
    lemma_lines_of_join(l2);
    let out = upsert_spec(content, scheme, desktop);
    assert(out == join(l2, seq!['\n']) + seq!['\n']);
    lemma_trims_strip_crs(l2);
    let ts = trims(lines(out));
    assert(ts == trims(l2));
    lemma_first_entry_unique(ts, default_header(), kd, i2);
    assert(ts[i2] == t0[i0]);
}

proof fn lemma_trim_start_head(s: Seq<char>)
    ensures
        trim_start(s).len() > 0 ==> !is_ws(trim_start(s)[0]),
    decreases s.len(),
{
    if s.len() > 0 && is_ws(s[0]) {
        lemma_trim_start_head(s.drop_first());
    }
}

/// A trimmed text does not start with white space.
proof fn lemma_trim_head(s: Seq<char>)
    ensures
        trim(s).len() > 0 ==> !is_ws(trim(s)[0]),
{
    lemma_trim_start_head(s);
    let b = lemma_trim_end_is_take(trim_start(s));
    if trim(s).len() > 0 {
        assert(trim(s)[0] == trim_start(s)[0]);
    }
}

/// The list that `add_association` writes reads back as written, and names
/// `d`.
proof fn lemma_lists_appended(names: Seq<char>, d: Seq<char>)
    requires
        !has_char(d, ';'),
        names.len() > 0 ==> !is_ws(names[0]),
        d.len() > 0 ==> !is_ws(d[0]),
    ensures
        trim(names + list_sep(names) + d + seq![';']) == names + list_sep(names) + d + seq![';'],
        lists(names + list_sep(names) + d + seq![';'], d),
{
    let a = names + list_sep(names);
    let v = a + d + seq![';'];
    assert(v == a + d + seq![';']);
    if names.len() > 0 {
        assert(v[0] == names[0]);
    } else {
        assert(list_sep(names) =~= Seq::<char>::empty());
        if d.len() > 0 {
            assert(v[0] == d[0]);
        } else {
            assert(v[0] == ';');
        }
    }
    lemma_trim_start_nonws(v);
    assert(v.last() == ';');
    lemma_trim_end_nonws(v);
    // the pieces of `a + d` end with `d`
    lemma_split_append(a, d, ';');
    let pa = split_char(a, ';');
    let pad = split_char(a + d, ';');
    if a.len() == 0 {
        assert(pa == seq![Seq::<char>::empty()]);
    } else {
        assert(a.last() == ';') by {
            if names.len() > 0 && ends_with(names, seq![';']) {
                assert(list_sep(names) =~= Seq::<char>::empty());
                assert(names.skip(names.len() - 1) =~= seq![names.last()]);
                assert(a =~= names);
            } else {
                assert(list_sep(names) == seq![';']);
            }
        }
        assert(pa == split_char(a.drop_last(), ';').push(Seq::<char>::empty()));
    }
    assert(pa.last() == Seq::<char>::empty());
    assert(Seq::<char>::empty() + d =~= d);
    assert(pad.last() == d);
    assert((a + d + seq![';']).drop_last() =~= a + d);
    assert(split_char(v, ';') == pad.push(Seq::<char>::empty()));
    assert(split_char(v, ';')[pad.len() - 1] == d);
}

/// After `add_association`, the first `[Added Associations]` entry for `k`
/// lists `d`.
proof fn lemma_add_association_lists(ls: Seq<Seq<char>>, k: Seq<char>, d: Seq<char>)
    requires
        plain_key(k),
        no_newline_lines(ls),
        !has_char(d, '\n'),
        !has_char(d, ';'),
        d.len() > 0 ==> !is_ws(d[0]),
    ensures
        has_entry(trims(add_association_spec(ls, k, d)), added_header(), k),
        lists(
            value_of(
                trims(add_association_spec(ls, k, d))[entry_index(
                    trims(add_association_spec(ls, k, d)),
                    added_header(),
                    k,
                )],
            ),
            d,
        ),
{
    let ah = added_header();
    lemma_headers_differ();
    lemma_ensure_header_prefix(ls, ah);
    let l1 = ensure_header_spec(ls, ah);
    let ts = trims(l1);
    let out = add_association_spec(ls, k, d);
    if has_entry(ts, ah, k) {
        let w = choose|w: int| is_entry(ts, w, ah, k);
        lemma_first_entry_exists(ts, ah, k, w);
        let ia = entry_index(ts, ah, k);
        let names = value_of(ts[ia]);
        if lists(names, d) {
            assert(out == l1);
        } else {
            assert(!has_char(names, '\n')) by {
                assert(!has_char(l1[ia], '\n'));
                lemma_trim_no_char(l1[ia], '\n');
                let t = ts[ia];
                assert(has_char(t, '='));
                lemma_first_index_exists(t, '=');
                let e = eq_index(t);
                assert(first_index(t, '=', e));
                lemma_sub_no_char(t, e + 1, t.len() as int, '\n');
                assert(t.subrange(e + 1, t.len() as int) == t.skip(e + 1));
                lemma_trim_no_char(t.skip(e + 1), '\n');
            }
            lemma_trim_head(ts[ia].skip(eq_index(ts[ia]) + 1));
            let v = names + list_sep(names) + d + seq![';'];
            lemma_lists_appended(names, d);
            lemma_association_line_facts(k, names, d);
            lemma_pair_line_facts(k, v);
            let pl = pair_line(k, v);
            assert(out == l1.update(ia, pl));
            lemma_trims_update(l1, ia, pl);
            let nt = trims(out);
            assert(nt == ts.update(ia, pl));
            assert forall|j: int| 0 <= j <= ts.len() implies in_section(nt, j, ah) == in_section(ts, j, ah) by {
                lemma_in_section_update(ts, ia, pl, ah, j);
            }
            assert(is_entry(nt, ia, ah, k));
            assert forall|j: int| 0 <= j < ia implies !is_entry(nt, j, ah, k) by {
                assert(nt[j] == ts[j]);
                assert(!is_entry(ts, j, ah, k));
            }
            lemma_first_entry_unique(nt, ah, k, ia);
            assert(value_of(nt[ia]) == v);
        }
    } else {
        let w = choose|w: int| 0 <= w < ts.len() && ts[w] == ah;
        lemma_first_header_exists(ts, ah, w);
        let p = header_index(ts, ah);
        let v = d + seq![';'];
        lemma_lists_appended(Seq::empty(), d);
        assert(Seq::<char>::empty() + list_sep(Seq::<char>::empty()) + d + seq![';'] =~= v);
        lemma_association_line_facts(k, Seq::empty(), d);
        lemma_pair_line_facts(k, v);
        let pl = pair_line(k, v);
        assert(out == l1.insert(p + 1, pl));
        lemma_trims_insert(l1, p + 1, pl);
        let nt = trims(out);
        assert(nt == ts.insert(p + 1, pl));
        assert(nt[p] == ah);
        assert(in_section(nt, p + 1, ah));
        assert(is_entry(nt, p + 1, ah, k));
        assert forall|j: int| 0 <= j < p + 1 implies !is_entry(nt, j, ah, k) by {
            assert(nt[j] == ts[j]);
            assert forall|q: int| 0 <= q <= p + 1 implies in_section(nt, q, ah) == in_section(ts, q, ah) by {
                lemma_in_section_prefix(nt, ts, q, ah);
            }
            assert(!is_entry(ts, j, ah, k));
        }
        lemma_first_entry_unique(nt, ah, k, p + 1);
        assert(value_of(nt[p + 1]) == v);
    }
}

/// A line that does not end with a carriage return.
pub open spec fn cr_free(l: Seq<char>) -> bool {
    !(l.len() > 0 && l.last() == '\r')
}

/// No line ends with a carriage return.
pub open spec fn cr_free_lines(ls: Seq<Seq<char>>) -> bool {
    forall|i: int| 0 <= i < ls.len() ==> cr_free(#[trigger] ls[i])
}

proof fn lemma_trim_end_tail(s: Seq<char>)
    ensures
        trim_end(s).len() > 0 ==> !is_ws(trim_end(s).last()),
    decreases s.len(),
{
    if s.len() > 0 && is_ws(s.last()) {
        lemma_trim_end_tail(s.drop_last());
    }
}

/// A written line ends with a character that is not white space, or is
/// empty: it ends with no carriage return.
proof fn lemma_cr_free_trimmed(l: Seq<char>)
    requires
        trim(l) == l,
    ensures
        cr_free(l),
{
    lemma_trim_end_tail(trim_start(l));
}

proof fn lemma_cr_free_pair(k: Seq<char>, v: Seq<char>)
    requires
        plain_key(k),
        plain_value(v),
    ensures
        cr_free(pair_line(k, v)),
{
    lemma_pair_line_facts(k, v);
    lemma_cr_free_trimmed(pair_line(k, v));
}

proof fn lemma_cr_free_ensure_header(ls: Seq<Seq<char>>, h: Seq<char>)
    requires
        cr_free_lines(ls),
        plain_header(h),
    ensures
        cr_free_lines(ensure_header_spec(ls, h)),
{
    lemma_cr_free_trimmed(h);
    assert(cr_free(Seq::<char>::empty()));
    let l1 = ensure_header_spec(ls, h);
    assert forall|i: int| 0 <= i < l1.len() implies cr_free(#[trigger] l1[i]) by {
        if i >= ls.len() {
            assert(l1[i] == h || l1[i] == Seq::<char>::empty());
        } else {
            assert(l1[i] == ls[i]);
        }
    }
}

proof fn lemma_cr_free_update(ls: Seq<Seq<char>>, i: int, x: Seq<char>)
    requires
        cr_free_lines(ls),
        cr_free(x),
        0 <= i < ls.len(),
    ensures
        cr_free_lines(ls.update(i, x)),
{
    assert forall|q: int| 0 <= q < ls.len() implies cr_free(#[trigger] ls.update(i, x)[q]) by {
        if q != i {
            assert(ls.update(i, x)[q] == ls[q]);
        }
    }
}

proof fn lemma_cr_free_insert(ls: Seq<Seq<char>>, i: int, x: Seq<char>)
    requires
        cr_free_lines(ls),
        cr_free(x),
        0 <= i <= ls.len(),
    ensures
        cr_free_lines(ls.insert(i, x)),
{
    assert forall|q: int| 0 <= q < ls.len() + 1 implies cr_free(#[trigger] ls.insert(i, x)[q]) by {
        if q < i {
            assert(ls.insert(i, x)[q] == ls[q]);
        } else if q > i {
            assert(ls.insert(i, x)[q] == ls[q - 1]);
        }
    }
}

proof fn lemma_cr_free_set_pair(ls: Seq<Seq<char>>, h: Seq<char>, k: Seq<char>, v: Seq<char>)
    requires
        cr_free_lines(ls),
        plain_header(h),
        plain_key(k),
        plain_value(v),
    ensures
        cr_free_lines(set_pair_spec(ls, h, k, v)),
{
    lemma_cr_free_ensure_header(ls, h);
    lemma_cr_free_pair(k, v);
    let l1 = ensure_header_spec(ls, h);
    let ts = trims(l1);
    lemma_header_ensured(ls, h);
    if has_entry(ts, h, k) {
        let w = choose|w: int| is_entry(ts, w, h, k);
        lemma_first_entry_exists(ts, h, k, w);
        lemma_cr_free_update(l1, entry_index(ts, h, k), pair_line(k, v));
    } else {
        let w = choose|w: int| 0 <= w < ts.len() && ts[w] == h;
        lemma_first_header_exists(ts, h, w);
        lemma_cr_free_insert(l1, header_index(ts, h) + 1, pair_line(k, v));
    }
}

proof fn lemma_cr_free_add_association(ls: Seq<Seq<char>>, k: Seq<char>, d: Seq<char>)
    requires
        cr_free_lines(ls),
        no_newline_lines(ls),
        plain_key(k),
        !has_char(d, '\n'),
    ensures
        cr_free_lines(add_association_spec(ls, k, d)),
{
    let ah = added_header();
    lemma_headers_differ();
    lemma_cr_free_ensure_header(ls, ah);
    lemma_ensure_header_prefix(ls, ah);
    let l1 = ensure_header_spec(ls, ah);
    let ts = trims(l1);
    if has_entry(ts, ah, k) {
        let w = choose|w: int| is_entry(ts, w, ah, k);
        lemma_first_entry_exists(ts, ah, k, w);
        let ia = entry_index(ts, ah, k);
        let names = value_of(ts[ia]);
        if !lists(names, d) {
            assert(!has_char(names, '\n')) by {
                assert(!has_char(l1[ia], '\n'));
                lemma_trim_no_char(l1[ia], '\n');
                let t = ts[ia];
                assert(has_char(t, '='));
                lemma_first_index_exists(t, '=');
                let e = eq_index(t);
                assert(first_index(t, '=', e));
                lemma_sub_no_char(t, e + 1, t.len() as int, '\n');
                assert(t.subrange(e + 1, t.len() as int) == t.skip(e + 1));
                lemma_trim_no_char(t.skip(e + 1), '\n');
            }
            let v = names + list_sep(names) + d + seq![';'];
            lemma_association_line_facts(k, names, d);
            lemma_cr_free_pair(k, v);
            lemma_cr_free_update(l1, ia, pair_line(k, v));
        }
    } else {
        let w = choose|w: int| 0 <= w < ts.len() && ts[w] == ah;
        lemma_first_header_exists(ts, ah, w);
        lemma_association_line_facts(k, Seq::empty(), d);
        lemma_cr_free_pair(k, d + seq![';']);
        lemma_cr_free_insert(l1, header_index(ts, ah) + 1, pair_line(k, d + seq![';']));
    }
}

/// `ensure_header` changes nothing where an entry of the section is found.
proof fn lemma_entry_has_header(ls: Seq<Seq<char>>, h: Seq<char>, k: Seq<char>, i: int)
    requires
        is_entry(trims(ls), i, h, k),
    ensures
        ensure_header_spec(ls, h) == ls,
{
    let j = lemma_in_section_after_header(trims(ls), i, h);
    assert(has_header(trims(ls), h));
}

/// Upserting the same scheme and desktop file a second time changes nothing.
/// The scheme must be written without `=`, newlines or trailing white space,
/// the desktop file name without `;`, newlines or white space at its ends,
/// and no line of the file may end with a carriage return once `str::lines`
/// has taken one off: the second reading would take another.
pub proof fn law_upsert_twice_is_once(content: Seq<char>, scheme: Seq<char>, desktop: Seq<char>)
    requires
        !has_char(scheme, '='),
        !has_char(scheme, '\n'),
        scheme.len() > 0 ==> !is_ws(scheme.last()),
        !has_char(desktop, ';'),
        !has_char(desktop, '\n'),
        desktop.len() > 0 ==> !is_ws(desktop[0]) && !is_ws(desktop.last()),
        cr_free_lines(lines(content)),
    ensures
        upsert_spec(upsert_spec(content, scheme, desktop), scheme, desktop) == upsert_spec(
            content,
            scheme,
            desktop,
        ),
{
    let k = scheme_key_spec(scheme);
    let dh = default_header();
    let ah = added_header();
    lemma_scheme_key_plain(scheme);
    lemma_headers_differ();
    let l0 = lines(content);
    lemma_lines_no_newline(content);
    let pl = pair_line(k, desktop);
    let i1 = lemma_set_pair_entry(l0, dh, k, desktop);
    let l1 = set_pair_spec(l0, dh, k, desktop);
    lemma_cr_free_set_pair(l0, dh, k, desktop);
    let i2 = lemma_add_association_keeps_default(l1, k, desktop, k, i1);
    let l2 = add_association_spec(l1, k, desktop);
    lemma_cr_free_add_association(l1, k, desktop);
    lemma_add_association_lists(l1, k, desktop);
    assert(l2[i2] == pl);
    let out = upsert_spec(content, scheme, desktop);
    assert(out == join(l2, seq!['\n']) + seq!['\n']);
    lemma_lines_of_join(l2);
    assert(strip_crs(l2) =~= l2) by {
        assert forall|q: int| 0 <= q < l2.len() implies strip_crs(l2)[q] == l2[q] by {
            assert(cr_free(l2[q]));
        }
    }
    assert(lines(out) == l2);
    // the second pass
    let ts = trims(l2);
    lemma_entry_has_header(l2, dh, k, i2);
    lemma_first_entry_unique(ts, dh, k, i2);
    assert(set_pair_spec(l2, dh, k, desktop) =~= l2);
    let w = choose|w: int| is_entry(ts, w, ah, k);
    lemma_entry_has_header(l2, ah, k, w);
    assert(add_association_spec(l2, k, desktop) == l2);
}

} // verus!

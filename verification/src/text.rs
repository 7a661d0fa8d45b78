//! Character-level text helpers with exact specifications.
//!
//! Text is handled as `Vec<char>` inside the library; `chars_of` and
//! `string_of` convert at the edges.
use vstd::prelude::*;

verus! {

/// Unicode `White_Space`, the property that `char::is_whitespace` tests.
pub open spec fn is_ws(c: char) -> bool {
    ||| ('\u{9}' <= c && c <= '\u{d}')
    ||| c == ' '
    ||| c == '\u{85}'
    ||| c == '\u{a0}'
    ||| c == '\u{1680}'
    ||| ('\u{2000}' <= c && c <= '\u{200a}')
    ||| c == '\u{2028}'
    ||| c == '\u{2029}'
    ||| c == '\u{202f}'
    ||| c == '\u{205f}'
    ||| c == '\u{3000}'
}

/// Whether `c` is Unicode white space.
pub fn is_whitespace(c: char) -> (b: bool)
    ensures
        b == is_ws(c),
{
    ('\u{9}' <= c && c <= '\u{d}') || c == ' ' || c == '\u{85}' || c == '\u{a0}' || c == '\u{1680}'
        || ('\u{2000}' <= c && c <= '\u{200a}') || c == '\u{2028}' || c == '\u{2029}' || c
        == '\u{202f}' || c == '\u{205f}' || c == '\u{3000}'
}

/// `s` without its leading white space.
pub open spec fn trim_start(s: Seq<char>) -> Seq<char>
    decreases s.len(),
{
    if s.len() > 0 && is_ws(s[0]) {
        trim_start(s.drop_first())
    } else {
        s
    }
}

/// `s` without its trailing white space.
pub open spec fn trim_end(s: Seq<char>) -> Seq<char>
    decreases s.len(),
{
    if s.len() > 0 && is_ws(s.last()) {
        trim_end(s.drop_last())
    } else {
        s
    }
}

/// `s` without white space at either end, as `str::trim` gives it.
pub open spec fn trim(s: Seq<char>) -> Seq<char> {
    trim_end(trim_start(s))
}

/// `s` without leading and trailing occurrences of `c`.
pub open spec fn strip_start_char(s: Seq<char>, c: char) -> Seq<char>
    decreases s.len(),
{
    if s.len() > 0 && s[0] == c {
        strip_start_char(s.drop_first(), c)
    } else {
        s
    }
}

pub open spec fn strip_end_char(s: Seq<char>, c: char) -> Seq<char>
    decreases s.len(),
{
    if s.len() > 0 && s.last() == c {
        strip_end_char(s.drop_last(), c)
    } else {
        s
    }
}

/// `s.trim_matches(c)`.
pub open spec fn trim_char(s: Seq<char>, c: char) -> Seq<char> {
    strip_end_char(strip_start_char(s, c), c)
}

pub open spec fn ascii_lower(c: char) -> char {
    if 'A' <= c && c <= 'Z' {
        ((c as u32) + 32) as char
    } else {
        c
    }
}

pub open spec fn ascii_lowercase(s: Seq<char>) -> Seq<char> {
    s.map_values(|c: char| ascii_lower(c))
}

/// Equality up to ASCII case, as `eq_ignore_ascii_case` decides it.
pub open spec fn eq_ascii_ci(a: Seq<char>, b: Seq<char>) -> bool {
    a.len() == b.len() && forall|i: int| 0 <= i < a.len() ==> ascii_lower(a[i]) == ascii_lower(b[i])
}

pub open spec fn starts_with(s: Seq<char>, p: Seq<char>) -> bool {
    p.len() <= s.len() && s.take(p.len() as int) == p
}

pub open spec fn ends_with(s: Seq<char>, p: Seq<char>) -> bool {
    p.len() <= s.len() && s.skip(s.len() - p.len()) == p
}

pub open spec fn occurs_at(s: Seq<char>, p: Seq<char>, i: int) -> bool {
    0 <= i && i + p.len() <= s.len() && s.subrange(i, i + p.len()) == p
}

pub open spec fn contains(s: Seq<char>, p: Seq<char>) -> bool {
    exists|i: int| occurs_at(s, p, i)
}

pub open spec fn has_char(s: Seq<char>, c: char) -> bool {
    exists|i: int| 0 <= i < s.len() && s[i] == c
}

/// The index of the first `c` in `s`.
pub open spec fn first_index(s: Seq<char>, c: char, i: int) -> bool {
    0 <= i < s.len() && s[i] == c && forall|j: int| 0 <= j < i ==> s[j] != c
}

/// `s.replace(from, to)` for single characters.
pub open spec fn replace_char(s: Seq<char>, from: char, to: char) -> Seq<char> {
    s.map_values(|c: char| if c == from { to } else { c })
}

/// The pieces of `s` between occurrences of `c`, as `str::split(c)` yields them.
pub open spec fn split_char(s: Seq<char>, c: char) -> Seq<Seq<char>>
    decreases s.len(),
{
    if s.len() == 0 {
        seq![Seq::<char>::empty()]
    } else {
        let r = split_char(s.drop_last(), c);
        if s.last() == c {
            r.push(Seq::<char>::empty())
        } else {
            r.update(r.len() - 1, r.last().push(s.last()))
        }
    }
}

pub open spec fn strip_cr(s: Seq<char>) -> Seq<char> {
    if s.len() > 0 && s.last() == '\r' {
        s.drop_last()
    } else {
        s
    }
}

pub open spec fn strip_crs(p: Seq<Seq<char>>) -> Seq<Seq<char>> {
    p.map_values(|l: Seq<char>| strip_cr(l))
}

/// The lines of `s`, as `str::lines` yields them.
pub open spec fn lines(s: Seq<char>) -> Seq<Seq<char>> {
    if s.len() == 0 {
        Seq::empty()
    } else {
        let p = split_char(s, '\n');
        let head = strip_crs(p.drop_last());
        if s.last() == '\n' {
            head
        } else {
            head.push(p.last())
        }
    }
}

/// The maximal runs of non-white-space characters, as `str::split_whitespace` yields them.
pub open spec fn words(s: Seq<char>) -> Seq<Seq<char>>
    decreases s.len(),
{
    if s.len() == 0 {
        Seq::empty()
    } else {
        let r = words(s.drop_last());
        if is_ws(s.last()) {
            r
        } else if s.len() >= 2 && !is_ws(s[s.len() - 2]) && r.len() > 0 {
            r.update(r.len() - 1, r.last().push(s.last()))
        } else {
            r.push(seq![s.last()])
        }
    }
}

/// `parts` joined with `sep` between them.
pub open spec fn join(parts: Seq<Seq<char>>, sep: Seq<char>) -> Seq<char>
    decreases parts.len(),
{
    if parts.len() == 0 {
        Seq::empty()
    } else if parts.len() == 1 {
        parts[0]
    } else {
        join(parts.drop_last(), sep) + sep + parts.last()
    }
}

pub open spec fn texts(v: Seq<Vec<char>>) -> Seq<Seq<char>> {
    v.map_values(|t: Vec<char>| t@)
}

pub open spec fn strings(v: Seq<String>) -> Seq<Seq<char>> {
    v.map_values(|t: String| t@)
}

/// The characters of `s`, in order.
pub fn chars_of(s: &str) -> (out: Vec<char>)
    ensures
        out@ == s@,
{
    let mut out: Vec<char> = Vec::new();
    for c in it: s.chars()
        invariant
            out@ == it.seq().take(it.index() as int),
            it.seq() == s@,
    {
        out.push(c);
    }
    out
}

/// The `String` made of the characters of `v`; calls `FromIterator<&char>` for `String`.
#[verifier::external_body]
pub(crate) fn string_of(v: &Vec<char>) -> (out: String)
    ensures
        out@ == v@,
{
    v.iter().collect::<String>()
}

/// `s[a..b]` as a new vector.
pub fn slice(s: &Vec<char>, a: usize, b: usize) -> (out: Vec<char>)
    requires
        a <= b <= s.len(),
    ensures
        out@ == s@.subrange(a as int, b as int),
{
    let mut out: Vec<char> = Vec::new();
    let mut i = a;
    while i < b
        invariant
            a <= i <= b <= s.len(),
            out@ == s@.subrange(a as int, i as int),
        decreases b - i,
    {
        out.push(s[i]);
        i += 1;
    }
    out
}

/// `a` followed by `b`.
pub fn concat(a: &Vec<char>, b: &Vec<char>) -> (out: Vec<char>)
    ensures
        out@ == a@ + b@,
{
    let mut out = a.clone();
    let mut i: usize = 0;
    while i < b.len()
        invariant
            i <= b.len(),
            out@ == a@ + b@.take(i as int),
        decreases b.len() - i,
    {
        out.push(b[i]);
        i += 1;
        assert(b@.take(i as int) == b@.take(i - 1).push(b@[i - 1]));
    }
    assert(b@.take(b.len() as int) == b@);
    out
}

/// Whether `a` and `b` hold the same characters.
pub fn same(a: &Vec<char>, b: &Vec<char>) -> (r: bool)
    ensures
        r == (a@ == b@),
{
    if a.len() != b.len() {
        return false;
    }
    let mut i: usize = 0;
    while i < a.len()
        invariant
            a.len() == b.len(),
            i <= a.len(),
            forall|j: int| 0 <= j < i ==> a@[j] == b@[j],
        decreases a.len() - i,
    {
        if a[i] != b[i] {
            return false;
        }
        i += 1;
    }
    assert(a@ =~= b@);
    true
}

pub proof fn lemma_trim_start_ws_prefix(s: Seq<char>, i: int)
    requires
        0 <= i <= s.len(),
        forall|j: int| 0 <= j < i ==> is_ws(s[j]),
    ensures
        trim_start(s) == trim_start(s.skip(i)),
    decreases i,
{
    if i > 0 {
        assert(s.skip(1) == s.drop_first());
        lemma_trim_start_ws_prefix(s.drop_first(), i - 1);
        assert(s.drop_first().skip(i - 1) =~= s.skip(i));
    } else {
        assert(s.skip(0) =~= s);
    }
}

pub proof fn lemma_trim_end_ws_suffix(s: Seq<char>, k: int)
    requires
        0 <= k <= s.len(),
        forall|j: int| k <= j < s.len() ==> is_ws(s[j]),
    ensures
        trim_end(s) == trim_end(s.take(k)),
    decreases s.len() - k,
{
    if k < s.len() {
        lemma_trim_end_ws_suffix(s.drop_last(), k);
        assert(s.drop_last().take(k) =~= s.take(k));
    } else {
        assert(s.take(k) =~= s);
    }
}

/// `s` without white space at either end.
pub fn trim_text(s: &Vec<char>) -> (out: Vec<char>)
    ensures
        out@ == trim(s@),
{
    let n = s.len();
    let mut a: usize = 0;
    while a < n && is_whitespace(s[a])
        invariant
            a <= n == s.len(),
            forall|j: int| 0 <= j < a ==> is_ws(s@[j]),
        decreases n - a,
    {
        a += 1;
    }
    proof {
        lemma_trim_start_ws_prefix(s@, a as int);
    }
    let mut b: usize = n;
    while b > a && is_whitespace(s[b - 1])
        invariant
            a <= b <= n == s.len(),
            forall|j: int| b <= j < n ==> is_ws(s@[j]),
        decreases b,
    {
        b -= 1;
    }
    let ghost t = s@.skip(a as int);
    proof {
        assert(trim_start(t) == t);
        lemma_trim_end_ws_suffix(t, b - a);
        assert(t.take(b - a) =~= s@.subrange(a as int, b as int));
        let u = s@.subrange(a as int, b as int);
        assert(trim_end(u) == u);
    }
    slice(s, a, b)
}

/// `s` without white space at its end.
pub fn trim_end_text(s: &Vec<char>) -> (out: Vec<char>)
    ensures
        out@ == trim_end(s@),
{
    let n = s.len();
    let mut b: usize = n;
    while b > 0 && is_whitespace(s[b - 1])
        invariant
            b <= n == s.len(),
            forall|j: int| b <= j < n ==> is_ws(s@[j]),
        decreases b,
    {
        b -= 1;
    }
    proof {
        lemma_trim_end_ws_suffix(s@, b as int);
        let u = s@.take(b as int);
        assert(trim_end(u) == u);
    }
    slice(s, 0, b)
}

pub proof fn lemma_strip_start_prefix(s: Seq<char>, c: char, i: int)
    requires
        0 <= i <= s.len(),
        forall|j: int| 0 <= j < i ==> s[j] == c,
    ensures
        strip_start_char(s, c) == strip_start_char(s.skip(i), c),
    decreases i,
{
    if i > 0 {
        lemma_strip_start_prefix(s.drop_first(), c, i - 1);
        assert(s.drop_first().skip(i - 1) =~= s.skip(i));
    } else {
        assert(s.skip(0) =~= s);
    }
}

pub proof fn lemma_strip_end_suffix(s: Seq<char>, c: char, k: int)
    requires
        0 <= k <= s.len(),
        forall|j: int| k <= j < s.len() ==> s[j] == c,
    ensures
        strip_end_char(s, c) == strip_end_char(s.take(k), c),
    decreases s.len() - k,
{
    if k < s.len() {
        lemma_strip_end_suffix(s.drop_last(), c, k);
        assert(s.drop_last().take(k) =~= s.take(k));
    } else {
        assert(s.take(k) =~= s);
    }
}

/// `s.trim_matches(c)`.
pub fn trim_char_text(s: &Vec<char>, c: char) -> (out: Vec<char>)
    ensures
        out@ == trim_char(s@, c),
{
    let n = s.len();
    let mut a: usize = 0;
    while a < n && s[a] == c
        invariant
            a <= n == s.len(),
            forall|j: int| 0 <= j < a ==> s@[j] == c,
        decreases n - a,
    {
        a += 1;
    }
    proof {
        lemma_strip_start_prefix(s@, c, a as int);
    }
    let mut b: usize = n;
    while b > a && s[b - 1] == c
        invariant
            a <= b <= n == s.len(),
            forall|j: int| b <= j < n ==> s@[j] == c,
        decreases b,
    {
        b -= 1;
    }
    let ghost t = s@.skip(a as int);
    proof {
        assert(strip_start_char(t, c) == t);
        lemma_strip_end_suffix(t, c, b - a);
        assert(t.take(b - a) =~= s@.subrange(a as int, b as int));
        let u = s@.subrange(a as int, b as int);
        if b > a {
            assert(u.last() == s@[b - 1]);
        }
        assert(strip_end_char(u, c) == u);
    }
    slice(s, a, b)
}

/// ASCII lower case of one character.
pub fn to_ascii_lower(c: char) -> (d: char)
    ensures
        d == ascii_lower(c),
{
    if 'A' <= c && c <= 'Z' {
        let u: u32 = c as u32;
        let b: u8 = u as u8;
        ((b + 32) as char)
    } else {
        c
    }
}


/// ASCII lower case of a text.
pub fn ascii_lowercase_text(s: &Vec<char>) -> (out: Vec<char>)
    ensures
        out@ == ascii_lowercase(s@),
{
    let mut out: Vec<char> = Vec::new();
    let mut i: usize = 0;
    while i < s.len()
        invariant
            i <= s.len(),
            out@ == ascii_lowercase(s@.take(i as int)),
        decreases s.len() - i,
    {
        let d = to_ascii_lower(s[i]);
        out.push(d);
        i += 1;
        assert(ascii_lowercase(s@.take(i as int)) =~= ascii_lowercase(s@.take(i - 1)).push(d));
    }
    assert(s@.take(s.len() as int) =~= s@);
    out
}

/// Equality up to ASCII case.
pub fn eq_ignore_ascii_case(a: &Vec<char>, b: &Vec<char>) -> (r: bool)
    ensures
        r == eq_ascii_ci(a@, b@),
{
    if a.len() != b.len() {
        return false;
    }
    let mut i: usize = 0;
    while i < a.len()
        invariant
            a.len() == b.len(),
            i <= a.len(),
            forall|j: int| 0 <= j < i ==> ascii_lower(a@[j]) == ascii_lower(b@[j]),
        decreases a.len() - i,
    {
        if to_ascii_lower(a[i]) != to_ascii_lower(b[i]) {
            return false;
        }
        i += 1;
    }
    true
}

/// Whether `p` occurs in `s` at `at`.
pub fn matches_at(s: &Vec<char>, p: &Vec<char>, at: usize) -> (r: bool)
    ensures
        r == occurs_at(s@, p@, at as int),
{
    if p.len() > s.len() || at > s.len() - p.len() {
        return false;
    }
    let mut i: usize = 0;
    while i < p.len()
        invariant
            at + p.len() <= s.len(),
            i <= p.len(),
            forall|j: int| 0 <= j < i ==> s@[at + j] == p@[j],
        decreases p.len() - i,
    {
        if s[at + i] != p[i] {
            assert(s@.subrange(at as int, at + p.len())[i as int] != p@[i as int]);
            return false;
        }
        i += 1;
    }
    assert(s@.subrange(at as int, at + p.len()) =~= p@);
    true
}

/// `s.starts_with(p)`.
pub fn starts_with_text(s: &Vec<char>, p: &Vec<char>) -> (r: bool)
    ensures
        r == starts_with(s@, p@),
{
    let r = matches_at(s, p, 0);
    assert(p@.len() <= s@.len() ==> s@.subrange(0, p@.len() as int) == s@.take(p@.len() as int));
    r
}

/// `s.ends_with(p)`.
pub fn ends_with_text(s: &Vec<char>, p: &Vec<char>) -> (r: bool)
    ensures
        r == ends_with(s@, p@),
{
    if p.len() > s.len() {
        return false;
    }
    let r = matches_at(s, p, s.len() - p.len());
    assert(s@.subrange(s@.len() - p@.len(), s@.len() as int) == s@.skip(s@.len() - p@.len()));
    r
}

/// `s.contains(p)`.
pub fn contains_text(s: &Vec<char>, p: &Vec<char>) -> (r: bool)
    ensures
        r == contains(s@, p@),
{
    if p.len() > s.len() {
        return false;
    }
    let mut at: usize = 0;
    while at <= s.len() - p.len()
        invariant
            p.len() <= s.len(),
            at <= s.len() - p.len() + 1,
            forall|j: int| 0 <= j < at ==> !occurs_at(s@, p@, j),
        ensures
            forall|j: int| 0 <= j <= s.len() - p.len() ==> !occurs_at(s@, p@, j),
        decreases s.len() - p.len() + 1 - at,
    {
        if matches_at(s, p, at) {
            return true;
        }
        if at == s.len() - p.len() {
            break;
        }
        at += 1;
    }
    false
}

/// The index of the first `c` in `s`, if any.
pub fn find_char(s: &Vec<char>, c: char) -> (r: Option<usize>)
    ensures
        match r {
            Some(i) => first_index(s@, c, i as int),
            None => !has_char(s@, c),
        },
{
    let mut i: usize = 0;
    while i < s.len()
        invariant
            i <= s.len(),
            forall|j: int| 0 <= j < i ==> s@[j] != c,
        decreases s.len() - i,
    {
        if s[i] == c {
            return Some(i);
        }
        i += 1;
    }
    None
}

/// Whether `c` occurs in `s`.
pub fn has_char_text(s: &Vec<char>, c: char) -> (r: bool)
    ensures
        r == has_char(s@, c),
{
    match find_char(s, c) {
        Some(_) => true,
        None => false,
    }
}

/// `s.split_once(c)`.
pub fn split_once(s: &Vec<char>, c: char) -> (r: Option<(Vec<char>, Vec<char>)>)
    ensures
        match r {
            Some((a, b)) => exists|i: int|
                first_index(s@, c, i) && a@ == s@.take(i) && b@ == s@.skip(i + 1),
            None => !has_char(s@, c),
        },
{
    match find_char(s, c) {
        Some(i) => {
            let a = slice(s, 0, i);
            let b = slice(s, i + 1, s.len());
            assert(s@.subrange(0, i as int) == s@.take(i as int));
            assert(s@.subrange(i + 1, s@.len() as int) == s@.skip(i + 1));
            Some((a, b))
        },
        None => None,
    }
}

/// `s.replace(from, to)` for single characters.
pub fn replace_char_text(s: &Vec<char>, from: char, to: char) -> (out: Vec<char>)
    ensures
        out@ == replace_char(s@, from, to),
{
    let mut out: Vec<char> = Vec::new();
    let mut i: usize = 0;
    while i < s.len()
        invariant
            i <= s.len(),
            out@ == replace_char(s@.take(i as int), from, to),
        decreases s.len() - i,
    {
        let d = if s[i] == from {
            to
        } else {
            s[i]
        };
        out.push(d);
        i += 1;
        assert(replace_char(s@.take(i as int), from, to) =~= replace_char(
            s@.take(i - 1),
            from,
            to,
        ).push(d));
    }
    assert(s@.take(s.len() as int) =~= s@);
    out
}

/// The pieces of `s` between occurrences of `c`.
pub fn split_text(s: &Vec<char>, c: char) -> (out: Vec<Vec<char>>)
    ensures
        texts(out@) == split_char(s@, c),
{
    let mut pieces: Vec<Vec<char>> = Vec::new();
    let mut start: usize = 0;
    let mut i: usize = 0;
    assert(s@.take(0) =~= Seq::<char>::empty());
    assert(texts(pieces@).push(s@.subrange(0, 0)) =~= seq![Seq::<char>::empty()]);
    while i < s.len()
        invariant
            start <= i <= s.len(),
            split_char(s@.take(i as int), c) == texts(pieces@).push(
                s@.subrange(start as int, i as int),
            ),
        decreases s.len() - i,
    {
        let ghost before = texts(pieces@);
        let ghost r = split_char(s@.take(i as int), c);
        assert(s@.take(i + 1).drop_last() =~= s@.take(i as int));
        assert(s@.take(i + 1).last() == s@[i as int]);
        if s[i] == c {
            let piece = slice(s, start, i);
            pieces.push(piece);
            start = i + 1;
            assert(texts(pieces@) =~= before.push(piece@));
            assert(s@.subrange(start as int, i + 1) =~= Seq::<char>::empty());
            assert(split_char(s@.take(i + 1), c) == r.push(Seq::<char>::empty()));
            assert(texts(pieces@).push(s@.subrange(start as int, i + 1)) =~= r.push(
                Seq::<char>::empty(),
            ));
        } else {
            assert(split_char(s@.take(i + 1), c) == r.update(r.len() - 1, r.last().push(s@[i as int])));
            assert(s@.subrange(start as int, i + 1) =~= s@.subrange(start as int, i as int).push(
                s@[i as int],
            ));
            assert(texts(pieces@).push(s@.subrange(start as int, i + 1)) =~= r.update(
                r.len() - 1,
                r.last().push(s@[i as int]),
            ));
        }
        i += 1;
    }
    let last = slice(s, start, s.len());
    let ghost before = texts(pieces@);
    pieces.push(last);
    assert(s@.take(s.len() as int) =~= s@);
    assert(texts(pieces@) =~= before.push(last@));
    pieces
}

/// `s` without one trailing carriage return.
pub fn strip_cr_text(s: &Vec<char>) -> (out: Vec<char>)
    ensures
        out@ == strip_cr(s@),
{
    if s.len() > 0 && s[s.len() - 1] == '\r' {
        slice(s, 0, s.len() - 1)
    } else {
        slice(s, 0, s.len())
    }
}

/// The lines of `s`.
pub fn lines_text(s: &Vec<char>) -> (out: Vec<Vec<char>>)
    ensures
        texts(out@) == lines(s@),
{
    let mut out: Vec<Vec<char>> = Vec::new();
    if s.len() == 0 {
        assert(texts(out@) =~= lines(s@));
        return out;
    }
    let parts = split_text(s, '\n');
    let ghost p = split_char(s@, '\n');
    proof {
        lemma_split_nonempty(s@, '\n');
    }
    let ghost head = strip_crs(p.drop_last());
    proof {
        lemma_split_nonempty(s@, '\n');
    }
    let mut i: usize = 0;
    while i + 1 < parts.len()
        invariant
            texts(parts@) == p,
            p.len() >= 1,
            i + 1 <= parts.len(),
            texts(out@) == head.take(i as int),
            head == strip_crs(p.drop_last()),
        decreases parts.len() - i,
    {
        let l = strip_cr_text(&parts[i]);
        let ghost before = texts(out@);
        out.push(l);
        i += 1;
        assert(texts(out@) =~= before.push(l@));
        assert(head.take(i as int) =~= head.take(i - 1).push(head[i - 1]));
    }
    assert(head.take(i as int) =~= head);
    assert(i + 1 == parts.len());
    if s[s.len() - 1] != '\n' {
        let last = slice(&parts[i], 0, parts[i].len());
        let ghost before = texts(out@);
        out.push(last);
        assert(last@ == p.last());
        assert(texts(out@) =~= before.push(last@));
        assert(lines(s@) == head.push(p.last()));
    } else {
        assert(lines(s@) == head);
    }
    out
}

pub proof fn lemma_split_nonempty(s: Seq<char>, c: char)
    ensures
        split_char(s, c).len() >= 1,
    decreases s.len(),
{
    if s.len() > 0 {
        lemma_split_nonempty(s.drop_last(), c);
    }
}

/// The maximal runs of non-white-space characters of `s`.
pub fn words_text(s: &Vec<char>) -> (out: Vec<Vec<char>>)
    ensures
        texts(out@) == words(s@),
{
    let mut tokens: Vec<Vec<char>> = Vec::new();
    let mut in_word = false;
    let mut start: usize = 0;
    let mut i: usize = 0;
    assert(words(s@.take(0)) =~= Seq::<Seq<char>>::empty());
    while i < s.len()
        invariant
            start <= i <= s.len(),
            in_word ==> i > 0 && !is_ws(s@[i - 1]) && start < i,
            !in_word ==> i == 0 || is_ws(s@[i - 1]),
            words(s@.take(i as int)) == if in_word {
                texts(tokens@).push(s@.subrange(start as int, i as int))
            } else {
                texts(tokens@)
            },
        decreases s.len() - i,
    {
        let ghost before = texts(tokens@);
        assert(s@.take(i + 1).drop_last() =~= s@.take(i as int));
        assert(s@.take(i + 1).last() == s@[i as int]);
        if is_whitespace(s[i]) {
            if in_word {
                let w = slice(s, start, i);
                tokens.push(w);
                assert(texts(tokens@) =~= before.push(w@));
                in_word = false;
            }
        } else {
            if in_word {
                assert(s@.take(i + 1)[i - 1] == s@[i - 1]);
                assert(s@.subrange(start as int, i + 1) =~= s@.subrange(start as int, i as int).push(
                    s@[i as int],
                ));
            } else {
                start = i;
                in_word = true;
                if i > 0 {
                    assert(s@.take(i + 1)[i - 1] == s@[i - 1]);
                }
                assert(s@.subrange(i as int, i + 1) =~= seq![s@[i as int]]);
            }
        }
        i += 1;
    }
    assert(s@.take(s.len() as int) =~= s@);
    if in_word {
        let w = slice(s, start, s.len());
        let ghost before = texts(tokens@);
        tokens.push(w);
        assert(texts(tokens@) =~= before.push(w@));
    }
    tokens
}

/// `parts` joined with `sep` between them.
pub fn join_texts(parts: &Vec<Vec<char>>, sep: &Vec<char>) -> (out: Vec<char>)
    ensures
        out@ == join(texts(parts@), sep@),
{
    let mut out: Vec<char> = Vec::new();
    let mut i: usize = 0;
    while i < parts.len()
        invariant
            i <= parts.len(),
            out@ == join(texts(parts@).take(i as int), sep@),
        decreases parts.len() - i,
    {
        let ghost t = texts(parts@).take(i + 1);
        assert(t.drop_last() =~= texts(parts@).take(i as int));
        if i > 0 {
            out = concat(&out, sep);
        } else {
            assert(texts(parts@).take(0) =~= Seq::<Seq<char>>::empty());
        }
        out = concat(&out, &parts[i]);
        i += 1;
    }
    assert(texts(parts@).take(parts.len() as int) =~= texts(parts@));
    out
}

/// The `String` of `s` in lower case, as `str::to_lowercase` gives it.
pub uninterp spec fn unicode_lowercase(s: Seq<char>) -> Seq<char>;

/// Whether every character is ASCII.
pub open spec fn all_ascii(s: Seq<char>) -> bool {
    forall|i: int| 0 <= i < s.len() ==> (s[i] as u32) < 128
}

/// Calls `str::to_lowercase`. The result is named by `unicode_lowercase`, a function
/// of the characters of `s` alone; Unicode case mapping is not spelled out here,
/// except that an ASCII text lowers as ASCII does (`A`-`Z` to `a`-`z`).
#[verifier::external_body]
fn to_lowercase_str(s: &str) -> (out: String)
    ensures
        out@ == unicode_lowercase(s@),
        all_ascii(s@) ==> out@ == ascii_lowercase(s@),
{
    s.to_lowercase()
}

/// Unicode lower case of a text.
pub fn lowercase_text(s: &Vec<char>) -> (out: Vec<char>)
    ensures
        out@ == unicode_lowercase(s@),
        all_ascii(s@) ==> out@ == ascii_lowercase(s@),
{
    let st = string_of(s);
    let low = to_lowercase_str(st.as_str());
    chars_of(low.as_str())
}

} // verus!

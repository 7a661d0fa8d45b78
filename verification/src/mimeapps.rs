//! Editing of the freedesktop `mimeapps.list` file that names the default
//! handler of each URL scheme.
use vstd::prelude::*;

use crate::text::{
    chars_of, concat, ends_with, ends_with_text, find_char, first_index, has_char, join,
    join_texts, lines, lines_text, same, slice, split_char, split_text, string_of, strings, texts,
    trim, trim_text,
};

verus! {

pub open spec fn default_header() -> Seq<char> {
    "[Default Applications]"@
}

pub open spec fn added_header() -> Seq<char> {
    "[Added Associations]"@
}

/// The key under which a scheme's handlers are listed.
pub open spec fn scheme_key_spec(scheme: Seq<char>) -> Seq<char> {
    "x-scheme-handler/"@ + scheme
}

/// Each line without white space at either end.
pub open spec fn trims(ls: Seq<Seq<char>>) -> Seq<Seq<char>> {
    ls.map_values(|l: Seq<char>| trim(l))
}

pub open spec fn is_bracket(t: Seq<char>) -> bool {
    t.len() > 0 && t[0] == '['
}

/// Whether line `i` of the trimmed lines `ts` lies in the section `header`:
/// the last bracketed line before it is `header`.
pub open spec fn in_section(ts: Seq<Seq<char>>, i: int, header: Seq<char>) -> bool
    decreases i,
{
    if i <= 0 {
        false
    } else if is_bracket(ts[i - 1]) {
        ts[i - 1] == header
    } else {
        in_section(ts, i - 1, header)
    }
}

/// The index of the first `=` of a line that has one.
pub open spec fn eq_index(t: Seq<char>) -> int {
    choose|e: int| first_index(t, '=', e)
}

/// The trimmed key of a `key=value` line.
pub open spec fn key_of(t: Seq<char>) -> Option<Seq<char>> {
    if has_char(t, '=') {
        Some(trim(t.take(eq_index(t))))
    } else {
        None
    }
}

/// The trimmed value of a `key=value` line.
pub open spec fn value_of(t: Seq<char>) -> Seq<char> {
    trim(t.skip(eq_index(t) + 1))
}

/// Line `i` is a `key=...` entry of the section `header`.
pub open spec fn is_entry(ts: Seq<Seq<char>>, i: int, header: Seq<char>, key: Seq<char>) -> bool {
    &&& 0 <= i < ts.len()
    &&& !is_bracket(ts[i])
    &&& in_section(ts, i, header)
    &&& key_of(ts[i]) == Some(key)
}

pub open spec fn has_entry(ts: Seq<Seq<char>>, header: Seq<char>, key: Seq<char>) -> bool {
    exists|i: int| is_entry(ts, i, header, key)
}

/// Line `i` is the first `key=...` entry of the section `header`.
pub open spec fn first_entry(ts: Seq<Seq<char>>, header: Seq<char>, key: Seq<char>, i: int) -> bool {
    is_entry(ts, i, header, key) && forall|j: int| 0 <= j < i ==> !is_entry(ts, j, header, key)
}

pub open spec fn entry_index(ts: Seq<Seq<char>>, header: Seq<char>, key: Seq<char>) -> int {
    choose|i: int| first_entry(ts, header, key, i)
}

pub open spec fn has_header(ts: Seq<Seq<char>>, header: Seq<char>) -> bool {
    exists|i: int| 0 <= i < ts.len() && ts[i] == header
}

/// Line `i` is the first whose trimmed text is `header`.
pub open spec fn first_header(ts: Seq<Seq<char>>, header: Seq<char>, i: int) -> bool {
    0 <= i < ts.len() && ts[i] == header && forall|j: int| 0 <= j < i ==> ts[j] != header
}

pub open spec fn header_index(ts: Seq<Seq<char>>, header: Seq<char>) -> int {
    choose|i: int| first_header(ts, header, i)
}

/// The lines with the section header present: unchanged when a line already
/// reads `header`, else with `header` appended, after a blank line when the
/// last line is not blank.
pub open spec fn ensure_header_spec(ls: Seq<Seq<char>>, header: Seq<char>) -> Seq<Seq<char>> {
    if has_header(trims(ls), header) {
        ls
    } else if ls.len() > 0 && trim(ls.last()).len() > 0 {
        ls.push(Seq::empty()).push(header)
    } else {
        ls.push(header)
    }
}

pub open spec fn pair_line(key: Seq<char>, value: Seq<char>) -> Seq<char> {
    key + seq!['='] + value
}

/// The lines with `key=value` in section `header`: the first such entry
/// rewritten, or a new one right after the section's first header line.
pub open spec fn set_pair_spec(ls: Seq<Seq<char>>, header: Seq<char>, key: Seq<char>, value: Seq<char>) -> Seq<
    Seq<char>,
> {
    let l1 = ensure_header_spec(ls, header);
    let ts = trims(l1);
    if has_entry(ts, header, key) {
        l1.update(entry_index(ts, header, key), pair_line(key, value))
    } else {
        l1.insert(header_index(ts, header) + 1, pair_line(key, value))
    }
}

/// Whether the `;`-separated list `names` names `desktop`.
pub open spec fn lists(names: Seq<char>, desktop: Seq<char>) -> bool {
    split_char(names, ';').contains(desktop)
}

/// The separator put between a list and a name appended to it.
pub open spec fn list_sep(names: Seq<char>) -> Seq<char> {
    if names.len() == 0 || ends_with(names, seq![';']) {
        Seq::empty()
    } else {
        seq![';']
    }
}

/// The lines with `desktop` listed for `key` in `[Added Associations]`.
pub open spec fn add_association_spec(ls: Seq<Seq<char>>, key: Seq<char>, desktop: Seq<char>) -> Seq<
    Seq<char>,
> {
    let l1 = ensure_header_spec(ls, added_header());
    let ts = trims(l1);
    if has_entry(ts, added_header(), key) {
        let i = entry_index(ts, added_header(), key);
        let names = value_of(ts[i]);
        if lists(names, desktop) {
            l1
        } else {
            l1.update(i, pair_line(key, names + list_sep(names) + desktop + seq![';']))
        }
    } else {
        l1.insert(header_index(ts, added_header()) + 1, pair_line(key, desktop + seq![';']))
    }
}

/// The file with `desktop` as the default handler of `scheme`, and listed
/// among its added associations.
pub open spec fn upsert_spec(content: Seq<char>, scheme: Seq<char>, desktop: Seq<char>) -> Seq<char> {
    let key = scheme_key_spec(scheme);
    let l = add_association_spec(set_pair_spec(lines(content), default_header(), key, desktop), key, desktop);
    join(l, seq!['\n']) + seq!['\n']
}

/// Whether the trimmed lines name `desktop` as the default handler for `key`:
/// the first entry for `key` in `[Default Applications]` lists it.
pub open spec fn is_default_lines(ts: Seq<Seq<char>>, key: Seq<char>, desktop: Seq<char>) -> bool {
    has_entry(ts, default_header(), key) && lists(
        value_of(ts[entry_index(ts, default_header(), key)]),
        desktop,
    )
}

pub open spec fn is_default_spec(content: Seq<char>, scheme: Seq<char>, desktop: Seq<char>) -> bool {
    is_default_lines(trims(lines(content)), scheme_key_spec(scheme), desktop)
}

pub proof fn lemma_first_index_unique(t: Seq<char>, c: char, a: int, b: int)
    requires
        first_index(t, c, a),
        first_index(t, c, b),
    ensures
        a == b,
{
}

pub proof fn lemma_first_entry_unique(ts: Seq<Seq<char>>, header: Seq<char>, key: Seq<char>, i: int)
    requires
        first_entry(ts, header, key, i),
    ensures
        entry_index(ts, header, key) == i,
{
    let j = entry_index(ts, header, key);
    assert(first_entry(ts, header, key, j));
}

pub proof fn lemma_first_header_unique(ts: Seq<Seq<char>>, header: Seq<char>, i: int)
    requires
        first_header(ts, header, i),
    ensures
        header_index(ts, header) == i,
{
    let j = header_index(ts, header);
    assert(first_header(ts, header, j));
}

/// The key under which a scheme's handlers are listed.
pub fn scheme_key(scheme: &str) -> (k: String)
    ensures
        k@ == scheme_key_spec(scheme@),
{
    string_of(&concat(&chars_of("x-scheme-handler/"), &chars_of(scheme)))
}

/// The name of the desktop entry written for the program at `exe`: its file
/// name followed by `-handler.desktop`; an error when the path names no file.
pub open spec fn handler_name_spec(exe: Seq<char>) -> Result<Seq<char>, Seq<char>> {
    let name = crate::detectors::linux::file_name_spec(exe);
    if name.len() == 0 {
        Err("el ejecutable no tiene nombre"@)
    } else {
        Ok(name + "-handler.desktop"@)
    }
}

/// The name of the desktop entry written for the program at `exe`.
pub fn handler_name(exe: &str) -> (r: Result<String, String>)
    ensures
        match r {
            Ok(n) => handler_name_spec(exe@) == Ok::<Seq<char>, Seq<char>>(n@),
            Err(m) => handler_name_spec(exe@) == Err::<Seq<char>, Seq<char>>(m@),
        },
{
    let name = chars_of(crate::detectors::linux::bin_name(exe).as_str());
    if name.len() == 0 {
        Err("el ejecutable no tiene nombre".to_owned())
    } else {
        Ok(string_of(&concat(&name, &chars_of("-handler.desktop"))))
    }
}

/// The desktop entry that makes the program `exe` the handler of http and https links.
pub fn desktop_contents(exe: &str) -> (s: String)
    ensures
        s@ == "[Desktop Entry]\nType=Application\nName=LinkRouter\nExec=\""@ + exe@
            + "\" %u\nTryExec="@ + exe@
            + "\nTerminal=false\nNoDisplay=true\nMimeType=x-scheme-handler/http;x-scheme-handler/https;\n"@,
{
    let e = chars_of(exe);
    let a = concat(
        &chars_of("[Desktop Entry]\nType=Application\nName=LinkRouter\nExec=\""),
        &e,
    );
    let b = concat(&concat(&a, &chars_of("\" %u\nTryExec=")), &e);
    let c = concat(
        &b,
        &chars_of("\nTerminal=false\nNoDisplay=true\nMimeType=x-scheme-handler/http;x-scheme-handler/https;\n"),
    );
    string_of(&c)
}

/// The trimmed characters of each line.
fn trimmed_lines(ls: &Vec<String>) -> (ts: Vec<Vec<char>>)
    ensures
        texts(ts@) == trims(strings(ls@)),
{
    let mut ts: Vec<Vec<char>> = Vec::new();
    let mut i: usize = 0;
    while i < ls.len()
        invariant
            i <= ls.len(),
            texts(ts@) == trims(strings(ls@)).take(i as int),
        decreases ls.len() - i,
    {
        let ghost before = texts(ts@);
        let t = trim_text(&chars_of(ls[i].as_str()));
        ts.push(t);
        i += 1;
        assert(texts(ts@) =~= before.push(t@));
        assert(trims(strings(ls@)).take(i as int) =~= trims(strings(ls@)).take(i - 1).push(
            trim(ls@[i - 1]@),
        ));
    }
    assert(trims(strings(ls@)).take(ls.len() as int) =~= trims(strings(ls@)));
    ts
}

/// The trimmed key and value of a `key=value` line.
fn key_value(t: &Vec<char>) -> (r: Option<(Vec<char>, Vec<char>)>)
    ensures
        match r {
            Some((k, v)) => has_char(t@, '=') && key_of(t@) == Some(k@) && v@ == value_of(t@),
            None => !has_char(t@, '='),
        },
{
    match find_char(t, '=') {
        Some(e) => {
            let n = t.len();
            assert(e < n);
            let k = trim_text(&slice(t, 0, e));
            let v = trim_text(&slice(t, e + 1, n));
            proof {
                lemma_first_index_unique(t@, '=', e as int, eq_index(t@));
                assert(t@.subrange(0, e as int) == t@.take(e as int));
                assert(t@.subrange(e + 1, t@.len() as int) == t@.skip(e + 1));
            }
            Some((k, v))
        },
        None => None,
    }
}

/// The first entry for `key` in section `header`: its index and trimmed text.
fn find_entry(ts: &Vec<Vec<char>>, header: &Vec<char>, key: &Vec<char>) -> (r: Option<usize>)
    ensures
        match r {
            Some(i) => first_entry(texts(ts@), header@, key@, i as int),
            None => !has_entry(texts(ts@), header@, key@),
        },
{
    let ghost tv = texts(ts@);
    let mut in_sec = false;
    let mut i: usize = 0;
    while i < ts.len()
        invariant
            i <= ts.len(),
            tv == texts(ts@),
            in_sec == in_section(tv, i as int, header@),
            forall|j: int| 0 <= j < i ==> !is_entry(tv, j, header@, key@),
        decreases ts.len() - i,
    {
        let t = &ts[i];
        assert(t@ == tv[i as int]);
        if t.len() > 0 && t[0] == '[' {
            in_sec = same(t, header);
        } else if in_sec {
            match key_value(t) {
                Some((k, _v)) => {
                    if same(&k, key) {
                        return Some(i);
                    }
                },
                None => {},
            }
        }
        i += 1;
    }
    None
}

/// The index of the first line that reads `header` once trimmed.
fn find_header(ts: &Vec<Vec<char>>, header: &Vec<char>) -> (r: Option<usize>)
    ensures
        match r {
            Some(i) => first_header(texts(ts@), header@, i as int),
            None => !has_header(texts(ts@), header@),
        },
{
    let mut i: usize = 0;
    while i < ts.len()
        invariant
            i <= ts.len(),
            forall|j: int| 0 <= j < i ==> texts(ts@)[j] != header@,
        decreases ts.len() - i,
    {
        if same(&ts[i], header) {
            return Some(i);
        }
        i += 1;
    }
    None
}

fn replace_at(ls: &mut Vec<String>, i: usize, s: String)
    requires
        i < old(ls).len(),
    ensures
        final(ls)@ == old(ls)@.update(i as int, s),
{
    ls.remove(i);
    ls.insert(i, s);
    assert(final(ls)@ =~= old(ls)@.update(i as int, s)) by {
    }
}

/// Appends `header` unless a line already reads it, after a blank line when
/// the last line is not blank.
pub fn ensure_header(lines: &mut Vec<String>, header: &str)
    ensures
        strings(final(lines)@) == ensure_header_spec(strings(old(lines)@), header@),
{
    let ts = trimmed_lines(lines);
    let h = chars_of(header);
    if let Some(_) = find_header(&ts, &h) {
        return;
    }
    let ghost before = strings(lines@);
    if lines.len() > 0 {
        let last = trim_text(&chars_of(lines[lines.len() - 1].as_str()));
        if last.len() > 0 {
            lines.push(String::new());
        }
    }
    lines.push(header.to_owned());
    assert(strings(lines@) =~= ensure_header_spec(before, header@));
}


pub proof fn lemma_header_ensured(ls: Seq<Seq<char>>, header: Seq<char>)
    requires
        trim(header) == header,
    ensures
        has_header(trims(ensure_header_spec(ls, header)), header),
{
    let l1 = ensure_header_spec(ls, header);
    if !has_header(trims(ls), header) {
        assert(trims(l1)[l1.len() - 1] == trim(header));
    }
}

/// Sets `key=value` in section `header`: rewrites the section's first entry
/// for `key`, or adds one right after the section header, which is added
/// first when missing.
pub fn set_pair(lines: &mut Vec<String>, header: &str, key: &str, value: &str)
    requires
        trim(header@) == header@,
    ensures
        strings(final(lines)@) == set_pair_spec(strings(old(lines)@), header@, key@, value@),
{
    ensure_header(lines, header);
    let ghost l1 = strings(lines@);
    proof {
        lemma_header_ensured(strings(old(lines)@), header@);
    }
    let ts = trimmed_lines(lines);
    let h = chars_of(header);
    let k = chars_of(key);
    let mut eq: Vec<char> = Vec::new();
    eq.push('=');
    let line = string_of(&concat(&concat(&k, &eq), &chars_of(value)));
    assert(line@ == pair_line(key@, value@));
    match find_entry(&ts, &h, &k) {
        Some(i) => {
            proof {
                lemma_first_entry_unique(trims(l1), header@, key@, i as int);
            }
            replace_at(lines, i, line);
            assert(strings(lines@) =~= l1.update(i as int, line@));
        },
        None => {
            match find_header(&ts, &h) {
                Some(p) => {
                    proof {
                        lemma_first_header_unique(trims(l1), header@, p as int);
                    }
                    lines.insert(p + 1, line);
                    assert(strings(lines@) =~= l1.insert(p + 1, line@));
                },
                None => {
                    assert(false);
                },
            }
        },
    }
}

/// Whether `d` is one of `pieces`.
fn contains_piece(pieces: &Vec<Vec<char>>, d: &Vec<char>) -> (b: bool)
    ensures
        b == texts(pieces@).contains(d@),
{
    let mut i: usize = 0;
    while i < pieces.len()
        invariant
            i <= pieces.len(),
            forall|j: int| 0 <= j < i ==> texts(pieces@)[j] != d@,
        decreases pieces.len() - i,
    {
        if same(&pieces[i], d) {
            assert(texts(pieces@)[i as int] == d@);
            return true;
        }
        i += 1;
    }
    false
}

/// Lists `desktop` for `key` in `[Added Associations]`, after the names
/// already listed there, unless it is listed already.
pub fn add_association(lines: &mut Vec<String>, key: &str, desktop: &str)
    ensures
        strings(final(lines)@) == add_association_spec(strings(old(lines)@), key@, desktop@),
{
    let header = "[Added Associations]";
    proof {
        reveal_strlit("[Added Associations]");
        assert(trim(added_header()) == added_header());
    }
    ensure_header(lines, header);
    let ghost l1 = strings(lines@);
    proof {
        lemma_header_ensured(strings(old(lines)@), added_header());
    }
    let ts = trimmed_lines(lines);
    let h = chars_of(header);
    let k = chars_of(key);
    let d = chars_of(desktop);
    let mut eq: Vec<char> = Vec::new();
    eq.push('=');
    let mut semi: Vec<char> = Vec::new();
    semi.push(';');
    match find_entry(&ts, &h, &k) {
        Some(i) => {
            proof {
                lemma_first_entry_unique(trims(l1), added_header(), key@, i as int);
            }
            let names = match key_value(&ts[i]) {
                Some((_k, v)) => v,
                None => {
                    assert(false);
                    Vec::new()
                },
            };
            let pieces = split_text(&names, ';');
            if contains_piece(&pieces, &d) {
                return;
            }
            let sep = if names.len() == 0 || ends_with_text(&names, &semi) {
                Vec::new()
            } else {
                slice(&semi, 0, 1)
            };
            let value = concat(&concat(&concat(&names, &sep), &d), &semi);
            let line = string_of(&concat(&concat(&k, &eq), &value));
            assert(sep@ == list_sep(names@));
            assert(line@ == pair_line(key@, names@ + list_sep(names@) + desktop@ + seq![';']));
            replace_at(lines, i, line);
            assert(strings(lines@) =~= l1.update(i as int, line@));
        },
        None => {
            match find_header(&ts, &h) {
                Some(p) => {
                    proof {
                        lemma_first_header_unique(trims(l1), added_header(), p as int);
                    }
                    let line = string_of(&concat(&concat(&k, &eq), &concat(&d, &semi)));
                    assert(line@ == pair_line(key@, desktop@ + seq![';']));
                    lines.insert(p + 1, line);
                    assert(strings(lines@) =~= l1.insert(p + 1, line@));
                },
                None => {
                    assert(false);
                },
            }
        },
    }
}

fn to_strings(v: &Vec<Vec<char>>) -> (r: Vec<String>)
    ensures
        strings(r@) == texts(v@),
{
    let mut r: Vec<String> = Vec::new();
    let mut i: usize = 0;
    while i < v.len()
        invariant
            i <= v.len(),
            strings(r@) == texts(v@).take(i as int),
        decreases v.len() - i,
    {
        let ghost before = strings(r@);
        let s = string_of(&v[i]);
        r.push(s);
        i += 1;
        assert(strings(r@) =~= before.push(s@));
        assert(texts(v@).take(i as int) =~= texts(v@).take(i - 1).push(v@[i - 1]@));
    }
    assert(texts(v@).take(v.len() as int) =~= texts(v@));
    r
}

fn to_texts(v: &Vec<String>) -> (r: Vec<Vec<char>>)
    ensures
        texts(r@) == strings(v@),
{
    let mut r: Vec<Vec<char>> = Vec::new();
    let mut i: usize = 0;
    while i < v.len()
        invariant
            i <= v.len(),
            texts(r@) == strings(v@).take(i as int),
        decreases v.len() - i,
    {
        let ghost before = texts(r@);
        let s = chars_of(v[i].as_str());
        r.push(s);
        i += 1;
        assert(texts(r@) =~= before.push(s@));
        assert(strings(v@).take(i as int) =~= strings(v@).take(i - 1).push(v@[i - 1]@));
    }
    assert(strings(v@).take(v.len() as int) =~= strings(v@));
    r
}

/// Makes `desktop` the default handler of `scheme` and lists it among the
/// scheme's added associations.
pub fn upsert_mimeapps(content: &mut String, scheme: &str, desktop: &str)
    ensures
        final(content)@ == upsert_spec(old(content)@, scheme@, desktop@),
{
    let ls = lines_text(&chars_of(content.as_str()));
    let mut v = to_strings(&ls);
    let key = scheme_key(scheme);
    let header = "[Default Applications]";
    proof {
        reveal_strlit("[Default Applications]");
        assert(trim(default_header()) == default_header());
    }
    set_pair(&mut v, header, key.as_str(), desktop);
    add_association(&mut v, key.as_str(), desktop);
    let parts = to_texts(&v);
    let mut nl: Vec<char> = Vec::new();
    nl.push('\n');
    let joined = concat(&join_texts(&parts, &nl), &nl);
    *content = string_of(&joined);
}

/// Whether the file names `desktop` as the default handler of `scheme`.
pub fn is_default(content: &str, scheme: &str, desktop: &str) -> (b: bool)
    ensures
        b == is_default_spec(content@, scheme@, desktop@),
{
    let ls = to_strings(&lines_text(&chars_of(content)));
    let ts = trimmed_lines(&ls);
    let key = scheme_key(scheme);
    let k = chars_of(key.as_str());
    let h = chars_of("[Default Applications]");
    match find_entry(&ts, &h, &k) {
        Some(i) => {
            proof {
                lemma_first_entry_unique(trims(strings(ls@)), default_header(), k@, i as int);
            }
            match key_value(&ts[i]) {
                Some((_k, v)) => {
                    let pieces = split_text(&v, ';');
                    contains_piece(&pieces, &chars_of(desktop))
                },
                None => {
                    assert(false);
                    false
                },
            }
        },
        None => false,
    }
}

} // verus!

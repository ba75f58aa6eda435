//! Resolution of a batch template into the argument list of the helper process.
//!
//! A template declares path variables on lines of the form `set NAME=%~dp0..\fragment`
//! and holds one command line that starts after the helper's name followed by a quote
//! and a space. Each argument of that command line has its `%NAME%` references replaced
//! by the declared paths.
use vstd::prelude::*;
use vstd::string::StringExecFns;
use crate::error::Error;
use crate::text::{
    chars_of, is_space, split_from, trim_end_len, trim_start_len, matches_at, occurs_at, remove_quotes, replace_all, replace_chars, split_words,
    string_of, strip_quotes, trim, trim_chars, views, words,
};

verus! {

/// The suffix of a template file name.
pub open spec fn bat_suffix() -> Seq<char> {
    seq!['.', 'b', 'a', 't']
}

/// The text after which the command line's arguments begin.
pub open spec fn marker() -> Seq<char> {
    seq!['w', 'i', 'n', 'w', 's', '.', 'e', 'x', 'e', '"', ' ']
}

/// The keyword that opens a variable declaration.
pub open spec fn set_keyword() -> Seq<char> {
    seq!['s', 'e', 't', ' ']
}

/// The text between a declared name and its path fragment.
pub open spec fn decl_prefix() -> Seq<char> {
    seq!['=', '%', '~', 'd', 'p', '0', '.', '.', '\\']
}

/// The file name of a template: the name itself if it ends with `.bat`, else the name
/// with `.bat` appended.
pub open spec fn bat_file_name_spec(name: Seq<char>) -> Seq<char> {
    if name.len() >= 4 && name.skip(name.len() - 4) == bat_suffix() {
        name
    } else {
        name + bat_suffix()
    }
}

/// Characters that may form a variable name: ASCII letters, digits and `_`. A name with
/// any other character, a non-ASCII letter included, makes no declaration.
pub open spec fn is_name_char(c: char) -> bool {
    ('a' <= c && c <= 'z') || ('A' <= c && c <= 'Z') || ('0' <= c && c <= '9') || c == '_'
}

/// The first index at or after `j` that does not hold a name character.
pub open spec fn name_end(line: Seq<char>, j: int) -> int
    decreases line.len() - j,
{
    if j < 0 || j >= line.len() || !is_name_char(line[j]) {
        j
    } else {
        name_end(line, j + 1)
    }
}

/// Whether a declaration starts at index `i` of `line`: `set `, a non-empty name,
/// `=%~dp0..\` and a non-empty fragment that runs to the end of the line.
pub open spec fn decl_at(line: Seq<char>, i: int) -> bool {
    let e = name_end(line, i + 4);
    &&& occurs_at(line, i, set_keyword())
    &&& e > i + 4
    &&& occurs_at(line, e, decl_prefix())
    &&& e + 9 < line.len()
}

/// The first declaration of `line` at or after index `i`, as (name, fragment).
pub open spec fn decl_from(line: Seq<char>, i: int) -> Option<(Seq<char>, Seq<char>)>
    decreases line.len() - i,
{
    if i < 0 || i >= line.len() {
        None
    } else if decl_at(line, i) {
        let e = name_end(line, i + 4);
        Some((line.subrange(i + 4, e), line.subrange(e + 9, line.len() as int)))
    } else {
        decl_from(line, i + 1)
    }
}

/// The placeholder that refers to a variable: its name between percent signs.
pub open spec fn placeholder(name: Seq<char>) -> Seq<char> {
    seq!['%'] + name + seq!['%']
}

/// The index of the first entry at or after `j` whose key is `k`, or -1.
pub open spec fn key_index(vars: Seq<(Seq<char>, Seq<char>)>, k: Seq<char>, j: int) -> int
    decreases vars.len() - j,
{
    if j < 0 || j >= vars.len() {
        -1
    } else if vars[j].0 == k {
        j
    } else {
        key_index(vars, k, j + 1)
    }
}

/// The table with `k` bound to `v`: an existing entry keeps its place and takes the new
/// value, a new key is appended.
pub open spec fn put(vars: Seq<(Seq<char>, Seq<char>)>, k: Seq<char>, v: Seq<char>) -> Seq<
    (Seq<char>, Seq<char>),
> {
    let i = key_index(vars, k, 0);
    if i >= 0 {
        vars.update(i, (k, v))
    } else {
        vars.push((k, v))
    }
}

/// The index of the first line feed of `s` at or after `i`, or -1.
pub open spec fn next_newline(s: Seq<char>, i: int) -> int
    decreases s.len() - i,
{
    if i < 0 || i >= s.len() {
        -1
    } else if s[i] == '\n' {
        i
    } else {
        next_newline(s, i + 1)
    }
}

/// A line without the carriage return that may end it.
pub open spec fn line_body(line: Seq<char>) -> Seq<char> {
    if line.len() > 0 && line.last() == '\r' {
        line.drop_last()
    } else {
        line
    }
}

/// The table after the declarations of the complete lines of `s` that start at or after
/// index `p` (a line is complete when a line feed ends it). A placeholder maps to `root`
/// followed by the declared fragment; a later declaration of a name wins.
pub open spec fn table_from(
    vars: Seq<(Seq<char>, Seq<char>)>,
    s: Seq<char>,
    p: int,
    root: Seq<char>,
) -> Seq<(Seq<char>, Seq<char>)>
    decreases s.len() - p,
{
    let q = next_newline(s, p);
    if q < p || q >= s.len() {
        vars
    } else {
        let next = match decl_from(line_body(s.subrange(p, q)), 0) {
            Some(d) => put(vars, placeholder(d.0), root + d.1),
            None => vars,
        };
        table_from(next, s, q + 1, root)
    }
}

/// The variable table that a template declares.
pub open spec fn declarations(content: Seq<char>, root: Seq<char>) -> Seq<(Seq<char>, Seq<char>)> {
    table_from(seq![], content, 0, root)
}

/// The index of the first occurrence of `pat` in `s` at or after `i`, or -1.
pub open spec fn find_from(s: Seq<char>, pat: Seq<char>, i: int) -> int
    decreases s.len() - i,
{
    if i < 0 || i + pat.len() > s.len() {
        -1
    } else if occurs_at(s, i, pat) {
        i
    } else if i >= s.len() {
        -1
    } else {
        find_from(s, pat, i + 1)
    }
}

/// `w` with the placeholders of `vars` replaced, one entry after another in table order.
pub open spec fn substitute(w: Seq<char>, vars: Seq<(Seq<char>, Seq<char>)>) -> Seq<char>
    decreases vars.len(),
{
    if vars.len() == 0 {
        w
    } else {
        replace_all(substitute(w, vars.drop_last()), vars.last().0, vars.last().1)
    }
}

/// The raw arguments of a command line: the text after the marker, trimmed, without
/// quotes, split on white space.
pub open spec fn raw_args(content: Seq<char>) -> Seq<Seq<char>> {
    let m = find_from(content, marker(), 0);
    words(strip_quotes(trim(content.skip(m + marker().len()))))
}

/// The resolved arguments of a template: each raw argument with its placeholders replaced
/// and the result trimmed; `None` when the template holds no command line.
pub open spec fn resolve(content: Seq<char>, root: Seq<char>) -> Option<Seq<Seq<char>>> {
    if find_from(content, marker(), 0) < 0 {
        None
    } else {
        let vars = declarations(content, root);
        let raw = raw_args(content);
        Some(Seq::new(raw.len(), |i: int| trim(substitute(raw[i], vars))))
    }
}


/// Whether `s` holds no character `c`.
pub open spec fn lacks(s: Seq<char>, c: char) -> bool {
    forall|i: int| 0 <= i < s.len() ==> s[i] != c
}

proof fn lemma_strip_quotes_lacks(s: Seq<char>)
    ensures
        lacks(strip_quotes(s), '"'),
    decreases s.len(),
{
    if s.len() > 0 {
        lemma_strip_quotes_lacks(s.drop_last());
    }
}

proof fn lemma_split_lacks(cur: Seq<char>, s: Seq<char>, c: char)
    requires
        lacks(cur, c),
        lacks(s, c),
    ensures
        forall|i: int| 0 <= i < split_from(cur, s).len() ==> lacks(#[trigger] split_from(cur, s)[i], c),
    decreases s.len(),
{
    if s.len() > 0 {
        assert(lacks(s.drop_first(), c)) by {
            assert forall|j: int| 0 <= j < s.drop_first().len() implies s.drop_first()[j] != c by {
                assert(s.drop_first()[j] == s[j + 1]);
            }
        }
        if is_space(s[0]) {
            assert(lacks(seq![], c));
            lemma_split_lacks(seq![], s.drop_first(), c);
            let head: Seq<Seq<char>> = if cur.len() == 0 { seq![] } else { seq![cur] };
            let rest = split_from(seq![], s.drop_first());
            assert(split_from(cur, s) == head + rest);
            if cur.len() > 0 {
                assert(head[0] == cur);
            }
            assert forall|i: int| 0 <= i < (head + rest).len() implies lacks(
                #[trigger] (head + rest)[i],
                c,
            ) by {
                if i >= head.len() {
                    assert((head + rest)[i] == rest[i - head.len()]);
                } else {
                    assert((head + rest)[i] == cur);
                }
            }
        } else {
            assert(lacks(cur.push(s[0]), c)) by {
                assert forall|j: int| 0 <= j < cur.push(s[0]).len() implies cur.push(s[0])[j]
                    != c by {
                    if j < cur.len() {
                        assert(cur.push(s[0])[j] == cur[j]);
                    }
                }
            }
            lemma_split_lacks(cur.push(s[0]), s.drop_first(), c);
            assert(split_from(cur, s) == split_from(cur.push(s[0]), s.drop_first()));
        }
    } else if cur.len() > 0 {
        assert(split_from(cur, s) == seq![cur]);
        assert(seq![cur][0] == cur);
    }
}

proof fn lemma_replace_lacks(s: Seq<char>, from: Seq<char>, to: Seq<char>, c: char)
    requires
        lacks(s, c),
        lacks(to, c),
    ensures
        lacks(replace_all(s, from, to), c),
    decreases s.len(),
{
    if s.len() > 0 {
        if from.len() > 0 && occurs_at(s, 0, from) {
            lemma_replace_lacks(s.skip(from.len() as int), from, to, c);
        } else {
            lemma_replace_lacks(s.drop_first(), from, to, c);
        }
    }
}

proof fn lemma_substitute_lacks(w: Seq<char>, vars: Seq<(Seq<char>, Seq<char>)>, c: char)
    requires
        lacks(w, c),
        forall|i: int| 0 <= i < vars.len() ==> lacks(#[trigger] vars[i].1, c),
    ensures
        lacks(substitute(w, vars), c),
    decreases vars.len(),
{
    if vars.len() > 0 {
        lemma_substitute_lacks(w, vars.drop_last(), c);
        lemma_replace_lacks(substitute(w, vars.drop_last()), vars.last().0, vars.last().1, c);
    }
}

/// Every argument that a template resolves to is free of double quotes, provided the
/// paths that its variables stand for are; and the arguments come in the order of the
/// command line, each the substitution of the raw argument at the same place.
pub proof fn lemma_resolved_args_unquoted(content: Seq<char>, root: Seq<char>)
    requires
        resolve(content, root) is Some,
        forall|i: int|
            0 <= i < declarations(content, root).len() ==> lacks(
                #[trigger] declarations(content, root)[i].1,
                '"',
            ),
    ensures
        resolve(content, root)->0.len() == raw_args(content).len(),
        forall|i: int|
            0 <= i < resolve(content, root)->0.len() ==> {
                &&& lacks(#[trigger] resolve(content, root)->0[i], '"')
                &&& resolve(content, root)->0[i] == trim(
                    substitute(raw_args(content)[i], declarations(content, root)),
                )
            },
{
    let m = find_from(content, marker(), 0);
    let stripped = strip_quotes(trim(content.skip(m + marker().len())));
    lemma_strip_quotes_lacks(trim(content.skip(m + marker().len())));
    lemma_split_lacks(seq![], stripped, '"');
    let raw = raw_args(content);
    let vars = declarations(content, root);
    assert forall|i: int| 0 <= i < resolve(content, root)->0.len() implies lacks(
        #[trigger] resolve(content, root)->0[i],
        '"',
    ) by {
        lemma_substitute_lacks(raw[i], vars, '"');
        let t = substitute(raw[i], vars);
        let e = trim_end_len(t);
        let b = trim_start_len(t);
        lemma_trim_bounds(t);
        if b <= e {
            assert forall|j: int| 0 <= j < trim(t).len() implies trim(t)[j] != '"' by {
                assert(trim(t)[j] == t[b + j]);
            }
        }
    }
}

proof fn lemma_trim_bounds(s: Seq<char>)
    ensures
        trim_start_len(s) <= s.len(),
        trim_end_len(s) <= s.len(),
    decreases s.len(),
{
    if s.len() > 0 {
        lemma_trim_bounds(s.drop_first());
        lemma_trim_bounds(s.drop_last());
    }
}

/// A placeholder: one or more name characters between two percent signs.
pub open spec fn is_key(k: Seq<char>) -> bool {
    &&& k.len() >= 3
    &&& k[0] == '%'
    &&& k.last() == '%'
    &&& forall|j: int| 1 <= j < k.len() - 1 ==> is_name_char(#[trigger] k[j])
}

/// A table whose keys are distinct placeholders.
pub open spec fn good_table(vars: Seq<(Seq<char>, Seq<char>)>) -> bool {
    &&& forall|i: int| 0 <= i < vars.len() ==> is_key(#[trigger] vars[i].0)
    &&& forall|i: int, j: int| 0 <= i < j < vars.len() ==> vars[i].0 != vars[j].0
}

proof fn lemma_key_index(vars: Seq<(Seq<char>, Seq<char>)>, k: Seq<char>, j: int)
    requires
        0 <= j,
    ensures
        key_index(vars, k, j) >= 0 ==> j <= key_index(vars, k, j) < vars.len() && vars[key_index(
            vars,
            k,
            j,
        )].0 == k,
        key_index(vars, k, j) < 0 ==> forall|i: int| j <= i < vars.len() ==> vars[i].0 != k,
    decreases vars.len() - j,
{
    if j < vars.len() && vars[j].0 != k {
        lemma_key_index(vars, k, j + 1);
    }
}

proof fn lemma_put_good(vars: Seq<(Seq<char>, Seq<char>)>, k: Seq<char>, v: Seq<char>)
    requires
        good_table(vars),
        is_key(k),
    ensures
        good_table(put(vars, k, v)),
{
    lemma_key_index(vars, k, 0);
    let r = put(vars, k, v);
    if key_index(vars, k, 0) < 0 {
        assert forall|i: int| 0 <= i < r.len() implies is_key(#[trigger] r[i].0) by {
            if i < vars.len() {
                assert(r[i] == vars[i]);
            }
        }
        assert forall|i: int, j: int| 0 <= i < j < r.len() implies r[i].0 != r[j].0 by {
            if j < vars.len() {
                assert(r[i] == vars[i] && r[j] == vars[j]);
            } else {
                assert(r[i] == vars[i]);
            }
        }
    }
}

proof fn lemma_name_end(line: Seq<char>, j: int)
    requires
        0 <= j,
    ensures
        j <= name_end(line, j),
        name_end(line, j) <= line.len() || name_end(line, j) == j,
        forall|m: int| j <= m < name_end(line, j) ==> is_name_char(#[trigger] line[m]),
    decreases line.len() - j,
{
    if j < line.len() && is_name_char(line[j]) {
        lemma_name_end(line, j + 1);
    }
}

proof fn lemma_decl_name(line: Seq<char>, i: int)
    requires
        0 <= i,
    ensures
        decl_from(line, i) matches Some(d) ==> is_key(placeholder(d.0)),
    decreases line.len() - i,
{
    if 0 <= i < line.len() {
        if decl_at(line, i) {
            lemma_name_end(line, i + 4);
            let e = name_end(line, i + 4);
            let k = placeholder(line.subrange(i + 4, e));
            assert forall|j: int| 1 <= j < k.len() - 1 implies is_name_char(#[trigger] k[j]) by {
                assert(k[j] == line[i + 4 + j - 1]);
                assert(is_name_char(line[i + 4 + j - 1]));
            }
        } else {
            lemma_decl_name(line, i + 1);
        }
    }
}

proof fn lemma_table_good(
    vars: Seq<(Seq<char>, Seq<char>)>,
    s: Seq<char>,
    p: int,
    root: Seq<char>,
)
    requires
        good_table(vars),
    ensures
        good_table(table_from(vars, s, p, root)),
    decreases s.len() - p,
{
    let q = next_newline(s, p);
    if !(q < p || q >= s.len()) {
        let line = line_body(s.subrange(p, q));
        lemma_decl_name(line, 0);
        let next = match decl_from(line, 0) {
            Some(d) => put(vars, placeholder(d.0), root + d.1),
            None => vars,
        };
        if decl_from(line, 0) is Some {
            let d = decl_from(line, 0)->0;
            lemma_put_good(vars, placeholder(d.0), root + d.1);
        }
        lemma_table_good(next, s, q + 1, root);
    }
}

/// Whether `k` occurs nowhere in `s`.
pub open spec fn absent(s: Seq<char>, k: Seq<char>) -> bool {
    forall|p: int| 0 <= p < s.len() ==> !occurs_at(s, p, k)
}

proof fn lemma_replace_absent(s: Seq<char>, k: Seq<char>, v: Seq<char>)
    requires
        k.len() > 0,
        absent(s, k),
    ensures
        replace_all(s, k, v) == s,
    decreases s.len(),
{
    if s.len() > 0 {
        let t = s.drop_first();
        assert forall|p: int| 0 <= p < t.len() implies !occurs_at(t, p, k) by {
            if occurs_at(t, p, k) {
                assert(s.subrange(p + 1, p + 1 + k.len()) =~= t.subrange(p, p + k.len()));
                assert(occurs_at(s, p + 1, k));
            }
        }
        lemma_replace_absent(t, k, v);
        assert(seq![s[0]] + t =~= s);
    }
}

proof fn lemma_absent_without_percent(s: Seq<char>, k: Seq<char>)
    requires
        lacks(s, '%'),
        k.len() > 0,
        k[0] == '%',
    ensures
        absent(s, k),
{
    assert forall|p: int| 0 <= p < s.len() implies !occurs_at(s, p, k) by {
        if occurs_at(s, p, k) {
            assert(s.subrange(p, p + k.len())[0] == s[p]);
        }
    }
}

proof fn lemma_other_key_absent(a: Seq<char>, b: Seq<char>, tail: Seq<char>)
    requires
        is_key(a),
        is_key(b),
        a != b,
        lacks(tail, '%'),
    ensures
        absent(b + tail, a),
{
    let w = b + tail;
    let la = a.len() as int;
    let lb = b.len() as int;
    assert forall|p: int| 0 <= p < w.len() implies !occurs_at(w, p, a) by {
        if occurs_at(w, p, a) {
            let sub = w.subrange(p, p + la);
            assert(sub == a);
            if p == 0 {
                if la == lb {
                    assert(b =~= sub);
                } else if la < lb {
                    assert(sub[la - 1] == b[la - 1]);
                } else {
                    assert(sub[lb - 1] == b[lb - 1]);
                    assert(a[lb - 1] != '%');
                }
            } else if p < lb {
                assert(sub[0] == b[p]);
                assert(p == lb - 1);
                assert(sub[la - 1] == w[p + la - 1]);
                assert(w[p + la - 1] == tail[p + la - 1 - lb]);
            } else {
                assert(sub[0] == w[p]);
                assert(w[p] == tail[p - lb]);
            }
        }
    }
}

proof fn lemma_lacks_concat(a: Seq<char>, b: Seq<char>, c: char)
    requires
        lacks(a, c),
        lacks(b, c),
    ensures
        lacks(a + b, c),
{
    assert forall|i: int| 0 <= i < (a + b).len() implies (a + b)[i] != c by {
        if i >= a.len() {
            assert((a + b)[i] == b[i - a.len()]);
        } else {
            assert((a + b)[i] == a[i]);
        }
    }
}

proof fn lemma_substitute_placeholder(
    vars: Seq<(Seq<char>, Seq<char>)>,
    j: int,
    tail: Seq<char>,
    n: int,
)
    requires
        good_table(vars),
        0 <= j < vars.len(),
        0 <= n <= vars.len(),
        lacks(tail, '%'),
        forall|i: int| 0 <= i < vars.len() ==> lacks(#[trigger] vars[i].1, '%'),
    ensures
        substitute(vars[j].0 + tail, vars.take(n)) == if n <= j {
            vars[j].0 + tail
        } else {
            vars[j].1 + tail
        },
    decreases n,
{
    let w = vars[j].0 + tail;
    if n > 0 {
        lemma_substitute_placeholder(vars, j, tail, n - 1);
        assert(vars.take(n).drop_last() =~= vars.take(n - 1));
        let k = vars[n - 1].0;
        let v = vars[n - 1].1;
        assert(vars.take(n).last() == vars[n - 1]);
        assert(is_key(k));
        if n - 1 < j {
            assert(is_key(vars[j].0));
            lemma_other_key_absent(k, vars[j].0, tail);
            lemma_replace_absent(w, k, v);
        } else if n - 1 == j {
            assert(occurs_at(w, 0, k)) by {
                assert(w.subrange(0, k.len() as int) =~= k);
            }
            assert(w.skip(k.len() as int) =~= tail);
            lemma_absent_without_percent(tail, k);
            lemma_replace_absent(tail, k, v);
        } else {
            lemma_lacks_concat(vars[j].1, tail, '%');
            lemma_absent_without_percent(vars[j].1 + tail, k);
            lemma_replace_absent(vars[j].1 + tail, k, v);
        }
    } else {
        assert(vars.take(0).len() == 0);
    }
}

/// A raw argument that starts with a declared placeholder, the rest holding no percent
/// sign, resolves to the placeholder's path followed by that rest (trimmed), provided no
/// declared path holds a percent sign.
pub proof fn lemma_placeholder_replaced(
    content: Seq<char>,
    root: Seq<char>,
    i: int,
    j: int,
    tail: Seq<char>,
)
    requires
        resolve(content, root) is Some,
        0 <= i < raw_args(content).len(),
        0 <= j < declarations(content, root).len(),
        raw_args(content)[i] == declarations(content, root)[j].0 + tail,
        lacks(tail, '%'),
        forall|k: int|
            0 <= k < declarations(content, root).len() ==> lacks(
                #[trigger] declarations(content, root)[k].1,
                '%',
            ),
    ensures
        resolve(content, root)->0[i] == trim(declarations(content, root)[j].1 + tail),
{
    let vars = declarations(content, root);
    lemma_table_good(seq![], content, 0, root);
    lemma_substitute_placeholder(vars, j, tail, vars.len() as int);
    assert(vars.take(vars.len() as int) =~= vars);
}

/// Whether every character of `s` is a name character.
pub open spec fn names_only(s: Seq<char>) -> bool {
    forall|i: int| 0 <= i < s.len() ==> is_name_char(#[trigger] s[i])
}

/// A replacement text that cannot help form a placeholder: it holds no percent sign and
/// at least one character that is not a name character.
pub open spec fn inert(v: Seq<char>) -> bool {
    lacks(v, '%') && !names_only(v)
}

proof fn lemma_prefix_back(t: Seq<char>, k2: Seq<char>, to: Seq<char>, q: Seq<char>)
    requires
        is_key(k2),
        inert(to),
        q.len() >= 1,
        q.last() == '%',
        forall|i: int| 0 <= i < q.len() - 1 ==> is_name_char(#[trigger] q[i]),
        replace_all(t, k2, to).len() >= q.len(),
        replace_all(t, k2, to).take(q.len() as int) == q,
    ensures
        t.len() >= q.len(),
        t.take(q.len() as int) == q,
    decreases q.len(),
{
    let x = replace_all(t, k2, to);
    let n = q.len() as int;
    assert(x.take(n)[0] == x[0]);
    if occurs_at(t, 0, k2) {
        let y = replace_all(t.skip(k2.len() as int), k2, to);
        assert(x == to + y);
        if to.len() >= n {
            assert(x.take(n)[n - 1] == to[n - 1]);
        } else {
            assert forall|i: int| 0 <= i < to.len() implies is_name_char(#[trigger] to[i]) by {
                assert(x.take(n)[i] == to[i]);
            }
        }
    } else {
        let y = replace_all(t.drop_first(), k2, to);
        assert(x == seq![t[0]] + y);
        if n > 1 {
            let q2 = q.drop_first();
            assert(y.take(n - 1) =~= q2) by {
                assert forall|i: int| 0 <= i < n - 1 implies y.take(n - 1)[i] == q2[i] by {
                    assert(x.take(n)[i + 1] == x[i + 1]);
                }
            }
            assert forall|i: int| 0 <= i < q2.len() - 1 implies is_name_char(#[trigger] q2[i]) by {
                assert(q2[i] == q[i + 1]);
            }
            lemma_prefix_back(t.drop_first(), k2, to, q2);
            assert(t.take(n) =~= seq![t[0]] + t.drop_first().take(n - 1));
            assert(t.take(n) =~= q) by {
                assert forall|i: int| 0 <= i < n implies t.take(n)[i] == q[i] by {
                    if i > 0 {
                        assert(t.drop_first().take(n - 1)[i - 1] == q2[i - 1]);
                    }
                }
            }
        } else {
            assert(t.take(1) =~= q);
        }
    }
}

proof fn lemma_replace_keeps_absent(t: Seq<char>, k: Seq<char>, k2: Seq<char>, to: Seq<char>)
    requires
        is_key(k),
        is_key(k2),
        inert(to),
        k == k2 || absent(t, k),
    ensures
        absent(replace_all(t, k2, to), k),
    decreases t.len(),
{
    let x = replace_all(t, k2, to);
    if t.len() > 0 {
        if occurs_at(t, 0, k2) {
            let rest = t.skip(k2.len() as int);
            if k != k2 {
                assert forall|p: int| 0 <= p < rest.len() implies !occurs_at(rest, p, k) by {
                    if occurs_at(rest, p, k) {
                        assert(t.subrange(p + k2.len(), p + k2.len() + k.len()) =~= rest.subrange(
                            p,
                            p + k.len(),
                        ));
                        assert(occurs_at(t, p + k2.len(), k));
                    }
                }
            }
            lemma_replace_keeps_absent(rest, k, k2, to);
            let y = replace_all(rest, k2, to);
            assert(x == to + y);
            assert forall|p: int| 0 <= p < x.len() implies !occurs_at(x, p, k) by {
                if occurs_at(x, p, k) {
                    assert(x.subrange(p, p + k.len())[0] == x[p]);
                    if p >= to.len() {
                        assert(x.subrange(p, p + k.len()) =~= y.subrange(
                            p - to.len(),
                            p - to.len() + k.len(),
                        ));
                        assert(occurs_at(y, p - to.len(), k));
                    } else {
                        assert(x[p] == to[p]);
                    }
                }
            }
        } else {
            let rest = t.drop_first();
            if k != k2 {
                assert forall|p: int| 0 <= p < rest.len() implies !occurs_at(rest, p, k) by {
                    if occurs_at(rest, p, k) {
                        assert(t.subrange(p + 1, p + 1 + k.len()) =~= rest.subrange(p, p + k.len()));
                        assert(occurs_at(t, p + 1, k));
                    }
                }
            }
            lemma_replace_keeps_absent(rest, k, k2, to);
            let y = replace_all(rest, k2, to);
            assert(x == seq![t[0]] + y);
            assert forall|p: int| 0 <= p < x.len() implies !occurs_at(x, p, k) by {
                if occurs_at(x, p, k) {
                    if p >= 1 {
                        assert(x.subrange(p, p + k.len()) =~= y.subrange(p - 1, p - 1 + k.len()));
                        assert(occurs_at(y, p - 1, k));
                    } else {
                        let q = k.drop_first();
                        assert(y.take(q.len() as int) =~= q) by {
                            assert forall|i: int| 0 <= i < q.len() implies y.take(
                                q.len() as int,
                            )[i] == q[i] by {
                                assert(x.subrange(0, k.len() as int)[i + 1] == x[i + 1]);
                            }
                        }
                        assert forall|i: int| 0 <= i < q.len() - 1 implies is_name_char(
                            #[trigger] q[i],
                        ) by {
                            assert(q[i] == k[i + 1]);
                        }
                        lemma_prefix_back(rest, k2, to, q);
                        assert(x.subrange(0, k.len() as int)[0] == t[0]);
                        assert(t.subrange(0, k.len() as int) =~= k) by {
                            assert forall|i: int| 0 <= i < k.len() implies t.subrange(
                                0,
                                k.len() as int,
                            )[i] == k[i] by {
                                if i > 0 {
                                    assert(rest.take(q.len() as int)[i - 1] == q[i - 1]);
                                }
                            }
                        }
                        assert(occurs_at(t, 0, k));
                    }
                }
            }
        }
    }
}

proof fn lemma_substitute_removes(
    w: Seq<char>,
    vars: Seq<(Seq<char>, Seq<char>)>,
    j: int,
    n: int,
)
    requires
        good_table(vars),
        0 <= j < n <= vars.len(),
        forall|i: int| 0 <= i < vars.len() ==> inert(#[trigger] vars[i].1),
    ensures
        absent(substitute(w, vars.take(n)), vars[j].0),
    decreases n,
{
    assert(vars.take(n).drop_last() =~= vars.take(n - 1));
    assert(vars.take(n).last() == vars[n - 1]);
    let prev = substitute(w, vars.take(n - 1));
    if n - 1 > j {
        lemma_substitute_removes(w, vars, j, n - 1);
    }
    lemma_replace_keeps_absent(prev, vars[j].0, vars[n - 1].0, vars[n - 1].1);
}

/// No declared placeholder is left in any resolved argument, provided every declared path
/// holds no percent sign and at least one character that is not a name character (as a
/// path with a separator does).
pub proof fn lemma_placeholders_all_replaced(content: Seq<char>, root: Seq<char>)
    requires
        resolve(content, root) is Some,
        forall|k: int|
            0 <= k < declarations(content, root).len() ==> inert(
                #[trigger] declarations(content, root)[k].1,
            ),
    ensures
        forall|i: int, j: int|
            0 <= i < resolve(content, root)->0.len() && 0 <= j < declarations(content, root).len()
                ==> absent(#[trigger] resolve(content, root)->0[i], #[trigger] declarations(
                content,
                root,
            )[j].0),
{
    let vars = declarations(content, root);
    let raw = raw_args(content);
    lemma_table_good(seq![], content, 0, root);
    assert(vars.take(vars.len() as int) =~= vars);
    assert forall|i: int, j: int|
        0 <= i < resolve(content, root)->0.len() && 0 <= j < vars.len() implies absent(
        #[trigger] resolve(content, root)->0[i],
        #[trigger] vars[j].0,
    ) by {
        lemma_substitute_removes(raw[i], vars, j, vars.len() as int);
        let t = substitute(raw[i], vars);
        let k = vars[j].0;
        lemma_trim_bounds(t);
        let b = trim_start_len(t) as int;
        let e = trim_end_len(t) as int;
        let r = trim(t);
        assert forall|p: int| 0 <= p < r.len() implies !occurs_at(r, p, k) by {
            if occurs_at(r, p, k) {
                assert(b <= e);
                assert(r.subrange(p, p + k.len()) =~= t.subrange(b + p, b + p + k.len()));
                assert(occurs_at(t, b + p, k));
            }
        }
    }
}

/// The views of a variable table.
pub open spec fn table_view(v: Seq<(Vec<char>, Vec<char>)>) -> Seq<(Seq<char>, Seq<char>)> {
    Seq::new(v.len(), |i: int| (v[i].0@, v[i].1@))
}

/// The views of a list of strings.
pub open spec fn strings_view(v: Seq<String>) -> Seq<Seq<char>> {
    Seq::new(v.len(), |i: int| v[i]@)
}

fn chars_equal(a: &Vec<char>, b: &Vec<char>) -> (r: bool)
    ensures
        r == (a@ == b@),
{
    if a.len() != b.len() {
        return false;
    }
    let r = matches_at(a, 0, b);
    proof {
        if r {
            assert(a@.subrange(0, b@.len() as int) =~= a@);
        } else {
            assert(a@.subrange(0, b@.len() as int) =~= a@);
        }
    }
    r
}

/// The file name of the template called `name`: `.bat` is appended unless the name
/// already ends with it.
pub fn bat_file_name(name: &str) -> (r: String)
    ensures
        r@ == bat_file_name_spec(name@),
{
    let mut v = chars_of(name);
    let suffix = vec!['.', 'b', 'a', 't'];
    assert(suffix@ =~= bat_suffix());
    let n = v.len();
    if n >= 4 && matches_at(&v, n - 4, &suffix) {
        assert(v@.subrange(n - 4, n as int) =~= v@.skip(n - 4));
    } else {
        proof {
            if n >= 4 {
                assert(v@.subrange(n - 4, n as int) =~= v@.skip(n - 4));
            }
        }
        let ghost v0 = v@;
        let mut k: usize = 0;
        while k < 4
            invariant
                k <= 4,
                suffix@ == bat_suffix(),
                v@ == v0 + bat_suffix().take(k as int),
            decreases 4 - k,
        {
            v.push(suffix[k]);
            k = k + 1;
            assert(v@ =~= v0 + bat_suffix().take(k as int));
        }
        assert(bat_suffix().take(4) =~= bat_suffix());
    }
    string_of(&v)
}

fn is_name_char_exec(c: char) -> (r: bool)
    ensures
        r == is_name_char(c),
{
    ('a' <= c && c <= 'z') || ('A' <= c && c <= 'Z') || ('0' <= c && c <= '9') || c == '_'
}

fn name_end_exec(line: &Vec<char>, j: usize) -> (r: usize)
    requires
        j <= line.len(),
    ensures
        r == name_end(line@, j as int),
        j <= r <= line.len(),
{
    let mut k = j;
    while k < line.len() && is_name_char_exec(line[k])
        invariant
            j <= k <= line.len(),
            name_end(line@, j as int) == name_end(line@, k as int),
        decreases line.len() - k,
    {
        k = k + 1;
    }
    k
}

fn copy_range(s: &Vec<char>, from: usize, to: usize) -> (r: Vec<char>)
    requires
        from <= to <= s.len(),
    ensures
        r@ == s@.subrange(from as int, to as int),
{
    let mut out: Vec<char> = Vec::new();
    let mut k = from;
    while k < to
        invariant
            from <= k <= to <= s.len(),
            out@ == s@.subrange(from as int, k as int),
        decreases to - k,
    {
        out.push(s[k]);
        k = k + 1;
        assert(out@ =~= s@.subrange(from as int, k as int));
    }
    out
}

/// The first declaration of a line, as (name, fragment).
fn line_decl(line: &Vec<char>) -> (r: Option<(Vec<char>, Vec<char>)>)
    ensures
        decl_from(line@, 0) == match r {
            Some(d) => Some((d.0@, d.1@)),
            None => None,
        },
{
    let keyword = vec!['s', 'e', 't', ' '];
    let prefix = vec!['=', '%', '~', 'd', 'p', '0', '.', '.', '\\'];
    assert(keyword@ =~= set_keyword());
    assert(prefix@ =~= decl_prefix());
    let mut i: usize = 0;
    while i < line.len()
        invariant
            i <= line.len(),
            keyword@ == set_keyword(),
            prefix@ == decl_prefix(),
            decl_from(line@, 0) == decl_from(line@, i as int),
        decreases line.len() - i,
    {
        if matches_at(line, i, &keyword) {
            let e = name_end_exec(line, i + 4);
            if e > i + 4 && matches_at(line, e, &prefix) && e + 9 < line.len() {
                let name = copy_range(line, i + 4, e);
                let frag = copy_range(line, e + 9, line.len());
                return Some((name, frag));
            }
        }
        i = i + 1;
    }
    None
}

/// Binds `k` to `v` in the table: an existing entry takes the new value in place, a new
/// key is appended.
fn put_var(vars: &mut Vec<(Vec<char>, Vec<char>)>, k: Vec<char>, v: Vec<char>)
    ensures
        table_view(final(vars)@) == put(table_view(old(vars)@), k@, v@),
{
    let ghost tv = table_view(vars@);
    let mut j: usize = 0;
    while j < vars.len()
        invariant
            j <= vars.len(),
            vars@ == old(vars)@,
            tv == table_view(vars@),
            key_index(tv, k@, 0) == key_index(tv, k@, j as int),
        decreases vars.len() - j,
    {
        if chars_equal(&vars[j].0, &k) {
            vars[j] = (k, v);
            assert(table_view(vars@) =~= tv.update(j as int, (k@, v@)));
            return;
        }
        j = j + 1;
    }
    vars.push((k, v));
    assert(table_view(vars@) =~= tv.push((k@, v@)));
}

/// The variable table that a template declares; each placeholder maps to `root` followed
/// by the declared fragment.
pub fn parse_declarations(content: &Vec<char>, root: &Vec<char>) -> (r: Vec<(Vec<char>, Vec<char>)>)
    ensures
        table_view(r@) == declarations(content@, root@),
{
    let mut vars: Vec<(Vec<char>, Vec<char>)> = Vec::new();
    let mut p: usize = 0;
    assert(table_view(vars@) =~= Seq::<(Seq<char>, Seq<char>)>::empty());
    while p < content.len()
        invariant
            p <= content.len(),
            table_from(table_view(vars@), content@, p as int, root@) == declarations(
                content@,
                root@,
            ),
        decreases content.len() - p,
    {
        let mut q = p;
        while q < content.len() && content[q] != '\n'
            invariant
                p <= q <= content.len(),
                next_newline(content@, p as int) == next_newline(content@, q as int),
            decreases content.len() - q,
        {
            q = q + 1;
        }
        if q == content.len() {
            return vars;
        }
        let mut end = q;
        if end > p && content[end - 1] == '\r' {
            end = end - 1;
        }
        let line = copy_range(content, p, end);
        assert(line@ =~= line_body(content@.subrange(p as int, q as int)));
        match line_decl(&line) {
            Some((name, frag)) => {
                let mut key: Vec<char> = Vec::new();
                key.push('%');
                let mut k: usize = 0;
                while k < name.len()
                    invariant
                        k <= name.len(),
                        key@ == seq!['%'] + name@.take(k as int),
                    decreases name.len() - k,
                {
                    key.push(name[k]);
                    k = k + 1;
                    assert(key@ =~= seq!['%'] + name@.take(k as int));
                }
                key.push('%');
                assert(key@ =~= placeholder(name@));
                let mut value = copy_range(root, 0, root.len());
                assert(root@.subrange(0, root@.len() as int) =~= root@);
                let mut k: usize = 0;
                while k < frag.len()
                    invariant
                        k <= frag.len(),
                        value@ == root@ + frag@.take(k as int),
                    decreases frag.len() - k,
                {
                    value.push(frag[k]);
                    k = k + 1;
                    assert(value@ =~= root@ + frag@.take(k as int));
                }
                assert(frag@.take(frag@.len() as int) =~= frag@);
                put_var(&mut vars, key, value);
            },
            None => {},
        }
        p = q + 1;
    }
    vars
}

/// The index of the first occurrence of `pat` in `s`, if any.
fn find_chars(s: &Vec<char>, pat: &Vec<char>) -> (r: Option<usize>)
    ensures
        find_from(s@, pat@, 0) == match r {
            Some(i) => i as int,
            None => -1,
        },
{
    let mut i: usize = 0;
    while i < s.len()
        invariant
            i <= s.len(),
            find_from(s@, pat@, 0) == find_from(s@, pat@, i as int),
        decreases s.len() - i,
    {
        if pat.len() > s.len() - i {
            return None;
        }
        if matches_at(s, i, pat) {
            return Some(i);
        }
        i = i + 1;
    }
    if pat.len() == 0 {
        assert(occurs_at(s@, i as int, pat@)) by {
            assert(s@.subrange(i as int, i as int) =~= pat@);
        }
        return Some(i);
    }
    None
}

proof fn lemma_find_from_occurs(s: Seq<char>, pat: Seq<char>, i: int)
    ensures
        find_from(s, pat, i) >= 0 ==> find_from(s, pat, i) >= i && occurs_at(
            s,
            find_from(s, pat, i),
            pat,
        ),
    decreases s.len() - i,
{
    if i >= 0 && i + pat.len() <= s.len() && !occurs_at(s, i, pat) && i < s.len() {
        lemma_find_from_occurs(s, pat, i + 1);
    }
}

/// `w` with the placeholders of the table replaced, entry after entry.
pub fn substitute_vars(w: &Vec<char>, vars: &Vec<(Vec<char>, Vec<char>)>) -> (r: Vec<char>)
    ensures
        r@ == substitute(w@, table_view(vars@)),
{
    let ghost tv = table_view(vars@);
    let mut cur = copy_range(w, 0, w.len());
    assert(w@.subrange(0, w@.len() as int) =~= w@);
    assert(tv.take(0) =~= Seq::<(Seq<char>, Seq<char>)>::empty());
    let mut j: usize = 0;
    while j < vars.len()
        invariant
            j <= vars.len(),
            tv == table_view(vars@),
            cur@ == substitute(w@, tv.take(j as int)),
        decreases vars.len() - j,
    {
        cur = replace_chars(&cur, &vars[j].0, &vars[j].1);
        assert(tv.take(j + 1).drop_last() =~= tv.take(j as int));
        j = j + 1;
    }
    assert(tv.take(vars.len() as int) =~= tv);
    cur
}

/// The arguments that the template `name` with text `content` gives the helper process,
/// `root` standing for the directory that `%~dp0..\` names. Fails with
/// `FailedParseBatFile(name)` exactly when the template holds no command line.
pub fn parse_bat_args(name: &str, content: &str, root: &str) -> (r: Result<Vec<String>, Error>)
    ensures
        resolve(content@, root@) is None <==> r is Err,
        find_from(content@, marker(), 0) < 0 <==> r is Err,
        r matches Err(e) ==> e matches Error::FailedParseBatFile(n) && n@ == name@,
        r matches Ok(v) ==> resolve(content@, root@) == Some(strings_view(v@)),
{
    let text = chars_of(content);
    let root_chars = chars_of(root);
    let m = vec!['w', 'i', 'n', 'w', 's', '.', 'e', 'x', 'e', '"', ' '];
    assert(m@ =~= marker());
    match find_chars(&text, &m) {
        None => Err(Error::FailedParseBatFile(String::from_str(name))),
        Some(i) => {
            proof {
                lemma_find_from_occurs(text@, m@, 0);
            }
            let vars = parse_declarations(&text, &root_chars);
            let rest = copy_range(&text, i + m.len(), text.len());
            assert(rest@ =~= text@.skip(i + marker().len()));
            let raw = split_words(&remove_quotes(&trim_chars(&rest)));
            let ghost rv = views(raw@);
            let mut out: Vec<String> = Vec::new();
            let mut k: usize = 0;
            while k < raw.len()
                invariant
                    k <= raw.len(),
                    rv == views(raw@),
                    table_view(vars@) == declarations(text@, root_chars@),
                    strings_view(out@) == Seq::new(
                        k as nat,
                        |j: int| trim(substitute(rv[j], table_view(vars@))),
                    ),
                decreases raw.len() - k,
            {
                let arg = trim_chars(&substitute_vars(&raw[k], &vars));
                let ghost before = strings_view(out@);
                let arg_string = string_of(&arg);
                out.push(arg_string);
                assert(rv[k as int] == raw@[k as int]@);
                assert(strings_view(out@) =~= before.push(arg@));
                k = k + 1;
                assert(strings_view(out@) =~= Seq::new(
                    k as nat,
                    |j: int| trim(substitute(rv[j], table_view(vars@))),
                ));
            }
            Ok(out)
        },
    }
}

} // verus!

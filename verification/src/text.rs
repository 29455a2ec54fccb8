//! Character-sequence utilities shared by the parsers and renderers.
//!
//! Text is handled as sequences of `char`, which is how every parser and
//! renderer of the library is specified.

use vstd::prelude::*;

verus! {

// ── Specification ─────────────────────────────────────────────────

/// Unicode `White_Space`, the set that `char::is_whitespace` tests.
pub open spec fn is_ws(c: char) -> bool {
    let u = c as u32;
    ||| 0x09 <= u <= 0x0D
    ||| u == 0x20
    ||| u == 0x85
    ||| u == 0xA0
    ||| u == 0x1680
    ||| 0x2000 <= u <= 0x200A
    ||| u == 0x2028
    ||| u == 0x2029
    ||| u == 0x202F
    ||| u == 0x205F
    ||| u == 0x3000
}

/// `s` with leading whitespace removed.
pub open spec fn trim_start(s: Seq<char>) -> Seq<char>
    decreases s.len(),
{
    if s.len() > 0 && is_ws(s[0]) {
        trim_start(s.drop_first())
    } else {
        s
    }
}

/// `s` with trailing whitespace removed.
pub open spec fn trim_end(s: Seq<char>) -> Seq<char>
    decreases s.len(),
{
    if s.len() > 0 && is_ws(s.last()) {
        trim_end(s.drop_last())
    } else {
        s
    }
}

/// `s` with whitespace removed at both ends.
pub open spec fn trim(s: Seq<char>) -> Seq<char> {
    trim_end(trim_start(s))
}

/// Index of the first `c` in `s` at or after `i`, or -1.
pub open spec fn find_char_from(s: Seq<char>, c: char, i: int) -> int
    decreases s.len() - i,
{
    if i < 0 || i >= s.len() {
        -1
    } else if s[i] == c {
        i
    } else {
        find_char_from(s, c, i + 1)
    }
}

/// Index of the first `c` in `s`, or -1.
pub open spec fn index_of(s: Seq<char>, c: char) -> int {
    find_char_from(s, c, 0)
}

/// Whether `p` occurs in `s` at position `i`.
pub open spec fn occurs_at(s: Seq<char>, p: Seq<char>, i: int) -> bool {
    0 <= i && i + p.len() <= s.len() && s.subrange(i, i + p.len()) == p
}

/// Index of the first occurrence of `p` in `s` at or after `i`, or -1.
pub open spec fn find_from(s: Seq<char>, p: Seq<char>, i: int) -> int
    decreases s.len() + 1 - i,
{
    if i < 0 || i + p.len() > s.len() {
        -1
    } else if occurs_at(s, p, i) {
        i
    } else {
        find_from(s, p, i + 1)
    }
}

/// Index of the first occurrence of `p` in `s`, or -1.
pub open spec fn find(s: Seq<char>, p: Seq<char>) -> int {
    find_from(s, p, 0)
}

/// The part of `s` before the first `c` (all of `s` if there is none):
/// what `s.split(c).next()` yields.
pub open spec fn before_char(s: Seq<char>, c: char) -> Seq<char> {
    if index_of(s, c) < 0 {
        s
    } else {
        s.take(index_of(s, c))
    }
}

/// `s.split_once(c)`.
pub open spec fn split_once(s: Seq<char>, c: char) -> Option<(Seq<char>, Seq<char>)> {
    let i = index_of(s, c);
    if i < 0 {
        None
    } else {
        Some((s.take(i), s.skip(i + 1)))
    }
}

pub open spec fn starts_with(s: Seq<char>, p: Seq<char>) -> bool {
    p.len() <= s.len() && s.take(p.len() as int) == p
}

pub open spec fn ends_with(s: Seq<char>, p: Seq<char>) -> bool {
    p.len() <= s.len() && s.skip(s.len() - p.len()) == p
}

/// Removes one `'\r'` at the end, as `str::lines` does before a `'\n'`.
pub open spec fn strip_cr(s: Seq<char>) -> Seq<char> {
    if s.len() > 0 && s.last() == '\r' {
        s.drop_last()
    } else {
        s
    }
}

/// `str::lines`: split at `'\n'`, drop a `'\r'` before each `'\n'`, and
/// yield no empty last line after a final `'\n'`.
pub open spec fn lines(s: Seq<char>) -> Seq<Seq<char>>
    decreases s.len(),
{
    if s.len() == 0 {
        Seq::empty()
    } else {
        let i = index_of(s, '\n');
        if i < 0 {
            seq![s]
        } else {
            proof {
                lemma_index_of(s, '\n');
            }
            seq![strip_cr(s.take(i))] + lines(s.skip(i + 1))
        }
    }
}

/// ASCII lowercase of a character.
pub open spec fn lower_char(c: char) -> char {
    if 'A' <= c && c <= 'Z' {
        ((c as u32) + 32) as char
    } else {
        c
    }
}

/// `str::to_ascii_lowercase`.
pub open spec fn ascii_lower(s: Seq<char>) -> Seq<char> {
    s.map_values(|c: char| lower_char(c))
}

/// ASCII case-insensitive equality.
pub open spec fn eq_ignore_ascii_case(a: Seq<char>, b: Seq<char>) -> bool {
    ascii_lower(a) == ascii_lower(b)
}

/// Concatenation of a sequence of character sequences.
pub open spec fn flatten(parts: Seq<Seq<char>>) -> Seq<char>
    decreases parts.len(),
{
    if parts.len() == 0 {
        Seq::empty()
    } else {
        flatten(parts.drop_last()) + parts.last()
    }
}


/// The character sequences held by a sequence of vectors.
pub open spec fn seqs_of(v: Seq<Vec<char>>) -> Seq<Seq<char>> {
    v.map_values(|l: Vec<char>| l@)
}

pub proof fn lemma_seqs_of_push(v: Seq<Vec<char>>, x: Vec<char>)
    ensures
        seqs_of(v.push(x)) == seqs_of(v).push(x@),
{
    assert(seqs_of(v.push(x)) =~= seqs_of(v).push(x@));
}


// ── Lines of `key = value` text ───────────────────────────────────

/// A line with its `#` comment removed and surrounding whitespace trimmed.
pub open spec fn clean_line(raw: Seq<char>) -> Seq<char> {
    trim(before_char(raw, '#'))
}

/// A value that starts and ends with the same quote character.
pub open spec fn is_quoted(v: Seq<char>) -> bool {
    v.len() > 0 && ((v[0] == '"' && v.last() == '"') || (v[0] == '\'' && v.last() == '\''))
}

/// A value with its quotes removed and escapes undone, or as written.
pub open spec fn value_of(v: Seq<char>, single: bool) -> Seq<char> {
    if is_quoted(v) {
        unescape(v.subrange(1, v.len() - 1), single)
    } else {
        v
    }
}

/// The `key = value` pair of a line, split at the first `=`.
pub open spec fn kv_of(line: Seq<char>, single: bool) -> Option<(Seq<char>, Seq<char>)> {
    match split_once(line, '=') {
        Some((k, r)) => Some((trim(k), value_of(trim(r), single))),
        None => None,
    }
}

/// A `key = value` line whose value is a lone quote character, which has no
/// closing quote to strip.
pub open spec fn kv_is_lone_quote(line: Seq<char>) -> bool {
    match split_once(line, '=') {
        Some((k, r)) => is_quoted(trim(r)) && trim(r).len() < 2,
        None => false,
    }
}

// ── Escapes ───────────────────────────────────────────────────────

/// How one character is written inside a double-quoted value.
pub open spec fn escape_char(c: char) -> Seq<char> {
    if c == '\\' {
        seq!['\\', '\\']
    } else if c == '"' {
        seq!['\\', '"']
    } else if c == '\n' {
        seq!['\\', 'n']
    } else if c == '\t' {
        seq!['\\', 't']
    } else {
        seq![c]
    }
}

/// Escapes backslash, double quote, newline and tab.
pub open spec fn escape(s: Seq<char>) -> Seq<char>
    decreases s.len(),
{
    if s.len() == 0 {
        Seq::empty()
    } else {
        escape_char(s[0]) + escape(s.drop_first())
    }
}

/// Undoes the escapes `\n`, `\t`, `\\`, `\"` (and `\'` when `single` holds);
/// any other backslash is kept as written.
pub open spec fn unescape(s: Seq<char>, single: bool) -> Seq<char>
    decreases s.len(),
{
    if s.len() == 0 {
        Seq::empty()
    } else if s[0] == '\\' {
        if s.len() == 1 {
            seq!['\\']
        } else {
            let n = s[1];
            let head = if n == 'n' {
                seq!['\n']
            } else if n == 't' {
                seq!['\t']
            } else if n == '\\' || n == '"' || (single && n == '\'') {
                seq![n]
            } else {
                seq!['\\', n]
            };
            head + unescape(s.skip(2), single)
        }
    } else {
        seq![s[0]] + unescape(s.drop_first(), single)
    }
}

/// Decimal digits of a natural number.
pub open spec fn decimal(n: nat) -> Seq<char>
    decreases n,
{
    if n < 10 {
        seq![digit_char(n)]
    } else {
        decimal(n / 10) + seq![digit_char(n % 10)]
    }
}

pub open spec fn digit_char(d: nat) -> char {
    ((d + 48) as u32) as char
}

pub proof fn lemma_unescape_escape(s: Seq<char>, single: bool)
    ensures
        unescape(escape(s), single) == s,
    decreases s.len(),
{
    if s.len() > 0 {
        let c = s[0];
        let rest = s.drop_first();
        lemma_unescape_escape(rest, single);
        let e = escape(s);
        assert(e == escape_char(c) + escape(rest));
        if c == '\\' || c == '"' || c == '\n' || c == '\t' {
            assert(e[0] == '\\');
            assert(e.skip(2) == escape(rest));
        } else {
            assert(e.drop_first() == escape(rest));
        }
        assert(s == seq![c] + rest);
    }
}

pub proof fn lemma_escape_free(s: Seq<char>, c: char)
    requires
        c != '\\' && c != 'n' && c != 't' && c != '"',
        forall|k: int| 0 <= k < s.len() ==> s[k] != c,
    ensures
        forall|k: int| 0 <= k < escape(s).len() ==> escape(s)[k] != c,
    decreases s.len(),
{
    if s.len() > 0 {
        lemma_escape_free(s.drop_first(), c);
        let e = escape(s);
        let h = escape_char(s[0]);
        assert(e == h + escape(s.drop_first()));
        assert forall|k: int| 0 <= k < e.len() implies e[k] != c by {
            if k < h.len() {
                assert(e[k] == h[k]);
            } else {
                assert(e[k] == escape(s.drop_first())[k - h.len()]);
            }
        }
    }
}

/// Escaped text holds no newline.
pub proof fn lemma_escape_no_newline(s: Seq<char>)
    ensures
        forall|k: int| 0 <= k < escape(s).len() ==> escape(s)[k] != '\n',
    decreases s.len(),
{
    if s.len() > 0 {
        lemma_escape_no_newline(s.drop_first());
        let e = escape(s);
        let h = escape_char(s[0]);
        assert(e == h + escape(s.drop_first()));
        assert forall|k: int| 0 <= k < e.len() implies e[k] != '\n' by {
            if k < h.len() {
                assert(e[k] == h[k]);
            } else {
                assert(e[k] == escape(s.drop_first())[k - h.len()]);
            }
        }
    }
}

/// Each line followed by a newline.
pub open spec fn join_lines(ls: Seq<Seq<char>>) -> Seq<char>
    decreases ls.len(),
{
    if ls.len() == 0 {
        Seq::empty()
    } else {
        join_lines(ls.drop_last()) + ls.last() + seq!['\n']
    }
}

pub proof fn lemma_join_lines_append(a: Seq<Seq<char>>, b: Seq<Seq<char>>)
    ensures
        join_lines(a + b) == join_lines(a) + join_lines(b),
    decreases b.len(),
{
    if b.len() == 0 {
        assert(a + b == a);
    } else {
        lemma_join_lines_append(a, b.drop_last());
        assert((a + b).drop_last() == a + b.drop_last());
    }
}

pub proof fn lemma_join_one(l: Seq<char>)
    ensures
        join_lines(seq![l]) == l + seq!['\n'],
{
    assert(seq![l].drop_last() =~= Seq::<Seq<char>>::empty());
    assert(join_lines(Seq::<Seq<char>>::empty()) == Seq::<char>::empty());
    assert(Seq::<char>::empty() + l =~= l);
}

// ── Lemmas ────────────────────────────────────────────────────────

pub proof fn lemma_find_char_from(s: Seq<char>, c: char, i: int)
    requires
        0 <= i <= s.len(),
    ensures
        ({
            let r = find_char_from(s, c, i);
            &&& r == -1 || (i <= r < s.len() && s[r] == c)
            &&& forall|k: int| i <= k < (if r == -1 { s.len() as int } else { r }) ==> s[k] != c
        }),
    decreases s.len() - i,
{
    if i < s.len() && s[i] != c {
        lemma_find_char_from(s, c, i + 1);
    }
}

pub proof fn lemma_index_of(s: Seq<char>, c: char)
    ensures
        ({
            let r = index_of(s, c);
            &&& r == -1 || (0 <= r < s.len() && s[r] == c)
            &&& forall|k: int| 0 <= k < (if r == -1 { s.len() as int } else { r }) ==> s[k] != c
        }),
{
    lemma_find_char_from(s, c, 0);
}

/// The first `c` is determined by a prefix free of `c` followed by `c`.
pub proof fn lemma_index_of_at(s: Seq<char>, c: char, r: int)
    requires
        0 <= r < s.len(),
        s[r] == c,
        forall|k: int| 0 <= k < r ==> s[k] != c,
    ensures
        index_of(s, c) == r,
{
    lemma_index_of(s, c);
}

/// A sequence free of `c` has no `c`.
pub proof fn lemma_index_of_none(s: Seq<char>, c: char)
    requires
        forall|k: int| 0 <= k < s.len() ==> s[k] != c,
    ensures
        index_of(s, c) == -1,
{
    lemma_index_of(s, c);
}

pub proof fn lemma_find_from(s: Seq<char>, p: Seq<char>, i: int)
    requires
        0 <= i,
    ensures
        ({
            let r = find_from(s, p, i);
            &&& r == -1 || (i <= r && occurs_at(s, p, r))
            &&& forall|k: int| i <= k && (r == -1 || k < r) ==> !occurs_at(s, p, k)
        }),
    decreases s.len() + 1 - i,
{
    if i + p.len() <= s.len() && !occurs_at(s, p, i) {
        lemma_find_from(s, p, i + 1);
    }
}

pub proof fn lemma_trim_start_skip(s: Seq<char>, i: int)
    requires
        0 <= i <= s.len(),
        forall|k: int| 0 <= k < i ==> is_ws(s[k]),
    ensures
        trim_start(s) == trim_start(s.skip(i)),
    decreases i,
{
    if i > 0 {
        assert(s.drop_first().skip(i - 1) == s.skip(i));
        lemma_trim_start_skip(s.drop_first(), i - 1);
    } else {
        assert(s.skip(0) == s);
    }
}

pub proof fn lemma_trim_end_take(s: Seq<char>, j: int)
    requires
        0 <= j <= s.len(),
        forall|k: int| j <= k < s.len() ==> is_ws(s[k]),
    ensures
        trim_end(s) == trim_end(s.take(j)),
    decreases s.len() - j,
{
    if j < s.len() {
        assert(s.drop_last().take(j) == s.take(j));
        lemma_trim_end_take(s.drop_last(), j);
    } else {
        assert(s.take(j) == s);
    }
}

/// Trimming a sequence that starts and ends with a non-space changes nothing.
pub proof fn lemma_trim_noop(s: Seq<char>)
    requires
        s.len() > 0 ==> !is_ws(s[0]) && !is_ws(s.last()),
    ensures
        trim(s) == s,
{
}

pub proof fn lemma_flatten_push(parts: Seq<Seq<char>>, x: Seq<char>)
    ensures
        flatten(parts.push(x)) == flatten(parts) + x,
{
    assert(parts.push(x).drop_last() == parts);
}

// ── Reading back written lines ────────────────────────────────────

/// Trimming twice is trimming once.
pub proof fn lemma_trim_idem(s: Seq<char>)
    ensures
        trim(trim(s)) == trim(s),
{
    lemma_trim_start_props(s);
    let a = trim_start(s);
    lemma_trim_end_props(a);
    let b = trim_end(a);
    if b.len() > 0 {
        assert(b[0] == a[0]);
        assert(!is_ws(b[0]));
        lemma_trim_noop(b);
    }
}

/// A trimmed non-empty sequence starts and ends with a non-space.
pub proof fn lemma_trimmed_ends(s: Seq<char>)
    requires
        trim(s) == s,
        s.len() > 0,
    ensures
        !is_ws(s[0]),
        !is_ws(s.last()),
{
    lemma_trim_start_props(s);
    lemma_trim_end_props(trim_start(s));
}

pub proof fn lemma_trim_start_props(s: Seq<char>)
    ensures
        trim_start(s).len() <= s.len(),
        trim_start(s) == s.skip(s.len() - trim_start(s).len()),
        trim_start(s).len() > 0 ==> !is_ws(trim_start(s)[0]),
    decreases s.len(),
{
    if s.len() > 0 && is_ws(s[0]) {
        lemma_trim_start_props(s.drop_first());
        assert(s.drop_first().skip(s.drop_first().len() - trim_start(s).len()) == s.skip(
            s.len() - trim_start(s).len(),
        ));
    } else {
        assert(s.skip(0) == s);
    }
}

pub proof fn lemma_trim_end_props(s: Seq<char>)
    ensures
        trim_end(s).len() <= s.len(),
        trim_end(s) == s.take(trim_end(s).len() as int),
        trim_end(s).len() > 0 ==> !is_ws(trim_end(s).last()),
        s.len() > 0 && !is_ws(s.last()) ==> trim_end(s) == s,
    decreases s.len(),
{
    if s.len() > 0 && is_ws(s.last()) {
        lemma_trim_end_props(s.drop_last());
        assert(s.drop_last().take(trim_end(s).len() as int) == s.take(trim_end(s).len() as int));
    } else {
        assert(s.take(s.len() as int) == s);
    }
}

/// Trimming a sequence that starts with one space and then a non-space
/// drops the space.
pub proof fn lemma_trim_one_space(s: Seq<char>)
    requires
        s.len() >= 2,
        is_ws(s[0]),
        !is_ws(s[1]),
        !is_ws(s.last()),
    ensures
        trim(s) == s.drop_first(),
{
    lemma_trim_start_skip(s, 1);
    assert(s.skip(1) == s.drop_first());
    assert(trim_start(s.drop_first()) == s.drop_first());
    lemma_trim_end_props(s.drop_first());
}

/// `key + " "` trims to `key` for a trimmed key.
pub proof fn lemma_trim_key_space(key: Seq<char>)
    requires
        trim(key) == key,
    ensures
        trim(key + seq![' ']) == key,
{
    let k = key + seq![' '];
    if key.len() > 0 {
        lemma_trimmed_ends(key);
        assert(trim_start(k) == k);
        lemma_trim_end_take(k, key.len() as int);
        assert(k.take(key.len() as int) == key);
        lemma_trim_end_props(key);
    } else {
        assert(k == seq![' ']);
        assert(is_ws(' '));
        assert(trim_start(k) == trim_start(k.drop_first()));
        assert(k.drop_first().len() == 0);
    }
}

/// A `key = "text"` line reads back as the key and the text unescaped.
pub proof fn lemma_kv_text(key: Seq<char>, e: Seq<char>, v: Seq<char>, single: bool)
    requires
        trim(key) == key,
        forall|k: int| 0 <= k < key.len() ==> key[k] != '=' && key[k] != '#' && key[k] != '\n',
        forall|k: int| 0 <= k < e.len() ==> e[k] != '#' && e[k] != '\n',
        unescape(e, single) == v,
    ensures
        ({
            let line = key + " = \""@ + e + "\""@;
            let c = clean_line(line);
            &&& kv_of(c, single) == Some((key, v))
            &&& !kv_is_lone_quote(c)
            &&& c.len() > 0
            &&& c.last() == '"'
            &&& forall|k: int| 0 <= k < line.len() ==> line[k] != '\n'
        }),
{
    reveal_strlit(" = \"");
    reveal_strlit("\"");
    assert(" = \""@.len() == 4);
    assert(" = \""@ =~= seq![' ', '=', ' ', '"']);
    assert("\""@ =~= seq!['"']);
    let line = key + " = \""@ + e + "\""@;
    let n = key.len() as int;
    assert(line.len() == n + 5 + e.len());
    assert(line[n] == ' ');
    assert(line[n + 1] == '=');
    assert(line[n + 2] == ' ');
    assert(line[n + 3] == '"');
    assert(line.last() == '"');
    assert forall|k: int| 0 <= k < line.len() implies line[k] != '#' && line[k] != '\n' by {
        if k < n {
            assert(line[k] == key[k]);
        } else if k >= n + 4 && k < n + 4 + e.len() {
            assert(line[k] == e[k - n - 4]);
        }
    }
    lemma_index_of_none(line, '#');
    assert(before_char(line, '#') == line);
    // The value part, quotes included.
    let q = seq!['"'] + e + seq!['"'];
    assert(q.subrange(1, q.len() - 1) == e);
    if n > 0 {
        lemma_trimmed_ends(key);
        assert(line[0] == key[0]);
        lemma_trim_noop(line);
        let c = line;
        assert(forall|k: int| 0 <= k < n ==> c[k] != '=');
        lemma_index_of_at(c, '=', n + 1);
        assert(c.take(n + 1) == key + seq![' ']);
        lemma_trim_key_space(key);
        let rest = c.skip(n + 2);
        assert(rest == seq![' '] + q);
        assert(rest[1] == '"');
        lemma_trim_one_space(rest);
        assert(rest.drop_first() == q);
    } else {
        assert(line == seq![' ', '=', ' ', '"'] + e + seq!['"']);
        lemma_trim_one_space(line);
        let c = line.drop_first();
        assert(c[0] == '=');
        lemma_index_of_at(c, '=', 0);
        assert(c.take(0) == key);
        assert(trim(key) == key);
        let rest = c.skip(1);
        assert(rest == seq![' '] + q);
        assert(rest[1] == '"');
        lemma_trim_one_space(rest);
        assert(rest.drop_first() == q);
    }
}

/// A `key = "value"` line, its value escaped, reads back as that key and value.
pub proof fn lemma_kv_quoted(key: Seq<char>, v: Seq<char>, single: bool)
    requires
        trim(key) == key,
        forall|k: int| 0 <= k < key.len() ==> key[k] != '=' && key[k] != '#' && key[k] != '\n',
        forall|k: int| 0 <= k < v.len() ==> v[k] != '#',
    ensures
        ({
            let line = key + " = \""@ + escape(v) + "\""@;
            let c = clean_line(line);
            &&& kv_of(c, single) == Some((key, v))
            &&& !kv_is_lone_quote(c)
            &&& c.len() > 0
            &&& c.last() == '"'
            &&& forall|k: int| 0 <= k < line.len() ==> line[k] != '\n'
        }),
{
    let e = escape(v);
    lemma_escape_free(v, '#');
    lemma_escape_no_newline(v);
    lemma_unescape_escape(v, single);
    lemma_kv_text(key, e, v, single);
}

/// Text without a backslash is its own unescaping.
pub proof fn lemma_unescape_plain(s: Seq<char>, single: bool)
    requires
        forall|k: int| 0 <= k < s.len() ==> s[k] != '\\',
    ensures
        unescape(s, single) == s,
    decreases s.len(),
{
    if s.len() > 0 {
        lemma_unescape_plain(s.drop_first(), single);
        assert(s == seq![s[0]] + s.drop_first());
    }
}

/// A `key = "value"` line with the value written as it is reads back as
/// that key and value, when the value holds no backslash, `#` or newline.
pub proof fn lemma_kv_raw(key: Seq<char>, v: Seq<char>, single: bool)
    requires
        trim(key) == key,
        forall|k: int| 0 <= k < key.len() ==> key[k] != '=' && key[k] != '#' && key[k] != '\n',
        forall|k: int| 0 <= k < v.len() ==> v[k] != '#' && v[k] != '\n' && v[k] != '\\',
    ensures
        ({
            let line = key + " = \""@ + v + "\""@;
            let c = clean_line(line);
            &&& kv_of(c, single) == Some((key, v))
            &&& !kv_is_lone_quote(c)
            &&& c.len() > 0
            &&& c.last() == '"'
            &&& forall|k: int| 0 <= k < line.len() ==> line[k] != '\n'
        }),
{
    lemma_unescape_plain(v, single);
    lemma_kv_text(key, v, v, single);
}

/// Lines joined with newlines split back into the same lines, when no line
/// holds a newline or ends with a carriage return.
pub proof fn lemma_lines_join(ls: Seq<Seq<char>>)
    requires
        forall|i: int, k: int| 0 <= i < ls.len() && 0 <= k < ls[i].len() ==> ls[i][k] != '\n',
        forall|i: int| 0 <= i < ls.len() ==> ls[i].len() == 0 || ls[i].last() != '\r',
    ensures
        lines(join_lines(ls)) == ls,
    decreases ls.len(),
{
    if ls.len() == 0 {
        assert(join_lines(ls).len() == 0);
    } else {
        let x = ls[0];
        let rest = ls.drop_first();
        assert(ls == seq![x] + rest);
        lemma_join_lines_append(seq![x], rest);
        lemma_join_one(x);
        lemma_lines_join(rest);
        let s = join_lines(ls);
        assert(s == x + seq!['\n'] + join_lines(rest));
        assert(s[x.len() as int] == '\n');
        assert(forall|k: int| 0 <= k < x.len() ==> s[k] == x[k]);
        lemma_index_of_at(s, '\n', x.len() as int);
        assert(s.take(x.len() as int) == x);
        assert(s.skip(x.len() as int + 1) == join_lines(rest));
        assert(strip_cr(x) == x);
    }
}

/// Text without carriage returns that is empty or ends with a newline is
/// its lines joined with newlines.
pub proof fn lemma_join_lines_of(t: Seq<char>)
    requires
        forall|k: int| 0 <= k < t.len() ==> t[k] != '\r',
        t.len() == 0 || t.last() == '\n',
    ensures
        join_lines(lines(t)) == t,
    decreases t.len(),
{
    if t.len() > 0 {
        lemma_index_of(t, '\n');
        let i = index_of(t, '\n');
        assert(i >= 0) by {
            if i < 0 {
                assert(t[t.len() - 1] == '\n');
            }
        }
        let x = t.take(i);
        let rest = t.skip(i + 1);
        assert(x.len() == 0 || x.last() != '\r') by {
            if x.len() > 0 {
                assert(x.last() == t[i - 1]);
            }
        }
        assert(strip_cr(x) == x);
        assert(lines(t) == seq![x] + lines(rest));
        assert forall|k: int| 0 <= k < rest.len() implies rest[k] != '\r' by {
            assert(rest[k] == t[k + i + 1]);
        }
        if rest.len() > 0 {
            assert(rest.last() == t.last());
        }
        lemma_join_lines_of(rest);
        lemma_join_lines_append(seq![x], lines(rest));
        lemma_join_one(x);
        assert(t =~= x + seq!['\n'] + rest);
    }
}

/// Text with nothing to escape is written as it is.
pub proof fn lemma_escape_plain(s: Seq<char>)
    requires
        forall|k: int|
            0 <= k < s.len() ==> s[k] != '\\' && s[k] != '"' && s[k] != '\n' && s[k] != '\t',
    ensures
        escape(s) == s,
    decreases s.len(),
{
    if s.len() > 0 {
        lemma_escape_plain(s.drop_first());
        assert(s == seq![s[0]] + s.drop_first());
    }
}

/// A `key = value` line with a bare value reads back as that key and value.
pub proof fn lemma_kv_bare(key: Seq<char>, v: Seq<char>, single: bool)
    requires
        key.len() > 0,
        trim(key) == key,
        forall|k: int| 0 <= k < key.len() ==> key[k] != '=' && key[k] != '#' && key[k] != '\n',
        v.len() > 0,
        trim(v) == v,
        v[0] != '"' && v[0] != '\'',
        forall|k: int| 0 <= k < v.len() ==> v[k] != '#' && v[k] != '\n',
    ensures
        ({
            let line = key + " = "@ + v;
            let c = clean_line(line);
            &&& c == line
            &&& kv_of(c, single) == Some((key, v))
            &&& !kv_is_lone_quote(c)
            &&& c.len() > 0
            &&& c[0] == key[0]
            &&& c.last() == v.last()
            &&& forall|k: int| 0 <= k < line.len() ==> line[k] != '\n'
        }),
{
    reveal_strlit(" = ");
    assert(" = "@ =~= seq![' ', '=', ' ']);
    let line = key + " = "@ + v;
    let n = key.len() as int;
    assert(line[n] == ' ');
    assert(line[n + 1] == '=');
    assert forall|k: int| 0 <= k < line.len() implies line[k] != '#' && line[k] != '\n' by {
        if k < n {
            assert(line[k] == key[k]);
        } else if k >= n + 3 {
            assert(line[k] == v[k - n - 3]);
        }
    }
    lemma_index_of_none(line, '#');
    lemma_trimmed_ends(key);
    lemma_trimmed_ends(v);
    assert(line[0] == key[0]);
    assert(line.last() == v.last());
    lemma_trim_noop(line);
    assert(forall|k: int| 0 <= k < n ==> line[k] != '=');
    lemma_index_of_at(line, '=', n + 1);
    assert(line.take(n + 1) == key + seq![' ']);
    lemma_trim_key_space(key);
    let rest = line.skip(n + 2);
    assert(rest == seq![' '] + v);
    lemma_trim_one_space(rest);
    assert(rest.drop_first() == v);
}

// ── Executable functions ──────────────────────────────────────────

/// Copies the characters of a string slice into a vector.
pub fn chars_of(s: &str) -> (v: Vec<char>)
    ensures
        v@ == s@,
{
    let mut v: Vec<char> = Vec::new();
    for c in it: s.chars()
        invariant
            it.seq() == s@,
            v@ == it.seq().take(it.index() as int),
    {
        v.push(c);
    }
    v
}

/// Builds a `String` from a sequence of characters.
///
/// Trusted: wraps std's `FromIterator<char> for String`, whose documentation
/// says the string holds the characters in order.
#[verifier::external_body]
pub(crate) fn string_of(v: &[char]) -> (s: String)
    ensures
        s@ == v@,
{
    v.iter().collect()
}

/// Whether a character is whitespace (`char::is_whitespace`).
pub fn is_whitespace(c: char) -> (b: bool)
    ensures
        b == is_ws(c),
{
    let u = c as u32;
    (0x09 <= u && u <= 0x0D) || u == 0x20 || u == 0x85 || u == 0xA0 || u == 0x1680 || (0x2000
        <= u && u <= 0x200A) || u == 0x2028 || u == 0x2029 || u == 0x202F || u == 0x205F || u
        == 0x3000
}

/// Copies `s[from..to]`.
pub fn slice_to_vec(s: &[char], from: usize, to: usize) -> (r: Vec<char>)
    requires
        from <= to <= s@.len(),
    ensures
        r@ == s@.subrange(from as int, to as int),
{
    let mut r: Vec<char> = Vec::new();
    let mut i = from;
    while i < to
        invariant
            from <= i <= to <= s@.len(),
            r@ == s@.subrange(from as int, i as int),
        decreases to - i,
    {
        r.push(s[i]);
        i += 1;
    }
    r
}

/// A copy of a character vector.
pub fn copy_vec(v: &Vec<char>) -> (r: Vec<char>)
    ensures
        r@ == v@,
{
    let r = slice_to_vec(v, 0, v.len());
    assert(v@.subrange(0, v@.len() as int) == v@);
    r
}

/// Appends a copy of `b` to `a`.
pub fn push_all(a: &mut Vec<char>, b: &[char])
    ensures
        final(a)@ == old(a)@ + b@,
{
    let mut i: usize = 0;
    let ghost a0 = a@;
    while i < b.len()
        invariant
            i <= b@.len(),
            a@ == a0 + b@.take(i as int),
        decreases b@.len() - i,
    {
        a.push(b[i]);
        i += 1;
        assert(b@.take(i as int) == b@.take(i - 1) + seq![b@[i - 1]]);
    }
    assert(b@.take(b@.len() as int) == b@);
}

/// Appends the characters of a string slice.
pub fn push_str(a: &mut Vec<char>, s: &str)
    ensures
        final(a)@ == old(a)@ + s@,
{
    let v = chars_of(s);
    push_all(a, &v);
}

/// Sequence equality.
pub fn same(a: &[char], b: &[char]) -> (r: bool)
    ensures
        r == (a@ == b@),
{
    if a.len() != b.len() {
        return false;
    }
    let mut i: usize = 0;
    while i < a.len()
        invariant
            a@.len() == b@.len(),
            i <= a@.len(),
            forall|k: int| 0 <= k < i ==> a@[k] == b@[k],
        decreases a@.len() - i,
    {
        if a[i] != b[i] {
            return false;
        }
        i += 1;
    }
    assert(a@ =~= b@);
    true
}

/// Whether `s` equals the string slice `t`.
pub fn same_str(s: &[char], t: &str) -> (r: bool)
    ensures
        r == (s@ == t@),
{
    let v = chars_of(t);
    same(s, &v)
}

/// String slice equality.
pub fn str_eq(a: &str, b: &str) -> (r: bool)
    ensures
        r == (a@ == b@),
{
    let av = chars_of(a);
    let bv = chars_of(b);
    same(&av, &bv)
}

/// `s.trim()`.
pub fn trim_vec(s: &[char]) -> (r: Vec<char>)
    ensures
        r@ == trim(s@),
{
    let mut i: usize = 0;
    while i < s.len() && is_whitespace(s[i])
        invariant
            i <= s@.len(),
            forall|k: int| 0 <= k < i ==> is_ws(s@[k]),
        decreases s@.len() - i,
    {
        i += 1;
    }
    proof {
        lemma_trim_start_skip(s@, i as int);
    }
    let mut j: usize = s.len();
    while j > i && is_whitespace(s[j - 1])
        invariant
            i <= j <= s@.len(),
            forall|k: int| j <= k < s@.len() ==> is_ws(s@[k]),
        decreases j,
    {
        j -= 1;
    }
    let ghost t = s@.skip(i as int);
    proof {
        assert(trim_start(s@) == t);
        assert forall|k: int| j - i <= k < t.len() implies is_ws(t[k]) by {
            assert(t[k] == s@[k + i]);
        }
        lemma_trim_end_take(t, j - i);
        assert(t.take(j - i) == s@.subrange(i as int, j as int));
    }
    slice_to_vec(s, i, j)
}

/// `s.trim_end()`.
pub fn trim_end_vec(s: &[char]) -> (r: Vec<char>)
    ensures
        r@ == trim_end(s@),
{
    let mut j: usize = s.len();
    assert(s@.take(j as int) == s@);
    while j > 0 && is_whitespace(s[j - 1])
        invariant
            j <= s@.len(),
            trim_end(s@) == trim_end(s@.take(j as int)),
        decreases j,
    {
        assert(s@.take(j as int).drop_last() == s@.take(j - 1));
        j -= 1;
    }
    slice_to_vec(s, 0, j)
}

/// Index of the first `c` at or after `from`.
pub fn find_char(s: &[char], c: char, from: usize) -> (r: Option<usize>)
    requires
        from <= s@.len(),
    ensures
        match r {
            Some(i) => find_char_from(s@, c, from as int) == i,
            None => find_char_from(s@, c, from as int) == -1,
        },
{
    let mut i = from;
    while i < s.len()
        invariant
            from <= i <= s@.len(),
            find_char_from(s@, c, from as int) == find_char_from(s@, c, i as int),
        decreases s@.len() - i,
    {
        if s[i] == c {
            return Some(i);
        }
        i += 1;
    }
    None
}

/// Whether `p` occurs in `s` at `i`.
pub fn occurs_at_exec(s: &[char], p: &[char], i: usize) -> (r: bool)
    ensures
        r == occurs_at(s@, p@, i as int),
{
    if i > s.len() || p.len() > s.len() - i {
        return false;
    }
    let mut k: usize = 0;
    while k < p.len()
        invariant
            i + p@.len() <= s@.len(),
            s@.len() <= usize::MAX,
            k <= p@.len(),
            forall|m: int| 0 <= m < k ==> s@[i + m] == p@[m],
        decreases p@.len() - k,
    {
        if s[i + k] != p[k] {
            assert(s@.subrange(i as int, i + p@.len())[k as int] != p@[k as int]);
            return false;
        }
        k += 1;
    }
    assert(s@.subrange(i as int, i + p@.len()) =~= p@);
    true
}

/// Index of the first occurrence of `p` at or after `from`.
pub fn find_seq(s: &[char], p: &[char], from: usize) -> (r: Option<usize>)
    ensures
        match r {
            Some(i) => find_from(s@, p@, from as int) == i,
            None => find_from(s@, p@, from as int) == -1,
        },
{
    if p.len() > s.len() || from > s.len() - p.len() {
        return None;
    }
    let last = s.len() - p.len();
    let mut i = from;
    while i <= last
        invariant
            from <= i,
            last + p@.len() == s@.len(),
            find_from(s@, p@, from as int) == find_from(s@, p@, i as int),
        decreases last + 1 - i,
    {
        if occurs_at_exec(s, p, i) {
            return Some(i);
        }
        if i == last {
            assert(find_from(s@, p@, i + 1) == -1);
            return None;
        }
        i += 1;
    }
    None
}

/// `s.starts_with(p)`.
pub fn starts_with_exec(s: &[char], p: &[char]) -> (r: bool)
    ensures
        r == starts_with(s@, p@),
{
    let r = occurs_at_exec(s, p, 0);
    proof {
        if r {
            assert(s@.subrange(0, p@.len() as int) == s@.take(p@.len() as int));
        }
        if starts_with(s@, p@) {
            assert(s@.subrange(0, p@.len() as int) == s@.take(p@.len() as int));
        }
    }
    r
}

/// `s.ends_with(p)`.
pub fn ends_with_exec(s: &[char], p: &[char]) -> (r: bool)
    ensures
        r == ends_with(s@, p@),
{
    if p.len() > s.len() {
        return false;
    }
    let r = occurs_at_exec(s, p, s.len() - p.len());
    proof {
        assert(s@.subrange(s@.len() - p@.len(), s@.len() as int) == s@.skip(
            s@.len() - p@.len(),
        ));
    }
    r
}

/// `s.lines()`.
pub fn lines_vec(s: &[char]) -> (r: Vec<Vec<char>>)
    ensures
        seqs_of(r@) == lines(s@),
        r@.len() == lines(s@).len(),
        forall|k: int| 0 <= k < r@.len() ==> r@[k]@ == lines(s@)[k],
{
    let mut r: Vec<Vec<char>> = Vec::new();
    let mut start: usize = 0;
    let ghost whole = s@;
    assert(s@.skip(0) == s@);
    assert(r@.map_values(|v: Vec<char>| v@) == Seq::<Seq<char>>::empty());
    while start < s.len()
        invariant
            start <= s@.len(),
            whole == s@,
            ({
                let done = r@.map_values(|v: Vec<char>| v@);
                done + lines(s@.skip(start as int)) == lines(s@)
            }),
        decreases s@.len() - start,
    {
        let ghost rest = s@.skip(start as int);
        let found = find_char(s, '\n', start);
        proof {
            lemma_find_char_from(s@, '\n', start as int);
        }
        match found {
            Some(i) => {
                proof {
                    assert forall|k: int| 0 <= k < i - start implies rest[k] != '\n' by {
                        assert(rest[k] == s@[k + start]);
                    }
                    lemma_index_of_at(rest, '\n', i - start);
                    assert(rest.take(i - start) == s@.subrange(start as int, i as int));
                    assert(rest.skip(i - start + 1) == s@.skip(i + 1));
                }
                let mut line = slice_to_vec(s, start, i);
                if line.len() > 0 && line[line.len() - 1] == '\r' {
                    line.pop();
                }
                let ghost before = r@.map_values(|v: Vec<char>| v@);
                r.push(line);
                proof {
                    assert(r@.map_values(|v: Vec<char>| v@) == before.push(
                        strip_cr(s@.subrange(start as int, i as int)),
                    ));
                }
                start = i + 1;
            },
            None => {
                proof {
                    assert forall|k: int| 0 <= k < rest.len() implies rest[k] != '\n' by {
                        assert(rest[k] == s@[k + start]);
                    }
                    lemma_index_of_none(rest, '\n');
                }
                let line = slice_to_vec(s, start, s.len());
                let ghost before = r@.map_values(|v: Vec<char>| v@);
                r.push(line);
                proof {
                    assert(r@.map_values(|v: Vec<char>| v@) == before.push(rest));
                    assert(rest.skip(rest.len() as int).len() == 0);
                    assert(s@.skip(s@.len() as int) == Seq::<char>::empty());
                }
                start = s.len();
            },
        }
    }
    proof {
        assert(s@.skip(start as int).len() == 0);
        let done = r@.map_values(|v: Vec<char>| v@);
        assert(done + lines(s@.skip(start as int)) == done);
        assert(seqs_of(r@) == done);
    }
    r
}

/// ASCII lowercase of a character.
pub fn lower_char_exec(c: char) -> (r: char)
    ensures
        r == lower_char(c),
{
    if 'A' <= c && c <= 'Z' {
        let b = (c as u32 + 32) as u8;
        b as char
    } else {
        c
    }
}


/// `s.split(c).next()`: the part before the first `c`.
pub fn before_char_vec(s: &[char], c: char) -> (r: Vec<char>)
    ensures
        r@ == before_char(s@, c),
{
    proof {
        lemma_index_of(s@, c);
    }
    match find_char(s, c, 0) {
        Some(i) => slice_to_vec(s, 0, i),
        None => {
            assert(s@.subrange(0, s@.len() as int) == s@);
            slice_to_vec(s, 0, s.len())
        },
    }
}

/// The line with its comment removed, trimmed.
pub fn clean_line_vec(raw: &[char]) -> (r: Vec<char>)
    ensures
        r@ == clean_line(raw@),
{
    let b = before_char_vec(raw, '#');
    trim_vec(&b)
}

/// `s.split_once(c)`.
pub fn split_once_vec(s: &[char], c: char) -> (r: Option<(Vec<char>, Vec<char>)>)
    ensures
        match r {
            Some((a, b)) => split_once(s@, c) == Some((a@, b@)),
            None => split_once(s@, c) is None,
        },
{
    proof {
        lemma_index_of(s@, c);
    }
    match find_char(s, c, 0) {
        Some(i) => {
            assert(index_of(s@, c) == i as int);
            let n = s.len();
            assert(i < n);
            let a = slice_to_vec(s, 0, i);
            let b = slice_to_vec(s, i + 1, n);
            assert(a@ == s@.take(i as int));
            assert(b@ == s@.skip(i + 1));
            Some((a, b))
        },
        None => None,
    }
}

/// Whether a value is a lone quote character.
pub fn is_lone_quote(v: &[char]) -> (r: bool)
    ensures
        r == (is_quoted(v@) && v@.len() < 2),
{
    v.len() == 1 && (v[0] == '"' || v[0] == '\'')
}

/// The value with its quotes removed and escapes undone.
pub fn value_vec(v: &[char], single: bool) -> (r: Vec<char>)
    requires
        !(is_quoted(v@) && v@.len() < 2),
    ensures
        r@ == value_of(v@, single),
{
    if v.len() > 0 && ((v[0] == '"' && v[v.len() - 1] == '"') || (v[0] == '\'' && v[v.len()
        - 1] == '\'')) {
        let inner = slice_to_vec(v, 1, v.len() - 1);
        unescape_vec(&inner, single)
    } else {
        slice_to_vec(v, 0, v.len())
    }
}

/// The `key = value` pair of a line.
pub fn kv_vec(line: &[char], single: bool) -> (r: Option<(Vec<char>, Vec<char>)>)
    requires
        !kv_is_lone_quote(line@),
    ensures
        match r {
            Some((k, v)) => kv_of(line@, single) == Some((k@, v@)),
            None => kv_of(line@, single) is None,
        },
{
    match split_once_vec(line, '=') {
        Some((k, rest)) => {
            let key = trim_vec(&k);
            let raw = trim_vec(&rest);
            let value = value_vec(&raw, single);
            Some((key, value))
        },
        None => None,
    }
}

/// ASCII lowercase of a character sequence.
pub fn ascii_lower_vec(s: &[char]) -> (r: Vec<char>)
    ensures
        r@ == ascii_lower(s@),
{
    let mut r: Vec<char> = Vec::new();
    let mut i: usize = 0;
    while i < s.len()
        invariant
            i <= s@.len(),
            r@ == ascii_lower(s@.take(i as int)),
        decreases s@.len() - i,
    {
        let c = lower_char_exec(s[i]);
        r.push(c);
        proof {
            assert(s@.take(i + 1) == s@.take(i as int).push(s@[i as int]));
            assert(ascii_lower(s@.take(i + 1)) =~= ascii_lower(s@.take(i as int)).push(c));
        }
        i += 1;
    }
    assert(s@.take(s@.len() as int) == s@);
    r
}

/// Escapes backslash, double quote, newline and tab.
pub fn escape_vec(s: &[char]) -> (r: Vec<char>)
    ensures
        r@ == escape(s@),
{
    let mut r: Vec<char> = Vec::new();
    let mut k: usize = 0;
    assert(s@.skip(0) == s@);
    while k < s.len()
        invariant
            k <= s@.len(),
            r@ + escape(s@.skip(k as int)) == escape(s@),
        decreases s@.len() - k,
    {
        let c = s[k];
        proof {
            let rest = s@.skip(k as int);
            assert(rest[0] == c);
            assert(rest.drop_first() == s@.skip(k + 1));
        }
        if c == '\\' {
            r.push('\\');
            r.push('\\');
        } else if c == '"' {
            r.push('\\');
            r.push('"');
        } else if c == '\n' {
            r.push('\\');
            r.push('n');
        } else if c == '\t' {
            r.push('\\');
            r.push('t');
        } else {
            r.push(c);
        }
        k += 1;
    }
    proof {
        assert(s@.skip(s@.len() as int).len() == 0);
    }
    r
}

/// Undoes the escapes of [`escape_vec`] (and `\'` when `single` holds).
pub fn unescape_vec(s: &[char], single: bool) -> (r: Vec<char>)
    ensures
        r@ == unescape(s@, single),
{
    let mut r: Vec<char> = Vec::new();
    let mut k: usize = 0;
    assert(s@.skip(0) == s@);
    while k < s.len()
        invariant
            k <= s@.len(),
            r@ + unescape(s@.skip(k as int), single) == unescape(s@, single),
        decreases s@.len() - k,
    {
        let c = s[k];
        let ghost rest = s@.skip(k as int);
        if c == '\\' {
            if k + 1 < s.len() {
                let n = s[k + 1];
                proof {
                    assert(rest[1] == n);
                    assert(rest.skip(2) == s@.skip(k + 2));
                }
                if n == 'n' {
                    r.push('\n');
                } else if n == 't' {
                    r.push('\t');
                } else if n == '\\' || n == '"' || (single && n == '\'') {
                    r.push(n);
                } else {
                    r.push('\\');
                    r.push(n);
                }
                k += 2;
            } else {
                r.push('\\');
                proof {
                    assert(s@.skip(k + 1).len() == 0);
                }
                k += 1;
            }
        } else {
            proof {
                assert(rest.drop_first() == s@.skip(k + 1));
            }
            r.push(c);
            k += 1;
        }
    }
    proof {
        assert(s@.skip(k as int).len() == 0);
    }
    r
}

/// Decimal representation of a number.
/// Decimal digits of a `u64`.
pub fn decimal_u64(n: u64) -> (r: Vec<char>)
    ensures
        r@ == decimal(n as nat),
    decreases n,
{
    if n < 10 {
        let d = ((n as u32) + 48) as u8;
        let mut r: Vec<char> = Vec::new();
        r.push(d as char);
        r
    } else {
        let mut r = decimal_u64(n / 10);
        let d = (((n % 10) as u32) + 48) as u8;
        r.push(d as char);
        r
    }
}

pub fn decimal_vec(n: usize) -> (r: Vec<char>)
    ensures
        r@ == decimal(n as nat),
    decreases n,
{
    if n < 10 {
        let d = ((n as u32) + 48) as u8;
        let mut r: Vec<char> = Vec::new();
        r.push(d as char);
        r
    } else {
        let mut r = decimal_vec(n / 10);
        let d = (((n % 10) as u32) + 48) as u8;
        r.push(d as char);
        r
    }
}

} // verus!

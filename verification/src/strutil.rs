//! Verified string primitives used by the scanners: whitespace trimming,
//! prefix/suffix tests, substring search and replacement, line splitting,
//! and decimal formatting of counters.

use vstd::prelude::*;

verus! {

/// The characters treated as line whitespace when trimming (the Unicode
/// `White_Space` set).
pub open spec fn is_line_ws(c: char) -> bool {
    ||| c == ' '
    ||| c == '\t'
    ||| c == '\n'
    ||| c == '\u{0B}'
    ||| c == '\u{0C}'
    ||| c == '\r'
    ||| c == '\u{85}'
    ||| c == '\u{A0}'
    ||| c == '\u{1680}'
    ||| ('\u{2000}' <= c && c <= '\u{200A}')
    ||| c == '\u{2028}'
    ||| c == '\u{2029}'
    ||| c == '\u{202F}'
    ||| c == '\u{205F}'
    ||| c == '\u{3000}'
}

pub fn char_is_line_ws(c: char) -> (b: bool)
    ensures
        b == is_line_ws(c),
{
    c == ' ' || c == '\t' || c == '\n' || c == '\u{0B}' || c == '\u{0C}' || c == '\r'
        || c == '\u{85}' || c == '\u{A0}' || c == '\u{1680}'
        || ('\u{2000}' <= c && c <= '\u{200A}') || c == '\u{2028}' || c == '\u{2029}'
        || c == '\u{202F}' || c == '\u{205F}' || c == '\u{3000}'
}

/// How many whitespace characters the text starts with.
pub open spec fn count_leading_ws(s: Seq<char>) -> int
    decreases s.len(),
{
    if s.len() == 0 {
        0
    } else if is_line_ws(s[0]) {
        1 + count_leading_ws(s.drop_first())
    } else {
        0
    }
}

/// How many whitespace characters the text ends with.
pub open spec fn count_trailing_ws(s: Seq<char>) -> int
    decreases s.len(),
{
    if s.len() == 0 {
        0
    } else if is_line_ws(s[s.len() - 1]) {
        1 + count_trailing_ws(s.drop_last())
    } else {
        0
    }
}

/// The text with leading and trailing whitespace removed.
pub open spec fn trim_spec(s: Seq<char>) -> Seq<char> {
    let a = count_leading_ws(s);
    if a == s.len() {
        Seq::<char>::empty()
    } else {
        s.subrange(a, s.len() - count_trailing_ws(s))
    }
}

proof fn lemma_count_leading_ws(s: Seq<char>, a: int)
    requires
        0 <= a <= s.len(),
        forall|j: int| 0 <= j < a ==> is_line_ws(s[j]),
        a < s.len() ==> !is_line_ws(s[a]),
    ensures
        count_leading_ws(s) == a,
    decreases a,
{
    if a == 0 {
    } else {
        assert(is_line_ws(s[0]));
        lemma_count_leading_ws(s.drop_first(), a - 1);
    }
}

proof fn lemma_count_trailing_ws(s: Seq<char>, b: int)
    requires
        0 <= b <= s.len(),
        forall|j: int| s.len() - b <= j < s.len() ==> is_line_ws(s[j]),
        b < s.len() ==> !is_line_ws(s[s.len() - b - 1]),
    ensures
        count_trailing_ws(s) == b,
    decreases b,
{
    if b == 0 {
    } else {
        assert(is_line_ws(s[s.len() - 1]));
        lemma_count_trailing_ws(s.drop_last(), b - 1);
    }
}

proof fn lemma_leading_trailing_ws_disjoint(s: Seq<char>)
    requires
        count_leading_ws(s) < s.len(),
    ensures
        count_leading_ws(s) < s.len() - count_trailing_ws(s),
        0 <= count_leading_ws(s),
        0 <= count_trailing_ws(s),
    decreases s.len(),
{
    lemma_count_ws_bounds(s);
    let a = count_leading_ws(s);
    let b = count_trailing_ws(s);
    if a + b >= s.len() {
        // then every index would be whitespace, including the first
        // non-whitespace one at position a; derive the contradiction
        lemma_leading_ws_all(s, a);
        lemma_trailing_ws_all(s, b);
        assert(!is_line_ws(s[a]));
        assert(s.len() - b <= a < s.len());
        assert(is_line_ws(s[a]));
    }
}

proof fn lemma_count_ws_bounds(s: Seq<char>)
    ensures
        0 <= count_leading_ws(s) <= s.len(),
        0 <= count_trailing_ws(s) <= s.len(),
        count_leading_ws(s) < s.len() ==> !is_line_ws(s[count_leading_ws(s)]),
        count_trailing_ws(s) < s.len() ==> !is_line_ws(s[s.len() - count_trailing_ws(s) - 1]),
    decreases s.len(),
{
    if s.len() > 0 {
        lemma_count_ws_bounds(s.drop_first());
        lemma_count_ws_bounds(s.drop_last());
    }
}

proof fn lemma_leading_ws_all(s: Seq<char>, a: int)
    requires
        a == count_leading_ws(s),
    ensures
        forall|j: int| 0 <= j < a ==> is_line_ws(s[j]),
    decreases s.len(),
{
    lemma_count_ws_bounds(s);
    if s.len() > 0 && is_line_ws(s[0]) {
        lemma_leading_ws_all(s.drop_first(), a - 1);
        assert forall|j: int| 0 <= j < a implies is_line_ws(s[j]) by {
            if j > 0 {
                assert(is_line_ws(s.drop_first()[j - 1]));
            }
        }
    }
}

proof fn lemma_trailing_ws_all(s: Seq<char>, b: int)
    requires
        b == count_trailing_ws(s),
    ensures
        forall|j: int| s.len() - b <= j < s.len() ==> is_line_ws(s[j]),
    decreases s.len(),
{
    lemma_count_ws_bounds(s);
    if s.len() > 0 && is_line_ws(s[s.len() - 1]) {
        lemma_trailing_ws_all(s.drop_last(), b - 1);
        assert forall|j: int| s.len() - b <= j < s.len() implies is_line_ws(s[j]) by {
            if j < s.len() - 1 {
                assert(is_line_ws(s.drop_last()[j]));
            }
        }
    }
}

/// Count of leading whitespace characters, as the scanner records it for
/// column tracking.
pub fn leading_ws_count(s: &str) -> (r: usize)
    ensures
        r == count_leading_ws(s@),
        r <= s@.len(),
{
    let n: usize = s.unicode_len();
    let mut a: usize = 0;
    while a < n && char_is_line_ws(s.get_char(a))
        invariant
            0 <= a <= n,
            n == s@.len(),
            forall|j: int| 0 <= j < a ==> is_line_ws(s@[j]),
        decreases n - a,
    {
        a = a + 1;
    }
    proof {
        lemma_count_leading_ws(s@, a as int);
    }
    a
}

/// Trim whitespace from both ends, as `str::trim` does.
pub fn trim(s: &str) -> (r: &str)
    ensures
        r@ == trim_spec(s@),
{
    let n: usize = s.unicode_len();
    let a: usize = leading_ws_count(s);
    if a == n {
        proof {
            reveal_strlit("");
        }
        assert(""@ =~= trim_spec(s@));
        ""
    } else {
        let mut b: usize = 0;
        while b < n && char_is_line_ws(s.get_char(n - b - 1))
            invariant
                0 <= b <= n,
                n == s@.len(),
                forall|j: int| n - b <= j < n ==> is_line_ws(s@[j]),
            decreases n - b,
        {
            b = b + 1;
        }
        proof {
            lemma_count_trailing_ws(s@, b as int);
            lemma_leading_trailing_ws_disjoint(s@);
        }
        s.substring_char(a, n - b)
    }
}

/// Whether `p` occurs in `s` starting at character position `i`.
pub open spec fn match_at(s: Seq<char>, p: Seq<char>, i: int) -> bool {
    0 <= i && i + p.len() <= s.len() && s.subrange(i, i + p.len()) == p
}

/// Whether `s` starts with `p`.
pub open spec fn starts_with(s: Seq<char>, p: Seq<char>) -> bool {
    match_at(s, p, 0)
}

/// Whether `s` ends with `p`.
pub open spec fn ends_with(s: Seq<char>, p: Seq<char>) -> bool {
    p.len() <= s.len() && match_at(s, p, s.len() - p.len())
}

pub fn str_match_at(s: &str, p: &str, i: usize) -> (b: bool)
    ensures
        b == match_at(s@, p@, i as int),
{
    let n: usize = s.unicode_len();
    let m: usize = p.unicode_len();
    if i > n || m > n - i {
        return false;
    }
    let mut j: usize = 0;
    while j < m
        invariant
            0 <= j <= m,
            i + m <= n,
            n == s@.len(),
            m == p@.len(),
            forall|k: int| 0 <= k < j ==> s@[i + k] == p@[k],
        decreases m - j,
    {
        if s.get_char(i + j) != p.get_char(j) {
            assert(s@.subrange(i as int, i + m) != p@) by {
                assert(s@.subrange(i as int, i + m)[j as int] == s@[i + j]);
            }
            return false;
        }
        j = j + 1;
    }
    assert(s@.subrange(i as int, i + m) =~= p@);
    true
}

pub fn str_starts_with(s: &str, p: &str) -> (b: bool)
    ensures
        b == starts_with(s@, p@),
{
    str_match_at(s, p, 0)
}

pub fn str_ends_with(s: &str, p: &str) -> (b: bool)
    ensures
        b == ends_with(s@, p@),
{
    let n: usize = s.unicode_len();
    let m: usize = p.unicode_len();
    if m > n {
        return false;
    }
    str_match_at(s, p, n - m)
}

/// Whether `p` occurs anywhere in `s`.
pub open spec fn contains_seq(s: Seq<char>, p: Seq<char>) -> bool {
    exists|i: int| match_at(s, p, i)
}

pub fn str_contains(s: &str, p: &str) -> (b: bool)
    ensures
        b == contains_seq(s@, p@),
{
    let n: usize = s.unicode_len();
    let m: usize = p.unicode_len();
    if m > n {
        return false;
    }
    if m == 0 {
        assert(s@.subrange(0, 0) =~= p@);
        assert(match_at(s@, p@, 0));
        return true;
    }
    let mut i: usize = 0;
    while i <= n - m
        invariant
            0 <= i <= n - m + 1,
            0 < m <= n,
            n == s@.len(),
            m == p@.len(),
            forall|k: int| 0 <= k < i ==> !match_at(s@, p@, k),
        decreases n - i,
    {
        if str_match_at(s, p, i) {
            return true;
        }
        i = i + 1;
    }
    false
}

/// Whether the views of two string slices are equal.
pub fn str_eq_str(a: &str, b: &str) -> (r: bool)
    ensures
        r == (a@ == b@),
{
    let n: usize = a.unicode_len();
    let m: usize = b.unicode_len();
    if n != m {
        return false;
    }
    let mut i: usize = 0;
    while i < n
        invariant
            0 <= i <= n,
            n == a@.len(),
            n == b@.len(),
            forall|k: int| 0 <= k < i ==> a@[k] == b@[k],
        decreases n - i,
    {
        if a.get_char(i) != b.get_char(i) {
            return false;
        }
        i = i + 1;
    }
    assert(a@ =~= b@);
    true
}

/// The first position of `c` in `s` at or after `from`; the length of `s`
/// when there is none.
pub open spec fn find_at(s: Seq<char>, c: char, from: int) -> int
    recommends
        0 <= from <= s.len(),
    decreases s.len() - from when from <= s.len()
{
    if from >= s.len() {
        s.len() as int
    } else if s[from] == c {
        from
    } else {
        find_at(s, c, from + 1)
    }
}

pub proof fn lemma_find_at_bounds(s: Seq<char>, c: char, from: int)
    requires
        0 <= from <= s.len(),
    ensures
        from <= find_at(s, c, from) <= s.len(),
        find_at(s, c, from) < s.len() ==> s[find_at(s, c, from)] == c,
        forall|j: int| from <= j < find_at(s, c, from) ==> s[j] != c,
    decreases s.len() - from,
{
    if from < s.len() && s[from] != c {
        lemma_find_at_bounds(s, c, from + 1);
    }
}

proof fn lemma_find_at_witness(s: Seq<char>, c: char, from: int, i: int)
    requires
        0 <= from <= i <= s.len(),
        forall|j: int| from <= j < i ==> s[j] != c,
        i < s.len() ==> s[i] == c,
    ensures
        find_at(s, c, from) == i,
    decreases i - from,
{
    if from < i {
        lemma_find_at_witness(s, c, from + 1, i);
    }
}

pub fn find_char_from(s: &str, c: char, from: usize) -> (r: usize)
    requires
        from <= s@.len(),
    ensures
        r == find_at(s@, c, from as int),
        from <= r <= s@.len(),
        r < s@.len() ==> s@[r as int] == c,
        forall|j: int| from <= j < r ==> s@[j] != c,
{
    let n: usize = s.unicode_len();
    let mut i: usize = from;
    while i < n && s.get_char(i) != c
        invariant
            from <= i <= n,
            n == s@.len(),
            forall|j: int| from <= j < i ==> s@[j] != c,
        decreases n - i,
    {
        i = i + 1;
    }
    proof {
        lemma_find_at_witness(s@, c, from as int, i as int);
    }
    i
}

/// Relies on `String::push` of std: appends the single character.
#[verifier::external_body]
pub fn push_char(s: &mut String, c: char)
    ensures
        final(s)@ == old(s)@.push(c),
{
    s.push(c)
}

/// The text with every non-overlapping occurrence of `pat`, found left to
/// right, replaced by `repl`, as `str::replace` produces it.
pub open spec fn replace_spec(s: Seq<char>, pat: Seq<char>, repl: Seq<char>) -> Seq<char>
    recommends
        pat.len() > 0,
    decreases s.len() when pat.len() > 0
{
    if s.len() < pat.len() {
        s
    } else if starts_with(s, pat) {
        repl + replace_spec(s.skip(pat.len() as int), pat, repl)
    } else {
        seq![s[0]] + replace_spec(s.drop_first(), pat, repl)
    }
}

proof fn lemma_match_at_skip(s: Seq<char>, p: Seq<char>, i: int)
    requires
        0 <= i <= s.len(),
    ensures
        match_at(s, p, i) == starts_with(s.skip(i), p),
{
    if i + p.len() <= s.len() {
        assert(s.skip(i).subrange(0, p.len() as int) =~= s.subrange(i, i + p.len()));
    }
}

pub fn str_replace(s: &str, pat: &str, repl: &str) -> (r: String)
    requires
        pat@.len() > 0,
    ensures
        r@ == replace_spec(s@, pat@, repl@),
{
    let n: usize = s.unicode_len();
    let m: usize = pat.unicode_len();
    let mut out: String = String::new();
    let mut i: usize = 0;
    proof {
        assert(s@.skip(0) =~= s@);
        assert(out@ + replace_spec(s@, pat@, repl@) =~= replace_spec(s@, pat@, repl@));
    }
    while i < n
        invariant
            0 <= i <= n,
            n == s@.len(),
            m == pat@.len(),
            m > 0,
            out@ + replace_spec(s@.skip(i as int), pat@, repl@) == replace_spec(s@, pat@, repl@),
        decreases n - i,
    {
        proof {
            lemma_match_at_skip(s@, pat@, i as int);
        }
        if str_match_at(s, pat, i) {
            out.append(repl);
            proof {
                assert(s@.skip(i as int).skip(m as int) =~= s@.skip(i + m));
            }
            i = i + m;
        } else {
            let ghost pre = out@;
            push_char(&mut out, s.get_char(i));
            proof {
                let suf = s@.skip(i as int);
                if suf.len() < m {
                    assert(replace_spec(suf, pat@, repl@) == suf);
                    assert(s@.skip(i + 1).len() < m);
                    assert(replace_spec(s@.skip(i + 1), pat@, repl@) == s@.skip(i + 1));
                    assert(suf =~= seq![s@[i as int]] + s@.skip(i + 1));
                    assert(pre.push(s@[i as int]) + s@.skip(i + 1) =~= pre + suf);
                } else {
                    assert(suf.drop_first() =~= s@.skip(i + 1));
                    assert(suf[0] == s@[i as int]);
                    assert(replace_spec(suf, pat@, repl@) == seq![s@[i as int]] + replace_spec(
                        s@.skip(i + 1),
                        pat@,
                        repl@,
                    ));
                    assert(pre.push(s@[i as int]) + replace_spec(s@.skip(i + 1), pat@, repl@)
                        =~= pre + replace_spec(suf, pat@, repl@));
                }
            }
            i = i + 1;
        }
    }
    proof {
        assert(s@.skip(n as int) =~= Seq::<char>::empty());
        assert(replace_spec(Seq::<char>::empty(), pat@, repl@) == Seq::<char>::empty());
        assert(out@ + Seq::<char>::empty() =~= out@);
    }
    out
}

/// The parts of `s` split at the first two commas, as `splitn(3, ',')`
/// yields them: one, two, or three parts, the last keeping any further
/// commas.
pub open spec fn splitn3_spec(s: Seq<char>) -> Seq<Seq<char>> {
    let i = find_at(s, ',', 0);
    if i == s.len() {
        seq![s]
    } else {
        let j = find_at(s, ',', i + 1);
        if j == s.len() {
            seq![s.subrange(0, i), s.skip(i + 1)]
        } else {
            seq![s.subrange(0, i), s.subrange(i + 1, j), s.skip(j + 1)]
        }
    }
}

pub fn splitn3(s: &str) -> (r: Vec<String>)
    ensures
        r.deep_view() == splitn3_spec(s@),
        1 <= r.len() <= 3,
{
    let n: usize = s.unicode_len();
    let i: usize = find_char_from(s, ',', 0);
    let mut r: Vec<String> = Vec::new();
    if i == n {
        r.push(s.to_owned());
        assert(r.deep_view() =~= splitn3_spec(s@));
    } else {
        let j: usize = find_char_from(s, ',', i + 1);
        if j == n {
            r.push(s.substring_char(0, i).to_owned());
            r.push(s.substring_char(i + 1, n).to_owned());
            assert(s@.subrange(i + 1, n as int) =~= s@.skip(i + 1));
            assert(r.deep_view() =~= splitn3_spec(s@));
        } else {
            r.push(s.substring_char(0, i).to_owned());
            r.push(s.substring_char(i + 1, j).to_owned());
            r.push(s.substring_char(j + 1, n).to_owned());
            assert(s@.subrange(j + 1, n as int) =~= s@.skip(j + 1));
            assert(r.deep_view() =~= splitn3_spec(s@));
        }
    }
    r
}

/// The decimal digit for a value below ten.
pub open spec fn digit_char(d: int) -> char {
    if d == 0 {
        '0'
    } else if d == 1 {
        '1'
    } else if d == 2 {
        '2'
    } else if d == 3 {
        '3'
    } else if d == 4 {
        '4'
    } else if d == 5 {
        '5'
    } else if d == 6 {
        '6'
    } else if d == 7 {
        '7'
    } else if d == 8 {
        '8'
    } else {
        '9'
    }
}

/// The decimal digits of a nonnegative number, most significant first.
pub open spec fn dec_of(n: int) -> Seq<char>
    recommends
        n >= 0,
    decreases n when n >= 0
{
    if n < 10 {
        seq![digit_char(n)]
    } else {
        dec_of(n / 10).push(digit_char(n % 10))
    }
}

fn digit_exec(d: usize) -> (c: char)
    requires
        d < 10,
    ensures
        c == digit_char(d as int),
{
    if d == 0 {
        '0'
    } else if d == 1 {
        '1'
    } else if d == 2 {
        '2'
    } else if d == 3 {
        '3'
    } else if d == 4 {
        '4'
    } else if d == 5 {
        '5'
    } else if d == 6 {
        '6'
    } else if d == 7 {
        '7'
    } else if d == 8 {
        '8'
    } else {
        '9'
    }
}

/// Format a counter in decimal, as the reference labels carry it.
pub fn usize_to_dec(n: usize) -> (r: String)
    ensures
        r@ == dec_of(n as int),
    decreases n,
{
    if n < 10 {
        let mut s = String::new();
        push_char(&mut s, digit_exec(n));
        assert(s@ =~= dec_of(n as int));
        s
    } else {
        let mut s = usize_to_dec(n / 10);
        push_char(&mut s, digit_exec(n % 10));
        s
    }
}

/// Sequences joined with a newline between neighbours, as `join("\n")`
/// builds the final document text.
pub open spec fn join_nl(v: Seq<Seq<char>>) -> Seq<char>
    decreases v.len(),
{
    if v.len() == 0 {
        Seq::<char>::empty()
    } else if v.len() == 1 {
        v[0]
    } else {
        v[0] + seq!['\n'] + join_nl(v.drop_first())
    }
}

pub proof fn lemma_join_nl_push(v: Seq<Seq<char>>, x: Seq<char>)
    ensures
        v.len() == 0 ==> join_nl(v.push(x)) == x,
        v.len() > 0 ==> join_nl(v.push(x)) == join_nl(v) + seq!['\n'] + x,
    decreases v.len(),
{
    if v.len() == 0 {
        assert(v.push(x)[0] == x);
        assert(join_nl(v.push(x)) == x);
    } else if v.len() == 1 {
        assert(v.push(x).drop_first() =~= seq![x]);
        assert(join_nl(seq![x]) == x);
        assert(v.push(x)[0] == v[0]);
        assert(join_nl(v.push(x)) == v[0] + seq!['\n'] + x);
        assert(join_nl(v) == v[0]);
    } else {
        lemma_join_nl_push(v.drop_first(), x);
        assert(v.push(x).drop_first() =~= v.drop_first().push(x));
        assert(join_nl(v.push(x)) == v.push(x)[0] + seq!['\n'] + join_nl(v.drop_first().push(x)));
        assert(v.push(x)[0] == v[0]);
    }
}

/// Join accumulated output lines with newlines.
pub fn join_lines(v: &Vec<String>) -> (r: String)
    ensures
        r@ == join_nl(v.deep_view()),
{
    let mut out: String = String::new();
    let mut i: usize = 0;
    while i < v.len()
        invariant
            0 <= i <= v.len(),
            out@ == join_nl(v.deep_view().take(i as int)),
        decreases v.len() - i,
    {
        if i > 0 {
            push_char(&mut out, '\n');
        }
        out.append(v[i].as_str());
        proof {
            let pre = v.deep_view().take(i as int);
            assert(v.deep_view().take(i + 1) =~= pre.push(v.deep_view()[i as int]));
            lemma_join_nl_push(pre, v.deep_view()[i as int]);
            if i > 0 {
                assert(out@ =~= join_nl(pre) + seq!['\n'] + v.deep_view()[i as int]);
            } else {
                assert(out@ =~= v.deep_view()[i as int]);
            }
        }
        i = i + 1;
    }
    proof {
        assert(v.deep_view().take(v.len() as int) =~= v.deep_view());
    }
    out
}

/// Sequences concatenated in place, with nothing between neighbours: how
/// a line's substituted segments are reassembled.
pub open spec fn concat_texts(v: Seq<Seq<char>>) -> Seq<char>
    decreases v.len(),
{
    if v.len() == 0 {
        Seq::<char>::empty()
    } else {
        v[0] + concat_texts(v.drop_first())
    }
}

pub proof fn lemma_concat_texts_push(v: Seq<Seq<char>>, x: Seq<char>)
    ensures
        concat_texts(v.push(x)) == concat_texts(v) + x,
    decreases v.len(),
{
    if v.len() == 0 {
        assert(v.push(x)[0] == x);
        assert(v.push(x).drop_first() =~= Seq::<Seq<char>>::empty());
        assert(concat_texts(Seq::<Seq<char>>::empty()) == Seq::<char>::empty());
        assert(concat_texts(v.push(x)) =~= x);
        assert(concat_texts(v) + x =~= x);
    } else {
        lemma_concat_texts_push(v.drop_first(), x);
        assert(v.push(x).drop_first() =~= v.drop_first().push(x));
        assert(v.push(x)[0] == v[0]);
        assert(concat_texts(v.push(x)) == v[0] + concat_texts(v.drop_first().push(x)));
        assert(concat_texts(v) + x =~= v[0] + (concat_texts(v.drop_first()) + x));
    }
}

/// Concatenate accumulated pieces with nothing between them.
pub fn concat_strings(v: &Vec<String>) -> (r: String)
    ensures
        r@ == concat_texts(v.deep_view()),
{
    let mut out: String = String::new();
    let mut i: usize = 0;
    proof {
        assert(v.deep_view().take(0) =~= Seq::<Seq<char>>::empty());
        assert(out@ =~= concat_texts(v.deep_view().take(0)));
    }
    while i < v.len()
        invariant
            0 <= i <= v.len(),
            out@ == concat_texts(v.deep_view().take(i as int)),
        decreases v.len() - i,
    {
        out.append(v[i].as_str());
        proof {
            let pre = v.deep_view().take(i as int);
            assert(v.deep_view().take(i + 1) =~= pre.push(v.deep_view()[i as int]));
            lemma_concat_texts_push(pre, v.deep_view()[i as int]);
            assert(v[i as int]@ == v.deep_view()[i as int]);
        }
        i = i + 1;
    }
    proof {
        assert(v.deep_view().take(v.len() as int) =~= v.deep_view());
    }
    out
}

/// The final line ending stripped: one trailing carriage return removed,
/// as `str::lines` does before a line feed.
pub open spec fn strip_cr(l: Seq<char>) -> Seq<char> {
    if l.len() > 0 && l[l.len() - 1] == '\r' {
        l.drop_last()
    } else {
        l
    }
}

/// The lines of a document, split at `\n` with a preceding `\r` removed
/// and no final empty line after a trailing newline, as `str::lines`
/// yields them.
pub open spec fn lines_spec(s: Seq<char>) -> Seq<Seq<char>>
    decreases s.len(),
{
    if s.len() == 0 {
        Seq::<Seq<char>>::empty()
    } else {
        let i = find_at(s, '\n', 0);
        if 0 <= i && i < s.len() {
            seq![strip_cr(s.subrange(0, i))] + lines_spec(s.skip(i + 1))
        } else {
            seq![s]
        }
    }
}

/// Split a document into its lines.
pub fn split_lines(s: &str) -> (r: Vec<String>)
    ensures
        r.deep_view() == lines_spec(s@),
{
    let n: usize = s.unicode_len();
    let mut out: Vec<String> = Vec::new();
    let mut pos: usize = 0;
    proof {
        assert(s@.skip(0) =~= s@);
        assert(out.deep_view() =~= Seq::<Seq<char>>::empty());
        assert(out.deep_view() + lines_spec(s@) =~= lines_spec(s@));
    }
    while pos < n
        invariant
            0 <= pos <= n,
            n == s@.len(),
            out.deep_view() + lines_spec(s@.skip(pos as int)) == lines_spec(s@),
        decreases n - pos,
    {
        let ghost suf = s@.skip(pos as int);
        let j: usize = find_char_from(s, '\n', pos);
        proof {
            lemma_find_at_bounds(s@.skip(pos as int), '\n', 0);
            lemma_find_at_witness(s@.skip(pos as int), '\n', 0, j - pos);
            assert(suf.len() > 0);
        }
        if j == n {
            out.push(s.substring_char(pos, n).to_owned());
            proof {
                assert(find_at(suf, '\n', 0) == suf.len());
                assert(lines_spec(suf) == seq![suf]);
                assert(s@.subrange(pos as int, n as int) =~= suf);
                assert(out.deep_view() =~= lines_spec(s@));
                assert(s@.skip(n as int) =~= Seq::<char>::empty());
            }
            pos = n;
        } else {
            let end: usize = if j > pos && s.get_char(j - 1) == '\r' {
                j - 1
            } else {
                j
            };
            out.push(s.substring_char(pos, end).to_owned());
            proof {
                assert(find_at(suf, '\n', 0) == j - pos);
                assert(lines_spec(suf) == seq![strip_cr(suf.subrange(0, j - pos))] + lines_spec(
                    suf.skip(j - pos + 1),
                ));
                assert(suf.subrange(0, j - pos) =~= s@.subrange(pos as int, j as int));
                assert(suf.skip(j - pos + 1) =~= s@.skip(j + 1));
                if j > pos && s@[j - 1] == '\r' {
                    assert(strip_cr(s@.subrange(pos as int, j as int)) =~= s@.subrange(
                        pos as int,
                        j - 1,
                    ));
                } else {
                    assert(strip_cr(s@.subrange(pos as int, j as int)) =~= s@.subrange(
                        pos as int,
                        j as int,
                    ));
                }
                assert(out.deep_view() + lines_spec(s@.skip(j + 1)) =~= lines_spec(s@));
            }
            pos = j + 1;
        }
    }
    proof {
        if n == 0 {
            assert(lines_spec(s@) =~= Seq::<Seq<char>>::empty());
        } else {
            assert(s@.skip(n as int) =~= Seq::<char>::empty());
            assert(lines_spec(Seq::<char>::empty()) =~= Seq::<Seq<char>>::empty());
        }
        assert(out.deep_view() =~= lines_spec(s@));
    }
    out
}

/// The pieces of a text split at every `\n`, empty pieces kept, as
/// `split('\n')` yields them.
pub open spec fn split_nl(s: Seq<char>) -> Seq<Seq<char>>
    decreases s.len(),
{
    let i = find_at(s, '\n', 0);
    if 0 <= i && i < s.len() {
        seq![s.subrange(0, i)] + split_nl(s.skip(i + 1))
    } else {
        seq![s]
    }
}

/// Split a text at every newline, keeping empty pieces.
pub fn split_nl_exec(s: &str) -> (r: Vec<String>)
    ensures
        r.deep_view() == split_nl(s@),
{
    let n: usize = s.unicode_len();
    let mut out: Vec<String> = Vec::new();
    let mut pos: usize = 0;
    proof {
        assert(s@.skip(0) =~= s@);
        assert(out.deep_view() =~= Seq::<Seq<char>>::empty());
        assert(out.deep_view() + split_nl(s@) =~= split_nl(s@));
    }
    loop
        invariant
            0 <= pos <= n,
            n == s@.len(),
            out.deep_view() + split_nl(s@.skip(pos as int)) == split_nl(s@),
        decreases n - pos,
    {
        let ghost suf = s@.skip(pos as int);
        let j: usize = find_char_from(s, '\n', pos);
        proof {
            lemma_find_at_witness(s@.skip(pos as int), '\n', 0, j - pos);
        }
        if j == n {
            out.push(s.substring_char(pos, n).to_owned());
            proof {
                assert(find_at(suf, '\n', 0) == suf.len());
                assert(split_nl(suf) == seq![suf]);
                assert(s@.subrange(pos as int, n as int) =~= suf);
                assert(out.deep_view() =~= split_nl(s@));
            }
            return out;
        } else {
            out.push(s.substring_char(pos, j).to_owned());
            proof {
                assert(find_at(suf, '\n', 0) == j - pos);
                assert(split_nl(suf) == seq![suf.subrange(0, j - pos)] + split_nl(
                    suf.skip(j - pos + 1),
                ));
                assert(suf.subrange(0, j - pos) =~= s@.subrange(pos as int, j as int));
                assert(suf.skip(j - pos + 1) =~= s@.skip(j + 1));
                assert(out.deep_view() + split_nl(s@.skip(j + 1)) =~= split_nl(s@));
            }
            pos = j + 1;
        }
    }
}

/// The pieces of a text split at every occurrence of `c`, empty pieces
/// kept, as `split(c)` yields them.
pub open spec fn split_char(s: Seq<char>, c: char) -> Seq<Seq<char>>
    decreases s.len(),
{
    let i = find_at(s, c, 0);
    if 0 <= i && i < s.len() {
        seq![s.subrange(0, i)] + split_char(s.skip(i + 1), c)
    } else {
        seq![s]
    }
}

/// Split a text at every occurrence of a character, keeping empty pieces.
pub fn split_char_exec(s: &str, c: char) -> (r: Vec<String>)
    ensures
        r.deep_view() == split_char(s@, c),
        r.len() >= 1,
{
    let n: usize = s.unicode_len();
    let mut out: Vec<String> = Vec::new();
    let mut pos: usize = 0;
    proof {
        assert(s@.skip(0) =~= s@);
        assert(out.deep_view() =~= Seq::<Seq<char>>::empty());
        assert(out.deep_view() + split_char(s@, c) =~= split_char(s@, c));
    }
    loop
        invariant
            0 <= pos <= n,
            n == s@.len(),
            out.deep_view() + split_char(s@.skip(pos as int), c) == split_char(s@, c),
            out.len() + split_char(s@.skip(pos as int), c).len() == split_char(s@, c).len(),
            split_char(s@.skip(pos as int), c).len() >= 1,
        decreases n - pos,
    {
        let ghost suf = s@.skip(pos as int);
        let j: usize = find_char_from(s, c, pos);
        proof {
            lemma_find_at_witness(s@.skip(pos as int), c, 0, j - pos);
        }
        if j == n {
            out.push(s.substring_char(pos, n).to_owned());
            proof {
                assert(find_at(suf, c, 0) == suf.len());
                assert(split_char(suf, c) == seq![suf]);
                assert(s@.subrange(pos as int, n as int) =~= suf);
                assert(out.deep_view() =~= split_char(s@, c));
            }
            return out;
        } else {
            out.push(s.substring_char(pos, j).to_owned());
            proof {
                assert(find_at(suf, c, 0) == j - pos);
                assert(split_char(suf, c) == seq![suf.subrange(0, j - pos)] + split_char(
                    suf.skip(j - pos + 1),
                    c,
                ));
                assert(suf.subrange(0, j - pos) =~= s@.subrange(pos as int, j as int));
                assert(suf.skip(j - pos + 1) =~= s@.skip(j + 1));
                assert(out.deep_view() + split_char(s@.skip(j + 1), c) =~= split_char(s@, c));
            }
            pos = j + 1;
        }
    }
}

/// Whether `c` is a decimal digit.
pub open spec fn is_digit(c: char) -> bool {
    '0' <= c && c <= '9'
}

/// The value of a decimal digit.
pub open spec fn digit_val(c: char) -> int {
    (c as int) - ('0' as int)
}

/// Whether every character is a decimal digit.
pub open spec fn all_digits(s: Seq<char>) -> bool {
    forall|i: int| 0 <= i < s.len() ==> is_digit(s[i])
}

/// The number a sequence of decimal digits denotes.
pub open spec fn dec_val(s: Seq<char>) -> int
    decreases s.len(),
{
    if s.len() == 0 {
        0
    } else {
        dec_val(s.drop_last()) * 10 + digit_val(s[s.len() - 1])
    }
}

proof fn lemma_dec_val_nonneg(s: Seq<char>)
    requires
        all_digits(s),
    ensures
        dec_val(s) >= 0,
    decreases s.len(),
{
    if s.len() > 0 {
        assert(all_digits(s.drop_last())) by {
            assert(forall|i: int|
                0 <= i < s.len() - 1 ==> s.drop_last()[i] == s[i] && is_digit(s[i]));
        }
        lemma_dec_val_nonneg(s.drop_last());
    }
}

proof fn lemma_dec_val_prefix_le(s: Seq<char>, j: int)
    requires
        all_digits(s),
        0 <= j <= s.len(),
    ensures
        dec_val(s.take(j)) <= dec_val(s),
    decreases s.len() - j,
{
    if j < s.len() {
        lemma_dec_val_prefix_le(s, j + 1);
        let t = s.take(j + 1);
        assert(t.drop_last() =~= s.take(j));
        assert(t[t.len() - 1] == s[j]);
        assert(all_digits(s.take(j))) by {
            assert(forall|i: int| 0 <= i < j ==> s.take(j)[i] == s[i] && is_digit(s[i]));
        }
        lemma_dec_val_nonneg(s.take(j));
        assert(dec_val(t) == dec_val(s.take(j)) * 10 + digit_val(s[j]));
        assert(dec_val(s.take(j)) * 10 >= dec_val(s.take(j)));
        assert(digit_val(s[j]) >= 0);
    } else {
        assert(s.take(j) =~= s);
    }
}

/// The number an unsigned decimal literal denotes, as `str::parse` reads
/// it: an optional leading plus sign, then at least one digit, rejected on
/// overflow of the machine word.
/// A leading plus sign stripped, as `str::parse` accepts one.
pub open spec fn plus_stripped(s: Seq<char>) -> Seq<char> {
    if s.len() > 0 && s[0] == '+' {
        s.drop_first()
    } else {
        s
    }
}

pub open spec fn parse_usize_spec(s: Seq<char>) -> Option<int> {
    let t = plus_stripped(s);
    if t.len() > 0 && all_digits(t) && dec_val(t) <= usize::MAX {
        Some(dec_val(t))
    } else {
        None
    }
}

/// Parse an unsigned decimal number.
pub fn parse_usize(s: &str) -> (r: Option<usize>)
    ensures
        r matches Some(v) ==> (parse_usize_spec(s@) matches Some(w) && v == w),
        r is None ==> parse_usize_spec(s@) is None,
{
    let n: usize = s.unicode_len();
    let start: usize = if n > 0 && s.get_char(0) == '+' {
        1
    } else {
        0
    };
    let ghost t = plus_stripped(s@);
    proof {
        assert(t =~= s@.skip(start as int));
    }
    if start == n {
        return None;
    }
    let mut acc: usize = 0;
    let mut i: usize = start;
    proof {
        assert(t.take(0) =~= Seq::<char>::empty());
    }
    while i < n
        invariant
            start <= i <= n,
            n == s@.len(),
            t == s@.skip(start as int),
            t == plus_stripped(s@),
            start < n,
            all_digits(t.take(i - start)),
            acc == dec_val(t.take(i - start)),
        decreases n - i,
    {
        let c = s.get_char(i);
        if c < '0' || c > '9' {
            proof {
                assert(t.len() == n - start);
                assert(t[i - start] == s@[i as int]);
                assert(!is_digit(t[i - start]));
                assert(!all_digits(t));
                assert(parse_usize_spec(s@) is None);
            }
            return None;
        }
        let d: usize = (c as usize) - ('0' as usize);
        if acc > (usize::MAX - d) / 10 {
            // the next digit would overflow the machine word; `parse`
            // reports this as an error
            proof {
                let pre = t.take(i - start + 1);
                assert(pre.drop_last() =~= t.take(i - start));
                assert(pre[pre.len() - 1] == t[i - start]);
                assert(t[i - start] == s@[i as int]);
                assert(dec_val(pre) == acc * 10 + d);
                assert(acc * 10 + d > usize::MAX) by (nonlinear_arith)
                    requires
                        acc > (usize::MAX - d) / 10,
                        d < 10,
                ;
                if all_digits(t) && dec_val(t) <= usize::MAX {
                    assert(pre =~= t.take(i - start + 1));
                    lemma_dec_val_prefix_le(t, i - start + 1);
                    assert(dec_val(pre) <= dec_val(t));
                    assert(false);
                }
                assert(parse_usize_spec(s@) is None);
            }
            return None;
        }
        proof {
            assert(acc * 10 + d <= usize::MAX) by (nonlinear_arith)
                requires
                    acc <= (usize::MAX - d) / 10,
                    d < 10,
                    acc >= 0,
            ;
            let pre = t.take(i - start + 1);
            assert(pre.drop_last() =~= t.take(i - start));
            assert(pre[pre.len() - 1] == t[i - start]);
            assert(t[i - start] == s@[i as int]);
            assert(dec_val(pre) == acc * 10 + d);
            assert(is_digit(s@[i as int]));
            assert(all_digits(pre));
        }
        acc = acc * 10 + d;
        i = i + 1;
    }
    proof {
        assert(t.take(n - start) =~= t);
    }
    Some(acc)
}

/// ASCII uppercase letters mapped to lowercase, other characters kept.
pub open spec fn ascii_lower_char(c: char) -> char {
    if 'A' <= c && c <= 'Z' {
        ((c as u8) + 32) as char
    } else {
        c
    }
}

/// A text mapped to ASCII lowercase character by character.
pub open spec fn ascii_lower(s: Seq<char>) -> Seq<char> {
    s.map_values(|c: char| ascii_lower_char(c))
}

fn lower_char_exec(c: char) -> (r: char)
    ensures
        r == ascii_lower_char(c),
{
    if 'A' <= c && c <= 'Z' {
        (((c as u8) + 32) as char)
    } else {
        c
    }
}

/// Build the ASCII-lowercased copy of a string slice.
pub fn ascii_lower_string(s: &str) -> (r: String)
    ensures
        r@ == ascii_lower(s@),
{
    let n: usize = s.unicode_len();
    let mut out: String = String::new();
    let mut i: usize = 0;
    while i < n
        invariant
            0 <= i <= n,
            n == s@.len(),
            out@ == ascii_lower(s@.take(i as int)),
        decreases n - i,
    {
        push_char(&mut out, lower_char_exec(s.get_char(i)));
        proof {
            assert(s@.take(i + 1) =~= s@.take(i as int).push(s@[i as int]));
            assert(ascii_lower(s@.take(i + 1)) =~= ascii_lower(s@.take(i as int)).push(
                ascii_lower_char(s@[i as int]),
            ));
        }
        i = i + 1;
    }
    proof {
        assert(s@.take(n as int) =~= s@);
    }
    out
}

} // verus!

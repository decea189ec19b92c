//! Character-level text operations shared by the grammars of this crate.

use vstd::prelude::*;

verus! {

broadcast use vstd::string::group_string_axioms;

/// The characters that carry the Unicode `White_Space` property.
pub open spec fn is_whitespace(c: char) -> bool {
    ||| ('\u{9}' <= c && c <= '\u{d}')
    ||| c == ' '
    ||| c == '\u{85}'
    ||| c == '\u{a0}'
    ||| c == '\u{1680}'
    ||| ('\u{2000}' <= c && c <= '\u{200a}')
    ||| c == '\u{2028}'
    ||| c == '\u{2029}'
    ||| c == '\u{202f}'
    ||| c == '\u{205f}'
    ||| c == '\u{3000}'
}

/// `s` without its leading white space.
pub open spec fn trim_start(s: Seq<char>) -> Seq<char>
    decreases s.len(),
{
    if s.len() > 0 && is_whitespace(s[0]) {
        trim_start(s.drop_first())
    } else {
        s
    }
}

/// `s` without its trailing white space.
pub open spec fn trim_end(s: Seq<char>) -> Seq<char>
    decreases s.len(),
{
    if s.len() > 0 && is_whitespace(s.last()) {
        trim_end(s.drop_last())
    } else {
        s
    }
}

/// `s` without its leading and trailing white space.
pub open spec fn trim(s: Seq<char>) -> Seq<char> {
    trim_end(trim_start(s))
}

/// Every character of `s` is white space.
pub open spec fn is_blank(s: Seq<char>) -> bool {
    forall|i: int| 0 <= i < s.len() ==> is_whitespace(#[trigger] s[i])
}

/// Decides the Unicode `White_Space` property of a character.
pub fn is_whitespace_char(c: char) -> (r: bool)
    ensures
        r == is_whitespace(c),
{
    ('\u{9}' <= c && c <= '\u{d}') || c == ' ' || c == '\u{85}' || c == '\u{a0}' || c == '\u{1680}'
        || ('\u{2000}' <= c && c <= '\u{200a}') || c == '\u{2028}' || c == '\u{2029}' || c
        == '\u{202f}' || c == '\u{205f}' || c == '\u{3000}'
}

/// The characters of `s`, in order.
pub fn chars_of(s: &str) -> (r: Vec<char>)
    ensures
        r@ == s@,
{
    let mut out: Vec<char> = Vec::new();
    for c in it: s.chars()
        invariant
            it.seq() == s@,
            out@ == it.seq().take(it.index() as int),
    {
        out.push(c);
        assert(out@ == it.seq().take(it.index() + 1));
    }
    assert(out@ == s@);
    out
}

/// Dropping a white-space prefix does not change what `trim_start` gives.
proof fn lemma_trim_start_skip(s: Seq<char>, i: int)
    requires
        0 <= i <= s.len(),
        forall|k: int| 0 <= k < i ==> is_whitespace(#[trigger] s[k]),
    ensures
        trim_start(s) == trim_start(s.subrange(i, s.len() as int)),
    decreases i,
{
    if i > 0 {
        assert(s.drop_first().subrange(i - 1, s.len() - 1) =~= s.subrange(i, s.len() as int));
        assert forall|k: int| 0 <= k < i - 1 implies is_whitespace(#[trigger] s.drop_first()[k]) by {
            assert(s.drop_first()[k] == s[k + 1]);
        }
        lemma_trim_start_skip(s.drop_first(), i - 1);
    } else {
        assert(s.subrange(0, s.len() as int) =~= s);
    }
}

/// Dropping a white-space suffix does not change what `trim_end` gives.
proof fn lemma_trim_end_take(s: Seq<char>, j: int)
    requires
        0 <= j <= s.len(),
        forall|k: int| j <= k < s.len() ==> is_whitespace(#[trigger] s[k]),
    ensures
        trim_end(s) == trim_end(s.subrange(0, j)),
    decreases s.len() - j,
{
    if j < s.len() {
        assert(s.drop_last().subrange(0, j) =~= s.subrange(0, j));
        lemma_trim_end_take(s.drop_last(), j);
    } else {
        assert(s.subrange(0, j) =~= s);
    }
}

/// `s` with leading and trailing white space removed, as a slice of `s`.
pub fn trim_str<'a>(s: &'a str) -> (r: &'a str)
    ensures
        r@ == trim(s@),
{
    let v = chars_of(s);
    let n = v.len();
    let mut i: usize = 0;
    while i < n && is_whitespace_char(v[i])
        invariant
            n == v@.len(),
            v@ == s@,
            i <= n,
            forall|k: int| 0 <= k < i ==> is_whitespace(#[trigger] s@[k]),
        decreases n - i,
    {
        i = i + 1;
    }
    let mut j: usize = n;
    while j > i && is_whitespace_char(v[j - 1])
        invariant
            n == v@.len(),
            v@ == s@,
            i <= j <= n,
            forall|k: int| j <= k < n ==> is_whitespace(#[trigger] s@[k]),
        decreases j - i,
    {
        j = j - 1;
    }
    proof {
        lemma_trim_start_skip(s@, i as int);
        let t = s@.subrange(i as int, n as int);
        assert(trim_start(t) == t);
        assert forall|k: int| j - i <= k < t.len() implies is_whitespace(#[trigger] t[k]) by {
            assert(t[k] == s@[k + i]);
        }
        lemma_trim_end_take(t, j - i);
        let u = t.subrange(0, j - i);
        assert(u =~= s@.subrange(i as int, j as int));
        if u.len() > 0 {
            assert(u.last() == s@[j - 1]);
        }
        assert(trim_end(u) == u);
    }
    s.substring_char(i, j)
}

/// Lemma: a sequence is blank exactly when trimming leaves nothing.
pub proof fn lemma_trim_empty_iff_blank(s: Seq<char>)
    ensures
        (trim(s).len() == 0) <==> is_blank(s),
    decreases s.len(),
{
    if s.len() > 0 && is_whitespace(s[0]) {
        lemma_trim_empty_iff_blank(s.drop_first());
        assert(is_blank(s) <==> is_blank(s.drop_first())) by {
            if is_blank(s.drop_first()) {
                assert forall|i: int| 0 <= i < s.len() implies is_whitespace(#[trigger] s[i]) by {
                    if i > 0 {
                        assert(s[i] == s.drop_first()[i - 1]);
                    }
                }
            }
            if is_blank(s) {
                assert forall|i: int| 0 <= i < s.drop_first().len() implies is_whitespace(
                    #[trigger] s.drop_first()[i],
                ) by {
                    assert(s.drop_first()[i] == s[i + 1]);
                }
            }
        }
    } else if s.len() > 0 {
        lemma_trim_end_keeps_first(s);
    }
}

/// Trimming the end of a sequence whose first character is not white space keeps that
/// character.
proof fn lemma_trim_end_keeps_first(s: Seq<char>)
    requires
        s.len() > 0,
        !is_whitespace(s[0]),
    ensures
        trim_end(s).len() > 0,
        trim_end(s)[0] == s[0],
    decreases s.len(),
{
    if is_whitespace(s.last()) {
        lemma_trim_end_keeps_first(s.drop_last());
    }
}

/// `k` is `text` with its leading and trailing white space cut and nothing else: it is a
/// piece of `text` with only white space before and after it, and it neither starts nor ends
/// with white space.
pub open spec fn is_trim_of(text: Seq<char>, k: Seq<char>) -> bool {
    exists|i: int|
        #![trigger text.subrange(i, i + k.len())]
        0 <= i && i + k.len() <= text.len() && text.subrange(i, i + k.len()) == k && (forall|j: int|
            0 <= j < i ==> is_whitespace(#[trigger] text[j])) && (forall|j: int|
            i + k.len() <= j < text.len() ==> is_whitespace(#[trigger] text[j])) && (k.len() > 0
            ==> !is_whitespace(k[0]) && !is_whitespace(k.last()))
}

/// Lemma: trimming the start drops a white-space prefix, up to a character that is not.
proof fn lemma_trim_start_shape(s: Seq<char>) -> (n: int)
    ensures
        0 <= n <= s.len(),
        trim_start(s) == s.skip(n),
        forall|k: int| 0 <= k < n ==> is_whitespace(#[trigger] s[k]),
        n < s.len() ==> !is_whitespace(s[n]),
    decreases s.len(),
{
    if s.len() > 0 && is_whitespace(s[0]) {
        let m = lemma_trim_start_shape(s.drop_first());
        assert(s.drop_first().skip(m) =~= s.skip(m + 1));
        assert forall|k: int| 0 <= k < m + 1 implies is_whitespace(#[trigger] s[k]) by {
            if k > 0 {
                assert(s[k] == s.drop_first()[k - 1]);
            }
        }
        if m + 1 < s.len() {
            assert(s[m + 1] == s.drop_first()[m]);
        }
        m + 1
    } else {
        assert(s.skip(0) =~= s);
        0
    }
}

/// Lemma: trimming the end keeps a prefix, up to a character that is not white space.
proof fn lemma_trim_end_shape(s: Seq<char>) -> (m: int)
    ensures
        0 <= m <= s.len(),
        trim_end(s) == s.take(m),
        forall|k: int| m <= k < s.len() ==> is_whitespace(#[trigger] s[k]),
        m > 0 ==> !is_whitespace(s[m - 1]),
    decreases s.len(),
{
    if s.len() > 0 && is_whitespace(s.last()) {
        let m = lemma_trim_end_shape(s.drop_last());
        assert(s.drop_last().take(m) =~= s.take(m));
        assert forall|k: int| m <= k < s.len() implies is_whitespace(#[trigger] s[k]) by {
            if k < s.len() - 1 {
                assert(s[k] == s.drop_last()[k]);
            }
        }
        if m > 0 {
            assert(s[m - 1] == s.drop_last()[m - 1]);
        }
        m
    } else {
        assert(s.take(s.len() as int) =~= s);
        if s.len() > 0 {
            assert(s[s.len() - 1] == s.last());
        }
        s.len() as int
    }
}

/// Lemma: trimming cuts white space at both ends and nothing else.
pub proof fn lemma_trim_is_trim_of(s: Seq<char>)
    ensures
        is_trim_of(s, trim(s)),
{
    let n = lemma_trim_start_shape(s);
    let u = s.skip(n);
    let m = lemma_trim_end_shape(u);
    let k = trim(s);
    assert(k == u.take(m));
    assert(s.subrange(n, n + m) =~= k);
    assert forall|j: int| n + k.len() <= j < s.len() implies is_whitespace(#[trigger] s[j]) by {
        assert(s[j] == u[j - n]);
    }
    if k.len() > 0 {
        assert(k[0] == s[n]);
        assert(k.last() == u[m - 1]);
    }
    assert(s.subrange(n, n + k.len()) == k);
}

/// `t` occurs in `s` starting at position `p`.
pub open spec fn occurs_at(s: Seq<char>, p: int, t: Seq<char>) -> bool {
    0 <= p && p + t.len() <= s.len() && s.subrange(p, p + t.len()) == t
}

/// The first position at or after `p` where `s` holds `c`.
pub open spec fn find_from(s: Seq<char>, c: char, p: int) -> Option<int>
    decreases s.len() - p,
{
    if p < 0 || p >= s.len() {
        None
    } else if s[p] == c {
        Some(p)
    } else {
        find_from(s, c, p + 1)
    }
}

/// The last position in `[lo, hi)` where `s` holds `c`.
pub open spec fn rfind_in(s: Seq<char>, c: char, lo: int, hi: int) -> Option<int>
    decreases hi - lo,
{
    if hi <= lo || lo < 0 || hi > s.len() {
        None
    } else if s[hi - 1] == c {
        Some(hi - 1)
    } else {
        rfind_in(s, c, lo, hi - 1)
    }
}

/// Lemma: what `find_from` finds is the first occurrence.
pub proof fn lemma_find_from(s: Seq<char>, c: char, p: int)
    requires
        0 <= p,
    ensures
        match find_from(s, c, p) {
            Some(i) => p <= i < s.len() && s[i] == c && forall|k: int| p <= k < i ==> s[k] != c,
            None => forall|k: int| p <= k < s.len() ==> s[k] != c,
        },
    decreases s.len() - p,
{
    if p < s.len() && s[p] != c {
        lemma_find_from(s, c, p + 1);
    }
}

/// Lemma: what `rfind_in` finds is the last occurrence in the range.
pub proof fn lemma_rfind_in(s: Seq<char>, c: char, lo: int, hi: int)
    requires
        0 <= lo,
        hi <= s.len(),
    ensures
        match rfind_in(s, c, lo, hi) {
            Some(i) => lo <= i < hi && s[i] == c && forall|k: int| i < k < hi ==> s[k] != c,
            None => forall|k: int| lo <= k < hi ==> s[k] != c,
        },
    decreases hi - lo,
{
    if lo < hi && s[hi - 1] != c {
        lemma_rfind_in(s, c, lo, hi - 1);
    }
}

/// Lemma: the last occurrence in the range is the one given.
pub proof fn lemma_rfind_in_is(s: Seq<char>, c: char, lo: int, hi: int, i: int)
    requires
        0 <= lo <= i < hi <= s.len(),
        s[i] == c,
        forall|k: int| i < k < hi ==> s[k] != c,
    ensures
        rfind_in(s, c, lo, hi) == Some(i),
    decreases hi - i,
{
    if i < hi - 1 {
        lemma_rfind_in_is(s, c, lo, hi - 1, i);
    }
}

/// Lemma: nothing is found in a range where `c` does not occur.
pub proof fn lemma_rfind_in_none(s: Seq<char>, c: char, lo: int, hi: int)
    requires
        0 <= lo,
        hi <= s.len(),
        forall|k: int| lo <= k < hi ==> s[k] != c,
    ensures
        rfind_in(s, c, lo, hi) is None,
    decreases hi - lo,
{
    if lo < hi {
        lemma_rfind_in_none(s, c, lo, hi - 1);
    }
}

/// Lemma: `rfind_in` commutes with shifting the sequence it searches.
pub proof fn lemma_rfind_shift(s: Seq<char>, t: Seq<char>, c: char, lo: int, hi: int, d: int)
    requires
        0 <= lo,
        0 <= d,
        hi <= t.len(),
        hi + d <= s.len(),
        forall|k: int| lo <= k < hi ==> t[k] == s[k + d],
    ensures
        rfind_in(t, c, lo, hi) == (match rfind_in(s, c, lo + d, hi + d) {
            Some(i) => Some(i - d),
            None => None::<int>,
        }),
    decreases hi - lo,
{
    if lo < hi {
        assert(t[hi - 1] == s[hi - 1 + d]);
        lemma_rfind_shift(s, t, c, lo, hi - 1, d);
    }
}

/// Lemma: `find_from` commutes with dropping a prefix of the sequence it searches.
pub proof fn lemma_find_shift(s: Seq<char>, c: char, p: int, d: int)
    requires
        0 <= p,
        0 <= d <= s.len(),
    ensures
        find_from(s.skip(d), c, p) == (match find_from(s, c, p + d) {
            Some(i) => Some(i - d),
            None => None::<int>,
        }),
    decreases s.len() - d - p,
{
    if p < s.len() - d {
        assert(s.skip(d)[p] == s[p + d]);
        lemma_find_shift(s, c, p + 1, d);
    }
}

/// Lemma: the first occurrence found from `p` is the one given.
pub proof fn lemma_find_from_is(s: Seq<char>, c: char, p: int, i: int)
    requires
        0 <= p <= i < s.len(),
        s[i] == c,
        forall|k: int| p <= k < i ==> s[k] != c,
    ensures
        find_from(s, c, p) == Some(i),
    decreases i - p,
{
    if p < i {
        lemma_find_from_is(s, c, p + 1, i);
    }
}

/// Lemma: nothing is found from `p` when `c` does not occur there.
pub proof fn lemma_find_from_none(s: Seq<char>, c: char, p: int)
    requires
        0 <= p,
        forall|k: int| p <= k < s.len() ==> s[k] != c,
    ensures
        find_from(s, c, p) is None,
    decreases s.len() - p,
{
    if p < s.len() {
        lemma_find_from_none(s, c, p + 1);
    }
}

/// The pieces of `s` between occurrences of `sep` (as `str::split` gives them).
pub open spec fn split_on(s: Seq<char>, sep: char) -> Seq<Seq<char>>
    decreases s.len(),
{
    match find_from(s, sep, 0) {
        None => seq![s],
        Some(i) => {
            proof {
                lemma_find_from(s, sep, 0);
            }
            seq![s.take(i)] + split_on(s.skip(i + 1), sep)
        },
    }
}

/// `s` split at its first occurrence of `sep` (as `str::split_once` gives it).
pub open spec fn split_once(s: Seq<char>, sep: char) -> Option<(Seq<char>, Seq<char>)> {
    match find_from(s, sep, 0) {
        None => None,
        Some(i) => Some((s.take(i), s.skip(i + 1))),
    }
}

/// The first position at or after `p` where `t` occurs in `s`.
pub open spec fn find_text(s: Seq<char>, t: Seq<char>, p: int) -> Option<int>
    decreases s.len() + 1 - p,
{
    if p < 0 || p + t.len() > s.len() {
        None
    } else if occurs_at(s, p, t) {
        Some(p)
    } else {
        find_text(s, t, p + 1)
    }
}

/// Lemma: what `find_text` finds is an occurrence, within bounds.
pub proof fn lemma_find_text(s: Seq<char>, t: Seq<char>, p: int)
    requires
        0 <= p,
    ensures
        find_text(s, t, p) matches Some(i) ==> p <= i && i + t.len() <= s.len() && occurs_at(s, i, t),
    decreases s.len() + 1 - p,
{
    if p + t.len() <= s.len() && !occurs_at(s, p, t) {
        lemma_find_text(s, t, p + 1);
    }
}

/// The first position at or after `p` where `t` occurs in `v`.
pub fn find_text_exec(v: &Vec<char>, t: &Vec<char>, p: usize) -> (r: Option<usize>)
    ensures
        r == (match find_text(v@, t@, p as int) {
            Some(i) => Some(i as usize),
            None => None::<usize>,
        }),
{
    if t.len() == 0 {
        if p > v.len() {
            return None;
        }
        assert(v@.subrange(p as int, p as int) =~= t@);
        return Some(p);
    }
    let mut i = p;
    while i <= v.len() && t.len() <= v.len() - i
        invariant
            p <= i,
            t@.len() > 0,
            find_text(v@, t@, p as int) == find_text(v@, t@, i as int),
        decreases v.len() + 1 - i,
    {
        if occurs_at_exec(v, i, t) {
            return Some(i);
        }
        i = i + 1;
    }
    None
}

/// The decimal digit character for `d` (below ten).
pub open spec fn digit_char(d: nat) -> char {
    ((d + 48) as u32) as char
}

/// The decimal digits of `n`.
pub open spec fn decimal_digits(n: nat) -> Seq<char>
    decreases n,
{
    if n < 10 {
        seq![digit_char(n)]
    } else {
        decimal_digits(n / 10).push(digit_char(n % 10))
    }
}

/// The decimal text of `n`, with a leading `-` when it is negative.
pub open spec fn decimal(n: int) -> Seq<char> {
    if n < 0 {
        seq!['-'] + decimal_digits((-n) as nat)
    } else {
        decimal_digits(n as nat)
    }
}

/// The character of the decimal digit `d` (below ten), as a text.
fn digit_text(d: u64) -> (r: &'static str)
    requires
        d < 10,
    ensures
        r@ == seq![digit_char(d as nat)],
{
    proof {
        reveal_strlit("0");
        reveal_strlit("1");
        reveal_strlit("2");
        reveal_strlit("3");
        reveal_strlit("4");
        reveal_strlit("5");
        reveal_strlit("6");
        reveal_strlit("7");
        reveal_strlit("8");
        reveal_strlit("9");
    }
    let r = if d == 0 {
        "0"
    } else if d == 1 {
        "1"
    } else if d == 2 {
        "2"
    } else if d == 3 {
        "3"
    } else if d == 4 {
        "4"
    } else if d == 5 {
        "5"
    } else if d == 6 {
        "6"
    } else if d == 7 {
        "7"
    } else if d == 8 {
        "8"
    } else {
        "9"
    };
    assert(r@ =~= seq![digit_char(d as nat)]);
    r
}

/// Appends the decimal digits of `n` to `out`.
fn push_decimal_digits(out: &mut String, n: u64)
    ensures
        final(out)@ == old(out)@ + decimal_digits(n as nat),
    decreases n,
{
    if n >= 10 {
        push_decimal_digits(out, n / 10);
    }
    out.append(digit_text(n % 10));
    assert(old(out)@ + decimal_digits(n as nat) =~= final(out)@) by {
        if n >= 10 {
            assert(decimal_digits(n as nat) == decimal_digits((n / 10) as nat).push(digit_char((n % 10) as nat)));
        }
    };
}

/// The decimal text of `n` (see `decimal`).
pub fn decimal_text(n: i64) -> (r: String)
    ensures
        r@ == decimal(n as int),
{
    let mut out = String::new();
    if n < 0 {
        out.append("-");
        proof {
            reveal_strlit("-");
        }
        let m: u64 = if n == i64::MIN {
            9223372036854775808u64
        } else {
            (-n) as u64
        };
        push_decimal_digits(&mut out, m);
        assert(out@ =~= seq!['-'] + decimal_digits((-n) as nat));
    } else {
        push_decimal_digits(&mut out, n as u64);
        assert(out@ =~= decimal_digits(n as nat));
    }
    out
}

/// Decides whether two texts are the same.
pub fn same_text(a: &str, b: &str) -> (r: bool)
    ensures
        r == (a@ == b@),
{
    let va = chars_of(a);
    let vb = chars_of(b);
    if va.len() != vb.len() {
        return false;
    }
    let mut i: usize = 0;
    while i < va.len()
        invariant
            va@ == a@,
            vb@ == b@,
            va@.len() == vb@.len(),
            i <= va@.len(),
            forall|k: int| 0 <= k < i ==> a@[k] == b@[k],
        decreases va.len() - i,
    {
        if va[i] != vb[i] {
            return false;
        }
        i = i + 1;
    }
    assert(a@ =~= b@);
    true
}

/// Decides whether `t` occurs in `v` at position `p`.
pub fn occurs_at_exec(v: &Vec<char>, p: usize, t: &Vec<char>) -> (r: bool)
    ensures
        r == occurs_at(v@, p as int, t@),
{
    if p > v.len() || t.len() > v.len() - p {
        return false;
    }
    let mut k: usize = 0;
    while k < t.len()
        invariant
            p + t@.len() <= v@.len(),
            p <= v@.len(),
            v@.len() == v.len(),
            t@.len() == t.len(),
            k <= t@.len(),
            forall|m: int| 0 <= m < k ==> v@[p + m] == t@[m],
        decreases t.len() - k,
    {
        if v[p + k] != t[k] {
            assert(v@.subrange(p as int, p + t@.len())[k as int] != t@[k as int]);
            return false;
        }
        k = k + 1;
    }
    assert(v@.subrange(p as int, p + t@.len()) =~= t@);
    true
}

/// The first position at or after `p` where `v` holds `c`.
pub fn find_from_exec(v: &Vec<char>, c: char, p: usize) -> (r: Option<usize>)
    ensures
        r == (match find_from(v@, c, p as int) {
            Some(i) => Some(i as usize),
            None => None::<usize>,
        }),
{
    let mut i = p;
    while i < v.len()
        invariant
            p <= i,
            find_from(v@, c, p as int) == find_from(v@, c, i as int),
        decreases v.len() - i,
    {
        if v[i] == c {
            return Some(i);
        }
        i = i + 1;
    }
    None
}

/// The last position in `[lo, hi)` where `v` holds `c`.
pub fn rfind_in_exec(v: &Vec<char>, c: char, lo: usize, hi: usize) -> (r: Option<usize>)
    requires
        hi <= v@.len(),
    ensures
        r == (match rfind_in(v@, c, lo as int, hi as int) {
            Some(i) => Some(i as usize),
            None => None::<usize>,
        }),
{
    if lo >= hi {
        return None;
    }
    let mut j = hi;
    while j > lo
        invariant
            lo <= hi <= v@.len(),
            lo <= j <= hi,
            rfind_in(v@, c, lo as int, hi as int) == rfind_in(v@, c, lo as int, j as int),
        decreases j,
    {
        if v[j - 1] == c {
            return Some(j - 1);
        }
        j = j - 1;
    }
    None
}


/// `a` comes before `b` in the order of text (the order of `String`): at the first
/// character where they differ, `a`'s is the smaller; or `a` is a proper prefix of `b`.
pub open spec fn text_before(a: Seq<char>, b: Seq<char>) -> bool
    decreases a.len(),
{
    if a.len() == 0 {
        b.len() > 0
    } else if b.len() == 0 {
        false
    } else if a[0] != b[0] {
        a[0] < b[0]
    } else {
        text_before(a.drop_first(), b.drop_first())
    }
}

/// Lemma: no text comes before itself.
pub proof fn lemma_text_before_irreflexive(a: Seq<char>)
    ensures
        !text_before(a, a),
    decreases a.len(),
{
    if a.len() > 0 {
        lemma_text_before_irreflexive(a.drop_first());
    }
}

/// Lemma: the order of text is transitive.
pub proof fn lemma_text_before_transitive(a: Seq<char>, b: Seq<char>, c: Seq<char>)
    requires
        text_before(a, b),
        text_before(b, c),
    ensures
        text_before(a, c),
    decreases a.len(),
{
    if a.len() > 0 && b.len() > 0 && c.len() > 0 && a[0] == b[0] && b[0] == c[0] {
        lemma_text_before_transitive(a.drop_first(), b.drop_first(), c.drop_first());
    }
}

/// Lemma: of two different texts, one comes before the other.
pub proof fn lemma_text_before_total(a: Seq<char>, b: Seq<char>)
    requires
        a != b,
    ensures
        text_before(a, b) || text_before(b, a),
    decreases a.len(),
{
    if a.len() > 0 && b.len() > 0 && a[0] == b[0] {
        if a.drop_first() == b.drop_first() {
            assert(a =~= seq![a[0]] + a.drop_first());
            assert(b =~= seq![b[0]] + b.drop_first());
        }
        lemma_text_before_total(a.drop_first(), b.drop_first());
    } else if a.len() == 0 && b.len() == 0 {
        assert(a =~= b);
    }
}

/// Lemma: a common prefix does not change the order of two texts.
proof fn lemma_text_before_skip(a: Seq<char>, b: Seq<char>, i: int)
    requires
        0 <= i <= a.len(),
        i <= b.len(),
        a.take(i) == b.take(i),
    ensures
        text_before(a, b) == text_before(a.skip(i), b.skip(i)),
    decreases i,
{
    if i > 0 {
        assert(a[0] == a.take(i)[0]);
        assert(b[0] == b.take(i)[0]);
        assert(a.drop_first().take(i - 1) =~= a.take(i).drop_first());
        assert(b.drop_first().take(i - 1) =~= b.take(i).drop_first());
        lemma_text_before_skip(a.drop_first(), b.drop_first(), i - 1);
        assert(a.drop_first().skip(i - 1) =~= a.skip(i));
        assert(b.drop_first().skip(i - 1) =~= b.skip(i));
    } else {
        assert(a.skip(0) =~= a);
        assert(b.skip(0) =~= b);
    }
}

/// Whether `a` comes before `b` in the order of text (see `text_before`).
pub fn text_before_exec(a: &str, b: &str) -> (r: bool)
    ensures
        r == text_before(a@, b@),
{
    let va = chars_of(a);
    let vb = chars_of(b);
    let mut i: usize = 0;
    while i < va.len() && i < vb.len()
        invariant
            va@ == a@,
            vb@ == b@,
            i <= va@.len(),
            i <= vb@.len(),
            a@.take(i as int) == b@.take(i as int),
        decreases va.len() - i,
    {
        if va[i] != vb[i] {
            proof {
                lemma_text_before_skip(a@, b@, i as int);
                assert(a@.skip(i as int)[0] == a@[i as int]);
                assert(b@.skip(i as int)[0] == b@[i as int]);
            }
            return va[i] < vb[i];
        }
        assert(a@.take(i + 1) =~= a@.take(i as int).push(a@[i as int]));
        assert(b@.take(i + 1) =~= b@.take(i as int).push(b@[i as int]));
        i = i + 1;
    }
    proof {
        lemma_text_before_skip(a@, b@, i as int);
    }
    i == va.len() && i < vb.len()
}

} // verus!

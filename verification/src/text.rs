//! Character-level text helpers: whitespace trimming, ASCII case folding,
//! prefix stripping and literal comparison on `&str`.
use vstd::prelude::*;
use vstd::string::*;

verus! {

/// Characters with the Unicode `White_Space` property.
pub open spec fn is_ws(c: char) -> bool {
    ||| '\u{9}' <= c <= '\u{d}'
    ||| c == ' '
    ||| c == '\u{85}'
    ||| c == '\u{a0}'
    ||| c == '\u{1680}'
    ||| '\u{2000}' <= c <= '\u{200a}'
    ||| c == '\u{2028}'
    ||| c == '\u{2029}'
    ||| c == '\u{202f}'
    ||| c == '\u{205f}'
    ||| c == '\u{3000}'
}

/// Index of the first non-whitespace character at or after `i`.
pub open spec fn trim_start_at(s: Seq<char>, i: nat) -> nat
    decreases s.len() - i,
{
    if i < s.len() && is_ws(s[i as int]) {
        trim_start_at(s, i + 1)
    } else {
        i
    }
}

/// End of `s` once trailing whitespace is dropped, not going below `lo`.
pub open spec fn trim_end_at(s: Seq<char>, lo: nat, j: nat) -> nat
    decreases j,
{
    if j > lo && j <= s.len() && is_ws(s[j - 1]) {
        trim_end_at(s, lo, (j - 1) as nat)
    } else {
        j
    }
}

/// `s` without leading and trailing whitespace.
pub open spec fn trim(s: Seq<char>) -> Seq<char> {
    let a = trim_start_at(s, 0);
    s.subrange(a as int, trim_end_at(s, a, s.len()) as int)
}

/// ASCII upper-case letters mapped to lower case; other characters kept.
pub open spec fn ascii_lower(c: char) -> char {
    if 'A' <= c <= 'Z' {
        ((c as u32) + 32) as char
    } else {
        c
    }
}

/// A string with its ASCII letters in lower case.
pub open spec fn lower(s: Seq<char>) -> Seq<char> {
    s.map_values(|c: char| ascii_lower(c))
}

/// `s` with the prefix `p` removed, if `s` starts with `p`.
pub open spec fn strip(s: Seq<char>, p: Seq<char>) -> Option<Seq<char>> {
    if p.len() <= s.len() && s.subrange(0, p.len() as int) == p {
        Some(s.subrange(p.len() as int, s.len() as int))
    } else {
        None
    }
}

/// Index of the first occurrence of `c` in `s`.
pub open spec fn is_first_char(s: Seq<char>, c: char, i: int) -> bool {
    &&& 0 <= i < s.len()
    &&& s[i] == c
    &&& forall|j: int| 0 <= j < i ==> s[j] != c
}

/// Index of the first occurrence of `c` in `s`, if any.
pub open spec fn find_char(s: Seq<char>, c: char) -> Option<int> {
    if exists|i: int| is_first_char(s, c, i) {
        Some(choose|i: int| is_first_char(s, c, i))
    } else {
        None
    }
}

/// A string that neither starts nor ends with whitespace is its own trim.
pub proof fn lemma_trim_unchanged(s: Seq<char>)
    requires
        s.len() > 0,
        !is_ws(s[0]),
        !is_ws(s[s.len() - 1]),
    ensures
        trim(s) == s,
{
    assert(trim_start_at(s, 0) == 0);
    assert(trim_end_at(s, 0, s.len()) == s.len());
    assert(s.subrange(0, s.len() as int) =~= s);
}

/// Leading whitespace from `i` up to the non-whitespace character at `k`
/// is skipped.
proof fn lemma_trim_start_skips(t: Seq<char>, i: nat, k: nat)
    requires
        i <= k < t.len(),
        forall|j: int| i <= j < k ==> is_ws(#[trigger] t[j]),
        !is_ws(t[k as int]),
    ensures
        trim_start_at(t, i) == k,
    decreases k - i,
{
    if i < k {
        lemma_trim_start_skips(t, i + 1, k);
    }
}

/// Trailing whitespace from `j` back to the non-whitespace character
/// before `e` is dropped.
proof fn lemma_trim_end_skips(t: Seq<char>, lo: nat, j: nat, e: nat)
    requires
        lo < e <= j <= t.len(),
        forall|m: int| e <= m < j ==> is_ws(#[trigger] t[m]),
        !is_ws(t[e - 1]),
    ensures
        trim_end_at(t, lo, j) == e,
    decreases j - e,
{
    if j > e {
        lemma_trim_end_skips(t, lo, (j - 1) as nat, e);
    }
}

/// Surrounding a string that neither starts nor ends with whitespace by
/// whitespace on either side does not change its trim.
pub proof fn lemma_trim_padded(pre: Seq<char>, s: Seq<char>, post: Seq<char>)
    requires
        s.len() > 0,
        !is_ws(s[0]),
        !is_ws(s[s.len() - 1]),
        forall|i: int| 0 <= i < pre.len() ==> is_ws(#[trigger] pre[i]),
        forall|i: int| 0 <= i < post.len() ==> is_ws(#[trigger] post[i]),
    ensures
        trim(pre + s + post) == s,
{
    let t = pre + s + post;
    let a = pre.len();
    let e = pre.len() + s.len();
    assert forall|j: int| 0 <= j < a implies is_ws(#[trigger] t[j]) by {
        assert(t[j] == pre[j]);
    }
    assert(t[a as int] == s[0]);
    lemma_trim_start_skips(t, 0, a);
    assert forall|m: int| e <= m < t.len() implies is_ws(#[trigger] t[m]) by {
        assert(t[m] == post[m - e]);
    }
    assert(t[e - 1] == s[s.len() - 1]);
    lemma_trim_end_skips(t, a, t.len(), e);
    assert(t.subrange(a as int, e as int) =~= s);
}

/// Executable whitespace test.
pub fn is_whitespace_char(c: char) -> (b: bool)
    ensures
        b == is_ws(c),
{
    ('\u{9}' <= c && c <= '\u{d}') || c == ' ' || c == '\u{85}' || c == '\u{a0}' || c == '\u{1680}'
        || ('\u{2000}' <= c && c <= '\u{200a}') || c == '\u{2028}' || c == '\u{2029}' || c
        == '\u{202f}' || c == '\u{205f}' || c == '\u{3000}'
}

/// `s` without leading and trailing whitespace.
pub fn trim_str(s: &str) -> (t: &str)
    ensures
        t@ == trim(s@),
{
    let n = s.unicode_len();
    let mut a: usize = 0;
    while a < n && is_whitespace_char(s.get_char(a))
        invariant
            n == s@.len(),
            a <= n,
            trim_start_at(s@, a as nat) == trim_start_at(s@, 0),
        decreases n - a,
    {
        a = a + 1;
    }
    let mut b: usize = n;
    while b > a && is_whitespace_char(s.get_char(b - 1))
        invariant
            n == s@.len(),
            a <= b <= n,
            a == trim_start_at(s@, 0),
            trim_end_at(s@, a as nat, b as nat) == trim_end_at(s@, a as nat, n as nat),
        decreases b,
    {
        b = b - 1;
    }
    s.substring_char(a, b)
}

/// Whether `t`, with its ASCII letters in lower case, equals `lit`.
pub fn lower_eq(t: &str, lit: &str) -> (b: bool)
    ensures
        b == (lower(t@) == lit@),
{
    let n = t.unicode_len();
    if n != lit.unicode_len() {
        return false;
    }
    let mut i: usize = 0;
    while i < n
        invariant
            n == t@.len(),
            n == lit@.len(),
            i <= n,
            forall|j: int| 0 <= j < i ==> ascii_lower(#[trigger] t@[j]) == lit@[j],
        decreases n - i,
    {
        let c = t.get_char(i);
        let l = lit.get_char(i);
        let same = if 'A' <= c && c <= 'Z' {
            (c as u32) + 32 == (l as u32)
        } else {
            c == l
        };
        if !same {
            proof {
                assert(lower(t@)[i as int] != lit@[i as int]);
            }
            return false;
        }
        i = i + 1;
    }
    proof {
        assert(lower(t@) =~= lit@);
    }
    true
}

/// `s` with the prefix `p` removed, if `s` starts with `p`.
pub fn strip_prefix_str<'a>(s: &'a str, p: &str) -> (r: Option<&'a str>)
    ensures
        match r {
            Some(rest) => strip(s@, p@) == Some(rest@),
            None => strip(s@, p@) is None,
        },
{
    let n = s.unicode_len();
    let m = p.unicode_len();
    if m > n {
        return None;
    }
    let mut i: usize = 0;
    while i < m
        invariant
            n == s@.len(),
            m == p@.len(),
            m <= n,
            i <= m,
            forall|j: int| 0 <= j < i ==> s@[j] == p@[j],
        decreases m - i,
    {
        if s.get_char(i) != p.get_char(i) {
            proof {
                assert(s@.subrange(0, m as int)[i as int] != p@[i as int]);
            }
            return None;
        }
        i = i + 1;
    }
    proof {
        assert(s@.subrange(0, m as int) =~= p@);
    }
    Some(s.substring_char(m, n))
}

/// Index of the first occurrence of `c` in `s`, if any.
pub fn find_char_str(s: &str, c: char) -> (r: Option<usize>)
    ensures
        match r {
            Some(i) => find_char(s@, c) == Some(i as int),
            None => find_char(s@, c) is None,
        },
{
    let n = s.unicode_len();
    let mut i: usize = 0;
    while i < n
        invariant
            n == s@.len(),
            i <= n,
            forall|j: int| 0 <= j < i ==> s@[j] != c,
        decreases n - i,
    {
        if s.get_char(i) == c {
            proof {
                assert(is_first_char(s@, c, i as int));
                let k = choose|k: int| is_first_char(s@, c, k);
                assert(k == i);
            }
            return Some(i);
        }
        i = i + 1;
    }
    None
}

/// The length of a string in characters is positive.
pub fn is_nonempty(s: &str) -> (b: bool)
    ensures
        b == (s@.len() > 0),
{
    s.unicode_len() > 0
}

/// Concatenates three pieces into a new string.
pub fn concat3(a: &str, b: &str, c: &str) -> (r: String)
    ensures
        r@ == a@ + b@ + c@,
{
    String::from_str(a).concat(b).concat(c)
}

} // verus!

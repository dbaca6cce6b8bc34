//! Character-level text operations with exact specifications.
//!
//! The model of a string is its `Seq<char>`; `find` and `rfind` give
//! character positions. `byte_len`, `byte_find` and `byte_rfind` give the
//! byte offsets that `str::len`, `str::find` and `str::rfind` return (UTF-8),
//! and `char_index_at` turns a byte offset back into a character position.

use vstd::prelude::*;

verus! {

// ---------------------------------------------------------------------------
// Specifications
// ---------------------------------------------------------------------------

/// `p` occurs in `s` starting at position `i`.
pub open spec fn occurs_at(s: Seq<char>, p: Seq<char>, i: int) -> bool {
    &&& 0 <= i
    &&& i + p.len() <= s.len()
    &&& s.subrange(i, i + p.len()) == p
}

/// The first position at or after `k` where `p` occurs in `s`.
pub open spec fn find_from(s: Seq<char>, p: Seq<char>, k: int) -> Option<int>
    decreases s.len() + 1 - k,
{
    if k < 0 || k + p.len() > s.len() {
        None
    } else if occurs_at(s, p, k) {
        Some(k)
    } else {
        find_from(s, p, k + 1)
    }
}

/// The first position where `p` occurs in `s` (`str::find`).
pub open spec fn find(s: Seq<char>, p: Seq<char>) -> Option<int> {
    find_from(s, p, 0)
}

/// The last position at or before `k` where `p` occurs in `s`.
pub open spec fn rfind_at_most(s: Seq<char>, p: Seq<char>, k: int) -> Option<int>
    decreases k + 1,
{
    if k < 0 {
        None
    } else if occurs_at(s, p, k) {
        Some(k)
    } else {
        rfind_at_most(s, p, k - 1)
    }
}

/// The last position where `p` occurs in `s` (`str::rfind`).
pub open spec fn rfind(s: Seq<char>, p: Seq<char>) -> Option<int> {
    rfind_at_most(s, p, s.len() - p.len())
}

/// `p` occurs somewhere in `s` (`str::contains`).
pub open spec fn contains(s: Seq<char>, p: Seq<char>) -> bool {
    find(s, p) is Some
}

/// `s` from position `k` on, with every occurrence of the non-empty `p`
/// (searched left to right, without overlap) replaced by `r`.
pub open spec fn replace_from(s: Seq<char>, p: Seq<char>, r: Seq<char>, k: int) -> Seq<char>
    decreases s.len() - k,
{
    if p.len() == 0 || k < 0 || k > s.len() {
        s.subrange(k, s.len() as int)
    } else {
        match find_from(s, p, k) {
            None => s.subrange(k, s.len() as int),
            Some(i) => {
                proof {
                    lemma_find_from(s, p, k);
                }
                s.subrange(k, i) + r + replace_from(s, p, r, i + p.len())
            },
        }
    }
}

/// `str::replace` for a non-empty pattern.
pub open spec fn replace_all(s: Seq<char>, p: Seq<char>, r: Seq<char>) -> Seq<char> {
    replace_from(s, p, r, 0)
}

/// The first `n` characters of `s`, or all of `s` if it is shorter
/// (`chars().take(n)`).
pub open spec fn take_chars(s: Seq<char>, n: int) -> Seq<char> {
    if n <= s.len() {
        s.take(n)
    } else {
        s
    }
}

/// `s` without its first `n` characters, empty if it is shorter
/// (`chars().skip(n)`).
pub open spec fn skip_chars(s: Seq<char>, n: int) -> Seq<char> {
    if n <= s.len() {
        s.skip(n)
    } else {
        Seq::empty()
    }
}

/// Unicode `White_Space` characters (`char::is_whitespace`).
pub open spec fn is_ws(c: char) -> bool {
    ||| '\u{9}' <= c <= '\u{d}'
    ||| c == ' '
    ||| c == '\u{85}'
    ||| c == '\u{a0}'
    ||| c == '\u{1680}'
    ||| '\u{2000}' <= c <= '\u{200a}'
    ||| c == '\u{2028}'
    ||| c == '\u{2029}'
    ||| c == '\u{202f}'
    ||| c == '\u{205f}'
    ||| c == '\u{3000}'
}

/// `s` without its leading whitespace.
pub open spec fn trim_start(s: Seq<char>) -> Seq<char>
    decreases s.len(),
{
    if s.len() > 0 && is_ws(s[0]) {
        trim_start(s.drop_first())
    } else {
        s
    }
}

/// `s` without its trailing whitespace.
pub open spec fn trim_end(s: Seq<char>) -> Seq<char>
    decreases s.len(),
{
    if s.len() > 0 && is_ws(s.last()) {
        trim_end(s.drop_last())
    } else {
        s
    }
}

/// `s` without leading and trailing whitespace (`str::trim`).
pub open spec fn trim(s: Seq<char>) -> Seq<char> {
    trim_end(trim_start(s))
}

/// The decimal digit for `d < 10`.
pub open spec fn digit(d: nat) -> char {
    ((d + 48) as u32) as char
}

/// The decimal representation of `n`, without leading zeros.
pub open spec fn decimal(n: nat) -> Seq<char>
    decreases n,
{
    if n < 10 {
        seq![digit(n)]
    } else {
        decimal(n / 10).push(digit(n % 10))
    }
}

/// The number of bytes of `c` in UTF-8 (`char::len_utf8`).
pub open spec fn utf8_width(c: char) -> nat {
    if (c as u32) < 0x80 {
        1
    } else if (c as u32) < 0x800 {
        2
    } else if (c as u32) < 0x10000 {
        3
    } else {
        4
    }
}

/// The number of bytes of `s` in UTF-8 (`str::len`).
pub open spec fn byte_len(s: Seq<char>) -> nat
    decreases s.len(),
{
    if s.len() == 0 {
        0
    } else {
        byte_len(s.drop_last()) + utf8_width(s.last())
    }
}

/// `str::find`: the byte offset of the first occurrence of `p` in `s`.
pub open spec fn byte_find(s: Seq<char>, p: Seq<char>) -> Option<int> {
    match find(s, p) {
        Some(i) => Some(byte_len(s.take(i)) as int),
        None => None,
    }
}

/// `str::rfind`: the byte offset of the last occurrence of `p` in `s`.
pub open spec fn byte_rfind(s: Seq<char>, p: Seq<char>) -> Option<int> {
    match rfind(s, p) {
        Some(i) => Some(byte_len(s.take(i)) as int),
        None => None,
    }
}

/// The character position at or after `i` where the byte offset `b` of `s`
/// falls, if `b` is a character boundary there.
pub open spec fn char_index_from(s: Seq<char>, b: int, i: int) -> Option<int>
    decreases s.len() + 1 - i,
{
    if i < 0 || i > s.len() {
        None
    } else if byte_len(s.take(i)) == b {
        Some(i)
    } else if byte_len(s.take(i)) > b {
        None
    } else {
        char_index_from(s, b, i + 1)
    }
}

/// The character position that begins at byte offset `b` of `s`; `None`
/// where `b` is not a character boundary of `s` (`str::is_char_boundary`).
pub open spec fn char_index_at(s: Seq<char>, b: int) -> Option<int> {
    char_index_from(s, b, 0)
}

/// Every character is ASCII.
pub open spec fn ascii(s: Seq<char>) -> bool {
    forall|i: int| 0 <= i < s.len() ==> (#[trigger] s[i] as u32) < 0x80
}

// ---------------------------------------------------------------------------
// Lemmas
// ---------------------------------------------------------------------------

/// What `find_from` returns: the least occurrence at or after `k`.
pub proof fn lemma_find_from(s: Seq<char>, p: Seq<char>, k: int)
    ensures
        find_from(s, p, k) matches Some(i) ==> {
            &&& k <= i
            &&& occurs_at(s, p, i)
            &&& forall|j: int| k <= j < i ==> !occurs_at(s, p, j)
        },
        0 <= k && find_from(s, p, k) is None ==> forall|j: int| k <= j ==> !occurs_at(s, p, j),
    decreases s.len() + 1 - k,
{
    if k < 0 || k + p.len() > s.len() {
    } else if occurs_at(s, p, k) {
    } else {
        lemma_find_from(s, p, k + 1);
    }
}

/// What `rfind_at_most` returns: the greatest occurrence at or before `k`.
pub proof fn lemma_rfind_at_most(s: Seq<char>, p: Seq<char>, k: int)
    ensures
        rfind_at_most(s, p, k) matches Some(i) ==> {
            &&& i <= k
            &&& occurs_at(s, p, i)
            &&& forall|j: int| i < j <= k ==> !occurs_at(s, p, j)
        },
        rfind_at_most(s, p, k) is None ==> forall|j: int| j <= k ==> !occurs_at(s, p, j),
    decreases k + 1,
{
    if k < 0 {
    } else if occurs_at(s, p, k) {
    } else {
        lemma_rfind_at_most(s, p, k - 1);
    }
}

/// The least occurrence at or after `k` is what `find_from` returns.
pub proof fn lemma_find_from_is(s: Seq<char>, p: Seq<char>, k: int, i: int)
    requires
        0 <= k <= i,
        occurs_at(s, p, i),
        forall|j: int| k <= j < i ==> !occurs_at(s, p, j),
    ensures
        find_from(s, p, k) == Some(i),
{
    lemma_find_from(s, p, k);
}

/// The greatest occurrence at or before `k` is what `rfind_at_most` returns.
pub proof fn lemma_rfind_at_most_is(s: Seq<char>, p: Seq<char>, k: int, i: int)
    requires
        i <= k,
        occurs_at(s, p, i),
        forall|j: int| i < j <= k ==> !occurs_at(s, p, j),
    ensures
        rfind_at_most(s, p, k) == Some(i),
{
    lemma_rfind_at_most(s, p, k);
}

/// The bytes of two strings put together.
pub proof fn lemma_byte_len_concat(a: Seq<char>, b: Seq<char>)
    ensures
        byte_len(a + b) == byte_len(a) + byte_len(b),
    decreases b.len(),
{
    if b.len() == 0 {
        assert(a + b =~= a);
    } else {
        assert((a + b).drop_last() =~= a + b.drop_last());
        lemma_byte_len_concat(a, b.drop_last());
    }
}

/// A string has at least as many bytes as characters, and exactly as many
/// when it is ASCII.
pub proof fn lemma_byte_len_bounds(s: Seq<char>)
    ensures
        s.len() <= byte_len(s) <= 4 * s.len(),
        ascii(s) ==> byte_len(s) == s.len(),
    decreases s.len(),
{
    if s.len() > 0 {
        lemma_byte_len_bounds(s.drop_last());
        if ascii(s) {
            assert(s.last() == s[s.len() - 1]);
            assert forall|i: int| 0 <= i < s.drop_last().len() implies (#[trigger] s.drop_last()[i]
                as u32) < 0x80 by {
                assert(s.drop_last()[i] == s[i]);
            }
        }
    }
}

/// The bytes of a prefix and of the rest.
pub proof fn lemma_byte_len_split(s: Seq<char>, n: int)
    requires
        0 <= n <= s.len(),
    ensures
        byte_len(s) == byte_len(s.take(n)) + byte_len(s.skip(n)),
        n <= byte_len(s.take(n)),
        s.len() - n <= byte_len(s.skip(n)),
        byte_len(s.skip(n)) + n <= byte_len(s),
{
    assert(s =~= s.take(n) + s.skip(n));
    lemma_byte_len_concat(s.take(n), s.skip(n));
    lemma_byte_len_bounds(s.take(n));
    lemma_byte_len_bounds(s.skip(n));
}

/// Longer prefixes have more bytes.
pub proof fn lemma_byte_len_prefix_grows(s: Seq<char>, i: int, j: int)
    requires
        0 <= i < j <= s.len(),
    ensures
        byte_len(s.take(i)) + (j - i) <= byte_len(s.take(j)),
{
    lemma_byte_len_split(s.take(j), i);
    assert(s.take(j).take(i) =~= s.take(i));
    assert(s.take(j).skip(i).len() == j - i);
}

/// Parts of an ASCII string are ASCII, and ASCII strings put together are.
pub proof fn lemma_ascii_parts(s: Seq<char>, t: Seq<char>)
    ensures
        ascii(s) && ascii(t) ==> ascii(s + t),
        ascii(s) ==> forall|i: int, j: int| 0 <= i <= j <= s.len() ==> ascii(#[trigger] s.subrange(i, j)),
{
    if ascii(s) && ascii(t) {
        assert forall|i: int| 0 <= i < (s + t).len() implies (#[trigger] (s + t)[i] as u32) < 0x80 by {
            if i < s.len() {
                assert((s + t)[i] == s[i]);
            } else {
                assert((s + t)[i] == t[i - s.len()]);
            }
        }
    }
    if ascii(s) {
        assert forall|i: int, j: int| 0 <= i <= j <= s.len() implies ascii(#[trigger] s.subrange(i, j)) by {
            assert forall|m: int| 0 <= m < s.subrange(i, j).len() implies (#[trigger] s.subrange(i, j)[m]
                as u32) < 0x80 by {
                assert(s.subrange(i, j)[m] == s[i + m]);
            }
        }
    }
}

/// On ASCII text, byte offsets are character positions.
pub proof fn lemma_ascii_bytes(s: Seq<char>)
    requires
        ascii(s),
    ensures
        forall|i: int| 0 <= i <= s.len() ==> byte_len(#[trigger] s.take(i)) == i,
        forall|i: int| 0 <= i <= s.len() ==> #[trigger] char_index_at(s, i) == Some(i),
        forall|p: Seq<char>| #[trigger] byte_find(s, p) == find(s, p),
        forall|p: Seq<char>| #[trigger] byte_rfind(s, p) == rfind(s, p),
{
    lemma_ascii_parts(s, Seq::empty());
    assert forall|i: int| 0 <= i <= s.len() implies byte_len(#[trigger] s.take(i)) == i by {
        assert(s.take(i) =~= s.subrange(0, i));
        lemma_byte_len_bounds(s.take(i));
    }
    assert forall|i: int| 0 <= i <= s.len() implies #[trigger] char_index_at(s, i) == Some(i) by {
        lemma_char_index_ascii(s, i, 0);
    }
    assert forall|p: Seq<char>| #[trigger] byte_find(s, p) == find(s, p) by {
        lemma_find_from(s, p, 0);
        if let Some(i) = find(s, p) {
            assert(s.take(i) =~= s.subrange(0, i));
            lemma_byte_len_bounds(s.take(i));
        }
    }
    assert forall|p: Seq<char>| #[trigger] byte_rfind(s, p) == rfind(s, p) by {
        lemma_rfind_at_most(s, p, s.len() - p.len());
        if let Some(i) = rfind(s, p) {
            assert(s.take(i) =~= s.subrange(0, i));
            lemma_byte_len_bounds(s.take(i));
        }
    }
}

proof fn lemma_char_index_ascii(s: Seq<char>, b: int, i: int)
    requires
        ascii(s),
        0 <= i <= b <= s.len(),
    ensures
        char_index_from(s, b, i) == Some(b),
    decreases b - i,
{
    lemma_ascii_parts(s, Seq::empty());
    assert(s.take(i) =~= s.subrange(0, i));
    lemma_byte_len_bounds(s.take(i));
    if i < b {
        lemma_char_index_ascii(s, b, i + 1);
    }
}

/// What `char_index_from` returns: a position whose prefix has `b` bytes.
pub proof fn lemma_char_index_from(s: Seq<char>, b: int, i: int)
    ensures
        char_index_from(s, b, i) matches Some(k) ==> i <= k <= s.len() && byte_len(s.take(k)) == b,
    decreases s.len() + 1 - i,
{
    if i < 0 || i > s.len() {
    } else if byte_len(s.take(i)) == b {
    } else if byte_len(s.take(i)) > b {
    } else {
        lemma_char_index_from(s, b, i + 1);
    }
}

/// Searching after the first `i` characters finds what searching from `i`
/// finds, `i` characters earlier.
pub proof fn lemma_find_skip(c: Seq<char>, p: Seq<char>, i: int)
    requires
        0 <= i <= c.len(),
    ensures
        find(c.skip(i), p) matches Some(f) ==> find_from(c, p, i) == Some(i + f),
        find(c.skip(i), p) is None ==> find_from(c, p, i) is None,
{
    let r = c.skip(i);
    lemma_find_from(r, p, 0);
    lemma_find_from(c, p, i);
    assert forall|j: int| 0 <= j implies occurs_at(r, p, j) == occurs_at(c, p, i + j) by {
        if j + p.len() <= r.len() {
            assert(r.subrange(j, j + p.len()) =~= c.subrange(i + j, i + j + p.len()));
        }
    }
    if let Some(f) = find(r, p) {
        assert(occurs_at(c, p, i + f));
        assert forall|j: int| i <= j < i + f implies !occurs_at(c, p, j) by {
            assert(!occurs_at(r, p, j - i));
        }
        lemma_find_from_is(c, p, i, i + f);
    } else if let Some(g) = find_from(c, p, i) {
        assert(occurs_at(r, p, g - i));
    }
}

/// `contains` is the existence of an occurrence.
pub proof fn lemma_contains(s: Seq<char>, p: Seq<char>)
    ensures
        contains(s, p) <==> exists|i: int| occurs_at(s, p, i),
{
    lemma_find_from(s, p, 0);
    if contains(s, p) {
        let i = find(s, p)->0;
        assert(occurs_at(s, p, i));
    }
}

/// An occurrence in `s` is an occurrence in `s + t`.
pub proof fn lemma_contains_prefix(s: Seq<char>, t: Seq<char>, p: Seq<char>)
    requires
        contains(s, p),
    ensures
        contains(s + t, p),
{
    lemma_contains(s, p);
    let i = choose|i: int| occurs_at(s, p, i);
    assert((s + t).subrange(i, i + p.len()) =~= s.subrange(i, i + p.len()));
    assert(occurs_at(s + t, p, i));
    lemma_contains(s + t, p);
}

/// An occurrence in `t` is an occurrence in `s + t`.
pub proof fn lemma_contains_suffix(s: Seq<char>, t: Seq<char>, p: Seq<char>)
    requires
        contains(t, p),
    ensures
        contains(s + t, p),
{
    lemma_contains(t, p);
    let i = choose|i: int| occurs_at(t, p, i);
    assert((s + t).subrange(s.len() + i, s.len() + i + p.len()) =~= t.subrange(i, i + p.len()));
    assert(occurs_at(s + t, p, s.len() + i));
    lemma_contains(s + t, p);
}

/// `p` occurs in any string of the form `a + p + b`.
pub proof fn lemma_contains_middle(a: Seq<char>, p: Seq<char>, b: Seq<char>)
    ensures
        contains(a + p + b, p),
{
    assert((a + p + b).subrange(a.len() as int, (a.len() + p.len()) as int) =~= p);
    assert(occurs_at(a + p + b, p, a.len() as int));
    lemma_contains(a + p + b, p);
}

/// An occurrence of `p` inside an occurrence of `q` is an occurrence in `s`.
pub proof fn lemma_contains_trans(s: Seq<char>, q: Seq<char>, p: Seq<char>)
    requires
        contains(s, q),
        contains(q, p),
    ensures
        contains(s, p),
{
    lemma_contains(s, q);
    lemma_contains(q, p);
    let i = choose|i: int| occurs_at(s, q, i);
    let j = choose|j: int| occurs_at(q, p, j);
    assert(s.subrange(i + j, i + j + p.len()) =~= q.subrange(j, j + p.len())) by {
        assert forall|m: int| 0 <= m < p.len() implies #[trigger] s.subrange(i + j, i + j + p.len())[m]
            == q.subrange(j, j + p.len())[m] by {
            assert(s.subrange(i, i + q.len())[j + m] == s[i + j + m]);
        }
    }
    assert(occurs_at(s, p, i + j));
    lemma_contains(s, p);
}

// ---------------------------------------------------------------------------
// Executable operations
// ---------------------------------------------------------------------------

/// The length in bytes of `s` (`str::len`): the number of bytes of its
/// UTF-8 encoding, which is the sum of `char::len_utf8` over its characters.
#[verifier::external_body]
pub(crate) fn str_byte_len(s: &str) -> (n: usize)
    ensures
        n == byte_len(s@),
{
    s.len()
}

/// The number of bytes of `c` in UTF-8.
pub fn utf8_width_of(c: char) -> (n: usize)
    ensures
        n == utf8_width(c),
{
    let u = c as u32;
    if u < 0x80 {
        1
    } else if u < 0x800 {
        2
    } else if u < 0x10000 {
        3
    } else {
        4
    }
}

/// The number of bytes of `v[start..end]` in UTF-8.
pub fn byte_len_range(v: &[char], start: usize, end: usize) -> (n: usize)
    requires
        start <= end <= v@.len(),
        byte_len(v@.subrange(start as int, end as int)) <= usize::MAX,
    ensures
        n == byte_len(v@.subrange(start as int, end as int)),
{
    let mut n: usize = 0;
    let mut i = start;
    assert(v@.subrange(start as int, start as int) =~= Seq::<char>::empty());
    while i < end
        invariant
            start <= i <= end <= v@.len(),
            n == byte_len(v@.subrange(start as int, i as int)),
            byte_len(v@.subrange(start as int, end as int)) <= usize::MAX,
        decreases end - i,
    {
        let ghost whole = v@.subrange(start as int, end as int);
        proof {
            let k = (i + 1 - start) as int;
            assert(whole.take(k) =~= v@.subrange(start as int, i + 1));
            lemma_byte_len_split(whole, k);
            assert(v@.subrange(start as int, i + 1).drop_last() =~= v@.subrange(start as int, i as int));
        }
        let w = utf8_width_of(v[i]);
        n = n + w;
        i = i + 1;
    }
    n
}

/// `str::find` on characters: the byte offset of the first occurrence.
pub fn byte_find_chars(s: &[char], p: &[char]) -> (r: Option<usize>)
    requires
        byte_len(s@) <= usize::MAX,
    ensures
        r matches Some(b) ==> byte_find(s@, p@) == Some(b as int),
        r is None ==> byte_find(s@, p@) is None,
{
    match find_chars(s, p) {
        None => None,
        Some(i) => {
            proof {
                lemma_find_from(s@, p@, 0);
                lemma_byte_len_split(s@, i as int);
                assert(s@.take(i as int) =~= s@.subrange(0, i as int));
            }
            Some(byte_len_range(s, 0, i))
        },
    }
}

/// `str::rfind` on characters: the byte offset of the last occurrence.
pub fn byte_rfind_chars(s: &[char], p: &[char]) -> (r: Option<usize>)
    requires
        byte_len(s@) <= usize::MAX,
    ensures
        r matches Some(b) ==> byte_rfind(s@, p@) == Some(b as int),
        r is None ==> byte_rfind(s@, p@) is None,
{
    match rfind_chars(s, p) {
        None => None,
        Some(i) => {
            proof {
                lemma_rfind_at_most(s@, p@, s@.len() - p@.len());
                lemma_byte_len_split(s@, i as int);
                assert(s@.take(i as int) =~= s@.subrange(0, i as int));
            }
            Some(byte_len_range(s, 0, i))
        },
    }
}

/// The character position that begins at byte offset `b` of `v`, if `b` is
/// a character boundary.
pub fn char_index_of(v: &[char], b: usize) -> (r: Option<usize>)
    ensures
        r matches Some(i) ==> char_index_at(v@, b as int) == Some(i as int),
        r is None ==> char_index_at(v@, b as int) is None,
{
    let mut i: usize = 0;
    let mut acc: usize = 0;
    assert(v@.take(0) =~= Seq::<char>::empty());
    loop
        invariant
            i <= v@.len(),
            acc == byte_len(v@.take(i as int)),
            acc <= b,
            char_index_at(v@, b as int) == char_index_from(v@, b as int, i as int),
        decreases v@.len() - i,
    {
        if acc == b {
            return Some(i);
        }
        if i == v.len() {
            return None;
        }
        let w = utf8_width_of(v[i]);
        proof {
            assert(v@.take(i + 1).drop_last() =~= v@.take(i as int));
        }
        if w > b - acc {
            proof {
                assert(char_index_from(v@, b as int, i + 1) is None);
            }
            return None;
        }
        acc = acc + w;
        i = i + 1;
    }
}

/// Appends one character to a `String` (`String::push`).
#[verifier::external_body]
fn push_char(s: &mut String, c: char)
    ensures
        final(s)@ == old(s)@.push(c),
{
    s.push(c);
}

/// The characters of `s`, in order.
pub fn to_chars(s: &str) -> (v: Vec<char>)
    ensures
        v@ == s@,
{
    let mut v: Vec<char> = Vec::new();
    for c in it: s.chars()
        invariant
            v@ == it.seq().take(it.index()),
    {
        v.push(c);
    }
    v
}

/// The string made of the characters of `v`, in order.
pub fn from_chars(v: &[char]) -> (s: String)
    ensures
        s@ == v@,
{
    let mut s = String::new();
    let mut i: usize = 0;
    while i < v.len()
        invariant
            i <= v@.len(),
            s@ == v@.take(i as int),
        decreases v@.len() - i,
    {
        push_char(&mut s, v[i]);
        assert(v@.take(i as int).push(v@[i as int]) =~= v@.take(i + 1));
        i = i + 1;
    }
    assert(v@.take(v@.len() as int) =~= v@);
    s
}

/// The characters of `v` from `start` (inclusive) to `end` (exclusive).
pub fn slice_chars(v: &[char], start: usize, end: usize) -> (r: Vec<char>)
    requires
        start <= end <= v@.len(),
    ensures
        r@ == v@.subrange(start as int, end as int),
{
    let mut r: Vec<char> = Vec::new();
    let mut i = start;
    while i < end
        invariant
            start <= i <= end <= v@.len(),
            r@ == v@.subrange(start as int, i as int),
        decreases end - i,
    {
        r.push(v[i]);
        assert(v@.subrange(start as int, i as int).push(v@[i as int]) =~= v@.subrange(
            start as int,
            i + 1,
        ));
        i = i + 1;
    }
    r
}

/// Appends the characters of `w` to `v`.
pub fn extend_chars(v: &mut Vec<char>, w: &[char])
    ensures
        final(v)@ == old(v)@ + w@,
{
    let mut i: usize = 0;
    while i < w.len()
        invariant
            i <= w@.len(),
            v@ == old(v)@ + w@.take(i as int),
        decreases w@.len() - i,
    {
        v.push(w[i]);
        assert(old(v)@ + w@.take(i as int).push(w@[i as int]) =~= old(v)@ + w@.take(i + 1));
        i = i + 1;
    }
    assert(w@.take(w@.len() as int) =~= w@);
}

/// Whether `p` occurs in `s` at position `i`.
pub fn matches_at(s: &[char], p: &[char], i: usize) -> (b: bool)
    ensures
        b == occurs_at(s@, p@, i as int),
{
    if i > s.len() || p.len() > s.len() - i {
        return false;
    }
    let mut j: usize = 0;
    while j < p.len()
        invariant
            i + p@.len() <= s@.len(),
            s@.len() == s.len(),
            j <= p@.len(),
            forall|m: int| 0 <= m < j ==> s@[i + m] == p@[m],
        decreases p@.len() - j,
    {
        if s[i + j] != p[j] {
            assert(s@.subrange(i as int, i + p@.len())[j as int] != p@[j as int]);
            return false;
        }
        j = j + 1;
    }
    assert(s@.subrange(i as int, i + p@.len()) =~= p@);
    true
}

/// The first position at or after `k` where `p` occurs in `s`.
pub fn find_chars_from(s: &[char], p: &[char], k: usize) -> (r: Option<usize>)
    ensures
        r matches Some(i) ==> find_from(s@, p@, k as int) == Some(i as int),
        r is None ==> find_from(s@, p@, k as int) is None,
{
    let mut i = k;
    while i <= s.len() && p.len() <= s.len() - i
        invariant
            k <= i,
            find_from(s@, p@, k as int) == find_from(s@, p@, i as int),
        decreases s@.len() + 1 - i,
    {
        if p.len() == 0 {
            assert(s@.subrange(i as int, i as int) =~= p@);
            return Some(i);
        }
        if matches_at(s, p, i) {
            return Some(i);
        }
        i = i + 1;
    }
    None
}

/// The last position at or before `k` where `p` occurs in `s`.
pub fn rfind_chars_at_most(s: &[char], p: &[char], k: usize) -> (r: Option<usize>)
    ensures
        r matches Some(i) ==> rfind_at_most(s@, p@, k as int) == Some(i as int),
        r is None ==> rfind_at_most(s@, p@, k as int) is None,
{
    let mut i = k;
    loop
        invariant
            i <= k,
            rfind_at_most(s@, p@, k as int) == rfind_at_most(s@, p@, i as int),
        decreases i,
    {
        if matches_at(s, p, i) {
            return Some(i);
        }
        if i == 0 {
            assert(rfind_at_most(s@, p@, -1) is None);
            return None;
        }
        i = i - 1;
    }
}

/// The first position where `p` occurs in `s`.
pub fn find_chars(s: &[char], p: &[char]) -> (r: Option<usize>)
    ensures
        r matches Some(i) ==> find(s@, p@) == Some(i as int),
        r is None ==> find(s@, p@) is None,
{
    find_chars_from(s, p, 0)
}

/// The last position where `p` occurs in `s`.
pub fn rfind_chars(s: &[char], p: &[char]) -> (r: Option<usize>)
    ensures
        r matches Some(i) ==> rfind(s@, p@) == Some(i as int),
        r is None ==> rfind(s@, p@) is None,
{
    if p.len() > s.len() {
        assert(rfind(s@, p@) is None);
        return None;
    }
    rfind_chars_at_most(s, p, s.len() - p.len())
}

/// Whether `p` occurs in `s`.
pub fn contains_chars(s: &[char], p: &[char]) -> (b: bool)
    ensures
        b == contains(s@, p@),
{
    find_chars(s, p).is_some()
}

/// `s` with every occurrence of the non-empty `p` replaced by `r`.
pub fn replace_chars(s: &[char], p: &[char], r: &[char]) -> (out: Vec<char>)
    requires
        p@.len() > 0,
    ensures
        out@ == replace_all(s@, p@, r@),
{
    let mut out: Vec<char> = Vec::new();
    let mut k: usize = 0;
    loop
        invariant
            p@.len() > 0,
            k <= s@.len(),
            out@ + replace_from(s@, p@, r@, k as int) == replace_all(s@, p@, r@),
        decreases s@.len() - k,
    {
        match find_chars_from(s, p, k) {
            None => {
                let rest = slice_chars(s, k, s.len());
                extend_chars(&mut out, &rest);
                return out;
            },
            Some(i) => {
                proof {
                    lemma_find_from(s@, p@, k as int);
                }
                let piece = slice_chars(s, k, i);
                extend_chars(&mut out, &piece);
                extend_chars(&mut out, r);
                proof {
                    assert(out@ + replace_from(s@, p@, r@, i + p@.len()) =~= (out@.subrange(
                        0,
                        out@.len() - r@.len() - piece@.len(),
                    )) + replace_from(s@, p@, r@, k as int));
                }
                assert(s@.len() == s.len());
                k = i + p.len();
            },
        }
    }
}

/// Whether `c` is a Unicode `White_Space` character.
pub fn is_whitespace(c: char) -> (b: bool)
    ensures
        b == is_ws(c),
{
    ('\u{9}' <= c && c <= '\u{d}') || c == ' ' || c == '\u{85}' || c == '\u{a0}' || c
        == '\u{1680}' || ('\u{2000}' <= c && c <= '\u{200a}') || c == '\u{2028}' || c
        == '\u{2029}' || c == '\u{202f}' || c == '\u{205f}' || c == '\u{3000}'
}

proof fn lemma_trim_start_skip(s: Seq<char>, i: int)
    requires
        0 <= i <= s.len(),
        forall|j: int| 0 <= j < i ==> is_ws(s[j]),
    ensures
        trim_start(s) == trim_start(s.skip(i)),
    decreases i,
{
    if i > 0 {
        assert(is_ws(s[0]));
        assert(s.drop_first().skip(i - 1) =~= s.skip(i));
        assert forall|j: int| 0 <= j < i - 1 implies is_ws(s.drop_first()[j]) by {
            assert(s.drop_first()[j] == s[j + 1]);
        }
        lemma_trim_start_skip(s.drop_first(), i - 1);
    } else {
        assert(s.skip(0) =~= s);
    }
}

proof fn lemma_trim_end_take(s: Seq<char>, i: int)
    requires
        0 <= i <= s.len(),
        forall|j: int| i <= j < s.len() ==> is_ws(s[j]),
    ensures
        trim_end(s) == trim_end(s.take(i)),
    decreases s.len() - i,
{
    if i < s.len() {
        assert(s.drop_last().take(i) =~= s.take(i));
        lemma_trim_end_take(s.drop_last(), i);
    } else {
        assert(s.take(i) =~= s);
    }
}

/// `s` without leading and trailing whitespace.
pub fn trim_chars(s: &[char]) -> (out: Vec<char>)
    ensures
        out@ == trim(s@),
{
    let mut a: usize = 0;
    while a < s.len() && is_whitespace(s[a])
        invariant
            a <= s@.len(),
            forall|j: int| 0 <= j < a ==> is_ws(s@[j]),
        decreases s@.len() - a,
    {
        a = a + 1;
    }
    proof {
        lemma_trim_start_skip(s@, a as int);
        assert(trim_start(s@.skip(a as int)) == s@.skip(a as int));
    }
    let mut b: usize = s.len();
    while b > a && is_whitespace(s[b - 1])
        invariant
            a <= b <= s@.len(),
            forall|j: int| b <= j < s@.len() ==> is_ws(s@[j]),
        decreases b,
    {
        b = b - 1;
    }
    let out = slice_chars(s, a, b);
    proof {
        let t = s@.skip(a as int);
        lemma_trim_end_take(t, b - a);
        assert(t.take(b - a) =~= out@);
        assert(trim_end(out@) == out@);
    }
    out
}

/// The decimal representation of `n`.
pub fn decimal_chars(n: usize) -> (out: Vec<char>)
    ensures
        out@ == decimal(n as nat),
    decreases n,
{
    let d = (n % 10) as u32;
    let c: char = char_from_digit(d);
    if n < 10 {
        let mut v: Vec<char> = Vec::new();
        v.push(c);
        assert(v@ =~= seq![digit(n as nat)]);
        v
    } else {
        let mut v = decimal_chars(n / 10);
        v.push(c);
        v
    }
}

/// The character of a decimal digit.
fn char_from_digit(d: u32) -> (c: char)
    requires
        d < 10,
    ensures
        c == digit(d as nat),
{
    match d {
        0 => '0',
        1 => '1',
        2 => '2',
        3 => '3',
        4 => '4',
        5 => '5',
        6 => '6',
        7 => '7',
        8 => '8',
        _ => '9',
    }
}

/// Whether `a` and `b` hold the same characters.
pub fn chars_eq(a: &[char], b: &[char]) -> (r: bool)
    ensures
        r == (a@ == b@),
{
    if a.len() != b.len() {
        return false;
    }
    let mut i: usize = 0;
    while i < a.len()
        invariant
            a@.len() == b@.len(),
            i <= a@.len(),
            forall|j: int| 0 <= j < i ==> a@[j] == b@[j],
        decreases a@.len() - i,
    {
        if a[i] != b[i] {
            return false;
        }
        i = i + 1;
    }
    assert(a@ =~= b@);
    true
}

/// Whether the strings `a` and `b` are equal.
pub fn str_eq(a: &str, b: &str) -> (r: bool)
    ensures
        r == (a@ == b@),
{
    let x = to_chars(a);
    let y = to_chars(b);
    chars_eq(&x, &y)
}

/// Whether `p` occurs in the string `s`.
pub fn contains_str(s: &str, p: &str) -> (r: bool)
    ensures
        r == contains(s@, p@),
{
    let x = to_chars(s);
    let y = to_chars(p);
    contains_chars(&x, &y)
}

} // verus!

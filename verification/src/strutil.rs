//! Verified string utilities: searching, slicing, trimming, splitting,
//! and decimal formatting/parsing over `Seq<char>` models.

use vstd::prelude::*;
use vstd::string::*;

verus! {

// ---------------------------------------------------------------------------
// Basic character classes
// ---------------------------------------------------------------------------

/// Horizontal whitespace, as used between the columns of an index table row.
pub open spec fn is_ws_char(c: char) -> bool {
    c == ' ' || c == '\t'
}

/// The decimal value of a digit character, or 10 for any other character.
pub open spec fn digit_val(c: char) -> int {
    if c == '0' { 0 } else if c == '1' { 1 } else if c == '2' { 2 }
    else if c == '3' { 3 } else if c == '4' { 4 } else if c == '5' { 5 }
    else if c == '6' { 6 } else if c == '7' { 7 } else if c == '8' { 8 }
    else if c == '9' { 9 } else { 10 }
}

pub open spec fn is_dec_digit(c: char) -> bool {
    digit_val(c) < 10
}

/// The digit character for a value in `0..10`.
pub open spec fn digit_char(d: int) -> char {
    if d == 0 { '0' } else if d == 1 { '1' } else if d == 2 { '2' }
    else if d == 3 { '3' } else if d == 4 { '4' } else if d == 5 { '5' }
    else if d == 6 { '6' } else if d == 7 { '7' } else if d == 8 { '8' }
    else { '9' }
}

// ---------------------------------------------------------------------------
// Searching
// ---------------------------------------------------------------------------

/// Index of the first occurrence of `c` in `s`, or `s.len()` when absent.
pub open spec fn first_index_or(s: Seq<char>, c: char) -> int
    decreases s.len(),
{
    if s.len() == 0 {
        0
    } else if s[0] == c {
        0
    } else {
        1 + first_index_or(s.subrange(1, s.len() as int), c)
    }
}

pub proof fn lemma_first_index_or(s: Seq<char>, c: char)
    ensures
        0 <= first_index_or(s, c) <= s.len(),
        first_index_or(s, c) < s.len() ==> s[first_index_or(s, c)] == c,
        forall|j: int| 0 <= j < first_index_or(s, c) ==> s[j] != c,
    decreases s.len(),
{
    if s.len() == 0 {
    } else if s[0] == c {
    } else {
        let t = s.subrange(1, s.len() as int);
        lemma_first_index_or(t, c);
        assert forall|j: int| 0 <= j < first_index_or(s, c) implies s[j] != c by {
            if j > 0 {
                assert(t[j - 1] == s[j]);
            }
        }
    }
}

/// First index holding `c`, or the length of `s` when `s` has no `c`.
pub fn find_char(s: &str, c: char) -> (r: usize)
    ensures
        r as int == first_index_or(s@, c),
        r <= s@.len(),
{
    proof {
        lemma_first_index_or(s@, c);
    }
    let n = s.unicode_len();
    let mut i: usize = 0;
    while i < n
        invariant
            n == s@.len(),
            0 <= i <= n,
            forall|j: int| 0 <= j < i ==> s@[j] != c,
        decreases n - i,
    {
        if s.get_char(i) == c {
            proof {
                lemma_first_index_or(s@, c);
            }
            return i;
        }
        i += 1;
    }
    proof {
        lemma_first_index_or(s@, c);
    }
    n
}

/// First index holding horizontal whitespace, or the length of `s`.
pub open spec fn first_ws_or(s: Seq<char>) -> int
    decreases s.len(),
{
    if s.len() == 0 {
        0
    } else if is_ws_char(s[0]) {
        0
    } else {
        1 + first_ws_or(s.subrange(1, s.len() as int))
    }
}

pub proof fn lemma_first_ws_or(s: Seq<char>)
    ensures
        0 <= first_ws_or(s) <= s.len(),
        first_ws_or(s) < s.len() ==> is_ws_char(s[first_ws_or(s)]),
        forall|j: int| 0 <= j < first_ws_or(s) ==> !is_ws_char(s[j]),
    decreases s.len(),
{
    if s.len() == 0 {
    } else if is_ws_char(s[0]) {
    } else {
        let t = s.subrange(1, s.len() as int);
        lemma_first_ws_or(t);
        assert forall|j: int| 0 <= j < first_ws_or(s) implies !is_ws_char(s[j]) by {
            if j > 0 {
                assert(t[j - 1] == s[j]);
            }
        }
    }
}

fn find_ws(s: &str) -> (r: usize)
    ensures
        r as int == first_ws_or(s@),
        r <= s@.len(),
{
    proof {
        lemma_first_ws_or(s@);
    }
    let n = s.unicode_len();
    let mut i: usize = 0;
    while i < n
        invariant
            n == s@.len(),
            0 <= i <= n,
            forall|j: int| 0 <= j < i ==> !is_ws_char(s@[j]),
        decreases n - i,
    {
        let c = s.get_char(i);
        if c == ' ' || c == '\t' {
            proof {
                lemma_first_ws_or(s@);
            }
            return i;
        }
        i += 1;
    }
    proof {
        lemma_first_ws_or(s@);
    }
    n
}

// ---------------------------------------------------------------------------
// Comparison and slicing
// ---------------------------------------------------------------------------

pub fn str_eq(a: &str, b: &str) -> (r: bool)
    ensures
        r == (a@ == b@),
{
    let na = a.unicode_len();
    let nb = b.unicode_len();
    if na != nb {
        return false;
    }
    let mut i: usize = 0;
    while i < na
        invariant
            na == a@.len(),
            na == b@.len(),
            0 <= i <= na,
            forall|j: int| 0 <= j < i ==> a@[j] == b@[j],
        decreases na - i,
    {
        if a.get_char(i) != b.get_char(i) {
            return false;
        }
        i += 1;
    }
    proof {
        assert(a@ =~= b@);
    }
    true
}

pub open spec fn starts_with_spec(s: Seq<char>, p: Seq<char>) -> bool {
    p.len() <= s.len() && s.subrange(0, p.len() as int) == p
}

pub open spec fn ends_with_spec(s: Seq<char>, p: Seq<char>) -> bool {
    p.len() <= s.len() && s.subrange(s.len() - p.len(), s.len() as int) == p
}

pub fn starts_with(s: &str, p: &str) -> (r: bool)
    ensures
        r == starts_with_spec(s@, p@),
{
    let np = p.unicode_len();
    if np > s.unicode_len() {
        return false;
    }
    str_eq(s.substring_char(0, np), p)
}

pub fn ends_with(s: &str, p: &str) -> (r: bool)
    ensures
        r == ends_with_spec(s@, p@),
{
    let np = p.unicode_len();
    let ns = s.unicode_len();
    if np > ns {
        return false;
    }
    str_eq(s.substring_char(ns - np, ns), p)
}

/// Owned copy of the character range `from..to` of `s`.
pub fn substr_copy(s: &str, from: usize, to: usize) -> (r: String)
    requires
        from <= to <= s@.len(),
    ensures
        r@ == s@.subrange(from as int, to as int),
{
    String::from_str(s.substring_char(from, to))
}

/// Whether `p` occurs contiguously anywhere in `s`.
pub open spec fn contains_spec(s: Seq<char>, p: Seq<char>) -> bool {
    exists|i: int|
        0 <= i && i + p.len() <= s.len() && #[trigger] s.subrange(i, i + p.len() as int) == p
}

pub fn contains_substr(s: &str, p: &str) -> (r: bool)
    ensures
        r == contains_spec(s@, p@),
{
    let np = p.unicode_len();
    let ns = s.unicode_len();
    if np > ns {
        return false;
    }
    if np == 0 {
        proof {
            assert(s@.subrange(0, 0 + p@.len() as int) =~= p@);
        }
        return true;
    }
    let mut i: usize = 0;
    while i <= ns - np
        invariant
            np == p@.len(),
            ns == s@.len(),
            1 <= np <= ns,
            0 <= i <= ns - np + 1,
            forall|k: int| 0 <= k < i ==> #[trigger] s@.subrange(k, k + p@.len() as int) != p@,
        decreases ns - np - i + 1,
    {
        if str_eq(s.substring_char(i, i + np), p) {
            return true;
        }
        i += 1;
    }
    false
}

// ---------------------------------------------------------------------------
// Trimming
// ---------------------------------------------------------------------------

/// Number of leading characters of `s` equal to `c`.
pub open spec fn leading_count(s: Seq<char>, c: char) -> int
    decreases s.len(),
{
    if s.len() > 0 && s[0] == c {
        1 + leading_count(s.subrange(1, s.len() as int), c)
    } else {
        0
    }
}

pub proof fn lemma_leading_count(s: Seq<char>, c: char)
    ensures
        0 <= leading_count(s, c) <= s.len(),
        forall|j: int| 0 <= j < leading_count(s, c) ==> s[j] == c,
        leading_count(s, c) < s.len() ==> s[leading_count(s, c)] != c,
    decreases s.len(),
{
    if s.len() > 0 && s[0] == c {
        let t = s.subrange(1, s.len() as int);
        lemma_leading_count(t, c);
        assert forall|j: int| 0 <= j < leading_count(s, c) implies s[j] == c by {
            if j > 0 {
                assert(t[j - 1] == s[j]);
            }
        }
    }
}

/// Number of trailing characters of `s` equal to `c`.
pub open spec fn trailing_count(s: Seq<char>, c: char) -> int
    decreases s.len(),
{
    if s.len() > 0 && s[s.len() - 1] == c {
        1 + trailing_count(s.subrange(0, s.len() - 1), c)
    } else {
        0
    }
}

pub proof fn lemma_trailing_count(s: Seq<char>, c: char)
    ensures
        0 <= trailing_count(s, c) <= s.len(),
        forall|j: int| s.len() - trailing_count(s, c) <= j < s.len() ==> s[j] == c,
        trailing_count(s, c) < s.len() ==> s[s.len() - trailing_count(s, c) - 1] != c,
    decreases s.len(),
{
    if s.len() > 0 && s[s.len() - 1] == c {
        let t = s.subrange(0, s.len() - 1);
        lemma_trailing_count(t, c);
        assert forall|j: int| s.len() - trailing_count(s, c) <= j < s.len() implies s[j] == c by {
            if j < s.len() - 1 {
                assert(t[j] == s[j]);
            }
        }
    }
}

/// `s` with every leading and trailing `c` removed.
pub open spec fn trim_char_spec(s: Seq<char>, c: char) -> Seq<char> {
    let lo = leading_count(s, c);
    if lo == s.len() {
        Seq::empty()
    } else {
        s.subrange(lo, s.len() - trailing_count(s, c))
    }
}

pub fn trim_char(s: &str, c: char) -> (r: String)
    ensures
        r@ == trim_char_spec(s@, c),
{
    proof {
        lemma_leading_count(s@, c);
        lemma_trailing_count(s@, c);
    }
    let n = s.unicode_len();
    let mut lo: usize = 0;
    while lo < n && s.get_char(lo) == c
        invariant
            n == s@.len(),
            0 <= lo <= n,
            forall|j: int| 0 <= j < lo ==> s@[j] == c,
        decreases n - lo,
    {
        lo += 1;
    }
    proof {
        lemma_leading_count(s@, c);
        assert(lo as int == leading_count(s@, c));
    }
    if lo == n {
        let r = String::new();
        proof {
            assert(r@ =~= trim_char_spec(s@, c));
        }
        return r;
    }
    let mut hi: usize = n;
    while hi > lo && s.get_char(hi - 1) == c
        invariant
            n == s@.len(),
            lo <= hi <= n,
            forall|j: int| hi <= j < n ==> s@[j] == c,
        decreases hi,
    {
        hi -= 1;
    }
    proof {
        lemma_trailing_count(s@, c);
        assert(n - hi as int == trailing_count(s@, c)) by {
            let tc = trailing_count(s@, c);
            if n - hi < tc {
                assert(s@[n - tc] != c || tc == 0 || s@[s@.len() - tc - 1] != c);
                assert(s@[s@.len() - tc - 1] != c);
                assert(hi <= s@.len() - tc - 1 < n);
            }
            if n - hi > tc {
                assert(s@[hi as int] == c);
            }
        }
    }
    substr_copy(s, lo, hi)
}

/// `s` with every leading whitespace character removed.
pub open spec fn leading_ws_count(s: Seq<char>) -> int
    decreases s.len(),
{
    if s.len() > 0 && is_ws_char(s[0]) {
        1 + leading_ws_count(s.subrange(1, s.len() as int))
    } else {
        0
    }
}

pub proof fn lemma_leading_ws_count(s: Seq<char>)
    ensures
        0 <= leading_ws_count(s) <= s.len(),
        forall|j: int| 0 <= j < leading_ws_count(s) ==> is_ws_char(s[j]),
        leading_ws_count(s) < s.len() ==> !is_ws_char(s[leading_ws_count(s)]),
    decreases s.len(),
{
    if s.len() > 0 && is_ws_char(s[0]) {
        let t = s.subrange(1, s.len() as int);
        lemma_leading_ws_count(t);
        assert forall|j: int| 0 <= j < leading_ws_count(s) implies is_ws_char(s[j]) by {
            if j > 0 {
                assert(t[j - 1] == s[j]);
            }
        }
    }
}

pub open spec fn trim_ws_leading_spec(s: Seq<char>) -> Seq<char> {
    s.subrange(leading_ws_count(s), s.len() as int)
}

pub fn trim_ws_leading(s: &str) -> (r: String)
    ensures
        r@ == trim_ws_leading_spec(s@),
{
    proof {
        lemma_leading_ws_count(s@);
    }
    let n = s.unicode_len();
    let mut lo: usize = 0;
    while lo < n && (s.get_char(lo) == ' ' || s.get_char(lo) == '\t')
        invariant
            n == s@.len(),
            0 <= lo <= n,
            forall|j: int| 0 <= j < lo ==> is_ws_char(s@[j]),
        decreases n - lo,
    {
        lo += 1;
    }
    proof {
        lemma_leading_ws_count(s@);
        assert(lo as int == leading_ws_count(s@));
    }
    substr_copy(s, lo, n)
}

/// Number of trailing whitespace characters.
pub open spec fn trailing_ws_count(s: Seq<char>) -> int
    decreases s.len(),
{
    if s.len() > 0 && is_ws_char(s[s.len() - 1]) {
        1 + trailing_ws_count(s.subrange(0, s.len() - 1))
    } else {
        0
    }
}

pub proof fn lemma_trailing_ws_count(s: Seq<char>)
    ensures
        0 <= trailing_ws_count(s) <= s.len(),
        forall|j: int| s.len() - trailing_ws_count(s) <= j < s.len() ==> is_ws_char(s[j]),
        trailing_ws_count(s) < s.len() ==> !is_ws_char(s[s.len() - trailing_ws_count(s) - 1]),
    decreases s.len(),
{
    if s.len() > 0 && is_ws_char(s[s.len() - 1]) {
        let t = s.subrange(0, s.len() - 1);
        lemma_trailing_ws_count(t);
        assert forall|j: int| s.len() - trailing_ws_count(s) <= j < s.len() implies is_ws_char(
            s[j],
        ) by {
            if j < s.len() - 1 {
                assert(t[j] == s[j]);
            }
        }
    }
}

/// `s` with leading and trailing whitespace removed.
pub open spec fn trim_ws_spec(s: Seq<char>) -> Seq<char> {
    let lo = leading_ws_count(s);
    if lo == s.len() {
        Seq::empty()
    } else {
        s.subrange(lo, s.len() - trailing_ws_count(s))
    }
}

pub fn trim_ws(s: &str) -> (r: String)
    ensures
        r@ == trim_ws_spec(s@),
{
    proof {
        lemma_leading_ws_count(s@);
        lemma_trailing_ws_count(s@);
    }
    let n = s.unicode_len();
    let mut lo: usize = 0;
    while lo < n && (s.get_char(lo) == ' ' || s.get_char(lo) == '\t')
        invariant
            n == s@.len(),
            0 <= lo <= n,
            forall|j: int| 0 <= j < lo ==> is_ws_char(s@[j]),
        decreases n - lo,
    {
        lo += 1;
    }
    proof {
        lemma_leading_ws_count(s@);
        assert(lo as int == leading_ws_count(s@));
    }
    if lo == n {
        let r = String::new();
        proof {
            assert(r@ =~= trim_ws_spec(s@));
        }
        return r;
    }
    let mut hi: usize = n;
    while hi > lo && (s.get_char(hi - 1) == ' ' || s.get_char(hi - 1) == '\t')
        invariant
            n == s@.len(),
            lo <= hi <= n,
            forall|j: int| hi <= j < n ==> is_ws_char(s@[j]),
        decreases hi,
    {
        hi -= 1;
    }
    proof {
        lemma_trailing_ws_count(s@);
        assert(n - hi as int == trailing_ws_count(s@)) by {
            let tc = trailing_ws_count(s@);
            if n - hi < tc {
                assert(!is_ws_char(s@[s@.len() - tc - 1]));
                assert(hi <= s@.len() - tc - 1 < n);
            }
            if n - hi > tc {
                assert(is_ws_char(s@[hi as int]));
            }
        }
    }
    substr_copy(s, lo, hi)
}

// ---------------------------------------------------------------------------
// Splitting
// ---------------------------------------------------------------------------

/// `s` split on every occurrence of `c`; always at least one part, and no
/// part contains `c`.
pub open spec fn split_spec(s: Seq<char>, c: char) -> Seq<Seq<char>>
    decreases s.len(),
{
    let i = first_index_or(s, c);
    let i2 = if i < 0 { 0 } else { i };
    if i2 >= s.len() {
        seq![s]
    } else {
        seq![s.subrange(0, i2)] + split_spec(s.subrange(i2 + 1, s.len() as int), c)
    }
}

pub proof fn lemma_split_spec(s: Seq<char>, c: char)
    ensures
        split_spec(s, c).len() >= 1,
        forall|k: int, j: int|
            0 <= k < split_spec(s, c).len() && 0 <= j < split_spec(s, c)[k].len()
                ==> split_spec(s, c)[k][j] != c,
    decreases s.len(),
{
    lemma_first_index_or(s, c);
    let i = first_index_or(s, c);
    if i < s.len() {
        lemma_split_spec(s.subrange(i + 1, s.len() as int), c);
    }
}

/// Split `s` on `c`.
pub fn split_char(s: &str, c: char) -> (r: Vec<String>)
    ensures
        r.deep_view() == split_spec(s@, c),
    decreases s@.len(),
{
    proof {
        lemma_first_index_or(s@, c);
    }
    let n = s.unicode_len();
    let i = find_char(s, c);
    if i >= n {
        let mut r: Vec<String> = Vec::new();
        r.push(String::from_str(s));
        proof {
            assert(r.deep_view() =~= split_spec(s@, c));
        }
        r
    } else {
        let head = substr_copy(s, 0, i);
        let tail = s.substring_char(i + 1, n);
        let mut r = split_char(tail, c);
        r.insert(0, head);
        proof {
            assert(r.deep_view() =~= split_spec(s@, c));
        }
        r
    }
}

/// The maximal whitespace-free tokens of `s`, in order.
pub open spec fn tokens_spec(s: Seq<char>) -> Seq<Seq<char>>
    decreases s.len(),
{
    if s.len() == 0 {
        Seq::empty()
    } else if is_ws_char(s[0]) {
        tokens_spec(s.subrange(1, s.len() as int))
    } else {
        let i = first_ws_or(s);
        let i2 = if i < 1 { 1 } else if i > s.len() { s.len() as int } else { i };
        seq![s.subrange(0, i2)] + tokens_spec(s.subrange(i2, s.len() as int))
    }
}

/// Split `s` into whitespace-separated tokens.
pub fn tokenize_ws(s: &str) -> (r: Vec<String>)
    ensures
        r.deep_view() == tokens_spec(s@),
    decreases s@.len(),
{
    let n = s.unicode_len();
    if n == 0 {
        let r: Vec<String> = Vec::new();
        proof {
            assert(r.deep_view() =~= tokens_spec(s@));
        }
        return r;
    }
    let c0 = s.get_char(0);
    if c0 == ' ' || c0 == '\t' {
        let r = tokenize_ws(s.substring_char(1, n));
        proof {
            assert(r.deep_view() =~= tokens_spec(s@));
        }
        r
    } else {
        proof {
            lemma_first_ws_or(s@);
        }
        let i = find_ws(s);
        let head = substr_copy(s, 0, i);
        let mut r = tokenize_ws(s.substring_char(i, n));
        r.insert(0, head);
        proof {
            assert(r.deep_view() =~= tokens_spec(s@));
        }
        r
    }
}

/// Index of the last occurrence of `c` in `s`, or `-1` when absent.
pub open spec fn last_index_of(s: Seq<char>, c: char) -> int
    decreases s.len(),
{
    if s.len() == 0 {
        -1
    } else if s[s.len() - 1] == c {
        s.len() - 1
    } else {
        last_index_of(s.subrange(0, s.len() - 1), c)
    }
}

pub proof fn lemma_last_index_of(s: Seq<char>, c: char)
    ensures
        -1 <= last_index_of(s, c) < s.len(),
        last_index_of(s, c) >= 0 ==> s[last_index_of(s, c)] == c,
        forall|j: int| last_index_of(s, c) < j < s.len() ==> s[j] != c,
    decreases s.len(),
{
    if s.len() > 0 && s[s.len() - 1] != c {
        let t = s.subrange(0, s.len() - 1);
        lemma_last_index_of(t, c);
        assert forall|j: int| last_index_of(s, c) < j < s.len() implies s[j] != c by {
            if j < s.len() - 1 {
                assert(t[j] == s[j]);
            }
        }
    }
}

/// Index one past the last occurrence of `c`, or `0` when absent.
pub fn rfind_char_end(s: &str, c: char) -> (r: usize)
    ensures
        r as int == last_index_of(s@, c) + 1,
        r <= s@.len(),
{
    proof {
        lemma_last_index_of(s@, c);
    }
    let n = s.unicode_len();
    let mut i: usize = n;
    while i > 0
        invariant
            n == s@.len(),
            0 <= i <= n,
            forall|j: int| i <= j < n ==> s@[j] != c,
        decreases i,
    {
        if s.get_char(i - 1) == c {
            proof {
                lemma_last_index_of(s@, c);
            }
            return i;
        }
        i -= 1;
    }
    proof {
        lemma_last_index_of(s@, c);
    }
    0
}

/// The parts joined with a newline between each pair.
pub open spec fn join_nl(parts: Seq<Seq<char>>) -> Seq<char>
    decreases parts.len(),
{
    if parts.len() == 0 {
        Seq::empty()
    } else if parts.len() == 1 {
        parts[0]
    } else {
        parts[0] + seq!['\n'] + join_nl(parts.subrange(1, parts.len() as int))
    }
}

pub proof fn lemma_join_nl_push(parts: Seq<Seq<char>>, x: Seq<char>)
    requires
        parts.len() >= 1,
    ensures
        join_nl(parts.push(x)) == join_nl(parts) + seq!['\n'] + x,
    decreases parts.len(),
{
    let p2 = parts.push(x);
    if parts.len() == 1 {
        assert(p2.subrange(1, p2.len() as int) =~= seq![x]);
        assert(p2.len() == 2);
        assert(p2[0] == parts[0]);
        assert(join_nl(seq![x]) == x);
        assert(join_nl(p2) == p2[0] + seq!['\n'] + join_nl(p2.subrange(1, p2.len() as int)));
        assert(join_nl(parts) == parts[0]);
    } else {
        let t = parts.subrange(1, parts.len() as int);
        lemma_join_nl_push(t, x);
        assert(p2.subrange(1, p2.len() as int) =~= t.push(x));
        assert(p2[0] == parts[0]);
        assert(join_nl(p2) == p2[0] + seq!['\n'] + join_nl(t.push(x)));
        assert(parts[0] + seq!['\n'] + (join_nl(t) + seq!['\n'] + x) =~= (parts[0] + seq!['\n']
            + join_nl(t)) + seq!['\n'] + x);
    }
}

/// Join a range of `parts` with newlines.
pub fn join_lines(parts: &Vec<String>, from: usize, to: usize) -> (r: String)
    requires
        from <= to <= parts@.len(),
    ensures
        r@ == join_nl(parts.deep_view().subrange(from as int, to as int)),
{
    let mut r = String::new();
    if from >= to {
        proof {
            assert(parts.deep_view().subrange(from as int, to as int) =~= Seq::<Seq<char>>::empty());
        }
        return r;
    }
    r = parts[from].clone();
    proof {
        assert(parts.deep_view().subrange(from as int, from + 1) =~= seq![parts@[from as int]@]);
    }
    let mut i: usize = from + 1;
    while i < to
        invariant
            from < i <= to <= parts@.len(),
            parts.deep_view().len() == parts@.len(),
            r@ == join_nl(parts.deep_view().subrange(from as int, i as int)),
        decreases to - i,
    {
        r = r.concat("\n").concat(parts[i].as_str());
        proof {
            reveal_strlit("\n");
            assert("\n"@ =~= seq!['\n']);
            let pre = parts.deep_view().subrange(from as int, i as int);
            assert(pre.len() >= 1);
            lemma_join_nl_push(pre, parts@[i as int]@);
            assert(parts.deep_view().subrange(from as int, i + 1) =~= pre.push(
                parts@[i as int]@,
            ));
        }
        i += 1;
    }
    r
}

/// Splitting a newline-join on newlines gives back the parts, when no
/// part contains a newline.
pub proof fn lemma_split_join(parts: Seq<Seq<char>>)
    requires
        parts.len() >= 1,
        forall|k: int, j: int|
            0 <= k < parts.len() && 0 <= j < parts[k].len() ==> #[trigger] parts[k][j] != '\n',
    ensures
        split_spec(join_nl(parts), '\n') == parts,
    decreases parts.len(),
{
    let s = join_nl(parts);
    lemma_first_index_or(s, '\n');
    if parts.len() == 1 {
        assert(s == parts[0]);
        let f = first_index_or(s, '\n');
        if f < s.len() {
            assert(s[f] == '\n');
            assert(parts[0][f] != '\n');
        }
        assert(split_spec(s, '\n') =~= seq![parts[0]]);
        assert(split_spec(s, '\n') =~= parts);
    } else {
        let rest = parts.subrange(1, parts.len() as int);
        assert forall|k: int, j: int|
            0 <= k < rest.len() && 0 <= j < rest[k].len() implies #[trigger] rest[k][j]
            != '\n' by {
            assert(rest[k] == parts[k + 1]);
        }
        lemma_split_join(rest);
        let p0 = parts[0];
        assert(s == p0 + seq!['\n'] + join_nl(rest));
        let f = first_index_or(s, '\n');
        assert(s[p0.len() as int] == '\n');
        assert(f == p0.len()) by {
            if f < p0.len() {
                assert(s[f] == p0[f]);
                assert(p0[f] != '\n');
            }
            if f > p0.len() {
                assert(s[p0.len() as int] != '\n');
            }
        }
        assert(s.subrange(0, f) =~= p0);
        assert(s.subrange(f + 1, s.len() as int) =~= join_nl(rest));
        assert(split_spec(s, '\n') =~= seq![p0] + split_spec(join_nl(rest), '\n'));
        assert(seq![p0] + rest =~= parts);
    }
}

/// Tokenizing a whitespace-free token followed by whitespace (or the
/// end) yields the token, then the tokens of what follows.
pub proof fn lemma_tokens_prepend_token(tok: Seq<char>, rest: Seq<char>)
    requires
        tok.len() >= 1,
        forall|j: int| 0 <= j < tok.len() ==> !is_ws_char(#[trigger] tok[j]),
        rest.len() == 0 || is_ws_char(rest[0]),
    ensures
        tokens_spec(tok + rest) == seq![tok] + tokens_spec(rest),
{
    let s = tok + rest;
    assert(s[0] == tok[0]);
    lemma_first_ws_or(s);
    let f = first_ws_or(s);
    assert(f == tok.len()) by {
        if f < tok.len() {
            assert(s[f] == tok[f]);
        }
        if f > tok.len() {
            assert(rest.len() > 0 && f <= s.len());
            assert(s[tok.len() as int] == rest[0]);
            assert(!is_ws_char(s[tok.len() as int]));
        }
    }
    assert(s.subrange(0, f) =~= tok);
    assert(s.subrange(f, s.len() as int) =~= rest);
    assert(tokens_spec(s) =~= seq![tok] + tokens_spec(rest));
}

/// Every token is non-empty, free of whitespace, and made of characters
/// of the input.
pub proof fn lemma_tokens_spec_props(s: Seq<char>)
    ensures
        forall|k: int| 0 <= k < tokens_spec(s).len() ==> (#[trigger] tokens_spec(s)[k]).len() >= 1,
        forall|k: int, j: int|
            0 <= k < tokens_spec(s).len() && 0 <= j < tokens_spec(s)[k].len() ==> !is_ws_char(
                #[trigger] tokens_spec(s)[k][j],
            ) && (exists|x: int| 0 <= x < s.len() && #[trigger] s[x] == tokens_spec(s)[k][j]),
    decreases s.len(),
{
    if s.len() == 0 {
    } else if is_ws_char(s[0]) {
        let t = s.subrange(1, s.len() as int);
        lemma_tokens_spec_props(t);
        assert forall|k: int, j: int|
            0 <= k < tokens_spec(s).len() && 0 <= j < tokens_spec(s)[k].len() implies !is_ws_char(
            #[trigger] tokens_spec(s)[k][j],
        ) && (exists|x: int| 0 <= x < s.len() && #[trigger] s[x] == tokens_spec(s)[k][j]) by {
            assert(tokens_spec(s)[k] == tokens_spec(t)[k]);
            let x0 = choose|x: int| 0 <= x < t.len() && #[trigger] t[x] == tokens_spec(t)[k][j];
            assert(s[x0 + 1] == tokens_spec(s)[k][j]);
        }
    } else {
        lemma_first_ws_or(s);
        let i = first_ws_or(s);
        let i2: int = if i < 1 { 1 } else if i > s.len() { s.len() as int } else { i };
        assert(i2 == i);
        let rest = s.subrange(i2, s.len() as int);
        lemma_tokens_spec_props(rest);
        assert forall|k: int, j: int|
            0 <= k < tokens_spec(s).len() && 0 <= j < tokens_spec(s)[k].len() implies !is_ws_char(
            #[trigger] tokens_spec(s)[k][j],
        ) && (exists|x: int| 0 <= x < s.len() && #[trigger] s[x] == tokens_spec(s)[k][j]) by {
            if k == 0 {
                assert(tokens_spec(s)[0] == s.subrange(0, i2));
                assert(s[j] == tokens_spec(s)[0][j]);
            } else {
                assert(tokens_spec(s)[k] == tokens_spec(rest)[k - 1]);
                let x0 = choose|x: int|
                    0 <= x < rest.len() && #[trigger] rest[x] == tokens_spec(rest)[k - 1][j];
                assert(s[x0 + i2] == tokens_spec(s)[k][j]);
            }
        }
        assert forall|k: int| 0 <= k < tokens_spec(s).len() implies (#[trigger] tokens_spec(
            s,
        )[k]).len() >= 1 by {
            if k > 0 {
                assert(tokens_spec(s)[k] == tokens_spec(rest)[k - 1]);
            }
        }
    }
}

// ---------------------------------------------------------------------------
// Decimal numbers
// ---------------------------------------------------------------------------

pub open spec fn all_dec_digits(s: Seq<char>) -> bool {
    forall|j: int| 0 <= j < s.len() ==> is_dec_digit(#[trigger] s[j])
}

/// Numeric value of a digit string, most significant digit first.
pub open spec fn dec_val(s: Seq<char>) -> int
    decreases s.len(),
{
    if s.len() == 0 {
        0
    } else {
        dec_val(s.subrange(0, s.len() - 1)) * 10 + digit_val(s[s.len() - 1])
    }
}

pub proof fn lemma_dec_val_nonneg(s: Seq<char>)
    requires
        all_dec_digits(s),
    ensures
        dec_val(s) >= 0,
    decreases s.len(),
{
    if s.len() > 0 {
        let t = s.subrange(0, s.len() - 1);
        assert(all_dec_digits(t));
        lemma_dec_val_nonneg(t);
    }
}

/// A longer digit string never has a smaller value than its prefix.
pub proof fn lemma_dec_val_prefix(s: Seq<char>, i: int)
    requires
        all_dec_digits(s),
        0 <= i <= s.len(),
    ensures
        dec_val(s.subrange(0, i)) <= dec_val(s),
    decreases s.len() - i,
{
    if i < s.len() {
        lemma_dec_val_prefix(s, i + 1);
        let p = s.subrange(0, i + 1);
        assert(p.subrange(0, i) =~= s.subrange(0, i));
        assert(all_dec_digits(p)) by {
            assert(forall|j: int| 0 <= j < p.len() ==> p[j] == s[j]);
        }
        assert(all_dec_digits(p.subrange(0, i)));
        lemma_dec_val_nonneg(p.subrange(0, i));
        assert(dec_val(p) == dec_val(s.subrange(0, i)) * 10 + digit_val(p[i]));
        assert(digit_val(p[i]) >= 0);
    } else {
        assert(s.subrange(0, i) =~= s);
    }
}

/// Decimal representation of a non-negative number.
pub open spec fn dec_str(n: int) -> Seq<char>
    decreases n,
{
    if n < 10 {
        seq![digit_char(n)]
    } else {
        dec_str(n / 10).push(digit_char(n % 10))
    }
}

pub proof fn lemma_dec_str(n: int)
    requires
        n >= 0,
    ensures
        dec_str(n).len() >= 1,
        all_dec_digits(dec_str(n)),
        dec_val(dec_str(n)) == n,
    decreases n,
{
    if n < 10 {
        let s = dec_str(n);
        assert(s =~= seq![digit_char(n)]);
        assert(s.len() == 1);
        assert(s.subrange(0, 0) =~= Seq::<char>::empty());
        assert(dec_val(s.subrange(0, 0)) == 0);
        assert(dec_val(s) == dec_val(s.subrange(0, 0)) * 10 + digit_val(s[0]));
        assert(digit_val(digit_char(n)) == n);
    } else {
        lemma_dec_str(n / 10);
        let s = dec_str(n);
        assert(s =~= dec_str(n / 10).push(digit_char(n % 10)));
        assert(s.subrange(0, s.len() - 1) =~= dec_str(n / 10));
        assert(s[s.len() - 1] == digit_char(n % 10));
        assert(digit_val(digit_char(n % 10)) == n % 10);
        assert(dec_val(s) == dec_val(dec_str(n / 10)) * 10 + n % 10);
        assert(n / 10 * 10 + n % 10 == n);
    }
}

/// Parse a decimal `u64`; `None` on empty input, a non-digit, or overflow.
pub fn parse_u64(s: &str) -> (r: Option<u64>)
    ensures
        r is Some <==> s@.len() >= 1 && all_dec_digits(s@) && dec_val(s@) <= u64::MAX,
        r is Some ==> r.unwrap() as int == dec_val(s@),
{
    let n = s.unicode_len();
    if n == 0 {
        return None;
    }
    let mut acc: u64 = 0;
    let mut i: usize = 0;
    while i < n
        invariant
            n == s@.len(),
            0 <= i <= n,
            all_dec_digits(s@.subrange(0, i as int)),
            acc as int == dec_val(s@.subrange(0, i as int)),
        decreases n - i,
    {
        let c = s.get_char(i);
        let d: u64 = if c == '0' { 0 } else if c == '1' { 1 } else if c == '2' { 2 }
            else if c == '3' { 3 } else if c == '4' { 4 } else if c == '5' { 5 }
            else if c == '6' { 6 } else if c == '7' { 7 } else if c == '8' { 8 }
            else if c == '9' { 9 } else { 10 };
        if d == 10 {
            proof {
                assert(!is_dec_digit(s@[i as int]));
            }
            return None;
        }
        proof {
            assert(d as int == digit_val(s@[i as int]));
        }
        if acc > (u64::MAX - d) / 10 {
            proof {
                let p = s@.subrange(0, i + 1);
                assert(p.subrange(0, i as int) =~= s@.subrange(0, i as int));
                assert(dec_val(p) == acc as int * 10 + d);
                assert(acc as int * 10 + d > u64::MAX) by (nonlinear_arith)
                    requires acc as int > ((u64::MAX - d as int) / 10), 0 <= d < 10;
                if all_dec_digits(s@) && dec_val(s@) <= u64::MAX {
                    lemma_dec_val_prefix(s@, i + 1);
                }
            }
            return None;
        }
        proof {
            assert(acc as int * 10 + d <= u64::MAX) by (nonlinear_arith)
                requires acc as int <= ((u64::MAX - d as int) / 10), 0 <= d < 10;
            let p = s@.subrange(0, i + 1);
            assert(p.subrange(0, i as int) =~= s@.subrange(0, i as int));
            assert(dec_val(p) == acc as int * 10 + d);
        }
        acc = acc * 10 + d;
        i += 1;
    }
    proof {
        assert(s@.subrange(0, n as int) =~= s@);
    }
    Some(acc)
}

fn digit_str(d: u64) -> (r: &'static str)
    requires
        d < 10,
    ensures
        r@ =~= seq![digit_char(d as int)],
{
    proof {
        reveal_strlit("0");
        reveal_strlit("1");
        reveal_strlit("2");
        reveal_strlit("3");
        reveal_strlit("4");
        reveal_strlit("5");
        reveal_strlit("6");
        reveal_strlit("7");
        reveal_strlit("8");
        reveal_strlit("9");
    }
    if d == 0 { "0" } else if d == 1 { "1" } else if d == 2 { "2" }
    else if d == 3 { "3" } else if d == 4 { "4" } else if d == 5 { "5" }
    else if d == 6 { "6" } else if d == 7 { "7" } else if d == 8 { "8" }
    else { "9" }
}

/// Format `n` in decimal.
pub fn u64_to_dec(n: u64) -> (r: String)
    ensures
        r@ == dec_str(n as int),
    decreases n,
{
    if n < 10 {
        String::from_str(digit_str(n))
    } else {
        let head = u64_to_dec(n / 10);
        let r = head.concat(digit_str(n % 10));
        proof {
            assert(r@ =~= dec_str(n as int));
        }
        r
    }
}

/// Format a `usize` count in decimal.
pub fn usize_to_dec(n: usize) -> (r: String)
    ensures
        r@ == dec_str(n as int),
{
    u64_to_dec(n as u64)
}

} // verus!

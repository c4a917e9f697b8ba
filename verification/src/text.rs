//! Byte-level text helpers shared by the parsing and insight modules.
//!
//! All free text in this crate (CSV fields, descriptions, messages) is held
//! as UTF-8 bytes in `Vec<u8>`; the helpers here give the exact spec-level
//! meaning of trimming, ASCII lower-casing, substring search and decimal
//! rendering that the public contracts are stated over.

use vstd::prelude::*;

verus! {

// ---------------------------------------------------------------------------
// ASCII literals
// ---------------------------------------------------------------------------

/// The bytes of an ASCII character sequence.
pub open spec fn ascii_bytes(s: Seq<char>) -> Seq<u8> {
    Seq::new(s.len(), |i: int| s[i] as u8)
}

/// The bytes of an ASCII string literal; call sites reveal the literal.
pub fn lit_bytes(s: &str) -> (r: Vec<u8>)
    requires
        vstd::string::is_ascii(s),
    ensures
        r@ == ascii_bytes(s@),
{
    proof {
        broadcast use vstd::string::is_ascii_spec_bytes;

    }
    vstd::slice::slice_to_vec(s.as_bytes())
}

// ---------------------------------------------------------------------------
// Character classes
// ---------------------------------------------------------------------------

/// ASCII whitespace: space and the control characters HT, LF, VT, FF, CR.
pub open spec fn is_ascii_space(b: u8) -> bool {
    b == 32 || (9 <= b && b <= 13)
}

pub open spec fn is_digit_byte(b: u8) -> bool {
    48 <= b && b <= 57
}

pub open spec fn digit_val(b: u8) -> int {
    b - 48
}

pub open spec fn all_digits(s: Seq<u8>) -> bool {
    forall|i: int| 0 <= i < s.len() ==> is_digit_byte(#[trigger] s[i])
}

/// Numeric value of a digit string, most significant digit first.
pub open spec fn num_val(s: Seq<u8>) -> int
    decreases s.len(),
{
    if s.len() == 0 {
        0
    } else {
        num_val(s.drop_last()) * 10 + digit_val(s.last())
    }
}

pub open spec fn pow10(n: nat) -> int
    decreases n,
{
    if n == 0 {
        1
    } else {
        10 * pow10((n - 1) as nat)
    }
}

pub proof fn lemma_num_val_bound(s: Seq<u8>)
    requires
        all_digits(s),
    ensures
        0 <= num_val(s) < pow10(s.len()),
    decreases s.len(),
{
    if s.len() == 0 {
    } else {
        let t = s.drop_last();
        assert(all_digits(t));
        lemma_num_val_bound(t);
        assert(is_digit_byte(s.last()));
    }
}

pub proof fn lemma_num_val_concat(a: Seq<u8>, b: Seq<u8>)
    ensures
        num_val(a + b) == num_val(a) * pow10(b.len()) + num_val(b),
    decreases b.len(),
{
    if b.len() == 0 {
        assert(a + b =~= a);
    } else {
        let b0 = b.drop_last();
        assert((a + b).drop_last() =~= a + b0);
        assert((a + b).last() == b.last());
        lemma_num_val_concat(a, b0);
        let p1 = pow10(b0.len());
        assert(pow10(b.len()) == 10 * p1);
        let x = num_val(a);
        assert((x * p1) * 10 == x * (10 * p1)) by (nonlinear_arith);
    }
}

/// A leading-zero run does not change the numeric value.
pub proof fn lemma_num_val_leading_zeros(a: Seq<u8>, b: Seq<u8>)
    requires
        forall|i: int| 0 <= i < a.len() ==> a[i] == 48,
    ensures
        num_val(a + b) == num_val(b),
    decreases a.len(),
{
    lemma_num_val_concat(a, b);
    lemma_num_val_all_zeros(a);
    assert(0 * pow10(b.len()) == 0) by (nonlinear_arith);
}

pub proof fn lemma_num_val_all_zeros(a: Seq<u8>)
    requires
        forall|i: int| 0 <= i < a.len() ==> a[i] == 48,
    ensures
        num_val(a) == 0,
    decreases a.len(),
{
    if a.len() > 0 {
        lemma_num_val_all_zeros(a.drop_last());
    }
}

/// A digit string whose first digit is nonzero is at least `pow10(len - 1)`.
pub proof fn lemma_num_val_first_digit(s: Seq<u8>)
    requires
        s.len() >= 1,
        all_digits(s),
        s[0] != 48,
    ensures
        num_val(s) >= pow10((s.len() - 1) as nat),
{
    let a = seq![s[0]];
    let b = s.drop_first();
    assert(s =~= a + b);
    lemma_num_val_concat(a, b);
    assert(all_digits(b));
    lemma_num_val_bound(b);
    assert(a.drop_last().len() == 0);
    assert(num_val(a.drop_last()) == 0);
    assert(num_val(a) == digit_val(s[0]));
    assert(digit_val(s[0]) >= 1);
    let p = pow10(b.len());
    lemma_pow10_nonneg(b.len());
    assert(num_val(a) * p >= 1 * p) by (nonlinear_arith)
        requires
            num_val(a) >= 1,
            p >= 0,
    ;
}

pub proof fn lemma_pow10_nonneg(n: nat)
    ensures
        pow10(n) >= 1,
    decreases n,
{
    if n > 0 {
        lemma_pow10_nonneg((n - 1) as nat);
    }
}

pub proof fn lemma_pow10_mono(a: nat, b: nat)
    requires
        a <= b,
    ensures
        pow10(a) <= pow10(b),
    decreases b,
{
    if a < b {
        lemma_pow10_mono(a, (b - 1) as nat);
        lemma_pow10_nonneg((b - 1) as nat);
    }
}

// ---------------------------------------------------------------------------
// First occurrence of a byte
// ---------------------------------------------------------------------------

/// Index of the first occurrence of `b` in `s`, if any.
pub open spec fn find_byte_spec(s: Seq<u8>, b: u8) -> Option<int>
    decreases s.len(),
{
    if s.len() == 0 {
        None
    } else if s.first() == b {
        Some(0)
    } else {
        match find_byte_spec(s.drop_first(), b) {
            Some(i) => Some(i + 1),
            None => None,
        }
    }
}

pub proof fn lemma_find_byte_at(s: Seq<u8>, b: u8, i: int)
    requires
        0 <= i < s.len(),
        s[i] == b,
        forall|k: int| 0 <= k < i ==> s[k] != b,
    ensures
        find_byte_spec(s, b) == Some(i),
    decreases i,
{
    if i == 0 {
    } else {
        let t = s.drop_first();
        assert(forall|k: int| 0 <= k < i - 1 ==> t[k] != b);
        lemma_find_byte_at(t, b, i - 1);
    }
}

pub proof fn lemma_find_byte_none(s: Seq<u8>, b: u8)
    requires
        forall|k: int| 0 <= k < s.len() ==> s[k] != b,
    ensures
        find_byte_spec(s, b).is_none(),
    decreases s.len(),
{
    if s.len() == 0 {
    } else {
        let t = s.drop_first();
        assert(forall|k: int| 0 <= k < t.len() ==> t[k] != b);
        lemma_find_byte_none(t, b);
    }
}

/// First index of `b` in `s`, scanning left to right.
pub fn find_byte(s: &[u8], b: u8) -> (r: Option<usize>)
    ensures
        match r {
            Some(i) => i < s@.len() && find_byte_spec(s@, b) == Some(i as int),
            None => find_byte_spec(s@, b).is_none(),
        },
{
    let n: usize = s.len();
    let mut i: usize = 0;
    while i < n
        invariant
            0 <= i <= n,
            n == s@.len(),
            forall|k: int| 0 <= k < i ==> s@[k] != b,
        decreases n - i,
    {
        if s[i] == b {
            proof {
                lemma_find_byte_at(s@, b, i as int);
            }
            return Some(i);
        }
        i = i + 1;
    }
    proof {
        lemma_find_byte_none(s@, b);
    }
    None
}

// ---------------------------------------------------------------------------
// Trimming
// ---------------------------------------------------------------------------

pub open spec fn ltrim(s: Seq<u8>) -> Seq<u8>
    decreases s.len(),
{
    if s.len() > 0 && is_ascii_space(s.first()) {
        ltrim(s.drop_first())
    } else {
        s
    }
}

pub open spec fn rtrim(s: Seq<u8>) -> Seq<u8>
    decreases s.len(),
{
    if s.len() > 0 && is_ascii_space(s.last()) {
        rtrim(s.drop_last())
    } else {
        s
    }
}

/// ASCII whitespace stripped from both ends.
pub open spec fn trim_spec(s: Seq<u8>) -> Seq<u8> {
    rtrim(ltrim(s))
}

proof fn lemma_ltrim_cut(s: Seq<u8>, i: int)
    requires
        0 <= i <= s.len(),
        forall|k: int| 0 <= k < i ==> is_ascii_space(#[trigger] s[k]),
        i == s.len() || !is_ascii_space(s[i]),
    ensures
        ltrim(s) == s.subrange(i, s.len() as int),
    decreases i,
{
    if i == 0 {
        if s.len() > 0 && is_ascii_space(s.first()) {
            assert(false);
        }
        assert(s.subrange(0, s.len() as int) =~= s);
    } else {
        assert(is_ascii_space(s[0]));
        let t = s.drop_first();
        assert(forall|k: int| 0 <= k < i - 1 ==> is_ascii_space(#[trigger] t[k]));
        lemma_ltrim_cut(t, i - 1);
        assert(t.subrange(i - 1, t.len() as int) =~= s.subrange(i, s.len() as int));
    }
}

proof fn lemma_rtrim_cut(s: Seq<u8>, j: int)
    requires
        0 <= j <= s.len(),
        forall|k: int| j <= k < s.len() ==> is_ascii_space(#[trigger] s[k]),
        j == 0 || !is_ascii_space(s[j - 1]),
    ensures
        rtrim(s) == s.subrange(0, j),
    decreases s.len(),
{
    if j == s.len() {
        if s.len() > 0 && is_ascii_space(s.last()) {
            assert(false);
        }
        assert(s.subrange(0, s.len() as int) =~= s);
    } else {
        assert(is_ascii_space(s.last()));
        let t = s.drop_last();
        assert(forall|k: int| j <= k < t.len() ==> is_ascii_space(#[trigger] t[k]));
        lemma_rtrim_cut(t, j);
        assert(t.subrange(0, j) =~= s.subrange(0, j));
    }
}

fn is_space_byte(b: u8) -> (r: bool)
    ensures
        r == is_ascii_space(b),
{
    b == 32 || (9 <= b && b <= 13)
}

/// ASCII whitespace stripped from both ends of a byte string.
pub fn trim_bytes(s: &[u8]) -> (r: Vec<u8>)
    ensures
        r@ == trim_spec(s@),
{
    let n: usize = s.len();
    let mut i: usize = 0;
    while i < n && is_space_byte(s[i])
        invariant
            0 <= i <= n,
            n == s@.len(),
            forall|k: int| 0 <= k < i ==> is_ascii_space(#[trigger] s@[k]),
        decreases n - i,
    {
        i = i + 1;
    }
    let mut j: usize = n;
    while j > i && is_space_byte(s[j - 1])
        invariant
            i <= j <= n,
            n == s@.len(),
            forall|k: int| 0 <= k < i ==> is_ascii_space(#[trigger] s@[k]),
            i == n || !is_ascii_space(s@[i as int]),
            forall|k: int| j <= k < n ==> is_ascii_space(#[trigger] s@[k]),
        decreases j,
    {
        j = j - 1;
    }
    proof {
        lemma_ltrim_cut(s@, i as int);
        let t = s@.subrange(i as int, n as int);
        assert(forall|k: int| j - i <= k < t.len() ==> is_ascii_space(#[trigger] t[k]));
        lemma_rtrim_cut(t, j - i);
        assert(t.subrange(0, j - i) =~= s@.subrange(i as int, j as int));
    }
    let sub = vstd::slice::slice_subrange(s, i, j);
    vstd::slice::slice_to_vec(sub)
}

// ---------------------------------------------------------------------------
// ASCII lower-casing
// ---------------------------------------------------------------------------

/// ASCII lower-casing of one byte; bytes outside `A..=Z` are unchanged.
pub open spec fn lower_byte(b: u8) -> u8 {
    if 65 <= b && b <= 90 {
        (b + 32) as u8
    } else {
        b
    }
}

/// ASCII lower-casing of a byte string.
pub open spec fn to_lower(s: Seq<u8>) -> Seq<u8> {
    s.map_values(|b: u8| lower_byte(b))
}

/// ASCII lower-cased copy of a byte string.
pub fn lower_bytes(s: &[u8]) -> (r: Vec<u8>)
    ensures
        r@ == to_lower(s@),
{
    let n: usize = s.len();
    let mut r: Vec<u8> = Vec::new();
    let mut i: usize = 0;
    while i < n
        invariant
            0 <= i <= n,
            n == s@.len(),
            r@.len() == i,
            forall|k: int| 0 <= k < i ==> r@[k] == lower_byte(#[trigger] s@[k]),
        decreases n - i,
    {
        let b = s[i];
        if 65 <= b && b <= 90 {
            r.push(b + 32);
        } else {
            r.push(b);
        }
        i = i + 1;
    }
    proof {
        assert(r@ =~= to_lower(s@));
    }
    r
}

// ---------------------------------------------------------------------------
// Equality and substring search
// ---------------------------------------------------------------------------

/// Byte-string equality, stated over the views.
pub fn bytes_eq(a: &[u8], b: &[u8]) -> (r: bool)
    ensures
        r == (a@ == b@),
{
    let n: usize = a.len();
    if n != b.len() {
        return false;
    }
    let mut i: usize = 0;
    while i < n
        invariant
            0 <= i <= n,
            n == a@.len(),
            n == b@.len(),
            forall|k: int| 0 <= k < i ==> a@[k] == b@[k],
        decreases n - i,
    {
        if a[i] != b[i] {
            return false;
        }
        i = i + 1;
    }
    proof {
        assert(a@ =~= b@);
    }
    true
}

/// `needle` occurs in `hay` starting at index `i`.
pub open spec fn matches_at(hay: Seq<u8>, i: int, needle: Seq<u8>) -> bool {
    0 <= i && i + needle.len() <= hay.len() && hay.subrange(i, i + needle.len()) == needle
}

/// `needle` occurs somewhere in `hay` as a contiguous run.
pub open spec fn contains_seq(hay: Seq<u8>, needle: Seq<u8>) -> bool {
    exists|i: int| matches_at(hay, i, needle)
}

/// Whether `needle` occurs in `hay` starting at byte offset `i`.
pub fn matches_at_exec(hay: &[u8], i: usize, needle: &[u8]) -> (r: bool)
    requires
        i <= hay@.len(),
    ensures
        r == matches_at(hay@, i as int, needle@),
{
    let m: usize = needle.len();
    if m > hay.len() - i {
        return false;
    }
    let mut j: usize = 0;
    while j < m
        invariant
            0 <= j <= m,
            m == needle@.len(),
            i + m <= hay@.len(),
            hay@.len() <= usize::MAX,
            forall|k: int| 0 <= k < j ==> hay@[i + k] == needle@[k],
        decreases m - j,
    {
        if hay[i + j] != needle[j] {
            proof {
                assert(hay@.subrange(i as int, i + m) != needle@) by {
                    assert(hay@.subrange(i as int, i + m)[j as int] == hay@[i + j]);
                }
            }
            return false;
        }
        j = j + 1;
    }
    proof {
        assert(hay@.subrange(i as int, i + m) =~= needle@);
    }
    true
}

/// Substring search: whether `needle` occurs anywhere in `hay`.
pub fn contains_bytes(hay: &[u8], needle: &[u8]) -> (r: bool)
    ensures
        r == contains_seq(hay@, needle@),
{
    let n: usize = hay.len();
    let m: usize = needle.len();
    if m > n {
        proof {
            assert(forall|i: int| !matches_at(hay@, i, needle@));
        }
        return false;
    }
    if m == 0 {
        proof {
            assert(hay@.subrange(0, 0) =~= needle@);
            assert(matches_at(hay@, 0, needle@));
        }
        return true;
    }
    let mut i: usize = 0;
    while i <= n - m
        invariant
            0 <= i <= n - m + 1,
            1 <= m <= n,
            n == hay@.len(),
            m == needle@.len(),
            forall|k: int| 0 <= k < i ==> !matches_at(hay@, k, needle@),
        decreases n - i,
    {
        if matches_at_exec(hay, i, needle) {
            return true;
        }
        i = i + 1;
    }
    proof {
        assert(forall|k: int| i <= k ==> !matches_at(hay@, k, needle@));
    }
    false
}

// ---------------------------------------------------------------------------
// Decimal rendering
// ---------------------------------------------------------------------------

/// Decimal digit string of a non-negative integer, most significant first.
pub open spec fn dec_spec(n: int) -> Seq<u8>
    decreases n,
{
    if n <= 9 {
        seq![(48 + if n >= 0 { n } else { 0 }) as u8]
    } else {
        dec_spec(n / 10).push((48 + n % 10) as u8)
    }
}

/// Decimal digit string of `n`.
pub fn u64_to_dec(n: u64) -> (r: Vec<u8>)
    ensures
        r@ == dec_spec(n as int),
    decreases n,
{
    if n <= 9 {
        let mut r: Vec<u8> = Vec::new();
        r.push(48 + (n as u8));
        proof {
            assert(r@ =~= dec_spec(n as int));
        }
        r
    } else {
        let mut r = u64_to_dec(n / 10);
        r.push(48 + ((n % 10) as u8));
        r
    }
}

/// Decimal digit string of `n`.
pub fn usize_to_dec(n: usize) -> (r: Vec<u8>)
    ensures
        r@ == dec_spec(n as int),
{
    u64_to_dec(n as u64)
}

/// Text form of a cent amount: euros, a dot, and exactly two cent digits.
pub open spec fn cents_spec(c: int) -> Seq<u8> {
    dec_spec(c / 100) + seq![46u8, (48 + (c % 100) / 10) as u8, (48 + c % 10) as u8]
}

/// Renders a cent amount as euros with two decimals, e.g. `1234` as `12.34`.
pub fn cents_to_dec(c: u64) -> (r: Vec<u8>)
    ensures
        r@ == cents_spec(c as int),
{
    let mut r = u64_to_dec(c / 100);
    r.push(46);
    r.push(48 + (((c % 100) / 10) as u8));
    r.push(48 + ((c % 10) as u8));
    proof {
        assert(r@ =~= cents_spec(c as int));
    }
    r
}

/// Appends `src` to `dst`.
pub fn push_bytes(dst: &mut Vec<u8>, src: &[u8])
    ensures
        final(dst)@ == old(dst)@ + src@,
{
    let mut tail = vstd::slice::slice_to_vec(src);
    dst.append(&mut tail);
}

} // verus!

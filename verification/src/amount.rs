//! Localized decimal amounts.
//!
//! Amounts are stored as non-negative cent magnitudes (`u64`); the sign of
//! the source text is reported separately so that the caller can carry it in
//! the transaction direction alone.
//!
//! `parse_amount` follows the Dutch statement convention: an optional euro
//! sign is dropped, every dot is removed as a thousands separator, the comma
//! becomes the decimal separator, and the result is read as a decimal number
//! with at most two fraction digits.  An empty result or a bare `0` is
//! rejected as ambiguous.  `parse_simple_amount` is the plainer variant used
//! by the configurable column-mapping importer: only the comma is rewritten,
//! dots are kept as decimal separators.

use vstd::prelude::*;
use crate::text::{
    all_digits, digit_val, find_byte, find_byte_spec, is_digit_byte, lemma_num_val_bound,
    lemma_num_val_first_digit, lemma_num_val_leading_zeros, num_val, pow10, trim_bytes, trim_spec,
};

verus! {

/// Largest representable amount, in cents (one hundred million euro).
/// Larger magnitudes are rejected as invalid input.
pub const MAX_AMOUNT_CENTS: u64 = 10_000_000_000;

// ---------------------------------------------------------------------------
// Cleaning pipeline
// ---------------------------------------------------------------------------

/// The UTF-8 encoding of the euro sign.
pub open spec fn euro_seq() -> Seq<u8> {
    seq![0xE2u8, 0x82u8, 0xACu8]
}

/// Every occurrence of the euro sign removed, scanning left to right.
pub open spec fn remove_euro(s: Seq<u8>) -> Seq<u8>
    decreases s.len(),
{
    if s.len() == 0 {
        seq![]
    } else if s.len() >= 3 && s[0] == 0xE2 && s[1] == 0x82 && s[2] == 0xAC {
        remove_euro(s.skip(3))
    } else {
        seq![s[0]] + remove_euro(s.skip(1))
    }
}

/// Every dot removed (dots are thousands separators in Dutch formatting).
pub open spec fn strip_dots(s: Seq<u8>) -> Seq<u8>
    decreases s.len(),
{
    if s.len() == 0 {
        seq![]
    } else if s[0] == 46 {
        strip_dots(s.skip(1))
    } else {
        seq![s[0]] + strip_dots(s.skip(1))
    }
}

/// Every comma rewritten to a dot (decimal separator).
pub open spec fn comma_to_dot(s: Seq<u8>) -> Seq<u8> {
    s.map_values(|b: u8| if b == 44 { 46u8 } else { b })
}

/// The full cleaning pipeline for Dutch-formatted amounts.
pub open spec fn clean_amount_spec(s: Seq<u8>) -> Seq<u8> {
    trim_spec(comma_to_dot(strip_dots(remove_euro(s))))
}

fn remove_euro_bytes(s: &[u8]) -> (r: Vec<u8>)
    ensures
        r@ == remove_euro(s@),
{
    let n: usize = s.len();
    let mut r: Vec<u8> = Vec::new();
    let mut i: usize = 0;
    proof {
        assert(s@.skip(0) =~= s@);
        assert(r@ + remove_euro(s@) =~= remove_euro(s@));
    }
    while i < n
        invariant
            0 <= i <= n,
            n == s@.len(),
            remove_euro(s@) == r@ + remove_euro(s@.skip(i as int)),
        decreases n - i,
    {
        if n - i >= 3 && s[i] == 0xE2 && s[i + 1] == 0x82 && s[i + 2] == 0xAC {
            proof {
                let t = s@.skip(i as int);
                assert(t[0] == s@[i as int] && t[1] == s@[i + 1] && t[2] == s@[i + 2]);
                assert(t.skip(3) =~= s@.skip(i + 3));
            }
            i = i + 3;
        } else {
            proof {
                let t = s@.skip(i as int);
                assert(t[0] == s@[i as int]);
                if t.len() >= 3 {
                    assert(t[1] == s@[i + 1] && t[2] == s@[i + 2]);
                }
                assert(t.skip(1) =~= s@.skip(i + 1));
                assert(remove_euro(t) == seq![s@[i as int]] + remove_euro(s@.skip(i + 1)));
                assert(r@.push(s@[i as int]) + remove_euro(s@.skip(i + 1)) =~= r@ + remove_euro(
                    t,
                ));
            }
            r.push(s[i]);
            i = i + 1;
        }
    }
    proof {
        assert(s@.skip(n as int) =~= Seq::<u8>::empty());
        assert(r@ + Seq::<u8>::empty() =~= r@);
    }
    r
}

fn strip_dots_bytes(s: &[u8]) -> (r: Vec<u8>)
    ensures
        r@ == strip_dots(s@),
{
    let n: usize = s.len();
    let mut r: Vec<u8> = Vec::new();
    let mut i: usize = 0;
    proof {
        assert(s@.skip(0) =~= s@);
        assert(r@ + strip_dots(s@) =~= strip_dots(s@));
    }
    while i < n
        invariant
            0 <= i <= n,
            n == s@.len(),
            strip_dots(s@) == r@ + strip_dots(s@.skip(i as int)),
        decreases n - i,
    {
        proof {
            let t = s@.skip(i as int);
            assert(t[0] == s@[i as int]);
            assert(t.skip(1) =~= s@.skip(i + 1));
            if s@[i as int] != 46 {
                assert(r@.push(s@[i as int]) + strip_dots(s@.skip(i + 1)) =~= r@ + strip_dots(t));
            }
        }
        if s[i] != 46 {
            r.push(s[i]);
        }
        i = i + 1;
    }
    proof {
        assert(s@.skip(n as int) =~= Seq::<u8>::empty());
        assert(r@ + Seq::<u8>::empty() =~= r@);
    }
    r
}

fn comma_to_dot_bytes(s: &[u8]) -> (r: Vec<u8>)
    ensures
        r@ == comma_to_dot(s@),
{
    let n: usize = s.len();
    let mut r: Vec<u8> = Vec::new();
    let mut i: usize = 0;
    while i < n
        invariant
            0 <= i <= n,
            n == s@.len(),
            r@.len() == i,
            forall|k: int|
                0 <= k < i ==> r@[k] == (if s@[k] == 44 {
                    46u8
                } else {
                    s@[k]
                }),
        decreases n - i,
    {
        let b = s[i];
        if b == 44 {
            r.push(46);
        } else {
            r.push(b);
        }
        i = i + 1;
    }
    proof {
        assert(r@ =~= comma_to_dot(s@));
    }
    r
}

/// The cleaned text of an amount field: euro sign dropped, dots removed,
/// comma turned into a dot, surrounding whitespace trimmed.
pub fn clean_amount(s: &[u8]) -> (r: Vec<u8>)
    ensures
        r@ == clean_amount_spec(s@),
{
    let a = remove_euro_bytes(s);
    let b = strip_dots_bytes(a.as_slice());
    let c = comma_to_dot_bytes(b.as_slice());
    trim_bytes(c.as_slice())
}

// ---------------------------------------------------------------------------
// Decimal grammar
// ---------------------------------------------------------------------------

/// Reads a cleaned byte string as a signed decimal number with at most two
/// fraction digits: an optional `+` or `-`, an integer digit run, and an
/// optional dot followed by one or two fraction digits.  One of the two
/// digit runs may be empty, not both.  The value is in cents.
pub open spec fn amount_grammar(c: Seq<u8>) -> Option<(bool, int)> {
    if c.len() == 0 {
        None
    } else {
        let neg = c[0] == 45;
        let body = if c[0] == 45 || c[0] == 43 {
            c.skip(1)
        } else {
            c
        };
        match find_byte_spec(body, 46) {
            None => {
                if body.len() >= 1 && all_digits(body) {
                    Some((neg, num_val(body) * 100))
                } else {
                    None
                }
            },
            Some(i) => {
                let ipart = body.subrange(0, i);
                let fpart = body.subrange(i + 1, body.len() as int);
                if all_digits(ipart) && all_digits(fpart) && 1 <= fpart.len() <= 2 {
                    let frac = if fpart.len() == 1 {
                        num_val(fpart) * 10
                    } else {
                        num_val(fpart)
                    };
                    Some((neg, num_val(ipart) * 100 + frac))
                } else {
                    None
                }
            },
        }
    }
}

/// Dutch-formatted amount: cleaned, required non-empty and not the bare
/// ambiguous `0`, read by the decimal grammar, and capped at
/// `MAX_AMOUNT_CENTS`.  The boolean is true for a negative amount; the cent
/// value is the absolute magnitude.
pub open spec fn parse_amount_spec(s: Seq<u8>) -> Option<(bool, u64)> {
    let c = clean_amount_spec(s);
    if c.len() == 0 || c == seq![48u8] {
        None
    } else {
        match amount_grammar(c) {
            None => None,
            Some((neg, v)) => if v <= MAX_AMOUNT_CENTS {
                Some((neg, v as u64))
            } else {
                None
            },
        }
    }
}

/// Plain amount for the column-mapping importer: only the comma is
/// rewritten to a dot, then the same decimal grammar and cap apply.
pub open spec fn parse_simple_amount_spec(s: Seq<u8>) -> Option<(bool, u64)> {
    match amount_grammar(comma_to_dot(s)) {
        None => None,
        Some((neg, v)) => if v <= MAX_AMOUNT_CENTS {
            Some((neg, v as u64))
        } else {
            None
        },
    }
}

/// Value of the digit run `s[i..j]` as cents times `scale`, or `None` when
/// a byte is not a digit or the value would exceed the cap by far.
fn digits_val_u64(s: &[u8], i: usize, j: usize) -> (r: Option<u64>)
    requires
        i <= j <= s@.len(),
        j - i <= 15,
    ensures
        match r {
            Some(v) => all_digits(s@.subrange(i as int, j as int)) && v == num_val(
                s@.subrange(i as int, j as int),
            ),
            None => !all_digits(s@.subrange(i as int, j as int)),
        },
{
    let mut acc: u64 = 0;
    let mut k: usize = i;
    while k < j
        invariant
            i <= k <= j <= s@.len(),
            j - i <= 15,
            all_digits(s@.subrange(i as int, k as int)),
            acc == num_val(s@.subrange(i as int, k as int)),
        decreases j - k,
    {
        let b = s[k];
        if !(48 <= b && b <= 57) {
            proof {
                assert(s@.subrange(i as int, j as int)[k - i] == s@[k as int]);
                assert(!all_digits(s@.subrange(i as int, j as int)));
            }
            return None;
        }
        proof {
            let pre = s@.subrange(i as int, k as int);
            lemma_num_val_bound(pre);
            assert(pow10(pre.len()) <= 100_000_000_000_000) by {
                assert(pre.len() <= 14);
                reveal_with_fuel(pow10, 16);
            }
            assert(s@.subrange(i as int, k + 1).drop_last() =~= pre);
            assert(s@.subrange(i as int, k + 1).last() == s@[k as int]);
        }
        acc = acc * 10 + ((b - 48) as u64);
        k = k + 1;
    }
    proof {
        assert(s@.subrange(i as int, j as int) =~= s@.subrange(i as int, k as int));
    }
    Some(acc)
}

/// Runs the decimal grammar on an already cleaned byte string.
#[verifier::rlimit(80)]
fn amount_from_cleaned(c: &[u8]) -> (r: Option<(bool, u64)>)
    ensures
        match r {
            Some((neg, v)) => amount_grammar(c@) == Some((neg, v as int)) && v
                <= MAX_AMOUNT_CENTS,
            None => amount_grammar(c@).is_none() || (amount_grammar(c@).unwrap().1
                > MAX_AMOUNT_CENTS),
        },
{
    let n: usize = c.len();
    if n == 0 {
        return None;
    }
    let neg = c[0] == 45;
    let start: usize = if c[0] == 45 || c[0] == 43 {
        1
    } else {
        0
    };
    let body = vstd::slice::slice_subrange(c, start, n);
    proof {
        if start == 0 {
            assert(c@.subrange(0, n as int) =~= c@);
        } else {
            assert(c@.subrange(1, n as int) =~= c@.skip(1));
        }
    }
    let bn: usize = n - start;
    match find_byte(body, 46) {
        None => {
            if bn == 0 {
                return None;
            }
            // skip leading zeros so that a long zero-padded run is not
            // mistaken for an overflow
            let mut z: usize = 0;
            while z < bn && body[z] == 48
                invariant
                    0 <= z <= bn,
                    bn == body@.len(),
                    forall|k: int| 0 <= k < z ==> body@[k] == 48,
                decreases bn - z,
            {
                z = z + 1;
            }
            proof {
                assert(body@.subrange(0, z as int) + body@.subrange(z as int, bn as int) =~= body@);
                lemma_num_val_leading_zeros(
                    body@.subrange(0, z as int),
                    body@.subrange(z as int, bn as int),
                );
            }
            if bn - z > 15 {
                // at least 16 significant digits: over any cap, or not a number
                proof {
                    let tail = body@.subrange(z as int, bn as int);
                    if all_digits(tail) {
                        assert(tail[0] != 48);
                        lemma_num_val_first_digit(tail);
                        crate::text::lemma_pow10_mono(15, (tail.len() - 1) as nat);
                        assert(pow10(15nat) == 1_000_000_000_000_000) by {
                            reveal_with_fuel(pow10, 16);
                        }
                        assert(all_digits(body@)) by {
                            assert(forall|k: int|
                                0 <= k < body@.len() ==> body@[k] == (if k < z {
                                    48u8
                                } else {
                                    tail[k - z]
                                }));
                        }
                        assert(num_val(body@) * 100 > MAX_AMOUNT_CENTS) by (nonlinear_arith)
                            requires
                                num_val(body@) >= 1_000_000_000_000_000,
                        ;
                    } else {
                        let k = choose|k: int|
                            0 <= k < tail.len() && !is_digit_byte(#[trigger] tail[k]);
                        assert(body@[k + z] == tail[k]);
                        assert(!all_digits(body@));
                    }
                }
                return None;
            }
            let v = match digits_val_u64(body, z, bn) {
                Some(v) => v,
                None => {
                    proof {
                        let tail = body@.subrange(z as int, bn as int);
                        if all_digits(body@) {
                            assert(forall|k: int| 0 <= k < tail.len() ==> tail[k] == body@[k + z]);
                            assert(false);
                        }
                    }
                    return None;
                },
            };
            proof {
                if !all_digits(body@) {
                    let k = choose|k: int|
                        0 <= k < body@.len() && !is_digit_byte(#[trigger] body@[k]);
                    assert(k >= z);
                    assert(body@.subrange(z as int, bn as int)[k - z] == body@[k]);
                    assert(false);
                }
                lemma_num_val_bound(body@.subrange(z as int, bn as int));
                assert(pow10(body@.subrange(z as int, bn as int).len())
                    <= 1_000_000_000_000_000) by {
                    reveal_with_fuel(pow10, 16);
                    crate::text::lemma_pow10_mono(
                        body@.subrange(z as int, bn as int).len(),
                        15nat,
                    );
                }
            }
            if v > MAX_AMOUNT_CENTS / 100 {
                return None;
            }
            Some((neg, v * 100))
        },
        Some(dot) => {
            let fn_: usize = bn - dot - 1;
            if !(1 <= fn_ && fn_ <= 2) {
                return None;
            }
            let fv = match digits_val_u64(body, dot + 1, bn) {
                Some(v) => v,
                None => {
                    return None;
                },
            };
            // integer part: skip leading zeros as above
            let mut z: usize = 0;
            while z < dot && body[z] == 48
                invariant
                    0 <= z <= dot,
                    dot < bn == body@.len(),
                    forall|k: int| 0 <= k < z ==> body@[k] == 48,
                decreases dot - z,
            {
                z = z + 1;
            }
            proof {
                let ipart = body@.subrange(0, dot as int);
                assert(ipart.subrange(0, z as int) =~= body@.subrange(0, z as int));
                assert(ipart.subrange(z as int, dot as int) =~= body@.subrange(
                    z as int,
                    dot as int,
                ));
                assert(ipart.subrange(0, z as int) + ipart.subrange(z as int, dot as int)
                    =~= ipart);
                lemma_num_val_leading_zeros(
                    ipart.subrange(0, z as int),
                    ipart.subrange(z as int, dot as int),
                );
            }
            if dot - z > 15 {
                proof {
                    let ipart = body@.subrange(0, dot as int);
                    let tail = body@.subrange(z as int, dot as int);
                    assert(forall|k: int| 0 <= k < tail.len() ==> tail[k] == ipart[k + z]);
                    if all_digits(tail) {
                        assert(tail[0] != 48);
                        lemma_num_val_first_digit(tail);
                        crate::text::lemma_pow10_mono(15, (tail.len() - 1) as nat);
                        assert(pow10(15nat) == 1_000_000_000_000_000) by {
                            reveal_with_fuel(pow10, 16);
                        }
                        assert(all_digits(ipart)) by {
                            assert(forall|k: int|
                                0 <= k < ipart.len() ==> ipart[k] == (if k < z {
                                    48u8
                                } else {
                                    tail[k - z]
                                }));
                        }
                        let fpart = body@.subrange(dot + 1, bn as int);
                        lemma_num_val_bound(fpart);
                        assert(num_val(ipart) * 100 + (if fpart.len() == 1 {
                            num_val(fpart) * 10
                        } else {
                            num_val(fpart)
                        }) > MAX_AMOUNT_CENTS) by (nonlinear_arith)
                            requires
                                num_val(ipart) >= 1_000_000_000_000_000,
                                num_val(fpart) >= 0,
                        ;
                    } else {
                        let k = choose|k: int|
                            0 <= k < tail.len() && !is_digit_byte(#[trigger] tail[k]);
                        assert(ipart[k + z] == tail[k]);
                        assert(!all_digits(ipart));
                    }
                }
                return None;
            }
            let iv = match digits_val_u64(body, z, dot) {
                Some(v) => v,
                None => {
                    proof {
                        let ipart = body@.subrange(0, dot as int);
                        let tail = body@.subrange(z as int, dot as int);
                        if all_digits(ipart) {
                            assert(forall|k: int| 0 <= k < tail.len() ==> tail[k] == ipart[k + z]);
                            assert(false);
                        }
                    }
                    return None;
                },
            };
            proof {
                let ipart = body@.subrange(0, dot as int);
                if !all_digits(ipart) {
                    let k = choose|k: int|
                        0 <= k < ipart.len() && !is_digit_byte(#[trigger] ipart[k]);
                    assert(k >= z);
                    assert(body@.subrange(z as int, dot as int)[k - z] == ipart[k]);
                    assert(false);
                }
                lemma_num_val_bound(body@.subrange(z as int, dot as int));
                assert(pow10(body@.subrange(z as int, dot as int).len())
                    <= 1_000_000_000_000_000) by {
                    reveal_with_fuel(pow10, 16);
                    crate::text::lemma_pow10_mono(
                        body@.subrange(z as int, dot as int).len(),
                        15nat,
                    );
                }
                lemma_num_val_bound(body@.subrange(dot + 1, bn as int));
                assert(pow10(body@.subrange(dot + 1, bn as int).len()) <= 100) by {
                    reveal_with_fuel(pow10, 3);
                }
            }
            let frac: u64 = if fn_ == 1 {
                fv * 10
            } else {
                fv
            };
            let total: u64 = iv * 100 + frac;
            if total > MAX_AMOUNT_CENTS {
                return None;
            }
            Some((neg, total))
        },
    }
}

// ---------------------------------------------------------------------------
// Normalization laws
// ---------------------------------------------------------------------------

proof fn lemma_remove_euro_id(s: Seq<u8>)
    requires
        forall|i: int| 0 <= i < s.len() ==> s[i] != 0xE2,
    ensures
        remove_euro(s) == s,
    decreases s.len(),
{
    if s.len() > 0 {
        let t = s.skip(1);
        assert(forall|i: int| 0 <= i < t.len() ==> t[i] == s[i + 1]);
        lemma_remove_euro_id(t);
        assert(seq![s[0]] + t =~= s);
    }
}

proof fn lemma_strip_dots_concat(a: Seq<u8>, b: Seq<u8>)
    ensures
        strip_dots(a + b) == strip_dots(a) + strip_dots(b),
    decreases a.len(),
{
    if a.len() == 0 {
        assert(a + b =~= b);
        assert(strip_dots(a) + strip_dots(b) =~= strip_dots(b));
    } else {
        assert((a + b).skip(1) =~= a.skip(1) + b);
        lemma_strip_dots_concat(a.skip(1), b);
        assert((a + b)[0] == a[0]);
        if a[0] == 46 {
            assert(strip_dots(a) == strip_dots(a.skip(1)));
        } else {
            assert(seq![a[0]] + (strip_dots(a.skip(1)) + strip_dots(b)) =~= (seq![a[0]]
                + strip_dots(a.skip(1))) + strip_dots(b));
        }
    }
}

proof fn lemma_strip_dots_id(s: Seq<u8>)
    requires
        forall|i: int| 0 <= i < s.len() ==> s[i] != 46,
    ensures
        strip_dots(s) == s,
    decreases s.len(),
{
    if s.len() > 0 {
        let t = s.skip(1);
        assert(forall|i: int| 0 <= i < t.len() ==> t[i] == s[i + 1]);
        lemma_strip_dots_id(t);
        assert(seq![s[0]] + t =~= s);
    }
}

/// Only digits and dots: the shape of a Dutch integer part with optional
/// thousands separators.
pub open spec fn digits_and_dots(s: Seq<u8>) -> bool {
    forall|i: int| 0 <= i < s.len() ==> (is_digit_byte(#[trigger] s[i]) || s[i] == 46)
}

/// Cent value of a fraction part of one or two digits.
pub open spec fn frac_val(fp: Seq<u8>) -> int {
    if fp.len() == 1 {
        num_val(fp) * 10
    } else {
        num_val(fp)
    }
}

/// Normalization of Dutch-formatted decimal text.  For an integer part
/// `ip` of digits with dots as thousands separators, and a comma-decimal
/// fraction part `fp` of one or two digits, parsing `ip , fp` yields the
/// numerically equal non-negative cent magnitude: the dots drop out, the
/// comma reads as the decimal separator.
pub proof fn lemma_dutch_normalization(ip: Seq<u8>, fp: Seq<u8>)
    requires
        digits_and_dots(ip),
        strip_dots(ip).len() >= 1,
        all_digits(fp),
        1 <= fp.len() <= 2,
        num_val(strip_dots(ip)) * 100 + frac_val(fp) <= MAX_AMOUNT_CENTS,
    ensures
        parse_amount_spec(ip + seq![44u8] + fp) == Some(
            (false, (num_val(strip_dots(ip)) * 100 + frac_val(fp)) as u64),
        ),
{
    let s = ip + seq![44u8] + fp;
    let d = strip_dots(ip);
    assert(all_digits(d)) by {
        lemma_strip_dots_digits(ip);
    }
    // the cleaning pipeline yields  d . fp
    assert(forall|i: int| 0 <= i < s.len() ==> s[i] != 0xE2);
    lemma_remove_euro_id(s);
    lemma_strip_dots_concat(ip + seq![44u8], fp);
    lemma_strip_dots_concat(ip, seq![44u8]);
    assert(strip_dots(seq![44u8]) =~= seq![44u8]) by {
        assert(seq![44u8].skip(1) =~= Seq::<u8>::empty());
        assert(seq![44u8][0] == 44);
        assert(strip_dots(Seq::<u8>::empty()) =~= Seq::<u8>::empty());
        assert(seq![44u8] + Seq::<u8>::empty() =~= seq![44u8]);
    }
    lemma_strip_dots_id(fp);
    assert((ip + seq![44u8]) + fp =~= s);
    assert(strip_dots(s) =~= d + seq![44u8] + fp);
    let c = comma_to_dot(d + seq![44u8] + fp);
    assert(c =~= d + seq![46u8] + fp);
    assert(trim_spec(c) == c) by {
        assert(c.len() > 0);
        assert(!crate::text::is_ascii_space(c.first()));
        assert(crate::text::ltrim(c) == c);
        assert(c.last() == fp.last());
        assert(!crate::text::is_ascii_space(c.last()));
        assert(crate::text::rtrim(c) == c);
    }
    assert(clean_amount_spec(s) == c);
    // the grammar reads the dot as the decimal separator
    assert(c.len() >= 3);
    assert(c[0] == d[0]);
    assert(c[0] != 45 && c[0] != 43);
    assert(forall|k: int| 0 <= k < d.len() ==> c[k] == d[k] && c[k] != 46);
    assert(c[d.len() as int] == 46);
    crate::text::lemma_find_byte_at(c, 46, d.len() as int);
    let ipart = c.subrange(0, d.len() as int);
    let fpart = c.subrange(d.len() as int + 1, c.len() as int);
    assert(ipart =~= d);
    assert(fpart =~= fp);
    assert(amount_grammar(c) == Some((false, num_val(d) * 100 + frac_val(fp))));
    assert(c != seq![48u8]);
    lemma_num_val_bound(d);
    lemma_num_val_bound(fp);
    crate::text::lemma_pow10_nonneg(d.len());
    assert(num_val(d) * 100 + frac_val(fp) >= 0);
}

proof fn lemma_strip_dots_digits(s: Seq<u8>)
    requires
        digits_and_dots(s),
    ensures
        all_digits(strip_dots(s)),
    decreases s.len(),
{
    if s.len() > 0 {
        let t = s.skip(1);
        assert(forall|i: int| 0 <= i < t.len() ==> t[i] == s[i + 1]);
        lemma_strip_dots_digits(t);
        if s[0] != 46 {
            assert(forall|i: int|
                0 <= i < strip_dots(s).len() ==> is_digit_byte(#[trigger] strip_dots(s)[i]))
                by {
                assert(strip_dots(s) == seq![s[0]] + strip_dots(t));
            }
        }
    }
}

/// A leading currency symbol does not change the parsed amount: the euro
/// sign is dropped before the numeric text is read.
pub proof fn lemma_euro_prefix_invariant(s: Seq<u8>)
    ensures
        parse_amount_spec(euro_seq() + s) == parse_amount_spec(s),
{
    let e = euro_seq() + s;
    assert(e.len() >= 3 && e[0] == 0xE2 && e[1] == 0x82 && e[2] == 0xAC);
    assert(e.skip(3) =~= s);
    assert(remove_euro(e) == remove_euro(s));
}

/// Parses a Dutch-formatted amount field into a sign and a cent magnitude.
/// Follows `parse_amount_spec` exactly; `None` marks an invalid amount.
pub fn parse_amount(s: &[u8]) -> (r: Option<(bool, u64)>)
    ensures
        r == parse_amount_spec(s@),
        r is Some ==> r.unwrap().1 <= MAX_AMOUNT_CENTS,
{
    let c = clean_amount(s);
    let n: usize = c.len();
    if n == 0 {
        return None;
    }
    if n == 1 && c[0] == 48 {
        proof {
            assert(c@ =~= seq![48u8]);
        }
        return None;
    }
    proof {
        if c@ == seq![48u8] {
            assert(c@.len() == 1 && c@[0] == 48);
        }
    }
    amount_from_cleaned(c.as_slice())
}

/// Parses a plain decimal amount (comma accepted as decimal separator) into
/// a sign and a cent magnitude, following `parse_simple_amount_spec`.
pub fn parse_simple_amount(s: &[u8]) -> (r: Option<(bool, u64)>)
    ensures
        r == parse_simple_amount_spec(s@),
        r is Some ==> r.unwrap().1 <= MAX_AMOUNT_CENTS,
{
    let c = comma_to_dot_bytes(s);
    amount_from_cleaned(c.as_slice())
}

} // verus!

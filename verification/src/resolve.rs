//! Field resolver: maps semantic fields to columns through header-name
//! synonyms, and validates that a header row carries every required column.
//!
//! Header names match case-sensitively after trimming.  When two columns
//! carry the same trimmed name, the later column wins, as it would in a
//! name-to-index map filled left to right.

use vstd::prelude::*;
use crate::text::{bytes_eq, trim_bytes, trim_spec};

verus! {

/// Index of the last column whose trimmed header equals `name`.
pub open spec fn lookup_header(headers: Seq<Seq<u8>>, name: Seq<u8>) -> Option<int>
    decreases headers.len(),
{
    if headers.len() == 0 {
        None
    } else if trim_spec(headers.last()) == name {
        Some(headers.len() - 1)
    } else {
        lookup_header(headers.drop_last(), name)
    }
}

/// The value of the first synonym that resolves to a column: the trimmed
/// record field at that column, or empty when the column is beyond the
/// record or no synonym resolves.
pub open spec fn field_by_synonyms(
    headers: Seq<Seq<u8>>,
    record: Seq<Seq<u8>>,
    syns: Seq<Seq<u8>>,
) -> Seq<u8>
    decreases syns.len(),
{
    if syns.len() == 0 {
        seq![]
    } else {
        match lookup_header(headers, syns.first()) {
            Some(i) => if 0 <= i < record.len() {
                trim_spec(record[i])
            } else {
                seq![]
            },
            None => field_by_synonyms(headers, record, syns.drop_first()),
        }
    }
}

/// Some column's trimmed header equals `name`.
pub open spec fn header_present(headers: Seq<Seq<u8>>, name: Seq<u8>) -> bool {
    exists|i: int| 0 <= i < headers.len() && trim_spec(#[trigger] headers[i]) == name
}

/// Finds the last column whose trimmed header equals `name`.
pub fn lookup_header_exec(headers: &Vec<Vec<u8>>, name: &[u8]) -> (r: Option<usize>)
    ensures
        match r {
            Some(i) => lookup_header(headers.deep_view(), name@) == Some(i as int),
            None => lookup_header(headers.deep_view(), name@).is_none(),
        },
{
    let ghost hv = headers.deep_view();
    let n: usize = headers.len();
    let mut i: usize = n;
    proof {
        assert(hv.take(n as int) =~= hv);
    }
    while i > 0
        invariant
            0 <= i <= n,
            n == headers@.len(),
            hv == headers.deep_view(),
            lookup_header(hv, name@) == lookup_header(hv.take(i as int), name@),
        decreases i,
    {
        proof {
            assert(hv.take(i as int).last() == hv[i - 1]);
            assert(hv.take(i as int).drop_last() =~= hv.take(i - 1));
            assert(hv[i - 1] == headers@[i - 1]@);
        }
        let t = trim_bytes(headers[i - 1].as_slice());
        if bytes_eq(t.as_slice(), name) {
            return Some(i - 1);
        }
        i = i - 1;
    }
    proof {
        assert(hv.take(0).len() == 0);
    }
    None
}

/// Resolves a semantic field through an ordered synonym list.
pub fn get_field(headers: &Vec<Vec<u8>>, record: &Vec<Vec<u8>>, syns: &Vec<Vec<u8>>) -> (r: Vec<
    u8,
>)
    ensures
        r@ == field_by_synonyms(headers.deep_view(), record.deep_view(), syns.deep_view()),
{
    let ghost hv = headers.deep_view();
    let ghost rv = record.deep_view();
    let ghost sv = syns.deep_view();
    let n: usize = syns.len();
    let mut k: usize = 0;
    proof {
        assert(sv.skip(0) =~= sv);
    }
    while k < n
        invariant
            0 <= k <= n,
            n == syns@.len(),
            hv == headers.deep_view(),
            rv == record.deep_view(),
            sv == syns.deep_view(),
            field_by_synonyms(hv, rv, sv) == field_by_synonyms(hv, rv, sv.skip(k as int)),
        decreases n - k,
    {
        proof {
            assert(sv.skip(k as int).first() == sv[k as int]);
            assert(sv.skip(k as int).drop_first() =~= sv.skip(k + 1));
            assert(sv[k as int] == syns@[k as int]@);
        }
        match lookup_header_exec(headers, syns[k].as_slice()) {
            Some(i) => {
                if i < record.len() {
                    proof {
                        assert(rv[i as int] == record@[i as int]@);
                    }
                    return trim_bytes(record[i].as_slice());
                } else {
                    return Vec::new();
                }
            },
            None => {},
        }
        k = k + 1;
    }
    proof {
        assert(sv.skip(n as int).len() == 0);
    }
    Vec::new()
}

/// Whether some column's trimmed header equals `name`.
pub fn header_present_exec(headers: &Vec<Vec<u8>>, name: &[u8]) -> (r: bool)
    ensures
        r == header_present(headers.deep_view(), name@),
{
    let ghost hv = headers.deep_view();
    let n: usize = headers.len();
    let mut i: usize = 0;
    while i < n
        invariant
            0 <= i <= n,
            n == headers@.len(),
            hv == headers.deep_view(),
            forall|k: int| 0 <= k < i ==> trim_spec(#[trigger] hv[k]) != name@,
        decreases n - i,
    {
        proof {
            assert(hv[i as int] == headers@[i as int]@);
        }
        let t = trim_bytes(headers[i].as_slice());
        if bytes_eq(t.as_slice(), name) {
            return true;
        }
        i = i + 1;
    }
    false
}

} // verus!

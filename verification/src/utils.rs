//! Small shared validation helpers.

use vstd::prelude::*;

verus! {

/// The account number with every space removed.
pub open spec fn strip_spaces(s: Seq<u8>) -> Seq<u8>
    decreases s.len(),
{
    if s.len() == 0 {
        seq![]
    } else if s[0] == 32 {
        strip_spaces(s.skip(1))
    } else {
        seq![s[0]] + strip_spaces(s.skip(1))
    }
}

/// Basic IBAN shape check: after dropping spaces, the length must lie
/// between 15 and 34 characters.  Full country-specific validation is out
/// of scope.
pub fn validate_iban(iban: &[u8]) -> (r: bool)
    ensures
        r == (15 <= strip_spaces(iban@).len() <= 34),
{
    let n: usize = iban.len();
    let mut kept: usize = 0;
    let mut i: usize = 0;
    proof {
        assert(iban@.skip(0) =~= iban@);
    }
    while i < n
        invariant
            0 <= i <= n,
            n == iban@.len(),
            kept + strip_spaces(iban@.skip(i as int)).len() == strip_spaces(iban@).len(),
            kept <= i,
        decreases n - i,
    {
        proof {
            let t = iban@.skip(i as int);
            assert(t[0] == iban@[i as int]);
            assert(t.skip(1) =~= iban@.skip(i + 1));
        }
        if iban[i] != 32 {
            kept = kept + 1;
        }
        i = i + 1;
    }
    proof {
        assert(iban@.skip(n as int) =~= Seq::<u8>::empty());
    }
    15 <= kept && kept <= 34
}

} // verus!

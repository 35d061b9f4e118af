//! Decimal rendering of numbers into ASCII bytes, used by the
//! escape-code builders.

use vstd::prelude::*;

verus! {

/// The ASCII decimal digits of `n`, most significant first.
pub open spec fn dec_spec(n: int) -> Seq<u8>
    recommends
        0 <= n,
    decreases n,
{
    if n < 10 {
        seq![(48 + if n >= 0 { n } else { 0 }) as u8]
    } else {
        dec_spec(n / 10).push((48 + n % 10) as u8)
    }
}

/// Renders `n` in decimal, matching `dec_spec`.
pub fn dec_u64(n: u64) -> (r: Vec<u8>)
    ensures
        r@ == dec_spec(n as int),
    decreases n,
{
    if n < 10 {
        let mut v: Vec<u8> = Vec::new();
        v.push(48 + n as u8);
        proof {
            assert(v@ =~= dec_spec(n as int));
        }
        v
    } else {
        let mut v = dec_u64(n / 10);
        let d: u8 = (n % 10) as u8;
        v.push(48 + d);
        proof {
            assert(v@ =~= dec_spec(n as int));
        }
        v
    }
}


} // verus!

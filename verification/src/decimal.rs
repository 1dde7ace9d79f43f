//! Decimal rendering of ordered-list counters.

use vstd::prelude::*;

verus! {

/// The decimal digits of `n`, most significant first, as ASCII bytes.
pub open spec fn spec_decimal(n: nat) -> Seq<u8>
    decreases n,
{
    if n < 10 {
        seq![(48 + n) as u8]
    } else {
        spec_decimal(n / 10) + seq![(48 + n % 10) as u8]
    }
}

/// Relies on the standard `Display` implementation for `u64`: it writes the
/// value's decimal digits, with no sign, padding or separators.
#[verifier::external_body]
pub fn u64_to_decimal(n: u64) -> (r: Vec<u8>)
    ensures
        r@ == spec_decimal(n as nat),
{
    n.to_string().into_bytes()
}

} // verus!

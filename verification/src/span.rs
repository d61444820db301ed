//! Lengths of time.
use std::time::Duration;

use vstd::prelude::*;

verus! {

/// How many nanoseconds a `Duration` lasts.
pub uninterp spec fn nanos(d: Duration) -> nat;

/// The nanoseconds of the longest `Duration`: `u64::MAX` seconds and the
/// nanoseconds short of one more.
pub open spec fn max_nanos() -> nat {
    (u64::MAX as nat) * 1_000_000_000 + 999_999_999
}

/// `Duration::as_nanos`: the length in nanoseconds, which is never more than that
/// of the longest `Duration`.
pub assume_specification[ Duration::as_nanos ](d: &Duration) -> (res: u128)
    ensures
        res == nanos(*d),
        res <= max_nanos(),
;

/// `Duration::from_secs`: a length given in whole seconds.
pub assume_specification[ Duration::from_secs ](secs: u64) -> (res: Duration)
    ensures
        nanos(res) == secs * 1_000_000_000,
;

/// `Duration::from_millis`: a length given in milliseconds.
pub assume_specification[ Duration::from_millis ](millis: u64) -> (res: Duration)
    ensures
        nanos(res) == millis * 1_000_000,
;

/// `Duration::saturating_mul`: the product, or the longest `Duration` where
/// the product is longer than that.
pub assume_specification[ Duration::saturating_mul ](d: Duration, factor: u32) -> (res: Duration)
    ensures
        nanos(res) == if nanos(d) * factor <= max_nanos() {
            nanos(d) * factor
        } else {
            max_nanos() as int
        },
;

/// The text that `{:?}` writes for a `Duration` of so many nanoseconds.
pub uninterp spec fn debug_text(nanos: nat) -> Seq<char>;

/// `Debug` of a `Duration`: the text depends on the length alone.
#[verifier::external_body]
pub(crate) fn duration_debug(d: Duration) -> (res: String)
    ensures
        res@ == debug_text(nanos(d)),
{
    format!("{d:?}")
}

/// The whole milliseconds of a length, in 64 bits.
pub open spec fn millis_of(nanos: nat) -> u64 {
    ((nanos / 1_000_000) % 0x1_0000_0000_0000_0000) as u64
}

/// The whole milliseconds of a length, in 64 bits.
pub fn whole_millis(d: Duration) -> (res: u64)
    ensures
        res == millis_of(nanos(d)),
{
    let n: u128 = d.as_nanos() / 1_000_000;
    assert(n as u64 == n % 0x1_0000_0000_0000_0000) by (bit_vector);
    #[verifier::truncate]
    (n as u64)
}

} // verus!

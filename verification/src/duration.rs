//! What the library relies on about `std::time::Duration`.
//!
//! A duration is a whole number of nanoseconds. The constructors and accessors used by
//! the library are given their documented meaning over that number.

use core::time::Duration;
use vstd::prelude::*;

verus! {

/// The whole number of nanoseconds that a duration lasts.
pub uninterp spec fn nanos(d: Duration) -> nat;

/// `Duration::from_nanos`: a duration of exactly `n` nanoseconds.
pub assume_specification[ Duration::from_nanos ](n: u64) -> (d: Duration)
    ensures
        nanos(d) == n,
;

/// `Duration::from_micros`: a duration of exactly `n` microseconds.
pub assume_specification[ Duration::from_micros ](n: u64) -> (d: Duration)
    ensures
        nanos(d) == n * 1000,
;

/// `Duration::as_nanos`: the length in nanoseconds.
pub assume_specification[ Duration::as_nanos ](d: &Duration) -> (n: u128)
    ensures
        n == nanos(*d),
;

/// `Duration::as_micros`: the length in whole microseconds, rounded down.
pub assume_specification[ Duration::as_micros ](d: &Duration) -> (n: u128)
    ensures
        n == nanos(*d) / 1000,
;

/// The nanoseconds of the longest duration there is, `Duration::MAX`.
pub open spec fn longest() -> nat {
    0xffff_ffff_ffff_ffff * 1_000_000_000 + 999_999_999
}

/// `Duration::saturating_add`: the sum, or the longest duration where the sum is longer.
pub assume_specification[ Duration::saturating_add ](d: Duration, other: Duration) -> (sum:
    Duration)
    ensures
        nanos(sum) == if nanos(d) + nanos(other) <= longest() {
            nanos(d) + nanos(other)
        } else {
            longest()
        },
;

/// `Duration::saturating_sub`: the difference, or nothing where `other` is the longer one.
pub assume_specification[ Duration::saturating_sub ](d: Duration, other: Duration) -> (rest:
    Duration)
    ensures
        nanos(rest) == if nanos(d) >= nanos(other) {
            (nanos(d) - nanos(other)) as nat
        } else {
            0
        },
;

/// The length of `d` in whole microseconds.
pub open spec fn micros(d: Duration) -> nat {
    nanos(d) / 1000
}

/// One more than the largest 64-bit count.
pub open spec fn word() -> nat {
    0x1_0000_0000_0000_0000
}

/// The length of `d` in whole microseconds, reduced to a 64-bit count.
pub(crate) fn micros_word(d: Duration) -> (us: u64)
    ensures
        us == micros(d) % word(),
{
    let wide: u128 = d.as_micros();
    assert(wide as u64 == wide % 0x1_0000_0000_0000_0000) by (bit_vector);
    wide as u64
}

/// The length of `d` in nanoseconds, reduced to a 64-bit count.
pub(crate) fn nanos_word(d: Duration) -> (ns: u64)
    ensures
        ns == nanos(d) % word(),
{
    let wide: u128 = d.as_nanos();
    assert(wide as u64 == wide % 0x1_0000_0000_0000_0000) by (bit_vector);
    wide as u64
}

// ---- laws ----

/// A microsecond is a thousand nanoseconds, and only whole ones count: a duration has as many
/// as fit into it.
pub proof fn law_only_whole_microseconds_count(d: Duration)
    ensures
        micros(d) * 1000 <= nanos(d) < micros(d) * 1000 + 1000,
        word() == u64::MAX + 1,
        longest() == u64::MAX * 1_000_000_000 + 999_999_999,
{
}

} // verus!

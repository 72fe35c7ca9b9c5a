//! Randomness for sampling.
//!
//! The one outside call is `rand::random`; everything that shapes a raw
//! draw into a scalar of this library is verified code.  Nothing is
//! promised about a drawn value beyond its range: two draws may differ.

use vstd::prelude::*;
use crate::fixed::{SCALE, TWO_PI_FX};

verus! {

/// Relies on rand::random: a fresh value from the thread-local generator.
/// Nothing can be promised about what it returns.
pub assume_specification<T>[ rand::random::<T> ]() -> (r: T)
    where
        rand::distributions::Standard: rand::distributions::Distribution<T>,
;

/// A fresh scalar in `[0, 1)`: sixteen random fractional bits.
pub fn rand01() -> (r: i64)
    ensures
        0 <= r < SCALE,
{
    let w: u64 = rand::random();
    let m: u64 = w & 0xffff;
    proof {
        assert(w & 0xffff < 0x10000) by (bit_vector);
    }
    m as i64
}

/// A fresh scalar in `[-1, 1]`.
pub fn rand_sym() -> (r: i64)
    ensures
        -SCALE <= r <= SCALE,
{
    let w: u64 = rand::random();
    let m: u64 = w % 131073;
    (m as i64) - 65536
}

/// A fresh angle in `[0, 2*pi)`.
pub fn rand_angle() -> (r: i64)
    ensures
        0 <= r < TWO_PI_FX,
{
    let w: u64 = rand::random();
    let m: u64 = w % (TWO_PI_FX as u64);
    m as i64
}

} // verus!

//! Pixel format codes and memory layouts, as the format crates define them.

use drm_fourcc::{DrmFourcc, DrmModifier};
use vstd::prelude::*;

verus! {

/// The code of the format with eight bits each of alpha, red, green and blue.
pub open spec fn argb8888_code() -> u32 {
    875713089
}

/// The layout of rows one after the other.
pub open spec fn linear_layout() -> u64 {
    0
}

/// The layout that only the driver knows.
pub open spec fn implicit_layout() -> u64 {
    72057594037927935
}

/// `DrmFourcc::Argb8888` as its number: the four characters `AR24`, lowest first.
#[verifier::external_body]
pub(crate) fn argb8888() -> (r: u32)
    ensures
        r == argb8888_code(),
{
    DrmFourcc::Argb8888 as u32
}

/// `u64::from(DrmModifier::Linear)`, which is zero.
#[verifier::external_body]
pub(crate) fn linear_modifier() -> (r: u64)
    ensures
        r == linear_layout(),
{
    u64::from(DrmModifier::Linear)
}

/// `u64::from(DrmModifier::Invalid)`, which has all bits set but the eight of the vendor.
#[verifier::external_body]
pub(crate) fn invalid_modifier() -> (r: u64)
    ensures
        r == implicit_layout(),
{
    u64::from(DrmModifier::Invalid)
}

} // verus!

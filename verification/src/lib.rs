//! Division and remainder by a fixed divisor, evaluated with one multiplication
//! and two shifts on wide unsigned integers.
//!
//! A [`divider::Divider`] is derived once from a divisor; afterwards every
//! quotient and remainder is computed without a division instruction. The
//! arithmetic on wide integers is carried out by the `bnum` crate, reached
//! through [`wide::WideUint`].

pub mod divider;
pub mod reciprocal;
pub mod wide;

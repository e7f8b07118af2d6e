//! The outside I2C bus error type, declared so the logic can carry it.
use vstd::prelude::*;
use embassy_nrf::twim::Error as TwimError;

verus! {

/// The TWIM (I2C master) error of `embassy_nrf`, carried through unchanged.
#[verifier::external_type_specification]
#[verifier::external_body]
pub struct ExTwimError(TwimError);

} // verus!

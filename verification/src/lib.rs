//! A verified token-vesting ledger.
//!
//! Each beneficiary holds one linear release schedule: a fixed total amount
//! vests over a time window, and the beneficiary may withdraw the portion
//! vested so far, wholly or in increments. The ledger is pure state-machine
//! logic: the caller supplies the current time and performs the actual value
//! transfer with the amount each withdrawal returns.

pub mod ledger;
pub mod schedule;

pub use ledger::TokenVesting;
pub use ledger::VestingError;
pub use schedule::VestingSchedule;

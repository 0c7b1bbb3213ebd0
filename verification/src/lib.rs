//! Time tracking logic: calendar dates and ISO weeks, time-of-day and
//! duration parsing, stint pairing, week accounting with signed carry,
//! and the text rendering of the `status` and `week` views.

pub mod text;
pub mod calendar;
pub mod time;
pub mod date;
pub mod render;
pub mod stint;
pub mod storage;
pub mod week;
pub mod week_view;
pub mod status;
pub mod commands;
pub mod cli;
pub mod week_target;

use vstd::prelude::*;

verus! {

/// `anyhow::Error`, carried through as an opaque value.
#[verifier::external_type_specification]
#[verifier::external_body]
pub struct ExAnyhowError(anyhow::Error);

/// One nonzero exit code for every hard error; success is always 0.
pub fn exit_code(result: &Result<(), anyhow::Error>) -> (r: i32)
    ensures
        r == (if result is Ok {
            0i32
        } else {
            1i32
        }),
{
    match result {
        Ok(()) => 0,
        Err(_) => 1,
    }
}

} // verus!

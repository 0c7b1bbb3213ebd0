//! `week target [WEEK_ID] DURATION`: which week and how many minutes a
//! request names. The week token is checked before the duration, so with
//! both malformed the leftmost error wins.

use crate::calendar::{iso_week_of, iso_year_of, Date};
use crate::cli::WeekTargetArgs;
use crate::date::{parse_week_id, week_arg_fields, week_rejection, DateWeekError, WeekId};
use crate::time::{duration_outcome, parse_duration, DurationParseError};
use vstd::prelude::*;

verus! {

/// Why a target request was refused.
#[derive(Debug, Clone, PartialEq, Eq)]
pub enum WeekTargetError {
    /// The week token is malformed or names no real week.
    Week(DateWeekError),
    /// The duration token is malformed or negative.
    Duration(DurationParseError),
}

/// The week a `WEEK_ID` token names, when it names a real one.
pub open spec fn named_week(s: Seq<char>, today: Date) -> Option<(int, int)> {
    match week_arg_fields(s, today) {
        Some((y, w)) => if week_rejection(y, w) is None {
            Some((y, w))
        } else {
            None
        },
        None => None,
    }
}

/// The week and minutes of a `week target` request: the named week (the
/// current one when the token is omitted) and the duration, both checked
/// before anything is written.
pub fn target_request(args: &WeekTargetArgs, today: &Date) -> (r: Result<(WeekId, i64), WeekTargetError>)
    requires
        1 <= args.args@.len() <= 2,
    ensures
        ({
            let dur = args.args@.last()@;
            let week: Option<(int, int)> = if args.args@.len() == 2 {
                named_week(args.args@[0]@, *today)
            } else {
                Some((iso_year_of(today.num(), today.y()), iso_week_of(today.num(), today.y())))
            };
            match week {
                None => r matches Err(WeekTargetError::Week(e)) && e.input@ == args.args@[0]@,
                Some(yw) => match duration_outcome(dur) {
                    Ok(m) => r matches Ok((w, v)) && w.yw() == yw && v as int == m,
                    Err(_) => r matches Err(WeekTargetError::Duration(_)),
                },
            }
        }),
{
    let (week_tok, dur_tok) = args.split();
    let week = match week_tok {
        Some(tok) => match parse_week_id(tok, today) {
            Ok(w) => w,
            Err(e) => return Err(WeekTargetError::Week(e)),
        },
        None => WeekId::current(today),
    };
    match parse_duration(dur_tok) {
        Ok(minutes) => Ok((week, minutes)),
        Err(e) => Err(WeekTargetError::Duration(e)),
    }
}

} // verus!

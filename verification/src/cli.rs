//! The command-line shapes, as plain data: what each subcommand carries
//! once its arguments have been read.

use vstd::prelude::*;

verus! {

/// A parsed command line.
#[derive(Debug, Clone, PartialEq, Eq)]
pub struct Cli {
    pub command: Command,
    /// Debug-level logging.
    pub verbose: bool,
}

/// The subcommands.
#[derive(Debug, Clone, PartialEq, Eq)]
pub enum Command {
    /// Record a start punch (alias `s`).
    Start(PunchArgs),
    /// Record an end punch (alias `e`).
    Stop(PunchArgs),
    /// Record a work-log note (alias `n`).
    Note(NoteArgs),
    /// Show a week's totals, or set its target (alias `w`).
    Week(WeekArgs),
    /// Show a date's stints, notes and totals (alias `d`); `date` is
    /// `YYYY-MM-DD` or `-N`, today when absent.
    Status { date: Option<String> },
    /// List or delete a date's notes or punches (alias `del`).
    Delete(DeleteArgs),
}

/// `delete note|punch ...`.
#[derive(Debug, Clone, PartialEq, Eq)]
pub struct DeleteArgs {
    pub target: DeleteTarget,
}

/// What `delete` works on.
#[derive(Debug, Clone, PartialEq, Eq)]
pub enum DeleteTarget {
    /// The date's notes (alias `n`).
    Note(DeleteEntryArgs),
    /// The date's punches (alias `p`).
    Punch(DeleteEntryArgs),
}

/// `[ID] [--date DATE]`: without `ID` the date's entries are listed,
/// numbered from 1; with it, that entry is deleted.
#[derive(Debug, Clone, PartialEq, Eq)]
pub struct DeleteEntryArgs {
    pub id: Option<u32>,
    pub date: Option<String>,
}

/// `start` / `stop`: `[TIME] [--date DATE] [NOTE...]`. `TIME` stays text
/// so its errors come from the time parser; an empty `note` means no note.
#[derive(Debug, Clone, PartialEq, Eq)]
pub struct PunchArgs {
    pub time: Option<String>,
    pub date: Option<String>,
    pub note: Vec<String>,
}

/// `note [--date DATE] NOTE...`: the note tokens are mandatory.
#[derive(Debug, Clone, PartialEq, Eq)]
pub struct NoteArgs {
    pub date: Option<String>,
    pub body: Vec<String>,
}

/// `week [WEEK_ID]` or `week target [WEEK_ID] DURATION`.
#[derive(Debug, Clone, PartialEq, Eq)]
pub struct WeekArgs {
    pub action: Option<WeekAction>,
    pub week_id: Option<String>,
}

/// The `week` subcommands.
#[derive(Debug, Clone, PartialEq, Eq)]
pub enum WeekAction {
    /// Set an absolute target override for a week.
    Target(WeekTargetArgs),
}

/// `[WEEK_ID] DURATION` as one list of one or two tokens; `DURATION` is
/// always the last.
#[derive(Debug, Clone, PartialEq, Eq)]
pub struct WeekTargetArgs {
    pub args: Vec<String>,
}

impl WeekTargetArgs {
    /// `(week_id_token, duration_token)`: with one token the week id was
    /// omitted.
    pub fn split(&self) -> (r: (Option<&str>, &str))
        requires
            1 <= self.args@.len() <= 2,
        ensures
            self.args@.len() == 1 ==> r.0 is None && r.1@ == self.args@[0]@,
            self.args@.len() == 2 ==> (r.0 matches Some(w) && w@ == self.args@[0]@) && r.1@
                == self.args@[1]@,
    {
        if self.args.len() == 1 {
            (None, self.args[0].as_str())
        } else {
            (Some(self.args[0].as_str()), self.args[1].as_str())
        }
    }
}

} // verus!

//! Print modes offered by the interactive front end.

use crate::robot::PrintTask;
use crate::scaling::Polyline;
use vstd::prelude::*;

verus! {

/// How a submitted drawing is printed: once, immediately, or repeated on a
/// fixed schedule of 5, 15, 30 or 60 minutes.
#[derive(Clone, Copy, PartialEq, Eq, Structural, Debug)]
pub enum PrintMode {
    Once,
    Schedule5,
    Schedule15,
    Schedule30,
    Schedule60,
}

impl PrintMode {
    /// The repeat interval of the mode, in seconds (zero for one-shot mode,
    /// which has no interval).
    pub open spec fn spec_interval_secs(self) -> u64 {
        match self {
            PrintMode::Once => 0,
            PrintMode::Schedule5 => 300,
            PrintMode::Schedule15 => 900,
            PrintMode::Schedule30 => 1800,
            PrintMode::Schedule60 => 3600,
        }
    }

    /// Wrap a drawing into the task this mode calls for: a one-shot task, or
    /// a scheduled task whose cycle holds exactly this drawing.
    pub fn to_print_task(&self, polylines: Vec<Polyline>) -> (t: PrintTask)
        ensures
            *self is Once ==> t == PrintTask::Once(polylines),
            !(*self is Once) ==> (t matches PrintTask::Scheduled(secs, ds) && secs == self
                .spec_interval_secs() && ds@ == seq![polylines]),
    {
        let mode = *self;
        match mode {
            PrintMode::Once => PrintTask::Once(polylines),
            _ => {
                let secs: u64 = match mode {
                    PrintMode::Once => 0,
                    PrintMode::Schedule5 => 5 * 60,
                    PrintMode::Schedule15 => 15 * 60,
                    PrintMode::Schedule30 => 30 * 60,
                    PrintMode::Schedule60 => 60 * 60,
                };
                let mut ds: Vec<Vec<Polyline>> = Vec::new();
                ds.push(polylines);
                proof {
                    assert(ds@ =~= seq![ds@[0]]);
                }
                PrintTask::Scheduled(secs, ds)
            },
        }
    }
}

} // verus!

//! Core logic for a pen-plotting robot driven over a serial link: geometric
//! scaling and fitting of polyline drawings into the device's drawable area,
//! a daily time-of-day window that may wrap past midnight, print-task
//! construction, and the robot worker's state machine with bounded retries.
//!
//! Coordinates are fixed-point integers (hundredths of a device unit), so the
//! geometry is exact integer arithmetic throughout.

pub mod config;
pub mod files;
pub mod printmode;
pub mod robot;
pub mod scaling;
pub mod timelimits;

use crate::printmode::PrintMode;
use crate::robot::{PrintTask, IBB_HEIGHT, IBB_WIDTH};
use crate::scaling::{
    drawing_wf, fit_polylines, fitted_drawing, fittable, lines_nonempty, scale_polylines,
    scaled_drawing, Bounds, Polyline, Range, ScaleError, ScaleFactor, COORD_LIMIT,
};
use vstd::prelude::*;

verus! {

/// Padding kept clear on every side of the drawable area in headless mode.
pub const HEADLESS_PADDING: i64 = 500;

/// Why headless startup failed. A failure here is fatal: headless mode has
/// no interactive submitter to report to.
#[derive(Clone, PartialEq, Debug)]
pub enum HeadlessError {
    /// No drawing files were found to schedule.
    NoFiles,
    /// Reading a drawing file failed.
    Io(String),
    /// A drawing file could not be parsed.
    SvgParse(String),
    /// A drawing cannot be fitted to the drawable area.
    PolylineScale(ScaleError),
    /// The worker is gone, so the task cannot be queued.
    Queue(String),
}

/// The drawable area of the board, shrunk by the headless padding.
pub open spec fn spec_headless_bounds() -> Bounds {
    Bounds {
        x: Range { min: HEADLESS_PADDING, max: (IBB_WIDTH - HEADLESS_PADDING) as i64 },
        y: Range { min: HEADLESS_PADDING, max: (IBB_HEIGHT - HEADLESS_PADDING) as i64 },
    }
}

/// The padded target area that headless mode fits every drawing into.
pub fn headless_bounds() -> (b: Bounds)
    ensures
        b == spec_headless_bounds(),
        b.wf(),
{
    let mut b = Bounds {
        x: Range { min: 0, max: IBB_WIDTH },
        y: Range { min: 0, max: IBB_HEIGHT },
    };
    let ok = b.add_padding(HEADLESS_PADDING);
    assert(ok);
    b
}

/// The compute core of headless startup: fit each parsed drawing into the
/// padded drawable area, in order, and wrap the set into one scheduled task
/// with the configured interval. Fails when no drawing was given, or when
/// some drawing cannot be fitted (empty, or degenerate on both axes).
#[verifier::loop_isolation(false)]
pub fn prepare_headless_task(drawings: Vec<Vec<Polyline>>, interval_seconds: u64) -> (r: Result<
    PrintTask,
    HeadlessError,
>)
    requires
        forall|k: int|
            0 <= k < drawings@.len() ==> drawing_wf((#[trigger] drawings@[k])@) && lines_nonempty(
                drawings@[k]@,
            ),
    ensures
        r is Ok <==> (drawings@.len() > 0 && forall|k: int|
            0 <= k < drawings@.len() ==> fittable((#[trigger] drawings@[k])@)),
        r == Err::<PrintTask, HeadlessError>(HeadlessError::NoFiles) <==> drawings@.len() == 0,
        (r matches Err(e) && e is PolylineScale) <==> (drawings@.len() > 0 && exists|k: int|
            0 <= k < drawings@.len() && !fittable((#[trigger] drawings@[k])@)),
        r matches Ok(t) ==> (t matches PrintTask::Scheduled(secs, ds) && secs == interval_seconds
            && ds@.len() == drawings@.len() && forall|k: int|
            0 <= k < drawings@.len() ==> fitted_drawing(
                drawings@[k]@,
                (#[trigger] ds@[k])@,
                spec_headless_bounds(),
            )),
{
    let ghost orig = drawings@;
    if drawings.len() == 0 {
        return Err(HeadlessError::NoFiles);
    }
    let bounds = headless_bounds();
    let mut drawings = drawings;
    let mut rev: Vec<Vec<Polyline>> = Vec::new();
    proof {
        assert(orig.take(orig.len() as int) =~= orig);
    }
    while drawings.len() > 0
        invariant
            rev@.len() + drawings@.len() == orig.len(),
            drawings@ == orig.take(drawings@.len() as int),
            forall|t: int| 0 <= t < rev@.len() ==> rev@[t] == orig[orig.len() - 1 - t],
        decreases drawings@.len(),
    {
        proof {
            assert(drawings@.last() == orig[drawings@.len() - 1]);
            assert(drawings@.drop_last() =~= orig.take(drawings@.len() - 1));
        }
        let item = drawings.pop().unwrap();
        rev.push(item);
    }
    let mut out: Vec<Vec<Polyline>> = Vec::new();
    while rev.len() > 0
        invariant
            bounds == spec_headless_bounds(),
            bounds.wf(),
            orig.len() > 0,
            rev@.len() <= orig.len(),
            forall|t: int| 0 <= t < rev@.len() ==> rev@[t] == orig[orig.len() - 1 - t],
            out@.len() == orig.len() - rev@.len(),
            forall|k: int|
                0 <= k < orig.len() ==> drawing_wf((#[trigger] orig[k])@) && lines_nonempty(
                    orig[k]@,
                ),
            forall|k: int| 0 <= k < out@.len() ==> fittable((#[trigger] orig[k])@),
            forall|k: int|
                0 <= k < out@.len() ==> fitted_drawing(
                    orig[k]@,
                    (#[trigger] out@[k])@,
                    spec_headless_bounds(),
                ),
        decreases rev@.len(),
    {
        let mut item = rev.pop().unwrap();
        let ghost k = orig.len() - rev@.len() - 1;
        proof {
            assert(item == orig[k]);
        }
        match fit_polylines(&mut item, &bounds) {
            Ok(()) => {
                out.push(item);
            },
            Err(e) => {
                assert(!fittable(orig[k]@));
                return Err(HeadlessError::PolylineScale(e));
            },
        }
    }
    Ok(PrintTask::Scheduled(interval_seconds, out))
}

/// The compute core of an interactive print request: place the parsed
/// drawing with the caller-chosen offsets and factors, then wrap it into the
/// task the chosen mode calls for.
pub fn prepare_print_task(
    polylines: Vec<Polyline>,
    offset: (i64, i64),
    scale: (ScaleFactor, ScaleFactor),
    mode: &PrintMode,
) -> (t: PrintTask)
    requires
        drawing_wf(polylines@),
        -COORD_LIMIT <= offset.0 <= COORD_LIMIT,
        -COORD_LIMIT <= offset.1 <= COORD_LIMIT,
        scale.0.wf(),
        scale.1.wf(),
    ensures
        *mode is Once ==> (t matches PrintTask::Once(p) && scaled_drawing(
            polylines@,
            p@,
            offset.0 as int,
            offset.1 as int,
            scale.0,
            scale.1,
        )),
        !(*mode is Once) ==> (t matches PrintTask::Scheduled(secs, ds) && secs
            == mode.spec_interval_secs() && ds@.len() == 1 && scaled_drawing(
            polylines@,
            ds@[0]@,
            offset.0 as int,
            offset.1 as int,
            scale.0,
            scale.1,
        )),
{
    let mut placed = polylines;
    scale_polylines(&mut placed, offset, scale);
    mode.to_print_task(placed)
}

} // verus!

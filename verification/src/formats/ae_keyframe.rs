//! After Effects keyframe files: not read or written; the native STS format is used instead.

use vstd::prelude::*;
use crate::timesheet::TimeSheet;

verus! {

/// Reading After Effects keyframe files is not supported: always fails, pointing to the
/// STS format.
pub fn parse_ae_keyframe_file(_path: &str) -> (r: Result<TimeSheet, &'static str>)
    ensures
        r == Err::<TimeSheet, &'static str>("Use native STS format instead."),
{
    Err("Use native STS format instead.")
}

/// Writing After Effects keyframe files is not supported: always fails.
pub fn write_ae_keyframe_file(_timesheet: &TimeSheet, _path: &str) -> (r: Result<(), &'static str>)
    ensures
        r == Err::<(), &'static str>("AE keyframe export not yet implemented for X-Sheet format"),
{
    Err("AE keyframe export not yet implemented for X-Sheet format")
}

} // verus!

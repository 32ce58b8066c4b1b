//! Timesheet file formats.

pub mod sts;
pub mod sxf;
pub mod keyframes;
pub mod tdts;
pub mod xdts;
pub mod csv;
pub mod ae_keyframe;
pub mod sxf_text;

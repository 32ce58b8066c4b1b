//! Timesheet (X-sheet) data model, file formats and editing operations.

pub mod limits;
pub mod text;
pub mod timesheet;
pub mod encoding;
pub mod formats;
pub mod document;
pub mod settings;
pub mod i18n;
pub mod about;
pub mod images;

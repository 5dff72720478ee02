//! A time-tracking engine: punch events in, work sessions and a summary of recent
//! days and ISO weeks out.
//!
//! Instants are whole seconds since 1970-01-01T00:00:00, read either on the UTC clock
//! or on the local wall clock; a calendar day is a day number counted from that same
//! origin, and a week is numbered from the week of Monday 1969-12-29.

pub mod calendar;
pub mod clock;
pub mod flash;
pub mod models;
pub mod punch;
pub mod reconstruct;
pub mod sample;
pub mod report;
pub mod time;

pub use clock::{to_local, to_utc, LocalMapping};
pub use flash::{FlashService, FlashSlot, Message, RequestFlash};
pub use models::{
    Config, ConfigRow, DatabaseError, Event, EventType, NewEvent, NewProject, NewUser, Project,
    PunchDirection, Secret, User,
};
pub use punch::{next_expected_direction, next_expected_punch_direction, punch_event, validate_punch};
pub use reconstruct::{reconstruct, Reconstruction};
pub use report::{build_report, report_start_utc, summary_report, SummaryReport, Week};
pub use time::{Elapsed, Interval, WorkTime};

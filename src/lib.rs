//! Daily and monthly summaries of time-tracking entries: local-calendar query
//! ranges, the join of entries with their projects, totals by project and tag,
//! and the text that presents them.

pub mod commands;
pub mod console;
pub mod datetime;
pub mod error;
pub mod error_chain;
pub mod text;
pub mod time_entry;
pub mod toggl;
pub mod totals;

pub use commands::{Clock, DailyArgs, DailyCommand, MonthlyArgs, MonthlyCommand, SystemClock};
pub use console::ConsoleMarkdownList;
pub use datetime::{now, parse_date, parse_month, CalendarDate, CivilDateTime};
pub use error::ReportError;
pub use error_chain::format_error_chain;
pub use time_entry::TimeEntry;
pub use toggl::{join_time_entries, TogglProject, TogglRepository, TogglTimeEntry};
pub use totals::{calc_project_tag_duration, DayTotals, DurationTotals};

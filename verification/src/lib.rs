//! Grandfather-father-son retention for dated backup archives.
//!
//! Every archive is named `<prefix>YYYY-MM-DD.zip`. An archive is kept when
//! it is dated on the first of a month, on a Monday of the month that "now"
//! falls in, or within the last seven days; every other archive may go.

pub mod calendar;
pub mod naming;
pub mod retention;
pub mod selection;

pub use calendar::{CalendarDate, Weekday, Ymd};
pub use naming::{
    extract_date, has_prefix, parse_file_name, BackupFile, NamingError, NamingErrorKind,
};
pub use retention::{is_in_current_month, is_last_week, is_monday, is_start_of_month, keep};
pub use selection::{filter, keep_file, to_discard};

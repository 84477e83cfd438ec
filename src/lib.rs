//! Streaming gap detection over delimited text: each line's field is parsed
//! into a typed value, subtracted from the previous accepted line's value, and
//! the pair is reported when the difference satisfies a threshold comparison.
pub mod text;
pub mod decimal;
pub mod time;
pub mod value;
pub mod format;
pub mod scan;

pub use format::Format;
pub use scan::{csv_detect_missing, Arguments, Mode, Report, Scanner};
pub use time::Instant;
pub use value::{Comparison, Difference, Value};

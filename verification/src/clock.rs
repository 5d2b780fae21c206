//! The one place the library reads the clock.
use vstd::prelude::*;

verus! {

/// Relies on `chrono::Local::now` and `DateTime::format` with the pattern
/// `%Y-%m-%d %H:%M:%S`: the current local time rendered as
/// `YYYY-MM-DD HH:MM:SS`. The rendering always contains the pattern's
/// literal separators, so it is never empty; nothing else can be promised
/// of a clock reading.
#[verifier::external_body]
pub fn now_timestamp() -> (r: String)
    ensures
        r@.len() > 0,
{
    chrono::Local::now().format("%Y-%m-%d %H:%M:%S").to_string()
}

} // verus!

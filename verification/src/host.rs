//! What a running program needs from the world around it: its standard
//! streams, the files it imports, and the clock.

use vstd::prelude::*;

verus! {

/// The outside world as a running program sees it. Implementations decide
/// where the streams go and where files are read from; nothing is assumed of
/// what they return.
pub trait Host {
    /// Writes text to the standard output, without adding anything.
    fn write_stdout(&mut self, text: &str);

    /// Writes text to the standard error, without adding anything.
    fn write_stderr(&mut self, text: &str);

    /// Reads one line from the standard input, including its line break if it
    /// has one, or returns the text of the error that occurred.
    fn read_line(&mut self) -> Result<String, String>;

    /// Lists a directory: the name of each entry with its full path, or the
    /// text of the error that occurred.
    fn read_dir(&mut self, dir: &str) -> Result<Vec<(String, String)>, String>;

    /// Reads a whole file as text, or returns the text of the error that
    /// occurred.
    fn read_file(&mut self, path: &str) -> Result<String, String>;
}

/// The time elapsed since the Unix epoch, as whole seconds and the nanoseconds
/// of the second under way; `None` when the clock is set before the epoch.
///
/// Trusted: reads the clock through `std::time::SystemTime::now` and
/// `duration_since(UNIX_EPOCH)`. The nanoseconds of a `Duration` are below one
/// second; which time it returns is not stated.
#[verifier::external_body]
pub fn epoch_duration() -> (r: Option<(u64, u32)>)
    ensures
        r matches Some(t) ==> t.1 < 1_000_000_000,
{
    match std::time::SystemTime::now().duration_since(std::time::UNIX_EPOCH) {
        Ok(d) => Some((d.as_secs(), d.subsec_nanos())),
        Err(_) => None,
    }
}

} // verus!

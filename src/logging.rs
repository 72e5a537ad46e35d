//! Leveled log messages. Each function decides, from the configured level,
//! whether a message is written, and gives the line to write.
use vstd::prelude::*;
use crate::text::join2;

verus! {

/// The line for a message of severity `severity` (1 for errors up to 5 for
/// debugging output) under the configured `level`: the message with its
/// prefix, or nothing when the level leaves it out.
pub open spec fn log_line(level: u8, severity: u8, prefix: Seq<char>, message: Seq<char>) -> Option<Seq<char>> {
    if level >= severity {
        Some(prefix + message)
    } else {
        None
    }
}

fn line_if(level: u8, severity: u8, prefix: &str, message: &str) -> (r: Option<String>)
    ensures
        r matches Some(s) ==> log_line(level, severity, prefix@, message@) == Some(s@),
        r is None ==> log_line(level, severity, prefix@, message@) is None,
{
    if level >= severity {
        Some(join2(prefix, message))
    } else {
        None
    }
}

pub fn error(level: u8, message: &str) -> (r: Option<String>)
    ensures
        r matches Some(s) ==> log_line(level, 1, "[ERROR] "@, message@) == Some(s@),
        r is None ==> log_line(level, 1, "[ERROR] "@, message@) is None,
{
    line_if(level, 1, "[ERROR] ", message)
}

pub fn warn(level: u8, message: &str) -> (r: Option<String>)
    ensures
        r matches Some(s) ==> log_line(level, 2, "[WARN] "@, message@) == Some(s@),
        r is None ==> log_line(level, 2, "[WARN] "@, message@) is None,
{
    line_if(level, 2, "[WARN] ", message)
}

pub fn notice(level: u8, message: &str) -> (r: Option<String>)
    ensures
        r matches Some(s) ==> log_line(level, 3, "[NOTICE] "@, message@) == Some(s@),
        r is None ==> log_line(level, 3, "[NOTICE] "@, message@) is None,
{
    line_if(level, 3, "[NOTICE] ", message)
}

pub fn info(level: u8, message: &str) -> (r: Option<String>)
    ensures
        r matches Some(s) ==> log_line(level, 4, "[INFO] "@, message@) == Some(s@),
        r is None ==> log_line(level, 4, "[INFO] "@, message@) is None,
{
    line_if(level, 4, "[INFO] ", message)
}

pub fn debug(level: u8, message: &str) -> (r: Option<String>)
    ensures
        r matches Some(s) ==> log_line(level, 5, "[DEBUG] "@, message@) == Some(s@),
        r is None ==> log_line(level, 5, "[DEBUG] "@, message@) is None,
{
    line_if(level, 5, "[DEBUG] ", message)
}

} // verus!

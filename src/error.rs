//! Errors reported by the board and by the session handler.
use vstd::prelude::*;
use crate::text::{decimal, decimal_text, join2};

verus! {

/// An error of an operation on one bulletin.
#[derive(Clone, Debug)]
pub struct BulletinError {
    pub operation: String,
    pub message: String,
    pub title: String,
    pub tag: String,
    pub revision: Option<u64>,
}

impl BulletinError {
    pub fn new(operation: &str, message: String, title: String, tag: String, revision: Option<u64>) -> (r: Self)
        ensures
            r.operation@ == operation@,
            r.message == message,
            r.title == title,
            r.tag == tag,
            r.revision == revision,
    {
        BulletinError { operation: String::from_str(operation), message, title, tag, revision }
    }

    /// The text of the error, as it goes to the log.
    pub fn describe(&self) -> (r: String)
        ensures
            r@ == bulletin_error_text(self),
    {
        let mut s = String::from_str("message: \"");
        s.append(self.message.as_str());
        s.append("\", operation: ");
        s.append(self.operation.as_str());
        s.append(", title: ");
        s.append(self.title.as_str());
        s.append(", tag: ");
        s.append(self.tag.as_str());
        match self.revision {
            Some(rev) => {
                s.append(", revision: ");
                let d = decimal_text(rev);
                s.append(d.as_str());
                s.append(".");
            },
            None => {
                s.append(".");
            },
        }
        s
    }
}

/// The log text of a bulletin error.
pub open spec fn bulletin_error_text(e: &BulletinError) -> Seq<char> {
    let head = "message: \""@ + e.message@ + "\", operation: "@ + e.operation@ + ", title: "@
        + e.title@ + ", tag: "@ + e.tag@;
    match e.revision {
        Some(rev) => head + ", revision: "@ + decimal(rev as nat) + "."@,
        None => head + "."@,
    }
}

/// An error of an operation on a whole archive.
#[derive(Clone, Debug)]
pub struct ArchiveError {
    pub operation: String,
    pub message: String,
    pub acv_name: String,
}

impl ArchiveError {
    pub fn new(operation: &str, message: String, acv_name: String) -> (r: Self)
        ensures
            r.operation@ == operation@,
            r.message == message,
            r.acv_name == acv_name,
    {
        ArchiveError { operation: String::from_str(operation), message, acv_name }
    }

    /// The text of the error, as it goes to the log.
    pub fn describe(&self) -> (r: String)
        ensures
            r@ == "message: \""@ + self.message@ + "\", operation: "@ + self.operation@
                + ", archive: "@ + self.acv_name@ + "."@,
    {
        let mut s = join2("message: \"", self.message.as_str());
        s.append("\", operation: ");
        s.append(self.operation.as_str());
        s.append(", archive: ");
        s.append(self.acv_name.as_str());
        s.append(".");
        s
    }
}

} // verus!

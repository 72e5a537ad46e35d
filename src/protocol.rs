//! The operation and response vocabulary of the wire protocol, and the
//! requests that carry each operation's arguments.
use vstd::prelude::*;

verus! {

/// An operation that a client asks of the server.
#[derive(Clone, Copy, Debug, PartialEq, Eq)]
pub enum Operation {
    Post,
    Read,
    Relabel,
    Version,
    Status,
    Log,
    ViewBoard,
    GetInfo,
    ClearRevisions,
    Remove,
    Archive,
    Load,
    ListArchive,
    RenameArchive,
    DeleteArchive,
    Dump,
    Restore,
    ClearLog,
    Reset,
    Terminate,
}

/// The server's answer where the protocol has one.
#[derive(Clone, Debug, PartialEq, Eq)]
pub enum Response {
    Success,
    NotFound,
    NotUnique(Vec<String>),
}

impl Default for Response {
    fn default() -> (r: Self)
        ensures
            r == Response::Success,
    {
        Response::Success
    }
}

/// An operation with its arguments.
#[derive(Clone, Debug, PartialEq, Eq)]
pub enum Request {
    Post { title: String, tag: String, data: Vec<u8> },
    Read { title: String, tag: Option<String>, revisions: Vec<u64> },
    Relabel { title_from: String, tag_from: Option<String>, title_to: Option<String>, tag_to: Option<String> },
    Version,
    Status,
    Log,
    ViewBoard,
    GetInfo { title: String, tag: Option<String> },
    ClearRevisions { title: String, tag: Option<String>, revisions: Vec<u64> },
    Remove { title: String, tag: Option<String> },
    Archive { acv_name: String, title: String, tag: Option<String> },
    Load { acv_name: String },
    ListArchive,
    RenameArchive { name_from: String, name_to: String },
    DeleteArchive { acv_name: String },
    Dump { acv_name: String },
    Restore { acv_name: String },
    ClearLog,
    Reset,
    Terminate,
}

impl Request {
    pub open spec fn operation_of(&self) -> Operation {
        match self {
            Request::Post { .. } => Operation::Post,
            Request::Read { .. } => Operation::Read,
            Request::Relabel { .. } => Operation::Relabel,
            Request::Version => Operation::Version,
            Request::Status => Operation::Status,
            Request::Log => Operation::Log,
            Request::ViewBoard => Operation::ViewBoard,
            Request::GetInfo { .. } => Operation::GetInfo,
            Request::ClearRevisions { .. } => Operation::ClearRevisions,
            Request::Remove { .. } => Operation::Remove,
            Request::Archive { .. } => Operation::Archive,
            Request::Load { .. } => Operation::Load,
            Request::ListArchive => Operation::ListArchive,
            Request::RenameArchive { .. } => Operation::RenameArchive,
            Request::DeleteArchive { .. } => Operation::DeleteArchive,
            Request::Dump { .. } => Operation::Dump,
            Request::Restore { .. } => Operation::Restore,
            Request::ClearLog => Operation::ClearLog,
            Request::Reset => Operation::Reset,
            Request::Terminate => Operation::Terminate,
        }
    }

    /// The operation that the request carries.
    pub fn operation(&self) -> (r: Operation)
        ensures
            r == self.operation_of(),
    {
        match self {
            Request::Post { .. } => Operation::Post,
            Request::Read { .. } => Operation::Read,
            Request::Relabel { .. } => Operation::Relabel,
            Request::Version => Operation::Version,
            Request::Status => Operation::Status,
            Request::Log => Operation::Log,
            Request::ViewBoard => Operation::ViewBoard,
            Request::GetInfo { .. } => Operation::GetInfo,
            Request::ClearRevisions { .. } => Operation::ClearRevisions,
            Request::Remove { .. } => Operation::Remove,
            Request::Archive { .. } => Operation::Archive,
            Request::Load { .. } => Operation::Load,
            Request::ListArchive => Operation::ListArchive,
            Request::RenameArchive { .. } => Operation::RenameArchive,
            Request::DeleteArchive { .. } => Operation::DeleteArchive,
            Request::Dump { .. } => Operation::Dump,
            Request::Restore { .. } => Operation::Restore,
            Request::ClearLog => Operation::ClearLog,
            Request::Reset => Operation::Reset,
            Request::Terminate => Operation::Terminate,
        }
    }
}

} // verus!

//! The client's side of the protocol: the request that each client call
//! sends. Opening the connection and exchanging the bytes are left to the
//! caller.
use vstd::prelude::*;
use crate::protocol::Request;

verus! {

/// The address a client connects to.
pub struct ClientConfig {
    pub addr: String,
}

/// The address used when none is set.
pub const DEFAULT_ADDR: &'static str = "127.0.0.1:7578";

impl ClientConfig {
    pub fn new() -> (r: Self)
        ensures
            r.addr@ == DEFAULT_ADDR@,
    {
        ClientConfig { addr: String::from_str(DEFAULT_ADDR) }
    }

    /// Sets the server address.
    pub fn set_addr(&mut self, new_addr: &str)
        ensures
            final(self).addr@ == new_addr@,
    {
        self.addr = String::from_str(new_addr);
    }
}

/// An optional text, owned.
pub open spec fn opt_text(o: Option<&str>) -> Option<Seq<char>> {
    match o {
        Some(s) => Some(s@),
        None => None,
    }
}

pub open spec fn opt_view(o: Option<String>) -> Option<Seq<char>> {
    match o {
        Some(s) => Some(s@),
        None => None,
    }
}

fn owned(o: Option<&str>) -> (r: Option<String>)
    ensures
        opt_view(r) == opt_text(o),
{
    match o {
        Some(s) => Some(String::from_str(s)),
        None => None,
    }
}

/// Posts raw bytes under (title, tag).
pub fn post(title: &str, tag: &str, data: Vec<u8>) -> (r: Request)
    ensures
        r matches Request::Post { title: t, tag: g, data: d } && t@ == title@ && g@ == tag@ && d == data,
{
    Request::Post { title: String::from_str(title), tag: String::from_str(tag), data }
}

/// Reads revisions (the latest when none are listed); the tag may be left
/// out when the title has only one.
pub fn read(title: &str, tag: Option<&str>, revisions: Vec<u64>) -> (r: Request)
    ensures
        r matches Request::Read { title: t, tag: g, revisions: v } && t@ == title@ && opt_view(g) == opt_text(tag)
            && v == revisions,
{
    Request::Read { title: String::from_str(title), tag: owned(tag), revisions }
}

/// Relabels a bulletin.
pub fn relabel(title_from: &str, tag_from: Option<&str>, title_to: Option<&str>, tag_to: Option<&str>) -> (r: Request)
    ensures
        r matches Request::Relabel { title_from: a, tag_from: b, title_to: c, tag_to: d } && a@ == title_from@
            && opt_view(b) == opt_text(tag_from) && opt_view(c) == opt_text(title_to) && opt_view(d) == opt_text(tag_to),
{
    Request::Relabel {
        title_from: String::from_str(title_from),
        tag_from: owned(tag_from),
        title_to: owned(title_to),
        tag_to: owned(tag_to),
    }
}

/// Asks for the server's version.
pub fn version() -> (r: Request)
    ensures
        r == Request::Version,
{
    Request::Version
}

/// Asks for the server's log.
pub fn log() -> (r: Request)
    ensures
        r == Request::Log,
{
    Request::Log
}

/// Asks for the list of bulletins.
pub fn view_board() -> (r: Request)
    ensures
        r == Request::ViewBoard,
{
    Request::ViewBoard
}

/// Asks for the details of a bulletin.
pub fn get_info(title: &str, tag: Option<&str>) -> (r: Request)
    ensures
        r matches Request::GetInfo { title: t, tag: g } && t@ == title@ && opt_view(g) == opt_text(tag),
{
    Request::GetInfo { title: String::from_str(title), tag: owned(tag) }
}

/// Clears revisions of a bulletin.
pub fn clear_revisions(title: &str, tag: Option<&str>, revisions: Vec<u64>) -> (r: Request)
    ensures
        r matches Request::ClearRevisions { title: t, tag: g, revisions: v } && t@ == title@ && opt_view(g) == opt_text(tag)
            && v == revisions,
{
    Request::ClearRevisions { title: String::from_str(title), tag: owned(tag), revisions }
}

/// Removes all the revisions of a bulletin and its entry.
pub fn remove(title: &str, tag: Option<&str>) -> (r: Request)
    ensures
        r matches Request::Remove { title: t, tag: g } && t@ == title@ && opt_view(g) == opt_text(tag),
{
    Request::Remove { title: String::from_str(title), tag: owned(tag) }
}

/// Moves a bulletin to an archive.
pub fn archive(acv_name: &str, title: &str, tag: Option<&str>) -> (r: Request)
    ensures
        r matches Request::Archive { acv_name: a, title: t, tag: g } && a@ == acv_name@ && t@ == title@
            && opt_view(g) == opt_text(tag),
{
    Request::Archive { acv_name: String::from_str(acv_name), title: String::from_str(title), tag: owned(tag) }
}

/// Loads, or reloads, an archive.
pub fn load(acv_name: &str) -> (r: Request)
    ensures
        r matches Request::Load { acv_name: a } && a@ == acv_name@,
{
    Request::Load { acv_name: String::from_str(acv_name) }
}

/// Asks for the list of archives.
pub fn list_archive() -> (r: Request)
    ensures
        r == Request::ListArchive,
{
    Request::ListArchive
}

/// Renames an archive at the next reset.
pub fn rename_archive(name_from: &str, name_to: &str) -> (r: Request)
    ensures
        r matches Request::RenameArchive { name_from: a, name_to: b } && a@ == name_from@ && b@ == name_to@,
{
    Request::RenameArchive { name_from: String::from_str(name_from), name_to: String::from_str(name_to) }
}

/// Deletes an archive at the next reset.
pub fn delete_archive(acv_name: &str) -> (r: Request)
    ensures
        r matches Request::DeleteArchive { acv_name: a } && a@ == acv_name@,
{
    Request::DeleteArchive { acv_name: String::from_str(acv_name) }
}

/// Dumps every bulletin into an archive.
pub fn dump(acv_name: &str) -> (r: Request)
    ensures
        r matches Request::Dump { acv_name: a } && a@ == acv_name@,
{
    Request::Dump { acv_name: String::from_str(acv_name) }
}

/// Clears the board and restores an archive's contents as new revisions.
pub fn restore(acv_name: &str) -> (r: Request)
    ensures
        r matches Request::Restore { acv_name: a } && a@ == acv_name@,
{
    Request::Restore { acv_name: String::from_str(acv_name) }
}

/// Clears the server's log.
pub fn clear_log() -> (r: Request)
    ensures
        r == Request::ClearLog,
{
    Request::ClearLog
}

/// Resets the server's board; archives are kept.
pub fn reset_server() -> (r: Request)
    ensures
        r == Request::Reset,
{
    Request::Reset
}

/// Stops the server.
pub fn terminate_server() -> (r: Request)
    ensures
        r == Request::Terminate,
{
    Request::Terminate
}

} // verus!

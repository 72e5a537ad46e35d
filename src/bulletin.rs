//! One revision of a bulletin and the backend that holds its bytes.
use vstd::prelude::*;
use crate::text::{decimal, decimal_text, join2};

verus! {

/// Where the bytes of a revision are kept.
#[derive(Clone, Debug, PartialEq, Eq)]
pub enum BulletinBackend {
    /// A spooled file, by its path.
    File(String),
    /// The bytes themselves.
    Memory(Vec<u8>),
    /// A run of an archive's data file: the archive's name and the offset.
    Archive(String, u64),
    /// Cleared: no bytes are left.
    Empty,
}

/// One revision: its backend, its exact size in bytes, and when it was made
/// (nanoseconds since the Unix epoch).
#[derive(Clone, Debug)]
pub struct Bulletin {
    pub data: BulletinBackend,
    pub datasize: u64,
    pub timestamp: i64,
}

/// Why an operation on a backend was refused.
#[derive(Clone, Copy, Debug, PartialEq, Eq)]
pub enum BackendError {
    /// The revision was cleared and holds no bytes.
    NoBackend,
    /// Archived bytes belong to the archive and cannot be cleared or written.
    ArchiveReadOnly,
    /// The bytes are no longer in memory.
    AlreadyMoved,
}

impl BackendError {
    pub fn message(&self) -> (r: &'static str)
        ensures
            r@ == backend_error_text(*self),
    {
        match self {
            BackendError::NoBackend => "No data backend.",
            BackendError::ArchiveReadOnly => "Archived entry cannot be deleted.",
            BackendError::AlreadyMoved => "Already moved out of memory.",
        }
    }
}

pub open spec fn backend_error_text(e: BackendError) -> Seq<char> {
    match e {
        BackendError::NoBackend => "No data backend."@,
        BackendError::ArchiveReadOnly => "Archived entry cannot be deleted."@,
        BackendError::AlreadyMoved => "Already moved out of memory."@,
    }
}

/// Where the bytes of a revision are to be read from.
#[derive(Clone, Debug, PartialEq, Eq)]
pub enum Source {
    /// The bytes themselves.
    Bytes(Vec<u8>),
    /// The whole spooled file at this path, `size` bytes long.
    File { path: String, size: u64 },
    /// `size` bytes at `offset` in the archive data file at this path.
    Archive { path: String, offset: u64, size: u64 },
}

/// A payload to be written to a new spool file; `dir` is created first.
#[derive(Clone, Debug, PartialEq, Eq)]
pub struct SpoolWrite {
    pub dir: String,
    pub path: String,
    pub data: Vec<u8>,
}

/// What clearing a revision freed, for the board's counters, and the spool
/// file that is to be deleted, if any.
#[derive(Clone, Debug, PartialEq, Eq)]
pub struct Freed {
    pub datasize: u64,
    pub memory: u64,
    pub files: u64,
    pub bulletins: u64,
    pub remove_file: Option<String>,
}

/// The path of an archive's directory.
pub open spec fn archive_dir_text(acv_dir: Seq<char>, name: Seq<char>) -> Seq<char> {
    acv_dir + "/"@ + name
}

/// The path of an archive's data file.
pub open spec fn data_path_text(acv_dir: Seq<char>, name: Seq<char>) -> Seq<char> {
    archive_dir_text(acv_dir, name) + "/data.bin"@
}

/// The path of an archive's metadata file.
pub open spec fn meta_path_text(acv_dir: Seq<char>, name: Seq<char>) -> Seq<char> {
    archive_dir_text(acv_dir, name) + "/meta.bin"@
}

pub fn archive_dir(acv_dir: &str, name: &str) -> (r: String)
    ensures
        r@ == archive_dir_text(acv_dir@, name@),
{
    let mut s = join2(acv_dir, "/");
    s.append(name);
    s
}

pub fn data_path(acv_dir: &str, name: &str) -> (r: String)
    ensures
        r@ == data_path_text(acv_dir@, name@),
{
    let mut s = archive_dir(acv_dir, name);
    s.append("/data.bin");
    s
}

pub fn meta_path(acv_dir: &str, name: &str) -> (r: String)
    ensures
        r@ == meta_path_text(acv_dir@, name@),
{
    let mut s = archive_dir(acv_dir, name);
    s.append("/meta.bin");
    s
}

/// The directory of a spool file named by the identifier `id`: two levels
/// below the spool directory, by the identifier's first two pairs of characters.
pub open spec fn spool_dir_text(tmp_dir: Seq<char>, id: Seq<char>) -> Seq<char> {
    tmp_dir + "/"@ + id.subrange(0, 2) + "/"@ + id.subrange(2, 4)
}

/// The path of a spool file named by the identifier `id`.
pub open spec fn spool_path_text(tmp_dir: Seq<char>, id: Seq<char>) -> Seq<char> {
    spool_dir_text(tmp_dir, id) + "/"@ + id.subrange(4, id.len() as int)
}

/// A lowercase hexadecimal digit.
pub open spec fn lower_hex_digit(c: char) -> bool {
    ('0' <= c && c <= '9') || ('a' <= c && c <= 'f')
}

/// Relies on uuid::Uuid::new_v4 and its `Display`: a fresh random
/// identifier in the hyphenated form, which has 36 characters and begins
/// with eight lowercase hexadecimal digits.
#[verifier::external_body]
fn fresh_id() -> (r: String)
    ensures
        r@.len() == 36,
        forall|i: int| 0 <= i < 8 ==> lower_hex_digit(#[trigger] r@[i]),
{
    uuid::Uuid::new_v4().to_string()
}

/// The directory and path of a spool file named by `id`.
pub fn spool_location(tmp_dir: &str, id: &str) -> (r: (String, String))
    requires
        id@.len() >= 4,
    ensures
        r.0@ == spool_dir_text(tmp_dir@, id@),
        r.1@ == spool_path_text(tmp_dir@, id@),
{
    let mut dir = join2(tmp_dir, "/");
    dir.append(id.substring_char(0, 2));
    dir.append("/");
    dir.append(id.substring_char(2, 4));
    let mut path = dir.clone();
    path.append("/");
    let n = id.unicode_len();
    path.append(id.substring_char(4, n));
    (dir, path)
}

/// Relies on chrono's Local::now and DateTime::timestamp_nanos_opt: the
/// time now in nanoseconds since the Unix epoch, when it fits in an `i64`.
#[verifier::external_body]
fn now_nanos() -> (r: Option<i64>) {
    chrono::Local::now().timestamp_nanos_opt()
}

/// Relies on chrono's DateTime::from_timestamp_nanos, the conversion into
/// the machine's local time zone, and `Display`: the text of a time.
#[verifier::external_body]
pub(crate) fn local_time_text(nanos: i64) -> (r: String) {
    let t: chrono::DateTime<chrono::Local> = chrono::DateTime::from_timestamp_nanos(nanos).into();
    t.to_string()
}

/// The label of a backend, for introspection.
pub open spec fn backend_label(b: BulletinBackend) -> Seq<char> {
    match b {
        BulletinBackend::Memory(_) => "memory"@,
        BulletinBackend::File(path) => "file:"@ + path@,
        BulletinBackend::Archive(name, offset) => "archive:"@ + name@ + ":"@ + decimal(offset as nat),
        BulletinBackend::Empty => "deleted"@,
    }
}

impl Bulletin {
    /// The revision holds bytes of its own (in memory or in a spool file).
    pub open spec fn is_live(&self) -> bool {
        self.data is Memory || self.data is File
    }

    /// A revision is consistent when its size is that of its bytes in memory,
    /// and zero once cleared.
    pub open spec fn wf(&self) -> bool {
        &&& (self.data matches BulletinBackend::Memory(v) ==> v@.len() == self.datasize)
        &&& (self.data is Empty ==> self.datasize == 0)
    }

    pub fn from_archive(name: &str, offset: u64, datasize: u64, timestamp: i64) -> (r: Self)
        ensures
            r.data == BulletinBackend::Archive(r.data->Archive_0, offset),
            r.data->Archive_0@ == name@,
            r.datasize == datasize,
            r.timestamp == timestamp,
            r.wf(),
    {
        Bulletin {
            data: BulletinBackend::Archive(String::from_str(name), offset),
            datasize,
            timestamp,
        }
    }

    /// A new revision in memory, stamped with the time now (zero where the
    /// clock is out of the range of nanosecond timestamps).
    pub fn from_data(data: Vec<u8>) -> (r: Self)
        requires
            data@.len() <= u64::MAX,
        ensures
            r.data == BulletinBackend::Memory(data),
            r.datasize == data@.len(),
            r.wf(),
    {
        let datasize = data.len() as u64;
        let timestamp = match now_nanos() {
            Some(t) => t,
            None => 0,
        };
        Bulletin { data: BulletinBackend::Memory(data), datasize, timestamp }
    }

    /// Where the bytes are to be read from; archive data files are found
    /// under `acv_dir`. Fails for a cleared revision.
    pub fn get(&self, acv_dir: &str) -> (r: Result<Source, BackendError>)
        ensures
            match self.data {
                BulletinBackend::Memory(v) => r matches Ok(Source::Bytes(w)) && w@ == v@,
                BulletinBackend::File(p) => r == Ok::<Source, BackendError>(
                    Source::File { path: p, size: self.datasize },
                ),
                BulletinBackend::Archive(name, offset) => r matches Ok(Source::Archive { path, offset: o, size })
                    && path@ == data_path_text(acv_dir@, name@) && o == offset && size == self.datasize,
                BulletinBackend::Empty => r == Err::<Source, BackendError>(BackendError::NoBackend),
            },
    {
        match &self.data {
            BulletinBackend::Memory(v) => Ok(Source::Bytes(v.clone())),
            BulletinBackend::File(p) => Ok(Source::File { path: p.clone(), size: self.datasize }),
            BulletinBackend::Archive(name, offset) => Ok(
                Source::Archive {
                    path: data_path(acv_dir, name.as_str()),
                    offset: *offset,
                    size: self.datasize,
                },
            ),
            BulletinBackend::Empty => Err(BackendError::NoBackend),
        }
    }

    /// Discards the bytes. An archived revision cannot be cleared.
    pub fn clear(&mut self) -> (r: Result<Freed, BackendError>)
        ensures
            match old(self).data {
                BulletinBackend::Memory(_) => r == Ok::<Freed, BackendError>(
                    Freed {
                        datasize: old(self).datasize,
                        memory: old(self).datasize,
                        files: 0,
                        bulletins: 1,
                        remove_file: None,
                    },
                ),
                BulletinBackend::File(p) => r == Ok::<Freed, BackendError>(
                    Freed {
                        datasize: old(self).datasize,
                        memory: 0,
                        files: 1,
                        bulletins: 1,
                        remove_file: Some(p),
                    },
                ),
                BulletinBackend::Archive(..) => r == Err::<Freed, BackendError>(BackendError::ArchiveReadOnly),
                BulletinBackend::Empty => r == Ok::<Freed, BackendError>(
                    Freed { datasize: 0, memory: 0, files: 0, bulletins: 0, remove_file: None },
                ),
            },
            r is Ok ==> final(self).data is Empty && final(self).datasize == 0
                && final(self).timestamp == old(self).timestamp,
            r is Err ==> *final(self) == *old(self),
    {
        let size = self.datasize;
        match &self.data {
            BulletinBackend::Memory(_) => {
                self.data = BulletinBackend::Empty;
                self.datasize = 0;
                Ok(Freed { datasize: size, memory: size, files: 0, bulletins: 1, remove_file: None })
            },
            BulletinBackend::File(p) => {
                let p = p.clone();
                self.data = BulletinBackend::Empty;
                self.datasize = 0;
                Ok(Freed { datasize: size, memory: 0, files: 1, bulletins: 1, remove_file: Some(p) })
            },
            BulletinBackend::Archive(..) => Err(BackendError::ArchiveReadOnly),
            BulletinBackend::Empty => {
                self.datasize = 0;
                Ok(Freed { datasize: 0, memory: 0, files: 0, bulletins: 0, remove_file: None })
            },
        }
    }

    /// Moves the bytes out of memory into a new spool file under `tmp_dir`,
    /// named by a fresh random identifier. Gives the write to perform.
    pub fn save_to_file(&mut self, tmp_dir: &str) -> (r: Result<SpoolWrite, BackendError>)
        ensures
            match old(self).data {
                BulletinBackend::Memory(v) => r matches Ok(w) && w.data == v
                    && final(self).data == BulletinBackend::File(w.path)
                    && exists|id: Seq<char>| id.len() == 36
                        && (forall|i: int| 0 <= i < 4 ==> lower_hex_digit(#[trigger] id[i]))
                        && w.dir@ == spool_dir_text(tmp_dir@, id)
                        && w.path@ == spool_path_text(tmp_dir@, id),
                BulletinBackend::Empty => r == Err::<SpoolWrite, BackendError>(BackendError::NoBackend),
                _ => r == Err::<SpoolWrite, BackendError>(BackendError::AlreadyMoved),
            },
            final(self).datasize == old(self).datasize,
            final(self).timestamp == old(self).timestamp,
            r is Err ==> *final(self) == *old(self),
    {
        match &self.data {
            BulletinBackend::Memory(_) => {},
            BulletinBackend::Empty => { return Err(BackendError::NoBackend); },
            _ => { return Err(BackendError::AlreadyMoved); },
        }
        let id = fresh_id();
        let (dir, path) = spool_location(tmp_dir, id.as_str());
        let mut old_data = BulletinBackend::File(path.clone());
        core::mem::swap(&mut self.data, &mut old_data);
        match old_data {
            BulletinBackend::Memory(v) => Ok(SpoolWrite { dir, path, data: v }),
            _ => Err(BackendError::AlreadyMoved),
        }
    }

    /// Appends bytes to the revision. In memory they are appended here; for
    /// a spool file, the path of the file to append them to is given back.
    /// Archived and cleared revisions cannot be written.
    pub fn write(&mut self, buf: &[u8]) -> (r: Result<Option<String>, BackendError>)
        requires
            old(self).datasize + buf@.len() <= u64::MAX,
        ensures
            match old(self).data {
                BulletinBackend::Memory(v) => r == Ok::<Option<String>, BackendError>(None)
                    && (final(self).data matches BulletinBackend::Memory(w) && w@ == v@ + buf@),
                BulletinBackend::File(p) => r == Ok::<Option<String>, BackendError>(Some(p))
                    && final(self).data == old(self).data,
                BulletinBackend::Archive(..) => r == Err::<Option<String>, BackendError>(BackendError::ArchiveReadOnly),
                BulletinBackend::Empty => r == Err::<Option<String>, BackendError>(BackendError::NoBackend),
            },
            r is Ok ==> final(self).datasize == old(self).datasize + buf@.len(),
            r is Err ==> *final(self) == *old(self),
            final(self).timestamp == old(self).timestamp,
            old(self).wf() ==> final(self).wf(),
    {
        let n = buf.len();
        assert(n as u64 == n);
        match &self.data {
            BulletinBackend::Memory(_) => {},
            BulletinBackend::File(p) => {
                let p = p.clone();
                self.datasize = self.datasize + n as u64;
                return Ok(Some(p));
            },
            BulletinBackend::Archive(..) => return Err(BackendError::ArchiveReadOnly),
            BulletinBackend::Empty => return Err(BackendError::NoBackend),
        }
        let mut data = BulletinBackend::Empty;
        core::mem::swap(&mut self.data, &mut data);
        match data {
            BulletinBackend::Memory(mut v) => {
                let mut i: usize = 0;
                let ghost v0 = v@;
                while i < buf.len()
                    invariant
                        i <= buf@.len(),
                        v@ == v0 + buf@.subrange(0, i as int),
                    decreases buf@.len() - i,
                {
                    v.push(buf[i]);
                    proof {
                        assert(buf@.subrange(0, i + 1) =~= buf@.subrange(0, i as int).push(buf@[i as int]));
                    }
                    i = i + 1;
                }
                proof {
                    assert(buf@.subrange(0, i as int) =~= buf@);
                }
                self.data = BulletinBackend::Memory(v);
                self.datasize = self.datasize + n as u64;
                Ok(None)
            },
            other => {
                self.data = other;
                Err(BackendError::NoBackend)
            },
        }
    }

    /// The label of the backend: `memory`, `file:<path>`,
    /// `archive:<name>:<offset>` or `deleted`.
    pub fn backend(&self) -> (r: String)
        ensures
            r@ == backend_label(self.data),
    {
        match &self.data {
            BulletinBackend::Memory(_) => String::from_str("memory"),
            BulletinBackend::File(path) => join2("file:", path.as_str()),
            BulletinBackend::Archive(name, offset) => {
                let mut s = join2("archive:", name.as_str());
                s.append(":");
                let d = decimal_text(*offset);
                s.append(d.as_str());
                s
            },
            BulletinBackend::Empty => String::from_str("deleted"),
        }
    }
}

} // verus!

//! The session handler: what the server does for each operation of a
//! session, given the board. Reading and writing the stream, and the file
//! operations that the results ask for, are left to the caller.
use vstd::prelude::*;
use crate::board::{BulletinBoard, BoardError, Key, Status, ArchivePlan, RestorePlan, tags_of, pick, source_of};
use crate::bulletin::{Bulletin, Source, SpoolWrite, backend_label};
use crate::options::ServerConfig;
use crate::protocol::Response;

verus! {

/// The version of the server.
pub const VERSION: &'static str = "0.1.0";

/// Why an operation of a session failed.
#[derive(Clone, Debug, PartialEq, Eq)]
pub enum Failure {
    /// The tag could not be resolved; this response goes to the client.
    Replied(Response),
    /// The tag could not be resolved; nothing goes to the client.
    Unresolved(Response),
    /// The board refused the operation.
    Board(BoardError),
    /// An archive name was empty.
    EmptyName,
}

/// A change to the archives on disk, waiting for the next reset: a rename
/// when a new name is given, a deletion otherwise.
pub type ArchiveChange = (String, Option<String>);

pub struct BBServer {
    pub bulletinboard: BulletinBoard,
    pub archive_manipulations: Vec<ArchiveChange>,
}

/// The strings' texts.
pub open spec fn texts(v: Seq<String>) -> Seq<Seq<char>> {
    v.map_values(|s: String| s@)
}

/// The tag that resolution settles on: the given one, or else the only tag
/// under the title.
pub open spec fn resolved_tag(board: &BulletinBoard, title: Seq<char>, tag: Option<String>) -> Option<Seq<char>> {
    match tag {
        Some(t) => Some(t@),
        None => {
            let tags = tags_of(board.entries@, title);
            if tags.len() == 1 { Some(tags[0]) } else { None }
        },
    }
}

/// The response of a failed resolution: `NotFound` when the title has no
/// tag, `NotUnique` with its tags when it has several.
pub open spec fn resolution_failure(board: &BulletinBoard, title: Seq<char>, resp: Response) -> bool {
    let tags = tags_of(board.entries@, title);
    if tags.len() == 0 {
        resp == Response::NotFound
    } else {
        resp matches Response::NotUnique(v) && texts(v@) == tags
    }
}

/// A failure, if any, came from the board.
pub open spec fn board_failure<T>(r: Result<T, Failure>) -> bool {
    r matches Err(f) ==> f is Board
}

/// A result with the board's error in place of the failure.
pub open spec fn lift<T>(r: Result<T, Failure>) -> Result<T, BoardError> {
    match r {
        Ok(v) => Ok(v),
        Err(Failure::Board(e)) => Err(e),
        Err(_) => Err(BoardError::NotFound),
    }
}

/// A revision that can be read: it exists and is not cleared.
pub open spec fn readable(rs: Seq<Bulletin>, revision: Option<u64>) -> bool {
    pick(rs, revision) matches Some(b) && !(b.data is Empty)
}

impl BBServer {
    pub open spec fn wf(&self) -> bool {
        self.bulletinboard.wf()
    }

    pub fn new(config: &ServerConfig) -> (r: Self)
        ensures
            r.wf(),
            r.bulletinboard.entries@.len() == 0,
            r.archive_manipulations@.len() == 0,
            r.bulletinboard.tmp_dir@ == config.tmp_dir@,
            r.bulletinboard.acv_dir@ == config.acv_dir@,
            r.bulletinboard.tot_mem_limit == config.tot_mem_limit,
            r.bulletinboard.file_threshold == config.file_threshold,
    {
        BBServer { bulletinboard: BulletinBoard::new(config), archive_manipulations: Vec::new() }
    }

    /// The tag to use for an operation on `title`: `tag` when given, else
    /// the title's only tag; `NotFound` or `NotUnique` otherwise.
    pub fn get_tag(&self, title: &String, tag: Option<String>) -> (r: Result<String, Response>)
        ensures
            match resolved_tag(&self.bulletinboard, title@, tag) {
                Some(t) => r matches Ok(s) && s@ == t,
                None => r matches Err(resp) && resolution_failure(&self.bulletinboard, title@, resp),
            },
    {
        match tag {
            Some(t) => Ok(t),
            None => {
                let tags = self.bulletinboard.find_tags(title);
                proof {
                    assert(texts(tags@) == tags_of(self.bulletinboard.entries@, title@));
                }
                if tags.len() == 0 {
                    Err(Response::NotFound)
                } else if tags.len() == 1 {
                    proof {
                        assert(texts(tags@)[0] == tags@[0]@);
                    }
                    Ok(tags[0].clone())
                } else {
                    Err(Response::NotUnique(tags))
                }
            },
        }
    }

    /// Posts a payload under (title, tag).
    pub fn post(&mut self, title: String, tag: String, data: Vec<u8>) -> (r: Result<Option<SpoolWrite>, BoardError>)
        requires
            old(self).wf(),
        ensures
            final(self).wf(),
            final(self).archive_manipulations == old(self).archive_manipulations,
            old(self).bulletinboard.post_overflows(data@.len() as u64) ==> r == Err::<Option<SpoolWrite>, BoardError>(
                BoardError::Full,
            ) && final(self).bulletinboard == old(self).bulletinboard,
            !old(self).bulletinboard.post_overflows(data@.len() as u64) ==> (r matches Ok(spool)
                && exists|b: Bulletin|
                    b.data == crate::bulletin::BulletinBackend::Memory(data) && b.datasize == data@.len()
                        && #[trigger] BulletinBoard::posted(
                        &old(self).bulletinboard,
                        &final(self).bulletinboard,
                        (title@, tag@),
                        b,
                        spool,
                    )),
    {
        let n = data.len();
        assert(n as u64 == n);
        let b = Bulletin::from_data(data);
        let ghost b0 = b;
        let r = self.bulletinboard.post(title, tag, b);
        assert(r is Ok ==> BulletinBoard::posted(&old(self).bulletinboard, &self.bulletinboard, (title@, tag@), b0, r->Ok_0));
        r
    }

    /// Where to read the requested revisions from: the latest when none are
    /// listed. Fails with the response to send when the tag cannot be
    /// resolved, or with `NotFound` when the key or a listed revision does
    /// not exist or was cleared.
    pub fn read(&self, title: &String, tag: Option<String>, revisions: &Vec<u64>) -> (r: Result<Vec<Source>, Response>)
        requires
            self.wf(),
        ensures
            match resolved_tag(&self.bulletinboard, title@, tag) {
                None => r matches Err(resp) && resolution_failure(&self.bulletinboard, title@, resp),
                Some(t) => {
                    let rs = self.bulletinboard.revisions_of((title@, t));
                    if revisions@.len() == 0 {
                        if readable(rs, None) {
                            r matches Ok(v) && v@.len() == 1 && source_of(v@[0], pick(rs, None)->0, self.bulletinboard.acv_dir@)
                        } else {
                            r == Err::<Vec<Source>, Response>(Response::NotFound)
                        }
                    } else if forall|q: int| 0 <= q < revisions@.len() ==> readable(rs, Some(#[trigger] revisions@[q])) {
                        r matches Ok(v) && v@.len() == revisions@.len() && forall|q: int| 0 <= q < revisions@.len()
                            ==> source_of(#[trigger] v@[q], pick(rs, Some(revisions@[q]))->0, self.bulletinboard.acv_dir@)
                    } else {
                        r == Err::<Vec<Source>, Response>(Response::NotFound)
                    }
                },
            },
    {
        let tag = match self.get_tag(title, tag) {
            Ok(t) => t,
            Err(resp) => return Err(resp),
        };
        if revisions.len() == 0 {
            let mut out: Vec<Source> = Vec::new();
            match self.bulletinboard.read(title, &tag, None) {
                Ok(s) => {
                    out.push(s);
                    return Ok(out);
                },
                Err(_) => return Err(Response::NotFound),
            }
        }
        match self.read_listed(title, &tag, revisions) {
            Some(out) => Ok(out),
            None => Err(Response::NotFound),
        }
    }

    /// Where to read each listed revision of (title, tag) from; `None` when
    /// one of them cannot be read.
    fn read_listed(&self, title: &String, tag: &String, revisions: &Vec<u64>) -> (r: Option<Vec<Source>>)
        requires
            self.wf(),
        ensures
            ({
                let rs = self.bulletinboard.revisions_of((title@, tag@));
                if forall|q: int| 0 <= q < revisions@.len() ==> readable(rs, Some(#[trigger] revisions@[q])) {
                    r matches Some(v) && v@.len() == revisions@.len() && forall|q: int| 0 <= q < revisions@.len()
                        ==> source_of(#[trigger] v@[q], pick(rs, Some(revisions@[q]))->0, self.bulletinboard.acv_dir@)
                } else {
                    r is None
                }
            }),
    {
        let mut out: Vec<Source> = Vec::new();
        let ghost rs = self.bulletinboard.revisions_of((title@, tag@));
        let mut q: usize = 0;
        while q < revisions.len()
            invariant
                self.wf(),
                rs == self.bulletinboard.revisions_of((title@, tag@)),
                q <= revisions@.len(),
                out@.len() == q,
                forall|m: int| 0 <= m < q ==> readable(rs, Some(#[trigger] revisions@[m])),
                forall|m: int| 0 <= m < q ==> source_of(#[trigger] out@[m], pick(rs, Some(revisions@[m]))->0, self.bulletinboard.acv_dir@),
            decreases revisions@.len() - q,
        {
            match self.bulletinboard.read(title, tag, Some(revisions[q])) {
                Ok(s) => {
                    out.push(s);
                },
                Err(_) => {
                    assert(!readable(rs, Some(revisions@[q as int])));
                    return None;
                },
            }
            q = q + 1;
        }
        Some(out)
    }

    /// Relabels the revisions of (title_from, tag_from); see
    /// `BulletinBoard::relabel`. A tag that cannot be resolved is answered
    /// to the client.
    pub fn relabel(&mut self, title_from: &String, tag_from: Option<String>, title_to: Option<String>, tag_to: Option<String>) -> (r: Result<(), Failure>)
        requires
            old(self).wf(),
        ensures
            final(self).wf(),
            final(self).archive_manipulations == old(self).archive_manipulations,
            match resolved_tag(&old(self).bulletinboard, title_from@, tag_from) {
                None => r matches Err(Failure::Replied(resp)) && resolution_failure(&old(self).bulletinboard, title_from@, resp)
                    && final(self).bulletinboard == old(self).bulletinboard,
                Some(t) => board_failure(r) && BulletinBoard::relabeled_outcome(
                    &old(self).bulletinboard,
                    &final(self).bulletinboard,
                    (title_from@, t),
                    crate::board::relabel_target(title_from@, t, title_to, tag_to),
                    lift(r),
                ),
            },
    {
        let tag = match self.get_tag(title_from, tag_from) {
            Ok(t) => t,
            Err(resp) => return Err(Failure::Replied(resp)),
        };
        match self.bulletinboard.relabel(title_from, &tag, title_to, tag_to) {
            Ok(()) => Ok(()),
            Err(e) => Err(Failure::Board(e)),
        }
    }

    /// The counters.
    pub fn status(&self) -> (r: Status)
        ensures
            r == self.bulletinboard.status_of(),
    {
        self.bulletinboard.status()
    }

    /// Per-revision details of (title, tag); see `BulletinBoard::get_info`.
    /// Fails with the response to send.
    pub fn get_info(&self, title: &String, tag: Option<String>) -> (r: Result<(Vec<(u64, u64, String, String)>, bool), Response>)
        requires
            self.wf(),
        ensures
            match resolved_tag(&self.bulletinboard, title@, tag) {
                None => r matches Err(resp) && resolution_failure(&self.bulletinboard, title@, resp),
                Some(t) => if !self.bulletinboard.index().contains_key((title@, t)) {
                    r == Err::<(Vec<(u64, u64, String, String)>, bool), Response>(Response::NotFound)
                } else {
                    r matches Ok((rows, cut)) && {
                        let revs = self.bulletinboard.index()[(title@, t)];
                        &&& cut == (revs.len() > crate::board::LIST_LIMIT)
                        &&& rows@.len() == if cut { crate::board::LIST_LIMIT as nat } else { revs.len() }
                        &&& forall|i: int| 0 <= i < rows@.len() ==> {
                            let b = #[trigger] revs[i];
                            &&& rows@[i].0 == i
                            &&& rows@[i].1 == b.datasize
                            &&& rows@[i].3@ == backend_label(b.data)
                        }
                    }
                },
            },
    {
        let tag = match self.get_tag(title, tag) {
            Ok(t) => t,
            Err(resp) => return Err(resp),
        };
        match self.bulletinboard.get_info(title, &tag) {
            Some(x) => Ok(x),
            None => Err(Response::NotFound),
        }
    }

    /// Clears revisions; see `BulletinBoard::clear_revisions`. A tag that
    /// cannot be resolved is not answered.
    pub fn clear_revisions(&mut self, title: &String, tag: Option<String>, revisions: &Vec<u64>) -> (r: Result<Vec<String>, Failure>)
        requires
            old(self).wf(),
        ensures
            final(self).wf(),
            final(self).archive_manipulations == old(self).archive_manipulations,
            match resolved_tag(&old(self).bulletinboard, title@, tag) {
                None => r matches Err(Failure::Unresolved(resp)) && resolution_failure(&old(self).bulletinboard, title@, resp)
                    && final(self).bulletinboard == old(self).bulletinboard,
                Some(t) => board_failure(r) && BulletinBoard::cleared_outcome(
                    &old(self).bulletinboard,
                    &final(self).bulletinboard,
                    (title@, t),
                    revisions@,
                    lift(r),
                ),
            },
    {
        let tag = match self.get_tag(title, tag) {
            Ok(t) => t,
            Err(resp) => return Err(Failure::Unresolved(resp)),
        };
        match self.bulletinboard.clear_revisions(title, &tag, revisions) {
            Ok(files) => Ok(files),
            Err(e) => Err(Failure::Board(e)),
        }
    }

    /// Removes a key; see `BulletinBoard::remove`. A tag that cannot be
    /// resolved is not answered.
    pub fn remove(&mut self, title: &String, tag: Option<String>) -> (r: Result<Vec<String>, Failure>)
        requires
            old(self).wf(),
        ensures
            final(self).wf(),
            final(self).archive_manipulations == old(self).archive_manipulations,
            match resolved_tag(&old(self).bulletinboard, title@, tag) {
                None => r matches Err(Failure::Unresolved(resp)) && resolution_failure(&old(self).bulletinboard, title@, resp)
                    && final(self).bulletinboard == old(self).bulletinboard,
                Some(t) => board_failure(r) && BulletinBoard::removed_outcome(
                    &old(self).bulletinboard,
                    &final(self).bulletinboard,
                    (title@, t),
                    lift(r),
                ),
            },
    {
        let tag = match self.get_tag(title, tag) {
            Ok(t) => t,
            Err(resp) => return Err(Failure::Unresolved(resp)),
        };
        match self.bulletinboard.remove(title, &tag) {
            Ok(files) => Ok(files),
            Err(e) => Err(Failure::Board(e)),
        }
    }

    /// Archives a key into `acv_name`, whose data file is `data_len` bytes
    /// long; see `BulletinBoard::archive`. The name must not be empty.
    pub fn archive(&mut self, acv_name: &String, title: &String, tag: Option<String>, data_len: u64) -> (r: Result<ArchivePlan, Failure>)
        requires
            old(self).wf(),
        ensures
            final(self).wf(),
            final(self).archive_manipulations == old(self).archive_manipulations,
            acv_name@.len() == 0 ==> r == Err::<ArchivePlan, Failure>(Failure::EmptyName) && *final(self) == *old(self),
            acv_name@.len() > 0 ==> match resolved_tag(&old(self).bulletinboard, title@, tag) {
                None => r matches Err(Failure::Unresolved(resp)) && resolution_failure(&old(self).bulletinboard, title@, resp)
                    && final(self).bulletinboard == old(self).bulletinboard,
                Some(t) => board_failure(r) && BulletinBoard::archive_outcome(
                    &old(self).bulletinboard,
                    &final(self).bulletinboard,
                    acv_name@,
                    (title@, t),
                    data_len,
                    lift(r),
                ),
            },
    {
        if acv_name.unicode_len() == 0 {
            return Err(Failure::EmptyName);
        }
        let tag = match self.get_tag(title, tag) {
            Ok(t) => t,
            Err(resp) => return Err(Failure::Unresolved(resp)),
        };
        match self.bulletinboard.archive(acv_name, title, &tag, data_len) {
            Ok(plan) => Ok(plan),
            Err(e) => Err(Failure::Board(e)),
        }
    }

    /// Loads archive `acv_name` from its metadata; see `BulletinBoard::load`.
    pub fn load(&mut self, acv_name: &String, meta: &Option<Vec<u8>>) -> (r: Result<(), Failure>)
        requires
            old(self).wf(),
        ensures
            final(self).wf(),
            final(self).archive_manipulations == old(self).archive_manipulations,
            acv_name@.len() == 0 ==> r == Err::<(), Failure>(Failure::EmptyName) && *final(self) == *old(self),
            acv_name@.len() > 0 && meta is None ==> r == Err::<(), Failure>(Failure::Board(BoardError::NotFound)),
            r is Err ==> *final(self) == *old(self),
            acv_name@.len() > 0 ==> (forall|bs: Seq<crate::codec::BlockView>|
                #![trigger crate::codec::meta_bytes(bs)]
                crate::codec::meta_fits(bs) && (meta matches Some(m) && m@ == crate::codec::meta_bytes(bs))
                    && !old(self).bulletinboard.load_overflows(
                    crate::board::block_records(bs),
                    crate::board::block_bytes_total(bs),
                ) ==> r is Ok && final(self).bulletinboard.shapes() == crate::board::mount_blocks(
                    old(self).bulletinboard.shapes().remove_keys(crate::board::mounted_keys(old(self).bulletinboard.loaded@, acv_name@)),
                    acv_name@,
                    bs,
                ) && crate::board::mounted_keys(final(self).bulletinboard.loaded@, acv_name@)
                    == crate::board::mount_keys_of(acv_name@, bs)
                    && forall|n: Seq<char>| n != acv_name@ ==> #[trigger] crate::board::mounted_keys(
                    final(self).bulletinboard.loaded@,
                    n,
                ) == crate::board::mounted_keys(old(self).bulletinboard.loaded@, n)
                    && (crate::board::mounted_keys(old(self).bulletinboard.loaded@, acv_name@) == Set::<crate::board::Key>::empty()
                    ==> final(self).bulletinboard.n_archives == old(self).bulletinboard.n_archives + crate::board::block_records(bs))),
    {
        if acv_name.unicode_len() == 0 {
            return Err(Failure::EmptyName);
        }
        let bytes = match meta {
            Some(m) => m,
            None => return Err(Failure::Board(BoardError::NotFound)),
        };
        match self.bulletinboard.load(acv_name, bytes.as_slice()) {
            Ok(()) => Ok(()),
            Err(e) => Err(Failure::Board(e)),
        }
    }

    /// Queues renaming archive `name_from` to `name_to` until the next
    /// reset. Neither name may be empty.
    pub fn rename_archive(&mut self, name_from: String, name_to: String) -> (r: Result<(), Failure>)
        ensures
            final(self).bulletinboard == old(self).bulletinboard,
            name_from@.len() == 0 || name_to@.len() == 0 ==> r == Err::<(), Failure>(Failure::EmptyName)
                && final(self).archive_manipulations == old(self).archive_manipulations,
            name_from@.len() > 0 && name_to@.len() > 0 ==> r is Ok && final(self).archive_manipulations@
                == old(self).archive_manipulations@.push((name_from, Some(name_to))),
    {
        if name_from.unicode_len() == 0 || name_to.unicode_len() == 0 {
            return Err(Failure::EmptyName);
        }
        self.archive_manipulations.push((name_from, Some(name_to)));
        Ok(())
    }

    /// Queues deleting archive `acv_name` until the next reset. The name
    /// may not be empty.
    pub fn delete_archive(&mut self, acv_name: String) -> (r: Result<(), Failure>)
        ensures
            final(self).bulletinboard == old(self).bulletinboard,
            acv_name@.len() == 0 ==> r == Err::<(), Failure>(Failure::EmptyName)
                && final(self).archive_manipulations == old(self).archive_manipulations,
            acv_name@.len() > 0 ==> r is Ok && final(self).archive_manipulations@
                == old(self).archive_manipulations@.push((acv_name, None)),
    {
        if acv_name.unicode_len() == 0 {
            return Err(Failure::EmptyName);
        }
        self.archive_manipulations.push((acv_name, None));
        Ok(())
    }

    /// Archives every key into `acv_name`; see `BulletinBoard::dump`.
    pub fn dump(&mut self, acv_name: &String, data_len: u64) -> (r: Result<Vec<ArchivePlan>, Failure>)
        requires
            old(self).wf(),
        ensures
            final(self).wf(),
            final(self).archive_manipulations == old(self).archive_manipulations,
            acv_name@.len() == 0 ==> r == Err::<Vec<ArchivePlan>, Failure>(Failure::EmptyName) && *final(self) == *old(self),
            acv_name@.len() > 0 && data_len + crate::board::live_bytes_all(old(self).bulletinboard.entries@) > u64::MAX ==> r
                == Err::<Vec<ArchivePlan>, Failure>(Failure::Board(BoardError::Full)) && *final(self) == *old(self),
            acv_name@.len() > 0 && data_len + crate::board::live_bytes_all(old(self).bulletinboard.entries@) <= u64::MAX ==> (
                r matches Ok(plans) && final(self).bulletinboard.entries@.len() == 0
                && plans@.len() == old(self).bulletinboard.entries@.len()
                && forall|q: int| 0 <= q < plans@.len() ==> crate::board::plan_for(
                    #[trigger] plans@[q],
                    acv_name@,
                    old(self).bulletinboard.acv_dir@,
                    crate::board::entry_key(old(self).bulletinboard.entries@[q]),
                    old(self).bulletinboard.entries@[q].revisions@,
                    crate::board::dump_base(plans@, data_len, q),
                )),
    {
        if acv_name.unicode_len() == 0 {
            return Err(Failure::EmptyName);
        }
        match self.bulletinboard.dump(acv_name, data_len) {
            Ok(plans) => Ok(plans),
            Err(e) => Err(Failure::Board(e)),
        }
    }

    /// Replaces the board with an empty one, and hands out the queued
    /// archive changes, in the order they were asked for, to be applied now.
    pub fn reset(&mut self) -> (r: Vec<ArchiveChange>)
        requires
            old(self).wf(),
        ensures
            final(self).wf(),
            r@ == old(self).archive_manipulations@,
            final(self).archive_manipulations@.len() == 0,
            final(self).bulletinboard.entries@.len() == 0,
            final(self).bulletinboard.same_config(&old(self).bulletinboard),
    {
        self.bulletinboard.reset();
        let mut changes: Vec<ArchiveChange> = Vec::new();
        core::mem::swap(&mut changes, &mut self.archive_manipulations);
        changes
    }

    /// Resets (see `reset`), then reads what is to be restored from archive
    /// `acv_name`; see `BulletinBoard::restore_plan`.
    pub fn restore(&mut self, acv_name: &String, meta: &Option<Vec<u8>>) -> (r: (Vec<ArchiveChange>, Result<RestorePlan, Failure>))
        requires
            old(self).wf(),
        ensures
            final(self).wf(),
            r.0@ == old(self).archive_manipulations@,
            final(self).archive_manipulations@.len() == 0,
            final(self).bulletinboard.entries@.len() == 0,
            final(self).bulletinboard.same_config(&old(self).bulletinboard),
            acv_name@.len() == 0 ==> r.1 == Err::<RestorePlan, Failure>(Failure::EmptyName),
            acv_name@.len() > 0 && meta is None ==> r.1 == Err::<RestorePlan, Failure>(Failure::Board(BoardError::NotFound)),
            acv_name@.len() > 0 ==> forall|bs: Seq<crate::codec::BlockView>|
                #![trigger crate::codec::meta_bytes(bs)]
                crate::codec::meta_fits(bs) && (meta matches Some(m) && m@ == crate::codec::meta_bytes(bs)) ==> (r.1 matches Ok(p)
                    && p.items@.map_values(|i: crate::board::RestoreItem| crate::board::item_view(i)) == crate::board::restore_items(bs)),
    {
        let changes = self.reset();
        if acv_name.unicode_len() == 0 {
            return (changes, Err(Failure::EmptyName));
        }
        let bytes = match meta {
            Some(m) => m,
            None => return (changes, Err(Failure::Board(BoardError::NotFound))),
        };
        match self.bulletinboard.restore_plan(acv_name, bytes.as_slice()) {
            Ok(p) => (changes, Ok(p)),
            Err(e) => (changes, Err(Failure::Board(e))),
        }
    }

    /// Posts one restored revision; see `BulletinBoard::restore_record`.
    pub fn restore_record(&mut self, title: String, tag: String, data: Vec<u8>, timestamp: i64) -> (r: Result<Option<SpoolWrite>, BoardError>)
        requires
            old(self).wf(),
        ensures
            final(self).wf(),
            final(self).archive_manipulations == old(self).archive_manipulations,
            !old(self).bulletinboard.post_overflows(data@.len() as u64) ==> (r matches Ok(spool) && BulletinBoard::posted(
                &old(self).bulletinboard,
                &final(self).bulletinboard,
                (title@, tag@),
                Bulletin { data: crate::bulletin::BulletinBackend::Memory(data), datasize: data@.len() as u64, timestamp },
                spool,
            )),
    {
        self.bulletinboard.restore_record(title, tag, data, timestamp)
    }
}

/// The archive named by a path found under the archive directory: the path
/// is `<acv_dir>/<name>/meta.bin` with a name that is not empty.
pub open spec fn archive_name_of(path: Seq<char>, acv_dir: Seq<char>) -> Option<Seq<char>> {
    let head = acv_dir + "/"@;
    let tail = "/meta.bin"@;
    if path.len() > head.len() + tail.len() && path.subrange(0, head.len() as int) == head
        && path.subrange(path.len() - tail.len(), path.len() as int) == tail {
        Some(path.subrange(head.len() as int, path.len() - tail.len()))
    } else {
        None
    }
}

/// The archives named by a listing of paths, in order.
pub open spec fn archive_names(paths: Seq<Seq<char>>, acv_dir: Seq<char>) -> Seq<Seq<char>>
    decreases paths.len(),
{
    if paths.len() == 0 {
        Seq::empty()
    } else {
        let rest = archive_names(paths.drop_last(), acv_dir);
        match archive_name_of(paths.last(), acv_dir) {
            Some(n) => rest.push(n),
            None => rest,
        }
    }
}

fn name_in_path(path: &String, acv_dir: &String) -> (r: Option<String>)
    ensures
        match archive_name_of(path@, acv_dir@) {
            Some(n) => r matches Some(s) && s@ == n,
            None => r is None,
        },
{
    proof {
        reveal_strlit("/");
        reveal_strlit("/meta.bin");
    }
    let head = crate::text::join2(acv_dir.as_str(), "/");
    let tail = String::from_str("/meta.bin");
    let n = path.as_str().unicode_len();
    let hn = head.as_str().unicode_len();
    let tn = tail.as_str().unicode_len();
    if n <= tn || n - tn <= hn {
        return None;
    }
    let start = String::from_str(path.as_str().substring_char(0, hn));
    let end = String::from_str(path.as_str().substring_char(n - tn, n));
    if start == head && end == tail {
        Some(String::from_str(path.as_str().substring_char(hn, n - tn)))
    } else {
        None
    }
}

impl BBServer {
    /// The archives found in a listing of the files under the archive
    /// directory: those holding a metadata file.
    pub fn list_archive(&self, files: &Vec<String>) -> (r: Vec<String>)
        ensures
            texts(r@) == archive_names(texts(files@), self.bulletinboard.acv_dir@),
    {
        let mut out: Vec<String> = Vec::new();
        let mut k: usize = 0;
        while k < files.len()
            invariant
                k <= files@.len(),
                texts(out@) == archive_names(texts(files@.take(k as int)), self.bulletinboard.acv_dir@),
            decreases files@.len() - k,
        {
            let ghost before = out@;
            proof {
                assert(texts(files@.take(k + 1)).drop_last() =~= texts(files@.take(k as int)));
                assert(texts(files@.take(k + 1)).last() == files@[k as int]@);
            }
            match name_in_path(&files[k], &self.bulletinboard.acv_dir) {
                Some(name) => {
                    out.push(name);
                    proof {
                        assert(texts(out@) =~= texts(before).push(out@.last()@));
                    }
                },
                None => {},
            }
            k = k + 1;
        }
        proof {
            assert(files@.take(k as int) =~= files@);
        }
        out
    }
}

} // verus!

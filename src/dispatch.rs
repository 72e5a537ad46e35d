//! One step of a session: a request and what was read from disk for it go
//! in; the replies to send, the file operations to perform and whether the
//! server stops come out.
use vstd::prelude::*;
use crate::board::{BulletinBoard, BoardError, Status, ArchivePlan, RestorePlan, RestoreItem, pick, source_of,
    LIST_LIMIT, item_view, restore_items, relabel_target, live_bytes_all, plan_for, entry_key, dump_base,
    mount_blocks, mounted_keys, mount_keys_of, block_records, block_bytes_total};
use crate::bulletin::{Bulletin, BulletinBackend, Source, SpoolWrite, backend_label};
use crate::codec::{BlockView, meta_bytes, meta_fits};
use crate::protocol::{Request, Response};
use crate::server::{BBServer, ArchiveChange, Failure, VERSION, resolved_tag, resolution_failure, readable, lift,
    texts, archive_names};

verus! {

/// What the caller reads from disk before a step: the length of the data
/// file of the archive that the request names, the bytes of its metadata
/// file (`None` when there is none), and the paths of the files under the
/// archive directory.
pub struct Inputs {
    pub data_len: u64,
    pub meta: Option<Vec<u8>>,
    pub files: Vec<String>,
}

/// One item to send to the client.
#[derive(Clone, Debug, PartialEq, Eq)]
pub enum Reply {
    Response(Response),
    /// The bytes that the source names, as a byte string.
    Payload(Source),
    Text(String),
    Status(Status),
    Rows(Vec<(String, String, u64)>),
    Info(Vec<(u64, u64, String, String)>),
    Names(Vec<String>),
    /// The text of the log file.
    LogText,
}

/// A file operation to carry out, in order, before the replies are sent.
#[derive(Clone, Debug)]
pub enum Effect {
    Spool(SpoolWrite),
    RemoveFiles(Vec<String>),
    Archive(ArchivePlan),
    /// The board was reset: wipe the spool directory, then apply these changes.
    Reset(Vec<ArchiveChange>),
    /// Read each item's bytes from the data file and hand them to `restore_record`.
    Restore(RestorePlan),
    ClearLog,
}

/// The outcome of one operation. A failure `Replied(resp)` is answered
/// with `resp` after the replies.
pub struct Outcome {
    pub replies: Vec<Reply>,
    pub effects: Vec<Effect>,
    pub failure: Option<Failure>,
    /// A listing was cut at its limit.
    pub truncated: bool,
    /// The server is to stop after this session.
    pub stop: bool,
}

pub open spec fn archive_name_of_request(req: Request) -> Option<Seq<char>> {
    match req {
        Request::Archive { acv_name, .. } => Some(acv_name@),
        Request::Load { acv_name } => Some(acv_name@),
        Request::Dump { acv_name } => Some(acv_name@),
        Request::Restore { acv_name } => Some(acv_name@),
        _ => None,
    }
}

/// The archive whose files a request reads, if any.
pub fn archive_name(req: &Request) -> (r: Option<&String>)
    ensures
        match archive_name_of_request(*req) {
            Some(n) => r matches Some(s) && s@ == n,
            None => r is None,
        },
{
    match req {
        Request::Archive { acv_name, .. } => Some(acv_name),
        Request::Load { acv_name } => Some(acv_name),
        Request::Dump { acv_name } => Some(acv_name),
        Request::Restore { acv_name } => Some(acv_name),
        _ => None,
    }
}

/// The spool write among the effects of a post, if any.
pub open spec fn spool_of(effects: Seq<Effect>) -> Option<SpoolWrite> {
    if effects.len() == 1 && effects[0] is Spool { Some(effects[0]->Spool_0) } else { None }
}

/// `new` is `old` after posting `data` under `k` as a fresh revision.
pub open spec fn posted_payload(old: &BulletinBoard, new: &BulletinBoard, k: crate::board::Key, data: Vec<u8>, spool: Option<SpoolWrite>) -> bool {
    exists|b: Bulletin|
        b.data == BulletinBackend::Memory(data) && b.datasize == data@.len() && #[trigger] BulletinBoard::posted(old, new, k, b, spool)
}

/// The outcome of posting `data` under (title, tag).
pub open spec fn post_outcome(old: &BBServer, new: &BBServer, title: Seq<char>, tag: Seq<char>, data: Vec<u8>, r: Outcome) -> bool {
    &&& r.replies@.len() == 0
    &&& new.archive_manipulations == old.archive_manipulations
    &&& if old.bulletinboard.post_overflows(data@.len() as u64) {
        r.failure == Some(Failure::Board(BoardError::Full)) && r.effects@.len() == 0
            && new.bulletinboard == old.bulletinboard
    } else {
        &&& r.failure is None
        &&& r.effects@.len() <= 1
        &&& posted_payload(&old.bulletinboard, &new.bulletinboard, (title, tag), data, spool_of(r.effects@))
    }
}

/// The result that a failure stands for.
pub open spec fn as_result<T>(ok: T, failure: Option<Failure>) -> Result<T, Failure> {
    match failure {
        None => Ok(ok),
        Some(f) => Err(f),
    }
}

/// The spool files that the first effect removes.
pub open spec fn removed_files(effects: Seq<Effect>) -> Vec<String> {
    effects[0]->RemoveFiles_0
}

/// The archive plans of a list of effects.
pub open spec fn plans_of(effects: Seq<Effect>) -> Seq<ArchivePlan> {
    effects.map_values(|e: Effect| e->Archive_0)
}

/// The archive plan among the effects.
pub open spec fn plan_of(effects: Seq<Effect>) -> Option<ArchivePlan> {
    if effects.len() == 1 && effects[0] is Archive { Some(effects[0]->Archive_0) } else { None }
}

/// The replies to a successful read: a success and a payload per revision.
pub open spec fn read_replies(replies: Seq<Reply>, rs: Seq<Bulletin>, revisions: Seq<u64>, acv_dir: Seq<char>) -> bool {
    let n = if revisions.len() == 0 { 1 } else { revisions.len() };
    &&& replies.len() == 2 * n
    &&& forall|q: int| 0 <= q < n ==> {
        &&& replies[2 * q] == Reply::Response(Response::Success)
        &&& (#[trigger] replies[2 * q + 1]) matches Reply::Payload(s) && source_of(
            s,
            pick(rs, if revisions.len() == 0 { None } else { Some(revisions[q]) })->0,
            acv_dir,
        )
    }
}

fn outcome(replies: Vec<Reply>, effects: Vec<Effect>, failure: Option<Failure>) -> (r: Outcome)
    ensures
        r.replies == replies,
        r.effects == effects,
        r.failure == failure,
        !r.truncated,
        !r.stop,
{
    Outcome { replies, effects, failure, truncated: false, stop: false }
}

fn one<T>(x: T) -> (r: Vec<T>)
    ensures
        r@ == seq![x],
{
    let mut v: Vec<T> = Vec::new();
    v.push(x);
    v
}

impl BBServer {
    /// Carries out one operation of a session. Restore, reset and terminate
    /// reset the board and hand out the queued archive changes first;
    /// terminate also stops the server.
    #[verifier::rlimit(80)]
    pub fn step(&mut self, req: Request, inputs: &Inputs) -> (r: Outcome)
        requires
            old(self).wf(),
        ensures
            final(self).wf(),
            r.stop == (req is Terminate),
            match req {
                Request::Post { title, tag, data } => post_outcome(old(self), final(self), title@, tag@, data, r),
                Request::Read { title, tag, revisions } => {
                    &&& *final(self) == *old(self)
                    &&& r.effects@.len() == 0
                    &&& match resolved_tag(&old(self).bulletinboard, title@, tag) {
                        None => r.replies@.len() == 0 && (r.failure matches Some(Failure::Replied(resp))
                            && resolution_failure(&old(self).bulletinboard, title@, resp)),
                        Some(t) => {
                            let rs = old(self).bulletinboard.revisions_of((title@, t));
                            if (revisions@.len() == 0 && readable(rs, None)) || (revisions@.len() > 0 && forall|q: int|
                                0 <= q < revisions@.len() ==> readable(rs, Some(#[trigger] revisions@[q]))) {
                                r.failure is None && read_replies(r.replies@, rs, revisions@, old(self).bulletinboard.acv_dir@)
                            } else {
                                r.replies@.len() == 0 && r.failure == Some(Failure::Replied(Response::NotFound))
                            }
                        },
                    }
                },
                Request::Relabel { title_from, tag_from, title_to, tag_to } => {
                    &&& r.replies@.len() == 0
                    &&& r.effects@.len() == 0
                    &&& final(self).archive_manipulations == old(self).archive_manipulations
                    &&& match resolved_tag(&old(self).bulletinboard, title_from@, tag_from) {
                        None => r.failure matches Some(Failure::Replied(resp)) && resolution_failure(
                            &old(self).bulletinboard,
                            title_from@,
                            resp,
                        ) && final(self).bulletinboard == old(self).bulletinboard,
                        Some(t) => (r.failure matches Some(f) ==> f is Board) && BulletinBoard::relabeled_outcome(
                            &old(self).bulletinboard,
                            &final(self).bulletinboard,
                            (title_from@, t),
                            relabel_target(title_from@, t, title_to, tag_to),
                            lift(as_result((), r.failure)),
                        ),
                    }
                },
                Request::Version => r.replies@.len() == 1 && (r.replies@[0] matches Reply::Text(v) && v@ == VERSION@)
                    && *final(self) == *old(self) && r.effects@.len() == 0 && r.failure is None,
                Request::Status => r.replies@ == seq![Reply::Status(old(self).bulletinboard.status_of())]
                    && *final(self) == *old(self) && r.effects@.len() == 0 && r.failure is None,
                Request::Log => r.replies@ == seq![Reply::LogText] && *final(self) == *old(self)
                    && r.effects@.len() == 0 && r.failure is None,
                Request::ViewBoard => {
                    let es = old(self).bulletinboard.entries@;
                    &&& *final(self) == *old(self)
                    &&& r.effects@.len() == 0
                    &&& r.failure is None
                    &&& r.truncated == (es.len() > LIST_LIMIT)
                    &&& r.replies@.len() == 1
                    &&& r.replies@[0] matches Reply::Rows(rows) && rows@.len() == (if r.truncated { LIST_LIMIT as nat } else { es.len() })
                        && forall|i: int| 0 <= i < rows@.len() ==> {
                            let e = #[trigger] es[i];
                            &&& rows@[i].0@ == e.title@
                            &&& rows@[i].1@ == e.tag@
                            &&& rows@[i].2 == e.revisions@.len()
                        }
                },
                Request::GetInfo { title, tag } => {
                    &&& *final(self) == *old(self)
                    &&& r.effects@.len() == 0
                    &&& match resolved_tag(&old(self).bulletinboard, title@, tag) {
                        None => r.replies@.len() == 0 && (r.failure matches Some(Failure::Replied(resp))
                            && resolution_failure(&old(self).bulletinboard, title@, resp)),
                        Some(t) => if !old(self).bulletinboard.index().contains_key((title@, t)) {
                            r.replies@.len() == 0 && r.failure == Some(Failure::Replied(Response::NotFound))
                        } else {
                            let revs = old(self).bulletinboard.index()[(title@, t)];
                            &&& r.failure is None
                            &&& r.replies@.len() == 2
                            &&& r.replies@[0] == Reply::Response(Response::Success)
                            &&& r.truncated == (revs.len() > LIST_LIMIT)
                            &&& r.replies@[1] matches Reply::Info(rows) && rows@.len() == (if r.truncated { LIST_LIMIT as nat } else { revs.len() })
                                && forall|i: int| 0 <= i < rows@.len() ==> {
                                    let b = #[trigger] revs[i];
                                    &&& rows@[i].0 == i
                                    &&& rows@[i].1 == b.datasize
                                    &&& rows@[i].3@ == backend_label(b.data)
                                }
                        },
                    }
                },
                Request::ClearRevisions { title, tag, revisions } => {
                    &&& r.replies@.len() == 0
                    &&& final(self).archive_manipulations == old(self).archive_manipulations
                    &&& match resolved_tag(&old(self).bulletinboard, title@, tag) {
                        None => r.failure matches Some(Failure::Unresolved(resp)) && resolution_failure(
                            &old(self).bulletinboard,
                            title@,
                            resp,
                        ) && final(self).bulletinboard == old(self).bulletinboard && r.effects@.len() == 0,
                        Some(t) => (r.failure matches Some(f) ==> f is Board && r.effects@.len() == 0)
                            && (r.failure is None ==> r.effects@.len() == 1 && r.effects@[0] is RemoveFiles)
                            && BulletinBoard::cleared_outcome(
                            &old(self).bulletinboard,
                            &final(self).bulletinboard,
                            (title@, t),
                            revisions@,
                            lift(as_result(removed_files(r.effects@), r.failure)),
                        ),
                    }
                },
                Request::Remove { title, tag } => {
                    &&& r.replies@.len() == 0
                    &&& final(self).archive_manipulations == old(self).archive_manipulations
                    &&& match resolved_tag(&old(self).bulletinboard, title@, tag) {
                        None => r.failure matches Some(Failure::Unresolved(resp)) && resolution_failure(
                            &old(self).bulletinboard,
                            title@,
                            resp,
                        ) && final(self).bulletinboard == old(self).bulletinboard && r.effects@.len() == 0,
                        Some(t) => (r.failure matches Some(f) ==> f is Board && r.effects@.len() == 0)
                            && (r.failure is None ==> r.effects@.len() == 1 && r.effects@[0] is RemoveFiles)
                            && BulletinBoard::removed_outcome(
                            &old(self).bulletinboard,
                            &final(self).bulletinboard,
                            (title@, t),
                            lift(as_result(removed_files(r.effects@), r.failure)),
                        ),
                    }
                },
                Request::Archive { acv_name, title, tag } => {
                    &&& r.replies@.len() == 0
                    &&& final(self).archive_manipulations == old(self).archive_manipulations
                    &&& if acv_name@.len() == 0 {
                        r.failure == Some(Failure::EmptyName) && *final(self) == *old(self) && r.effects@.len() == 0
                    } else {
                        match resolved_tag(&old(self).bulletinboard, title@, tag) {
                            None => r.failure matches Some(Failure::Unresolved(resp)) && resolution_failure(
                                &old(self).bulletinboard,
                                title@,
                                resp,
                            ) && final(self).bulletinboard == old(self).bulletinboard && r.effects@.len() == 0,
                            Some(t) => (r.failure matches Some(f) ==> f is Board && r.effects@.len() == 0)
                                && (r.failure is None ==> plan_of(r.effects@) is Some) && BulletinBoard::archive_outcome(
                                &old(self).bulletinboard,
                                &final(self).bulletinboard,
                                acv_name@,
                                (title@, t),
                                inputs.data_len,
                                lift(as_result(plan_of(r.effects@)->0, r.failure)),
                            ),
                        }
                    }
                },
                Request::Load { acv_name } => {
                    &&& r.replies@.len() == 0
                    &&& r.effects@.len() == 0
                    &&& final(self).archive_manipulations == old(self).archive_manipulations
                    &&& (acv_name@.len() == 0 ==> r.failure == Some(Failure::EmptyName))
                    &&& (acv_name@.len() > 0 && inputs.meta is None ==> r.failure == Some(Failure::Board(BoardError::NotFound)))
                    &&& (r.failure is Some ==> *final(self) == *old(self))
                    &&& (acv_name@.len() > 0 ==> forall|bs: Seq<BlockView>|
                        #![trigger meta_bytes(bs)]
                        meta_fits(bs) && (inputs.meta matches Some(m) && m@ == meta_bytes(bs))
                            && !old(self).bulletinboard.load_overflows(
                            block_records(bs),
                            block_bytes_total(bs),
                        ) ==> r.failure is None && final(self).bulletinboard.shapes() == mount_blocks(
                            old(self).bulletinboard.shapes().remove_keys(mounted_keys(old(self).bulletinboard.loaded@, acv_name@)),
                            acv_name@,
                            bs,
                        ) && mounted_keys(final(self).bulletinboard.loaded@, acv_name@) == mount_keys_of(acv_name@, bs)
                            && forall|n: Seq<char>| n != acv_name@ ==> #[trigger] mounted_keys(final(self).bulletinboard.loaded@, n)
                            == mounted_keys(old(self).bulletinboard.loaded@, n)
                            && (mounted_keys(old(self).bulletinboard.loaded@, acv_name@) == Set::<crate::board::Key>::empty()
                            ==> final(self).bulletinboard.n_archives == old(self).bulletinboard.n_archives + block_records(bs)))
                },
                Request::ListArchive => r.replies@.len() == 1 && (r.replies@[0] matches Reply::Names(n)
                    && texts(n@) == archive_names(texts(inputs.files@), old(self).bulletinboard.acv_dir@))
                    && *final(self) == *old(self) && r.effects@.len() == 0 && r.failure is None,
                Request::RenameArchive { name_from, name_to } => {
                    &&& r.replies@.len() == 0
                    &&& r.effects@.len() == 0
                    &&& final(self).bulletinboard == old(self).bulletinboard
                    &&& if name_from@.len() == 0 || name_to@.len() == 0 {
                        r.failure == Some(Failure::EmptyName) && final(self).archive_manipulations == old(self).archive_manipulations
                    } else {
                        r.failure is None && final(self).archive_manipulations@ == old(self).archive_manipulations@.push(
                            (name_from, Some(name_to)),
                        )
                    }
                },
                Request::DeleteArchive { acv_name } => {
                    &&& r.replies@.len() == 0
                    &&& r.effects@.len() == 0
                    &&& final(self).bulletinboard == old(self).bulletinboard
                    &&& if acv_name@.len() == 0 {
                        r.failure == Some(Failure::EmptyName) && final(self).archive_manipulations == old(self).archive_manipulations
                    } else {
                        r.failure is None && final(self).archive_manipulations@ == old(self).archive_manipulations@.push((acv_name, None))
                    }
                },
                Request::Dump { acv_name } => {
                    let es = old(self).bulletinboard.entries@;
                    &&& r.replies@.len() == 0
                    &&& final(self).archive_manipulations == old(self).archive_manipulations
                    &&& if acv_name@.len() == 0 {
                        r.failure == Some(Failure::EmptyName) && *final(self) == *old(self) && r.effects@.len() == 0
                    } else if inputs.data_len + live_bytes_all(es) > u64::MAX {
                        r.failure == Some(Failure::Board(BoardError::Full)) && *final(self) == *old(self) && r.effects@.len() == 0
                    } else {
                        &&& r.failure is None
                        &&& final(self).bulletinboard.entries@.len() == 0
                        &&& r.effects@.len() == es.len()
                        &&& forall|q: int| 0 <= q < es.len() ==> (#[trigger] r.effects@[q]) is Archive
                        &&& forall|q: int| 0 <= q < es.len() ==> plan_for(
                            #[trigger] plans_of(r.effects@)[q],
                            acv_name@,
                            old(self).bulletinboard.acv_dir@,
                            entry_key(es[q]),
                            es[q].revisions@,
                            dump_base(plans_of(r.effects@), inputs.data_len, q),
                        )
                    }
                },
                Request::Restore { acv_name } => {
                    &&& r.replies@.len() == 0
                    &&& final(self).archive_manipulations@.len() == 0
                    &&& final(self).bulletinboard.entries@.len() == 0
                    &&& r.effects@.len() >= 1
                    &&& r.effects@[0] matches Effect::Reset(changes) && changes@ == old(self).archive_manipulations@
                    &&& (acv_name@.len() == 0 ==> r.failure == Some(Failure::EmptyName) && r.effects@.len() == 1)
                    &&& (acv_name@.len() > 0 && inputs.meta is None ==> r.failure == Some(Failure::Board(BoardError::NotFound))
                        && r.effects@.len() == 1)
                    &&& (acv_name@.len() > 0 ==> forall|bs: Seq<BlockView>|
                        #![trigger meta_bytes(bs)]
                        meta_fits(bs) && (inputs.meta matches Some(m) && m@ == meta_bytes(bs)) ==> r.failure is None && r.effects@.len() == 2
                            && (r.effects@[1] matches Effect::Restore(p) && p.items@.map_values(|i: RestoreItem| item_view(i))
                                == restore_items(bs)))
                },
                Request::ClearLog => r.replies@.len() == 0 && r.effects@ == seq![Effect::ClearLog] && *final(self) == *old(self)
                    && r.failure is None,
                Request::Reset => {
                    &&& r.replies@.len() == 0
                    &&& r.failure is None
                    &&& final(self).archive_manipulations@.len() == 0
                    &&& final(self).bulletinboard.entries@.len() == 0
                    &&& r.effects@.len() == 1
                    &&& r.effects@[0] matches Effect::Reset(changes) && changes@ == old(self).archive_manipulations@
                },
                Request::Terminate => {
                    &&& r.replies@.len() == 0
                    &&& r.failure is None
                    &&& final(self).archive_manipulations@.len() == 0
                    &&& final(self).bulletinboard.entries@.len() == 0
                    &&& r.effects@.len() == 1
                    &&& r.effects@[0] matches Effect::Reset(changes) && changes@ == old(self).archive_manipulations@
                },
            },
    {
        match req {
            Request::Post { title, tag, data } => {
                let ghost before = self.bulletinboard;
                let ghost k = (title@, tag@);
                let ghost d = data;
                let res = self.post(title, tag, data);
                let o = match res {
                    Ok(Some(w)) => outcome(Vec::new(), one(Effect::Spool(w)), None),
                    Ok(None) => outcome(Vec::new(), Vec::new(), None),
                    Err(e) => outcome(Vec::new(), Vec::new(), Some(Failure::Board(e))),
                };
                proof {
                    if res is Ok {
                        let b = choose|b: Bulletin|
                            b.data == BulletinBackend::Memory(d) && b.datasize == d@.len()
                                && #[trigger] BulletinBoard::posted(&before, &self.bulletinboard, k, b, res->Ok_0);
                        assert(spool_of(o.effects@) == res->Ok_0);
                        assert(BulletinBoard::posted(&before, &self.bulletinboard, k, b, spool_of(o.effects@)));
                    }
                }
                o
            },
            Request::Read { title, tag, revisions } => {
                match self.read(&title, tag, &revisions) {
                    Ok(sources) => {
                        let mut replies: Vec<Reply> = Vec::new();
                        let mut q: usize = 0;
                        let ghost src = sources@;
                        let n = sources.len();
                        let mut sources = sources;
                        while q < n
                            invariant
                                n == src.len(),
                                q <= src.len(),
                                sources@ == src.skip(q as int),
                                replies@.len() == 2 * q,
                                forall|m: int| 0 <= m < q ==> {
                                    &&& replies@[2 * m] == Reply::Response(Response::Success)
                                    &&& #[trigger] replies@[2 * m + 1] == Reply::Payload(src[m])
                                },
                            decreases src.len() - q,
                        {
                            let s = sources.remove(0);
                            assert(s == src[q as int]);
                            assert(sources@ =~= src.skip(q + 1));
                            replies.push(Reply::Response(Response::Success));
                            replies.push(Reply::Payload(s));
                            q = q + 1;
                        }
                        outcome(replies, Vec::new(), None)
                    },
                    Err(resp) => outcome(Vec::new(), Vec::new(), Some(Failure::Replied(resp))),
                }
            },
            Request::Relabel { title_from, tag_from, title_to, tag_to } => {
                match self.relabel(&title_from, tag_from, title_to, tag_to) {
                    Ok(()) => outcome(Vec::new(), Vec::new(), None),
                    Err(f) => outcome(Vec::new(), Vec::new(), Some(f)),
                }
            },
            Request::Version => outcome(one(Reply::Text(String::from_str(VERSION))), Vec::new(), None),
            Request::Status => outcome(one(Reply::Status(self.status())), Vec::new(), None),
            Request::Log => outcome(one(Reply::LogText), Vec::new(), None),
            Request::ViewBoard => {
                let (rows, cut) = self.bulletinboard.view();
                let mut o = outcome(one(Reply::Rows(rows)), Vec::new(), None);
                o.truncated = cut;
                o
            },
            Request::GetInfo { title, tag } => {
                match self.get_info(&title, tag) {
                    Ok((rows, cut)) => {
                        let mut replies = one(Reply::Response(Response::Success));
                        replies.push(Reply::Info(rows));
                        let mut o = outcome(replies, Vec::new(), None);
                        o.truncated = cut;
                        o
                    },
                    Err(resp) => outcome(Vec::new(), Vec::new(), Some(Failure::Replied(resp))),
                }
            },
            Request::ClearRevisions { title, tag, revisions } => {
                match self.clear_revisions(&title, tag, &revisions) {
                    Ok(files) => outcome(Vec::new(), one(Effect::RemoveFiles(files)), None),
                    Err(f) => outcome(Vec::new(), Vec::new(), Some(f)),
                }
            },
            Request::Remove { title, tag } => {
                match self.remove(&title, tag) {
                    Ok(files) => outcome(Vec::new(), one(Effect::RemoveFiles(files)), None),
                    Err(f) => outcome(Vec::new(), Vec::new(), Some(f)),
                }
            },
            Request::Archive { acv_name, title, tag } => {
                match self.archive(&acv_name, &title, tag, inputs.data_len) {
                    Ok(plan) => outcome(Vec::new(), one(Effect::Archive(plan)), None),
                    Err(f) => outcome(Vec::new(), Vec::new(), Some(f)),
                }
            },
            Request::Load { acv_name } => {
                match self.load(&acv_name, &inputs.meta) {
                    Ok(()) => outcome(Vec::new(), Vec::new(), None),
                    Err(f) => outcome(Vec::new(), Vec::new(), Some(f)),
                }
            },
            Request::ListArchive => outcome(one(Reply::Names(self.list_archive(&inputs.files))), Vec::new(), None),
            Request::RenameArchive { name_from, name_to } => {
                match self.rename_archive(name_from, name_to) {
                    Ok(()) => outcome(Vec::new(), Vec::new(), None),
                    Err(f) => outcome(Vec::new(), Vec::new(), Some(f)),
                }
            },
            Request::DeleteArchive { acv_name } => {
                match self.delete_archive(acv_name) {
                    Ok(()) => outcome(Vec::new(), Vec::new(), None),
                    Err(f) => outcome(Vec::new(), Vec::new(), Some(f)),
                }
            },
            Request::Dump { acv_name } => {
                match self.dump(&acv_name, inputs.data_len) {
                    Ok(plans) => {
                        let ghost ps = plans@;
                        let mut effects: Vec<Effect> = Vec::new();
                        let n = plans.len();
                        let mut plans = plans;
                        let mut q: usize = 0;
                        while q < n
                            invariant
                                n == ps.len(),
                                q <= ps.len(),
                                plans@ == ps.skip(q as int),
                                effects@.len() == q,
                                forall|m: int| 0 <= m < q ==> #[trigger] effects@[m] == Effect::Archive(ps[m]),
                            decreases ps.len() - q,
                        {
                            let p = plans.remove(0);
                            assert(p == ps[q as int]);
                            assert(plans@ =~= ps.skip(q + 1));
                            effects.push(Effect::Archive(p));
                            q = q + 1;
                        }
                        proof {
                            assert(plans_of(effects@) =~= ps);
                        }
                        outcome(Vec::new(), effects, None)
                    },
                    Err(f) => outcome(Vec::new(), Vec::new(), Some(f)),
                }
            },
            Request::Restore { acv_name } => {
                let (changes, plan) = self.restore(&acv_name, &inputs.meta);
                let mut effects = one(Effect::Reset(changes));
                match plan {
                    Ok(p) => {
                        effects.push(Effect::Restore(p));
                        outcome(Vec::new(), effects, None)
                    },
                    Err(f) => outcome(Vec::new(), effects, Some(f)),
                }
            },
            Request::ClearLog => outcome(Vec::new(), one(Effect::ClearLog), None),
            Request::Reset => {
                let changes = self.reset();
                outcome(Vec::new(), one(Effect::Reset(changes)), None)
            },
            Request::Terminate => {
                let changes = self.reset();
                let mut o = outcome(Vec::new(), one(Effect::Reset(changes)), None);
                o.stop = true;
                o
            },
        }
    }
}

} // verus!

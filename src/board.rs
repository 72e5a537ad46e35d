//! The board: the index from (title, tag) to revision lists, the tiering
//! between memory and spool files, and the accounting counters.
//!
//! The counters always equal what the board holds: `datasize` is the size of
//! every revision on it that is not cleared (archived ones that are loaded
//! included), `memory_used` the size of those in memory, `n_bulletins` their
//! number, `n_files` the number in spool files and `n_archives` the number
//! read from archives.
use vstd::prelude::*;
use crate::bulletin::{Bulletin, BulletinBackend, Source, SpoolWrite, Freed, BackendError, local_time_text};
use crate::options::ServerConfig;
use crate::codec::{ArchiveRecord, ArchiveBlock, BlockView, block_bytes, encode_block, blocks_view, meta_bytes, meta_fits, parse_meta};

verus! {

/// The revisions kept under one key, oldest first.
pub struct Entry {
    pub title: String,
    pub tag: String,
    pub revisions: Vec<Bulletin>,
}

/// The keys that were mounted from one archive by the last load of it.
pub struct Mount {
    pub name: String,
    pub keys: Vec<(String, String)>,
}

/// Why a board operation failed.
#[derive(Clone, Copy, Debug, PartialEq, Eq)]
pub enum BoardError {
    /// The key, or one of the revisions asked for, does not exist.
    NotFound,
    /// An archived revision cannot be cleared.
    Archived,
    /// A counter or an offset would leave the range of `u64`.
    Full,
    /// The archive metadata could not be read.
    Corrupt,
}

pub struct BulletinBoard {
    pub datasize: u64,
    pub memory_used: u64,
    pub n_bulletins: u64,
    pub n_files: u64,
    pub n_archives: u64,
    pub entries: Vec<Entry>,
    pub loaded: Vec<Mount>,
    pub tot_mem_limit: u64,
    pub file_threshold: u64,
    pub tmp_dir: String,
    pub acv_dir: String,
}

/// A key: a title and a tag.
pub type Key = (Seq<char>, Seq<char>);

pub open spec fn entry_key(e: Entry) -> Key {
    (e.title@, e.tag@)
}

/// The index as a map from keys to revision lists.
pub open spec fn index_map(es: Seq<Entry>) -> Map<Key, Seq<Bulletin>>
    decreases es.len(),
{
    if es.len() == 0 {
        Map::empty()
    } else {
        index_map(es.drop_last()).insert(entry_key(es.last()), es.last().revisions@)
    }
}

pub open spec fn keys_unique(es: Seq<Entry>) -> bool {
    forall|i: int, j: int| 0 <= i < j < es.len() ==> entry_key(es[i]) != entry_key(es[j])
}

/// Which counter a sum is about.
pub enum Counter {
    Size,
    Memory,
    Live,
    Files,
    Archived,
}

/// What one revision adds to a counter.
pub open spec fn stat(b: Bulletin, c: Counter) -> nat {
    match c {
        Counter::Size => b.datasize as nat,
        Counter::Memory => if b.data is Memory { b.datasize as nat } else { 0 },
        Counter::Live => if b.data is Empty { 0 } else { 1 },
        Counter::Files => if b.data is File { 1 } else { 0 },
        Counter::Archived => if b.data is Archive { 1 } else { 0 },
    }
}

pub open spec fn rev_sum(rs: Seq<Bulletin>, c: Counter) -> nat
    decreases rs.len(),
{
    if rs.len() == 0 {
        0
    } else {
        rev_sum(rs.drop_last(), c) + stat(rs.last(), c)
    }
}

pub open spec fn entry_sum(es: Seq<Entry>, c: Counter) -> nat
    decreases es.len(),
{
    if es.len() == 0 {
        0
    } else {
        entry_sum(es.drop_last(), c) + rev_sum(es.last().revisions@, c)
    }
}

/// The revision that a read of `revision` (the latest when `None`) picks
/// from a revision list.
pub open spec fn pick(rs: Seq<Bulletin>, revision: Option<u64>) -> Option<Bulletin> {
    match revision {
        None => if rs.len() > 0 { Some(rs.last()) } else { None },
        Some(i) => if i < rs.len() { Some(rs[i as int]) } else { None },
    }
}

/// `s` is where the bytes of `b` are read from (see `Bulletin::get`).
pub open spec fn source_of(s: Source, b: Bulletin, acv_dir: Seq<char>) -> bool {
    match b.data {
        BulletinBackend::Memory(v) => s matches Source::Bytes(w) && w@ == v@,
        BulletinBackend::File(p) => s == Source::File { path: p, size: b.datasize },
        BulletinBackend::Archive(name, offset) => s matches Source::Archive { path, offset: o, size }
            && path@ == crate::bulletin::data_path_text(acv_dir, name@) && o == offset && size == b.datasize,
        BulletinBackend::Empty => false,
    }
}

/// The tags registered under a title, in the board's order.
pub open spec fn tags_of(es: Seq<Entry>, title: Seq<char>) -> Seq<Seq<char>>
    decreases es.len(),
{
    if es.len() == 0 {
        Seq::empty()
    } else if es.last().title@ == title {
        tags_of(es.drop_last(), title).push(es.last().tag@)
    } else {
        tags_of(es.drop_last(), title)
    }
}

impl BulletinBoard {
    pub open spec fn index(&self) -> Map<Key, Seq<Bulletin>> {
        index_map(self.entries@)
    }

    /// The keys in the board's order.
    pub open spec fn keys(&self) -> Seq<Key> {
        self.entries@.map_values(|e: Entry| entry_key(e))
    }

    /// The revisions under a key; none where the key is absent.
    pub open spec fn revisions_of(&self, k: Key) -> Seq<Bulletin> {
        if self.index().contains_key(k) {
            self.index()[k]
        } else {
            Seq::empty()
        }
    }

    pub open spec fn wf(&self) -> bool {
        &&& keys_unique(self.entries@)
        &&& forall|i: int, j: int|
            0 <= i < self.entries@.len() && 0 <= j < self.entries@[i].revisions@.len()
                ==> #[trigger] self.entries@[i].revisions@[j].wf()
        &&& self.datasize == entry_sum(self.entries@, Counter::Size)
        &&& self.memory_used == entry_sum(self.entries@, Counter::Memory)
        &&& self.n_bulletins == entry_sum(self.entries@, Counter::Live)
        &&& self.n_files == entry_sum(self.entries@, Counter::Files)
        &&& self.n_archives == entry_sum(self.entries@, Counter::Archived)
    }

    /// Same limits and directories.
    pub open spec fn same_config(&self, o: &BulletinBoard) -> bool {
        &&& self.tot_mem_limit == o.tot_mem_limit
        &&& self.file_threshold == o.file_threshold
        &&& self.tmp_dir@ == o.tmp_dir@
        &&& self.acv_dir@ == o.acv_dir@
    }

    /// A payload of `size` bytes stays in memory: it is under the file
    /// threshold and fits under the memory limit.
    pub open spec fn stays_in_memory(&self, size: u64) -> bool {
        size < self.file_threshold && self.memory_used + size < self.tot_mem_limit
    }

    /// A post of `size` bytes would take a counter out of the range of `u64`.
    pub open spec fn post_overflows(&self, size: u64) -> bool {
        ||| self.datasize + size > u64::MAX
        ||| self.n_bulletins == u64::MAX
        ||| (!self.stays_in_memory(size) && self.n_files == u64::MAX)
    }

    /// The revision that a post of `b` stores, given the spool write it made.
    pub open spec fn stored(b: Bulletin, spool: Option<SpoolWrite>) -> Bulletin {
        match spool {
            None => b,
            Some(w) => Bulletin { data: BulletinBackend::File(w.path), ..b },
        }
    }

    /// `new` is `old` after posting `b` under `k`, with the spool write `spool`.
    pub open spec fn posted(old: &BulletinBoard, new: &BulletinBoard, k: Key, b: Bulletin, spool: Option<SpoolWrite>) -> bool {
        let s = BulletinBoard::stored(b, spool);
        &&& (spool is None <==> old.stays_in_memory(b.datasize))
        &&& (spool matches Some(w) ==> b.data == BulletinBackend::Memory(w.data))
        &&& new.index() == old.index().insert(k, old.revisions_of(k).push(s))
        &&& new.keys() == (if old.index().contains_key(k) { old.keys() } else { old.keys().push(k) })
        &&& new.datasize == old.datasize + b.datasize
        &&& new.n_bulletins == old.n_bulletins + 1
        &&& new.memory_used == old.memory_used + (if spool is None { b.datasize } else { 0 })
        &&& new.n_files == old.n_files + (if spool is None { 0nat } else { 1nat })
        &&& new.n_archives == old.n_archives
        &&& new.same_config(old)
        &&& new.loaded@ == old.loaded@
    }
}

// Lemmas on the index and the sums.

proof fn lemma_sum_push(rs: Seq<Bulletin>, b: Bulletin, c: Counter)
    ensures
        rev_sum(rs.push(b), c) == rev_sum(rs, c) + stat(b, c),
{
    assert(rs.push(b).drop_last() =~= rs);
}

proof fn lemma_entry_sum_update(es: Seq<Entry>, i: int, e: Entry, c: Counter)
    requires
        0 <= i < es.len(),
    ensures
        entry_sum(es.update(i, e), c) + rev_sum(es[i].revisions@, c) == entry_sum(es, c) + rev_sum(e.revisions@, c),
    decreases es.len(),
{
    if i == es.len() - 1 {
        assert(es.update(i, e).drop_last() =~= es.drop_last());
    } else {
        lemma_entry_sum_update(es.drop_last(), i, e, c);
        assert(es.update(i, e).drop_last() =~= es.drop_last().update(i, e));
    }
}

proof fn lemma_entry_sum_remove(es: Seq<Entry>, i: int, c: Counter)
    requires
        0 <= i < es.len(),
    ensures
        entry_sum(es.remove(i), c) + rev_sum(es[i].revisions@, c) == entry_sum(es, c),
    decreases es.len(),
{
    if i == es.len() - 1 {
        assert(es.remove(i) =~= es.drop_last());
    } else {
        lemma_entry_sum_remove(es.drop_last(), i, c);
        assert(es.remove(i).drop_last() =~= es.drop_last().remove(i));
    }
}

proof fn lemma_entry_sum_push(es: Seq<Entry>, e: Entry, c: Counter)
    ensures
        entry_sum(es.push(e), c) == entry_sum(es, c) + rev_sum(e.revisions@, c),
{
    assert(es.push(e).drop_last() =~= es);
}

proof fn lemma_index_has(es: Seq<Entry>, i: int)
    requires
        keys_unique(es),
        0 <= i < es.len(),
    ensures
        index_map(es).contains_key(entry_key(es[i])),
        index_map(es)[entry_key(es[i])] == es[i].revisions@,
    decreases es.len(),
{
    if i < es.len() - 1 {
        lemma_index_has(es.drop_last(), i);
    }
}

proof fn lemma_index_lacks(es: Seq<Entry>, k: Key)
    requires
        forall|i: int| 0 <= i < es.len() ==> entry_key(#[trigger] es[i]) != k,
    ensures
        !index_map(es).contains_key(k),
    decreases es.len(),
{
    if es.len() > 0 {
        lemma_index_lacks(es.drop_last(), k);
    }
}

proof fn lemma_index_update(es: Seq<Entry>, i: int, e: Entry)
    requires
        keys_unique(es),
        0 <= i < es.len(),
        entry_key(e) == entry_key(es[i]),
    ensures
        index_map(es.update(i, e)) == index_map(es).insert(entry_key(e), e.revisions@),
        keys_unique(es.update(i, e)),
    decreases es.len(),
{
    let es2 = es.update(i, e);
    if i == es.len() - 1 {
        assert(es2.drop_last() =~= es.drop_last());
        assert(index_map(es2) =~= index_map(es).insert(entry_key(e), e.revisions@));
    } else {
        lemma_index_update(es.drop_last(), i, e);
        assert(es2.drop_last() =~= es.drop_last().update(i, e));
        assert(index_map(es2) =~= index_map(es).insert(entry_key(e), e.revisions@));
    }
}

proof fn lemma_index_remove(es: Seq<Entry>, i: int)
    requires
        keys_unique(es),
        0 <= i < es.len(),
    ensures
        index_map(es.remove(i)) == index_map(es).remove(entry_key(es[i])),
        keys_unique(es.remove(i)),
    decreases es.len(),
{
    let es2 = es.remove(i);
    if i == es.len() - 1 {
        assert(es2 =~= es.drop_last());
        lemma_index_lacks(es.drop_last(), entry_key(es[i]));
        assert(index_map(es2) =~= index_map(es).remove(entry_key(es[i])));
    } else {
        lemma_index_remove(es.drop_last(), i);
        assert(es2.drop_last() =~= es.drop_last().remove(i));
        assert(index_map(es2) =~= index_map(es).remove(entry_key(es[i])));
    }
}

proof fn lemma_index_push(es: Seq<Entry>, e: Entry)
    requires
        keys_unique(es),
        !index_map(es).contains_key(entry_key(e)),
    ensures
        index_map(es.push(e)) == index_map(es).insert(entry_key(e), e.revisions@),
        keys_unique(es.push(e)),
{
    assert(es.push(e).drop_last() =~= es);
    assert forall|i: int| 0 <= i < es.len() implies entry_key(es[i]) != entry_key(e) by {
        lemma_index_has(es, i);
    }
}

impl BulletinBoard {
    /// An empty board with the configuration's limits and directories.
    pub fn new(config: &ServerConfig) -> (r: Self)
        ensures
            r.wf(),
            r.index() == Map::<Key, Seq<Bulletin>>::empty(),
            r.entries@.len() == 0,
            r.loaded@.len() == 0,
            r.datasize == 0 && r.memory_used == 0 && r.n_bulletins == 0 && r.n_files == 0 && r.n_archives == 0,
            r.tot_mem_limit == config.tot_mem_limit,
            r.file_threshold == config.file_threshold,
            r.tmp_dir@ == config.tmp_dir@,
            r.acv_dir@ == config.acv_dir@,
    {
        BulletinBoard {
            datasize: 0,
            memory_used: 0,
            n_bulletins: 0,
            n_files: 0,
            n_archives: 0,
            entries: Vec::new(),
            loaded: Vec::new(),
            tot_mem_limit: config.tot_mem_limit,
            file_threshold: config.file_threshold,
            tmp_dir: config.tmp_dir.clone(),
            acv_dir: config.acv_dir.clone(),
        }
    }

    /// Where the key stands in the board's order, if it is there.
    pub fn find(&self, title: &String, tag: &String) -> (r: Option<usize>)
        requires
            self.wf(),
        ensures
            match r {
                Some(i) => i < self.entries@.len() && entry_key(self.entries@[i as int]) == (title@, tag@)
                    && self.index().contains_key((title@, tag@))
                    && self.index()[(title@, tag@)] == self.entries@[i as int].revisions@,
                None => !self.index().contains_key((title@, tag@)),
            },
    {
        let mut i: usize = 0;
        while i < self.entries.len()
            invariant
                self.wf(),
                i <= self.entries@.len(),
                forall|j: int| 0 <= j < i ==> entry_key(#[trigger] self.entries@[j]) != (title@, tag@),
            decreases self.entries@.len() - i,
        {
            if self.entries[i].title == *title && self.entries[i].tag == *tag {
                proof {
                    lemma_index_has(self.entries@, i as int);
                }
                return Some(i);
            }
            i = i + 1;
        }
        proof {
            lemma_index_lacks(self.entries@, (title@, tag@));
        }
        None
    }

    /// Posts a new revision under (title, tag). It stays in memory when it
    /// is under the file threshold and fits under the memory limit;
    /// otherwise it is moved to a spool file at once, and the write to make
    /// is returned.
    pub fn post(&mut self, title: String, tag: String, bulletin: Bulletin) -> (r: Result<Option<SpoolWrite>, BoardError>)
        requires
            old(self).wf(),
            bulletin.wf(),
            bulletin.data is Memory,
        ensures
            final(self).wf(),
            old(self).post_overflows(bulletin.datasize) ==> r == Err::<Option<SpoolWrite>, BoardError>(
                BoardError::Full,
            ) && *final(self) == *old(self),
            !old(self).post_overflows(bulletin.datasize) ==> (r matches Ok(spool) && BulletinBoard::posted(
                old(self),
                final(self),
                (title@, tag@),
                bulletin,
                spool,
            )),
    {
        let size = bulletin.datasize;
        let stays = size < self.file_threshold && self.memory_used < self.tot_mem_limit
            && size < self.tot_mem_limit - self.memory_used;
        if size > u64::MAX - self.datasize || self.n_bulletins == u64::MAX || (!stays && self.n_files
            == u64::MAX) {
            return Err(BoardError::Full);
        }
        let ghost b0 = bulletin;
        let mut bulletin = bulletin;
        let spool = if stays {
            None
        } else {
            match bulletin.save_to_file(self.tmp_dir.as_str()) {
                Ok(w) => Some(w),
                Err(_) => None,
            }
        };
        assert(bulletin == BulletinBoard::stored(b0, spool));
        let ghost old_entries = self.entries@;
        let ghost old_view = self.index();
        let ghost old_keys = self.keys();
        match self.find(&title, &tag) {
            Some(i) => {
                let mut e = self.entries.remove(i);
                let ghost old_revs = e.revisions@;
                e.revisions.push(bulletin);
                self.entries.insert(i, e);
                proof {
                    assert(self.entries@ =~= old_entries.update(i as int, e));
                    lemma_index_update(old_entries, i as int, e);
                    assert forall|c: Counter| #![auto]
                        entry_sum(self.entries@, c) == entry_sum(old_entries, c) + stat(bulletin, c) by {
                        lemma_entry_sum_update(old_entries, i as int, e, c);
                        lemma_sum_push(old_revs, bulletin, c);
                    }
                    assert(self.keys() =~= old_keys);
                }
            },
            None => {
                let mut revisions: Vec<Bulletin> = Vec::new();
                revisions.push(bulletin);
                let e = Entry { title, tag, revisions };
                self.entries.push(e);
                proof {
                    lemma_index_push(old_entries, e);
                    assert forall|c: Counter| #![auto]
                        entry_sum(self.entries@, c) == entry_sum(old_entries, c) + stat(bulletin, c) by {
                        lemma_entry_sum_push(old_entries, e, c);
                        assert(e.revisions@ =~= Seq::<Bulletin>::empty().push(bulletin));
                        lemma_sum_push(Seq::empty(), bulletin, c);
                    }
                    assert(self.keys() =~= old_keys.push(entry_key(e)));
                    assert(e.revisions@ =~= Seq::<Bulletin>::empty().push(bulletin));
                }
            },
        }
        self.datasize = self.datasize + size;
        self.n_bulletins = self.n_bulletins + 1;
        if stays {
            self.memory_used = self.memory_used + size;
        } else {
            self.n_files = self.n_files + 1;
        }
        proof {
            assert(stat(bulletin, Counter::Size) == size);
            assert(stat(bulletin, Counter::Live) == 1);
            assert(stat(bulletin, Counter::Archived) == 0);
        }
        Ok(spool)
    }
}

/// The counters, and the memory limit they are measured against.
#[derive(Clone, Copy, Debug, PartialEq, Eq)]
pub struct Status {
    pub datasize: u64,
    pub memory_used: u64,
    pub n_bulletins: u64,
    pub n_files: u64,
    pub n_archives: u64,
    pub tot_mem_limit: u64,
}

/// The most rows a listing gives.
pub const LIST_LIMIT: usize = 1024;

impl BulletinBoard {
    /// Where to read revision `revision` of (title, tag) from; the latest
    /// when `None`. Reading leaves the board as it is.
    pub fn read(&self, title: &String, tag: &String, revision: Option<u64>) -> (r: Result<Source, BoardError>)
        requires
            self.wf(),
        ensures
            match pick(self.revisions_of((title@, tag@)), revision) {
                Some(b) => if b.data is Empty {
                    r == Err::<Source, BoardError>(BoardError::NotFound)
                } else {
                    r matches Ok(s) && source_of(s, b, self.acv_dir@)
                },
                None => r == Err::<Source, BoardError>(BoardError::NotFound),
            },
    {
        let i = match self.find(title, tag) {
            Some(i) => i,
            None => return Err(BoardError::NotFound),
        };
        let revs = &self.entries[i].revisions;
        let j: usize = match revision {
            None => {
                if revs.len() == 0 {
                    return Err(BoardError::NotFound);
                }
                revs.len() - 1
            },
            Some(rev) => {
                if rev >= revs.len() as u64 {
                    return Err(BoardError::NotFound);
                }
                rev as usize
            },
        };
        match revs[j].get(self.acv_dir.as_str()) {
            Ok(s) => Ok(s),
            Err(_) => Err(BoardError::NotFound),
        }
    }

    /// The tags registered under a title.
    pub fn find_tags(&self, title: &String) -> (r: Vec<String>)
        ensures
            r@.map_values(|t: String| t@) == tags_of(self.entries@, title@),
    {
        let mut out: Vec<String> = Vec::new();
        let mut i: usize = 0;
        while i < self.entries.len()
            invariant
                i <= self.entries@.len(),
                out@.map_values(|t: String| t@) == tags_of(self.entries@.take(i as int), title@),
            decreases self.entries@.len() - i,
        {
            proof {
                assert(self.entries@.take(i + 1).drop_last() =~= self.entries@.take(i as int));
            }
            if self.entries[i].title == *title {
                out.push(self.entries[i].tag.clone());
                proof {
                    assert(out@.map_values(|t: String| t@) =~= tags_of(self.entries@.take(i as int), title@).push(
                        self.entries@[i as int].tag@,
                    ));
                }
            }
            i = i + 1;
        }
        proof {
            assert(self.entries@.take(i as int) =~= self.entries@);
        }
        out
    }

    pub open spec fn status_of(&self) -> Status {
        Status {
            datasize: self.datasize,
            memory_used: self.memory_used,
            n_bulletins: self.n_bulletins,
            n_files: self.n_files,
            n_archives: self.n_archives,
            tot_mem_limit: self.tot_mem_limit,
        }
    }

    /// The counters.
    pub fn status(&self) -> (r: Status)
        ensures
            r == self.status_of(),
            r == (Status {
                datasize: self.datasize,
                memory_used: self.memory_used,
                n_bulletins: self.n_bulletins,
                n_files: self.n_files,
                n_archives: self.n_archives,
                tot_mem_limit: self.tot_mem_limit,
            }),
    {
        Status {
            datasize: self.datasize,
            memory_used: self.memory_used,
            n_bulletins: self.n_bulletins,
            n_files: self.n_files,
            n_archives: self.n_archives,
            tot_mem_limit: self.tot_mem_limit,
        }
    }

    /// A listing of the keys with their numbers of revisions, in the board's
    /// order, cut at `LIST_LIMIT` rows; the flag says whether it was cut.
    pub fn view(&self) -> (r: (Vec<(String, String, u64)>, bool))
        ensures
            r.1 == (self.entries@.len() > LIST_LIMIT),
            r.0@.len() == if r.1 { LIST_LIMIT as nat } else { self.entries@.len() },
            forall|i: int| 0 <= i < r.0@.len() ==> {
                let e = #[trigger] self.entries@[i];
                &&& r.0@[i].0@ == e.title@
                &&& r.0@[i].1@ == e.tag@
                &&& r.0@[i].2 == e.revisions@.len()
            },
    {
        let n = if self.entries.len() > LIST_LIMIT { LIST_LIMIT } else { self.entries.len() };
        let mut out: Vec<(String, String, u64)> = Vec::new();
        let mut i: usize = 0;
        while i < n
            invariant
                n <= self.entries@.len(),
                i <= n,
                out@.len() == i,
                forall|k: int| 0 <= k < i ==> {
                    let e = #[trigger] self.entries@[k];
                    &&& out@[k].0@ == e.title@
                    &&& out@[k].1@ == e.tag@
                    &&& out@[k].2 == e.revisions@.len()
                },
            decreases n - i,
        {
            let e = &self.entries[i];
            out.push((e.title.clone(), e.tag.clone(), e.revisions.len() as u64));
            i = i + 1;
        }
        (out, self.entries.len() > LIST_LIMIT)
    }

    /// Per revision of (title, tag): its number, its size, the text of its
    /// time in the local time zone, and its backend's label; cut at
    /// `LIST_LIMIT` rows, the flag says whether it was cut. `None` when the
    /// key is absent.
    pub fn get_info(&self, title: &String, tag: &String) -> (r: Option<(Vec<(u64, u64, String, String)>, bool)>)
        requires
            self.wf(),
        ensures
            match r {
                None => !self.index().contains_key((title@, tag@)),
                Some((rows, cut)) => {
                    let revs = self.index()[(title@, tag@)];
                    &&& self.index().contains_key((title@, tag@))
                    &&& cut == (revs.len() > LIST_LIMIT)
                    &&& rows@.len() == if cut { LIST_LIMIT as nat } else { revs.len() }
                    &&& forall|i: int| 0 <= i < rows@.len() ==> {
                        let b = #[trigger] revs[i];
                        &&& rows@[i].0 == i
                        &&& rows@[i].1 == b.datasize
                        &&& rows@[i].3@ == crate::bulletin::backend_label(b.data)
                    }
                },
            },
    {
        let i = match self.find(title, tag) {
            Some(i) => i,
            None => return None,
        };
        let revs = &self.entries[i].revisions;
        let n = if revs.len() > LIST_LIMIT { LIST_LIMIT } else { revs.len() };
        let mut rows: Vec<(u64, u64, String, String)> = Vec::new();
        let mut j: usize = 0;
        while j < n
            invariant
                n <= revs@.len(),
                j <= n,
                rows@.len() == j,
                forall|k: int| 0 <= k < j ==> {
                    let b = #[trigger] revs@[k];
                    &&& rows@[k].0 == k
                    &&& rows@[k].1 == b.datasize
                    &&& rows@[k].3@ == crate::bulletin::backend_label(b.data)
                },
            decreases n - j,
        {
            let b = &revs[j];
            rows.push((j as u64, b.datasize, local_time_text(b.timestamp), b.backend()));
            j = j + 1;
        }
        Some((rows, revs.len() > LIST_LIMIT))
    }
}

/// A revision after clearing: no bytes, size zero, same timestamp.
pub open spec fn cleared(b: Bulletin) -> Bulletin {
    Bulletin { data: BulletinBackend::Empty, datasize: 0, timestamp: b.timestamp }
}

/// A revision list with the listed revisions cleared.
pub open spec fn clear_listed(rs: Seq<Bulletin>, listed: Seq<u64>) -> Seq<Bulletin> {
    Seq::new(rs.len(), |j: int| if listed.contains(j as u64) { cleared(rs[j]) } else { rs[j] })
}

/// The spool files of the listed revisions.
pub open spec fn listed_file(rs: Seq<Bulletin>, listed: Seq<u64>, p: String) -> bool {
    exists|j: int| 0 <= j < rs.len() && listed.contains(j as u64) && rs[j].data == BulletinBackend::File(p)
}

/// The spool files of a revision list.
pub open spec fn has_file(rs: Seq<Bulletin>, p: String) -> bool {
    exists|j: int| 0 <= j < rs.len() && rs[j].data == BulletinBackend::File(p)
}

proof fn lemma_rev_sum_update(rs: Seq<Bulletin>, j: int, b: Bulletin, c: Counter)
    requires
        0 <= j < rs.len(),
    ensures
        rev_sum(rs.update(j, b), c) + stat(rs[j], c) == rev_sum(rs, c) + stat(b, c),
    decreases rs.len(),
{
    if j == rs.len() - 1 {
        assert(rs.update(j, b).drop_last() =~= rs.drop_last());
    } else {
        lemma_rev_sum_update(rs.drop_last(), j, b, c);
        assert(rs.update(j, b).drop_last() =~= rs.drop_last().update(j, b));
    }
}

proof fn lemma_rev_sum_append(a: Seq<Bulletin>, b: Seq<Bulletin>, c: Counter)
    ensures
        rev_sum(a + b, c) == rev_sum(a, c) + rev_sum(b, c),
    decreases b.len(),
{
    if b.len() == 0 {
        assert(a + b =~= a);
    } else {
        lemma_rev_sum_append(a, b.drop_last(), c);
        assert((a + b).drop_last() =~= a + b.drop_last());
    }
}

proof fn lemma_rev_sum_prefix(rs: Seq<Bulletin>, k: int, c: Counter)
    requires
        0 <= k < rs.len(),
    ensures
        rev_sum(rs.take(k + 1), c) == rev_sum(rs.take(k), c) + stat(rs[k], c),
        rev_sum(rs.take(k + 1), c) <= rev_sum(rs, c),
    decreases rs.len() - k,
{
    assert(rs.take(k + 1).drop_last() =~= rs.take(k));
    if k + 1 < rs.len() {
        lemma_rev_sum_prefix(rs, k + 1, c);
    } else {
        assert(rs.take(k + 1) =~= rs);
    }
}

/// The totals of a revision list, one per counter.
pub struct Totals {
    pub datasize: u64,
    pub memory: u64,
    pub live: u64,
    pub files: u64,
    pub archived: u64,
}

impl Totals {
    pub open spec fn of(&self, rs: Seq<Bulletin>) -> bool {
        &&& self.datasize == rev_sum(rs, Counter::Size)
        &&& self.memory == rev_sum(rs, Counter::Memory)
        &&& self.live == rev_sum(rs, Counter::Live)
        &&& self.files == rev_sum(rs, Counter::Files)
        &&& self.archived == rev_sum(rs, Counter::Archived)
    }
}

/// Adds up a revision list for each counter.
fn totals(rs: &Vec<Bulletin>) -> (r: Totals)
    requires
        forall|c: Counter| #![auto] rev_sum(rs@, c) <= u64::MAX,
        forall|j: int| 0 <= j < rs@.len() ==> (#[trigger] rs@[j]).wf(),
    ensures
        r.of(rs@),
{
    let mut t = Totals { datasize: 0, memory: 0, live: 0, files: 0, archived: 0 };
    let mut k: usize = 0;
    proof {
        assert(rs@.take(0) =~= Seq::<Bulletin>::empty());
    }
    while k < rs.len()
        invariant
            k <= rs@.len(),
            forall|c: Counter| #![auto] rev_sum(rs@, c) <= u64::MAX,
            forall|j: int| 0 <= j < rs@.len() ==> (#[trigger] rs@[j]).wf(),
            t.of(rs@.take(k as int)),
        decreases rs@.len() - k,
    {
        let b = &rs[k];
        proof {
            assert forall|c: Counter| #![auto]
                rev_sum(rs@.take(k + 1), c) == rev_sum(rs@.take(k as int), c) + stat(rs@[k as int], c)
                && rev_sum(rs@.take(k + 1), c) <= u64::MAX by {
                lemma_rev_sum_prefix(rs@, k as int, c);
            }
            assert(stat(rs@[k as int], Counter::Size) == b.datasize);
        }
        t.datasize = t.datasize + b.datasize;
        match &b.data {
            BulletinBackend::Memory(_) => {
                assert(stat(rs@[k as int], Counter::Memory) == b.datasize);
                assert(stat(rs@[k as int], Counter::Live) == 1);
                t.memory = t.memory + b.datasize;
                t.live = t.live + 1;
            },
            BulletinBackend::File(_) => {
                assert(stat(rs@[k as int], Counter::Files) == 1);
                assert(stat(rs@[k as int], Counter::Live) == 1);
                t.files = t.files + 1;
                t.live = t.live + 1;
            },
            BulletinBackend::Archive(..) => {
                assert(stat(rs@[k as int], Counter::Archived) == 1);
                assert(stat(rs@[k as int], Counter::Live) == 1);
                t.archived = t.archived + 1;
                t.live = t.live + 1;
            },
            BulletinBackend::Empty => {},
        }
        k = k + 1;
    }
    proof {
        assert(rs@.take(k as int) =~= rs@);
    }
    t
}

impl BulletinBoard {
    proof fn lemma_entry_bounded(&self, i: int)
        requires
            self.wf(),
            0 <= i < self.entries@.len(),
        ensures
            forall|c: Counter| #![auto] rev_sum(self.entries@[i].revisions@, c) <= entry_sum(self.entries@, c),
            rev_sum(self.entries@[i].revisions@, Counter::Size) <= self.datasize,
            rev_sum(self.entries@[i].revisions@, Counter::Memory) <= self.memory_used,
            rev_sum(self.entries@[i].revisions@, Counter::Live) <= self.n_bulletins,
            rev_sum(self.entries@[i].revisions@, Counter::Files) <= self.n_files,
            rev_sum(self.entries@[i].revisions@, Counter::Archived) <= self.n_archives,
    {
        assert forall|c: Counter| #![auto] rev_sum(self.entries@[i].revisions@, c) <= entry_sum(self.entries@, c) by {
            lemma_entry_sum_remove(self.entries@, i, c);
        }
    }

    /// Subtracts the totals of a list that leaves the board.
    fn take_out(&mut self, t: &Totals)
        requires
            t.datasize <= old(self).datasize,
            t.memory <= old(self).memory_used,
            t.live <= old(self).n_bulletins,
            t.files <= old(self).n_files,
            t.archived <= old(self).n_archives,
        ensures
            final(self).datasize == old(self).datasize - t.datasize,
            final(self).memory_used == old(self).memory_used - t.memory,
            final(self).n_bulletins == old(self).n_bulletins - t.live,
            final(self).n_files == old(self).n_files - t.files,
            final(self).n_archives == old(self).n_archives - t.archived,
            final(self).entries == old(self).entries,
            final(self).loaded == old(self).loaded,
            final(self).tot_mem_limit == old(self).tot_mem_limit,
            final(self).file_threshold == old(self).file_threshold,
            final(self).tmp_dir == old(self).tmp_dir,
            final(self).acv_dir == old(self).acv_dir,
    {
        self.datasize = self.datasize - t.datasize;
        self.memory_used = self.memory_used - t.memory;
        self.n_bulletins = self.n_bulletins - t.live;
        self.n_files = self.n_files - t.files;
        self.n_archives = self.n_archives - t.archived;
    }

    /// Clears the listed revisions of (title, tag) in place; the others keep
    /// their numbers. Gives the spool files to delete. Fails, changing
    /// nothing, when the key or a listed revision does not exist, or when a
    /// listed revision is archived.
    pub fn clear_revisions(&mut self, title: &String, tag: &String, revisions: &Vec<u64>) -> (r: Result<Vec<String>, BoardError>)
        requires
            old(self).wf(),
        ensures
            final(self).wf(),
            BulletinBoard::cleared_outcome(old(self), final(self), (title@, tag@), revisions@, r),
    {
        let i = match self.find(title, tag) {
            Some(i) => i,
            None => return Err(BoardError::NotFound),
        };
        let ghost rs = self.entries@[i as int].revisions@;
        assert(old(self).revisions_of((title@, tag@)) == rs);
        let n = self.entries[i].revisions.len();
        let mut m: usize = 0;
        while m < revisions.len()
            invariant
                m <= revisions@.len(),
                n == rs.len(),
                self.wf(),
                *self == *old(self),
                old(self).revisions_of((title@, tag@)) == rs,
                old(self).index().contains_key((title@, tag@)),
                forall|q: int| 0 <= q < m ==> #[trigger] revisions@[q] < rs.len(),
            decreases revisions@.len() - m,
        {
            if revisions[m] >= n as u64 {
                assert(revisions@[m as int] >= rs.len());
                return Err(BoardError::NotFound);
            }
            m = m + 1;
        }
        let mut m: usize = 0;
        while m < revisions.len()
            invariant
                m <= revisions@.len(),
                n == rs.len(),
                self.wf(),
                *self == *old(self),
                old(self).revisions_of((title@, tag@)) == rs,
                old(self).index().contains_key((title@, tag@)),
                i < self.entries@.len(),
                self.entries@[i as int].revisions@ == rs,
                forall|q: int| 0 <= q < revisions@.len() ==> #[trigger] revisions@[q] < rs.len(),
                forall|q: int| 0 <= q < m ==> !(rs[(#[trigger] revisions@[q]) as int].data is Archive),
            decreases revisions@.len() - m,
        {
            let j = revisions[m];
            if matches!(self.entries[i].revisions[j as usize].data, BulletinBackend::Archive(..)) {
                assert(rs[revisions@[m as int] as int].data is Archive);
                return Err(BoardError::Archived);
            }
            m = m + 1;
        }
        proof {
            self.lemma_entry_bounded(i as int);
            assert forall|c: Counter| #![auto] rev_sum(rs, c) <= u64::MAX by {
                match c {
                    Counter::Size => {},
                    Counter::Memory => {},
                    Counter::Live => {},
                    Counter::Files => {},
                    Counter::Archived => {},
                }
            }
        }
        let ghost old_board = *self;
        let ghost old_entries = self.entries@;
        let mut e = self.entries.remove(i);
        let mut files: Vec<String> = Vec::new();
        let mut freed = Totals { datasize: 0, memory: 0, live: 0, files: 0, archived: 0 };
        let mut m: usize = 0;
        while m < revisions.len()
            invariant
                m <= revisions@.len(),
                n == rs.len() == e.revisions@.len(),
                forall|q: int| 0 <= q < revisions@.len() ==> #[trigger] revisions@[q] < rs.len(),
                forall|q: int| 0 <= q < revisions@.len() ==> !(rs[(#[trigger] revisions@[q]) as int].data is Archive),
                forall|j: int| 0 <= j < rs.len() ==> (#[trigger] rs[j]).wf(),
                forall|c: Counter| #![auto] rev_sum(rs, c) <= u64::MAX,
                e.revisions@ == clear_listed(rs, revisions@.take(m as int)),
                i < old_entries.len(),
                e.title == old_entries[i as int].title,
                e.tag == old_entries[i as int].tag,
                freed.datasize + rev_sum(e.revisions@, Counter::Size) == rev_sum(rs, Counter::Size),
                freed.memory + rev_sum(e.revisions@, Counter::Memory) == rev_sum(rs, Counter::Memory),
                freed.live + rev_sum(e.revisions@, Counter::Live) == rev_sum(rs, Counter::Live),
                freed.files + rev_sum(e.revisions@, Counter::Files) == rev_sum(rs, Counter::Files),
                freed.archived == 0,
                rev_sum(e.revisions@, Counter::Archived) == rev_sum(rs, Counter::Archived),
                forall|p: String| files@.contains(p) <==> listed_file(rs, revisions@.take(m as int), p),
            decreases revisions@.len() - m,
        {
            let j = revisions[m] as usize;
            assert(revisions@[m as int] < n);
            assert(revisions@[m as int] == j as u64);
            let ghost before = e.revisions@;
            let ghost old_files = files@;
            let mut b = e.revisions.remove(j);
            let f = b.clear();
            e.revisions.insert(j, b);
            proof {
                let listed = revisions@.take(m as int);
                let listed2 = revisions@.take(m + 1);
                assert(listed2 =~= listed.push(j as u64));
                assert(listed2[m as int] == j as u64);
                assert(e.revisions@ =~= before.update(j as int, cleared(before[j as int])));
                assert(e.revisions@ =~= clear_listed(rs, listed2)) by {
                    assert forall|q: int| 0 <= q < rs.len() implies e.revisions@[q] == clear_listed(rs, listed2)[q] by {
                        if q == j {
                            assert(listed2.contains(j as u64));
                        } else {
                            assert(listed2.contains(q as u64) == listed.contains(q as u64));
                        }
                    }
                }
                assert forall|c: Counter| #![auto]
                    rev_sum(e.revisions@, c) + stat(before[j as int], c) == rev_sum(before, c) + stat(cleared(before[j as int]), c) by {
                    lemma_rev_sum_update(before, j as int, cleared(before[j as int]), c);
                }
            }
            proof {
                let bj = before[j as int];
                assert(!(bj.data is Archive)) by {
                    let listed = revisions@.take(m as int);
                    if !listed.contains(j as u64) {
                        assert(bj == rs[j as int]);
                        assert(revisions@[m as int] == j as u64);
                    }
                }
                assert(f matches Ok(fr) && fr.datasize == stat(bj, Counter::Size) && fr.memory == stat(bj, Counter::Memory)
                    && fr.bulletins == stat(bj, Counter::Live) && fr.files == stat(bj, Counter::Files));
                assert(stat(cleared(bj), Counter::Size) == 0);
                assert(stat(cleared(bj), Counter::Memory) == 0);
                assert(stat(cleared(bj), Counter::Live) == 0);
                assert(stat(cleared(bj), Counter::Files) == 0);
                assert(stat(cleared(bj), Counter::Archived) == 0);
                assert(stat(bj, Counter::Archived) == 0);
            }
            match f {
                Ok(fr) => {
                    freed.datasize = freed.datasize + fr.datasize;
                    freed.memory = freed.memory + fr.memory;
                    freed.live = freed.live + fr.bulletins;
                    freed.files = freed.files + fr.files;
                    match fr.remove_file {
                        Some(p) => {
                            files.push(p);
                        },
                        None => {},
                    }
                },
                Err(_) => {},
            }
            proof {
                let listed = revisions@.take(m as int);
                let listed2 = revisions@.take(m + 1);
                assert(listed2 =~= listed.push(j as u64));
                assert(listed2[m as int] == j as u64);
                assert forall|x: u64| listed.contains(x) implies listed2.contains(x) by {
                    let w = choose|w: int| 0 <= w < listed.len() && listed[w] == x;
                    assert(listed2[w] == x);
                }
                let bj = before[j as int];
                assert(files@ == (if bj.data is File { old_files.push(bj.data->File_0) } else { old_files }));
                assert forall|p: String| files@.contains(p) implies listed_file(rs, listed2, p) by {
                    if old_files.contains(p) {
                        let q = choose|q: int| 0 <= q < rs.len() && listed.contains(q as u64) && rs[q].data == BulletinBackend::File(p);
                        assert(listed2.contains(q as u64));
                    } else {
                        assert(bj.data == BulletinBackend::File(p));
                        if listed.contains(j as u64) {
                            assert(bj == cleared(rs[j as int]));
                        }
                        assert(bj == rs[j as int]);
                        assert(listed2.contains(j as u64));
                    }
                }
                assert forall|p: String| listed_file(rs, listed2, p) implies files@.contains(p) by {
                    let q = choose|q: int| 0 <= q < rs.len() && listed2.contains(q as u64) && rs[q].data == BulletinBackend::File(p);
                    if listed.contains(q as u64) {
                        assert(listed_file(rs, listed, p));
                        assert(old_files.contains(p));
                        let w2 = choose|w2: int| 0 <= w2 < old_files.len() && old_files[w2] == p;
                        assert(files@[w2] == p);
                    } else {
                        let w = choose|w: int| 0 <= w < listed2.len() && listed2[w] == q as u64;
                        if w < m {
                            assert(listed[w] == q as u64);
                        }
                        assert(q == j);
                        assert(bj == rs[j as int]);
                        assert(files@ == old_files.push(p));
                        assert(files@[files@.len() - 1] == p);
                    }
                }
            }
            m = m + 1;
        }
        proof {
            assert(revisions@.take(revisions@.len() as int) =~= revisions@);
        }
        self.entries.insert(i, e);
        proof {
            assert(self.entries@ =~= old_entries.update(i as int, e));
            lemma_index_update(old_entries, i as int, e);
            assert forall|c: Counter| #![auto]
                entry_sum(self.entries@, c) + rev_sum(rs, c) == entry_sum(old_entries, c) + rev_sum(e.revisions@, c) by {
                lemma_entry_sum_update(old_entries, i as int, e, c);
            }
            assert(self.keys() =~= old_board.keys());
        }
        self.take_out(&freed);
        assert forall|a: int, b: int|
            0 <= a < self.entries@.len() && 0 <= b < self.entries@[a].revisions@.len()
                implies #[trigger] self.entries@[a].revisions@[b].wf() by {
            if a == i {
                if revisions@.contains(b as u64) {
                } else {
                    assert(self.entries@[a].revisions@[b] == rs[b]);
                }
            } else {
                assert(self.entries@[a] == old_entries[a]);
            }
        }
        Ok(files)
    }
}

/// The spool files of a revision list, in order.
fn spool_files(rs: &Vec<Bulletin>) -> (r: Vec<String>)
    ensures
        forall|p: String| r@.contains(p) <==> has_file(rs@, p),
{
    let mut out: Vec<String> = Vec::new();
    let mut k: usize = 0;
    while k < rs.len()
        invariant
            k <= rs@.len(),
            forall|p: String| out@.contains(p) <==> has_file(rs@.take(k as int), p),
        decreases rs@.len() - k,
    {
        let ghost before = out@;
        match &rs[k].data {
            BulletinBackend::File(p) => {
                out.push(p.clone());
            },
            _ => {},
        }
        assert(out@ == (if rs@[k as int].data is File { before.push(rs@[k as int].data->File_0) } else { before }));
        proof {
            let t = rs@.take(k as int);
            let t2 = rs@.take(k + 1);
            assert forall|p: String| out@.contains(p) <==> has_file(t2, p) by {
                if out@.contains(p) {
                    let w = choose|w: int| 0 <= w < out@.len() && out@[w] == p;
                    if w < before.len() {
                        assert(before.contains(p));
                        let q = choose|q: int| 0 <= q < t.len() && t[q].data == BulletinBackend::File(p);
                        assert(t2[q] == t[q]);
                    } else {
                        assert(t2[k as int].data == BulletinBackend::File(p));
                    }
                }
                if has_file(t2, p) {
                    let q = choose|q: int| 0 <= q < t2.len() && t2[q].data == BulletinBackend::File(p);
                    if q < k {
                        assert(t[q] == t2[q]);
                        assert(has_file(t, p));
                        assert(before.contains(p));
                        let w = choose|w: int| 0 <= w < before.len() && before[w] == p;
                        assert(out@[w] == p);
                    } else {
                        assert(out@[out@.len() - 1] == p);
                    }
                }
            }
        }
        k = k + 1;
    }
    proof {
        assert(rs@.take(k as int) =~= rs@);
    }
    out
}

impl BulletinBoard {
    /// Takes entry `i` off the board, with its counters.
    fn take_entry(&mut self, i: usize) -> (e: Entry)
        requires
            old(self).wf(),
            i < old(self).entries@.len(),
        ensures
            final(self).wf(),
            e == old(self).entries@[i as int],
            final(self).entries@ == old(self).entries@.remove(i as int),
            final(self).index() == old(self).index().remove(entry_key(e)),
            final(self).same_config(old(self)),
            final(self).loaded == old(self).loaded,
            final(self).keys() == old(self).keys().remove(i as int),
            final(self).datasize <= old(self).datasize,
            final(self).memory_used <= old(self).memory_used,
            final(self).n_bulletins <= old(self).n_bulletins,
            final(self).n_files <= old(self).n_files,
            final(self).n_archives <= old(self).n_archives,
            final(self).n_archives + rev_sum(e.revisions@, Counter::Archived) == old(self).n_archives,
            final(self).n_bulletins + rev_sum(e.revisions@, Counter::Live) == old(self).n_bulletins,
    {
        let ghost old_entries = self.entries@;
        proof {
            self.lemma_entry_bounded(i as int);
        }
        let e = self.entries.remove(i);
        let t = totals(&e.revisions);
        self.take_out(&t);
        proof {
            lemma_index_remove(old_entries, i as int);
            assert forall|c: Counter| #![auto]
                entry_sum(self.entries@, c) + rev_sum(e.revisions@, c) == entry_sum(old_entries, c) by {
                lemma_entry_sum_remove(old_entries, i as int, c);
            }
            assert forall|a: int, b: int|
                0 <= a < self.entries@.len() && 0 <= b < self.entries@[a].revisions@.len()
                    implies #[trigger] self.entries@[a].revisions@[b].wf() by {
                if a < i {
                    assert(self.entries@[a] == old_entries[a]);
                } else {
                    assert(self.entries@[a] == old_entries[a + 1]);
                }
            }
            assert(self.keys() =~= old(self).keys().remove(i as int));
        }
        e
    }

    /// Deletes (title, tag) with all its revisions. Gives the spool files to
    /// delete. Fails, changing nothing, when the key is absent or one of its
    /// revisions is archived.
    pub fn remove(&mut self, title: &String, tag: &String) -> (r: Result<Vec<String>, BoardError>)
        requires
            old(self).wf(),
        ensures
            final(self).wf(),
            BulletinBoard::removed_outcome(old(self), final(self), (title@, tag@), r),
    {
        let i = match self.find(title, tag) {
            Some(i) => i,
            None => return Err(BoardError::NotFound),
        };
        let ghost rs = self.entries@[i as int].revisions@;
        let mut j: usize = 0;
        while j < self.entries[i].revisions.len()
            invariant
                self.wf(),
                *self == *old(self),
                i < self.entries@.len(),
                rs == self.entries@[i as int].revisions@,
                old(self).revisions_of((title@, tag@)) == rs,
                j <= rs.len(),
                forall|q: int| 0 <= q < j ==> !((#[trigger] rs[q]).data is Archive),
            decreases rs.len() - j,
        {
            if matches!(self.entries[i].revisions[j].data, BulletinBackend::Archive(..)) {
                return Err(BoardError::Archived);
            }
            j = j + 1;
        }
        let e = self.take_entry(i);
        Ok(spool_files(&e.revisions))
    }

    /// Moves the revisions of (title_from, tag_from) to the key with the
    /// given title and tag in place of the old ones, where given. Where the
    /// new key already has revisions, the moved ones follow them. Fails,
    /// changing nothing, when the old key is absent.
    #[verifier::rlimit(80)]
    pub fn relabel(&mut self, title_from: &String, tag_from: &String, title_to: Option<String>, tag_to: Option<String>) -> (r: Result<(), BoardError>)
        requires
            old(self).wf(),
        ensures
            final(self).wf(),
            BulletinBoard::relabeled_outcome(
                old(self),
                final(self),
                (title_from@, tag_from@),
                relabel_target(title_from@, tag_from@, title_to, tag_to),
                r,
            ),
    {
        let i = match self.find(title_from, tag_from) {
            Some(i) => i,
            None => return Err(BoardError::NotFound),
        };
        let new_title = match title_to {
            Some(t) => t,
            None => title_from.clone(),
        };
        let new_tag = match tag_to {
            Some(t) => t,
            None => tag_from.clone(),
        };
        if new_title == *title_from && new_tag == *tag_from {
            return Ok(());
        }
        let ghost old_entries = self.entries@;
        let ghost from = (title_from@, tag_from@);
        let ghost to = (new_title@, new_tag@);
        match self.find(&new_title, &new_tag) {
            Some(j) => {
                let ghost dst_revs = old_entries[j as int].revisions@;
                let ghost src_revs = old_entries[i as int].revisions@;
                let mut src = self.entries.remove(i);
                let ghost mid = self.entries@;
                let j2 = if j > i { j - 1 } else { j };
                let mut dst = self.entries.remove(j2);
                dst.revisions.append(&mut src.revisions);
                self.entries.insert(j2, dst);
                proof {
                    assert(mid =~= old_entries.remove(i as int));
                    assert(mid[j2 as int] == old_entries[j as int]);
                    assert(self.entries@ =~= mid.update(j2 as int, dst));
                    lemma_index_remove(old_entries, i as int);
                    lemma_index_update(mid, j2 as int, dst);
                    assert(dst.revisions@ == dst_revs + src_revs);
                    assert forall|c: Counter| #![auto] entry_sum(self.entries@, c) == entry_sum(old_entries, c) by {
                        lemma_entry_sum_remove(old_entries, i as int, c);
                        lemma_entry_sum_update(mid, j2 as int, dst, c);
                        lemma_rev_sum_append(dst_revs, src_revs, c);
                    }
                    assert forall|a: int, b: int|
                        0 <= a < self.entries@.len() && 0 <= b < self.entries@[a].revisions@.len()
                            implies #[trigger] self.entries@[a].revisions@[b].wf() by {
                        if a == j2 {
                            if b < dst_revs.len() {
                                assert(self.entries@[a].revisions@[b] == old_entries[j as int].revisions@[b]);
                            } else {
                                assert(self.entries@[a].revisions@[b] == old_entries[i as int].revisions@[b - dst_revs.len()]);
                            }
                        } else if a < i {
                            assert(self.entries@[a] == old_entries[a]);
                        } else {
                            assert(self.entries@[a] == old_entries[a + 1]);
                        }
                    }
                    assert(self.index() =~= old(self).index().remove(from).insert(
                        to,
                        old(self).revisions_of(to) + old(self).index()[from],
                    ));
                }
            },
            None => {
                let mut e = self.entries.remove(i);
                e.title = new_title;
                e.tag = new_tag;
                self.entries.insert(i, e);
                proof {
                    let rest = old_entries.remove(i as int);
                    lemma_index_remove(old_entries, i as int);
                    assert(self.entries@ =~= old_entries.update(i as int, e));
                    assert(!index_map(rest).contains_key(to));
                    assert forall|a: int, b: int| 0 <= a < b < self.entries@.len()
                        implies entry_key(self.entries@[a]) != entry_key(self.entries@[b]) by {
                        if a == i {
                            assert(rest[b - 1] == self.entries@[b]);
                            lemma_index_has(rest, b - 1);
                        } else if b == i {
                            assert(rest[a] == self.entries@[a]);
                            lemma_index_has(rest, a);
                        }
                    }
                    assert(keys_unique(self.entries@));
                    assert(self.entries@.remove(i as int) =~= rest);
                    lemma_index_remove(self.entries@, i as int);
                    lemma_index_has(self.entries@, i as int);
                    assert(self.index() =~= index_map(rest).insert(to, e.revisions@));
                    assert forall|c: Counter| #![auto] entry_sum(self.entries@, c) == entry_sum(old_entries, c) by {
                        lemma_entry_sum_update(old_entries, i as int, e, c);
                    }
                    assert forall|a: int, b: int|
                        0 <= a < self.entries@.len() && 0 <= b < self.entries@[a].revisions@.len()
                            implies #[trigger] self.entries@[a].revisions@[b].wf() by {
                        assert(self.entries@[a].revisions@ == old_entries[a].revisions@);
                    }
                    assert(old(self).revisions_of(to) =~= Seq::<Bulletin>::empty());
                    assert(old(self).revisions_of(to) + old(self).index()[from] =~= e.revisions@);
                    assert(self.index() =~= old(self).index().remove(from).insert(
                        to,
                        old(self).revisions_of(to) + old(self).index()[from],
                    ));
                }
            },
        }
        Ok(())
    }
}

/// The key that a relabel moves to: the given title and tag where given,
/// the old ones otherwise.
pub open spec fn relabel_target(title_from: Seq<char>, tag_from: Seq<char>, title_to: Option<String>, tag_to: Option<String>) -> Key {
    (
        match title_to { Some(t) => t@, None => title_from },
        match tag_to { Some(t) => t@, None => tag_from },
    )
}

impl BulletinBoard {
    /// The outcome of clearing the listed revisions of `k`.
    pub open spec fn cleared_outcome(old: &BulletinBoard, new: &BulletinBoard, k: Key, revisions: Seq<u64>, r: Result<Vec<String>, BoardError>) -> bool {
        let rs = old.revisions_of(k);
        if !old.index().contains_key(k) || exists|m: int|
            0 <= m < revisions.len() && #[trigger] revisions[m] >= rs.len() {
            r == Err::<Vec<String>, BoardError>(BoardError::NotFound) && *new == *old
        } else if exists|m: int|
            0 <= m < revisions.len() && (#[trigger] rs[revisions[m] as int]).data is Archive {
            r == Err::<Vec<String>, BoardError>(BoardError::Archived) && *new == *old
        } else {
            &&& r is Ok
            &&& new.index() == old.index().insert(k, clear_listed(rs, revisions))
            &&& new.keys() == old.keys()
            &&& forall|p: String| r->Ok_0@.contains(p) <==> listed_file(rs, revisions, p)
            &&& new.same_config(old)
            &&& new.loaded == old.loaded
        }
    }

    /// The outcome of removing `k`.
    pub open spec fn removed_outcome(old: &BulletinBoard, new: &BulletinBoard, k: Key, r: Result<Vec<String>, BoardError>) -> bool {
        let rs = old.revisions_of(k);
        if !old.index().contains_key(k) {
            r == Err::<Vec<String>, BoardError>(BoardError::NotFound) && *new == *old
        } else if exists|j: int| 0 <= j < rs.len() && (#[trigger] rs[j]).data is Archive {
            r == Err::<Vec<String>, BoardError>(BoardError::Archived) && *new == *old
        } else {
            &&& r is Ok
            &&& new.index() == old.index().remove(k)
            &&& forall|p: String| r->Ok_0@.contains(p) <==> has_file(rs, p)
            &&& new.same_config(old)
            &&& new.loaded == old.loaded
        }
    }

    /// The outcome of moving the revisions of `from` to `to`.
    pub open spec fn relabeled_outcome(old: &BulletinBoard, new: &BulletinBoard, from: Key, to: Key, r: Result<(), BoardError>) -> bool {
        if !old.index().contains_key(from) {
            r == Err::<(), BoardError>(BoardError::NotFound) && *new == *old
        } else if to == from {
            r is Ok && *new == *old
        } else {
            &&& r is Ok
            &&& new.index() == old.index().remove(from).insert(to, old.revisions_of(to) + old.index()[from])
            &&& new.datasize == old.datasize
            &&& new.memory_used == old.memory_used
            &&& new.n_bulletins == old.n_bulletins
            &&& new.n_files == old.n_files
            &&& new.n_archives == old.n_archives
            &&& new.same_config(old)
            &&& new.loaded == old.loaded
        }
    }

    /// The outcome of archiving `k` into archive `name`, whose data file was
    /// `data_len` bytes long.
    pub open spec fn archive_outcome(old: &BulletinBoard, new: &BulletinBoard, name: Seq<char>, k: Key, data_len: u64, r: Result<ArchivePlan, BoardError>) -> bool {
        let ls = live_of(old.revisions_of(k));
        if !old.index().contains_key(k) {
            r == Err::<ArchivePlan, BoardError>(BoardError::NotFound) && *new == *old
        } else if data_len + bytes_total(ls) > u64::MAX {
            r == Err::<ArchivePlan, BoardError>(BoardError::Full) && *new == *old
        } else {
            r matches Ok(plan) && BulletinBoard::archived(old, new, name, k, data_len, plan)
        }
    }
}

/// The revisions of a list that hold bytes of their own, in order.
pub open spec fn live_of(rs: Seq<Bulletin>) -> Seq<Bulletin>
    decreases rs.len(),
{
    if rs.len() == 0 {
        Seq::empty()
    } else if rs.last().is_live() {
        live_of(rs.drop_last()).push(rs.last())
    } else {
        live_of(rs.drop_last())
    }
}

/// The total size of a list of revisions.
pub open spec fn bytes_total(rs: Seq<Bulletin>) -> nat
    decreases rs.len(),
{
    if rs.len() == 0 {
        0
    } else {
        bytes_total(rs.drop_last()) + rs.last().datasize as nat
    }
}

/// The records of revisions appended one after the other to a data file
/// that was `base` bytes long.
pub open spec fn records_for(ls: Seq<Bulletin>, base: nat) -> Seq<ArchiveRecord>
    decreases ls.len(),
{
    if ls.len() == 0 {
        Seq::empty()
    } else {
        records_for(ls.drop_last(), base).push(
            ArchiveRecord {
                offset: (base + bytes_total(ls.drop_last())) as u64,
                datasize: ls.last().datasize,
                timestamp: ls.last().timestamp,
            },
        )
    }
}

/// `plan` archives the revisions `rs` of key `k` into archive `name` under
/// `acv_dir`, whose data file was `data_len` bytes long.
pub open spec fn plan_for(plan: ArchivePlan, name: Seq<char>, acv_dir: Seq<char>, k: Key, rs: Seq<Bulletin>, data_len: u64) -> bool {
    let ls = live_of(rs);
    let recs = records_for(ls, data_len as nat);
    &&& plan.dir@ == crate::bulletin::archive_dir_text(acv_dir, name)
    &&& plan.data_path@ == crate::bulletin::data_path_text(acv_dir, name)
    &&& plan.meta_path@ == crate::bulletin::meta_path_text(acv_dir, name)
    &&& plan.chunks@.len() == ls.len()
    &&& (forall|m: int| 0 <= m < ls.len() ==> source_of(#[trigger] plan.chunks@[m], ls[m], acv_dir))
    &&& plan.records@ == recs
    &&& plan.meta@ == (if ls.len() > 0 {
        block_bytes(BlockView { title: k.0, tag: k.1, records: recs })
    } else {
        Seq::<u8>::empty()
    })
    &&& (forall|p: String| plan.remove_files@.contains(p) <==> has_file(rs, p))
    &&& plan.data_end == data_len + bytes_total(ls)
}

/// What archiving a key asks to be written: the live revisions' bytes go to
/// the end of the data file, in order, and a block describing them to the
/// end of the metadata file; then their spool files are deleted. The
/// directory is created, with a version file, when it does not exist.
#[derive(Clone, Debug)]
pub struct ArchivePlan {
    pub dir: String,
    pub data_path: String,
    pub meta_path: String,
    pub chunks: Vec<Source>,
    pub records: Vec<ArchiveRecord>,
    pub meta: Vec<u8>,
    pub remove_files: Vec<String>,
    pub data_end: u64,
}

proof fn lemma_live_take(rs: Seq<Bulletin>, q: int)
    requires
        0 <= q < rs.len(),
    ensures
        live_of(rs.take(q + 1)) == if rs[q].is_live() { live_of(rs.take(q)).push(rs[q]) } else { live_of(rs.take(q)) },
{
    assert(rs.take(q + 1).drop_last() =~= rs.take(q));
}

proof fn lemma_live_bytes_grow(rs: Seq<Bulletin>, q: int)
    requires
        0 <= q <= rs.len(),
    ensures
        bytes_total(live_of(rs.take(q))) <= bytes_total(live_of(rs)),
    decreases rs.len() - q,
{
    if q == rs.len() {
        assert(rs.take(q) =~= rs);
    } else {
        lemma_live_bytes_grow(rs, q + 1);
        lemma_live_take(rs, q);
        let l = live_of(rs.take(q));
        assert(l.push(rs[q]).drop_last() =~= l);
    }
}

impl BulletinBoard {
    /// Takes (title, tag) off the board into archive `acv_name`, whose data
    /// file is `data_len` bytes long: the revisions that hold bytes are
    /// appended to it, the others (already archived, or cleared) are dropped.
    /// Gives what to write. Fails, changing nothing, when the key is absent,
    /// or when the data file would grow past the range of `u64`.
    pub fn archive(&mut self, acv_name: &String, title: &String, tag: &String, data_len: u64) -> (r: Result<ArchivePlan, BoardError>)
        requires
            old(self).wf(),
        ensures
            final(self).wf(),
            BulletinBoard::archive_outcome(old(self), final(self), acv_name@, (title@, tag@), data_len, r),
    {
        let i = match self.find(title, tag) {
            Some(i) => i,
            None => return Err(BoardError::NotFound),
        };
        let ghost rs = self.entries@[i as int].revisions@;
        let n = self.entries[i].revisions.len();
        let mut total: u64 = 0;
        let mut q: usize = 0;
        while q < n
            invariant
                self.wf(),
                *self == *old(self),
                i < self.entries@.len(),
                rs == self.entries@[i as int].revisions@,
                old(self).revisions_of((title@, tag@)) == rs,
                n == rs.len(),
                q <= n,
                total == bytes_total(live_of(rs.take(q as int))),
                data_len + total <= u64::MAX,
            decreases n - q,
        {
            let b = &self.entries[i].revisions[q];
            proof {
                lemma_live_take(rs, q as int);
                let l = live_of(rs.take(q as int));
                assert(l.push(rs[q as int]).drop_last() =~= l);
                lemma_live_bytes_grow(rs, q + 1);
            }
            if matches!(b.data, BulletinBackend::Memory(_)) || matches!(b.data, BulletinBackend::File(_)) {
                if b.datasize > u64::MAX - data_len - total {
                    return Err(BoardError::Full);
                }
                total = total + b.datasize;
            }
            q = q + 1;
        }
        proof {
            assert(rs.take(n as int) =~= rs);
        }
        let ghost old_board = *self;
        let e = self.take_entry(i);
        let mut revs = e.revisions;
        let mut chunks: Vec<Source> = Vec::new();
        let mut records: Vec<ArchiveRecord> = Vec::new();
        let mut remove_files: Vec<String> = Vec::new();
        let mut offset: u64 = data_len;
        let mut q: usize = 0;
        while q < n
            invariant
                n == rs.len(),
                q <= n,
                revs@ == rs.skip(q as int),
                data_len + bytes_total(live_of(rs)) <= u64::MAX,
                offset == data_len + bytes_total(live_of(rs.take(q as int))),
                chunks@.len() == live_of(rs.take(q as int)).len(),
                forall|m: int| 0 <= m < chunks@.len() ==> source_of(#[trigger] chunks@[m], live_of(rs.take(q as int))[m], old_board.acv_dir@),
                records@ == records_for(live_of(rs.take(q as int)), data_len as nat),
                forall|p: String| remove_files@.contains(p) <==> has_file(rs.take(q as int), p),
            decreases n - q,
        {
            let b = revs.remove(0);
            let ghost l = live_of(rs.take(q as int));
            let ghost files_before = remove_files@;
            proof {
                assert(b == rs[q as int]);
                lemma_live_take(rs, q as int);
                assert(l.push(rs[q as int]).drop_last() =~= l);
                lemma_live_bytes_grow(rs, q + 1);
                assert(rs.skip(q + 1) =~= rs.skip(q as int).subrange(1, rs.len() - q));
            }
            let size = b.datasize;
            let stamp = b.timestamp;
            match b.data {
                BulletinBackend::Memory(v) => {
                    chunks.push(Source::Bytes(v));
                    records.push(ArchiveRecord { offset, datasize: size, timestamp: stamp });
                    offset = offset + size;
                },
                BulletinBackend::File(p) => {
                    remove_files.push(p.clone());
                    chunks.push(Source::File { path: p, size });
                    records.push(ArchiveRecord { offset, datasize: size, timestamp: stamp });
                    offset = offset + size;
                },
                _ => {},
            }
            proof {
                let t = rs.take(q as int);
                let t2 = rs.take(q + 1);
                let l2 = live_of(t2);
                if rs[q as int].is_live() {
                    assert(l2.drop_last() =~= l);
                    assert(records@ =~= records_for(l2, data_len as nat));
                    assert forall|m: int| 0 <= m < chunks@.len() implies source_of(#[trigger] chunks@[m], l2[m], old_board.acv_dir@) by {
                        if m < l.len() {
                            assert(l2[m] == l[m]);
                        }
                    }
                } else {
                    assert(l2 == l);
                }
                assert forall|p: String| remove_files@.contains(p) <==> has_file(t2, p) by {
                    if remove_files@.contains(p) {
                        let w = choose|w: int| 0 <= w < remove_files@.len() && remove_files@[w] == p;
                        if w < files_before.len() {
                            assert(files_before.contains(p));
                            let x = choose|x: int| 0 <= x < t.len() && t[x].data == BulletinBackend::File(p);
                            assert(t2[x] == t[x]);
                        } else {
                            assert(t2[q as int].data == BulletinBackend::File(p));
                        }
                    }
                    if has_file(t2, p) {
                        let x = choose|x: int| 0 <= x < t2.len() && t2[x].data == BulletinBackend::File(p);
                        if x < q {
                            assert(t[x] == t2[x]);
                            assert(has_file(t, p));
                            assert(files_before.contains(p));
                            let w = choose|w: int| 0 <= w < files_before.len() && files_before[w] == p;
                            assert(remove_files@[w] == p);
                        } else {
                            assert(remove_files@[remove_files@.len() - 1] == p);
                        }
                    }
                }
            }
            q = q + 1;
        }
        proof {
            assert(rs.take(n as int) =~= rs);
        }
        let meta = if records.len() > 0 {
            encode_block(title, tag, &records)
        } else {
            Vec::new()
        };
        let plan = ArchivePlan {
            dir: crate::bulletin::archive_dir(self.acv_dir.as_str(), acv_name.as_str()),
            data_path: crate::bulletin::data_path(self.acv_dir.as_str(), acv_name.as_str()),
            meta_path: crate::bulletin::meta_path(self.acv_dir.as_str(), acv_name.as_str()),
            chunks,
            records,
            meta,
            remove_files,
            data_end: offset,
        };
        proof {
            assert forall|j: int| 0 <= j < old(self).entries@.len() && entry_key(#[trigger] old(self).entries@[j]) == (title@, tag@)
                implies self.entries@ == old(self).entries@.remove(j) by {
                if j != i {
                    if j < i {
                        assert(entry_key(old(self).entries@[j]) != entry_key(old(self).entries@[i as int]));
                    } else {
                        assert(entry_key(old(self).entries@[i as int]) != entry_key(old(self).entries@[j]));
                    }
                }
            }
        }
        Ok(plan)
    }

    /// `new` is `old` after archiving key `k` into archive `name`, whose data
    /// file was `data_len` bytes long, with the plan `plan`.
    pub open spec fn archived(old: &BulletinBoard, new: &BulletinBoard, name: Seq<char>, k: Key, data_len: u64, plan: ArchivePlan) -> bool {
        &&& new.wf()
        &&& new.index() == old.index().remove(k)
        &&& (forall|j: int| 0 <= j < old.entries@.len() && entry_key(#[trigger] old.entries@[j]) == k
            ==> new.entries@ == old.entries@.remove(j))
        &&& new.same_config(old)
        &&& new.loaded == old.loaded
        &&& new.n_archives + rev_sum(old.revisions_of(k), Counter::Archived) == old.n_archives
        &&& new.n_bulletins + rev_sum(old.revisions_of(k), Counter::Live) == old.n_bulletins
        &&& plan_for(plan, name, old.acv_dir@, k, old.revisions_of(k), data_len)
    }
}

/// A revision as plain values.
pub enum Shape {
    Memory(Seq<u8>),
    File(Seq<char>),
    Archive(Seq<char>, u64),
    Empty,
}

pub struct RevView {
    pub shape: Shape,
    pub datasize: u64,
    pub timestamp: i64,
}

pub open spec fn rev_view(b: Bulletin) -> RevView {
    RevView {
        shape: match b.data {
            BulletinBackend::Memory(v) => Shape::Memory(v@),
            BulletinBackend::File(p) => Shape::File(p@),
            BulletinBackend::Archive(n, o) => Shape::Archive(n@, o),
            BulletinBackend::Empty => Shape::Empty,
        },
        datasize: b.datasize,
        timestamp: b.timestamp,
    }
}

pub open spec fn revs_view(rs: Seq<Bulletin>) -> Seq<RevView> {
    rs.map_values(|b: Bulletin| rev_view(b))
}

/// The revision that loading record `r` of archive `name` mounts.
pub open spec fn mounted(name: Seq<char>, r: ArchiveRecord) -> RevView {
    RevView { shape: Shape::Archive(name, r.offset), datasize: r.datasize, timestamp: r.timestamp }
}

/// The revisions that loading the records `rs` of archive `name` mounts.
pub open spec fn mounted_all(name: Seq<char>, rs: Seq<ArchiveRecord>) -> Seq<RevView>
    decreases rs.len(),
{
    if rs.len() == 0 {
        Seq::empty()
    } else {
        mounted_all(name, rs.drop_last()).push(mounted(name, rs.last()))
    }
}

/// The key under which a block of archive `name` is mounted: its title,
/// and its tag after the archive's name and a colon.
pub open spec fn mount_key(name: Seq<char>, b: BlockView) -> Key {
    (b.title, name + ":"@ + b.tag)
}

/// The index `m` after mounting the blocks `bs` of archive `name`: each
/// block's records are appended, in order, under its mount key (a block
/// without records adds nothing).
pub open spec fn mount_blocks(m: Map<Key, Seq<RevView>>, name: Seq<char>, bs: Seq<BlockView>) -> Map<Key, Seq<RevView>>
    decreases bs.len(),
{
    if bs.len() == 0 {
        m
    } else {
        let m2 = mount_blocks(m, name, bs.drop_last());
        let k = mount_key(name, bs.last());
        let before = if m2.contains_key(k) { m2[k] } else { Seq::empty() };
        if bs.last().records.len() == 0 {
            m2
        } else {
            m2.insert(k, before + mounted_all(name, bs.last().records))
        }
    }
}

/// The keys that the loads of archive `name` mounted.
pub open spec fn mounted_keys(loaded: Seq<Mount>, name: Seq<char>) -> Set<Key> {
    Set::new(|k: Key| exists|i: int, j: int| 0 <= i < loaded.len() && loaded[i].name@ == name
        && 0 <= j < loaded[i].keys@.len() && (loaded[i].keys@[j].0@, loaded[i].keys@[j].1@) == k)
}

/// The keys that mount `m` records for archive `name`.
pub open spec fn mount_contrib(m: Mount, name: Seq<char>) -> Set<Key> {
    Set::new(|k: Key| m.name@ == name && exists|j: int| 0 <= j < m.keys@.len() && (m.keys@[j].0@, m.keys@[j].1@) == k)
}

/// The mount keys of the blocks `bs` of archive `name`.
pub open spec fn mount_keys_of(name: Seq<char>, bs: Seq<BlockView>) -> Set<Key> {
    Set::new(|k: Key| exists|j: int| 0 <= j < bs.len() && mount_key(name, bs[j]) == k)
}

proof fn lemma_mounted_keys_push(s: Seq<Mount>, m: Mount, name: Seq<char>)
    ensures
        mounted_keys(s.push(m), name) == mounted_keys(s, name).union(mount_contrib(m, name)),
{
    let t = s.push(m);
    assert forall|k: Key| #[trigger] mounted_keys(t, name).contains(k) implies mounted_keys(s, name).union(
        mount_contrib(m, name),
    ).contains(k) by {
        let (i, j) = choose|i: int, j: int| #![trigger t[i].keys@[j]] 0 <= i < t.len() && t[i].name@ == name
            && 0 <= j < t[i].keys@.len() && (t[i].keys@[j].0@, t[i].keys@[j].1@) == k;
        if i < s.len() {
            assert(t[i] == s[i]);
        }
    }
    assert forall|k: Key| mounted_keys(s, name).union(mount_contrib(m, name)).contains(k) implies #[trigger] mounted_keys(
        t,
        name,
    ).contains(k) by {
        if mounted_keys(s, name).contains(k) {
            let (i, j) = choose|i: int, j: int| #![trigger s[i].keys@[j]] 0 <= i < s.len() && s[i].name@ == name
                && 0 <= j < s[i].keys@.len() && (s[i].keys@[j].0@, s[i].keys@[j].1@) == k;
            assert(t[i] == s[i]);
        } else {
            let j = choose|j: int| 0 <= j < m.keys@.len() && (m.keys@[j].0@, m.keys@[j].1@) == k;
            assert(t[s.len() as int] == m);
        }
    }
    assert(mounted_keys(t, name) =~= mounted_keys(s, name).union(mount_contrib(m, name)));
}

proof fn lemma_mounted_keys_empty(name: Seq<char>)
    ensures
        mounted_keys(Seq::<Mount>::empty(), name) == Set::<Key>::empty(),
{
    assert(mounted_keys(Seq::<Mount>::empty(), name) =~= Set::<Key>::empty());
}

/// The number of records and their total size over a list of blocks.
pub open spec fn block_records(bs: Seq<BlockView>) -> nat
    decreases bs.len(),
{
    if bs.len() == 0 { 0 } else { block_records(bs.drop_last()) + bs.last().records.len() }
}

pub open spec fn record_bytes_total(rs: Seq<ArchiveRecord>) -> nat
    decreases rs.len(),
{
    if rs.len() == 0 { 0 } else { record_bytes_total(rs.drop_last()) + rs.last().datasize as nat }
}

pub open spec fn block_bytes_total(bs: Seq<BlockView>) -> nat
    decreases bs.len(),
{
    if bs.len() == 0 { 0 } else { block_bytes_total(bs.drop_last()) + record_bytes_total(bs.last().records) }
}

impl BulletinBoard {
    /// The index as plain values.
    pub open spec fn shapes(&self) -> Map<Key, Seq<RevView>> {
        Map::new(|k: Key| self.index().contains_key(k), |k: Key| revs_view(self.index()[k]))
    }

    /// Loading blocks with these totals would take a counter out of the range of `u64`.
    pub open spec fn load_overflows(&self, records: nat, bytes: nat) -> bool {
        ||| self.datasize + bytes > u64::MAX
        ||| self.n_bulletins + records > u64::MAX
        ||| self.n_archives + records > u64::MAX
    }

    /// Appends a revision under (title, tag).
    fn push_revision(&mut self, title: String, tag: String, b: Bulletin)
        requires
            old(self).wf(),
            b.wf(),
            forall|c: Counter| #![auto] entry_sum(old(self).entries@, c) + stat(b, c) <= u64::MAX,
        ensures
            final(self).wf(),
            final(self).index() == old(self).index().insert((title@, tag@), old(self).revisions_of((title@, tag@)).push(b)),
            final(self).keys() == (if old(self).index().contains_key((title@, tag@)) { old(self).keys() } else { old(self).keys().push((title@, tag@)) }),
            forall|c: Counter| #![auto] entry_sum(final(self).entries@, c) == entry_sum(old(self).entries@, c) + stat(b, c),
            final(self).same_config(old(self)),
            final(self).loaded == old(self).loaded,
    {
        let ghost old_entries = self.entries@;
        let ghost old_keys = self.keys();
        let ghost b0 = b;
        let size = b.datasize;
        let (d_mem, d_live, d_file, d_acv): (u64, u64, u64, u64) = match &b.data {
            BulletinBackend::Memory(_) => (size, 1, 0, 0),
            BulletinBackend::File(_) => (0, 1, 1, 0),
            BulletinBackend::Archive(..) => (0, 1, 0, 1),
            BulletinBackend::Empty => (0, 0, 0, 0),
        };
        match self.find(&title, &tag) {
            Some(i) => {
                let mut e = self.entries.remove(i);
                let ghost old_revs = e.revisions@;
                e.revisions.push(b);
                self.entries.insert(i, e);
                proof {
                    assert(self.entries@ =~= old_entries.update(i as int, e));
                    lemma_index_update(old_entries, i as int, e);
                    assert forall|c: Counter| #![auto]
                        entry_sum(self.entries@, c) == entry_sum(old_entries, c) + stat(b, c) by {
                        lemma_entry_sum_update(old_entries, i as int, e, c);
                        lemma_sum_push(old_revs, b, c);
                    }
                    assert(self.keys() =~= old_keys);
                }
            },
            None => {
                let mut revisions: Vec<Bulletin> = Vec::new();
                revisions.push(b);
                let e = Entry { title, tag, revisions };
                self.entries.push(e);
                proof {
                    lemma_index_push(old_entries, e);
                    assert forall|c: Counter| #![auto]
                        entry_sum(self.entries@, c) == entry_sum(old_entries, c) + stat(b, c) by {
                        lemma_entry_sum_push(old_entries, e, c);
                        assert(e.revisions@ =~= Seq::<Bulletin>::empty().push(b));
                        lemma_sum_push(Seq::empty(), b, c);
                    }
                    assert(self.keys() =~= old_keys.push(entry_key(e)));
                    assert(e.revisions@ =~= Seq::<Bulletin>::empty().push(b));
                }
            },
        }
        proof {
            assert forall|a: int, j: int|
                0 <= a < self.entries@.len() && 0 <= j < self.entries@[a].revisions@.len()
                    implies #[trigger] self.entries@[a].revisions@[j].wf() by {
                if a < old_entries.len() && !(self.entries@[a] == old_entries[a]) {
                    assert(j < old_entries[a].revisions@.len() ==> self.entries@[a].revisions@[j] == old_entries[a].revisions@[j]);
                }
            }
        }
        proof {
            assert(stat(b0, Counter::Size) == size);
            assert(stat(b0, Counter::Memory) == d_mem);
            assert(stat(b0, Counter::Live) == d_live);
            assert(stat(b0, Counter::Files) == d_file);
            assert(stat(b0, Counter::Archived) == d_acv);
        }
        self.datasize = self.datasize + size;
        self.memory_used = self.memory_used + d_mem;
        self.n_bulletins = self.n_bulletins + d_live;
        self.n_files = self.n_files + d_file;
        self.n_archives = self.n_archives + d_acv;
    }
}

proof fn lemma_records_total_step(rs: Seq<ArchiveRecord>, j: int)
    requires
        0 <= j < rs.len(),
    ensures
        record_bytes_total(rs.take(j + 1)) == record_bytes_total(rs.take(j)) + rs[j].datasize,
        record_bytes_total(rs.take(j + 1)) <= record_bytes_total(rs),
    decreases rs.len() - j,
{
    assert(rs.take(j + 1).drop_last() =~= rs.take(j));
    if j + 1 < rs.len() {
        lemma_records_total_step(rs, j + 1);
    } else {
        assert(rs.take(j + 1) =~= rs);
    }
}

proof fn lemma_blocks_total_step(bs: Seq<BlockView>, i: int)
    requires
        0 <= i < bs.len(),
    ensures
        block_bytes_total(bs.take(i + 1)) == block_bytes_total(bs.take(i)) + record_bytes_total(bs[i].records),
        block_records(bs.take(i + 1)) == block_records(bs.take(i)) + bs[i].records.len(),
        block_bytes_total(bs.take(i + 1)) <= block_bytes_total(bs),
        block_records(bs.take(i + 1)) <= block_records(bs),
    decreases bs.len() - i,
{
    assert(bs.take(i + 1).drop_last() =~= bs.take(i));
    if i + 1 < bs.len() {
        lemma_blocks_total_step(bs, i + 1);
    } else {
        assert(bs.take(i + 1) =~= bs);
    }
}

proof fn lemma_mount_step(m: Map<Key, Seq<RevView>>, name: Seq<char>, bs: Seq<BlockView>, i: int)
    requires
        0 <= i < bs.len(),
    ensures
        ({
            let m2 = mount_blocks(m, name, bs.take(i));
            let k = mount_key(name, bs[i]);
            let before = if m2.contains_key(k) { m2[k] } else { Seq::empty() };
            mount_blocks(m, name, bs.take(i + 1)) == if bs[i].records.len() == 0 {
                m2
            } else {
                m2.insert(k, before + mounted_all(name, bs[i].records))
            }
        }),
{
    assert(bs.take(i + 1).drop_last() =~= bs.take(i));
}

impl BulletinBoard {
    proof fn lemma_shapes_push(old: &BulletinBoard, new: &BulletinBoard, k: Key, b: Bulletin)
        requires
            new.index() == old.index().insert(k, old.revisions_of(k).push(b)),
        ensures
            new.shapes() == old.shapes().insert(
                k,
                (if old.shapes().contains_key(k) { old.shapes()[k] } else { Seq::empty() }).push(rev_view(b)),
            ),
    {
        if old.index().contains_key(k) {
            assert(revs_view(old.revisions_of(k).push(b)) =~= revs_view(old.revisions_of(k)).push(rev_view(b)));
        } else {
            assert(revs_view(old.revisions_of(k).push(b)) =~= Seq::<RevView>::empty().push(rev_view(b)));
        }
        assert(new.shapes() =~= old.shapes().insert(
            k,
            (if old.shapes().contains_key(k) { old.shapes()[k] } else { Seq::empty() }).push(rev_view(b)),
        ));
    }

    /// Mounts archive `acv_name` from the bytes of its metadata file: the
    /// keys that the last load of this archive mounted are taken off first;
    /// then each block's records are appended, as archived revisions, under
    /// the block's title and `<acv_name>:<tag>`. Fails, changing nothing,
    /// when the metadata cannot be read or a counter would leave the range
    /// of `u64`.
    #[verifier::rlimit(80)]
    pub fn load(&mut self, acv_name: &String, meta: &[u8]) -> (r: Result<(), BoardError>)
        requires
            old(self).wf(),
        ensures
            final(self).wf(),
            r is Err ==> *final(self) == *old(self),
            forall|bs: Seq<BlockView>|
                #![trigger meta_bytes(bs)]
                meta_fits(bs) && meta@ == meta_bytes(bs) ==> if old(self).load_overflows(block_records(bs), block_bytes_total(bs)) {
                    r == Err::<(), BoardError>(BoardError::Full)
                } else {
                    &&& r is Ok
                    &&& final(self).shapes() == mount_blocks(
                        old(self).shapes().remove_keys(mounted_keys(old(self).loaded@, acv_name@)),
                        acv_name@,
                        bs,
                    )
                    &&& mounted_keys(final(self).loaded@, acv_name@) == mount_keys_of(acv_name@, bs)
                    &&& forall|n: Seq<char>| n != acv_name@ ==> #[trigger] mounted_keys(final(self).loaded@, n)
                        == mounted_keys(old(self).loaded@, n)
                    &&& mounted_keys(old(self).loaded@, acv_name@) == Set::<Key>::empty() ==> {
                        &&& final(self).n_archives == old(self).n_archives + block_records(bs)
                        &&& final(self).n_bulletins == old(self).n_bulletins + block_records(bs)
                        &&& final(self).datasize == old(self).datasize + block_bytes_total(bs)
                    }
                    &&& final(self).same_config(old(self))
                },
    {
        let blocks = match parse_meta(meta) {
            Ok(b) => b,
            Err(_) => return Err(BoardError::Corrupt),
        };
        let ghost bs = blocks_view(blocks@);
        // The totals of what is to be mounted, checked against the counters.
        let mut count: u64 = 0;
        let mut bytes: u64 = 0;
        let mut bi: usize = 0;
        while bi < blocks.len()
            invariant
                bs == blocks_view(blocks@),
                bi <= blocks@.len(),
                count == block_records(bs.take(bi as int)),
                bytes == block_bytes_total(bs.take(bi as int)),
                !self.load_overflows(count as nat, bytes as nat),
                *self == *old(self),
                self.wf(),
                forall|bs2: Seq<BlockView>|
                    #![trigger meta_bytes(bs2)]
                    meta_fits(bs2) && meta@ == meta_bytes(bs2) ==> bs2 == bs,
            decreases blocks@.len() - bi,
        {
            let recs = &blocks[bi].records;
            let ghost rv = bs[bi as int].records;
            assert(rv == recs@);
            let mut j: usize = 0;
            let mut c2: u64 = count;
            let mut b2: u64 = bytes;
            while j < recs.len()
                invariant
                    bs == blocks_view(blocks@),
                    bi < blocks@.len(),
                    rv == recs@,
                    rv == bs[bi as int].records,
                    j <= recs@.len(),
                    c2 == block_records(bs.take(bi as int)) + j,
                    b2 == block_bytes_total(bs.take(bi as int)) + record_bytes_total(rv.take(j as int)),
                    !self.load_overflows(c2 as nat, b2 as nat),
                    *self == *old(self),
                    self.wf(),
                    forall|bs2: Seq<BlockView>|
                        #![trigger meta_bytes(bs2)]
                        meta_fits(bs2) && meta@ == meta_bytes(bs2) ==> bs2 == bs,
                decreases recs@.len() - j,
            {
                proof {
                    lemma_records_total_step(rv, j as int);
                    lemma_blocks_total_step(bs, bi as int);
                }
                let size = recs[j].datasize;
                if c2 >= u64::MAX - self.n_bulletins || c2 >= u64::MAX - self.n_archives
                    || b2 > u64::MAX - self.datasize || size > u64::MAX - self.datasize - b2 {
                    proof {
                        assert forall|bs2: Seq<BlockView>|
                            #![trigger meta_bytes(bs2)]
                            meta_fits(bs2) && meta@ == meta_bytes(bs2) implies old(self).load_overflows(
                                block_records(bs2),
                                block_bytes_total(bs2),
                            ) by {
                            assert(block_records(bs.take(bi as int)) + rv.len() <= block_records(bs));
                        }
                    }
                    return Err(BoardError::Full);
                }
                c2 = c2 + 1;
                b2 = b2 + size;
                j = j + 1;
            }
            proof {
                lemma_blocks_total_step(bs, bi as int);
                assert(rv.take(j as int) =~= rv);
            }
            count = c2;
            bytes = b2;
            bi = bi + 1;
        }
        proof {
            assert(bs.take(bi as int) =~= bs);
        }
        // Take off what the last load of this archive mounted.
        let mut mounts: Vec<Mount> = Vec::new();
        core::mem::swap(&mut self.loaded, &mut mounts);
        let ghost base0 = old(self).shapes();
        let mut kept: Vec<Mount> = Vec::new();
        let mut mi: usize = 0;
        while mi < mounts.len()
            invariant
                self.wf(),
                self.same_config(old(self)),
                mi <= mounts@.len(),
                mounts@ == old(self).loaded@,
                self.datasize <= old(self).datasize,
                self.n_bulletins <= old(self).n_bulletins,
                self.n_archives <= old(self).n_archives,
                self.memory_used <= old(self).memory_used,
                self.n_files <= old(self).n_files,
                self.shapes() == base0.remove_keys(mounted_keys(mounts@.take(mi as int), acv_name@)),
                (mounted_keys(old(self).loaded@, acv_name@) == Set::<Key>::empty() ==> self.datasize == old(self).datasize
                    && self.n_bulletins == old(self).n_bulletins && self.n_archives == old(self).n_archives),
            decreases mounts@.len() - mi,
        {
            let ghost done = mounted_keys(mounts@.take(mi as int), acv_name@);
            if mounts[mi].name == *acv_name {
                let keys = &mounts[mi].keys;
                let mut kj: usize = 0;
                while kj < keys.len()
                    invariant
                        self.wf(),
                        self.same_config(old(self)),
                        mi < mounts@.len(),
                        mounts@[mi as int].name@ == acv_name@,
                        mounts@ == old(self).loaded@,
                        (mounted_keys(old(self).loaded@, acv_name@) == Set::<Key>::empty() ==> self.datasize == old(self).datasize
                            && self.n_bulletins == old(self).n_bulletins && self.n_archives == old(self).n_archives),
                        keys == mounts@[mi as int].keys,
                        kj <= keys@.len(),
                        self.datasize <= old(self).datasize,
                        self.n_bulletins <= old(self).n_bulletins,
                        self.n_archives <= old(self).n_archives,
                        self.memory_used <= old(self).memory_used,
                        self.n_files <= old(self).n_files,
                        self.shapes() == base0.remove_keys(done).remove_keys(
                            Set::new(|k: Key| exists|j: int| 0 <= j < kj && (keys@[j].0@, keys@[j].1@) == k),
                        ),
                    decreases keys@.len() - kj,
                {
                    let ghost sh = self.shapes();
                    let ghost k = (keys@[kj as int].0@, keys@[kj as int].1@);
                    match self.find(&keys[kj].0, &keys[kj].1) {
                        Some(i) => {
                            proof {
                                assert(mounts@[mi as int].keys@[kj as int] == keys@[kj as int]);
                                assert(mounted_keys(old(self).loaded@, acv_name@).contains(k));
                            }
                            let _ = self.take_entry(i);
                            proof {
                                assert(self.shapes() =~= sh.remove(k));
                            }
                        },
                        None => {
                            proof {
                                assert(sh.remove(k) =~= sh);
                            }
                        },
                    }
                    proof {
                        assert(self.shapes() =~= base0.remove_keys(done).remove_keys(
                            Set::new(|k2: Key| exists|j: int| 0 <= j < kj + 1 && (keys@[j].0@, keys@[j].1@) == k2),
                        ));
                    }
                    kj = kj + 1;
                }
                proof {
                    assert(mounted_keys(mounts@.take(mi + 1), acv_name@) =~= done + Set::new(
                        |k: Key| exists|j: int| 0 <= j < kj && (keys@[j].0@, keys@[j].1@) == k,
                    )) by {
                        assert forall|k: Key| #[trigger] mounted_keys(mounts@.take(mi + 1), acv_name@).contains(k) implies done.contains(k) || exists|j: int| 0 <= j < kj && (keys@[j].0@, keys@[j].1@) == k by {
                            let (a, j) = choose|a: int, j: int| #![trigger mounts@.take(mi + 1)[a].keys@[j]] 0 <= a < mi + 1 && mounts@.take(mi + 1)[a].name@ == acv_name@
                                && 0 <= j < mounts@.take(mi + 1)[a].keys@.len() && (mounts@.take(mi + 1)[a].keys@[j].0@, mounts@.take(mi + 1)[a].keys@[j].1@) == k;
                            if a < mi {
                                assert(mounts@.take(mi as int)[a] == mounts@.take(mi + 1)[a]);
                            }
                        }
                        assert forall|k: Key| done.contains(k) implies #[trigger] mounted_keys(mounts@.take(mi + 1), acv_name@).contains(k) by {
                            let (a, j) = choose|a: int, j: int| #![trigger mounts@.take(mi as int)[a].keys@[j]] 0 <= a < mi && mounts@.take(mi as int)[a].name@ == acv_name@
                                && 0 <= j < mounts@.take(mi as int)[a].keys@.len() && (mounts@.take(mi as int)[a].keys@[j].0@, mounts@.take(mi as int)[a].keys@[j].1@) == k;
                            assert(mounts@.take(mi + 1)[a] == mounts@.take(mi as int)[a]);
                        }
                        assert forall|k: Key| (exists|j: int| 0 <= j < kj && (keys@[j].0@, keys@[j].1@) == k) implies #[trigger] mounted_keys(mounts@.take(mi + 1), acv_name@).contains(k) by {
                            assert(mounts@.take(mi + 1)[mi as int] == mounts@[mi as int]);
                        }
                    }
                    assert(self.shapes() =~= base0.remove_keys(mounted_keys(mounts@.take(mi + 1), acv_name@)));
                }
            } else {
                proof {
                    assert(mounted_keys(mounts@.take(mi + 1), acv_name@) =~= done) by {
                        assert forall|k: Key| #[trigger] mounted_keys(mounts@.take(mi + 1), acv_name@).contains(k) implies done.contains(k) by {
                            let (a, j) = choose|a: int, j: int| #![trigger mounts@.take(mi + 1)[a].keys@[j]] 0 <= a < mi + 1 && mounts@.take(mi + 1)[a].name@ == acv_name@
                                && 0 <= j < mounts@.take(mi + 1)[a].keys@.len() && (mounts@.take(mi + 1)[a].keys@[j].0@, mounts@.take(mi + 1)[a].keys@[j].1@) == k;
                            assert(mounts@.take(mi as int)[a] == mounts@.take(mi + 1)[a]);
                        }
                        assert forall|k: Key| done.contains(k) implies #[trigger] mounted_keys(mounts@.take(mi + 1), acv_name@).contains(k) by {
                            let (a, j) = choose|a: int, j: int| #![trigger mounts@.take(mi as int)[a].keys@[j]] 0 <= a < mi && mounts@.take(mi as int)[a].name@ == acv_name@
                                && 0 <= j < mounts@.take(mi as int)[a].keys@.len() && (mounts@.take(mi as int)[a].keys@[j].0@, mounts@.take(mi as int)[a].keys@[j].1@) == k;
                            assert(mounts@.take(mi + 1)[a] == mounts@.take(mi as int)[a]);
                        }
                    }
                }
            }
            mi = mi + 1;
        }
        proof {
            assert(mounts@.take(mi as int) =~= mounts@);
        }
        // Mount each block.
        let ghost base = self.shapes();
        let ghost a0 = self.n_archives;
        let ghost n0 = self.n_bulletins;
        let ghost d0 = self.datasize;
        let mut new_keys: Vec<(String, String)> = Vec::new();
        let mut bi: usize = 0;
        while bi < blocks.len()
            invariant
                self.wf(),
                self.same_config(old(self)),
                bs == blocks_view(blocks@),
                bi <= blocks@.len(),
                self.shapes() == mount_blocks(base, acv_name@, bs.take(bi as int)),
                mounts@ == old(self).loaded@,
                new_keys@.len() == bi,
                forall|j: int| 0 <= j < bi ==> (#[trigger] new_keys@[j].0@, new_keys@[j].1@) == mount_key(acv_name@, bs[j]),
                self.n_archives == a0 + block_records(bs.take(bi as int)),
                self.n_bulletins == n0 + block_records(bs.take(bi as int)),
                self.datasize == d0 + block_bytes_total(bs.take(bi as int)),
                (mounted_keys(old(self).loaded@, acv_name@) == Set::<Key>::empty() ==> d0 == old(self).datasize
                    && n0 == old(self).n_bulletins && a0 == old(self).n_archives),
                self.datasize + (block_bytes_total(bs) - block_bytes_total(bs.take(bi as int))) <= u64::MAX,
                self.n_bulletins + (block_records(bs) - block_records(bs.take(bi as int))) <= u64::MAX,
                self.n_archives + (block_records(bs) - block_records(bs.take(bi as int))) <= u64::MAX,
                block_bytes_total(bs.take(bi as int)) <= block_bytes_total(bs),
                block_records(bs.take(bi as int)) <= block_records(bs),
                self.memory_used <= old(self).memory_used,
                self.n_files <= old(self).n_files,
            decreases blocks@.len() - bi,
        {
            let block = &blocks[bi];
            let ghost bv = bs[bi as int];
            let mut key_tag = crate::text::join2(acv_name.as_str(), ":");
            key_tag.append(block.tag.as_str());
            let ghost k = (block.title@, key_tag@);
            assert(k == mount_key(acv_name@, bv));
            let ghost m2 = self.shapes();
            let ghost before = if m2.contains_key(k) { m2[k] } else { Seq::<RevView>::empty() };
            proof {
                lemma_blocks_total_step(bs, bi as int);
            }
            let mut j: usize = 0;
            while j < block.records.len()
                invariant
                    self.wf(),
                    self.same_config(old(self)),
                    bs == blocks_view(blocks@),
                    bi < blocks@.len(),
                    bv == bs[bi as int],
                    block.records@ == bv.records,
                    block.title@ == bv.title,
                    k == (block.title@, key_tag@),
                    mounts@ == old(self).loaded@,
                    new_keys@.len() == bi,
                    forall|j2: int| 0 <= j2 < bi ==> (#[trigger] new_keys@[j2].0@, new_keys@[j2].1@) == mount_key(acv_name@, bs[j2]),
                    self.n_archives == a0 + block_records(bs.take(bi as int)) + j,
                    self.n_bulletins == n0 + block_records(bs.take(bi as int)) + j,
                    self.datasize == d0 + block_bytes_total(bs.take(bi as int)) + record_bytes_total(bv.records.take(j as int)),
                    (mounted_keys(old(self).loaded@, acv_name@) == Set::<Key>::empty() ==> d0 == old(self).datasize
                        && n0 == old(self).n_bulletins && a0 == old(self).n_archives),
                    j <= bv.records.len(),
                    j > 0 ==> self.shapes() == m2.insert(k, before + mounted_all(acv_name@, bv.records.take(j as int))),
                    j == 0 ==> self.shapes() == m2,
                    before == (if m2.contains_key(k) { m2[k] } else { Seq::<RevView>::empty() }),
                    self.datasize + (record_bytes_total(bv.records) - record_bytes_total(bv.records.take(j as int))) + (block_bytes_total(bs) - block_bytes_total(bs.take(bi + 1))) <= u64::MAX,
                    self.n_bulletins + (bv.records.len() - j) + (block_records(bs) - block_records(bs.take(bi + 1))) <= u64::MAX,
                    self.n_archives + (bv.records.len() - j) + (block_records(bs) - block_records(bs.take(bi + 1))) <= u64::MAX,
                    self.memory_used <= old(self).memory_used,
                    self.n_files <= old(self).n_files,
                    record_bytes_total(bv.records.take(j as int)) <= record_bytes_total(bv.records),
                    block_bytes_total(bs.take(bi + 1)) <= block_bytes_total(bs),
                    block_records(bs.take(bi + 1)) <= block_records(bs),
                decreases bv.records.len() - j,
            {
                let rec = block.records[j];
                let b = Bulletin::from_archive(acv_name.as_str(), rec.offset, rec.datasize, rec.timestamp);
                let ghost old_board = *self;
                proof {
                    lemma_records_total_step(bv.records, j as int);
                    assert(stat(b, Counter::Size) == rec.datasize);
                    assert(stat(b, Counter::Memory) == 0);
                    assert(stat(b, Counter::Live) == 1);
                    assert(stat(b, Counter::Files) == 0);
                    assert(stat(b, Counter::Archived) == 1);
                    assert(rec == bv.records[j as int]);
                    assert forall|c: Counter| #![auto] entry_sum(self.entries@, c) + stat(b, c) <= u64::MAX by {
                        match c {
                            Counter::Size => {
                                assert(entry_sum(self.entries@, Counter::Size) == self.datasize);
                            },
                            Counter::Memory => {
                                assert(entry_sum(self.entries@, Counter::Memory) == self.memory_used);
                            },
                            Counter::Live => {
                                assert(entry_sum(self.entries@, Counter::Live) == self.n_bulletins);
                            },
                            Counter::Files => {
                                assert(entry_sum(self.entries@, Counter::Files) == self.n_files);
                            },
                            Counter::Archived => {
                                assert(entry_sum(self.entries@, Counter::Archived) == self.n_archives);
                            },
                        }
                    }
                }
                self.push_revision(block.title.clone(), key_tag.clone(), b);
                proof {
                    BulletinBoard::lemma_shapes_push(&old_board, self, k, b);
                    assert(rev_view(b) == mounted(acv_name@, rec));
                    let mr = mounted(acv_name@, rec);
                    let xs = mounted_all(acv_name@, bv.records.take(j as int));
                    let prev = if old_board.shapes().contains_key(k) { old_board.shapes()[k] } else { Seq::<RevView>::empty() };
                    assert(self.shapes() == old_board.shapes().insert(k, prev.push(mr)));
                    assert(bv.records.take(j + 1).drop_last() =~= bv.records.take(j as int));
                    assert(mounted_all(acv_name@, bv.records.take(j + 1)) == xs.push(mr));
                    if j == 0 {
                        assert(bv.records.take(0).len() == 0);
                        assert(xs == Seq::<RevView>::empty());
                        assert(old_board.shapes() == m2);
                        assert(prev == before);
                        assert(before + xs.push(mr) =~= before.push(mr));
                    } else {
                        assert(old_board.shapes() == m2.insert(k, before + xs));
                        assert(prev == before + xs);
                        assert((before + xs).push(mr) =~= before + xs.push(mr));
                        assert(m2.insert(k, before + xs).insert(k, (before + xs).push(mr)) =~= m2.insert(k, before + xs.push(mr)));
                    }
                    assert(bv.records.take(j + 1).drop_last() =~= bv.records.take(j as int));
                    assert(mounted_all(acv_name@, bv.records.take(j + 1))
                        == mounted_all(acv_name@, bv.records.take(j as int)).push(mounted(acv_name@, rec)));
                    assert(self.shapes() =~= m2.insert(k, before + mounted_all(acv_name@, bv.records.take(j + 1))));
                    assert(stat(b, Counter::Size) == rec.datasize);
                }
                j = j + 1;
            }
            new_keys.push((block.title.clone(), key_tag));
            proof {
                assert(bv.records.take(j as int) =~= bv.records);
                lemma_mount_step(base, acv_name@, bs, bi as int);
                lemma_blocks_total_step(bs, bi as int);
            }
            bi = bi + 1;
        }
        proof {
            assert(bs.take(bi as int) =~= bs);
        }
        proof {
            assert forall|n: Seq<char>| n != acv_name@ implies #[trigger] mounted_keys(old(self).loaded@, n)
                == mounted_keys(kept@, n).union(mounted_keys(mounts@, n)) by {
                lemma_mounted_keys_empty(n);
                assert(kept@ =~= Seq::<Mount>::empty());
                assert(mounted_keys(kept@, n).union(mounted_keys(mounts@, n)) =~= mounted_keys(mounts@, n));
            }
        }
        while mounts.len() > 0
            invariant
                self.wf(),
                self.same_config(old(self)),
                forall|i: int| 0 <= i < kept@.len() ==> (#[trigger] kept@[i]).name@ != acv_name@,
                forall|n: Seq<char>| n != acv_name@ ==> #[trigger] mounted_keys(old(self).loaded@, n)
                    == mounted_keys(kept@, n).union(mounted_keys(mounts@, n)),
            decreases mounts@.len(),
        {
            let ghost before_kept = kept@;
            let ghost before_mounts = mounts@;
            let m = mounts.pop().unwrap();
            let keep = !(m.name == *acv_name);
            if keep {
                kept.push(m);
            }
            proof {
                assert(before_mounts =~= mounts@.push(m));
                assert forall|n: Seq<char>| n != acv_name@ implies #[trigger] mounted_keys(old(self).loaded@, n)
                    == mounted_keys(kept@, n).union(mounted_keys(mounts@, n)) by {
                    lemma_mounted_keys_push(mounts@, m, n);
                    lemma_mounted_keys_push(before_kept, m, n);
                    if keep {
                        assert(mounted_keys(kept@, n).union(mounted_keys(mounts@, n)) =~= mounted_keys(before_kept, n).union(
                            mounted_keys(before_mounts, n),
                        ));
                    } else {
                        assert(mount_contrib(m, n) =~= Set::<Key>::empty());
                        assert(mounted_keys(kept@, n).union(mounted_keys(mounts@, n)) =~= mounted_keys(before_kept, n).union(
                            mounted_keys(before_mounts, n),
                        ));
                    }
                }
            }
        }
        let ghost kept0 = kept@;
        let mount = Mount { name: acv_name.clone(), keys: new_keys };
        kept.push(mount);
        self.loaded = kept;
        proof {
            lemma_mounted_keys_push(kept0, mount, acv_name@);
            assert(mounted_keys(kept0, acv_name@) =~= Set::<Key>::empty()) by {
                assert forall|k: Key| !#[trigger] mounted_keys(kept0, acv_name@).contains(k) by {
                    if mounted_keys(kept0, acv_name@).contains(k) {
                        let (i, j) = choose|i: int, j: int| #![trigger kept0[i].keys@[j]] 0 <= i < kept0.len()
                            && kept0[i].name@ == acv_name@ && 0 <= j < kept0[i].keys@.len()
                            && (kept0[i].keys@[j].0@, kept0[i].keys@[j].1@) == k;
                    }
                }
            }
            assert(bs.len() == blocks@.len());
            assert forall|k: Key| #[trigger] mount_contrib(mount, acv_name@).contains(k) implies mount_keys_of(acv_name@, bs).contains(k) by {
                let j = choose|j: int| 0 <= j < mount.keys@.len() && (mount.keys@[j].0@, mount.keys@[j].1@) == k;
                assert(mount_key(acv_name@, bs[j]) == k);
            }
            assert forall|k: Key| #[trigger] mount_keys_of(acv_name@, bs).contains(k) implies mount_contrib(mount, acv_name@).contains(k) by {
                let j = choose|j: int| 0 <= j < bs.len() && mount_key(acv_name@, bs[j]) == k;
                assert((mount.keys@[j].0@, mount.keys@[j].1@) == k);
            }
            assert(mount_contrib(mount, acv_name@) =~= mount_keys_of(acv_name@, bs));
            assert(mounted_keys(self.loaded@, acv_name@) =~= mount_keys_of(acv_name@, bs));
            assert forall|n: Seq<char>| n != acv_name@ implies #[trigger] mounted_keys(self.loaded@, n)
                == mounted_keys(old(self).loaded@, n) by {
                lemma_mounted_keys_push(kept0, mount, n);
                lemma_mounted_keys_empty(n);
                assert(mount_contrib(mount, n) =~= Set::<Key>::empty());
                assert(mounted_keys(self.loaded@, n) =~= mounted_keys(kept0, n));
                assert(mounted_keys(kept0, n).union(Set::<Key>::empty()) =~= mounted_keys(kept0, n));
            }
        }
        Ok(())
    }
}

/// The bytes that archiving every key would append.
pub open spec fn live_bytes_all(es: Seq<Entry>) -> nat
    decreases es.len(),
{
    if es.len() == 0 {
        0
    } else {
        live_bytes_all(es.drop_last()) + bytes_total(live_of(es.last().revisions@))
    }
}

proof fn lemma_live_bytes_all_first(es: Seq<Entry>)
    requires
        es.len() > 0,
    ensures
        live_bytes_all(es) == bytes_total(live_of(es[0].revisions@)) + live_bytes_all(es.remove(0)),
    decreases es.len(),
{
    if es.len() == 1 {
        assert(es.remove(0) =~= Seq::<Entry>::empty());
        assert(es.drop_last() =~= Seq::<Entry>::empty());
    } else {
        lemma_live_bytes_all_first(es.drop_last());
        assert(es.remove(0).drop_last() =~= es.drop_last().remove(0));
        assert(es.drop_last()[0] == es[0]);
    }
}

/// The data file's length after the first `q` plans of a dump that started
/// at `data_len`.
pub open spec fn dump_base(plans: Seq<ArchivePlan>, data_len: u64, q: int) -> u64 {
    if q == 0 { data_len } else { plans[q - 1].data_end }
}

impl BulletinBoard {
    /// Archives every key into archive `acv_name`, in the board's order,
    /// whose data file is `data_len` bytes long. Gives one plan per key.
    /// Fails, changing nothing, when the data file would grow past the
    /// range of `u64`.
    #[verifier::rlimit(80)]
    pub fn dump(&mut self, acv_name: &String, data_len: u64) -> (r: Result<Vec<ArchivePlan>, BoardError>)
        requires
            old(self).wf(),
        ensures
            final(self).wf(),
            data_len + live_bytes_all(old(self).entries@) > u64::MAX ==> r == Err::<Vec<ArchivePlan>, BoardError>(BoardError::Full)
                && *final(self) == *old(self),
            data_len + live_bytes_all(old(self).entries@) <= u64::MAX ==> (r matches Ok(plans) && {
                &&& final(self).entries@.len() == 0
                &&& final(self).same_config(old(self))
                &&& plans@.len() == old(self).entries@.len()
                &&& forall|q: int| 0 <= q < plans@.len() ==> plan_for(
                    #[trigger] plans@[q],
                    acv_name@,
                    old(self).acv_dir@,
                    entry_key(old(self).entries@[q]),
                    old(self).entries@[q].revisions@,
                    dump_base(plans@, data_len, q),
                )
            }),
    {
        let n = self.entries.len();
        let mut total: u64 = 0;
        let mut q: usize = 0;
        while q < n
            invariant
                self.wf(),
                *self == *old(self),
                n == self.entries@.len(),
                q <= n,
                total == live_bytes_all(self.entries@.take(q as int)),
                data_len + total <= u64::MAX,
            decreases n - q,
        {
            proof {
                assert(self.entries@.take(q + 1).drop_last() =~= self.entries@.take(q as int));
            }
            let t = self.live_bytes(q);
            if t > u64::MAX - data_len - total {
                proof {
                    self.lemma_live_bytes_all_prefix(q as int + 1);
                }
                return Err(BoardError::Full);
            }
            total = total + t;
            q = q + 1;
        }
        proof {
            assert(self.entries@.take(n as int) =~= self.entries@);
        }
        let ghost es0 = self.entries@;
        let mut plans: Vec<ArchivePlan> = Vec::new();
        let mut dl: u64 = data_len;
        while self.entries.len() > 0
            invariant
                self.wf(),
                self.same_config(old(self)),
                es0 == old(self).entries@,
                plans@.len() + self.entries@.len() == es0.len(),
                self.entries@ == es0.skip(plans@.len() as int),
                dl == dump_base(plans@, data_len, plans@.len() as int),
                dl + live_bytes_all(self.entries@) <= u64::MAX,
                forall|q: int| 0 <= q < plans@.len() ==> plan_for(
                    #[trigger] plans@[q],
                    acv_name@,
                    old(self).acv_dir@,
                    entry_key(es0[q]),
                    es0[q].revisions@,
                    dump_base(plans@, data_len, q),
                ),
            decreases self.entries@.len(),
        {
            let title = self.entries[0].title.clone();
            let tag = self.entries[0].tag.clone();
            let ghost before = *self;
            proof {
                lemma_live_bytes_all_first(self.entries@);
                lemma_index_has(self.entries@, 0);
            }
            let res = self.archive(acv_name, &title, &tag, dl);
            let plan = match res {
                Ok(p) => p,
                Err(_) => {
                    proof {
                        assert(false);
                    }
                    return Err(BoardError::Full);
                },
            };
            proof {
                assert(before.revisions_of((title@, tag@)) == before.entries@[0].revisions@);
                assert(self.entries@ == before.entries@.remove(0));
                assert(es0.skip((plans@.len() + 1) as int) =~= es0.skip(plans@.len() as int).remove(0));
            }
            dl = plan.data_end;
            plans.push(plan);
            proof {
                assert forall|q: int| 0 <= q < plans@.len() implies plan_for(
                    #[trigger] plans@[q],
                    acv_name@,
                    old(self).acv_dir@,
                    entry_key(es0[q]),
                    es0[q].revisions@,
                    dump_base(plans@, data_len, q),
                ) by {
                    if q < plans@.len() - 1 {
                        assert(plans@[q] == plans@.drop_last()[q]);
                        if q > 0 {
                            assert(plans@[q - 1] == plans@.drop_last()[q - 1]);
                        }
                    } else {
                        assert(es0[q] == before.entries@[0]);
                        if q > 0 {
                            assert(plans@[q - 1] == plans@.drop_last()[q - 1]);
                        }
                    }
                }
            }
        }
        Ok(plans)
    }

    proof fn lemma_live_bytes_all_prefix(&self, q: int)
        requires
            0 <= q <= self.entries@.len(),
        ensures
            live_bytes_all(self.entries@.take(q)) <= live_bytes_all(self.entries@),
        decreases self.entries@.len() - q,
    {
        if q == self.entries@.len() {
            assert(self.entries@.take(q) =~= self.entries@);
        } else {
            self.lemma_live_bytes_all_prefix(q + 1);
            assert(self.entries@.take(q + 1).drop_last() =~= self.entries@.take(q));
        }
    }

    /// The bytes that archiving entry `q` would append.
    fn live_bytes(&self, q: usize) -> (r: u64)
        requires
            self.wf(),
            q < self.entries@.len(),
        ensures
            r == bytes_total(live_of(self.entries@[q as int].revisions@)),
    {
        let revs = &self.entries[q].revisions;
        let ghost rs = revs@;
        proof {
            self.lemma_entry_bounded(q as int);
            lemma_live_le_size(rs);
        }
        let mut total: u64 = 0;
        let mut k: usize = 0;
        while k < revs.len()
            invariant
                rs == revs@,
                k <= rs.len(),
                total == bytes_total(live_of(rs.take(k as int))),
                bytes_total(live_of(rs)) <= u64::MAX,
            decreases rs.len() - k,
        {
            proof {
                lemma_live_take(rs, k as int);
                let l = live_of(rs.take(k as int));
                assert(l.push(rs[k as int]).drop_last() =~= l);
                lemma_live_bytes_grow(rs, k + 1);
            }
            if matches!(revs[k].data, BulletinBackend::Memory(_)) || matches!(revs[k].data, BulletinBackend::File(_)) {
                total = total + revs[k].datasize;
            }
            k = k + 1;
        }
        proof {
            assert(rs.take(k as int) =~= rs);
        }
        total
    }
}

proof fn lemma_live_le_size(rs: Seq<Bulletin>)
    ensures
        bytes_total(live_of(rs)) <= rev_sum(rs, Counter::Size),
    decreases rs.len(),
{
    if rs.len() > 0 {
        lemma_live_le_size(rs.drop_last());
        let l = live_of(rs.drop_last());
        assert(l.push(rs.last()).drop_last() =~= l);
    }
}

/// One revision to restore: its key and its record in the archive.
#[derive(Clone, Debug)]
pub struct RestoreItem {
    pub title: String,
    pub tag: String,
    pub record: ArchiveRecord,
}

/// The records to restore from an archive, in the order they were written,
/// and the data file they are read from.
#[derive(Clone, Debug)]
pub struct RestorePlan {
    pub data_path: String,
    pub items: Vec<RestoreItem>,
}

/// The records of a list of blocks, each with its block's key, in order.
pub open spec fn restore_items(bs: Seq<BlockView>) -> Seq<(Key, ArchiveRecord)>
    decreases bs.len(),
{
    if bs.len() == 0 {
        Seq::empty()
    } else {
        restore_items(bs.drop_last()) + bs.last().records.map_values(|r: ArchiveRecord| ((bs.last().title, bs.last().tag), r))
    }
}

pub open spec fn item_view(i: RestoreItem) -> (Key, ArchiveRecord) {
    ((i.title@, i.tag@), i.record)
}

impl BulletinBoard {
    /// Replaces the board with an empty one with the same configuration.
    pub fn reset(&mut self)
        ensures
            final(self).wf(),
            final(self).entries@.len() == 0,
            final(self).index() == Map::<Key, Seq<Bulletin>>::empty(),
            final(self).loaded@.len() == 0,
            final(self).same_config(old(self)),
            final(self).datasize == 0 && final(self).memory_used == 0 && final(self).n_bulletins == 0
                && final(self).n_files == 0 && final(self).n_archives == 0,
    {
        self.entries = Vec::new();
        self.loaded = Vec::new();
        self.datasize = 0;
        self.memory_used = 0;
        self.n_bulletins = 0;
        self.n_files = 0;
        self.n_archives = 0;
        assert(self.index() =~= Map::<Key, Seq<Bulletin>>::empty());
    }

    /// Reads what is to be restored from archive `acv_name`, from the bytes
    /// of its metadata file. Fails when they cannot be read.
    pub fn restore_plan(&self, acv_name: &String, meta: &[u8]) -> (r: Result<RestorePlan, BoardError>)
        ensures
            r matches Ok(p) ==> p.data_path@ == crate::bulletin::data_path_text(self.acv_dir@, acv_name@),
            forall|bs: Seq<BlockView>|
                #![trigger meta_bytes(bs)]
                meta_fits(bs) && meta@ == meta_bytes(bs) ==> (r matches Ok(p)
                    && p.items@.map_values(|i: RestoreItem| item_view(i)) == restore_items(bs)),
    {
        let blocks = match parse_meta(meta) {
            Ok(b) => b,
            Err(_) => return Err(BoardError::Corrupt),
        };
        let ghost bs = blocks_view(blocks@);
        let mut items: Vec<RestoreItem> = Vec::new();
        let mut bi: usize = 0;
        while bi < blocks.len()
            invariant
                bs == blocks_view(blocks@),
                bi <= blocks@.len(),
                items@.map_values(|i: RestoreItem| item_view(i)) == restore_items(bs.take(bi as int)),
            decreases blocks@.len() - bi,
        {
            let block = &blocks[bi];
            let ghost bv = bs[bi as int];
            let ghost start = items@.map_values(|i: RestoreItem| item_view(i));
            let mut j: usize = 0;
            while j < block.records.len()
                invariant
                    bs == blocks_view(blocks@),
                    bi < blocks@.len(),
                    bv == bs[bi as int],
                    block.records@ == bv.records,
                    block.title@ == bv.title,
                    block.tag@ == bv.tag,
                    j <= bv.records.len(),
                    items@.map_values(|i: RestoreItem| item_view(i)) == start + bv.records.take(j as int).map_values(
                        |r: ArchiveRecord| ((bv.title, bv.tag), r),
                    ),
                decreases bv.records.len() - j,
            {
                let ghost old_items = items@;
                let item = RestoreItem { title: block.title.clone(), tag: block.tag.clone(), record: block.records[j] };
                items.push(item);
                proof {
                    let f = |i: RestoreItem| item_view(i);
                    let g = |r: ArchiveRecord| ((bv.title, bv.tag), r);
                    assert(items@ == old_items.push(item));
                    assert(items@.map_values(f) =~= old_items.map_values(f).push(f(item)));
                    assert(f(item) == g(bv.records[j as int]));
                    assert(bv.records.take(j + 1).map_values(g) =~= bv.records.take(j as int).map_values(g).push(g(bv.records[j as int])));
                    assert(items@.map_values(f) =~= start + bv.records.take(j + 1).map_values(g));
                }
                j = j + 1;
            }
            proof {
                assert(bv.records.take(j as int) =~= bv.records);
                assert(bs.take(bi + 1).drop_last() =~= bs.take(bi as int));
            }
            bi = bi + 1;
        }
        proof {
            assert(bs.take(bi as int) =~= bs);
        }
        Ok(RestorePlan { data_path: crate::bulletin::data_path(self.acv_dir.as_str(), acv_name.as_str()), items })
    }

    /// Posts restored bytes under (title, tag) with the timestamp they were
    /// archived with; tiered as any post.
    pub fn restore_record(&mut self, title: String, tag: String, data: Vec<u8>, timestamp: i64) -> (r: Result<Option<SpoolWrite>, BoardError>)
        requires
            old(self).wf(),
        ensures
            final(self).wf(),
            ({
                let b = Bulletin { data: BulletinBackend::Memory(data), datasize: data@.len() as u64, timestamp };
                &&& old(self).post_overflows(data@.len() as u64) ==> r == Err::<Option<SpoolWrite>, BoardError>(
                    BoardError::Full,
                ) && *final(self) == *old(self)
                &&& !old(self).post_overflows(data@.len() as u64) ==> (r matches Ok(spool) && BulletinBoard::posted(
                    old(self),
                    final(self),
                    (title@, tag@),
                    b,
                    spool,
                ))
            }),
    {
        let n = data.len();
        assert(n as u64 == n);
        let mut b = Bulletin::from_data(data);
        b.timestamp = timestamp;
        self.post(title, tag, b)
    }
}

} // verus!

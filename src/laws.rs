//! Laws relating the board's operations to each other, stated over the
//! same spec functions as the operations' contracts.
use vstd::prelude::*;
use crate::board::{Counter, rev_sum, block_records, mount_keys_of, Entry, entry_key, plan_for, dump_base, restore_items, BulletinBoard, Key, ArchivePlan, RevView, pick, clear_listed, live_of, bytes_total, records_for, mount_blocks, mounted_keys, mount_key, mounted, mounted_all, source_of};
use crate::bulletin::{Bulletin, BulletinBackend, SpoolWrite};
use crate::codec::{ArchiveRecord, BlockView, meta_bytes, block_bytes};
use crate::server::{readable, ArchiveChange};

verus! {

/// Reading the latest revision of a key right after posting a payload
/// under it gives the payload: from memory, or from the spool file that
/// the post wrote it to.
pub proof fn post_then_read(old: BulletinBoard, new: BulletinBoard, k: Key, b: Bulletin, spool: Option<SpoolWrite>, data: Seq<u8>)
    requires
        b.data matches BulletinBackend::Memory(v) && v@ == data,
        BulletinBoard::posted(&old, &new, k, b, spool),
    ensures
        readable(new.revisions_of(k), None),
        pick(new.revisions_of(k), None) matches Some(s) && match s.data {
            BulletinBackend::Memory(v) => v@ == data && spool is None,
            BulletinBackend::File(p) => spool matches Some(w) && w.path == p && w.data@ == data,
            _ => false,
        },
{
    assert(new.index().contains_key(k));
}

/// Two posts under a new key make revisions 0 and 1, both readable;
/// clearing revision 0 then leaves revision 1 readable, as it was, and
/// revision 0 not.
pub proof fn two_posts_then_clear(
    b0: BulletinBoard,
    b1: BulletinBoard,
    b2: BulletinBoard,
    b3: BulletinBoard,
    k: Key,
    x: Bulletin,
    y: Bulletin,
    sx: Option<SpoolWrite>,
    sy: Option<SpoolWrite>,
)
    requires
        !b0.index().contains_key(k),
        x.data is Memory,
        y.data is Memory,
        BulletinBoard::posted(&b0, &b1, k, x, sx),
        BulletinBoard::posted(&b1, &b2, k, y, sy),
        b3.index() == b2.index().insert(k, clear_listed(b2.revisions_of(k), seq![0u64])),
    ensures
        b2.revisions_of(k).len() == 2,
        readable(b2.revisions_of(k), Some(0)),
        readable(b2.revisions_of(k), Some(1)),
        !readable(b3.revisions_of(k), Some(0)),
        readable(b3.revisions_of(k), Some(1)),
        pick(b3.revisions_of(k), Some(1)) == pick(b2.revisions_of(k), Some(1)),
{
    assert(b1.revisions_of(k) =~= seq![BulletinBoard::stored(x, sx)]);
    assert(b2.revisions_of(k) =~= seq![BulletinBoard::stored(x, sx), BulletinBoard::stored(y, sy)]);
    let listed = seq![0u64];
    assert(listed.contains(0u64)) by {
        assert(listed[0] == 0u64);
    }
    assert(!listed.contains(1u64));
    assert(b3.index().contains_key(k));
}

/// A payload under the file threshold, with room under the memory limit,
/// stays in memory and leaves the count of spool files as it was; any other
/// payload goes to a new spool file and leaves the memory in use as it was.
pub proof fn tiering(old: BulletinBoard, new: BulletinBoard, k: Key, b: Bulletin, spool: Option<SpoolWrite>)
    requires
        BulletinBoard::posted(&old, &new, k, b, spool),
    ensures
        b.datasize < old.file_threshold && old.memory_used + b.datasize < old.tot_mem_limit ==> spool is None
            && new.n_files == old.n_files && new.memory_used == old.memory_used + b.datasize,
        !(b.datasize < old.file_threshold && old.memory_used + b.datasize < old.tot_mem_limit) ==> spool is Some
            && new.n_files == old.n_files + 1 && new.memory_used == old.memory_used,
{
}

/// Archiving a key, appending what the archive asks for to the archive's
/// files, and loading the archive mounts the key under `<name>:<tag>`; its
/// latest revision is read from the offset where the latest live revision's
/// bytes were appended, with their size. The metadata file stays a
/// sequence of blocks, the new block last.
pub proof fn archive_then_load(
    b0: BulletinBoard,
    b1: BulletinBoard,
    b2: BulletinBoard,
    name: Seq<char>,
    k: Key,
    data_len: u64,
    plan: ArchivePlan,
    bs: Seq<BlockView>,
)
    requires
        BulletinBoard::archived(&b0, &b1, name, k, data_len, plan),
        live_of(b0.revisions_of(k)).len() > 0,
        b2.shapes() == mount_blocks(
            b1.shapes().remove_keys(mounted_keys(b1.loaded@, name)),
            name,
            bs.push(BlockView { title: k.0, tag: k.1, records: plan.records@ }),
        ),
    ensures
        ({
            let ls = live_of(b0.revisions_of(k));
            let bv = BlockView { title: k.0, tag: k.1, records: plan.records@ };
            let key = (k.0, name + ":"@ + k.1);
            let last = plan.records@.last();
            &&& meta_bytes(bs) + plan.meta@ == meta_bytes(bs.push(bv))
            &&& b2.shapes().contains_key(key)
            &&& b2.shapes()[key].last() == mounted(name, last)
            &&& last.offset == data_len + bytes_total(ls.drop_last())
            &&& last.datasize == ls.last().datasize
            &&& source_of(plan.chunks@.last(), ls.last(), b0.acv_dir@)
        }),
{
    let ls = live_of(b0.revisions_of(k));
    let bv = BlockView { title: k.0, tag: k.1, records: plan.records@ };
    assert(bs.push(bv).drop_last() =~= bs);
    let recs = records_for(ls, data_len as nat);
    assert(recs.len() == ls.len()) by {
        lemma_records_len(ls, data_len as nat);
    }
    assert(plan.records@.last() == recs.last());
    let key = mount_key(name, bv);
    let m2 = mount_blocks(b1.shapes().remove_keys(mounted_keys(b1.loaded@, name)), name, bs);
    let before = if m2.contains_key(key) { m2[key] } else { Seq::<RevView>::empty() };
    assert(b2.shapes() == m2.insert(key, before + mounted_all(name, bv.records)));
    lemma_mounted_all_len(name, bv.records);
    assert((before + mounted_all(name, bv.records)).last() == mounted_all(name, bv.records).last());
    assert(plan.chunks@.last() == plan.chunks@[ls.len() - 1]);
    assert(ls.last() == ls[ls.len() - 1]);
}

proof fn lemma_records_len(ls: Seq<Bulletin>, base: nat)
    ensures
        records_for(ls, base).len() == ls.len(),
    decreases ls.len(),
{
    if ls.len() > 0 {
        lemma_records_len(ls.drop_last(), base);
    }
}

proof fn lemma_mounted_all_len(name: Seq<char>, rs: Seq<crate::codec::ArchiveRecord>)
    ensures
        mounted_all(name, rs).len() == rs.len(),
    decreases rs.len(),
{
    if rs.len() > 0 {
        lemma_mounted_all_len(name, rs.drop_last());
    }
}

/// The archive directory names after applying queued changes, in order.
pub open spec fn apply_changes(names: Set<Seq<char>>, changes: Seq<(Seq<char>, Option<Seq<char>>)>) -> Set<Seq<char>>
    decreases changes.len(),
{
    if changes.len() == 0 {
        names
    } else {
        let before = apply_changes(names, changes.drop_last());
        let (from, to) = changes.last();
        match to {
            Some(t) => if before.contains(from) { before.remove(from).insert(t) } else { before },
            None => before.remove(from),
        }
    }
}

pub open spec fn change_view(c: ArchiveChange) -> (Seq<char>, Option<Seq<char>>) {
    (c.0@, match c.1 { Some(t) => Some(t@), None => None })
}

pub open spec fn changes_view(cs: Seq<ArchiveChange>) -> Seq<(Seq<char>, Option<Seq<char>>)> {
    cs.map_values(|c: ArchiveChange| change_view(c))
}

/// Asking for a rename changes neither the board nor the archives; it
/// waits in the queue until a reset hands the queue out. Applied then to
/// archives that hold `a` and not `b`, it leaves `b` there and not `a`.
pub proof fn rename_is_deferred(
    s0: crate::server::BBServer,
    s1: crate::server::BBServer,
    handed: Seq<ArchiveChange>,
    names: Set<Seq<char>>,
    a: String,
    b: String,
)
    requires
        s0.archive_manipulations@.len() == 0,
        a@.len() > 0 && b@.len() > 0,
        s1.bulletinboard == s0.bulletinboard,
        s1.archive_manipulations@ == s0.archive_manipulations@.push((a, Some(b))),
        handed == s1.archive_manipulations@,
        names.contains(a@),
        !names.contains(b@),
    ensures
        ({
            let after = apply_changes(names, changes_view(handed));
            &&& after.contains(b@)
            &&& !after.contains(a@)
        }),
{
    let cs = changes_view(handed);
    assert(cs.len() == 1);
    assert(cs.drop_last() =~= Seq::<(Seq<char>, Option<Seq<char>>)>::empty());
    assert(apply_changes(names, cs.drop_last()) == names);
    assert(cs.last() == (a@, Some(b@)));
    assert(a@ != b@);
    assert(apply_changes(names, cs) == names.remove(a@).insert(b@));
}

/// The blocks that the plans of a dump of the entries `es` append to the
/// metadata file, in order; a key with nothing to archive adds none.
pub open spec fn dumped_blocks(plans: Seq<ArchivePlan>, es: Seq<Entry>) -> Seq<BlockView>
    decreases plans.len(),
{
    if plans.len() == 0 {
        Seq::empty()
    } else {
        let rest = dumped_blocks(plans.drop_last(), es);
        let e = es[plans.len() - 1];
        if plans.last().records@.len() > 0 {
            rest.push(BlockView { title: e.title@, tag: e.tag@, records: plans.last().records@ })
        } else {
            rest
        }
    }
}

/// The metadata bytes that the plans append, one after the other.
pub open spec fn dumped_meta(plans: Seq<ArchivePlan>) -> Seq<u8>
    decreases plans.len(),
{
    if plans.len() == 0 {
        Seq::empty()
    } else {
        dumped_meta(plans.drop_last()) + plans.last().meta@
    }
}

/// Each archived revision of a dump, in order, with the key it was under.
pub open spec fn dumped_items(plans: Seq<ArchivePlan>, es: Seq<Entry>) -> Seq<(Key, ArchiveRecord)>
    decreases plans.len(),
{
    if plans.len() == 0 {
        Seq::empty()
    } else {
        let e = es[plans.len() - 1];
        dumped_items(plans.drop_last(), es) + plans.last().records@.map_values(
            |r: ArchiveRecord| (entry_key(e), r),
        )
    }
}

proof fn lemma_restore_items_push(bs: Seq<BlockView>, b: BlockView)
    ensures
        restore_items(bs.push(b)) == restore_items(bs) + b.records.map_values(|r: ArchiveRecord| ((b.title, b.tag), r)),
{
    assert(bs.push(b).drop_last() =~= bs);
}

/// Dumping a board and restoring the archive reads back, under each key's
/// own title and tag (no archive name is added), every live revision of
/// every key, keys in the board's order and revisions in their order, each
/// at the offset and with the size where the dump appended its bytes. The
/// metadata file stays a sequence of blocks, the dump's blocks last.
pub proof fn dump_then_restore(es: Seq<Entry>, name: Seq<char>, acv_dir: Seq<char>, data_len: u64, plans: Seq<ArchivePlan>, bs: Seq<BlockView>)
    requires
        plans.len() <= es.len(),
        forall|q: int| 0 <= q < plans.len() ==> plan_for(
            #[trigger] plans[q],
            name,
            acv_dir,
            entry_key(es[q]),
            es[q].revisions@,
            dump_base(plans, data_len, q),
        ),
    ensures
        meta_bytes(bs) + dumped_meta(plans) == meta_bytes(bs + dumped_blocks(plans, es)),
        restore_items(bs + dumped_blocks(plans, es)) == restore_items(bs) + dumped_items(plans, es),
        forall|q: int| 0 <= q < plans.len() ==> (#[trigger] plans[q]).records@ == records_for(
            live_of(es[q].revisions@),
            dump_base(plans, data_len, q) as nat,
        ),
    decreases plans.len(),
{
    if plans.len() == 0 {
        assert(bs + Seq::<BlockView>::empty() =~= bs);
        assert(meta_bytes(bs) + Seq::<u8>::empty() =~= meta_bytes(bs));
        assert(restore_items(bs) + Seq::<(Key, ArchiveRecord)>::empty() =~= restore_items(bs));
    } else {
        let init = plans.drop_last();
        let q = plans.len() - 1;
        assert forall|m: int| 0 <= m < init.len() implies plan_for(
            #[trigger] init[m],
            name,
            acv_dir,
            entry_key(es[m]),
            es[m].revisions@,
            dump_base(init, data_len, m),
        ) by {
            assert(init[m] == plans[m]);
            assert(dump_base(init, data_len, m) == dump_base(plans, data_len, m));
            assert(plan_for(plans[m], name, acv_dir, entry_key(es[m]), es[m].revisions@, dump_base(plans, data_len, m)));
        }
        dump_then_restore(es, name, acv_dir, data_len, init, bs);
        let p = plans.last();
        assert(plan_for(plans[q], name, acv_dir, entry_key(es[q]), es[q].revisions@, dump_base(plans, data_len, q)));
        let ls = live_of(es[q].revisions@);
        lemma_records_len(ls, dump_base(plans, data_len, q) as nat);
        let rest = dumped_blocks(init, es);
        let e = es[q];
        let f = |r: ArchiveRecord| (entry_key(e), r);
        if p.records@.len() > 0 {
            let bv = BlockView { title: e.title@, tag: e.tag@, records: p.records@ };
            assert(dumped_blocks(plans, es) == rest.push(bv));
            assert((bs + rest.push(bv)).drop_last() =~= bs + rest);
            assert(meta_bytes(bs + rest.push(bv)) == meta_bytes(bs + rest) + block_bytes(bv));
            assert(p.meta@ == block_bytes(bv));
            assert(meta_bytes(bs) + dumped_meta(plans) =~= meta_bytes(bs) + dumped_meta(init) + p.meta@);
            assert(bs + rest.push(bv) =~= (bs + rest).push(bv));
            lemma_restore_items_push(bs + rest, bv);
            assert(bv.records.map_values(|r: ArchiveRecord| ((bv.title, bv.tag), r)) =~= p.records@.map_values(f));
            assert(restore_items(bs) + dumped_items(plans, es) =~= restore_items(bs) + dumped_items(init, es) + p.records@.map_values(f));
        } else {
            assert(dumped_blocks(plans, es) == rest);
            assert(ls.len() == 0);
            assert(p.meta@ == Seq::<u8>::empty());
            assert(meta_bytes(bs) + dumped_meta(plans) =~= meta_bytes(bs) + dumped_meta(init));
            assert(p.records@.map_values(f) =~= Seq::<(Key, ArchiveRecord)>::empty());
            assert(dumped_items(plans, es) =~= dumped_items(init, es));
        }
        assert forall|m: int| 0 <= m < plans.len() implies (#[trigger] plans[m]).records@ == records_for(
            live_of(es[m].revisions@),
            dump_base(plans, data_len, m) as nat,
        ) by {
            assert(plan_for(plans[m], name, acv_dir, entry_key(es[m]), es[m].revisions@, dump_base(plans, data_len, m)));
        }
    }
}

/// The revisions that a sequence of posts stores under key `k`, in order.
pub open spec fn posted_under(keys: Seq<Key>, stored: Seq<Bulletin>, k: Key) -> Seq<Bulletin>
    decreases keys.len(),
{
    if keys.len() == 0 || stored.len() == 0 {
        Seq::empty()
    } else if keys.last() == k {
        posted_under(keys.drop_last(), stored.drop_last(), k).push(stored.last())
    } else {
        posted_under(keys.drop_last(), stored.drop_last(), k)
    }
}

/// What each post of a sequence stores.
pub open spec fn stored_all(items: Seq<Bulletin>, spools: Seq<Option<SpoolWrite>>) -> Seq<Bulletin> {
    Seq::new(items.len(), |i: int| BulletinBoard::stored(items[i], spools[i]))
}

proof fn lemma_posts_keep_order(
    boards: Seq<BulletinBoard>,
    keys: Seq<Key>,
    items: Seq<Bulletin>,
    spools: Seq<Option<SpoolWrite>>,
    n: int,
)
    requires
        boards.len() == keys.len() + 1,
        items.len() == keys.len(),
        spools.len() == keys.len(),
        boards[0].index() == Map::<Key, Seq<Bulletin>>::empty(),
        forall|i: int| 0 <= i < keys.len() ==> BulletinBoard::posted(&boards[i], #[trigger] &boards[i + 1], keys[i], items[i], spools[i]),
        0 <= n <= keys.len(),
    ensures
        forall|k: Key| #[trigger] boards[n].revisions_of(k) == posted_under(
            keys.take(n),
            stored_all(items, spools).take(n),
            k,
        ),
    decreases n,
{
    let st = stored_all(items, spools);
    if n == 0 {
        assert forall|k: Key| #[trigger] boards[0].revisions_of(k) == posted_under(keys.take(0), st.take(0), k) by {
            assert(keys.take(0).len() == 0);
        }
    } else {
        lemma_posts_keep_order(boards, keys, items, spools, n - 1);
        let i = n - 1;
        assert(BulletinBoard::posted(&boards[i], &boards[i + 1], keys[i], items[i], spools[i]));
        assert(keys.take(n).drop_last() =~= keys.take(i));
        assert(st.take(n).drop_last() =~= st.take(i));
        assert forall|k: Key| #[trigger] boards[n].revisions_of(k) == posted_under(keys.take(n), st.take(n), k) by {
            assert(keys.take(n).last() == keys[i]);
            assert(st.take(n).last() == BulletinBoard::stored(items[i], spools[i]));
            assert(st.take(n).len() == n && keys.take(n).len() == n);
            assert(boards[i].revisions_of(k) == posted_under(keys.take(i), st.take(i), k));
            if k == keys[i] {
                assert(boards[n].index().contains_key(k));
                assert(boards[n].revisions_of(k) == boards[i].revisions_of(k).push(BulletinBoard::stored(items[i], spools[i])));
            } else {
                assert(boards[n].index().contains_key(k) == boards[i].index().contains_key(k));
                assert(boards[n].revisions_of(k) == boards[i].revisions_of(k));
            }
        }
    }
}

/// Posting a sequence of payloads onto an empty board (as restoring does,
/// after its reset) leaves under each key the revisions posted under it,
/// in the order they were posted.
pub proof fn posts_keep_order(boards: Seq<BulletinBoard>, keys: Seq<Key>, items: Seq<Bulletin>, spools: Seq<Option<SpoolWrite>>)
    requires
        boards.len() == keys.len() + 1,
        items.len() == keys.len(),
        spools.len() == keys.len(),
        boards[0].index() == Map::<Key, Seq<Bulletin>>::empty(),
        forall|i: int| 0 <= i < keys.len() ==> BulletinBoard::posted(&boards[i], #[trigger] &boards[i + 1], keys[i], items[i], spools[i]),
    ensures
        forall|k: Key| #[trigger] boards.last().revisions_of(k) == posted_under(keys, stored_all(items, spools), k),
{
    lemma_posts_keep_order(boards, keys, items, spools, keys.len() as int);
    assert(keys.take(keys.len() as int) =~= keys);
    assert(stored_all(items, spools).take(keys.len() as int) =~= stored_all(items, spools));
}

proof fn lemma_mount_blocks_outside(m: Map<Key, Seq<RevView>>, name: Seq<char>, bs: Seq<BlockView>, keys: Set<Key>)
    requires
        mount_keys_of(name, bs).subset_of(keys),
    ensures
        mount_blocks(m, name, bs).remove_keys(keys) == m.remove_keys(keys),
    decreases bs.len(),
{
    if bs.len() > 0 {
        let d = bs.drop_last();
        assert forall|k: Key| mount_keys_of(name, d).contains(k) implies keys.contains(k) by {
            let j = choose|j: int| 0 <= j < d.len() && mount_key(name, d[j]) == k;
            assert(d[j] == bs[j]);
            assert(mount_keys_of(name, bs).contains(k));
        }
        lemma_mount_blocks_outside(m, name, d, keys);
        let k = mount_key(name, bs.last());
        assert(mount_keys_of(name, bs).contains(k)) by {
            assert(mount_key(name, bs[bs.len() - 1]) == k);
        }
        let m2 = mount_blocks(m, name, d);
        let before = if m2.contains_key(k) { m2[k] } else { Seq::<RevView>::empty() };
        assert(m2.insert(k, before + mounted_all(name, bs.last().records)).remove_keys(keys) =~= m2.remove_keys(keys));
    }
}

/// Loading an archive again, with its metadata unchanged, replaces the
/// earlier mount: the board comes out as the first load left it, provided
/// no key outside that mount used one of the mount's names.
pub proof fn reload_replaces_mount(b0: BulletinBoard, b1: BulletinBoard, b2: BulletinBoard, name: Seq<char>, bs: Seq<BlockView>)
    requires
        b1.shapes() == mount_blocks(b0.shapes().remove_keys(mounted_keys(b0.loaded@, name)), name, bs),
        mounted_keys(b1.loaded@, name) == mount_keys_of(name, bs),
        b2.shapes() == mount_blocks(b1.shapes().remove_keys(mounted_keys(b1.loaded@, name)), name, bs),
        forall|k: Key| #[trigger] mount_keys_of(name, bs).contains(k)
            ==> !b0.shapes().remove_keys(mounted_keys(b0.loaded@, name)).contains_key(k),
    ensures
        b2.shapes() == b1.shapes(),
{
    let base = b0.shapes().remove_keys(mounted_keys(b0.loaded@, name));
    let keys = mount_keys_of(name, bs);
    lemma_mount_blocks_outside(base, name, bs, keys);
    assert(base.remove_keys(keys) =~= base);
}

proof fn lemma_no_archived(rs: Seq<Bulletin>)
    requires
        forall|j: int| 0 <= j < rs.len() ==> !((#[trigger] rs[j]).data is Archive),
    ensures
        rev_sum(rs, Counter::Archived) == 0,
    decreases rs.len(),
{
    if rs.len() > 0 {
        assert forall|j: int| 0 <= j < rs.drop_last().len() implies !((#[trigger] rs.drop_last()[j]).data is Archive) by {
            assert(rs.drop_last()[j] == rs[j]);
        }
        lemma_no_archived(rs.drop_last());
        assert(!(rs[rs.len() - 1].data is Archive));
    }
}

/// Archiving a key that holds no archived revision into a new archive, and
/// loading that archive (whose metadata is then the archive's one block),
/// raises the archived count by the number of revisions archived: those
/// that were neither archived nor cleared.
pub proof fn archive_then_load_counts(
    b0: BulletinBoard,
    b1: BulletinBoard,
    b2: BulletinBoard,
    name: Seq<char>,
    k: Key,
    data_len: u64,
    plan: ArchivePlan,
)
    requires
        BulletinBoard::archived(&b0, &b1, name, k, data_len, plan),
        forall|j: int| 0 <= j < b0.revisions_of(k).len() ==> !((#[trigger] b0.revisions_of(k)[j]).data is Archive),
        live_of(b0.revisions_of(k)).len() > 0,
        b2.n_archives == b1.n_archives + block_records(seq![BlockView { title: k.0, tag: k.1, records: plan.records@ }]),
    ensures
        meta_bytes(seq![BlockView { title: k.0, tag: k.1, records: plan.records@ }]) == plan.meta@,
        b2.n_archives == b0.n_archives + live_of(b0.revisions_of(k)).len(),
{
    let bv = BlockView { title: k.0, tag: k.1, records: plan.records@ };
    let bs = seq![bv];
    assert(bs.drop_last() =~= Seq::<BlockView>::empty());
    assert(meta_bytes(bs) == meta_bytes(Seq::<BlockView>::empty()) + block_bytes(bv));
    assert(Seq::<u8>::empty() + block_bytes(bv) =~= block_bytes(bv));
    lemma_no_archived(b0.revisions_of(k));
    lemma_records_len(live_of(b0.revisions_of(k)), data_len as nat);
    assert(block_records(bs) == block_records(Seq::<BlockView>::empty()) + bv.records.len());
}

} // verus!

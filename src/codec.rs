//! The archive metadata format. `meta.bin` is a sequence of blocks; a block
//! is a header `(title, tag, count)` followed by `count` records
//! `(offset, size, timestamp)`, each one CBOR item.
use vstd::prelude::*;

verus! {

/// One archived revision: where its bytes start in the data file, how many
/// there are, and its timestamp in nanoseconds.
#[derive(Clone, Copy, Debug, PartialEq, Eq)]
pub struct ArchiveRecord {
    pub offset: u64,
    pub datasize: u64,
    pub timestamp: i64,
}

/// The records written for one key by one archive operation.
#[derive(Clone, Debug, PartialEq, Eq)]
pub struct ArchiveBlock {
    pub title: String,
    pub tag: String,
    pub records: Vec<ArchiveRecord>,
}

/// A block as plain values.
pub struct BlockView {
    pub title: Seq<char>,
    pub tag: Seq<char>,
    pub records: Seq<ArchiveRecord>,
}

impl ArchiveBlock {
    pub open spec fn view(&self) -> BlockView {
        BlockView { title: self.title@, tag: self.tag@, records: self.records@ }
    }
}

pub open spec fn blocks_view(bs: Seq<ArchiveBlock>) -> Seq<BlockView> {
    bs.map_values(|b: ArchiveBlock| b.view())
}

/// A header read from the metadata, and the position just after it.
pub struct HeaderItem {
    pub title: String,
    pub tag: String,
    pub count: u64,
    pub end: usize,
}

/// A record read from the metadata, and the position just after it.
pub struct RecordItem {
    pub record: ArchiveRecord,
    pub end: usize,
}

/// `r` holds the header `(title, tag, count)`, which ended at `end`.
pub open spec fn header_read(r: Option<HeaderItem>, title: Seq<char>, tag: Seq<char>, count: u64, end: int) -> bool {
    r matches Some(h) && h.title@ == title && h.tag@ == tag && h.count == count && h.end == end
}

/// The CBOR encoding of the tuple `(title, tag, count)`.
pub uninterp spec fn cbor_header(title: Seq<char>, tag: Seq<char>, count: u64) -> Seq<u8>;

/// The CBOR encoding of the tuple `(offset, size, timestamp)`.
pub uninterp spec fn cbor_record(offset: u64, datasize: u64, timestamp: i64) -> Seq<u8>;

pub open spec fn record_bytes(r: ArchiveRecord) -> Seq<u8> {
    cbor_record(r.offset, r.datasize, r.timestamp)
}

/// The encoding of a run of records, one after the other.
pub open spec fn records_bytes(rs: Seq<ArchiveRecord>) -> Seq<u8>
    decreases rs.len(),
{
    if rs.len() == 0 {
        Seq::empty()
    } else {
        records_bytes(rs.drop_last()) + record_bytes(rs.last())
    }
}

/// The encoding of one block: its header, then its records.
pub open spec fn block_bytes(b: BlockView) -> Seq<u8> {
    cbor_header(b.title, b.tag, b.records.len() as u64) + records_bytes(b.records)
}

/// The encoding of a metadata file made of these blocks.
pub open spec fn meta_bytes(bs: Seq<BlockView>) -> Seq<u8>
    decreases bs.len(),
{
    if bs.len() == 0 {
        Seq::empty()
    } else {
        meta_bytes(bs.drop_last()) + block_bytes(bs.last())
    }
}

/// Each block's count of records fits in its header.
pub open spec fn meta_fits(bs: Seq<BlockView>) -> bool {
    forall|i: int| 0 <= i < bs.len() ==> bs[i].records.len() <= u64::MAX
}

/// Relies on ciborium::into_writer: the CBOR encoding of the tuple
/// `(title, tag, count)`. Writing strings and an integer into a `Vec`
/// cannot fail.
#[verifier::external_body]
fn encode_header(title: &String, tag: &String, count: u64) -> (r: Vec<u8>)
    ensures
        r@ == cbor_header(title@, tag@, count),
{
    let mut buf: Vec<u8> = Vec::new();
    let _ = ciborium::into_writer(&(title, tag, count), &mut buf);
    buf
}

/// Relies on ciborium::into_writer: the CBOR encoding of the tuple
/// `(offset, size, timestamp)`. Writing integers into a `Vec` cannot fail.
#[verifier::external_body]
fn encode_record(offset: u64, datasize: u64, timestamp: i64) -> (r: Vec<u8>)
    ensures
        r@ == cbor_record(offset, datasize, timestamp),
{
    let mut buf: Vec<u8> = Vec::new();
    let _ = ciborium::into_writer(&(offset, datasize, timestamp), &mut buf);
    buf
}

/// Relies on ciborium::from_reader over the bytes from `pos` on: reads one
/// CBOR item as `(String, String, u64)` and gives where it ended. An item
/// takes at least one byte, so there is none at the end of the input; and
/// the decoder reads back what `into_writer` wrote.
#[verifier::external_body]
fn decode_header(bytes: &[u8], pos: usize) -> (r: Option<HeaderItem>)
    requires
        pos <= bytes@.len(),
    ensures
        r matches Some(h) ==> pos < h.end <= bytes@.len(),
        (forall|t: Seq<char>, g: Seq<char>, n: u64|
            #![trigger cbor_header(t, g, n)]
            pos + cbor_header(t, g, n).len() <= bytes@.len() && bytes@.subrange(
                pos as int,
                pos + cbor_header(t, g, n).len(),
            ) == cbor_header(t, g, n) ==> header_read(r, t, g, n, pos + cbor_header(t, g, n).len())),
{
    let mut rest: &[u8] = &bytes[pos..];
    match ciborium::from_reader::<(String, String, u64), _>(&mut rest) {
        Ok((title, tag, count)) => Some(HeaderItem { title, tag, count, end: bytes.len() - rest.len() }),
        Err(_) => None,
    }
}

/// Relies on ciborium::from_reader over the bytes from `pos` on: reads one
/// CBOR item as `(u64, u64, i64)` and gives where it ended. An item takes at
/// least one byte, and the decoder reads back what `into_writer` wrote.
#[verifier::external_body]
fn decode_record(bytes: &[u8], pos: usize) -> (r: Option<RecordItem>)
    requires
        pos <= bytes@.len(),
    ensures
        r matches Some(x) ==> pos < x.end <= bytes@.len(),
        (forall|o: u64, s: u64, t: i64|
            #![trigger cbor_record(o, s, t)]
            pos + cbor_record(o, s, t).len() <= bytes@.len() && bytes@.subrange(
                pos as int,
                pos + cbor_record(o, s, t).len(),
            ) == cbor_record(o, s, t) ==> r == Some(RecordItem {
                record: ArchiveRecord { offset: o, datasize: s, timestamp: t },
                end: (pos + cbor_record(o, s, t).len()) as usize,
            })),
{
    let mut rest: &[u8] = &bytes[pos..];
    match ciborium::from_reader::<(u64, u64, i64), _>(&mut rest) {
        Ok((offset, datasize, timestamp)) => Some(RecordItem {
            record: ArchiveRecord { offset, datasize, timestamp },
            end: bytes.len() - rest.len(),
        }),
        Err(_) => None,
    }
}

/// Encodes one block.
pub fn encode_block(title: &String, tag: &String, records: &Vec<ArchiveRecord>) -> (r: Vec<u8>)
    requires
        records@.len() <= u64::MAX,
    ensures
        r@ == block_bytes(BlockView { title: title@, tag: tag@, records: records@ }),
{
    let mut out = encode_header(title, tag, records.len() as u64);
    let ghost head = out@;
    let mut i: usize = 0;
    while i < records.len()
        invariant
            i <= records@.len(),
            out@ == head + records_bytes(records@.take(i as int)),
        decreases records@.len() - i,
    {
        let rec = records[i];
        let mut one = encode_record(rec.offset, rec.datasize, rec.timestamp);
        out.append(&mut one);
        proof {
            assert(records@.take(i + 1).drop_last() =~= records@.take(i as int));
        }
        i = i + 1;
    }
    proof {
        assert(records@.take(records@.len() as int) =~= records@);
    }
    out
}

/// Why the metadata could not be read.
#[derive(Clone, Copy, Debug, PartialEq, Eq)]
pub enum MetaError {
    /// A header promised more records than could be read.
    TruncatedBlock,
}

proof fn lemma_records_prefix(rs: Seq<ArchiveRecord>, j: int)
    requires
        0 <= j <= rs.len(),
    ensures
        records_bytes(rs.take(j)).len() <= records_bytes(rs).len(),
        records_bytes(rs).subrange(0, records_bytes(rs.take(j)).len() as int) == records_bytes(rs.take(j)),
    decreases rs.len() - j,
{
    if j == rs.len() {
        assert(rs.take(j) =~= rs);
        assert(records_bytes(rs).subrange(0, records_bytes(rs).len() as int) =~= records_bytes(rs));
    } else {
        lemma_records_prefix(rs, j + 1);
        assert(rs.take(j + 1).drop_last() =~= rs.take(j));
        let a = records_bytes(rs.take(j));
        let b = records_bytes(rs.take(j + 1));
        let c = records_bytes(rs);
        assert(b == a + record_bytes(rs[j]));
        assert(c.subrange(0, a.len() as int) =~= b.subrange(0, a.len() as int));
        assert(b.subrange(0, a.len() as int) =~= a);
    }
}

proof fn lemma_meta_prefix(bs: Seq<BlockView>, k: int)
    requires
        0 <= k <= bs.len(),
    ensures
        meta_bytes(bs.take(k)).len() <= meta_bytes(bs).len(),
        meta_bytes(bs).subrange(0, meta_bytes(bs.take(k)).len() as int) == meta_bytes(bs.take(k)),
    decreases bs.len() - k,
{
    if k == bs.len() {
        assert(bs.take(k) =~= bs);
        assert(meta_bytes(bs).subrange(0, meta_bytes(bs).len() as int) =~= meta_bytes(bs));
    } else {
        lemma_meta_prefix(bs, k + 1);
        assert(bs.take(k + 1).drop_last() =~= bs.take(k));
        let a = meta_bytes(bs.take(k));
        let b = meta_bytes(bs.take(k + 1));
        let c = meta_bytes(bs);
        assert(b == a + block_bytes(bs[k]));
        assert(c.subrange(0, a.len() as int) =~= b.subrange(0, a.len() as int));
        assert(b.subrange(0, a.len() as int) =~= a);
    }
}

/// Where block `k` of `bs` starts in the encoding of `bs`, and that the
/// encoding there begins with the block's header.
proof fn lemma_block_at(bs: Seq<BlockView>, k: int)
    requires
        0 <= k < bs.len(),
    ensures
        ({
            let start = meta_bytes(bs.take(k)).len();
            let h = cbor_header(bs[k].title, bs[k].tag, bs[k].records.len() as u64);
            &&& meta_bytes(bs.take(k + 1)) == meta_bytes(bs.take(k)) + block_bytes(bs[k])
            &&& start + block_bytes(bs[k]).len() <= meta_bytes(bs).len()
            &&& meta_bytes(bs).subrange(start as int, (start + h.len()) as int) == h
        }),
{
    lemma_meta_prefix(bs, k + 1);
    assert(bs.take(k + 1).drop_last() =~= bs.take(k));
    let a = meta_bytes(bs.take(k));
    let b = meta_bytes(bs.take(k + 1));
    let c = meta_bytes(bs);
    let h = cbor_header(bs[k].title, bs[k].tag, bs[k].records.len() as u64);
    assert(b == a + block_bytes(bs[k]));
    assert(c.subrange(a.len() as int, (a.len() + h.len()) as int) =~= b.subrange(a.len() as int, (a.len() + h.len()) as int));
    assert(b.subrange(a.len() as int, (a.len() + h.len()) as int) =~= h);
}

/// Where record `j` of block `k` starts, and that the encoding there is the record.
proof fn lemma_record_at(bs: Seq<BlockView>, k: int, j: int)
    requires
        0 <= k < bs.len(),
        0 <= j < bs[k].records.len(),
    ensures
        ({
            let rs = bs[k].records;
            let h = cbor_header(bs[k].title, bs[k].tag, rs.len() as u64);
            let at = meta_bytes(bs.take(k)).len() + h.len() + records_bytes(rs.take(j)).len();
            let rec = record_bytes(rs[j]);
            &&& records_bytes(rs.take(j + 1)) == records_bytes(rs.take(j)) + rec
            &&& at + rec.len() <= meta_bytes(bs).len()
            &&& meta_bytes(bs).subrange(at as int, (at + rec.len()) as int) == rec
        }),
{
    lemma_block_at(bs, k);
    let rs = bs[k].records;
    lemma_records_prefix(rs, j + 1);
    assert(rs.take(j + 1).drop_last() =~= rs.take(j));
    let a = meta_bytes(bs.take(k));
    let c = meta_bytes(bs);
    let h = cbor_header(bs[k].title, bs[k].tag, rs.len() as u64);
    let rb = records_bytes(rs);
    let p = records_bytes(rs.take(j));
    let q = records_bytes(rs.take(j + 1));
    let rec = record_bytes(rs[j]);
    let at = a.len() + h.len() + p.len();
    assert(q == p + rec);
    assert(block_bytes(bs[k]) == h + rb);
    assert(meta_bytes(bs.take(k + 1)) == a + (h + rb));
    lemma_meta_prefix(bs, k + 1);
    assert(c.subrange(at as int, (at + rec.len()) as int) =~= meta_bytes(bs.take(k + 1)).subrange(at as int, (at + rec.len()) as int));
    assert(meta_bytes(bs.take(k + 1)).subrange(at as int, (at + rec.len()) as int) =~= rb.subrange(p.len() as int, (p.len() + rec.len()) as int));
    assert(rb.subrange(p.len() as int, (p.len() + rec.len()) as int) =~= q.subrange(p.len() as int, (p.len() + rec.len()) as int));
    assert(q.subrange(p.len() as int, (p.len() + rec.len()) as int) =~= rec);
}

/// Reads a metadata file into its blocks. Reading stops at the first item
/// that is not a header; a header followed by fewer records than it counts
/// is an error. The encoding of any sequence of blocks reads back as those blocks.
pub fn parse_meta(bytes: &[u8]) -> (r: Result<Vec<ArchiveBlock>, MetaError>)
    ensures
        forall|bs: Seq<BlockView>|
            #![trigger meta_bytes(bs)]
            meta_fits(bs) && bytes@ == meta_bytes(bs) ==> (r matches Ok(v) && blocks_view(v@) == bs),
{
    let total = bytes.len();
    let mut out: Vec<ArchiveBlock> = Vec::new();
    let mut pos: usize = 0;
    loop
        invariant
            total == bytes@.len(),
            pos <= bytes@.len(),
            forall|bs: Seq<BlockView>|
                #![trigger meta_bytes(bs)]
                meta_fits(bs) && bytes@ == meta_bytes(bs) ==> out@.len() <= bs.len() && blocks_view(out@) == bs.take(
                    out@.len() as int,
                ) && pos == meta_bytes(bs.take(out@.len() as int)).len(),
        decreases bytes@.len() - pos,
    {
        let k = out.len();
        let head = decode_header(bytes, pos);
        proof {
            assert forall|bs: Seq<BlockView>|
                #![trigger meta_bytes(bs)]
                meta_fits(bs) && bytes@ == meta_bytes(bs) && k < bs.len() implies header_read(
                    head,
                    bs[k as int].title,
                    bs[k as int].tag,
                    bs[k as int].records.len() as u64,
                    pos + cbor_header(bs[k as int].title, bs[k as int].tag, bs[k as int].records.len() as u64).len(),
                ) by {
                lemma_block_at(bs, k as int);
                let h = cbor_header(bs[k as int].title, bs[k as int].tag, bs[k as int].records.len() as u64);
                assert(h.len() <= block_bytes(bs[k as int]).len());
            }
            assert forall|bs: Seq<BlockView>|
                #![trigger meta_bytes(bs)]
                meta_fits(bs) && bytes@ == meta_bytes(bs) && k == bs.len() implies head is None by {
                assert(bs.take(k as int) =~= bs);
            }
        }
        let h = match head {
            None => {
                proof {
                    assert forall|bs: Seq<BlockView>|
                        #![trigger meta_bytes(bs)]
                        meta_fits(bs) && bytes@ == meta_bytes(bs) implies blocks_view(out@) == bs by {
                        assert(bs.take(k as int) =~= bs);
                    }
                }
                return Ok(out);
            },
            Some(h) => h,
        };
        proof {
            assert forall|bs: Seq<BlockView>|
                #![trigger meta_bytes(bs)]
                meta_fits(bs) && bytes@ == meta_bytes(bs) implies k < bs.len() && h.title@ == bs[k as int].title
                    && h.tag@ == bs[k as int].tag && h.count == bs[k as int].records.len()
                    && Seq::<ArchiveRecord>::empty() == bs[k as int].records.take(0)
                    && h.end == meta_bytes(bs.take(k as int)).len() + cbor_header(
                    bs[k as int].title,
                    bs[k as int].tag,
                    h.count,
                ).len() + records_bytes(bs[k as int].records.take(0)).len() by {
                if k == bs.len() {
                    assert(bs.take(k as int) =~= bs);
                    assert(head is None);
                }
                assert(k < bs.len());
                let bk = bs[k as int];
                assert(header_read(head, bk.title, bk.tag, bk.records.len() as u64,
                    pos + cbor_header(bk.title, bk.tag, bk.records.len() as u64).len()));
                assert(bk.records.take(0) =~= Seq::<ArchiveRecord>::empty());
                assert(records_bytes(bk.records.take(0)) == Seq::<u8>::empty());
            }
        }
        let mut records: Vec<ArchiveRecord> = Vec::new();
        let mut p: usize = h.end;
        let mut j: u64 = 0;
        while j < h.count
            invariant
                total == bytes@.len(),
                pos < h.end <= p <= bytes@.len(),
                j <= h.count,
                records@.len() == j,
                forall|bs: Seq<BlockView>|
                    #![trigger meta_bytes(bs)]
                    meta_fits(bs) && bytes@ == meta_bytes(bs) ==> k < bs.len() && h.title@ == bs[k as int].title
                        && h.tag@ == bs[k as int].tag && h.count == bs[k as int].records.len()
                        && records@ == bs[k as int].records.take(j as int) && p == meta_bytes(
                        bs.take(k as int),
                    ).len() + cbor_header(bs[k as int].title, bs[k as int].tag, h.count).len()
                        + records_bytes(bs[k as int].records.take(j as int)).len(),
            decreases h.count - j,
        {
            let item = decode_record(bytes, p);
            proof {
                assert forall|bs: Seq<BlockView>|
                    #![trigger meta_bytes(bs)]
                    meta_fits(bs) && bytes@ == meta_bytes(bs) implies item == Some(
                        RecordItem {
                            record: bs[k as int].records[j as int],
                            end: (p + record_bytes(bs[k as int].records[j as int]).len()) as usize,
                        },
                    ) by {
                    lemma_record_at(bs, k as int, j as int);
                }
            }
            let ghost old_records = records@;
            let ghost old_p = p;
            match item {
                None => {
                    return Err(MetaError::TruncatedBlock);
                },
                Some(x) => {
                    records.push(x.record);
                    p = x.end;
                    proof {
                        assert forall|bs: Seq<BlockView>|
                            #![trigger meta_bytes(bs)]
                            meta_fits(bs) && bytes@ == meta_bytes(bs) implies records@ == bs[k as int].records.take(j + 1)
                                && p == meta_bytes(bs.take(k as int)).len() + cbor_header(
                                bs[k as int].title,
                                bs[k as int].tag,
                                h.count,
                            ).len() + records_bytes(bs[k as int].records.take(j + 1)).len() by {
                            lemma_record_at(bs, k as int, j as int);
                            let rs = bs[k as int].records;
                            assert(old_records == rs.take(j as int));
                            assert(x.record == rs[j as int]);
                            assert(records@ =~= rs.take(j + 1));
                            assert(old_p + record_bytes(rs[j as int]).len() <= bytes@.len());
                            assert(p == old_p + record_bytes(rs[j as int]).len());
                        }
                    }
                    j = j + 1;
                },
            }
        }
        let block = ArchiveBlock { title: h.title, tag: h.tag, records };
        out.push(block);
        pos = p;
        proof {
            assert forall|bs: Seq<BlockView>|
                #![trigger meta_bytes(bs)]
                meta_fits(bs) && bytes@ == meta_bytes(bs) implies out@.len() <= bs.len() && blocks_view(out@) == bs.take(
                    out@.len() as int,
                ) && pos == meta_bytes(bs.take(out@.len() as int)).len() by {
                lemma_block_at(bs, k as int);
                assert(bs[k as int].records.take(j as int) =~= bs[k as int].records);
                assert(blocks_view(out@) =~= bs.take(out@.len() as int));
            }
        }
    }
}

} // verus!

use bulletin_board::board::{BoardError, BulletinBoard};
use bulletin_board::bulletin::{Bulletin, BulletinBackend, Source};
use bulletin_board::codec::{encode_block, parse_meta, ArchiveRecord, MetaError};
use bulletin_board::options::ServerConfig;

fn config(threshold: u64, limit: u64) -> ServerConfig {
    ServerConfig {
        debug: false,
        listen_addr: "127.0.0.1:7578".to_string(),
        tmp_dir: "/tmp/bb_test_tmp".to_string(),
        acv_dir: "/tmp/bb_test_acv".to_string(),
        tot_mem_limit: limit,
        file_threshold: threshold,
        log_file: "/tmp/bb_test.log".to_string(),
        log_level: 3,
    }
}

fn s(x: &str) -> String {
    x.to_string()
}

fn bytes_of(src: &Source, data_file: &[u8]) -> Vec<u8> {
    match src {
        Source::Bytes(v) => v.clone(),
        Source::Archive { offset, size, .. } => data_file[*offset as usize..(*offset + *size) as usize].to_vec(),
        Source::File { .. } => panic!("unexpected spool file"),
    }
}

#[test]
fn post_then_read_latest_gives_the_payload() {
    let mut b = BulletinBoard::new(&config(1 << 20, 1 << 30));
    let spool = b.post(s("x"), s("t"), Bulletin::from_data(vec![1, 2, 3])).unwrap();
    assert!(spool.is_none());
    match b.read(&s("x"), &s("t"), None).unwrap() {
        Source::Bytes(v) => assert_eq!(v, vec![1, 2, 3]),
        other => panic!("{:?}", other),
    }
    let st = b.status();
    assert_eq!(st.datasize, 3);
    assert_eq!(st.memory_used, 3);
    assert_eq!(st.n_bulletins, 1);
    assert_eq!(st.n_files, 0);
}

#[test]
fn two_posts_then_clear_first() {
    let mut b = BulletinBoard::new(&config(1 << 20, 1 << 30));
    b.post(s("x"), s("t"), Bulletin::from_data(vec![1])).unwrap();
    b.post(s("x"), s("t"), Bulletin::from_data(vec![2, 2])).unwrap();
    assert_eq!(b.read(&s("x"), &s("t"), Some(0)).unwrap(), Source::Bytes(vec![1]));
    assert_eq!(b.read(&s("x"), &s("t"), Some(1)).unwrap(), Source::Bytes(vec![2, 2]));
    let files = b.clear_revisions(&s("x"), &s("t"), &vec![0]).unwrap();
    assert!(files.is_empty());
    assert_eq!(b.read(&s("x"), &s("t"), Some(0)), Err(BoardError::NotFound));
    assert_eq!(b.read(&s("x"), &s("t"), Some(1)).unwrap(), Source::Bytes(vec![2, 2]));
    assert_eq!(b.status().n_bulletins, 1);
    assert_eq!(b.status().datasize, 2);
}

#[test]
fn clear_of_a_missing_revision_changes_nothing() {
    let mut b = BulletinBoard::new(&config(1 << 20, 1 << 30));
    b.post(s("x"), s("t"), Bulletin::from_data(vec![1])).unwrap();
    assert_eq!(b.clear_revisions(&s("x"), &s("t"), &vec![0, 5]), Err(BoardError::NotFound));
    assert_eq!(b.read(&s("x"), &s("t"), Some(0)).unwrap(), Source::Bytes(vec![1]));
    assert_eq!(b.clear_revisions(&s("y"), &s("t"), &vec![0]), Err(BoardError::NotFound));
}

#[test]
fn tiering_keeps_small_payloads_in_memory() {
    let mut b = BulletinBoard::new(&config(4, 100));
    let spool = b.post(s("x"), s("t"), Bulletin::from_data(vec![1, 2, 3])).unwrap();
    assert!(spool.is_none());
    assert_eq!(b.status().n_files, 0);
    assert_eq!(b.status().memory_used, 3);
}

#[test]
fn tiering_spools_payloads_at_the_threshold() {
    let mut b = BulletinBoard::new(&config(4, 100));
    let w = b.post(s("x"), s("t"), Bulletin::from_data(vec![1, 2, 3, 4])).unwrap().unwrap();
    assert_eq!(w.data, vec![1, 2, 3, 4]);
    assert!(w.dir.starts_with("/tmp/bb_test_tmp/"));
    assert!(w.path.starts_with(&format!("{}/", w.dir)));
    let id_rest = &w.path[w.dir.len() + 1..];
    assert_eq!(id_rest.len(), 32);
    assert_eq!(w.dir.len(), "/tmp/bb_test_tmp/".len() + 5);
    let shards = &w.dir["/tmp/bb_test_tmp/".len()..];
    assert_eq!(&shards[2..3], "/");
    assert!(shards.chars().filter(|c| *c != '/').all(|c| c.is_ascii_hexdigit() && !c.is_ascii_uppercase()));
    assert_eq!(b.status().n_files, 1);
    assert_eq!(b.status().memory_used, 0);
    assert_eq!(b.read(&s("x"), &s("t"), None).unwrap(), Source::File { path: w.path.clone(), size: 4 });
    let files = b.remove(&s("x"), &s("t")).unwrap();
    assert_eq!(files, vec![w.path]);
    assert_eq!(b.status().n_files, 0);
}

#[test]
fn tiering_spools_when_memory_is_full() {
    let mut b = BulletinBoard::new(&config(100, 5));
    assert!(b.post(s("x"), s("t"), Bulletin::from_data(vec![1, 2, 3])).unwrap().is_none());
    assert!(b.post(s("x"), s("t"), Bulletin::from_data(vec![1, 2])).unwrap().is_some());
    assert_eq!(b.status().memory_used, 3);
    assert_eq!(b.status().n_files, 1);
}

#[test]
fn find_tags_lists_tags_in_order() {
    let mut b = BulletinBoard::new(&config(1 << 20, 1 << 30));
    b.post(s("x"), s("t1"), Bulletin::from_data(vec![1])).unwrap();
    b.post(s("y"), s("t9"), Bulletin::from_data(vec![1])).unwrap();
    b.post(s("x"), s("t2"), Bulletin::from_data(vec![1])).unwrap();
    assert_eq!(b.find_tags(&s("x")), vec![s("t1"), s("t2")]);
    assert!(b.find_tags(&s("z")).is_empty());
}

#[test]
fn view_and_get_info_describe_the_board() {
    let mut b = BulletinBoard::new(&config(1 << 20, 1 << 30));
    b.post(s("x"), s("t"), Bulletin::from_data(vec![1, 2])).unwrap();
    b.post(s("x"), s("t"), Bulletin::from_data(vec![3])).unwrap();
    let (rows, cut) = b.view();
    assert!(!cut);
    assert_eq!(rows, vec![(s("x"), s("t"), 2)]);
    let (info, cut) = b.get_info(&s("x"), &s("t")).unwrap();
    assert!(!cut);
    assert_eq!(info.len(), 2);
    assert_eq!((info[0].0, info[0].1, info[0].3.clone()), (0, 2, s("memory")));
    assert_eq!((info[1].0, info[1].1, info[1].3.clone()), (1, 1, s("memory")));
    assert!(!info[0].2.is_empty());
    assert!(b.get_info(&s("x"), &s("u")).is_none());
}

#[test]
fn relabel_moves_and_merges() {
    let mut b = BulletinBoard::new(&config(1 << 20, 1 << 30));
    b.post(s("a"), s("t"), Bulletin::from_data(vec![1])).unwrap();
    b.post(s("b"), s("u"), Bulletin::from_data(vec![2])).unwrap();
    b.relabel(&s("a"), &s("t"), Some(s("b")), Some(s("u"))).unwrap();
    assert_eq!(b.read(&s("b"), &s("u"), Some(0)).unwrap(), Source::Bytes(vec![2]));
    assert_eq!(b.read(&s("b"), &s("u"), Some(1)).unwrap(), Source::Bytes(vec![1]));
    assert_eq!(b.read(&s("a"), &s("t"), None), Err(BoardError::NotFound));
    b.relabel(&s("b"), &s("u"), None, Some(s("v"))).unwrap();
    assert_eq!(b.read(&s("b"), &s("v"), None).unwrap(), Source::Bytes(vec![1]));
    assert_eq!(b.relabel(&s("q"), &s("q"), None, None), Err(BoardError::NotFound));
    assert_eq!(b.status().n_bulletins, 2);
}

#[test]
fn archive_then_load_reads_back_the_bytes() {
    let mut b = BulletinBoard::new(&config(1 << 20, 1 << 30));
    b.post(s("x"), s("t"), Bulletin::from_data(vec![9, 8])).unwrap();
    b.post(s("x"), s("t"), Bulletin::from_data(vec![1, 2, 3])).unwrap();
    let mut data_file: Vec<u8> = vec![7; 5];
    let plan = b.archive(&s("acv"), &s("x"), &s("t"), data_file.len() as u64).unwrap();
    assert_eq!(plan.dir, "/tmp/bb_test_acv/acv");
    assert_eq!(plan.data_path, "/tmp/bb_test_acv/acv/data.bin");
    assert_eq!(plan.meta_path, "/tmp/bb_test_acv/acv/meta.bin");
    assert_eq!(plan.records.len(), 2);
    assert_eq!(plan.records[0].offset, 5);
    assert_eq!(plan.records[1].offset, 7);
    assert_eq!(plan.data_end, 10);
    for c in &plan.chunks {
        data_file.extend(bytes_of(c, &data_file.clone()));
    }
    assert_eq!(b.status().n_bulletins, 0);
    assert_eq!(b.read(&s("x"), &s("t"), None), Err(BoardError::NotFound));
    let before = b.status().n_archives;
    b.load(&s("acv"), &plan.meta).unwrap();
    assert_eq!(b.status().n_archives, before + 2);
    let src = b.read(&s("x"), &s("acv:t"), None).unwrap();
    assert_eq!(src, Source::Archive { path: s("/tmp/bb_test_acv/acv/data.bin"), offset: 7, size: 3 });
    assert_eq!(bytes_of(&src, &data_file), vec![1, 2, 3]);
    let first = b.read(&s("x"), &s("acv:t"), Some(0)).unwrap();
    assert_eq!(bytes_of(&first, &data_file), vec![9, 8]);
    let (info, _) = b.get_info(&s("x"), &s("acv:t")).unwrap();
    assert_eq!(info[1].3, "archive:acv:7");
    // loading again replaces the earlier mount
    b.load(&s("acv"), &plan.meta).unwrap();
    assert_eq!(b.status().n_archives, 2);
    assert_eq!(b.view().0.len(), 1);
    // archived revisions cannot be cleared
    assert_eq!(b.clear_revisions(&s("x"), &s("acv:t"), &vec![0]), Err(BoardError::Archived));
    assert_eq!(b.remove(&s("x"), &s("acv:t")), Err(BoardError::Archived));
}

#[test]
fn archive_of_a_missing_key_fails() {
    let mut b = BulletinBoard::new(&config(1 << 20, 1 << 30));
    assert!(matches!(b.archive(&s("acv"), &s("x"), &s("t"), 0), Err(BoardError::NotFound)));
}

#[test]
fn load_of_bad_metadata_fails() {
    let mut b = BulletinBoard::new(&config(1 << 20, 1 << 30));
    let mut meta = encode_block(&s("x"), &s("t"), &vec![ArchiveRecord { offset: 0, datasize: 1, timestamp: 0 }]);
    meta.pop();
    assert_eq!(b.load(&s("acv"), &meta), Err(BoardError::Corrupt));
    assert_eq!(b.status().n_bulletins, 0);
}

#[test]
fn metadata_round_trip() {
    let r1 = ArchiveRecord { offset: 0, datasize: 3, timestamp: 1_700_000_000_000_000_000 };
    let r2 = ArchiveRecord { offset: 3, datasize: 400, timestamp: -5 };
    let mut meta = encode_block(&s("title"), &s("tag"), &vec![r1, r2]);
    meta.extend(encode_block(&s("other"), &s("ünï"), &vec![r1]));
    let blocks = parse_meta(&meta).unwrap();
    assert_eq!(blocks.len(), 2);
    assert_eq!(blocks[0].title, "title");
    assert_eq!(blocks[0].tag, "tag");
    assert_eq!(blocks[0].records, vec![r1, r2]);
    assert_eq!(blocks[1].tag, "ünï");
    assert!(parse_meta(&[]).unwrap().is_empty());
    let mut cut = meta.clone();
    cut.truncate(meta.len() - 1);
    assert_eq!(parse_meta(&cut), Err(MetaError::TruncatedBlock));
}

#[test]
fn dump_reset_restore_brings_back_every_key() {
    let mut b = BulletinBoard::new(&config(1 << 20, 1 << 30));
    b.post(s("x"), s("t1"), Bulletin::from_data(vec![1, 2, 3])).unwrap();
    b.post(s("x"), s("t2"), Bulletin::from_data(vec![4])).unwrap();
    b.post(s("x"), s("t1"), Bulletin::from_data(vec![5, 6])).unwrap();
    let plans = b.dump(&s("d"), 0).unwrap();
    assert_eq!(plans.len(), 2);
    let mut data_file: Vec<u8> = vec![];
    let mut meta: Vec<u8> = vec![];
    for p in &plans {
        for c in &p.chunks {
            data_file.extend(bytes_of(c, &[]));
        }
        meta.extend(p.meta.clone());
    }
    assert_eq!(b.view().0.len(), 0);
    b.reset();
    let plan = b.restore_plan(&s("d"), &meta).unwrap();
    assert_eq!(plan.data_path, "/tmp/bb_test_acv/d/data.bin");
    assert_eq!(plan.items.len(), 3);
    for it in &plan.items {
        let r = it.record;
        let bytes = data_file[r.offset as usize..(r.offset + r.datasize) as usize].to_vec();
        b.restore_record(it.title.clone(), it.tag.clone(), bytes, r.timestamp).unwrap();
    }
    assert_eq!(b.read(&s("x"), &s("t1"), Some(0)).unwrap(), Source::Bytes(vec![1, 2, 3]));
    assert_eq!(b.read(&s("x"), &s("t1"), Some(1)).unwrap(), Source::Bytes(vec![5, 6]));
    assert_eq!(b.read(&s("x"), &s("t2"), None).unwrap(), Source::Bytes(vec![4]));
    assert_eq!(b.find_tags(&s("x")), vec![s("t1"), s("t2")]);
}

#[test]
fn restored_revisions_keep_their_timestamp() {
    let mut b = BulletinBoard::new(&config(1 << 20, 1 << 30));
    b.restore_record(s("x"), s("t"), vec![1], 42).unwrap();
    assert_eq!(b.entries[0].revisions[0].timestamp, 42);
}

#[test]
fn clear_returns_freed_amounts() {
    let mut bl = Bulletin::from_data(vec![1, 2, 3]);
    let f = bl.clear().unwrap();
    assert_eq!((f.datasize, f.memory, f.files, f.bulletins), (3, 3, 0, 1));
    assert_eq!(bl.data, BulletinBackend::Empty);
    assert_eq!(bl.backend(), "deleted");
    let f = bl.clear().unwrap();
    assert_eq!((f.datasize, f.memory, f.files, f.bulletins), (0, 0, 0, 0));
    let mut a = Bulletin::from_archive("acv", 12, 3, 0);
    assert!(a.clear().is_err());
    assert_eq!(a.backend(), "archive:acv:12");
    assert!(a.save_to_file("/tmp").is_err());
}

#[test]
fn write_appends_to_memory_and_refuses_archives() {
    let mut bl = Bulletin::from_data(vec![1]);
    assert_eq!(bl.write(&[2, 3]), Ok(None));
    assert_eq!(bl.data, BulletinBackend::Memory(vec![1, 2, 3]));
    assert_eq!(bl.datasize, 3);
    let mut f = Bulletin { data: BulletinBackend::File("/tmp/x".to_string()), datasize: 2, timestamp: 0 };
    assert_eq!(f.write(&[9]), Ok(Some("/tmp/x".to_string())));
    assert_eq!(f.datasize, 3);
    let mut a = Bulletin::from_archive("acv", 0, 1, 0);
    assert!(a.write(&[1]).is_err());
    let mut e = Bulletin::from_data(vec![]);
    e.clear().unwrap();
    assert!(e.write(&[1]).is_err());
}

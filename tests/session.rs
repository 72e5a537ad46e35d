use bulletin_board::board::BoardError;
use bulletin_board::bulletin::Source;
use bulletin_board::client;
use bulletin_board::dispatch::{archive_name, Effect, Inputs, Reply};
use bulletin_board::options::{ServerConfig, ServerOptions};
use bulletin_board::protocol::{Operation, Request, Response};
use bulletin_board::server::{BBServer, Failure, VERSION};

fn config() -> ServerConfig {
    ServerConfig {
        debug: false,
        listen_addr: "127.0.0.1:7578".to_string(),
        tmp_dir: "./bb_tmp".to_string(),
        acv_dir: "./bb_acv".to_string(),
        tot_mem_limit: 1 << 30,
        file_threshold: 1 << 20,
        log_file: "./bulletin-board.log".to_string(),
        log_level: 3,
    }
}

fn s(x: &str) -> String {
    x.to_string()
}

fn payload(src: &Source, data_file: &[u8]) -> Vec<u8> {
    match src {
        Source::Bytes(v) => v.clone(),
        Source::Archive { offset, size, .. } => data_file[*offset as usize..(*offset + *size) as usize].to_vec(),
        Source::File { .. } => panic!("unexpected spool file"),
    }
}

#[test]
fn read_without_tag_is_not_unique_for_two_tags() {
    let mut sv = BBServer::new(&config());
    sv.post(s("x"), s("t1"), vec![1, 2, 3]).unwrap();
    sv.post(s("x"), s("t2"), vec![4, 5]).unwrap();
    assert_eq!(sv.read(&s("x"), None, &vec![]), Err(Response::NotUnique(vec![s("t1"), s("t2")])));
    assert_eq!(sv.get_tag(&s("x"), None), Err(Response::NotUnique(vec![s("t1"), s("t2")])));
    assert_eq!(sv.read(&s("x"), Some(s("t1")), &vec![]), Ok(vec![Source::Bytes(vec![1, 2, 3])]));
}

#[test]
fn tag_resolution() {
    let mut sv = BBServer::new(&config());
    assert_eq!(sv.get_tag(&s("x"), None), Err(Response::NotFound));
    sv.post(s("x"), s("only"), vec![1]).unwrap();
    assert_eq!(sv.get_tag(&s("x"), None), Ok(s("only")));
    assert_eq!(sv.get_tag(&s("x"), Some(s("other"))), Ok(s("other")));
    assert_eq!(sv.read(&s("x"), None, &vec![]), Ok(vec![Source::Bytes(vec![1])]));
}

#[test]
fn read_of_listed_revisions() {
    let mut sv = BBServer::new(&config());
    sv.post(s("x"), s("t"), vec![1]).unwrap();
    sv.post(s("x"), s("t"), vec![2]).unwrap();
    assert_eq!(sv.read(&s("x"), None, &vec![1, 0]), Ok(vec![Source::Bytes(vec![2]), Source::Bytes(vec![1])]));
    assert_eq!(sv.read(&s("x"), None, &vec![0, 2]), Err(Response::NotFound));
    assert_eq!(sv.read(&s("x"), Some(s("u")), &vec![]), Err(Response::NotFound));
}

#[test]
fn failures_of_session_operations() {
    let mut sv = BBServer::new(&config());
    assert_eq!(sv.relabel(&s("x"), None, None, Some(s("u"))), Err(Failure::Replied(Response::NotFound)));
    assert_eq!(sv.remove(&s("x"), None), Err(Failure::Unresolved(Response::NotFound)));
    assert_eq!(sv.remove(&s("x"), Some(s("t"))), Err(Failure::Board(BoardError::NotFound)));
    assert_eq!(sv.clear_revisions(&s("x"), None, &vec![0]), Err(Failure::Unresolved(Response::NotFound)));
    assert!(matches!(sv.archive(&s(""), &s("x"), None, 0), Err(Failure::EmptyName)));
    assert_eq!(sv.load(&s(""), &None), Err(Failure::EmptyName));
    assert_eq!(sv.rename_archive(s(""), s("b")), Err(Failure::EmptyName));
    assert_eq!(sv.rename_archive(s("a"), s("")), Err(Failure::EmptyName));
    assert_eq!(sv.delete_archive(s("")), Err(Failure::EmptyName));
    assert!(matches!(sv.dump(&s(""), 0), Err(Failure::EmptyName)));
    assert!(sv.archive_manipulations.is_empty());
    assert_eq!(sv.get_info(&s("x"), None), Err(Response::NotFound));
}

#[test]
fn rename_waits_for_reset() {
    let mut sv = BBServer::new(&config());
    sv.rename_archive(s("a"), s("b")).unwrap();
    sv.delete_archive(s("c")).unwrap();
    assert_eq!(sv.archive_manipulations.len(), 2);
    let changes = sv.reset();
    assert_eq!(changes, vec![(s("a"), Some(s("b"))), (s("c"), None)]);
    assert!(sv.archive_manipulations.is_empty());
    assert!(sv.reset().is_empty());
}

#[test]
fn list_archive_keeps_directories_with_metadata() {
    let sv = BBServer::new(&config());
    let files = vec![
        s("./bb_acv/acv/meta.bin"),
        s("./bb_acv/acv/data.bin"),
        s("./bb_acv/acv/version.txt"),
        s("./bb_acv/other/meta.bin"),
        s("./bb_acv/meta.bin"),
        s("./elsewhere/x/meta.bin"),
    ];
    assert_eq!(sv.list_archive(&files), vec![s("acv"), s("other")]);
}

#[test]
fn restore_resets_first() {
    let mut sv = BBServer::new(&config());
    sv.post(s("x"), s("t"), vec![1]).unwrap();
    sv.rename_archive(s("a"), s("b")).unwrap();
    let (changes, plan) = sv.restore(&s(""), &None);
    assert_eq!(changes, vec![(s("a"), Some(s("b")))]);
    assert!(matches!(plan, Err(Failure::EmptyName)));
    assert_eq!(sv.status().n_bulletins, 0);
}

#[test]
fn test_all() {
    let mut cfg = client::ClientConfig::new();
    cfg.set_addr("localhost:7578");
    assert_eq!(cfg.addr, "localhost:7578");
    let mut sv = BBServer::new(&config());
    let data = vec![1f64, 2.];
    let bytes: Vec<u8> = data.iter().flat_map(|x| x.to_le_bytes()).collect();
    sv.post(s("title"), s("tag"), bytes.clone()).unwrap();
    sv.relabel(&s("title"), None, Some(s("new_title")), Some(s("new_tag"))).unwrap();
    assert_eq!(sv.bulletinboard.view().0, vec![(s("new_title"), s("new_tag"), 1)]);
    assert_eq!(sv.get_info(&s("new_title"), None).unwrap().0.len(), 1);
    let recv = sv.read(&s("new_title"), None, &vec![]).unwrap().pop().unwrap();
    let restored: Vec<f64> = payload(&recv, &[])
        .chunks(8)
        .map(|c| f64::from_le_bytes(c.try_into().unwrap()))
        .collect();
    assert_eq!(data, restored);
    assert!(sv.clear_revisions(&s("title"), None, &vec![0]).is_err());
    assert!(sv.remove(&s("title"), None).is_err());
    sv.post(s("title"), s("tag"), bytes.clone()).unwrap();
    let plan = sv.archive(&s("acv"), &s("title"), None, 0).unwrap();
    let mut data_file = vec![];
    for c in &plan.chunks {
        data_file.extend(payload(c, &[]));
    }
    sv.load(&s("acv"), &Some(plan.meta.clone())).unwrap();
    sv.rename_archive(s("acv"), s("acv2")).unwrap();
    assert_eq!(sv.reset(), vec![(s("acv"), Some(s("acv2")))]);
    let (_, rp) = sv.restore(&s("acv2"), &Some(plan.meta.clone()));
    let rp = rp.unwrap();
    assert_eq!(rp.data_path, "./bb_acv/acv2/data.bin");
    for it in rp.items {
        let r = it.record;
        let b = data_file[r.offset as usize..(r.offset + r.datasize) as usize].to_vec();
        sv.restore_record(it.title, it.tag, b, r.timestamp).unwrap();
    }
    assert_eq!(sv.read(&s("title"), None, &vec![]), Ok(vec![Source::Bytes(bytes.clone())]));
    sv.delete_archive(s("acv2")).unwrap();
    assert_eq!(sv.reset(), vec![(s("acv2"), None)]);
    assert_eq!(VERSION, "0.1.0");
    let st = sv.status();
    assert_eq!((st.datasize, st.n_bulletins), (0, 0));
    assert!(sv.reset().is_empty());
}

#[test]
fn options_resolve_with_defaults() {
    let o = ServerOptions::new();
    let c = o.config().unwrap();
    assert_eq!(c.listen_addr, "127.0.0.1:7578");
    assert_eq!(c.tmp_dir, "./bb_tmp");
    assert_eq!(c.acv_dir, "./bb_acv");
    assert_eq!(c.tot_mem_limit, 1073741824);
    assert_eq!(c.file_threshold, 1048576);
    assert_eq!(c.log_file, "./bulletin-board.log");
    assert_eq!(c.log_level, 3);
    assert!(!c.debug);
    assert!(c.listens_on_tcp());
}

#[test]
fn options_setters_override_defaults() {
    let mut o = ServerOptions::new();
    o.set_debug();
    o.set_listen_addr(s("/tmp/bb.sock"));
    o.set_tmp_dir(s("t"));
    o.set_acv_dir(s("a"));
    o.set_tot_mem_limit(s("10 KB"));
    o.set_file_threshold(s("2KiB"));
    o.set_log_file(s("l"));
    o.set_log_level(5);
    let c = o.config().unwrap();
    assert!(c.debug);
    assert_eq!(c.tot_mem_limit, 10000);
    assert_eq!(c.file_threshold, 2048);
    assert_eq!((c.tmp_dir.as_str(), c.acv_dir.as_str(), c.log_file.as_str(), c.log_level), ("t", "a", "l", 5));
    assert!(!c.listens_on_tcp());
}

#[test]
fn options_with_bad_sizes_fail() {
    let mut o = ServerOptions::new();
    o.set_tot_mem_limit(s("^_^"));
    assert_eq!(o.config().unwrap_err(), bulletin_board::options::ConfigError::TotMemLimit);
    let mut o = ServerOptions::new();
    o.set_file_threshold(s("lots"));
    assert_eq!(o.config().unwrap_err(), bulletin_board::options::ConfigError::FileThreshold);
}

#[test]
fn client_requests_carry_their_arguments() {
    assert_eq!(
        client::relabel("a", Some("b"), None, Some("d")),
        Request::Relabel { title_from: s("a"), tag_from: Some(s("b")), title_to: None, tag_to: Some(s("d")) }
    );
    assert_eq!(client::read("x", None, vec![1]), Request::Read { title: s("x"), tag: None, revisions: vec![1] });
    assert_eq!(client::post("x", "t", vec![1]).operation(), Operation::Post);
    assert_eq!(client::archive("acv", "x", Some("t")), Request::Archive { acv_name: s("acv"), title: s("x"), tag: Some(s("t")) });
    assert_eq!(client::rename_archive("a", "b"), Request::RenameArchive { name_from: s("a"), name_to: s("b") });
    assert_eq!(client::delete_archive("a"), Request::DeleteArchive { acv_name: s("a") });
    assert_eq!(client::load("a"), Request::Load { acv_name: s("a") });
    assert_eq!(client::dump("a"), Request::Dump { acv_name: s("a") });
    assert_eq!(client::restore("a"), Request::Restore { acv_name: s("a") });
    assert_eq!(client::get_info("x", None), Request::GetInfo { title: s("x"), tag: None });
    assert_eq!(client::remove("x", Some("t")), Request::Remove { title: s("x"), tag: Some(s("t")) });
    assert_eq!(client::clear_revisions("x", None, vec![0]), Request::ClearRevisions { title: s("x"), tag: None, revisions: vec![0] });
    assert_eq!(client::version().operation(), Operation::Version);
    assert_eq!(client::log().operation(), Operation::Log);
    assert_eq!(client::view_board().operation(), Operation::ViewBoard);
    assert_eq!(client::list_archive().operation(), Operation::ListArchive);
    assert_eq!(client::clear_log().operation(), Operation::ClearLog);
    assert_eq!(client::reset_server().operation(), Operation::Reset);
    assert_eq!(client::terminate_server().operation(), Operation::Terminate);
    assert_eq!(Response::default(), Response::Success);
}

fn no_inputs() -> Inputs {
    Inputs { data_len: 0, meta: None, files: vec![] }
}

#[test]
fn step_answers_reads_with_pairs() {
    let mut sv = BBServer::new(&config());
    let o = sv.step(Request::Post { title: s("x"), tag: s("t"), data: vec![1, 2] }, &no_inputs());
    assert!(o.failure.is_none() && o.replies.is_empty() && o.effects.is_empty() && !o.stop);
    sv.step(Request::Post { title: s("x"), tag: s("t"), data: vec![3] }, &no_inputs());
    let o = sv.step(Request::Read { title: s("x"), tag: None, revisions: vec![0, 1] }, &no_inputs());
    assert_eq!(
        o.replies,
        vec![
            Reply::Response(Response::Success),
            Reply::Payload(Source::Bytes(vec![1, 2])),
            Reply::Response(Response::Success),
            Reply::Payload(Source::Bytes(vec![3])),
        ]
    );
    let o = sv.step(Request::Read { title: s("x"), tag: None, revisions: vec![7] }, &no_inputs());
    assert!(o.replies.is_empty());
    assert_eq!(o.failure, Some(Failure::Replied(Response::NotFound)));
}

#[test]
fn step_reports_version_status_and_info() {
    let mut sv = BBServer::new(&config());
    let o = sv.step(Request::Version, &no_inputs());
    assert_eq!(o.replies, vec![Reply::Text(s(VERSION))]);
    sv.step(Request::Post { title: s("x"), tag: s("t"), data: vec![1, 2, 3] }, &no_inputs());
    let o = sv.step(Request::Status, &no_inputs());
    match &o.replies[0] {
        Reply::Status(st) => assert_eq!((st.datasize, st.memory_used, st.n_bulletins), (3, 3, 1)),
        other => panic!("{:?}", other),
    }
    let o = sv.step(Request::GetInfo { title: s("x"), tag: None }, &no_inputs());
    assert_eq!(o.replies.len(), 2);
    assert_eq!(o.replies[0], Reply::Response(Response::Success));
    let o = sv.step(Request::ViewBoard, &no_inputs());
    assert_eq!(o.replies, vec![Reply::Rows(vec![(s("x"), s("t"), 1)])]);
    assert!(!o.truncated);
    let o = sv.step(Request::Log, &no_inputs());
    assert_eq!(o.replies, vec![Reply::LogText]);
}

#[test]
fn step_terminate_resets_and_stops() {
    let mut sv = BBServer::new(&config());
    sv.step(Request::Post { title: s("x"), tag: s("t"), data: vec![1] }, &no_inputs());
    sv.step(Request::RenameArchive { name_from: s("a"), name_to: s("b") }, &no_inputs());
    let o = sv.step(Request::Terminate, &no_inputs());
    assert!(o.stop);
    assert_eq!(o.effects.len(), 1);
    match &o.effects[0] {
        Effect::Reset(changes) => assert_eq!(changes, &vec![(s("a"), Some(s("b")))]),
        other => panic!("{:?}", other),
    }
    assert_eq!(sv.status().n_bulletins, 0);
}

#[test]
fn step_archive_and_list() {
    let mut sv = BBServer::new(&config());
    sv.step(Request::Post { title: s("x"), tag: s("t"), data: vec![1] }, &no_inputs());
    let req = Request::Archive { acv_name: s("acv"), title: s("x"), tag: None };
    assert_eq!(archive_name(&req), Some(&s("acv")));
    let o = sv.step(req, &Inputs { data_len: 10, meta: None, files: vec![] });
    assert!(o.failure.is_none());
    match &o.effects[0] {
        Effect::Archive(plan) => assert_eq!(plan.records[0].offset, 10),
        other => panic!("{:?}", other),
    }
    let o = sv.step(Request::ListArchive, &Inputs { data_len: 0, meta: None, files: vec![s("./bb_acv/acv/meta.bin")] });
    assert_eq!(o.replies, vec![Reply::Names(vec![s("acv")])]);
    let o = sv.step(Request::Dump { acv_name: s("") }, &no_inputs());
    assert_eq!(o.failure, Some(Failure::EmptyName));
    let o = sv.step(Request::ClearLog, &no_inputs());
    assert!(matches!(o.effects[0], Effect::ClearLog));
}

#[test]
fn loading_a_missing_archive_fails_and_changes_nothing() {
    let mut sv = BBServer::new(&config());
    sv.post(s("x"), s("t"), vec![1]).unwrap();
    let plan = sv.archive(&s("acv"), &s("x"), None, 0).unwrap();
    sv.load(&s("acv"), &Some(plan.meta.clone())).unwrap();
    assert_eq!(sv.load(&s("acv"), &None), Err(Failure::Board(BoardError::NotFound)));
    assert_eq!(sv.bulletinboard.view().0, vec![(s("x"), s("acv:t"), 1)]);
    assert_eq!(sv.status().n_archives, 1);
    let o = sv.step(Request::Load { acv_name: s("gone") }, &no_inputs());
    assert_eq!(o.failure, Some(Failure::Board(BoardError::NotFound)));
    let (_, plan) = sv.restore(&s("gone"), &None);
    assert!(matches!(plan, Err(Failure::Board(BoardError::NotFound))));
}

#[test]
fn reloading_an_archive_replaces_the_mount() {
    let mut sv = BBServer::new(&config());
    sv.post(s("x"), s("t"), vec![1, 2]).unwrap();
    sv.post(s("x"), s("t"), vec![3]).unwrap();
    sv.post(s("y"), s("u"), vec![4]).unwrap();
    let p1 = sv.archive(&s("acv"), &s("x"), None, 0).unwrap();
    let p2 = sv.archive(&s("acv"), &s("y"), None, p1.data_end).unwrap();
    let mut meta = p1.meta.clone();
    meta.extend(p2.meta.clone());
    let meta = Some(meta);
    sv.load(&s("acv"), &meta).unwrap();
    let view1 = sv.bulletinboard.view();
    let st1 = sv.status();
    sv.load(&s("acv"), &meta).unwrap();
    assert_eq!(sv.bulletinboard.view(), view1);
    assert_eq!(sv.status(), st1);
    assert_eq!(view1.0, vec![(s("x"), s("acv:t"), 2), (s("y"), s("acv:u"), 1)]);
    assert_eq!(st1.n_archives, 3);
    assert_eq!(sv.bulletinboard.loaded.len(), 1);
}

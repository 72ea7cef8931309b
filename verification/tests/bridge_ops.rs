use zboxfs::bridge::Bridge;
use zboxfs::error::BridgeError;
use zboxfs::kind::ResourceKind;
use zboxfs::values::{Cipher, FileKind, MemLimit, OpsLimit, Timestamp};

fn ts(secs: u64) -> Timestamp {
    Timestamp { secs, nanos: 0 }
}

fn open_fresh_repo(b: &mut Bridge, uri: &str) -> usize {
    let op = b.attach(ResourceKind::Opener).unwrap();
    b.opener_create(op, true).unwrap();
    b.opener_open(op, uri, "secret", ts(1_000)).unwrap()
}

#[test]
fn attach_constructs_only_builders() {
    let mut b = Bridge::new();
    assert!(b.attach(ResourceKind::Opener).is_some());
    assert!(b.attach(ResourceKind::FileOptions).is_some());
    assert!(b.attach(ResourceKind::Repository).is_none());
    assert!(b.attach(ResourceKind::File).is_none());
    assert!(b.attach(ResourceKind::VersionReader).is_none());
}

#[test]
fn detach_twice_is_a_no_op_second_time() {
    let mut b = Bridge::new();
    let op = b.attach(ResourceKind::Opener).unwrap();
    assert!(b.get_opener(op).is_ok());
    b.detach(op);
    assert_eq!(b.get_opener(op), Err(BridgeError::NoResourceAttached));
    // the second detach finds nothing, changes nothing, raises nothing
    b.detach(op);
    assert_eq!(b.get_opener(op), Err(BridgeError::NoResourceAttached));
    // detaching a token that never existed is just as harmless
    b.detach(1_000);
}

#[test]
fn operations_after_detach_fail_deterministically() {
    let mut b = Bridge::new();
    let repo = open_fresh_repo(&mut b, "mem://r0");
    b.detach(repo);
    assert_eq!(b.repo_path_exists(repo, "/"), Err(BridgeError::NoResourceAttached));
    assert_eq!(b.repo_create_file(repo, "/f", ts(2)), Err(BridgeError::NoResourceAttached));
}

#[test]
fn wrong_kind_is_detected() {
    let mut b = Bridge::new();
    let op = b.attach(ResourceKind::Opener).unwrap();
    assert_eq!(b.get_options(op), Err(BridgeError::WrongResourceKind));
    assert_eq!(b.get_repo(op), Err(BridgeError::WrongResourceKind));
}

#[test]
fn opener_settings_accumulate() {
    let mut b = Bridge::new();
    let op = b.attach(ResourceKind::Opener).unwrap();
    b.opener_cipher(op, Cipher::Aes).unwrap();
    b.opener_ops_limit(op, OpsLimit::Sensitive).unwrap();
    b.opener_mem_limit(op, MemLimit::Moderate).unwrap();
    b.opener_compress(op, true).unwrap();
    b.opener_version_limit(op, 42).unwrap();
    b.opener_dedup_chunk(op, true).unwrap();
    let cfg = b.get_opener(op).unwrap();
    assert_eq!(cfg.cipher, Cipher::Aes);
    assert_eq!(cfg.ops_limit, OpsLimit::Sensitive);
    assert_eq!(cfg.mem_limit, MemLimit::Moderate);
    assert!(cfg.compress);
    assert_eq!(cfg.version_limit, 42);
    assert!(cfg.dedup_chunk);
}

#[test]
fn opener_version_limit_clamps() {
    let mut b = Bridge::new();
    let op = b.attach(ResourceKind::Opener).unwrap();
    b.opener_version_limit(op, 256).unwrap();
    assert_eq!(b.get_opener(op).unwrap().version_limit, 0);
    b.opener_version_limit(op, 255).unwrap();
    assert_eq!(b.get_opener(op).unwrap().version_limit, 255);
    b.opener_version_limit(op, -1).unwrap();
    assert_eq!(b.get_opener(op).unwrap().version_limit, 0);
}

#[test]
fn open_missing_repo_without_create_fails() {
    let mut b = Bridge::new();
    let op = b.attach(ResourceKind::Opener).unwrap();
    assert_eq!(b.opener_open(op, "mem://r1", "pw", ts(1)), Err(BridgeError::NotFound));
}

#[test]
fn create_then_reopen_with_password() {
    let mut b = Bridge::new();
    let op = b.attach(ResourceKind::Opener).unwrap();
    b.opener_create(op, true).unwrap();
    let r1 = b.opener_open(op, "mem://r2", "pw", ts(1)).unwrap();
    assert!(b.repo_exists("mem://r2"));
    b.detach(r1);
    let op2 = b.attach(ResourceKind::Opener).unwrap();
    assert_eq!(b.opener_open(op2, "mem://r2", "wrong", ts(2)), Err(BridgeError::InvalidPassword));
    assert!(b.opener_open(op2, "mem://r2", "pw", ts(2)).is_ok());
}

#[test]
fn create_new_refuses_existing_repo() {
    let mut b = Bridge::new();
    open_fresh_repo(&mut b, "mem://r3");
    let op = b.attach(ResourceKind::Opener).unwrap();
    b.opener_create_new(op, true).unwrap();
    assert_eq!(b.opener_open(op, "mem://r3", "x", ts(3)), Err(BridgeError::AlreadyExists));
}

#[test]
fn repo_info_reports_settings() {
    let mut b = Bridge::new();
    let op = b.attach(ResourceKind::Opener).unwrap();
    b.opener_create(op, true).unwrap();
    b.opener_cipher(op, Cipher::Aes).unwrap();
    b.opener_compress(op, true).unwrap();
    b.opener_version_limit(op, 9).unwrap();
    let repo = b.opener_open(op, "mem://info", "pw", ts(77)).unwrap();
    let info = b.repo_info(repo).unwrap();
    assert_eq!(info.volume_id.len(), 32);
    assert_eq!(info.uri, "mem://info");
    assert_eq!(info.cipher, Cipher::Aes);
    assert!(info.compress);
    assert_eq!(info.version_limit, 9);
    assert!(!info.read_only);
    assert_eq!(info.created_at, 77);
}

#[test]
fn end_to_end_create_write_finish_metadata() {
    let mut b = Bridge::new();
    let repo = open_fresh_repo(&mut b, "mem://e2e");
    let file = b.repo_create_file(repo, "/a/b.txt", ts(10)).unwrap();
    let payload: Vec<u8> = vec![1, 2, 3, 4, 5, 6, 7, 8, 9, 10];
    assert_eq!(b.file_write(file, &payload), Ok(10));
    b.file_finish(file, ts(11)).unwrap();
    let meta = b.file_metadata(file).unwrap();
    assert_eq!(meta.content_len, 10);
    assert_eq!(meta.curr_version, 1);
    assert_eq!(meta.kind, FileKind::File);
}

#[test]
fn unrooted_path_is_rejected_before_the_store_is_touched() {
    let mut b = Bridge::new();
    let repo = open_fresh_repo(&mut b, "mem://p7");
    assert_eq!(b.repo_create_file(repo, "relative/path", ts(1)), Err(BridgeError::InvalidPath));
    assert_eq!(b.repo_open_file(repo, "relative/path", ts(1)), Err(BridgeError::InvalidPath));
    assert_eq!(b.repo_path_exists(repo, "relative/path"), Err(BridgeError::InvalidPath));
    // nothing was created along the way
    assert_eq!(b.repo_read_dir(repo, "/").unwrap().len(), 0);
}

#[test]
fn read_all_returns_exactly_the_remainder() {
    let mut b = Bridge::new();
    let repo = open_fresh_repo(&mut b, "mem://ra");
    let file = b.repo_create_file(repo, "/data", ts(1)).unwrap();
    let payload: Vec<u8> = (0u8..100).collect();
    b.file_write(file, &payload).unwrap();
    b.file_finish(file, ts(2)).unwrap();
    // reopen for reading and position the cursor at 40
    let rd = b.repo_open_file(repo, "/data", ts(3)).unwrap();
    assert_eq!(b.file_seek(rd, 40, 0), Ok(40));
    let rest = b.file_read_all(rd).unwrap();
    assert_eq!(rest.len(), 60);
    assert_eq!(rest[0], 40);
    assert_eq!(rest[59], 99);
    // at the end of the stream a further read-all is empty
    assert_eq!(b.file_read_all(rd).unwrap().len(), 0);
}

#[test]
fn read_copies_into_caller_buffer_and_advances() {
    let mut b = Bridge::new();
    let repo = open_fresh_repo(&mut b, "mem://rd");
    let file = b.repo_create_file(repo, "/f", ts(1)).unwrap();
    b.file_write(file, &vec![10, 20, 30, 40, 50]).unwrap();
    b.file_finish(file, ts(2)).unwrap();
    let rd = b.repo_open_file(repo, "/f", ts(3)).unwrap();
    let mut buf = vec![0u8; 2];
    assert_eq!(b.file_read(rd, &mut buf), Ok(2));
    assert_eq!(buf, vec![10, 20]);
    assert_eq!(b.file_read(rd, &mut buf), Ok(2));
    assert_eq!(buf, vec![30, 40]);
    assert_eq!(b.file_read(rd, &mut buf), Ok(1));
    assert_eq!(buf, vec![50, 40]);
    // zero at the end of the stream is not an error
    assert_eq!(b.file_read(rd, &mut buf), Ok(0));
}

#[test]
fn write_only_file_cannot_be_read() {
    let mut b = Bridge::new();
    let repo = open_fresh_repo(&mut b, "mem://wo");
    let file = b.repo_create_file(repo, "/f", ts(1)).unwrap();
    let mut buf = vec![0u8; 1];
    assert_eq!(b.file_read(file, &mut buf), Err(BridgeError::CannotRead));
    let rd = b.repo_open_file(repo, "/f", ts(2)).unwrap();
    assert_eq!(b.file_write(rd, &vec![1]), Err(BridgeError::CannotWrite));
    assert_eq!(b.file_finish(rd, ts(3)), Err(BridgeError::CannotWrite));
}

#[test]
fn write_once_commits_whole_buffer() {
    let mut b = Bridge::new();
    let repo = open_fresh_repo(&mut b, "mem://w1");
    let file = b.repo_create_file(repo, "/f", ts(1)).unwrap();
    b.file_write_once(file, &vec![9, 9, 9], ts(2)).unwrap();
    let meta = b.file_metadata(file).unwrap();
    assert_eq!(meta.content_len, 3);
    assert_eq!(meta.curr_version, 1);
    assert_eq!(b.file_curr_version(file), Ok(1));
}

#[test]
fn set_len_truncates_and_pads() {
    let mut b = Bridge::new();
    let repo = open_fresh_repo(&mut b, "mem://sl");
    let file = b.repo_create_file(repo, "/f", ts(1)).unwrap();
    b.file_write(file, &vec![1, 2, 3, 4]).unwrap();
    b.file_set_len(file, 2, ts(2)).unwrap();
    assert_eq!(b.file_metadata(file).unwrap().content_len, 2);
    b.file_set_len(file, 5, ts(3)).unwrap();
    assert_eq!(b.file_metadata(file).unwrap().content_len, 5);
    b.file_finish(file, ts(4)).unwrap();
    let rd = b.repo_open_file(repo, "/f", ts(5)).unwrap();
    assert_eq!(b.file_read_all(rd).unwrap(), vec![1, 2, 0, 0, 0]);
}

#[test]
fn history_and_version_reader_see_old_snapshots() {
    let mut b = Bridge::new();
    let repo = open_fresh_repo(&mut b, "mem://hist");
    let file = b.repo_create_file(repo, "/f", ts(1)).unwrap();
    b.file_write(file, &vec![1, 1]).unwrap();
    b.file_finish(file, ts(10)).unwrap();
    b.file_write(file, &vec![2, 2, 2]).unwrap();
    b.file_finish(file, ts(20)).unwrap();
    let hist = b.file_history(file).unwrap();
    assert_eq!(hist.len(), 2);
    assert_eq!(hist[0].num, 1);
    assert_eq!(hist[0].content_len, 2);
    assert_eq!(hist[0].created_at, 10);
    assert_eq!(hist[1].num, 2);
    assert_eq!(hist[1].content_len, 5);
    // the reader is bound to the old version even after a newer commit
    let vr = b.file_version_reader(file, 1).unwrap();
    assert_eq!(b.reader_read_all(vr).unwrap(), vec![1, 1]);
    assert_eq!(b.file_version_reader(file, 7), Err(BridgeError::NoVersion));
}

#[test]
fn version_reader_seek_and_partial_read() {
    let mut b = Bridge::new();
    let repo = open_fresh_repo(&mut b, "mem://vr");
    let file = b.repo_create_file(repo, "/f", ts(1)).unwrap();
    b.file_write(file, &vec![5, 6, 7, 8]).unwrap();
    b.file_finish(file, ts(2)).unwrap();
    let vr = b.file_version_reader(file, 1).unwrap();
    assert_eq!(b.reader_seek(vr, -2, 2), Ok(2));
    let mut buf = vec![0u8; 8];
    assert_eq!(b.reader_read(vr, &mut buf), Ok(2));
    assert_eq!(&buf[0..2], &[7, 8]);
    assert_eq!(b.reader_seek(vr, -100, 1), Err(BridgeError::InvalidArgument));
}

#[test]
fn options_control_what_opening_does() {
    let mut b = Bridge::new();
    let repo = open_fresh_repo(&mut b, "mem://opt");
    let file = b.repo_create_file(repo, "/f", ts(1)).unwrap();
    b.file_write_once(file, &vec![1, 2, 3], ts(2)).unwrap();
    // exclusive creation refuses an existing file
    let o1 = b.attach(ResourceKind::FileOptions).unwrap();
    b.options_create_new(o1, true).unwrap();
    b.options_write(o1, true).unwrap();
    assert_eq!(b.options_open(o1, repo, "/f", ts(3)), Err(BridgeError::AlreadyExists));
    // truncation together with append is contradictory
    let o2 = b.attach(ResourceKind::FileOptions).unwrap();
    b.options_write(o2, true).unwrap();
    b.options_truncate(o2, true).unwrap();
    b.options_append(o2, true).unwrap();
    assert_eq!(b.options_open(o2, repo, "/f", ts(3)), Err(BridgeError::InvalidArgument));
    // creation without write intent is contradictory
    let o3 = b.attach(ResourceKind::FileOptions).unwrap();
    b.options_create(o3, true).unwrap();
    assert_eq!(b.options_open(o3, repo, "/g", ts(3)), Err(BridgeError::InvalidArgument));
    // append positions the cursor at the end
    let o4 = b.attach(ResourceKind::FileOptions).unwrap();
    b.options_append(o4, true).unwrap();
    let f4 = b.options_open(o4, repo, "/f", ts(4)).unwrap();
    assert_eq!(b.file_seek(f4, 0, 1), Ok(3));
    // truncation clears the working content
    let o5 = b.attach(ResourceKind::FileOptions).unwrap();
    b.options_write(o5, true).unwrap();
    b.options_truncate(o5, true).unwrap();
    let f5 = b.options_open(o5, repo, "/f", ts(5)).unwrap();
    assert_eq!(b.file_metadata(f5).unwrap().content_len, 0);
}

#[test]
fn directory_queries_and_listing() {
    let mut b = Bridge::new();
    let repo = open_fresh_repo(&mut b, "mem://dir");
    b.repo_create_dir(repo, "/docs", ts(1)).unwrap();
    let f = b.repo_create_file(repo, "/docs/a.txt", ts(2)).unwrap();
    b.file_write_once(f, &vec![1], ts(2)).unwrap();
    b.repo_create_file(repo, "/docs/b.txt", ts(3)).unwrap();
    b.repo_create_dir(repo, "/docs/sub", ts(4)).unwrap();
    b.repo_create_file(repo, "/docs/sub/deep.txt", ts(5)).unwrap();

    assert_eq!(b.repo_path_exists(repo, "/docs"), Ok(true));
    assert_eq!(b.repo_path_exists(repo, "/nope"), Ok(false));
    assert_eq!(b.repo_is_dir(repo, "/docs"), Ok(true));
    assert_eq!(b.repo_is_dir(repo, "/docs/a.txt"), Ok(false));
    assert_eq!(b.repo_is_file(repo, "/docs/a.txt"), Ok(true));
    assert_eq!(b.repo_is_file(repo, "/"), Ok(false));
    assert_eq!(b.repo_is_dir(repo, "/"), Ok(true));

    // only direct children are listed, not the grandchild
    let listing = b.repo_read_dir(repo, "/docs").unwrap();
    assert_eq!(listing.len(), 3);
    assert_eq!(listing[0].path, "/docs/a.txt");
    assert_eq!(listing[0].file_name, "a.txt");
    assert_eq!(listing[0].metadata.content_len, 1);
    assert_eq!(listing[1].file_name, "b.txt");
    assert_eq!(listing[2].file_name, "sub");
    assert_eq!(listing[2].metadata.kind, FileKind::Dir);

    let top = b.repo_read_dir(repo, "/").unwrap();
    assert_eq!(top.len(), 1);
    assert_eq!(top[0].file_name, "docs");

    assert!(matches!(b.repo_read_dir(repo, "/docs/a.txt"), Err(BridgeError::NotDir)));
    assert!(matches!(b.repo_read_dir(repo, "/nope"), Err(BridgeError::NotFound)));
}

#[test]
fn create_dir_all_adds_missing_levels() {
    let mut b = Bridge::new();
    let repo = open_fresh_repo(&mut b, "mem://mk");
    b.repo_create_dir_all(repo, "/x/y/z", ts(1)).unwrap();
    assert_eq!(b.repo_is_dir(repo, "/x"), Ok(true));
    assert_eq!(b.repo_is_dir(repo, "/x/y"), Ok(true));
    assert_eq!(b.repo_is_dir(repo, "/x/y/z"), Ok(true));
    // repeating the call is harmless
    b.repo_create_dir_all(repo, "/x/y/z", ts(2)).unwrap();
    // a file standing at a level blocks the chain
    b.repo_create_file(repo, "/x/f", ts(3)).unwrap();
    assert_eq!(b.repo_create_dir_all(repo, "/x/f/deeper", ts(4)), Err(BridgeError::NotDir));
}

#[test]
fn create_dir_refuses_existing_and_root() {
    let mut b = Bridge::new();
    let repo = open_fresh_repo(&mut b, "mem://mkd");
    assert_eq!(b.repo_create_dir(repo, "/", ts(1)), Err(BridgeError::AlreadyExists));
    b.repo_create_dir(repo, "/d", ts(1)).unwrap();
    assert_eq!(b.repo_create_dir(repo, "/d", ts(2)), Err(BridgeError::AlreadyExists));
}

#[test]
fn metadata_of_paths() {
    let mut b = Bridge::new();
    let repo = open_fresh_repo(&mut b, "mem://md");
    let root = b.repo_metadata(repo, "/").unwrap();
    assert_eq!(root.kind, FileKind::Dir);
    let f = b.repo_create_file(repo, "/f", ts(5)).unwrap();
    b.file_write_once(f, &vec![1, 2], ts(6)).unwrap();
    let meta = b.repo_metadata(repo, "/f").unwrap();
    assert_eq!(meta.content_len, 2);
    assert_eq!(meta.created_at, 5);
    assert_eq!(meta.modified_at, 6);
    assert_eq!(b.repo_metadata(repo, "/nope"), Err(BridgeError::NotFound));
    let hist = b.repo_history(repo, "/f").unwrap();
    assert_eq!(hist.len(), 1);
}

#[test]
fn copy_creates_or_overwrites_target() {
    let mut b = Bridge::new();
    let repo = open_fresh_repo(&mut b, "mem://cp");
    let f = b.repo_create_file(repo, "/src", ts(1)).unwrap();
    b.file_write_once(f, &vec![7, 8, 9], ts(2)).unwrap();
    b.repo_copy(repo, "/src", "/dst", ts(3)).unwrap();
    let rd = b.repo_open_file(repo, "/dst", ts(4)).unwrap();
    assert_eq!(b.file_read_all(rd).unwrap(), vec![7, 8, 9]);
    // copying onto itself changes nothing and raises nothing
    b.repo_copy(repo, "/src", "/src", ts(5)).unwrap();
    assert_eq!(b.repo_copy(repo, "/missing", "/x", ts(6)), Err(BridgeError::NotFound));
}

#[test]
fn rename_moves_a_subtree() {
    let mut b = Bridge::new();
    let repo = open_fresh_repo(&mut b, "mem://mv");
    b.repo_create_dir(repo, "/old", ts(1)).unwrap();
    let f = b.repo_create_file(repo, "/old/f", ts(2)).unwrap();
    b.file_write_once(f, &vec![3, 3], ts(2)).unwrap();
    b.repo_rename(repo, "/old", "/new").unwrap();
    assert_eq!(b.repo_path_exists(repo, "/old"), Ok(false));
    assert_eq!(b.repo_path_exists(repo, "/old/f"), Ok(false));
    assert_eq!(b.repo_is_dir(repo, "/new"), Ok(true));
    let rd = b.repo_open_file(repo, "/new/f", ts(3)).unwrap();
    assert_eq!(b.file_read_all(rd).unwrap(), vec![3, 3]);
    // the target must name nothing
    b.repo_create_dir(repo, "/blocked", ts(4)).unwrap();
    assert_eq!(b.repo_rename(repo, "/new", "/blocked"), Err(BridgeError::AlreadyExists));
    assert_eq!(b.repo_rename(repo, "/", "/x"), Err(BridgeError::IsRoot));
}

#[test]
fn copy_dir_all_duplicates_a_subtree() {
    let mut b = Bridge::new();
    let repo = open_fresh_repo(&mut b, "mem://cpd");
    b.repo_create_dir(repo, "/d", ts(1)).unwrap();
    let f = b.repo_create_file(repo, "/d/f", ts(2)).unwrap();
    b.file_write_once(f, &vec![4, 5], ts(2)).unwrap();
    b.repo_copy_dir_all(repo, "/d", "/d2", ts(3)).unwrap();
    assert_eq!(b.repo_is_dir(repo, "/d2"), Ok(true));
    let rd = b.repo_open_file(repo, "/d2/f", ts(4)).unwrap();
    assert_eq!(b.file_read_all(rd).unwrap(), vec![4, 5]);
    // the source is still there
    assert_eq!(b.repo_is_file(repo, "/d/f"), Ok(true));
}

#[test]
fn removals() {
    let mut b = Bridge::new();
    let repo = open_fresh_repo(&mut b, "mem://rm");
    b.repo_create_dir(repo, "/d", ts(1)).unwrap();
    b.repo_create_file(repo, "/d/f", ts(2)).unwrap();
    assert_eq!(b.repo_remove_dir(repo, "/d"), Err(BridgeError::NotEmpty));
    assert_eq!(b.repo_remove_file(repo, "/d"), Err(BridgeError::NotFile));
    assert_eq!(b.repo_remove_dir(repo, "/d/f"), Err(BridgeError::NotDir));
    b.repo_remove_file(repo, "/d/f").unwrap();
    b.repo_remove_dir(repo, "/d").unwrap();
    assert_eq!(b.repo_path_exists(repo, "/d"), Ok(false));
    assert_eq!(b.repo_remove_dir(repo, "/"), Err(BridgeError::IsRoot));
    // remove_dir_all clears a whole subtree, or everything on the root
    b.repo_create_dir_all(repo, "/a/b", ts(3)).unwrap();
    b.repo_create_file(repo, "/a/b/f", ts(4)).unwrap();
    b.repo_remove_dir_all(repo, "/a").unwrap();
    assert_eq!(b.repo_path_exists(repo, "/a/b/f"), Ok(false));
    assert_eq!(b.repo_path_exists(repo, "/a"), Ok(false));
}

#[test]
fn destroy_frees_the_location() {
    let mut b = Bridge::new();
    open_fresh_repo(&mut b, "mem://gone");
    assert!(b.repo_exists("mem://gone"));
    b.repo_destroy("mem://gone").unwrap();
    assert!(!b.repo_exists("mem://gone"));
    assert_eq!(b.repo_destroy("mem://gone"), Err(BridgeError::NotFound));
}

#[test]
fn reset_password_guards_the_old_one() {
    let mut b = Bridge::new();
    let repo = open_fresh_repo(&mut b, "mem://pw");
    assert_eq!(
        b.repo_reset_password(repo, "wrong", "new", OpsLimit::Interactive, MemLimit::Interactive),
        Err(BridgeError::InvalidPassword)
    );
    b.repo_reset_password(repo, "secret", "new", OpsLimit::Moderate, MemLimit::Moderate).unwrap();
    b.detach(repo);
    let op = b.attach(ResourceKind::Opener).unwrap();
    assert_eq!(b.opener_open(op, "mem://pw", "secret", ts(9)), Err(BridgeError::InvalidPassword));
    assert!(b.opener_open(op, "mem://pw", "new", ts(9)).is_ok());
}

#[test]
fn repair_super_block_checks_location_and_password() {
    let mut b = Bridge::new();
    open_fresh_repo(&mut b, "mem://fix");
    assert_eq!(b.repo_repair_super_block("mem://fix", "secret"), Ok(()));
    assert_eq!(b.repo_repair_super_block("mem://fix", "bad"), Err(BridgeError::InvalidPassword));
    assert_eq!(b.repo_repair_super_block("mem://other", "x"), Err(BridgeError::NotFound));
}

#[test]
fn read_only_opening_refuses_mutation() {
    let mut b = Bridge::new();
    open_fresh_repo(&mut b, "mem://ro");
    let op = b.attach(ResourceKind::Opener).unwrap();
    b.opener_read_only(op, true).unwrap();
    let repo = b.opener_open(op, "mem://ro", "secret", ts(1)).unwrap();
    assert!(b.repo_info(repo).unwrap().read_only);
    assert_eq!(b.repo_create_file(repo, "/f", ts(2)), Err(BridgeError::ReadOnly));
    assert_eq!(b.repo_create_dir(repo, "/d", ts(2)), Err(BridgeError::ReadOnly));
    assert_eq!(b.repo_remove_dir_all(repo, "/"), Err(BridgeError::ReadOnly));
}

#[test]
fn version_list_marshalling_keeps_failures_visible() {
    let ok = zboxfs::values::to_version_list(Ok(vec![zboxfs::values::Version {
        num: 1,
        content_len: 2,
        created_at: 3,
    }]));
    assert_eq!(ok.0.len(), 1);
    assert!(ok.1.is_none());
    let failed = zboxfs::values::to_version_list(Err(BridgeError::NotFound));
    assert_eq!(failed.0.len(), 0);
    assert_eq!(failed.1, Some(BridgeError::NotFound));
}

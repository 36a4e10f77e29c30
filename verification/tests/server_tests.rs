use mounter::server::state::SmbSession;
use mounter::server::step::{Moment, Pending, Step};
use mounter::sftp::call::{CallOf, SftpCall, SftpReply};
use mounter::sftp::packet::{SSH_FXF_CREAT, SSH_FXF_READ, SSH_FXF_TRUNC, SSH_FXF_WRITE};
use mounter::utf16::to_utf16le;
use mounter::wire::{DirEntry, FileAttr, SftpError};

const SECOND: u128 = 1_000_000_000;

const AT: Moment = Moment {
    now: 0,
    wall: 1_700_000_000,
};

fn later(secs: u128) -> Moment {
    Moment {
        now: secs * SECOND,
        wall: 1_700_000_000,
    }
}

fn test_attr(size: u64, perm: u32) -> FileAttr {
    FileAttr {
        size,
        uid: 1000,
        gid: 1000,
        perm,
        atime: 1000,
        mtime: 2000,
    }
}

fn make_test_session() -> SmbSession {
    SmbSession::new("/home/user".into(), "test".into())
}

fn request_on(command: u16, tree: u32, body: &[u8]) -> Vec<u8> {
    let mut m = vec![0xFE, b'S', b'M', b'B', 64, 0];
    m.extend_from_slice(&1u16.to_le_bytes()); // credit charge
    m.extend_from_slice(&0u32.to_le_bytes()); // status
    m.extend_from_slice(&command.to_le_bytes());
    m.extend_from_slice(&31u16.to_le_bytes()); // credits
    m.extend_from_slice(&0u32.to_le_bytes()); // flags
    m.extend_from_slice(&0u32.to_le_bytes()); // next command
    m.extend_from_slice(&77u64.to_le_bytes()); // message id
    m.extend_from_slice(&0xFEFFu32.to_le_bytes()); // process id
    m.extend_from_slice(&tree.to_le_bytes());
    m.extend_from_slice(&5u64.to_le_bytes()); // session id
    m.extend_from_slice(&[0u8; 16]);
    m.extend_from_slice(body);
    m
}

fn request(command: u16, body: &[u8]) -> Vec<u8> {
    request_on(command, 1, body)
}

fn create_body(name: &str, disposition: u32, options: u32) -> Vec<u8> {
    let text = to_utf16le(name);
    let mut b = vec![0u8; 56];
    b[36..40].copy_from_slice(&disposition.to_le_bytes());
    b[40..44].copy_from_slice(&options.to_le_bytes());
    b[44..46].copy_from_slice(&(64u16 + 56).to_le_bytes());
    b[46..48].copy_from_slice(&(text.len() as u16).to_le_bytes());
    b.extend_from_slice(&text);
    b
}

fn reply_of(step: Step) -> Vec<u8> {
    match step {
        Step::Reply(r) => r,
        Step::Ask(..) => panic!("the request waits"),
    }
}

fn ask_of(step: Step) -> (SftpCall, Pending) {
    match step {
        Step::Ask(c, p) => (c, p),
        Step::Reply(_) => panic!("the request was answered"),
    }
}

fn status_of(reply: &[u8]) -> u32 {
    u32::from_le_bytes([reply[12], reply[13], reply[14], reply[15]])
}

fn body_of(reply: &[u8]) -> &[u8] {
    &reply[68..]
}

/// Opens an existing path and gives its handle.
fn open_existing(s: &mut SmbSession, name: &str, attr: FileAttr) -> u64 {
    let (call, pending) = ask_of(s.handle_message_at(&request(5, &create_body(name, 1, 0)), AT));
    match call {
        CallOf::Lstat { .. } => {}
        _ => panic!("not a lookup"),
    }
    let reply = reply_of(s.resume_at(pending, SftpReply::Attrs(Ok(attr)), AT));
    assert_eq!(status_of(&reply), 0);
    handle_in(&reply)
}

fn handle_in(reply: &[u8]) -> u64 {
    let b = body_of(reply);
    let mut id = [0u8; 8];
    id.copy_from_slice(&b[64..72]);
    u64::from_le_bytes(id)
}

fn close_body(fid: u64) -> Vec<u8> {
    let mut b = vec![0u8; 24];
    b[8..16].copy_from_slice(&fid.to_le_bytes());
    b
}

fn read_body(fid: u64, offset: u64, length: u32) -> Vec<u8> {
    let mut b = vec![0u8; 49];
    b[4..8].copy_from_slice(&length.to_le_bytes());
    b[8..16].copy_from_slice(&offset.to_le_bytes());
    b[16..24].copy_from_slice(&fid.to_le_bytes());
    b
}

fn write_body(fid: u64, offset: u64, data: &[u8]) -> Vec<u8> {
    let mut b = vec![0u8; 48];
    b[2..4].copy_from_slice(&(64u16 + 48).to_le_bytes());
    b[4..8].copy_from_slice(&(data.len() as u32).to_le_bytes());
    b[8..16].copy_from_slice(&offset.to_le_bytes());
    b[16..24].copy_from_slice(&fid.to_le_bytes());
    b.extend_from_slice(data);
    b
}

fn query_dir_body(fid: u64, flags: u8, pattern: &str) -> Vec<u8> {
    let text = to_utf16le(pattern);
    let mut b = vec![0u8; 32];
    b[2] = 37;
    b[3] = flags;
    b[8..16].copy_from_slice(&fid.to_le_bytes());
    b[24..26].copy_from_slice(&(64u16 + 32).to_le_bytes());
    b[26..28].copy_from_slice(&(text.len() as u16).to_le_bytes());
    b.extend_from_slice(&text);
    b
}

fn query_info_body(fid: u64, info_type: u8, class: u8) -> Vec<u8> {
    let mut b = vec![0u8; 40];
    b[2] = info_type;
    b[3] = class;
    b[24..32].copy_from_slice(&fid.to_le_bytes());
    b
}

fn set_info_body(fid: u64, class: u8, data: &[u8]) -> Vec<u8> {
    let mut b = vec![0u8; 32];
    b[2] = 1;
    b[3] = class;
    b[4..8].copy_from_slice(&(data.len() as u32).to_le_bytes());
    b[8..10].copy_from_slice(&(64u16 + 32).to_le_bytes());
    b[16..24].copy_from_slice(&fid.to_le_bytes());
    b.extend_from_slice(data);
    b
}

// ── Paths ───────────────────────────────────────────────────────────

#[test]
fn full_path_empty_returns_root() {
    let sess = make_test_session();
    assert_eq!(sess.full_path(""), "/home/user");
    assert_eq!(sess.full_path("\\"), "/home/user");
    assert_eq!(sess.full_path("/"), "/home/user");
}

#[test]
fn full_path_relative() {
    let sess = make_test_session();
    assert_eq!(
        sess.full_path("docs/readme.md"),
        "/home/user/docs/readme.md"
    );
}

#[test]
fn full_path_backslash_normalized() {
    let sess = make_test_session();
    assert_eq!(
        sess.full_path("docs\\sub\\file.txt"),
        "/home/user/docs/sub/file.txt"
    );
}

#[test]
fn full_path_leading_slash_stripped() {
    let sess = make_test_session();
    assert_eq!(sess.full_path("/docs"), "/home/user/docs");
    assert_eq!(sess.full_path("\\/\\docs\\"), "/home/user/docs/");
}

#[test]
fn invalidate_path_clears_both_caches() {
    let mut sess = make_test_session();
    // Populate attr cache
    sess.cache.insert(
        "/home/user/dir/file.txt".into(),
        test_attr(10, 0o100644),
        false,
    );
    // Populate dir cache for parent
    sess.dir_cache.insert(
        "/home/user/dir".into(),
        vec![DirEntry {
            name: "file.txt".into(),
            attrs: test_attr(10, 0o100644),
        }],
    );
    assert!(sess.cache.get("/home/user/dir/file.txt").is_some());
    assert!(sess.dir_cache.get("/home/user/dir").is_some());

    sess.invalidate_path("/home/user/dir/file.txt");
    assert!(sess.cache.get("/home/user/dir/file.txt").is_none());
    assert!(sess.dir_cache.get("/home/user/dir").is_none());
}

// ── Sessions and trees ──────────────────────────────────────────────

#[test]
fn a_message_without_a_header_is_not_answered() {
    let mut s = make_test_session();
    assert_eq!(reply_of(s.handle_message_at(b"short", AT)), Vec::<u8>::new());
    let mut m = request(0, &[]);
    m[0] = 0xFD;
    assert_eq!(reply_of(s.handle_message(&m)), Vec::<u8>::new());
    assert_eq!(s.msg_count, 2);
}

#[test]
fn responses_echo_the_request() {
    let mut s = make_test_session();
    let reply = reply_of(s.handle_message(&request(13, &[])));
    assert_eq!(status_of(&reply), 0xC000_00BB);
    assert_eq!(&reply[0..4], &[0, 0, 0, 73]);
    assert_eq!(&reply[4..8], &[0xFE, b'S', b'M', b'B']);
    assert_eq!(&reply[16..18], &13u16.to_le_bytes());
    assert_eq!(&reply[20..24], &1u32.to_le_bytes());
    assert_eq!(&reply[28..36], &77u64.to_le_bytes());
    assert_eq!(&reply[40..44], &1u32.to_le_bytes());
    assert_eq!(body_of(&reply), &[9, 0, 0, 0, 0, 0, 0, 0, 0]);
}

#[test]
fn negotiation_settles_on_the_oldest_dialect() {
    let mut s = make_test_session();
    let reply = reply_of(s.handle_message_at(&request(0, &[0; 36]), AT));
    let b = body_of(&reply);
    assert_eq!(&b[0..2], &[65, 0]);
    assert_eq!(&b[4..6], &[0x02, 0x02]);
    assert_eq!(&b[8..12], &[1, 2, 3, 4]);
    let time = (1_700_000_000u64 + 11_644_473_600) * 10_000_000;
    assert_eq!(&b[40..48], &time.to_le_bytes());
    assert_eq!(&b[56..58], &[128, 0]);
    assert_eq!(b.len(), 64 + b[58] as usize);
    // The token that offers NTLMSSP
    assert_eq!(&b[64..66], &[0x60, 0x1c]);
}

#[test]
fn a_client_is_challenged_and_then_accepted() {
    let mut s = make_test_session();
    let mut token = vec![0xA1, 0x00];
    token.extend_from_slice(b"NTLMSSP\0");
    token.extend_from_slice(&1u32.to_le_bytes());
    let mut body = vec![0u8; 24];
    body[12..14].copy_from_slice(&(64u16 + 24).to_le_bytes());
    body[14..16].copy_from_slice(&(token.len() as u16).to_le_bytes());
    body.extend_from_slice(&token);
    let reply = reply_of(s.handle_message_at(&request(1, &body), AT));
    assert_eq!(status_of(&reply), 0xC000_0016);
    assert_eq!(s.auth_phase, 1);
    let b = body_of(&reply);
    assert_eq!(&b[0..6], &[9, 0, 0, 0, 72, 0]);
    let at = b.windows(8).position(|w| w == b"NTLMSSP\0").unwrap();
    assert_eq!(&b[at + 8..at + 12], &2u32.to_le_bytes());
    assert_eq!(&b[at + 20..at + 24], &0xe08a_8233u32.to_le_bytes());
    assert_eq!(b.len() - at, 120);
    // The session id of the server
    assert_eq!(&reply[44..52], &0x0000_0001_0000_0001u64.to_le_bytes());

    let reply = reply_of(s.handle_message_at(&request(1, &[0; 24]), AT));
    assert_eq!(status_of(&reply), 0);
    assert_eq!(s.auth_phase, 0);
    assert_eq!(
        body_of(&reply),
        &[9, 0, 1, 0, 72, 0, 9, 0, 0xa1, 7, 0x30, 5, 0xa0, 3, 0x0a, 1, 0]
    );
}

#[test]
fn a_challenge_echoes_the_flags_of_the_client() {
    let mut s = make_test_session();
    let mut token = vec![0x60, 0x28, 0x06];
    token.extend_from_slice(b"NTLMSSP\0");
    token.extend_from_slice(&1u32.to_le_bytes());
    token.extend_from_slice(&0x6200_0215u32.to_le_bytes());
    token.extend_from_slice(&[0; 16]);
    let mut body = vec![0u8; 24];
    body[12..14].copy_from_slice(&(64u16 + 24).to_le_bytes());
    body[14..16].copy_from_slice(&(token.len() as u16).to_le_bytes());
    body.extend_from_slice(&token);
    let reply = reply_of(s.handle_message_at(&request(1, &body), AT));
    assert_eq!(status_of(&reply), 0xC000_0016);
    let b = body_of(&reply);
    let at = b.windows(8).position(|w| w == b"NTLMSSP\0").unwrap();
    // No version, and a server that tells of itself
    assert_eq!(&b[at + 20..at + 24], &0x6082_0215u32.to_le_bytes());
}

fn tree_body(path: &str) -> Vec<u8> {
    let text = to_utf16le(path);
    let mut b = vec![0u8; 8];
    b[4..6].copy_from_slice(&72u16.to_le_bytes());
    b[6..8].copy_from_slice(&(text.len() as u16).to_le_bytes());
    b.extend_from_slice(&text);
    b
}

#[test]
fn pipes_have_a_tree_of_their_own() {
    let mut s = make_test_session();
    let reply = reply_of(s.handle_message(&request(3, &tree_body("\\\\srv\\share"))));
    assert_eq!(body_of(&reply)[2], 1);
    assert_eq!(&reply[40..44], &1u32.to_le_bytes());
    let reply = reply_of(s.handle_message(&request(3, &tree_body("\\\\srv\\ipc$"))));
    assert_eq!(body_of(&reply)[2], 2);
    assert_eq!(&reply[40..44], &2u32.to_le_bytes());
    assert_eq!(s.ipc_tree_id, Some(2));
    assert_eq!(s.next_tree_id, 3);
}

#[test]
fn some_requests_are_just_acknowledged() {
    let mut s = make_test_session();
    for command in [2u16, 4, 7, 10] {
        let reply = reply_of(s.handle_message(&request(command, &[0; 24])));
        assert_eq!(status_of(&reply), 0);
        assert_eq!(body_of(&reply), &[4, 0, 0, 0]);
    }
}

// ── CREATE and CLOSE ────────────────────────────────────────────────

#[test]
fn opening_an_existing_file() {
    let mut s = make_test_session();
    let (call, pending) =
        ask_of(s.handle_message_at(&request(5, &create_body("a\\b.txt", 1, 0)), AT));
    match call {
        CallOf::Lstat { path } => assert_eq!(path, "/home/user/a/b.txt"),
        _ => panic!("not a lookup"),
    }
    let reply = reply_of(s.resume_at(pending, SftpReply::Attrs(Ok(test_attr(9, 0o100644))), AT));
    let b = body_of(&reply);
    assert_eq!(b.len(), 89);
    assert_eq!(&b[0..8], &[89, 0, 0, 0, 1, 0, 0, 0]);
    assert_eq!(
        &b[8..16],
        &((2000u64 + 11_644_473_600) * 10_000_000).to_le_bytes()
    );
    assert_eq!(
        &b[16..24],
        &((1000u64 + 11_644_473_600) * 10_000_000).to_le_bytes()
    );
    assert_eq!(&b[40..48], &9u64.to_le_bytes());
    assert_eq!(&b[56..60], &0x20u32.to_le_bytes());
    assert_eq!(handle_in(&reply), 1);
    assert_eq!(s.last_create_handle, 1);

    // For a minute the attributes are known
    let reply =
        reply_of(s.handle_message_at(&request(5, &create_body("a/b.txt", 1, 0)), later(59)));
    assert_eq!(handle_in(&reply), 2);
    ask_of(s.handle_message_at(&request(5, &create_body("a/b.txt", 1, 0)), later(60)));
}

#[test]
fn opening_what_does_not_exist() {
    let mut s = make_test_session();
    let (_, pending) = ask_of(s.handle_message_at(&request(5, &create_body("no", 1, 0)), AT));
    let missing = SftpReply::Attrs(Err(SftpError::Status(2, "no such file".to_string())));
    let reply = reply_of(s.resume_at(pending, missing, AT));
    assert_eq!(status_of(&reply), 0xC000_0034);
    // That it is missing is remembered
    let reply = reply_of(s.handle_message_at(&request(5, &create_body("no", 1, 0)), later(29)));
    assert_eq!(status_of(&reply), 0xC000_0034);
    // Any other failure is a refusal
    let (_, pending) = ask_of(s.handle_message_at(&request(5, &create_body("x", 1, 0)), AT));
    let reply = reply_of(s.resume_at(
        pending,
        SftpReply::Attrs(Err(SftpError::Status(3, String::new()))),
        AT,
    ));
    assert_eq!(status_of(&reply), 0xC000_0022);
}

#[test]
fn files_of_macos_never_reach_the_remote_side() {
    let mut s = make_test_session();
    let reply = reply_of(s.handle_message_at(&request(5, &create_body("d\\.DS_Store", 1, 0)), AT));
    assert_eq!(status_of(&reply), 0xC000_0034);
    assert!(s.cache.is_negative_at("/home/user/d/.DS_Store", 119 * SECOND));
}

#[test]
fn the_spotlight_inhibitor_is_always_there() {
    let mut s = make_test_session();
    let m = request(5, &create_body(".metadata_never_index", 1, 0));
    let reply = reply_of(s.handle_message_at(&m, AT));
    assert_eq!(status_of(&reply), 0);
    let b = body_of(&reply);
    assert_eq!(&b[40..48], &0u64.to_le_bytes());
    // Only in the root of the share
    let m = request(5, &create_body("d\\.metadata_never_index", 1, 0));
    let reply = reply_of(s.handle_message_at(&m, AT));
    assert_eq!(status_of(&reply), 0xC000_0034);
}

#[test]
fn the_spotlight_inhibitor_is_an_empty_file() {
    let mut s = make_test_session();
    let m = request(5, &create_body(".metadata_never_index", 1, 0));
    let fid = handle_in(&reply_of(s.handle_message_at(&m, AT)));
    // Its standard information: no bytes, one link, no directory
    let m = request(16, &query_info_body(fid, 1, 5));
    let reply = reply_of(s.handle_message_at(&m, AT));
    assert_eq!(status_of(&reply), 0);
    let mut info = vec![0u8; 24];
    info[16] = 1;
    assert_eq!(&body_of(&reply)[8..], &info[..]);
    assert!(!s.cache.is_negative_at("/home/user/.metadata_never_index", 1));
    let reply = reply_of(s.handle_message_at(&request(8, &read_body(fid, 0, 16)), AT));
    assert_eq!(status_of(&reply), 0xC000_0011);
    // Its times stay those of the moment
    let mut times = vec![0u8; 40];
    times[8] = 1;
    let reply = reply_of(s.handle_message_at(&request(17, &set_info_body(fid, 4, &times)), AT));
    assert_eq!(status_of(&reply), 0);
}

#[test]
fn the_root_lists_the_spotlight_inhibitor() {
    let mut s = make_test_session();
    let fid = open_existing(&mut s, "", test_attr(0, 0o40755));
    let (_, pending) = ask_of(s.handle_message_at(&request(14, &query_dir_body(fid, 0, "*")), AT));
    let entries = vec![
        entry(".metadata_never_index", 9, 0o100644),
        entry("a.txt", 1, 0o100644),
    ];
    let reply = reply_of(s.resume_at(pending, SftpReply::Entries(Ok(entries)), AT));
    assert_eq!(
        names_in(&reply),
        vec![
            ("a.txt".to_string(), 1),
            (".metadata_never_index".to_string(), 2)
        ]
    );
    let reply = reply_of(s.handle_message_at(&request(14, &query_dir_body(fid, 0, "*")), AT));
    assert_eq!(status_of(&reply), 0x8000_0006);
    let m = request(14, &query_dir_body(fid, 0, ".metadata_never_index"));
    let reply = reply_of(s.handle_message_at(&m, AT));
    assert_eq!(
        names_in(&reply),
        vec![(".metadata_never_index".to_string(), 1)]
    );
    let reply = reply_of(s.handle_message_at(&request(14, &query_dir_body(fid, 0, ".meta*")), AT));
    assert_eq!(
        names_in(&reply),
        vec![(".metadata_never_index".to_string(), 1)]
    );
}

#[test]
fn creating_a_new_file() {
    let mut s = make_test_session();
    let (_, pending) = ask_of(s.handle_message_at(&request(5, &create_body("new", 2, 0)), AT));
    let missing = SftpReply::Attrs(Err(SftpError::Status(2, String::new())));
    let (call, pending) = ask_of(s.resume_at(pending, missing, AT));
    match call {
        CallOf::Open { path, flags, mode } => {
            assert_eq!(path, "/home/user/new");
            assert_eq!(flags, SSH_FXF_CREAT | SSH_FXF_WRITE | SSH_FXF_TRUNC);
            assert_eq!(mode, 0o644);
        }
        _ => panic!("not created"),
    }
    let (call, pending) = ask_of(s.resume_at(pending, SftpReply::Handle(Ok(vec![0, 4])), AT));
    match call {
        CallOf::Close { handle } => assert_eq!(handle, vec![0, 4]),
        _ => panic!("not closed"),
    }
    let (call, pending) = ask_of(s.resume_at(pending, SftpReply::Nothing(Ok(())), AT));
    match call {
        CallOf::Lstat { path } => assert_eq!(path, "/home/user/new"),
        _ => panic!("not looked up"),
    }
    let reply = reply_of(s.resume_at(pending, SftpReply::Attrs(Ok(test_attr(0, 0o100644))), AT));
    assert_eq!(status_of(&reply), 0);
    // It exists now
    let reply = reply_of(s.handle_message_at(&request(5, &create_body("new", 2, 0)), AT));
    assert_eq!(status_of(&reply), 0xC000_0035);
}

#[test]
fn creating_a_directory() {
    let mut s = make_test_session();
    let (_, pending) = ask_of(s.handle_message_at(&request(5, &create_body("d", 3, 1)), AT));
    let missing = SftpReply::Attrs(Err(SftpError::Status(2, String::new())));
    let (call, pending) = ask_of(s.resume_at(pending, missing, AT));
    match call {
        CallOf::Mkdir { path, mode } => {
            assert_eq!(path, "/home/user/d");
            assert_eq!(mode, 0o755);
        }
        _ => panic!("not made"),
    }
    let (_, pending) = ask_of(s.resume_at(pending, SftpReply::Nothing(Ok(())), AT));
    let reply = reply_of(s.resume_at(pending, SftpReply::Attrs(Ok(test_attr(0, 0o40755))), AT));
    assert_eq!(&body_of(&reply)[56..60], &0x10u32.to_le_bytes());
    // A refusal is passed on
    let (_, pending) = ask_of(s.handle_message_at(&request(5, &create_body("e", 2, 1)), AT));
    let missing = SftpReply::Attrs(Err(SftpError::Disconnected));
    let (_, pending) = ask_of(s.resume_at(pending, missing, AT));
    let refused = SftpReply::Nothing(Err(SftpError::Status(3, String::new())));
    let reply = reply_of(s.resume_at(pending, refused, AT));
    assert_eq!(status_of(&reply), 0xC000_0022);
}

#[test]
fn open_if_and_overwrite_use_their_flags() {
    let mut s = make_test_session();
    let (_, pending) = ask_of(s.handle_message_at(&request(5, &create_body("f", 3, 0)), AT));
    let missing = SftpReply::Attrs(Err(SftpError::Status(2, String::new())));
    let (call, _) = ask_of(s.resume_at(pending, missing, AT));
    match call {
        CallOf::Open { flags, .. } => {
            assert_eq!(flags, SSH_FXF_CREAT | SSH_FXF_READ | SSH_FXF_WRITE)
        }
        _ => panic!("not created"),
    }
    for disposition in [4, 5] {
        let (call, pending) = ask_of(
            s.handle_message_at(&request(5, &create_body("f", disposition, 0)), AT),
        );
        match call {
            CallOf::Open { flags, .. } => {
                assert_eq!(flags, SSH_FXF_CREAT | SSH_FXF_WRITE | SSH_FXF_TRUNC)
            }
            _ => panic!("not emptied"),
        }
        let reply = reply_of(s.resume_at(pending, SftpReply::Handle(Err(SftpError::Disconnected)), AT));
        assert_eq!(status_of(&reply), 0xC000_0022);
    }
    let reply = reply_of(s.handle_message_at(&request(5, &create_body("f", 6, 0)), AT));
    assert_eq!(status_of(&reply), 0xC000_000D);
    let reply = reply_of(s.handle_message_at(&request(5, &[0; 47]), AT));
    assert_eq!(status_of(&reply), 0xC000_000D);
}

#[test]
fn closing_a_handle() {
    let mut s = make_test_session();
    let fid = open_existing(&mut s, "f", test_attr(1, 0o100644));
    let reply = reply_of(s.handle_message(&request(6, &close_body(u64::MAX))));
    assert_eq!(status_of(&reply), 0);
    assert_eq!(body_of(&reply).len(), 56);
    assert!(s.handles.get(fid).is_none());
    // Closing it again is answered in the same way
    let reply = reply_of(s.handle_message(&request(6, &close_body(fid))));
    assert_eq!(status_of(&reply), 0);
}

// ── READ and WRITE ──────────────────────────────────────────────────

#[test]
fn a_read_opens_the_file_and_reads_ahead() {
    let mut s = make_test_session();
    let fid = open_existing(&mut s, "f", test_attr(100, 0o100644));
    let (call, pending) = ask_of(s.handle_message_at(&request(8, &read_body(fid, 10, 4)), AT));
    match call {
        CallOf::Open { path, flags, .. } => {
            assert_eq!(path, "/home/user/f");
            assert_eq!(flags, SSH_FXF_READ);
        }
        _ => panic!("not opened"),
    }
    let (call, pending) = ask_of(s.resume_at(pending, SftpReply::Handle(Ok(vec![1, 2])), AT));
    match call {
        CallOf::Read { handle, offset, len } => {
            assert_eq!((handle, offset, len), (vec![1, 2], 10, 2 * 1024 * 1024));
        }
        _ => panic!("not read"),
    }
    let data: Vec<u8> = (10..30).collect();
    let reply = reply_of(s.resume_at(pending, SftpReply::Data(Ok(data)), AT));
    assert_eq!(
        body_of(&reply),
        &[17, 0, 80, 0, 4, 0, 0, 0, 0, 0, 0, 0, 0, 0, 0, 0, 10, 11, 12, 13]
    );
    // What follows is at hand
    let reply = reply_of(s.handle_message_at(&request(8, &read_body(fid, 20, 3)), AT));
    assert_eq!(&body_of(&reply)[16..], &[20, 21, 22]);
    // What lies beyond is not
    let (call, pending) = ask_of(s.handle_message_at(&request(8, &read_body(fid, 29, 2)), AT));
    match call {
        CallOf::Read { offset, .. } => assert_eq!(offset, 29),
        _ => panic!("not read"),
    }
    let reply = reply_of(s.resume_at(pending, SftpReply::Data(Ok(vec![])), AT));
    assert_eq!(status_of(&reply), 0xC000_0011);
}

#[test]
fn a_broken_read_is_tried_again_with_a_new_handle() {
    let mut s = make_test_session();
    let fid = open_existing(&mut s, "f", test_attr(100, 0o100644));
    let (_, pending) = ask_of(s.handle_message_at(&request(8, &read_body(fid, 0, 4)), AT));
    let (_, pending) = ask_of(s.resume_at(pending, SftpReply::Handle(Ok(vec![1])), AT));
    let broken = SftpReply::Data(Err(SftpError::Disconnected));
    let (call, pending) = ask_of(s.resume_at(pending, broken, AT));
    match call {
        CallOf::Open { path, .. } => assert_eq!(path, "/home/user/f"),
        _ => panic!("not opened again"),
    }
    // Nothing of the remote side is believed any more
    assert!(s.cache.get_at("/home/user/f", 0).is_none());
    assert!(s.handles.get(fid).unwrap().sftp_handle.is_none());
    let (_, pending) = ask_of(s.resume_at(pending, SftpReply::Handle(Ok(vec![3])), AT));
    let reply = reply_of(s.resume_at(pending, SftpReply::Data(Ok(vec![5, 6])), AT));
    assert_eq!(&body_of(&reply)[16..], &[5, 6]);
    assert_eq!(s.handles.get(fid).unwrap().sftp_handle, Some(vec![3]));
    // Any other failure is a refusal
    let (_, pending) = ask_of(s.handle_message_at(&request(8, &read_body(fid, 50, 4)), AT));
    let refused = SftpReply::Data(Err(SftpError::Status(4, String::new())));
    let reply = reply_of(s.resume_at(pending, refused, AT));
    assert_eq!(status_of(&reply), 0xC000_0022);
}

#[test]
fn a_write_puts_the_read_ahead_away() {
    let mut s = make_test_session();
    let fid = open_existing(&mut s, "f", test_attr(100, 0o100644));
    let (_, pending) = ask_of(s.handle_message_at(&request(8, &read_body(fid, 0, 4)), AT));
    let (_, pending) = ask_of(s.resume_at(pending, SftpReply::Handle(Ok(vec![1])), AT));
    reply_of(s.resume_at(pending, SftpReply::Data(Ok(vec![1, 2, 3, 4])), AT));
    let (call, pending) =
        ask_of(s.handle_message_at(&request(9, &write_body(fid, 2, b"xy")), AT));
    match call {
        CallOf::Write { handle, offset, data } => {
            assert_eq!((handle, offset, data), (vec![1], 2, b"xy".to_vec()));
        }
        _ => panic!("not written"),
    }
    let reply = reply_of(s.resume_at(pending, SftpReply::Nothing(Ok(())), AT));
    assert_eq!(
        body_of(&reply),
        &[17, 0, 0, 0, 2, 0, 0, 0, 0, 0, 0, 0, 0, 0, 0, 0, 0]
    );
    // The attributes and the bytes have to be asked for again
    assert!(s.cache.get_at("/home/user/f", 0).is_none());
    ask_of(s.handle_message_at(&request(8, &read_body(fid, 0, 4)), AT));
}

#[test]
fn a_broken_write_is_tried_again() {
    let mut s = make_test_session();
    let fid = open_existing(&mut s, "f", test_attr(100, 0o100644));
    let (call, pending) =
        ask_of(s.handle_message_at(&request(9, &write_body(fid, 0, b"abc")), AT));
    match call {
        CallOf::Open { flags, .. } => assert_eq!(flags, SSH_FXF_WRITE),
        _ => panic!("not opened"),
    }
    let (_, pending) = ask_of(s.resume_at(pending, SftpReply::Handle(Ok(vec![1])), AT));
    let broken = SftpReply::Nothing(Err(SftpError::Protocol("x".to_string())));
    let (_, pending) = ask_of(s.resume_at(pending, broken, AT));
    let (call, pending) = ask_of(s.resume_at(pending, SftpReply::Handle(Ok(vec![2])), AT));
    match call {
        CallOf::Write { handle, offset, data } => {
            assert_eq!((handle, offset, data), (vec![2], 0, b"abc".to_vec()));
        }
        _ => panic!("not written again"),
    }
    let failed = SftpReply::Nothing(Err(SftpError::Disconnected));
    let reply = reply_of(s.resume_at(pending, failed, AT));
    assert_eq!(status_of(&reply), 0xC000_0022);
    assert_eq!(s.handles.get(fid).unwrap().sftp_handle, Some(vec![2]));
}

#[test]
fn requests_on_unknown_handles_are_refused() {
    let mut s = make_test_session();
    for m in [
        request(8, &read_body(9, 0, 1)),
        request(9, &write_body(9, 0, b"x")),
        request(14, &query_dir_body(9, 0, "*")),
        request(16, &query_info_body(9, 1, 4)),
        request(17, &set_info_body(9, 4, &[])),
        request(8, &[0; 31]),
        request(9, &[0; 31]),
        request(14, &[0; 23]),
        request(16, &[0; 31]),
        request(17, &[0; 23]),
        request(11, &[0; 55]),
    ] {
        let reply = reply_of(s.handle_message_at(&m, AT));
        assert_eq!(status_of(&reply), 0xC000_000D);
    }
}

// ── QUERY_DIRECTORY ─────────────────────────────────────────────────

fn entry(name: &str, size: u64, perm: u32) -> DirEntry {
    DirEntry {
        name: name.into(),
        attrs: test_attr(size, perm),
    }
}

/// The names in a listing, by the distances between its entries, with the
/// number of each.
fn names_in(reply: &[u8]) -> Vec<(String, u64)> {
    let b = body_of(reply);
    assert_eq!(&b[0..4], &[9, 0, 72, 0]);
    let data = &b[8..];
    assert_eq!(&b[4..8], &(data.len() as u32).to_le_bytes());
    let mut out = Vec::new();
    let mut at = 0;
    loop {
        assert_eq!(at % 8, 0);
        let next = u32::from_le_bytes([data[at], data[at + 1], data[at + 2], data[at + 3]]);
        let len = u32::from_le_bytes([data[at + 60], data[at + 61], data[at + 62], data[at + 63]]);
        let mut id = [0u8; 8];
        id.copy_from_slice(&data[at + 96..at + 104]);
        let name = mounter::utf16::from_utf16le(&data[at + 104..at + 104 + len as usize]);
        out.push((name, u64::from_le_bytes(id)));
        if next == 0 {
            assert_eq!(at + 104 + len as usize, data.len());
            return out;
        }
        at += next as usize;
    }
}

#[test]
fn a_listing_is_handed_out_once() {
    let mut s = make_test_session();
    let fid = open_existing(&mut s, "d", test_attr(0, 0o40755));
    let (call, pending) =
        ask_of(s.handle_message_at(&request(14, &query_dir_body(fid, 0, "*")), AT));
    match call {
        CallOf::Readdir { path } => assert_eq!(path, "/home/user/d"),
        _ => panic!("not listed"),
    }
    let entries = vec![
        entry("one.txt", 1, 0o100644),
        entry("two", 2, 0o40755),
        entry("three.md", 3, 0o100644),
    ];
    let reply = reply_of(s.resume_at(pending, SftpReply::Entries(Ok(entries)), AT));
    assert_eq!(
        names_in(&reply),
        vec![
            ("one.txt".to_string(), 1),
            ("two".to_string(), 2),
            ("three.md".to_string(), 3)
        ]
    );
    let reply = reply_of(s.handle_message_at(&request(14, &query_dir_body(fid, 0, "*")), AT));
    assert_eq!(status_of(&reply), 0x8000_0006);
    // The attributes of the entries are known now
    let (a, d) = s.cache.get_at("/home/user/d/two", 1).unwrap();
    assert_eq!((a.size, d), (2, true));
    // A restart takes the listing from the cache, one entry at a time
    let reply = reply_of(s.handle_message_at(&request(14, &query_dir_body(fid, 3, "*")), AT));
    assert_eq!(names_in(&reply), vec![("one.txt".to_string(), 1)]);
    let reply = reply_of(s.handle_message_at(&request(14, &query_dir_body(fid, 2, "*")), AT));
    assert_eq!(names_in(&reply), vec![("two".to_string(), 1)]);
}

#[test]
fn a_pattern_chooses_entries() {
    let mut s = make_test_session();
    let fid = open_existing(&mut s, "d", test_attr(0, 0o40755));
    let (_, pending) =
        ask_of(s.handle_message_at(&request(14, &query_dir_body(fid, 0, "*.TXT")), AT));
    let entries = vec![
        entry("a.md", 1, 0o100644),
        entry("b.txt", 2, 0o100644),
        entry("c.txt", 3, 0o100644),
    ];
    let reply = reply_of(s.resume_at(pending, SftpReply::Entries(Ok(entries)), AT));
    assert_eq!(
        names_in(&reply),
        vec![("b.txt".to_string(), 1), ("c.txt".to_string(), 2)]
    );
    let reply = reply_of(s.handle_message_at(&request(14, &query_dir_body(fid, 2, "*.txt")), AT));
    assert_eq!(names_in(&reply), vec![("b.txt".to_string(), 1)]);
    let reply = reply_of(s.handle_message_at(&request(14, &query_dir_body(fid, 0, "A.MD")), AT));
    assert_eq!(names_in(&reply), vec![("a.md".to_string(), 1)]);
    let reply = reply_of(s.handle_message_at(&request(14, &query_dir_body(fid, 0, "zzz")), AT));
    assert_eq!(status_of(&reply), 0x8000_0006);
    // Only the share's root has the file that keeps Spotlight away
    let m = request(14, &query_dir_body(fid, 0, ".metadata_never_index"));
    let reply = reply_of(s.handle_message_at(&m, AT));
    assert_eq!(status_of(&reply), 0x8000_0006);
}

#[test]
fn a_directory_that_cannot_be_listed() {
    let mut s = make_test_session();
    let fid = open_existing(&mut s, "d", test_attr(0, 0o40755));
    let (_, pending) = ask_of(s.handle_message_at(&request(14, &query_dir_body(fid, 0, "")), AT));
    let reply = reply_of(s.resume_at(pending, SftpReply::Entries(Err(SftpError::Disconnected)), AT));
    assert_eq!(status_of(&reply), 0xC000_0022);
    let file = open_existing(&mut s, "f", test_attr(0, 0o100644));
    let reply = reply_of(s.handle_message_at(&request(14, &query_dir_body(file, 0, "*")), AT));
    assert_eq!(status_of(&reply), 0xC000_000D);
}

// ── QUERY_INFO and SET_INFO ─────────────────────────────────────────

#[test]
fn information_about_a_file() {
    let mut s = make_test_session();
    let fid = open_existing(&mut s, "d/f.txt", test_attr(300, 0o100644));
    let ft = ((2000u64 + 11_644_473_600) * 10_000_000).to_le_bytes();
    let fa = ((1000u64 + 11_644_473_600) * 10_000_000).to_le_bytes();
    let mut ask = |info_type: u8, class: u8| {
        let m = request(16, &query_info_body(fid, info_type, class));
        reply_of(s.handle_message_at(&m, AT))
    };
    let mut basic = Vec::new();
    basic.extend_from_slice(&ft);
    basic.extend_from_slice(&fa);
    basic.extend_from_slice(&ft);
    basic.extend_from_slice(&ft);
    basic.extend_from_slice(&[0x20, 0, 0, 0, 0, 0, 0, 0]);
    let reply = ask(1, 4);
    assert_eq!(&body_of(&reply)[0..8], &[9, 0, 72, 0, 40, 0, 0, 0]);
    assert_eq!(&body_of(&reply)[8..], &basic[..]);

    let mut standard = Vec::new();
    standard.extend_from_slice(&300u64.to_le_bytes());
    standard.extend_from_slice(&300u64.to_le_bytes());
    standard.extend_from_slice(&[1, 0, 0, 0, 0, 0, 0, 0]);
    assert_eq!(&body_of(&ask(1, 5))[8..], &standard[..]);
    assert_eq!(&body_of(&ask(1, 6))[8..], &[0; 8]);
    assert_eq!(&body_of(&ask(1, 7))[8..], &[0; 4]);
    assert_eq!(&body_of(&ask(1, 14))[8..], &[0; 8]);
    assert_eq!(&body_of(&ask(1, 35))[8..], &[0x20, 0, 0, 0, 0, 0, 0, 0]);
    assert_eq!(body_of(&ask(1, 34)).len(), 8 + 56);
    let reply = ask(1, 18);
    let all = &body_of(&reply)[8..];
    assert_eq!(&all[0..40], &basic[..]);
    assert_eq!(&all[40..64], &standard[..]);
    assert_eq!(&all[76..80], &0x0200_0000u32.to_le_bytes());
    assert_eq!(&all[96..100], &10u32.to_le_bytes());
    assert_eq!(&all[100..], &to_utf16le("f.txt")[..]);
    assert_eq!(status_of(&ask(1, 22)), 0xC000_000D);
    assert_eq!(status_of(&ask(1, 99)), 0xC000_00BB);
    assert_eq!(status_of(&ask(4, 4)), 0xC000_00BB);
    assert_eq!(&body_of(&ask(3, 0))[8..], &[0; 20]);
}

#[test]
fn information_about_the_share() {
    let mut s = make_test_session();
    let fid = open_existing(&mut s, "", test_attr(0, 0o40755));
    let mut ask = |class: u8| {
        let m = request(16, &query_info_body(fid, 2, class));
        body_of(&reply_of(s.handle_message_at(&m, AT)))[8..].to_vec()
    };
    let mut size = Vec::new();
    size.extend_from_slice(&(1024u64 * 1024 * 1024).to_le_bytes());
    size.extend_from_slice(&(512u64 * 1024 * 1024).to_le_bytes());
    let mut full = size.clone();
    full.extend_from_slice(&(512u64 * 1024 * 1024).to_le_bytes());
    for v in [&mut size, &mut full] {
        v.extend_from_slice(&1u32.to_le_bytes());
        v.extend_from_slice(&4096u32.to_le_bytes());
    }
    assert_eq!(ask(3), size);
    assert_eq!(ask(7), full);
    assert_eq!(&ask(5)[0..12], &[3, 0, 0, 0, 255, 0, 0, 0, 10, 0, 0, 0]);
    assert_eq!(&ask(5)[12..], &to_utf16le("SSHFS")[..]);
    assert_eq!(&ask(1)[8..18], &[0, 0, 0, 0, 10, 0, 0, 0, 0, 0]);
    assert_eq!(&ask(1)[18..], &to_utf16le("sshfs")[..]);
    assert_eq!(ask(11).len(), 24);
    let m = request(16, &query_info_body(fid, 2, 2));
    assert_eq!(status_of(&reply_of(s.handle_message_at(&m, AT))), 0xC000_00BB);
}

#[test]
fn renaming_moves_the_handle() {
    let mut s = make_test_session();
    let fid = open_existing(&mut s, "old", test_attr(1, 0o100644));
    let name = to_utf16le("dir\\new");
    let mut data = vec![0u8; 16];
    data.extend_from_slice(&(name.len() as u32).to_le_bytes());
    data.extend_from_slice(&name);
    let (call, pending) =
        ask_of(s.handle_message_at(&request(17, &set_info_body(fid, 10, &data)), AT));
    match call {
        CallOf::Rename { from, to } => {
            assert_eq!(from, "/home/user/old");
            assert_eq!(to, "/home/user/dir/new");
        }
        _ => panic!("not renamed"),
    }
    let reply = reply_of(s.resume_at(pending, SftpReply::Nothing(Ok(())), AT));
    assert_eq!(body_of(&reply), &[2, 0]);
    assert_eq!(s.handles.get(fid).unwrap().path, "/home/user/dir/new");
    assert!(s.cache.get_at("/home/user/old", 0).is_none());
    // A name that is not there
    let mut short = vec![0u8; 16];
    short.extend_from_slice(&100u32.to_le_bytes());
    short.extend_from_slice(&[0; 4]);
    let reply =
        reply_of(s.handle_message_at(&request(17, &set_info_body(fid, 10, &short)), AT));
    assert_eq!(status_of(&reply), 0xC000_000D);
}

#[test]
fn deleting_files_and_directories() {
    let mut s = make_test_session();
    let file = open_existing(&mut s, "f", test_attr(1, 0o100644));
    let dir = open_existing(&mut s, "d", test_attr(1, 0o40755));
    let reply = reply_of(s.handle_message_at(&request(17, &set_info_body(file, 13, &[0])), AT));
    assert_eq!(status_of(&reply), 0);
    let (call, pending) =
        ask_of(s.handle_message_at(&request(17, &set_info_body(file, 13, &[1])), AT));
    match call {
        CallOf::Remove { path } => assert_eq!(path, "/home/user/f"),
        _ => panic!("not removed"),
    }
    let reply = reply_of(s.resume_at(pending, SftpReply::Nothing(Ok(())), AT));
    assert_eq!(status_of(&reply), 0);
    assert!(s.cache.get_at("/home/user/f", 0).is_none());
    let (call, pending) =
        ask_of(s.handle_message_at(&request(17, &set_info_body(dir, 13, &[1])), AT));
    match call {
        CallOf::Rmdir { path } => assert_eq!(path, "/home/user/d"),
        _ => panic!("not removed"),
    }
    let refused = SftpReply::Nothing(Err(SftpError::Status(4, String::new())));
    let reply = reply_of(s.resume_at(pending, refused, AT));
    assert_eq!(status_of(&reply), 0xC000_0022);
}

#[test]
fn setting_times() {
    let mut s = make_test_session();
    let fid = open_existing(&mut s, "f", test_attr(1, 0o100644));
    let mut data = vec![0u8; 36];
    data[16..24].copy_from_slice(&((5000u64 + 11_644_473_600) * 10_000_000).to_le_bytes());
    let (call, pending) =
        ask_of(s.handle_message_at(&request(17, &set_info_body(fid, 4, &data)), AT));
    match call {
        CallOf::Setstat { path, attrs } => {
            assert_eq!(path, "/home/user/f");
            assert_eq!((attrs.atime, attrs.mtime), (1000, 5000));
        }
        _ => panic!("not set"),
    }
    let failed = SftpReply::Nothing(Err(SftpError::Disconnected));
    let reply = reply_of(s.resume_at(pending, failed, AT));
    assert_eq!(status_of(&reply), 0);
    assert!(s.cache.get_at("/home/user/f", 0).is_none());
    // What the server does not know is passed over
    let reply = reply_of(s.handle_message_at(&request(17, &set_info_body(fid, 20, &data)), AT));
    assert_eq!(status_of(&reply), 0);
}

// ── Pipes ───────────────────────────────────────────────────────────

fn open_pipe(s: &mut SmbSession) -> u64 {
    reply_of(s.handle_message(&request(3, &tree_body("\\\\srv\\IPC$"))));
    let reply = reply_of(s.handle_message_at(
        &request_on(5, 2, &create_body("SrvSvc", 1, 0)),
        AT,
    ));
    assert_eq!(status_of(&reply), 0);
    assert_eq!(body_of(&reply).len(), 88);
    handle_in(&reply)
}

fn rpc(kind: u8, call: u32, opnum: u16) -> Vec<u8> {
    let mut m = vec![5, 0, kind, 3, 0x10, 0, 0, 0, 24, 0, 0, 0];
    m.extend_from_slice(&call.to_le_bytes());
    m.extend_from_slice(&[0; 6]);
    m.extend_from_slice(&opnum.to_le_bytes());
    m
}

#[test]
fn the_pipe_lists_the_share() {
    let mut s = make_test_session();
    let fid = open_pipe(&mut s);
    let reply =
        reply_of(s.handle_message(&request_on(9, 2, &write_body(fid, 0, &rpc(11, 7, 0)))));
    assert_eq!(status_of(&reply), 0);
    assert_eq!(body_of(&reply).len(), 16);
    let reply = reply_of(s.handle_message(&request_on(8, 2, &read_body(fid, 0, 1024))));
    let ack = &body_of(&reply)[16..];
    assert_eq!(ack.len(), 68);
    assert_eq!(&ack[0..16], &[5, 0, 12, 3, 16, 0, 0, 0, 68, 0, 0, 0, 7, 0, 0, 0]);
    assert_eq!(&ack[24..39], b"\x0d\x00\\PIPE\\srvsvc\0");
    // The answer is read once
    let reply = reply_of(s.handle_message(&request_on(8, 2, &read_body(fid, 0, 1024))));
    assert_eq!(status_of(&reply), 0xC000_0011);

    let mut ioctl = vec![0u8; 56];
    let input = rpc(0, 9, 15);
    ioctl[4..8].copy_from_slice(&0x0011_C017u32.to_le_bytes());
    ioctl[8..16].copy_from_slice(&fid.to_le_bytes());
    ioctl[24..28].copy_from_slice(&(64u32 + 56).to_le_bytes());
    ioctl[28..32].copy_from_slice(&(input.len() as u32).to_le_bytes());
    ioctl.extend_from_slice(&input);
    let reply = reply_of(s.handle_message(&request_on(11, 2, &ioctl)));
    let b = body_of(&reply);
    assert_eq!(&b[0..2], &[49, 0]);
    assert_eq!(&b[32..36], &112u32.to_le_bytes());
    let out = &b[48..];
    assert_eq!(&b[36..40], &(out.len() as u32).to_le_bytes());
    assert_eq!(&out[0..4], &[5, 0, 2, 3]);
    assert_eq!(out[8] as usize, out.len());
    // Nine numbers, then the name with its zero: "test" takes five units
    let stub = &out[24..];
    assert_eq!(&stub[36..48], &[5, 0, 0, 0, 0, 0, 0, 0, 5, 0, 0, 0]);
    assert_eq!(&stub[48..56], &to_utf16le("test")[..]);
    assert_eq!(stub.len() % 4, 0);
    assert_eq!(stub.len(), 36 + 12 + 12 + 12 + 4 + 12);
}

#[test]
fn other_pipes_and_codes_are_refused() {
    let mut s = make_test_session();
    let fid = open_pipe(&mut s);
    let reply =
        reply_of(s.handle_message_at(&request_on(5, 2, &create_body("wkssvc", 1, 0)), AT));
    assert_eq!(status_of(&reply), 0xC000_0034);
    let mut ioctl = vec![0u8; 56];
    ioctl[8..16].copy_from_slice(&fid.to_le_bytes());
    let reply = reply_of(s.handle_message(&request_on(11, 2, &ioctl)));
    assert_eq!(status_of(&reply), 0xC000_0010);
    // A request that the pipe does not know has an empty answer
    reply_of(s.handle_message(&request_on(9, 2, &write_body(fid, 0, &rpc(0, 1, 3)))));
    let reply = reply_of(s.handle_message(&request_on(8, 2, &read_body(fid, 0, 10))));
    assert_eq!(body_of(&reply).len(), 16);
}

// ── The session as a whole ──────────────────────────────────────────

#[test]
fn every_256th_message_evicts() {
    let mut s = make_test_session();
    s.cache
        .insert_at("/old".into(), test_attr(1, 0o100644), false, 0);
    for _ in 0..255 {
        reply_of(s.handle_message_at(&request(7, &[]), later(100)));
    }
    assert_eq!(s.cache.positive.len(), 1);
    reply_of(s.handle_message_at(&request(7, &[]), later(100)));
    assert_eq!(s.cache.positive.len(), 0);
}

#[test]
fn handles_are_numbered_upwards() {
    let mut s = make_test_session();
    let a = open_existing(&mut s, "a", test_attr(1, 0o100644));
    let b = open_existing(&mut s, "b", test_attr(1, 0o100644));
    reply_of(s.handle_message(&request(6, &close_body(a))));
    let c = open_existing(&mut s, "c", test_attr(1, 0o100644));
    assert_eq!((a, b, c), (1, 2, 3));
    assert_eq!(s.handles.get(b).unwrap().path, "/home/user/b");
}

#[test]
fn a_session_reads_its_own_clock() {
    let mut s = make_test_session();
    let (_, pending) = ask_of(s.handle_message(&request(5, &create_body("f", 1, 0))));
    let reply = reply_of(s.resume(pending, SftpReply::Attrs(Ok(test_attr(1, 0o100644)))));
    assert_eq!(status_of(&reply), 0);
    let reply = reply_of(s.handle_message(&request(5, &create_body("f", 1, 0))));
    assert_eq!(status_of(&reply), 0);
    let now = s.present();
    assert!(now.wall > 1_600_000_000);
    assert!(now.now > 0);
}

#[test]
fn file_numbers_count_what_was_opened() {
    let mut s = make_test_session();
    assert_eq!(s.resolve_fid(u64::MAX), 0);
    assert_eq!(open_existing(&mut s, "a", test_attr(1, 0o100644)), 1);
    // A refusal takes no number
    let (_, pending) = ask_of(s.handle_message_at(&request(5, &create_body("no", 1, 0)), AT));
    let missing = SftpReply::Attrs(Err(SftpError::Status(2, String::new())));
    let reply = reply_of(s.resume_at(pending, missing, AT));
    assert_eq!(status_of(&reply), 0xC000_0034);
    assert_eq!(s.resolve_fid(u64::MAX), 1);
    assert_eq!(open_existing(&mut s, "b", test_attr(1, 0o100644)), 2);
    reply_of(s.handle_message_at(&request(6, &close_body(2)), AT));
    // The last one that was opened is still meant once it is closed
    assert_eq!(s.resolve_fid(u64::MAX), 2);
    assert_eq!(s.resolve_fid(7), 7);
    assert_eq!(open_existing(&mut s, "c", test_attr(1, 0o100644)), 3);
}

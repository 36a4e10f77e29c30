use mounter::sftp::call::{CallOf, SftpReply};
use mounter::sftp::exchange::Turn;
use mounter::sftp::packet::{
    make_packet, packet_length, read_packet, split_packet, PacketTurn, MAX_READ_SIZE, MAX_WRITE_SIZE, SSH_FXF_APPEND,
    SSH_FXF_CREAT, SSH_FXF_EXCL, SSH_FXF_READ, SSH_FXF_TRUNC, SSH_FXF_WRITE, SSH_FXP_ATTRS,
    SSH_FXP_CLOSE, SSH_FXP_DATA, SSH_FXP_HANDLE, SSH_FXP_NAME, SSH_FXP_OPEN, SSH_FXP_OPENDIR,
    SSH_FXP_READDIR, SSH_FXP_STATUS, SSH_FXP_VERSION, SSH_FX_EOF, SSH_FX_OK,
};
use mounter::sftp::session::{OpenModes, SftpSession};
use mounter::wire::{Buf, FileAttr, Reader, SftpError};

fn data_packet(id: u32, data: &[u8]) -> (u8, u32, Vec<u8>) {
    let mut payload = Buf::new();
    payload.put_bytes(data);
    (SSH_FXP_DATA, id, payload.0)
}

fn status_packet(id: u32, code: u32) -> (u8, u32, Vec<u8>) {
    let mut payload = Buf::new();
    payload.put_u32(code);
    payload.put_str("");
    payload.put_str("");
    (SSH_FXP_STATUS, id, payload.0)
}

/// Runs an operation against packets that a server sends. Gives the reply and
/// everything that was sent.
fn run(
    session: &mut SftpSession,
    first: Turn,
    packets: &[(u8, u32, Vec<u8>)],
) -> (SftpReply, Vec<u8>) {
    let mut incoming: Vec<u8> = Vec::new();
    for (kind, id, payload) in packets {
        incoming.extend_from_slice(&make_packet(*kind, *id, payload));
    }
    let mut at = 0;
    let mut sent: Vec<u8> = Vec::new();
    let mut turn = first;
    loop {
        let exchange = match turn {
            Turn::Send(x, bytes) => {
                sent.extend_from_slice(&bytes);
                x
            }
            Turn::Receive(x) => x,
            Turn::Finish(reply, _) => return (reply, sent),
            Turn::Broken => panic!("the exchange broke"),
        };
        if at + 4 > incoming.len() {
            turn = exchange.on_lost(session);
            continue;
        }
        let n = packet_length(&incoming[at..at + 4]).unwrap() as usize;
        let (kind, data) = split_packet(&incoming[at + 4..at + 4 + n]);
        at += 4 + n;
        turn = exchange.on_packet(session, kind, data);
    }
}

fn data_of(reply: SftpReply) -> Vec<u8> {
    match reply {
        SftpReply::Data(r) => r.unwrap(),
        _ => panic!("not data"),
    }
}

/// The type and the id of each packet in a stream, with its payload.
fn packets_in(bytes: &[u8]) -> Vec<(u8, u32, Vec<u8>)> {
    let mut out = Vec::new();
    let mut at = 0;
    while at < bytes.len() {
        let n = packet_length(&bytes[at..at + 4]).unwrap() as usize;
        let (kind, data) = split_packet(&bytes[at + 4..at + 4 + n]);
        let id = u32::from_be_bytes([data[0], data[1], data[2], data[3]]);
        out.push((kind, id, data[4..].to_vec()));
        at += 4 + n;
    }
    out
}

#[test]
fn open_flags_rdonly() {
    let sf = SftpSession::open_flags_from_libc(libc::O_RDONLY);
    assert_eq!(sf, SSH_FXF_READ);
}

#[test]
fn open_flags_wronly() {
    let sf = SftpSession::open_flags_from_libc(libc::O_WRONLY);
    assert_eq!(sf, SSH_FXF_WRITE);
}

#[test]
fn open_flags_rdwr() {
    let sf = SftpSession::open_flags_from_libc(libc::O_RDWR);
    assert_eq!(sf, SSH_FXF_READ | SSH_FXF_WRITE);
}

#[test]
fn open_flags_create_trunc() {
    let sf = SftpSession::open_flags_from_libc(libc::O_WRONLY | libc::O_CREAT | libc::O_TRUNC);
    assert!(sf & SSH_FXF_WRITE != 0);
    assert!(sf & SSH_FXF_CREAT != 0);
    assert!(sf & SSH_FXF_TRUNC != 0);
}

#[test]
fn open_flags_append() {
    let sf = SftpSession::open_flags_from_libc(libc::O_WRONLY | libc::O_APPEND);
    assert!(sf & SSH_FXF_WRITE != 0);
    assert!(sf & SSH_FXF_APPEND != 0);
}

#[test]
fn open_flags_excl() {
    let sf = SftpSession::open_flags_from_libc(libc::O_WRONLY | libc::O_CREAT | libc::O_EXCL);
    assert!(sf & SSH_FXF_WRITE != 0);
    assert!(sf & SSH_FXF_CREAT != 0);
    assert!(sf & SSH_FXF_EXCL != 0);
}

#[test]
fn open_flags_of_another_system() {
    let modes = OpenModes {
        accmode: 0x0700,
        rdonly: 0x0100,
        wronly: 0x0200,
        rdwr: 0x0400,
        creat: 0x1000,
        trunc: 0x2000,
        excl: 0x4000,
        append: 0x8000,
    };
    assert_eq!(SftpSession::open_flags(0x0100, &modes), SSH_FXF_READ);
    assert_eq!(
        SftpSession::open_flags(0x9400, &modes),
        SSH_FXF_READ | SSH_FXF_WRITE | SSH_FXF_CREAT | SSH_FXF_APPEND
    );
    assert_eq!(SftpSession::open_flags(0, &modes), 0);
}

#[test]
fn large_read_reorders_out_of_order_responses() {
    let first = vec![b'a'; MAX_READ_SIZE as usize];
    let second = b"second".to_vec();
    let mut expected = first.clone();
    expected.extend_from_slice(&second);
    let mut session = SftpSession::dummy();

    let start = session.read(b"handle", 0, MAX_READ_SIZE + second.len() as u32);
    let (reply, _) = run(
        &mut session,
        start,
        &[data_packet(2, &second), data_packet(1, &first)],
    );
    let data = data_of(reply);
    assert_eq!(data, expected);
}

#[test]
fn large_read_handles_short_chunks_without_skipping_bytes() {
    let chunk = 65536usize;
    let tail = b"tail".to_vec();
    let a = vec![b'a'; chunk];
    let b = vec![b'b'; chunk];
    let c = vec![b'c'; chunk];
    let d = vec![b'd'; chunk];
    let mut expected = a.clone();
    expected.extend_from_slice(&b);
    expected.extend_from_slice(&c);
    expected.extend_from_slice(&d);
    expected.extend_from_slice(&tail);
    let mut session = SftpSession::dummy();

    let start = session.read(b"handle", 0, MAX_READ_SIZE + tail.len() as u32 + 1);
    let (reply, _) = run(
        &mut session,
        start,
        &[
            data_packet(2, b"ignored"),
            data_packet(1, &a),
            data_packet(5, &d),
            data_packet(3, &b),
            data_packet(6, &tail),
            data_packet(4, &c),
            status_packet(7, SSH_FX_EOF),
        ],
    );
    let data = data_of(reply);
    assert_eq!(data, expected);
}

#[test]
fn a_read_past_the_end_gives_nothing() {
    let mut session = SftpSession::dummy();
    let start = session.read(b"h", 100, 10);
    let (reply, sent) = run(&mut session, start, &[status_packet(1, SSH_FX_EOF)]);
    assert_eq!(data_of(reply), Vec::<u8>::new());
    // length, type, id, handle, offset, length
    assert_eq!(
        sent,
        vec![
            0, 0, 0, 22, 5, 0, 0, 0, 1, 0, 0, 0, 1, b'h', 0, 0, 0, 0, 0, 0, 0, 100, 0, 0, 0, 10
        ]
    );
}

#[test]
fn an_answer_to_another_request_is_refused() {
    let mut session = SftpSession::dummy();
    let start = session.read(b"h", 0, 10);
    let (reply, _) = run(&mut session, start, &[data_packet(9, b"x")]);
    match reply {
        SftpReply::Data(Err(SftpError::Protocol(_))) => {}
        SftpReply::Data(Err(SftpError::Disconnected)) => {}
        _ => panic!("the answer was taken"),
    }
}

#[test]
fn a_lost_connection_ends_the_operation() {
    let mut session = SftpSession::dummy();
    let start = session.lstat("/x");
    let (reply, _) = run(&mut session, start, &[]);
    match reply {
        SftpReply::Attrs(Err(SftpError::Disconnected)) => {}
        _ => panic!("the operation went on"),
    }
}

#[test]
fn a_long_write_sends_all_of_its_data() {
    let data: Vec<u8> = (0..MAX_WRITE_SIZE as usize * 2 + 5)
        .map(|i| (i % 251) as u8)
        .collect();
    let mut session = SftpSession::dummy();
    let start = session.write(b"h", 1000, &data);
    let (reply, sent) = run(
        &mut session,
        start,
        &[
            status_packet(1, SSH_FX_OK),
            status_packet(2, SSH_FX_OK),
            status_packet(3, SSH_FX_OK),
        ],
    );
    match reply {
        SftpReply::Nothing(r) => r.unwrap(),
        _ => panic!("not a write"),
    }
    let mut file = vec![0u8; 1000 + data.len()];
    for (_, _, payload) in packets_in(&sent) {
        let mut r = Reader::new(&payload);
        assert_eq!(r.get_bytes().unwrap(), b"h");
        let offset = r.get_u64().unwrap() as usize;
        let part = r.get_bytes().unwrap();
        file[offset..offset + part.len()].copy_from_slice(&part);
    }
    assert_eq!(&file[1000..], &data[..]);
}

#[test]
fn a_write_that_fails_halfway_fails() {
    let data = vec![1u8; MAX_WRITE_SIZE as usize + 1];
    let mut session = SftpSession::dummy();
    let start = session.write(b"h", 0, &data);
    let (reply, _) = run(
        &mut session,
        start,
        &[status_packet(1, SSH_FX_OK), status_packet(2, 4)],
    );
    match reply {
        SftpReply::Nothing(Err(SftpError::Status(4, _))) => {}
        _ => panic!("the write succeeded"),
    }
}

#[test]
fn a_listing_opens_reads_and_closes() {
    let mut names = Buf::new();
    names.put_u32(3);
    for name in [".", "file.txt", ".."] {
        names.put_str(name);
        names.put_str("long form");
        names.put_attrs(&FileAttr {
            size: 12,
            uid: 1,
            gid: 2,
            perm: 0o100600,
            atime: 3,
            mtime: 4,
        });
    }
    let mut handle = Buf::new();
    handle.put_bytes(b"dir");
    let mut session = SftpSession::dummy();
    let start = session.readdir("/d");
    let (reply, sent) = run(
        &mut session,
        start,
        &[
            (SSH_FXP_HANDLE, 1, handle.0),
            (SSH_FXP_NAME, 2, names.0),
            status_packet(3, SSH_FX_EOF),
            status_packet(4, SSH_FX_OK),
        ],
    );
    match reply {
        SftpReply::Entries(r) => {
            let entries = r.unwrap();
            assert_eq!(entries.len(), 1);
            assert_eq!(entries[0].name, "file.txt");
            assert_eq!(entries[0].attrs.size, 12);
        }
        _ => panic!("not a listing"),
    }
    let kinds: Vec<u8> = packets_in(&sent).iter().map(|p| p.0).collect();
    assert_eq!(
        kinds,
        vec![SSH_FXP_OPENDIR, SSH_FXP_READDIR, SSH_FXP_READDIR, SSH_FXP_CLOSE]
    );
}

#[test]
fn attributes_come_back() {
    let mut payload = Buf::new();
    payload.put_attrs(&FileAttr {
        size: 5,
        uid: 6,
        gid: 7,
        perm: 0o40700,
        atime: 8,
        mtime: 9,
    });
    let mut session = SftpSession::dummy();
    let start = session.stat("/y");
    let (reply, _) = run(&mut session, start, &[(SSH_FXP_ATTRS, 1, payload.0)]);
    match reply {
        SftpReply::Attrs(r) => {
            let a = r.unwrap();
            assert_eq!((a.size, a.perm, a.mtime), (5, 0o40700, 9));
        }
        _ => panic!("not attributes"),
    }
}

#[test]
fn a_created_file_is_sent_its_mode() {
    let mut session = SftpSession::dummy();
    let start = session.open("/n", SSH_FXF_CREAT | SSH_FXF_WRITE, 0o640);
    let (_, sent) = run(&mut session, start, &[]);
    let packets = packets_in(&sent);
    assert_eq!(packets[0].0, SSH_FXP_OPEN);
    assert_eq!(
        packets[0].2,
        vec![0, 0, 0, 2, b'/', b'n', 0, 0, 0, 0x0A, 0, 0, 0, 4, 0, 0, 0x01, 0xA0]
    );
    let start = session.open("/n", SSH_FXF_READ, 0o640);
    let (_, sent) = run(&mut session, start, &[]);
    assert_eq!(
        packets_in(&sent)[0].2,
        vec![0, 0, 0, 2, b'/', b'n', 0, 0, 0, 1, 0, 0, 0, 0]
    );
}

#[test]
fn operations_start_as_their_calls_do() {
    let mut a = SftpSession::dummy();
    let mut b = SftpSession::dummy();
    let x = a.rename("/old", "/new");
    let y = b.start(&CallOf::Rename {
        from: "/old".to_string(),
        to: "/new".to_string(),
    });
    let (_, sent_a) = run(&mut a, x, &[]);
    let (_, sent_b) = run(&mut b, y, &[]);
    assert_eq!(sent_a, sent_b);
    assert_eq!(a.next_id, 2);
}

#[test]
fn connecting_starts_ssh() {
    let launch = SftpSession::connect("host", 2222, Some("me"), Some("/key"));
    assert_eq!(
        launch.arguments,
        vec![
            "-oStrictHostKeyChecking=accept-new",
            "-oConnectTimeout=30",
            "-oServerAliveInterval=15",
            "-oServerAliveCountMax=3",
            "-oBatchMode=yes",
            "-oCiphers=aes128-gcm@openssh.com,chacha20-poly1305@openssh.com",
            "-p",
            "2222",
            "-i",
            "/key",
            "me@host",
            "-s",
            "sftp"
        ]
    );
    assert_eq!(launch.hello, vec![0, 0, 0, 5, 1, 0, 0, 0, 3]);
    let plain = SftpSession::connect("host", 22, None, None);
    assert_eq!(plain.arguments.len(), 9);
    assert_eq!(plain.arguments[6], "host");
}

#[test]
fn the_server_has_to_tell_its_version() {
    assert_eq!(
        SftpSession::sftp_init(SSH_FXP_VERSION, &[0, 0, 0, 3]).unwrap(),
        3
    );
    match SftpSession::sftp_init(SSH_FXP_STATUS, &[]) {
        Err(SftpError::Protocol(text)) => assert_eq!(text, "expected VERSION, got 101"),
        _ => panic!("the answer was taken"),
    }
}

#[test]
fn packets_have_a_greatest_length() {
    assert!(packet_length(&[0, 0, 0, 0]).is_err());
    assert_eq!(packet_length(&[0, 0, 1, 0]).unwrap(), 256);
    assert!(packet_length(&[0xFF, 0, 0, 0]).is_err());
}

#[test]
fn packets_are_taken_from_a_stream() {
    let mut stream = make_packet(SSH_FXP_DATA, 7, b"abc");
    assert_eq!(stream.len(), 12);
    stream.extend_from_slice(b"what follows");
    let mut taken = 0;
    for more in [4, 8] {
        match read_packet(&stream[..taken]) {
            PacketTurn::More(n) => assert_eq!(n, more),
            _ => panic!("nothing is missing"),
        }
        taken += more;
    }
    match read_packet(&stream[..taken]) {
        PacketTurn::Packet(kind, data) => {
            assert_eq!(kind, SSH_FXP_DATA);
            assert_eq!(data, [0, 0, 0, 7, b'a', b'b', b'c']);
        }
        _ => panic!("no packet"),
    }
    for bad in [[0, 0, 0, 0], [0, 8, 0, 1]] {
        match read_packet(&bad) {
            PacketTurn::Lost(SftpError::Disconnected) => {}
            _ => panic!("the length was taken"),
        }
    }
}

#[test]
fn a_long_read_stops_where_the_file_does() {
    let file: Vec<u8> = (0..MAX_READ_SIZE as usize + 100).map(|i| (i % 251) as u8).collect();
    let chunk = MAX_READ_SIZE as usize;
    let mut session = SftpSession::dummy();
    let start = session.read(b"h", 0, MAX_READ_SIZE * 2);
    let (reply, _) = run(
        &mut session,
        start,
        &[
            data_packet(1, &file[..chunk]),
            data_packet(2, &file[chunk..]),
            status_packet(3, SSH_FX_EOF),
            status_packet(4, SSH_FX_EOF),
        ]
        .into_iter()
        .chain((5..35).map(|id| status_packet(id, SSH_FX_EOF)))
        .collect::<Vec<_>>(),
    );
    assert_eq!(data_of(reply), file);
}

use mounter::wire::{
    Buf, FileAttr, Reader, SftpError, SSH_FILEXFER_ATTR_ACMODTIME, SSH_FILEXFER_ATTR_EXTENDED,
    SSH_FILEXFER_ATTR_PERMISSIONS, SSH_FILEXFER_ATTR_SIZE, SSH_FILEXFER_ATTR_UIDGID,
};

#[test]
fn buf_put_u32() {
    let mut buf = Buf::new();
    buf.put_u32(0x01020304);
    assert_eq!(buf.0, vec![0x01, 0x02, 0x03, 0x04]);
}

#[test]
fn buf_put_str() {
    let mut buf = Buf::new();
    buf.put_str("abc");
    // 4-byte length (3) + 3 bytes "abc"
    assert_eq!(buf.0, vec![0, 0, 0, 3, b'a', b'b', b'c']);
}

#[test]
fn buf_put_bytes() {
    let mut buf = Buf::new();
    buf.put_bytes(&[0xDE, 0xAD]);
    assert_eq!(buf.0, vec![0, 0, 0, 2, 0xDE, 0xAD]);
}

#[test]
fn buf_put_attrs() {
    let attrs = FileAttr {
        size: 1024,
        uid: 1000,
        gid: 1000,
        perm: 0o100644,
        atime: 1000000,
        mtime: 2000000,
    };
    let mut buf = Buf::new();
    buf.put_attrs(&attrs);

    let mut r = Reader::new(&buf.0);
    let flags = r.get_u32().unwrap();
    assert_eq!(
        flags,
        SSH_FILEXFER_ATTR_SIZE
            | SSH_FILEXFER_ATTR_UIDGID
            | SSH_FILEXFER_ATTR_PERMISSIONS
            | SSH_FILEXFER_ATTR_ACMODTIME
    );
    assert_eq!(r.get_u64().unwrap(), 1024);
    assert_eq!(r.get_u32().unwrap(), 1000); // uid
    assert_eq!(r.get_u32().unwrap(), 1000); // gid
    assert_eq!(r.get_u32().unwrap(), 0o100644); // perm
    assert_eq!(r.get_u32().unwrap(), 1000000); // atime
    assert_eq!(r.get_u32().unwrap(), 2000000); // mtime
}

#[test]
fn reader_get_u32() {
    let data = [0x00, 0x00, 0x01, 0x00];
    let mut r = Reader::new(&data);
    assert_eq!(r.get_u32().unwrap(), 256);
}

#[test]
fn reader_get_string() {
    let mut buf = Buf::new();
    buf.put_str("hello");
    let mut r = Reader::new(&buf.0);
    assert_eq!(r.get_string().unwrap(), "hello");
}

#[test]
fn reader_get_attrs_roundtrip() {
    let original = FileAttr {
        size: 999,
        uid: 501,
        gid: 20,
        perm: 0o40755,
        atime: 12345,
        mtime: 67890,
    };
    let mut buf = Buf::new();
    buf.put_attrs(&original);

    let mut r = Reader::new(&buf.0);
    let parsed = r.get_attrs().unwrap();
    assert_eq!(parsed.size, original.size);
    assert_eq!(parsed.uid, original.uid);
    assert_eq!(parsed.gid, original.gid);
    assert_eq!(parsed.perm, original.perm);
    assert_eq!(parsed.atime, original.atime);
    assert_eq!(parsed.mtime, original.mtime);
}

#[test]
fn reader_underflow() {
    let data = [0x00, 0x01];
    let mut r = Reader::new(&data);
    assert!(r.get_u32().is_err());
}

#[test]
fn text_that_is_not_utf8_is_refused() {
    let mut buf = Buf::new();
    buf.put_bytes(&[0x66, 0xFF, 0x6F]);
    let mut r = Reader::new(&buf.0);
    match r.get_string() {
        Err(SftpError::Protocol(text)) => {
            assert_eq!(text, "invalid UTF-8: invalid utf-8 sequence of 1 bytes from index 1");
        }
        _ => panic!("the text was taken"),
    }
}

#[test]
fn texts_beyond_ascii_read_back() {
    let mut buf = Buf::new();
    buf.put_str("größe/日本");
    buf.put_u64(7);
    let mut r = Reader::new(&buf.0);
    assert_eq!(r.get_string().unwrap(), "größe/日本");
    assert_eq!(r.get_u64().unwrap(), 7);
    assert_eq!(r.remaining(), 0);
}

#[test]
fn a_length_beyond_the_data_is_refused() {
    let data = [0, 0, 0, 9, 1, 2, 3];
    let mut r = Reader::new(&data);
    match r.get_bytes() {
        Err(SftpError::Protocol(text)) => assert_eq!(text, "buffer underflow"),
        _ => panic!("the bytes were taken"),
    }
}

#[test]
fn attributes_that_were_not_sent_have_defaults() {
    let mut buf = Buf::new();
    buf.put_u32(SSH_FILEXFER_ATTR_SIZE | SSH_FILEXFER_ATTR_EXTENDED);
    buf.put_u64(77);
    buf.put_u32(1);
    buf.put_str("name");
    buf.put_str("value");
    buf.put_u8(9);
    let mut r = Reader::new(&buf.0);
    let a = r.get_attrs().unwrap();
    assert_eq!(a.size, 77);
    assert_eq!(a.uid, 0);
    assert_eq!(a.gid, 0);
    assert_eq!(a.perm, 0o644);
    assert_eq!(a.atime, 0);
    assert_eq!(a.mtime, 0);
    assert_eq!(r.get_u8().unwrap(), 9);
}

#[test]
fn default_attributes() {
    let a = FileAttr::default();
    assert_eq!(a.size, 0);
    assert_eq!(a.perm, 0o644);
}

#[test]
fn errors_have_messages() {
    assert_eq!(SftpError::Io("broken".to_string()).message(), "IO: broken");
    assert_eq!(
        SftpError::Protocol("odd".to_string()).message(),
        "Protocol: odd"
    );
    assert_eq!(
        SftpError::Status(3, "denied".to_string()).message(),
        "SFTP status 3: denied"
    );
    assert_eq!(SftpError::Disconnected.message(), "Disconnected");
}

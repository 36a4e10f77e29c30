use mounter::smb2::{
    build_smb1_to_smb2_negotiate_response, build_spnego_negotiate_token, filetime_to_unix,
    is_smb1_negotiate, message_length, smb1_upgrade_response, spnego_accept_complete,
    unix_to_filetime, wrap_ntlmssp_in_spnego, Smb2Header,
};
use mounter::utf16::{from_utf16le, to_utf16le};

#[test]
fn texts_survive_utf16() {
    assert_eq!(to_utf16le("aé"), vec![0x61, 0, 0xE9, 0]);
    assert_eq!(to_utf16le("𝄞"), vec![0x34, 0xD8, 0x1E, 0xDD]);
    for text in ["", "plain", "größe", "日本 𝄞 x"] {
        assert_eq!(from_utf16le(&to_utf16le(text)), text);
    }
}

#[test]
fn lone_surrogates_are_replaced() {
    assert_eq!(
        from_utf16le(&[0x34, 0xD8, 0x61, 0, 0x1E, 0xDD]),
        "\u{FFFD}a\u{FFFD}"
    );
    // An odd byte at the end is left out
    assert_eq!(from_utf16le(&[0x61, 0, 0x62]), "a");
    assert_eq!(from_utf16le(&[0x34, 0xD8]), "\u{FFFD}");
}

#[test]
fn times_survive_conversion() {
    assert_eq!(unix_to_filetime(0), 116_444_736_000_000_000);
    for secs in [0u64, 1, 1_700_000_000, u32::MAX as u64] {
        assert_eq!(filetime_to_unix(unix_to_filetime(secs)), secs);
    }
    assert_eq!(filetime_to_unix(5), 0);
    assert_eq!(unix_to_filetime(u64::MAX), u64::MAX);
}

#[test]
fn tokens_are_der() {
    assert_eq!(
        build_spnego_negotiate_token(),
        vec![
            0x60, 0x1c, 0x06, 0x06, 0x2b, 0x06, 0x01, 0x05, 0x05, 0x02, 0xa0, 0x12, 0x30, 0x10,
            0xa0, 0x0e, 0x30, 0x0c, 0x06, 0x0a, 0x2b, 0x06, 0x01, 0x04, 0x01, 0x82, 0x37, 0x02,
            0x02, 0x0a
        ]
    );
    assert_eq!(
        spnego_accept_complete(),
        vec![0xa1, 0x07, 0x30, 0x05, 0xa0, 0x03, 0x0a, 0x01, 0x00]
    );
    let short = wrap_ntlmssp_in_spnego(&[1, 2, 3]);
    assert_eq!(&short[0..9], &[0xa1, 0x1c, 0x30, 0x1a, 0xa0, 3, 0x0a, 1, 1]);
    assert_eq!(&short[short.len() - 7..], &[0xa2, 5, 4, 3, 1, 2, 3]);
    let long = wrap_ntlmssp_in_spnego(&[7; 300]);
    assert_eq!(&long[0..4], &[0xa1, 0x82, 0x01, 0x4b]);
    assert_eq!(long.len(), 4 + 0x14b);
}

#[test]
fn headers_are_read() {
    let mut m = vec![0u8; 64];
    m[0..4].copy_from_slice(&[0xFE, b'S', b'M', b'B']);
    m[12] = 5;
    m[24] = 9;
    m[36] = 3;
    m[40] = 8;
    let h = Smb2Header::parse(&m).unwrap();
    assert_eq!((h.command, h.message_id, h.tree_id, h.session_id), (5, 9, 3, 8));
    assert!(Smb2Header::parse(&m[..63]).is_none());
    let mut out = vec![1, 2];
    h.write_response(0xC000_0022, &[4, 5], &mut out);
    assert_eq!(&out[0..6], &[1, 2, 0, 0, 0, 66]);
    assert_eq!(&out[out.len() - 2..], &[4, 5]);
    let g = Smb2Header::parse(&out[6..]).unwrap();
    assert_eq!((g.command, g.message_id, g.tree_id, g.session_id), (5, 9, 3, 8));
    assert_eq!((g.credits, g.flags), (1, 1));
    assert_eq!(message_length(&out[2..6]), 66);
}

#[test]
fn smb1_clients_are_sent_on() {
    assert!(is_smb1_negotiate(b"\xFFSMB\x72\0\0"));
    assert!(!is_smb1_negotiate(b"\xFESMB\x72\0\0"));
    assert!(!is_smb1_negotiate(b"\xFFSMB"));
    let r = smb1_upgrade_response(0);
    assert_eq!(&r[4..8], &[0xFE, b'S', b'M', b'B']);
    assert_eq!(&r[68 + 4..68 + 6], &[0xFF, 0x02]);
    assert_eq!(r.len(), 68 + 64 + 30);
    let now = build_smb1_to_smb2_negotiate_response();
    assert_eq!(now.len(), r.len());
    // The wall clock stands after the epoch
    assert!(now[68 + 40..68 + 48] != r[68 + 40..68 + 48]);
}

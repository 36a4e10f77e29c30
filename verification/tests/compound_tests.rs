use mounter::server::compound::{classify, combine, Incoming};

fn request(len: usize, next: u32) -> Vec<u8> {
    let mut m = vec![0u8; len];
    m[0..4].copy_from_slice(&[0xFE, b'S', b'M', b'B']);
    m[20..24].copy_from_slice(&next.to_le_bytes());
    m
}

fn several(msg: &[u8]) -> Vec<(usize, usize)> {
    match classify(msg) {
        Incoming::Several(list) => list,
        _ => panic!("not several"),
    }
}

#[test]
fn one_request_stays_whole() {
    match classify(&request(80, 0)) {
        Incoming::Single => {}
        _ => panic!("not single"),
    }
    match classify(&[1, 2, 3]) {
        Incoming::Single => {}
        _ => panic!("not single"),
    }
    // A link that leads out of the message, in the only request
    match classify(&request(80, 500)) {
        Incoming::Single => {}
        _ => panic!("not single"),
    }
}

#[test]
fn requests_are_found_by_their_links() {
    let mut m = request(72, 72);
    m.extend_from_slice(&request(64, 64));
    m.extend_from_slice(&request(100, 0));
    assert_eq!(several(&m), vec![(0, 72), (72, 136), (136, 236)]);
}

#[test]
fn links_out_of_the_message_break_it() {
    let mut m = request(72, 72);
    m.extend_from_slice(&request(72, 1000));
    match classify(&m) {
        Incoming::Broken(places) => assert_eq!(places, vec![(0, 72)]),
        _ => panic!("not broken"),
    }
    // So do requests that are too short to have a command
    let mut m = request(200, 8);
    m[28..32].copy_from_slice(&[0; 4]);
    match classify(&m) {
        Incoming::Broken(places) => assert_eq!(places, Vec::new()),
        _ => panic!("not broken"),
    }
}

#[test]
fn smb1_is_told_apart() {
    match classify(b"\xFFSMB\x72\0") {
        Incoming::Upgrade => {}
        _ => panic!("not an upgrade"),
    }
}

#[test]
fn responses_go_out_in_one_frame() {
    let mut a = vec![0, 0, 0, 70];
    a.extend_from_slice(&request(70, 0));
    a[73] = 0xAA;
    let mut b = vec![0, 0, 0, 66];
    b.extend_from_slice(&request(66, 0));
    let out = combine(&vec![a.clone(), Vec::new(), b.clone()]);
    // 70 bytes up to a multiple of eight, then 66
    assert_eq!(&out[0..4], &[0, 0, 0, 138]);
    assert_eq!(out.len(), 4 + 138);
    assert_eq!(&out[24..28], &72u32.to_le_bytes());
    assert_eq!(out[4 + 69], 0xAA);
    assert_eq!(&out[4 + 70..4 + 72], &[0, 0]);
    assert_eq!(&out[4 + 72..], &b[4..]);
    // A client that takes the frame apart finds both
    assert_eq!(several(&out[4..]), vec![(0, 72), (72, 138)]);
}

#[test]
fn no_responses_make_an_empty_frame() {
    assert_eq!(combine(&Vec::new()), vec![0, 0, 0, 0]);
    assert_eq!(combine(&vec![Vec::new(), vec![1, 2]]), vec![0, 0, 0, 0]);
    assert_eq!(combine(&vec![vec![0, 0, 0, 1, 9]]), vec![0, 0, 0, 1, 9]);
}

//! The SMB2 wire format: message headers, framing, times and security tokens.

use crate::bytes::{
    be32, be32_at, le16, le16_at, le32, le32_at, le64, le64_at, put_all, put_u16_le, put_u32_be,
    put_u32_le, put_u64_le, put_zeros, read_u16_le, read_u32_le, read_u64_le, zeros,
};
use crate::clock::wall_seconds;
use vstd::prelude::*;

verus! {

pub const SMB2_HEADER_SIZE: usize = 64;

pub const SMB2_DIALECT_202: u16 = 0x0202;

/// The dialect that asks an SMB1 client to negotiate again in SMB2.
pub const SMB2_DIALECT_WILDCARD: u16 = 0x02FF;

pub const SMB2_FLAGS_SERVER_TO_REDIR: u32 = 0x0000_0001;

pub const SMB2_FLAGS_RELATED_OPERATIONS: u32 = 0x0000_0004;

// Commands
pub const SMB2_NEGOTIATE: u16 = 0x0000;

pub const SMB2_SESSION_SETUP: u16 = 0x0001;

pub const SMB2_LOGOFF: u16 = 0x0002;

pub const SMB2_TREE_CONNECT: u16 = 0x0003;

pub const SMB2_TREE_DISCONNECT: u16 = 0x0004;

pub const SMB2_CREATE: u16 = 0x0005;

pub const SMB2_CLOSE: u16 = 0x0006;

pub const SMB2_FLUSH: u16 = 0x0007;

pub const SMB2_READ: u16 = 0x0008;

pub const SMB2_WRITE: u16 = 0x0009;

pub const SMB2_LOCK: u16 = 0x000A;

pub const SMB2_IOCTL: u16 = 0x000B;

pub const SMB2_QUERY_DIRECTORY: u16 = 0x000E;

pub const SMB2_QUERY_INFO: u16 = 0x0010;

pub const SMB2_SET_INFO: u16 = 0x0011;

// Status codes
pub const STATUS_SUCCESS: u32 = 0x0000_0000;

pub const STATUS_NO_MORE_FILES: u32 = 0x8000_0006;

pub const STATUS_INVALID_PARAMETER: u32 = 0xC000_000D;

pub const STATUS_INVALID_DEVICE_REQUEST: u32 = 0xC000_0010;

pub const STATUS_END_OF_FILE: u32 = 0xC000_0011;

pub const STATUS_MORE_PROCESSING: u32 = 0xC000_0016;

pub const STATUS_ACCESS_DENIED: u32 = 0xC000_0022;

pub const STATUS_OBJECT_NAME_NOT_FOUND: u32 = 0xC000_0034;

pub const STATUS_OBJECT_NAME_COLLISION: u32 = 0xC000_0035;

pub const STATUS_NOT_SUPPORTED: u32 = 0xC000_00BB;

// Create dispositions
pub const FILE_SUPERSEDE: u32 = 0;

pub const FILE_OPEN: u32 = 1;

pub const FILE_CREATE: u32 = 2;

pub const FILE_OPEN_IF: u32 = 3;

pub const FILE_OVERWRITE: u32 = 4;

pub const FILE_OVERWRITE_IF: u32 = 5;

pub const FILE_DIRECTORY_FILE: u32 = 0x0000_0001;

pub const FILE_ATTRIBUTE_DIRECTORY: u32 = 0x0000_0010;

pub const FILE_ATTRIBUTE_ARCHIVE: u32 = 0x0000_0020;

pub const FILE_ATTRIBUTE_NORMAL: u32 = 0x0000_0080;

pub const MAXIMUM_ALLOWED: u32 = 0x0200_0000;

// Information types and classes
pub const SMB2_0_INFO_FILE: u8 = 1;

pub const SMB2_0_INFO_FILESYSTEM: u8 = 2;

pub const SMB2_0_INFO_SECURITY: u8 = 3;

pub const FILE_BASIC_INFORMATION: u8 = 4;

pub const FILE_STANDARD_INFORMATION: u8 = 5;

pub const FILE_INTERNAL_INFORMATION: u8 = 6;

pub const FILE_EA_INFORMATION: u8 = 7;

pub const FILE_RENAME_INFORMATION: u8 = 10;

pub const FILE_DISPOSITION_INFORMATION: u8 = 13;

pub const FILE_POSITION_INFORMATION: u8 = 14;

pub const FILE_ALL_INFORMATION: u8 = 18;

pub const FILE_STREAM_INFORMATION: u8 = 22;

pub const FILE_NETWORK_OPEN_INFORMATION: u8 = 34;

pub const FILE_ATTRIBUTE_TAG_INFORMATION: u8 = 35;

pub const FS_VOLUME_INFORMATION: u8 = 1;

pub const FS_SIZE_INFORMATION: u8 = 3;

pub const FS_ATTRIBUTE_INFORMATION: u8 = 5;

pub const FS_FULL_SIZE_INFORMATION: u8 = 7;

pub const FS_SECTOR_SIZE_INFORMATION: u8 = 11;

/// The control code that writes to a pipe and reads its answer.
pub const FSCTL_PIPE_TRANSACT: u32 = 0x0011_C017;

// ── Headers ─────────────────────────────────────────────────────────

/// What the header of a message says.
#[derive(Debug, Clone, Copy)]
pub struct Smb2Header {
    pub credit_charge: u16,
    pub command: u16,
    pub credits: u16,
    pub flags: u32,
    pub next_command: u32,
    pub message_id: u64,
    pub process_id: u32,
    pub tree_id: u32,
    pub session_id: u64,
}

/// The four bytes that an SMB2 message starts with.
pub open spec fn smb2_magic() -> Seq<u8> {
    seq![0xFEu8, 0x53u8, 0x4Du8, 0x42u8]
}

/// The header of a message, where it has one.
pub open spec fn header_of(msg: Seq<u8>) -> Option<Smb2Header> {
    if msg.len() >= SMB2_HEADER_SIZE && msg.take(4) == smb2_magic() {
        Some(
            Smb2Header {
                credit_charge: le16_at(msg, 6),
                command: le16_at(msg, 12),
                credits: le16_at(msg, 14),
                flags: le32_at(msg, 16),
                next_command: le32_at(msg, 20),
                message_id: le64_at(msg, 24),
                process_id: le32_at(msg, 32),
                tree_id: le32_at(msg, 36),
                session_id: le64_at(msg, 40),
            },
        )
    } else {
        None
    }
}

/// The flags of the response to a request.
pub open spec fn response_flags(flags: u32) -> u32 {
    SMB2_FLAGS_SERVER_TO_REDIR | (flags & SMB2_FLAGS_RELATED_OPERATIONS)
}

/// The credits that a request is granted: what it asked for, and at least one.
pub open spec fn granted(credits: u16) -> u16 {
    if credits == 0 {
        1
    } else {
        credits
    }
}

/// The header of the response to a request.
pub open spec fn header_bytes(h: Smb2Header, status: u32) -> Seq<u8> {
    smb2_magic() + le16(64) + le16(h.credit_charge) + le32(status) + le16(h.command) + le16(
        granted(h.credits),
    ) + le32(response_flags(h.flags)) + le32(0) + le64(h.message_id) + le32(h.process_id) + le32(
        h.tree_id,
    ) + le64(h.session_id) + zeros(16)
}

/// A response as it goes out: its length, the header and the body.
pub open spec fn response(h: Smb2Header, status: u32, body: Seq<u8>) -> Seq<u8> {
    be32((SMB2_HEADER_SIZE + body.len()) as u32) + header_bytes(h, status) + body
}

impl Smb2Header {
    /// Reads the header of a message.
    pub fn parse(msg: &[u8]) -> (r: Option<Self>)
        ensures
            r == header_of(msg@),
    {
        if msg.len() < SMB2_HEADER_SIZE {
            return None;
        }
        if msg[0] != 0xFE || msg[1] != 0x53 || msg[2] != 0x4D || msg[3] != 0x42 {
            assert(msg@.take(4)[0] != 0xFE || msg@.take(4)[1] != 0x53 || msg@.take(4)[2] != 0x4D
                || msg@.take(4)[3] != 0x42);
            return None;
        }
        assert(msg@.take(4) =~= smb2_magic());
        Some(
            Smb2Header {
                credit_charge: read_u16_le(msg, 6),
                command: read_u16_le(msg, 12),
                credits: read_u16_le(msg, 14),
                flags: read_u32_le(msg, 16),
                next_command: read_u32_le(msg, 20),
                message_id: read_u64_le(msg, 24),
                process_id: read_u32_le(msg, 32),
                tree_id: read_u32_le(msg, 36),
                session_id: read_u64_le(msg, 40),
            },
        )
    }

    fn put_header(&self, status: u32) -> (out: Vec<u8>)
        ensures
            out@ == header_bytes(*self, status),
    {
        let mut out: Vec<u8> = Vec::new();
        out.push(0xFE);
        out.push(0x53);
        out.push(0x4D);
        out.push(0x42);
        assert(out@ =~= smb2_magic());
        put_u16_le(&mut out, 64);
        put_u16_le(&mut out, self.credit_charge);
        put_u32_le(&mut out, status);
        put_u16_le(&mut out, self.command);
        put_u16_le(
            &mut out,
            if self.credits == 0 {
                1
            } else {
                self.credits
            },
        );
        put_u32_le(
            &mut out,
            SMB2_FLAGS_SERVER_TO_REDIR | (self.flags & SMB2_FLAGS_RELATED_OPERATIONS),
        );
        put_u32_le(&mut out, 0);
        put_u64_le(&mut out, self.message_id);
        put_u32_le(&mut out, self.process_id);
        put_u32_le(&mut out, self.tree_id);
        put_u64_le(&mut out, self.session_id);
        put_zeros(&mut out, 16);
        out
    }

    /// Appends the response to the request with this header.
    pub fn write_response(&self, status: u32, body: &[u8], out: &mut Vec<u8>)
        ensures
            final(out)@ == old(out)@ + response(*self, status, body@),
    {
        let header = self.put_header(status);
        let len = SMB2_HEADER_SIZE as u128 + body.len() as u128;
        put_u32_be(
            out,
            #[verifier::truncate]
            (len as u32),
        );
        put_all(out, &header);
        put_all(out, body);
        assert(out@ =~= old(out)@ + response(*self, status, body@));
    }
}

/// A response carries the request's command, message, tree and session, the
/// status, and the body: what the request says of itself reads back from it.
pub proof fn law_response_echoes_request(h: Smb2Header, status: u32, body: Seq<u8>)
    ensures
        response(h, status, body).len() == 4 + SMB2_HEADER_SIZE + body.len(),
        header_of(response(h, status, body).skip(4)) == Some(
            Smb2Header {
                credits: granted(h.credits),
                flags: response_flags(h.flags),
                next_command: 0,
                ..h
            },
        ),
        le32_at(response(h, status, body).skip(4), 8) == status,
        response(h, status, body).skip(4 + SMB2_HEADER_SIZE as int) == body,
{
    let r = response(h, status, body);
    let m = r.skip(4);
    let hb = header_bytes(h, status);
    lemma_header_layout(h, status);
    assert(m =~= hb + body);
    assert(r.skip(4 + SMB2_HEADER_SIZE as int) =~= body);
    assert(forall|i: int| 0 <= i < 64 ==> m[i] == hb[i]);
    assert(m.take(4) =~= hb.take(4));
    assert(m.take(4) =~= smb2_magic());
}

/// Where a client finds what in a response: behind the length the magic, the
/// size of the header, the status, the request's command, number, process, tree
/// and session. A response is marked as one, and as related where its request is.
/// It grants the credits that were asked for, and at least one.
pub proof fn law_responses_have_fixed_places(h: Smb2Header, status: u32, body: Seq<u8>)
    ensures
        ({
            let r = response(h, status, body);
            &&& r.len() == 68 + body.len()
            &&& r.len() <= u32::MAX ==> be32_at(r, 0) == r.len() - 4
            &&& r[4] == 0xFE && r[5] == 0x53 && r[6] == 0x4D && r[7] == 0x42
            &&& le16_at(r, 8) == 64
            &&& le16_at(r, 10) == h.credit_charge
            &&& le32_at(r, 12) == status
            &&& le16_at(r, 16) == h.command
            &&& le16_at(r, 18) == if h.credits == 0 {
                1
            } else {
                h.credits
            }
            &&& le32_at(r, 20) & 1 == 1
            &&& le32_at(r, 20) & 4 == h.flags & 4
            &&& le32_at(r, 20) & 0xFFFF_FFFA == 0
            &&& le32_at(r, 24) == 0
            &&& le64_at(r, 28) == h.message_id
            &&& le32_at(r, 36) == h.process_id
            &&& le32_at(r, 40) == h.tree_id
            &&& le64_at(r, 44) == h.session_id
            &&& r.skip(68) == body
        }),
{
    let r = response(h, status, body);
    let m = r.skip(4);
    law_response_echoes_request(h, status, body);
    let hb = header_bytes(h, status);
    assert(hb.subrange(4, 6) =~= le16(64));
    lemma_header_layout(h, status);
    assert(m =~= hb + body);
    assert(m.subrange(4, 6) =~= hb.subrange(4, 6));
    lemma_le16_in(m, 4, 64);
    assert(m.take(4)[0] == r[4] && m.take(4)[1] == r[5] && m.take(4)[2] == r[6] && m.take(4)[3]
        == r[7]);
    let n = (SMB2_HEADER_SIZE + body.len()) as u32;
    assert(r.subrange(0, 4) =~= be32(n));
    crate::bytes::lemma_be32_in(r, 0, n);
    let f = h.flags;
    assert((1u32 | (f & 4)) & 1 == 1 && (1u32 | (f & 4)) & 4 == f & 4 && (1u32 | (f & 4))
        & 0xFFFF_FFFA == 0) by (bit_vector);
    assert(le16_at(m, 4) == le16_at(r, 8));
    assert(le16_at(m, 6) == le16_at(r, 10));
    assert(le32_at(m, 8) == le32_at(r, 12));
    assert(le16_at(m, 12) == le16_at(r, 16));
    assert(le16_at(m, 14) == le16_at(r, 18));
    assert(le32_at(m, 16) == le32_at(r, 20));
    assert(le32_at(m, 20) == le32_at(r, 24));
    assert(le64_at(m, 24) == le64_at(r, 28));
    assert(le32_at(m, 32) == le32_at(r, 36));
    assert(le32_at(m, 36) == le32_at(r, 40));
    assert(le64_at(m, 40) == le64_at(r, 44));
}

proof fn lemma_le16_in(s: Seq<u8>, at: int, v: u16)
    requires
        0 <= at && at + 2 <= s.len(),
        s.subrange(at, at + 2) == le16(v),
    ensures
        le16_at(s, at) == v,
{
    crate::bytes::law_le16_round_trip(v);
    let p = s.subrange(at, at + 2);
    assert(p[0] == s[at] && p[1] == s[at + 1]);
}

proof fn lemma_le32_in(s: Seq<u8>, at: int, v: u32)
    requires
        0 <= at && at + 4 <= s.len(),
        s.subrange(at, at + 4) == le32(v),
    ensures
        le32_at(s, at) == v,
{
    crate::bytes::law_le32_round_trip(v);
    let p = s.subrange(at, at + 4);
    assert(p[0] == s[at] && p[1] == s[at + 1] && p[2] == s[at + 2] && p[3] == s[at + 3]);
}

proof fn lemma_le64_in(s: Seq<u8>, at: int, v: u64)
    requires
        0 <= at && at + 8 <= s.len(),
        s.subrange(at, at + 8) == le64(v),
    ensures
        le64_at(s, at) == v,
{
    crate::bytes::law_le64_round_trip(v);
    let p = s.subrange(at, at + 8);
    assert(forall|i: int| 0 <= i < 8 ==> p[i] == s[at + i]);
    assert(le32_at(s, at) == le32_at(p, 0));
    assert(le32_at(s, at + 4) == le32_at(p, 4));
}

#[verifier::rlimit(40)]
proof fn lemma_header_layout(h: Smb2Header, status: u32)
    ensures
        header_bytes(h, status).len() == 64,
        header_bytes(h, status).take(4) == smb2_magic(),
        le16_at(header_bytes(h, status), 6) == h.credit_charge,
        le32_at(header_bytes(h, status), 8) == status,
        le16_at(header_bytes(h, status), 12) == h.command,
        le16_at(header_bytes(h, status), 14) == granted(h.credits),
        le32_at(header_bytes(h, status), 16) == response_flags(h.flags),
        le32_at(header_bytes(h, status), 20) == 0,
        le64_at(header_bytes(h, status), 24) == h.message_id,
        le32_at(header_bytes(h, status), 32) == h.process_id,
        le32_at(header_bytes(h, status), 36) == h.tree_id,
        le64_at(header_bytes(h, status), 40) == h.session_id,
{
    let s = header_bytes(h, status);
    assert(s.take(4) =~= smb2_magic());
    assert(s.subrange(6, 8) =~= le16(h.credit_charge));
    lemma_le16_in(s, 6, h.credit_charge);
    assert(s.subrange(8, 12) =~= le32(status));
    lemma_le32_in(s, 8, status);
    assert(s.subrange(12, 14) =~= le16(h.command));
    lemma_le16_in(s, 12, h.command);
    assert(s.subrange(14, 16) =~= le16(granted(h.credits)));
    lemma_le16_in(s, 14, granted(h.credits));
    assert(s.subrange(16, 20) =~= le32(response_flags(h.flags)));
    lemma_le32_in(s, 16, response_flags(h.flags));
    assert(s.subrange(20, 24) =~= le32(0));
    lemma_le32_in(s, 20, 0);
    assert(s.subrange(24, 32) =~= le64(h.message_id));
    lemma_le64_in(s, 24, h.message_id);
    assert(s.subrange(32, 36) =~= le32(h.process_id));
    lemma_le32_in(s, 32, h.process_id);
    assert(s.subrange(36, 40) =~= le32(h.tree_id));
    lemma_le32_in(s, 36, h.tree_id);
    assert(s.subrange(40, 48) =~= le64(h.session_id));
    lemma_le64_in(s, 40, h.session_id);
}

// ── Framing ─────────────────────────────────────────────────────────

/// The length that the four bytes before a message announce. The first byte is
/// the frame's type and does not count.
pub open spec fn frame_length(prefix: Seq<u8>) -> int {
    prefix[1] * 0x10000 + prefix[2] * 0x100 + prefix[3]
}

/// Reads the length of the message that follows.
pub fn message_length(prefix: &[u8]) -> (n: u32)
    requires
        prefix@.len() >= 4,
    ensures
        n as int == frame_length(prefix@),
{
    prefix[1] as u32 * 0x10000 + prefix[2] as u32 * 0x100 + prefix[3] as u32
}

/// The length in front of a response is that of what follows, as long as it
/// fits in the three bytes that a frame has for it.
pub proof fn law_response_announces_its_length(h: Smb2Header, status: u32, body: Seq<u8>)
    requires
        SMB2_HEADER_SIZE + body.len() < 0x100_0000,
    ensures
        frame_length(response(h, status, body)) == response(h, status, body).len() - 4,
{
    lemma_header_layout(h, status);
    let n = (SMB2_HEADER_SIZE + body.len()) as u32;
    let r = response(h, status, body);
    assert(r[1] == (n >> 16) as u8 && r[2] == (n >> 8) as u8 && r[3] == n as u8);
    assert(n < 0x100_0000 ==> ((n >> 16) as u8) as u32 * 0x10000 + ((n >> 8) as u8) as u32 * 0x100
        + (n as u8) as u32 == n) by (bit_vector);
}

/// The negotiation that an SMB1 client starts with.
pub open spec fn smb1_negotiate(msg: Seq<u8>) -> bool {
    msg.len() >= 5 && msg.take(5) == seq![0xFFu8, 0x53u8, 0x4Du8, 0x42u8, 0x72u8]
}

/// Says whether a message is the negotiation of an SMB1 client.
pub fn is_smb1_negotiate(msg: &[u8]) -> (r: bool)
    ensures
        r == smb1_negotiate(msg@),
{
    if msg.len() < 5 {
        return false;
    }
    let r = msg[0] == 0xFF && msg[1] == 0x53 && msg[2] == 0x4D && msg[3] == 0x42 && msg[4] == 0x72;
    proof {
        let t = msg@.take(5);
        let m = seq![0xFFu8, 0x53u8, 0x4Du8, 0x42u8, 0x72u8];
        if r {
            assert(t =~= m);
        } else {
            assert(t[0] != m[0] || t[1] != m[1] || t[2] != m[2] || t[3] != m[3] || t[4] != m[4]);
        }
    }
    r
}

// ── Times ───────────────────────────────────────────────────────────

/// Seconds between the start of Windows time and the Unix epoch.
pub const EPOCH_DIFFERENCE: u64 = 11_644_473_600;

/// Windows time counts in units of 100 nanoseconds.
pub const TICKS_PER_SEC: u64 = 10_000_000;

/// Unix seconds in Windows time, as far as it reaches.
pub open spec fn filetime(secs: u64) -> u64 {
    let t = (secs + EPOCH_DIFFERENCE) * TICKS_PER_SEC;
    if t > u64::MAX {
        u64::MAX
    } else {
        t as u64
    }
}

/// Windows time in Unix seconds, 0 before the Unix epoch.
pub open spec fn unix_time(ticks: u64) -> u64 {
    if ticks / TICKS_PER_SEC < EPOCH_DIFFERENCE {
        0
    } else {
        (ticks / TICKS_PER_SEC - EPOCH_DIFFERENCE) as u64
    }
}

/// Turns Unix seconds into Windows time.
pub fn unix_to_filetime(secs: u64) -> (t: u64)
    ensures
        t == filetime(secs),
{
    let t = (secs as u128 + EPOCH_DIFFERENCE as u128) * TICKS_PER_SEC as u128;
    if t > u64::MAX as u128 {
        u64::MAX
    } else {
        t as u64
    }
}

/// Turns Windows time into Unix seconds.
pub fn filetime_to_unix(ticks: u64) -> (secs: u64)
    ensures
        secs == unix_time(ticks),
{
    (ticks / TICKS_PER_SEC).saturating_sub(EPOCH_DIFFERENCE)
}

/// Seconds survive the way to Windows time and back, as far as it reaches.
pub proof fn law_times_survive(secs: u64)
    requires
        (secs + EPOCH_DIFFERENCE) * TICKS_PER_SEC <= u64::MAX,
    ensures
        unix_time(filetime(secs)) == secs,
{
    let t = (secs + EPOCH_DIFFERENCE) * TICKS_PER_SEC;
    assert(t / (TICKS_PER_SEC as int) == secs + EPOCH_DIFFERENCE);
}

// ── Security tokens ─────────────────────────────────────────────────

/// The object identifier of NTLMSSP, with its tag and length.
pub open spec fn ntlmssp_oid() -> Seq<u8> {
    seq![
        0x06u8,
        0x0au8,
        0x2bu8,
        0x06u8,
        0x01u8,
        0x04u8,
        0x01u8,
        0x82u8,
        0x37u8,
        0x02u8,
        0x02u8,
        0x0au8,
    ]
}

/// The object identifier of SPNEGO, with its tag and length.
pub open spec fn spnego_oid() -> Seq<u8> {
    seq![0x06u8, 0x06u8, 0x2bu8, 0x06u8, 0x01u8, 0x05u8, 0x05u8, 0x02u8]
}

/// A length in DER.
pub open spec fn der_length(n: nat) -> Seq<u8> {
    if n < 0x80 {
        seq![n as u8]
    } else if n < 0x100 {
        seq![0x81u8, n as u8]
    } else {
        seq![0x82u8, (n / 0x100) as u8, (n % 0x100) as u8]
    }
}

/// A value in DER under a tag.
pub open spec fn der(tag: u8, content: Seq<u8>) -> Seq<u8> {
    seq![tag] + der_length(content.len()) + content
}

fn put_der(tag: u8, content: &[u8]) -> (out: Vec<u8>)
    requires
        content@.len() < 0x10000,
    ensures
        out@ == der(tag, content@),
        out@.len() <= content@.len() + 4,
{
    let mut out: Vec<u8> = Vec::new();
    let n = content.len();
    out.push(tag);
    if n < 0x80 {
        out.push(n as u8);
    } else if n < 0x100 {
        out.push(0x81);
        out.push(n as u8);
    } else {
        out.push(0x82);
        out.push((n / 0x100) as u8);
        out.push((n % 0x100) as u8);
    }
    assert(out@ =~= seq![tag] + der_length(content@.len()));
    put_all(&mut out, content);
    out
}

/// The token that offers NTLMSSP as the only mechanism.
pub open spec fn negotiate_token() -> Seq<u8> {
    der(0x60, spnego_oid() + der(0xa0, der(0x30, der(0xa0, der(0x30, ntlmssp_oid())))))
}

/// The token that answers an NTLMSSP message and asks for more.
pub open spec fn challenge_token(challenge: Seq<u8>) -> Seq<u8> {
    der(
        0xa1,
        der(
            0x30,
            der(0xa0, der(0x0a, seq![1u8])) + der(0xa1, ntlmssp_oid()) + der(
                0xa2,
                der(0x04, challenge),
            ),
        ),
    )
}

/// The token that accepts a client.
pub open spec fn accept_token() -> Seq<u8> {
    der(0xa1, der(0x30, der(0xa0, der(0x0a, seq![0u8]))))
}

fn put_ntlmssp_oid() -> (out: Vec<u8>)
    ensures
        out@ == ntlmssp_oid(),
{
    let mut out: Vec<u8> = Vec::new();
    out.push(0x06);
    out.push(0x0a);
    out.push(0x2b);
    out.push(0x06);
    out.push(0x01);
    out.push(0x04);
    out.push(0x01);
    out.push(0x82);
    out.push(0x37);
    out.push(0x02);
    out.push(0x02);
    out.push(0x0a);
    assert(out@ =~= ntlmssp_oid());
    out
}

fn put_spnego_oid() -> (out: Vec<u8>)
    ensures
        out@ == spnego_oid(),
{
    let mut out: Vec<u8> = Vec::new();
    out.push(0x06);
    out.push(0x06);
    out.push(0x2b);
    out.push(0x06);
    out.push(0x01);
    out.push(0x05);
    out.push(0x05);
    out.push(0x02);
    assert(out@ =~= spnego_oid());
    out
}

/// Builds the token that offers NTLMSSP.
pub fn build_spnego_negotiate_token() -> (out: Vec<u8>)
    ensures
        out@ == negotiate_token(),
        out@.len() <= 64,
{
    let oid = put_ntlmssp_oid();
    let list = put_der(0x30, &oid);
    let mechs = put_der(0xa0, &list);
    let init = put_der(0x30, &mechs);
    let choice = put_der(0xa0, &init);
    let mut body = put_spnego_oid();
    put_all(&mut body, &choice);
    put_der(0x60, &body)
}

/// Wraps an NTLMSSP message in a token that asks for more.
pub fn wrap_ntlmssp_in_spnego(challenge: &[u8]) -> (out: Vec<u8>)
    requires
        challenge@.len() < 0xFF00,
    ensures
        out@ == challenge_token(challenge@),
        out@.len() <= challenge@.len() + 64,
{
    let mut state: Vec<u8> = Vec::new();
    state.push(1);
    assert(state@ =~= seq![1u8]);
    let state = put_der(0x0a, &state);
    let mut body = put_der(0xa0, &state);
    let oid = put_ntlmssp_oid();
    let mech = put_der(0xa1, &oid);
    put_all(&mut body, &mech);
    let text = put_der(0x04, challenge);
    let token = put_der(0xa2, &text);
    put_all(&mut body, &token);
    let seq = put_der(0x30, &body);
    put_der(0xa1, &seq)
}

/// Builds the token that accepts a client.
pub fn spnego_accept_complete() -> (out: Vec<u8>)
    ensures
        out@ == accept_token(),
        out@.len() <= 64,
{
    let mut state: Vec<u8> = Vec::new();
    state.push(0);
    assert(state@ =~= seq![0u8]);
    let state = put_der(0x0a, &state);
    let body = put_der(0xa0, &state);
    let seq = put_der(0x30, &body);
    put_der(0xa1, &seq)
}

// ── The answer to a negotiation ─────────────────────────────────────

/// The identifier of the server.
pub open spec fn server_guid() -> Seq<u8> {
    Seq::new(16, |i: int| (i + 1) as u8)
}

/// The largest request and response that the server takes.
pub const MAX_TRANSFER: u32 = 8 * 1024 * 1024;

/// The body of the response to a negotiation at `wall` seconds of Unix time.
pub open spec fn negotiate_body(dialect: u16, wall: u64) -> Seq<u8> {
    le16(65) + le16(1) + le16(dialect) + le16(0) + server_guid() + le32(7) + le32(MAX_TRANSFER)
        + le32(MAX_TRANSFER) + le32(MAX_TRANSFER) + le64(filetime(wall)) + le64(filetime(wall))
        + le16(128) + le16(negotiate_token().len() as u16) + le32(0) + negotiate_token()
}

/// Builds the body of the response to a negotiation.
pub fn build_negotiate_body(dialect: u16, wall: u64) -> (out: Vec<u8>)
    ensures
        out@ == negotiate_body(dialect, wall),
{
    let token = build_spnego_negotiate_token();
    let time = unix_to_filetime(wall);
    let mut out: Vec<u8> = Vec::new();
    put_u16_le(&mut out, 65);
    assert(out@ =~= le16(65));
    put_u16_le(&mut out, 1);
    put_u16_le(&mut out, dialect);
    put_u16_le(&mut out, 0);
    let mut guid: Vec<u8> = Vec::new();
    let mut i: u8 = 0;
    while i < 16
        invariant
            i <= 16,
            guid@ =~= server_guid().take(i as int),
        decreases 16 - i,
    {
        i += 1;
        guid.push(i);
    }
    assert(guid@ =~= server_guid());
    put_all(&mut out, &guid);
    put_u32_le(&mut out, 7);
    put_u32_le(&mut out, MAX_TRANSFER);
    put_u32_le(&mut out, MAX_TRANSFER);
    put_u32_le(&mut out, MAX_TRANSFER);
    put_u64_le(&mut out, time);
    put_u64_le(&mut out, time);
    put_u16_le(&mut out, 128);
    put_u16_le(&mut out, token.len() as u16);
    put_u32_le(&mut out, 0);
    put_all(&mut out, &token);
    out
}

/// The header of a request that has none of its own.
pub open spec fn blank_header() -> Smb2Header {
    Smb2Header {
        credit_charge: 0,
        command: SMB2_NEGOTIATE,
        credits: 1,
        flags: 0,
        next_command: 0,
        message_id: 0,
        process_id: 0,
        tree_id: 0,
        session_id: 0,
    }
}

/// Answers an SMB1 negotiation at `wall` seconds of Unix time: the client is
/// to negotiate again in SMB2.
pub fn smb1_upgrade_response(wall: u64) -> (out: Vec<u8>)
    ensures
        out@ == response(
            blank_header(),
            STATUS_SUCCESS,
            negotiate_body(SMB2_DIALECT_WILDCARD, wall),
        ),
{
    let h = Smb2Header {
        credit_charge: 0,
        command: SMB2_NEGOTIATE,
        credits: 1,
        flags: 0,
        next_command: 0,
        message_id: 0,
        process_id: 0,
        tree_id: 0,
        session_id: 0,
    };
    let body = build_negotiate_body(SMB2_DIALECT_WILDCARD, wall);
    let mut out: Vec<u8> = Vec::new();
    h.write_response(STATUS_SUCCESS, &body, &mut out);
    assert(out@ =~= response(
        blank_header(),
        STATUS_SUCCESS,
        negotiate_body(SMB2_DIALECT_WILDCARD, wall),
    ));
    out
}

/// Answers an SMB1 negotiation now.
pub fn build_smb1_to_smb2_negotiate_response() -> (out: Vec<u8>)
    ensures
        exists|wall: u64|
            out@ == response(
                blank_header(),
                STATUS_SUCCESS,
                #[trigger] negotiate_body(SMB2_DIALECT_WILDCARD, wall),
            ),
{
    let wall = wall_seconds();
    smb1_upgrade_response(wall)
}

} // verus!

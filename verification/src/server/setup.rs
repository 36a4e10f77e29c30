//! Sessions and trees: NEGOTIATE, SESSION_SETUP, TREE_CONNECT and their ends.

use crate::bytes::{
    le16, le16_at, le32, le32_at, le64, put_all, put_u16_le, put_u32_le, put_u64_le, put_u8,
    put_zeros, read_u16_le, read_u32_le, zeros,
};
use crate::server::state::{SessionModel, SmbSession};
use crate::server::step::{answer, answered, plain_body, Moment, Step, StepView};
use crate::smb2::{
    accept_token, build_negotiate_body, challenge_token, filetime, negotiate_body,
    spnego_accept_complete, unix_to_filetime, wrap_ntlmssp_in_spnego, Smb2Header,
    SMB2_DIALECT_202, SMB2_HEADER_SIZE, STATUS_MORE_PROCESSING, STATUS_SUCCESS,
};
use crate::text::{chars_of, ends_with, text_at, to_upper, upper_all};
use crate::utf16::{from_utf16le, to_utf16le, utf16le, utf16le_text};
use vstd::prelude::*;
use vstd::slice::slice_subrange;

verus! {

/// The part of a request that its body points at, by an offset from the start
/// of the header, where the body holds all of it.
pub open spec fn pointed_at(body: Seq<u8>, offset: nat, length: nat) -> Option<Seq<u8>> {
    let start = if offset < SMB2_HEADER_SIZE {
        0
    } else {
        offset - SMB2_HEADER_SIZE
    };
    if start + length <= body.len() {
        Some(body.subrange(start, start + length))
    } else {
        None
    }
}

/// Finds the part of a request that its body points at.
pub fn find_part<'a>(body: &'a [u8], offset: u32, length: u32) -> (r: Option<&'a [u8]>)
    ensures
        match r {
            Some(p) => pointed_at(body@, offset as nat, length as nat) == Some(p@),
            None => pointed_at(body@, offset as nat, length as nat) is None,
        },
{
    let start: u64 = (offset as u64).saturating_sub(SMB2_HEADER_SIZE as u64);
    let end: u64 = start + length as u64;
    if end > body.len() as u64 {
        return None;
    }
    Some(slice_subrange(body, start as usize, end as usize))
}

// ── SESSION_SETUP ───────────────────────────────────────────────────

/// The bytes that an NTLMSSP message starts with.
pub open spec fn ntlmssp_signature() -> Seq<u8> {
    seq![0x4Eu8, 0x54u8, 0x4Cu8, 0x4Du8, 0x53u8, 0x53u8, 0x50u8, 0u8]
}

/// Where the first NTLMSSP message of a token starts, from `at` on. The message
/// has to reach as far as its type.
pub open spec fn ntlmssp_start(token: Seq<u8>, at: int) -> Option<int>
    decreases token.len() - at,
{
    if at + 12 > token.len() {
        None
    } else if token.subrange(at, at + 8) == ntlmssp_signature() {
        Some(at)
    } else {
        ntlmssp_start(token, at + 1)
    }
}

/// The type of the first NTLMSSP message in a token.
pub open spec fn ntlmssp_type(token: Seq<u8>) -> Option<u32> {
    match ntlmssp_start(token, 0) {
        Some(at) => Some(le32_at(token, at + 8)),
        None => None,
    }
}

/// The flags of a client whose message is too short to hold any.
pub const DEFAULT_CLIENT_FLAGS: u32 = 0xe208_8233;

/// The flags in the first NTLMSSP message of a token.
pub open spec fn client_flags(token: Seq<u8>) -> u32 {
    match ntlmssp_start(token, 0) {
        Some(at) => if at + 16 <= token.len() {
            le32_at(token, at + 12)
        } else {
            DEFAULT_CLIENT_FLAGS
        },
        None => DEFAULT_CLIENT_FLAGS,
    }
}

fn find_ntlmssp(token: &[u8]) -> (r: Option<usize>)
    ensures
        ntlmssp_start(token@, 0) == (match r {
            Some(at) => Some(at as int),
            None => None,
        }),
        r matches Some(at) ==> at + 12 <= token@.len(),
{
    let mut at: usize = 0;
    while token.len() >= 12 && at <= token.len() - 12
        invariant
            at <= token@.len(),
            ntlmssp_start(token@, at as int) == ntlmssp_start(token@, 0),
        decreases token@.len() - at,
    {
        assert(token.len() <= usize::MAX);
        let hit = token[at] == 0x4E && token[at + 1] == 0x54 && token[at + 2] == 0x4C && token[at
            + 3] == 0x4D && token[at + 4] == 0x53 && token[at + 5] == 0x53 && token[at + 6] == 0x50
            && token[at + 7] == 0;
        proof {
            let t = token@.subrange(at as int, at + 8);
            let s = ntlmssp_signature();
            if hit {
                assert(t =~= s);
            } else {
                assert(t[0] != s[0] || t[1] != s[1] || t[2] != s[2] || t[3] != s[3] || t[4] != s[4]
                    || t[5] != s[5] || t[6] != s[6] || t[7] != s[7]);
            }
        }
        if hit {
            return Some(at);
        }
        at += 1;
    }
    None
}

/// Reads the type and the flags of the first NTLMSSP message in a token.
pub fn read_ntlmssp(token: &[u8]) -> (r: (Option<u32>, u32))
    ensures
        r.0 == ntlmssp_type(token@),
        r.1 == client_flags(token@),
{
    match find_ntlmssp(token) {
        Some(at) => {
            assert(token.len() <= usize::MAX);
            let kind = read_u32_le(token, at + 8);
            if token.len() - at >= 16 {
                (Some(kind), read_u32_le(token, at + 12))
            } else {
                (Some(kind), DEFAULT_CLIENT_FLAGS)
            }
        },
        None => (None, DEFAULT_CLIENT_FLAGS),
    }
}

/// The security token of a SESSION_SETUP request; none where it does not lie
/// within the request.
pub open spec fn setup_token(body: Seq<u8>) -> Seq<u8> {
    let offset = if body.len() >= 14 {
        le16_at(body, 12)
    } else {
        0
    };
    let length = if body.len() >= 16 {
        le16_at(body, 14)
    } else {
        0
    };
    match pointed_at(body, offset as nat, length as nat) {
        Some(t) => t,
        None => Seq::empty(),
    }
}

/// One entry of the target information in a challenge.
pub open spec fn target_entry(id: u16, value: Seq<u8>) -> Seq<u8> {
    le16(id) + le16(value.len() as u16) + value
}

/// What the challenge tells of the server: its names, and the time.
pub open spec fn target_info(wall: u64) -> Seq<u8> {
    target_entry(2, utf16le("SSHFS"@)) + target_entry(1, utf16le("SSHFS"@)) + target_entry(
        4,
        Seq::empty(),
    ) + target_entry(3, utf16le("sshfs"@)) + target_entry(7, le64(filetime(wall))) + target_entry(
        0,
        Seq::empty(),
    )
}

/// The flag of a message that tells a version.
pub const NTLMSSP_VERSION: u32 = 0x0200_0000;

/// The flag of a challenge from a server.
pub const NTLMSSP_TARGET_TYPE_SERVER: u32 = 0x0002_0000;

/// The flag of a challenge that carries target information.
pub const NTLMSSP_TARGET_INFO: u32 = 0x0080_0000;

/// The flags of the challenge: those of the client, but without a version, and
/// with what this server tells of itself.
pub open spec fn challenge_flags(client: u32) -> u32 {
    (client & !NTLMSSP_VERSION) | NTLMSSP_TARGET_TYPE_SERVER | NTLMSSP_TARGET_INFO
}

/// The random part of the challenge, which is the same for every client: each
/// is accepted as a guest.
pub open spec fn server_challenge() -> Seq<u8> {
    seq![0x01u8, 0x23u8, 0x45u8, 0x67u8, 0x89u8, 0xabu8, 0xcdu8, 0xefu8]
}

/// The NTLMSSP challenge with the given flags.
pub open spec fn ntlmssp_challenge(wall: u64, flags: u32) -> Seq<u8> {
    let name = utf16le("SSHFS"@);
    let info = target_info(wall);
    ntlmssp_signature() + le32(2) + le16(name.len() as u16) + le16(name.len() as u16) + le32(48)
        + le32(flags) + server_challenge() + zeros(8) + le16(info.len() as u16) + le16(
        info.len() as u16,
    ) + le32((48 + name.len()) as u32) + name + info
}

/// The body of a response to SESSION_SETUP.
pub open spec fn setup_body(flags: u16, token: Seq<u8>) -> Seq<u8> {
    le16(9) + le16(flags) + le16((SMB2_HEADER_SIZE + 8) as u16) + le16(token.len() as u16) + token
}

/// Handling SESSION_SETUP: a client that starts the exchange gets a challenge,
/// with its own flags echoed; any other is accepted as a guest.
pub open spec fn setup_step(m: SessionModel, hdr: Smb2Header, body: Seq<u8>, t: Moment) -> (
    SessionModel,
    StepView,
) {
    let h = Smb2Header { session_id: m.session_id, ..hdr };
    let token = setup_token(body);
    if ntlmssp_type(token) == Some(1u32) {
        (
            SessionModel { auth_phase: m.auth_phase.wrapping_add(1), ..m },
            answered(
                h,
                STATUS_MORE_PROCESSING,
                setup_body(
                    0,
                    challenge_token(ntlmssp_challenge(t.wall, challenge_flags(client_flags(token)))),
                ),
            ),
        )
    } else {
        (
            SessionModel { auth_phase: 0, ..m },
            answered(h, STATUS_SUCCESS, setup_body(1, accept_token())),
        )
    }
}

fn put_target_entry(out: &mut Vec<u8>, id: u16, value: &[u8])
    ensures
        final(out)@ == old(out)@ + target_entry(id, value@),
{
    put_u16_le(out, id);
    put_u16_le(
        out,
        #[verifier::truncate]
        (value.len() as u16),
    );
    put_all(out, value);
    assert(out@ =~= old(out)@ + target_entry(id, value@));
}

pub(crate) proof fn lemma_name_lengths()
    ensures
        utf16le("SSHFS"@).len() == 10,
        utf16le("sshfs"@).len() == 10,
{
    reveal_strlit("SSHFS");
    reveal_strlit("sshfs");
    lemma_ascii_length("SSHFS"@);
    lemma_ascii_length("sshfs"@);
}

proof fn lemma_ascii_length(s: Seq<char>)
    requires
        forall|i: int| 0 <= i < s.len() ==> (#[trigger] s[i] as int) < 128,
    ensures
        utf16le(s).len() == 2 * s.len(),
    decreases s.len(),
{
    crate::utf16::law_text_reads_back(s);
    lemma_ascii_units(s);
}

proof fn lemma_ascii_units(s: Seq<char>)
    requires
        forall|i: int| 0 <= i < s.len() ==> (#[trigger] s[i] as int) < 128,
    ensures
        crate::utf16::text_units(s).len() == s.len(),
    decreases s.len(),
{
    if s.len() > 0 {
        assert forall|i: int| 0 <= i < s.skip(1).len() implies (#[trigger] s.skip(1)[i] as int)
            < 128 by {
            assert(s.skip(1)[i] == s[i + 1]);
        }
        lemma_ascii_units(s.skip(1));
    }
}

fn put_target_info(wall: u64) -> (out: Vec<u8>)
    ensures
        out@ == target_info(wall),
        out@.len() < 100,
{
    let upper = to_utf16le("SSHFS");
    let lower = to_utf16le("sshfs");
    let nothing: Vec<u8> = Vec::new();
    assert(nothing@ =~= Seq::empty());
    let mut time: Vec<u8> = Vec::new();
    put_u64_le(&mut time, unix_to_filetime(wall));
    assert(time@ =~= le64(filetime(wall)));
    let mut out: Vec<u8> = Vec::new();
    put_target_entry(&mut out, 2, &upper);
    assert(out@ =~= target_entry(2, upper@));
    put_target_entry(&mut out, 1, &upper);
    put_target_entry(&mut out, 4, &nothing);
    put_target_entry(&mut out, 3, &lower);
    put_target_entry(&mut out, 7, &time);
    put_target_entry(&mut out, 0, &nothing);
    proof {
        lemma_name_lengths();
    }
    out
}

fn put_challenge(wall: u64, flags: u32) -> (out: Vec<u8>)
    ensures
        out@ == ntlmssp_challenge(wall, flags),
        out@.len() < 200,
{
    let name = to_utf16le("SSHFS");
    let info = put_target_info(wall);
    proof {
        lemma_name_lengths();
    }
    let mut out: Vec<u8> = Vec::new();
    out.push(0x4E);
    out.push(0x54);
    out.push(0x4C);
    out.push(0x4D);
    out.push(0x53);
    out.push(0x53);
    out.push(0x50);
    out.push(0);
    assert(out@ =~= ntlmssp_signature());
    put_u32_le(&mut out, 2);
    put_u16_le(&mut out, name.len() as u16);
    put_u16_le(&mut out, name.len() as u16);
    put_u32_le(&mut out, 48);
    put_u32_le(&mut out, flags);
    let mut random: Vec<u8> = Vec::new();
    random.push(0x01);
    random.push(0x23);
    random.push(0x45);
    random.push(0x67);
    random.push(0x89);
    random.push(0xab);
    random.push(0xcd);
    random.push(0xef);
    assert(random@ =~= server_challenge());
    put_all(&mut out, &random);
    put_zeros(&mut out, 8);
    put_u16_le(&mut out, info.len() as u16);
    put_u16_le(&mut out, info.len() as u16);
    put_u32_le(&mut out, 48 + name.len() as u32);
    put_all(&mut out, &name);
    put_all(&mut out, &info);
    out
}

fn put_setup_body(flags: u16, token: &[u8]) -> (out: Vec<u8>)
    ensures
        out@ == setup_body(flags, token@),
{
    let mut out: Vec<u8> = Vec::new();
    put_u16_le(&mut out, 9);
    assert(out@ =~= le16(9));
    put_u16_le(&mut out, flags);
    put_u16_le(&mut out, (SMB2_HEADER_SIZE + 8) as u16);
    put_u16_le(
        &mut out,
        #[verifier::truncate]
        (token.len() as u16),
    );
    put_all(&mut out, token);
    out
}

// ── TREE_CONNECT ────────────────────────────────────────────────────

/// Says whether a TREE_CONNECT request names the share of pipes.
pub open spec fn names_ipc(body: Seq<u8>) -> bool {
    &&& body.len() >= 8
    &&& pointed_at(body, le16_at(body, 4) as nat, le16_at(body, 6) as nat) matches Some(path)
    &&& ends_with(upper_all(utf16le_text(path)), "\\IPC$"@)
}

/// The body of a response to TREE_CONNECT.
pub open spec fn tree_body(share_type: u8) -> Seq<u8> {
    le16(16) + seq![share_type] + seq![0u8] + le32(0x30) + le32(0) + le32(0x001F_01FF)
}

/// Handling TREE_CONNECT: the share of pipes gets a tree of its own each time,
/// any other name leads to the one share that there is.
pub open spec fn tree_connect_step(m: SessionModel, hdr: Smb2Header, body: Seq<u8>) -> (
    SessionModel,
    StepView,
) {
    if names_ipc(body) {
        (
            SessionModel {
                next_tree_id: (m.next_tree_id + 1) as u32,
                ipc_tree_id: Some(m.next_tree_id),
                ..m
            },
            answered(
                Smb2Header { tree_id: m.next_tree_id, ..hdr },
                STATUS_SUCCESS,
                tree_body(2),
            ),
        )
    } else {
        (m, answered(Smb2Header { tree_id: m.tree_id, ..hdr }, STATUS_SUCCESS, tree_body(1)))
    }
}

fn ends_in_ipc(path: &str) -> (r: bool)
    ensures
        r == ends_with(upper_all(path@), "\\IPC$"@),
{
    let chars = chars_of(path);
    let mut up: Vec<char> = Vec::new();
    let mut i: usize = 0;
    while i < chars.len()
        invariant
            i <= chars@.len(),
            up@ == upper_all(chars@).take(i as int),
        decreases chars@.len() - i,
    {
        up.push(to_upper(chars[i]));
        i += 1;
        assert(up@ =~= upper_all(chars@).take(i as int));
    }
    assert(up@ =~= upper_all(path@));
    let ipc = chars_of("\\IPC$");
    if up.len() < ipc.len() {
        return false;
    }
    text_at(&up, &ipc, up.len() - ipc.len())
}

fn asks_for_ipc(body: &[u8]) -> (r: bool)
    ensures
        r == names_ipc(body@),
{
    if body.len() < 8 {
        return false;
    }
    match find_part(body, read_u16_le(body, 4) as u32, read_u16_le(body, 6) as u32) {
        Some(p) => ends_in_ipc(&from_utf16le(p)),
        None => false,
    }
}

impl SmbSession {
    /// Answers NEGOTIATE: the dialect is always the simplest one.
    pub fn handle_negotiate(&self, hdr: &Smb2Header, t: Moment) -> (s: Step)
        ensures
            s@ == answered(*hdr, STATUS_SUCCESS, negotiate_body(SMB2_DIALECT_202, t.wall)),
    {
        let body = build_negotiate_body(SMB2_DIALECT_202, t.wall);
        answer(hdr, STATUS_SUCCESS, &body)
    }

    /// Answers SESSION_SETUP.
    pub fn handle_session_setup(&mut self, hdr: &Smb2Header, body: &[u8], t: Moment) -> (s: Step)
        ensures
            (final(self)@, s@) == setup_step(old(self)@, *hdr, body@, t),
    {
        self.auth_phase = self.auth_phase.wrapping_add(1);
        let offset = if body.len() >= 14 {
            read_u16_le(body, 12)
        } else {
            0
        };
        let length = if body.len() >= 16 {
            read_u16_le(body, 14)
        } else {
            0
        };
        let nothing: Vec<u8> = Vec::new();
        assert(nothing@ =~= Seq::empty());
        let token = match find_part(body, offset as u32, length as u32) {
            Some(token) => token,
            None => &nothing,
        };
        let (kind, client) = read_ntlmssp(token);
        let h = Smb2Header { session_id: self.session_id, ..*hdr };
        let starts = match kind {
            Some(n) => n == 1,
            None => false,
        };
        if starts {
            let flags = (client & !NTLMSSP_VERSION) | NTLMSSP_TARGET_TYPE_SERVER
                | NTLMSSP_TARGET_INFO;
            let challenge = put_challenge(t.wall, flags);
            let token = wrap_ntlmssp_in_spnego(&challenge);
            let resp = put_setup_body(0, &token);
            answer(&h, STATUS_MORE_PROCESSING, &resp)
        } else {
            self.auth_phase = 0;
            let token = spnego_accept_complete();
            let resp = put_setup_body(1, &token);
            answer(&h, STATUS_SUCCESS, &resp)
        }
    }

    fn answer_plainly(hdr: &Smb2Header) -> (s: Step)
        ensures
            s@ == answered(*hdr, STATUS_SUCCESS, plain_body()),
    {
        let mut resp: Vec<u8> = Vec::new();
        put_u16_le(&mut resp, 4);
        put_u16_le(&mut resp, 0);
        assert(resp@ =~= plain_body());
        answer(hdr, STATUS_SUCCESS, &resp)
    }

    /// Answers LOGOFF.
    pub fn handle_logoff(&self, hdr: &Smb2Header) -> (s: Step)
        ensures
            s@ == answered(*hdr, STATUS_SUCCESS, plain_body()),
    {
        Self::answer_plainly(hdr)
    }

    /// Answers TREE_CONNECT.
    pub fn handle_tree_connect(&mut self, hdr: &Smb2Header, body: &[u8]) -> (s: Step)
        requires
            old(self).next_tree_id < u32::MAX,
        ensures
            (final(self)@, s@) == tree_connect_step(old(self)@, *hdr, body@),
    {
        let mut tid = self.tree_id;
        let mut share_type: u8 = 1;
        if asks_for_ipc(body) {
            tid = self.next_tree_id;
            share_type = 2;
            self.next_tree_id = tid + 1;
            self.ipc_tree_id = Some(tid);
        }
        let mut resp: Vec<u8> = Vec::new();
        put_u16_le(&mut resp, 16);
        put_u8(&mut resp, share_type);
        put_u8(&mut resp, 0);
        put_u32_le(&mut resp, 0x30);
        put_u32_le(&mut resp, 0);
        put_u32_le(&mut resp, 0x001F_01FF);
        assert(resp@ =~= tree_body(share_type));
        let h = Smb2Header { tree_id: tid, ..*hdr };
        answer(&h, STATUS_SUCCESS, &resp)
    }

    /// Answers TREE_DISCONNECT.
    pub fn handle_tree_disconnect(&self, hdr: &Smb2Header) -> (s: Step)
        ensures
            s@ == answered(*hdr, STATUS_SUCCESS, plain_body()),
    {
        Self::answer_plainly(hdr)
    }

    /// Answers FLUSH: what was written went out at once.
    pub fn handle_flush(&self, hdr: &Smb2Header) -> (s: Step)
        ensures
            s@ == answered(*hdr, STATUS_SUCCESS, plain_body()),
    {
        Self::answer_plainly(hdr)
    }

    /// Answers LOCK: every lock is granted.
    pub fn handle_lock(&self, hdr: &Smb2Header) -> (s: Step)
        ensures
            s@ == answered(*hdr, STATUS_SUCCESS, plain_body()),
    {
        Self::answer_plainly(hdr)
    }
}

} // verus!

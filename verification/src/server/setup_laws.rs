//! How a client and the share come to terms: what every answer carries, the
//! negotiation, the setup of a session, and the shares that there are.

use crate::bytes::{
    lemma_le16_in, lemma_le32_in, lemma_le64_in, le16, le16_at, le32, le32_at, le64, le64_at,
};
use crate::server::asked::{
    body_in, carried, has_part, is_request, lemma_fields, lemma_refusal, lemma_reply, lemma_request,
    part_at, request_header, status_in,
};
use crate::server::create_laws::ticks;
use crate::server::dispatch::{
    is_answer, law_every_request_is_answered, law_waiting_requests_are_answered, message_step,
    resume_step,
};
use crate::server::setup::{
    challenge_flags, lemma_name_lengths, names_ipc, ntlmssp_challenge, ntlmssp_signature,
    ntlmssp_start, ntlmssp_type, setup_body, setup_step, setup_token, target_info, tree_body,
};
use crate::server::state::{counted, SessionModel};
use crate::server::step::{answered, plain_body, Moment, StepView};
use crate::sftp::call::ReplyView;
use crate::smb2::{
    accept_token, challenge_token, der, filetime, header_of, law_responses_have_fixed_places,
    negotiate_body, response, smb2_magic, Smb2Header, STATUS_MORE_PROCESSING, STATUS_NOT_SUPPORTED,
    STATUS_SUCCESS,
};
use crate::text::{ends_with, upper_all};
use crate::utf16::{law_text_reads_back, utf16le, utf16le_text};
use vstd::prelude::*;

verus! {

proof fn lemma_stays(
    m: SessionModel,
    s: StepView,
    replies: Seq<(ReplyView, Moment)>,
    hdr: Smb2Header,
)
    requires
        match s {
            StepView::Reply(r) => is_answer(r, hdr),
            StepView::Ask(_, g, _) => g == hdr,
        },
    ensures
        match carried(m, s, replies).1 {
            StepView::Reply(r) => is_answer(r, hdr),
            StepView::Ask(_, g, _) => g == hdr,
        },
    decreases replies.len(),
{
    if replies.len() > 0 {
        if let StepView::Ask(_, g, next) = s {
            law_waiting_requests_are_answered(m, g, next, replies[0].0, replies[0].1);
            let (o, u) = resume_step(m, g, next, replies[0].0, replies[0].1);
            lemma_stays(o, u, replies.skip(1), hdr);
        }
    }
}

/// Whatever the remote side replies, what a client gets is the answer to its own
/// request: the command, the number and the process in it are those of the
/// request, and so are the tree and the session, but where they are given out.
pub proof fn law_clients_know_their_answers(
    m: SessionModel,
    msg: Seq<u8>,
    t: Moment,
    replies: Seq<(ReplyView, Moment)>,
)
    requires
        msg.len() >= 64,
        msg[0] == 0xFE && msg[1] == 0x53 && msg[2] == 0x4D && msg[3] == 0x42,
    ensures
        ({
            let (o, s) = message_step(m, msg, t);
            let (_, u) = carried(o, s, replies);
            u matches StepView::Reply(r) ==> {
                &&& r.len() >= 68
                &&& r[4] == 0xFE && r[5] == 0x53 && r[6] == 0x4D && r[7] == 0x42
                &&& le16_at(r, 10) == le16_at(msg, 6)
                &&& le16_at(r, 16) == le16_at(msg, 12)
                &&& le16_at(msg, 14) > 0 ==> le16_at(r, 18) == le16_at(msg, 14)
                &&& le16_at(r, 18) > 0
                &&& le32_at(r, 20) & 1 == 1
                &&& le64_at(r, 28) == le64_at(msg, 24)
                &&& le32_at(r, 36) == le32_at(msg, 32)
                &&& le16_at(msg, 12) != 3 ==> le32_at(r, 40) == le32_at(msg, 36)
                &&& le16_at(msg, 12) != 1 ==> le64_at(r, 44) == le64_at(msg, 40)
            }
        }),
{
    assert(msg.take(4) =~= smb2_magic());
    let hdr = header_of(msg).unwrap();
    law_every_request_is_answered(m, msg, t);
    let (o, s) = message_step(m, msg, t);
    lemma_stays(o, s, replies, hdr);
}

/// A request that has nothing to do here is answered with success: the end of a
/// session or of a tree, a flush, a lock. One that is not known is refused.
pub proof fn law_other_commands(m: SessionModel, msg: Seq<u8>, t: Moment, command: u16)
    requires
        is_request(msg, command),
        command == 2 || command == 4 || command == 7 || command == 10 || command == 12 || command
            == 13 || command == 15 || command > 17,
    ensures
        ({
            let (o, s) = message_step(m, msg, t);
            &&& o.handles == m.handles
            &&& s matches StepView::Reply(r) && if command == 2 || command == 4 || command == 7
                || command == 10 {
                status_in(r) == 0 && r.len() == 72 && le16_at(body_in(r), 0) == 4
            } else {
                status_in(r) == 0xC000_00BB
            }
        }),
{
    lemma_request(m, msg, command, t);
    let hdr = request_header(msg);
    lemma_refusal(hdr, STATUS_NOT_SUPPORTED);
    let b = plain_body();
    lemma_reply(hdr, STATUS_SUCCESS, b);
    assert(b.subrange(0, 2) =~= le16(4));
    lemma_le16_in(b, 0, 4);
}

/// The body of an answer to a negotiation: the dialect, 8 MiB as the largest
/// transfers, the time, and at the end the token that it gives the length of.
#[verifier::opaque]
pub open spec fn is_negotiation(b: Seq<u8>, dialect: u16, now: u32) -> bool {
    &&& b.len() > 64
    &&& le16_at(b, 0) == 65
    &&& le16_at(b, 2) == 1
    &&& le16_at(b, 4) == dialect
    &&& le32_at(b, 24) == 7
    &&& le32_at(b, 28) == 0x80_0000
    &&& le32_at(b, 32) == 0x80_0000
    &&& le32_at(b, 36) == 0x80_0000
    &&& le64_at(b, 40) == ticks(now)
    &&& le16_at(b, 56) == 64 + 64
    &&& le16_at(b, 58) == b.len() - 64
}

proof fn lemma_negotiate_body(dialect: u16, now: u32)
    ensures
        is_negotiation(negotiate_body(dialect, now as u64), dialect, now),
{
    reveal(is_negotiation);
    let b = negotiate_body(dialect, now as u64);
    let token = crate::smb2::negotiate_token();
    let time = filetime(now as u64);
    assert(0 < token.len() < 0x100);
    assert(b.subrange(0, 2) =~= le16(65));
    assert(b.subrange(2, 4) =~= le16(1));
    assert(b.subrange(4, 6) =~= le16(dialect));
    assert(b.subrange(24, 28) =~= le32(7));
    assert(b.subrange(28, 32) =~= le32(0x80_0000));
    assert(b.subrange(32, 36) =~= le32(0x80_0000));
    assert(b.subrange(36, 40) =~= le32(0x80_0000));
    assert(b.subrange(40, 48) =~= le64(time));
    assert(b.subrange(56, 58) =~= le16(128));
    assert(b.subrange(58, 60) =~= le16(token.len() as u16));
    lemma_le16_in(b, 0, 65);
    lemma_le16_in(b, 2, 1);
    lemma_le16_in(b, 4, dialect);
    lemma_le32_in(b, 24, 7);
    lemma_le32_in(b, 28, 0x80_0000);
    lemma_le32_in(b, 32, 0x80_0000);
    lemma_le32_in(b, 36, 0x80_0000);
    lemma_le64_in(b, 40, time);
    lemma_le16_in(b, 56, 128);
    lemma_le16_in(b, 58, token.len() as u16);
}

/// The negotiation succeeds, settles on dialect 2.0.2 and changes nothing.
#[verifier::rlimit(40)]
pub proof fn law_negotiation_settles(m: SessionModel, msg: Seq<u8>, t: Moment)
    requires
        is_request(msg, 0),
        t.wall <= u32::MAX,
    ensures
        ({
            let (o, s) = message_step(m, msg, t);
            &&& o.handles == m.handles
            &&& s matches StepView::Reply(r) && status_in(r) == 0 && is_negotiation(
                body_in(r),
                0x0202,
                t.wall as u32,
            )
        }),
{
    lemma_request(m, msg, 0, t);
    let hdr = request_header(msg);
    lemma_negotiate_body(0x0202, t.wall as u32);
    lemma_reply(hdr, STATUS_SUCCESS, negotiate_body(0x0202, t.wall));
}

/// A client of the old protocol is answered in the new one, as if it had sent the
/// first message of it, and told by the dialect to negotiate again.
pub proof fn law_old_clients_are_told_to_go_on(now: u32)
    ensures
        ({
            let r = response(
                crate::smb2::blank_header(),
                STATUS_SUCCESS,
                negotiate_body(crate::smb2::SMB2_DIALECT_WILDCARD, now as u64),
            );
            &&& r[4] == 0xFE && r[5] == 0x53 && r[6] == 0x4D && r[7] == 0x42
            &&& status_in(r) == 0
            &&& le16_at(r, 16) == 0
            &&& le16_at(r, 18) == 1
            &&& le32_at(r, 20) & 1 == 1
            &&& le64_at(r, 28) == 0
            &&& is_negotiation(body_in(r), 0x02FF, now)
        }),
{
    lemma_negotiate_body(0x02FF, now);
    law_responses_have_fixed_places(
        crate::smb2::blank_header(),
        STATUS_SUCCESS,
        negotiate_body(0x02FF, now as u64),
    );
}

/// The path that a TREE_CONNECT request names.
pub open spec fn asked_share(msg: Seq<u8>) -> Seq<char> {
    utf16le_text(part_at(msg, le16_at(msg, 68) as int, le16_at(msg, 70) as int))
}

/// An answer to TREE_CONNECT, with that tree and that kind of share.
#[verifier::opaque]
pub open spec fn is_tree_answer(r: Seq<u8>, tree: u32, kind: u8) -> bool {
    let b = body_in(r);
    &&& status_in(r) == 0
    &&& r.len() == 68 + 16
    &&& le32_at(r, 40) == tree
    &&& le16_at(b, 0) == 16
    &&& b[2] == kind
    &&& le32_at(b, 4) == 0x30
    &&& le32_at(b, 12) == 0x001F_01FF
}

proof fn lemma_tree_answer(hdr: Smb2Header, kind: u8)
    ensures
        answered(hdr, STATUS_SUCCESS, tree_body(kind)) matches StepView::Reply(r)
            && is_tree_answer(r, hdr.tree_id, kind),
{
    reveal(is_tree_answer);
    let b = tree_body(kind);
    lemma_reply(hdr, STATUS_SUCCESS, b);
    law_responses_have_fixed_places(hdr, STATUS_SUCCESS, b);
    assert(b.subrange(0, 2) =~= le16(16));
    assert(b.subrange(4, 8) =~= le32(0x30));
    assert(b.subrange(12, 16) =~= le32(0x001F_01FF));
    lemma_le16_in(b, 0, 16);
    lemma_le32_in(b, 4, 0x30);
    lemma_le32_in(b, 12, 0x001F_01FF);
}

proof fn lemma_share(msg: Seq<u8>)
    requires
        msg.len() >= 72,
        has_part(msg, le16_at(msg, 68) as int, le16_at(msg, 70) as int),
    ensures
        names_ipc(msg.skip(64)) == ends_with(upper_all(asked_share(msg)), "\\IPC$"@),
{
    lemma_fields(msg, 4);
    lemma_fields(msg, 6);
    let at = le16_at(msg, 68) as int;
    let n = le16_at(msg, 70) as int;
    let start: int = if at < 64 {
        0
    } else {
        at - 64
    };
    assert(msg.skip(64).subrange(start, start + n) =~= part_at(msg, at, n));
}

/// Whoever connects to `IPC$`, in either case, gets a tree of its own, which is
/// for pipes. Every other name leads to the share of files.
#[verifier::rlimit(40)]
pub proof fn law_trees_are_told_apart(m: SessionModel, msg: Seq<u8>, t: Moment)
    requires
        is_request(msg, 3),
        msg.len() >= 72,
        has_part(msg, le16_at(msg, 68) as int, le16_at(msg, 70) as int),
        m.next_tree_id < u32::MAX,
    ensures
        ({
            let (o, s) = message_step(m, msg, t);
            &&& if ends_with(upper_all(asked_share(msg)), "\\IPC$"@) {
                &&& s matches StepView::Reply(r) && is_tree_answer(r, m.next_tree_id, 2)
                &&& o.ipc_tree_id == Some(m.next_tree_id)
                &&& o.next_tree_id == m.next_tree_id + 1
            } else {
                &&& s matches StepView::Reply(r) && is_tree_answer(r, m.tree_id, 1)
                &&& o.ipc_tree_id == m.ipc_tree_id
                &&& o.next_tree_id == m.next_tree_id
            }
            &&& o.tree_id == m.tree_id
            &&& o.handles == m.handles
        }),
{
    lemma_request(m, msg, 3, t);
    lemma_share(msg);
    let hdr = request_header(msg);
    lemma_tree_answer(Smb2Header { tree_id: m.next_tree_id, ..hdr }, 2);
    lemma_tree_answer(Smb2Header { tree_id: m.tree_id, ..hdr }, 1);
}

// ── Tokens ──────────────────────────────────────────────────────────

/// How many bytes the length of the DER value at `at` takes.
pub open spec fn der_head(b: Seq<u8>, at: int) -> int {
    if b[at + 1] == 0x81 {
        3
    } else if b[at + 1] == 0x82 {
        4
    } else {
        2
    }
}

/// How long the content of the DER value at `at` is.
pub open spec fn der_len(b: Seq<u8>, at: int) -> int {
    if b[at + 1] == 0x81 {
        b[at + 2] as int
    } else if b[at + 1] == 0x82 {
        b[at + 2] * 0x100 + b[at + 3]
    } else {
        b[at + 1] as int
    }
}

/// Where the DER value at `at` ends.
pub open spec fn der_end(b: Seq<u8>, at: int) -> int {
    at + der_head(b, at) + der_len(b, at)
}

/// The content of the DER value at `at`.
pub open spec fn der_content(b: Seq<u8>, at: int) -> Seq<u8> {
    b.subrange(at + der_head(b, at), der_end(b, at))
}

/// A value that was written in DER reads back, with its tag, wherever it stands.
pub proof fn law_der_reads_back(pre: Seq<u8>, tag: u8, content: Seq<u8>, tail: Seq<u8>)
    requires
        content.len() < 0x1_0000,
    ensures
        ({
            let b = pre + der(tag, content) + tail;
            let at = pre.len() as int;
            &&& b[at] == tag
            &&& der_content(b, at) == content
            &&& der_end(b, at) == at + der(tag, content).len()
            &&& der(tag, content).len() <= content.len() + 4
        }),
{
    let b = pre + der(tag, content) + tail;
    let at = pre.len() as int;
    let n = content.len() as int;
    assert(b[at + 1] == crate::smb2::der_length(content.len())[0]);
    if n >= 0x100 {
        assert(b[at + 2] == (n / 0x100) as u8 && b[at + 3] == (n % 0x100) as u8);
    } else if n >= 0x80 {
        assert(b[at + 2] == n as u8);
    }
    assert(der_content(b, at) =~= content);
}

/// The token says that more is to come, names NTLMSSP as the mechanism, and
/// carries the message.
pub open spec fn wraps(token: Seq<u8>, message: Seq<u8>) -> bool {
    let list = der_content(token, 0);
    let parts = der_content(list, 0);
    let second = der_end(parts, 0);
    let third = der_end(parts, second);
    &&& token[0] == 0xa1
    &&& der_end(token, 0) == token.len()
    &&& list[0] == 0x30
    &&& parts[0] == 0xa0
    &&& der_content(parts, 0) == seq![0x0au8, 1u8, 1u8]
    &&& parts[second] == 0xa1
    &&& der_content(parts, second) == seq![
        0x06u8,
        0x0au8,
        0x2bu8,
        0x06u8,
        0x01u8,
        0x04u8,
        0x01u8,
        0x82u8,
        0x37u8,
        0x02u8,
        0x02u8,
        0x0au8,
    ]
    &&& parts[third] == 0xa2
    &&& der_content(parts, third)[0] == 0x04
    &&& der_content(der_content(parts, third), 0) == message
}

proof fn lemma_der_alone(tag: u8, content: Seq<u8>)
    requires
        content.len() < 0x1_0000,
    ensures
        der(tag, content)[0] == tag,
        der_content(der(tag, content), 0) == content,
        der_end(der(tag, content), 0) == der(tag, content).len(),
        der(tag, content).len() <= content.len() + 4,
{
    let d = der(tag, content);
    assert(Seq::<u8>::empty() + d + Seq::<u8>::empty() =~= d);
    law_der_reads_back(Seq::empty(), tag, content, Seq::empty());
}

#[verifier::rlimit(40)]
proof fn lemma_wraps(message: Seq<u8>)
    requires
        message.len() < 0x1000,
    ensures
        wraps(challenge_token(message), message),
        challenge_token(message).len() < 0x2000,
{
    let state = der(0x0a, seq![1u8]);
    let oid = crate::smb2::ntlmssp_oid();
    let text = der(0x04, message);
    let a = der(0xa0, state);
    let b = der(0xa1, oid);
    let c = der(0xa2, text);
    let parts = a + b + c;
    lemma_der_alone(0x0a, seq![1u8]);
    assert(state =~= seq![0x0au8, 1u8, 1u8]);
    lemma_der_alone(0x04, message);
    assert(Seq::<u8>::empty() + a + (b + c) =~= parts);
    law_der_reads_back(Seq::empty(), 0xa0, state, b + c);
    law_der_reads_back(a, 0xa1, oid, c);
    assert((a + b) + c + Seq::<u8>::empty() =~= parts);
    law_der_reads_back(a + b, 0xa2, text, Seq::empty());
    lemma_der_alone(0x30, parts);
    lemma_der_alone(0xa1, der(0x30, parts));
}

/// The bytes that every NTLMSSP message starts with.
pub open spec fn is_ntlmssp(b: Seq<u8>, at: int) -> bool {
    &&& 0 <= at
    &&& at + 12 <= b.len()
    &&& b[at] == 0x4E && b[at + 1] == 0x54 && b[at + 2] == 0x4C && b[at + 3] == 0x4D
    &&& b[at + 4] == 0x53 && b[at + 5] == 0x53 && b[at + 6] == 0x50 && b[at + 7] == 0
}

/// The first message within a token stands at `at`.
pub open spec fn first_message(b: Seq<u8>, at: int) -> bool {
    &&& is_ntlmssp(b, at)
    &&& forall|i: int| 0 <= i < at ==> !is_ntlmssp(b, i)
}

proof fn lemma_is_ntlmssp(b: Seq<u8>, at: int)
    requires
        0 <= at,
        at + 12 <= b.len(),
    ensures
        is_ntlmssp(b, at) == (b.subrange(at, at + 8) == ntlmssp_signature()),
{
    let p = b.subrange(at, at + 8);
    assert(forall|i: int| 0 <= i < 8 ==> p[i] == b[at + i]);
    if is_ntlmssp(b, at) {
        assert(p =~= ntlmssp_signature());
    } else if p == ntlmssp_signature() {
        assert(p[0] == 0x4E && p[1] == 0x54 && p[2] == 0x4C && p[3] == 0x4D && p[4] == 0x53 && p[5]
            == 0x53 && p[6] == 0x50 && p[7] == 0);
    }
}

proof fn lemma_start(b: Seq<u8>, from: int, at: int)
    requires
        0 <= from <= at,
        first_message(b, at),
    ensures
        ntlmssp_start(b, from) == Some(at),
    decreases at - from,
{
    lemma_is_ntlmssp(b, from);
    if from < at {
        assert(!is_ntlmssp(b, from));
        lemma_start(b, from + 1, at);
    }
}

proof fn lemma_no_start(b: Seq<u8>, from: int)
    requires
        0 <= from,
        forall|i: int| !is_ntlmssp(b, i),
    ensures
        ntlmssp_start(b, from) is None,
    decreases b.len() - from,
{
    if from + 12 <= b.len() {
        lemma_is_ntlmssp(b, from);
        assert(!is_ntlmssp(b, from));
        lemma_no_start(b, from + 1);
    }
}

/// A challenge to a client with those flags: it comes from a server that tells
/// of itself, claims no version, and agrees to all else that the client offers.
pub open spec fn is_challenge(c: Seq<u8>, flags: u32) -> bool {
    let own = le32_at(c, 20);
    let name = le32_at(c, 16) as int;
    &&& is_ntlmssp(c, 0)
    &&& c.len() >= 48
    &&& le32_at(c, 8) == 2
    &&& own & 0x0082_0000 == 0x0082_0000
    &&& own & 0x0200_0000 == 0
    &&& own & 0xFD7D_FFFF == flags & 0xFD7D_FFFF
    &&& name + le16_at(c, 12) <= c.len()
    &&& utf16le_text(c.subrange(name, name + le16_at(c, 12))) == "SSHFS"@
    &&& le32_at(c, 44) + le16_at(c, 40) == c.len()
    &&& le32_at(c, 44) == name + le16_at(c, 12)
}

#[verifier::rlimit(40)]
proof fn lemma_challenge(wall: u64, client: u32)
    ensures
        is_challenge(ntlmssp_challenge(wall, challenge_flags(client)), client),
        ntlmssp_challenge(wall, challenge_flags(client)).len() < 0x1000,
{
    let flags = challenge_flags(client);
    let c = ntlmssp_challenge(wall, flags);
    let name = utf16le("SSHFS"@);
    let info = target_info(wall);
    lemma_name_lengths();
    law_text_reads_back("SSHFS"@);
    assert(info.len() < 0x100);
    assert(c.subrange(0, 8) =~= ntlmssp_signature());
    lemma_is_ntlmssp(c, 0);
    assert(c.subrange(8, 12) =~= le32(2));
    assert(c.subrange(12, 14) =~= le16(10));
    assert(c.subrange(16, 20) =~= le32(48));
    assert(c.subrange(20, 24) =~= le32(flags));
    assert(c.subrange(40, 42) =~= le16(info.len() as u16));
    assert(c.subrange(44, 48) =~= le32(58));
    assert(c.subrange(48, 58) =~= name);
    lemma_le32_in(c, 8, 2);
    lemma_le16_in(c, 12, 10);
    lemma_le32_in(c, 16, 48);
    lemma_le32_in(c, 20, flags);
    lemma_le16_in(c, 40, info.len() as u16);
    lemma_le32_in(c, 44, 58);
    assert(({
        let own = (client & !0x0200_0000u32) | 0x0002_0000u32 | 0x0080_0000u32;
        &&& own & 0x0082_0000 == 0x0082_0000
        &&& own & 0x0200_0000 == 0
        &&& own & 0xFD7D_FFFF == client & 0xFD7D_FFFF
    })) by (bit_vector);
}

/// The token of a SESSION_SETUP request; none where it does not lie within it.
pub open spec fn asked_token(msg: Seq<u8>) -> Seq<u8> {
    let at = le16_at(msg, 76) as int;
    let n = le16_at(msg, 78) as int;
    if has_part(msg, at, n) {
        part_at(msg, at, n)
    } else {
        Seq::empty()
    }
}

/// An answer to SESSION_SETUP, for that session, with that token.
#[verifier::opaque]
pub open spec fn is_setup_answer(
    r: Seq<u8>,
    session: u64,
    status: u32,
    flags: u16,
    token: Seq<u8>,
) -> bool {
    let b = body_in(r);
    &&& r.len() >= 76
    &&& status_in(r) == status
    &&& le64_at(r, 44) == session
    &&& le16_at(b, 0) == 9
    &&& le16_at(b, 2) == flags
    &&& le16_at(b, 4) == 72
    &&& le16_at(b, 6) == r.len() - 76
    &&& r.skip(76) == token
}

proof fn lemma_setup_answer(hdr: Smb2Header, status: u32, flags: u16, token: Seq<u8>)
    requires
        token.len() < 0x1_0000,
    ensures
        is_setup_answer(
            response(hdr, status, setup_body(flags, token)),
            hdr.session_id,
            status,
            flags,
            token,
        ),
        answered(hdr, status, setup_body(flags, token)) == StepView::Reply(
            response(hdr, status, setup_body(flags, token)),
        ),
{
    reveal(is_setup_answer);
    let b = setup_body(flags, token);
    let r = response(hdr, status, b);
    lemma_reply(hdr, status, b);
    law_responses_have_fixed_places(hdr, status, b);
    assert(b.subrange(0, 2) =~= le16(9));
    assert(b.subrange(2, 4) =~= le16(flags));
    assert(b.subrange(4, 6) =~= le16(72));
    assert(b.subrange(6, 8) =~= le16(token.len() as u16));
    lemma_le16_in(b, 0, 9);
    lemma_le16_in(b, 2, flags);
    lemma_le16_in(b, 4, 72);
    lemma_le16_in(b, 6, token.len() as u16);
    assert(b.skip(8) =~= token);
    assert(r.skip(76) =~= body_in(r).skip(8));
}

#[verifier::rlimit(40)]
proof fn lemma_setup(m: SessionModel, msg: Seq<u8>, t: Moment)
    requires
        is_request(msg, 1),
        msg.len() >= 80,
    ensures
        message_step(m, msg, t) == setup_step(
            counted(m, t.now),
            request_header(msg),
            msg.skip(64),
            t,
        ),
        setup_token(msg.skip(64)) == asked_token(msg),
        counted(m, t.now).session_id == m.session_id,
        counted(m, t.now).handles == m.handles,
{
    lemma_request(m, msg, 1, t);
    lemma_token(msg);
}

proof fn lemma_token(msg: Seq<u8>)
    requires
        msg.len() >= 80,
    ensures
        setup_token(msg.skip(64)) == asked_token(msg),
{
    lemma_fields(msg, 12);
    lemma_fields(msg, 14);
    let at = le16_at(msg, 76) as int;
    let n = le16_at(msg, 78) as int;
    let start: int = if at < 64 {
        0
    } else {
        at - 64
    };
    if start + n <= msg.skip(64).len() {
        assert(msg.skip(64).subrange(start, start + n) =~= part_at(msg, at, n));
    }
}

/// A client that starts the exchange of NTLMSSP messages is told that more is to
/// come and gets a challenge, which goes by the flags that the client sent.
#[verifier::rlimit(40)]
pub proof fn law_clients_are_challenged(m: SessionModel, msg: Seq<u8>, t: Moment, at: int)
    requires
        is_request(msg, 1),
        msg.len() >= 80,
        first_message(asked_token(msg), at),
        le32_at(asked_token(msg), at + 8) == 1,
        at + 16 <= asked_token(msg).len(),
    ensures
        ({
            let (o, s) = message_step(m, msg, t);
            &&& o.handles == m.handles
            &&& s matches StepView::Reply(r) && exists|token: Seq<u8>, c: Seq<u8>|
                #![trigger wraps(token, c)]
                {
                    &&& is_setup_answer(r, m.session_id, 0xC000_0016, 0, token)
                    &&& wraps(token, c)
                    &&& is_challenge(c, le32_at(asked_token(msg), at + 12))
                }
        }),
{
    lemma_setup(m, msg, t);
    lemma_start(asked_token(msg), 0, at);
    let client = le32_at(asked_token(msg), at + 12);
    let c = ntlmssp_challenge(t.wall, challenge_flags(client));
    lemma_challenge(t.wall, client);
    lemma_wraps(c);
    let token = challenge_token(c);
    let hdr = Smb2Header { session_id: m.session_id, ..request_header(msg) };
    lemma_setup_answer(hdr, STATUS_MORE_PROCESSING, 0, token);
    assert(wraps(token, c));
}

/// The token that ends the exchange: the client is accepted.
#[verifier::opaque]
pub open spec fn accepts(token: Seq<u8>) -> bool {
    token == seq![0xa1u8, 7u8, 0x30u8, 5u8, 0xa0u8, 3u8, 0x0au8, 1u8, 0u8]
}

proof fn lemma_accept_token()
    ensures
        accepts(accept_token()),
        accept_token().len() == 9,
{
    reveal(accepts);
    let a = der(0x0a, seq![0u8]);
    assert(a =~= seq![0x0au8, 1u8, 0u8]);
    let b = der(0xa0, a);
    assert(b =~= seq![0xa0u8, 3u8, 0x0au8, 1u8, 0u8]);
    let c = der(0x30, b);
    assert(c =~= seq![0x30u8, 5u8, 0xa0u8, 3u8, 0x0au8, 1u8, 0u8]);
    assert(accept_token() =~= seq![0xa1u8, 7u8, 0x30u8, 5u8, 0xa0u8, 3u8, 0x0au8, 1u8, 0u8]);
}

/// The token holds no message that starts an exchange.
pub open spec fn starts_nothing(token: Seq<u8>) -> bool {
    ||| forall|i: int| !is_ntlmssp(token, i)
    ||| exists|at: int| #[trigger] first_message(token, at) && le32_at(token, at + 8) != 1
}

proof fn lemma_starts_nothing(token: Seq<u8>)
    requires
        starts_nothing(token),
    ensures
        ntlmssp_type(token) != Some(1u32),
{
    if exists|at: int| #[trigger] first_message(token, at) && le32_at(token, at + 8) != 1 {
        let at = choose|at: int| #[trigger] first_message(token, at) && le32_at(token, at + 8) != 1;
        lemma_start(token, 0, at);
    } else {
        lemma_no_start(token, 0);
    }
}

proof fn lemma_guest(m: SessionModel, hdr: Smb2Header, body: Seq<u8>, t: Moment)
    requires
        ntlmssp_type(setup_token(body)) != Some(1u32),
    ensures
        ({
            let (o, s) = setup_step(m, hdr, body, t);
            &&& o.handles == m.handles
            &&& s matches StepView::Reply(r) && is_setup_answer(
                r,
                m.session_id,
                0,
                1,
                accept_token(),
            )
        }),
{
    lemma_accept_token();
    lemma_setup_answer(
        Smb2Header { session_id: m.session_id, ..hdr },
        STATUS_SUCCESS,
        1,
        accept_token(),
    );
}

/// Every other client is let in as a guest.
#[verifier::rlimit(40)]
pub proof fn law_guests_are_let_in(m: SessionModel, msg: Seq<u8>, t: Moment)
    requires
        is_request(msg, 1),
        msg.len() >= 80,
        starts_nothing(asked_token(msg)),
    ensures
        ({
            let (o, s) = message_step(m, msg, t);
            &&& o.handles == m.handles
            &&& s matches StepView::Reply(r) && exists|token: Seq<u8>|
                #![trigger accepts(token)]
                accepts(token) && is_setup_answer(r, m.session_id, 0, 1, token)
        }),
{
    lemma_setup(m, msg, t);
    lemma_starts_nothing(asked_token(msg));
    lemma_guest(counted(m, t.now), request_header(msg), msg.skip(64), t);
    lemma_accept_token();
}

} // verus!

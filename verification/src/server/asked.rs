//! Requests and their answers as a client and the remote side see them: bytes
//! that come in, operations that are asked for, bytes that go out.

use crate::bytes::{le16_at, le32_at, le64_at};
use crate::server::dispatch::{command_step, message_step, resume_step};
use crate::server::state::{counted, SessionModel};
use crate::server::step::{answered, error_body, refused, Moment, StepView, ThenView};
use crate::sftp::call::{CallView, ReplyView};
use crate::smb2::{header_of, law_response_echoes_request, response, smb2_magic, Smb2Header};
use vstd::prelude::*;

verus! {

/// A message that holds a request with the given command.
pub open spec fn is_request(msg: Seq<u8>, command: u16) -> bool {
    &&& msg.len() >= 64
    &&& msg[0] == 0xFE && msg[1] == 0x53 && msg[2] == 0x4D && msg[3] == 0x42
    &&& le16_at(msg, 12) == command
}

/// The handle that a request means by a number: the last one that was made,
/// where all bits are set.
pub open spec fn meant(m: SessionModel, fid: u64) -> u64 {
    if fid == 0xFFFF_FFFF_FFFF_FFFF {
        m.last_create_handle
    } else {
        fid
    }
}

/// The part of a message from `at` on, which is counted from the start of the
/// message and never lies in its header.
pub open spec fn part_at(msg: Seq<u8>, at: int, n: int) -> Seq<u8> {
    let start = if at < 64 {
        64
    } else {
        at
    };
    msg.subrange(start, start + n)
}

/// The message holds that part.
pub open spec fn has_part(msg: Seq<u8>, at: int, n: int) -> bool {
    (if at < 64 {
        64
    } else {
        at
    }) + n <= msg.len()
}

/// The status in a response.
pub open spec fn status_in(r: Seq<u8>) -> u32 {
    le32_at(r, 12)
}

/// The body of a response, behind the length and the header.
pub open spec fn body_in(r: Seq<u8>) -> Seq<u8> {
    r.skip(68)
}

/// The step asks the remote side for the operation.
pub open spec fn asks(s: StepView, call: CallView) -> bool {
    s matches StepView::Ask(c, _, _) && c == call
}

/// Where a request stands, from one of its steps on, once the remote side has
/// replied to it so often.
pub open spec fn carried(
    m: SessionModel,
    s: StepView,
    replies: Seq<(ReplyView, Moment)>,
) -> (SessionModel, StepView)
    decreases replies.len(),
{
    if replies.len() == 0 {
        (m, s)
    } else {
        match s {
            StepView::Reply(_) => (m, s),
            StepView::Ask(_, hdr, next) => {
                let (o, u) = resume_step(m, hdr, next, replies[0].0, replies[0].1);
                carried(o, u, replies.skip(1))
            },
        }
    }
}

/// The header of a request.
pub(crate) open spec fn request_header(msg: Seq<u8>) -> Smb2Header {
    header_of(msg).unwrap()
}

pub(crate) proof fn lemma_request(m: SessionModel, msg: Seq<u8>, command: u16, t: Moment)
    requires
        is_request(msg, command),
    ensures
        header_of(msg) == Some(request_header(msg)),
        request_header(msg).command == command,
        request_header(msg).tree_id == le32_at(msg, 36),
        message_step(m, msg, t) == command_step(
            counted(m, t.now),
            request_header(msg),
            msg.skip(64),
            t,
        ),
        counted(m, t.now).handles == m.handles,
        counted(m, t.now).last_create_handle == m.last_create_handle,
        counted(m, t.now).next_handle == m.next_handle,
        counted(m, t.now).root == m.root,
        counted(m, t.now).share == m.share,
        counted(m, t.now).ipc_tree_id == m.ipc_tree_id,
        counted(m, t.now).tree_id == m.tree_id,
        counted(m, t.now).next_tree_id == m.next_tree_id,
        counted(m, t.now).session_id == m.session_id,
{
    assert(msg.take(4) =~= smb2_magic());
}

pub(crate) proof fn lemma_one_reply(
    m: SessionModel,
    call: CallView,
    hdr: Smb2Header,
    next: ThenView,
    reply: ReplyView,
    t: Moment,
)
    ensures
        carried(m, StepView::Ask(call, hdr, next), seq![(reply, t)]) == resume_step(
            m,
            hdr,
            next,
            reply,
            t,
        ),
{
    reveal_with_fuel(carried, 2);
    assert(seq![(reply, t)].skip(1).len() == 0);
}

pub(crate) proof fn lemma_fields(msg: Seq<u8>, at: int)
    requires
        0 <= at,
        msg.len() >= 64,
    ensures
        at + 2 <= msg.skip(64).len() ==> le16_at(msg.skip(64), at) == le16_at(msg, 64 + at),
        at + 4 <= msg.skip(64).len() ==> le32_at(msg.skip(64), at) == le32_at(msg, 64 + at),
        at + 8 <= msg.skip(64).len() ==> le64_at(msg.skip(64), at) == le64_at(msg, 64 + at),
{
}

pub(crate) proof fn lemma_reply(hdr: Smb2Header, status: u32, body: Seq<u8>)
    ensures
        ({
            let r = response(hdr, status, body);
            &&& answered(hdr, status, body) == StepView::Reply(r)
            &&& r.len() == 68 + body.len()
            &&& status_in(r) == status
            &&& body_in(r) == body
            &&& le16_at(r, 16) == hdr.command
        }),
{
    law_response_echoes_request(hdr, status, body);
    let r = response(hdr, status, body);
    assert(le32_at(r.skip(4), 8) == le32_at(r, 12));
    assert(le16_at(r.skip(4), 12) == le16_at(r, 16));
}

pub(crate) proof fn lemma_refusal(hdr: Smb2Header, status: u32)
    ensures
        refused(hdr, status) matches StepView::Reply(r) && r.len() == 77 && status_in(r) == status,
{
    lemma_reply(hdr, status, error_body());
}

} // verus!

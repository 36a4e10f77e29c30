//! What a client does to a file that it writes through the share.

use crate::bytes::{law_le16_round_trip, law_le32_round_trip, le16, le16_at, le32, le32_at, le64_at};
use crate::server::asked::{
    asks, body_in, carried, has_part, is_request, lemma_fields, lemma_refusal, lemma_reply,
    lemma_request, meant, part_at, request_header, status_in,
};
use crate::server::cache::{absence_known, attrs_known, law_invalidated_is_unknown};
use crate::server::dispatch::{message_step, resume_step};
use crate::server::handles::HandleModel;
use crate::server::state::{counted, reconnected, SessionModel};
use crate::server::step::{answered, Moment, StepView, ThenOf, ThenView};
use crate::server::transfer::{with_state, write_body, write_step, written};
use crate::sftp::call::{is_broken, CallOf, ReplyView};
use crate::smb2::{Smb2Header, STATUS_ACCESS_DENIED, STATUS_SUCCESS};
use crate::wire::Fault;
use vstd::prelude::*;

verus! {

/// An answer to a write of so many bytes: all of them, or a refusal.
pub open spec fn is_write_answer(r: Seq<u8>, length: u32) -> bool {
    &&& r.len() >= 77
    &&& status_in(r) == 0 || status_in(r) == 0xC000_0022
    &&& status_in(r) == 0 ==> le16_at(body_in(r), 0) == 17 && le32_at(body_in(r), 4) == length
}

/// What a step of a write may be: opening the file to write it, writing the data
/// at the offset, or the answer.
pub open spec fn writes_right(s: StepView, offset: u64, data: Seq<u8>, path: Seq<char>) -> bool {
    match s {
        StepView::Ask(call, _, _) => match call {
            CallOf::Write { handle: _, offset: at, data: bytes } => at == offset && bytes == data,
            CallOf::Open { path: p, flags, mode: _ } => p == path && flags == 2,
            _ => false,
        },
        StepView::Reply(r) => is_write_answer(r, data.len() as u32),
    }
}

spec fn waits_to_write(
    next: ThenView,
    fid: u64,
    offset: u64,
    data: Seq<u8>,
    path: Seq<char>,
) -> bool {
    match next {
        ThenOf::WriteOpened { fid: f, offset: o, data: d } => f == fid && o == offset && d == data,
        ThenOf::WriteDone { fid: f, offset: o, data: d, path: p } => f == fid && o == offset && d
            == data && p == path,
        ThenOf::WriteReopened { fid: f, offset: o, data: d, path: p } => f == fid && o == offset
            && d == data && p == path,
        ThenOf::WriteAgain { fid: f, length, handle: _, path: p } => f == fid && length
            == data.len() && p == path,
        _ => false,
    }
}

spec fn write_holds(
    m: SessionModel,
    s: StepView,
    fid: u64,
    offset: u64,
    data: Seq<u8>,
    path: Seq<char>,
) -> bool {
    &&& m.handles.contains_key(fid)
    &&& m.handles[fid].path == path
    &&& writes_right(s, offset, data, path)
    &&& s matches StepView::Ask(_, _, next) ==> waits_to_write(next, fid, offset, data, path)
}

proof fn lemma_write_answer(hdr: Smb2Header, length: u32)
    ensures
        answered(hdr, STATUS_SUCCESS, write_body(length) + seq![0u8]) matches StepView::Reply(r)
            && is_write_answer(r, length) && status_in(r) == 0,
{
    let body = write_body(length) + seq![0u8];
    lemma_reply(hdr, STATUS_SUCCESS, body);
    law_le16_round_trip(17);
    law_le32_round_trip(length);
    assert(body[0] == le16(17)[0] && body[1] == le16(17)[1]);
    let n = le32(length);
    assert(body[4] == n[0] && body[5] == n[1] && body[6] == n[2] && body[7] == n[3]);
}

#[verifier::rlimit(40)]
proof fn lemma_resumed(
    m: SessionModel,
    s: StepView,
    fid: u64,
    offset: u64,
    data: Seq<u8>,
    path: Seq<char>,
    reply: ReplyView,
    t: Moment,
)
    requires
        write_holds(m, s, fid, offset, data, path),
        s is Ask,
        data.len() <= u32::MAX,
    ensures
        s matches StepView::Ask(_, hdr, next) && ({
            let (o, u) = resume_step(m, hdr, next, reply, t);
            write_holds(o, u, fid, offset, data, path)
        }),
{
    if let StepView::Ask(_, hdr, next) = s {
        lemma_refusal(hdr, STATUS_ACCESS_DENIED);
        lemma_write_answer(hdr, data.len() as u32);
        let o = reconnected(m);
        assert(o.handles.contains_key(fid));
        assert(o.handles[fid].path == path);
    }
}

proof fn lemma_carried(
    m: SessionModel,
    s: StepView,
    replies: Seq<(ReplyView, Moment)>,
    fid: u64,
    offset: u64,
    data: Seq<u8>,
    path: Seq<char>,
)
    requires
        write_holds(m, s, fid, offset, data, path),
        data.len() <= u32::MAX,
    ensures
        ({
            let (o, u) = carried(m, s, replies);
            write_holds(o, u, fid, offset, data, path)
        }),
    decreases replies.len(),
{
    if replies.len() > 0 {
        if let StepView::Ask(_, hdr, next) = s {
            lemma_resumed(m, s, fid, offset, data, path, replies[0].0, replies[0].1);
            let (o, u) = resume_step(m, hdr, next, replies[0].0, replies[0].1);
            lemma_carried(o, u, replies.skip(1), fid, offset, data, path);
        }
    }
}

/// The message is a write to a file, and holds the bytes that it points at.
pub open spec fn is_file_write(m: SessionModel, msg: Seq<u8>) -> bool {
    let fid = meant(m, le64_at(msg, 80));
    &&& is_request(msg, 9)
    &&& msg.len() >= 96
    &&& has_part(msg, le16_at(msg, 66) as int, le32_at(msg, 68) as int)
    &&& m.handles.contains_key(fid)
    &&& !m.handles[fid].is_pipe
}

/// The bytes that a write carries.
pub open spec fn write_data(msg: Seq<u8>) -> Seq<u8> {
    part_at(msg, le16_at(msg, 66) as int, le32_at(msg, 68) as int)
}

spec fn first_step(m: SessionModel, hdr: Smb2Header, msg: Seq<u8>) -> (SessionModel, StepView) {
    let fid = meant(m, le64_at(msg, 80));
    let h = m.handles[fid];
    let offset = le64_at(msg, 72);
    let data = write_data(msg);
    match h.remote {
        None => (
            m,
            StepView::Ask(
                CallOf::Open { path: h.path, flags: 2, mode: 0 },
                hdr,
                ThenOf::WriteOpened { fid, offset, data },
            ),
        ),
        Some(handle) => (
            with_state(m, fid, HandleModel { ahead: None, ..h }),
            StepView::Ask(
                CallOf::Write { handle, offset, data },
                hdr,
                ThenOf::WriteDone { fid, offset, data, path: h.path },
            ),
        ),
    }
}

proof fn lemma_write_step(m: SessionModel, hdr: Smb2Header, msg: Seq<u8>)
    requires
        is_file_write(m, msg),
    ensures
        write_data(msg).len() == le32_at(msg, 68),
        write_step(m, hdr, msg.skip(64)) == first_step(m, hdr, msg),
{
    lemma_fields(msg, 2);
    lemma_fields(msg, 4);
    lemma_fields(msg, 8);
    lemma_fields(msg, 16);
    let at = le16_at(msg, 66) as int;
    let start: int = if at < 64 {
        0
    } else {
        at - 64
    };
    let n = le32_at(msg, 68) as int;
    assert(msg.skip(64).subrange(start, start + n) =~= write_data(msg));
}

proof fn lemma_started(m: SessionModel, msg: Seq<u8>, t: Moment)
    requires
        is_file_write(m, msg),
    ensures
        message_step(m, msg, t) == first_step(counted(m, t.now), request_header(msg), msg),
        counted(m, t.now).handles == m.handles,
        meant(counted(m, t.now), le64_at(msg, 80)) == meant(m, le64_at(msg, 80)),
        write_data(msg).len() == le32_at(msg, 68),
{
    lemma_request(m, msg, 9, t);
    lemma_write_step(counted(m, t.now), request_header(msg), msg);
}

/// Whatever the remote side replies, a write asks it for nothing but opening the
/// file and writing the bytes of the request at the offset of the request,
/// whether the file was open, had to be opened first, or again after a lost
/// connection. The count in the answer is the number of those bytes.
pub proof fn law_writes_carry_the_bytes_of_the_request(
    m: SessionModel,
    msg: Seq<u8>,
    t: Moment,
    replies: Seq<(ReplyView, Moment)>,
)
    requires
        is_file_write(m, msg),
    ensures
        ({
            let fid = meant(m, le64_at(msg, 80));
            let (o, s) = message_step(m, msg, t);
            let (_, u) = carried(o, s, replies);
            writes_right(u, le64_at(msg, 72), write_data(msg), m.handles[fid].path)
        }),
{
    let fid = meant(m, le64_at(msg, 80));
    lemma_started(m, msg, t);
    let (o, s) = message_step(m, msg, t);
    let path = m.handles[fid].path;
    lemma_carried(o, s, replies, fid, le64_at(msg, 72), write_data(msg), path);
}

/// After a write the session knows nothing of the file and of the listing that
/// it stands in, and of the file's bytes it has none at hand.
pub open spec fn has_forgotten(m: SessionModel, fid: u64, path: Seq<char>) -> bool {
    &&& forall|now: u128| attrs_known(m.attrs, path, now) is None
    &&& forall|now: u128| !absence_known(m.attrs, path, now)
    &&& crate::text::parent_of(path) matches Some(dir) ==> !m.dirs.contains_key(dir)
    &&& m.handles[fid].ahead is None
}

proof fn lemma_written(m: SessionModel, hdr: Smb2Header, fid: u64, path: Seq<char>, length: u32)
    requires
        m.handles[fid].ahead is None,
    ensures
        ({
            let (o, s) = written(m, hdr, path, length);
            &&& s matches StepView::Reply(r) && is_write_answer(r, length) && status_in(r) == 0
            &&& has_forgotten(o, fid, path)
            &&& o.handles == m.handles
        }),
{
    lemma_write_answer(hdr, length);
    let (o, _) = written(m, hdr, path, length);
    assert forall|now: u128| attrs_known(o.attrs, path, now) is None && !absence_known(
        o.attrs,
        path,
        now,
    ) by {
        law_invalidated_is_unknown(m.attrs, path, now);
    }
}

/// A write to an open file is asked for with the handle of the file, and done
/// once the remote side has done it.
#[verifier::rlimit(40)]
pub proof fn law_writes_succeed(
    m: SessionModel,
    msg: Seq<u8>,
    t: Moment,
    handle: Seq<u8>,
    t1: Moment,
)
    requires
        is_file_write(m, msg),
        m.handles[meant(m, le64_at(msg, 80))].remote == Some(handle),
    ensures
        ({
            let fid = meant(m, le64_at(msg, 80));
            let (o, s) = message_step(m, msg, t);
            let (p, u) = carried(o, s, seq![(ReplyView::Nothing(Ok(())), t1)]);
            &&& asks(
                s,
                CallOf::Write {
                    handle,
                    offset: le64_at(msg, 72),
                    data: write_data(msg),
                },
            )
            &&& u matches StepView::Reply(r) && is_write_answer(r, le32_at(msg, 68)) && status_in(r)
                == 0
            &&& has_forgotten(p, fid, m.handles[fid].path)
            &&& p.handles[fid].remote == Some(handle)
        }),
{
    let fid = meant(m, le64_at(msg, 80));
    lemma_started(m, msg, t);
    let (o, s) = message_step(m, msg, t);
    reveal_with_fuel(carried, 2);
    let hdr = request_header(msg);
    lemma_written(o, hdr, fid, m.handles[fid].path, write_data(msg).len() as u32);
}

/// A write to a file that is not open opens it, and then writes with the handle
/// that it was given.
#[verifier::rlimit(40)]
pub proof fn law_writes_open_the_file_first(
    m: SessionModel,
    msg: Seq<u8>,
    t: Moment,
    handle: Seq<u8>,
    t1: Moment,
    t2: Moment,
)
    requires
        is_file_write(m, msg),
        m.handles[meant(m, le64_at(msg, 80))].remote is None,
    ensures
        ({
            let fid = meant(m, le64_at(msg, 80));
            let (o, s) = message_step(m, msg, t);
            let (p, u) = carried(o, s, seq![(ReplyView::Handle(Ok(handle)), t1)]);
            let (q, v) = carried(p, u, seq![(ReplyView::Nothing(Ok(())), t2)]);
            &&& asks(
                s,
                CallOf::Open {
                    path: m.handles[fid].path,
                    flags: 2,
                    mode: 0,
                },
            )
            &&& asks(
                u,
                CallOf::Write {
                    handle,
                    offset: le64_at(msg, 72),
                    data: write_data(msg),
                },
            )
            &&& v matches StepView::Reply(r) && is_write_answer(r, le32_at(msg, 68)) && status_in(r)
                == 0
            &&& has_forgotten(q, fid, m.handles[fid].path)
            &&& q.handles[fid].remote == Some(handle)
        }),
{
    let fid = meant(m, le64_at(msg, 80));
    lemma_started(m, msg, t);
    let (o, s) = message_step(m, msg, t);
    reveal_with_fuel(carried, 2);
    let (p, u) = carried(o, s, seq![(ReplyView::Handle(Ok(handle)), t1)]);
    let hdr = request_header(msg);
    lemma_written(p, hdr, fid, m.handles[fid].path, write_data(msg).len() as u32);
}

/// A write that loses its connection is done over another one: the file is
/// opened again and the same bytes are written at the same offset.
#[verifier::rlimit(40)]
pub proof fn law_writes_outlive_a_connection(
    m: SessionModel,
    msg: Seq<u8>,
    t: Moment,
    e: Fault,
    handle: Seq<u8>,
    t1: Moment,
    t2: Moment,
    t3: Moment,
)
    requires
        is_file_write(m, msg),
        m.handles[meant(m, le64_at(msg, 80))].remote is Some,
        e is Disconnected || e is Protocol,
    ensures
        ({
            let fid = meant(m, le64_at(msg, 80));
            let (o, s) = message_step(m, msg, t);
            let (p, u) = carried(o, s, seq![(ReplyView::Nothing(Err(e)), t1)]);
            let (q, v) = carried(p, u, seq![(ReplyView::Handle(Ok(handle)), t2)]);
            let (z, w) = carried(q, v, seq![(ReplyView::Nothing(Ok(())), t3)]);
            &&& asks(
                u,
                CallOf::Open {
                    path: m.handles[fid].path,
                    flags: 2,
                    mode: 0,
                },
            )
            &&& asks(
                v,
                CallOf::Write {
                    handle,
                    offset: le64_at(msg, 72),
                    data: write_data(msg),
                },
            )
            &&& w matches StepView::Reply(r) && is_write_answer(r, le32_at(msg, 68)) && status_in(r)
                == 0
            &&& has_forgotten(z, fid, m.handles[fid].path)
            &&& z.handles[fid].remote == Some(handle)
        }),
{
    let fid = meant(m, le64_at(msg, 80));
    let path = m.handles[fid].path;
    lemma_started(m, msg, t);
    let (o, s) = message_step(m, msg, t);
    reveal_with_fuel(carried, 2);
    let (p, u) = carried(o, s, seq![(ReplyView::Nothing(Err(e)), t1)]);
    assert(is_broken(e));
    assert(p.handles.contains_key(fid) && p.handles[fid].path == path);
    let (q, v) = carried(p, u, seq![(ReplyView::Handle(Ok(handle)), t2)]);
    let hdr = request_header(msg);
    let z = with_state(
        q,
        fid,
        HandleModel { remote: Some(handle), ..q.handles[fid] },
    );
    lemma_written(z, hdr, fid, path, write_data(msg).len() as u32);
}

} // verus!

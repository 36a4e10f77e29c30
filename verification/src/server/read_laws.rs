//! What a client gets that reads a file through the share.

use crate::bytes::{le16, le16_at, le32, le32_at, le64_at};
use crate::server::asked::{
    asks, body_in, carried, is_request, lemma_fields, lemma_one_reply, lemma_refusal, lemma_reply,
    lemma_request, meant, request_header, status_in,
};
use crate::server::dispatch::{message_step, resume_step};
use crate::server::handles::{law_ahead_gives_the_files_bytes, HandleModel};
use crate::server::state::{counted, inhibitor_path, reconnected, SessionModel};
use crate::server::step::{Moment, StepView, ThenOf, ThenView};
use crate::server::transfer::{
    fetch_len, read_body, read_data, read_opened_step, read_step, serve_read, with_state,
};
use crate::sftp::call::{is_broken, CallOf, ReplyView};
use crate::smb2::{Smb2Header, STATUS_ACCESS_DENIED, STATUS_END_OF_FILE, STATUS_SUCCESS};
use crate::wire::Fault;
use vstd::prelude::*;

verus! {

/// What a file holds from `at` on, at most `n` bytes.
pub open spec fn part_of(file: Seq<u8>, at: int, n: int) -> Seq<u8> {
    if at >= file.len() {
        Seq::empty()
    } else if at + n >= file.len() {
        file.skip(at)
    } else {
        file.subrange(at, at + n)
    }
}

/// What is at hand of a file is what the file holds.
pub open spec fn knows(h: HandleModel, file: Seq<u8>) -> bool {
    h.ahead matches Some(ra) ==> {
        &&& ra.offset + ra.data.len() <= file.len()
        &&& ra.data == file.subrange(ra.offset as int, ra.offset + ra.data.len())
    }
}

/// The remote side replies to a read with what the file holds there, all that
/// was asked for, or with an error.
pub open spec fn is_honest(s: StepView, reply: ReplyView, file: Seq<u8>) -> bool {
    s matches StepView::Ask(CallOf::Read { handle: _, offset, len }, _, _) ==> (
    reply matches ReplyView::Data(Ok(data)) ==> data == part_of(file, offset as int, len as int))
}

/// All replies to the steps of a request are honest.
pub open spec fn are_honest(
    m: SessionModel,
    s: StepView,
    replies: Seq<(ReplyView, Moment)>,
    file: Seq<u8>,
) -> bool
    decreases replies.len(),
{
    replies.len() > 0 ==> (s matches StepView::Ask(_, hdr, next) ==> {
        let (o, u) = resume_step(m, hdr, next, replies[0].0, replies[0].1);
        is_honest(s, replies[0].0, file) && are_honest(o, u, replies.skip(1), file)
    })
}

/// An answer to a read of `length` bytes at `offset`: all that the file holds of
/// them, or that there are none, or a refusal.
pub open spec fn is_read_answer(r: Seq<u8>, file: Seq<u8>, offset: u64, length: u32) -> bool {
    &&& r.len() >= 68
    &&& status_in(r) == 0 || status_in(r) == 0xC000_0011 || status_in(r) == 0xC000_0022
    &&& status_in(r) == 0 ==> {
        &&& r.len() >= 84
        &&& le16_at(body_in(r), 2) == 80
        &&& le32_at(body_in(r), 4) == r.len() - 84
        &&& r.skip(84) == part_of(file, offset as int, length as int)
        &&& length > 0 ==> offset < file.len()
    }
    &&& status_in(r) == 0xC000_0011 ==> offset >= file.len()
}

/// What a step of a read may be.
pub open spec fn reads_right(
    s: StepView,
    file: Seq<u8>,
    offset: u64,
    length: u32,
    path: Seq<char>,
) -> bool {
    match s {
        StepView::Ask(call, _, _) => match call {
            CallOf::Read { handle: _, offset: at, len } => at == offset && len >= length && len
                >= 0x20_0000 && (len == length || len == 0x20_0000),
            CallOf::Open { path: p, flags, mode: _ } => p == path && flags == 1,
            _ => false,
        },
        StepView::Reply(r) => is_read_answer(r, file, offset, length),
    }
}

spec fn waits_to_read(next: ThenView, fid: u64, offset: u64, length: u32, path: Seq<char>) -> bool {
    match next {
        ThenOf::ReadOpened { fid: f, offset: o, length: l } => f == fid && o == offset && l
            == length,
        ThenOf::ReadDone { fid: f, offset: o, length: l, path: p } => f == fid && o == offset && l
            == length && p == path,
        ThenOf::ReadReopened { fid: f, offset: o, length: l } => f == fid && o == offset && l
            == length,
        ThenOf::ReadAgain { fid: f, offset: o, length: l, handle: _ } => f == fid && o == offset
            && l == length,
        _ => false,
    }
}

/// The call goes with what the request waits for.
spec fn is_call_for(call: CallOf<Seq<char>, Seq<u8>>, next: ThenView) -> bool {
    match next {
        ThenOf::ReadDone { .. } => call is Read,
        ThenOf::ReadAgain { .. } => call is Read,
        _ => call is Open,
    }
}

spec fn read_holds(
    m: SessionModel,
    s: StepView,
    file: Seq<u8>,
    fid: u64,
    offset: u64,
    length: u32,
    path: Seq<char>,
) -> bool {
    &&& m.handles.contains_key(fid)
    &&& m.handles[fid].path == path
    &&& knows(m.handles[fid], file)
    &&& reads_right(s, file, offset, length, path)
    &&& s matches StepView::Ask(call, _, next) ==> waits_to_read(next, fid, offset, length, path)
        && is_call_for(call, next)
}

proof fn lemma_read_answer(
    hdr: Smb2Header,
    data: Seq<u8>,
    file: Seq<u8>,
    offset: u64,
    length: u32,
)
    requires
        data == part_of(file, offset as int, length as int),
        length > 0 ==> offset < file.len(),
    ensures
        crate::server::step::answered(hdr, STATUS_SUCCESS, read_body(data)) matches StepView::Reply(r)
            && is_read_answer(r, file, offset, length),
{
    let body = read_body(data);
    lemma_reply(hdr, STATUS_SUCCESS, body);
    let r = crate::smb2::response(hdr, STATUS_SUCCESS, body);
    assert(data.len() <= length);
    crate::bytes::law_le16_round_trip(80);
    crate::bytes::law_le32_round_trip(data.len() as u32);
    assert(body[2] == le16(80)[0] && body[3] == le16(80)[1]);
    let n = le32(data.len() as u32);
    assert(body[4] == n[0] && body[5] == n[1] && body[6] == n[2] && body[7] == n[3]);
    assert(body.skip(16) =~= data);
    assert(r.skip(84) =~= body_in(r).skip(16));
}

proof fn lemma_refused(hdr: Smb2Header, file: Seq<u8>, offset: u64, length: u32)
    ensures
        crate::server::step::refused(hdr, STATUS_ACCESS_DENIED) matches StepView::Reply(r)
            && is_read_answer(r, file, offset, length),
        offset >= file.len() ==> (crate::server::step::refused(
            hdr,
            STATUS_END_OF_FILE,
        ) matches StepView::Reply(r) && is_read_answer(r, file, offset, length)),
{
    lemma_refusal(hdr, STATUS_ACCESS_DENIED);
    lemma_refusal(hdr, STATUS_END_OF_FILE);
}

proof fn lemma_serve(
    m: SessionModel,
    hdr: Smb2Header,
    file: Seq<u8>,
    fid: u64,
    offset: u64,
    length: u32,
)
    requires
        m.handles.contains_key(fid),
        knows(m.handles[fid], file),
        m.handles[fid].remote is Some,
    ensures
        read_holds(
            m,
            serve_read(m, hdr, fid, offset, length),
            file,
            fid,
            offset,
            length,
            m.handles[fid].path,
        ),
{
    if let Some(ra) = m.handles[fid].ahead {
        law_ahead_gives_the_files_bytes(file, ra, offset, length as nat);
        if let Some(data) = crate::server::handles::ahead_part(ra, offset, length as nat) {
            assert(data =~= part_of(file, offset as int, length as int));
            lemma_read_answer(hdr, data, file, offset, length);
        }
    }
}

proof fn lemma_data(
    m: SessionModel,
    hdr: Smb2Header,
    file: Seq<u8>,
    fid: u64,
    offset: u64,
    length: u32,
    len: u32,
    handle: Option<Seq<u8>>,
)
    requires
        m.handles.contains_key(fid),
        knows(m.handles[fid], file),
        len >= length,
        len > 0,
    ensures
        ({
            let data = part_of(file, offset as int, len as int);
            let (o, s) = read_data(m, hdr, fid, offset, length, data, handle);
            read_holds(o, s, file, fid, offset, length, m.handles[fid].path)
        }),
{
    let data = part_of(file, offset as int, len as int);
    lemma_refused(hdr, file, offset, length);
    if data.len() > 0 {
        let part = if data.len() <= length {
            data
        } else {
            data.take(length as int)
        };
        assert(part =~= part_of(file, offset as int, length as int));
        lemma_read_answer(hdr, part, file, offset, length);
        assert(data =~= file.subrange(offset as int, offset + data.len()));
    }
}

#[verifier::rlimit(40)]
proof fn lemma_resumed(
    m: SessionModel,
    s: StepView,
    file: Seq<u8>,
    fid: u64,
    offset: u64,
    length: u32,
    path: Seq<char>,
    reply: ReplyView,
    t: Moment,
)
    requires
        read_holds(m, s, file, fid, offset, length, path),
        s is Ask,
        is_honest(s, reply, file),
    ensures
        s matches StepView::Ask(_, hdr, next) && ({
            let (o, u) = resume_step(m, hdr, next, reply, t);
            read_holds(o, u, file, fid, offset, length, path)
        }),
{
    if let StepView::Ask(call, hdr, next) = s {
        lemma_refused(hdr, file, offset, length);
        match next {
            ThenOf::ReadOpened { .. } => {
                if let ReplyView::Handle(Ok(handle)) = reply {
                    let o = with_state(
                        m,
                        fid,
                        HandleModel { remote: Some(handle), ..m.handles[fid] },
                    );
                    lemma_serve(o, hdr, file, fid, offset, length);
                    assert(read_opened_step(m, hdr, fid, offset, length, reply) == (
                        o,
                        serve_read(o, hdr, fid, offset, length),
                    ));
                } else {
                    assert(read_opened_step(m, hdr, fid, offset, length, reply).0 == m);
                }
            },
            ThenOf::ReadDone { .. } => {
                if let CallOf::Read { handle: _, offset: _, len } = call {
                    lemma_data(m, hdr, file, fid, offset, length, len, None);
                }
                let o = reconnected(m);
                assert(o.handles.contains_key(fid));
                assert(o.handles[fid].path == path);
            },
            ThenOf::ReadReopened { .. } => {},
            ThenOf::ReadAgain { fid: _, offset: _, length: _, handle } => {
                if let CallOf::Read { handle: _, offset: _, len } = call {
                    lemma_data(m, hdr, file, fid, offset, length, len, Some(handle));
                }
            },
            _ => {},
        }
    }
}

proof fn lemma_carried(
    m: SessionModel,
    s: StepView,
    replies: Seq<(ReplyView, Moment)>,
    file: Seq<u8>,
    fid: u64,
    offset: u64,
    length: u32,
    path: Seq<char>,
)
    requires
        read_holds(m, s, file, fid, offset, length, path),
        are_honest(m, s, replies, file),
    ensures
        ({
            let (o, u) = carried(m, s, replies);
            read_holds(o, u, file, fid, offset, length, path)
        }),
    decreases replies.len(),
{
    if replies.len() > 0 {
        if let StepView::Ask(_, hdr, next) = s {
            lemma_resumed(m, s, file, fid, offset, length, path, replies[0].0, replies[0].1);
            let (o, u) = resume_step(m, hdr, next, replies[0].0, replies[0].1);
            lemma_carried(o, u, replies.skip(1), file, fid, offset, length, path);
        }
    }
}

/// A client that reads `length` bytes at `offset` gets what the file holds there,
/// up to its end, however the read is served: from what is at hand, from the
/// remote side, after an opening or after a lost connection. The remote side is
/// asked for bytes at that very offset, and what is kept at hand stays true to
/// the file.
pub proof fn law_reads_give_the_bytes_of_the_file(
    m: SessionModel,
    msg: Seq<u8>,
    t: Moment,
    replies: Seq<(ReplyView, Moment)>,
    file: Seq<u8>,
)
    requires
        is_request(msg, 8),
        msg.len() >= 96,
        ({
            let fid = meant(m, le64_at(msg, 80));
            let (o, s) = message_step(m, msg, t);
            &&& m.handles.contains_key(fid)
            &&& !m.handles[fid].is_pipe
            &&& m.handles[fid].path != inhibitor_path(m.root)
            &&& knows(m.handles[fid], file)
            &&& are_honest(o, s, replies, file)
        }),
    ensures
        ({
            let fid = meant(m, le64_at(msg, 80));
            let (o, s) = message_step(m, msg, t);
            let (p, u) = carried(o, s, replies);
            &&& reads_right(
                u,
                file,
                le64_at(msg, 72),
                le32_at(msg, 68),
                m.handles[fid].path,
            )
            &&& p.handles.contains_key(fid)
            &&& knows(p.handles[fid], file)
        }),
{
    let fid = meant(m, le64_at(msg, 80));
    let offset = le64_at(msg, 72);
    let length = le32_at(msg, 68);
    lemma_request(m, msg, 8, t);
    lemma_fields(msg, 4);
    lemma_fields(msg, 8);
    lemma_fields(msg, 16);
    let c = counted(m, t.now);
    let hdr = request_header(msg);
    let (o, s) = message_step(m, msg, t);
    if m.handles[fid].remote is Some {
        lemma_serve(c, hdr, file, fid, offset, length);
    }
    assert(read_holds(o, s, file, fid, offset, length, m.handles[fid].path));
    lemma_carried(o, s, replies, file, fid, offset, length, m.handles[fid].path);
}

/// A read succeeds wherever the file has something there: the file is opened, if
/// it is not, the remote side is read with the handle that it gave out, and its
/// reply ends the request.
#[verifier::rlimit(40)]
pub proof fn law_reads_succeed(
    m: SessionModel,
    msg: Seq<u8>,
    t: Moment,
    handle: Seq<u8>,
    file: Seq<u8>,
    t1: Moment,
    t2: Moment,
)
    requires
        is_request(msg, 8),
        msg.len() >= 96,
        le32_at(msg, 68) > 0,
        ({
            let fid = meant(m, le64_at(msg, 80));
            &&& m.handles.contains_key(fid)
            &&& !m.handles[fid].is_pipe
            &&& m.handles[fid].path != inhibitor_path(m.root)
            &&& m.handles[fid].remote is None
            &&& m.handles[fid].ahead is None
        }),
    ensures
        ({
            let fid = meant(m, le64_at(msg, 80));
            let h = m.handles[fid];
            let offset = le64_at(msg, 72);
            let length = le32_at(msg, 68);
            let (o, s) = message_step(m, msg, t);
            &&& s matches StepView::Ask(CallOf::Open { path, flags, mode }, _, _) && path == h.path
                && flags == 1 && mode == 0
            &&& ({
                let (p, u) = carried(o, s, seq![(ReplyView::Handle(Ok(handle)), t1)]);
                &&& u matches StepView::Ask(CallOf::Read { handle: used, offset: at, len }, _, _)
                    && used == handle && at == offset && ({
                    let data = part_of(file, offset as int, len as int);
                    let (_, v) = carried(
                        p,
                        u,
                        seq![(ReplyView::Data(Ok(data)), t2)],
                    );
                    v matches StepView::Reply(r) && is_read_answer(r, file, offset, length) && (
                    status_in(r) == 0 <==> offset < file.len())
                })
            })
        }),
{
    let fid = meant(m, le64_at(msg, 80));
    let offset = le64_at(msg, 72);
    let length = le32_at(msg, 68);
    lemma_request(m, msg, 8, t);
    lemma_fields(msg, 4);
    lemma_fields(msg, 8);
    lemma_fields(msg, 16);
    let hdr = request_header(msg);
    let (o, s) = message_step(m, msg, t);
    let one = seq![(ReplyView::Handle(Ok(handle)), t1)];
    reveal_with_fuel(carried, 2);
    let (p, u) = carried(o, s, one);
    if let StepView::Ask(CallOf::Read { handle: _, offset: _, len }, _, _) = u {
        let data = part_of(file, offset as int, len as int);
        let two = seq![(ReplyView::Data(Ok(data)), t2)];
        lemma_data(p, hdr, file, fid, offset, length, len, None);
        lemma_refusal(hdr, STATUS_END_OF_FILE);
        if data.len() > 0 {
            let part = if data.len() <= length {
                data
            } else {
                data.take(length as int)
            };
            lemma_reply(hdr, STATUS_SUCCESS, read_body(part));
        }
        assert(carried(p, u, two) == read_data(p, hdr, fid, offset, length, data, None));
    }
}

proof fn lemma_read_step(m: SessionModel, hdr: Smb2Header, msg: Seq<u8>, held: Seq<u8>)
    requires
        msg.len() >= 96,
        ({
            let fid = meant(m, le64_at(msg, 80));
            &&& m.handles.contains_key(fid)
            &&& !m.handles[fid].is_pipe
            &&& m.handles[fid].path != inhibitor_path(m.root)
            &&& m.handles[fid].remote == Some(held)
            &&& m.handles[fid].ahead is None
        }),
    ensures
        ({
            let fid = meant(m, le64_at(msg, 80));
            let offset = le64_at(msg, 72);
            let length = le32_at(msg, 68);
            read_step(m, hdr, msg.skip(64)) == (
                m,
                StepView::Ask(
                    CallOf::Read { handle: held, offset, len: fetch_len(length) },
                    hdr,
                    ThenOf::ReadDone { fid, offset, length, path: m.handles[fid].path },
                ),
            )
        }),
{
    lemma_fields(msg, 4);
    lemma_fields(msg, 8);
    lemma_fields(msg, 16);
}

proof fn lemma_end(
    m: SessionModel,
    hdr: Smb2Header,
    file: Seq<u8>,
    fid: u64,
    offset: u64,
    length: u32,
    handle: Seq<u8>,
)
    requires
        m.handles.contains_key(fid),
        length > 0,
    ensures
        ({
            let data = part_of(file, offset as int, fetch_len(length) as int);
            let (z, w) = read_data(m, hdr, fid, offset, length, data, Some(handle));
            &&& w matches StepView::Reply(r) && is_read_answer(r, file, offset, length) && (
            status_in(r) == 0 <==> offset < file.len())
            &&& z.handles.contains_key(fid)
            &&& offset < file.len() ==> z.handles[fid].remote == Some(handle)
        }),
{
    let data = part_of(file, offset as int, fetch_len(length) as int);
    let n = SessionModel {
        handles: m.handles.insert(fid, HandleModel { ahead: None, ..m.handles[fid] }),
        ..m
    };
    lemma_data(n, hdr, file, fid, offset, length, fetch_len(length), Some(handle));
    lemma_refusal(hdr, STATUS_END_OF_FILE);
    lemma_refused(hdr, file, offset, length);
    if data.len() > 0 {
        let part = if data.len() <= length {
            data
        } else {
            data.take(length as int)
        };
        lemma_reply(hdr, STATUS_SUCCESS, read_body(part));
        assert(part =~= part_of(file, offset as int, length as int));
        lemma_read_answer(hdr, part, file, offset, length);
    }
}

/// A read of an open file is asked for with the handle of the file. Where it
/// loses its connection, the file is opened again and the same bytes are read
/// with the handle that it was given then.
#[verifier::rlimit(40)]
pub proof fn law_reads_outlive_a_connection(
    m: SessionModel,
    msg: Seq<u8>,
    t: Moment,
    held: Seq<u8>,
    e: Fault,
    handle: Seq<u8>,
    file: Seq<u8>,
    t1: Moment,
    t2: Moment,
    t3: Moment,
)
    requires
        is_request(msg, 8),
        msg.len() >= 96,
        le32_at(msg, 68) > 0,
        e is Disconnected || e is Protocol,
        ({
            let fid = meant(m, le64_at(msg, 80));
            &&& m.handles.contains_key(fid)
            &&& !m.handles[fid].is_pipe
            &&& m.handles[fid].path != inhibitor_path(m.root)
            &&& m.handles[fid].remote == Some(held)
            &&& m.handles[fid].ahead is None
        }),
    ensures
        ({
            let fid = meant(m, le64_at(msg, 80));
            let h = m.handles[fid];
            let offset = le64_at(msg, 72);
            let length = le32_at(msg, 68);
            let len: u32 = if length > 0x20_0000 {
                length
            } else {
                0x20_0000
            };
            let data = part_of(file, offset as int, len as int);
            let (o, s) = message_step(m, msg, t);
            let (p, u) = carried(o, s, seq![(ReplyView::Data(Err(e)), t1)]);
            let (q, v) = carried(p, u, seq![(ReplyView::Handle(Ok(handle)), t2)]);
            let (z, w) = carried(q, v, seq![(ReplyView::Data(Ok(data)), t3)]);
            &&& asks(
                s,
                CallOf::Read {
                    handle: held,
                    offset,
                    len,
                },
            )
            &&& asks(
                u,
                CallOf::Open {
                    path: h.path,
                    flags: 1,
                    mode: 0,
                },
            )
            &&& asks(
                v,
                CallOf::Read {
                    handle,
                    offset,
                    len,
                },
            )
            &&& w matches StepView::Reply(r) && is_read_answer(r, file, offset, length) && (
            status_in(r) == 0 <==> offset < file.len())
            &&& z.handles.contains_key(fid)
            &&& offset < file.len() ==> z.handles[fid].remote == Some(handle)
        }),
{
    let fid = meant(m, le64_at(msg, 80));
    let offset = le64_at(msg, 72);
    let length = le32_at(msg, 68);
    let path = m.handles[fid].path;
    let hdr = request_header(msg);
    let c = counted(m, t.now);
    lemma_request(m, msg, 8, t);
    lemma_read_step(c, hdr, msg, held);
    let len = fetch_len(length);
    let data = part_of(file, offset as int, len as int);
    let done: ThenView = ThenOf::ReadDone { fid, offset, length, path };
    let reopened: ThenView = ThenOf::ReadReopened { fid, offset, length };
    let again: ThenView = ThenOf::ReadAgain { fid, offset, length, handle };
    lemma_one_reply(
        c,
        CallOf::Read { handle: held, offset, len },
        hdr,
        done,
        ReplyView::Data(Err(e)),
        t1,
    );
    assert(is_broken(e));
    let p = reconnected(c);
    assert(p.handles.contains_key(fid));
    lemma_one_reply(
        p,
        CallOf::Open { path, flags: 1, mode: 0 },
        hdr,
        reopened,
        ReplyView::Handle(Ok(handle)),
        t2,
    );
    lemma_one_reply(
        p,
        CallOf::Read { handle, offset, len },
        hdr,
        again,
        ReplyView::Data(Ok(data)),
        t3,
    );
    lemma_end(p, hdr, file, fid, offset, length, handle);
}

} // verus!

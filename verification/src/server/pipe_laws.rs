//! What a client hears on the pipe of the share list.

use crate::bytes::{
    lemma_le16_in, lemma_le32_in, lemma_le64_in, le16, le16_at, le32, le32_at, le64, le64_at,
};
use crate::server::asked::{
    body_in, has_part, is_request, lemma_fields, lemma_refusal, lemma_reply, lemma_request, meant,
    part_at, request_header, status_in,
};
use crate::server::dispatch::message_step;
use crate::server::pipe::{
    bind_ack, ioctl_body, ioctl_step, ndr_text, rpc_answer, rpc_header, rpc_response, share_list,
};
use crate::server::state::{counted, SessionModel};
use crate::server::step::{answered, Moment, StepView};
use crate::server::transfer::{read_body, write_body, write_step};
use crate::server::write_laws::write_data;
use crate::smb2::{
    response, Smb2Header, STATUS_END_OF_FILE, STATUS_INVALID_DEVICE_REQUEST,
    STATUS_INVALID_PARAMETER, STATUS_SUCCESS,
};
use crate::utf16::{law_text_reads_back, text_units, utf16le, utf16le_text};
use vstd::prelude::*;

verus! {

/// A message of that kind, in one piece, which gives its own length and answers
/// the call with that number.
pub open spec fn is_rpc(a: Seq<u8>, kind: u8, call_id: u32) -> bool {
    &&& a.len() >= 16
    &&& a[0] == 5 && a[1] == 0
    &&& a[2] == kind
    &&& a[3] == 3
    &&& le32_at(a, 4) == 0x10
    &&& le16_at(a, 8) == a.len()
    &&& le16_at(a, 10) == 0
    &&& le32_at(a, 12) == call_id
}

proof fn lemma_rpc_header(kind: u8, length: u16, call_id: u32)
    ensures
        ({
            let h = rpc_header(kind, length, call_id);
            &&& h.len() == 16
            &&& h[0] == 5 && h[1] == 0 && h[2] == kind && h[3] == 3
            &&& le32_at(h, 4) == 0x10
            &&& le16_at(h, 8) == length
            &&& le16_at(h, 10) == 0
            &&& le32_at(h, 12) == call_id
        }),
{
    let h = rpc_header(kind, length, call_id);
    assert(h.subrange(4, 8) =~= le32(0x10));
    assert(h.subrange(8, 10) =~= le16(length));
    assert(h.subrange(10, 12) =~= le16(0));
    assert(h.subrange(12, 16) =~= le32(call_id));
    lemma_le32_in(h, 4, 0x10);
    lemma_le16_in(h, 8, length);
    lemma_le16_in(h, 10, 0);
    lemma_le32_in(h, 12, call_id);
}

proof fn lemma_is_rpc(h: Seq<u8>, kind: u8, call_id: u32, tail: Seq<u8>)
    requires
        h.len() == 16,
        h[0] == 5 && h[1] == 0 && h[2] == kind && h[3] == 3,
        le32_at(h, 4) == 0x10,
        le16_at(h, 8) == 16 + tail.len(),
        le16_at(h, 10) == 0,
        le32_at(h, 12) == call_id,
    ensures
        is_rpc(h + tail, kind, call_id),
{
    let a = h + tail;
    assert(forall|i: int| 0 <= i < 16 ==> a[i] == h[i]);
    assert(le32_at(a, 4) == le32_at(h, 4));
    assert(le16_at(a, 8) == le16_at(h, 8));
    assert(le16_at(a, 10) == le16_at(h, 10));
    assert(le32_at(a, 12) == le32_at(h, 12));
}

proof fn lemma_rpc(kind: u8, length: u16, call_id: u32, tail: Seq<u8>)
    requires
        length == 16 + tail.len(),
    ensures
        is_rpc(rpc_header(kind, length, call_id) + tail, kind, call_id),
        rpc_header(kind, length, call_id).len() == 16,
{
    lemma_rpc_header(kind, length, call_id);
    lemma_is_rpc(rpc_header(kind, length, call_id), kind, call_id, tail);
}

/// A bind is acknowledged, under the number of its call.
pub proof fn law_binds_are_acknowledged(share: Seq<char>, input: Seq<u8>)
    requires
        input.len() >= 16,
        input[2] == 11,
    ensures
        is_rpc(rpc_answer(share, input), 12, le32_at(input, 12)),
        le16_at(rpc_answer(share, input), 16) == 4280,
        le16_at(rpc_answer(share, input), 18) == 4280,
{
    let id = le32_at(input, 12);
    let a = bind_ack(id);
    let h = rpc_header(12, crate::server::pipe::BIND_ACK_LENGTH, id);
    let tail = le16(4280) + le16(4280) + le32(1) + le16(13) + crate::server::pipe::pipe_address()
        + seq![0u8] + le32(1) + le16(0) + le16(0) + crate::server::pipe::ndr_syntax() + le32(2);
    assert(a =~= h + tail);
    lemma_rpc(12, crate::server::pipe::BIND_ACK_LENGTH, id, tail);
    assert(a.subrange(16, 18) =~= le16(4280));
    assert(a.subrange(18, 20) =~= le16(4280));
    lemma_le16_in(a, 16, 4280);
    lemma_le16_in(a, 18, 4280);
}

/// A text at `at` as NDR writes it: how many units there are, with the zero at
/// the end, twice, and then the units.
pub open spec fn ndr_reads(d: Seq<u8>, at: int, text: Seq<char>) -> bool {
    let count = le32_at(d, at) as int;
    &&& count > 0
    &&& le32_at(d, at + 4) == 0
    &&& le32_at(d, at + 8) == count
    &&& at + 12 + 2 * count <= d.len()
    &&& utf16le_text(d.subrange(at + 12, at + 12 + 2 * (count - 1))) == text
    &&& le16_at(d, at + 12 + 2 * (count - 1)) == 0
}

/// Where the text at `at` ends: at a multiple of four bytes.
pub open spec fn ndr_end(d: Seq<u8>, at: int) -> int {
    at + 12 + 2 * le32_at(d, at) + if le32_at(d, at) % 2 == 0 {
        0int
    } else {
        2int
    }
}

proof fn lemma_ndr(pre: Seq<u8>, text: Seq<char>, tail: Seq<u8>)
    requires
        text_units(text).len() < 0x1_0000,
    ensures
        ({
            let d = pre + ndr_text(text) + tail;
            let at = pre.len() as int;
            &&& ndr_reads(d, at, text)
            &&& ndr_end(d, at) == at + ndr_text(text).len()
        }),
{
    let d = pre + ndr_text(text) + tail;
    let at = pre.len() as int;
    let units = utf16le(text);
    law_text_reads_back(text);
    let count = text_units(text).len() + 1;
    assert(d.subrange(at, at + 4) =~= le32(count as u32));
    assert(d.subrange(at + 4, at + 4 + 4) =~= le32(0));
    assert(d.subrange(at + 8, at + 8 + 4) =~= le32(count as u32));
    assert(d.subrange(at + 12, at + 12 + 2 * (count - 1)) =~= units);
    let z = at + 12 + 2 * (count - 1);
    assert(d.subrange(z, z + 2) =~= le16(0));
    lemma_le32_in(d, at, count as u32);
    lemma_le32_in(d, at + 4, 0);
    lemma_le32_in(d, at + 8, count as u32);
    lemma_le16_in(d, z, 0);
}

/// The list of shares: one entry, a disk, with the name of the share and an empty
/// remark, and at the end that there is one and that all went well.
pub open spec fn lists_share(d: Seq<u8>, share: Seq<char>) -> bool {
    let remark = ndr_end(d, 36);
    &&& d.len() >= 60
    &&& le32_at(d, 0) == 1
    &&& le32_at(d, 4) == 1
    &&& le32_at(d, 12) == 1
    &&& le32_at(d, 20) == 1
    &&& le32_at(d, 28) == 0
    &&& ndr_reads(d, 36, share)
    &&& ndr_reads(d, remark, Seq::empty())
    &&& le32_at(d, ndr_end(d, remark)) == 1
    &&& d.len() == ndr_end(d, remark) + 12
    &&& le32_at(d, d.len() - 4) == 0
}

#[verifier::opaque]
spec fn list_head() -> Seq<u8> {
    le32(1) + le32(1) + le32(0x0002_0000) + le32(1) + le32(0x0002_0004) + le32(1) + le32(
        0x0002_0008,
    ) + le32(0) + le32(0x0002_000C)
}

#[verifier::opaque]
spec fn list_end() -> Seq<u8> {
    le32(1) + le32(0) + le32(0)
}

proof fn lemma_list_head(tail: Seq<u8>)
    ensures
        ({
            let d = list_head() + tail;
            &&& list_head().len() == 36
            &&& le32_at(d, 0) == 1
            &&& le32_at(d, 4) == 1
            &&& le32_at(d, 12) == 1
            &&& le32_at(d, 20) == 1
            &&& le32_at(d, 28) == 0
        }),
{
    reveal(list_head);
    let d = list_head() + tail;
    assert(d.subrange(0, 4) =~= le32(1));
    assert(d.subrange(4, 8) =~= le32(1));
    assert(d.subrange(12, 16) =~= le32(1));
    assert(d.subrange(20, 24) =~= le32(1));
    assert(d.subrange(28, 32) =~= le32(0));
    lemma_le32_in(d, 0, 1);
    lemma_le32_in(d, 4, 1);
    lemma_le32_in(d, 12, 1);
    lemma_le32_in(d, 20, 1);
    lemma_le32_in(d, 28, 0);
}

proof fn lemma_list_end(pre: Seq<u8>)
    ensures
        ({
            let d = pre + list_end();
            let z = pre.len() as int;
            &&& list_end().len() == 12
            &&& le32_at(d, z) == 1
            &&& le32_at(d, z + 8) == 0
        }),
{
    reveal(list_end);
    let d = pre + list_end();
    let z = pre.len() as int;
    assert(d.subrange(z, z + 4) =~= le32(1));
    assert(d.subrange(z + 8, z + 8 + 4) =~= le32(0));
    lemma_le32_in(d, z, 1);
    lemma_le32_in(d, z + 8, 0);
}

proof fn lemma_list_parts(share: Seq<char>)
    ensures
        share_list(share) == list_head() + ndr_text(share) + ndr_text(Seq::<char>::empty())
            + list_end(),
{
    reveal(list_head);
    reveal(list_end);
    let d = list_head() + ndr_text(share) + ndr_text(Seq::<char>::empty());
    assert(share_list(share) == d + le32(1) + le32(0) + le32(0));
    assert(d + le32(1) + le32(0) + le32(0) =~= d + list_end());
}

#[verifier::rlimit(40)]
proof fn lemma_share_list(share: Seq<char>)
    requires
        text_units(share).len() < 0x1000,
    ensures
        lists_share(share_list(share), share),
        share_list(share).len() < 0x4000,
{
    let d = share_list(share);
    let head = list_head();
    let name = ndr_text(share);
    let none = ndr_text(Seq::<char>::empty());
    let end = list_end();
    law_text_reads_back(share);
    law_text_reads_back(Seq::<char>::empty());
    lemma_list_parts(share);
    assert(d =~= head + (name + none + end));
    lemma_list_head(name + none + end);
    assert(d =~= head + name + (none + end));
    lemma_ndr(head, share, none + end);
    lemma_ndr(head + name, Seq::empty(), end);
    lemma_list_end(head + name + none);
}

/// Who asks for the list of shares, which is the call with number 15, gets the one
/// share by its name, under the number of the call.
pub proof fn law_the_share_is_listed(share: Seq<char>, input: Seq<u8>)
    requires
        input.len() >= 24,
        input[2] == 0,
        le16_at(input, 22) == 15,
        text_units(share).len() < 0x1000,
    ensures
        ({
            let a = rpc_answer(share, input);
            &&& is_rpc(a, 2, le32_at(input, 12))
            &&& le32_at(a, 16) == a.len() - 24
            &&& lists_share(a.skip(24), share)
        }),
{
    lemma_share_list(share);
    lemma_rpc_response(le32_at(input, 12), share_list(share));
}

#[verifier::rlimit(40)]
proof fn lemma_rpc_response(id: u32, stub: Seq<u8>)
    requires
        stub.len() < 0x4000,
    ensures
        ({
            let a = rpc_response(id, stub);
            &&& is_rpc(a, 2, id)
            &&& le32_at(a, 16) == a.len() - 24
            &&& a.skip(24) == stub
        }),
{
    let a = rpc_response(id, stub);
    let n = (24 + stub.len()) as u16;
    let h = rpc_header(2, n, id);
    let tail = le32(stub.len() as u32) + le16(0) + seq![0u8] + seq![0u8] + stub;
    lemma_rpc_header(2, n, id);
    assert(a =~= h + tail);
    lemma_rpc(2, n, id, tail);
    assert(tail.subrange(0, 4) =~= le32(stub.len() as u32));
    assert(a.subrange(16, 20) =~= tail.subrange(0, 4));
    lemma_le32_in(a, 16, stub.len() as u32);
    assert(tail.skip(8) =~= stub);
    assert(a.skip(24) =~= tail.skip(8));
}

/// To anything else the pipe has nothing to say.
pub proof fn law_the_pipe_knows_no_more(share: Seq<char>, input: Seq<u8>)
    requires
        ({
            ||| input.len() < 16
            ||| input[2] != 11 && input[2] != 0
            ||| input[2] == 0 && (input.len() < 24 || le16_at(input, 22) != 15)
        }),
    ensures
        rpc_answer(share, input).len() == 0,
{
}

/// The message names an open pipe, at that place.
pub open spec fn is_on_pipe(m: SessionModel, msg: Seq<u8>, at: int) -> bool {
    let fid = meant(m, le64_at(msg, at));
    &&& m.handles.contains_key(fid)
    &&& m.handles[fid].is_pipe
}

proof fn lemma_pipe_write(m: SessionModel, hdr: Smb2Header, msg: Seq<u8>)
    requires
        msg.len() >= 96,
        has_part(msg, le16_at(msg, 66) as int, le32_at(msg, 68) as int),
        is_on_pipe(m, msg, 80),
    ensures
        ({
            let fid = meant(m, le64_at(msg, 80));
            let (o, s) = write_step(m, hdr, msg.skip(64));
            &&& s == answered(hdr, STATUS_SUCCESS, write_body(le32_at(msg, 68)))
            &&& o.handles.contains_key(fid)
            &&& o.handles[fid].is_pipe
            &&& o.handles[fid].answer == Some(rpc_answer(m.share, write_data(msg)))
            &&& o.handles.remove(fid) == m.handles.remove(fid)
            &&& o.last_create_handle == m.last_create_handle
            &&& o.root == m.root
        }),
{
    lemma_fields(msg, 2);
    lemma_fields(msg, 4);
    lemma_fields(msg, 16);
    let at = le16_at(msg, 66) as int;
    let start: int = if at < 64 {
        0
    } else {
        at - 64
    };
    let n = le32_at(msg, 68) as int;
    assert(msg.skip(64).subrange(start, start + n) =~= write_data(msg));
    let fid = meant(m, le64_at(msg, 80));
    let (o, _) = write_step(m, hdr, msg.skip(64));
    assert(o.handles.remove(fid) =~= m.handles.remove(fid));
}

/// What is written to the pipe is taken as a call, and the pipe keeps its answer,
/// which goes by the bytes of the request. The count in the response is theirs.
#[verifier::rlimit(40)]
pub proof fn law_pipes_take_calls(m: SessionModel, msg: Seq<u8>, t: Moment)
    requires
        is_request(msg, 9),
        msg.len() >= 96,
        has_part(msg, le16_at(msg, 66) as int, le32_at(msg, 68) as int),
        is_on_pipe(m, msg, 80),
    ensures
        ({
            let fid = meant(m, le64_at(msg, 80));
            let (o, s) = message_step(m, msg, t);
            &&& s matches StepView::Reply(r) && status_in(r) == 0 && le32_at(body_in(r), 4)
                == le32_at(msg, 68)
            &&& o.handles.contains_key(fid)
            &&& o.handles[fid].is_pipe
            &&& o.handles[fid].answer == Some(rpc_answer(m.share, write_data(msg)))
            &&& o.handles.remove(fid) == m.handles.remove(fid)
        }),
{
    lemma_request(m, msg, 9, t);
    let hdr = request_header(msg);
    let c = counted(m, t.now);
    lemma_pipe_write(c, hdr, msg);
    let b = write_body(le32_at(msg, 68));
    lemma_reply(hdr, STATUS_SUCCESS, b);
    assert(b.subrange(4, 8) =~= le32(le32_at(msg, 68)));
    lemma_le32_in(b, 4, le32_at(msg, 68));
}

/// Reading the pipe gives the answer that it keeps, whole and once. Where there is
/// none, there is nothing to read.
#[verifier::rlimit(40)]
pub proof fn law_pipes_give_answers(m: SessionModel, msg: Seq<u8>, t: Moment)
    requires
        is_request(msg, 8),
        msg.len() >= 96,
        is_on_pipe(m, msg, 80),
        m.handles[meant(m, le64_at(msg, 80))].answer matches Some(a) ==> a.len() <= u32::MAX,
    ensures
        ({
            let fid = meant(m, le64_at(msg, 80));
            let (o, s) = message_step(m, msg, t);
            &&& s matches StepView::Reply(r) && match m.handles[fid].answer {
                Some(a) => status_in(r) == 0 && le32_at(body_in(r), 4) == a.len() && r.skip(84)
                    == a,
                None => status_in(r) == 0xC000_0011,
            }
            &&& o.handles.contains_key(fid)
            &&& o.handles[fid].answer is None
        }),
{
    lemma_request(m, msg, 8, t);
    lemma_fields(msg, 16);
    let hdr = request_header(msg);
    let fid = meant(m, le64_at(msg, 80));
    lemma_refusal(hdr, STATUS_END_OF_FILE);
    if let Some(a) = m.handles[fid].answer {
        let b = read_body(a);
        lemma_reply(hdr, STATUS_SUCCESS, b);
        let r = response(hdr, STATUS_SUCCESS, b);
        assert(b.subrange(4, 8) =~= le32(a.len() as u32));
        lemma_le32_in(b, 4, a.len() as u32);
        assert(b.skip(16) =~= a);
        assert(r.skip(84) =~= body_in(r).skip(16));
    }
}

/// An answer to a transaction on the pipe with that handle.
#[verifier::opaque]
pub open spec fn is_transaction(r: Seq<u8>, fid: u64, output: Seq<u8>) -> bool {
    let b = body_in(r);
    &&& status_in(r) == 0
    &&& r.len() == 68 + 48 + output.len()
    &&& le16_at(b, 0) == 49
    &&& le32_at(b, 4) == 0x0011_C017
    &&& le64_at(b, 8) == fid
    &&& le64_at(b, 16) == fid
    &&& le32_at(b, 32) == 112
    &&& output.len() <= u32::MAX ==> le32_at(b, 36) == output.len()
    &&& r.skip(116) == output
}

proof fn lemma_transaction(hdr: Smb2Header, fid: u64, output: Seq<u8>)
    ensures
        answered(hdr, STATUS_SUCCESS, ioctl_body(0x0011_C017, fid, output)) matches StepView::Reply(
            r,
        ) && is_transaction(r, fid, output),
{
    reveal(is_transaction);
    let b = ioctl_body(0x0011_C017, fid, output);
    lemma_reply(hdr, STATUS_SUCCESS, b);
    let r = response(hdr, STATUS_SUCCESS, b);
    assert(b.subrange(0, 2) =~= le16(49));
    assert(b.subrange(4, 8) =~= le32(0x0011_C017));
    assert(b.subrange(8, 16) =~= le64(fid));
    assert(b.subrange(16, 24) =~= le64(fid));
    assert(b.subrange(32, 36) =~= le32(112));
    assert(b.subrange(36, 40) =~= le32(output.len() as u32));
    lemma_le16_in(b, 0, 49);
    lemma_le32_in(b, 4, 0x0011_C017);
    lemma_le64_in(b, 8, fid);
    lemma_le64_in(b, 16, fid);
    lemma_le32_in(b, 32, 112);
    lemma_le32_in(b, 36, output.len() as u32);
    assert(b.skip(48) =~= output);
    assert(r.skip(116) =~= body_in(r).skip(48));
}

/// The bytes that a transaction carries; none where they do not lie within it.
pub open spec fn asked_call(msg: Seq<u8>) -> Seq<u8> {
    let at = le32_at(msg, 88) as int;
    let n = le32_at(msg, 92) as int;
    if has_part(msg, at, n) {
        part_at(msg, at, n)
    } else {
        Seq::empty()
    }
}

proof fn lemma_ioctl(m: SessionModel, hdr: Smb2Header, msg: Seq<u8>)
    requires
        msg.len() >= 120,
    ensures
        ({
            let fid = meant(m, le64_at(msg, 72));
            let s = ioctl_step(m, hdr, msg.skip(64));
            if le32_at(msg, 68) != 0x0011_C017 {
                s matches StepView::Reply(r) && status_in(r) == 0xC000_0010
            } else if is_on_pipe(m, msg, 72) {
                s matches StepView::Reply(r) && is_transaction(
                    r,
                    fid,
                    rpc_answer(m.share, asked_call(msg)),
                )
            } else {
                s matches StepView::Reply(r) && status_in(r) == 0xC000_000D
            }
        }),
{
    lemma_fields(msg, 4);
    lemma_fields(msg, 8);
    lemma_fields(msg, 24);
    lemma_fields(msg, 28);
    let at = le32_at(msg, 88) as int;
    let n = le32_at(msg, 92) as int;
    let start: int = if at < 64 {
        0
    } else {
        at - 64
    };
    if start + n <= msg.skip(64).len() {
        assert(msg.skip(64).subrange(start, start + n) =~= part_at(msg, at, n));
    }
    let fid = meant(m, le64_at(msg, 72));
    lemma_transaction(hdr, fid, rpc_answer(m.share, asked_call(msg)));
    lemma_refusal(hdr, STATUS_INVALID_DEVICE_REQUEST);
    lemma_refusal(hdr, STATUS_INVALID_PARAMETER);
}

/// A transaction on the pipe is answered at once, as the call in it is. It is for
/// the pipe alone, and there is no other control.
#[verifier::rlimit(40)]
pub proof fn law_transactions_are_answered(m: SessionModel, msg: Seq<u8>, t: Moment)
    requires
        is_request(msg, 11),
        msg.len() >= 120,
    ensures
        ({
            let fid = meant(m, le64_at(msg, 72));
            let (o, s) = message_step(m, msg, t);
            &&& o.handles == m.handles
            &&& if le32_at(msg, 68) != 0x0011_C017 {
                s matches StepView::Reply(r) && status_in(r) == 0xC000_0010
            } else if is_on_pipe(m, msg, 72) {
                s matches StepView::Reply(r) && is_transaction(
                    r,
                    fid,
                    rpc_answer(m.share, asked_call(msg)),
                )
            } else {
                s matches StepView::Reply(r) && status_in(r) == 0xC000_000D
            }
        }),
{
    lemma_request(m, msg, 11, t);
    lemma_ioctl(counted(m, t.now), request_header(msg), msg);
}

} // verus!

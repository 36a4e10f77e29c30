//! Named pipes: the remote procedure call that lists the shares, and IOCTL.

use crate::bytes::{
    le16, le16_at, le32, le32_at, le64, le64_at, put_all, put_u16_le, put_u32_le, put_u64_le,
    put_u8, put_zeros, read_u16_le, read_u32_le, read_u64_le, zeros,
};
use crate::server::setup::{find_part, pointed_at};
use crate::server::state::{resolved, SessionModel, SmbSession};
use crate::server::step::{answer, answered, error_response, refused, Step, StepView};
use crate::smb2::{
    Smb2Header, FSCTL_PIPE_TRANSACT, SMB2_HEADER_SIZE, STATUS_INVALID_DEVICE_REQUEST,
    STATUS_INVALID_PARAMETER, STATUS_SUCCESS,
};
use crate::utf16::{text_units, to_utf16le, utf16le};
use vstd::prelude::*;
use vstd::slice::slice_subrange;

verus! {

// ── The list of shares ──────────────────────────────────────────────

/// A text in NDR: its length twice, with the zero at its end counted, and its
/// units, up to the next multiple of four bytes.
pub open spec fn ndr_text(s: Seq<char>) -> Seq<u8> {
    let count = text_units(s).len() + 1;
    le32(count as u32) + le32(0) + le32(count as u32) + utf16le(s) + le16(0) + zeros(
        if count % 2 == 0 {
            0
        } else {
            2
        },
    )
}

/// The list of shares: one, on a disk, without a comment.
pub open spec fn share_list(share: Seq<char>) -> Seq<u8> {
    le32(1) + le32(1) + le32(0x0002_0000) + le32(1) + le32(0x0002_0004) + le32(1) + le32(
        0x0002_0008,
    ) + le32(0) + le32(0x0002_000C) + ndr_text(share) + ndr_text(Seq::empty()) + le32(1) + le32(0)
        + le32(0)
}

fn put_ndr_text(out: &mut Vec<u8>, s: &str)
    ensures
        final(out)@ == old(out)@ + ndr_text(s@),
{
    let bytes = to_utf16le(s);
    proof {
        crate::utf16::law_text_reads_back(s@);
    }
    let count = bytes.len() as u64 / 2 + 1;
    let count32 =
        #[verifier::truncate]
        (count as u32);
    put_u32_le(out, count32);
    put_u32_le(out, 0);
    put_u32_le(out, count32);
    put_all(out, &bytes);
    put_u16_le(out, 0);
    put_zeros(
        out,
        if count % 2 == 0 {
            0
        } else {
            2
        },
    );
    assert(out@ =~= old(out)@ + ndr_text(s@));
}

fn build_share_list(share: &str) -> (out: Vec<u8>)
    ensures
        out@ == share_list(share@),
{
    let mut out: Vec<u8> = Vec::new();
    put_u32_le(&mut out, 1);
    assert(out@ =~= le32(1));
    put_u32_le(&mut out, 1);
    put_u32_le(&mut out, 0x0002_0000);
    put_u32_le(&mut out, 1);
    put_u32_le(&mut out, 0x0002_0004);
    put_u32_le(&mut out, 1);
    put_u32_le(&mut out, 0x0002_0008);
    put_u32_le(&mut out, 0);
    put_u32_le(&mut out, 0x0002_000C);
    put_ndr_text(&mut out, share);
    let comment = String::new();
    assert(comment@ =~= Seq::empty());
    put_ndr_text(&mut out, &comment);
    put_u32_le(&mut out, 1);
    put_u32_le(&mut out, 0);
    put_u32_le(&mut out, 0);
    out
}

// ── Remote procedure calls ──────────────────────────────────────────

/// The start of every answer: version, kind, whole in one piece, byte order,
/// length, no authentication, and the call that it belongs to.
pub open spec fn rpc_header(kind: u8, length: u16, call_id: u32) -> Seq<u8> {
    seq![5u8] + seq![0u8] + seq![kind] + seq![3u8] + le32(0x10) + le16(length) + le16(0) + le32(
        call_id,
    )
}

fn put_rpc_header(kind: u8, length: u16, call_id: u32) -> (out: Vec<u8>)
    ensures
        out@ == rpc_header(kind, length, call_id),
{
    let mut out: Vec<u8> = Vec::new();
    put_u8(&mut out, 5);
    assert(out@ =~= seq![5u8]);
    put_u8(&mut out, 0);
    put_u8(&mut out, kind);
    put_u8(&mut out, 3);
    put_u32_le(&mut out, 0x10);
    put_u16_le(&mut out, length);
    put_u16_le(&mut out, 0);
    put_u32_le(&mut out, call_id);
    out
}

/// The name of the pipe, with the zero at its end.
pub open spec fn pipe_address() -> Seq<u8> {
    seq![
        0x5Cu8,
        0x50u8,
        0x49u8,
        0x50u8,
        0x45u8,
        0x5Cu8,
        0x73u8,
        0x72u8,
        0x76u8,
        0x73u8,
        0x76u8,
        0x63u8,
        0u8,
    ]
}

/// The identifier of the NDR transfer syntax.
pub open spec fn ndr_syntax() -> Seq<u8> {
    seq![
        0x04u8,
        0x5du8,
        0x88u8,
        0x8au8,
        0xebu8,
        0x1cu8,
        0xc9u8,
        0x11u8,
        0x9fu8,
        0xe8u8,
        0x08u8,
        0x00u8,
        0x2bu8,
        0x10u8,
        0x48u8,
        0x60u8,
    ]
}

/// The length of the answer to a bind.
pub const BIND_ACK_LENGTH: u16 = 68;

/// The answer to a bind: it is accepted.
pub open spec fn bind_ack(call_id: u32) -> Seq<u8> {
    rpc_header(12, BIND_ACK_LENGTH, call_id) + le16(4280) + le16(4280) + le32(1) + le16(13)
        + pipe_address() + seq![0u8] + le32(1) + le16(0) + le16(0) + ndr_syntax() + le32(2)
}

/// The answer to a bind says how long it is, and its results start at a
/// multiple of four bytes.
pub proof fn law_bind_ack_length(call_id: u32)
    ensures
        bind_ack(call_id).len() == BIND_ACK_LENGTH,
        (rpc_header(12, BIND_ACK_LENGTH, call_id) + le16(4280) + le16(4280) + le32(1) + le16(13)
            + pipe_address() + seq![0u8]).len() % 4 == 0,
{
}

/// The answer to a request.
pub open spec fn rpc_response(call_id: u32, stub: Seq<u8>) -> Seq<u8> {
    rpc_header(2, (24 + stub.len()) as u16, call_id) + le32(stub.len() as u32) + le16(0)
        + seq![0u8] + seq![0u8] + stub
}

/// The answer to a message on the pipe. Only binds and requests for the list of
/// shares have one.
pub open spec fn rpc_answer(share: Seq<char>, input: Seq<u8>) -> Seq<u8> {
    if input.len() < 16 {
        Seq::empty()
    } else if input[2] == 11 {
        bind_ack(le32_at(input, 12))
    } else if input[2] == 0 && input.len() >= 24 && le16_at(input, 22) == 15 {
        rpc_response(le32_at(input, 12), share_list(share))
    } else {
        Seq::empty()
    }
}

fn dcerpc_bind_ack(call_id: u32) -> (out: Vec<u8>)
    ensures
        out@ == bind_ack(call_id),
{
    let mut address: Vec<u8> = Vec::new();
    address.push(0x5C);
    address.push(0x50);
    address.push(0x49);
    address.push(0x50);
    address.push(0x45);
    address.push(0x5C);
    address.push(0x73);
    address.push(0x72);
    address.push(0x76);
    address.push(0x73);
    address.push(0x76);
    address.push(0x63);
    address.push(0);
    assert(address@ =~= pipe_address());
    let mut syntax: Vec<u8> = Vec::new();
    syntax.push(0x04);
    syntax.push(0x5d);
    syntax.push(0x88);
    syntax.push(0x8a);
    syntax.push(0xeb);
    syntax.push(0x1c);
    syntax.push(0xc9);
    syntax.push(0x11);
    syntax.push(0x9f);
    syntax.push(0xe8);
    syntax.push(0x08);
    syntax.push(0x00);
    syntax.push(0x2b);
    syntax.push(0x10);
    syntax.push(0x48);
    syntax.push(0x60);
    assert(syntax@ =~= ndr_syntax());
    let mut out = put_rpc_header(12, BIND_ACK_LENGTH, call_id);
    put_u16_le(&mut out, 4280);
    put_u16_le(&mut out, 4280);
    put_u32_le(&mut out, 1);
    put_u16_le(&mut out, 13);
    put_all(&mut out, &address);
    put_u8(&mut out, 0);
    put_u32_le(&mut out, 1);
    put_u16_le(&mut out, 0);
    put_u16_le(&mut out, 0);
    put_all(&mut out, &syntax);
    put_u32_le(&mut out, 2);
    out
}

fn dcerpc_response(call_id: u32, stub: &[u8]) -> (out: Vec<u8>)
    ensures
        out@ == rpc_response(call_id, stub@),
{
    let length = 24 + stub.len() as u128;
    let mut out = put_rpc_header(
        2,
        #[verifier::truncate]
        (length as u16),
        call_id,
    );
    put_u32_le(
        &mut out,
        #[verifier::truncate]
        (stub.len() as u32),
    );
    put_u16_le(&mut out, 0);
    put_u8(&mut out, 0);
    put_u8(&mut out, 0);
    put_all(&mut out, stub);
    out
}

// ── IOCTL ───────────────────────────────────────────────────────────

/// The body of a response to IOCTL.
pub open spec fn ioctl_body(code: u32, fid: u64, output: Seq<u8>) -> Seq<u8> {
    le16(49) + le16(0) + le32(code) + le64(fid) + le64(fid) + le32(0) + le32(0) + le32(
        (SMB2_HEADER_SIZE + 48) as u32,
    ) + le32(output.len() as u32) + le32(0) + le32(0) + output
}

/// The data of an IOCTL request; none where it does not lie within the request.
pub open spec fn ioctl_input(body: Seq<u8>) -> Seq<u8> {
    match pointed_at(body, le32_at(body, 24) as nat, le32_at(body, 28) as nat) {
        Some(d) => d,
        None => Seq::empty(),
    }
}

/// Handling IOCTL: a message to a pipe is answered at once.
pub open spec fn ioctl_step(m: SessionModel, hdr: Smb2Header, body: Seq<u8>) -> StepView {
    if body.len() < 56 {
        refused(hdr, STATUS_INVALID_PARAMETER)
    } else {
        let code = le32_at(body, 4);
        let fid = resolved(m, le64_at(body, 8));
        if code != FSCTL_PIPE_TRANSACT {
            refused(hdr, STATUS_INVALID_DEVICE_REQUEST)
        } else if !(m.handles.contains_key(fid) && m.handles[fid].is_pipe) {
            refused(hdr, STATUS_INVALID_PARAMETER)
        } else {
            answered(
                hdr,
                STATUS_SUCCESS,
                ioctl_body(code, fid, rpc_answer(m.share, ioctl_input(body))),
            )
        }
    }
}

impl SmbSession {
    /// Answers a message on the pipe.
    pub fn handle_dcerpc(&self, input: &[u8]) -> (out: Vec<u8>)
        ensures
            out@ == rpc_answer(self@.share, input@),
    {
        if input.len() >= 16 {
            if input[2] == 11 {
                return dcerpc_bind_ack(read_u32_le(input, 12));
            }
            if input[2] == 0 {
                return self.dcerpc_request(input);
            }
        }
        let nothing: Vec<u8> = Vec::new();
        assert(nothing@ =~= Seq::empty());
        nothing
    }

    fn dcerpc_request(&self, input: &[u8]) -> (out: Vec<u8>)
        requires
            input@.len() >= 16,
            input@[2] == 0,
        ensures
            out@ == rpc_answer(self@.share, input@),
    {
        if input.len() >= 24 && read_u16_le(input, 22) == 15 {
            let stub = build_share_list(&self.share_name);
            return dcerpc_response(read_u32_le(input, 12), &stub);
        }
        let nothing: Vec<u8> = Vec::new();
        assert(nothing@ =~= Seq::empty());
        nothing
    }

    /// Handles IOCTL.
    pub fn handle_ioctl(&self, hdr: &Smb2Header, body: &[u8]) -> (s: Step)
        ensures
            s@ == ioctl_step(self@, *hdr, body@),
    {
        if body.len() < 56 {
            return error_response(hdr, STATUS_INVALID_PARAMETER);
        }
        let code = read_u32_le(body, 4);
        let fid = self.resolve_fid(read_u64_le(body, 8));
        if code != FSCTL_PIPE_TRANSACT {
            return error_response(hdr, STATUS_INVALID_DEVICE_REQUEST);
        }
        let is_pipe = match self.handles.get(fid) {
            Some(h) => h.is_pipe,
            None => false,
        };
        if !is_pipe {
            return error_response(hdr, STATUS_INVALID_PARAMETER);
        }
        let input = match find_part(body, read_u32_le(body, 24), read_u32_le(body, 28)) {
            Some(d) => d,
            None => slice_subrange(body, 0, 0),
        };
        assert(input@ =~= ioctl_input(body@));
        let output = self.handle_dcerpc(input);
        let mut resp: Vec<u8> = Vec::new();
        put_u16_le(&mut resp, 49);
        assert(resp@ =~= le16(49));
        put_u16_le(&mut resp, 0);
        put_u32_le(&mut resp, code);
        put_u64_le(&mut resp, fid);
        put_u64_le(&mut resp, fid);
        put_u32_le(&mut resp, 0);
        put_u32_le(&mut resp, 0);
        put_u32_le(&mut resp, (SMB2_HEADER_SIZE + 48) as u32);
        put_u32_le(
            &mut resp,
            #[verifier::truncate]
            (output.len() as u32),
        );
        put_u32_le(&mut resp, 0);
        put_u32_le(&mut resp, 0);
        put_all(&mut resp, &output);
        answer(hdr, STATUS_SUCCESS, &resp)
    }
}

} // verus!

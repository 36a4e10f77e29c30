//! Packets: their types, their framing, and the answers that need no state.

use crate::bytes::{be32, be32_at, copy_range, put_all, put_u32_be, put_u8, read_u32_be};
use crate::text::{concat, decimal, decimal_text, str_eq};
use crate::wire::{
    entries_view, outcome, parse_attrs, parse_bytes, parse_text, parse_u32, protocol_error,
    text_outcome, bytes_outcome, entries_outcome, DirEntry, EntryView, Fault, FileAttr, Reader,
    SftpError, SftpResult,
};
use vstd::prelude::*;
use vstd::slice::slice_subrange;

verus! {

// Packet types
pub const SSH_FXP_INIT: u8 = 1;

pub const SSH_FXP_VERSION: u8 = 2;

pub const SSH_FXP_OPEN: u8 = 3;

pub const SSH_FXP_CLOSE: u8 = 4;

pub const SSH_FXP_READ: u8 = 5;

pub const SSH_FXP_WRITE: u8 = 6;

pub const SSH_FXP_LSTAT: u8 = 7;

pub const SSH_FXP_SETSTAT: u8 = 9;

pub const SSH_FXP_OPENDIR: u8 = 11;

pub const SSH_FXP_READDIR: u8 = 12;

pub const SSH_FXP_REMOVE: u8 = 13;

pub const SSH_FXP_MKDIR: u8 = 14;

pub const SSH_FXP_RMDIR: u8 = 15;

pub const SSH_FXP_REALPATH: u8 = 16;

pub const SSH_FXP_STAT: u8 = 17;

pub const SSH_FXP_RENAME: u8 = 18;

pub const SSH_FXP_SYMLINK: u8 = 20;

// Response types
pub const SSH_FXP_STATUS: u8 = 101;

pub const SSH_FXP_HANDLE: u8 = 102;

pub const SSH_FXP_DATA: u8 = 103;

pub const SSH_FXP_NAME: u8 = 104;

pub const SSH_FXP_ATTRS: u8 = 105;

// Status codes
pub const SSH_FX_OK: u32 = 0;

pub const SSH_FX_EOF: u32 = 1;

pub const SSH_FX_NO_SUCH_FILE: u32 = 2;

// Open flags
pub const SSH_FXF_READ: u32 = 0x0000_0001;

pub const SSH_FXF_WRITE: u32 = 0x0000_0002;

pub const SSH_FXF_CREAT: u32 = 0x0000_0008;

pub const SSH_FXF_TRUNC: u32 = 0x0000_0010;

pub const SSH_FXF_EXCL: u32 = 0x0000_0020;

pub const SSH_FXF_APPEND: u32 = 0x0000_0004;

pub const SFTP_PROTO_VERSION: u32 = 3;

/// The longest packet that is taken from a server.
pub const MAX_PACKET_SIZE: u32 = 524288;

/// The most bytes that one read request asks for.
pub const MAX_READ_SIZE: u32 = 262144;

/// The most bytes that one write request carries.
pub const MAX_WRITE_SIZE: u32 = 262144;

/// How many read requests are in flight at once.
pub const READ_PIPELINE: usize = 32;

/// How many write requests are in flight at once.
pub const WRITE_PIPELINE: usize = 16;

// ── Framing ─────────────────────────────────────────────────────────

/// A packet on the wire: its length, its type, the request id, the payload.
pub open spec fn packet(kind: u8, id: u32, payload: Seq<u8>) -> Seq<u8> {
    be32((5 + payload.len()) as u32) + seq![kind] + be32(id) + payload
}

/// The packet that opens a conversation, which has no request id.
pub open spec fn bare_packet(kind: u8, payload: Seq<u8>) -> Seq<u8> {
    be32((1 + payload.len()) as u32) + seq![kind] + payload
}

/// Appends a packet.
pub fn put_packet(out: &mut Vec<u8>, kind: u8, id: u32, payload: &[u8])
    ensures
        final(out)@ == old(out)@ + packet(kind, id, payload@),
{
    let total: u128 = 5 + payload.len() as u128;
    put_u32_be(out, #[verifier::truncate] (total as u32));
    put_u8(out, kind);
    put_u32_be(out, id);
    put_all(out, payload);
    assert(out@ =~= old(out)@ + packet(kind, id, payload@));
}

/// Builds a packet.
pub fn make_packet(kind: u8, id: u32, payload: &[u8]) -> (out: Vec<u8>)
    ensures
        out@ == packet(kind, id, payload@),
{
    let mut out: Vec<u8> = Vec::new();
    put_packet(&mut out, kind, id, payload);
    assert(out@ =~= packet(kind, id, payload@));
    out
}

/// Builds a packet without a request id.
pub fn make_bare_packet(kind: u8, payload: &[u8]) -> (out: Vec<u8>)
    ensures
        out@ == bare_packet(kind, payload@),
{
    let mut out: Vec<u8> = Vec::new();
    let total: u128 = 1 + payload.len() as u128;
    put_u32_be(&mut out, #[verifier::truncate] (total as u32));
    put_u8(&mut out, kind);
    put_all(&mut out, payload);
    assert(out@ =~= bare_packet(kind, payload@));
    out
}

/// What the four bytes before a packet announce: a length from 1 to
/// [`MAX_PACKET_SIZE`]. With any other the stream is out of step for good.
pub open spec fn announced_length(header: Seq<u8>) -> Result<u32, Fault> {
    let n = be32_at(header, 0);
    if n == 0 || n > MAX_PACKET_SIZE {
        Err(Fault::Disconnected)
    } else {
        Ok(n)
    }
}

/// Reads the four bytes before a packet.
pub fn packet_length(header: &[u8]) -> (r: SftpResult<u32>)
    requires
        header@.len() == 4,
    ensures
        outcome(r) == announced_length(header@),
{
    let n = read_u32_be(header, 0);
    if n == 0 || n > MAX_PACKET_SIZE {
        return Err(SftpError::Disconnected);
    }
    Ok(n)
}

/// Parts a packet, without the length before it, into its type and the rest.
pub fn split_packet(data: &[u8]) -> (r: (u8, Vec<u8>))
    requires
        data@.len() > 0,
    ensures
        r.0 == data@[0],
        r.1@ == data@.skip(1),
{
    let body = copy_range(data, 1, data.len());
    assert(body@ =~= data@.skip(1));
    (data[0], body)
}

/// A packet that was framed comes out of the framing again: its length is
/// announced and its type, id and payload follow.
pub proof fn law_framing_round_trip(kind: u8, id: u32, payload: Seq<u8>)
    requires
        payload.len() + 5 <= MAX_PACKET_SIZE,
    ensures
        announced_length(packet(kind, id, payload).take(4)) == Ok::<u32, Fault>(
            (payload.len() + 5) as u32,
        ),
        packet(kind, id, payload).skip(4).len() == payload.len() + 5,
        packet(kind, id, payload).skip(4)[0] == kind,
        packet(kind, id, payload).skip(5) == be32(id) + payload,
        be32_at(packet(kind, id, payload).skip(5), 0) == id,
{
    let p = packet(kind, id, payload);
    let n = (payload.len() + 5) as u32;
    assert(p.take(4) =~= be32(n));
    crate::bytes::law_be32_round_trip(n);
    crate::bytes::law_be32_round_trip(id);
    assert(p.skip(5) =~= be32(id) + payload);
    let t = be32(id) + payload;
    assert(t[0] == be32(id)[0] && t[1] == be32(id)[1] && t[2] == be32(id)[2] && t[3] == be32(
        id,
    )[3]);
}

/// What is to be done to read a packet, in terms of sequences.
pub enum PacketView {
    /// So many more bytes have to arrive.
    More(nat),
    /// The packet is there: its type and the rest.
    Packet(u8, Seq<u8>),
    /// There is no packet to be had from this stream any more.
    Lost(Fault),
}

/// What is to be done to read a packet.
pub enum PacketTurn {
    /// So many more bytes have to arrive.
    More(usize),
    /// The packet is there: its type and the rest.
    Packet(u8, Vec<u8>),
    /// There is no packet to be had from this stream any more.
    Lost(SftpError),
}

impl View for PacketTurn {
    type V = PacketView;

    open spec fn view(&self) -> PacketView {
        match self {
            PacketTurn::More(n) => PacketView::More(*n as nat),
            PacketTurn::Packet(kind, data) => PacketView::Packet(*kind, data@),
            PacketTurn::Lost(e) => PacketView::Lost(e@),
        }
    }
}

/// What is to be done to read a packet of which these bytes have arrived.
pub open spec fn packet_turn(arrived: Seq<u8>) -> PacketView {
    if arrived.len() < 4 {
        PacketView::More((4 - arrived.len()) as nat)
    } else {
        match announced_length(arrived.take(4)) {
            Err(e) => PacketView::Lost(e),
            Ok(n) => if arrived.len() < 4 + n {
                PacketView::More((4 + n - arrived.len()) as nat)
            } else {
                PacketView::Packet(arrived[4], arrived.subrange(5, 4 + n))
            },
        }
    }
}

/// Says what is to be done to read a packet of which these bytes have arrived.
pub fn read_packet(arrived: &[u8]) -> (t: PacketTurn)
    ensures
        t@ == packet_turn(arrived@),
{
    if arrived.len() < 4 {
        return PacketTurn::More(4 - arrived.len());
    }
    let header = copy_range(arrived, 0, 4);
    assert(header@ =~= arrived@.take(4));
    let n = match packet_length(&header) {
        Ok(n) => n,
        Err(e) => return PacketTurn::Lost(e),
    };
    let end: usize = 4 + n as usize;
    if arrived.len() < end {
        return PacketTurn::More(end - arrived.len());
    }
    let data = copy_range(arrived, 4, end);
    let (kind, rest) = split_packet(&data);
    assert(rest@ =~= arrived@.subrange(5, end as int));
    PacketTurn::Packet(kind, rest)
}

/// What comes of reading a packet from a stream, and how many bytes are taken
/// from it for that.
pub open spec fn from_stream(stream: Seq<u8>) -> (Result<(u8, Seq<u8>), Fault>, nat) {
    if stream.len() < 4 {
        (Err(Fault::Disconnected), stream.len())
    } else {
        match announced_length(stream.take(4)) {
            Err(e) => (Err(e), 4),
            Ok(n) => if stream.len() < 4 + n {
                (Err(Fault::Disconnected), stream.len())
            } else {
                (Ok((stream[4], stream.subrange(5, 4 + n))), (4 + n) as nat)
            },
        }
    }
}

/// Who takes from a stream what a packet still needs, and no more, until it is
/// there, gets it from the first bytes of the stream: while some are missing no
/// more are asked for than belong to it, and with them it is complete. It is lost
/// only where its length cannot be right, or where the stream ends before it.
pub proof fn law_packets_come_from_streams(stream: Seq<u8>, taken: nat)
    requires
        taken <= from_stream(stream).1,
    ensures
        match packet_turn(stream.take(taken as int)) {
            PacketView::More(n) => {
                &&& n > 0
                &&& match from_stream(stream) {
                    (Ok(_), whole) => taken + n <= whole,
                    (Err(e), _) => e == Fault::Disconnected,
                }
            },
            PacketView::Packet(kind, data) => from_stream(stream) == (
                Ok::<(u8, Seq<u8>), Fault>((kind, data)),
                taken,
            ),
            PacketView::Lost(e) => e == Fault::Disconnected && from_stream(stream) == (
                Err::<(u8, Seq<u8>), Fault>(e),
                taken,
            ),
        },
        from_stream(stream).0 matches Err(e) ==> {
            &&& e == Fault::Disconnected
            &&& stream.len() < 4 || be32_at(stream, 0) == 0 || be32_at(stream, 0) > MAX_PACKET_SIZE
                || stream.len() < 4 + be32_at(stream, 0)
        },
{
    let got = stream.take(taken as int);
    if taken >= 4 {
        assert(got.take(4) =~= stream.take(4));
        if let Ok(n) = announced_length(stream.take(4)) {
            if taken == 4 + n {
                assert(got.subrange(5, 4 + n) =~= stream.subrange(5, 4 + n));
            }
        }
    }
}

/// A packet that was written comes out of a stream again, whatever follows it,
/// and the stream goes on right behind it.
pub proof fn law_stream_round_trip(kind: u8, id: u32, payload: Seq<u8>, rest: Seq<u8>)
    requires
        payload.len() + 5 <= MAX_PACKET_SIZE,
    ensures
        from_stream(packet(kind, id, payload) + rest) == (
            Ok::<(u8, Seq<u8>), Fault>((kind, be32(id) + payload)),
            packet(kind, id, payload).len(),
        ),
        packet(kind, id, payload).len() == 9 + payload.len(),
        (packet(kind, id, payload) + rest).skip(9 + payload.len() as int) == rest,
{
    let p = packet(kind, id, payload);
    let stream = p + rest;
    law_framing_round_trip(kind, id, payload);
    assert(stream.take(4) =~= p.take(4));
    assert(stream.subrange(5, 9 + payload.len() as int) =~= p.skip(5));
    assert(stream.skip(9 + payload.len() as int) =~= rest);
}

// ── Answers ─────────────────────────────────────────────────────────

/// The request id that an answer names.
pub open spec fn id_of(data: Seq<u8>) -> Result<u32, Fault> {
    if data.len() < 4 {
        Err(Fault::Protocol("response missing request id"@))
    } else {
        Ok(be32_at(data, 0))
    }
}

/// Reads the request id that an answer names.
pub fn response_id(data: &[u8]) -> (r: SftpResult<u32>)
    ensures
        outcome(r) == id_of(data@),
{
    if data.len() < 4 {
        return Err(protocol_error("response missing request id"));
    }
    Ok(read_u32_be(data, 0))
}

/// Whether an answer belongs to request `id`. The answer to the opening of a
/// conversation names no request.
pub open spec fn answers(id: u32, kind: u8, data: Seq<u8>) -> Result<(), Fault> {
    if kind == SSH_FXP_VERSION {
        Ok(())
    } else {
        match id_of(data) {
            Err(e) => Err(e),
            Ok(got) => if got == id {
                Ok(())
            } else {
                Err(
                    Fault::Protocol(
                        "id mismatch: sent "@ + decimal(id as nat) + ", got "@ + decimal(
                            got as nat,
                        ),
                    ),
                )
            },
        }
    }
}

/// Checks that an answer belongs to request `id`.
pub fn check_answer(id: u32, kind: u8, data: &[u8]) -> (r: SftpResult<()>)
    ensures
        outcome(r) == answers(id, kind, data@),
{
    if kind == SSH_FXP_VERSION {
        return Ok(());
    }
    match response_id(data) {
        Err(e) => Err(e),
        Ok(got) => {
            if got == id {
                Ok(())
            } else {
                let mut text = concat("id mismatch: sent ", &decimal_text(id as u64));
                text.append(", got ");
                text.append(&decimal_text(got as u64));
                Err(SftpError::Protocol(text))
            }
        },
    }
}

/// The complaint about an answer of another type than the one expected.
pub open spec fn unexpected(what: Seq<char>, kind: u8) -> Fault {
    Fault::Protocol(what + decimal(kind as nat))
}

/// Makes the complaint about an answer of another type.
pub fn unexpected_kind(what: &str, kind: u8) -> (e: SftpError)
    ensures
        e@ == unexpected(what@, kind),
{
    SftpError::Protocol(concat(what, &decimal_text(kind as u64)))
}

/// The message of a status, or nothing where it cannot be read.
pub open spec fn status_text(rest: Seq<u8>) -> Seq<char> {
    match parse_text(rest).0 {
        Ok(s) => s,
        Err(_) => Seq::empty(),
    }
}

/// The code and the message of a status, without the id before them.
pub open spec fn status_of(body: Seq<u8>) -> Result<(u32, Seq<char>), Fault> {
    match parse_u32(body) {
        (Err(e), _) => Err(e),
        (Ok(code), rest) => Ok((code, status_text(rest))),
    }
}

/// Reads the code and the message of a status.
pub fn read_status(body: &[u8]) -> (r: SftpResult<(u32, String)>)
    ensures
        match r {
            Ok((code, text)) => status_of(body@) == Ok::<(u32, Seq<char>), Fault>((code, text@)),
            Err(e) => status_of(body@) == Err::<(u32, Seq<char>), Fault>(e@),
        },
{
    let mut r = Reader::new(body);
    let code = match r.get_u32() {
        Ok(c) => c,
        Err(e) => return Err(e),
    };
    match r.get_string() {
        Ok(s) => Ok((code, s)),
        Err(_) => Ok((code, String::new())),
    }
}

/// The answer of an operation that gives nothing back.
pub open spec fn done_answer(kind: u8, data: Seq<u8>) -> Result<(), Fault> {
    if kind != SSH_FXP_STATUS {
        Err(unexpected("expected STATUS, got "@, kind))
    } else {
        match status_of(data.skip(4)) {
            Err(e) => Err(e),
            Ok((code, text)) => if code == SSH_FX_OK {
                Ok(())
            } else {
                Err(Fault::Status(code, text))
            },
        }
    }
}

/// What stands behind the request id of an answer.
pub fn answer_body(data: &[u8]) -> (r: &[u8])
    requires
        data@.len() >= 4,
    ensures
        r@ == data@.skip(4),
{
    let r = slice_subrange(data, 4, data.len());
    assert(r@ =~= data@.skip(4));
    r
}

/// Checks the answer of an operation that gives nothing back.
pub fn check_status(kind: u8, data: &[u8]) -> (r: SftpResult<()>)
    requires
        kind == SSH_FXP_STATUS ==> data@.len() >= 4,
    ensures
        outcome(r) == done_answer(kind, data@),
{
    if kind != SSH_FXP_STATUS {
        return Err(unexpected_kind("expected STATUS, got ", kind));
    }
    match read_status(answer_body(data)) {
        Err(e) => Err(e),
        Ok((code, text)) => {
            if code == SSH_FX_OK {
                Ok(())
            } else {
                Err(SftpError::Status(code, text))
            }
        },
    }
}

/// What an answer that should carry a value says where it is a status, or of
/// another type than `wanted`.
pub open spec fn refusal(kind: u8, data: Seq<u8>, wanted: u8, what: Seq<char>) -> Option<Fault> {
    if kind == SSH_FXP_STATUS {
        match done_answer(kind, data) {
            Err(e) => Some(e),
            Ok(_) => Some(Fault::Protocol("unexpected OK status"@)),
        }
    } else if kind != wanted {
        Some(unexpected(what, kind))
    } else {
        None
    }
}

fn check_refusal(kind: u8, data: &[u8], wanted: u8, what: &str) -> (r: Option<SftpError>)
    requires
        kind == SSH_FXP_STATUS ==> data@.len() >= 4,
    ensures
        match r {
            Some(e) => refusal(kind, data@, wanted, what@) == Some(e@),
            None => refusal(kind, data@, wanted, what@) is None,
        },
{
    if kind == SSH_FXP_STATUS {
        match check_status(kind, data) {
            Err(e) => Some(e),
            Ok(_) => Some(protocol_error("unexpected OK status")),
        }
    } else if kind != wanted {
        Some(unexpected_kind(what, kind))
    } else {
        None
    }
}

/// The answer of an operation that gives a path: the first name of the list.
pub open spec fn path_answer(kind: u8, data: Seq<u8>) -> Result<Seq<char>, Fault> {
    match refusal(kind, data, SSH_FXP_NAME, "expected NAME, got "@) {
        Some(e) => Err(e),
        None => match parse_u32(data.skip(4)) {
            (Err(e), _) => Err(e),
            (Ok(count), rest) => if count == 0 {
                Err(Fault::Protocol("empty realpath response"@))
            } else {
                parse_text(rest).0
            },
        },
    }
}

/// Reads the answer of an operation that gives a path.
pub fn read_path_answer(kind: u8, data: &[u8]) -> (r: SftpResult<String>)
    requires
        kind != SSH_FXP_VERSION ==> data@.len() >= 4,
    ensures
        text_outcome(r) == path_answer(kind, data@),
{
    if let Some(e) = check_refusal(kind, data, SSH_FXP_NAME, "expected NAME, got ") {
        return Err(e);
    }
    let mut r = Reader::new(answer_body(data));
    let count = match r.get_u32() {
        Ok(n) => n,
        Err(e) => return Err(e),
    };
    if count == 0 {
        return Err(protocol_error("empty realpath response"));
    }
    r.get_string()
}

/// The answer of an operation that gives attributes.
pub open spec fn attrs_answer(kind: u8, data: Seq<u8>) -> Result<FileAttr, Fault> {
    match refusal(kind, data, SSH_FXP_ATTRS, "expected ATTRS, got "@) {
        Some(e) => Err(e),
        None => parse_attrs(data.skip(4)).0,
    }
}

/// Reads the answer of an operation that gives attributes.
pub fn read_attrs_answer(kind: u8, data: &[u8]) -> (r: SftpResult<FileAttr>)
    requires
        kind != SSH_FXP_VERSION ==> data@.len() >= 4,
    ensures
        outcome(r) == attrs_answer(kind, data@),
{
    if let Some(e) = check_refusal(kind, data, SSH_FXP_ATTRS, "expected ATTRS, got ") {
        return Err(e);
    }
    let mut r = Reader::new(answer_body(data));
    r.get_attrs()
}

/// The answer of an operation that gives a handle.
pub open spec fn handle_answer(kind: u8, data: Seq<u8>) -> Result<Seq<u8>, Fault> {
    match refusal(kind, data, SSH_FXP_HANDLE, "expected HANDLE, got "@) {
        Some(e) => Err(e),
        None => parse_bytes(data.skip(4)).0,
    }
}

/// Reads the answer of an operation that gives a handle.
pub fn read_handle_answer(kind: u8, data: &[u8]) -> (r: SftpResult<Vec<u8>>)
    requires
        kind != SSH_FXP_VERSION ==> data@.len() >= 4,
    ensures
        bytes_outcome(r) == handle_answer(kind, data@),
{
    if let Some(e) = check_refusal(kind, data, SSH_FXP_HANDLE, "expected HANDLE, got ") {
        return Err(e);
    }
    let mut r = Reader::new(answer_body(data));
    r.get_bytes()
}

/// What a status says to a read: at the end of the file there is nothing more,
/// anything else is an error.
pub open spec fn read_status_answer(body: Seq<u8>) -> Result<(), Fault> {
    match status_of(body) {
        Err(e) => Err(e),
        Ok((code, text)) => if code == SSH_FX_EOF {
            Ok(())
        } else {
            Err(Fault::Status(code, text))
        },
    }
}

/// Reads what a status says to a read or to a listing.
pub fn check_end(body: &[u8]) -> (r: SftpResult<()>)
    ensures
        outcome(r) == read_status_answer(body@),
{
    match read_status(body) {
        Err(e) => Err(e),
        Ok((code, text)) => {
            if code == SSH_FX_EOF {
                Ok(())
            } else {
                Err(SftpError::Status(code, text))
            }
        },
    }
}

/// The answer to a single read: the bytes, or none at the end of the file.
pub open spec fn data_answer(kind: u8, data: Seq<u8>) -> Result<Seq<u8>, Fault> {
    if kind == SSH_FXP_STATUS {
        match read_status_answer(data.skip(4)) {
            Err(e) => Err(e),
            Ok(_) => Ok(Seq::empty()),
        }
    } else if kind != SSH_FXP_DATA {
        Err(unexpected("expected DATA, got "@, kind))
    } else {
        parse_bytes(data.skip(4)).0
    }
}

/// Reads the answer to a single read.
pub fn read_data_answer(kind: u8, data: &[u8]) -> (r: SftpResult<Vec<u8>>)
    requires
        kind != SSH_FXP_VERSION ==> data@.len() >= 4,
    ensures
        bytes_outcome(r) == data_answer(kind, data@),
{
    if kind == SSH_FXP_STATUS {
        return match check_end(answer_body(data)) {
            Err(e) => Err(e),
            Ok(_) => Ok(Vec::new()),
        };
    }
    if kind != SSH_FXP_DATA {
        return Err(unexpected_kind("expected DATA, got ", kind));
    }
    let mut r = Reader::new(answer_body(data));
    r.get_bytes()
}

/// The names that stand for the directory itself and for its parent.
pub open spec fn is_dot_name(name: Seq<char>) -> bool {
    name == "."@ || name == ".."@
}

/// The `n` entries of a list of names, behind those that are there already. The
/// entries for the directory itself and its parent are left out.
pub open spec fn parse_names(d: Seq<u8>, n: nat, before: Seq<EntryView>) -> Result<
    Seq<EntryView>,
    Fault,
>
    decreases n,
{
    if n == 0 {
        Ok(before)
    } else {
        match parse_text(d) {
            (Err(e), _) => Err(e),
            (Ok(name), r1) => match parse_text(r1) {
                (Err(e), _) => Err(e),
                (Ok(_), r2) => match parse_attrs(r2) {
                    (Err(e), _) => Err(e),
                    (Ok(attrs), r3) => parse_names(
                        r3,
                        (n - 1) as nat,
                        if is_dot_name(name) {
                            before
                        } else {
                            before.push(EntryView { name, attrs })
                        },
                    ),
                },
            },
        }
    }
}

/// The entries that a list of names adds to those that are there already.
pub open spec fn names_answer(body: Seq<u8>, before: Seq<EntryView>) -> Result<
    Seq<EntryView>,
    Fault,
> {
    match parse_u32(body) {
        (Err(e), _) => Err(e),
        (Ok(count), rest) => parse_names(rest, count as nat, before),
    }
}

/// Reads a list of names and adds its entries to `entries`.
pub fn read_names(body: &[u8], entries: Vec<DirEntry>) -> (r: SftpResult<Vec<DirEntry>>)
    ensures
        entries_outcome(r) == names_answer(body@, entries_view(entries@)),
{
    let mut out = entries;
    let mut r = Reader::new(body);
    let count = match r.get_u32() {
        Ok(n) => n,
        Err(e) => return Err(e),
    };
    let ghost all = parse_names(r.rest(), count as nat, entries_view(out@));
    let mut i: u32 = 0;
    while i < count
        invariant
            i <= count,
            all == names_answer(body@, entries_view(entries@)),
            all == parse_names(r.rest(), (count - i) as nat, entries_view(out@)),
        decreases count - i,
    {
        let name = match r.get_string() {
            Ok(s) => s,
            Err(e) => return Err(e),
        };
        match r.get_string() {
            Ok(_) => {},
            Err(e) => return Err(e),
        }
        let attrs = match r.get_attrs() {
            Ok(a) => a,
            Err(e) => return Err(e),
        };
        if !str_eq(&name, ".") && !str_eq(&name, "..") {
            let ghost before = out@;
            let entry = DirEntry { name, attrs };
            out.push(entry);
            assert(entries_view(out@) =~= entries_view(before).push(entry@));
        }
        i += 1;
    }
    Ok(out)
}

} // verus!

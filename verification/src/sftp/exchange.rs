//! Operations in flight.
//!
//! An [`Exchange`] knows which answers are still to come. Each packet from the
//! server is handed to [`Exchange::on_packet`], the loss of the connection to
//! [`Exchange::on_lost`]; both say what is to be done next.

use crate::bytes::{be32, be64, put_all};
use crate::sftp::call::{failed, failed_reply, kind_of, ReplyView, SftpReply, Want};
use crate::sftp::packet::{
    answer_body, answers, attrs_answer, check_answer, check_end, check_status, data_answer,
    done_answer, handle_answer, id_of, make_packet, names_answer, packet, path_answer, put_packet,
    read_attrs_answer, read_data_answer, read_handle_answer, read_names, read_path_answer,
    read_status, read_status_answer, response_id, status_of, MAX_WRITE_SIZE, READ_PIPELINE,
    SSH_FXP_CLOSE, SSH_FXP_DATA, SSH_FXP_NAME, SSH_FXP_READ, SSH_FXP_READDIR, SSH_FXP_STATUS,
    SSH_FXP_WRITE, SSH_FX_OK, WRITE_PIPELINE,
};
use crate::sftp::session::SftpSession;
use crate::text::{concat, decimal, decimal_text};
use crate::wire::{
    bytes_field, entries_outcome, entries_view, parse_bytes, protocol_error, Buf, DirEntry,
    EntryView, Fault, Reader, SftpError, SftpResult,
};
use vstd::prelude::*;
use vstd::slice::slice_subrange;

verus! {

// ── What is in flight ───────────────────────────────────────────────

/// A read request that was sent: its id and how many bytes it asked for.
#[derive(Debug, Clone, Copy)]
pub struct PendingRead {
    pub id: u32,
    pub len: u32,
}

/// A read that runs over several requests, in terms of sequences.
pub struct ReadView {
    pub handle: Seq<u8>,
    /// Where the first byte that is still missing stands in the file.
    pub next_offset: int,
    /// How many bytes are still wanted.
    pub remaining: nat,
    /// The most that one request asks for.
    pub chunk_size: u32,
    /// The bytes that are there.
    pub result: Seq<u8>,
    /// The requests of the window, in the order of their offsets.
    pub pending: Seq<PendingRead>,
    /// The answers so far, each at the place of its request.
    pub replies: Seq<Option<(u8, Seq<u8>)>>,
    /// How many answers have come.
    pub received: nat,
}

/// A write that runs over several requests, in terms of sequences.
pub struct WriteView {
    pub handle: Seq<u8>,
    pub offset: u64,
    pub data: Seq<u8>,
    /// How many bytes of the data have been sent.
    pub written: nat,
    /// How many requests the window holds.
    pub in_flight: nat,
    /// How many of them are answered.
    pub answered: nat,
}

/// An operation in flight, in terms of sequences.
pub enum ExchangeView {
    /// One request was sent.
    Single { id: u32, want: Want },
    /// A listing waits for the handle of its directory.
    Opening { id: u32 },
    /// A listing waits for more entries.
    Listing { id: u32, handle: Seq<u8>, entries: Seq<EntryView> },
    /// A listing has its result and waits for the handle to be closed.
    Closing { result: Result<Seq<EntryView>, Fault> },
    Reading(ReadView),
    Writing(WriteView),
}

/// What is to be done next, in terms of sequences.
pub enum TurnView {
    /// Send the bytes, then wait for a packet.
    Send(ExchangeView, Seq<u8>),
    /// Wait for another packet.
    Receive(ExchangeView),
    /// The operation is over. So many packets that still come are to be thrown
    /// away.
    Finish(ReplyView, nat),
    /// The server broke the protocol in a way that leaves no way on.
    Broken,
}

/// A read that runs over several requests.
pub struct ReadPipe {
    handle: Vec<u8>,
    next_offset: u64,
    remaining: u64,
    chunk_size: u32,
    result: Vec<u8>,
    pending: Vec<PendingRead>,
    replies: Vec<Option<(u8, Vec<u8>)>>,
    received: usize,
}

/// A write that runs over several requests.
pub struct WritePipe {
    handle: Vec<u8>,
    offset: u64,
    data: Vec<u8>,
    written: usize,
    in_flight: usize,
    answered: usize,
}

enum Stage {
    Single { id: u32, want: Want },
    Opening { id: u32 },
    Listing { id: u32, handle: Vec<u8>, entries: Vec<DirEntry> },
    Closing { result: SftpResult<Vec<DirEntry>> },
    Reading(ReadPipe),
    Writing(WritePipe),
}

/// An operation in flight.
pub struct Exchange {
    stage: Stage,
}

/// What is to be done next.
pub enum Turn {
    /// Send the bytes, then wait for a packet.
    Send(Exchange, Vec<u8>),
    /// Wait for another packet.
    Receive(Exchange),
    /// The operation is over. So many packets that still come are to be thrown
    /// away.
    Finish(SftpReply, usize),
    /// The server broke the protocol in a way that leaves no way on.
    Broken,
}

spec fn reply_slot(slot: Option<(u8, Vec<u8>)>) -> Option<(u8, Seq<u8>)> {
    match slot {
        None => None,
        Some((kind, data)) => Some((kind, data@)),
    }
}

spec fn reply_slots(slots: Seq<Option<(u8, Vec<u8>)>>) -> Seq<Option<(u8, Seq<u8>)>> {
    Seq::new(slots.len(), |i: int| reply_slot(slots[i]))
}

/// Every answer that is kept is long enough for a request id.
spec fn slots_name_requests(slots: Seq<Option<(u8, Vec<u8>)>>) -> bool {
    forall|i: int| 0 <= i < slots.len() ==> match #[trigger] slots[i] {
        None => true,
        Some((_, data)) => data@.len() >= 4,
    }
}

impl ReadPipe {
    closed spec fn wf(self) -> bool {
        &&& self.pending@.len() == self.replies@.len()
        &&& self.received < self.pending@.len()
        &&& self.next_offset + self.remaining <= u64::MAX
        &&& self.chunk_size > 0
        &&& slots_name_requests(self.replies@)
    }

    closed spec fn model(self) -> ReadView {
        ReadView {
            handle: self.handle@,
            next_offset: self.next_offset as int,
            remaining: self.remaining as nat,
            chunk_size: self.chunk_size,
            result: self.result@,
            pending: self.pending@,
            replies: reply_slots(self.replies@),
            received: self.received as nat,
        }
    }
}

impl WritePipe {
    closed spec fn wf(self) -> bool {
        &&& self.written <= self.data@.len()
        &&& self.answered < self.in_flight
        &&& self.offset + self.data@.len() <= u64::MAX
    }

    closed spec fn model(self) -> WriteView {
        WriteView {
            handle: self.handle@,
            offset: self.offset,
            data: self.data@,
            written: self.written as nat,
            in_flight: self.in_flight as nat,
            answered: self.answered as nat,
        }
    }
}

impl Exchange {
    #[verifier::type_invariant]
    spec fn in_order(self) -> bool {
        match self.stage {
            Stage::Reading(p) => p.wf(),
            Stage::Writing(p) => p.wf(),
            _ => true,
        }
    }
}

impl View for Exchange {
    type V = ExchangeView;

    closed spec fn view(&self) -> ExchangeView {
        match self.stage {
            Stage::Single { id, want } => ExchangeView::Single { id, want },
            Stage::Opening { id } => ExchangeView::Opening { id },
            Stage::Listing { id, handle, entries } => ExchangeView::Listing {
                id,
                handle: handle@,
                entries: entries_view(entries@),
            },
            Stage::Closing { result } => ExchangeView::Closing { result: entries_outcome(result) },
            Stage::Reading(p) => ExchangeView::Reading(p.model()),
            Stage::Writing(p) => ExchangeView::Writing(p.model()),
        }
    }
}

impl View for Turn {
    type V = TurnView;

    open spec fn view(&self) -> TurnView {
        match self {
            Turn::Send(x, bytes) => TurnView::Send(x@, bytes@),
            Turn::Receive(x) => TurnView::Receive(x@),
            Turn::Finish(reply, drain) => TurnView::Finish(reply@, *drain as nat),
            Turn::Broken => TurnView::Broken,
        }
    }
}

// ── Single requests ─────────────────────────────────────────────────

/// What the answer to a single request means to someone who wants `want`.
pub open spec fn single_answer(id: u32, want: Want, kind: u8, data: Seq<u8>) -> ReplyView {
    match answers(id, kind, data) {
        Err(e) => failed(want, e),
        Ok(_) => match want {
            Want::Path => ReplyView::Path(path_answer(kind, data)),
            Want::Attrs => ReplyView::Attrs(attrs_answer(kind, data)),
            Want::Handle => ReplyView::Handle(handle_answer(kind, data)),
            Want::Data => ReplyView::Data(data_answer(kind, data)),
            _ => ReplyView::Nothing(done_answer(kind, data)),
        },
    }
}

fn finish_single(id: u32, want: Want, kind: u8, data: &[u8]) -> (r: SftpReply)
    ensures
        r@ == single_answer(id, want, kind, data@),
{
    if let Err(e) = check_answer(id, kind, data) {
        return failed_reply(want, e);
    }
    match want {
        Want::Path => SftpReply::Path(read_path_answer(kind, data)),
        Want::Attrs => SftpReply::Attrs(read_attrs_answer(kind, data)),
        Want::Handle => SftpReply::Handle(read_handle_answer(kind, data)),
        Want::Data => SftpReply::Data(read_data_answer(kind, data)),
        _ => SftpReply::Nothing(check_status(kind, data)),
    }
}

// ── Listings ────────────────────────────────────────────────────────

/// Asking for more entries of a directory.
pub open spec fn list_more(next_id: u32, handle: Seq<u8>, entries: Seq<EntryView>) -> (
    u32,
    TurnView,
) {
    (
        next_id.wrapping_add(1),
        TurnView::Send(
            ExchangeView::Listing { id: next_id, handle, entries },
            packet(SSH_FXP_READDIR, next_id, bytes_field(handle)),
        ),
    )
}

/// Closing a directory whose listing is settled.
pub open spec fn close_listing(
    next_id: u32,
    handle: Seq<u8>,
    result: Result<Seq<EntryView>, Fault>,
) -> (u32, TurnView) {
    (
        next_id.wrapping_add(1),
        TurnView::Send(
            ExchangeView::Closing { result },
            packet(SSH_FXP_CLOSE, next_id, bytes_field(handle)),
        ),
    )
}

/// The answer to the opening of a directory.
pub open spec fn opening_step(next_id: u32, id: u32, kind: u8, data: Seq<u8>) -> (u32, TurnView) {
    match answers(id, kind, data) {
        Err(e) => (next_id, TurnView::Finish(ReplyView::Entries(Err(e)), 0)),
        Ok(_) => match handle_answer(kind, data) {
            Err(e) => (next_id, TurnView::Finish(ReplyView::Entries(Err(e)), 0)),
            Ok(handle) => list_more(next_id, handle, Seq::empty()),
        },
    }
}

/// The answer to a request for more entries. Whatever it is, the directory is
/// closed before the listing ends.
pub open spec fn listing_step(
    next_id: u32,
    id: u32,
    handle: Seq<u8>,
    entries: Seq<EntryView>,
    kind: u8,
    data: Seq<u8>,
) -> (u32, TurnView) {
    match answers(id, kind, data) {
        Err(e) => close_listing(next_id, handle, Err(e)),
        Ok(_) => if kind == SSH_FXP_STATUS {
            match read_status_answer(data.skip(4)) {
                Err(e) => close_listing(next_id, handle, Err(e)),
                Ok(_) => close_listing(next_id, handle, Ok(entries)),
            }
        } else if kind != SSH_FXP_NAME {
            close_listing(next_id, handle, Err(Fault::Disconnected))
        } else {
            match names_answer(data.skip(4), entries) {
                Err(e) => close_listing(next_id, handle, Err(e)),
                Ok(more) => list_more(next_id, handle, more),
            }
        },
    }
}

fn handle_packet(kind: u8, id: u32, handle: &[u8]) -> (p: Vec<u8>)
    ensures
        p@ == packet(kind, id, bytes_field(handle@)),
{
    let mut buf = Buf::new();
    buf.put_bytes(handle);
    assert(buf@ =~= bytes_field(handle@));
    make_packet(kind, id, &buf.0)
}

fn ask_for_entries(session: &mut SftpSession, handle: Vec<u8>, entries: Vec<DirEntry>) -> (t: Turn)
    ensures
        (final(session).next_id, t@) == list_more(
            old(session).next_id,
            handle@,
            entries_view(entries@),
        ),
{
    let id = session.take_id();
    let p = handle_packet(SSH_FXP_READDIR, id, &handle);
    Turn::Send(Exchange { stage: Stage::Listing { id, handle, entries } }, p)
}

fn close_directory(
    session: &mut SftpSession,
    handle: &[u8],
    result: SftpResult<Vec<DirEntry>>,
) -> (t: Turn)
    ensures
        (final(session).next_id, t@) == close_listing(
            old(session).next_id,
            handle@,
            entries_outcome(result),
        ),
{
    let id = session.take_id();
    let p = handle_packet(SSH_FXP_CLOSE, id, handle);
    Turn::Send(Exchange { stage: Stage::Closing { result } }, p)
}

fn opening_on_packet(session: &mut SftpSession, id: u32, kind: u8, data: &[u8]) -> (t: Turn)
    ensures
        (final(session).next_id, t@) == opening_step(old(session).next_id, id, kind, data@),
{
    if let Err(e) = check_answer(id, kind, data) {
        return Turn::Finish(SftpReply::Entries(Err(e)), 0);
    }
    match read_handle_answer(kind, data) {
        Err(e) => Turn::Finish(SftpReply::Entries(Err(e)), 0),
        Ok(handle) => {
            let entries: Vec<DirEntry> = Vec::new();
            assert(entries_view(entries@) =~= Seq::empty());
            ask_for_entries(session, handle, entries)
        },
    }
}

fn listing_on_packet(
    session: &mut SftpSession,
    id: u32,
    handle: Vec<u8>,
    entries: Vec<DirEntry>,
    kind: u8,
    data: &[u8],
) -> (t: Turn)
    ensures
        (final(session).next_id, t@) == listing_step(
            old(session).next_id,
            id,
            handle@,
            entries_view(entries@),
            kind,
            data@,
        ),
{
    if let Err(e) = check_answer(id, kind, data) {
        return close_directory(session, &handle, Err(e));
    }
    if kind == SSH_FXP_STATUS {
        return match check_end(answer_body(data)) {
            Err(e) => close_directory(session, &handle, Err(e)),
            Ok(_) => close_directory(session, &handle, Ok(entries)),
        };
    }
    if kind != SSH_FXP_NAME {
        return close_directory(session, &handle, Err(SftpError::Disconnected));
    }
    match read_names(answer_body(data), entries) {
        Err(e) => close_directory(session, &handle, Err(e)),
        Ok(more) => ask_for_entries(session, handle, more),
    }
}

// ── Reads over several requests ─────────────────────────────────────

/// The payload of a read request.
pub open spec fn read_request(handle: Seq<u8>, offset: int, len: u32) -> Seq<u8> {
    bytes_field(handle) + be64(offset as u64) + be32(len)
}

/// The requests that are sent together: their packets one behind the other,
/// what is awaited, and the request id that comes next.
pub struct ReadWindow {
    pub packets: Seq<u8>,
    pub pending: Seq<PendingRead>,
    pub next_id: u32,
}

/// How many bytes one request asks for.
pub open spec fn request_len(remaining: nat, chunk_size: u32) -> u32 {
    if remaining < chunk_size {
        remaining as u32
    } else {
        chunk_size
    }
}

/// The window for `remaining` bytes from `offset`: at most `room` requests,
/// which follow one another in the file without a gap.
pub open spec fn read_window(
    id: u32,
    handle: Seq<u8>,
    offset: int,
    remaining: nat,
    chunk_size: u32,
    room: nat,
) -> ReadWindow
    decreases room,
{
    if room == 0 || remaining == 0 {
        ReadWindow { packets: Seq::empty(), pending: Seq::empty(), next_id: id }
    } else {
        let len = request_len(remaining, chunk_size);
        let rest = read_window(
            id.wrapping_add(1),
            handle,
            offset + len,
            (remaining - len) as nat,
            chunk_size,
            (room - 1) as nat,
        );
        ReadWindow {
            packets: packet(SSH_FXP_READ, id, read_request(handle, offset, len)) + rest.packets,
            pending: seq![PendingRead { id, len }] + rest.pending,
            next_id: rest.next_id,
        }
    }
}

/// Sending a window of read requests.
pub open spec fn start_reading(
    next_id: u32,
    handle: Seq<u8>,
    next_offset: int,
    remaining: nat,
    chunk_size: u32,
    result: Seq<u8>,
) -> (u32, TurnView) {
    let w = read_window(
        next_id,
        handle,
        next_offset,
        remaining,
        chunk_size,
        READ_PIPELINE as nat,
    );
    (
        w.next_id,
        TurnView::Send(
            ExchangeView::Reading(
                ReadView {
                    handle,
                    next_offset,
                    remaining,
                    chunk_size,
                    result,
                    pending: w.pending,
                    replies: Seq::new(w.pending.len(), |i: int| None),
                    received: 0,
                },
            ),
            w.packets,
        ),
    )
}

/// What the answers of a whole window come to.
pub enum Digest {
    /// The read is over.
    Done(Result<Seq<u8>, Fault>),
    /// An answer was shorter than its request. The later ones of the window
    /// were asked for at the wrong place, so the read goes on from the first
    /// byte that is missing, with requests that are no longer than what came.
    Again { result: Seq<u8>, next_offset: int, remaining: nat, chunk_size: u32 },
    /// More bytes came than are wanted.
    Broken,
}

/// What the answers from the `i`-th on come to, behind the bytes in `result`.
pub open spec fn digest(
    pending: Seq<PendingRead>,
    replies: Seq<Option<(u8, Seq<u8>)>>,
    i: int,
    result: Seq<u8>,
    next_offset: int,
    remaining: nat,
    chunk_size: u32,
) -> Digest
    decreases pending.len() - i,
{
    if i >= pending.len() {
        Digest::Done(Ok(result))
    } else {
        match replies[i] {
            None => Digest::Done(Err(Fault::Protocol("pipelined read: missing response"@))),
            Some((kind, data)) => if kind == SSH_FXP_STATUS {
                match read_status_answer(data.skip(4)) {
                    Err(e) => Digest::Done(Err(e)),
                    Ok(_) => Digest::Done(Ok(result)),
                }
            } else if kind != SSH_FXP_DATA {
                Digest::Done(Err(Fault::Disconnected))
            } else {
                match parse_bytes(data.skip(4)).0 {
                    Err(e) => Digest::Done(Err(e)),
                    Ok(chunk) => if chunk.len() == 0 {
                        Digest::Done(Ok(result))
                    } else if chunk.len() > remaining {
                        Digest::Broken
                    } else if chunk.len() == remaining {
                        Digest::Done(Ok(result + chunk))
                    } else if chunk.len() < pending[i].len {
                        Digest::Again {
                            result: result + chunk,
                            next_offset: next_offset + chunk.len(),
                            remaining: (remaining - chunk.len()) as nat,
                            chunk_size: request_len(chunk.len(), chunk_size),
                        }
                    } else {
                        digest(
                            pending,
                            replies,
                            i + 1,
                            result + chunk,
                            next_offset + chunk.len(),
                            (remaining - chunk.len()) as nat,
                            chunk_size,
                        )
                    },
                }
            },
        }
    }
}

/// The place of the request with the given id, from `i` on; the number of
/// requests where there is none.
pub open spec fn place_of(pending: Seq<PendingRead>, id: u32, i: int) -> int
    decreases pending.len() - i,
{
    if i >= pending.len() {
        pending.len() as int
    } else if pending[i].id == id {
        i
    } else {
        place_of(pending, id, i + 1)
    }
}

/// An answer to one of the read requests. Answers may come in any order; each
/// is kept until the window is complete.
pub open spec fn reading_step(next_id: u32, v: ReadView, kind: u8, data: Seq<u8>) -> (
    u32,
    TurnView,
) {
    let unread = (v.pending.len() - v.received - 1) as nat;
    match id_of(data) {
        Err(e) => (next_id, TurnView::Finish(ReplyView::Data(Err(e)), unread)),
        Ok(id) => {
            let at = place_of(v.pending, id, 0);
            if at >= v.pending.len() {
                (
                    next_id,
                    TurnView::Finish(
                        ReplyView::Data(
                            Err(
                                Fault::Protocol(
                                    "pipelined read: unexpected response id "@ + decimal(
                                        id as nat,
                                    ),
                                ),
                            ),
                        ),
                        unread,
                    ),
                )
            } else if v.replies[at] is Some {
                (
                    next_id,
                    TurnView::Finish(
                        ReplyView::Data(
                            Err(
                                Fault::Protocol(
                                    "pipelined read: duplicate response id "@ + decimal(id as nat),
                                ),
                            ),
                        ),
                        unread,
                    ),
                )
            } else {
                let filled = ReadView {
                    replies: v.replies.update(at, Some((kind, data))),
                    received: v.received + 1,
                    ..v
                };
                if filled.received < filled.pending.len() {
                    (next_id, TurnView::Receive(ExchangeView::Reading(filled)))
                } else {
                    match digest(
                        filled.pending,
                        filled.replies,
                        0,
                        filled.result,
                        filled.next_offset,
                        filled.remaining,
                        filled.chunk_size,
                    ) {
                        Digest::Done(r) => (next_id, TurnView::Finish(ReplyView::Data(r), 0)),
                        Digest::Again { result, next_offset, remaining, chunk_size } => {
                            start_reading(
                                next_id,
                                filled.handle,
                                next_offset,
                                remaining,
                                chunk_size,
                                result,
                            )
                        },
                        Digest::Broken => (next_id, TurnView::Broken),
                    }
                }
            }
        },
    }
}

/// Sends a window of read requests.
pub(crate) fn begin_reading(
    session: &mut SftpSession,
    handle: Vec<u8>,
    next_offset: u64,
    remaining: u64,
    chunk_size: u32,
    result: Vec<u8>,
) -> (t: Turn)
    requires
        next_offset + remaining <= u64::MAX,
        remaining > 0,
        chunk_size > 0,
    ensures
        (final(session).next_id, t@) == start_reading(
            old(session).next_id,
            handle@,
            next_offset as int,
            remaining as nat,
            chunk_size,
            result@,
        ),
        t is Send,
{
    let mut packets: Vec<u8> = Vec::new();
    let mut pending: Vec<PendingRead> = Vec::new();
    let mut replies: Vec<Option<(u8, Vec<u8>)>> = Vec::new();
    let mut offset: u64 = next_offset;
    let mut left: u64 = remaining;
    let ghost all = read_window(
        session.next_id,
        handle@,
        next_offset as int,
        remaining as nat,
        chunk_size,
        READ_PIPELINE as nat,
    );
    assert(packets@ + all.packets =~= all.packets);
    assert(pending@ + all.pending =~= all.pending);
    while pending.len() < READ_PIPELINE && left > 0
        invariant
            pending@.len() <= READ_PIPELINE,
            offset + left == next_offset + remaining,
            next_offset + remaining <= u64::MAX,
            chunk_size > 0,
            remaining > 0,
            left < remaining ==> pending@.len() > 0,
            left <= remaining,
            replies@.len() == pending@.len(),
            forall|i: int| 0 <= i < replies@.len() ==> replies@[i] is None,
            ({
                let rest = read_window(
                    session.next_id,
                    handle@,
                    offset as int,
                    left as nat,
                    chunk_size,
                    (READ_PIPELINE - pending@.len()) as nat,
                );
                &&& all.packets == packets@ + rest.packets
                &&& all.pending == pending@ + rest.pending
                &&& all.next_id == rest.next_id
            }),
        decreases left,
    {
        let len: u32 = if left < chunk_size as u64 {
            left as u32
        } else {
            chunk_size
        };
        let ghost before = packets@;
        let ghost waiting = pending@;
        let ghost rest = read_window(
            session.next_id,
            handle@,
            offset as int,
            left as nat,
            chunk_size,
            (READ_PIPELINE - pending@.len()) as nat,
        );
        let id = session.take_id();
        let mut buf = Buf::new();
        buf.put_bytes(&handle);
        buf.put_u64(offset);
        buf.put_u32(len);
        assert(buf@ =~= read_request(handle@, offset as int, len));
        put_packet(&mut packets, SSH_FXP_READ, id, &buf.0);
        let one = PendingRead { id, len };
        pending.push(one);
        replies.push(None);
        offset = offset + len as u64;
        left = left - len as u64;
        proof {
            let tail = read_window(
                session.next_id,
                handle@,
                offset as int,
                left as nat,
                chunk_size,
                (READ_PIPELINE - pending@.len()) as nat,
            );
            assert(before + rest.packets =~= packets@ + tail.packets);
            assert(waiting + rest.pending =~= pending@ + tail.pending);
        }
    }
    assert(packets@ =~= all.packets);
    assert(pending@ =~= all.pending);
    assert(reply_slots(replies@) =~= Seq::new(all.pending.len(), |i: int| None));
    Turn::Send(
        Exchange {
            stage: Stage::Reading(
                ReadPipe {
                    handle,
                    next_offset,
                    remaining,
                    chunk_size,
                    result,
                    pending,
                    replies,
                    received: 0,
                },
            ),
        },
        packets,
    )
}

fn find_place(pending: &Vec<PendingRead>, id: u32) -> (at: usize)
    ensures
        at as int == place_of(pending@, id, 0),
        at <= pending@.len(),
{
    let mut i: usize = 0;
    while i < pending.len()
        invariant
            i <= pending@.len(),
            place_of(pending@, id, i as int) == place_of(pending@, id, 0),
        decreases pending@.len() - i,
    {
        if pending[i].id == id {
            return i;
        }
        i += 1;
    }
    i
}

/// Takes the answers of a whole window in the order of their requests.
fn digest_window(session: &mut SftpSession, pipe: ReadPipe) -> (t: Turn)
    requires
        pipe.pending@.len() == pipe.replies@.len(),
        pipe.next_offset + pipe.remaining <= u64::MAX,
        pipe.chunk_size > 0,
        slots_name_requests(pipe.replies@),
    ensures
        ({
            let v = pipe.model();
            (final(session).next_id, t@) == match digest(
                v.pending,
                v.replies,
                0,
                v.result,
                v.next_offset,
                v.remaining,
                v.chunk_size,
            ) {
                Digest::Done(r) => (
                    old(session).next_id,
                    TurnView::Finish(ReplyView::Data(r), 0),
                ),
                Digest::Again { result, next_offset, remaining, chunk_size } => start_reading(
                    old(session).next_id,
                    v.handle,
                    next_offset,
                    remaining,
                    chunk_size,
                    result,
                ),
                Digest::Broken => (old(session).next_id, TurnView::Broken),
            }
        }),
{
    let ghost v = pipe.model();
    let ghost all = digest(
        v.pending,
        v.replies,
        0,
        v.result,
        v.next_offset,
        v.remaining,
        v.chunk_size,
    );
    let pending = pipe.pending;
    let replies = pipe.replies;
    let chunk_size = pipe.chunk_size;
    let mut result = pipe.result;
    let mut next_offset = pipe.next_offset;
    let mut remaining = pipe.remaining;
    let mut i: usize = 0;
    while i < pending.len()
        invariant
            i <= pending@.len(),
            pending@.len() == replies@.len(),
            next_offset + remaining <= u64::MAX,
            chunk_size > 0,
            v.pending == pending@,
            v.replies == reply_slots(replies@),
            v.chunk_size == chunk_size,
            v.handle == pipe.handle@,
            session.next_id == old(session).next_id,
            slots_name_requests(replies@),
            all == digest(
                v.pending,
                v.replies,
                i as int,
                result@,
                next_offset as int,
                remaining as nat,
                chunk_size,
            ),
            v == pipe.model(),
            all == digest(
                v.pending,
                v.replies,
                0,
                v.result,
                v.next_offset,
                v.remaining,
                v.chunk_size,
            ),
        decreases pending@.len() - i,
    {
        assert(v.replies[i as int] == reply_slot(replies@[i as int]));
        match &replies[i] {
            None => {
                return Turn::Finish(
                    SftpReply::Data(Err(protocol_error("pipelined read: missing response"))),
                    0,
                );
            },
            Some((kind, data)) => {
                if *kind == SSH_FXP_STATUS {
                    return match check_end(answer_body(data)) {
                        Err(e) => Turn::Finish(SftpReply::Data(Err(e)), 0),
                        Ok(_) => Turn::Finish(SftpReply::Data(Ok(result)), 0),
                    };
                }
                if *kind != SSH_FXP_DATA {
                    return Turn::Finish(SftpReply::Data(Err(SftpError::Disconnected)), 0);
                }
                let mut r = Reader::new(answer_body(data));
                let chunk = match r.get_bytes() {
                    Ok(c) => c,
                    Err(e) => return Turn::Finish(SftpReply::Data(Err(e)), 0),
                };
                if chunk.len() == 0 {
                    return Turn::Finish(SftpReply::Data(Ok(result)), 0);
                }
                if chunk.len() as u64 > remaining {
                    return Turn::Broken;
                }
                let len = chunk.len() as u64;
                next_offset = next_offset + len;
                remaining = remaining - len;
                put_all(&mut result, &chunk);
                if remaining == 0 {
                    return Turn::Finish(SftpReply::Data(Ok(result)), 0);
                }
                if len < pending[i].len as u64 {
                    let shorter: u32 = if len < chunk_size as u64 {
                        len as u32
                    } else {
                        chunk_size
                    };
                    return begin_reading(
                        session,
                        pipe.handle,
                        next_offset,
                        remaining,
                        shorter,
                        result,
                    );
                }
            },
        }
        i += 1;
    }
    Turn::Finish(SftpReply::Data(Ok(result)), 0)
}

fn reading_on_packet(session: &mut SftpSession, pipe: ReadPipe, kind: u8, data: Vec<u8>) -> (t:
    Turn)
    requires
        pipe.wf(),
    ensures
        (final(session).next_id, t@) == reading_step(
            old(session).next_id,
            pipe.model(),
            kind,
            data@,
        ),
{
    let unread: usize = pipe.pending.len() - pipe.received - 1;
    let id = match response_id(&data) {
        Ok(id) => id,
        Err(e) => return Turn::Finish(SftpReply::Data(Err(e)), unread),
    };
    let at = find_place(&pipe.pending, id);
    if at >= pipe.pending.len() {
        let text = concat(
            "pipelined read: unexpected response id ",
            &decimal_text(id as u64),
        );
        return Turn::Finish(SftpReply::Data(Err(SftpError::Protocol(text))), unread);
    }
    assert(pipe.model().replies[at as int] == reply_slot(pipe.replies@[at as int]));
    if pipe.replies[at].is_some() {
        let text = concat(
            "pipelined read: duplicate response id ",
            &decimal_text(id as u64),
        );
        return Turn::Finish(SftpReply::Data(Err(SftpError::Protocol(text))), unread);
    }
    let ghost v = pipe.model();
    let mut pipe = pipe;
    pipe.replies[at] = Some((kind, data));
    pipe.received = pipe.received + 1;
    assert(pipe.model().replies =~= v.replies.update(at as int, Some((kind, data@))));
    if pipe.received < pipe.pending.len() {
        return Turn::Receive(Exchange { stage: Stage::Reading(pipe) });
    }
    digest_window(session, pipe)
}

// ── Writes over several requests ────────────────────────────────────

/// The payload of a write request.
pub open spec fn write_request(handle: Seq<u8>, offset: u64, data: Seq<u8>) -> Seq<u8> {
    bytes_field(handle) + be64(offset) + bytes_field(data)
}

/// How many of `left` bytes one request carries.
pub open spec fn write_len(left: nat) -> u32 {
    if left < MAX_WRITE_SIZE {
        left as u32
    } else {
        MAX_WRITE_SIZE
    }
}

/// The write requests that are sent together: their packets, how many they are,
/// how many bytes have been sent behind them, and the request id that comes
/// next.
pub struct WriteWindow {
    pub packets: Seq<u8>,
    pub count: nat,
    pub written: nat,
    pub next_id: u32,
}

/// The window for the bytes from `written` on: at most `room` requests, which
/// follow one another in the data without a gap.
pub open spec fn write_window(
    id: u32,
    handle: Seq<u8>,
    offset: u64,
    data: Seq<u8>,
    written: nat,
    room: nat,
) -> WriteWindow
    decreases room,
{
    if room == 0 || written >= data.len() {
        WriteWindow { packets: Seq::empty(), count: 0, written, next_id: id }
    } else {
        let len = write_len((data.len() - written) as nat);
        let rest = write_window(
            id.wrapping_add(1),
            handle,
            offset,
            data,
            written + len as nat,
            (room - 1) as nat,
        );
        WriteWindow {
            packets: packet(
                SSH_FXP_WRITE,
                id,
                write_request(
                    handle,
                    (offset + written) as u64,
                    data.subrange(written as int, written + len),
                ),
            ) + rest.packets,
            count: rest.count + 1,
            written: rest.written,
            next_id: rest.next_id,
        }
    }
}

/// Sending a window of write requests.
pub open spec fn start_writing(
    next_id: u32,
    handle: Seq<u8>,
    offset: u64,
    data: Seq<u8>,
    written: nat,
) -> (u32, TurnView) {
    let w = write_window(next_id, handle, offset, data, written, WRITE_PIPELINE as nat);
    (
        w.next_id,
        TurnView::Send(
            ExchangeView::Writing(
                WriteView {
                    handle,
                    offset,
                    data,
                    written: w.written,
                    in_flight: w.count,
                    answered: 0,
                },
            ),
            w.packets,
        ),
    )
}

/// An answer to one of the write requests.
pub open spec fn writing_step(next_id: u32, v: WriteView, kind: u8, data: Seq<u8>) -> (
    u32,
    TurnView,
) {
    let unread = (v.in_flight - v.answered - 1) as nat;
    if kind != SSH_FXP_STATUS {
        (
            next_id,
            TurnView::Finish(ReplyView::Nothing(Err(Fault::Disconnected)), unread),
        )
    } else if data.len() < 4 {
        (next_id, TurnView::Broken)
    } else {
        match status_of(data.skip(4)) {
            Err(e) => (next_id, TurnView::Finish(ReplyView::Nothing(Err(e)), 0)),
            Ok((code, text)) => if code != SSH_FX_OK {
                (
                    next_id,
                    TurnView::Finish(ReplyView::Nothing(Err(Fault::Status(code, text))), unread),
                )
            } else if v.answered + 1 < v.in_flight {
                (
                    next_id,
                    TurnView::Receive(
                        ExchangeView::Writing(WriteView { answered: v.answered + 1, ..v }),
                    ),
                )
            } else if v.written < v.data.len() {
                start_writing(next_id, v.handle, v.offset, v.data, v.written)
            } else {
                (next_id, TurnView::Finish(ReplyView::Nothing(Ok(())), 0))
            },
        }
    }
}

/// Sends a window of write requests.
pub(crate) fn begin_writing(
    session: &mut SftpSession,
    handle: Vec<u8>,
    offset: u64,
    data: Vec<u8>,
    written: usize,
) -> (t: Turn)
    requires
        offset + data@.len() <= u64::MAX,
        written < data@.len(),
    ensures
        (final(session).next_id, t@) == start_writing(
            old(session).next_id,
            handle@,
            offset,
            data@,
            written as nat,
        ),
        t is Send,
{
    let total = data.len();
    let mut packets: Vec<u8> = Vec::new();
    let mut count: usize = 0;
    let mut sent: usize = written;
    let ghost all = write_window(
        session.next_id,
        handle@,
        offset,
        data@,
        written as nat,
        WRITE_PIPELINE as nat,
    );
    assert(packets@ + all.packets =~= all.packets);
    while count < WRITE_PIPELINE && sent < total
        invariant
            count <= WRITE_PIPELINE,
            written <= sent <= total,
            written < total,
            count == 0 ==> sent == written,
            total == data@.len(),
            offset + data@.len() <= u64::MAX,
            ({
                let rest = write_window(
                    session.next_id,
                    handle@,
                    offset,
                    data@,
                    sent as nat,
                    (WRITE_PIPELINE - count) as nat,
                );
                &&& all.packets == packets@ + rest.packets
                &&& all.count == count + rest.count
                &&& all.written == rest.written
                &&& all.next_id == rest.next_id
            }),
        decreases WRITE_PIPELINE - count,
    {
        let ghost before = packets@;
        let ghost rest = write_window(
            session.next_id,
            handle@,
            offset,
            data@,
            sent as nat,
            (WRITE_PIPELINE - count) as nat,
        );
        let left: usize = total - sent;
        let len: u32 = if left < MAX_WRITE_SIZE as usize {
            left as u32
        } else {
            MAX_WRITE_SIZE
        };
        let end = sent + len as usize;
        let id = session.take_id();
        let mut buf = Buf::new();
        buf.put_bytes(&handle);
        buf.put_u64(offset + sent as u64);
        buf.put_bytes(slice_subrange(data.as_slice(), sent, end));
        assert(buf@ =~= write_request(
            handle@,
            (offset + sent) as u64,
            data@.subrange(sent as int, sent + len),
        ));
        put_packet(&mut packets, SSH_FXP_WRITE, id, &buf.0);
        count += 1;
        sent = end;
        proof {
            let tail = write_window(
                session.next_id,
                handle@,
                offset,
                data@,
                sent as nat,
                (WRITE_PIPELINE - count) as nat,
            );
            assert(before + rest.packets =~= packets@ + tail.packets);
        }
    }
    assert(packets@ =~= all.packets);
    Turn::Send(
        Exchange {
            stage: Stage::Writing(
                WritePipe { handle, offset, data, written: sent, in_flight: count, answered: 0 },
            ),
        },
        packets,
    )
}

fn writing_on_packet(session: &mut SftpSession, pipe: WritePipe, kind: u8, data: &[u8]) -> (t: Turn)
    requires
        pipe.wf(),
    ensures
        (final(session).next_id, t@) == writing_step(
            old(session).next_id,
            pipe.model(),
            kind,
            data@,
        ),
{
    let unread: usize = pipe.in_flight - pipe.answered - 1;
    if kind != SSH_FXP_STATUS {
        return Turn::Finish(SftpReply::Nothing(Err(SftpError::Disconnected)), unread);
    }
    if data.len() < 4 {
        return Turn::Broken;
    }
    let (code, text) = match read_status(answer_body(data)) {
        Ok(s) => s,
        Err(e) => return Turn::Finish(SftpReply::Nothing(Err(e)), 0),
    };
    if code != SSH_FX_OK {
        return Turn::Finish(SftpReply::Nothing(Err(SftpError::Status(code, text))), unread);
    }
    let mut pipe = pipe;
    if pipe.answered + 1 < pipe.in_flight {
        pipe.answered = pipe.answered + 1;
        return Turn::Receive(Exchange { stage: Stage::Writing(pipe) });
    }
    if pipe.written < pipe.data.len() {
        return begin_writing(session, pipe.handle, pipe.offset, pipe.data, pipe.written);
    }
    Turn::Finish(SftpReply::Nothing(Ok(())), 0)
}

// ── Events ──────────────────────────────────────────────────────────

/// What a packet from the server leads to.
pub open spec fn exchange_step(next_id: u32, x: ExchangeView, kind: u8, data: Seq<u8>) -> (
    u32,
    TurnView,
) {
    match x {
        ExchangeView::Single { id, want } => (
            next_id,
            TurnView::Finish(single_answer(id, want, kind, data), 0),
        ),
        ExchangeView::Opening { id } => opening_step(next_id, id, kind, data),
        ExchangeView::Listing { id, handle, entries } => listing_step(
            next_id,
            id,
            handle,
            entries,
            kind,
            data,
        ),
        ExchangeView::Closing { result } => (
            next_id,
            TurnView::Finish(ReplyView::Entries(result), 0),
        ),
        ExchangeView::Reading(v) => reading_step(next_id, v, kind, data),
        ExchangeView::Writing(v) => writing_step(next_id, v, kind, data),
    }
}

/// What the loss of the connection leads to. A listing still tries to close its
/// directory, and one that is settled keeps its result.
pub open spec fn exchange_lost(next_id: u32, x: ExchangeView) -> (u32, TurnView) {
    match x {
        ExchangeView::Single { id: _, want } => (
            next_id,
            TurnView::Finish(failed(want, Fault::Disconnected), 0),
        ),
        ExchangeView::Opening { id: _ } => (
            next_id,
            TurnView::Finish(ReplyView::Entries(Err(Fault::Disconnected)), 0),
        ),
        ExchangeView::Listing { id: _, handle, entries: _ } => close_listing(
            next_id,
            handle,
            Err(Fault::Disconnected),
        ),
        ExchangeView::Closing { result } => (
            next_id,
            TurnView::Finish(ReplyView::Entries(result), 0),
        ),
        ExchangeView::Reading(_) => (
            next_id,
            TurnView::Finish(ReplyView::Data(Err(Fault::Disconnected)), 0),
        ),
        ExchangeView::Writing(_) => (
            next_id,
            TurnView::Finish(ReplyView::Nothing(Err(Fault::Disconnected)), 0),
        ),
    }
}

impl Exchange {
    /// One request was sent, whose answer is to give `want`.
    pub(crate) fn single(id: u32, want: Want) -> (x: Self)
        ensures
            x@ == (ExchangeView::Single { id, want }),
    {
        Exchange { stage: Stage::Single { id, want } }
    }

    /// The opening of a directory was sent.
    pub(crate) fn opening(id: u32) -> (x: Self)
        ensures
            x@ == (ExchangeView::Opening { id }),
    {
        Exchange { stage: Stage::Opening { id } }
    }

    /// Takes a packet from the server: its type and what follows the type.
    pub fn on_packet(self, session: &mut SftpSession, kind: u8, data: Vec<u8>) -> (t: Turn)
        ensures
            (final(session).next_id, t@) == exchange_step(
                old(session).next_id,
                self@,
                kind,
                data@,
            ),
    {
        proof {
            use_type_invariant(&self);
        }
        match self.stage {
            Stage::Single { id, want } => Turn::Finish(finish_single(id, want, kind, &data), 0),
            Stage::Opening { id } => opening_on_packet(session, id, kind, &data),
            Stage::Listing { id, handle, entries } => listing_on_packet(
                session,
                id,
                handle,
                entries,
                kind,
                &data,
            ),
            Stage::Closing { result } => Turn::Finish(SftpReply::Entries(result), 0),
            Stage::Reading(pipe) => reading_on_packet(session, pipe, kind, data),
            Stage::Writing(pipe) => writing_on_packet(session, pipe, kind, &data),
        }
    }

    /// Takes the news that the connection could not be written or read.
    pub fn on_lost(self, session: &mut SftpSession) -> (t: Turn)
        ensures
            (final(session).next_id, t@) == exchange_lost(old(session).next_id, self@),
    {
        match self.stage {
            Stage::Single { id: _, want } => Turn::Finish(
                failed_reply(want, SftpError::Disconnected),
                0,
            ),
            Stage::Opening { id: _ } => Turn::Finish(
                SftpReply::Entries(Err(SftpError::Disconnected)),
                0,
            ),
            Stage::Listing { id: _, handle, entries: _ } => close_directory(
                session,
                &handle,
                Err(SftpError::Disconnected),
            ),
            Stage::Closing { result } => Turn::Finish(SftpReply::Entries(result), 0),
            Stage::Reading(_) => Turn::Finish(SftpReply::Data(Err(SftpError::Disconnected)), 0),
            Stage::Writing(_) => Turn::Finish(SftpReply::Nothing(Err(SftpError::Disconnected)), 0),
        }
    }
}

// ── What a long read gives back ─────────────────────────────────────

/// How many bytes the first `i` requests of a window ask for.
pub open spec fn asked_before(pending: Seq<PendingRead>, i: int) -> int
    decreases i,
{
    if i <= 0 {
        0
    } else {
        asked_before(pending, i - 1) + pending[i - 1].len
    }
}

/// An answer to a request for `len` bytes at `offset` of `file` tells the truth:
/// data that it carries is what stands there in the file, and no more than was
/// asked for.
pub open spec fn tells_truth(file: Seq<u8>, offset: int, len: u32, kind: u8, data: Seq<u8>) -> bool {
    kind == SSH_FXP_DATA ==> (parse_bytes(data.skip(4)).0 matches Ok(chunk) ==> {
        &&& chunk.len() <= len
        &&& chunk.len() > 0 ==> offset + chunk.len() <= file.len()
        &&& chunk.len() > 0 ==> chunk == file.subrange(offset, offset + chunk.len())
    })
}

/// A read that began at `start` is in step with `file`: the bytes that are there
/// are those of the file from `start` up to the next offset, and every answer
/// that is kept tells the truth about its place.
pub open spec fn in_step(v: ReadView, file: Seq<u8>, start: int) -> bool {
    &&& 0 <= start <= v.next_offset
    &&& v.replies.len() == v.pending.len()
    &&& v.result.len() == v.next_offset - start
    &&& v.result.len() > 0 ==> v.next_offset <= file.len()
    &&& v.result.len() > 0 ==> v.result == file.subrange(start, v.next_offset)
    &&& forall|i: int|
        0 <= i < v.pending.len() ==> match #[trigger] v.replies[i] {
            None => true,
            Some((kind, data)) => tells_truth(
                file,
                v.next_offset + asked_before(v.pending, i),
                v.pending[i].len,
                kind,
                data,
            ),
        }
}

/// `bytes` is what stands in `file` from `start` on.
pub open spec fn is_part(bytes: Seq<u8>, file: Seq<u8>, start: int) -> bool {
    bytes.len() > 0 ==> start + bytes.len() <= file.len() && bytes == file.subrange(
        start,
        start + bytes.len(),
    )
}

proof fn lemma_digest_in_step(
    v: ReadView,
    file: Seq<u8>,
    start: int,
    i: int,
    result: Seq<u8>,
    next_offset: int,
    remaining: nat,
    chunk_size: u32,
)
    requires
        0 <= i <= v.pending.len(),
        in_step(v, file, start),
        result.len() == next_offset - start,
        next_offset == v.next_offset + asked_before(v.pending, i),
        is_part(result, file, start),
    ensures
        match digest(v.pending, v.replies, i, result, next_offset, remaining, chunk_size) {
            Digest::Done(Ok(r)) => is_part(r, file, start),
            Digest::Again { result: r, next_offset: n, remaining: _, chunk_size: _ } => {
                &&& r.len() == n - start
                &&& is_part(r, file, start)
            },
            _ => true,
        },
    decreases v.pending.len() - i,
{
    if i < v.pending.len() {
        match v.replies[i] {
            None => {},
            Some((kind, data)) => {
                if kind == SSH_FXP_DATA {
                    match parse_bytes(data.skip(4)).0 {
                        Err(_) => {},
                        Ok(chunk) => {
                            if 0 < chunk.len() <= remaining {
                                let more = result + chunk;
                                assert(tells_truth(
                                    file,
                                    next_offset,
                                    v.pending[i].len,
                                    kind,
                                    data,
                                ));
                                assert(more =~= file.subrange(start, start + more.len()));
                                if chunk.len() < remaining && chunk.len() >= v.pending[i].len {
                                    assert(asked_before(v.pending, i + 1) == asked_before(
                                        v.pending,
                                        i,
                                    ) + v.pending[i].len);
                                    lemma_digest_in_step(
                                        v,
                                        file,
                                        start,
                                        i + 1,
                                        more,
                                        next_offset + chunk.len(),
                                        (remaining - chunk.len()) as nat,
                                        chunk_size,
                                    );
                                }
                            }
                        },
                    }
                }
            },
        }
    }
}

proof fn lemma_place_of(pending: Seq<PendingRead>, id: u32, i: int)
    requires
        0 <= i,
    ensures
        i <= pending.len() ==> i <= place_of(pending, id, i) <= pending.len(),
        place_of(pending, id, i) < pending.len() ==> pending[place_of(pending, id, i)].id == id,
    decreases pending.len() - i,
{
    if i < pending.len() && pending[i].id != id {
        lemma_place_of(pending, id, i + 1);
    }
}

/// A read that starts is in step with every file, from the place where it
/// starts.
pub proof fn law_read_starts_in_step(
    next_id: u32,
    handle: Seq<u8>,
    offset: int,
    remaining: nat,
    chunk_size: u32,
    file: Seq<u8>,
)
    requires
        0 <= offset,
    ensures
        start_reading(next_id, handle, offset, remaining, chunk_size, Seq::empty()).1 matches TurnView::Send(
            ExchangeView::Reading(v),
            _,
        ) && in_step(v, file, offset),
{
}

/// A long read keeps the order of the file and skips nothing. As long as the
/// answers tell the truth about the file, in whatever order they come and
/// however short they are, the read stays in step with it, and the bytes that it
/// ends with are those of the file from the place where it started.
pub proof fn law_long_read_is_contiguous(
    next_id: u32,
    v: ReadView,
    kind: u8,
    data: Seq<u8>,
    file: Seq<u8>,
    start: int,
)
    requires
        in_step(v, file, start),
        forall|i: int|
            0 <= i < v.pending.len() && id_of(data) == Ok::<u32, Fault>(
                (#[trigger] v.pending[i]).id,
            ) ==> tells_truth(
                file,
                v.next_offset + asked_before(v.pending, i),
                v.pending[i].len,
                kind,
                data,
            ),
    ensures
        match reading_step(next_id, v, kind, data).1 {
            TurnView::Receive(ExchangeView::Reading(w)) => in_step(w, file, start),
            TurnView::Send(ExchangeView::Reading(w), _) => in_step(w, file, start),
            TurnView::Finish(ReplyView::Data(Ok(bytes)), _) => is_part(bytes, file, start),
            TurnView::Finish(ReplyView::Data(Err(_)), _) => true,
            TurnView::Broken => true,
            _ => false,
        },
{
    match id_of(data) {
        Err(_) => {},
        Ok(id) => {
            lemma_place_of(v.pending, id, 0);
            let at = place_of(v.pending, id, 0);
            if at < v.pending.len() && v.replies[at] is None {
                let filled = ReadView {
                    replies: v.replies.update(at, Some((kind, data))),
                    received: v.received + 1,
                    ..v
                };
                assert(v.pending[at].id == id);
                assert forall|i: int| 0 <= i < filled.pending.len() implies match
                #[trigger] filled.replies[i] {
                    None => true,
                    Some((k, d)) => tells_truth(
                        file,
                        filled.next_offset + asked_before(filled.pending, i),
                        filled.pending[i].len,
                        k,
                        d,
                    ),
                } by {
                    if i != at {
                        assert(filled.replies[i] == v.replies[i]);
                    }
                }
                assert(in_step(filled, file, start));
                assert(asked_before(filled.pending, 0) == 0);
                lemma_digest_in_step(
                    filled,
                    file,
                    start,
                    0,
                    filled.result,
                    filled.next_offset,
                    filled.remaining,
                    filled.chunk_size,
                );
            }
        },
    }
}

// ── How much a long read gives back ─────────────────────────────────

/// What `file` holds from `from` up to `to`, as far as it goes.
pub open spec fn stretch(file: Seq<u8>, from: int, to: int) -> Seq<u8> {
    if from >= file.len() {
        Seq::empty()
    } else if to >= file.len() {
        file.skip(from)
    } else {
        file.subrange(from, to)
    }
}

/// An answer to a request for `len` bytes at `offset` of `file` is full: it
/// carries all that was asked for, as far as the file goes, and behind its end it
/// says so.
pub open spec fn is_full(file: Seq<u8>, offset: int, len: u32, kind: u8, data: Seq<u8>) -> bool {
    if offset < file.len() {
        kind == SSH_FXP_DATA && parse_bytes(data.skip(4)).0 == Ok::<Seq<u8>, Fault>(
            stretch(file, offset, offset + len),
        )
    } else {
        ||| kind == SSH_FXP_STATUS && read_status_answer(data.skip(4)) is Ok
        ||| kind == SSH_FXP_DATA && parse_bytes(data.skip(4)).0 == Ok::<Seq<u8>, Fault>(
            Seq::empty(),
        )
    }
}

/// How many of the first `n` requests are answered.
pub open spec fn answered_of(replies: Seq<Option<(u8, Seq<u8>)>>, n: int) -> int
    decreases n,
{
    if n <= 0 {
        0
    } else {
        answered_of(replies, n - 1) + if replies[n - 1] is Some {
            1int
        } else {
            0int
        }
    }
}

/// A read of `total` bytes of `file` from `start` on is on its way to all of
/// them: the bytes that are there are those from `start` up to the next offset,
/// the requests of the window ask for the rest in order, or the file has ended
/// already, and every answer that is kept is full.
pub open spec fn on_course(v: ReadView, file: Seq<u8>, start: int, total: nat) -> bool {
    &&& 0 <= start <= v.next_offset
    &&& v.next_offset + v.remaining == start + total
    &&& v.remaining > 0
    &&& v.chunk_size > 0
    &&& v.result.len() == v.next_offset - start
    &&& v.result.len() > 0 ==> v.next_offset <= file.len()
    &&& v.result == stretch(file, start, v.next_offset)
    &&& v.pending.len() > 0
    &&& v.replies.len() == v.pending.len()
    &&& v.received == answered_of(v.replies, v.replies.len() as int)
    &&& v.received < v.pending.len()
    &&& forall|i: int| 0 <= i < v.pending.len() ==> (#[trigger] v.pending[i]).len > 0
    &&& forall|i: int, j: int|
        0 <= i < j < v.pending.len() ==> (#[trigger] v.pending[i]).id != (
        #[trigger] v.pending[j]).id
    &&& asked_before(v.pending, v.pending.len() as int) <= v.remaining
    &&& v.next_offset >= file.len() || asked_before(v.pending, v.pending.len() as int)
        == v.remaining
    &&& forall|i: int|
        0 <= i < v.pending.len() ==> match #[trigger] v.replies[i] {
            None => true,
            Some((kind, data)) => is_full(
                file,
                v.next_offset + asked_before(v.pending, i),
                v.pending[i].len,
                kind,
                data,
            ),
        }
}

proof fn lemma_answered(replies: Seq<Option<(u8, Seq<u8>)>>, n: int)
    requires
        0 <= n <= replies.len(),
    ensures
        0 <= answered_of(replies, n) <= n,
        answered_of(replies, n) == n ==> forall|i: int|
            0 <= i < n ==> #[trigger] replies[i] is Some,
        (forall|i: int| 0 <= i < n ==> #[trigger] replies[i] is None) ==> answered_of(replies, n)
            == 0,
    decreases n,
{
    if n > 0 {
        lemma_answered(replies, n - 1);
    }
}

proof fn lemma_one_more(
    replies: Seq<Option<(u8, Seq<u8>)>>,
    at: int,
    reply: (u8, Seq<u8>),
    n: int,
)
    requires
        0 <= at < replies.len(),
        replies[at] is None,
        0 <= n <= replies.len(),
    ensures
        answered_of(replies.update(at, Some(reply)), n) == answered_of(replies, n) + if at < n {
            1int
        } else {
            0int
        },
    decreases n,
{
    if n > 0 {
        lemma_one_more(replies, at, reply, n - 1);
    }
}

proof fn lemma_asked_grows(pending: Seq<PendingRead>, i: int, n: int)
    requires
        0 <= i <= n <= pending.len(),
    ensures
        asked_before(pending, i) <= asked_before(pending, n),
    decreases n,
{
    if i < n {
        lemma_asked_grows(pending, i, n - 1);
    }
}

proof fn lemma_asked_shift(first: PendingRead, rest: Seq<PendingRead>, i: int)
    requires
        0 <= i <= rest.len(),
    ensures
        asked_before(seq![first] + rest, i + 1) == first.len + asked_before(rest, i),
    decreases i,
{
    let all = seq![first] + rest;
    if i > 0 {
        lemma_asked_shift(first, rest, i - 1);
        assert(all[i] == rest[i - 1]);
    } else {
        assert(asked_before(all, 0) == 0);
        assert(all[0] == first);
    }
}

proof fn lemma_window_asks(
    id: u32,
    handle: Seq<u8>,
    offset: int,
    remaining: nat,
    chunk_size: u32,
    room: nat,
)
    requires
        chunk_size > 0,
    ensures
        ({
            let p = read_window(id, handle, offset, remaining, chunk_size, room).pending;
            &&& forall|i: int| 0 <= i < p.len() ==> (#[trigger] p[i]).len > 0
            &&& asked_before(p, p.len() as int) <= remaining
            &&& remaining <= room * chunk_size ==> asked_before(p, p.len() as int) == remaining
            &&& remaining > 0 && room > 0 ==> p.len() > 0
        }),
    decreases room,
{
    if room > 0 && remaining > 0 {
        let len = request_len(remaining, chunk_size);
        let left = (remaining - len) as nat;
        let next = id.wrapping_add(1);
        lemma_window_asks(next, handle, offset + len, left, chunk_size, (room - 1) as nat);
        let rest = read_window(next, handle, offset + len, left, chunk_size, (room - 1) as nat);
        lemma_asked_shift(PendingRead { id, len }, rest.pending, rest.pending.len() as int);
        let p = read_window(id, handle, offset, remaining, chunk_size, room).pending;
        assert forall|i: int| 0 <= i < p.len() implies (#[trigger] p[i]).len > 0 by {
            if i > 0 {
                assert(p[i] == rest.pending[i - 1]);
            }
        }
        assert(remaining <= room * chunk_size ==> left <= (room - 1) * chunk_size)
            by (nonlinear_arith)
            requires
                room > 0,
                left == remaining - len,
                len == chunk_size || left == 0,
                chunk_size > 0,
        ;
    } else if room == 0 {
        assert(0 * chunk_size == 0) by (nonlinear_arith);
    }
}

proof fn lemma_start_on_course(
    next_id: u32,
    handle: Seq<u8>,
    next_offset: int,
    remaining: nat,
    chunk_size: u32,
    result: Seq<u8>,
    file: Seq<u8>,
    start: int,
    total: nat,
)
    requires
        0 <= start <= next_offset,
        next_offset + remaining == start + total,
        remaining > 0,
        chunk_size > 0,
        result.len() == next_offset - start,
        result.len() > 0 ==> next_offset <= file.len(),
        result == stretch(file, start, next_offset),
        next_offset >= file.len() || remaining <= READ_PIPELINE * chunk_size,
    ensures
        start_reading(next_id, handle, next_offset, remaining, chunk_size, result).1 matches TurnView::Send(
            ExchangeView::Reading(v),
            _,
        ) && on_course(v, file, start, total),
{
    let room = READ_PIPELINE as nat;
    lemma_window_asks(next_id, handle, next_offset, remaining, chunk_size, room);
    let w = read_window(next_id, handle, next_offset, remaining, chunk_size, room);
    let replies = Seq::new(w.pending.len(), |i: int| None::<(u8, Seq<u8>)>);
    lemma_answered(replies, replies.len() as int);
    assert forall|i: int, j: int| 0 <= i < j < w.pending.len() implies (#[trigger] w.pending[i]).id
        != (#[trigger] w.pending[j]).id by {
        law_window_ids_differ(next_id, handle, next_offset, remaining, chunk_size, i, j);
    }
}

/// A read that was on course, and whose window is answered in full.
spec fn answered_in_full(v: ReadView, file: Seq<u8>, start: int, total: nat) -> bool {
    &&& 0 <= start <= v.next_offset
    &&& v.next_offset + v.remaining == start + total
    &&& v.chunk_size > 0
    &&& v.pending.len() > 0
    &&& v.replies.len() == v.pending.len()
    &&& forall|i: int| 0 <= i < v.pending.len() ==> (#[trigger] v.pending[i]).len > 0
    &&& asked_before(v.pending, v.pending.len() as int) <= v.remaining
    &&& v.next_offset >= file.len() || asked_before(v.pending, v.pending.len() as int)
        == v.remaining
    &&& forall|i: int|
        0 <= i < v.pending.len() ==> (#[trigger] v.replies[i] matches Some(r) && is_full(
            file,
            v.next_offset + asked_before(v.pending, i),
            v.pending[i].len,
            r.0,
            r.1,
        ))
}

proof fn lemma_digest_completes(
    v: ReadView,
    file: Seq<u8>,
    start: int,
    total: nat,
    i: int,
    result: Seq<u8>,
    next_offset: int,
    remaining: nat,
)
    requires
        answered_in_full(v, file, start, total),
        0 <= i <= v.pending.len(),
        i > 0 ==> v.next_offset < file.len(),
        next_offset == v.next_offset + asked_before(v.pending, i),
        remaining == v.remaining - asked_before(v.pending, i),
        remaining > 0,
        result.len() == next_offset - start,
        result.len() > 0 ==> next_offset <= file.len(),
        result == stretch(file, start, next_offset),
    ensures
        match digest(
            v.pending,
            v.replies,
            i,
            result,
            next_offset,
            remaining,
            v.chunk_size,
        ) {
            Digest::Done(Ok(r)) => r == stretch(file, start, start + total),
            Digest::Again { result: r, next_offset: n, remaining: left, chunk_size: c } => {
                &&& r.len() == n - start
                &&& n == file.len()
                &&& start <= n
                &&& n + left == start + total
                &&& left > 0
                &&& c > 0
                &&& r == stretch(file, start, n)
            },
            _ => false,
        },
    decreases v.pending.len() - i,
{
    let n = v.pending.len() as int;
    lemma_asked_grows(v.pending, i, n);
    if i < n {
        lemma_asked_grows(v.pending, i + 1, n);
        assert(asked_before(v.pending, i + 1) == asked_before(v.pending, i) + v.pending[i].len);
        let (kind, data) = v.replies[i].unwrap();
        assert(v.replies[i] == Some((kind, data)));
        assert(is_full(file, next_offset, v.pending[i].len, kind, data));
        if next_offset < file.len() {
            let len = v.pending[i].len;
            let chunk = stretch(file, next_offset, next_offset + len);
            let more = result + chunk;
            assert(more =~= stretch(file, start, next_offset + chunk.len()));
            if chunk.len() == len && len < remaining {
                lemma_digest_completes(
                    v,
                    file,
                    start,
                    total,
                    i + 1,
                    more,
                    next_offset + chunk.len(),
                    (remaining - chunk.len()) as nat,
                );
            } else if chunk.len() < len {
                assert(next_offset + chunk.len() == file.len());
            }
        } else {
            assert(stretch(file, start, next_offset) =~= stretch(file, start, start + total));
        }
    }
}

/// A long read that starts is on course to all of its bytes, as long as one
/// window can ask for them.
pub proof fn law_read_starts_on_course(
    next_id: u32,
    handle: Seq<u8>,
    offset: int,
    total: nat,
    chunk_size: u32,
    file: Seq<u8>,
)
    requires
        0 <= offset,
        chunk_size > 0,
        0 < total <= READ_PIPELINE * chunk_size,
    ensures
        start_reading(next_id, handle, offset, total, chunk_size, Seq::empty()).1 matches TurnView::Send(
            ExchangeView::Reading(v),
            _,
        ) && on_course(v, file, offset, total),
{
    assert(stretch(file, offset, offset) =~= Seq::empty());
    lemma_start_on_course(
        next_id,
        handle,
        offset,
        total,
        chunk_size,
        Seq::empty(),
        file,
        offset,
        total,
    );
}

/// A long read gives back all that the file holds. As long as each answer is for
/// a request that waits for it and is full, in whatever order they come, the read
/// stays on course and cannot fail, and the bytes that it ends with are those
/// that were asked for, up to the end of the file. They are none only where the
/// read started at that end or behind it.
pub proof fn law_long_read_is_complete(
    next_id: u32,
    v: ReadView,
    kind: u8,
    data: Seq<u8>,
    file: Seq<u8>,
    start: int,
    total: nat,
    at: int,
)
    requires
        on_course(v, file, start, total),
        0 <= at < v.pending.len(),
        v.replies[at] is None,
        id_of(data) == Ok::<u32, Fault>(v.pending[at].id),
        is_full(
            file,
            v.next_offset + asked_before(v.pending, at),
            v.pending[at].len,
            kind,
            data,
        ),
    ensures
        match reading_step(next_id, v, kind, data).1 {
            TurnView::Receive(ExchangeView::Reading(w)) => on_course(w, file, start, total),
            TurnView::Send(ExchangeView::Reading(w), _) => on_course(w, file, start, total),
            TurnView::Finish(ReplyView::Data(Ok(bytes)), _) => {
                &&& bytes == stretch(file, start, start + total)
                &&& bytes.len() == 0 <==> start >= file.len()
            },
            _ => false,
        },
{
    let id = v.pending[at].id;
    lemma_place_of(v.pending, id, 0);
    lemma_place_found(v.pending, id, 0, at);
    assert(place_of(v.pending, id, 0) == at);
    let n = v.pending.len() as int;
    let filled = ReadView {
        replies: v.replies.update(at, Some((kind, data))),
        received: v.received + 1,
        ..v
    };
    lemma_one_more(v.replies, at, (kind, data), n);
    assert forall|i: int| 0 <= i < n implies match #[trigger] filled.replies[i] {
        None => true,
        Some((k, d)) => is_full(
            file,
            filled.next_offset + asked_before(filled.pending, i),
            filled.pending[i].len,
            k,
            d,
        ),
    } by {
        if i != at {
            assert(filled.replies[i] == v.replies[i]);
        }
    }
    lemma_answered(filled.replies, n);
    if filled.received == n {
        assert forall|i: int| 0 <= i < n implies (#[trigger] filled.replies[i] matches Some(r)
            && is_full(
            file,
            filled.next_offset + asked_before(filled.pending, i),
            filled.pending[i].len,
            r.0,
            r.1,
        )) by {}
        assert(asked_before(filled.pending, 0) == 0);
        lemma_digest_completes(
            filled,
            file,
            start,
            total,
            0,
            filled.result,
            filled.next_offset,
            filled.remaining,
        );
        if let Digest::Again { result, next_offset, remaining, chunk_size } = digest(
            filled.pending,
            filled.replies,
            0,
            filled.result,
            filled.next_offset,
            filled.remaining,
            filled.chunk_size,
        ) {
            lemma_start_on_course(
                next_id,
                filled.handle,
                next_offset,
                remaining,
                chunk_size,
                result,
                file,
                start,
                total,
            );
        }
    }
}

proof fn lemma_place_found(pending: Seq<PendingRead>, id: u32, i: int, at: int)
    requires
        0 <= i <= at < pending.len(),
        pending[at].id == id,
    ensures
        place_of(pending, id, i) <= at,
    decreases at - i,
{
    if pending[i].id != id {
        lemma_place_found(pending, id, i + 1, at);
    }
}

/// So does a short read, with its one answer.
pub proof fn law_short_read_is_complete(
    id: u32,
    kind: u8,
    data: Seq<u8>,
    file: Seq<u8>,
    start: int,
    len: u32,
)
    requires
        0 <= start,
        id_of(data) == Ok::<u32, Fault>(id),
        is_full(file, start, len, kind, data),
    ensures
        single_answer(id, Want::Data, kind, data) == ReplyView::Data(
            Ok(stretch(file, start, start + len)),
        ),
{
}

proof fn lemma_window_ids(
    id: u32,
    handle: Seq<u8>,
    offset: int,
    remaining: nat,
    chunk_size: u32,
    room: nat,
    i: int,
)
    requires
        0 <= i < read_window(id, handle, offset, remaining, chunk_size, room).pending.len(),
    ensures
        ({
            let w = read_window(id, handle, offset, remaining, chunk_size, room);
            &&& w.pending.len() <= room
            &&& w.pending[i].id == (id + i) % 0x1_0000_0000
        }),
    decreases room,
{
    if room > 0 && remaining > 0 {
        let len = request_len(remaining, chunk_size);
        let rest = read_window(
            id.wrapping_add(1),
            handle,
            offset + len,
            (remaining - len) as nat,
            chunk_size,
            (room - 1) as nat,
        );
        if i > 0 {
            lemma_window_ids(
                id.wrapping_add(1),
                handle,
                offset + len,
                (remaining - len) as nat,
                chunk_size,
                (room - 1) as nat,
                i - 1,
            );
        } else if rest.pending.len() > 0 {
            lemma_window_ids(
                id.wrapping_add(1),
                handle,
                offset + len,
                (remaining - len) as nat,
                chunk_size,
                (room - 1) as nat,
                0,
            );
        }
    }
}

/// The requests of one window have different ids, so that every answer belongs
/// to one request only.
pub proof fn law_window_ids_differ(
    id: u32,
    handle: Seq<u8>,
    offset: int,
    remaining: nat,
    chunk_size: u32,
    i: int,
    j: int,
)
    requires
        0 <= i < j < read_window(
            id,
            handle,
            offset,
            remaining,
            chunk_size,
            READ_PIPELINE as nat,
        ).pending.len(),
    ensures
        ({
            let w = read_window(id, handle, offset, remaining, chunk_size, READ_PIPELINE as nat);
            w.pending[i].id != w.pending[j].id
        }),
{
    lemma_window_ids(id, handle, offset, remaining, chunk_size, READ_PIPELINE as nat, i);
    lemma_window_ids(id, handle, offset, remaining, chunk_size, READ_PIPELINE as nat, j);
}

/// A long write succeeds only when all of its data has been sent and every
/// request of the last window is answered.
pub proof fn law_long_write_is_complete(next_id: u32, v: WriteView, kind: u8, data: Seq<u8>)
    ensures
        writing_step(next_id, v, kind, data).1 matches TurnView::Finish(
            ReplyView::Nothing(Ok(_)),
            _,
        ) ==> v.written >= v.data.len() && v.answered + 1 >= v.in_flight,
{
}

/// The pieces that a window of write requests carries: where each goes in the
/// file, and its bytes.
pub open spec fn window_pieces(offset: u64, data: Seq<u8>, written: nat, room: nat) -> Seq<
    (int, Seq<u8>),
>
    decreases room,
{
    if room == 0 || written >= data.len() {
        Seq::empty()
    } else {
        let len = write_len((data.len() - written) as nat) as nat;
        seq![(offset + written as int, data.subrange(written as int, (written + len) as int))]
            + window_pieces(offset, data, written + len, (room - 1) as nat)
    }
}

/// Pieces as write requests, one after the other.
pub open spec fn piece_packets(id: u32, handle: Seq<u8>, pieces: Seq<(int, Seq<u8>)>) -> Seq<u8>
    decreases pieces.len(),
{
    if pieces.len() == 0 {
        Seq::empty()
    } else {
        packet(SSH_FXP_WRITE, id, write_request(handle, pieces[0].0 as u64, pieces[0].1))
            + piece_packets(id.wrapping_add(1), handle, pieces.skip(1))
    }
}

/// A file with other bytes from `at` on.
pub open spec fn patched(file: Seq<u8>, at: int, bytes: Seq<u8>) -> Seq<u8> {
    Seq::new(
        file.len(),
        |i: int|
            if at <= i < at + bytes.len() {
                bytes[i - at]
            } else {
                file[i]
            },
    )
}

/// A file once a server has written all pieces to it.
pub open spec fn all_patched(file: Seq<u8>, pieces: Seq<(int, Seq<u8>)>) -> Seq<u8>
    decreases pieces.len(),
{
    if pieces.len() == 0 {
        file
    } else {
        all_patched(patched(file, pieces[0].0, pieces[0].1), pieces.skip(1))
    }
}

/// A window of write requests carries the bytes that come next, each to its
/// place: a server that writes them has, from `offset` on, all bytes up to those
/// that count as written, and the rest of its file as it was. Every window moves
/// on.
pub proof fn law_write_window_lands(
    id: u32,
    handle: Seq<u8>,
    offset: u64,
    data: Seq<u8>,
    written: nat,
    room: nat,
    file: Seq<u8>,
)
    requires
        written <= data.len(),
    ensures
        ({
            let w = write_window(id, handle, offset, data, written, room);
            let pieces = window_pieces(offset, data, written, room);
            &&& w.packets == piece_packets(id, handle, pieces)
            &&& w.count == pieces.len()
            &&& written <= w.written <= data.len()
            &&& room > 0 && written < data.len() ==> written < w.written
            &&& all_patched(patched(file, offset as int, data.take(written as int)), pieces)
                == patched(file, offset as int, data.take(w.written as int))
        }),
    decreases room,
{
    let w = write_window(id, handle, offset, data, written, room);
    let pieces = window_pieces(offset, data, written, room);
    if !(room == 0 || written >= data.len()) {
        let len = write_len((data.len() - written) as nat) as nat;
        let left = (data.len() - written) as nat;
        assert(len <= left);
        law_write_window_lands(
            id.wrapping_add(1),
            handle,
            offset,
            data,
            written + len,
            (room - 1) as nat,
            file,
        );
        let rest = window_pieces(offset, data, written + len, (room - 1) as nat);
        assert(pieces.skip(1) =~= rest);
        let before = patched(file, offset as int, data.take(written as int));
        let after = patched(file, offset as int, data.take((written + len) as int));
        assert(patched(before, pieces[0].0, pieces[0].1) =~= after);
    }
}

/// The kind of value that an operation in flight is to give.
pub open spec fn goal_of(x: ExchangeView) -> Want {
    match x {
        ExchangeView::Single { id: _, want } => want,
        ExchangeView::Reading(_) => Want::Data,
        ExchangeView::Writing(_) => Want::Nothing,
        _ => Want::Entries,
    }
}

/// Listings are never one single request.
pub open spec fn is_proper(x: ExchangeView) -> bool {
    x matches ExchangeView::Single { id: _, want } ==> want != Want::Entries
}

/// A turn that stays with its operation: its reply is of the kind that was asked
/// for, and as long as there is none the operation keeps its goal.
pub open spec fn keeps_goal(t: TurnView, goal: Want) -> bool {
    match t {
        TurnView::Send(x, _) => is_proper(x) && goal_of(x) == goal,
        TurnView::Receive(x) => is_proper(x) && goal_of(x) == goal,
        TurnView::Finish(reply, _) => kind_of(reply) == goal,
        TurnView::Broken => true,
    }
}

/// Whatever the server sends, and also where the connection is lost, the reply
/// of an operation is of the kind that was asked for.
pub proof fn law_replies_fit_their_operations(
    next_id: u32,
    x: ExchangeView,
    kind: u8,
    data: Seq<u8>,
)
    requires
        is_proper(x),
    ensures
        keeps_goal(exchange_step(next_id, x, kind, data).1, goal_of(x)),
        keeps_goal(exchange_lost(next_id, x).1, goal_of(x)),
{
}

/// A listing closes its directory before it ends: once there is a handle, no
/// answer and no loss ends the listing without the request to close it.
pub proof fn law_listing_closes_its_directory(
    next_id: u32,
    id: u32,
    handle: Seq<u8>,
    entries: Seq<EntryView>,
    kind: u8,
    data: Seq<u8>,
)
    ensures
        match listing_step(next_id, id, handle, entries, kind, data).1 {
            TurnView::Send(ExchangeView::Listing { id: _, handle: h, entries: _ }, _) => h
                == handle,
            TurnView::Send(ExchangeView::Closing { result: _ }, bytes) => bytes == packet(
                SSH_FXP_CLOSE,
                next_id,
                bytes_field(handle),
            ),
            _ => false,
        },
        exchange_lost(next_id, ExchangeView::Listing { id, handle, entries }).1 matches TurnView::Send(
            ExchangeView::Closing { result: _ },
            _,
        ),
{
}

} // verus!

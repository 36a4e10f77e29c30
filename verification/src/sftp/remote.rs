//! What the server at the other end makes of the requests that it is sent.

use crate::bytes::{be32, be32_at, be64, be64_at, lemma_be32_in, lemma_be64_in};
use crate::sftp::call::{CallOf, CallView, ReplyView, Want};
use crate::sftp::exchange::{
    listing_step, opening_step, read_request, read_window, reading_step, single_answer,
    write_request, write_window, writing_step, ExchangeView, PendingRead, ReadView, TurnView,
    WriteView,
};
use crate::sftp::packet::{is_dot_name, packet, parse_names, status_of};
use crate::sftp::session::{first_request, hello_packet, open_attrs, start_call, version_answer};
use crate::wire::{
    attrs_field, bytes_field, law_read_back_attrs, law_read_back_text, law_read_back_u32,
    parse_bytes, parse_u32, parse_u64, text_field, EntryView, Fault, FileAttr,
};
use vstd::prelude::*;
use vstd::utf8::{decode_utf8, encode_utf8, valid_utf8};

verus! {

/// The string at `at`: its length in four bytes, the first of which counts most,
/// and then its bytes.
pub open spec fn string_at(b: Seq<u8>, at: int) -> Seq<u8> {
    b.subrange(at + 4, at + 4 + be32_at(b, at))
}

/// Where the string at `at` ends.
pub open spec fn behind(b: Seq<u8>, at: int) -> int {
    at + 4 + be32_at(b, at)
}

/// The string at `at` lies within the bytes and holds the text in UTF-8.
pub open spec fn names(b: Seq<u8>, at: int, text: Seq<char>) -> bool {
    &&& behind(b, at) <= b.len()
    &&& decode_utf8(string_at(b, at)) == text
}

/// The string at `at` lies within the bytes and is this one.
pub open spec fn holds(b: Seq<u8>, at: int, string: Seq<u8>) -> bool {
    &&& behind(b, at) <= b.len()
    &&& string_at(b, at) == string
}

/// What a server takes a request of that type with that payload for: each
/// operation has its own type, and its arguments stand in the order of the
/// protocol, with nothing behind them.
pub open spec fn means(kind: u8, b: Seq<u8>, call: CallView) -> bool {
    let end = behind(b, 0);
    match call {
        CallOf::Open { path, flags, mode } => {
            &&& kind == 3
            &&& names(b, 0, path)
            &&& be32_at(b, end) == flags
            &&& if flags & 8 != 0 {
                &&& b.len() == end + 12
                &&& be32_at(b, end + 4) == 4
                &&& be32_at(b, end + 8) == mode
            } else {
                &&& b.len() == end + 8
                &&& be32_at(b, end + 4) == 0
            }
        },
        CallOf::Close { handle } => kind == 4 && holds(b, 0, handle) && b.len() == end,
        CallOf::Read { handle, offset, len } => {
            &&& kind == 5
            &&& holds(b, 0, handle)
            &&& b.len() == end + 12
            &&& be64_at(b, end) == offset
            &&& be32_at(b, end + 8) == len
        },
        CallOf::Write { handle, offset, data } => {
            &&& kind == 6
            &&& holds(b, 0, handle)
            &&& be64_at(b, end) == offset
            &&& holds(b, end + 8, data)
            &&& b.len() == behind(b, end + 8)
        },
        CallOf::Lstat { path } => kind == 7 && names(b, 0, path) && b.len() == end,
        CallOf::Setstat { path, attrs } => {
            &&& kind == 9
            &&& names(b, 0, path)
            &&& b.len() == end + 32
            &&& be32_at(b, end) == 15
            &&& be64_at(b, end + 4) == attrs.size
            &&& be32_at(b, end + 12) == attrs.uid
            &&& be32_at(b, end + 16) == attrs.gid
            &&& be32_at(b, end + 20) == attrs.perm
            &&& be32_at(b, end + 24) == attrs.atime
            &&& be32_at(b, end + 28) == attrs.mtime
        },
        CallOf::Readdir { path } => kind == 11 && names(b, 0, path) && b.len() == end,
        CallOf::Remove { path } => kind == 13 && names(b, 0, path) && b.len() == end,
        CallOf::Mkdir { path, mode } => {
            &&& kind == 14
            &&& names(b, 0, path)
            &&& b.len() == end + 8
            &&& be32_at(b, end) == 4
            &&& be32_at(b, end + 4) == mode
        },
        CallOf::Rmdir { path } => kind == 15 && names(b, 0, path) && b.len() == end,
        CallOf::Realpath { path } => kind == 16 && names(b, 0, path) && b.len() == end,
        CallOf::Stat { path } => kind == 17 && names(b, 0, path) && b.len() == end,
        CallOf::Rename { from, to } => {
            &&& kind == 18
            &&& names(b, 0, from)
            &&& names(b, end, to)
            &&& b.len() == behind(b, end)
        },
        CallOf::Symlink { target, link } => {
            &&& kind == 20
            &&& names(b, 0, target)
            &&& names(b, end, link)
            &&& b.len() == behind(b, end)
        },
    }
}

/// Where the packet at `at` ends.
pub open spec fn packet_end(p: Seq<u8>, at: int) -> int {
    at + 4 + be32_at(p, at)
}

/// A packet of that type with that id stands at `at`, whole.
pub open spec fn has_packet(p: Seq<u8>, at: int, kind: u8, id: u32) -> bool {
    &&& 0 <= at
    &&& at + 9 <= packet_end(p, at) <= p.len()
    &&& p[at + 4] == kind
    &&& be32_at(p, at + 5) == id
}

/// The payload of the packet at `at`.
pub open spec fn payload_at(p: Seq<u8>, at: int) -> Seq<u8> {
    p.subrange(at + 9, packet_end(p, at))
}

/// The packet at `at` asks for the operation under that id.
pub open spec fn is_asking(p: Seq<u8>, at: int, id: u32, call: CallView) -> bool {
    &&& has_packet(p, at, p[at + 4], id)
    &&& means(p[at + 4], payload_at(p, at), call)
}

proof fn lemma_string(d: Seq<u8>, at: int, s: Seq<u8>)
    requires
        0 <= at,
        at + 4 + s.len() <= d.len(),
        s.len() <= u32::MAX,
        d.subrange(at, at + 4 + s.len()) == bytes_field(s),
    ensures
        holds(d, at, s),
        behind(d, at) == at + 4 + s.len(),
{
    let f = bytes_field(s);
    let p = d.subrange(at, at + 4 + s.len());
    assert(d.subrange(at, at + 4) =~= p.subrange(0, 4));
    assert(f.subrange(0, 4) =~= be32(s.len() as u32));
    lemma_be32_in(d, at, s.len() as u32);
    assert(string_at(d, at) =~= p.subrange(4, 4 + s.len() as int));
    assert(f.subrange(4, 4 + s.len() as int) =~= s);
}

proof fn lemma_text(d: Seq<u8>, at: int, s: Seq<char>)
    requires
        0 <= at,
        at + text_field(s).len() <= d.len(),
        text_field(s).len() <= u32::MAX,
        d.subrange(at, at + text_field(s).len()) == text_field(s),
    ensures
        names(d, at, s),
        behind(d, at) == at + text_field(s).len(),
{
    let e = encode_utf8(s);
    assert(text_field(s) =~= bytes_field(e));
    assert(text_field(s).len() == 4 + e.len());
    lemma_string(d, at, e);
    vstd::utf8::encode_utf8_valid_utf8(s);
    vstd::utf8::encode_utf8_decode_utf8(s);
}

proof fn lemma_packet_at(pre: Seq<u8>, kind: u8, id: u32, payload: Seq<u8>, post: Seq<u8>)
    requires
        payload.len() + 9 <= u32::MAX,
    ensures
        ({
            let p = pre + (packet(kind, id, payload) + post);
            let at = pre.len() as int;
            &&& has_packet(p, at, kind, id)
            &&& payload_at(p, at) == payload
            &&& packet_end(p, at) == at + packet(kind, id, payload).len()
            &&& packet(kind, id, payload).len() == 9 + payload.len()
        }),
{
    let p = pre + (packet(kind, id, payload) + post);
    let at = pre.len() as int;
    let n = (5 + payload.len()) as u32;
    assert(p.subrange(at, at + 4) =~= be32(n));
    lemma_be32_in(p, at, n);
    assert(p.subrange(at + 5, at + 5 + 4) =~= be32(id));
    lemma_be32_in(p, at + 5, id);
    assert(payload_at(p, at) =~= payload);
}

proof fn lemma_text_first(s: Seq<char>, tail: Seq<u8>)
    requires
        text_field(s).len() <= u32::MAX,
    ensures
        names(text_field(s) + tail, 0, s),
        behind(text_field(s) + tail, 0) == text_field(s).len(),
{
    let d = text_field(s) + tail;
    assert(d.subrange(0, 0 + text_field(s).len() as int) =~= text_field(s));
    lemma_text(d, 0, s);
}

proof fn lemma_texts(a: Seq<char>, b: Seq<char>)
    requires
        text_field(a).len() + text_field(b).len() <= u32::MAX,
    ensures
        ({
            let d = text_field(a) + text_field(b);
            &&& names(d, 0, a)
            &&& names(d, behind(d, 0), b)
            &&& behind(d, behind(d, 0)) == d.len()
        }),
{
    let d = text_field(a) + text_field(b);
    lemma_text_first(a, text_field(b));
    let at = text_field(a).len() as int;
    assert(d.subrange(at, at + text_field(b).len()) =~= text_field(b));
    lemma_text(d, at, b);
}

proof fn lemma_read_request(handle: Seq<u8>, offset: u64, len: u32)
    requires
        read_request(handle, offset as int, len).len() <= u32::MAX,
    ensures
        means(
            5,
            read_request(handle, offset as int, len),
            CallOf::Read { handle, offset, len },
        ),
{
    let d = read_request(handle, offset as int, len);
    let end = bytes_field(handle).len() as int;
    assert(d.subrange(0, 0 + 4 + handle.len() as int) =~= bytes_field(handle));
    lemma_string(d, 0, handle);
    assert(d.subrange(end, end + 8) =~= be64(offset));
    lemma_be64_in(d, end, offset);
    assert(d.subrange(end + 8, end + 8 + 4) =~= be32(len));
    lemma_be32_in(d, end + 8, len);
}

proof fn lemma_write_request(handle: Seq<u8>, offset: u64, data: Seq<u8>)
    requires
        write_request(handle, offset, data).len() <= u32::MAX,
    ensures
        means(6, write_request(handle, offset, data), CallOf::Write { handle, offset, data }),
{
    let d = write_request(handle, offset, data);
    let end = bytes_field(handle).len() as int;
    assert(d.subrange(0, 0 + 4 + handle.len() as int) =~= bytes_field(handle));
    lemma_string(d, 0, handle);
    assert(d.subrange(end, end + 8) =~= be64(offset));
    lemma_be64_in(d, end, offset);
    assert(d.subrange(end + 8, end + 8 + 4 + data.len()) =~= bytes_field(data));
    lemma_string(d, end + 8, data);
}

proof fn lemma_setstat(path: Seq<char>, attrs: FileAttr)
    requires
        (text_field(path) + attrs_field(attrs)).len() <= u32::MAX,
    ensures
        means(9, text_field(path) + attrs_field(attrs), CallOf::Setstat { path, attrs }),
{
    let d = text_field(path) + attrs_field(attrs);
    let end = text_field(path).len() as int;
    lemma_text_first(path, attrs_field(attrs));
    assert(d.subrange(end, end + 4) =~= be32(15));
    assert(d.subrange(end + 4, end + 4 + 8) =~= be64(attrs.size));
    assert(d.subrange(end + 12, end + 12 + 4) =~= be32(attrs.uid));
    assert(d.subrange(end + 16, end + 16 + 4) =~= be32(attrs.gid));
    assert(d.subrange(end + 20, end + 20 + 4) =~= be32(attrs.perm));
    assert(d.subrange(end + 24, end + 24 + 4) =~= be32(attrs.atime));
    assert(d.subrange(end + 28, end + 28 + 4) =~= be32(attrs.mtime));
    lemma_be32_in(d, end, 15);
    lemma_be64_in(d, end + 4, attrs.size);
    lemma_be32_in(d, end + 12, attrs.uid);
    lemma_be32_in(d, end + 16, attrs.gid);
    lemma_be32_in(d, end + 20, attrs.perm);
    lemma_be32_in(d, end + 24, attrs.atime);
    lemma_be32_in(d, end + 28, attrs.mtime);
}

proof fn lemma_open(path: Seq<char>, flags: u32, mode: u32)
    requires
        (text_field(path) + be32(flags) + open_attrs(flags, mode)).len() <= u32::MAX,
    ensures
        means(
            3,
            text_field(path) + be32(flags) + open_attrs(flags, mode),
            CallOf::Open { path, flags, mode },
        ),
{
    let d = text_field(path) + be32(flags) + open_attrs(flags, mode);
    let end = text_field(path).len() as int;
    assert(d =~= text_field(path) + (be32(flags) + open_attrs(flags, mode)));
    lemma_text_first(path, be32(flags) + open_attrs(flags, mode));
    assert(d.subrange(end, end + 4) =~= be32(flags));
    lemma_be32_in(d, end, flags);
    if flags & 8 != 0 {
        assert(d.subrange(end + 4, end + 4 + 4) =~= be32(4));
        lemma_be32_in(d, end + 4, 4);
        assert(d.subrange(end + 8, end + 8 + 4) =~= be32(mode));
        lemma_be32_in(d, end + 8, mode);
    } else {
        assert(d.subrange(end + 4, end + 4 + 4) =~= be32(0));
        lemma_be32_in(d, end + 4, 0);
    }
}

proof fn lemma_mkdir(path: Seq<char>, mode: u32)
    requires
        (text_field(path) + be32(4) + be32(mode)).len() <= u32::MAX,
    ensures
        means(14, text_field(path) + be32(4) + be32(mode), CallOf::Mkdir { path, mode }),
{
    let d = text_field(path) + be32(4) + be32(mode);
    let end = text_field(path).len() as int;
    assert(d =~= text_field(path) + (be32(4) + be32(mode)));
    lemma_text_first(path, be32(4) + be32(mode));
    assert(d.subrange(end, end + 4) =~= be32(4));
    lemma_be32_in(d, end, 4);
    assert(d.subrange(end + 4, end + 4 + 4) =~= be32(mode));
    lemma_be32_in(d, end + 4, mode);
}

proof fn lemma_first_request(call: CallView)
    requires
        first_request(call).1.len() <= u32::MAX,
    ensures
        means(first_request(call).0, first_request(call).1, call),
{
    let (kind, d) = first_request(call);
    match call {
        CallOf::Setstat { path, attrs } => {
            lemma_setstat(path, attrs);
        },
        CallOf::Open { path, flags, mode } => {
            lemma_open(path, flags, mode);
        },
        CallOf::Close { handle } => {
            assert(d.subrange(0, 0 + 4 + handle.len() as int) =~= d);
            lemma_string(d, 0, handle);
        },
        CallOf::Read { handle, offset, len } => {
            lemma_read_request(handle, offset, len);
        },
        CallOf::Write { handle, offset, data } => {
            lemma_write_request(handle, offset, data);
        },
        CallOf::Mkdir { path, mode } => {
            lemma_mkdir(path, mode);
        },
        CallOf::Rename { from, to } => {
            lemma_texts(from, to);
        },
        CallOf::Symlink { target, link } => {
            lemma_texts(target, link);
        },
        CallOf::Realpath { path } => {
            assert(d + Seq::<u8>::empty() =~= d);
            lemma_text_first(path, Seq::empty());
        },
        CallOf::Stat { path } => {
            assert(d + Seq::<u8>::empty() =~= d);
            lemma_text_first(path, Seq::empty());
        },
        CallOf::Lstat { path } => {
            assert(d + Seq::<u8>::empty() =~= d);
            lemma_text_first(path, Seq::empty());
        },
        CallOf::Readdir { path } => {
            assert(d + Seq::<u8>::empty() =~= d);
            lemma_text_first(path, Seq::empty());
        },
        CallOf::Rmdir { path } => {
            assert(d + Seq::<u8>::empty() =~= d);
            lemma_text_first(path, Seq::empty());
        },
        CallOf::Remove { path } => {
            assert(d + Seq::<u8>::empty() =~= d);
            lemma_text_first(path, Seq::empty());
        },
    }
}

/// The server takes the packet that starts an operation for that very operation,
/// with the arguments that it has, under the id that comes next. Only reads and
/// writes of more than 256 KiB start with several packets.
pub proof fn law_servers_understand_each_operation(next_id: u32, call: CallView)
    requires
        call matches CallOf::Read { handle: _, offset: _, len } ==> len <= 0x4_0000,
        call matches CallOf::Write { handle: _, offset: _, data } ==> data.len() <= 0x4_0000,
    ensures
        start_call(next_id, call).1 matches TurnView::Send(_, p) && (p.len() <= u32::MAX ==> {
            &&& is_asking(p, 0, next_id, call)
            &&& packet_end(p, 0) == p.len()
        }),
{
    let (kind, d) = first_request(call);
    let p = packet(kind, next_id, d);
    if p.len() <= u32::MAX {
        lemma_first_request(call);
        assert(p.len() == 9 + d.len());
        assert(Seq::<u8>::empty() + (p + Seq::<u8>::empty()) =~= p);
        lemma_packet_at(Seq::empty(), kind, next_id, d, Seq::empty());
    }
}

// ── Long reads and writes ───────────────────────────────────────────

/// From `at` on stand the requests that are waited for from the `i`-th on: each
/// asks, under its id, for its number of bytes right behind those of the one
/// before it.
pub open spec fn are_reads(
    p: Seq<u8>,
    at: int,
    handle: Seq<u8>,
    offset: int,
    pending: Seq<PendingRead>,
    i: int,
) -> bool
    decreases pending.len() - i,
{
    if i >= pending.len() {
        at == p.len()
    } else {
        &&& 0 <= offset <= u64::MAX
        &&& is_asking(
            p,
            at,
            pending[i].id,
            CallOf::Read { handle, offset: offset as u64, len: pending[i].len },
        )
        &&& are_reads(p, packet_end(p, at), handle, offset + pending[i].len, pending, i + 1)
    }
}

#[verifier::rlimit(40)]
proof fn lemma_read_window(
    pre: Seq<u8>,
    id: u32,
    handle: Seq<u8>,
    offset: int,
    remaining: nat,
    chunk_size: u32,
    room: nat,
    before: Seq<PendingRead>,
)
    requires
        0 <= offset,
        offset + remaining <= u64::MAX,
        handle.len() <= 0x7FFF_FFFF,
    ensures
        ({
            let w = read_window(id, handle, offset, remaining, chunk_size, room);
            are_reads(
                pre + w.packets,
                pre.len() as int,
                handle,
                offset,
                before + w.pending,
                before.len() as int,
            )
        }),
    decreases room,
{
    let w = read_window(id, handle, offset, remaining, chunk_size, room);
    if !(room == 0 || remaining == 0) {
        let len = crate::sftp::exchange::request_len(remaining, chunk_size);
        let rest = read_window(
            id.wrapping_add(1),
            handle,
            offset + len,
            (remaining - len) as nat,
            chunk_size,
            (room - 1) as nat,
        );
        let d = read_request(handle, offset, len);
        let one = packet(5, id, d);
        let now = before.push(PendingRead { id, len });
        lemma_read_window(
            pre + one,
            id.wrapping_add(1),
            handle,
            offset + len,
            (remaining - len) as nat,
            chunk_size,
            (room - 1) as nat,
            now,
        );
        assert(now + rest.pending =~= before + w.pending);
        assert((pre + one) + rest.packets =~= pre + w.packets);
        lemma_packet_at(pre, 5, id, d, rest.packets);
        lemma_read_request(handle, offset as u64, len);
        assert((before + w.pending)[before.len() as int] == PendingRead { id, len });
    } else {
        assert(pre + w.packets =~= pre);
    }
}

/// A window of a long read asks the server for bytes that follow one another in
/// the file without a gap, from the place on where the read stands. That holds of
/// the first window and of every later one, and all are for the same handle.
#[verifier::rlimit(40)]
pub proof fn law_servers_understand_long_reads(
    next_id: u32,
    handle: Seq<u8>,
    offset: u64,
    len: u32,
    v: ReadView,
    kind: u8,
    data: Seq<u8>,
)
    requires
        len > 0x4_0000,
        offset + len <= u64::MAX,
        handle.len() <= 0x7FFF_FFFF,
        v.handle.len() <= 0x7FFF_FFFF,
    ensures
        start_call(next_id, CallOf::Read { handle, offset, len }).1 matches TurnView::Send(
            ExchangeView::Reading(w),
            p,
        ) && {
            &&& w.handle == handle
            &&& w.next_offset == offset
            &&& w.remaining == len
            &&& are_reads(p, 0, handle, offset as int, w.pending, 0)
        },
        reading_step(next_id, v, kind, data).1 matches TurnView::Send(
            ExchangeView::Reading(w),
            p,
        ) ==> {
            &&& w.handle == v.handle
            &&& 0 <= w.next_offset && w.next_offset + w.remaining <= u64::MAX ==> are_reads(
                p,
                0,
                v.handle,
                w.next_offset,
                w.pending,
                0,
            )
        },
{
    let chunk = 0x4_0000u32;
    let w = read_window(next_id, handle, offset as int, len as nat, chunk, 32);
    lemma_read_window(
        Seq::empty(),
        next_id,
        handle,
        offset as int,
        len as nat,
        chunk,
        32,
        Seq::empty(),
    );
    assert(Seq::<u8>::empty() + w.packets =~= w.packets);
    assert(Seq::<PendingRead>::empty() + w.pending =~= w.pending);
    if let TurnView::Send(ExchangeView::Reading(u), p) = reading_step(next_id, v, kind, data).1 {
        let w = read_window(
            next_id,
            v.handle,
            u.next_offset,
            u.remaining,
            u.chunk_size,
            32,
        );
        if 0 <= u.next_offset && u.next_offset + u.remaining <= u64::MAX {
            lemma_read_window(
                Seq::empty(),
                next_id,
                v.handle,
                u.next_offset,
                u.remaining,
                u.chunk_size,
                32,
                Seq::empty(),
            );
            assert(Seq::<u8>::empty() + w.packets =~= w.packets);
            assert(Seq::<PendingRead>::empty() + w.pending =~= w.pending);
        }
    }
}

/// From `at` on stand requests that write the data from `written` up to `to`,
/// each at the place behind the one before it.
pub open spec fn are_writes(
    p: Seq<u8>,
    at: int,
    id: u32,
    handle: Seq<u8>,
    offset: u64,
    data: Seq<u8>,
    written: int,
    to: int,
    count: nat,
) -> bool
    decreases count,
{
    if count == 0 {
        at == p.len() && written == to
    } else {
        let piece = string_at(payload_at(p, at), behind(payload_at(p, at), 0) + 8);
        &&& 0 < piece.len() <= 0x4_0000
        &&& offset + written <= u64::MAX
        &&& written + piece.len() <= data.len()
        &&& piece == data.subrange(written, written + piece.len())
        &&& is_asking(
            p,
            at,
            id,
            CallOf::Write { handle, offset: (offset + written) as u64, data: piece },
        )
        &&& are_writes(
            p,
            packet_end(p, at),
            id.wrapping_add(1),
            handle,
            offset,
            data,
            written + piece.len(),
            to,
            (count - 1) as nat,
        )
    }
}

proof fn lemma_write_at(
    pre: Seq<u8>,
    id: u32,
    handle: Seq<u8>,
    offset: u64,
    piece: Seq<u8>,
    post: Seq<u8>,
)
    requires
        handle.len() <= 0x7FFF_FFFF,
        piece.len() <= 0x4_0000,
    ensures
        ({
            let one = packet(6, id, write_request(handle, offset, piece));
            let p = pre + one + post;
            let at = pre.len() as int;
            &&& is_asking(p, at, id, CallOf::Write { handle, offset, data: piece })
            &&& packet_end(p, at) == (pre + one).len()
            &&& string_at(payload_at(p, at), behind(payload_at(p, at), 0) + 8) == piece
        }),
{
    let d = write_request(handle, offset, piece);
    let one = packet(6, id, d);
    assert(pre + one + post =~= pre + (one + post));
    lemma_packet_at(pre, 6, id, d, post);
    lemma_write_request(handle, offset, piece);
}

#[verifier::spinoff_prover]
#[verifier::rlimit(40)]
proof fn lemma_write_window(
    pre: Seq<u8>,
    id: u32,
    handle: Seq<u8>,
    offset: u64,
    data: Seq<u8>,
    written: nat,
    room: nat,
)
    requires
        offset + data.len() <= u64::MAX,
        handle.len() <= 0x7FFF_FFFF,
        written <= data.len(),
    ensures
        ({
            let w = write_window(id, handle, offset, data, written, room);
            are_writes(
                pre + w.packets,
                pre.len() as int,
                id,
                handle,
                offset,
                data,
                written as int,
                w.written as int,
                w.count,
            )
        }),
    decreases room,
{
    let w = write_window(id, handle, offset, data, written, room);
    if !(room == 0 || written >= data.len()) {
        let len = crate::sftp::exchange::write_len((data.len() - written) as nat);
        let rest = write_window(
            id.wrapping_add(1),
            handle,
            offset,
            data,
            written + len as nat,
            (room - 1) as nat,
        );
        let at = (offset + written) as u64;
        let piece = data.subrange(written as int, written + len);
        let d = write_request(handle, at, piece);
        let one = packet(6, id, d);
        lemma_write_window(
            pre + one,
            id.wrapping_add(1),
            handle,
            offset,
            data,
            written + len as nat,
            (room - 1) as nat,
        );
        assert((pre + one) + rest.packets =~= pre + w.packets);
        lemma_write_at(pre, id, handle, at, piece, rest.packets);
    } else {
        assert(pre + w.packets =~= pre);
    }
}

/// A window of a long write hands the server the bytes that come next, each
/// piece at its own place in the file. That holds of the first window and of
/// every later one.
#[verifier::rlimit(40)]
pub proof fn law_servers_understand_long_writes(
    next_id: u32,
    handle: Seq<u8>,
    offset: u64,
    bytes: Seq<u8>,
    v: WriteView,
    kind: u8,
    data: Seq<u8>,
)
    requires
        bytes.len() > 0x4_0000,
        offset + bytes.len() <= u64::MAX,
        handle.len() <= 0x7FFF_FFFF,
        v.handle.len() <= 0x7FFF_FFFF,
        v.offset + v.data.len() <= u64::MAX,
    ensures
        start_call(next_id, CallOf::Write { handle, offset, data: bytes }).1 matches TurnView::Send(
            ExchangeView::Writing(w),
            p,
        ) && {
            &&& w.handle == handle && w.offset == offset && w.data == bytes
            &&& are_writes(
                p,
                0,
                next_id,
                handle,
                offset,
                bytes,
                0,
                w.written as int,
                w.in_flight,
            )
        },
        writing_step(next_id, v, kind, data).1 matches TurnView::Send(
            ExchangeView::Writing(w),
            p,
        ) ==> {
            &&& w.handle == v.handle && w.offset == v.offset && w.data == v.data
            &&& are_writes(
                p,
                0,
                next_id,
                v.handle,
                v.offset,
                v.data,
                v.written as int,
                w.written as int,
                w.in_flight,
            )
        },
{
    let w = write_window(next_id, handle, offset, bytes, 0, 16);
    lemma_write_window(Seq::empty(), next_id, handle, offset, bytes, 0, 16);
    assert(Seq::<u8>::empty() + w.packets =~= w.packets);
    if v.written < v.data.len() {
        let w = write_window(next_id, v.handle, v.offset, v.data, v.written, 16);
        lemma_write_window(Seq::empty(), next_id, v.handle, v.offset, v.data, v.written, 16);
        assert(Seq::<u8>::empty() + w.packets =~= w.packets);
    }
}

// ── Answers ─────────────────────────────────────────────────────────

proof fn lemma_behind_id(data: Seq<u8>)
    requires
        data.len() >= 8,
    ensures
        be32_at(data.skip(4), 0) == be32_at(data, 4),
{
}

proof fn lemma_answer_string(data: Seq<u8>)
    requires
        data.len() >= 8,
        behind(data, 4) <= data.len(),
    ensures
        parse_bytes(data.skip(4)).0 == Ok::<Seq<u8>, Fault>(string_at(data, 4)),
{
    lemma_behind_id(data);
    let n = be32_at(data, 4);
    assert(data.skip(4).skip(4).take(n as int) =~= string_at(data, 4));
}

/// The handle that a server gives out and the bytes that it reads are those of
/// its answer: the string behind the id.
pub proof fn law_answers_give_their_bytes(id: u32, data: Seq<u8>)
    requires
        data.len() >= 8,
        be32_at(data, 0) == id,
        behind(data, 4) <= data.len(),
    ensures
        single_answer(id, Want::Handle, 102, data) == ReplyView::Handle(Ok(string_at(data, 4))),
        single_answer(id, Want::Data, 103, data) == ReplyView::Data(Ok(string_at(data, 4))),
{
    lemma_answer_string(data);
}

/// What a status says: its code, and its message where that is a text.
pub open spec fn says(e: Fault, data: Seq<u8>) -> bool {
    &&& e matches Fault::Status(code, _) && code == be32_at(data, 4)
    &&& data.len() >= 12 && behind(data, 8) <= data.len() && valid_utf8(string_at(data, 8)) ==> e
        == Fault::Status(be32_at(data, 4), decode_utf8(string_at(data, 8)))
}

proof fn lemma_status(data: Seq<u8>)
    requires
        data.len() >= 8,
    ensures
        status_of(data.skip(4)) matches Ok((code, text)) && code == be32_at(data, 4) && says(
            Fault::Status(code, text),
            data,
        ),
{
    lemma_behind_id(data);
    let rest = data.skip(4).skip(4);
    if data.len() >= 12 && behind(data, 8) <= data.len() {
        assert(be32_at(rest, 0) == be32_at(data, 8));
        let n = be32_at(data, 8);
        assert(rest.skip(4).take(n as int) =~= string_at(data, 8));
    }
}

/// A status with the code 0 is a success of an operation that gives nothing, the
/// code 1 is the end of a file for a read, and every other status is the error
/// that it names.
pub proof fn law_statuses_are_told(id: u32, data: Seq<u8>)
    requires
        data.len() >= 8,
        be32_at(data, 0) == id,
    ensures
        ({
            let code = be32_at(data, 4);
            &&& match single_answer(id, Want::Nothing, 101, data) {
                ReplyView::Nothing(Ok(_)) => code == 0,
                ReplyView::Nothing(Err(e)) => code != 0 && says(e, data),
                _ => false,
            }
            &&& match single_answer(id, Want::Data, 101, data) {
                ReplyView::Data(Ok(bytes)) => code == 1 && bytes.len() == 0,
                ReplyView::Data(Err(e)) => code != 1 && says(e, data),
                _ => false,
            }
            &&& match single_answer(id, Want::Handle, 101, data) {
                ReplyView::Handle(Err(e)) => code != 0 ==> says(e, data),
                _ => false,
            }
            &&& match single_answer(id, Want::Attrs, 101, data) {
                ReplyView::Attrs(Err(e)) => code != 0 ==> says(e, data),
                _ => false,
            }
            &&& match single_answer(id, Want::Path, 101, data) {
                ReplyView::Path(Err(e)) => code != 0 ==> says(e, data),
                _ => false,
            }
        }),
{
    lemma_status(data);
}

/// An answer to another request is never taken for a success.
pub proof fn law_answers_name_their_request(id: u32, want: Want, kind: u8, data: Seq<u8>)
    requires
        kind != 2,
        data.len() < 4 || be32_at(data, 0) != id,
    ensures
        match single_answer(id, want, kind, data) {
            ReplyView::Path(r) => r matches Err(Fault::Protocol(_)),
            ReplyView::Attrs(r) => r matches Err(Fault::Protocol(_)),
            ReplyView::Entries(r) => r matches Err(Fault::Protocol(_)),
            ReplyView::Handle(r) => r matches Err(Fault::Protocol(_)),
            ReplyView::Data(r) => r matches Err(Fault::Protocol(_)),
            ReplyView::Nothing(r) => r matches Err(Fault::Protocol(_)),
        },
{
}

/// The path that a server resolves is the first name of its answer.
pub proof fn law_answers_give_their_path(id: u32, data: Seq<u8>)
    requires
        data.len() >= 12,
        be32_at(data, 0) == id,
        be32_at(data, 4) > 0,
        behind(data, 8) <= data.len(),
        valid_utf8(string_at(data, 8)),
    ensures
        single_answer(id, Want::Path, 104, data) == ReplyView::Path(
            Ok(decode_utf8(string_at(data, 8))),
        ),
{
    lemma_behind_id(data);
    let rest = data.skip(4).skip(4);
    assert(be32_at(rest, 0) == be32_at(data, 8));
    let n = be32_at(data, 8);
    assert(rest.skip(4).take(n as int) =~= string_at(data, 8));
}

/// The attributes at `at`, as the flags before them tell: size, owner and group,
/// mode, and times stand one behind the other where they are there.
pub open spec fn attrs_at(b: Seq<u8>, at: int) -> FileAttr {
    let flags = be32_at(b, at);
    let owner = at + 4 + if flags & 1 != 0 {
        8int
    } else {
        0int
    };
    let mode = owner + if flags & 2 != 0 {
        8int
    } else {
        0int
    };
    let times = mode + if flags & 4 != 0 {
        4int
    } else {
        0int
    };
    FileAttr {
        size: if flags & 1 != 0 {
            be64_at(b, at + 4)
        } else {
            0
        },
        uid: if flags & 2 != 0 {
            be32_at(b, owner)
        } else {
            0
        },
        gid: if flags & 2 != 0 {
            be32_at(b, owner + 4)
        } else {
            0
        },
        perm: if flags & 4 != 0 {
            be32_at(b, mode)
        } else {
            0o644
        },
        atime: if flags & 8 != 0 {
            be32_at(b, times)
        } else {
            0
        },
        mtime: if flags & 8 != 0 {
            be32_at(b, times + 4)
        } else {
            0
        },
    }
}

proof fn lemma_u32_at(b: Seq<u8>, at: int)
    requires
        0 <= at,
        at + 4 <= b.len(),
    ensures
        parse_u32(b.skip(at)) == (Ok::<u32, Fault>(be32_at(b, at)), b.skip(at + 4)),
{
    assert(b.skip(at).skip(4) =~= b.skip(at + 4));
}

proof fn lemma_u64_at(b: Seq<u8>, at: int)
    requires
        0 <= at,
        at + 8 <= b.len(),
    ensures
        parse_u64(b.skip(at)) == (Ok::<u64, Fault>(be64_at(b, at)), b.skip(at + 8)),
{
    assert(b.skip(at).skip(8) =~= b.skip(at + 8));
    assert(be32_at(b.skip(at), 0) == be32_at(b, at));
    assert(be32_at(b.skip(at), 4) == be32_at(b, at + 4));
}

/// The attributes that a server tells are those of its answer, each read at the
/// place that the flags give it; what is not there has its default.
pub proof fn law_answers_give_their_attributes(id: u32, data: Seq<u8>)
    requires
        data.len() >= 8 + 8 + 8 + 4 + 8,
        be32_at(data, 0) == id,
        be32_at(data, 4) & 0x8000_0000 == 0,
    ensures
        single_answer(id, Want::Attrs, 105, data) == ReplyView::Attrs(Ok(attrs_at(data, 4))),
{
    let flags = be32_at(data, 4);
    let owner: int = 8 + if flags & 1 != 0 {
        8int
    } else {
        0int
    };
    let mode: int = owner + if flags & 2 != 0 {
        8int
    } else {
        0int
    };
    let times: int = mode + if flags & 4 != 0 {
        4int
    } else {
        0int
    };
    lemma_u32_at(data, 4);
    lemma_u64_at(data, 8);
    lemma_u32_at(data, owner);
    lemma_u32_at(data, owner + 4);
    lemma_u32_at(data, mode);
    lemma_u32_at(data, times);
    lemma_u32_at(data, times + 4);
}

// ── Listings ────────────────────────────────────────────────────────

proof fn lemma_handle_packet(kind: u8, id: u32, handle: Seq<u8>)
    requires
        handle.len() <= 0x7FFF_FFFF,
    ensures
        ({
            let p = packet(kind, id, bytes_field(handle));
            &&& has_packet(p, 0, kind, id)
            &&& holds(payload_at(p, 0), 0, handle)
            &&& behind(payload_at(p, 0), 0) == payload_at(p, 0).len()
            &&& packet_end(p, 0) == p.len()
        }),
{
    let d = bytes_field(handle);
    let p = packet(kind, id, d);
    assert(Seq::<u8>::empty() + (p + Seq::<u8>::empty()) =~= p);
    lemma_packet_at(Seq::empty(), kind, id, d, Seq::empty());
    assert(d.subrange(0, 0 + 4 + handle.len() as int) =~= d);
    lemma_string(d, 0, handle);
}

/// The packet asks for more entries (type 12) or closes (type 4), with that
/// handle and nothing else.
pub open spec fn is_handle_request(p: Seq<u8>, kind: u8, id: u32, handle: Seq<u8>) -> bool {
    &&& has_packet(p, 0, kind, id)
    &&& holds(payload_at(p, 0), 0, handle)
    &&& behind(payload_at(p, 0), 0) == payload_at(p, 0).len()
    &&& packet_end(p, 0) == p.len()
}

/// A listing reads the directory with the handle that the server gave out for it,
/// goes on with the same handle after every list of names, and closes it at the
/// end. The end of the directory gives back the entries that were gathered.
#[verifier::rlimit(40)]
pub proof fn law_listings_read_their_directory(
    next_id: u32,
    id: u32,
    opened: Seq<u8>,
    handle: Seq<u8>,
    entries: Seq<EntryView>,
    kind: u8,
    data: Seq<u8>,
)
    requires
        opened.len() >= 8,
        be32_at(opened, 0) == id,
        behind(opened, 4) <= opened.len(),
        string_at(opened, 4).len() <= 0x7FFF_FFFF,
        handle.len() <= 0x7FFF_FFFF,
    ensures
        opening_step(next_id, id, 102, opened).1 matches TurnView::Send(
            ExchangeView::Listing { id: asked, handle: h, entries: none },
            p,
        ) && {
            &&& asked == next_id
            &&& h == string_at(opened, 4)
            &&& none.len() == 0
            &&& is_handle_request(p, 12, next_id, h)
        },
        match listing_step(next_id, id, handle, entries, kind, data).1 {
            TurnView::Send(ExchangeView::Listing { id: asked, handle: h, entries: _ }, p) => {
                &&& asked == next_id
                &&& h == handle
                &&& is_handle_request(p, 12, next_id, handle)
                &&& kind == 104
            },
            TurnView::Send(ExchangeView::Closing { result }, p) => {
                &&& is_handle_request(p, 4, next_id, handle)
                &&& data.len() >= 8 && be32_at(data, 0) == id && kind == 101 ==> if be32_at(
                    data,
                    4,
                ) == 1 {
                    result == Ok::<Seq<EntryView>, Fault>(entries)
                } else {
                    result matches Err(e) && says(e, data)
                }
            },
            _ => false,
        },
{
    lemma_answer_string(opened);
    lemma_handle_packet(12, next_id, string_at(opened, 4));
    lemma_handle_packet(12, next_id, handle);
    lemma_handle_packet(4, next_id, handle);
    if data.len() >= 8 {
        lemma_status(data);
    }
}

/// A list of names as a server writes it: of each entry its name, the line that
/// describes it, and its attributes.
pub open spec fn name_list(entries: Seq<EntryView>, lines: Seq<Seq<char>>) -> Seq<u8>
    decreases entries.len(),
{
    if entries.len() == 0 {
        Seq::empty()
    } else {
        text_field(entries[0].name) + (text_field(lines[0]) + (attrs_field(entries[0].attrs)
            + name_list(entries.skip(1), lines.skip(1))))
    }
}

/// The entries without the directory itself and its parent.
pub open spec fn undotted(entries: Seq<EntryView>) -> Seq<EntryView> {
    entries.filter(|e: EntryView| e.name != "."@ && e.name != ".."@)
}

#[verifier::rlimit(40)]
proof fn lemma_name_list(entries: Seq<EntryView>, lines: Seq<Seq<char>>, before: Seq<EntryView>)
    requires
        lines.len() == entries.len(),
        name_list(entries, lines).len() <= u32::MAX,
    ensures
        parse_names(name_list(entries, lines), entries.len(), before) == Ok::<
            Seq<EntryView>,
            Fault,
        >(before + undotted(entries)),
    decreases entries.len(),
{
    let kept = |e: EntryView| e.name != "."@ && e.name != ".."@;
    if entries.len() == 0 {
        assert(entries.filter(kept) =~= Seq::empty()) by {
            reveal(Seq::filter);
        }
        assert(before + undotted(entries) =~= before);
    } else {
        let e = entries[0];
        let rest = name_list(entries.skip(1), lines.skip(1));
        let r2 = attrs_field(e.attrs) + rest;
        let r1 = text_field(lines[0]) + r2;
        assert(name_list(entries, lines) == text_field(e.name) + r1);
        law_read_back_text(e.name, r1);
        law_read_back_text(lines[0], r2);
        law_read_back_attrs(e.attrs, rest);
        let next = if is_dot_name(e.name) {
            before
        } else {
            before.push(e)
        };
        lemma_name_list(entries.skip(1), lines.skip(1), next);
        assert(entries =~= seq![e] + entries.skip(1));
        Seq::filter_distributes_over_add(seq![e], entries.skip(1), kept);
        assert(seq![e].filter(kept) =~= if kept(e) {
            seq![e]
        } else {
            Seq::empty()
        }) by {
            reveal_with_fuel(Seq::filter, 2);
            assert(seq![e].drop_last() =~= Seq::empty());
        }
        assert(next + undotted(entries.skip(1)) =~= before + undotted(entries));
    }
}

/// A listing gathers the entries that the server lists, in their order, behind
/// those that it has, but for the directory itself and its parent.
pub proof fn law_listings_gather_the_entries(
    next_id: u32,
    id: u32,
    handle: Seq<u8>,
    before: Seq<EntryView>,
    entries: Seq<EntryView>,
    lines: Seq<Seq<char>>,
)
    requires
        lines.len() == entries.len() <= u32::MAX,
        name_list(entries, lines).len() <= u32::MAX,
    ensures
        ({
            let data = be32(id) + (be32(entries.len() as u32) + name_list(entries, lines));
            listing_step(next_id, id, handle, before, 104, data).1 matches TurnView::Send(
                ExchangeView::Listing { id: _, handle: _, entries: all },
                _,
            ) && all == before + undotted(entries)
        }),
{
    let list = name_list(entries, lines);
    let rest = be32(entries.len() as u32) + list;
    let data = be32(id) + rest;
    assert(data.subrange(0, 4) =~= be32(id));
    lemma_be32_in(data, 0, id);
    assert(data.skip(4) =~= rest);
    law_read_back_u32(entries.len() as u32, list);
    lemma_name_list(entries, lines, before);
}

/// The first packet offers version 3 of the protocol.
pub proof fn law_hello_offers_version_three()
    ensures
        ({
            let p = hello_packet();
            &&& p.len() == 9
            &&& be32_at(p, 0) == 5
            &&& p[4] == 1
            &&& be32_at(p, 5) == 3
        }),
        forall|data: Seq<u8>|
            #![trigger version_answer(2, data)]
            data.len() >= 4 ==> version_answer(2, data) == Ok::<u32, Fault>(be32_at(data, 0)),
{
    let p = hello_packet();
    assert(p.subrange(0, 4) =~= be32(5));
    lemma_be32_in(p, 0, 5);
    assert(p.subrange(5, 9) =~= be32(3));
    lemma_be32_in(p, 5, 3);
}

} // verus!

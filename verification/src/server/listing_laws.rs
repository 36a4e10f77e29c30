//! What a client finds in the directories of the share.

use crate::bytes::{
    lemma_le16_in, lemma_le32_in, lemma_le64_in, le16, le16_at, le32, le32_at, le64, le64_at,
};
use crate::server::asked::{
    asks, body_in, carried, has_part, is_request, lemma_fields, lemma_one_reply, lemma_refusal,
    lemma_reply, lemma_request, meant, part_at, request_header, status_in,
};
use crate::server::cache::{law_listing_eviction_is_not_seen, listing_known};
use crate::server::create::file_attributes;
use crate::server::create_laws::ticks;
use crate::server::dispatch::message_step;
use crate::server::info::output_body;
use crate::server::listing::{
    chosen, entries_in, entry_bytes, lemma_entry_bytes, lemma_linked_entries, lemma_linked_entry,
    linked_entries, linked_entry, list_step, listing_data, padded_len, query_directory_step,
    query_pattern, shown,
};
use crate::server::pattern::fits;
use crate::server::state::{counted, SessionModel};
use crate::server::step::{Moment, StepView, ThenOf};
use crate::sftp::call::{CallOf, ReplyView};
use crate::smb2::{
    filetime, Smb2Header, STATUS_ACCESS_DENIED, STATUS_INVALID_PARAMETER, STATUS_NO_MORE_FILES,
    STATUS_SUCCESS,
};
use crate::utf16::{law_text_reads_back, utf16le, utf16le_text};
use crate::wire::{is_dir_mode, EntryView, Fault, FileAttr};
use vstd::prelude::*;

verus! {

/// The bytes at `at` tell of an entry: a client that reads them at their fixed
/// places finds the entry's own times, size, kind and name, and its number.
pub open spec fn tells(data: Seq<u8>, at: int, e: EntryView, id: int) -> bool {
    let n = le32_at(data, at + 60);
    &&& at + 104 + n <= data.len()
    &&& le64_at(data, at + 8) == ticks(e.attrs.mtime)
    &&& le64_at(data, at + 16) == ticks(e.attrs.atime)
    &&& le64_at(data, at + 24) == ticks(e.attrs.mtime)
    &&& le64_at(data, at + 32) == ticks(e.attrs.mtime)
    &&& le64_at(data, at + 40) == e.attrs.size
    &&& le64_at(data, at + 48) == e.attrs.size
    &&& le32_at(data, at + 56) == if e.attrs.perm & 0o40000 != 0 {
        0x10u32
    } else {
        0x20u32
    }
    &&& le64_at(data, at + 96) == id
    &&& utf16le_text(data.subrange(at + 104, at + 104 + n)) == e.name
}

/// The bytes from `at` on tell of the entries from the `k`-th on: each tells how
/// far the next one is, and the last one that there is none.
pub open spec fn tells_all(data: Seq<u8>, at: int, entries: Seq<EntryView>, k: nat) -> bool
    decreases entries.len() - k,
{
    &&& k < entries.len()
    &&& tells(data, at, entries[k as int], (k + 1) as int)
    &&& if k + 1 == entries.len() {
        &&& le32_at(data, at) == 0
        &&& data.len() == at + 104 + le32_at(data, at + 60)
    } else {
        &&& le32_at(data, at) >= 104 + le32_at(data, at + 60)
        &&& le32_at(data, at) % 8 == 0
        &&& tells_all(data, at + le32_at(data, at), entries, k + 1)
    }
}

/// The names are not so long that their lengths would not fit a response.
pub open spec fn have_short_names(entries: Seq<EntryView>) -> bool {
    forall|i: int| 0 <= i < entries.len() ==> utf16le(#[trigger] entries[i].name).len() <= 0x7FFF_FFFF
}

#[verifier::rlimit(40)]
proof fn lemma_entry(e: EntryView, next: u32, id: u64)
    requires
        utf16le(e.name).len() <= 0x7FFF_FFFF,
    ensures
        ({
            let s = entry_bytes(e, next, id);
            let n = utf16le(e.name).len() as int;
            &&& s.len() == 104 + n
            &&& s.subrange(0, 4) == le32(next)
            &&& s.subrange(8, 16) == le64(filetime(e.attrs.mtime as u64))
            &&& s.subrange(16, 24) == le64(filetime(e.attrs.atime as u64))
            &&& s.subrange(24, 32) == le64(filetime(e.attrs.mtime as u64))
            &&& s.subrange(32, 40) == le64(filetime(e.attrs.mtime as u64))
            &&& s.subrange(40, 48) == le64(e.attrs.size)
            &&& s.subrange(48, 56) == le64(e.attrs.size)
            &&& s.subrange(56, 60) == le32(file_attributes(is_dir_mode(e.attrs.perm)))
            &&& s.subrange(60, 64) == le32(n as u32)
            &&& s.subrange(96, 104) == le64(id)
            &&& s.subrange(104, 104 + n) == utf16le(e.name)
        }),
{
    reveal(entry_bytes);
    let s = entry_bytes(e, next, id);
    let n = utf16le(e.name).len() as int;
    assert(s.subrange(0, 4) =~= le32(next));
    assert(s.subrange(8, 16) =~= le64(filetime(e.attrs.mtime as u64)));
    assert(s.subrange(16, 24) =~= le64(filetime(e.attrs.atime as u64)));
    assert(s.subrange(24, 32) =~= le64(filetime(e.attrs.mtime as u64)));
    assert(s.subrange(32, 40) =~= le64(filetime(e.attrs.mtime as u64)));
    assert(s.subrange(40, 48) =~= le64(e.attrs.size));
    assert(s.subrange(48, 56) =~= le64(e.attrs.size));
    assert(s.subrange(56, 60) =~= le32(file_attributes(is_dir_mode(e.attrs.perm))));
    assert(s.subrange(60, 64) =~= le32(n as u32));
    assert(s.subrange(96, 104) =~= le64(id));
    assert(s.subrange(104, 104 + n) =~= utf16le(e.name));
}

proof fn lemma_tells(data: Seq<u8>, at: int, e: EntryView, next: u32, id: u64)
    requires
        0 <= at,
        at + 104 + utf16le(e.name).len() <= data.len(),
        data.subrange(at, at + 104 + utf16le(e.name).len()) == entry_bytes(e, next, id),
        utf16le(e.name).len() <= 0x7FFF_FFFF,
    ensures
        tells(data, at, e, id as int),
        le32_at(data, at) == next,
        le32_at(data, at + 60) == utf16le(e.name).len(),
{
    lemma_entry(e, next, id);
    let n = utf16le(e.name).len() as int;
    let s = data.subrange(at, at + 104 + n);
    let mtime = filetime(e.attrs.mtime as u64);
    let atime = filetime(e.attrs.atime as u64);
    let kind = file_attributes(is_dir_mode(e.attrs.perm));
    assert(data.subrange(at, at + 4) =~= s.subrange(0, 4));
    assert(data.subrange(at + 8, at + 8 + 8) =~= s.subrange(8, 16));
    assert(data.subrange(at + 16, at + 16 + 8) =~= s.subrange(16, 24));
    assert(data.subrange(at + 24, at + 24 + 8) =~= s.subrange(24, 32));
    assert(data.subrange(at + 32, at + 32 + 8) =~= s.subrange(32, 40));
    assert(data.subrange(at + 40, at + 40 + 8) =~= s.subrange(40, 48));
    assert(data.subrange(at + 48, at + 48 + 8) =~= s.subrange(48, 56));
    assert(data.subrange(at + 56, at + 56 + 4) =~= s.subrange(56, 60));
    assert(data.subrange(at + 60, at + 60 + 4) =~= s.subrange(60, 64));
    assert(data.subrange(at + 96, at + 96 + 8) =~= s.subrange(96, 104));
    assert(data.subrange(at + 104, at + 104 + n) =~= s.subrange(104, 104 + n));
    lemma_le32_in(data, at, next);
    lemma_le64_in(data, at + 8, mtime);
    lemma_le64_in(data, at + 16, atime);
    lemma_le64_in(data, at + 24, mtime);
    lemma_le64_in(data, at + 32, mtime);
    lemma_le64_in(data, at + 40, e.attrs.size);
    lemma_le64_in(data, at + 48, e.attrs.size);
    lemma_le32_in(data, at + 56, kind);
    lemma_le32_in(data, at + 60, n as u32);
    lemma_le64_in(data, at + 96, id);
    law_text_reads_back(e.name);
}

proof fn lemma_listing(entries: Seq<EntryView>, k: nat)
    requires
        k < entries.len() <= u64::MAX,
        have_short_names(entries),
    ensures
        tells_all(
            listing_data(entries),
            linked_entries(entries, k).len() as int,
            entries,
            k,
        ),
    decreases entries.len() - k,
{
    let n = entries.len();
    let e = entries[k as int];
    let len = (104 + utf16le(e.name).len()) as int;
    assert(utf16le(entries[k as int].name).len() <= 0x7FFF_FFFF);
    let data = listing_data(entries);
    let all = linked_entries(entries, (n - 1) as nat);
    let a = linked_entries(entries, k);
    let at = a.len() as int;
    let id = (k + 1) as u64;
    if k + 1 == n {
        lemma_entry_bytes(e, 0, id);
        assert(data.subrange(at, at + len) =~= entry_bytes(e, 0, id));
        lemma_tells(data, at, e, 0, id);
    } else {
        let next = padded_len(e) as u32;
        let b = linked_entries(entries, k + 1);
        lemma_linked_entries(entries, k + 1, (n - 1) as nat);
        lemma_entry_bytes(e, next, id);
        lemma_linked_entry(e, id);
        assert(b == a + linked_entry(e, id));
        assert(b.subrange(at, at + len) =~= entry_bytes(e, next, id));
        assert(data.subrange(at, at + len) =~= all.take(b.len() as int).subrange(at, at + len));
        lemma_tells(data, at, e, next, id);
        lemma_listing(entries, k + 1);
        assert(b.len() == at + next);
    }
}

/// A client that follows the distances from entry to entry finds every entry of
/// the listing in its order, with its own times, size, kind and name.
pub proof fn law_listings_read_back(entries: Seq<EntryView>)
    requires
        0 < entries.len() <= u64::MAX,
        have_short_names(entries),
    ensures
        tells_all(listing_data(entries), 0, entries, 0),
{
    lemma_listing(entries, 0);
    assert(linked_entries(entries, 0).len() == 0);
}

/// The file that keeps Spotlight away, as the root shows it: empty, and only to
/// be read.
pub open spec fn spotlight_entry(wall: u64) -> EntryView {
    EntryView {
        name: ".metadata_never_index"@,
        attrs: FileAttr {
            size: 0,
            uid: 0,
            gid: 0,
            perm: 0o100444,
            atime: wall as u32,
            mtime: wall as u32,
        },
    }
}

/// What a directory holds for a client: what the remote side has there, and at
/// the end of the root the file that keeps Spotlight away.
pub open spec fn held_by(is_root: bool, entries: Seq<EntryView>, wall: u64) -> Seq<EntryView> {
    if is_root {
        entries.filter(|e: EntryView| e.name != ".metadata_never_index"@).push(
            spotlight_entry(wall),
        )
    } else {
        entries
    }
}

/// The entries that an answer tells of: those behind the first `from` for the
/// pattern `*`, and else all that fit the pattern.
pub open spec fn wanted(
    is_root: bool,
    entries: Seq<EntryView>,
    from: usize,
    pattern: Seq<char>,
    wall: u64,
) -> Seq<EntryView> {
    let there = held_by(is_root, entries, wall);
    if pattern == "*"@ {
        if from <= there.len() {
            there.skip(from as int)
        } else {
            Seq::empty()
        }
    } else if is_root && pattern == ".metadata_never_index"@ {
        seq![spotlight_entry(wall)]
    } else {
        there.filter(|e: EntryView| fits(pattern, e.name))
    }
}

/// An answer that tells of the entries, or only of the first of them where the
/// request is for one; and that there are no more where there are none.
#[verifier::opaque]
pub open spec fn is_listing_of(s: StepView, found: Seq<EntryView>, flags: u8) -> bool {
    let out = if flags & 2 != 0 && found.len() > 0 {
        seq![found[0]]
    } else {
        found
    };
    s matches StepView::Reply(r) && if out.len() == 0 {
        status_in(r) == 0x8000_0006
    } else {
        &&& status_in(r) == 0
        &&& r.len() >= 76
        &&& le16_at(body_in(r), 0) == 9
        &&& le16_at(body_in(r), 2) == 72
        &&& r.len() <= u32::MAX ==> le32_at(body_in(r), 4) == r.len() - 76
        &&& have_short_names(out) ==> tells_all(r.skip(76), 0, out, 0)
    }
}

/// The number of entries that count as handed out after such an answer.
pub open spec fn counts(from: usize, found: Seq<EntryView>, pattern: Seq<char>, flags: u8) -> int {
    if pattern == "*"@ && found.len() > 0 {
        if flags & 2 != 0 {
            from + 1
        } else {
            from + found.len()
        }
    } else {
        from as int
    }
}

proof fn lemma_output(hdr: Smb2Header, out: Seq<EntryView>)
    requires
        0 < out.len() <= u64::MAX,
    ensures
        is_listing_of(
            crate::server::step::answered(hdr, STATUS_SUCCESS, output_body(listing_data(out))),
            out,
            0,
        ),
{
    reveal(is_listing_of);
    let data = listing_data(out);
    let b = output_body(data);
    lemma_reply(hdr, STATUS_SUCCESS, b);
    let r = crate::smb2::response(hdr, STATUS_SUCCESS, b);
    assert(b.subrange(0, 2) =~= le16(9));
    assert(b.subrange(2, 4) =~= le16(72));
    assert(b.subrange(4, 8) =~= le32(data.len() as u32));
    lemma_le16_in(b, 0, 9);
    lemma_le16_in(b, 2, 72);
    lemma_le32_in(b, 4, data.len() as u32);
    assert(r.skip(76) =~= body_in(r).skip(8));
    assert(b.skip(8) =~= data);
    assert(0u8 & 2u8 == 0) by (bit_vector);
    if have_short_names(out) {
        law_listings_read_back(out);
    }
}

#[verifier::rlimit(40)]
proof fn lemma_list(
    m: SessionModel,
    hdr: Smb2Header,
    fid: u64,
    flags: u8,
    pattern: Seq<char>,
    wall: u64,
    entries: Seq<EntryView>,
)
    requires
        m.handles.contains_key(fid),
        m.handles[fid].entries == Some(entries),
        entries.len() < usize::MAX,
    ensures
        ({
            let h = m.handles[fid];
            let found = wanted(h.path == m.root, entries, h.dir_offset, pattern, wall);
            let (o, s) = list_step(m, hdr, fid, flags, pattern, wall);
            &&& is_listing_of(s, found, flags)
            &&& o.handles.contains_key(fid)
            &&& o.handles[fid].entries == Some(entries)
            &&& o.handles[fid].path == h.path
            &&& o.handles[fid].dir_offset == counts(h.dir_offset, found, pattern, flags)
        }),
{
    reveal_strlit("*");
    reveal_strlit(".metadata_never_index");
    assert("*"@.len() != ".metadata_never_index"@.len());
    let h = m.handles[fid];
    let is_root = h.path == m.root;
    let there = entries_in(is_root, entries, wall);
    let kept = |e: EntryView| e.name != ".metadata_never_index"@;
    let kept_too = |e: EntryView| !crate::server::pattern::spotlight_inhibitor(e.name);
    assert(kept =~= kept_too);
    entries.lemma_filter_len(kept);
    assert(there =~= held_by(is_root, entries, wall));
    let found = wanted(is_root, entries, h.dir_offset, pattern, wall);
    let fitting = |e: EntryView| fits(pattern, e.name);
    there.lemma_filter_len(fitting);
    assert(shown(is_root, there, h.dir_offset, pattern, wall) =~= found);
    let out = chosen(found, flags);
    if found.len() > 0 {
        assert(found.take(1) =~= seq![found[0]]);
    }
    lemma_refusal(hdr, STATUS_NO_MORE_FILES);
    if out.len() > 0 {
        lemma_output(hdr, out);
    }
    reveal(is_listing_of);
    assert(0u8 & 2u8 == 0) by (bit_vector);
}

/// The pattern of a request; `*` where it has none.
pub open spec fn asked_pattern(msg: Seq<u8>) -> Seq<char> {
    let at = le16_at(msg, 88) as int;
    let n = le16_at(msg, 90) as int;
    if n > 0 && has_part(msg, at, n) {
        utf16le_text(part_at(msg, at, n))
    } else {
        "*"@
    }
}

/// The message asks for the entries of an open directory.
pub open spec fn is_scan(m: SessionModel, msg: Seq<u8>) -> bool {
    let fid = meant(m, le64_at(msg, 72));
    &&& is_request(msg, 14)
    &&& msg.len() >= 96
    &&& m.handles.contains_key(fid)
    &&& m.handles[fid].is_dir
}

#[verifier::rlimit(40)]
proof fn lemma_scan(m: SessionModel, msg: Seq<u8>, t: Moment)
    requires
        is_scan(m, msg),
    ensures
        ({
            let fid = meant(m, le64_at(msg, 72));
            let hdr = request_header(msg);
            let c = counted(m, t.now);
            let body = msg.skip(64);
            let path = m.handles[fid].path;
            &&& message_step(m, msg, t) == query_directory_step(c, hdr, body, t)
            &&& query_pattern(body) == asked_pattern(msg)
            &&& body[3] == msg[67]
            &&& le64_at(body, 8) == le64_at(msg, 72)
            &&& meant(c, le64_at(msg, 72)) == fid
            &&& c.handles == m.handles
            &&& c.root == m.root
            &&& listing_known(c.dirs, path, t.now) == listing_known(m.dirs, path, t.now)
        }),
{
    lemma_request(m, msg, 14, t);
    lemma_fields(msg, 8);
    lemma_fields(msg, 24);
    lemma_fields(msg, 26);
    let fid = meant(m, le64_at(msg, 72));
    law_listing_eviction_is_not_seen(m.dirs, m.handles[fid].path, t.now, t.now);
    let at = le16_at(msg, 88) as int;
    let n = le16_at(msg, 90) as int;
    let start: int = if at < 64 {
        0
    } else {
        at - 64
    };
    if start + n <= msg.skip(64).len() {
        assert(msg.skip(64).subrange(start, start + n) =~= part_at(msg, at, n));
    }
}

/// The first request for a directory's entries, and every one that starts over,
/// asks the remote side what that directory holds, unless it is known, and tells
/// of the entries that the remote side has there, from the first one on.
#[verifier::rlimit(40)]
pub proof fn law_scans_start_with_the_first_entry(
    m: SessionModel,
    msg: Seq<u8>,
    t: Moment,
    entries: Seq<EntryView>,
    t1: Moment,
)
    requires
        is_scan(m, msg),
        entries.len() < usize::MAX,
        ({
            let h = m.handles[meant(m, le64_at(msg, 72))];
            &&& h.entries is None && h.dir_offset == 0 || msg[67] & 1 != 0
            &&& listing_known(m.dirs, h.path, t.now) is None || {
                &&& listing_known(m.dirs, h.path, t.now) == Some(entries)
                &&& t1 == t
            }
        }),
    ensures
        ({
            let fid = meant(m, le64_at(msg, 72));
            let h = m.handles[fid];
            let (o, s) = message_step(m, msg, t);
            let (p, u) = carried(o, s, seq![(ReplyView::Entries(Ok(entries)), t1)]);
            let found = wanted(h.path == m.root, entries, 0, asked_pattern(msg), t1.wall);
            &&& if listing_known(m.dirs, h.path, t.now) is None {
                asks(s, CallOf::Readdir { path: h.path })
            } else {
                s is Reply
            }
            &&& is_listing_of(u, found, msg[67])
            &&& p.handles.contains_key(fid)
            &&& p.handles[fid].entries == Some(entries)
            &&& p.handles[fid].dir_offset == counts(0, found, asked_pattern(msg), msg[67])
        }),
{
    lemma_scan(m, msg, t);
    let fid = meant(m, le64_at(msg, 72));
    let h = m.handles[fid];
    let hdr = request_header(msg);
    let c = counted(m, t.now);
    let pattern = asked_pattern(msg);
    let flags = msg[67];
    let reply: ReplyView = ReplyView::Entries(Ok(entries));
    lemma_one_reply(
        c,
        CallOf::Readdir { path: h.path },
        hdr,
        ThenOf::Listed { fid, flags, pattern, path: h.path },
        reply,
        t1,
    );
    if listing_known(m.dirs, h.path, t.now) is None {
        let l = crate::server::listing::with_new_listing(c, fid, h.path, entries, t1.now);
        lemma_list(l, hdr, fid, flags, pattern, t1.wall, entries);
    } else {
        let l = crate::server::listing::with_cached_listing(c, fid, entries, flags & 1 != 0);
        lemma_list(l, hdr, fid, flags, pattern, t.wall, entries);
        reveal_with_fuel(carried, 2);
    }
}

/// A request that goes on, tells of the entries behind those that were handed
/// out. The remote side is not asked.
#[verifier::rlimit(40)]
pub proof fn law_scans_go_on(m: SessionModel, msg: Seq<u8>, t: Moment, entries: Seq<EntryView>)
    requires
        is_scan(m, msg),
        entries.len() < usize::MAX,
        m.handles[meant(m, le64_at(msg, 72))].entries == Some(entries),
        msg[67] & 1 == 0,
    ensures
        ({
            let fid = meant(m, le64_at(msg, 72));
            let h = m.handles[fid];
            let (o, s) = message_step(m, msg, t);
            let found = wanted(
                h.path == m.root,
                entries,
                h.dir_offset,
                asked_pattern(msg),
                t.wall,
            );
            &&& is_listing_of(s, found, msg[67])
            &&& o.handles.contains_key(fid)
            &&& o.handles[fid].entries == Some(entries)
            &&& o.handles[fid].dir_offset == counts(
                h.dir_offset,
                found,
                asked_pattern(msg),
                msg[67],
            )
        }),
{
    lemma_scan(m, msg, t);
    let fid = meant(m, le64_at(msg, 72));
    let hdr = request_header(msg);
    let c = counted(m, t.now);
    lemma_list(c, hdr, fid, msg[67], asked_pattern(msg), t.wall, entries);
}

/// A directory that the remote side will not list is refused, as are the entries
/// of what is no directory.
#[verifier::rlimit(40)]
pub proof fn law_failed_scans_are_refused(
    m: SessionModel,
    msg: Seq<u8>,
    t: Moment,
    e: Fault,
    t1: Moment,
)
    requires
        is_request(msg, 14),
        msg.len() >= 96,
        ({
            let fid = meant(m, le64_at(msg, 72));
            is_scan(m, msg) ==> {
                &&& m.handles[fid].entries is None
                &&& listing_known(m.dirs, m.handles[fid].path, t.now) is None
            }
        }),
    ensures
        ({
            let (o, s) = message_step(m, msg, t);
            let (p, u) = carried(o, s, seq![(ReplyView::Entries(Err(e)), t1)]);
            &&& u matches StepView::Reply(r) && status_in(r) == if is_scan(m, msg) {
                0xC000_0022u32
            } else {
                0xC000_000Du32
            }
            &&& p.handles == m.handles
        }),
{
    let fid = meant(m, le64_at(msg, 72));
    let hdr = request_header(msg);
    let c = counted(m, t.now);
    lemma_refusal(hdr, STATUS_ACCESS_DENIED);
    lemma_refusal(hdr, STATUS_INVALID_PARAMETER);
    if is_scan(m, msg) {
        lemma_scan(m, msg, t);
        let path = m.handles[fid].path;
        lemma_one_reply(
            c,
            CallOf::Readdir { path },
            hdr,
            ThenOf::Listed { fid, flags: msg[67], pattern: asked_pattern(msg), path },
            ReplyView::Entries(Err(e)),
            t1,
        );
    } else {
        lemma_request(m, msg, 14, t);
        lemma_fields(msg, 8);
        reveal_with_fuel(carried, 2);
    }
}

/// What the remote side listed is known of that directory for a minute.
pub proof fn law_listings_are_remembered(
    m: SessionModel,
    msg: Seq<u8>,
    t: Moment,
    entries: Seq<EntryView>,
    t1: Moment,
    later: u128,
)
    requires
        is_scan(m, msg),
        t1.now < crate::clock::CLOCK_END,
        ({
            let h = m.handles[meant(m, le64_at(msg, 72))];
            &&& h.entries is None || msg[67] & 1 != 0
            &&& listing_known(m.dirs, h.path, t.now) is None
        }),
    ensures
        ({
            let path = m.handles[meant(m, le64_at(msg, 72))].path;
            let (o, s) = message_step(m, msg, t);
            let (p, _) = carried(o, s, seq![(ReplyView::Entries(Ok(entries)), t1)]);
            listing_known(p.dirs, path, later) == if later < t1.now + 60_000_000_000 {
                Some(entries)
            } else {
                None
            }
        }),
{
    lemma_scan(m, msg, t);
    let fid = meant(m, le64_at(msg, 72));
    let h = m.handles[fid];
    lemma_one_reply(
        counted(m, t.now),
        CallOf::Readdir { path: h.path },
        request_header(msg),
        ThenOf::Listed { fid, flags: msg[67], pattern: asked_pattern(msg), path: h.path },
        ReplyView::Entries(Ok(entries)),
        t1,
    );
}

} // verus!

//! Directory listings: QUERY_DIRECTORY.

use crate::bytes::{
    le16, le16_at, le32, le32_at, le64, le64_at, put_all, put_u16_le, put_u32_le, put_u64_le,
    put_u8, put_zeros, read_u16_le, read_u64_le, zeros,
};
use crate::clock::CLOCK_END;
use crate::server::cache::{listing_known, with_entries, with_listing};
use crate::server::create::{attributes_of, fake_attr, file_attributes, inhibitor_attr};
use crate::server::handles::{HandleModel, OpenHandle};
use crate::server::info::{answer_data, output_body};
use crate::server::pattern::{
    fits, is_spotlight_inhibitor, smb_pattern_match, spotlight_inhibitor,
};
use crate::server::setup::{find_part, pointed_at};
use crate::server::state::{resolved, SessionModel, SmbSession};
use crate::server::step::{
    answered, ask, error_response, refused, Moment, Step, StepView, ThenOf,
};
use crate::server::transfer::with_state;
use crate::sftp::call::{CallOf, ReplyView, SftpReply};
use crate::smb2::{
    filetime, unix_to_filetime, Smb2Header, STATUS_ACCESS_DENIED, STATUS_INVALID_PARAMETER,
    STATUS_NO_MORE_FILES, STATUS_SUCCESS,
};
use crate::text::str_eq;
use crate::utf16::{from_utf16le, to_utf16le, utf16le, utf16le_text};
use crate::wire::{entries_view, has_dir_bit, is_dir_mode, DirEntry, EntryView};
use std::sync::Arc;
use vstd::prelude::*;

verus! {

/// The flag of a request that starts over.
pub const RESTART_SCANS: u8 = 0x01;

/// The flag of a request for one entry.
pub const RETURN_SINGLE_ENTRY: u8 = 0x02;

// ── Entries on the wire ─────────────────────────────────────────────

/// The fixed part of an entry.
pub const ENTRY_FIXED_SIZE: usize = 104;

/// An entry, with the distance to the next one and its number in the response.
#[verifier::opaque]
pub open spec fn entry_bytes(e: EntryView, next: u32, id: u64) -> Seq<u8> {
    let name = utf16le(e.name);
    le32(next) + le32(0) + le64(filetime(e.attrs.mtime as u64)) + le64(
        filetime(e.attrs.atime as u64),
    ) + le64(filetime(e.attrs.mtime as u64)) + le64(filetime(e.attrs.mtime as u64)) + le64(
        e.attrs.size,
    ) + le64(e.attrs.size) + le32(file_attributes(is_dir_mode(e.attrs.perm))) + le32(
        name.len() as u32,
    ) + le32(0) + seq![0u8] + seq![0u8] + zeros(24) + le16(0) + le64(id) + name
}

/// The length of an entry.
pub open spec fn entry_len(e: EntryView) -> nat {
    ENTRY_FIXED_SIZE as nat + utf16le(e.name).len()
}

/// The length of an entry up to where the next one can start.
pub open spec fn padded_len(e: EntryView) -> nat {
    ((entry_len(e) + 7) / 8 * 8) as nat
}

/// An entry that another one follows.
pub open spec fn linked_entry(e: EntryView, id: u64) -> Seq<u8> {
    entry_bytes(e, padded_len(e) as u32, id) + zeros((padded_len(e) - entry_len(e)) as nat)
}

/// The first `n` entries, each of which another one follows.
pub open spec fn linked_entries(entries: Seq<EntryView>, n: nat) -> Seq<u8>
    decreases n,
{
    if n == 0 {
        Seq::empty()
    } else {
        linked_entries(entries, (n - 1) as nat) + linked_entry(entries[n - 1], n as u64)
    }
}

/// Entries as a response carries them: each but the last says where the next
/// one starts.
pub open spec fn listing_data(entries: Seq<EntryView>) -> Seq<u8> {
    let n = entries.len();
    linked_entries(entries, (n - 1) as nat) + entry_bytes(entries[n - 1], 0, n as u64)
}

pub(crate) proof fn lemma_entry_bytes(e: EntryView, next: u32, id: u64)
    ensures
        entry_bytes(e, next, id).len() == entry_len(e),
        le32_at(entry_bytes(e, next, id), 0) == next,
{
    reveal(entry_bytes);
    let s = entry_bytes(e, next, id);
    crate::bytes::law_le32_round_trip(next);
    assert(s[0] == le32(next)[0] && s[1] == le32(next)[1] && s[2] == le32(next)[2] && s[3] == le32(
        next,
    )[3]);
}

pub(crate) proof fn lemma_linked_entry(e: EntryView, id: u64)
    ensures
        linked_entry(e, id).len() == padded_len(e),
        padded_len(e) % 8 == 0,
{
    lemma_entry_bytes(e, padded_len(e) as u32, id);
}

pub(crate) proof fn lemma_linked_entries(entries: Seq<EntryView>, i: nat, n: nat)
    requires
        i <= n <= entries.len(),
    ensures
        linked_entries(entries, i).len() % 8 == 0,
        linked_entries(entries, i).len() <= linked_entries(entries, n).len(),
        linked_entries(entries, n).take(linked_entries(entries, i).len() as int) == linked_entries(
            entries,
            i,
        ),
    decreases n,
{
    if i < n {
        lemma_linked_entries(entries, i, (n - 1) as nat);
        let a = linked_entries(entries, i);
        let b = linked_entries(entries, (n - 1) as nat);
        let c = linked_entries(entries, n);
        assert(c.take(a.len() as int) =~= b.take(a.len() as int));
    } else {
        assert(linked_entries(entries, n).take(linked_entries(entries, i).len() as int)
            =~= linked_entries(entries, i));
        if n > 0 {
            lemma_linked_entries(entries, (n - 1) as nat, (n - 1) as nat);
            lemma_linked_entry(entries[n - 1], n as u64);
        }
    }
}

/// A client that follows the distances finds the entries one after the other:
/// each entry starts at a multiple of eight bytes, and where the entry before
/// it says.
pub proof fn law_entries_form_a_chain(entries: Seq<EntryView>, i: nat)
    requires
        i + 1 < entries.len(),
        padded_len(entries[i as int]) <= u32::MAX,
    ensures
        linked_entries(entries, i).len() % 8 == 0,
        le32_at(listing_data(entries), linked_entries(entries, i).len() as int)
            == linked_entries(entries, i + 1).len() - linked_entries(entries, i).len(),
        listing_data(entries).take(linked_entries(entries, i + 1).len() as int) == linked_entries(
            entries,
            i + 1,
        ),
{
    let n = entries.len();
    let e = entries[i as int];
    let a = linked_entries(entries, i);
    let b = linked_entries(entries, i + 1);
    let all = linked_entries(entries, (n - 1) as nat);
    let data = listing_data(entries);
    lemma_linked_entries(entries, i, (n - 1) as nat);
    lemma_linked_entries(entries, i + 1, (n - 1) as nat);
    let next = padded_len(e) as u32;
    let one = entry_bytes(e, next, (i + 1) as u64);
    lemma_entry_bytes(e, next, (i + 1) as u64);
    assert(b == a + linked_entry(e, (i + 1) as u64));
    lemma_linked_entry(e, (i + 1) as u64);
    assert(data.take(b.len() as int) =~= all.take(b.len() as int));
    let at = a.len() as int;
    assert forall|k: int| 0 <= k < 4 implies data[at + k] == one[k] by {
        assert(data[at + k] == data.take(b.len() as int)[at + k]);
        assert(b[at + k] == linked_entry(e, (i + 1) as u64)[k]);
    }
    assert(le32_at(data, at) == le32_at(one, 0));
}

fn put_entry(out: &mut Vec<u8>, e: &DirEntry, next: u32, id: u64, name: &[u8])
    requires
        name@ == utf16le(e@.name),
    ensures
        final(out)@ == old(out)@ + entry_bytes(e@, next, id),
{
    reveal(entry_bytes);
    let time = unix_to_filetime(e.attrs.mtime as u64);
    let mut one: Vec<u8> = Vec::new();
    put_u32_le(&mut one, next);
    assert(one@ =~= le32(next));
    put_u32_le(&mut one, 0);
    put_u64_le(&mut one, time);
    put_u64_le(&mut one, unix_to_filetime(e.attrs.atime as u64));
    put_u64_le(&mut one, time);
    put_u64_le(&mut one, time);
    put_u64_le(&mut one, e.attrs.size);
    put_u64_le(&mut one, e.attrs.size);
    put_u32_le(&mut one, attributes_of(has_dir_bit(e.attrs.perm)));
    put_u32_le(
        &mut one,
        #[verifier::truncate]
        (name.len() as u32),
    );
    put_u32_le(&mut one, 0);
    put_u8(&mut one, 0);
    put_u8(&mut one, 0);
    put_zeros(&mut one, 24);
    put_u16_le(&mut one, 0);
    put_u64_le(&mut one, id);
    put_all(&mut one, name);
    put_all(out, &one);
}

fn build_listing(entries: &Vec<DirEntry>) -> (out: Vec<u8>)
    requires
        entries@.len() > 0,
    ensures
        out@ == listing_data(entries_view(entries@)),
{
    let ghost es = entries_view(entries@);
    let mut out: Vec<u8> = Vec::new();
    let mut i: usize = 0;
    assert(out@ =~= linked_entries(es, 0));
    while i < entries.len() - 1
        invariant
            i < entries@.len(),
            es == entries_view(entries@),
            out@ == linked_entries(es, i as nat),
        decreases entries@.len() - i,
    {
        let e = &entries[i];
        let name = to_utf16le(&e.name);
        let len = ENTRY_FIXED_SIZE as u128 + name.len() as u128;
        let padded = (len + 7) / 8 * 8;
        let ghost before = out@;
        assert(es[i as int] == e@);
        assert(padded == padded_len(e@));
        put_entry(
            &mut out,
            e,
            #[verifier::truncate]
            (padded as u32),
            i as u64 + 1,
            &name,
        );
        put_zeros(&mut out, (padded - len) as usize);
        i += 1;
        assert(out@ =~= before + linked_entry(es[i - 1], i as u64));
    }
    let e = &entries[i];
    let name = to_utf16le(&e.name);
    assert(es[i as int] == e@);
    put_entry(&mut out, e, 0, i as u64 + 1, &name);
    out
}

// ── Choosing entries ────────────────────────────────────────────────

/// The entry of the file that keeps Spotlight away.
pub open spec fn inhibitor_entry(pattern: Seq<char>, wall: u64) -> EntryView {
    EntryView { name: pattern, attrs: inhibitor_attr(wall) }
}

/// The entries of a directory as the client sees them: in the share's root the
/// file that keeps Spotlight away comes last, whether or not the remote side
/// has one.
pub open spec fn entries_in(is_root: bool, entries: Seq<EntryView>, wall: u64) -> Seq<EntryView> {
    if is_root {
        entries.filter(|e: EntryView| !spotlight_inhibitor(e.name)).push(
            inhibitor_entry(".metadata_never_index"@, wall),
        )
    } else {
        entries
    }
}

/// The share's root shows the file that keeps Spotlight away once, and every
/// other entry of the remote side in its order.
pub proof fn law_root_shows_the_spotlight_file(entries: Seq<EntryView>, wall: u64, i: int)
    requires
        0 <= i < entries_in(true, entries, wall).len(),
    ensures
        ({
            let there = entries_in(true, entries, wall);
            &&& spotlight_inhibitor(there[i].name) == (i == there.len() - 1)
            &&& there.last() == inhibitor_entry(".metadata_never_index"@, wall)
            &&& there.drop_last() == entries.filter(
                |e: EntryView| !spotlight_inhibitor(e.name),
            )
        }),
{
    let kept = |e: EntryView| !spotlight_inhibitor(e.name);
    let there = entries_in(true, entries, wall);
    assert(there.drop_last() =~= entries.filter(kept));
    if i < there.len() - 1 {
        entries.lemma_filter_pred(kept, i);
        assert(there[i] == entries.filter(kept)[i]);
    }
}

fn root_entries(entries: &Vec<DirEntry>, wall: u64) -> (r: Vec<DirEntry>)
    ensures
        entries_view(r@) == entries_in(true, entries_view(entries@), wall),
{
    let ghost es = entries_view(entries@);
    let ghost kept = |e: EntryView| !spotlight_inhibitor(e.name);
    let mut out: Vec<DirEntry> = Vec::new();
    let mut i: usize = 0;
    assert(es.take(0).filter(kept) =~= Seq::empty()) by {
        reveal(Seq::filter);
    }
    assert(entries_view(out@) =~= es.take(0).filter(kept));
    while i < entries.len()
        invariant
            i <= entries@.len(),
            es == entries_view(entries@),
            kept == (|e: EntryView| !spotlight_inhibitor(e.name)),
            entries_view(out@) == es.take(i as int).filter(kept),
        decreases entries@.len() - i,
    {
        let ghost before = out@;
        proof {
            assert(es.take(i + 1).drop_last() =~= es.take(i as int));
            assert(es.take(i + 1).last() == entries@[i as int]@);
            reveal(Seq::filter);
        }
        if !is_spotlight_inhibitor(&entries[i].name) {
            out.push(copy_entry(&entries[i]));
            assert(entries_view(out@) =~= entries_view(before).push(entries@[i as int]@));
        }
        i += 1;
    }
    assert(es.take(i as int) =~= es);
    let ghost before = out@;
    out.push(
        DirEntry { name: String::from_str(".metadata_never_index"), attrs: fake_attr(wall) },
    );
    assert(entries_view(out@) =~= entries_view(before).push(
        inhibitor_entry(".metadata_never_index"@, wall),
    ));
    out
}

/// The entries that fit a pattern, in their order.
pub open spec fn fitting(entries: Seq<EntryView>, pattern: Seq<char>) -> Seq<EntryView> {
    entries.filter(|e: EntryView| fits(pattern, e.name))
}

/// The entries that a request gets to see: for `*` those that were not handed
/// out yet, and else those that fit the pattern. Who asks in the share's root
/// for the file that keeps Spotlight away, by its name, finds nothing else.
pub open spec fn shown(
    is_root: bool,
    entries: Seq<EntryView>,
    handed_out: usize,
    pattern: Seq<char>,
    wall: u64,
) -> Seq<EntryView> {
    if is_root && spotlight_inhibitor(pattern) {
        seq![inhibitor_entry(pattern, wall)]
    } else if pattern == "*"@ {
        if handed_out <= entries.len() {
            entries.skip(handed_out as int)
        } else {
            Seq::empty()
        }
    } else {
        fitting(entries, pattern)
    }
}

/// The entries that a response carries.
pub open spec fn chosen(found: Seq<EntryView>, flags: u8) -> Seq<EntryView> {
    if flags & RETURN_SINGLE_ENTRY != 0 && found.len() > 0 {
        found.take(1)
    } else {
        found
    }
}

fn copy_entry(e: &DirEntry) -> (r: DirEntry)
    ensures
        r@ == e@,
{
    DirEntry { name: e.name.clone(), attrs: e.attrs }
}

fn entries_from(entries: &Vec<DirEntry>, from: usize, single: bool) -> (r: Vec<DirEntry>)
    ensures
        entries_view(r@) == ({
            let all = if from <= entries@.len() {
                entries_view(entries@).skip(from as int)
            } else {
                Seq::empty()
            };
            if single && all.len() > 0 {
                all.take(1)
            } else {
                all
            }
        }),
{
    let ghost es = entries_view(entries@);
    let mut out: Vec<DirEntry> = Vec::new();
    if from >= entries.len() {
        assert(entries_view(out@) =~= Seq::empty());
        if from == entries.len() {
            assert(es.skip(from as int) =~= Seq::empty());
        }
        return out;
    }
    let to = if single {
        from + 1
    } else {
        entries.len()
    };
    let mut i: usize = from;
    assert(entries_view(out@) =~= es.subrange(from as int, i as int));
    while i < to
        invariant
            from <= i <= to <= entries@.len(),
            es == entries_view(entries@),
            entries_view(out@) == es.subrange(from as int, i as int),
        decreases to - i,
    {
        let ghost before = out@;
        out.push(copy_entry(&entries[i]));
        i += 1;
        assert(entries_view(out@) =~= entries_view(before).push(es[i - 1]));
        assert(entries_view(out@) =~= es.subrange(from as int, i as int));
    }
    assert(es.subrange(from as int, es.len() as int) =~= es.skip(from as int));
    assert(es.subrange(from as int, from + 1) =~= es.skip(from as int).take(1));
    out
}

fn fitting_entries(entries: &Vec<DirEntry>, pattern: &str, single: bool) -> (r: Vec<DirEntry>)
    ensures
        entries_view(r@) == ({
            let all = fitting(entries_view(entries@), pattern@);
            if single && all.len() > 0 {
                all.take(1)
            } else {
                all
            }
        }),
{
    let ghost es = entries_view(entries@);
    let ghost wanted = |e: EntryView| fits(pattern@, e.name);
    let mut out: Vec<DirEntry> = Vec::new();
    let mut i: usize = 0;
    assert(es.take(0).filter(wanted) =~= Seq::empty()) by {
        reveal(Seq::filter);
    }
    assert(entries_view(out@) =~= es.take(0).filter(wanted));
    while i < entries.len()
        invariant
            i <= entries@.len(),
            es == entries_view(entries@),
            wanted == (|e: EntryView| fits(pattern@, e.name)),
            entries_view(out@) == es.take(i as int).filter(wanted),
            single ==> out@.len() == 0,
        decreases entries@.len() - i,
    {
        let ghost before = out@;
        proof {
            assert(es.take(i + 1).drop_last() =~= es.take(i as int));
            assert(es.take(i + 1).last() == entries@[i as int]@);
            reveal(Seq::filter);
        }
        if smb_pattern_match(pattern, &entries[i].name) {
            out.push(copy_entry(&entries[i]));
            assert(entries_view(out@) =~= entries_view(before).push(entries@[i as int]@));
            assert(entries_view(out@) =~= es.take(i + 1).filter(wanted));
            if single {
                proof {
                    lemma_filter_keeps_prefix(es, wanted, i + 1);
                }
                return out;
            }
        }
        i += 1;
    }
    assert(es.take(i as int) =~= es);
    out
}

proof fn lemma_filter_keeps_prefix(es: Seq<EntryView>, wanted: spec_fn(EntryView) -> bool, n: int)
    requires
        0 <= n <= es.len(),
        es.take(n).filter(wanted).len() == 1,
    ensures
        es.filter(wanted).len() > 0,
        es.filter(wanted).take(1) == es.take(n).filter(wanted),
    decreases es.len() - n,
{
    reveal(Seq::filter);
    let a = es.take(n);
    let b = es.skip(n);
    assert(a + b =~= es);
    Seq::filter_distributes_over_add(a, b, wanted);
    assert(es.filter(wanted).take(1) =~= a.filter(wanted));
}

fn choose_entries(
    is_root: bool,
    entries: &Vec<DirEntry>,
    handed_out: usize,
    pattern: &str,
    flags: u8,
    wall: u64,
) -> (r: Vec<DirEntry>)
    ensures
        entries_view(r@) == chosen(
            shown(is_root, entries_view(entries@), handed_out, pattern@, wall),
            flags,
        ),
{
    let single = flags & RETURN_SINGLE_ENTRY != 0;
    if is_root && is_spotlight_inhibitor(pattern) {
        let mut out: Vec<DirEntry> = Vec::new();
        out.push(DirEntry { name: String::from_str(pattern), attrs: fake_attr(wall) });
        let ghost one = seq![inhibitor_entry(pattern@, wall)];
        assert(entries_view(out@) =~= one);
        assert(one.take(1) =~= one);
        return out;
    }
    if str_eq(pattern, "*") {
        entries_from(entries, handed_out, single)
    } else {
        fitting_entries(entries, pattern, single)
    }
}

// ── QUERY_DIRECTORY ─────────────────────────────────────────────────

/// The pattern of a QUERY_DIRECTORY request; `*` where it has none or where it
/// does not lie within the request.
pub open spec fn query_pattern(body: Seq<u8>) -> Seq<char> {
    let offset = if body.len() >= 26 {
        le16_at(body, 24)
    } else {
        0
    };
    let length = if body.len() >= 28 {
        le16_at(body, 26)
    } else {
        0
    };
    match pointed_at(body, offset as nat, length as nat) {
        Some(p) => if length > 0 {
            utf16le_text(p)
        } else {
            "*"@
        },
        None => "*"@,
    }
}

/// Answering QUERY_DIRECTORY from the listing that the handle has.
pub open spec fn list_step(
    m: SessionModel,
    hdr: Smb2Header,
    fid: u64,
    flags: u8,
    pattern: Seq<char>,
    wall: u64,
) -> (SessionModel, StepView) {
    let h = m.handles[fid];
    match h.entries {
        None => (m, refused(hdr, STATUS_NO_MORE_FILES)),
        Some(entries) => {
            let is_root = h.path == m.root;
            let there = entries_in(is_root, entries, wall);
            let out = chosen(shown(is_root, there, h.dir_offset, pattern, wall), flags);
            if out.len() == 0 {
                (m, refused(hdr, STATUS_NO_MORE_FILES))
            } else {
                let handed_out = if pattern == "*"@ {
                    h.dir_offset + out.len()
                } else {
                    h.dir_offset as int
                };
                (
                    with_state(m, fid, HandleModel { dir_offset: handed_out as usize, ..h }),
                    answered(hdr, STATUS_SUCCESS, output_body(listing_data(out))),
                )
            }
        },
    }
}

/// The session once a handle has got a listing from the cache.
pub open spec fn with_cached_listing(
    m: SessionModel,
    fid: u64,
    entries: Seq<EntryView>,
    restart: bool,
) -> SessionModel {
    let h = m.handles[fid];
    with_state(
        m,
        fid,
        HandleModel {
            entries: Some(entries),
            dir_offset: if restart {
                0
            } else {
                h.dir_offset
            },
            ..h
        },
    )
}

/// Handling QUERY_DIRECTORY. A listing is asked for where the handle has none
/// and at every restart, and comes from the cache where it holds one.
pub open spec fn query_directory_step(
    m: SessionModel,
    hdr: Smb2Header,
    body: Seq<u8>,
    t: Moment,
) -> (SessionModel, StepView) {
    if body.len() < 24 {
        (m, refused(hdr, STATUS_INVALID_PARAMETER))
    } else {
        let flags = body[3];
        let fid = resolved(m, le64_at(body, 8));
        let restart = flags & RESTART_SCANS != 0;
        let pattern = query_pattern(body);
        if !(m.handles.contains_key(fid) && m.handles[fid].is_dir) {
            (m, refused(hdr, STATUS_INVALID_PARAMETER))
        } else {
            let h = m.handles[fid];
            if h.entries is Some && !restart {
                list_step(m, hdr, fid, flags, pattern, t.wall)
            } else {
                match listing_known(m.dirs, h.path, t.now) {
                    Some(entries) => list_step(
                        with_cached_listing(m, fid, entries, restart),
                        hdr,
                        fid,
                        flags,
                        pattern,
                        t.wall,
                    ),
                    None => (
                        m,
                        StepView::Ask(
                            CallOf::Readdir { path: h.path },
                            hdr,
                            ThenOf::Listed { fid, flags, pattern, path: h.path },
                        ),
                    ),
                }
            }
        }
    }
}

/// The session once it has learnt what a directory holds. The handle that asked
/// for it starts over.
pub open spec fn with_new_listing(
    m: SessionModel,
    fid: u64,
    path: Seq<char>,
    entries: Seq<EntryView>,
    now: u128,
) -> SessionModel {
    let learnt = SessionModel {
        attrs: with_entries(m.attrs, path, entries, entries.len(), now),
        dirs: with_listing(m.dirs, path, entries, now),
        ..m
    };
    with_state(
        learnt,
        fid,
        HandleModel { entries: Some(entries), dir_offset: 0, ..learnt.handles[fid] },
    )
}

/// How QUERY_DIRECTORY goes on once the directory was listed.
pub open spec fn listed_step(
    m: SessionModel,
    hdr: Smb2Header,
    fid: u64,
    flags: u8,
    pattern: Seq<char>,
    path: Seq<char>,
    reply: ReplyView,
    t: Moment,
) -> (SessionModel, StepView) {
    match reply {
        ReplyView::Entries(Ok(entries)) => {
            let l = with_new_listing(m, fid, path, entries, t.now);
            if l.handles.contains_key(fid) {
                list_step(l, hdr, fid, flags, pattern, t.wall)
            } else {
                (l, refused(hdr, STATUS_INVALID_PARAMETER))
            }
        },
        _ => (m, refused(hdr, STATUS_ACCESS_DENIED)),
    }
}

/// A client that asks for `*` until there is no more gets every entry once: what
/// a response carries comes right behind what was handed out before, and counts
/// as handed out from then on.
pub proof fn law_scans_hand_out_each_entry_once(
    m: SessionModel,
    hdr: Smb2Header,
    fid: u64,
    flags: u8,
    entries: Seq<EntryView>,
    wall: u64,
)
    requires
        m.handles.contains_key(fid),
        m.handles[fid].entries == Some(entries),
        ({
            let there = entries_in(m.handles[fid].path == m.root, entries, wall);
            m.handles[fid].dir_offset < there.len() <= usize::MAX
        }),
    ensures
        ({
            let there = entries_in(m.handles[fid].path == m.root, entries, wall);
            let from = m.handles[fid].dir_offset as int;
            let to = list_step(m, hdr, fid, flags, "*"@, wall).0.handles[fid].dir_offset as int;
            &&& from < to <= there.len()
            &&& list_step(m, hdr, fid, flags, "*"@, wall).1 == answered(
                hdr,
                STATUS_SUCCESS,
                output_body(listing_data(there.subrange(from, to))),
            )
            &&& flags & RETURN_SINGLE_ENTRY == 0 ==> to == there.len()
        }),
{
    reveal_strlit("*");
    reveal_strlit(".metadata_never_index");
    assert("*"@.len() != ".metadata_never_index"@.len());
    let from = m.handles[fid].dir_offset as int;
    let there = entries_in(m.handles[fid].path == m.root, entries, wall);
    let rest = there.skip(from);
    assert(rest.take(1) =~= there.subrange(from, from + 1));
    assert(rest =~= there.subrange(from, there.len() as int));
}

/// Once every entry was handed out, a request for `*` finds no more.
pub proof fn law_scans_end(
    m: SessionModel,
    hdr: Smb2Header,
    fid: u64,
    flags: u8,
    entries: Seq<EntryView>,
    wall: u64,
)
    requires
        m.handles[fid].entries == Some(entries),
        m.handles[fid].dir_offset == entries_in(
            m.handles[fid].path == m.root,
            entries,
            wall,
        ).len(),
    ensures
        list_step(m, hdr, fid, flags, "*"@, wall) == (m, refused(hdr, STATUS_NO_MORE_FILES)),
{
    reveal_strlit("*");
    reveal_strlit(".metadata_never_index");
    assert("*"@.len() != ".metadata_never_index"@.len());
}

impl SmbSession {
    fn list(&mut self, hdr: &Smb2Header, fid: u64, flags: u8, pattern: &str, wall: u64) -> (s: Step)
        requires
            old(self)@.handles.contains_key(fid),
        ensures
            (final(self)@, s@) == list_step(old(self)@, *hdr, fid, flags, pattern@, wall),
    {
        let h = match self.handles.get(fid) {
            Some(h) => h,
            None => return error_response(hdr, STATUS_NO_MORE_FILES),
        };
        let entries = match &h.dir_entries {
            Some(e) => e,
            None => return error_response(hdr, STATUS_NO_MORE_FILES),
        };
        let handed_out = h.dir_offset;
        let own: Vec<DirEntry>;
        let is_root = str_eq(&h.path, &self.root_path);
        let there: &Vec<DirEntry> = if is_root {
            own = root_entries(entries, wall);
            &own
        } else {
            entries
        };
        let out = choose_entries(is_root, there, handed_out, pattern, flags, wall);
        let ghost all = entries_view(there@);
        assert(out@.len() == entries_view(out@).len());
        if out.len() == 0 {
            return error_response(hdr, STATUS_NO_MORE_FILES);
        }
        let data = build_listing(&out);
        let is_scan = str_eq(pattern, "*");
        let ghost before = self@.handles;
        if is_scan {
            proof {
                reveal_strlit("*");
                reveal_strlit(".metadata_never_index");
                assert("*"@.len() != ".metadata_never_index"@.len());
                assert(handed_out + out@.len() <= all.len());
                assert(all.len() == there@.len());
                assert(there.len() <= usize::MAX);
            }
            let next = handed_out + out.len();
            if let Some(h) = self.handles.remove(fid) {
                self.handles.insert(fid, OpenHandle { dir_offset: next, ..h });
            }
            assert(self@.handles =~= before.insert(
                fid,
                HandleModel { dir_offset: next, ..before[fid] },
            ));
        } else {
            assert(before =~= before.insert(
                fid,
                HandleModel { dir_offset: handed_out, ..before[fid] },
            ));
        }
        answer_data(hdr, &data)
    }

    fn set_listing(&mut self, fid: u64, entries: Arc<Vec<DirEntry>>, restart: bool)
        requires
            old(self)@.handles.contains_key(fid),
        ensures
            final(self)@ == with_cached_listing(
                old(self)@,
                fid,
                entries_view(entries@),
                restart,
            ),
    {
        let ghost before = self@.handles;
        let ghost es = entries_view(entries@);
        if let Some(h) = self.handles.remove(fid) {
            let dir_offset = if restart {
                0
            } else {
                h.dir_offset
            };
            self.handles.insert(fid, OpenHandle { dir_entries: Some(entries), dir_offset, ..h });
            assert(self@.handles =~= before.insert(
                fid,
                HandleModel { entries: Some(es), dir_offset, ..before[fid] },
            ));
        }
    }

    /// Handles QUERY_DIRECTORY.
    pub fn handle_query_directory(&mut self, hdr: &Smb2Header, body: &[u8], t: Moment) -> (s: Step)
        ensures
            (final(self)@, s@) == query_directory_step(old(self)@, *hdr, body@, t),
    {
        if body.len() < 24 {
            return error_response(hdr, STATUS_INVALID_PARAMETER);
        }
        let flags = body[3];
        let fid = self.resolve_fid(read_u64_le(body, 8));
        let restart = flags & RESTART_SCANS != 0;
        let offset = if body.len() >= 26 {
            read_u16_le(body, 24)
        } else {
            0
        };
        let length = if body.len() >= 28 {
            read_u16_le(body, 26)
        } else {
            0
        };
        let pattern = match find_part(body, offset as u32, length as u32) {
            Some(p) => if length > 0 {
                from_utf16le(p)
            } else {
                String::from_str("*")
            },
            None => String::from_str("*"),
        };
        let (path, listed) = match self.handles.get(fid) {
            Some(h) => {
                if !h.is_dir {
                    return error_response(hdr, STATUS_INVALID_PARAMETER);
                }
                (h.path.clone(), h.dir_entries.is_some())
            },
            None => return error_response(hdr, STATUS_INVALID_PARAMETER),
        };
        if listed && !restart {
            return self.list(hdr, fid, flags, &pattern, t.wall);
        }
        match self.dir_cache.get_at(&path, t.now) {
            Some(entries) => {
                self.set_listing(fid, entries, restart);
                self.list(hdr, fid, flags, &pattern, t.wall)
            },
            None => {
                let dir = path.clone();
                ask(
                    hdr,
                    CallOf::Readdir { path },
                    ThenOf::Listed { fid, flags, pattern, path: dir },
                )
            },
        }
    }

    /// Goes on with QUERY_DIRECTORY once the directory was listed.
    pub(crate) fn on_listed(
        &mut self,
        hdr: &Smb2Header,
        fid: u64,
        flags: u8,
        pattern: &str,
        path: String,
        reply: SftpReply,
        t: Moment,
    ) -> (s: Step)
        requires
            t.now < CLOCK_END,
        ensures
            (final(self)@, s@) == listed_step(
                old(self)@,
                *hdr,
                fid,
                flags,
                pattern@,
                path@,
                reply@,
                t,
            ),
    {
        let entries = match reply {
            SftpReply::Entries(Ok(entries)) => entries,
            _ => return error_response(hdr, STATUS_ACCESS_DENIED),
        };
        let ghost es = entries_view(entries@);
        let dir = path.clone();
        self.cache.insert_dir_entries_at(&path, &entries, t.now);
        self.dir_cache.insert_at(path, entries, t.now);
        let shared = self.dir_cache.get_at(&dir, t.now);
        assert(listing_known(self@.dirs, dir@, t.now) == Some(es));
        if self.handles.get(fid).is_none() {
            return error_response(hdr, STATUS_INVALID_PARAMETER);
        }
        if let Some(list) = shared {
            self.set_listing(fid, list, true);
        }
        self.list(hdr, fid, flags, pattern, t.wall)
    }
}

} // verus!

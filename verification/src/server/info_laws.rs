//! What a client learns of a file of the share, and what it changes of it.

use crate::bytes::{
    lemma_le16_in, lemma_le32_in, lemma_le64_in, le16, le16_at, le32, le32_at, le64, le64_at, zeros,
};
use crate::server::asked::{
    asks, body_in, carried, has_part, is_request, lemma_fields, lemma_one_reply, lemma_refusal,
    lemma_reply, lemma_request, meant, part_at, request_header, status_in,
};
use crate::server::cache::{
    absence_known, attrs_known, law_eviction_is_not_seen, law_invalidated_is_unknown,
};
use crate::server::create::file_attributes;
use crate::server::create_laws::ticks;
use crate::server::dispatch::message_step;
use crate::server::info::{
    all_info, basic_info, fs_attribute_info, fs_sector_info, fs_size_info, fs_volume_info,
    info_data, network_open_info, output_body, query_goal, set_body, set_data, set_info_step,
    standard_info, with_times,
};
use crate::server::pattern::apple_metadata;
use crate::server::stat::stat_step;
use crate::server::state::{counted, forgotten, inhibitor_path, learnt, remote_path, SessionModel};
use crate::server::step::{answered, Goal, Moment, StepView, ThenOf, ThenView};
use crate::sftp::call::{CallOf, ReplyView};
use crate::smb2::{
    filetime, Smb2Header, STATUS_ACCESS_DENIED, STATUS_INVALID_PARAMETER,
    STATUS_OBJECT_NAME_NOT_FOUND, STATUS_SUCCESS,
};
use crate::text::base_name;
use crate::utf16::{law_text_reads_back, utf16le, utf16le_text};
use crate::wire::{Fault, FileAttr};
use vstd::prelude::*;

verus! {

/// How a file's kind is told: as a directory, or as one to be archived.
pub open spec fn kind_bits(is_dir: bool) -> u32 {
    if is_dir {
        0x10
    } else {
        0x20
    }
}

/// The four times at `at`: made, read, written and changed.
pub open spec fn tells_times(d: Seq<u8>, at: int, attr: FileAttr) -> bool {
    &&& le64_at(d, at) == ticks(attr.mtime)
    &&& le64_at(d, at + 8) == ticks(attr.atime)
    &&& le64_at(d, at + 16) == ticks(attr.mtime)
    &&& le64_at(d, at + 24) == ticks(attr.mtime)
}

/// What is told of a file's size and links at `at`.
pub open spec fn tells_size(d: Seq<u8>, at: int, attr: FileAttr, is_dir: bool) -> bool {
    &&& le64_at(d, at) == attr.size
    &&& le64_at(d, at + 8) == attr.size
    &&& le32_at(d, at + 16) == 1
    &&& d[at + 20] == 0
    &&& d[at + 21] == if is_dir {
        1u8
    } else {
        0u8
    }
}

/// The text at `at`, with its length in bytes at `len_at`, up to the end.
pub open spec fn tells_text(d: Seq<u8>, len_at: int, at: int, text: Seq<char>) -> bool {
    &&& d.len() >= at
    &&& d.len() <= u32::MAX ==> d.len() == at + le32_at(d, len_at)
    &&& utf16le_text(d.skip(at)) == text
}

/// What a client reads of a file, or of the share, in each class of information
/// that there is.
pub open spec fn informs(
    d: Seq<u8>,
    info_type: u8,
    class: u8,
    attr: FileAttr,
    is_dir: bool,
    path: Seq<char>,
) -> bool {
    if info_type == 1 {
        if class == 4 {
            &&& d.len() == 40
            &&& tells_times(d, 0, attr)
            &&& le32_at(d, 32) == kind_bits(is_dir)
        } else if class == 5 {
            &&& d.len() == 24
            &&& tells_size(d, 0, attr, is_dir)
        } else if class == 6 || class == 14 {
            &&& d.len() == 8
            &&& le64_at(d, 0) == 0
        } else if class == 7 {
            &&& d.len() == 4
            &&& le32_at(d, 0) == 0
        } else if class == 18 {
            &&& d.len() >= 100
            &&& tells_times(d, 0, attr)
            &&& le32_at(d, 32) == kind_bits(is_dir)
            &&& tells_size(d, 40, attr, is_dir)
            &&& le64_at(d, 64) == 0
            &&& le32_at(d, 72) == 0
            &&& le32_at(d, 76) == 0x0200_0000
            &&& le64_at(d, 80) == 0
            &&& tells_text(d, 96, 100, base_name(path))
        } else if class == 34 {
            &&& d.len() == 56
            &&& tells_times(d, 0, attr)
            &&& le64_at(d, 32) == attr.size
            &&& le64_at(d, 40) == attr.size
            &&& le32_at(d, 48) == kind_bits(is_dir)
        } else {
            &&& class == 35
            &&& d.len() == 8
            &&& le32_at(d, 0) == kind_bits(is_dir)
        }
    } else if info_type == 2 {
        if class == 1 {
            &&& le64_at(d, 0) == ticks(attr.mtime)
            &&& le32_at(d, 8) == 0
            &&& tells_text(d, 12, 18, "sshfs"@)
        } else if class == 3 {
            &&& d.len() == 24
            &&& le64_at(d, 0) == 0x4000_0000
            &&& le64_at(d, 8) == 0x2000_0000
            &&& le32_at(d, 16) == 1
            &&& le32_at(d, 20) == 4096
        } else if class == 5 {
            &&& le32_at(d, 0) == 3
            &&& le32_at(d, 4) == 255
            &&& tells_text(d, 8, 12, "SSHFS"@)
        } else if class == 7 {
            &&& d.len() == 32
            &&& le64_at(d, 0) == 0x4000_0000
            &&& le64_at(d, 8) == 0x2000_0000
            &&& le64_at(d, 16) == le64_at(d, 8)
            &&& le32_at(d, 24) == 1
            &&& le32_at(d, 28) == 4096
        } else {
            &&& class == 11
            &&& d.len() == 24
            &&& le32_at(d, 0) == 4096
            &&& le32_at(d, 4) == 4096
            &&& le32_at(d, 8) == 4096
        }
    } else {
        &&& info_type == 3
        &&& d == Seq::new(20, |i: int| 0u8)
    }
}

/// There is such information.
pub open spec fn is_offered(info_type: u8, class: u8) -> bool {
    ||| info_type == 1 && (class == 4 || class == 5 || class == 6 || class == 7 || class == 14
        || class == 18 || class == 34 || class == 35)
    ||| info_type == 2 && (class == 1 || class == 3 || class == 5 || class == 7 || class == 11)
    ||| info_type == 3
}

proof fn lemma_times(d: Seq<u8>, at: int, attr: FileAttr)
    requires
        0 <= at,
        at + 32 <= d.len(),
        ({
            let m = le64(filetime(attr.mtime as u64));
            let a = le64(filetime(attr.atime as u64));
            &&& d.subrange(at, at + 8) == m
            &&& d.subrange(at + 8, at + 8 + 8) == a
            &&& d.subrange(at + 16, at + 16 + 8) == m
            &&& d.subrange(at + 24, at + 24 + 8) == m
        }),
    ensures
        tells_times(d, at, attr),
{
    let m = filetime(attr.mtime as u64);
    let a = filetime(attr.atime as u64);
    lemma_le64_in(d, at, m);
    lemma_le64_in(d, at + 8, a);
    lemma_le64_in(d, at + 16, m);
    lemma_le64_in(d, at + 24, m);
}

proof fn lemma_basic(attr: FileAttr, is_dir: bool, tail: Seq<u8>)
    ensures
        ({
            let d = basic_info(attr, is_dir) + tail;
            &&& basic_info(attr, is_dir).len() == 40
            &&& tells_times(d, 0, attr)
            &&& le32_at(d, 32) == kind_bits(is_dir)
        }),
{
    let d = basic_info(attr, is_dir) + tail;
    let m = le64(filetime(attr.mtime as u64));
    let a = le64(filetime(attr.atime as u64));
    assert(d.subrange(0, 8) =~= m);
    assert(d.subrange(8, 16) =~= a);
    assert(d.subrange(16, 24) =~= m);
    assert(d.subrange(24, 32) =~= m);
    lemma_times(d, 0, attr);
    assert(d.subrange(32, 36) =~= le32(file_attributes(is_dir)));
    lemma_le32_in(d, 32, file_attributes(is_dir));
}

proof fn lemma_standard(pre: Seq<u8>, attr: FileAttr, is_dir: bool, tail: Seq<u8>)
    ensures
        ({
            let d = pre + standard_info(attr, is_dir) + tail;
            &&& standard_info(attr, is_dir).len() == 24
            &&& tells_size(d, pre.len() as int, attr, is_dir)
        }),
{
    let d = pre + standard_info(attr, is_dir) + tail;
    let at = pre.len() as int;
    assert(d.subrange(at, at + 8) =~= le64(attr.size));
    assert(d.subrange(at + 8, at + 8 + 8) =~= le64(attr.size));
    assert(d.subrange(at + 16, at + 16 + 4) =~= le32(1));
    lemma_le64_in(d, at, attr.size);
    lemma_le64_in(d, at + 8, attr.size);
    lemma_le32_in(d, at + 16, 1);
}

proof fn lemma_network(attr: FileAttr, is_dir: bool)
    ensures
        ({
            let d = network_open_info(attr, is_dir);
            &&& d.len() == 56
            &&& tells_times(d, 0, attr)
            &&& le64_at(d, 32) == attr.size
            &&& le64_at(d, 40) == attr.size
            &&& le32_at(d, 48) == kind_bits(is_dir)
        }),
{
    let d = network_open_info(attr, is_dir);
    let m = le64(filetime(attr.mtime as u64));
    let a = le64(filetime(attr.atime as u64));
    assert(d.subrange(0, 8) =~= m);
    assert(d.subrange(8, 16) =~= a);
    assert(d.subrange(16, 24) =~= m);
    assert(d.subrange(24, 32) =~= m);
    lemma_times(d, 0, attr);
    assert(d.subrange(32, 40) =~= le64(attr.size));
    assert(d.subrange(40, 48) =~= le64(attr.size));
    assert(d.subrange(48, 52) =~= le32(file_attributes(is_dir)));
    lemma_le64_in(d, 32, attr.size);
    lemma_le64_in(d, 40, attr.size);
    lemma_le32_in(d, 48, file_attributes(is_dir));
}

#[verifier::opaque]
spec fn all_tail(name: Seq<u8>) -> Seq<u8> {
    le64(0) + le32(0) + le32(0x0200_0000) + le64(0) + le32(0) + le32(0) + le32(name.len() as u32)
        + name
}

proof fn lemma_all_tail(name: Seq<u8>)
    ensures
        ({
            let rest = all_tail(name);
            &&& rest.len() == 36 + name.len()
            &&& rest.subrange(0, 8) == le64(0)
            &&& rest.subrange(8, 12) == le32(0)
            &&& rest.subrange(12, 16) == le32(0x0200_0000)
            &&& rest.subrange(16, 24) == le64(0)
            &&& rest.subrange(32, 36) == le32(name.len() as u32)
            &&& rest.skip(36) == name
        }),
{
    reveal(all_tail);
    let rest = all_tail(name);
    assert(rest.subrange(0, 8) =~= le64(0));
    assert(rest.subrange(8, 12) =~= le32(0));
    assert(rest.subrange(12, 16) =~= le32(0x0200_0000));
    assert(rest.subrange(16, 24) =~= le64(0));
    assert(rest.subrange(32, 36) =~= le32(name.len() as u32));
    assert(rest.skip(36) =~= name);
}

proof fn lemma_all_parts(attr: FileAttr, is_dir: bool, path: Seq<char>)
    ensures
        all_info(attr, is_dir, path) == basic_info(attr, is_dir) + standard_info(attr, is_dir)
            + all_tail(utf16le(base_name(path))),
{
    reveal(all_tail);
    let name = utf16le(base_name(path));
    let d = basic_info(attr, is_dir) + standard_info(attr, is_dir);
    let n = le32(name.len() as u32);
    assert(d + le64(0) + le32(0) + le32(0x0200_0000) + le64(0) + le32(0) + le32(0) + n + name =~= d
        + all_tail(name));
}

proof fn lemma_tail_at(d: Seq<u8>, pre: Seq<u8>, rest: Seq<u8>)
    requires
        pre.len() == 64,
        rest.len() >= 36,
        d == pre + rest,
    ensures
        d.subrange(64, 72) == rest.subrange(0, 8),
        d.subrange(72, 76) == rest.subrange(8, 12),
        d.subrange(76, 80) == rest.subrange(12, 16),
        d.subrange(80, 88) == rest.subrange(16, 24),
        d.subrange(96, 100) == rest.subrange(32, 36),
        d.skip(100) == rest.skip(36),
{
    assert(d.subrange(64, 72) =~= rest.subrange(0, 8));
    assert(d.subrange(72, 76) =~= rest.subrange(8, 12));
    assert(d.subrange(76, 80) =~= rest.subrange(12, 16));
    assert(d.subrange(80, 88) =~= rest.subrange(16, 24));
    assert(d.subrange(96, 100) =~= rest.subrange(32, 36));
    assert(d.skip(100) =~= rest.skip(36));
}

#[verifier::rlimit(40)]
proof fn lemma_all(attr: FileAttr, is_dir: bool, path: Seq<char>)
    ensures
        informs(all_info(attr, is_dir, path), 1, 18, attr, is_dir, path),
{
    let d = all_info(attr, is_dir, path);
    let name = utf16le(base_name(path));
    let b = basic_info(attr, is_dir);
    let s = standard_info(attr, is_dir);
    let rest = all_tail(name);
    lemma_all_parts(attr, is_dir, path);
    lemma_all_tail(name);
    assert(d =~= b + (s + rest));
    lemma_basic(attr, is_dir, s + rest);
    lemma_standard(b, attr, is_dir, rest);
    lemma_tail_at(d, b + s, rest);
    lemma_le64_in(d, 64, 0);
    lemma_le32_in(d, 72, 0);
    lemma_le32_in(d, 76, 0x0200_0000);
    lemma_le64_in(d, 80, 0);
    lemma_le32_in(d, 96, name.len() as u32);
    law_text_reads_back(base_name(path));
}

proof fn lemma_share(class: u8, attr: FileAttr, is_dir: bool, path: Seq<char>)
    requires
        is_offered(2, class),
    ensures
        info_data(2, class, attr, is_dir, path) matches Ok(d) && informs(
            d,
            2,
            class,
            attr,
            is_dir,
            path,
        ),
{
    if class == 1 {
        let d = fs_volume_info(attr);
        let label = utf16le("sshfs"@);
        let m = filetime(attr.mtime as u64);
        law_text_reads_back("sshfs"@);
        assert(d.subrange(0, 8) =~= le64(m));
        assert(d.subrange(8, 12) =~= le32(0));
        assert(d.subrange(12, 16) =~= le32(label.len() as u32));
        assert(d.skip(18) =~= label);
        lemma_le64_in(d, 0, m);
        lemma_le32_in(d, 8, 0);
        lemma_le32_in(d, 12, label.len() as u32);
    } else if class == 3 {
        let d = fs_size_info(false);
        assert(d.subrange(0, 8) =~= le64(crate::server::info::TOTAL_UNITS));
        assert(d.subrange(8, 16) =~= le64(crate::server::info::FREE_UNITS));
        assert(d.subrange(16, 20) =~= le32(1));
        assert(d.subrange(20, 24) =~= le32(4096));
        lemma_le64_in(d, 0, crate::server::info::TOTAL_UNITS);
        lemma_le64_in(d, 8, crate::server::info::FREE_UNITS);
        lemma_le32_in(d, 16, 1);
        lemma_le32_in(d, 20, 4096);
    } else if class == 5 {
        let d = fs_attribute_info();
        let label = utf16le("SSHFS"@);
        law_text_reads_back("SSHFS"@);
        assert(d.subrange(0, 4) =~= le32(3));
        assert(d.subrange(4, 8) =~= le32(255));
        assert(d.subrange(8, 12) =~= le32(label.len() as u32));
        assert(d.skip(12) =~= label);
        lemma_le32_in(d, 0, 3);
        lemma_le32_in(d, 4, 255);
        lemma_le32_in(d, 8, label.len() as u32);
    } else if class == 7 {
        let d = fs_size_info(true);
        assert(d.subrange(0, 8) =~= le64(crate::server::info::TOTAL_UNITS));
        assert(d.subrange(8, 16) =~= le64(crate::server::info::FREE_UNITS));
        assert(d.subrange(16, 24) =~= le64(crate::server::info::FREE_UNITS));
        assert(d.subrange(24, 28) =~= le32(1));
        assert(d.subrange(28, 32) =~= le32(4096));
        lemma_le64_in(d, 0, crate::server::info::TOTAL_UNITS);
        lemma_le64_in(d, 8, crate::server::info::FREE_UNITS);
        lemma_le64_in(d, 16, crate::server::info::FREE_UNITS);
        lemma_le32_in(d, 24, 1);
        lemma_le32_in(d, 28, 4096);
    } else {
        let d = fs_sector_info();
        assert(d.subrange(0, 4) =~= le32(4096));
        assert(d.subrange(4, 8) =~= le32(4096));
        assert(d.subrange(8, 12) =~= le32(4096));
        lemma_le32_in(d, 0, 4096);
        lemma_le32_in(d, 4, 4096);
        lemma_le32_in(d, 8, 4096);
    }
}

proof fn lemma_informs(
    info_type: u8,
    class: u8,
    attr: FileAttr,
    is_dir: bool,
    path: Seq<char>,
)
    ensures
        match info_data(info_type, class, attr, is_dir, path) {
            Ok(d) => is_offered(info_type, class) && informs(
                d,
                info_type,
                class,
                attr,
                is_dir,
                path,
            ),
            Err(status) => !is_offered(info_type, class) && status == if info_type == 1 && class
                == 22 {
                0xC000_000Du32
            } else {
                0xC000_00BBu32
            },
        },
{
    if info_type == 1 {
        lemma_basic(attr, is_dir, Seq::empty());
        assert(basic_info(attr, is_dir) + Seq::<u8>::empty() =~= basic_info(attr, is_dir));
        lemma_standard(Seq::empty(), attr, is_dir, Seq::empty());
        assert(Seq::<u8>::empty() + standard_info(attr, is_dir) + Seq::<u8>::empty()
            =~= standard_info(attr, is_dir));
        lemma_network(attr, is_dir);
        lemma_all(attr, is_dir, path);
        crate::bytes::law_le64_round_trip(0);
        crate::bytes::law_le32_round_trip(0);
        let d = le32(file_attributes(is_dir)) + le32(0);
        assert(d.subrange(0, 4) =~= le32(file_attributes(is_dir)));
        lemma_le32_in(d, 0, file_attributes(is_dir));
    } else if info_type == 2 {
        if is_offered(2, class) {
            lemma_share(class, attr, is_dir, path);
        }
    } else {
        assert(zeros(20) =~= Seq::new(20, |i: int| 0u8));
    }
}

/// An answer that tells a client what it asked for, or that there is no such
/// information.
#[verifier::opaque]
pub open spec fn is_info(
    s: StepView,
    info_type: u8,
    class: u8,
    attr: FileAttr,
    is_dir: bool,
    path: Seq<char>,
) -> bool {
    s matches StepView::Reply(r) && if is_offered(info_type, class) {
        &&& status_in(r) == 0
        &&& r.len() >= 76
        &&& le16_at(body_in(r), 0) == 9
        &&& le16_at(body_in(r), 2) == 72
        &&& r.len() <= u32::MAX ==> le32_at(body_in(r), 4) == r.len() - 76
        &&& informs(r.skip(76), info_type, class, attr, is_dir, path)
    } else {
        status_in(r) == if info_type == 1 && class == 22 {
            0xC000_000Du32
        } else {
            0xC000_00BBu32
        }
    }
}

proof fn lemma_query_goal(
    hdr: Smb2Header,
    info_type: u8,
    class: u8,
    attr: FileAttr,
    is_dir: bool,
    path: Seq<char>,
    known_dir: bool,
)
    ensures
        is_info(
            query_goal(hdr, info_type, class, is_dir, path, Ok((attr, known_dir))),
            info_type,
            class,
            attr,
            is_dir,
            path,
        ),
{
    reveal(is_info);
    lemma_informs(info_type, class, attr, is_dir, path);
    match info_data(info_type, class, attr, is_dir, path) {
        Ok(data) => {
            let b = output_body(data);
            lemma_reply(hdr, STATUS_SUCCESS, b);
            let r = crate::smb2::response(hdr, STATUS_SUCCESS, b);
            assert(b.subrange(0, 2) =~= le16(9));
            assert(b.subrange(2, 4) =~= le16(72));
            assert(b.subrange(4, 8) =~= le32(data.len() as u32));
            lemma_le16_in(b, 0, 9);
            lemma_le16_in(b, 2, 72);
            lemma_le32_in(b, 4, data.len() as u32);
            assert(r.skip(76) =~= body_in(r).skip(8));
            assert(b.skip(8) =~= data);
        },
        Err(status) => {
            lemma_refusal(hdr, status);
        },
    }
}

/// The message asks for information on something open.
pub open spec fn is_query(m: SessionModel, msg: Seq<u8>) -> bool {
    let fid = meant(m, le64_at(msg, 88));
    &&& is_request(msg, 16)
    &&& msg.len() >= 96
    &&& m.handles.contains_key(fid)
    &&& m.handles[fid].path != inhibitor_path(m.root)
}

proof fn lemma_query(m: SessionModel, msg: Seq<u8>, t: Moment)
    requires
        is_query(m, msg),
    ensures
        ({
            let h = m.handles[meant(m, le64_at(msg, 88))];
            let c = counted(m, t.now);
            let goal = Goal::QueryInfo { info_type: msg[66], class: msg[67], is_dir: h.is_dir };
            &&& message_step(m, msg, t) == stat_step(c, request_header(msg), goal, h.path, t)
            &&& c.root == m.root
            &&& c.handles == m.handles
            &&& attrs_known(c.attrs, h.path, t.now) == attrs_known(m.attrs, h.path, t.now)
            &&& absence_known(c.attrs, h.path, t.now) == absence_known(m.attrs, h.path, t.now)
        }),
{
    lemma_request(m, msg, 16, t);
    lemma_fields(msg, 24);
    let h = m.handles[meant(m, le64_at(msg, 88))];
    law_eviction_is_not_seen(m.attrs, h.path, t.now, t.now);
    assert(msg.skip(64)[2] == msg[66] && msg.skip(64)[3] == msg[67]);
}

/// A client learns of an open file what the remote side tells of the file's own
/// path, or without a question what is known of it.
#[verifier::rlimit(40)]
pub proof fn law_queries_tell_of_the_file(
    m: SessionModel,
    msg: Seq<u8>,
    t: Moment,
    attr: FileAttr,
    t1: Moment,
)
    requires
        is_query(m, msg),
        ({
            let path = m.handles[meant(m, le64_at(msg, 88))].path;
            ||| attrs_known(m.attrs, path, t.now) matches Some((known, _)) && known == attr
            ||| attrs_known(m.attrs, path, t.now) is None && !absence_known(m.attrs, path, t.now)
                && !apple_metadata(base_name(path))
        }),
    ensures
        ({
            let h = m.handles[meant(m, le64_at(msg, 88))];
            let (o, s) = message_step(m, msg, t);
            let (p, u) = carried(o, s, seq![(ReplyView::Attrs(Ok(attr)), t1)]);
            &&& attrs_known(m.attrs, h.path, t.now) is None ==> asks(
                s,
                CallOf::Lstat { path: h.path },
            )
            &&& attrs_known(m.attrs, h.path, t.now) is Some ==> s is Reply
            &&& is_info(u, msg[66], msg[67], attr, h.is_dir, h.path)
            &&& p.handles == m.handles
        }),
{
    lemma_query(m, msg, t);
    let h = m.handles[meant(m, le64_at(msg, 88))];
    let hdr = request_header(msg);
    let c = counted(m, t.now);
    let goal = Goal::QueryInfo { info_type: msg[66], class: msg[67], is_dir: h.is_dir };
    let reply: ReplyView = ReplyView::Attrs(Ok(attr));
    let is_dir = attr.perm & 0o40000 != 0;
    lemma_query_goal(hdr, msg[66], msg[67], attr, h.is_dir, h.path, is_dir);
    if let Some((_, known_dir)) = attrs_known(m.attrs, h.path, t.now) {
        lemma_query_goal(hdr, msg[66], msg[67], attr, h.is_dir, h.path, known_dir);
        reveal_with_fuel(carried, 2);
    } else {
        lemma_one_reply(
            c,
            CallOf::Lstat { path: h.path },
            hdr,
            ThenOf::Stat { goal, path: h.path },
            reply,
            t1,
        );
    }
}

/// What the remote side told of a file is known of that file for a minute, and
/// that it does not have it for half a minute.
pub proof fn law_answers_are_remembered(
    m: SessionModel,
    msg: Seq<u8>,
    t: Moment,
    attr: FileAttr,
    text: Seq<char>,
    t1: Moment,
    later: u128,
)
    requires
        is_query(m, msg),
        t1.now < crate::clock::CLOCK_END,
        ({
            let path = m.handles[meant(m, le64_at(msg, 88))].path;
            &&& attrs_known(m.attrs, path, t.now) is None
            &&& !absence_known(m.attrs, path, t.now)
            &&& !apple_metadata(base_name(path))
        }),
    ensures
        ({
            let path = m.handles[meant(m, le64_at(msg, 88))].path;
            let (o, s) = message_step(m, msg, t);
            let (p, _) = carried(o, s, seq![(ReplyView::Attrs(Ok(attr)), t1)]);
            let none = ReplyView::Attrs(Err(Fault::Status(2, text)));
            let (q, _) = carried(o, s, seq![(none, t1)]);
            &&& attrs_known(p.attrs, path, later) == if later < t1.now + 60_000_000_000 {
                Some((attr, attr.perm & 0o40000 != 0))
            } else {
                None
            }
            &&& absence_known(q.attrs, path, later) == (later < t1.now + 30_000_000_000)
        }),
{
    lemma_query(m, msg, t);
    let h = m.handles[meant(m, le64_at(msg, 88))];
    let hdr = request_header(msg);
    let c = counted(m, t.now);
    let goal = Goal::QueryInfo { info_type: msg[66], class: msg[67], is_dir: h.is_dir };
    let next: ThenView = ThenOf::Stat { goal, path: h.path };
    let call = CallOf::Lstat { path: h.path };
    let none: ReplyView = ReplyView::Attrs(Err(Fault::Status(2, text)));
    lemma_one_reply(c, call, hdr, next, ReplyView::Attrs(Ok(attr)), t1);
    lemma_one_reply(c, call, hdr, next, none, t1);
}

/// Of what the remote side does not have, or will not tell of, a client learns
/// just that.
pub proof fn law_failed_queries_are_refused(
    m: SessionModel,
    msg: Seq<u8>,
    t: Moment,
    e: Fault,
    t1: Moment,
)
    requires
        is_query(m, msg),
        attrs_known(m.attrs, m.handles[meant(m, le64_at(msg, 88))].path, t.now) is None,
    ensures
        ({
            let path = m.handles[meant(m, le64_at(msg, 88))].path;
            let known = absence_known(m.attrs, path, t.now) || apple_metadata(base_name(path));
            let (o, s) = message_step(m, msg, t);
            let reply = ReplyView::Attrs(Err(e));
            let (_, u) = carried(o, s, seq![(reply, t1)]);
            u matches StepView::Reply(r) && status_in(r) == if known || (e matches Fault::Status(code, _) && code == 2) {
                0xC000_0034u32
            } else {
                0xC000_0022u32
            }
        }),
{
    lemma_query(m, msg, t);
    let h = m.handles[meant(m, le64_at(msg, 88))];
    let hdr = request_header(msg);
    let c = counted(m, t.now);
    let goal = Goal::QueryInfo { info_type: msg[66], class: msg[67], is_dir: h.is_dir };
    let reply: ReplyView = ReplyView::Attrs(Err(e));
    lemma_refusal(hdr, STATUS_OBJECT_NAME_NOT_FOUND);
    lemma_refusal(hdr, STATUS_ACCESS_DENIED);
    lemma_one_reply(
        c,
        CallOf::Lstat { path: h.path },
        hdr,
        ThenOf::Stat { goal, path: h.path },
        reply,
        t1,
    );
    reveal_with_fuel(carried, 2);
}

// ── Changes ─────────────────────────────────────────────────────────

/// The data of a SET_INFO request; none where it does not lie within it.
pub open spec fn asked_change(msg: Seq<u8>) -> Seq<u8> {
    let at = le16_at(msg, 72) as int;
    let n = le32_at(msg, 68) as int;
    if has_part(msg, at, n) {
        part_at(msg, at, n)
    } else {
        Seq::empty()
    }
}

/// The message changes something of an open file, in that class.
pub open spec fn is_change(m: SessionModel, msg: Seq<u8>, class: u8) -> bool {
    &&& is_request(msg, 17)
    &&& msg.len() >= 88
    &&& msg[66] == 1
    &&& msg[67] == class
    &&& m.handles.contains_key(meant(m, le64_at(msg, 80)))
}

/// The session knows nothing of a path and of the listing that it stands in.
pub open spec fn knows_nothing_of(m: SessionModel, path: Seq<char>) -> bool {
    &&& forall|now: u128| attrs_known(m.attrs, path, now) is None
    &&& forall|now: u128| !absence_known(m.attrs, path, now)
    &&& crate::text::parent_of(path) matches Some(dir) ==> !m.dirs.contains_key(dir)
}

/// The answer to a change that was made.
pub open spec fn is_done(s: StepView) -> bool {
    s matches StepView::Reply(r) && status_in(r) == 0 && r.len() == 70 && le16_at(body_in(r), 0)
        == 2
}

proof fn lemma_done(hdr: Smb2Header)
    ensures
        is_done(answered(hdr, STATUS_SUCCESS, set_body())),
{
    lemma_reply(hdr, STATUS_SUCCESS, set_body());
    crate::bytes::law_le16_round_trip(2);
}

proof fn lemma_forgotten(m: SessionModel, path: Seq<char>)
    ensures
        knows_nothing_of(forgotten(m, path), path),
        forall|other: Seq<char>|
            knows_nothing_of(m, other) ==> #[trigger] knows_nothing_of(forgotten(m, path), other),
{
    let f = forgotten(m, path);
    assert forall|now: u128| attrs_known(f.attrs, path, now) is None && !absence_known(
        f.attrs,
        path,
        now,
    ) by {
        law_invalidated_is_unknown(m.attrs, path, now);
    }
    assert forall|other: Seq<char>| knows_nothing_of(m, other) implies #[trigger] knows_nothing_of(
        f,
        other,
    ) by {
        assert forall|now: u128| attrs_known(f.attrs, other, now) is None by {
            assert(attrs_known(m.attrs, other, now) is None);
            law_invalidated_is_unknown(m.attrs, path, now);
        }
        assert forall|now: u128| !absence_known(f.attrs, other, now) by {
            assert(!absence_known(m.attrs, other, now));
            law_invalidated_is_unknown(m.attrs, path, now);
        }
    }
}

#[verifier::rlimit(40)]
proof fn lemma_change(m: SessionModel, msg: Seq<u8>, t: Moment, class: u8)
    requires
        is_change(m, msg, class),
    ensures
        ({
            let c = counted(m, t.now);
            let body = msg.skip(64);
            &&& message_step(m, msg, t) == set_info_step(c, request_header(msg), body, t)
            &&& set_data(body) == asked_change(msg)
            &&& body.len() >= 24
            &&& body[2] == 1
            &&& body[3] == class
            &&& le64_at(body, 16) == le64_at(msg, 80)
            &&& meant(c, le64_at(msg, 80)) == meant(m, le64_at(msg, 80))
            &&& c.root == m.root
            &&& c.handles == m.handles
        }),
{
    lemma_request(m, msg, 17, t);
    lemma_change_data(msg);
}

proof fn lemma_change_data(msg: Seq<u8>)
    requires
        msg.len() >= 88,
    ensures
        set_data(msg.skip(64)) == asked_change(msg),
        msg.skip(64)[2] == msg[66],
        msg.skip(64)[3] == msg[67],
        le64_at(msg.skip(64), 16) == le64_at(msg, 80),
{
    lemma_fields(msg, 4);
    lemma_fields(msg, 8);
    lemma_fields(msg, 16);
    let at = le16_at(msg, 72) as int;
    let n = le32_at(msg, 68) as int;
    let start: int = if at < 64 {
        0
    } else {
        at - 64
    };
    if start + n <= msg.skip(64).len() {
        assert(msg.skip(64).subrange(start, start + n) =~= part_at(msg, at, n));
    }
}

/// Renaming moves the open file from its own path to the one that the request
/// names. Once the remote side has done it, the handle is for the new path, no
/// other handle has changed, and nothing is known of either path.
#[verifier::rlimit(40)]
pub proof fn law_renames_move_the_file(
    m: SessionModel,
    msg: Seq<u8>,
    t: Moment,
    e: Fault,
    t1: Moment,
)
    requires
        is_change(m, msg, 10),
        asked_change(msg).len() >= 24,
        20 + le32_at(asked_change(msg), 16) <= asked_change(msg).len(),
    ensures
        ({
            let fid = meant(m, le64_at(msg, 80));
            let h = m.handles[fid];
            let d = asked_change(msg);
            let to = remote_path(
                m.root,
                utf16le_text(d.subrange(20, 20 + le32_at(d, 16))),
            );
            let (o, s) = message_step(m, msg, t);
            let (p, u) = carried(o, s, seq![(ReplyView::Nothing(Ok(())), t1)]);
            let (q, v) = carried(o, s, seq![(ReplyView::Nothing(Err(e)), t1)]);
            &&& asks(s, CallOf::Rename { from: h.path, to })
            &&& is_done(u)
            &&& p.handles.contains_key(fid)
            &&& p.handles[fid].path == to
            &&& p.handles[fid].remote == h.remote
            &&& p.handles[fid].is_dir == h.is_dir
            &&& p.handles.remove(fid) == m.handles.remove(fid)
            &&& knows_nothing_of(p, h.path)
            &&& knows_nothing_of(p, to)
            &&& v matches StepView::Reply(r) && status_in(r) == 0xC000_0022
            &&& q.handles == m.handles
        }),
{
    lemma_change(m, msg, t, 10);
    let fid = meant(m, le64_at(msg, 80));
    let h = m.handles[fid];
    let d = asked_change(msg);
    let to = remote_path(m.root, utf16le_text(d.subrange(20, 20 + le32_at(d, 16))));
    let hdr = request_header(msg);
    let c = counted(m, t.now);
    let call = CallOf::Rename { from: h.path, to };
    let next: ThenView = ThenOf::Renamed { fid, from: h.path, to };
    lemma_one_reply(c, call, hdr, next, ReplyView::Nothing(Ok(())), t1);
    lemma_one_reply(c, call, hdr, next, ReplyView::Nothing(Err(e)), t1);
    lemma_done(hdr);
    lemma_refusal(hdr, STATUS_ACCESS_DENIED);
    let a = forgotten(c, h.path);
    lemma_forgotten(c, h.path);
    lemma_forgotten(a, to);
    let (p, _) = crate::server::info::renamed_step(
        c,
        hdr,
        fid,
        h.path,
        to,
        ReplyView::Nothing(Ok(())),
    );
    assert(knows_nothing_of(forgotten(a, to), h.path));
    assert(knows_nothing_of(forgotten(a, to), to));
    assert(p.attrs == forgotten(a, to).attrs && p.dirs == forgotten(a, to).dirs);
    assert(p.handles.remove(fid) =~= m.handles.remove(fid));
}

/// A request to delete removes the open file itself, as a directory exactly where
/// it is one. A request that takes the wish back removes nothing.
#[verifier::rlimit(40)]
pub proof fn law_deletes_remove_the_file(
    m: SessionModel,
    msg: Seq<u8>,
    t: Moment,
    e: Fault,
    t1: Moment,
)
    requires
        is_change(m, msg, 13),
        asked_change(msg).len() > 0,
    ensures
        ({
            let h = m.handles[meant(m, le64_at(msg, 80))];
            let (o, s) = message_step(m, msg, t);
            let (p, u) = carried(o, s, seq![(ReplyView::Nothing(Ok(())), t1)]);
            let (q, v) = carried(o, s, seq![(ReplyView::Nothing(Err(e)), t1)]);
            if asked_change(msg)[0] == 0 {
                &&& is_done(s)
                &&& o.handles == m.handles
            } else {
                &&& if h.is_dir {
                    asks(s, CallOf::Rmdir { path: h.path })
                } else {
                    asks(s, CallOf::Remove { path: h.path })
                }
                &&& is_done(u)
                &&& knows_nothing_of(p, h.path)
                &&& p.handles == m.handles
                &&& v matches StepView::Reply(r) && status_in(r) == 0xC000_0022
                &&& q.handles == m.handles
            }
        }),
{
    lemma_change(m, msg, t, 13);
    let h = m.handles[meant(m, le64_at(msg, 80))];
    let hdr = request_header(msg);
    let c = counted(m, t.now);
    let call = if h.is_dir {
        CallOf::Rmdir { path: h.path }
    } else {
        CallOf::Remove { path: h.path }
    };
    let next: ThenView = ThenOf::Removed { path: h.path };
    lemma_one_reply(c, call, hdr, next, ReplyView::Nothing(Ok(())), t1);
    lemma_one_reply(c, call, hdr, next, ReplyView::Nothing(Err(e)), t1);
    lemma_done(hdr);
    lemma_refusal(hdr, STATUS_ACCESS_DENIED);
    lemma_forgotten(c, h.path);
}

/// The second that a time in a request falls into; 0 leaves the time as it is.
pub open spec fn is_time_for(secs: u32, asked: u64, old_secs: u32) -> bool {
    if asked == 0 {
        secs == old_secs
    } else {
        ticks(0) <= asked < ticks(u32::MAX) ==> ticks(secs) <= asked < ticks(secs) + 10_000_000
    }
}

proof fn lemma_with_times(attr: FileAttr, atime: u64, mtime: u64)
    ensures
        ({
            let a = with_times(attr, atime, mtime);
            &&& a.size == attr.size
            &&& a.uid == attr.uid
            &&& a.gid == attr.gid
            &&& a.perm == attr.perm
            &&& is_time_for(a.atime, atime, attr.atime)
            &&& is_time_for(a.mtime, mtime, attr.mtime)
        }),
{
}

/// Setting times sets, on the open file's own path, the times that the request
/// gives, to the second, and leaves all else as the remote side tells it. It
/// succeeds whatever the remote side says to it, and nothing is known of the path
/// afterwards.
#[verifier::rlimit(40)]
pub proof fn law_times_are_set(
    m: SessionModel,
    msg: Seq<u8>,
    t: Moment,
    attr: FileAttr,
    t1: Moment,
    reply: ReplyView,
    t2: Moment,
)
    requires
        is_change(m, msg, 4),
        asked_change(msg).len() >= 36,
        ({
            let path = m.handles[meant(m, le64_at(msg, 80))].path;
            &&& path != inhibitor_path(m.root)
            &&& attrs_known(m.attrs, path, t.now) is None
            &&& !absence_known(m.attrs, path, t.now)
            &&& !apple_metadata(base_name(path))
        }),
    ensures
        ({
            let h = m.handles[meant(m, le64_at(msg, 80))];
            let d = asked_change(msg);
            let (o, s) = message_step(m, msg, t);
            let (p, u) = carried(o, s, seq![(ReplyView::Attrs(Ok(attr)), t1)]);
            let (q, v) = carried(p, u, seq![(reply, t2)]);
            &&& asks(s, CallOf::Lstat { path: h.path })
            &&& u matches StepView::Ask(CallOf::Setstat { path, attrs }, _, _) && {
                &&& path == h.path
                &&& attrs.size == attr.size
                &&& attrs.uid == attr.uid
                &&& attrs.gid == attr.gid
                &&& attrs.perm == attr.perm
                &&& is_time_for(attrs.atime, le64_at(d, 8), attr.atime)
                &&& is_time_for(attrs.mtime, le64_at(d, 16), attr.mtime)
            }
            &&& is_done(v)
            &&& knows_nothing_of(q, h.path)
            &&& q.handles == m.handles
        }),
{
    lemma_change(m, msg, t, 4);
    let h = m.handles[meant(m, le64_at(msg, 80))];
    let d = asked_change(msg);
    let hdr = request_header(msg);
    let c = counted(m, t.now);
    law_eviction_is_not_seen(m.attrs, h.path, t.now, t.now);
    let atime = le64_at(d, 8);
    let mtime = le64_at(d, 16);
    let goal = Goal::SetTimes { atime, mtime };
    let told: ReplyView = ReplyView::Attrs(Ok(attr));
    lemma_one_reply(
        c,
        CallOf::Lstat { path: h.path },
        hdr,
        ThenOf::Stat { goal, path: h.path },
        told,
        t1,
    );
    let p = learnt(c, h.path, told, t1.now);
    lemma_with_times(attr, atime, mtime);
    lemma_one_reply(
        p,
        CallOf::Setstat { path: h.path, attrs: with_times(attr, atime, mtime) },
        hdr,
        ThenOf::TimesSet { path: h.path },
        reply,
        t2,
    );
    lemma_done(hdr);
    lemma_forgotten(p, h.path);
}

/// Where the attributes are known, the times are set without a question; where it
/// is known that there is no such file, nothing is done.
pub proof fn law_known_times_are_set_at_once(m: SessionModel, msg: Seq<u8>, t: Moment)
    requires
        is_change(m, msg, 4),
        asked_change(msg).len() >= 36,
        ({
            let path = m.handles[meant(m, le64_at(msg, 80))].path;
            &&& path != inhibitor_path(m.root)
            &&& attrs_known(m.attrs, path, t.now) is Some || absence_known(m.attrs, path, t.now)
        }),
    ensures
        ({
            let h = m.handles[meant(m, le64_at(msg, 80))];
            let d = asked_change(msg);
            let (_, s) = message_step(m, msg, t);
            match attrs_known(m.attrs, h.path, t.now) {
                Some((attr, _)) => s matches StepView::Ask(CallOf::Setstat { path, attrs }, _, _) && {
                    &&& path == h.path
                    &&& attrs.size == attr.size
                    &&& attrs.uid == attr.uid
                    &&& attrs.gid == attr.gid
                    &&& attrs.perm == attr.perm
                    &&& is_time_for(attrs.atime, le64_at(d, 8), attr.atime)
                    &&& is_time_for(attrs.mtime, le64_at(d, 16), attr.mtime)
                },
                None => is_done(s),
            }
        }),
{
    lemma_change(m, msg, t, 4);
    let h = m.handles[meant(m, le64_at(msg, 80))];
    let d = asked_change(msg);
    law_eviction_is_not_seen(m.attrs, h.path, t.now, t.now);
    lemma_done(request_header(msg));
    if let Some((attr, _)) = attrs_known(m.attrs, h.path, t.now) {
        lemma_with_times(attr, le64_at(d, 8), le64_at(d, 16));
    }
}

/// Every other change is said to be done, without anything being done: the remote
/// side is not asked, and no handle changes. A new name that does not lie within
/// its request is refused.
#[verifier::rlimit(40)]
pub proof fn law_other_changes_do_nothing(m: SessionModel, msg: Seq<u8>, t: Moment)
    requires
        is_request(msg, 17),
        msg.len() >= 88,
        m.handles.contains_key(meant(m, le64_at(msg, 80))),
        ({
            let d = asked_change(msg);
            let path = m.handles[meant(m, le64_at(msg, 80))].path;
            msg[66] == 1 ==> {
                &&& msg[67] == 4 ==> d.len() < 36 || path == inhibitor_path(m.root)
                &&& msg[67] == 13 ==> d.len() == 0
                &&& msg[67] == 10 ==> d.len() < 24 || 20 + le32_at(d, 16) > d.len()
            }
        }),
    ensures
        ({
            let (o, s) = message_step(m, msg, t);
            &&& o.handles == m.handles
            &&& if msg[66] == 1 && msg[67] == 10 {
                s matches StepView::Reply(r) && status_in(r) == 0xC000_000D
            } else {
                is_done(s)
            }
        }),
{
    lemma_request(m, msg, 17, t);
    lemma_fields(msg, 16);
    assert(msg.skip(64)[2] == msg[66] && msg.skip(64)[3] == msg[67]);
    let hdr = request_header(msg);
    lemma_done(hdr);
    lemma_refusal(hdr, STATUS_INVALID_PARAMETER);
    if msg[66] == 1 {
        lemma_change(m, msg, t, msg[67]);
    }
}

} // verus!

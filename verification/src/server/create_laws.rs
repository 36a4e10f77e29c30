//! What a client gets that opens, creates or closes a file of the share.

use crate::bytes::{
    lemma_le16_in, lemma_le32_in, lemma_le64_in, le16, le16_at, le32, le32_at, le64, le64_at,
};
use crate::server::asked::{
    asks, body_in, carried, has_part, is_request, lemma_fields, lemma_one_reply, lemma_refusal,
    lemma_reply, lemma_request, meant, part_at, request_header, status_in,
};
use crate::server::cache::{
    absence_known, attrs_known, law_eviction_is_not_seen, law_invalidated_is_unknown,
};
use crate::server::create::{
    close_body, create_body, create_file_step, create_name, create_step, file_attributes, opened,
    opened_pipe,
};
use crate::server::dispatch::message_step;
use crate::server::handles::HandleModel;
use crate::server::pattern::apple_metadata;
use crate::server::stat::stat_step;
use crate::server::state::{counted, forgotten, inhibitor_path, learnt, remote_path, SessionModel};
use crate::server::step::{Goal, Moment, StepView, ThenOf};
use crate::sftp::call::{CallOf, ReplyView};
use crate::smb2::{
    filetime, response, Smb2Header, FILE_ATTRIBUTE_NORMAL, STATUS_ACCESS_DENIED,
    STATUS_INVALID_PARAMETER, STATUS_OBJECT_NAME_COLLISION, STATUS_OBJECT_NAME_NOT_FOUND,
    STATUS_SUCCESS,
};
use crate::text::{base_name, lower_all};
use crate::utf16::utf16le_text;
use crate::wire::{Fault, FileAttr};
use vstd::prelude::*;

verus! {

/// The name that a CREATE request holds.
pub open spec fn asked_name(msg: Seq<u8>) -> Seq<char> {
    if has_part(msg, le16_at(msg, 108) as int, le16_at(msg, 110) as int) {
        utf16le_text(part_at(msg, le16_at(msg, 108) as int, le16_at(msg, 110) as int))
    } else {
        Seq::empty()
    }
}

/// The message is a CREATE request for something on the share of files.
pub open spec fn is_create(m: SessionModel, msg: Seq<u8>) -> bool {
    &&& is_request(msg, 5)
    &&& msg.len() >= 112
    &&& m.ipc_tree_id != Some(le32_at(msg, 36))
    &&& asked_name(msg) != ".metadata_never_index"@
    &&& remote_path(m.root, asked_name(msg)) != inhibitor_path(m.root)
}

/// Where a time in whole seconds since 1970 stands in a response: in steps of
/// 100 ns since 1601.
pub open spec fn ticks(secs: u32) -> int {
    (secs + 11_644_473_600) * 10_000_000
}

/// The handle that the client gets: for that path, not open on the remote side,
/// with nothing read or listed yet.
pub open spec fn is_new_handle(h: HandleModel, path: Seq<char>, is_dir: bool, is_pipe: bool) -> bool {
    &&& h.path == path
    &&& h.is_dir == is_dir
    &&& h.is_pipe == is_pipe
    &&& h.remote is None
    &&& h.answer is None
    &&& h.entries is None
    &&& h.dir_offset == 0
    &&& h.ahead is None
}

/// The answer that opens a file or directory with those attributes.
#[verifier::opaque]
pub open spec fn is_opened(
    m: SessionModel,
    o: SessionModel,
    s: StepView,
    path: Seq<char>,
    attr: FileAttr,
) -> bool {
    let is_dir = attr.perm & 0o40000 != 0;
    let id = m.next_handle;
    &&& s matches StepView::Reply(r) && status_in(r) == 0 && r.len() == 68 + 89 && ({
        let b = body_in(r);
        &&& le16_at(b, 0) == 89
        &&& le32_at(b, 4) == 1
        &&& le64_at(b, 8) == ticks(attr.mtime)
        &&& le64_at(b, 16) == ticks(attr.atime)
        &&& le64_at(b, 24) == ticks(attr.mtime)
        &&& le64_at(b, 32) == ticks(attr.mtime)
        &&& le64_at(b, 40) == attr.size
        &&& le64_at(b, 48) == attr.size
        &&& le32_at(b, 56) == if is_dir {
            0x10u32
        } else {
            0x20u32
        }
        &&& le64_at(b, 64) == id
        &&& le64_at(b, 72) == id
    })
    &&& o.handles.contains_key(id)
    &&& is_new_handle(o.handles[id], path, is_dir, false)
    &&& o.last_create_handle == id
    &&& o.next_handle == id + 1
    &&& o.handles.remove(id) == m.handles.remove(id)
}

proof fn lemma_create_body(
    written: u64,
    accessed: u64,
    size: u64,
    attributes: u32,
    id: u64,
    tail: Seq<u8>,
)
    ensures
        ({
            let b = create_body(written, accessed, size, attributes, id) + tail;
            &&& b.len() == 88 + tail.len()
            &&& le16_at(b, 0) == 89
            &&& le32_at(b, 4) == 1
            &&& le64_at(b, 8) == written
            &&& le64_at(b, 16) == accessed
            &&& le64_at(b, 24) == written
            &&& le64_at(b, 32) == written
            &&& le64_at(b, 40) == size
            &&& le64_at(b, 48) == size
            &&& le32_at(b, 56) == attributes
            &&& le64_at(b, 64) == id
            &&& le64_at(b, 72) == id
        }),
{
    let b = create_body(written, accessed, size, attributes, id) + tail;
    assert(b.subrange(0, 2) =~= le16(89));
    assert(b.subrange(4, 8) =~= le32(1));
    assert(b.subrange(8, 16) =~= le64(written));
    assert(b.subrange(16, 24) =~= le64(accessed));
    assert(b.subrange(24, 32) =~= le64(written));
    assert(b.subrange(32, 40) =~= le64(written));
    assert(b.subrange(40, 48) =~= le64(size));
    assert(b.subrange(48, 56) =~= le64(size));
    assert(b.subrange(56, 60) =~= le32(attributes));
    assert(b.subrange(64, 72) =~= le64(id));
    assert(b.subrange(72, 80) =~= le64(id));
    lemma_le16_in(b, 0, 89);
    lemma_le32_in(b, 4, 1);
    lemma_le64_in(b, 8, written);
    lemma_le64_in(b, 16, accessed);
    lemma_le64_in(b, 24, written);
    lemma_le64_in(b, 32, written);
    lemma_le64_in(b, 40, size);
    lemma_le64_in(b, 48, size);
    lemma_le32_in(b, 56, attributes);
    lemma_le64_in(b, 64, id);
    lemma_le64_in(b, 72, id);
}

pub(crate) proof fn lemma_opened(
    m: SessionModel,
    n: SessionModel,
    hdr: Smb2Header,
    path: Seq<char>,
    attr: FileAttr,
)
    requires
        m.next_handle < u64::MAX,
        n.next_handle == m.next_handle,
        n.handles == m.handles,
    ensures
        ({
            let (o, s) = opened(n, hdr, path, attr, attr.perm & 0o40000 != 0);
            is_opened(m, o, s, path, attr)
        }),
{
    reveal(is_opened);
    let is_dir = attr.perm & 0o40000 != 0;
    let (o, s) = opened(n, hdr, path, attr, is_dir);
    let mtime = filetime(attr.mtime as u64);
    let atime = filetime(attr.atime as u64);
    let b = create_body(mtime, atime, attr.size, file_attributes(is_dir), m.next_handle) + seq![0u8];
    lemma_create_body(mtime, atime, attr.size, file_attributes(is_dir), m.next_handle, seq![0u8]);
    lemma_reply(hdr, STATUS_SUCCESS, b);
    assert(o.handles.remove(m.next_handle) =~= m.handles.remove(m.next_handle));
}

pub(crate) proof fn lemma_name(msg: Seq<u8>)
    requires
        msg.len() >= 112,
    ensures
        create_name(msg.skip(64)) == asked_name(msg),
{
    lemma_fields(msg, 44);
    lemma_fields(msg, 46);
    let at = le16_at(msg, 108) as int;
    let n = le16_at(msg, 110) as int;
    let start: int = if at < 64 {
        0
    } else {
        at - 64
    };
    if start + n <= msg.skip(64).len() {
        assert(msg.skip(64).subrange(start, start + n) =~= part_at(msg, at, n));
    }
}

proof fn lemma_started(m: SessionModel, msg: Seq<u8>, t: Moment)
    requires
        is_create(m, msg),
    ensures
        ({
            let hdr = request_header(msg);
            let c = counted(m, t.now);
            let path = remote_path(m.root, asked_name(msg));
            let body = msg.skip(64);
            &&& message_step(m, msg, t) == create_file_step(c, hdr, body, t)
            &&& create_name(body) == asked_name(msg)
            &&& le32_at(body, 36) == le32_at(msg, 100)
            &&& le32_at(body, 40) == le32_at(msg, 104)
            &&& c.root == m.root
            &&& c.handles == m.handles
            &&& c.next_handle == m.next_handle
            &&& attrs_known(c.attrs, path, t.now) == attrs_known(m.attrs, path, t.now)
            &&& absence_known(c.attrs, path, t.now) == absence_known(m.attrs, path, t.now)
        }),
{
    lemma_request(m, msg, 5, t);
    lemma_fields(msg, 36);
    lemma_fields(msg, 40);
    let path = remote_path(m.root, asked_name(msg));
    law_eviction_is_not_seen(m.attrs, path, t.now, t.now);
    lemma_name(msg);
}

/// What is made where nothing is: a directory, or an empty file.
pub open spec fn makes(s: StepView, path: Seq<char>, options: u32, disposition: u32) -> bool {
    if options & 1 != 0 {
        asks(s, CallOf::Mkdir { path, mode: 0o755 })
    } else {
        // to create (8), to read (1) and to write (2); to create, to write and to empty (0x10)
        asks(
            s,
            CallOf::Open {
                path,
                flags: if disposition == 3 {
                    0x0B
                } else {
                    0x1A
                },
                mode: 0o644,
            },
        )
    }
}

proof fn lemma_flags()
    ensures
        crate::server::create::OPEN_IF_FLAGS == 11,
        crate::server::create::NEW_FILE_FLAGS == 26,
{
    assert(8u32 | 1u32 | 2u32 == 11u32) by (bit_vector);
    assert(8u32 | 2u32 | 16u32 == 26u32) by (bit_vector);
}

/// Creating something that does not exist makes a directory exactly where the
/// request asks for one, and otherwise a file, under the path that the request
/// names. This holds where the remote side says that the path does not exist, and
/// without a question where that is already known.
pub proof fn law_creates_make_what_they_ask_for(
    m: SessionModel,
    msg: Seq<u8>,
    t: Moment,
    e: Fault,
    t1: Moment,
)
    requires
        is_create(m, msg),
        le32_at(msg, 100) == 2 || le32_at(msg, 100) == 3,
        attrs_known(m.attrs, remote_path(m.root, asked_name(msg)), t.now) is None,
    ensures
        ({
            let path = remote_path(m.root, asked_name(msg));
            let (o, s) = message_step(m, msg, t);
            let reply = ReplyView::Attrs(Err(e));
            let (_, u) = carried(o, s, seq![(reply, t1)]);
            if absence_known(m.attrs, path, t.now) || apple_metadata(base_name(path)) {
                makes(s, path, le32_at(msg, 104), le32_at(msg, 100))
            } else {
                &&& asks(s, CallOf::Lstat { path })
                &&& makes(u, path, le32_at(msg, 104), le32_at(msg, 100))
            }
        }),
{
    lemma_started(m, msg, t);
    lemma_flags();
    let path = remote_path(m.root, asked_name(msg));
    let hdr = request_header(msg);
    let c = counted(m, t.now);
    let reply: ReplyView = ReplyView::Attrs(Err(e));
    let want_dir = le32_at(msg, 104) & 1 != 0;
    let goal = if le32_at(msg, 100) == 3 {
        Goal::OpenOrCreate { want_dir }
    } else {
        Goal::CreateNew { want_dir }
    };
    assert(create_file_step(c, hdr, msg.skip(64), t) == stat_step(c, hdr, goal, path, t));
    lemma_one_reply(
        c,
        CallOf::Lstat { path },
        hdr,
        ThenOf::Stat { goal, path },
        reply,
        t1,
    );
}

/// What exists is opened with the attributes that it has, unless the request is to
/// create something new: that is refused, and nothing is made. The attributes
/// are those that the remote side tells, or without a question the ones that are
/// known.
#[verifier::rlimit(40)]
pub proof fn law_creates_open_what_exists(
    m: SessionModel,
    msg: Seq<u8>,
    t: Moment,
    attr: FileAttr,
    t1: Moment,
)
    requires
        is_create(m, msg),
        le32_at(msg, 100) <= 3,
        m.next_handle < u64::MAX,
        ({
            let path = remote_path(m.root, asked_name(msg));
            ||| attrs_known(m.attrs, path, t.now) == Some((attr, attr.perm & 0o40000 != 0))
            ||| attrs_known(m.attrs, path, t.now) is None && !absence_known(m.attrs, path, t.now)
                && !apple_metadata(base_name(path))
        }),
    ensures
        ({
            let path = remote_path(m.root, asked_name(msg));
            let (o, s) = message_step(m, msg, t);
            let (p, u) = carried(o, s, seq![(ReplyView::Attrs(Ok(attr)), t1)]);
            &&& attrs_known(m.attrs, path, t.now) is None ==> asks(s, CallOf::Lstat { path })
            &&& attrs_known(m.attrs, path, t.now) is Some ==> s is Reply
            &&& if le32_at(msg, 100) == 2 {
                &&& u matches StepView::Reply(r) && status_in(r) == 0xC000_0035
                &&& p.handles == m.handles
            } else {
                is_opened(m, p, u, path, attr)
            }
        }),
{
    lemma_started(m, msg, t);
    let path = remote_path(m.root, asked_name(msg));
    let hdr = request_header(msg);
    let c = counted(m, t.now);
    let reply: ReplyView = ReplyView::Attrs(Ok(attr));
    let want_dir = le32_at(msg, 104) & 1 != 0;
    let goal = if le32_at(msg, 100) == 3 {
        Goal::OpenOrCreate { want_dir }
    } else if le32_at(msg, 100) == 2 {
        Goal::CreateNew { want_dir }
    } else {
        Goal::Existing
    };
    assert(create_file_step(c, hdr, msg.skip(64), t) == stat_step(c, hdr, goal, path, t));
    lemma_one_reply(
        c,
        CallOf::Lstat { path },
        hdr,
        ThenOf::Stat { goal, path },
        reply,
        t1,
    );
    lemma_refusal(hdr, STATUS_OBJECT_NAME_COLLISION);
    lemma_opened(m, c, hdr, path, attr);
    lemma_opened(m, learnt(c, path, reply, t1.now), hdr, path, attr);
    reveal_with_fuel(carried, 2);
}

/// Opening what does not exist is refused, with the status that says so where the
/// remote side says it, and nothing is made.
pub proof fn law_opens_make_nothing(
    m: SessionModel,
    msg: Seq<u8>,
    t: Moment,
    e: Fault,
    t1: Moment,
)
    requires
        is_create(m, msg),
        le32_at(msg, 100) <= 1,
        attrs_known(m.attrs, remote_path(m.root, asked_name(msg)), t.now) is None,
    ensures
        ({
            let path = remote_path(m.root, asked_name(msg));
            let (o, s) = message_step(m, msg, t);
            let reply = ReplyView::Attrs(Err(e));
            let (p, u) = carried(o, s, seq![(reply, t1)]);
            let known = absence_known(m.attrs, path, t.now) || apple_metadata(base_name(path));
            &&& !known ==> asks(s, CallOf::Lstat { path })
            &&& known ==> s is Reply
            &&& u matches StepView::Reply(r) && status_in(r) == if known || (e matches Fault::Status(code, _) && code == 2) {
                0xC000_0034u32
            } else {
                0xC000_0022u32
            }
            &&& p.handles == m.handles
        }),
{
    lemma_started(m, msg, t);
    let path = remote_path(m.root, asked_name(msg));
    let hdr = request_header(msg);
    let c = counted(m, t.now);
    let reply: ReplyView = ReplyView::Attrs(Err(e));
    assert(create_file_step(c, hdr, msg.skip(64), t) == stat_step(c, hdr, Goal::Existing, path, t));
    lemma_one_reply(
        c,
        CallOf::Lstat { path },
        hdr,
        ThenOf::Stat { goal: Goal::Existing, path },
        reply,
        t1,
    );
    lemma_refusal(hdr, STATUS_OBJECT_NAME_NOT_FOUND);
    lemma_refusal(hdr, STATUS_ACCESS_DENIED);
    reveal_with_fuel(carried, 2);
}

/// Overwriting empties or creates the file without asking whether it exists.
pub proof fn law_overwrites_empty_the_file(m: SessionModel, msg: Seq<u8>, t: Moment)
    requires
        is_create(m, msg),
        le32_at(msg, 100) == 4 || le32_at(msg, 100) == 5,
    ensures
        asks(
            message_step(m, msg, t).1,
            CallOf::Open {
                path: remote_path(m.root, asked_name(msg)),
                flags: 0x1A,
                mode: 0o644,
            },
        ),
{
    lemma_started(m, msg, t);
    lemma_flags();
}

/// A request with a disposition that there is not is refused.
pub proof fn law_unknown_dispositions_are_refused(m: SessionModel, msg: Seq<u8>, t: Moment)
    requires
        is_create(m, msg),
        le32_at(msg, 100) > 5,
    ensures
        message_step(m, msg, t).1 matches StepView::Reply(r) && status_in(r) == 0xC000_000D,
{
    lemma_started(m, msg, t);
    lemma_refusal(request_header(msg), STATUS_INVALID_PARAMETER);
}

proof fn lemma_stat_after(
    m: SessionModel,
    p: SessionModel,
    hdr: Smb2Header,
    path: Seq<char>,
    attr: FileAttr,
    t: Moment,
    t1: Moment,
)
    requires
        m.next_handle < u64::MAX,
        p.next_handle == m.next_handle,
        p.handles == m.handles,
        p.root == m.root,
        path != inhibitor_path(m.root),
        !apple_metadata(base_name(path)),
    ensures
        ({
            let (o, s) = stat_step(forgotten(p, path), hdr, Goal::Existing, path, t);
            let (q, u) = carried(o, s, seq![(ReplyView::Attrs(Ok(attr)), t1)]);
            &&& asks(s, CallOf::Lstat { path })
            &&& is_opened(m, q, u, path, attr)
        }),
{
    let reply: ReplyView = ReplyView::Attrs(Ok(attr));
    let f = forgotten(p, path);
    law_invalidated_is_unknown(p.attrs, path, t.now);
    lemma_one_reply(
        f,
        CallOf::Lstat { path },
        hdr,
        ThenOf::Stat { goal: Goal::Existing, path },
        reply,
        t1,
    );
    lemma_opened(m, learnt(f, path, reply, t1.now), hdr, path, attr);
}

/// A directory that was made is opened with the attributes that the remote side
/// then tells.
#[verifier::rlimit(40)]
pub proof fn law_made_directories_are_opened(
    m: SessionModel,
    msg: Seq<u8>,
    t: Moment,
    attr: FileAttr,
    t1: Moment,
    t2: Moment,
)
    requires
        is_create(m, msg),
        le32_at(msg, 100) == 2 || le32_at(msg, 100) == 3,
        le32_at(msg, 104) & 1 != 0,
        m.next_handle < u64::MAX,
        ({
            let path = remote_path(m.root, asked_name(msg));
            &&& attrs_known(m.attrs, path, t.now) is None
            &&& absence_known(m.attrs, path, t.now)
            &&& !apple_metadata(base_name(path))
        }),
    ensures
        ({
            let path = remote_path(m.root, asked_name(msg));
            let (o, s) = message_step(m, msg, t);
            let (p, u) = carried(o, s, seq![(ReplyView::Nothing(Ok(())), t1)]);
            let (q, v) = carried(p, u, seq![(ReplyView::Attrs(Ok(attr)), t2)]);
            &&& asks(s, CallOf::Mkdir { path, mode: 0o755 })
            &&& asks(u, CallOf::Lstat { path })
            &&& is_opened(m, q, v, path, attr)
        }),
{
    lemma_started(m, msg, t);
    let path = remote_path(m.root, asked_name(msg));
    let hdr = request_header(msg);
    let c = counted(m, t.now);
    lemma_one_reply(
        c,
        CallOf::Mkdir { path, mode: 0o755 },
        hdr,
        ThenOf::Made { path },
        ReplyView::Nothing(Ok(())),
        t1,
    );
    lemma_stat_after(m, c, hdr, path, attr, t1, t2);
}

/// A file that was created is closed on the remote side with the handle that it
/// was given, and then opened with the attributes that the remote side tells.
#[verifier::rlimit(40)]
pub proof fn law_created_files_are_opened(
    m: SessionModel,
    msg: Seq<u8>,
    t: Moment,
    handle: Seq<u8>,
    closed: ReplyView,
    attr: FileAttr,
    t1: Moment,
    t2: Moment,
    t3: Moment,
)
    requires
        is_create(m, msg),
        m.next_handle < u64::MAX,
        ({
            let path = remote_path(m.root, asked_name(msg));
            let disposition = le32_at(msg, 100);
            &&& !apple_metadata(base_name(path))
            &&& disposition == 4 || disposition == 5 || {
                &&& disposition == 2 || disposition == 3
                &&& le32_at(msg, 104) & 1 == 0
                &&& attrs_known(m.attrs, path, t.now) is None
                &&& absence_known(m.attrs, path, t.now)
            }
        }),
    ensures
        ({
            let path = remote_path(m.root, asked_name(msg));
            let (o, s) = message_step(m, msg, t);
            let (p, u) = carried(o, s, seq![(ReplyView::Handle(Ok(handle)), t1)]);
            let (q, v) = carried(p, u, seq![(closed, t2)]);
            let (z, w) = carried(q, v, seq![(ReplyView::Attrs(Ok(attr)), t3)]);
            &&& s matches StepView::Ask(CallOf::Open { path: asked, .. }, _, _) && asked == path
            &&& asks(u, CallOf::Close { handle })
            &&& asks(v, CallOf::Lstat { path })
            &&& is_opened(m, z, w, path, attr)
        }),
{
    lemma_started(m, msg, t);
    let path = remote_path(m.root, asked_name(msg));
    let hdr = request_header(msg);
    let c = counted(m, t.now);
    let (o, s) = message_step(m, msg, t);
    if let StepView::Ask(call, _, _) = s {
        lemma_one_reply(
            c,
            call,
            hdr,
            ThenOf::Opened { path },
            ReplyView::Handle(Ok(handle)),
            t1,
        );
    }
    lemma_one_reply(c, CallOf::Close { handle }, hdr, ThenOf::Created { path }, closed, t2);
    lemma_stat_after(m, c, hdr, path, attr, t2, t3);
}

/// What the remote side will not make is refused, and there is no handle for it.
#[verifier::rlimit(40)]
pub proof fn law_failed_creates_are_refused(
    m: SessionModel,
    msg: Seq<u8>,
    t: Moment,
    e: Fault,
    t1: Moment,
)
    requires
        is_create(m, msg),
        2 <= le32_at(msg, 100) <= 5,
        ({
            let path = remote_path(m.root, asked_name(msg));
            &&& attrs_known(m.attrs, path, t.now) is None
            &&& absence_known(m.attrs, path, t.now)
        }),
    ensures
        ({
            let (o, s) = message_step(m, msg, t);
            let made = s matches StepView::Ask(CallOf::Mkdir { .. }, _, _);
            let reply = if made {
                ReplyView::Nothing(Err(e))
            } else {
                ReplyView::Handle(Err(e))
            };
            let (p, u) = carried(o, s, seq![(reply, t1)]);
            &&& s is Ask
            &&& u matches StepView::Reply(r) && status_in(r) == 0xC000_0022
            &&& p.handles == m.handles
        }),
{
    lemma_started(m, msg, t);
    let path = remote_path(m.root, asked_name(msg));
    let hdr = request_header(msg);
    let c = counted(m, t.now);
    lemma_refusal(hdr, STATUS_ACCESS_DENIED);
    let (o, s) = message_step(m, msg, t);
    if let StepView::Ask(call, _, _) = s {
        lemma_one_reply(c, call, hdr, ThenOf::Opened { path }, ReplyView::Handle(Err(e)), t1);
        lemma_one_reply(c, call, hdr, ThenOf::Made { path }, ReplyView::Nothing(Err(e)), t1);
    }
}

/// The answer that opens the pipe.
#[verifier::opaque]
pub open spec fn is_opened_pipe(m: SessionModel, o: SessionModel, s: StepView) -> bool {
    let id = m.next_handle;
    &&& s matches StepView::Reply(r) && status_in(r) == 0 && r.len() == 68 + 88 && ({
        &&& le64_at(body_in(r), 48) == 0
        &&& le32_at(body_in(r), 56) == 0x80
        &&& le64_at(body_in(r), 64) == id
        &&& le64_at(body_in(r), 72) == id
    })
    &&& o.handles.contains_key(id)
    &&& is_new_handle(o.handles[id], "srvsvc"@, false, true)
    &&& o.last_create_handle == id
    &&& o.next_handle == id + 1
    &&& o.handles.remove(id) == m.handles.remove(id)
}

proof fn lemma_opened_pipe(m: SessionModel, n: SessionModel, hdr: Smb2Header, wall: u64)
    requires
        m.next_handle < u64::MAX,
        n.next_handle == m.next_handle,
        n.handles == m.handles,
    ensures
        ({
            let (o, s) = opened_pipe(n, hdr, wall);
            is_opened_pipe(m, o, s)
        }),
{
    reveal(is_opened_pipe);
    let time = filetime(wall);
    let b = create_body(time, time, 0, FILE_ATTRIBUTE_NORMAL, m.next_handle);
    lemma_create_body(time, time, 0, FILE_ATTRIBUTE_NORMAL, m.next_handle, Seq::empty());
    assert(b + Seq::<u8>::empty() =~= b);
    lemma_reply(hdr, STATUS_SUCCESS, b);
    let (o, _) = opened_pipe(n, hdr, wall);
    assert(o.handles.remove(m.next_handle) =~= m.handles.remove(m.next_handle));
}

/// On the share for pipes there is one pipe, whose name is told in either case,
/// and nothing else.
#[verifier::rlimit(40)]
pub proof fn law_the_pipe_is_srvsvc(m: SessionModel, msg: Seq<u8>, t: Moment)
    requires
        is_request(msg, 5),
        msg.len() >= 112,
        m.ipc_tree_id == Some(le32_at(msg, 36)),
        m.next_handle < u64::MAX,
    ensures
        ({
            let (o, s) = message_step(m, msg, t);
            if lower_all(asked_name(msg)) == "srvsvc"@ {
                is_opened_pipe(m, o, s)
            } else {
                &&& s matches StepView::Reply(r) && status_in(r) == 0xC000_0034
                &&& o.handles == m.handles
            }
        }),
{
    lemma_request(m, msg, 5, t);
    lemma_name(msg);
    let hdr = request_header(msg);
    let c = counted(m, t.now);
    let body = msg.skip(64);
    lemma_refusal(hdr, STATUS_OBJECT_NAME_NOT_FOUND);
    lemma_opened_pipe(m, c, hdr, t.wall);
    assert(message_step(m, msg, t) == create_step(c, hdr, body, t));
}

/// Closing takes the handle away and no other one, closes it on the remote side
/// where it is open there, and succeeds whatever the remote side says.
pub proof fn law_closes_succeed(
    m: SessionModel,
    msg: Seq<u8>,
    t: Moment,
    reply: ReplyView,
    t1: Moment,
)
    requires
        is_request(msg, 6),
        msg.len() >= 88,
    ensures
        ({
            let fid = meant(m, le64_at(msg, 72));
            let (o, s) = message_step(m, msg, t);
            let (p, u) = carried(o, s, seq![(reply, t1)]);
            &&& if m.handles.contains_key(fid) && m.handles[fid].remote is Some {
                asks(s, CallOf::Close { handle: m.handles[fid].remote.unwrap() })
            } else {
                s is Reply
            }
            &&& u matches StepView::Reply(r) && status_in(r) == 0 && r.len() == 68 + 56 && le16_at(
                body_in(r),
                0,
            ) == 60
            &&& p.handles == m.handles.remove(fid)
        }),
{
    lemma_request(m, msg, 6, t);
    lemma_fields(msg, 8);
    let hdr = request_header(msg);
    let fid = meant(m, le64_at(msg, 72));
    let (o, s) = message_step(m, msg, t);
    if let StepView::Ask(call, _, _) = s {
        lemma_one_reply(o, call, hdr, ThenOf::Closed, reply, t1);
    } else {
        reveal_with_fuel(carried, 2);
    }
    let b = close_body();
    lemma_reply(hdr, STATUS_SUCCESS, b);
    assert(b.subrange(0, 2) =~= le16(60));
    lemma_le16_in(b, 0, 60);
}

} // verus!

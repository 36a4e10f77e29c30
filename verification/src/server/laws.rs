//! What holds of a session whatever its client asks for.

use crate::clock::Clock;
use crate::server::create::{close_step, create_name, create_step, inhibitor_attr, opened};
use crate::server::dispatch::{command_step, message_step, resume_step};
use crate::server::info::{output_body, query_info_step, set_info_step, standard_info};
use crate::server::listing::{
    list_step, query_directory_step, with_cached_listing, with_new_listing,
};
use crate::server::pattern::spotlight_inhibitor;
use crate::server::setup::{setup_step, tree_connect_step};
use crate::server::stat::{goal_step, stat_step};
use crate::server::state::{
    can_go_on, counted, forgotten, inhibitor_path, learnt, looked_up, new_session, noted,
    reconnected, remote_path, resolved, told, Lookup, SessionModel, SAME_HANDLE,
};
use crate::server::step::{answered, refused, Goal, Moment, ThenOf, ThenView};
use crate::server::transfer::{read_step, write_step};
use crate::sftp::call::ReplyView;
use crate::smb2::{
    header_of, Smb2Header, FILE_DIRECTORY_FILE, FILE_STANDARD_INFORMATION, SMB2_0_INFO_FILE,
    SMB2_HEADER_SIZE, STATUS_END_OF_FILE, STATUS_OBJECT_NAME_NOT_FOUND, STATUS_SUCCESS,
};
use crate::wire::FileAttr;
use vstd::prelude::*;

verus! {

/// The handles of a session were all given out by it: the next number is above
/// every one in use.
pub open spec fn sound(m: SessionModel) -> bool {
    &&& forall|id: u64| #[trigger] m.handles.contains_key(id) ==> id < m.next_handle
    &&& m.last_create_handle < m.next_handle
}

/// What a step never changes: the share and its place on the remote side, the
/// numbers of the session and of the tree, and the clock, by which all that is
/// learnt is remembered. Handle numbers are never taken back, and the session
/// stays sound.
pub open spec fn keeps(a: SessionModel, b: SessionModel) -> bool {
    &&& b.root == a.root
    &&& b.share == a.share
    &&& b.session_id == a.session_id
    &&& b.tree_id == a.tree_id
    &&& b.clock == a.clock
    &&& a.attrs_clock == a.clock ==> b.attrs_clock == b.clock
    &&& a.dirs_clock == a.clock ==> b.dirs_clock == b.clock
    &&& b.next_handle >= a.next_handle
    &&& sound(a) ==> sound(b)
}

proof fn lemma_goal_keeps(
    m: SessionModel,
    hdr: Smb2Header,
    goal: Goal,
    path: Seq<char>,
    found: Result<(FileAttr, bool), u32>,
)
    requires
        m.next_handle < u64::MAX,
    ensures
        keeps(m, goal_step(m, hdr, goal, path, found).0),
{
}

proof fn lemma_stat_keeps(
    m: SessionModel,
    hdr: Smb2Header,
    goal: Goal,
    path: Seq<char>,
    t: Moment,
)
    requires
        m.next_handle < u64::MAX,
    ensures
        keeps(m, stat_step(m, hdr, goal, path, t).0),
{
    let n = noted(m, path, t.now);
    match looked_up(m, path, t) {
        Lookup::Known(attr, is_dir) => {
            lemma_goal_keeps(n, hdr, goal, path, Ok((attr, is_dir)));
        },
        Lookup::Absent => {
            lemma_goal_keeps(n, hdr, goal, path, Err(STATUS_OBJECT_NAME_NOT_FOUND));
        },
        Lookup::Unknown => {},
    }
}

proof fn lemma_create_keeps(m: SessionModel, hdr: Smb2Header, body: Seq<u8>, t: Moment)
    requires
        m.next_handle < u64::MAX,
    ensures
        keeps(m, create_step(m, hdr, body, t).0),
{
    let path = remote_path(m.root, crate::server::create::create_name(body));
    let want_dir = crate::bytes::le32_at(body, 40) & FILE_DIRECTORY_FILE != 0;
    lemma_stat_keeps(m, hdr, Goal::Existing, path, t);
    lemma_stat_keeps(m, hdr, Goal::OpenOrCreate { want_dir }, path, t);
    lemma_stat_keeps(m, hdr, Goal::CreateNew { want_dir }, path, t);
}

proof fn lemma_info_keeps(m: SessionModel, hdr: Smb2Header, body: Seq<u8>, t: Moment)
    requires
        m.next_handle < u64::MAX,
    ensures
        keeps(m, query_info_step(m, hdr, body, t).0),
        keeps(m, set_info_step(m, hdr, body, t).0),
{
    let a = resolved(m, crate::bytes::le64_at(body, 24));
    lemma_stat_keeps(
        m,
        hdr,
        Goal::QueryInfo { info_type: body[2], class: body[3], is_dir: m.handles[a].is_dir },
        m.handles[a].path,
        t,
    );
    let b = resolved(m, crate::bytes::le64_at(body, 16));
    let data = crate::server::info::set_data(body);
    lemma_stat_keeps(
        m,
        hdr,
        Goal::SetTimes {
            atime: crate::bytes::le64_at(data, 8),
            mtime: crate::bytes::le64_at(data, 16),
        },
        m.handles[b].path,
        t,
    );
}

proof fn lemma_list_keeps(
    m: SessionModel,
    hdr: Smb2Header,
    fid: u64,
    flags: u8,
    pattern: Seq<char>,
    wall: u64,
)
    ensures
        keeps(m, list_step(m, hdr, fid, flags, pattern, wall).0),
{
}

proof fn lemma_transfer_keeps(m: SessionModel, hdr: Smb2Header, body: Seq<u8>, t: Moment)
    ensures
        keeps(m, read_step(m, hdr, body).0),
        keeps(m, write_step(m, hdr, body).0),
        keeps(m, query_directory_step(m, hdr, body, t).0),
{
    let flags = body[3];
    let fid = resolved(m, crate::bytes::le64_at(body, 8));
    let pattern = crate::server::listing::query_pattern(body);
    let restart = flags & crate::server::listing::RESTART_SCANS != 0;
    lemma_list_keeps(m, hdr, fid, flags, pattern, t.wall);
    if let Some(entries) = crate::server::cache::listing_known(
        m.dirs,
        m.handles[fid].path,
        t.now,
    ) {
        let l = with_cached_listing(m, fid, entries, restart);
        assert(keeps(m, l));
        lemma_list_keeps(l, hdr, fid, flags, pattern, t.wall);
    }
}

/// No message changes the share, takes a handle number back or makes a session
/// unsound.
pub proof fn law_messages_keep_the_session(m: SessionModel, msg: Seq<u8>, t: Moment)
    requires
        can_go_on(m),
    ensures
        keeps(m, message_step(m, msg, t).0),
{
    let c = counted(m, t.now);
    assert(keeps(m, c));
    if let Some(hdr) = header_of(msg) {
        let body = msg.skip(SMB2_HEADER_SIZE as int);
        lemma_create_keeps(c, hdr, body, t);
        lemma_info_keeps(c, hdr, body, t);
        lemma_transfer_keeps(c, hdr, body, t);
        assert(keeps(c, close_step(c, hdr, body).0));
        assert(keeps(c, setup_step(c, hdr, body, t).0));
        assert(keeps(c, tree_connect_step(c, hdr, body).0));
        assert(keeps(c, command_step(c, hdr, body, t).0));
    }
}

/// Nor does any reply of the remote side.
pub proof fn law_replies_keep_the_session(
    m: SessionModel,
    hdr: Smb2Header,
    next: ThenView,
    reply: ReplyView,
    t: Moment,
)
    requires
        m.next_handle < u64::MAX,
    ensures
        keeps(m, resume_step(m, hdr, next, reply, t).0),
{
    match next {
        ThenOf::Stat { goal, path } => {
            let l = learnt(m, path, reply, t.now);
            assert(keeps(m, l));
            lemma_goal_keeps(l, hdr, goal, path, told(reply));
        },
        ThenOf::Made { path } => {
            lemma_stat_keeps(forgotten(m, path), hdr, Goal::Existing, path, t);
        },
        ThenOf::Created { path } => {
            lemma_stat_keeps(forgotten(m, path), hdr, Goal::Existing, path, t);
        },
        ThenOf::ReadDone { .. } => {
            assert(keeps(m, reconnected(m)));
        },
        ThenOf::WriteDone { .. } => {
            assert(keeps(m, reconnected(m)));
        },
        ThenOf::Listed { fid, flags, pattern, path } => {
            if let ReplyView::Entries(Ok(entries)) = reply {
                let l = with_new_listing(m, fid, path, entries, t.now);
                assert(keeps(m, l));
                lemma_list_keeps(l, hdr, fid, flags, pattern, t.wall);
            }
        },
        _ => {},
    }
}

/// A new session is sound.
pub proof fn law_new_sessions_are_sound(root: Seq<char>, share: Seq<char>, clock: Clock)
    ensures
        sound(new_session(root, share, clock)),
{
}

/// A CREATE that succeeds gives a number that no other handle has: the handles
/// there were are as they were, and the next request of the compound can name
/// the new one.
pub proof fn law_new_handles_are_new(
    m: SessionModel,
    hdr: Smb2Header,
    path: Seq<char>,
    attr: FileAttr,
    is_dir: bool,
    other: u64,
)
    requires
        sound(m),
        m.next_handle < u64::MAX,
    ensures
        ({
            let o = opened(m, hdr, path, attr, is_dir).0;
            &&& !m.handles.contains_key(m.next_handle)
            &&& o.handles.contains_key(m.next_handle)
            &&& o.handles[m.next_handle].path == path
            &&& o.handles[m.next_handle].is_dir == is_dir
            &&& resolved(o, SAME_HANDLE) == m.next_handle
            &&& m.handles.contains_key(other) ==> o.handles.contains_key(other)
                && o.handles[other] == m.handles[other]
        }),
{
}

/// The file that keeps Spotlight away is there as an empty file: it can be
/// opened, it is said to hold nothing, and reading it finds its end. The remote
/// side is not asked.
pub proof fn law_spotlight_file_is_there(
    m: SessionModel,
    hdr: Smb2Header,
    create: Seq<u8>,
    query: Seq<u8>,
    read: Seq<u8>,
    t: Moment,
    later: Moment,
)
    requires
        m.next_handle < SAME_HANDLE,
        m.ipc_tree_id != Some(hdr.tree_id),
        create.len() >= 48,
        spotlight_inhibitor(create_name(create)),
        query.len() >= 32,
        query[2] == SMB2_0_INFO_FILE,
        query[3] == FILE_STANDARD_INFORMATION,
        crate::bytes::le64_at(query, 24) == m.next_handle,
        read.len() >= 32,
        crate::bytes::le64_at(read, 16) == m.next_handle,
    ensures
        ({
            let path = inhibitor_path(m.root);
            let (o, reply) = create_step(m, hdr, create, t);
            &&& (o, reply) == opened(m, hdr, path, inhibitor_attr(t.wall), false)
            &&& query_info_step(o, hdr, query, later) == (
                o,
                answered(
                    hdr,
                    STATUS_SUCCESS,
                    output_body(standard_info(inhibitor_attr(later.wall), false)),
                ),
            )
            &&& read_step(o, hdr, read) == (o, refused(hdr, STATUS_END_OF_FILE))
        }),
{
}

/// A handle that was closed is gone, and no other handle is touched.
pub proof fn law_closed_handles_are_gone(
    m: SessionModel,
    hdr: Smb2Header,
    body: Seq<u8>,
    other: u64,
)
    requires
        body.len() >= 24,
    ensures
        ({
            let fid = resolved(m, crate::bytes::le64_at(body, 8));
            let c = close_step(m, hdr, body).0;
            &&& !c.handles.contains_key(fid)
            &&& other != fid ==> c.handles.contains_key(other) == m.handles.contains_key(other)
            &&& other != fid && m.handles.contains_key(other) ==> c.handles[other]
                == m.handles[other]
        }),
{
}

} // verus!

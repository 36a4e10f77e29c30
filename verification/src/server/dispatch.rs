//! One message after the other: which handler a request goes to, and how it
//! goes on when the remote side has replied.

use crate::bytes::{be32_at, le16_at, le32_at, le64_at};
use crate::clock::CLOCK_END;
use crate::server::create::{
    close_body, close_step, create_step, created_step, made_step, opened_step,
};
use crate::server::info::{
    query_info_step, removed_step, renamed_step, set_info_step, times_set_step,
};
use crate::server::listing::{listed_step, query_directory_step};
use crate::server::pipe::ioctl_step;
use crate::server::setup::{setup_step, tree_connect_step};
use crate::server::stat::{goal_step, stat_step, told_step};
use crate::server::state::{can_go_on, counted, SessionModel, SmbSession};
use crate::server::step::{
    answered, error_response, plain_body, refused, Goal, Moment, Pending, Step, StepView, ThenOf,
    ThenView,
};
use crate::server::transfer::{
    read_again_step, read_done_step, read_opened_step, read_reopened_step, read_step,
    write_again_step, write_done_step, write_opened_step, write_reopened_step, write_step,
};
use crate::sftp::call::{ReplyView, SftpReply};
use crate::smb2::{
    header_of, law_response_echoes_request, law_responses_have_fixed_places, negotiate_body, response, Smb2Header, SMB2_CLOSE,
    SMB2_CREATE, SMB2_DIALECT_202, SMB2_FLUSH, SMB2_HEADER_SIZE, SMB2_IOCTL, SMB2_LOCK,
    SMB2_LOGOFF, SMB2_NEGOTIATE, SMB2_QUERY_DIRECTORY, SMB2_QUERY_INFO, SMB2_READ,
    SMB2_SESSION_SETUP, SMB2_SET_INFO, SMB2_TREE_CONNECT, SMB2_TREE_DISCONNECT, SMB2_WRITE,
    STATUS_NOT_SUPPORTED, STATUS_SUCCESS,
};
use vstd::prelude::*;
use vstd::slice::slice_subrange;

verus! {

/// Handling a request.
pub open spec fn command_step(m: SessionModel, hdr: Smb2Header, body: Seq<u8>, t: Moment) -> (
    SessionModel,
    StepView,
) {
    let c = hdr.command;
    if c == SMB2_NEGOTIATE {
        (m, answered(hdr, STATUS_SUCCESS, negotiate_body(SMB2_DIALECT_202, t.wall)))
    } else if c == SMB2_SESSION_SETUP {
        setup_step(m, hdr, body, t)
    } else if c == SMB2_LOGOFF || c == SMB2_TREE_DISCONNECT || c == SMB2_LOCK || c == SMB2_FLUSH {
        (m, answered(hdr, STATUS_SUCCESS, plain_body()))
    } else if c == SMB2_TREE_CONNECT {
        tree_connect_step(m, hdr, body)
    } else if c == SMB2_CREATE {
        create_step(m, hdr, body, t)
    } else if c == SMB2_CLOSE {
        close_step(m, hdr, body)
    } else if c == SMB2_READ {
        read_step(m, hdr, body)
    } else if c == SMB2_WRITE {
        write_step(m, hdr, body)
    } else if c == SMB2_QUERY_DIRECTORY {
        query_directory_step(m, hdr, body, t)
    } else if c == SMB2_QUERY_INFO {
        query_info_step(m, hdr, body, t)
    } else if c == SMB2_SET_INFO {
        set_info_step(m, hdr, body, t)
    } else if c == SMB2_IOCTL {
        (m, ioctl_step(m, hdr, body))
    } else {
        (m, refused(hdr, STATUS_NOT_SUPPORTED))
    }
}

/// Handling a message. One that has no header is counted and not answered.
pub open spec fn message_step(m: SessionModel, msg: Seq<u8>, t: Moment) -> (
    SessionModel,
    StepView,
) {
    match header_of(msg) {
        Some(hdr) => command_step(
            counted(m, t.now),
            hdr,
            msg.skip(SMB2_HEADER_SIZE as int),
            t,
        ),
        None => (counted(m, t.now), StepView::Reply(Seq::empty())),
    }
}

/// How a request goes on when the remote side has replied.
pub open spec fn resume_step(
    m: SessionModel,
    hdr: Smb2Header,
    next: ThenView,
    reply: ReplyView,
    t: Moment,
) -> (SessionModel, StepView) {
    match next {
        ThenOf::Stat { goal, path } => told_step(m, hdr, goal, path, reply, t),
        ThenOf::Made { path } => made_step(m, hdr, path, reply, t),
        ThenOf::Opened { path } => opened_step(m, hdr, path, reply),
        ThenOf::Created { path } => created_step(m, hdr, path, t),
        ThenOf::Closed => (m, answered(hdr, STATUS_SUCCESS, close_body())),
        ThenOf::ReadOpened { fid, offset, length } => read_opened_step(
            m,
            hdr,
            fid,
            offset,
            length,
            reply,
        ),
        ThenOf::ReadDone { fid, offset, length, path } => read_done_step(
            m,
            hdr,
            fid,
            offset,
            length,
            path,
            reply,
        ),
        ThenOf::ReadReopened { fid, offset, length } => (
            m,
            read_reopened_step(hdr, fid, offset, length, reply),
        ),
        ThenOf::ReadAgain { fid, offset, length, handle } => read_again_step(
            m,
            hdr,
            fid,
            offset,
            length,
            handle,
            reply,
        ),
        ThenOf::WriteOpened { fid, offset, data } => write_opened_step(
            m,
            hdr,
            fid,
            offset,
            data,
            reply,
        ),
        ThenOf::WriteDone { fid, offset, data, path } => write_done_step(
            m,
            hdr,
            fid,
            offset,
            data,
            path,
            reply,
        ),
        ThenOf::WriteReopened { fid, offset, data, path } => (
            m,
            write_reopened_step(hdr, fid, offset, data, path, reply),
        ),
        ThenOf::WriteAgain { fid, length, handle, path } => write_again_step(
            m,
            hdr,
            fid,
            length,
            handle,
            path,
            reply,
        ),
        ThenOf::Listed { fid, flags, pattern, path } => listed_step(
            m,
            hdr,
            fid,
            flags,
            pattern,
            path,
            reply,
            t,
        ),
        ThenOf::Renamed { fid, from, to } => renamed_step(m, hdr, fid, from, to, reply),
        ThenOf::Removed { path } => removed_step(m, hdr, path, reply),
        ThenOf::TimesSet { path } => times_set_step(m, hdr, path),
    }
}

// ── Laws ────────────────────────────────────────────────────────────

/// The header of a response to a request is the request's own, but for the
/// session that a setup gives and the tree that a connect gives.
pub open spec fn answers_for(g: Smb2Header, hdr: Smb2Header) -> bool {
    &&& g == Smb2Header { tree_id: g.tree_id, session_id: g.session_id, ..hdr }
    &&& hdr.command != 3 ==> g.tree_id == hdr.tree_id
    &&& hdr.command != 1 ==> g.session_id == hdr.session_id
}

/// A step that stays with a request: it answers it, or it waits on its behalf.
pub open spec fn stays_with(s: StepView, hdr: Smb2Header) -> bool {
    match s {
        StepView::Reply(r) => exists|g: Smb2Header, status: u32, body: Seq<u8>|
            r == #[trigger] response(g, status, body) && answers_for(g, hdr),
        StepView::Ask(_, g, _) => g == hdr,
    }
}

/// Bytes that answer a request: a response that carries its command, its number
/// and all else by which the client knows its request again, each at its place.
pub open spec fn is_answer(r: Seq<u8>, hdr: Smb2Header) -> bool {
    &&& r.len() >= 68
    &&& header_of(r.skip(4)) matches Some(g) && g.command == hdr.command && g.message_id
        == hdr.message_id
    &&& r.len() <= u32::MAX ==> be32_at(r, 0) == r.len() - 4
    &&& r[4] == 0xFE && r[5] == 0x53 && r[6] == 0x4D && r[7] == 0x42
    &&& le16_at(r, 8) == 64
    &&& le16_at(r, 10) == hdr.credit_charge
    &&& le16_at(r, 16) == hdr.command
    &&& le16_at(r, 18) == if hdr.credits == 0 {
        1
    } else {
        hdr.credits
    }
    &&& le32_at(r, 20) & 1 == 1
    &&& le32_at(r, 20) & 4 == hdr.flags & 4
    &&& le32_at(r, 20) & 0xFFFF_FFFA == 0
    &&& le32_at(r, 24) == 0
    &&& le64_at(r, 28) == hdr.message_id
    &&& le32_at(r, 36) == hdr.process_id
    &&& hdr.command != 3 ==> le32_at(r, 40) == hdr.tree_id
    &&& hdr.command != 1 ==> le64_at(r, 44) == hdr.session_id
}

proof fn lemma_answer(s: StepView, hdr: Smb2Header)
    requires
        stays_with(s, hdr),
    ensures
        s matches StepView::Reply(r) ==> is_answer(r, hdr),
{
    if let StepView::Reply(r) = s {
        let (g, status, body) = choose|g: Smb2Header, status: u32, body: Seq<u8>|
            r == #[trigger] response(g, status, body) && answers_for(g, hdr);
        law_response_echoes_request(g, status, body);
        law_responses_have_fixed_places(g, status, body);
    }
}

proof fn lemma_goal_stays(
    m: SessionModel,
    hdr: Smb2Header,
    goal: Goal,
    path: Seq<char>,
    found: Result<(crate::wire::FileAttr, bool), u32>,
)
    ensures
        stays_with(goal_step(m, hdr, goal, path, found).1, hdr),
{
}

proof fn lemma_stat_stays(
    m: SessionModel,
    hdr: Smb2Header,
    goal: Goal,
    path: Seq<char>,
    t: Moment,
)
    ensures
        stays_with(stat_step(m, hdr, goal, path, t).1, hdr),
{
    let n = crate::server::state::noted(m, path, t.now);
    match crate::server::state::looked_up(m, path, t) {
        crate::server::state::Lookup::Known(attr, is_dir) => {
            lemma_goal_stays(n, hdr, goal, path, Ok((attr, is_dir)));
        },
        crate::server::state::Lookup::Absent => {
            lemma_goal_stays(
                n,
                hdr,
                goal,
                path,
                Err(crate::smb2::STATUS_OBJECT_NAME_NOT_FOUND),
            );
        },
        crate::server::state::Lookup::Unknown => {},
    }
}

proof fn lemma_create_stays(m: SessionModel, hdr: Smb2Header, body: Seq<u8>, t: Moment)
    ensures
        stays_with(create_step(m, hdr, body, t).1, hdr),
{
    let path = crate::server::state::remote_path(
        m.root,
        crate::server::create::create_name(body),
    );
    let want_dir = crate::bytes::le32_at(body, 40) & crate::smb2::FILE_DIRECTORY_FILE != 0;
    lemma_stat_stays(m, hdr, Goal::Existing, path, t);
    lemma_stat_stays(m, hdr, Goal::OpenOrCreate { want_dir }, path, t);
    lemma_stat_stays(m, hdr, Goal::CreateNew { want_dir }, path, t);
}

proof fn lemma_info_stays(m: SessionModel, hdr: Smb2Header, body: Seq<u8>, t: Moment)
    ensures
        stays_with(query_info_step(m, hdr, body, t).1, hdr),
        stays_with(set_info_step(m, hdr, body, t).1, hdr),
{
    let a = crate::server::state::resolved(m, crate::bytes::le64_at(body, 24));
    lemma_stat_stays(
        m,
        hdr,
        Goal::QueryInfo {
            info_type: body[2],
            class: body[3],
            is_dir: m.handles[a].is_dir,
        },
        m.handles[a].path,
        t,
    );
    let b = crate::server::state::resolved(m, crate::bytes::le64_at(body, 16));
    let data = crate::server::info::set_data(body);
    lemma_stat_stays(
        m,
        hdr,
        Goal::SetTimes {
            atime: crate::bytes::le64_at(data, 8),
            mtime: crate::bytes::le64_at(data, 16),
        },
        m.handles[b].path,
        t,
    );
}

proof fn lemma_setup_stays(m: SessionModel, hdr: Smb2Header, body: Seq<u8>, t: Moment)
    ensures
        hdr.command == SMB2_SESSION_SETUP ==> stays_with(setup_step(m, hdr, body, t).1, hdr),
        hdr.command == SMB2_TREE_CONNECT ==> stays_with(tree_connect_step(m, hdr, body).1, hdr),
        stays_with(close_step(m, hdr, body).1, hdr),
        stays_with(ioctl_step(m, hdr, body), hdr),
{
}

proof fn lemma_transfer_stays(m: SessionModel, hdr: Smb2Header, body: Seq<u8>, t: Moment)
    ensures
        stays_with(read_step(m, hdr, body).1, hdr),
        stays_with(write_step(m, hdr, body).1, hdr),
        stays_with(query_directory_step(m, hdr, body, t).1, hdr),
{
}

/// Every request is answered, at once or when the remote side has replied: the
/// response carries its command and its message number. A message without a
/// header is not answered.
pub proof fn law_every_request_is_answered(m: SessionModel, msg: Seq<u8>, t: Moment)
    ensures
        match header_of(msg) {
            Some(hdr) => match message_step(m, msg, t).1 {
                StepView::Reply(r) => is_answer(r, hdr),
                StepView::Ask(_, g, _) => g == hdr,
            },
            None => message_step(m, msg, t).1 == StepView::Reply(Seq::empty()),
        },
{
    if let Some(hdr) = header_of(msg) {
        let c = counted(m, t.now);
        let body = msg.skip(SMB2_HEADER_SIZE as int);
        lemma_setup_stays(c, hdr, body, t);
        lemma_create_stays(c, hdr, body, t);
        lemma_info_stays(c, hdr, body, t);
        lemma_transfer_stays(c, hdr, body, t);
        assert(stays_with(command_step(c, hdr, body, t).1, hdr));
        lemma_answer(command_step(c, hdr, body, t).1, hdr);
    }
}

/// A request that waited stays the same request: what it is answered in the end
/// carries its command and its message number.
pub proof fn law_waiting_requests_are_answered(
    m: SessionModel,
    hdr: Smb2Header,
    next: ThenView,
    reply: ReplyView,
    t: Moment,
)
    ensures
        match resume_step(m, hdr, next, reply, t).1 {
            StepView::Reply(r) => is_answer(r, hdr),
            StepView::Ask(_, g, _) => g == hdr,
        },
{
    match next {
        ThenOf::Stat { goal, path } => {
            lemma_goal_stays(
                crate::server::state::learnt(m, path, reply, t.now),
                hdr,
                goal,
                path,
                crate::server::state::told(reply),
            );
        },
        ThenOf::Made { path } => {
            lemma_stat_stays(
                crate::server::state::forgotten(m, path),
                hdr,
                Goal::Existing,
                path,
                t,
            );
        },
        ThenOf::Created { path } => {
            lemma_stat_stays(
                crate::server::state::forgotten(m, path),
                hdr,
                Goal::Existing,
                path,
                t,
            );
        },
        _ => {},
    }
    assert(stays_with(resume_step(m, hdr, next, reply, t).1, hdr));
    lemma_answer(resume_step(m, hdr, next, reply, t).1, hdr);
}

// ── The entry points ────────────────────────────────────────────────

impl SmbSession {
    fn handle_command(&mut self, hdr: &Smb2Header, body: &[u8], t: Moment) -> (s: Step)
        requires
            old(self).next_handle < u64::MAX,
            old(self).next_tree_id < u32::MAX,
            t.now < CLOCK_END,
        ensures
            (final(self)@, s@) == command_step(old(self)@, *hdr, body@, t),
    {
        let c = hdr.command;
        if c == SMB2_NEGOTIATE {
            self.handle_negotiate(hdr, t)
        } else if c == SMB2_SESSION_SETUP {
            self.handle_session_setup(hdr, body, t)
        } else if c == SMB2_LOGOFF {
            self.handle_logoff(hdr)
        } else if c == SMB2_TREE_CONNECT {
            self.handle_tree_connect(hdr, body)
        } else if c == SMB2_TREE_DISCONNECT {
            self.handle_tree_disconnect(hdr)
        } else if c == SMB2_CREATE {
            self.handle_create(hdr, body, t)
        } else if c == SMB2_CLOSE {
            self.handle_close(hdr, body)
        } else if c == SMB2_READ {
            self.handle_read(hdr, body)
        } else if c == SMB2_WRITE {
            self.handle_write(hdr, body)
        } else if c == SMB2_LOCK {
            self.handle_lock(hdr)
        } else if c == SMB2_QUERY_DIRECTORY {
            self.handle_query_directory(hdr, body, t)
        } else if c == SMB2_QUERY_INFO {
            self.handle_query_info(hdr, body, t)
        } else if c == SMB2_SET_INFO {
            self.handle_set_info(hdr, body, t)
        } else if c == SMB2_FLUSH {
            self.handle_flush(hdr)
        } else if c == SMB2_IOCTL {
            self.handle_ioctl(hdr, body)
        } else {
            error_response(hdr, STATUS_NOT_SUPPORTED)
        }
    }

    /// Handles a message at a given time.
    pub fn handle_message_at(&mut self, msg: &[u8], t: Moment) -> (s: Step)
        requires
            can_go_on(old(self)@),
            t.now < CLOCK_END,
        ensures
            (final(self)@, s@) == message_step(old(self)@, msg@, t),
    {
        self.count_message(t.now);
        let hdr = match Smb2Header::parse(msg) {
            Some(h) => h,
            None => {
                let nothing: Vec<u8> = Vec::new();
                assert(nothing@ =~= Seq::empty());
                return Step::Reply(nothing);
            },
        };
        let body = slice_subrange(msg, SMB2_HEADER_SIZE, msg.len());
        assert(body@ =~= msg@.skip(SMB2_HEADER_SIZE as int));
        self.handle_command(&hdr, body, t)
    }

    /// Handles a message.
    pub fn handle_message(&mut self, msg: &[u8]) -> (s: Step)
        requires
            can_go_on(old(self)@),
        ensures
            exists|t: Moment|
                t.now < CLOCK_END && (final(self)@, s@) == #[trigger] message_step(
                    old(self)@,
                    msg@,
                    t,
                ),
    {
        let t = self.present();
        self.handle_message_at(msg, t)
    }

    /// Goes on with a request at a given time, when the remote side has replied.
    pub fn resume_at(&mut self, pending: Pending, reply: SftpReply, t: Moment) -> (s: Step)
        requires
            old(self).next_handle < u64::MAX,
            t.now < CLOCK_END,
        ensures
            (final(self)@, s@) == resume_step(
                old(self)@,
                pending.hdr,
                pending.next@,
                reply@,
                t,
            ),
    {
        let hdr = pending.hdr;
        match pending.next {
            ThenOf::Stat { goal, path } => self.on_told(&hdr, goal, &path, &reply, t),
            ThenOf::Made { path } => self.on_made(&hdr, &path, &reply, t),
            ThenOf::Opened { path } => self.on_opened(&hdr, path, reply),
            ThenOf::Created { path } => self.on_created(&hdr, &path, t),
            ThenOf::Closed => self.answer_close(&hdr),
            ThenOf::ReadOpened { fid, offset, length } => self.on_read_opened(
                &hdr,
                fid,
                offset,
                length,
                reply,
            ),
            ThenOf::ReadDone { fid, offset, length, path } => self.on_read_done(
                &hdr,
                fid,
                offset,
                length,
                path,
                reply,
            ),
            ThenOf::ReadReopened { fid, offset, length } => self.on_read_reopened(
                &hdr,
                fid,
                offset,
                length,
                reply,
            ),
            ThenOf::ReadAgain { fid, offset, length, handle } => self.on_read_again(
                &hdr,
                fid,
                offset,
                length,
                handle,
                reply,
            ),
            ThenOf::WriteOpened { fid, offset, data } => self.on_write_opened(
                &hdr,
                fid,
                offset,
                data,
                reply,
            ),
            ThenOf::WriteDone { fid, offset, data, path } => self.on_write_done(
                &hdr,
                fid,
                offset,
                data,
                path,
                reply,
            ),
            ThenOf::WriteReopened { fid, offset, data, path } => self.on_write_reopened(
                &hdr,
                fid,
                offset,
                data,
                path,
                reply,
            ),
            ThenOf::WriteAgain { fid, length, handle, path } => self.on_write_again(
                &hdr,
                fid,
                length,
                handle,
                &path,
                reply,
            ),
            ThenOf::Listed { fid, flags, pattern, path } => self.on_listed(
                &hdr,
                fid,
                flags,
                &pattern,
                path,
                reply,
                t,
            ),
            ThenOf::Renamed { fid, from, to } => self.on_renamed(&hdr, fid, from, to, &reply),
            ThenOf::Removed { path } => self.on_removed(&hdr, &path, &reply),
            ThenOf::TimesSet { path } => self.on_times_set(&hdr, &path),
        }
    }

    /// Goes on with a request when the remote side has replied.
    pub fn resume(&mut self, pending: Pending, reply: SftpReply) -> (s: Step)
        requires
            old(self).next_handle < u64::MAX,
        ensures
            exists|t: Moment|
                t.now < CLOCK_END && (final(self)@, s@) == #[trigger] resume_step(
                    old(self)@,
                    pending.hdr,
                    pending.next@,
                    reply@,
                    t,
                ),
    {
        let t = self.present();
        self.resume_at(pending, reply, t)
    }
}

} // verus!

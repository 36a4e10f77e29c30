//! Opening and closing: CREATE and CLOSE.

use crate::bytes::{
    le16, le16_at, le32, le32_at, le64, le64_at, put_u16_le, put_u32_le, put_u64_le, put_u8,
    put_zeros, read_u16_le, read_u32_le, read_u64_le, zeros,
};
use crate::clock::CLOCK_END;
use crate::server::handles::{fresh_handle, OpenHandle};
use crate::server::pattern::{is_spotlight_inhibitor, spotlight_inhibitor};
use crate::server::setup::{find_part, pointed_at};
use crate::server::stat::stat_step;
use crate::server::state::{
    forgotten, remote_path, resolved, with_handle, SessionModel, SmbSession,
};
use crate::server::step::{
    answer, answered, ask, error_response, refused, Goal, Moment, Step, StepView, ThenOf,
};
use crate::sftp::call::{CallOf, ReplyView, SftpReply};
use crate::sftp::packet::{SSH_FXF_CREAT, SSH_FXF_READ, SSH_FXF_TRUNC, SSH_FXF_WRITE};
use crate::smb2::{
    filetime, unix_to_filetime, Smb2Header, FILE_ATTRIBUTE_ARCHIVE, FILE_ATTRIBUTE_DIRECTORY,
    FILE_ATTRIBUTE_NORMAL, FILE_CREATE, FILE_DIRECTORY_FILE, FILE_OPEN, FILE_OPEN_IF,
    FILE_OVERWRITE, FILE_OVERWRITE_IF, FILE_SUPERSEDE, STATUS_ACCESS_DENIED,
    STATUS_INVALID_PARAMETER, STATUS_OBJECT_NAME_COLLISION, STATUS_OBJECT_NAME_NOT_FOUND,
    STATUS_SUCCESS,
};
use crate::text::{chars_of, lower_all, str_eq, string_of, to_lower};
use crate::utf16::{from_utf16le, utf16le_text};
use crate::wire::FileAttr;
use vstd::prelude::*;

verus! {

/// The mode of a new directory.
pub const NEW_DIR_MODE: u32 = 0o755;

/// The mode of a new file.
pub const NEW_FILE_MODE: u32 = 0o644;

// ── Responses ───────────────────────────────────────────────────────

/// The attributes of files and directories in SMB2.
pub open spec fn file_attributes(is_dir: bool) -> u32 {
    if is_dir {
        FILE_ATTRIBUTE_DIRECTORY
    } else {
        FILE_ATTRIBUTE_ARCHIVE
    }
}

/// The attributes of a file or directory in SMB2.
pub fn attributes_of(is_dir: bool) -> (a: u32)
    ensures
        a == file_attributes(is_dir),
{
    if is_dir {
        FILE_ATTRIBUTE_DIRECTORY
    } else {
        FILE_ATTRIBUTE_ARCHIVE
    }
}

/// The body of a response to CREATE, for a file with the given times, size and
/// attributes under the handle `id`.
pub open spec fn create_body(
    written: u64,
    accessed: u64,
    size: u64,
    attributes: u32,
    id: u64,
) -> Seq<u8> {
    le16(89) + seq![0u8] + seq![0u8] + le32(1) + le64(written) + le64(accessed) + le64(written)
        + le64(written) + le64(size) + le64(size) + le32(attributes) + le32(0) + le64(id) + le64(id)
        + le32(0) + le32(0)
}

fn put_create_body(written: u64, accessed: u64, size: u64, attributes: u32, id: u64) -> (out: Vec<
    u8,
>)
    ensures
        out@ == create_body(written, accessed, size, attributes, id),
{
    let mut out: Vec<u8> = Vec::new();
    put_u16_le(&mut out, 89);
    assert(out@ =~= le16(89));
    put_u8(&mut out, 0);
    put_u8(&mut out, 0);
    put_u32_le(&mut out, 1);
    put_u64_le(&mut out, written);
    put_u64_le(&mut out, accessed);
    put_u64_le(&mut out, written);
    put_u64_le(&mut out, written);
    put_u64_le(&mut out, size);
    put_u64_le(&mut out, size);
    put_u32_le(&mut out, attributes);
    put_u32_le(&mut out, 0);
    put_u64_le(&mut out, id);
    put_u64_le(&mut out, id);
    put_u32_le(&mut out, 0);
    put_u32_le(&mut out, 0);
    out
}

/// Answering CREATE for a path with the given attributes: it gets a handle.
pub open spec fn opened(
    m: SessionModel,
    hdr: Smb2Header,
    path: Seq<char>,
    attr: FileAttr,
    is_dir: bool,
) -> (SessionModel, StepView) {
    (
        with_handle(m, fresh_handle(path, is_dir, false)),
        answered(
            hdr,
            STATUS_SUCCESS,
            create_body(
                filetime(attr.mtime as u64),
                filetime(attr.atime as u64),
                attr.size,
                file_attributes(is_dir),
                m.next_handle,
            ) + seq![0u8],
        ),
    )
}

/// Answering CREATE for the pipe of the share list.
pub open spec fn opened_pipe(m: SessionModel, hdr: Smb2Header, wall: u64) -> (
    SessionModel,
    StepView,
) {
    (
        with_handle(m, fresh_handle("srvsvc"@, false, true)),
        answered(
            hdr,
            STATUS_SUCCESS,
            create_body(filetime(wall), filetime(wall), 0, FILE_ATTRIBUTE_NORMAL, m.next_handle),
        ),
    )
}

/// The attributes of the file that keeps Spotlight away.
pub open spec fn inhibitor_attr(wall: u64) -> FileAttr {
    FileAttr {
        size: 0,
        uid: 0,
        gid: 0,
        perm: 0o100444,
        atime: wall as u32,
        mtime: wall as u32,
    }
}

/// The attributes of the file that keeps Spotlight away.
pub fn fake_attr(wall: u64) -> (a: FileAttr)
    ensures
        a == inhibitor_attr(wall),
{
    let secs =
        #[verifier::truncate]
        (wall as u32);
    FileAttr { size: 0, uid: 0, gid: 0, perm: 0o100444, atime: secs, mtime: secs }
}

// ── CREATE ──────────────────────────────────────────────────────────

/// The name that a CREATE request gives; none where it does not lie within the
/// request.
pub open spec fn create_name(body: Seq<u8>) -> Seq<char> {
    match pointed_at(body, le16_at(body, 44) as nat, le16_at(body, 46) as nat) {
        Some(p) => utf16le_text(p),
        None => Seq::empty(),
    }
}

/// Creating a file or a directory on the remote side.
pub open spec fn ask_create(hdr: Smb2Header, path: Seq<char>, want_dir: bool, flags: u32) -> StepView {
    if want_dir {
        StepView::Ask(CallOf::Mkdir { path, mode: NEW_DIR_MODE }, hdr, ThenOf::Made { path })
    } else {
        StepView::Ask(
            CallOf::Open { path, flags, mode: NEW_FILE_MODE },
            hdr,
            ThenOf::Opened { path },
        )
    }
}

/// The flags with which OPEN_IF creates a file.
pub const OPEN_IF_FLAGS: u32 = SSH_FXF_CREAT | SSH_FXF_READ | SSH_FXF_WRITE;

/// The flags with which a file is created or emptied.
pub const NEW_FILE_FLAGS: u32 = SSH_FXF_CREAT | SSH_FXF_WRITE | SSH_FXF_TRUNC;

/// How CREATE goes on once the attributes of the path are known, or the status
/// that says why they are not.
pub open spec fn create_goal(
    m: SessionModel,
    hdr: Smb2Header,
    goal: Goal,
    path: Seq<char>,
    found: Result<(FileAttr, bool), u32>,
) -> (SessionModel, StepView) {
    match (goal, found) {
        (Goal::CreateNew { .. }, Ok(_)) => (m, refused(hdr, STATUS_OBJECT_NAME_COLLISION)),
        (_, Ok((attr, is_dir))) => opened(m, hdr, path, attr, is_dir),
        (Goal::OpenOrCreate { want_dir }, Err(_)) => (
            m,
            ask_create(hdr, path, want_dir, OPEN_IF_FLAGS),
        ),
        (Goal::CreateNew { want_dir }, Err(_)) => (
            m,
            ask_create(hdr, path, want_dir, NEW_FILE_FLAGS),
        ),
        (_, Err(status)) => (m, refused(hdr, status)),
    }
}

/// Handling CREATE on the share of files.
pub open spec fn create_file_step(
    m: SessionModel,
    hdr: Smb2Header,
    body: Seq<u8>,
    t: Moment,
) -> (SessionModel, StepView) {
    let rel = create_name(body);
    let path = remote_path(m.root, rel);
    let disposition = le32_at(body, 36);
    let want_dir = le32_at(body, 40) & FILE_DIRECTORY_FILE != 0;
    if spotlight_inhibitor(rel) {
        opened(m, hdr, path, inhibitor_attr(t.wall), false)
    } else if disposition == FILE_SUPERSEDE || disposition == FILE_OPEN {
        stat_step(m, hdr, Goal::Existing, path, t)
    } else if disposition == FILE_OPEN_IF {
        stat_step(m, hdr, Goal::OpenOrCreate { want_dir }, path, t)
    } else if disposition == FILE_CREATE {
        stat_step(m, hdr, Goal::CreateNew { want_dir }, path, t)
    } else if disposition == FILE_OVERWRITE || disposition == FILE_OVERWRITE_IF {
        (m, ask_create(hdr, path, false, NEW_FILE_FLAGS))
    } else {
        (m, refused(hdr, STATUS_INVALID_PARAMETER))
    }
}

/// Handling CREATE.
pub open spec fn create_step(m: SessionModel, hdr: Smb2Header, body: Seq<u8>, t: Moment) -> (
    SessionModel,
    StepView,
) {
    if body.len() < 48 {
        (m, refused(hdr, STATUS_INVALID_PARAMETER))
    } else if m.ipc_tree_id == Some(hdr.tree_id) {
        if lower_all(create_name(body)) == "srvsvc"@ {
            opened_pipe(m, hdr, t.wall)
        } else {
            (m, refused(hdr, STATUS_OBJECT_NAME_NOT_FOUND))
        }
    } else {
        create_file_step(m, hdr, body, t)
    }
}

/// How CREATE goes on once a directory was made.
pub open spec fn made_step(
    m: SessionModel,
    hdr: Smb2Header,
    path: Seq<char>,
    reply: ReplyView,
    t: Moment,
) -> (SessionModel, StepView) {
    match reply {
        ReplyView::Nothing(Ok(_)) => stat_step(forgotten(m, path), hdr, Goal::Existing, path, t),
        _ => (m, refused(hdr, STATUS_ACCESS_DENIED)),
    }
}

/// How CREATE goes on once a file was created: its handle is closed again.
pub open spec fn opened_step(
    m: SessionModel,
    hdr: Smb2Header,
    path: Seq<char>,
    reply: ReplyView,
) -> (SessionModel, StepView) {
    match reply {
        ReplyView::Handle(Ok(handle)) => (
            m,
            StepView::Ask(CallOf::Close { handle }, hdr, ThenOf::Created { path }),
        ),
        _ => (m, refused(hdr, STATUS_ACCESS_DENIED)),
    }
}

/// How CREATE goes on once the file that it created was closed.
pub open spec fn created_step(
    m: SessionModel,
    hdr: Smb2Header,
    path: Seq<char>,
    t: Moment,
) -> (SessionModel, StepView) {
    stat_step(forgotten(m, path), hdr, Goal::Existing, path, t)
}

// ── CLOSE ───────────────────────────────────────────────────────────

/// The body of a response to CLOSE.
pub open spec fn close_body() -> Seq<u8> {
    le16(60) + le16(0) + le32(0) + zeros(48)
}

/// Handling CLOSE: the handle is gone, whatever the remote side says.
pub open spec fn close_step(m: SessionModel, hdr: Smb2Header, body: Seq<u8>) -> (
    SessionModel,
    StepView,
) {
    let fid = if body.len() >= 24 {
        resolved(m, le64_at(body, 8))
    } else {
        0
    };
    let after = SessionModel { handles: m.handles.remove(fid), ..m };
    if m.handles.contains_key(fid) {
        match m.handles[fid].remote {
            Some(handle) => (after, StepView::Ask(CallOf::Close { handle }, hdr, ThenOf::Closed)),
            None => (after, answered(hdr, STATUS_SUCCESS, close_body())),
        }
    } else {
        (after, answered(hdr, STATUS_SUCCESS, close_body()))
    }
}

fn names_srvsvc(name: &str) -> (r: bool)
    ensures
        r == (lower_all(name@) == "srvsvc"@),
{
    let chars = chars_of(name);
    let mut low: Vec<char> = Vec::new();
    let mut i: usize = 0;
    while i < chars.len()
        invariant
            i <= chars@.len(),
            low@ == lower_all(chars@).take(i as int),
        decreases chars@.len() - i,
    {
        low.push(to_lower(chars[i]));
        i += 1;
        assert(low@ =~= lower_all(chars@).take(i as int));
    }
    assert(low@ =~= lower_all(name@));
    str_eq(&string_of(&low), "srvsvc")
}

fn ask_to_create(hdr: &Smb2Header, path: &str, want_dir: bool, flags: u32) -> (s: Step)
    ensures
        s@ == ask_create(*hdr, path@, want_dir, flags),
{
    if want_dir {
        ask(
            hdr,
            CallOf::Mkdir { path: String::from_str(path), mode: NEW_DIR_MODE },
            ThenOf::Made { path: String::from_str(path) },
        )
    } else {
        ask(
            hdr,
            CallOf::Open { path: String::from_str(path), flags, mode: NEW_FILE_MODE },
            ThenOf::Opened { path: String::from_str(path) },
        )
    }
}

impl SmbSession {
    fn add_handle(&mut self, handle: OpenHandle) -> (id: u64)
        requires
            old(self).next_handle < u64::MAX,
        ensures
            id == old(self)@.next_handle,
            final(self)@ == with_handle(old(self)@, handle@),
    {
        let id = self.alloc_handle();
        self.last_create_handle = id;
        self.handles.insert(id, handle);
        id
    }

    /// Gives a path a handle and answers CREATE.
    pub fn respond_create_success(
        &mut self,
        hdr: &Smb2Header,
        path: &str,
        attr: &FileAttr,
        is_dir: bool,
    ) -> (s: Step)
        requires
            old(self).next_handle < u64::MAX,
        ensures
            (final(self)@, s@) == opened(old(self)@, *hdr, path@, *attr, is_dir),
    {
        let id = self.add_handle(OpenHandle::fresh(String::from_str(path), is_dir, false));
        let mut resp = put_create_body(
            unix_to_filetime(attr.mtime as u64),
            unix_to_filetime(attr.atime as u64),
            attr.size,
            attributes_of(is_dir),
            id,
        );
        put_u8(&mut resp, 0);
        answer(hdr, STATUS_SUCCESS, &resp)
    }

    /// Goes on with CREATE once it is known whether the path exists.
    pub(crate) fn go_on_creating(
        &mut self,
        hdr: &Smb2Header,
        goal: Goal,
        path: &str,
        found: Result<(FileAttr, bool), u32>,
    ) -> (s: Step)
        requires
            old(self).next_handle < u64::MAX,
        ensures
            (final(self)@, s@) == create_goal(old(self)@, *hdr, goal, path@, found),
    {
        match found {
            Ok((attr, is_dir)) => match goal {
                Goal::CreateNew { .. } => error_response(hdr, STATUS_OBJECT_NAME_COLLISION),
                _ => self.respond_create_success(hdr, path, &attr, is_dir),
            },
            Err(status) => match goal {
                Goal::OpenOrCreate { want_dir } => ask_to_create(
                    hdr,
                    path,
                    want_dir,
                    OPEN_IF_FLAGS,
                ),
                Goal::CreateNew { want_dir } => ask_to_create(hdr, path, want_dir, NEW_FILE_FLAGS),
                _ => error_response(hdr, status),
            },
        }
    }

    fn create_file(&mut self, hdr: &Smb2Header, body: &[u8], rel: &str, t: Moment) -> (s: Step)
        requires
            old(self).next_handle < u64::MAX,
            t.now < CLOCK_END,
            body@.len() >= 48,
            rel@ == create_name(body@),
        ensures
            (final(self)@, s@) == create_file_step(old(self)@, *hdr, body@, t),
    {
        let disposition = read_u32_le(body, 36);
        let want_dir = read_u32_le(body, 40) & FILE_DIRECTORY_FILE != 0;
        let path = self.full_path(rel);
        if is_spotlight_inhibitor(rel) {
            return self.respond_create_success(hdr, &path, &fake_attr(t.wall), false);
        }
        if disposition == FILE_SUPERSEDE || disposition == FILE_OPEN {
            self.stat_cached(hdr, Goal::Existing, &path, t)
        } else if disposition == FILE_OPEN_IF {
            self.stat_cached(hdr, Goal::OpenOrCreate { want_dir }, &path, t)
        } else if disposition == FILE_CREATE {
            self.stat_cached(hdr, Goal::CreateNew { want_dir }, &path, t)
        } else if disposition == FILE_OVERWRITE || disposition == FILE_OVERWRITE_IF {
            ask_to_create(hdr, &path, false, NEW_FILE_FLAGS)
        } else {
            error_response(hdr, STATUS_INVALID_PARAMETER)
        }
    }

    /// Handles CREATE.
    pub fn handle_create(&mut self, hdr: &Smb2Header, body: &[u8], t: Moment) -> (s: Step)
        requires
            old(self).next_handle < u64::MAX,
            t.now < CLOCK_END,
        ensures
            (final(self)@, s@) == create_step(old(self)@, *hdr, body@, t),
    {
        if body.len() < 48 {
            return error_response(hdr, STATUS_INVALID_PARAMETER);
        }
        let rel = match find_part(
            body,
            read_u16_le(body, 44) as u32,
            read_u16_le(body, 46) as u32,
        ) {
            Some(p) => from_utf16le(p),
            None => String::new(),
        };
        assert(rel@ =~= create_name(body@));
        let on_pipes = match self.ipc_tree_id {
            Some(tid) => tid == hdr.tree_id,
            None => false,
        };
        if on_pipes {
            if !names_srvsvc(&rel) {
                return error_response(hdr, STATUS_OBJECT_NAME_NOT_FOUND);
            }
            let time = unix_to_filetime(t.wall);
            let id = self.add_handle(OpenHandle::fresh(String::from_str("srvsvc"), false, true));
            let resp = put_create_body(time, time, 0, FILE_ATTRIBUTE_NORMAL, id);
            return answer(hdr, STATUS_SUCCESS, &resp);
        }
        self.create_file(hdr, body, &rel, t)
    }

    /// Goes on with CREATE once a directory was made.
    pub(crate) fn on_made(
        &mut self,
        hdr: &Smb2Header,
        path: &str,
        reply: &SftpReply,
        t: Moment,
    ) -> (s: Step)
        requires
            old(self).next_handle < u64::MAX,
            t.now < CLOCK_END,
        ensures
            (final(self)@, s@) == made_step(old(self)@, *hdr, path@, reply@, t),
    {
        match reply {
            SftpReply::Nothing(Ok(_)) => {
                self.invalidate_path(path);
                self.stat_cached(hdr, Goal::Existing, path, t)
            },
            _ => error_response(hdr, STATUS_ACCESS_DENIED),
        }
    }

    /// Goes on with CREATE once a file was created.
    pub(crate) fn on_opened(&self, hdr: &Smb2Header, path: String, reply: SftpReply) -> (s: Step)
        ensures
            (self@, s@) == opened_step(self@, *hdr, path@, reply@),
    {
        match reply {
            SftpReply::Handle(Ok(handle)) => ask(
                hdr,
                CallOf::Close { handle },
                ThenOf::Created { path },
            ),
            _ => error_response(hdr, STATUS_ACCESS_DENIED),
        }
    }

    /// Goes on with CREATE once the file that it created was closed.
    pub(crate) fn on_created(&mut self, hdr: &Smb2Header, path: &str, t: Moment) -> (s: Step)
        requires
            old(self).next_handle < u64::MAX,
            t.now < CLOCK_END,
        ensures
            (final(self)@, s@) == created_step(old(self)@, *hdr, path@, t),
    {
        self.invalidate_path(path);
        self.stat_cached(hdr, Goal::Existing, path, t)
    }

    /// Answers CLOSE once the remote handle was closed.
    pub(crate) fn answer_close(&self, hdr: &Smb2Header) -> (s: Step)
        ensures
            s@ == answered(*hdr, STATUS_SUCCESS, close_body()),
    {
        let mut resp: Vec<u8> = Vec::new();
        put_u16_le(&mut resp, 60);
        put_u16_le(&mut resp, 0);
        put_u32_le(&mut resp, 0);
        put_zeros(&mut resp, 48);
        assert(resp@ =~= close_body());
        answer(hdr, STATUS_SUCCESS, &resp)
    }

    /// Handles CLOSE.
    pub fn handle_close(&mut self, hdr: &Smb2Header, body: &[u8]) -> (s: Step)
        ensures
            (final(self)@, s@) == close_step(old(self)@, *hdr, body@),
    {
        let fid = if body.len() >= 24 {
            self.resolve_fid(read_u64_le(body, 8))
        } else {
            0
        };
        if let Some(h) = self.handles.remove(fid) {
            if let Some(handle) = h.sftp_handle {
                return ask(hdr, CallOf::Close { handle }, ThenOf::Closed);
            }
        }
        self.answer_close(hdr)
    }
}

} // verus!

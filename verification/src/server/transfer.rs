//! The contents of files and pipes: READ and WRITE.

use crate::bytes::{
    le16, le16_at, le32, le32_at, le64_at, put_all, put_u16_le, put_u32_le, put_u8, read_u16_le,
    read_u32_le, read_u64_le, slice_copy,
};
use crate::server::handles::{ahead_part, AheadModel, HandleModel, OpenHandle, ReadAhead};
use crate::server::pipe::rpc_answer;
use crate::server::setup::{find_part, pointed_at};
use crate::server::state::{forgotten, inhibitor_path, reconnected, resolved, SessionModel, SmbSession};
use crate::server::step::{
    answer, answered, ask, error_response, refused, Step, StepView, ThenOf,
};
use crate::sftp::call::{error_is_broken, is_broken, CallOf, ReplyView, SftpReply};
use crate::sftp::packet::{SSH_FXF_READ, SSH_FXF_WRITE};
use crate::smb2::{
    Smb2Header, SMB2_HEADER_SIZE, STATUS_ACCESS_DENIED, STATUS_END_OF_FILE,
    STATUS_INVALID_PARAMETER, STATUS_SUCCESS,
};
use vstd::prelude::*;
use vstd::slice::slice_subrange;

verus! {

/// The least that is read from the remote side at a time.
pub const READAHEAD_SIZE: u32 = 2 * 1024 * 1024;

// ── READ ────────────────────────────────────────────────────────────

/// The body of a response to READ.
pub open spec fn read_body(data: Seq<u8>) -> Seq<u8> {
    le16(17) + le16((SMB2_HEADER_SIZE + 16) as u16) + le32(data.len() as u32) + le32(0) + le32(0)
        + data
}

/// The session with another state of a handle that it has.
pub open spec fn with_state(m: SessionModel, fid: u64, h: HandleModel) -> SessionModel {
    if m.handles.contains_key(fid) {
        SessionModel { handles: m.handles.insert(fid, h), ..m }
    } else {
        m
    }
}

/// How much is read from the remote side for a read of `length` bytes.
pub open spec fn fetch_len(length: u32) -> u32 {
    if length > READAHEAD_SIZE {
        length
    } else {
        READAHEAD_SIZE
    }
}

/// Serving a read from an open file: from what is at hand, else from the remote
/// side.
pub open spec fn serve_read(
    m: SessionModel,
    hdr: Smb2Header,
    fid: u64,
    offset: u64,
    length: u32,
) -> StepView {
    let h = m.handles[fid];
    let at_hand = match h.ahead {
        Some(ra) => ahead_part(ra, offset, length as nat),
        None => None,
    };
    match at_hand {
        Some(data) => answered(hdr, STATUS_SUCCESS, read_body(data)),
        None => match h.remote {
            Some(handle) => StepView::Ask(
                CallOf::Read { handle, offset, len: fetch_len(length) },
                hdr,
                ThenOf::ReadDone { fid, offset, length, path: h.path },
            ),
            None => refused(hdr, STATUS_INVALID_PARAMETER),
        },
    }
}

/// Handling READ. The file that keeps Spotlight away is empty.
pub open spec fn read_step(m: SessionModel, hdr: Smb2Header, body: Seq<u8>) -> (
    SessionModel,
    StepView,
) {
    if body.len() < 32 {
        (m, refused(hdr, STATUS_INVALID_PARAMETER))
    } else {
        let length = le32_at(body, 4);
        let offset = le64_at(body, 8);
        let fid = resolved(m, le64_at(body, 16));
        if !m.handles.contains_key(fid) {
            (m, refused(hdr, STATUS_INVALID_PARAMETER))
        } else {
            let h = m.handles[fid];
            if h.is_pipe {
                match h.answer {
                    Some(data) => (
                        with_state(m, fid, HandleModel { answer: None, ..h }),
                        answered(hdr, STATUS_SUCCESS, read_body(data)),
                    ),
                    None => (m, refused(hdr, STATUS_END_OF_FILE)),
                }
            } else if h.path == inhibitor_path(m.root) {
                (m, refused(hdr, STATUS_END_OF_FILE))
            } else if h.remote is None {
                (
                    m,
                    StepView::Ask(
                        CallOf::Open { path: h.path, flags: SSH_FXF_READ, mode: 0 },
                        hdr,
                        ThenOf::ReadOpened { fid, offset, length },
                    ),
                )
            } else {
                (m, serve_read(m, hdr, fid, offset, length))
            }
        }
    }
}

/// How READ goes on once the file was opened.
pub open spec fn read_opened_step(
    m: SessionModel,
    hdr: Smb2Header,
    fid: u64,
    offset: u64,
    length: u32,
    reply: ReplyView,
) -> (SessionModel, StepView) {
    match reply {
        ReplyView::Handle(Ok(handle)) => if m.handles.contains_key(fid) {
            let o = with_state(m, fid, HandleModel { remote: Some(handle), ..m.handles[fid] });
            (o, serve_read(o, hdr, fid, offset, length))
        } else {
            (m, refused(hdr, STATUS_INVALID_PARAMETER))
        },
        _ => (m, refused(hdr, STATUS_ACCESS_DENIED)),
    }
}

/// Answering READ with what the remote side gave. All of it is kept at hand.
pub open spec fn read_data(
    m: SessionModel,
    hdr: Smb2Header,
    fid: u64,
    offset: u64,
    length: u32,
    data: Seq<u8>,
    handle: Option<Seq<u8>>,
) -> (SessionModel, StepView) {
    if data.len() == 0 {
        (m, refused(hdr, STATUS_END_OF_FILE))
    } else {
        let part = if data.len() <= length {
            data
        } else {
            data.take(length as int)
        };
        let h = m.handles[fid];
        (
            with_state(
                m,
                fid,
                HandleModel {
                    ahead: Some(AheadModel { data, offset }),
                    remote: match handle {
                        Some(r) => Some(r),
                        None => h.remote,
                    },
                    ..h
                },
            ),
            answered(hdr, STATUS_SUCCESS, read_body(part)),
        )
    }
}

/// How READ goes on once the remote side was read. Where the connection broke,
/// the file is opened again.
pub open spec fn read_done_step(
    m: SessionModel,
    hdr: Smb2Header,
    fid: u64,
    offset: u64,
    length: u32,
    path: Seq<char>,
    reply: ReplyView,
) -> (SessionModel, StepView) {
    match reply {
        ReplyView::Data(Ok(data)) => read_data(m, hdr, fid, offset, length, data, None),
        ReplyView::Data(Err(e)) => if is_broken(e) {
            (
                reconnected(m),
                StepView::Ask(
                    CallOf::Open { path, flags: SSH_FXF_READ, mode: 0 },
                    hdr,
                    ThenOf::ReadReopened { fid, offset, length },
                ),
            )
        } else {
            (m, refused(hdr, STATUS_ACCESS_DENIED))
        },
        _ => (m, refused(hdr, STATUS_ACCESS_DENIED)),
    }
}

/// How READ goes on once the file was opened again.
pub open spec fn read_reopened_step(
    hdr: Smb2Header,
    fid: u64,
    offset: u64,
    length: u32,
    reply: ReplyView,
) -> StepView {
    match reply {
        ReplyView::Handle(Ok(handle)) => StepView::Ask(
            CallOf::Read { handle, offset, len: fetch_len(length) },
            hdr,
            ThenOf::ReadAgain { fid, offset, length, handle },
        ),
        _ => refused(hdr, STATUS_ACCESS_DENIED),
    }
}

/// How READ goes on once the file was read again.
pub open spec fn read_again_step(
    m: SessionModel,
    hdr: Smb2Header,
    fid: u64,
    offset: u64,
    length: u32,
    handle: Seq<u8>,
    reply: ReplyView,
) -> (SessionModel, StepView) {
    match reply {
        ReplyView::Data(Ok(data)) => read_data(m, hdr, fid, offset, length, data, Some(handle)),
        _ => (m, refused(hdr, STATUS_ACCESS_DENIED)),
    }
}

// ── WRITE ───────────────────────────────────────────────────────────

/// The body of a response to WRITE.
pub open spec fn write_body(length: u32) -> Seq<u8> {
    le16(17) + le16(0) + le32(length) + le32(0) + le16(0) + le16(0)
}

/// A file was written.
pub open spec fn written(m: SessionModel, hdr: Smb2Header, path: Seq<char>, length: u32) -> (
    SessionModel,
    StepView,
) {
    (forgotten(m, path), answered(hdr, STATUS_SUCCESS, write_body(length) + seq![0u8]))
}

/// Writing to an open file. What was at hand of it no longer holds.
pub open spec fn serve_write(
    m: SessionModel,
    hdr: Smb2Header,
    fid: u64,
    offset: u64,
    data: Seq<u8>,
) -> (SessionModel, StepView) {
    let h = m.handles[fid];
    (
        with_state(m, fid, HandleModel { ahead: None, ..h }),
        match h.remote {
            Some(handle) => StepView::Ask(
                CallOf::Write { handle, offset, data },
                hdr,
                ThenOf::WriteDone { fid, offset, data, path: h.path },
            ),
            None => refused(hdr, STATUS_ACCESS_DENIED),
        },
    )
}

/// Handling WRITE.
pub open spec fn write_step(m: SessionModel, hdr: Smb2Header, body: Seq<u8>) -> (
    SessionModel,
    StepView,
) {
    if body.len() < 32 {
        (m, refused(hdr, STATUS_INVALID_PARAMETER))
    } else {
        let length = le32_at(body, 4);
        let offset = le64_at(body, 8);
        let fid = resolved(m, le64_at(body, 16));
        match pointed_at(body, le16_at(body, 2) as nat, length as nat) {
            None => (m, refused(hdr, STATUS_INVALID_PARAMETER)),
            Some(data) => if !m.handles.contains_key(fid) {
                (m, refused(hdr, STATUS_INVALID_PARAMETER))
            } else {
                let h = m.handles[fid];
                if h.is_pipe {
                    (
                        with_state(
                            m,
                            fid,
                            HandleModel { answer: Some(rpc_answer(m.share, data)), ..h },
                        ),
                        answered(hdr, STATUS_SUCCESS, write_body(length)),
                    )
                } else if h.remote is None {
                    (
                        m,
                        StepView::Ask(
                            CallOf::Open { path: h.path, flags: SSH_FXF_WRITE, mode: 0 },
                            hdr,
                            ThenOf::WriteOpened { fid, offset, data },
                        ),
                    )
                } else {
                    serve_write(m, hdr, fid, offset, data)
                }
            },
        }
    }
}

/// How WRITE goes on once the file was opened.
pub open spec fn write_opened_step(
    m: SessionModel,
    hdr: Smb2Header,
    fid: u64,
    offset: u64,
    data: Seq<u8>,
    reply: ReplyView,
) -> (SessionModel, StepView) {
    match reply {
        ReplyView::Handle(Ok(handle)) => if m.handles.contains_key(fid) {
            serve_write(
                with_state(m, fid, HandleModel { remote: Some(handle), ..m.handles[fid] }),
                hdr,
                fid,
                offset,
                data,
            )
        } else {
            (m, refused(hdr, STATUS_INVALID_PARAMETER))
        },
        _ => (m, refused(hdr, STATUS_ACCESS_DENIED)),
    }
}

/// How WRITE goes on once the remote side was written. Where the connection
/// broke, the file is opened again.
pub open spec fn write_done_step(
    m: SessionModel,
    hdr: Smb2Header,
    fid: u64,
    offset: u64,
    data: Seq<u8>,
    path: Seq<char>,
    reply: ReplyView,
) -> (SessionModel, StepView) {
    match reply {
        ReplyView::Nothing(Ok(_)) => written(m, hdr, path, data.len() as u32),
        ReplyView::Nothing(Err(e)) => if is_broken(e) {
            (
                reconnected(m),
                StepView::Ask(
                    CallOf::Open { path, flags: SSH_FXF_WRITE, mode: 0 },
                    hdr,
                    ThenOf::WriteReopened { fid, offset, data, path },
                ),
            )
        } else {
            (m, refused(hdr, STATUS_ACCESS_DENIED))
        },
        _ => (m, refused(hdr, STATUS_ACCESS_DENIED)),
    }
}

/// How WRITE goes on once the file was opened again.
pub open spec fn write_reopened_step(
    hdr: Smb2Header,
    fid: u64,
    offset: u64,
    data: Seq<u8>,
    path: Seq<char>,
    reply: ReplyView,
) -> StepView {
    match reply {
        ReplyView::Handle(Ok(handle)) => StepView::Ask(
            CallOf::Write { handle, offset, data },
            hdr,
            ThenOf::WriteAgain { fid, length: data.len() as u32, handle, path },
        ),
        _ => refused(hdr, STATUS_ACCESS_DENIED),
    }
}

/// How WRITE goes on once the file was written again.
pub open spec fn write_again_step(
    m: SessionModel,
    hdr: Smb2Header,
    fid: u64,
    length: u32,
    handle: Seq<u8>,
    path: Seq<char>,
    reply: ReplyView,
) -> (SessionModel, StepView) {
    let o = with_state(m, fid, HandleModel { remote: Some(handle), ..m.handles[fid] });
    match reply {
        ReplyView::Nothing(Ok(_)) => written(o, hdr, path, length),
        _ => (o, refused(hdr, STATUS_ACCESS_DENIED)),
    }
}

// ── Laws ────────────────────────────────────────────────────────────

/// A read that the remote side has served is served again without it: the same
/// read, right after, gives the same bytes and asks for nothing.
pub proof fn law_second_read_is_at_hand(
    m: SessionModel,
    hdr: Smb2Header,
    fid: u64,
    offset: u64,
    length: u32,
    data: Seq<u8>,
)
    requires
        m.handles.contains_key(fid),
        data.len() > 0,
        data.len() >= length,
    ensures
        serve_read(
            read_data(m, hdr, fid, offset, length, data, None).0,
            hdr,
            fid,
            offset,
            length,
        ) == read_data(m, hdr, fid, offset, length, data, None).1,
{
    assert(data.subrange(0, length as int) =~= data.take(length as int));
    assert(data.take(data.len() as int) =~= data);
}

/// A read after a write never gives what was at hand before it: the write has
/// put that away.
pub proof fn law_writes_put_read_ahead_away(
    m: SessionModel,
    hdr: Smb2Header,
    fid: u64,
    offset: u64,
    data: Seq<u8>,
)
    requires
        m.handles.contains_key(fid),
    ensures
        serve_write(m, hdr, fid, offset, data).0.handles[fid].ahead is None,
{
}

/// What a pipe was written is what it gives back: the next read takes the
/// answer, and the one after it finds none.
pub proof fn law_pipe_answers_once(m: SessionModel, hdr: Smb2Header, fid: u64, answer: Seq<u8>, body: Seq<u8>)
    requires
        m.handles.contains_key(fid),
        m.handles[fid].is_pipe,
        m.handles[fid].answer == Some(answer),
        body.len() >= 32,
        resolved(m, le64_at(body, 16)) == fid,
    ensures
        read_step(m, hdr, body).1 == answered(hdr, STATUS_SUCCESS, read_body(answer)),
        read_step(read_step(m, hdr, body).0, hdr, body).1 == refused(hdr, STATUS_END_OF_FILE),
{
}

/// After the connection broke nothing that was known of the remote side is
/// used: no attributes, no listings, no remote handles and nothing at hand. The
/// handles themselves stay, with their paths.
pub proof fn law_reconnect_keeps_only_the_handles(m: SessionModel, fid: u64, path: Seq<char>, now: u128)
    ensures
        reconnected(m).handles.contains_key(fid) == m.handles.contains_key(fid),
        m.handles.contains_key(fid) ==> {
            let h = reconnected(m).handles[fid];
            &&& h.path == m.handles[fid].path
            &&& h.is_dir == m.handles[fid].is_dir
            &&& h.remote is None
            &&& h.ahead is None
        },
        crate::server::cache::attrs_known(reconnected(m).attrs, path, now) is None,
        !crate::server::cache::absence_known(reconnected(m).attrs, path, now),
        crate::server::cache::listing_known(reconnected(m).dirs, path, now) is None,
{
}

// ── The handlers ────────────────────────────────────────────────────

fn write_read_response(hdr: &Smb2Header, data: &[u8]) -> (s: Step)
    ensures
        s@ == answered(*hdr, STATUS_SUCCESS, read_body(data@)),
{
    let mut resp: Vec<u8> = Vec::new();
    put_u16_le(&mut resp, 17);
    assert(resp@ =~= le16(17));
    put_u16_le(&mut resp, (SMB2_HEADER_SIZE + 16) as u16);
    put_u32_le(
        &mut resp,
        #[verifier::truncate]
        (data.len() as u32),
    );
    put_u32_le(&mut resp, 0);
    put_u32_le(&mut resp, 0);
    put_all(&mut resp, data);
    answer(hdr, STATUS_SUCCESS, &resp)
}

fn put_write_body(length: u32) -> (out: Vec<u8>)
    ensures
        out@ == write_body(length),
{
    let mut out: Vec<u8> = Vec::new();
    put_u16_le(&mut out, 17);
    assert(out@ =~= le16(17));
    put_u16_le(&mut out, 0);
    put_u32_le(&mut out, length);
    put_u32_le(&mut out, 0);
    put_u16_le(&mut out, 0);
    put_u16_le(&mut out, 0);
    out
}

fn fetch_length(length: u32) -> (n: u32)
    ensures
        n == fetch_len(length),
{
    if length > READAHEAD_SIZE {
        length
    } else {
        READAHEAD_SIZE
    }
}

impl SmbSession {
    fn serve_read_at(&self, hdr: &Smb2Header, fid: u64, offset: u64, length: u32) -> (s: Step)
        requires
            self@.handles.contains_key(fid),
        ensures
            s@ == serve_read(self@, *hdr, fid, offset, length),
    {
        let h = match self.handles.get(fid) {
            Some(h) => h,
            None => return error_response(hdr, STATUS_INVALID_PARAMETER),
        };
        if let Some(ra) = &h.readahead {
            if let Some(data) = ra.part(offset, length) {
                return write_read_response(hdr, &data);
            }
        }
        match &h.sftp_handle {
            Some(handle) => ask(
                hdr,
                CallOf::Read { handle: slice_copy(handle), offset, len: fetch_length(length) },
                ThenOf::ReadDone { fid, offset, length, path: h.path.clone() },
            ),
            None => error_response(hdr, STATUS_INVALID_PARAMETER),
        }
    }

    fn read_pipe(&mut self, hdr: &Smb2Header, fid: u64) -> (s: Step)
        requires
            old(self)@.handles.contains_key(fid),
        ensures
            ({
                let h = old(self)@.handles[fid];
                match h.answer {
                    Some(data) => final(self)@ == with_state(
                        old(self)@,
                        fid,
                        HandleModel { answer: None, ..h },
                    ) && s@ == answered(*hdr, STATUS_SUCCESS, read_body(data)),
                    None => final(self)@ == old(self)@ && s@ == refused(*hdr, STATUS_END_OF_FILE),
                }
            }),
    {
        let ghost before = self@.handles;
        let h = match self.handles.remove(fid) {
            Some(h) => h,
            None => return error_response(hdr, STATUS_END_OF_FILE),
        };
        match h.pipe_response {
            Some(data) => {
                self.handles.insert(fid, OpenHandle { pipe_response: None, ..h });
                assert(self@.handles =~= before.insert(
                    fid,
                    HandleModel { answer: None, ..before[fid] },
                ));
                write_read_response(hdr, &data)
            },
            None => {
                self.handles.insert(fid, OpenHandle { pipe_response: None, ..h });
                assert(self@.handles =~= before);
                error_response(hdr, STATUS_END_OF_FILE)
            },
        }
    }

    /// Handles READ.
    pub fn handle_read(&mut self, hdr: &Smb2Header, body: &[u8]) -> (s: Step)
        ensures
            (final(self)@, s@) == read_step(old(self)@, *hdr, body@),
    {
        if body.len() < 32 {
            return error_response(hdr, STATUS_INVALID_PARAMETER);
        }
        let length = read_u32_le(body, 4);
        let offset = read_u64_le(body, 8);
        let fid = self.resolve_fid(read_u64_le(body, 16));
        let h = match self.handles.get(fid) {
            Some(h) => h,
            None => return error_response(hdr, STATUS_INVALID_PARAMETER),
        };
        if h.is_pipe {
            return self.read_pipe(hdr, fid);
        }
        if self.is_inhibitor_path(&h.path) {
            return error_response(hdr, STATUS_END_OF_FILE);
        }
        match &h.sftp_handle {
            None => ask(
                hdr,
                CallOf::Open { path: h.path.clone(), flags: SSH_FXF_READ, mode: 0 },
                ThenOf::ReadOpened { fid, offset, length },
            ),
            Some(_) => self.serve_read_at(hdr, fid, offset, length),
        }
    }

    fn set_remote(&mut self, fid: u64, handle: Vec<u8>)
        ensures
            final(self)@ == with_state(
                old(self)@,
                fid,
                HandleModel { remote: Some(handle@), ..old(self)@.handles[fid] },
            ),
    {
        let ghost before = self@.handles;
        let ghost remote = handle@;
        if let Some(h) = self.handles.remove(fid) {
            self.handles.insert(fid, OpenHandle { sftp_handle: Some(handle), ..h });
            assert(self@.handles =~= before.insert(
                fid,
                HandleModel { remote: Some(remote), ..before[fid] },
            ));
        } else {
            assert(self@.handles =~= before);
        }
    }

    /// Goes on with READ once the file was opened.
    pub(crate) fn on_read_opened(
        &mut self,
        hdr: &Smb2Header,
        fid: u64,
        offset: u64,
        length: u32,
        reply: SftpReply,
    ) -> (s: Step)
        ensures
            (final(self)@, s@) == read_opened_step(
                old(self)@,
                *hdr,
                fid,
                offset,
                length,
                reply@,
            ),
    {
        match reply {
            SftpReply::Handle(Ok(handle)) => {
                if self.handles.get(fid).is_none() {
                    return error_response(hdr, STATUS_INVALID_PARAMETER);
                }
                self.set_remote(fid, handle);
                self.serve_read_at(hdr, fid, offset, length)
            },
            _ => error_response(hdr, STATUS_ACCESS_DENIED),
        }
    }

    fn answer_read(
        &mut self,
        hdr: &Smb2Header,
        fid: u64,
        offset: u64,
        length: u32,
        data: Vec<u8>,
        handle: Option<Vec<u8>>,
    ) -> (s: Step)
        ensures
            (final(self)@, s@) == read_data(
                old(self)@,
                *hdr,
                fid,
                offset,
                length,
                data@,
                crate::server::handles::bytes_view(handle),
            ),
    {
        if data.len() == 0 {
            return error_response(hdr, STATUS_END_OF_FILE);
        }
        let s = if data.len() as u64 <= length as u64 {
            write_read_response(hdr, &data)
        } else {
            let part = slice_subrange(&data, 0, length as usize);
            assert(part@ =~= data@.take(length as int));
            write_read_response(hdr, part)
        };
        let ghost before = self@.handles;
        let ghost all = data@;
        let ghost remote = crate::server::handles::bytes_view(handle);
        if let Some(h) = self.handles.remove(fid) {
            let sftp_handle = match handle {
                Some(r) => Some(r),
                None => h.sftp_handle,
            };
            let readahead = Some(ReadAhead { data, offset });
            self.handles.insert(fid, OpenHandle { sftp_handle, readahead, ..h });
            assert(self@.handles =~= before.insert(
                fid,
                HandleModel {
                    ahead: Some(AheadModel { data: all, offset }),
                    remote: match remote {
                        Some(r) => Some(r),
                        None => before[fid].remote,
                    },
                    ..before[fid]
                },
            ));
        } else {
            assert(self@.handles =~= before);
        }
        s
    }

    /// Goes on with READ once the remote side was read.
    pub(crate) fn on_read_done(
        &mut self,
        hdr: &Smb2Header,
        fid: u64,
        offset: u64,
        length: u32,
        path: String,
        reply: SftpReply,
    ) -> (s: Step)
        ensures
            (final(self)@, s@) == read_done_step(
                old(self)@,
                *hdr,
                fid,
                offset,
                length,
                path@,
                reply@,
            ),
    {
        match reply {
            SftpReply::Data(Ok(data)) => self.answer_read(hdr, fid, offset, length, data, None),
            SftpReply::Data(Err(e)) => {
                if error_is_broken(&e) {
                    self.on_reconnect();
                    ask(
                        hdr,
                        CallOf::Open { path, flags: SSH_FXF_READ, mode: 0 },
                        ThenOf::ReadReopened { fid, offset, length },
                    )
                } else {
                    error_response(hdr, STATUS_ACCESS_DENIED)
                }
            },
            _ => error_response(hdr, STATUS_ACCESS_DENIED),
        }
    }

    /// Goes on with READ once the file was opened again.
    pub(crate) fn on_read_reopened(
        &self,
        hdr: &Smb2Header,
        fid: u64,
        offset: u64,
        length: u32,
        reply: SftpReply,
    ) -> (s: Step)
        ensures
            s@ == read_reopened_step(*hdr, fid, offset, length, reply@),
    {
        match reply {
            SftpReply::Handle(Ok(handle)) => ask(
                hdr,
                CallOf::Read { handle: slice_copy(&handle), offset, len: fetch_length(length) },
                ThenOf::ReadAgain { fid, offset, length, handle },
            ),
            _ => error_response(hdr, STATUS_ACCESS_DENIED),
        }
    }

    /// Goes on with READ once the file was read again.
    pub(crate) fn on_read_again(
        &mut self,
        hdr: &Smb2Header,
        fid: u64,
        offset: u64,
        length: u32,
        handle: Vec<u8>,
        reply: SftpReply,
    ) -> (s: Step)
        ensures
            (final(self)@, s@) == read_again_step(
                old(self)@,
                *hdr,
                fid,
                offset,
                length,
                handle@,
                reply@,
            ),
    {
        match reply {
            SftpReply::Data(Ok(data)) => self.answer_read(
                hdr,
                fid,
                offset,
                length,
                data,
                Some(handle),
            ),
            _ => error_response(hdr, STATUS_ACCESS_DENIED),
        }
    }

    fn serve_write_at(&mut self, hdr: &Smb2Header, fid: u64, offset: u64, data: Vec<u8>) -> (s: Step)
        requires
            old(self)@.handles.contains_key(fid),
        ensures
            (final(self)@, s@) == serve_write(old(self)@, *hdr, fid, offset, data@),
    {
        let ghost before = self@.handles;
        let h = match self.handles.remove(fid) {
            Some(h) => h,
            None => return error_response(hdr, STATUS_ACCESS_DENIED),
        };
        let s = match &h.sftp_handle {
            Some(handle) => {
                let copy = slice_copy(&data);
                ask(
                    hdr,
                    CallOf::Write { handle: slice_copy(handle), offset, data: copy },
                    ThenOf::WriteDone { fid, offset, data, path: h.path.clone() },
                )
            },
            None => error_response(hdr, STATUS_ACCESS_DENIED),
        };
        self.handles.insert(fid, OpenHandle { readahead: None, ..h });
        assert(self@.handles =~= before.insert(fid, HandleModel { ahead: None, ..before[fid] }));
        s
    }

    fn write_pipe(&mut self, hdr: &Smb2Header, fid: u64, data: &[u8], length: u32) -> (s: Step)
        requires
            old(self)@.handles.contains_key(fid),
        ensures
            final(self)@ == with_state(
                old(self)@,
                fid,
                HandleModel {
                    answer: Some(rpc_answer(old(self)@.share, data@)),
                    ..old(self)@.handles[fid]
                },
            ),
            s@ == answered(*hdr, STATUS_SUCCESS, write_body(length)),
    {
        let output = self.handle_dcerpc(data);
        let ghost before = self@.handles;
        let ghost out = output@;
        if let Some(h) = self.handles.remove(fid) {
            self.handles.insert(fid, OpenHandle { pipe_response: Some(output), ..h });
            assert(self@.handles =~= before.insert(
                fid,
                HandleModel { answer: Some(out), ..before[fid] },
            ));
        }
        let resp = put_write_body(length);
        answer(hdr, STATUS_SUCCESS, &resp)
    }

    /// Handles WRITE.
    pub fn handle_write(&mut self, hdr: &Smb2Header, body: &[u8]) -> (s: Step)
        ensures
            (final(self)@, s@) == write_step(old(self)@, *hdr, body@),
    {
        if body.len() < 32 {
            return error_response(hdr, STATUS_INVALID_PARAMETER);
        }
        let length = read_u32_le(body, 4);
        let offset = read_u64_le(body, 8);
        let fid = self.resolve_fid(read_u64_le(body, 16));
        let data = match find_part(body, read_u16_le(body, 2) as u32, length) {
            Some(d) => d,
            None => return error_response(hdr, STATUS_INVALID_PARAMETER),
        };
        let h = match self.handles.get(fid) {
            Some(h) => h,
            None => return error_response(hdr, STATUS_INVALID_PARAMETER),
        };
        if h.is_pipe {
            return self.write_pipe(hdr, fid, data, length);
        }
        match &h.sftp_handle {
            None => ask(
                hdr,
                CallOf::Open { path: h.path.clone(), flags: SSH_FXF_WRITE, mode: 0 },
                ThenOf::WriteOpened { fid, offset, data: slice_copy(data) },
            ),
            Some(_) => self.serve_write_at(hdr, fid, offset, slice_copy(data)),
        }
    }

    /// Goes on with WRITE once the file was opened.
    pub(crate) fn on_write_opened(
        &mut self,
        hdr: &Smb2Header,
        fid: u64,
        offset: u64,
        data: Vec<u8>,
        reply: SftpReply,
    ) -> (s: Step)
        ensures
            (final(self)@, s@) == write_opened_step(
                old(self)@,
                *hdr,
                fid,
                offset,
                data@,
                reply@,
            ),
    {
        match reply {
            SftpReply::Handle(Ok(handle)) => {
                if self.handles.get(fid).is_none() {
                    return error_response(hdr, STATUS_INVALID_PARAMETER);
                }
                self.set_remote(fid, handle);
                self.serve_write_at(hdr, fid, offset, data)
            },
            _ => error_response(hdr, STATUS_ACCESS_DENIED),
        }
    }

    fn answer_write(&mut self, hdr: &Smb2Header, path: &str, length: u32) -> (s: Step)
        ensures
            (final(self)@, s@) == written(old(self)@, *hdr, path@, length),
    {
        self.invalidate_path(path);
        let mut resp = put_write_body(length);
        put_u8(&mut resp, 0);
        answer(hdr, STATUS_SUCCESS, &resp)
    }

    /// Goes on with WRITE once the remote side was written.
    pub(crate) fn on_write_done(
        &mut self,
        hdr: &Smb2Header,
        fid: u64,
        offset: u64,
        data: Vec<u8>,
        path: String,
        reply: SftpReply,
    ) -> (s: Step)
        ensures
            (final(self)@, s@) == write_done_step(
                old(self)@,
                *hdr,
                fid,
                offset,
                data@,
                path@,
                reply@,
            ),
    {
        match reply {
            SftpReply::Nothing(Ok(_)) => {
                let length =
                    #[verifier::truncate]
                    (data.len() as u32);
                self.answer_write(hdr, &path, length)
            },
            SftpReply::Nothing(Err(e)) => {
                if error_is_broken(&e) {
                    self.on_reconnect();
                    ask(
                        hdr,
                        CallOf::Open { path: path.clone(), flags: SSH_FXF_WRITE, mode: 0 },
                        ThenOf::WriteReopened { fid, offset, data, path },
                    )
                } else {
                    error_response(hdr, STATUS_ACCESS_DENIED)
                }
            },
            _ => error_response(hdr, STATUS_ACCESS_DENIED),
        }
    }

    /// Goes on with WRITE once the file was opened again.
    pub(crate) fn on_write_reopened(
        &self,
        hdr: &Smb2Header,
        fid: u64,
        offset: u64,
        data: Vec<u8>,
        path: String,
        reply: SftpReply,
    ) -> (s: Step)
        ensures
            s@ == write_reopened_step(*hdr, fid, offset, data@, path@, reply@),
    {
        match reply {
            SftpReply::Handle(Ok(handle)) => {
                let length =
                    #[verifier::truncate]
                    (data.len() as u32);
                ask(
                    hdr,
                    CallOf::Write { handle: slice_copy(&handle), offset, data },
                    ThenOf::WriteAgain { fid, length, handle, path },
                )
            },
            _ => error_response(hdr, STATUS_ACCESS_DENIED),
        }
    }

    /// Goes on with WRITE once the file was written again.
    pub(crate) fn on_write_again(
        &mut self,
        hdr: &Smb2Header,
        fid: u64,
        length: u32,
        handle: Vec<u8>,
        path: &str,
        reply: SftpReply,
    ) -> (s: Step)
        ensures
            (final(self)@, s@) == write_again_step(
                old(self)@,
                *hdr,
                fid,
                length,
                handle@,
                path@,
                reply@,
            ),
    {
        self.set_remote(fid, handle);
        match reply {
            SftpReply::Nothing(Ok(_)) => self.answer_write(hdr, path, length),
            _ => error_response(hdr, STATUS_ACCESS_DENIED),
        }
    }
}

} // verus!

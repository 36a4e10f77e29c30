//! How the handling of a request proceeds: it ends in a response, or it waits
//! for an operation on the remote side.

use crate::bytes::{le16, le32, put_u16_le, put_u32_le};
use crate::sftp::call::{CallView, SftpCall};
use crate::smb2::{response, Smb2Header};
use vstd::prelude::*;

verus! {

/// The time at which a request is handled.
#[derive(Debug, Clone, Copy)]
pub struct Moment {
    /// Nanoseconds on the session's clock.
    pub now: u128,
    /// Seconds of Unix time.
    pub wall: u64,
}

/// What the attributes of a path are asked for.
#[derive(Debug, Clone, Copy)]
pub enum Goal {
    /// To open what exists.
    Existing,
    /// To open what exists, and to create it where nothing does.
    OpenOrCreate { want_dir: bool },
    /// To create it where nothing exists.
    CreateNew { want_dir: bool },
    /// To tell them.
    QueryInfo { info_type: u8, class: u8, is_dir: bool },
    /// To change its times.
    SetTimes { atime: u64, mtime: u64 },
}

/// What is to happen once an operation has ended, over the types of texts and
/// of byte strings.
pub enum ThenOf<S, B> {
    /// The attributes of a path were asked for.
    Stat { goal: Goal, path: S },
    /// A directory was made.
    Made { path: S },
    /// A file was created.
    Opened { path: S },
    /// The file that was created was closed.
    Created { path: S },
    /// A handle was closed.
    Closed,
    /// A file was opened to be read.
    ReadOpened { fid: u64, offset: u64, length: u32 },
    /// A file was read.
    ReadDone { fid: u64, offset: u64, length: u32, path: S },
    /// A file was opened again to be read.
    ReadReopened { fid: u64, offset: u64, length: u32 },
    /// A file was read again.
    ReadAgain { fid: u64, offset: u64, length: u32, handle: B },
    /// A file was opened to be written.
    WriteOpened { fid: u64, offset: u64, data: B },
    /// A file was written.
    WriteDone { fid: u64, offset: u64, data: B, path: S },
    /// A file was opened again to be written.
    WriteReopened { fid: u64, offset: u64, data: B, path: S },
    /// A file was written again.
    WriteAgain { fid: u64, length: u32, handle: B, path: S },
    /// A directory was listed.
    Listed { fid: u64, flags: u8, pattern: S, path: S },
    /// A file or directory was renamed.
    Renamed { fid: u64, from: S, to: S },
    /// A file or directory was removed.
    Removed { path: S },
    /// The times of a path were set.
    TimesSet { path: S },
}

/// What is to happen once an operation has ended.
pub type Then = ThenOf<String, Vec<u8>>;

/// A [`Then`] in terms of sequences.
pub type ThenView = ThenOf<Seq<char>, Seq<u8>>;

impl View for ThenOf<String, Vec<u8>> {
    type V = ThenOf<Seq<char>, Seq<u8>>;

    open spec fn view(&self) -> ThenOf<Seq<char>, Seq<u8>> {
        match self {
            ThenOf::Stat { goal, path } => ThenOf::Stat { goal: *goal, path: path@ },
            ThenOf::Made { path } => ThenOf::Made { path: path@ },
            ThenOf::Opened { path } => ThenOf::Opened { path: path@ },
            ThenOf::Created { path } => ThenOf::Created { path: path@ },
            ThenOf::Closed => ThenOf::Closed,
            ThenOf::ReadOpened { fid, offset, length } => ThenOf::ReadOpened {
                fid: *fid,
                offset: *offset,
                length: *length,
            },
            ThenOf::ReadDone { fid, offset, length, path } => ThenOf::ReadDone {
                fid: *fid,
                offset: *offset,
                length: *length,
                path: path@,
            },
            ThenOf::ReadReopened { fid, offset, length } => ThenOf::ReadReopened {
                fid: *fid,
                offset: *offset,
                length: *length,
            },
            ThenOf::ReadAgain { fid, offset, length, handle } => ThenOf::ReadAgain {
                fid: *fid,
                offset: *offset,
                length: *length,
                handle: handle@,
            },
            ThenOf::WriteOpened { fid, offset, data } => ThenOf::WriteOpened {
                fid: *fid,
                offset: *offset,
                data: data@,
            },
            ThenOf::WriteDone { fid, offset, data, path } => ThenOf::WriteDone {
                fid: *fid,
                offset: *offset,
                data: data@,
                path: path@,
            },
            ThenOf::WriteReopened { fid, offset, data, path } => ThenOf::WriteReopened {
                fid: *fid,
                offset: *offset,
                data: data@,
                path: path@,
            },
            ThenOf::WriteAgain { fid, length, handle, path } => ThenOf::WriteAgain {
                fid: *fid,
                length: *length,
                handle: handle@,
                path: path@,
            },
            ThenOf::Listed { fid, flags, pattern, path } => ThenOf::Listed {
                fid: *fid,
                flags: *flags,
                pattern: pattern@,
                path: path@,
            },
            ThenOf::Renamed { fid, from, to } => ThenOf::Renamed {
                fid: *fid,
                from: from@,
                to: to@,
            },
            ThenOf::Removed { path } => ThenOf::Removed { path: path@ },
            ThenOf::TimesSet { path } => ThenOf::TimesSet { path: path@ },
        }
    }
}

/// A request that waits for an operation on the remote side.
pub struct Pending {
    pub hdr: Smb2Header,
    pub next: Then,
}

/// What to do next for a request.
pub enum Step {
    /// Send these bytes. There may be none, where the message was no request.
    Reply(Vec<u8>),
    /// Perform the operation, then go on with its reply.
    Ask(SftpCall, Pending),
}

/// A [`Step`] in terms of sequences.
pub enum StepView {
    Reply(Seq<u8>),
    Ask(CallView, Smb2Header, ThenView),
}

impl View for Step {
    type V = StepView;

    open spec fn view(&self) -> StepView {
        match self {
            Step::Reply(b) => StepView::Reply(b@),
            Step::Ask(c, p) => StepView::Ask(c@, p.hdr, p.next@),
        }
    }
}

/// A request that is answered with a status and a body.
pub open spec fn answered(hdr: Smb2Header, status: u32, body: Seq<u8>) -> StepView {
    StepView::Reply(response(hdr, status, body))
}

/// The body of a response that reports an error.
pub open spec fn error_body() -> Seq<u8> {
    le16(9) + seq![0u8] + seq![0u8] + le32(0) + seq![0u8]
}

/// A request that is answered with an error.
pub open spec fn refused(hdr: Smb2Header, status: u32) -> StepView {
    answered(hdr, status, error_body())
}

/// Answers a request.
pub(crate) fn answer(hdr: &Smb2Header, status: u32, body: &[u8]) -> (s: Step)
    ensures
        s@ == answered(*hdr, status, body@),
{
    let mut out: Vec<u8> = Vec::new();
    hdr.write_response(status, body, &mut out);
    assert(out@ =~= response(*hdr, status, body@));
    Step::Reply(out)
}

/// Answers a request with an error.
pub fn error_response(hdr: &Smb2Header, status: u32) -> (s: Step)
    ensures
        s@ == refused(*hdr, status),
{
    let mut body: Vec<u8> = Vec::new();
    put_u16_le(&mut body, 9);
    crate::bytes::put_u8(&mut body, 0);
    crate::bytes::put_u8(&mut body, 0);
    put_u32_le(&mut body, 0);
    crate::bytes::put_u8(&mut body, 0);
    assert(body@ =~= error_body());
    answer(hdr, status, &body)
}

/// The body of a response that says nothing more.
pub open spec fn plain_body() -> Seq<u8> {
    le16(4) + le16(0)
}

/// Waits for an operation.
pub(crate) fn ask(hdr: &Smb2Header, call: SftpCall, next: Then) -> (s: Step)
    ensures
        s@ == StepView::Ask(call@, *hdr, next@),
{
    Step::Ask(call, Pending { hdr: *hdr, next })
}

} // verus!

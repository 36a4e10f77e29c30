//! The operations of a remote file system, and what they give back.

use crate::wire::{
    bytes_outcome, entries_outcome, outcome, text_outcome, DirEntry, EntryView, Fault, FileAttr,
    SftpError, SftpResult,
};
use vstd::prelude::*;

verus! {

/// An operation, over the types of its texts and of its byte strings.
pub enum CallOf<S, B> {
    Realpath { path: S },
    Stat { path: S },
    Lstat { path: S },
    Setstat { path: S, attrs: FileAttr },
    Readdir { path: S },
    Open { path: S, flags: u32, mode: u32 },
    Close { handle: B },
    Read { handle: B, offset: u64, len: u32 },
    Write { handle: B, offset: u64, data: B },
    Mkdir { path: S, mode: u32 },
    Rmdir { path: S },
    Remove { path: S },
    Rename { from: S, to: S },
    Symlink { target: S, link: S },
}

/// An operation to perform.
pub type SftpCall = CallOf<String, Vec<u8>>;

/// An operation in terms of sequences.
pub type CallView = CallOf<Seq<char>, Seq<u8>>;

impl View for CallOf<String, Vec<u8>> {
    type V = CallOf<Seq<char>, Seq<u8>>;

    open spec fn view(&self) -> CallOf<Seq<char>, Seq<u8>> {
        match self {
            CallOf::Realpath { path } => CallOf::Realpath { path: path@ },
            CallOf::Stat { path } => CallOf::Stat { path: path@ },
            CallOf::Lstat { path } => CallOf::Lstat { path: path@ },
            CallOf::Setstat { path, attrs } => CallOf::Setstat { path: path@, attrs: *attrs },
            CallOf::Readdir { path } => CallOf::Readdir { path: path@ },
            CallOf::Open { path, flags, mode } => CallOf::Open {
                path: path@,
                flags: *flags,
                mode: *mode,
            },
            CallOf::Close { handle } => CallOf::Close { handle: handle@ },
            CallOf::Read { handle, offset, len } => CallOf::Read {
                handle: handle@,
                offset: *offset,
                len: *len,
            },
            CallOf::Write { handle, offset, data } => CallOf::Write {
                handle: handle@,
                offset: *offset,
                data: data@,
            },
            CallOf::Mkdir { path, mode } => CallOf::Mkdir { path: path@, mode: *mode },
            CallOf::Rmdir { path } => CallOf::Rmdir { path: path@ },
            CallOf::Remove { path } => CallOf::Remove { path: path@ },
            CallOf::Rename { from, to } => CallOf::Rename { from: from@, to: to@ },
            CallOf::Symlink { target, link } => CallOf::Symlink { target: target@, link: link@ },
        }
    }
}

/// What kind of value an operation gives back.
#[derive(Debug, Clone, Copy, PartialEq, Eq, Structural)]
pub enum Want {
    Path,
    Attrs,
    Entries,
    Handle,
    Data,
    Nothing,
}

/// What an operation gave back.
pub enum SftpReply {
    Path(SftpResult<String>),
    Attrs(SftpResult<FileAttr>),
    Entries(SftpResult<Vec<DirEntry>>),
    Handle(SftpResult<Vec<u8>>),
    Data(SftpResult<Vec<u8>>),
    Nothing(SftpResult<()>),
}

/// An [`SftpReply`] in terms of sequences.
pub enum ReplyView {
    Path(Result<Seq<char>, Fault>),
    Attrs(Result<FileAttr, Fault>),
    Entries(Result<Seq<EntryView>, Fault>),
    Handle(Result<Seq<u8>, Fault>),
    Data(Result<Seq<u8>, Fault>),
    Nothing(Result<(), Fault>),
}

impl View for SftpReply {
    type V = ReplyView;

    open spec fn view(&self) -> ReplyView {
        match self {
            SftpReply::Path(r) => ReplyView::Path(text_outcome(*r)),
            SftpReply::Attrs(r) => ReplyView::Attrs(outcome(*r)),
            SftpReply::Entries(r) => ReplyView::Entries(entries_outcome(*r)),
            SftpReply::Handle(r) => ReplyView::Handle(bytes_outcome(*r)),
            SftpReply::Data(r) => ReplyView::Data(bytes_outcome(*r)),
            SftpReply::Nothing(r) => ReplyView::Nothing(outcome(*r)),
        }
    }
}

/// What an operation gives back.
pub open spec fn wanted<S, B>(call: CallOf<S, B>) -> Want {
    match call {
        CallOf::Realpath { .. } => Want::Path,
        CallOf::Stat { .. } => Want::Attrs,
        CallOf::Lstat { .. } => Want::Attrs,
        CallOf::Readdir { .. } => Want::Entries,
        CallOf::Open { .. } => Want::Handle,
        CallOf::Read { .. } => Want::Data,
        _ => Want::Nothing,
    }
}

/// Says what an operation gives back.
pub fn want_of(call: &SftpCall) -> (w: Want)
    ensures
        w == wanted(*call),
        w == wanted(call@),
{
    match call {
        CallOf::Realpath { .. } => Want::Path,
        CallOf::Stat { .. } => Want::Attrs,
        CallOf::Lstat { .. } => Want::Attrs,
        CallOf::Readdir { .. } => Want::Entries,
        CallOf::Open { .. } => Want::Handle,
        CallOf::Read { .. } => Want::Data,
        _ => Want::Nothing,
    }
}

/// The kind of value that a reply is about.
pub open spec fn kind_of(reply: ReplyView) -> Want {
    match reply {
        ReplyView::Path(_) => Want::Path,
        ReplyView::Attrs(_) => Want::Attrs,
        ReplyView::Entries(_) => Want::Entries,
        ReplyView::Handle(_) => Want::Handle,
        ReplyView::Data(_) => Want::Data,
        ReplyView::Nothing(_) => Want::Nothing,
    }
}

/// The fault of a reply, where it has one.
pub open spec fn fault_of(reply: ReplyView) -> Option<Fault> {
    match reply {
        ReplyView::Path(Err(e)) => Some(e),
        ReplyView::Attrs(Err(e)) => Some(e),
        ReplyView::Entries(Err(e)) => Some(e),
        ReplyView::Handle(Err(e)) => Some(e),
        ReplyView::Data(Err(e)) => Some(e),
        ReplyView::Nothing(Err(e)) => Some(e),
        _ => None,
    }
}

/// The reply that reports a fault to someone who wanted `want`.
pub open spec fn failed(want: Want, fault: Fault) -> ReplyView {
    match want {
        Want::Path => ReplyView::Path(Err(fault)),
        Want::Attrs => ReplyView::Attrs(Err(fault)),
        Want::Entries => ReplyView::Entries(Err(fault)),
        Want::Handle => ReplyView::Handle(Err(fault)),
        Want::Data => ReplyView::Data(Err(fault)),
        Want::Nothing => ReplyView::Nothing(Err(fault)),
    }
}

/// Makes the reply that reports an error.
pub fn failed_reply(want: Want, error: SftpError) -> (r: SftpReply)
    ensures
        r@ == failed(want, error@),
{
    match want {
        Want::Path => SftpReply::Path(Err(error)),
        Want::Attrs => SftpReply::Attrs(Err(error)),
        Want::Entries => SftpReply::Entries(Err(error)),
        Want::Handle => SftpReply::Handle(Err(error)),
        Want::Data => SftpReply::Data(Err(error)),
        Want::Nothing => SftpReply::Nothing(Err(error)),
    }
}

/// The faults after which a connection is given up: it is gone, or what came
/// over it made no sense.
pub open spec fn is_broken(fault: Fault) -> bool {
    fault is Disconnected || fault is Protocol
}

/// Says whether an error means that the connection is to be given up.
pub fn error_is_broken(error: &SftpError) -> (r: bool)
    ensures
        r == is_broken(error@),
{
    match error {
        SftpError::Disconnected => true,
        SftpError::Protocol(_) => true,
        _ => false,
    }
}

/// Says whether a reply reports that the connection is to be given up.
pub fn reply_is_broken(reply: &SftpReply) -> (r: bool)
    ensures
        r == (fault_of(reply@) matches Some(e) && is_broken(e)),
{
    match reply {
        SftpReply::Path(Err(e)) => error_is_broken(e),
        SftpReply::Attrs(Err(e)) => error_is_broken(e),
        SftpReply::Entries(Err(e)) => error_is_broken(e),
        SftpReply::Handle(Err(e)) => error_is_broken(e),
        SftpReply::Data(Err(e)) => error_is_broken(e),
        SftpReply::Nothing(Err(e)) => error_is_broken(e),
        _ => false,
    }
}

} // verus!

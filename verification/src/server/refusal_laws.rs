//! What cannot be done is refused, and the file that keeps Spotlight away is
//! always there.

use crate::bytes::{le16_at, le32_at, le64_at};
use crate::server::asked::{
    has_part, is_request, lemma_fields, lemma_refusal, lemma_request, meant, request_header,
    status_in,
};
use crate::server::create::create_step;
use crate::server::create_laws::{asked_name, is_opened, lemma_name, lemma_opened};
use crate::server::dispatch::message_step;
use crate::server::info::{query_info_step, set_info_step};
use crate::server::listing::query_directory_step;
use crate::server::state::{counted, inhibitor_path, SessionModel};
use crate::server::step::{Moment, StepView};
use crate::server::transfer::{read_step, write_step};
use crate::smb2::{Smb2Header, STATUS_END_OF_FILE, STATUS_INVALID_PARAMETER};
use crate::wire::FileAttr;
use vstd::prelude::*;

verus! {

/// Where the handle stands in a request with that command.
pub open spec fn handle_place(command: u16) -> int {
    if command == 8 || command == 9 || command == 17 {
        80
    } else if command == 14 {
        72
    } else {
        88
    }
}

/// How long a request with that command is at least.
pub open spec fn least_length(command: u16) -> int {
    if command == 5 {
        112
    } else if command == 11 {
        120
    } else if command == 14 || command == 17 {
        88
    } else {
        96
    }
}

/// A request that breaks off before its fixed part is complete is refused and
/// changes no handle.
#[verifier::rlimit(40)]
pub proof fn law_short_requests_are_refused(
    m: SessionModel,
    msg: Seq<u8>,
    t: Moment,
    command: u16,
)
    requires
        is_request(msg, command),
        command == 5 || command == 8 || command == 9 || command == 11 || command == 14 || command
            == 16 || command == 17,
        msg.len() < least_length(command),
    ensures
        ({
            let (o, s) = message_step(m, msg, t);
            &&& o.handles == m.handles
            &&& s matches StepView::Reply(r) && status_in(r) == 0xC000_000D
        }),
{
    lemma_request(m, msg, command, t);
    lemma_refusal(request_header(msg), STATUS_INVALID_PARAMETER);
}

proof fn lemma_unknown(m: SessionModel, hdr: Smb2Header, msg: Seq<u8>, t: Moment)
    requires
        msg.len() >= 96,
    ensures
        ({
            let body = msg.skip(64);
            let r = crate::server::step::refused(hdr, STATUS_INVALID_PARAMETER);
            &&& !m.handles.contains_key(meant(m, le64_at(msg, 80))) ==> {
                &&& read_step(m, hdr, body) == (m, r)
                &&& write_step(m, hdr, body) == (m, r)
                &&& set_info_step(m, hdr, body, t) == (m, r)
            }
            &&& !m.handles.contains_key(meant(m, le64_at(msg, 72))) ==> query_directory_step(
                m,
                hdr,
                body,
                t,
            ) == (m, r)
            &&& !m.handles.contains_key(meant(m, le64_at(msg, 88))) ==> query_info_step(
                m,
                hdr,
                body,
                t,
            ) == (m, r)
        }),
{
    lemma_fields(msg, 8);
    lemma_fields(msg, 16);
    lemma_fields(msg, 24);
}

/// A request with a handle that is not open is refused. The remote side is not
/// asked.
#[verifier::rlimit(40)]
pub proof fn law_unknown_handles_are_refused(
    m: SessionModel,
    msg: Seq<u8>,
    t: Moment,
    command: u16,
)
    requires
        is_request(msg, command),
        command == 8 || command == 9 || command == 14 || command == 16 || command == 17,
        msg.len() >= 96,
        !m.handles.contains_key(meant(m, le64_at(msg, handle_place(command)))),
    ensures
        ({
            let (o, s) = message_step(m, msg, t);
            &&& o.handles == m.handles
            &&& s matches StepView::Reply(r) && status_in(r) == 0xC000_000D
        }),
{
    lemma_request(m, msg, command, t);
    let hdr = request_header(msg);
    lemma_unknown(counted(m, t.now), hdr, msg, t);
    lemma_refusal(hdr, STATUS_INVALID_PARAMETER);
}

/// A write whose data does not lie within the request is refused.
pub proof fn law_writes_without_data_are_refused(m: SessionModel, msg: Seq<u8>, t: Moment)
    requires
        is_request(msg, 9),
        msg.len() >= 96,
        !has_part(msg, le16_at(msg, 66) as int, le32_at(msg, 68) as int),
    ensures
        ({
            let (o, s) = message_step(m, msg, t);
            &&& o.handles == m.handles
            &&& s matches StepView::Reply(r) && status_in(r) == 0xC000_000D
        }),
{
    lemma_request(m, msg, 9, t);
    lemma_fields(msg, 2);
    lemma_fields(msg, 4);
    lemma_refusal(request_header(msg), STATUS_INVALID_PARAMETER);
}

/// Whoever opens the file that keeps Spotlight away gets it, empty and of now.
/// The remote side is not asked.
#[verifier::rlimit(40)]
pub proof fn law_spotlight_file_opens(m: SessionModel, msg: Seq<u8>, t: Moment)
    requires
        is_request(msg, 5),
        msg.len() >= 112,
        m.ipc_tree_id != Some(le32_at(msg, 36)),
        asked_name(msg) == ".metadata_never_index"@,
        m.next_handle < u64::MAX,
    ensures
        ({
            let (o, s) = message_step(m, msg, t);
            is_opened(
                m,
                o,
                s,
                inhibitor_path(m.root),
                FileAttr {
                    size: 0,
                    uid: 0,
                    gid: 0,
                    perm: 0o100444,
                    atime: t.wall as u32,
                    mtime: t.wall as u32,
                },
            )
        }),
{
    lemma_request(m, msg, 5, t);
    lemma_name(msg);
    let hdr = request_header(msg);
    let c = counted(m, t.now);
    let attr = FileAttr {
        size: 0,
        uid: 0,
        gid: 0,
        perm: 0o100444,
        atime: t.wall as u32,
        mtime: t.wall as u32,
    };
    assert(0o100444u32 & 0o40000u32 == 0) by (bit_vector);
    lemma_opened(m, c, hdr, inhibitor_path(m.root), attr);
    assert(message_step(m, msg, t) == create_step(c, hdr, msg.skip(64), t));
}

/// Whoever reads the file that keeps Spotlight away is at its end. The remote side
/// is not asked.
pub proof fn law_spotlight_file_is_empty(m: SessionModel, msg: Seq<u8>, t: Moment)
    requires
        is_request(msg, 8),
        msg.len() >= 96,
        ({
            let fid = meant(m, le64_at(msg, 80));
            &&& m.handles.contains_key(fid)
            &&& !m.handles[fid].is_pipe
            &&& m.handles[fid].path == inhibitor_path(m.root)
        }),
    ensures
        message_step(m, msg, t).1 matches StepView::Reply(r) && status_in(r) == 0xC000_0011,
{
    lemma_request(m, msg, 8, t);
    lemma_fields(msg, 16);
    lemma_refusal(request_header(msg), STATUS_END_OF_FILE);
}

} // verus!

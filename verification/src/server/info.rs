//! Attributes of files and of the share: QUERY_INFO and SET_INFO.

use crate::bytes::{
    le16, le16_at, le32, le32_at, le64, le64_at, put_all, put_u16_le, put_u32_le, put_u64_le,
    put_u8, put_zeros, read_u16_le, read_u32_le, read_u64_le, zeros,
};
use crate::clock::CLOCK_END;
use crate::server::create::{attributes_of, file_attributes};
use crate::server::setup::{find_part, pointed_at};
use crate::server::stat::stat_step;
use crate::server::state::{forgotten, inhibitor_path, remote_path, resolved, SessionModel, SmbSession};
use crate::server::step::{
    answer, answered, ask, error_response, refused, Goal, Moment, Step, StepView, ThenOf,
};
use crate::sftp::call::{CallOf, ReplyView, SftpReply};
use crate::smb2::{
    filetime, filetime_to_unix, unix_time, unix_to_filetime, Smb2Header, FILE_ALL_INFORMATION,
    FILE_ATTRIBUTE_TAG_INFORMATION, FILE_BASIC_INFORMATION, FILE_DISPOSITION_INFORMATION,
    FILE_EA_INFORMATION, FILE_INTERNAL_INFORMATION, FILE_NETWORK_OPEN_INFORMATION,
    FILE_POSITION_INFORMATION, FILE_RENAME_INFORMATION, FILE_STANDARD_INFORMATION,
    FILE_STREAM_INFORMATION, FS_ATTRIBUTE_INFORMATION, FS_FULL_SIZE_INFORMATION,
    FS_SECTOR_SIZE_INFORMATION, FS_SIZE_INFORMATION, FS_VOLUME_INFORMATION, MAXIMUM_ALLOWED,
    SMB2_0_INFO_FILE, SMB2_0_INFO_FILESYSTEM, SMB2_0_INFO_SECURITY, SMB2_HEADER_SIZE,
    STATUS_ACCESS_DENIED, STATUS_INVALID_PARAMETER, STATUS_NOT_SUPPORTED, STATUS_SUCCESS,
};
use crate::text::{base_name, file_name};
use crate::utf16::{from_utf16le, to_utf16le, utf16le, utf16le_text};
use crate::wire::FileAttr;
use vstd::prelude::*;
use vstd::slice::slice_subrange;

verus! {

// ── QUERY_INFO ──────────────────────────────────────────────────────

/// The body of a response that carries data.
pub open spec fn output_body(data: Seq<u8>) -> Seq<u8> {
    le16(9) + le16((SMB2_HEADER_SIZE + 8) as u16) + le32(data.len() as u32) + data
}

/// Answers a request with data.
pub(crate) fn answer_data(hdr: &Smb2Header, data: &[u8]) -> (s: Step)
    ensures
        s@ == answered(*hdr, STATUS_SUCCESS, output_body(data@)),
{
    let mut resp: Vec<u8> = Vec::new();
    put_u16_le(&mut resp, 9);
    assert(resp@ =~= le16(9));
    put_u16_le(&mut resp, (SMB2_HEADER_SIZE + 8) as u16);
    put_u32_le(
        &mut resp,
        #[verifier::truncate]
        (data.len() as u32),
    );
    put_all(&mut resp, data);
    answer(hdr, STATUS_SUCCESS, &resp)
}

/// The times and attributes of a file.
pub open spec fn basic_info(attr: FileAttr, is_dir: bool) -> Seq<u8> {
    le64(filetime(attr.mtime as u64)) + le64(filetime(attr.atime as u64)) + le64(
        filetime(attr.mtime as u64),
    ) + le64(filetime(attr.mtime as u64)) + le32(file_attributes(is_dir)) + le32(0)
}

/// The size of a file, and whether it is a directory.
pub open spec fn standard_info(attr: FileAttr, is_dir: bool) -> Seq<u8> {
    le64(attr.size) + le64(attr.size) + le32(1) + seq![0u8] + seq![if is_dir {
        1u8
    } else {
        0u8
    }] + le16(0)
}

/// Times, size and attributes together.
pub open spec fn network_open_info(attr: FileAttr, is_dir: bool) -> Seq<u8> {
    le64(filetime(attr.mtime as u64)) + le64(filetime(attr.atime as u64)) + le64(
        filetime(attr.mtime as u64),
    ) + le64(filetime(attr.mtime as u64)) + le64(attr.size) + le64(attr.size) + le32(
        file_attributes(is_dir),
    ) + le32(0)
}

/// Everything about a file, with its name.
pub open spec fn all_info(attr: FileAttr, is_dir: bool, path: Seq<char>) -> Seq<u8> {
    let name = utf16le(base_name(path));
    basic_info(attr, is_dir) + standard_info(attr, is_dir) + le64(0) + le32(0) + le32(
        MAXIMUM_ALLOWED,
    ) + le64(0) + le32(0) + le32(0) + le32(name.len() as u32) + name
}

/// The size that the share claims to have, in allocation units.
pub const TOTAL_UNITS: u64 = 1024 * 1024 * 1024;

/// How many of them it claims to have free.
pub const FREE_UNITS: u64 = 512 * 1024 * 1024;

/// The size that the share claims to have.
pub open spec fn fs_size_info(full: bool) -> Seq<u8> {
    let half = le64(FREE_UNITS);
    le64(TOTAL_UNITS) + half + (if full {
        half
    } else {
        Seq::empty()
    }) + le32(1) + le32(4096)
}

/// What the share's file system can do.
pub open spec fn fs_attribute_info() -> Seq<u8> {
    let label = utf16le("SSHFS"@);
    le32(3) + le32(255) + le32(label.len() as u32) + label
}

/// The name of the volume.
pub open spec fn fs_volume_info(attr: FileAttr) -> Seq<u8> {
    let label = utf16le("sshfs"@);
    le64(filetime(attr.mtime as u64)) + le32(0) + le32(label.len() as u32) + seq![0u8] + seq![0u8]
        + label
}

/// The sectors of the volume.
pub open spec fn fs_sector_info() -> Seq<u8> {
    le32(4096) + le32(4096) + le32(4096) + le32(0) + le32(0) + le32(0)
}

/// The information of a type and class about a file, or the status with which
/// the request for it is refused.
pub open spec fn info_data(
    info_type: u8,
    class: u8,
    attr: FileAttr,
    is_dir: bool,
    path: Seq<char>,
) -> Result<Seq<u8>, u32> {
    if info_type == SMB2_0_INFO_FILE {
        if class == FILE_BASIC_INFORMATION {
            Ok(basic_info(attr, is_dir))
        } else if class == FILE_STANDARD_INFORMATION {
            Ok(standard_info(attr, is_dir))
        } else if class == FILE_INTERNAL_INFORMATION {
            Ok(le64(0))
        } else if class == FILE_EA_INFORMATION {
            Ok(le32(0))
        } else if class == FILE_NETWORK_OPEN_INFORMATION {
            Ok(network_open_info(attr, is_dir))
        } else if class == FILE_ATTRIBUTE_TAG_INFORMATION {
            Ok(le32(file_attributes(is_dir)) + le32(0))
        } else if class == FILE_STREAM_INFORMATION {
            Err(STATUS_INVALID_PARAMETER)
        } else if class == FILE_ALL_INFORMATION {
            Ok(all_info(attr, is_dir, path))
        } else if class == FILE_POSITION_INFORMATION {
            Ok(le64(0))
        } else {
            Err(STATUS_NOT_SUPPORTED)
        }
    } else if info_type == SMB2_0_INFO_FILESYSTEM {
        if class == FS_SIZE_INFORMATION {
            Ok(fs_size_info(false))
        } else if class == FS_FULL_SIZE_INFORMATION {
            Ok(fs_size_info(true))
        } else if class == FS_ATTRIBUTE_INFORMATION {
            Ok(fs_attribute_info())
        } else if class == FS_VOLUME_INFORMATION {
            Ok(fs_volume_info(attr))
        } else if class == FS_SECTOR_SIZE_INFORMATION {
            Ok(fs_sector_info())
        } else {
            Err(STATUS_NOT_SUPPORTED)
        }
    } else if info_type == SMB2_0_INFO_SECURITY {
        Ok(zeros(20))
    } else {
        Err(STATUS_NOT_SUPPORTED)
    }
}

/// How QUERY_INFO goes on once the attributes of the path are known.
pub open spec fn query_goal(
    hdr: Smb2Header,
    info_type: u8,
    class: u8,
    is_dir: bool,
    path: Seq<char>,
    found: Result<(FileAttr, bool), u32>,
) -> StepView {
    match found {
        Ok((attr, _)) => match info_data(info_type, class, attr, is_dir, path) {
            Ok(data) => answered(hdr, STATUS_SUCCESS, output_body(data)),
            Err(status) => refused(hdr, status),
        },
        Err(status) => refused(hdr, status),
    }
}

/// Handling QUERY_INFO.
pub open spec fn query_info_step(m: SessionModel, hdr: Smb2Header, body: Seq<u8>, t: Moment) -> (
    SessionModel,
    StepView,
) {
    if body.len() < 32 {
        (m, refused(hdr, STATUS_INVALID_PARAMETER))
    } else {
        let fid = resolved(m, le64_at(body, 24));
        if m.handles.contains_key(fid) {
            let h = m.handles[fid];
            stat_step(
                m,
                hdr,
                Goal::QueryInfo { info_type: body[2], class: body[3], is_dir: h.is_dir },
                h.path,
                t,
            )
        } else {
            (m, refused(hdr, STATUS_INVALID_PARAMETER))
        }
    }
}

fn put_basic_info(out: &mut Vec<u8>, attr: &FileAttr, is_dir: bool)
    ensures
        final(out)@ == old(out)@ + basic_info(*attr, is_dir),
{
    let time = unix_to_filetime(attr.mtime as u64);
    put_u64_le(out, time);
    put_u64_le(out, unix_to_filetime(attr.atime as u64));
    put_u64_le(out, time);
    put_u64_le(out, time);
    put_u32_le(out, attributes_of(is_dir));
    put_u32_le(out, 0);
    assert(out@ =~= old(out)@ + basic_info(*attr, is_dir));
}

fn put_standard_info(out: &mut Vec<u8>, attr: &FileAttr, is_dir: bool)
    ensures
        final(out)@ == old(out)@ + standard_info(*attr, is_dir),
{
    put_u64_le(out, attr.size);
    put_u64_le(out, attr.size);
    put_u32_le(out, 1);
    put_u8(out, 0);
    put_u8(
        out,
        if is_dir {
            1
        } else {
            0
        },
    );
    put_u16_le(out, 0);
    assert(out@ =~= old(out)@ + standard_info(*attr, is_dir));
}

fn build_network_open_info(attr: &FileAttr, is_dir: bool) -> (out: Vec<u8>)
    ensures
        out@ == network_open_info(*attr, is_dir),
{
    let time = unix_to_filetime(attr.mtime as u64);
    let mut out: Vec<u8> = Vec::new();
    put_u64_le(&mut out, time);
    assert(out@ =~= le64(time));
    put_u64_le(&mut out, unix_to_filetime(attr.atime as u64));
    put_u64_le(&mut out, time);
    put_u64_le(&mut out, time);
    put_u64_le(&mut out, attr.size);
    put_u64_le(&mut out, attr.size);
    put_u32_le(&mut out, attributes_of(is_dir));
    put_u32_le(&mut out, 0);
    out
}

fn build_all_info(attr: &FileAttr, is_dir: bool, path: &str) -> (out: Vec<u8>)
    ensures
        out@ == all_info(*attr, is_dir, path@),
{
    let name = to_utf16le(&file_name(path));
    let mut out: Vec<u8> = Vec::new();
    put_basic_info(&mut out, attr, is_dir);
    assert(out@ =~= basic_info(*attr, is_dir));
    put_standard_info(&mut out, attr, is_dir);
    put_u64_le(&mut out, 0);
    put_u32_le(&mut out, 0);
    put_u32_le(&mut out, MAXIMUM_ALLOWED);
    put_u64_le(&mut out, 0);
    put_u32_le(&mut out, 0);
    put_u32_le(&mut out, 0);
    put_u32_le(
        &mut out,
        #[verifier::truncate]
        (name.len() as u32),
    );
    put_all(&mut out, &name);
    out
}

fn build_fs_size_info(full: bool) -> (out: Vec<u8>)
    ensures
        out@ == fs_size_info(full),
{
    let mut out: Vec<u8> = Vec::new();
    put_u64_le(&mut out, TOTAL_UNITS);
    put_u64_le(&mut out, FREE_UNITS);
    if full {
        put_u64_le(&mut out, FREE_UNITS);
    }
    put_u32_le(&mut out, 1);
    put_u32_le(&mut out, 4096);
    assert(out@ =~= fs_size_info(full));
    out
}

fn build_fs_attribute_info() -> (out: Vec<u8>)
    ensures
        out@ == fs_attribute_info(),
{
    let label = to_utf16le("SSHFS");
    let mut out: Vec<u8> = Vec::new();
    put_u32_le(&mut out, 3);
    assert(out@ =~= le32(3));
    put_u32_le(&mut out, 255);
    put_u32_le(
        &mut out,
        #[verifier::truncate]
        (label.len() as u32),
    );
    put_all(&mut out, &label);
    out
}

fn build_fs_volume_info(attr: &FileAttr) -> (out: Vec<u8>)
    ensures
        out@ == fs_volume_info(*attr),
{
    let label = to_utf16le("sshfs");
    let time = unix_to_filetime(attr.mtime as u64);
    let mut out: Vec<u8> = Vec::new();
    put_u64_le(&mut out, time);
    assert(out@ =~= le64(time));
    put_u32_le(&mut out, 0);
    put_u32_le(
        &mut out,
        #[verifier::truncate]
        (label.len() as u32),
    );
    put_u8(&mut out, 0);
    put_u8(&mut out, 0);
    put_all(&mut out, &label);
    out
}

fn build_fs_sector_info() -> (out: Vec<u8>)
    ensures
        out@ == fs_sector_info(),
{
    let mut out: Vec<u8> = Vec::new();
    put_u32_le(&mut out, 4096);
    assert(out@ =~= le32(4096));
    put_u32_le(&mut out, 4096);
    put_u32_le(&mut out, 4096);
    put_u32_le(&mut out, 0);
    put_u32_le(&mut out, 0);
    put_u32_le(&mut out, 0);
    out
}

fn build_file_info(class: u8, attr: &FileAttr, is_dir: bool, path: &str) -> (r: Result<Vec<u8>, u32>)
    ensures
        (match r {
            Ok(d) => Ok::<Seq<u8>, u32>(d@),
            Err(s) => Err(s),
        }) == info_data(SMB2_0_INFO_FILE, class, *attr, is_dir, path@),
{
    let mut out: Vec<u8> = Vec::new();
    if class == FILE_BASIC_INFORMATION {
        put_basic_info(&mut out, attr, is_dir);
        assert(out@ =~= basic_info(*attr, is_dir));
    } else if class == FILE_STANDARD_INFORMATION {
        put_standard_info(&mut out, attr, is_dir);
        assert(out@ =~= standard_info(*attr, is_dir));
    } else if class == FILE_INTERNAL_INFORMATION {
        put_u64_le(&mut out, 0);
        assert(out@ =~= le64(0));
    } else if class == FILE_EA_INFORMATION {
        put_u32_le(&mut out, 0);
        assert(out@ =~= le32(0));
    } else if class == FILE_NETWORK_OPEN_INFORMATION {
        return Ok(build_network_open_info(attr, is_dir));
    } else if class == FILE_ATTRIBUTE_TAG_INFORMATION {
        put_u32_le(&mut out, attributes_of(is_dir));
        put_u32_le(&mut out, 0);
        assert(out@ =~= le32(file_attributes(is_dir)) + le32(0));
    } else if class == FILE_STREAM_INFORMATION {
        return Err(STATUS_INVALID_PARAMETER);
    } else if class == FILE_ALL_INFORMATION {
        return Ok(build_all_info(attr, is_dir, path));
    } else if class == FILE_POSITION_INFORMATION {
        put_u64_le(&mut out, 0);
        assert(out@ =~= le64(0));
    } else {
        return Err(STATUS_NOT_SUPPORTED);
    }
    Ok(out)
}

/// The information of a type and class about a file.
pub fn build_info(info_type: u8, class: u8, attr: &FileAttr, is_dir: bool, path: &str) -> (r: Result<
    Vec<u8>,
    u32,
>)
    ensures
        (match r {
            Ok(d) => Ok::<Seq<u8>, u32>(d@),
            Err(s) => Err(s),
        }) == info_data(info_type, class, *attr, is_dir, path@),
{
    if info_type == SMB2_0_INFO_FILE {
        build_file_info(class, attr, is_dir, path)
    } else if info_type == SMB2_0_INFO_FILESYSTEM {
        if class == FS_SIZE_INFORMATION {
            Ok(build_fs_size_info(false))
        } else if class == FS_FULL_SIZE_INFORMATION {
            Ok(build_fs_size_info(true))
        } else if class == FS_ATTRIBUTE_INFORMATION {
            Ok(build_fs_attribute_info())
        } else if class == FS_VOLUME_INFORMATION {
            Ok(build_fs_volume_info(attr))
        } else if class == FS_SECTOR_SIZE_INFORMATION {
            Ok(build_fs_sector_info())
        } else {
            Err(STATUS_NOT_SUPPORTED)
        }
    } else if info_type == SMB2_0_INFO_SECURITY {
        let mut out: Vec<u8> = Vec::new();
        put_zeros(&mut out, 20);
        assert(out@ =~= zeros(20));
        Ok(out)
    } else {
        Err(STATUS_NOT_SUPPORTED)
    }
}

// ── SET_INFO ────────────────────────────────────────────────────────

/// The body of a response to SET_INFO.
pub open spec fn set_body() -> Seq<u8> {
    le16(2)
}

/// A SET_INFO request that was carried out, or that is passed over.
pub open spec fn set_done(hdr: Smb2Header) -> StepView {
    answered(hdr, STATUS_SUCCESS, set_body())
}

/// The data of a SET_INFO request; none where it does not lie within the
/// request.
pub open spec fn set_data(body: Seq<u8>) -> Seq<u8> {
    match pointed_at(body, le16_at(body, 8) as nat, le32_at(body, 4) as nat) {
        Some(d) => d,
        None => Seq::empty(),
    }
}

/// The attributes with other times; a time of 0 leaves it as it was.
pub open spec fn with_times(attr: FileAttr, atime: u64, mtime: u64) -> FileAttr {
    FileAttr {
        atime: if atime != 0 {
            unix_time(atime) as u32
        } else {
            attr.atime
        },
        mtime: if mtime != 0 {
            unix_time(mtime) as u32
        } else {
            attr.mtime
        },
        ..attr
    }
}

/// How the change of a path's times goes on once its attributes are known.
/// Where they cannot be had, nothing is changed.
pub open spec fn times_goal(
    hdr: Smb2Header,
    atime: u64,
    mtime: u64,
    path: Seq<char>,
    found: Result<(FileAttr, bool), u32>,
) -> StepView {
    match found {
        Ok((attr, _)) => StepView::Ask(
            CallOf::Setstat { path, attrs: with_times(attr, atime, mtime) },
            hdr,
            ThenOf::TimesSet { path },
        ),
        Err(_) => set_done(hdr),
    }
}

/// Handling a request to rename.
pub open spec fn rename_step(
    m: SessionModel,
    hdr: Smb2Header,
    fid: u64,
    from: Seq<char>,
    data: Seq<u8>,
) -> StepView {
    if data.len() < 24 || 20 + le32_at(data, 16) > data.len() {
        refused(hdr, STATUS_INVALID_PARAMETER)
    } else {
        let to = remote_path(m.root, utf16le_text(data.subrange(20, 20 + le32_at(data, 16))));
        StepView::Ask(CallOf::Rename { from, to }, hdr, ThenOf::Renamed { fid, from, to })
    }
}

/// Handling a request to delete, or not to.
pub open spec fn delete_step(
    hdr: Smb2Header,
    path: Seq<char>,
    is_dir: bool,
    data: Seq<u8>,
) -> StepView {
    if data.len() == 0 || data[0] == 0 {
        set_done(hdr)
    } else if is_dir {
        StepView::Ask(CallOf::Rmdir { path }, hdr, ThenOf::Removed { path })
    } else {
        StepView::Ask(CallOf::Remove { path }, hdr, ThenOf::Removed { path })
    }
}

/// Handling SET_INFO. What the server does not know is passed over, and so are
/// times for the file that keeps Spotlight away.
pub open spec fn set_info_step(m: SessionModel, hdr: Smb2Header, body: Seq<u8>, t: Moment) -> (
    SessionModel,
    StepView,
) {
    if body.len() < 24 {
        (m, refused(hdr, STATUS_INVALID_PARAMETER))
    } else {
        let fid = resolved(m, le64_at(body, 16));
        let data = set_data(body);
        if !m.handles.contains_key(fid) {
            (m, refused(hdr, STATUS_INVALID_PARAMETER))
        } else if body[2] != SMB2_0_INFO_FILE {
            (m, set_done(hdr))
        } else {
            let h = m.handles[fid];
            if body[3] == FILE_RENAME_INFORMATION {
                (m, rename_step(m, hdr, fid, h.path, data))
            } else if body[3] == FILE_DISPOSITION_INFORMATION {
                (m, delete_step(hdr, h.path, h.is_dir, data))
            } else if body[3] == FILE_BASIC_INFORMATION && data.len() >= 36 && h.path
                != inhibitor_path(m.root) {
                stat_step(
                    m,
                    hdr,
                    Goal::SetTimes { atime: le64_at(data, 8), mtime: le64_at(data, 16) },
                    h.path,
                    t,
                )
            } else {
                (m, set_done(hdr))
            }
        }
    }
}

/// How a rename goes on: the handle follows its file.
pub open spec fn renamed_step(
    m: SessionModel,
    hdr: Smb2Header,
    fid: u64,
    from: Seq<char>,
    to: Seq<char>,
    reply: ReplyView,
) -> (SessionModel, StepView) {
    match reply {
        ReplyView::Nothing(Ok(_)) => {
            let f = forgotten(forgotten(m, from), to);
            let handles = if f.handles.contains_key(fid) {
                f.handles.insert(
                    fid,
                    crate::server::handles::HandleModel { path: to, ..f.handles[fid] },
                )
            } else {
                f.handles
            };
            (SessionModel { handles, ..f }, set_done(hdr))
        },
        _ => (m, refused(hdr, STATUS_ACCESS_DENIED)),
    }
}

/// How a removal goes on.
pub open spec fn removed_step(
    m: SessionModel,
    hdr: Smb2Header,
    path: Seq<char>,
    reply: ReplyView,
) -> (SessionModel, StepView) {
    match reply {
        ReplyView::Nothing(Ok(_)) => (forgotten(m, path), set_done(hdr)),
        _ => (m, refused(hdr, STATUS_ACCESS_DENIED)),
    }
}

/// How the change of times goes on, whatever the remote side says.
pub open spec fn times_set_step(m: SessionModel, hdr: Smb2Header, path: Seq<char>) -> (
    SessionModel,
    StepView,
) {
    (forgotten(m, path), set_done(hdr))
}

fn answer_set(hdr: &Smb2Header) -> (s: Step)
    ensures
        s@ == set_done(*hdr),
{
    let mut resp: Vec<u8> = Vec::new();
    put_u16_le(&mut resp, 2);
    assert(resp@ =~= set_body());
    answer(hdr, STATUS_SUCCESS, &resp)
}

fn change_times(attr: &FileAttr, atime: u64, mtime: u64) -> (r: FileAttr)
    ensures
        r == with_times(*attr, atime, mtime),
{
    let mut r = *attr;
    if atime != 0 {
        r.atime =
            #[verifier::truncate]
            (filetime_to_unix(atime) as u32);
    }
    if mtime != 0 {
        r.mtime =
            #[verifier::truncate]
            (filetime_to_unix(mtime) as u32);
    }
    r
}

impl SmbSession {
    /// Answers QUERY_INFO once the attributes of the path are known.
    pub(crate) fn answer_query(
        &self,
        hdr: &Smb2Header,
        info_type: u8,
        class: u8,
        is_dir: bool,
        path: &str,
        found: Result<(FileAttr, bool), u32>,
    ) -> (s: Step)
        ensures
            s@ == query_goal(*hdr, info_type, class, is_dir, path@, found),
    {
        match found {
            Ok((attr, _)) => match build_info(info_type, class, &attr, is_dir, path) {
                Ok(data) => answer_data(hdr, &data),
                Err(status) => error_response(hdr, status),
            },
            Err(status) => error_response(hdr, status),
        }
    }

    /// Handles QUERY_INFO.
    pub fn handle_query_info(&mut self, hdr: &Smb2Header, body: &[u8], t: Moment) -> (s: Step)
        requires
            old(self).next_handle < u64::MAX,
            t.now < CLOCK_END,
        ensures
            (final(self)@, s@) == query_info_step(old(self)@, *hdr, body@, t),
    {
        if body.len() < 32 {
            return error_response(hdr, STATUS_INVALID_PARAMETER);
        }
        let fid = self.resolve_fid(read_u64_le(body, 24));
        let (path, is_dir) = match self.handles.get(fid) {
            Some(h) => (h.path.clone(), h.is_dir),
            None => return error_response(hdr, STATUS_INVALID_PARAMETER),
        };
        self.stat_cached(
            hdr,
            Goal::QueryInfo { info_type: body[2], class: body[3], is_dir },
            &path,
            t,
        )
    }

    /// Goes on with a change of times once the attributes of the path are known.
    pub(crate) fn go_on_with_times(
        &self,
        hdr: &Smb2Header,
        atime: u64,
        mtime: u64,
        path: &str,
        found: Result<(FileAttr, bool), u32>,
    ) -> (s: Step)
        ensures
            s@ == times_goal(*hdr, atime, mtime, path@, found),
    {
        match found {
            Ok((attr, _)) => ask(
                hdr,
                CallOf::Setstat {
                    path: String::from_str(path),
                    attrs: change_times(&attr, atime, mtime),
                },
                ThenOf::TimesSet { path: String::from_str(path) },
            ),
            Err(_) => answer_set(hdr),
        }
    }

    fn start_rename(&self, hdr: &Smb2Header, fid: u64, from: String, data: &[u8]) -> (s: Step)
        ensures
            s@ == rename_step(self@, *hdr, fid, from@, data@),
    {
        if data.len() < 24 {
            return error_response(hdr, STATUS_INVALID_PARAMETER);
        }
        let name_len = read_u32_le(data, 16);
        if 20 + name_len as u64 > data.len() as u64 {
            return error_response(hdr, STATUS_INVALID_PARAMETER);
        }
        let name = from_utf16le(slice_subrange(data, 20, 20 + name_len as usize));
        let to = self.full_path(&name);
        ask(
            hdr,
            CallOf::Rename { from: from.clone(), to: to.clone() },
            ThenOf::Renamed { fid, from, to },
        )
    }

    fn start_delete(&self, hdr: &Smb2Header, path: String, is_dir: bool, data: &[u8]) -> (s: Step)
        ensures
            s@ == delete_step(*hdr, path@, is_dir, data@),
    {
        if data.len() == 0 || data[0] == 0 {
            return answer_set(hdr);
        }
        if is_dir {
            ask(hdr, CallOf::Rmdir { path: path.clone() }, ThenOf::Removed { path })
        } else {
            ask(hdr, CallOf::Remove { path: path.clone() }, ThenOf::Removed { path })
        }
    }

    /// Handles SET_INFO.
    pub fn handle_set_info(&mut self, hdr: &Smb2Header, body: &[u8], t: Moment) -> (s: Step)
        requires
            old(self).next_handle < u64::MAX,
            t.now < CLOCK_END,
        ensures
            (final(self)@, s@) == set_info_step(old(self)@, *hdr, body@, t),
    {
        if body.len() < 24 {
            return error_response(hdr, STATUS_INVALID_PARAMETER);
        }
        let fid = self.resolve_fid(read_u64_le(body, 16));
        let (path, is_dir) = match self.handles.get(fid) {
            Some(h) => (h.path.clone(), h.is_dir),
            None => return error_response(hdr, STATUS_INVALID_PARAMETER),
        };
        if body[2] != SMB2_0_INFO_FILE {
            return answer_set(hdr);
        }
        let data = match find_part(body, read_u16_le(body, 8) as u32, read_u32_le(body, 4)) {
            Some(d) => d,
            None => slice_subrange(body, 0, 0),
        };
        assert(data@ =~= set_data(body@));
        if body[3] == FILE_RENAME_INFORMATION {
            self.start_rename(hdr, fid, path, data)
        } else if body[3] == FILE_DISPOSITION_INFORMATION {
            self.start_delete(hdr, path, is_dir, data)
        } else if body[3] == FILE_BASIC_INFORMATION && data.len() >= 36 && !self.is_inhibitor_path(
            &path,
        ) {
            let atime = read_u64_le(data, 8);
            let mtime = read_u64_le(data, 16);
            self.stat_cached(hdr, Goal::SetTimes { atime, mtime }, &path, t)
        } else {
            answer_set(hdr)
        }
    }

    /// Goes on with a rename.
    pub(crate) fn on_renamed(
        &mut self,
        hdr: &Smb2Header,
        fid: u64,
        from: String,
        to: String,
        reply: &SftpReply,
    ) -> (s: Step)
        ensures
            (final(self)@, s@) == renamed_step(old(self)@, *hdr, fid, from@, to@, reply@),
    {
        match reply {
            SftpReply::Nothing(Ok(_)) => {
                self.invalidate_path(&from);
                self.invalidate_path(&to);
                let ghost before = self@.handles;
                if let Some(mut h) = self.handles.remove(fid) {
                    h.path = to;
                    self.handles.insert(fid, h);
                    assert(self@.handles =~= before.insert(fid, h@));
                } else {
                    assert(self@.handles =~= before);
                }
                answer_set(hdr)
            },
            _ => error_response(hdr, STATUS_ACCESS_DENIED),
        }
    }

    /// Goes on with a removal.
    pub(crate) fn on_removed(&mut self, hdr: &Smb2Header, path: &str, reply: &SftpReply) -> (s: Step)
        ensures
            (final(self)@, s@) == removed_step(old(self)@, *hdr, path@, reply@),
    {
        match reply {
            SftpReply::Nothing(Ok(_)) => {
                self.invalidate_path(path);
                answer_set(hdr)
            },
            _ => error_response(hdr, STATUS_ACCESS_DENIED),
        }
    }

    /// Goes on with a change of times.
    pub(crate) fn on_times_set(&mut self, hdr: &Smb2Header, path: &str) -> (s: Step)
        ensures
            (final(self)@, s@) == times_set_step(old(self)@, *hdr, path@),
    {
        self.invalidate_path(path);
        answer_set(hdr)
    }
}

} // verus!

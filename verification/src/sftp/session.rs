//! One SFTP conversation: how it is opened and how each operation starts.

use crate::bytes::{be32, be32_at, read_u32_be, slice_copy};
use crate::sftp::call::{wanted, CallOf, CallView, SftpCall, Want};
use crate::sftp::exchange::{
    begin_reading, begin_writing, keeps_goal, read_request, start_reading, start_writing,
    write_request, Exchange, ExchangeView, Turn, TurnView,
};
use crate::sftp::packet::{
    bare_packet, make_bare_packet, make_packet, packet, unexpected, unexpected_kind, MAX_READ_SIZE,
    MAX_WRITE_SIZE, SFTP_PROTO_VERSION, SSH_FXF_APPEND, SSH_FXF_CREAT, SSH_FXF_EXCL, SSH_FXF_READ,
    SSH_FXF_TRUNC, SSH_FXF_WRITE, SSH_FXP_CLOSE, SSH_FXP_INIT, SSH_FXP_LSTAT, SSH_FXP_MKDIR,
    SSH_FXP_OPEN, SSH_FXP_OPENDIR, SSH_FXP_READ, SSH_FXP_REALPATH, SSH_FXP_REMOVE, SSH_FXP_RENAME,
    SSH_FXP_RMDIR, SSH_FXP_SETSTAT, SSH_FXP_STAT, SSH_FXP_SYMLINK, SSH_FXP_VERSION, SSH_FXP_WRITE,
};
use crate::text::{decimal, decimal_text, push_text, text_of, texts};
use crate::wire::{
    attrs_field, bytes_field, outcome, text_field, Buf, Fault, FileAttr, SftpResult,
    SSH_FILEXFER_ATTR_PERMISSIONS,
};
use vstd::prelude::*;

verus! {

/// The client's side of one conversation with a server: the request ids that
/// it has given out.
pub struct SftpSession {
    pub next_id: u32,
}

// ── Opening a conversation ──────────────────────────────────────────

/// The arguments that `ssh` is started with, in order.
pub open spec fn ssh_arguments(
    host: Seq<char>,
    port: u16,
    user: Option<Seq<char>>,
    identity: Option<Seq<char>>,
) -> Seq<Seq<char>> {
    let fixed = seq![
        "-oStrictHostKeyChecking=accept-new"@,
        "-oConnectTimeout=30"@,
        "-oServerAliveInterval=15"@,
        "-oServerAliveCountMax=3"@,
        "-oBatchMode=yes"@,
        "-oCiphers=aes128-gcm@openssh.com,chacha20-poly1305@openssh.com"@,
    ];
    let port_args = if port != 22 {
        seq!["-p"@, decimal(port as nat)]
    } else {
        Seq::empty()
    };
    let identity_args = match identity {
        Some(id) => seq!["-i"@, id],
        None => Seq::empty(),
    };
    let target = match user {
        Some(u) => u + "@"@ + host,
        None => host,
    };
    fixed + port_args + identity_args + seq![target, "-s"@, "sftp"@]
}

/// What it takes to open a conversation.
pub struct Launch {
    /// The arguments for `ssh`.
    pub arguments: Vec<String>,
    /// The first packet to send.
    pub hello: Vec<u8>,
    /// The conversation, once the server has answered.
    pub session: SftpSession,
}

/// The packet that opens a conversation.
pub open spec fn hello_packet() -> Seq<u8> {
    bare_packet(SSH_FXP_INIT, be32(SFTP_PROTO_VERSION))
}

/// The version that a server announces in its answer to the first packet.
pub open spec fn version_answer(kind: u8, data: Seq<u8>) -> Result<u32, Fault> {
    if kind != SSH_FXP_VERSION {
        Err(unexpected("expected VERSION, got "@, kind))
    } else {
        Ok(be32_at(data, 0))
    }
}

// ── Starting an operation ───────────────────────────────────────────

/// The attributes that go with the opening of a file: the mode, where the file
/// may be created.
pub open spec fn open_attrs(flags: u32, mode: u32) -> Seq<u8> {
    if flags & SSH_FXF_CREAT != 0 {
        be32(SSH_FILEXFER_ATTR_PERMISSIONS) + be32(mode)
    } else {
        be32(0)
    }
}

/// The type and the payload of the first request of an operation.
pub open spec fn first_request(call: CallView) -> (u8, Seq<u8>) {
    match call {
        CallOf::Realpath { path } => (SSH_FXP_REALPATH, text_field(path)),
        CallOf::Stat { path } => (SSH_FXP_STAT, text_field(path)),
        CallOf::Lstat { path } => (SSH_FXP_LSTAT, text_field(path)),
        CallOf::Setstat { path, attrs } => (
            SSH_FXP_SETSTAT,
            text_field(path) + attrs_field(attrs),
        ),
        CallOf::Readdir { path } => (SSH_FXP_OPENDIR, text_field(path)),
        CallOf::Open { path, flags, mode } => (
            SSH_FXP_OPEN,
            text_field(path) + be32(flags) + open_attrs(flags, mode),
        ),
        CallOf::Close { handle } => (SSH_FXP_CLOSE, bytes_field(handle)),
        CallOf::Read { handle, offset, len } => (
            SSH_FXP_READ,
            read_request(handle, offset as int, len),
        ),
        CallOf::Write { handle, offset, data } => (
            SSH_FXP_WRITE,
            write_request(handle, offset, data),
        ),
        CallOf::Mkdir { path, mode } => (
            SSH_FXP_MKDIR,
            text_field(path) + be32(SSH_FILEXFER_ATTR_PERMISSIONS) + be32(mode),
        ),
        CallOf::Rmdir { path } => (SSH_FXP_RMDIR, text_field(path)),
        CallOf::Remove { path } => (SSH_FXP_REMOVE, text_field(path)),
        CallOf::Rename { from, to } => (SSH_FXP_RENAME, text_field(from) + text_field(to)),
        CallOf::Symlink { target, link } => (
            SSH_FXP_SYMLINK,
            text_field(target) + text_field(link),
        ),
    }
}

/// An operation that takes one request and one answer, or the opening of a
/// listing.
pub open spec fn start_single(next_id: u32, call: CallView, x: ExchangeView) -> (u32, TurnView) {
    (
        next_id.wrapping_add(1),
        TurnView::Send(x, packet(first_request(call).0, next_id, first_request(call).1)),
    )
}

/// How an operation starts. Reads and writes that are too long for one request
/// are spread over several.
pub open spec fn start_call(next_id: u32, call: CallView) -> (u32, TurnView) {
    match call {
        CallOf::Read { handle, offset, len } if len > MAX_READ_SIZE => start_reading(
            next_id,
            handle,
            offset as int,
            len as nat,
            MAX_READ_SIZE,
            Seq::empty(),
        ),
        CallOf::Write { handle, offset, data } if data.len() > MAX_WRITE_SIZE => start_writing(
            next_id,
            handle,
            offset,
            data,
            0,
        ),
        CallOf::Readdir { path: _ } => start_single(
            next_id,
            call,
            ExchangeView::Opening { id: next_id },
        ),
        _ => start_single(
            next_id,
            call,
            ExchangeView::Single { id: next_id, want: wanted(call) },
        ),
    }
}

/// The bytes that an operation reaches stand within a 64-bit file, where the
/// operation is spread over several requests.
pub open spec fn within_file(call: CallView) -> bool {
    match call {
        CallOf::Read { handle: _, offset, len } => len > MAX_READ_SIZE ==> offset + len
            <= u64::MAX,
        CallOf::Write { handle: _, offset, data } => data.len() > MAX_WRITE_SIZE ==> offset
            + data.len() <= u64::MAX,
        _ => true,
    }
}

/// The access modes and creation flags of the operating system.
#[derive(Debug, Clone, Copy)]
pub struct OpenModes {
    pub accmode: i32,
    pub rdonly: i32,
    pub wronly: i32,
    pub rdwr: i32,
    pub creat: i32,
    pub trunc: i32,
    pub excl: i32,
    pub append: i32,
}

/// What the access modes and creation flags of every operating system have in
/// common: the modes differ and lie within their mask, in this order; each flag
/// has a bit, which lies outside the mask, and no two flags share one.
pub open spec fn modes_ok(m: OpenModes) -> bool {
    &&& m.rdonly < m.wronly < m.rdwr
    &&& m.rdonly & m.accmode == m.rdonly
    &&& m.wronly & m.accmode == m.wronly
    &&& m.rdwr & m.accmode == m.rdwr
    &&& m.creat != 0 && m.trunc != 0 && m.excl != 0 && m.append != 0
    &&& m.creat & m.accmode == 0 && m.trunc & m.accmode == 0
    &&& m.excl & m.accmode == 0 && m.append & m.accmode == 0
    &&& m.creat & m.trunc == 0 && m.creat & m.excl == 0 && m.creat & m.append == 0
    &&& m.trunc & m.excl == 0 && m.trunc & m.append == 0 && m.excl & m.append == 0
}

/// The bits of `libc`'s `open` flags (`O_ACCMODE`, `O_RDONLY`, `O_WRONLY`,
/// `O_RDWR`, `O_CREAT`, `O_TRUNC`, `O_EXCL`, `O_APPEND`), field by field. They
/// differ from one operating system to another; what is claimed is how they
/// relate to each other on all of those for which `libc` has them. Which bits
/// they are is left unsaid.
#[verifier::external_body]
fn libc_open_modes() -> (m: OpenModes)
    ensures
        modes_ok(m),
{
    OpenModes {
        accmode: libc::O_ACCMODE,
        rdonly: libc::O_RDONLY,
        wronly: libc::O_WRONLY,
        rdwr: libc::O_RDWR,
        creat: libc::O_CREAT,
        trunc: libc::O_TRUNC,
        excl: libc::O_EXCL,
        append: libc::O_APPEND,
    }
}

/// The SFTP flag `bit` where `on` holds.
pub open spec fn flag_if(on: bool, bit: u32) -> u32 {
    if on {
        bit
    } else {
        0
    }
}

/// The SFTP flags for `open` flags of an operating system.
pub open spec fn sftp_flags(flags: i32, m: OpenModes) -> u32 {
    let mode = flags & m.accmode;
    flag_if(mode == m.rdonly, SSH_FXF_READ) | flag_if(mode == m.wronly, SSH_FXF_WRITE) | flag_if(
        mode == m.rdwr,
        SSH_FXF_READ | SSH_FXF_WRITE,
    ) | flag_if(flags & m.creat != 0, SSH_FXF_CREAT) | flag_if(
        flags & m.trunc != 0,
        SSH_FXF_TRUNC,
    ) | flag_if(flags & m.excl != 0, SSH_FXF_EXCL) | flag_if(
        flags & m.append != 0,
        SSH_FXF_APPEND,
    )
}

fn pick_flag(on: bool, bit: u32) -> (r: u32)
    ensures
        r == flag_if(on, bit),
{
    if on {
        bit
    } else {
        0
    }
}

impl SftpSession {
    /// A conversation that has sent nothing.
    pub fn dummy() -> (s: Self)
        ensures
            s.next_id == 1,
    {
        SftpSession { next_id: 1 }
    }

    /// What it takes to open a conversation with a host.
    pub fn connect(host: &str, port: u16, user: Option<&str>, identity: Option<&str>) -> (r: Launch)
        ensures
            texts(r.arguments@) == ssh_arguments(host@, port, text_of(user), text_of(identity)),
            r.hello@ == hello_packet(),
            r.session.next_id == 1,
    {
        let mut list: Vec<String> = Vec::new();
        push_text(&mut list, "-oStrictHostKeyChecking=accept-new");
        push_text(&mut list, "-oConnectTimeout=30");
        push_text(&mut list, "-oServerAliveInterval=15");
        push_text(&mut list, "-oServerAliveCountMax=3");
        push_text(&mut list, "-oBatchMode=yes");
        push_text(&mut list, "-oCiphers=aes128-gcm@openssh.com,chacha20-poly1305@openssh.com");
        if port != 22 {
            push_text(&mut list, "-p");
            push_text(&mut list, &decimal_text(port as u64));
        }
        if let Some(id) = identity {
            push_text(&mut list, "-i");
            push_text(&mut list, id);
        }
        let mut target = String::new();
        if let Some(u) = user {
            target.append(u);
            target.append("@");
        }
        target.append(host);
        assert(target@ =~= match text_of(user) {
            Some(u) => u + "@"@ + host@,
            None => host@,
        });
        push_text(&mut list, &target);
        push_text(&mut list, "-s");
        push_text(&mut list, "sftp");
        assert(texts(list@) =~= ssh_arguments(host@, port, text_of(user), text_of(identity)));
        let mut buf = Buf::new();
        buf.put_u32(SFTP_PROTO_VERSION);
        assert(buf@ =~= be32(SFTP_PROTO_VERSION));
        let hello = make_bare_packet(SSH_FXP_INIT, &buf.0);
        Launch { arguments: list, hello, session: SftpSession { next_id: 1 } }
    }

    /// Checks the server's answer to the first packet and gives its version.
    pub fn sftp_init(kind: u8, data: &[u8]) -> (r: SftpResult<u32>)
        requires
            kind == SSH_FXP_VERSION ==> data@.len() >= 4,
        ensures
            outcome(r) == version_answer(kind, data@),
    {
        if kind != SSH_FXP_VERSION {
            return Err(unexpected_kind("expected VERSION, got ", kind));
        }
        Ok(read_u32_be(data, 0))
    }

    /// Gives out the next request id. Ids start over after 2^32 requests.
    pub fn take_id(&mut self) -> (id: u32)
        ensures
            id == old(self).next_id,
            final(self).next_id == old(self).next_id.wrapping_add(1),
    {
        let id = self.next_id;
        self.next_id = self.next_id.wrapping_add(1);
        id
    }

    /// Sends one request whose answer is to give `want`.
    fn request(&mut self, kind: u8, payload: &[u8], want: Want) -> (t: Turn)
        ensures
            final(self).next_id == old(self).next_id.wrapping_add(1),
            t@ == TurnView::Send(
                ExchangeView::Single { id: old(self).next_id, want },
                packet(kind, old(self).next_id, payload@),
            ),
    {
        let id = self.take_id();
        Turn::Send(Exchange::single(id, want), make_packet(kind, id, payload))
    }

    /// Starts to ask for the canonical form of a path.
    pub fn realpath(&mut self, path: &str) -> (t: Turn)
        ensures
            (final(self).next_id, t@) == start_call(
                old(self).next_id,
                CallOf::Realpath { path: path@ },
            ),
    {
        let mut buf = Buf::new();
        buf.put_str(path);
        assert(buf@ =~= text_field(path@));
        self.request(SSH_FXP_REALPATH, &buf.0, Want::Path)
    }

    /// Starts to ask for the attributes of what a path leads to.
    pub fn stat(&mut self, path: &str) -> (t: Turn)
        ensures
            (final(self).next_id, t@) == start_call(
                old(self).next_id,
                CallOf::Stat { path: path@ },
            ),
    {
        let mut buf = Buf::new();
        buf.put_str(path);
        assert(buf@ =~= text_field(path@));
        self.request(SSH_FXP_STAT, &buf.0, Want::Attrs)
    }

    /// Starts to ask for the attributes of a path itself.
    pub fn lstat(&mut self, path: &str) -> (t: Turn)
        ensures
            (final(self).next_id, t@) == start_call(
                old(self).next_id,
                CallOf::Lstat { path: path@ },
            ),
    {
        let mut buf = Buf::new();
        buf.put_str(path);
        assert(buf@ =~= text_field(path@));
        self.request(SSH_FXP_LSTAT, &buf.0, Want::Attrs)
    }

    /// Starts to set the attributes of a path.
    pub fn setstat(&mut self, path: &str, attrs: &FileAttr) -> (t: Turn)
        ensures
            (final(self).next_id, t@) == start_call(
                old(self).next_id,
                CallOf::Setstat { path: path@, attrs: *attrs },
            ),
    {
        let mut buf = Buf::new();
        buf.put_str(path);
        buf.put_attrs(attrs);
        assert(buf@ =~= text_field(path@) + attrs_field(*attrs));
        self.request(SSH_FXP_SETSTAT, &buf.0, Want::Nothing)
    }

    /// Starts to list a directory.
    pub fn readdir(&mut self, path: &str) -> (t: Turn)
        ensures
            (final(self).next_id, t@) == start_call(
                old(self).next_id,
                CallOf::Readdir { path: path@ },
            ),
    {
        let mut buf = Buf::new();
        buf.put_str(path);
        assert(buf@ =~= text_field(path@));
        let id = self.take_id();
        Turn::Send(Exchange::opening(id), make_packet(SSH_FXP_OPENDIR, id, &buf.0))
    }

    /// Starts to open a file.
    pub fn open(&mut self, path: &str, flags: u32, mode: u32) -> (t: Turn)
        ensures
            (final(self).next_id, t@) == start_call(
                old(self).next_id,
                CallOf::Open { path: path@, flags, mode },
            ),
    {
        let mut buf = Buf::new();
        buf.put_str(path);
        buf.put_u32(flags);
        if flags & SSH_FXF_CREAT != 0 {
            buf.put_u32(SSH_FILEXFER_ATTR_PERMISSIONS);
            buf.put_u32(mode);
        } else {
            buf.put_u32(0);
        }
        assert(buf@ =~= text_field(path@) + be32(flags) + open_attrs(flags, mode));
        self.request(SSH_FXP_OPEN, &buf.0, Want::Handle)
    }

    /// Starts to close a handle.
    pub fn close(&mut self, handle: &[u8]) -> (t: Turn)
        ensures
            (final(self).next_id, t@) == start_call(
                old(self).next_id,
                CallOf::Close { handle: handle@ },
            ),
    {
        let mut buf = Buf::new();
        buf.put_bytes(handle);
        assert(buf@ =~= bytes_field(handle@));
        self.request(SSH_FXP_CLOSE, &buf.0, Want::Nothing)
    }

    /// Starts to read. A read of more than [`MAX_READ_SIZE`] bytes runs over
    /// several requests.
    pub fn read(&mut self, handle: &[u8], offset: u64, len: u32) -> (t: Turn)
        requires
            within_file(CallOf::Read { handle: handle@, offset, len }),
        ensures
            (final(self).next_id, t@) == start_call(
                old(self).next_id,
                CallOf::Read { handle: handle@, offset, len },
            ),
    {
        if len > MAX_READ_SIZE {
            let nothing: Vec<u8> = Vec::new();
            assert(nothing@ =~= Seq::empty());
            return begin_reading(
                self,
                slice_copy(handle),
                offset,
                len as u64,
                MAX_READ_SIZE,
                nothing,
            );
        }
        let mut buf = Buf::new();
        buf.put_bytes(handle);
        buf.put_u64(offset);
        buf.put_u32(len);
        assert(buf@ =~= read_request(handle@, offset as int, len));
        self.request(SSH_FXP_READ, &buf.0, Want::Data)
    }

    /// Starts to write. A write of more than [`MAX_WRITE_SIZE`] bytes runs over
    /// several requests.
    pub fn write(&mut self, handle: &[u8], offset: u64, data: &[u8]) -> (t: Turn)
        requires
            within_file(CallOf::Write { handle: handle@, offset, data: data@ }),
        ensures
            (final(self).next_id, t@) == start_call(
                old(self).next_id,
                CallOf::Write { handle: handle@, offset, data: data@ },
            ),
    {
        if data.len() > MAX_WRITE_SIZE as usize {
            return begin_writing(self, slice_copy(handle), offset, slice_copy(data), 0);
        }
        let mut buf = Buf::new();
        buf.put_bytes(handle);
        buf.put_u64(offset);
        buf.put_bytes(data);
        assert(buf@ =~= write_request(handle@, offset, data@));
        self.request(SSH_FXP_WRITE, &buf.0, Want::Nothing)
    }

    /// Starts to make a directory.
    pub fn mkdir(&mut self, path: &str, mode: u32) -> (t: Turn)
        ensures
            (final(self).next_id, t@) == start_call(
                old(self).next_id,
                CallOf::Mkdir { path: path@, mode },
            ),
    {
        let mut buf = Buf::new();
        buf.put_str(path);
        buf.put_u32(SSH_FILEXFER_ATTR_PERMISSIONS);
        buf.put_u32(mode);
        assert(buf@ =~= text_field(path@) + be32(SSH_FILEXFER_ATTR_PERMISSIONS) + be32(mode));
        self.request(SSH_FXP_MKDIR, &buf.0, Want::Nothing)
    }

    /// Starts to remove a directory.
    pub fn rmdir(&mut self, path: &str) -> (t: Turn)
        ensures
            (final(self).next_id, t@) == start_call(
                old(self).next_id,
                CallOf::Rmdir { path: path@ },
            ),
    {
        let mut buf = Buf::new();
        buf.put_str(path);
        assert(buf@ =~= text_field(path@));
        self.request(SSH_FXP_RMDIR, &buf.0, Want::Nothing)
    }

    /// Starts to remove a file.
    pub fn remove(&mut self, path: &str) -> (t: Turn)
        ensures
            (final(self).next_id, t@) == start_call(
                old(self).next_id,
                CallOf::Remove { path: path@ },
            ),
    {
        let mut buf = Buf::new();
        buf.put_str(path);
        assert(buf@ =~= text_field(path@));
        self.request(SSH_FXP_REMOVE, &buf.0, Want::Nothing)
    }

    /// Starts to rename a file or a directory.
    pub fn rename(&mut self, from: &str, to: &str) -> (t: Turn)
        ensures
            (final(self).next_id, t@) == start_call(
                old(self).next_id,
                CallOf::Rename { from: from@, to: to@ },
            ),
    {
        let mut buf = Buf::new();
        buf.put_str(from);
        buf.put_str(to);
        assert(buf@ =~= text_field(from@) + text_field(to@));
        self.request(SSH_FXP_RENAME, &buf.0, Want::Nothing)
    }

    /// Starts to make a symbolic link.
    pub fn symlink(&mut self, target: &str, link: &str) -> (t: Turn)
        ensures
            (final(self).next_id, t@) == start_call(
                old(self).next_id,
                CallOf::Symlink { target: target@, link: link@ },
            ),
    {
        let mut buf = Buf::new();
        buf.put_str(target);
        buf.put_str(link);
        assert(buf@ =~= text_field(target@) + text_field(link@));
        self.request(SSH_FXP_SYMLINK, &buf.0, Want::Nothing)
    }

    /// Starts an operation.
    pub fn start(&mut self, call: &SftpCall) -> (t: Turn)
        requires
            within_file(call@),
        ensures
            (final(self).next_id, t@) == start_call(old(self).next_id, call@),
    {
        match call {
            CallOf::Realpath { path } => self.realpath(path),
            CallOf::Stat { path } => self.stat(path),
            CallOf::Lstat { path } => self.lstat(path),
            CallOf::Setstat { path, attrs } => self.setstat(path, attrs),
            CallOf::Readdir { path } => self.readdir(path),
            CallOf::Open { path, flags, mode } => self.open(path, *flags, *mode),
            CallOf::Close { handle } => self.close(handle),
            CallOf::Read { handle, offset, len } => self.read(handle, *offset, *len),
            CallOf::Write { handle, offset, data } => self.write(handle, *offset, data),
            CallOf::Mkdir { path, mode } => self.mkdir(path, *mode),
            CallOf::Rmdir { path } => self.rmdir(path),
            CallOf::Remove { path } => self.remove(path),
            CallOf::Rename { from, to } => self.rename(from, to),
            CallOf::Symlink { target, link } => self.symlink(target, link),
        }
    }

    /// The SFTP flags for `open` flags, given the operating system's bits.
    pub fn open_flags(flags: i32, m: &OpenModes) -> (r: u32)
        ensures
            r == sftp_flags(flags, *m),
    {
        let mode = flags & m.accmode;
        pick_flag(mode == m.rdonly, SSH_FXF_READ) | pick_flag(
            mode == m.wronly,
            SSH_FXF_WRITE,
        ) | pick_flag(mode == m.rdwr, SSH_FXF_READ | SSH_FXF_WRITE) | pick_flag(
            flags & m.creat != 0,
            SSH_FXF_CREAT,
        ) | pick_flag(flags & m.trunc != 0, SSH_FXF_TRUNC) | pick_flag(
            flags & m.excl != 0,
            SSH_FXF_EXCL,
        ) | pick_flag(flags & m.append != 0, SSH_FXF_APPEND)
    }

    /// The SFTP flags for `open` flags of this operating system.
    pub fn open_flags_from_libc(flags: i32) -> (r: u32)
        ensures
            exists|m: OpenModes| modes_ok(m) && r == #[trigger] sftp_flags(flags, m),
    {
        let m = libc_open_modes();
        Self::open_flags(flags, &m)
    }
}

/// `open` flags with an access mode and some of the creation flags.
pub open spec fn open_word(
    m: OpenModes,
    access: i32,
    creat: bool,
    trunc: bool,
    excl: bool,
    append: bool,
) -> i32 {
    access | (if creat {
        m.creat
    } else {
        0
    }) | (if trunc {
        m.trunc
    } else {
        0
    }) | (if excl {
        m.excl
    } else {
        0
    }) | (if append {
        m.append
    } else {
        0
    })
}

/// `open` flags lead to the SFTP flags of the same meaning, and to no others.
pub proof fn law_open_flags_keep_their_meaning(
    m: OpenModes,
    access: i32,
    creat: bool,
    trunc: bool,
    excl: bool,
    append: bool,
)
    requires
        modes_ok(m),
        access == m.rdonly || access == m.wronly || access == m.rdwr,
    ensures
        sftp_flags(open_word(m, access, creat, trunc, excl, append), m) == (if access == m.rdonly {
            SSH_FXF_READ
        } else if access == m.wronly {
            SSH_FXF_WRITE
        } else {
            SSH_FXF_READ | SSH_FXF_WRITE
        }) | flag_if(creat, SSH_FXF_CREAT) | flag_if(trunc, SSH_FXF_TRUNC) | flag_if(
            excl,
            SSH_FXF_EXCL,
        ) | flag_if(append, SSH_FXF_APPEND),
{
    let mask = m.accmode;
    let c = m.creat;
    let t = m.trunc;
    let e = m.excl;
    let a = m.append;
    let oc = if creat {
        c
    } else {
        0
    };
    let ot = if trunc {
        t
    } else {
        0
    };
    let oe = if excl {
        e
    } else {
        0
    };
    let oa = if append {
        a
    } else {
        0
    };
    let word = access | oc | ot | oe | oa;
    assert(word == open_word(m, access, creat, trunc, excl, append));
    assert(word & mask == access && word & c == oc && word & t == ot && word & e == oe && word & a
        == oa) by (bit_vector)
        requires
            word == access | oc | ot | oe | oa,
            access & mask == access,
            oc == c || oc == 0,
            ot == t || ot == 0,
            oe == e || oe == 0,
            oa == a || oa == 0,
            c & mask == 0,
            t & mask == 0,
            e & mask == 0,
            a & mask == 0,
            c & t == 0,
            c & e == 0,
            c & a == 0,
            t & e == 0,
            t & a == 0,
            e & a == 0,
    ;
    let rw = SSH_FXF_READ | SSH_FXF_WRITE;
    let mode = if access == m.rdonly {
        SSH_FXF_READ
    } else if access == m.wronly {
        SSH_FXF_WRITE
    } else {
        rw
    };
    let r0 = flag_if(access == m.rdonly, SSH_FXF_READ);
    let r1 = flag_if(access == m.wronly, SSH_FXF_WRITE);
    let r2 = flag_if(access == m.rdwr, rw);
    assert(r0 | r1 | r2 == mode) by (bit_vector)
        requires
            (r0 == mode && r1 == 0 && r2 == 0) || (r0 == 0 && r1 == mode && r2 == 0) || (r0 == 0
                && r1 == 0 && r2 == mode),
    ;
}

/// Every operation starts by sending something, and what it is to give is what
/// the operation is for.
pub proof fn law_operations_start_with_their_goal(next_id: u32, call: CallView)
    ensures
        start_call(next_id, call).1 is Send,
        keeps_goal(start_call(next_id, call).1, wanted(call)),
{
}

/// `ssh` is told to start the server for files on the host, as the user, over the
/// port and with the key that are given, and with nothing in place of what is not.
pub proof fn law_ssh_is_told_where_to_go(
    host: Seq<char>,
    port: u16,
    user: Option<Seq<char>>,
    identity: Option<Seq<char>>,
)
    ensures
        ({
            let a = ssh_arguments(host, port, user, identity);
            let n = a.len() as int;
            let target = a[n - 3];
            let keys: int = if identity is Some {
                2
            } else {
                0
            };
            let ports: int = if port != 22 {
                2
            } else {
                0
            };
            &&& n == 6 + ports + keys + 3
            &&& a[n - 1] == "sftp"@
            &&& a[n - 2] == "-s"@
            &&& match user {
                Some(u) => {
                    &&& target.len() == u.len() + 1 + host.len()
                    &&& target.take(u.len() as int) == u
                    &&& target[u.len() as int] == '@'
                    &&& target.skip(u.len() as int + 1) == host
                },
                None => target == host,
            }
            &&& identity matches Some(id) ==> a[n - 5] == "-i"@ && a[n - 4] == id
            &&& port != 22 ==> {
                &&& a[n - 5 - keys] == "-p"@
                &&& crate::text::number_in(a[n - 4 - keys], 65535) == Some(port as nat)
            }
        }),
{
    reveal_strlit("@");
    crate::text::law_decimal_round_trip(port as nat, 65535);
    if let Some(u) = user {
        let target = u + "@"@ + host;
        assert(target.take(u.len() as int) =~= u);
        assert(target.skip(u.len() as int + 1) =~= host);
    }
}

} // verus!

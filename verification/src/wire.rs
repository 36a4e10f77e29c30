//! The SFTP wire format: the values that packets carry, a buffer that writes
//! them and a reader that takes them apart.

use crate::bytes::{
    be32, be32_at, be64, be64_at, copy_range, put_all, put_u32_be, put_u64_be, put_u8,
    read_u32_be, read_u64_be,
};
use crate::text::concat;
use vstd::prelude::*;
use vstd::utf8::{decode_utf8, encode_utf8, valid_utf8};

verus! {

// Attribute flags
pub const SSH_FILEXFER_ATTR_SIZE: u32 = 0x0000_0001;

pub const SSH_FILEXFER_ATTR_UIDGID: u32 = 0x0000_0002;

pub const SSH_FILEXFER_ATTR_PERMISSIONS: u32 = 0x0000_0004;

pub const SSH_FILEXFER_ATTR_ACMODTIME: u32 = 0x0000_0008;

pub const SSH_FILEXFER_ATTR_EXTENDED: u32 = 0x8000_0000;

/// All four groups of attributes that this client writes.
pub const SSH_FILEXFER_ATTR_ALL: u32 = 0x0000_000f;

// ── Values ──────────────────────────────────────────────────────────

/// The attributes of a remote file.
#[derive(Debug, Clone, Copy)]
pub struct FileAttr {
    pub size: u64,
    pub uid: u32,
    pub gid: u32,
    pub perm: u32,
    pub atime: u32,
    pub mtime: u32,
}

/// What an attribute holds that the server did not send.
pub open spec fn default_attr() -> FileAttr {
    FileAttr { size: 0, uid: 0, gid: 0, perm: 0o644, atime: 0, mtime: 0 }
}

impl Default for FileAttr {
    fn default() -> (a: Self)
        ensures
            a == default_attr(),
    {
        FileAttr { size: 0, uid: 0, gid: 0, perm: 0o644, atime: 0, mtime: 0 }
    }
}

/// The directory bit of a Unix mode.
pub open spec fn is_dir_mode(perm: u32) -> bool {
    perm & 0o40000 != 0
}

/// Says whether a Unix mode has the directory bit.
pub fn has_dir_bit(perm: u32) -> (r: bool)
    ensures
        r == is_dir_mode(perm),
{
    perm & 0o40000 != 0
}

/// One entry of a remote directory.
#[derive(Debug, Clone)]
pub struct DirEntry {
    pub name: String,
    pub attrs: FileAttr,
}

/// A directory entry with its name as a sequence of characters.
pub struct EntryView {
    pub name: Seq<char>,
    pub attrs: FileAttr,
}

impl View for DirEntry {
    type V = EntryView;

    open spec fn view(&self) -> EntryView {
        EntryView { name: self.name@, attrs: self.attrs }
    }
}

/// The entries of a listing, each by its view.
pub open spec fn entries_view(entries: Seq<DirEntry>) -> Seq<EntryView> {
    Seq::new(entries.len(), |i: int| entries[i]@)
}

/// What can go wrong with an SFTP operation.
#[derive(Debug)]
pub enum SftpError {
    /// The operating system refused; the text says why.
    Io(String),
    /// The server sent what the protocol does not allow here.
    Protocol(String),
    /// The server answered with a status other than success.
    Status(u32, String),
    /// The connection is gone or out of step.
    Disconnected,
}

pub type SftpResult<T> = Result<T, SftpError>;

/// An [`SftpError`] with its text as a sequence of characters.
pub enum Fault {
    Io(Seq<char>),
    Protocol(Seq<char>),
    Status(u32, Seq<char>),
    Disconnected,
}

impl View for SftpError {
    type V = Fault;

    open spec fn view(&self) -> Fault {
        match self {
            SftpError::Io(s) => Fault::Io(s@),
            SftpError::Protocol(s) => Fault::Protocol(s@),
            SftpError::Status(c, s) => Fault::Status(*c, s@),
            SftpError::Disconnected => Fault::Disconnected,
        }
    }
}

impl SftpError {
    /// The error as a line for a log or a terminal.
    pub fn message(&self) -> (r: String)
        ensures
            r@ == fault_message(self@),
    {
        match self {
            SftpError::Io(s) => concat("IO: ", s),
            SftpError::Protocol(s) => concat("Protocol: ", s),
            SftpError::Status(c, s) => {
                let mut r = concat("SFTP status ", &crate::text::decimal_text(*c as u64));
                r.append(": ");
                r.append(s);
                r
            },
            SftpError::Disconnected => String::from_str("Disconnected"),
        }
    }
}

/// How an error reads.
pub open spec fn fault_message(f: Fault) -> Seq<char> {
    match f {
        Fault::Io(s) => "IO: "@ + s,
        Fault::Protocol(s) => "Protocol: "@ + s,
        Fault::Status(c, s) => "SFTP status "@ + crate::text::decimal(c as nat) + ": "@ + s,
        Fault::Disconnected => "Disconnected"@,
    }
}

/// A protocol error with the given text.
pub fn protocol_error(text: &str) -> (e: SftpError)
    ensures
        e@ == Fault::Protocol(text@),
{
    SftpError::Protocol(String::from_str(text))
}

// ── Writing ─────────────────────────────────────────────────────────

/// A byte string on the wire: its length in four bytes, then the bytes.
pub open spec fn bytes_field(b: Seq<u8>) -> Seq<u8> {
    be32(b.len() as u32) + b
}

/// A text on the wire: a byte string that holds its UTF-8 form.
pub open spec fn text_field(s: Seq<char>) -> Seq<u8> {
    bytes_field(encode_utf8(s))
}

/// Attributes on the wire: the flags, then every group.
pub open spec fn attrs_field(a: FileAttr) -> Seq<u8> {
    be32(SSH_FILEXFER_ATTR_ALL) + be64(a.size) + be32(a.uid) + be32(a.gid) + be32(a.perm) + be32(
        a.atime,
    ) + be32(a.mtime)
}

/// A packet payload under construction.
pub struct Buf(pub Vec<u8>);

impl View for Buf {
    type V = Seq<u8>;

    open spec fn view(&self) -> Seq<u8> {
        self.0@
    }
}

impl Buf {
    /// An empty buffer.
    pub fn new() -> (b: Self)
        ensures
            b@ == Seq::<u8>::empty(),
    {
        Buf(Vec::with_capacity(256))
    }

    /// An empty buffer with room for `n` bytes.
    pub fn with_capacity(n: usize) -> (b: Self)
        ensures
            b@ == Seq::<u8>::empty(),
    {
        Buf(Vec::with_capacity(n))
    }

    pub fn put_u8(&mut self, v: u8)
        ensures
            final(self)@ == old(self)@ + seq![v],
    {
        put_u8(&mut self.0, v);
    }

    pub fn put_u32(&mut self, v: u32)
        ensures
            final(self)@ == old(self)@ + be32(v),
    {
        put_u32_be(&mut self.0, v);
    }

    pub fn put_u64(&mut self, v: u64)
        ensures
            final(self)@ == old(self)@ + be64(v),
    {
        put_u64_be(&mut self.0, v);
    }

    /// Appends a text behind its length in bytes. A length beyond 32 bits is
    /// written modulo 2^32.
    pub fn put_str(&mut self, s: &str)
        ensures
            final(self)@ == old(self)@ + text_field(s@),
    {
        self.put_bytes(s.as_bytes());
    }

    /// Appends a byte string behind its length. A length beyond 32 bits is
    /// written modulo 2^32.
    pub fn put_bytes(&mut self, b: &[u8])
        ensures
            final(self)@ == old(self)@ + bytes_field(b@),
    {
        self.put_u32(#[verifier::truncate] (b.len() as u32));
        put_all(&mut self.0, b);
        assert(self@ =~= old(self)@ + bytes_field(b@));
    }

    /// Appends attributes, every group of them.
    pub fn put_attrs(&mut self, attrs: &FileAttr)
        ensures
            final(self)@ == old(self)@ + attrs_field(*attrs),
    {
        let flags: u32 = SSH_FILEXFER_ATTR_SIZE | SSH_FILEXFER_ATTR_UIDGID
            | SSH_FILEXFER_ATTR_PERMISSIONS | SSH_FILEXFER_ATTR_ACMODTIME;
        assert(1u32 | 2u32 | 4u32 | 8u32 == 15u32) by (bit_vector);
        self.put_u32(flags);
        self.put_u64(attrs.size);
        self.put_u32(attrs.uid);
        self.put_u32(attrs.gid);
        self.put_u32(attrs.perm);
        self.put_u32(attrs.atime);
        self.put_u32(attrs.mtime);
        assert(self@ =~= old(self)@ + attrs_field(*attrs));
    }
}

// ── Reading ─────────────────────────────────────────────────────────

/// What a read gives: the value or the fault, and the bytes that are left.
pub type Parsed<T> = (Result<T, Fault>, Seq<u8>);

/// The fault of a read beyond the end.
pub open spec fn underflow() -> Fault {
    Fault::Protocol("buffer underflow"@)
}

/// Reading one byte.
pub open spec fn parse_u8(d: Seq<u8>) -> Parsed<u8> {
    if d.len() < 1 {
        (Err(underflow()), d)
    } else {
        (Ok(d[0]), d.skip(1))
    }
}

/// Reading a 32-bit number.
pub open spec fn parse_u32(d: Seq<u8>) -> Parsed<u32> {
    if d.len() < 4 {
        (Err(underflow()), d)
    } else {
        (Ok(be32_at(d, 0)), d.skip(4))
    }
}

/// Reading a 64-bit number.
pub open spec fn parse_u64(d: Seq<u8>) -> Parsed<u64> {
    if d.len() < 8 {
        (Err(underflow()), d)
    } else {
        (Ok(be64_at(d, 0)), d.skip(8))
    }
}

/// Reading a byte string. A length that reaches beyond the end is consumed
/// before the fault.
pub open spec fn parse_bytes(d: Seq<u8>) -> Parsed<Seq<u8>> {
    match parse_u32(d) {
        (Err(e), r) => (Err(e), r),
        (Ok(n), r) => if n > r.len() {
            (Err(underflow()), r)
        } else {
            (Ok(r.take(n as int)), r.skip(n as int))
        },
    }
}

/// The text that std gives for bytes that are not UTF-8.
pub uninterp spec fn utf8_error_text(bytes: Seq<u8>) -> Seq<char>;

/// Reading a text.
pub open spec fn parse_text(d: Seq<u8>) -> Parsed<Seq<char>> {
    match parse_bytes(d) {
        (Err(e), r) => (Err(e), r),
        (Ok(b), r) => if valid_utf8(b) {
            (Ok(decode_utf8(b)), r)
        } else {
            (Err(Fault::Protocol("invalid UTF-8: "@ + utf8_error_text(b))), r)
        },
    }
}

/// Reading a 64-bit number where `on` holds; else `or`.
pub open spec fn parse_u64_if(d: Seq<u8>, on: bool, or: u64) -> Parsed<u64> {
    if on {
        parse_u64(d)
    } else {
        (Ok(or), d)
    }
}

/// Reading a 32-bit number where `on` holds; else `or`.
pub open spec fn parse_u32_if(d: Seq<u8>, on: bool, or: u32) -> Parsed<u32> {
    if on {
        parse_u32(d)
    } else {
        (Ok(or), d)
    }
}

/// Reading over `n` pairs of byte strings.
pub open spec fn parse_pairs(d: Seq<u8>, n: nat) -> Parsed<()>
    decreases n,
{
    if n == 0 {
        (Ok(()), d)
    } else {
        match parse_bytes(d) {
            (Err(e), r) => (Err(e), r),
            (Ok(_), r) => match parse_bytes(r) {
                (Err(e), r2) => (Err(e), r2),
                (Ok(_), r2) => parse_pairs(r2, (n - 1) as nat),
            },
        }
    }
}

/// Reading over the extended attributes where `on` holds.
pub open spec fn parse_extended_if(d: Seq<u8>, on: bool) -> Parsed<()> {
    if !on {
        (Ok(()), d)
    } else {
        match parse_u32(d) {
            (Err(e), r) => (Err(e), r),
            (Ok(n), r) => parse_pairs(r, n as nat),
        }
    }
}

/// Reading attributes: the flags say which groups follow; a group that is not
/// there has its default.
pub open spec fn parse_attrs(d: Seq<u8>) -> Parsed<FileAttr> {
    match parse_u32(d) {
        (Err(e), r) => (Err(e), r),
        (Ok(flags), r0) => {
            let owner = flags & SSH_FILEXFER_ATTR_UIDGID != 0;
            let times = flags & SSH_FILEXFER_ATTR_ACMODTIME != 0;
            match parse_u64_if(r0, flags & SSH_FILEXFER_ATTR_SIZE != 0, 0) {
                (Err(e), r) => (Err(e), r),
                (Ok(size), r1) => match parse_u32_if(r1, owner, 0) {
                    (Err(e), r) => (Err(e), r),
                    (Ok(uid), r2) => match parse_u32_if(r2, owner, 0) {
                        (Err(e), r) => (Err(e), r),
                        (Ok(gid), r3) => match parse_u32_if(
                            r3,
                            flags & SSH_FILEXFER_ATTR_PERMISSIONS != 0,
                            0o644,
                        ) {
                            (Err(e), r) => (Err(e), r),
                            (Ok(perm), r4) => match parse_u32_if(r4, times, 0) {
                                (Err(e), r) => (Err(e), r),
                                (Ok(atime), r5) => match parse_u32_if(r5, times, 0) {
                                    (Err(e), r) => (Err(e), r),
                                    (Ok(mtime), r6) => match parse_extended_if(
                                        r6,
                                        flags & SSH_FILEXFER_ATTR_EXTENDED != 0,
                                    ) {
                                        (Err(e), r) => (Err(e), r),
                                        (Ok(_), r7) => (
                                            Ok(FileAttr { size, uid, gid, perm, atime, mtime }),
                                            r7,
                                        ),
                                    },
                                },
                            },
                        },
                    },
                },
            }
        },
    }
}

/// The result of an operation on plain values, with the error by its view.
pub open spec fn outcome<T>(r: SftpResult<T>) -> Result<T, Fault> {
    match r {
        Ok(v) => Ok(v),
        Err(e) => Err(e@),
    }
}

/// The result of an operation that gives bytes.
pub open spec fn bytes_outcome(r: SftpResult<Vec<u8>>) -> Result<Seq<u8>, Fault> {
    match r {
        Ok(v) => Ok(v@),
        Err(e) => Err(e@),
    }
}

/// The result of an operation that gives a text.
pub open spec fn text_outcome(r: SftpResult<String>) -> Result<Seq<char>, Fault> {
    match r {
        Ok(v) => Ok(v@),
        Err(e) => Err(e@),
    }
}

/// The result of an operation that gives directory entries.
pub open spec fn entries_outcome(r: SftpResult<Vec<DirEntry>>) -> Result<Seq<EntryView>, Fault> {
    match r {
        Ok(v) => Ok(entries_view(v@)),
        Err(e) => Err(e@),
    }
}

/// `String::from_utf8`: gives the text that the bytes encode where they are
/// valid UTF-8, and else the text of std's error, which depends on the bytes
/// alone.
#[verifier::external_body]
fn text_from_utf8(bytes: Vec<u8>) -> (r: Result<String, String>)
    ensures
        match r {
            Ok(s) => valid_utf8(bytes@) && s@ == decode_utf8(bytes@),
            Err(e) => !valid_utf8(bytes@) && e@ == utf8_error_text(bytes@),
        },
{
    String::from_utf8(bytes).map_err(|e| e.to_string())
}

/// A cursor over a packet payload.
pub struct Reader<'a> {
    data: &'a [u8],
    pos: usize,
}

impl<'a> Reader<'a> {
    #[verifier::type_invariant]
    spec fn in_bounds(self) -> bool {
        self.pos <= self.data@.len()
    }

    /// The bytes that are still to be read.
    pub closed spec fn rest(self) -> Seq<u8> {
        self.data@.skip(self.pos as int)
    }

    /// A reader at the start of `data`.
    pub fn new(data: &'a [u8]) -> (r: Self)
        ensures
            r.rest() == data@,
    {
        let r = Reader { data, pos: 0 };
        assert(r.rest() =~= data@);
        r
    }

    /// How many bytes are left.
    pub fn remaining(&self) -> (n: usize)
        ensures
            n == self.rest().len(),
    {
        proof {
            use_type_invariant(self);
        }
        self.data.len() - self.pos
    }

    pub fn get_u8(&mut self) -> (v: SftpResult<u8>)
        ensures
            (outcome(v), final(self).rest()) == parse_u8(old(self).rest()),
    {
        proof {
            use_type_invariant(&*self);
        }
        if self.pos >= self.data.len() {
            return Err(protocol_error("buffer underflow"));
        }
        let v = self.data[self.pos];
        let ghost before = self.rest();
        self.pos = self.pos + 1;
        assert(self.rest() =~= before.skip(1));
        Ok(v)
    }

    pub fn get_u32(&mut self) -> (v: SftpResult<u32>)
        ensures
            (outcome(v), final(self).rest()) == parse_u32(old(self).rest()),
    {
        proof {
            use_type_invariant(&*self);
        }
        if self.data.len() - self.pos < 4 {
            return Err(protocol_error("buffer underflow"));
        }
        let v = read_u32_be(self.data, self.pos);
        let ghost before = self.rest();
        self.pos = self.pos + 4;
        assert(self.rest() =~= before.skip(4));
        Ok(v)
    }

    pub fn get_u64(&mut self) -> (v: SftpResult<u64>)
        ensures
            (outcome(v), final(self).rest()) == parse_u64(old(self).rest()),
    {
        proof {
            use_type_invariant(&*self);
        }
        if self.data.len() - self.pos < 8 {
            return Err(protocol_error("buffer underflow"));
        }
        let v = read_u64_be(self.data, self.pos);
        let ghost before = self.rest();
        self.pos = self.pos + 8;
        assert(self.rest() =~= before.skip(8));
        Ok(v)
    }

    pub fn get_bytes(&mut self) -> (v: SftpResult<Vec<u8>>)
        ensures
            (bytes_outcome(v), final(self).rest()) == parse_bytes(old(self).rest()),
    {
        let len = match self.get_u32() {
            Ok(n) => n as usize,
            Err(e) => return Err(e),
        };
        proof {
            use_type_invariant(&*self);
        }
        if self.data.len() - self.pos < len {
            return Err(protocol_error("buffer underflow"));
        }
        let v = copy_range(self.data, self.pos, self.pos + len);
        let ghost before = self.rest();
        assert(v@ =~= before.take(len as int));
        self.pos = self.pos + len;
        assert(self.rest() =~= before.skip(len as int));
        Ok(v)
    }

    pub fn get_string(&mut self) -> (v: SftpResult<String>)
        ensures
            (text_outcome(v), final(self).rest()) == parse_text(old(self).rest()),
    {
        let b = match self.get_bytes() {
            Ok(b) => b,
            Err(e) => return Err(e),
        };
        match text_from_utf8(b) {
            Ok(s) => Ok(s),
            Err(e) => Err(SftpError::Protocol(concat("invalid UTF-8: ", &e))),
        }
    }

    fn get_u64_if(&mut self, on: bool, or: u64) -> (v: SftpResult<u64>)
        ensures
            (outcome(v), final(self).rest()) == parse_u64_if(old(self).rest(), on, or),
    {
        if on {
            self.get_u64()
        } else {
            Ok(or)
        }
    }

    fn get_u32_if(&mut self, on: bool, or: u32) -> (v: SftpResult<u32>)
        ensures
            (outcome(v), final(self).rest()) == parse_u32_if(old(self).rest(), on, or),
    {
        if on {
            self.get_u32()
        } else {
            Ok(or)
        }
    }

    fn skip_extended_if(&mut self, on: bool) -> (v: SftpResult<()>)
        ensures
            (outcome(v), final(self).rest()) == parse_extended_if(old(self).rest(), on),
    {
        if !on {
            return Ok(());
        }
        let count = match self.get_u32() {
            Ok(n) => n,
            Err(e) => return Err(e),
        };
        let ghost start = self.rest();
        let mut i: u32 = 0;
        while i < count
            invariant
                i <= count,
                parse_pairs(start, count as nat) == parse_pairs(self.rest(), (count - i) as nat),
                on,
                parse_u32(old(self).rest()) == (Ok::<u32, Fault>(count), start),
            decreases count - i,
        {
            match self.get_bytes() {
                Ok(_) => {},
                Err(e) => return Err(e),
            }
            match self.get_bytes() {
                Ok(_) => {},
                Err(e) => return Err(e),
            }
            i += 1;
        }
        Ok(())
    }

    pub fn get_attrs(&mut self) -> (v: SftpResult<FileAttr>)
        ensures
            (outcome(v), final(self).rest()) == parse_attrs(old(self).rest()),
    {
        let flags = match self.get_u32() {
            Ok(n) => n,
            Err(e) => return Err(e),
        };
        let owner = flags & SSH_FILEXFER_ATTR_UIDGID != 0;
        let times = flags & SSH_FILEXFER_ATTR_ACMODTIME != 0;
        let size = match self.get_u64_if(flags & SSH_FILEXFER_ATTR_SIZE != 0, 0) {
            Ok(n) => n,
            Err(e) => return Err(e),
        };
        let uid = match self.get_u32_if(owner, 0) {
            Ok(n) => n,
            Err(e) => return Err(e),
        };
        let gid = match self.get_u32_if(owner, 0) {
            Ok(n) => n,
            Err(e) => return Err(e),
        };
        let perm = match self.get_u32_if(flags & SSH_FILEXFER_ATTR_PERMISSIONS != 0, 0o644) {
            Ok(n) => n,
            Err(e) => return Err(e),
        };
        let atime = match self.get_u32_if(times, 0) {
            Ok(n) => n,
            Err(e) => return Err(e),
        };
        let mtime = match self.get_u32_if(times, 0) {
            Ok(n) => n,
            Err(e) => return Err(e),
        };
        match self.skip_extended_if(flags & SSH_FILEXFER_ATTR_EXTENDED != 0) {
            Ok(_) => {},
            Err(e) => return Err(e),
        }
        Ok(FileAttr { size, uid, gid, perm, atime, mtime })
    }
}

// ── What a read gives back of a write ───────────────────────────────

/// A 32-bit number reads back as it was written, and reading stops behind it.
pub proof fn law_read_back_u32(v: u32, tail: Seq<u8>)
    ensures
        parse_u32(be32(v) + tail) == (Ok::<u32, Fault>(v), tail),
{
    crate::bytes::law_be32_round_trip(v);
    let d = be32(v) + tail;
    assert(d.skip(4) =~= tail);
    assert(d[0] == be32(v)[0] && d[1] == be32(v)[1] && d[2] == be32(v)[2] && d[3] == be32(v)[3]);
}

/// A 64-bit number reads back as it was written, and reading stops behind it.
pub proof fn law_read_back_u64(v: u64, tail: Seq<u8>)
    ensures
        parse_u64(be64(v) + tail) == (Ok::<u64, Fault>(v), tail),
{
    crate::bytes::law_be64_round_trip(v);
    let d = be64(v) + tail;
    assert(d.skip(8) =~= tail);
    assert(forall|i: int| 0 <= i < 8 ==> d[i] == be64(v)[i]);
    assert(be32_at(d, 0) == be32_at(be64(v), 0));
    assert(be32_at(d, 4) == be32_at(be64(v), 4));
}

/// A byte string whose length fits in 32 bits reads back as it was written.
pub proof fn law_read_back_bytes(b: Seq<u8>, tail: Seq<u8>)
    requires
        b.len() <= u32::MAX,
    ensures
        parse_bytes(bytes_field(b) + tail) == (Ok::<Seq<u8>, Fault>(b), tail),
{
    let d = bytes_field(b) + tail;
    assert(d =~= be32(b.len() as u32) + (b + tail));
    law_read_back_u32(b.len() as u32, b + tail);
    assert((b + tail).take(b.len() as int) =~= b);
    assert((b + tail).skip(b.len() as int) =~= tail);
}

/// A text whose UTF-8 form fits in 32 bits of length reads back as it was
/// written.
pub proof fn law_read_back_text(s: Seq<char>, tail: Seq<u8>)
    requires
        encode_utf8(s).len() <= u32::MAX,
    ensures
        parse_text(text_field(s) + tail) == (Ok::<Seq<char>, Fault>(s), tail),
{
    law_read_back_bytes(encode_utf8(s), tail);
    vstd::utf8::encode_utf8_valid_utf8(s);
    vstd::utf8::encode_utf8_decode_utf8(s);
}

proof fn lemma_regroup(
    a: Seq<u8>,
    b: Seq<u8>,
    c: Seq<u8>,
    d: Seq<u8>,
    e: Seq<u8>,
    f: Seq<u8>,
    g: Seq<u8>,
    tail: Seq<u8>,
)
    ensures
        a + b + c + d + e + f + g + tail == a + (b + (c + (d + (e + (f + (g + tail)))))),
{
    assert(f + g + tail =~= f + (g + tail));
    assert(e + f + g + tail =~= e + (f + (g + tail)));
    assert(a + b + c + d + e + f + g + tail =~= a + (b + (c + (d + (e + (f + (g + tail)))))));
}

proof fn lemma_all_groups(
    a: FileAttr,
    d: Seq<u8>,
    r0: Seq<u8>,
    r1: Seq<u8>,
    r2: Seq<u8>,
    r3: Seq<u8>,
    r4: Seq<u8>,
    r5: Seq<u8>,
    r6: Seq<u8>,
)
    requires
        parse_u32(d) == (Ok::<u32, Fault>(SSH_FILEXFER_ATTR_ALL), r0),
        parse_u64(r0) == (Ok::<u64, Fault>(a.size), r1),
        parse_u32(r1) == (Ok::<u32, Fault>(a.uid), r2),
        parse_u32(r2) == (Ok::<u32, Fault>(a.gid), r3),
        parse_u32(r3) == (Ok::<u32, Fault>(a.perm), r4),
        parse_u32(r4) == (Ok::<u32, Fault>(a.atime), r5),
        parse_u32(r5) == (Ok::<u32, Fault>(a.mtime), r6),
    ensures
        parse_attrs(d) == (Ok::<FileAttr, Fault>(a), r6),
{
    assert(15u32 & 1u32 != 0 && 15u32 & 2u32 != 0 && 15u32 & 4u32 != 0 && 15u32 & 8u32 != 0
        && 15u32 & 0x8000_0000u32 == 0) by (bit_vector);
}

/// Attributes read back as they were written.
pub proof fn law_read_back_attrs(a: FileAttr, tail: Seq<u8>)
    ensures
        parse_attrs(attrs_field(a) + tail) == (Ok::<FileAttr, Fault>(a), tail),
{
    let r5 = be32(a.mtime) + tail;
    let r4 = be32(a.atime) + r5;
    let r3 = be32(a.perm) + r4;
    let r2 = be32(a.gid) + r3;
    let r1 = be32(a.uid) + r2;
    let r0 = be64(a.size) + r1;
    let d = be32(SSH_FILEXFER_ATTR_ALL) + r0;
    assert(attrs_field(a) + tail == d) by {
        lemma_regroup(
            be32(SSH_FILEXFER_ATTR_ALL),
            be64(a.size),
            be32(a.uid),
            be32(a.gid),
            be32(a.perm),
            be32(a.atime),
            be32(a.mtime),
            tail,
        );
    }
    law_read_back_u32(SSH_FILEXFER_ATTR_ALL, r0);
    law_read_back_u64(a.size, r1);
    law_read_back_u32(a.uid, r2);
    law_read_back_u32(a.gid, r3);
    law_read_back_u32(a.perm, r4);
    law_read_back_u32(a.atime, r5);
    law_read_back_u32(a.mtime, tail);
    lemma_all_groups(a, d, r0, r1, r2, r3, r4, r5, tail);
}

} // verus!

//! What the server keeps for one client.

use crate::clock::{wall_seconds, Clock, CLOCK_END};
use crate::server::cache::{
    absence_known, attrs_known, live_attrs, live_dirs, no_attrs, with_absence, with_attrs,
    without_path, AttrCache, AttrModel, DirCache, DirModel,
};
use crate::server::create::{fake_attr, inhibitor_attr};
use crate::server::handles::{
    all_cut_off, HandleModel, HandleTable,
};
use crate::server::pattern::{apple_metadata, is_apple_metadata};
use crate::server::step::Moment;
use crate::sftp::call::{ReplyView, SftpReply};
use crate::sftp::packet::SSH_FX_NO_SUCH_FILE;
use crate::smb2::{STATUS_ACCESS_DENIED, STATUS_OBJECT_NAME_NOT_FOUND};
use crate::text::{base_name, chars_of, file_name, parent_of, parent_path, str_eq};
use crate::wire::{has_dir_bit, is_dir_mode, Fault, FileAttr, SftpError};
use vstd::prelude::*;

verus! {

/// The number that stands for the handle which the last CREATE made.
pub const SAME_HANDLE: u64 = 0xFFFF_FFFF_FFFF_FFFF;

/// How many messages lie between two evictions.
pub const EVICT_EVERY: u64 = 256;

/// One client's session.
pub struct SmbSession {
    pub root_path: String,
    pub share_name: String,
    pub session_id: u64,
    pub tree_id: u32,
    pub next_tree_id: u32,
    pub ipc_tree_id: Option<u32>,
    pub handles: HandleTable,
    pub next_handle: u64,
    pub cache: AttrCache,
    pub dir_cache: DirCache,
    pub auth_phase: u8,
    /// The handle that the last CREATE made. Requests that belong to the same
    /// compound name it by [`SAME_HANDLE`].
    pub last_create_handle: u64,
    pub msg_count: u64,
    pub clock: Clock,
}

/// An [`SmbSession`] in terms of sequences and maps.
#[verifier::ext_equal]
pub struct SessionModel {
    pub root: Seq<char>,
    pub share: Seq<char>,
    pub session_id: u64,
    pub tree_id: u32,
    pub next_tree_id: u32,
    pub ipc_tree_id: Option<u32>,
    pub handles: Map<u64, HandleModel>,
    pub next_handle: u64,
    pub attrs: AttrModel,
    pub dirs: Map<Seq<char>, DirModel>,
    pub auth_phase: u8,
    pub last_create_handle: u64,
    pub msg_count: u64,
    pub clock: Clock,
    /// The clock that the attributes are remembered by.
    pub attrs_clock: Clock,
    /// The clock that the listings are remembered by.
    pub dirs_clock: Clock,
}

impl View for SmbSession {
    type V = SessionModel;

    open spec fn view(&self) -> SessionModel {
        SessionModel {
            root: self.root_path@,
            share: self.share_name@,
            session_id: self.session_id,
            tree_id: self.tree_id,
            next_tree_id: self.next_tree_id,
            ipc_tree_id: self.ipc_tree_id,
            handles: self.handles@,
            next_handle: self.next_handle,
            attrs: self.cache@,
            dirs: self.dir_cache@,
            auth_phase: self.auth_phase,
            last_create_handle: self.last_create_handle,
            msg_count: self.msg_count,
            clock: self.clock,
            attrs_clock: self.cache.clock,
            dirs_clock: self.dir_cache.clock,
        }
    }
}

/// The session can take another message: none of its counters is used up.
pub open spec fn can_go_on(m: SessionModel) -> bool {
    m.next_handle < u64::MAX && m.next_tree_id < u32::MAX && m.msg_count < u64::MAX
}

/// A new session, which remembers what it learns by its own clock.
pub open spec fn new_session(root: Seq<char>, share: Seq<char>, clock: Clock) -> SessionModel {
    SessionModel {
        root,
        share,
        session_id: 0x0000_0001_0000_0001,
        tree_id: 1,
        next_tree_id: 2,
        ipc_tree_id: None,
        handles: Map::empty(),
        next_handle: 1,
        attrs: no_attrs(),
        dirs: Map::empty(),
        auth_phase: 0,
        last_create_handle: 0,
        msg_count: 0,
        clock,
        attrs_clock: clock,
        dirs_clock: clock,
    }
}

// ── Paths ───────────────────────────────────────────────────────────

/// The names of the share's root.
pub open spec fn names_root(rel: Seq<char>) -> bool {
    rel.len() == 0 || rel == "\\"@ || rel == "/"@
}

/// A name with slashes for backslashes.
pub open spec fn slashed(s: Seq<char>) -> Seq<char> {
    Seq::new(
        s.len(),
        |i: int|
            if s[i] == '\\' {
                '/'
            } else {
                s[i]
            },
    )
}

/// A name without the slashes that it starts with.
pub open spec fn trimmed(s: Seq<char>) -> Seq<char>
    decreases s.len(),
{
    if s.len() > 0 && s[0] == '/' {
        trimmed(s.skip(1))
    } else {
        s
    }
}

/// Where a name of the share lies on the remote side.
pub open spec fn remote_path(root: Seq<char>, rel: Seq<char>) -> Seq<char> {
    if names_root(rel) {
        root
    } else {
        root + "/"@ + trimmed(slashed(rel))
    }
}

proof fn lemma_trimmed(s: Seq<char>)
    ensures
        trimmed(s).len() <= s.len(),
        trimmed(s) == s.skip(s.len() - trimmed(s).len()),
        trimmed(s).len() > 0 ==> trimmed(s)[0] != '/',
    decreases s.len(),
{
    if s.len() > 0 && s[0] == '/' {
        lemma_trimmed(s.skip(1));
        let t = trimmed(s);
        assert(s.skip(1).skip(s.len() - 1 - t.len()) =~= s.skip(s.len() - t.len()));
    } else {
        assert(s.skip(0) =~= s);
    }
}

/// Every name of the share leads to the root or below it, and what follows the
/// root holds no backslash and no second slash at its start.
pub proof fn law_paths_lie_under_the_root(root: Seq<char>, rel: Seq<char>)
    ensures
        remote_path(root, rel).take(root.len() as int) == root,
        remote_path(root, rel) != root ==> ({
            let tail = remote_path(root, rel).skip(root.len() as int);
            &&& tail[0] == '/'
            &&& tail.len() > 1 ==> tail[1] != '/'
            &&& !tail.contains('\\')
        }),
{
    let p = remote_path(root, rel);
    assert(p.take(root.len() as int) =~= root);
    if !names_root(rel) {
        reveal_strlit("/");
        let t = trimmed(slashed(rel));
        lemma_trimmed(slashed(rel));
        let tail = p.skip(root.len() as int);
        assert(tail =~= "/"@ + t);
        assert forall|i: int| 0 <= i < tail.len() implies tail[i] != '\\' by {
            if i > 0 {
                assert(tail[i] == t[i - 1]);
                assert(t[i - 1] == slashed(rel)[slashed(rel).len() - t.len() + (i - 1)]);
            }
        }
    }
}

// ── Steps on the model ──────────────────────────────────────────────

/// The handle that a request names.
pub open spec fn resolved(m: SessionModel, fid: u64) -> u64 {
    if fid == SAME_HANDLE {
        m.last_create_handle
    } else {
        fid
    }
}

/// The session once it has forgotten what it knew of a path and of the listing
/// that the path stands in.
pub open spec fn forgotten(m: SessionModel, path: Seq<char>) -> SessionModel {
    SessionModel {
        attrs: without_path(m.attrs, path),
        dirs: match parent_of(path) {
            Some(p) => m.dirs.remove(p),
            None => m.dirs,
        },
        ..m
    }
}

/// The session once the remote side was reached anew: nothing that was known
/// of it is believed any more, and no remote handle is used again.
pub open spec fn reconnected(m: SessionModel) -> SessionModel {
    SessionModel {
        handles: all_cut_off(m.handles),
        attrs: no_attrs(),
        dirs: Map::empty(),
        attrs_clock: m.clock,
        dirs_clock: m.clock,
        ..m
    }
}

/// The session with another handle, which the next request can name.
pub open spec fn with_handle(m: SessionModel, h: HandleModel) -> SessionModel {
    SessionModel {
        handles: m.handles.insert(m.next_handle, h),
        last_create_handle: m.next_handle,
        next_handle: (m.next_handle + 1) as u64,
        ..m
    }
}

/// The session once it has counted a message.
pub open spec fn counted(m: SessionModel, now: u128) -> SessionModel {
    let count = (m.msg_count + 1) as u64;
    if count % EVICT_EVERY == 0 {
        SessionModel {
            msg_count: count,
            attrs: live_attrs(m.attrs, now),
            dirs: live_dirs(m.dirs, now),
            ..m
        }
    } else {
        SessionModel { msg_count: count, ..m }
    }
}

/// What is known of a path without asking.
#[derive(Debug, Clone, Copy)]
pub enum Lookup {
    /// Its attributes, and whether it is a directory.
    Known(FileAttr, bool),
    /// It does not exist.
    Absent,
    /// Nothing.
    Unknown,
}

/// Where the file would lie that keeps Spotlight away. It is there for the
/// client whether or not the remote side has one.
pub open spec fn inhibitor_path(root: Seq<char>) -> Seq<char> {
    remote_path(root, ".metadata_never_index"@)
}

/// What is known of a path without asking. The files of macOS never exist, but
/// for the one that keeps Spotlight away, which always does and is empty.
pub open spec fn looked_up(m: SessionModel, path: Seq<char>, t: Moment) -> Lookup {
    if path == inhibitor_path(m.root) {
        Lookup::Known(inhibitor_attr(t.wall), false)
    } else {
        match attrs_known(m.attrs, path, t.now) {
            Some((attr, is_dir)) => Lookup::Known(attr, is_dir),
            None => if absence_known(m.attrs, path, t.now) || apple_metadata(base_name(path)) {
                Lookup::Absent
            } else {
                Lookup::Unknown
            },
        }
    }
}

/// The session once it has looked a path up: that a file of macOS does not
/// exist is noted.
pub open spec fn noted(m: SessionModel, path: Seq<char>, now: u128) -> SessionModel {
    if path != inhibitor_path(m.root) && attrs_known(m.attrs, path, now) is None && !absence_known(
        m.attrs,
        path,
        now,
    ) && apple_metadata(base_name(path)) {
        SessionModel { attrs: with_absence(m.attrs, path, now), ..m }
    } else {
        m
    }
}

/// What the remote side said of a path.
pub open spec fn told(reply: ReplyView) -> Result<(FileAttr, bool), u32> {
    match reply {
        ReplyView::Attrs(Ok(attr)) => Ok((attr, is_dir_mode(attr.perm))),
        ReplyView::Attrs(Err(Fault::Status(code, _))) => if code == SSH_FX_NO_SUCH_FILE {
            Err(STATUS_OBJECT_NAME_NOT_FOUND)
        } else {
            Err(STATUS_ACCESS_DENIED)
        },
        _ => Err(STATUS_ACCESS_DENIED),
    }
}

/// The session once it has learnt what the remote side said of a path.
pub open spec fn learnt(
    m: SessionModel,
    path: Seq<char>,
    reply: ReplyView,
    now: u128,
) -> SessionModel {
    match told(reply) {
        Ok((attr, is_dir)) => SessionModel {
            attrs: with_attrs(m.attrs, path, attr, is_dir, now),
            ..m
        },
        Err(status) => if status == STATUS_OBJECT_NAME_NOT_FOUND {
            SessionModel { attrs: with_absence(m.attrs, path, now), ..m }
        } else {
            m
        },
    }
}

impl SmbSession {
    /// A session on a share that shows the remote directory `root_path`.
    pub fn new(root_path: String, share_name: String) -> (s: Self)
        ensures
            s@ == new_session(root_path@, share_name@, s.clock),
    {
        let clock = Clock::start();
        SmbSession {
            root_path,
            share_name,
            session_id: 0x0000_0001_0000_0001,
            tree_id: 1,
            next_tree_id: 2,
            ipc_tree_id: None,
            handles: HandleTable::new(),
            next_handle: 1,
            cache: AttrCache::with_clock(clock),
            dir_cache: DirCache::with_clock(clock),
            auth_phase: 0,
            last_create_handle: 0,
            msg_count: 0,
            clock,
        }
    }

    /// The present, as this session measures it.
    pub fn present(&self) -> (t: Moment)
        ensures
            t.now < CLOCK_END,
    {
        Moment { now: self.clock.now(), wall: wall_seconds() }
    }

    /// The handle that a request names.
    pub fn resolve_fid(&self, fid: u64) -> (r: u64)
        ensures
            r == resolved(self@, fid),
    {
        if fid == SAME_HANDLE {
            self.last_create_handle
        } else {
            fid
        }
    }

    /// Forgets what is known of a path, and the listing that it stands in.
    pub fn invalidate_path(&mut self, path: &str)
        ensures
            final(self)@ == forgotten(old(self)@, path@),
    {
        self.cache.invalidate(path);
        if let Some(parent) = parent_path(path) {
            self.dir_cache.invalidate(&parent);
        }
    }

    /// Gives up what is known of the remote side, and every remote handle.
    pub fn on_reconnect(&mut self)
        ensures
            final(self)@ == reconnected(old(self)@),
    {
        self.handles.cut_off_all();
        self.cache = AttrCache::with_clock(self.clock);
        self.dir_cache = DirCache::with_clock(self.clock);
    }

    /// Where a name of the share lies on the remote side.
    pub fn full_path(&self, rel: &str) -> (r: String)
        ensures
            r@ == remote_path(self@.root, rel@),
    {
        let chars = chars_of(rel);
        let mut r = self.root_path.clone();
        if chars.len() == 0 || str_eq(rel, "\\") || str_eq(rel, "/") {
            return r;
        }
        r.append("/");
        let ghost all = slashed(rel@);
        let mut i: usize = 0;
        assert(all.skip(0) =~= all);
        while i < chars.len() && (chars[i] == '\\' || chars[i] == '/')
            invariant
                i <= chars@.len(),
                chars@ == rel@,
                all == slashed(rel@),
                trimmed(all.skip(i as int)) == trimmed(all),
            decreases chars@.len() - i,
        {
            assert(all.skip(i as int).skip(1) =~= all.skip(i + 1));
            i += 1;
        }
        assert(trimmed(all) == all.skip(i as int));
        let ghost base = r@;
        let ghost from = i as int;
        assert(all.subrange(from, from) =~= Seq::empty());
        while i < chars.len()
            invariant
                0 <= from <= i <= chars@.len(),
                chars@ == rel@,
                all == slashed(rel@),
                r@ == base + all.subrange(from, i as int),
            decreases chars@.len() - i,
        {
            let c = if chars[i] == '\\' {
                '/'
            } else {
                chars[i]
            };
            r.push(c);
            i += 1;
            assert(r@ =~= base + all.subrange(from, i as int));
        }
        assert(all.subrange(from, i as int) =~= all.skip(from));
        r
    }

    /// Gives out the next handle number.
    pub fn alloc_handle(&mut self) -> (id: u64)
        requires
            old(self).next_handle < u64::MAX,
        ensures
            id == old(self)@.next_handle,
            final(self)@ == (SessionModel {
                next_handle: (old(self)@.next_handle + 1) as u64,
                ..old(self)@
            }),
    {
        let id = self.next_handle;
        self.next_handle = id + 1;
        id
    }

    /// Says whether a path is that of the file that keeps Spotlight away.
    pub fn is_inhibitor_path(&self, path: &str) -> (r: bool)
        ensures
            r == (path@ == inhibitor_path(self@.root)),
    {
        str_eq(path, &self.full_path(".metadata_never_index"))
    }

    /// Looks a path up without asking the remote side.
    pub fn look_up(&mut self, path: &str, t: Moment) -> (r: Lookup)
        requires
            t.now < CLOCK_END,
        ensures
            r == looked_up(old(self)@, path@, t),
            final(self)@ == noted(old(self)@, path@, t.now),
    {
        if self.is_inhibitor_path(path) {
            return Lookup::Known(fake_attr(t.wall), false);
        }
        if let Some((attr, is_dir)) = self.cache.get_at(path, t.now) {
            return Lookup::Known(*attr, is_dir);
        }
        if self.cache.is_negative_at(path, t.now) {
            return Lookup::Absent;
        }
        let name = file_name(path);
        if is_apple_metadata(&name) {
            self.cache.insert_negative_at(String::from_str(path), t.now);
            return Lookup::Absent;
        }
        Lookup::Unknown
    }

    /// Learns what the remote side said of a path.
    pub fn learn(&mut self, path: &str, reply: &SftpReply, now: u128) -> (r: Result<
        (FileAttr, bool),
        u32,
    >)
        requires
            now < CLOCK_END,
        ensures
            r == told(reply@),
            final(self)@ == learnt(old(self)@, path@, reply@, now),
    {
        match reply {
            SftpReply::Attrs(Ok(attr)) => {
                let is_dir = has_dir_bit(attr.perm);
                self.cache.insert_at(String::from_str(path), *attr, is_dir, now);
                Ok((*attr, is_dir))
            },
            SftpReply::Attrs(Err(SftpError::Status(code, _))) => {
                if *code == SSH_FX_NO_SUCH_FILE {
                    self.cache.insert_negative_at(String::from_str(path), now);
                    Err(STATUS_OBJECT_NAME_NOT_FOUND)
                } else {
                    Err(STATUS_ACCESS_DENIED)
                }
            },
            _ => Err(STATUS_ACCESS_DENIED),
        }
    }

    /// Counts a message, and evicts from the caches from time to time.
    pub(crate) fn count_message(&mut self, now: u128)
        requires
            old(self).msg_count < u64::MAX,
        ensures
            final(self)@ == counted(old(self)@, now),
    {
        self.msg_count = self.msg_count + 1;
        if self.msg_count % EVICT_EVERY == 0 {
            self.cache.evict_expired_at(now);
            self.dir_cache.evict_expired_at(now);
        }
    }
}

/// A name of the share that starts with no slash leads to the same name below the
/// root, character by character, but that a backslash parts it as a slash does.
pub proof fn law_names_keep_their_characters(root: Seq<char>, rel: Seq<char>)
    requires
        rel.len() > 0,
        rel[0] != '/' && rel[0] != '\\',
    ensures
        ({
            let p = remote_path(root, rel);
            &&& p.len() == root.len() + 1 + rel.len()
            &&& p.take(root.len() as int) == root
            &&& p[root.len() as int] == '/'
            &&& forall|i: int|
                0 <= i < rel.len() ==> p[root.len() + 1 + i] == (if rel[i] == '\\' {
                    '/'
                } else {
                    rel[i]
                })
        }),
{
    reveal_strlit("/");
    reveal_strlit("\\");
    assert(!names_root(rel)) by {
        assert("/"@[0] == '/');
        assert("\\"@[0] == '\\');
    }
    let s = slashed(rel);
    assert(s[0] == rel[0]);
    assert(trimmed(s) == s);
    let p = remote_path(root, rel);
    assert(p.take(root.len() as int) =~= root);
    assert forall|i: int| 0 <= i < rel.len() implies p[root.len() + 1 + i] == (if rel[i]
        == '\\' {
        '/'
    } else {
        rel[i]
    }) by {
        assert(p[root.len() + 1 + i] == s[i]);
    }
}

/// Slashes in front of a name change nothing, and without a name there is the
/// root.
pub proof fn law_leading_slashes_are_dropped(root: Seq<char>, rel: Seq<char>, c: char)
    requires
        c == '/' || c == '\\',
        rel.len() > 0,
        rel[0] != '/' && rel[0] != '\\',
    ensures
        remote_path(root, seq![c] + rel) == remote_path(root, rel),
        remote_path(root, seq![c]) == root,
        remote_path(root, Seq::empty()) == root,
{
    reveal_strlit("/");
    reveal_strlit("\\");
    let long = seq![c] + rel;
    assert("/"@.len() == 1 && "\\"@.len() == 1);
    assert("/"@[0] == '/');
    assert("\\"@[0] == '\\');
    assert(!names_root(rel));
    assert(!names_root(long));
    let s = slashed(long);
    assert(s.skip(1) =~= slashed(rel));
    assert(s[0] == '/');
    assert(slashed(rel)[0] == rel[0]);
    assert(trimmed(s) == trimmed(slashed(rel)));
    if c == '/' {
        assert(seq![c] =~= "/"@);
    } else {
        assert(seq![c] =~= "\\"@);
    }
}

} // verus!

//! Open files, directories and pipes.

use crate::bytes::copy_range;
use crate::wire::{entries_view, DirEntry, EntryView};
use std::collections::HashMap;
use std::sync::Arc;
use vstd::prelude::*;
use vstd::std_specs::iter::IteratorSpec;

verus! {

broadcast use vstd::std_specs::hash::group_hash_axioms;

// ── Read-ahead ──────────────────────────────────────────────────────

/// What the last read of a file brought. Small reads that follow are served
/// from it.
pub struct ReadAhead {
    pub data: Vec<u8>,
    /// Where in the file the data starts.
    pub offset: u64,
}

/// A [`ReadAhead`] in terms of sequences.
pub struct AheadModel {
    pub data: Seq<u8>,
    pub offset: u64,
}

impl View for ReadAhead {
    type V = AheadModel;

    open spec fn view(&self) -> AheadModel {
        AheadModel { data: self.data@, offset: self.offset }
    }
}

/// The bytes of a file from `offset` on, where all of them are at hand.
pub open spec fn ahead_part(ra: AheadModel, offset: u64, length: nat) -> Option<Seq<u8>> {
    if offset >= ra.offset && offset + length <= ra.offset + ra.data.len() {
        Some(ra.data.subrange(offset - ra.offset, offset - ra.offset + length))
    } else {
        None
    }
}

/// A read that is served from what is at hand gives the bytes that the file
/// holds there.
pub proof fn law_ahead_gives_the_files_bytes(
    file: Seq<u8>,
    ra: AheadModel,
    offset: u64,
    length: nat,
)
    requires
        ra.offset + ra.data.len() <= file.len(),
        ra.data == file.subrange(ra.offset as int, ra.offset + ra.data.len()),
    ensures
        ahead_part(ra, offset, length) matches Some(b) ==> b == file.subrange(
            offset as int,
            offset + length,
        ),
{
    if let Some(b) = ahead_part(ra, offset, length) {
        assert(b =~= file.subrange(offset as int, offset + length));
    }
}

impl ReadAhead {
    /// The bytes of the file from `offset` on, where all of them are at hand.
    pub fn part(&self, offset: u64, length: u32) -> (r: Option<Vec<u8>>)
        ensures
            match r {
                Some(b) => ahead_part(self@, offset, length as nat) == Some(b@),
                None => ahead_part(self@, offset, length as nat) is None,
            },
    {
        if offset < self.offset {
            return None;
        }
        let start = offset - self.offset;
        let end = start as u128 + length as u128;
        if end > self.data.len() as u128 {
            return None;
        }
        Some(copy_range(&self.data, start as usize, end as usize))
    }
}

// ── Handles ─────────────────────────────────────────────────────────

/// An open file, directory or pipe.
pub struct OpenHandle {
    /// The remote handle, once a read or a write has needed one.
    pub sftp_handle: Option<Vec<u8>>,
    pub path: String,
    pub is_dir: bool,
    pub is_pipe: bool,
    /// The answer that waits to be read from a pipe.
    pub pipe_response: Option<Vec<u8>>,
    /// The listing of a directory, once it was asked for.
    pub dir_entries: Option<Arc<Vec<DirEntry>>>,
    /// How many entries of it were handed out.
    pub dir_offset: usize,
    pub readahead: Option<ReadAhead>,
}

/// An [`OpenHandle`] in terms of sequences.
#[verifier::ext_equal]
pub struct HandleModel {
    pub remote: Option<Seq<u8>>,
    pub path: Seq<char>,
    pub is_dir: bool,
    pub is_pipe: bool,
    pub answer: Option<Seq<u8>>,
    pub entries: Option<Seq<EntryView>>,
    pub dir_offset: usize,
    pub ahead: Option<AheadModel>,
}

/// Bytes that may be missing.
pub open spec fn bytes_view(b: Option<Vec<u8>>) -> Option<Seq<u8>> {
    match b {
        Some(v) => Some(v@),
        None => None,
    }
}

/// A listing that may be missing.
pub open spec fn listing_view(l: Option<Arc<Vec<DirEntry>>>) -> Option<Seq<EntryView>> {
    match l {
        Some(v) => Some(entries_view(v@)),
        None => None,
    }
}

/// A read-ahead that may be missing.
pub open spec fn ahead_view(r: Option<ReadAhead>) -> Option<AheadModel> {
    match r {
        Some(v) => Some(v@),
        None => None,
    }
}

impl View for OpenHandle {
    type V = HandleModel;

    open spec fn view(&self) -> HandleModel {
        HandleModel {
            remote: bytes_view(self.sftp_handle),
            path: self.path@,
            is_dir: self.is_dir,
            is_pipe: self.is_pipe,
            answer: bytes_view(self.pipe_response),
            entries: listing_view(self.dir_entries),
            dir_offset: self.dir_offset,
            ahead: ahead_view(self.readahead),
        }
    }
}

/// A file, directory or pipe as it is right after it was opened.
pub open spec fn fresh_handle(path: Seq<char>, is_dir: bool, is_pipe: bool) -> HandleModel {
    HandleModel {
        remote: None,
        path,
        is_dir,
        is_pipe,
        answer: None,
        entries: None,
        dir_offset: 0,
        ahead: None,
    }
}

impl OpenHandle {
    /// A file, directory or pipe that has just been opened.
    pub fn fresh(path: String, is_dir: bool, is_pipe: bool) -> (h: Self)
        ensures
            h@ == fresh_handle(path@, is_dir, is_pipe),
    {
        OpenHandle {
            sftp_handle: None,
            path,
            is_dir,
            is_pipe,
            pipe_response: None,
            dir_entries: None,
            dir_offset: 0,
            readahead: None,
        }
    }
}

/// Handles by their number.
pub struct HandleTable {
    pub map: HashMap<u64, OpenHandle>,
}

/// Handles by their number, each in terms of sequences.
pub open spec fn table_view(m: Map<u64, OpenHandle>) -> Map<u64, HandleModel> {
    m.map_values(|h: OpenHandle| h@)
}

impl View for HandleTable {
    type V = Map<u64, HandleModel>;

    open spec fn view(&self) -> Map<u64, HandleModel> {
        table_view(self.map@)
    }
}

/// A handle whose remote side is gone.
pub open spec fn cut_off(h: HandleModel) -> HandleModel {
    HandleModel { remote: None, ahead: None, ..h }
}

/// Handles whose remote side is gone.
pub open spec fn all_cut_off(m: Map<u64, HandleModel>) -> Map<u64, HandleModel> {
    m.map_values(|h: HandleModel| cut_off(h))
}

impl HandleTable {
    /// No handles.
    pub fn new() -> (t: Self)
        ensures
            t@ == Map::<u64, HandleModel>::empty(),
    {
        let t = HandleTable { map: HashMap::new() };
        assert(t@ =~= Map::<u64, HandleModel>::empty());
        t
    }

    /// The handle with a number.
    pub fn get(&self, id: u64) -> (r: Option<&OpenHandle>)
        ensures
            match r {
                Some(h) => self@.contains_key(id) && h@ == self@[id],
                None => !self@.contains_key(id),
            },
    {
        self.map.get(&id)
    }

    /// Sets the handle with a number.
    pub fn insert(&mut self, id: u64, handle: OpenHandle)
        ensures
            final(self)@ == old(self)@.insert(id, handle@),
    {
        let ghost h = handle@;
        self.map.insert(id, handle);
        assert(self@ =~= old(self)@.insert(id, h));
    }

    /// Takes the handle with a number out of the table.
    pub fn remove(&mut self, id: u64) -> (r: Option<OpenHandle>)
        ensures
            final(self)@ == old(self)@.remove(id),
            match r {
                Some(h) => old(self)@.contains_key(id) && h@ == old(self)@[id],
                None => !old(self)@.contains_key(id),
            },
    {
        let r = self.map.remove(&id);
        assert(self@ =~= old(self)@.remove(id));
        r
    }

    fn ids(&self) -> (r: Vec<u64>)
        ensures
            forall|id: u64| self@.contains_key(id) ==> r@.contains(id),
            forall|i: int| 0 <= i < r@.len() ==> self@.contains_key(#[trigger] r@[i]),
    {
        let mut out: Vec<u64> = Vec::new();
        let ghost all = vstd::std_specs::hash::spec_keys_iter(&self.map).remaining().unref();
        for id in it: self.map.keys()
            invariant
                all == vstd::std_specs::hash::spec_keys_iter(&self.map).remaining().unref(),
                it.seq().unref() == all,
                out@ == all.take(it.index() as int),
        {
            out.push(*id);
            assert(out@ =~= all.take(it.index() as int + 1));
        }
        assert(out@ =~= all);
        assert forall|id: u64| self@.contains_key(id) implies out@.contains(id) by {
            assert(self.map@.dom().contains(id));
            assert(all.to_set().contains(id));
        }
        assert forall|i: int| 0 <= i < out@.len() implies self@.contains_key(#[trigger] out@[i]) by {
            assert(all.to_set().contains(all[i]));
        }
        out
    }

    /// Notes that the remote side of every handle is gone.
    pub fn cut_off_all(&mut self)
        ensures
            final(self)@ == all_cut_off(old(self)@),
    {
        let ids = self.ids();
        let ghost before = self@;
        let mut i: usize = 0;
        while i < ids.len()
            invariant
                i <= ids@.len(),
                self@.dom() == before.dom(),
                forall|k: int| 0 <= k < ids@.len() ==> before.contains_key(#[trigger] ids@[k]),
                forall|id: u64| #[trigger]
                    before.contains_key(id) ==> self@[id] == before[id] || self@[id] == cut_off(
                        before[id],
                    ),
                forall|k: int| 0 <= k < i ==> self@[#[trigger] ids@[k]] == cut_off(before[ids@[k]]),
            decreases ids@.len() - i,
        {
            let id = ids[i];
            let ghost now = self@;
            if let Some(h) = self.remove(id) {
                let cut = OpenHandle { sftp_handle: None, readahead: None, ..h };
                self.insert(id, cut);
            }
            assert(self@.dom() =~= before.dom());
            assert(self@[id] == cut_off(before[id]));
            i += 1;
        }
        assert(self@ =~= all_cut_off(before)) by {
            assert forall|id: u64| before.contains_key(id) implies self@[id] == cut_off(
                before[id],
            ) by {
                assert(ids@.contains(id));
                let k = choose|k: int| 0 <= k < ids@.len() && ids@[k] == id;
                assert(self@[ids@[k]] == cut_off(before[ids@[k]]));
            }
        }
    }
}

/// A lost connection takes from every handle what belongs to it, and nothing else:
/// the handle of the server and what was read ahead.
pub proof fn law_lost_connections_keep_the_handles(m: Map<u64, HandleModel>, id: u64)
    ensures
        all_cut_off(m).contains_key(id) == m.contains_key(id),
        m.contains_key(id) ==> ({
            let h = all_cut_off(m)[id];
            &&& h.remote is None
            &&& h.ahead is None
            &&& h.path == m[id].path
            &&& h.is_dir == m[id].is_dir
            &&& h.is_pipe == m[id].is_pipe
            &&& h.answer == m[id].answer
            &&& h.entries == m[id].entries
            &&& h.dir_offset == m[id].dir_offset
        }),
{
}

} // verus!

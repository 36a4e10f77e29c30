//! What the server remembers of the remote side, and for how long.

use crate::clock::{Clock, CLOCK_END, NANOS_PER_SEC};
use crate::server::pattern::{apple_metadata, is_apple_metadata};
use crate::text::{base_name, file_name};
use crate::wire::{entries_view, has_dir_bit, is_dir_mode, DirEntry, EntryView, FileAttr};
use std::sync::Arc;
use vstd::hash_map::StringHashMap;
use vstd::prelude::*;

verus! {

/// How long attributes are remembered.
pub const CACHE_TTL_SECS: u64 = 60;

/// How long it is remembered that a file of macOS does not exist.
pub const NEG_CACHE_TTL_SECS: u64 = 120;

/// How long a directory listing is remembered.
pub const DIR_CACHE_TTL_SECS: u64 = 60;

/// The end of a span of seconds that begins at `now`.
pub open spec fn expiry(now: u128, secs: u64) -> u128 {
    (now + secs * NANOS_PER_SEC) as u128
}

fn expiry_after(now: u128, secs: u64) -> (t: u128)
    requires
        now < CLOCK_END,
        secs <= NEG_CACHE_TTL_SECS,
    ensures
        t == expiry(now, secs),
        t == now + secs * NANOS_PER_SEC,
{
    now + secs as u128 * NANOS_PER_SEC
}

// ── Entries that lapse ──────────────────────────────────────────────

/// A value that holds until some time.
pub trait Expiring {
    /// The first moment at which the value no longer holds.
    spec fn end(&self) -> u128;

    /// The first moment at which the value no longer holds.
    fn expires_at(&self) -> (t: u128)
        ensures
            t == self.end(),
    ;
}

impl Expiring for u128 {
    open spec fn end(&self) -> u128 {
        *self
    }

    fn expires_at(&self) -> (t: u128) {
        *self
    }
}

struct Slot<V> {
    path: String,
    value: V,
}

/// Values by path. There is one slot for each, and no other.
#[verifier::reject_recursive_types(V)]
pub struct PathMap<V> {
    // Where the slot of each path stands.
    index: StringHashMap<usize>,
    slots: Vec<Slot<V>>,
}

spec fn indexed<V>(index: Map<Seq<char>, usize>, slots: Seq<Slot<V>>) -> bool {
    &&& forall|i: int|
        0 <= i < slots.len() ==> index.contains_key(#[trigger] slots[i].path@)
            && index[slots[i].path@] == i
    &&& forall|k: Seq<char>| #[trigger]
        index.contains_key(k) ==> index[k] < slots.len() && slots[index[k] as int].path@ == k
}

spec fn contents<V>(index: Map<Seq<char>, usize>, slots: Seq<Slot<V>>) -> Map<Seq<char>, V> {
    index.map_values(|i: usize| slots[i as int].value)
}

impl<V> View for PathMap<V> {
    type V = Map<Seq<char>, V>;

    closed spec fn view(&self) -> Map<Seq<char>, V> {
        contents(self.index@, self.slots@)
    }
}

/// The entries that still hold at `now`.
pub open spec fn live_part<V: Expiring>(m: Map<Seq<char>, V>, now: u128) -> Map<Seq<char>, V> {
    m.restrict(m.dom().filter(|k: Seq<char>| m[k].end() > now))
}

proof fn lemma_one_slot_each<V>(index: Map<Seq<char>, usize>, slots: Seq<Slot<V>>)
    requires
        indexed(index, slots),
    ensures
        slots.len() == contents(index, slots).len(),
{
    let paths = slots.map_values(|s: Slot<V>| s.path@);
    assert forall|i: int, j: int| 0 <= i < j < paths.len() implies paths[i] != paths[j] by {
        assert(index[slots[i].path@] == i);
        assert(index[slots[j].path@] == j);
    }
    assert(paths.no_duplicates());
    paths.unique_seq_to_set();
    assert(paths.to_set() =~= contents(index, slots).dom()) by {
        assert forall|k: Seq<char>| index.contains_key(k) implies paths.contains(k) by {
            assert(paths[index[k] as int] == k);
        }
        assert forall|k: Seq<char>| paths.contains(k) implies index.contains_key(k) by {
            let i = choose|i: int| 0 <= i < paths.len() && paths[i] == k;
            assert(slots[i].path@ == k);
        }
    }
}

// Takes a slot away. The last one moves to its place.
fn take_out<V>(index: &mut StringHashMap<usize>, slots: &mut Vec<Slot<V>>, i: usize)
    requires
        i < old(slots)@.len(),
        indexed(old(index)@, old(slots)@),
    ensures
        indexed(final(index)@, final(slots)@),
        contents(final(index)@, final(slots)@) == contents(old(index)@, old(slots)@).remove(
            old(slots)@[i as int].path@,
        ),
        final(slots)@.len() == old(slots)@.len() - 1,
        forall|j: int| 0 <= j < i ==> #[trigger] final(slots)@[j] == old(slots)@[j],
{
    let ghost old_index = index@;
    let ghost old_slots = slots@;
    let gone = slots.swap_remove(i);
    index.remove(&gone.path);
    if i < slots.len() {
        assert(slots@[i as int] == old_slots.last());
        assert(old_index[old_slots.last().path@] == old_slots.len() - 1);
        index.insert(slots[i].path.clone(), i);
    }
    proof {
        let last = old_slots.len() - 1;
        assert forall|j: int| 0 <= j < slots@.len() implies index@.contains_key(
            #[trigger] slots@[j].path@,
        ) && index@[slots@[j].path@] == j by {
            if j != i {
                assert(slots@[j] == old_slots[j]);
                assert(old_index[old_slots[j].path@] == j);
            }
        }
        assert forall|k: Seq<char>| #[trigger] index@.contains_key(k) implies index@[k]
            < slots@.len() && slots@[index@[k] as int].path@ == k by {
            assert(old_index.contains_key(k));
            if i == last || k != old_slots[last].path@ {
                assert(old_index[k] != i);
                assert(old_index[k] != last);
            }
        }
        assert(contents(index@, slots@) =~= contents(old_index, old_slots).remove(gone.path@));
    }
}

impl<V> PathMap<V> {
    #[verifier::type_invariant]
    spec fn well_formed(self) -> bool {
        indexed(self.index@, self.slots@)
    }

    /// No entries.
    pub fn new() -> (m: Self)
        ensures
            m@ == Map::<Seq<char>, V>::empty(),
    {
        let m = PathMap { index: StringHashMap::new(), slots: Vec::new() };
        assert(m@ =~= Map::<Seq<char>, V>::empty());
        m
    }

    /// The number of slots, which is that of the entries: what was forgotten
    /// takes no room.
    pub fn len(&self) -> (n: usize)
        ensures
            n == self@.len(),
    {
        proof {
            use_type_invariant(self);
            lemma_one_slot_each(self.index@, self.slots@);
        }
        self.slots.len()
    }

    /// The value of a path.
    pub fn get<'a>(&'a self, path: &str) -> (r: Option<&'a V>)
        ensures
            match r {
                Some(v) => self@.contains_key(path@) && *v == self@[path@],
                None => !self@.contains_key(path@),
            },
    {
        proof {
            use_type_invariant(self);
        }
        match self.index.get(path) {
            Some(i) => Some(&self.slots[*i].value),
            None => None,
        }
    }

    /// Sets the value of a path.
    pub fn insert(&mut self, path: String, value: V)
        ensures
            final(self)@ == old(self)@.insert(path@, value),
    {
        proof {
            use_type_invariant(&*self);
        }
        let mut own = PathMap::new();
        std::mem::swap(self, &mut own);
        let PathMap { mut index, mut slots } = own;
        let ghost old_index = index@;
        let ghost old_slots = slots@;
        let ghost key = path@;
        let place = match index.get(&path) {
            Some(i) => Some(*i),
            None => None,
        };
        match place {
            Some(i) => slots.set(i, Slot { path, value }),
            None => {
                index.insert(path.clone(), slots.len());
                slots.push(Slot { path, value });
            },
        }
        proof {
            assert forall|j: int| 0 <= j < slots@.len() implies index@.contains_key(
                #[trigger] slots@[j].path@,
            ) && index@[slots@[j].path@] == j by {
                if j < old_slots.len() {
                    assert(old_index[old_slots[j].path@] == j);
                }
            }
            assert(contents(index@, slots@) =~= contents(old_index, old_slots).insert(key, value));
        }
        *self = PathMap { index, slots };
    }

    /// Forgets a path.
    pub fn remove(&mut self, path: &str)
        ensures
            final(self)@ == old(self)@.remove(path@),
    {
        proof {
            use_type_invariant(&*self);
        }
        let mut own = PathMap::new();
        std::mem::swap(self, &mut own);
        let PathMap { mut index, mut slots } = own;
        let place = match index.get(path) {
            Some(i) => Some(*i),
            None => None,
        };
        if let Some(i) = place {
            take_out(&mut index, &mut slots, i);
        } else {
            assert(contents(index@, slots@) =~= contents(index@, slots@).remove(path@));
        }
        *self = PathMap { index, slots };
    }
}

impl<V: Expiring> PathMap<V> {
    /// Forgets what no longer holds.
    pub fn keep_live(&mut self, now: u128)
        ensures
            final(self)@ == live_part(old(self)@, now),
    {
        proof {
            use_type_invariant(&*self);
        }
        let ghost before = self@;
        let mut own = PathMap::new();
        std::mem::swap(self, &mut own);
        let PathMap { mut index, mut slots } = own;
        let mut i: usize = 0;
        while i < slots.len()
            invariant
                i <= slots@.len(),
                indexed(index@, slots@),
                forall|k: Seq<char>| #[trigger]
                    contents(index@, slots@).contains_key(k) ==> before.contains_key(k)
                        && contents(index@, slots@)[k] == before[k],
                forall|k: Seq<char>|
                    before.contains_key(k) && before[k].end() > now ==> #[trigger] contents(
                        index@,
                        slots@,
                    ).contains_key(k),
                forall|j: int| 0 <= j < i ==> (#[trigger] slots@[j]).value.end() > now,
            decreases slots@.len() - i,
        {
            assert(contents(index@, slots@).contains_key(slots@[i as int].path@));
            if slots[i].value.expires_at() > now {
                i += 1;
            } else {
                take_out(&mut index, &mut slots, i);
            }
        }
        proof {
            let all = contents(index@, slots@);
            assert forall|k: Seq<char>| #[trigger] all.contains_key(k) implies before[k].end()
                > now by {
                assert(slots@[index@[k] as int].value.end() > now);
            }
            assert(all =~= live_part(before, now));
        }
        *self = PathMap { index, slots };
    }
}

// ── Attributes ──────────────────────────────────────────────────────

/// The attributes of a path, and until when they are believed.
#[derive(Debug, Clone, Copy)]
pub struct CachedAttr {
    pub attr: FileAttr,
    pub is_dir: bool,
    pub expires: u128,
}

impl Expiring for CachedAttr {
    open spec fn end(&self) -> u128 {
        self.expires
    }

    fn expires_at(&self) -> (t: u128) {
        self.expires
    }
}

/// What is known of paths: the attributes of some, and that others do not
/// exist.
pub struct AttrModel {
    pub positive: Map<Seq<char>, CachedAttr>,
    pub negative: Map<Seq<char>, u128>,
}

/// Remembers the attributes of paths, and which paths do not exist.
pub struct AttrCache {
    pub positive: PathMap<CachedAttr>,
    pub negative: PathMap<u128>,
    pub clock: Clock,
}

impl View for AttrCache {
    type V = AttrModel;

    open spec fn view(&self) -> AttrModel {
        AttrModel { positive: self.positive@, negative: self.negative@ }
    }
}

/// Nothing known.
pub open spec fn no_attrs() -> AttrModel {
    AttrModel { positive: Map::empty(), negative: Map::empty() }
}

/// The attributes that are believed of a path at `now`, and whether it is a
/// directory.
pub open spec fn attrs_known(m: AttrModel, path: Seq<char>, now: u128) -> Option<
    (FileAttr, bool),
> {
    if m.positive.contains_key(path) && m.positive[path].expires > now {
        Some((m.positive[path].attr, m.positive[path].is_dir))
    } else {
        None
    }
}

/// Whether it is believed at `now` that a path does not exist.
pub open spec fn absence_known(m: AttrModel, path: Seq<char>, now: u128) -> bool {
    m.negative.contains_key(path) && m.negative[path] > now
}

/// The model once attributes were learnt at `now`.
pub open spec fn with_attrs(
    m: AttrModel,
    path: Seq<char>,
    attr: FileAttr,
    is_dir: bool,
    now: u128,
) -> AttrModel {
    AttrModel {
        positive: m.positive.insert(
            path,
            CachedAttr { attr, is_dir, expires: expiry(now, CACHE_TTL_SECS) },
        ),
        negative: m.negative.remove(path),
    }
}

/// How long it is remembered that a path does not exist: longest for the files
/// of macOS, which never do.
pub open spec fn absence_secs(path: Seq<char>) -> u64 {
    if apple_metadata(base_name(path)) {
        NEG_CACHE_TTL_SECS
    } else {
        CACHE_TTL_SECS / 2
    }
}

/// The model once it was learnt at `now` that a path does not exist.
pub open spec fn with_absence(m: AttrModel, path: Seq<char>, now: u128) -> AttrModel {
    AttrModel { negative: m.negative.insert(path, expiry(now, absence_secs(path))), ..m }
}

/// The model without a path.
pub open spec fn without_path(m: AttrModel, path: Seq<char>) -> AttrModel {
    AttrModel { positive: m.positive.remove(path), negative: m.negative.remove(path) }
}

/// The model without what no longer holds at `now`.
pub open spec fn live_attrs(m: AttrModel, now: u128) -> AttrModel {
    AttrModel { positive: live_part(m.positive, now), negative: live_part(m.negative, now) }
}

/// A name in a directory.
pub open spec fn child_path(parent: Seq<char>, name: Seq<char>) -> Seq<char> {
    parent + "/"@ + name
}

/// The model once the first `n` entries of a directory were learnt at `now`.
pub open spec fn with_entries(
    m: AttrModel,
    parent: Seq<char>,
    entries: Seq<EntryView>,
    n: nat,
    now: u128,
) -> AttrModel
    decreases n,
{
    if n == 0 {
        m
    } else {
        let e = entries[n - 1];
        with_attrs(
            with_entries(m, parent, entries, (n - 1) as nat, now),
            child_path(parent, e.name),
            e.attrs,
            is_dir_mode(e.attrs.perm),
            now,
        )
    }
}

impl AttrCache {
    /// A cache that knows nothing.
    pub fn new() -> (c: Self)
        ensures
            c@ == no_attrs(),
    {
        AttrCache::with_clock(Clock::start())
    }

    /// A cache that knows nothing and reads the given clock.
    pub fn with_clock(clock: Clock) -> (c: Self)
        ensures
            c@ == no_attrs(),
            c.clock == clock,
    {
        AttrCache { positive: PathMap::new(), negative: PathMap::new(), clock }
    }

    /// The attributes that are believed of a path at `now`.
    pub fn get_at(&self, path: &str, now: u128) -> (r: Option<(&FileAttr, bool)>)
        ensures
            match r {
                Some((a, d)) => attrs_known(self@, path@, now) == Some((*a, d)),
                None => attrs_known(self@, path@, now) is None,
            },
    {
        match self.positive.get(path) {
            Some(c) => if c.expires > now {
                Some((&c.attr, c.is_dir))
            } else {
                None
            },
            None => None,
        }
    }

    /// The attributes that are believed of a path.
    pub fn get(&self, path: &str) -> (r: Option<(&FileAttr, bool)>)
        ensures
            exists|now: u128|
                now < CLOCK_END && #[trigger] attrs_known(self@, path@, now) == (match r {
                    Some((a, d)) => Some((*a, d)),
                    None => None,
                }),
    {
        let now = self.clock.now();
        let r = self.get_at(path, now);
        assert(attrs_known(self@, path@, now) == (match r {
            Some((a, d)) => Some((*a, d)),
            None => None,
        }));
        r
    }

    /// Whether it is believed at `now` that a path does not exist.
    pub fn is_negative_at(&self, path: &str, now: u128) -> (r: bool)
        ensures
            r == absence_known(self@, path@, now),
    {
        match self.negative.get(path) {
            Some(t) => *t > now,
            None => false,
        }
    }

    /// Whether it is believed that a path does not exist.
    pub fn is_negative(&self, path: &str) -> (r: bool)
        ensures
            exists|now: u128| now < CLOCK_END && #[trigger] absence_known(self@, path@, now) == r,
    {
        let now = self.clock.now();
        self.is_negative_at(path, now)
    }

    /// Learns at `now` what the attributes of a path are.
    pub fn insert_at(&mut self, path: String, attr: FileAttr, is_dir: bool, now: u128)
        requires
            now < CLOCK_END,
        ensures
            final(self)@ == with_attrs(old(self)@, path@, attr, is_dir, now),
            final(self).clock == old(self).clock,
    {
        self.negative.remove(&path);
        let expires = expiry_after(now, CACHE_TTL_SECS);
        self.positive.insert(path, CachedAttr { attr, is_dir, expires });
    }

    /// Learns what the attributes of a path are.
    pub fn insert(&mut self, path: String, attr: FileAttr, is_dir: bool)
        ensures
            exists|now: u128| now < CLOCK_END && final(self)@ == #[trigger] with_attrs(
                old(self)@,
                path@,
                attr,
                is_dir,
                now,
            ),
            final(self).clock == old(self).clock,
    {
        let now = self.clock.now();
        self.insert_at(path, attr, is_dir, now);
    }

    /// Learns at `now` that a path does not exist.
    pub fn insert_negative_at(&mut self, path: String, now: u128)
        requires
            now < CLOCK_END,
        ensures
            final(self)@ == with_absence(old(self)@, path@, now),
            final(self).clock == old(self).clock,
    {
        let secs: u64 = if is_apple_metadata(&file_name(&path)) {
            NEG_CACHE_TTL_SECS
        } else {
            CACHE_TTL_SECS / 2
        };
        let end = expiry_after(now, secs);
        self.negative.insert(path, end);
    }

    /// Learns that a path does not exist.
    pub fn insert_negative(&mut self, path: String)
        ensures
            exists|now: u128| now < CLOCK_END && final(self)@ == #[trigger] with_absence(
                old(self)@,
                path@,
                now,
            ),
            final(self).clock == old(self).clock,
    {
        let now = self.clock.now();
        self.insert_negative_at(path, now);
    }

    /// Forgets what is known of a path.
    pub fn invalidate(&mut self, path: &str)
        ensures
            final(self)@ == without_path(old(self)@, path@),
            final(self).clock == old(self).clock,
    {
        self.positive.remove(path);
        self.negative.remove(path);
    }

    /// Forgets what no longer holds at `now`.
    pub fn evict_expired_at(&mut self, now: u128)
        ensures
            final(self)@ == live_attrs(old(self)@, now),
            final(self).clock == old(self).clock,
    {
        self.positive.keep_live(now);
        self.negative.keep_live(now);
    }

    /// Forgets what no longer holds.
    pub fn evict_expired(&mut self)
        ensures
            exists|now: u128|
                now < CLOCK_END && final(self)@ == #[trigger] live_attrs(old(self)@, now),
            final(self).clock == old(self).clock,
    {
        let now = self.clock.now();
        self.evict_expired_at(now);
    }

    /// Learns at `now` what a directory listing tells of its entries.
    pub fn insert_dir_entries_at(&mut self, parent: &str, entries: &[DirEntry], now: u128)
        requires
            now < CLOCK_END,
        ensures
            final(self)@ == with_entries(
                old(self)@,
                parent@,
                entries_view(entries@),
                entries@.len(),
                now,
            ),
            final(self).clock == old(self).clock,
    {
        let mut i: usize = 0;
        while i < entries.len()
            invariant
                i <= entries@.len(),
                now < CLOCK_END,
                self.clock == old(self).clock,
                self@ == with_entries(
                    old(self)@,
                    parent@,
                    entries_view(entries@),
                    i as nat,
                    now,
                ),
            decreases entries@.len() - i,
        {
            let e = &entries[i];
            let mut child = String::from_str(parent);
            child.append("/");
            child.append(&e.name);
            let is_dir = has_dir_bit(e.attrs.perm);
            self.insert_at(child, e.attrs, is_dir, now);
            i += 1;
        }
    }

    /// Learns what a directory listing tells of its entries.
    pub fn insert_dir_entries(&mut self, parent: &str, entries: &[DirEntry])
        ensures
            exists|now: u128| now < CLOCK_END && final(self)@ == #[trigger] with_entries(
                old(self)@,
                parent@,
                entries_view(entries@),
                entries@.len(),
                now,
            ),
            final(self).clock == old(self).clock,
    {
        let now = self.clock.now();
        self.insert_dir_entries_at(parent, entries, now);
    }
}

// ── Directory listings ──────────────────────────────────────────────

/// A directory listing, and until when it is believed.
pub struct CachedDir {
    pub entries: Arc<Vec<DirEntry>>,
    pub expires: u128,
}

impl Expiring for CachedDir {
    open spec fn end(&self) -> u128 {
        self.expires
    }

    fn expires_at(&self) -> (t: u128) {
        self.expires
    }
}

/// A [`CachedDir`] in terms of sequences.
pub struct DirModel {
    pub entries: Seq<EntryView>,
    pub expires: u128,
}

impl View for CachedDir {
    type V = DirModel;

    open spec fn view(&self) -> DirModel {
        DirModel { entries: entries_view(self.entries@), expires: self.expires }
    }
}

/// Listings by path, each in terms of sequences.
pub open spec fn dirs_view(m: Map<Seq<char>, CachedDir>) -> Map<Seq<char>, DirModel> {
    m.map_values(|c: CachedDir| c@)
}

/// Remembers directory listings.
pub struct DirCache {
    pub dirs: PathMap<CachedDir>,
    pub clock: Clock,
}

impl View for DirCache {
    type V = Map<Seq<char>, DirModel>;

    open spec fn view(&self) -> Map<Seq<char>, DirModel> {
        dirs_view(self.dirs@)
    }
}

/// The listing that is believed of a directory at `now`.
pub open spec fn listing_known(m: Map<Seq<char>, DirModel>, path: Seq<char>, now: u128) -> Option<
    Seq<EntryView>,
> {
    if m.contains_key(path) && m[path].expires > now {
        Some(m[path].entries)
    } else {
        None
    }
}

/// The model once a listing was learnt at `now`.
pub open spec fn with_listing(
    m: Map<Seq<char>, DirModel>,
    path: Seq<char>,
    entries: Seq<EntryView>,
    now: u128,
) -> Map<Seq<char>, DirModel> {
    m.insert(path, DirModel { entries, expires: expiry(now, DIR_CACHE_TTL_SECS) })
}

/// The model without what no longer holds at `now`.
pub open spec fn live_dirs(m: Map<Seq<char>, DirModel>, now: u128) -> Map<Seq<char>, DirModel> {
    m.restrict(m.dom().filter(|k: Seq<char>| m[k].expires > now))
}

/// `Arc::clone`: another reference to the same listing.
#[verifier::external_body]
fn share(entries: &Arc<Vec<DirEntry>>) -> (r: Arc<Vec<DirEntry>>)
    ensures
        r == *entries,
{
    Arc::clone(entries)
}

impl DirCache {
    /// A cache that knows nothing.
    pub fn new() -> (c: Self)
        ensures
            c@ == Map::<Seq<char>, DirModel>::empty(),
    {
        DirCache::with_clock(Clock::start())
    }

    /// A cache that knows nothing and reads the given clock.
    pub fn with_clock(clock: Clock) -> (c: Self)
        ensures
            c@ == Map::<Seq<char>, DirModel>::empty(),
            c.clock == clock,
    {
        let c = DirCache { dirs: PathMap::new(), clock };
        assert(c@ =~= Map::<Seq<char>, DirModel>::empty());
        c
    }

    /// The listing that is believed of a directory at `now`. It is the one that
    /// the cache holds, not a copy: that two hits share their memory is left
    /// unsaid, as references are told apart by what they refer to alone.
    pub fn get_at(&self, path: &str, now: u128) -> (r: Option<Arc<Vec<DirEntry>>>)
        ensures
            listing_known(self@, path@, now) == (match r {
                Some(e) => Some(entries_view(e@)),
                None => None,
            }),
            r matches Some(e) ==> e == self.dirs@[path@].entries,
    {
        match self.dirs.get(path) {
            Some(c) => if c.expires > now {
                Some(share(&c.entries))
            } else {
                None
            },
            None => None,
        }
    }

    /// The listing that is believed of a directory.
    pub fn get(&self, path: &str) -> (r: Option<Arc<Vec<DirEntry>>>)
        ensures
            exists|now: u128|
                now < CLOCK_END && #[trigger] listing_known(self@, path@, now) == (match r {
                    Some(e) => Some(entries_view(e@)),
                    None => None,
                }),
            r matches Some(e) ==> e == self.dirs@[path@].entries,
    {
        let now = self.clock.now();
        let r = self.get_at(path, now);
        assert(listing_known(self@, path@, now) == (match r {
            Some(e) => Some(entries_view(e@)),
            None => None,
        }));
        r
    }

    /// Learns at `now` what a directory holds.
    pub fn insert_at(&mut self, path: String, entries: Vec<DirEntry>, now: u128)
        requires
            now < CLOCK_END,
        ensures
            final(self)@ == with_listing(old(self)@, path@, entries_view(entries@), now),
            final(self).clock == old(self).clock,
    {
        let expires = expiry_after(now, DIR_CACHE_TTL_SECS);
        let ghost key = path@;
        let ghost list = entries@;
        self.dirs.insert(path, CachedDir { entries: Arc::new(entries), expires });
        assert(self@ =~= with_listing(old(self)@, key, entries_view(list), now));
    }

    /// Learns what a directory holds.
    pub fn insert(&mut self, path: String, entries: Vec<DirEntry>)
        ensures
            exists|now: u128| now < CLOCK_END && final(self)@ == #[trigger] with_listing(
                old(self)@,
                path@,
                entries_view(entries@),
                now,
            ),
            final(self).clock == old(self).clock,
    {
        let now = self.clock.now();
        self.insert_at(path, entries, now);
    }

    /// Forgets what a directory holds.
    pub fn invalidate(&mut self, path: &str)
        ensures
            final(self)@ == old(self)@.remove(path@),
            final(self).clock == old(self).clock,
    {
        self.dirs.remove(path);
        assert(self@ =~= old(self)@.remove(path@));
    }

    /// Forgets what no longer holds at `now`.
    pub fn evict_expired_at(&mut self, now: u128)
        ensures
            final(self)@ == live_dirs(old(self)@, now),
            final(self).clock == old(self).clock,
    {
        self.dirs.keep_live(now);
        assert(self@ =~= live_dirs(old(self)@, now));
    }

    /// Forgets what no longer holds.
    pub fn evict_expired(&mut self)
        ensures
            exists|now: u128|
                now < CLOCK_END && final(self)@ == #[trigger] live_dirs(old(self)@, now),
            final(self).clock == old(self).clock,
    {
        let now = self.clock.now();
        self.evict_expired_at(now);
    }
}

// ── Laws ────────────────────────────────────────────────────────────

/// Attributes that were learnt at `now` are given back for a minute, and no
/// longer; from then on the path no longer counts as absent.
pub proof fn law_attrs_hold_for_their_time(
    m: AttrModel,
    path: Seq<char>,
    attr: FileAttr,
    is_dir: bool,
    now: u128,
    later: u128,
)
    requires
        now < CLOCK_END,
    ensures
        attrs_known(with_attrs(m, path, attr, is_dir, now), path, later) == (if later < now
            + CACHE_TTL_SECS * NANOS_PER_SEC {
            Some((attr, is_dir))
        } else {
            None
        }),
        !absence_known(with_attrs(m, path, attr, is_dir, now), path, later),
{
}

/// What was learnt of one path changes nothing for another.
pub proof fn law_paths_are_kept_apart(
    m: AttrModel,
    path: Seq<char>,
    other: Seq<char>,
    attr: FileAttr,
    is_dir: bool,
    now: u128,
    later: u128,
)
    requires
        path != other,
    ensures
        attrs_known(with_attrs(m, path, attr, is_dir, now), other, later) == attrs_known(
            m,
            other,
            later,
        ),
        absence_known(with_attrs(m, path, attr, is_dir, now), other, later) == absence_known(
            m,
            other,
            later,
        ),
        absence_known(with_absence(m, path, now), other, later) == absence_known(m, other, later),
        attrs_known(with_absence(m, path, now), other, later) == attrs_known(m, other, later),
        attrs_known(without_path(m, path), other, later) == attrs_known(m, other, later),
        absence_known(without_path(m, path), other, later) == absence_known(m, other, later),
{
}

/// That a path does not exist is believed for half a minute, and for two
/// minutes of the files of macOS.
pub proof fn law_absence_holds_for_its_time(
    m: AttrModel,
    path: Seq<char>,
    now: u128,
    later: u128,
)
    requires
        now < CLOCK_END,
    ensures
        absence_known(with_absence(m, path, now), path, later) == (later < now + (
        if apple_metadata(base_name(path)) {
            120
        } else {
            30int
        }) * NANOS_PER_SEC),
{
}

/// Nothing is known of a path that was invalidated.
pub proof fn law_invalidated_is_unknown(m: AttrModel, path: Seq<char>, later: u128)
    ensures
        attrs_known(without_path(m, path), path, later) is None,
        !absence_known(without_path(m, path), path, later),
{
}

/// An eviction takes away only what no longer holds: from that moment on every
/// question is answered as it would have been without it.
pub proof fn law_eviction_is_not_seen(m: AttrModel, path: Seq<char>, now: u128, later: u128)
    requires
        now <= later,
    ensures
        attrs_known(live_attrs(m, now), path, later) == attrs_known(m, path, later),
        absence_known(live_attrs(m, now), path, later) == absence_known(m, path, later),
{
}

/// The same holds of an eviction of listings.
pub proof fn law_listing_eviction_is_not_seen(
    m: Map<Seq<char>, DirModel>,
    path: Seq<char>,
    now: u128,
    later: u128,
)
    requires
        now <= later,
    ensures
        listing_known(live_dirs(m, now), path, later) == listing_known(m, path, later),
{
}

/// A listing that was learnt at `now` is given back for a minute, and no
/// longer.
pub proof fn law_listing_holds_for_its_time(
    m: Map<Seq<char>, DirModel>,
    path: Seq<char>,
    entries: Seq<EntryView>,
    now: u128,
    later: u128,
)
    requires
        now < CLOCK_END,
    ensures
        listing_known(with_listing(m, path, entries, now), path, later) == (if later < now
            + DIR_CACHE_TTL_SECS * NANOS_PER_SEC {
            Some(entries)
        } else {
            None
        }),
        listing_known(with_listing(m, path, entries, now).remove(path), path, later) is None,
{
}

/// Something that happens to the memory of listings.
pub enum DirEvent {
    /// A directory was listed at some time.
    Learnt(Seq<char>, Seq<EntryView>, u128),
    /// A directory was forgotten.
    Forgotten(Seq<char>),
    /// What no longer held at some time was evicted.
    Evicted(u128),
}

/// The model after one event.
pub open spec fn after_event(m: Map<Seq<char>, DirModel>, e: DirEvent) -> Map<Seq<char>, DirModel> {
    match e {
        DirEvent::Learnt(path, entries, now) => with_listing(m, path, entries, now),
        DirEvent::Forgotten(path) => m.remove(path),
        DirEvent::Evicted(now) => live_dirs(m, now),
    }
}

/// The model after a history of events.
pub open spec fn after_events(m: Map<Seq<char>, DirModel>, events: Seq<DirEvent>) -> Map<
    Seq<char>,
    DirModel,
>
    decreases events.len(),
{
    if events.len() == 0 {
        m
    } else {
        after_event(after_events(m, events.drop_last()), events.last())
    }
}

/// An event leaves a path alone: it is about another one, or it is an eviction
/// that is over by `later`.
pub open spec fn leaves_alone(e: DirEvent, path: Seq<char>, later: u128) -> bool {
    match e {
        DirEvent::Learnt(p, _, _) => p != path,
        DirEvent::Forgotten(p) => p != path,
        DirEvent::Evicted(now) => now <= later,
    }
}

/// Whatever happens to other paths, what is known of a path stays the same.
pub proof fn law_listings_are_kept_apart(
    m: Map<Seq<char>, DirModel>,
    events: Seq<DirEvent>,
    path: Seq<char>,
    later: u128,
)
    requires
        forall|i: int| 0 <= i < events.len() ==> leaves_alone(#[trigger] events[i], path, later),
    ensures
        listing_known(after_events(m, events), path, later) == listing_known(m, path, later),
    decreases events.len(),
{
    if events.len() > 0 {
        assert(leaves_alone(events[events.len() - 1], path, later));
        law_listings_are_kept_apart(m, events.drop_last(), path, later);
    }
}

/// A directory's last listing is given back for a minute after it was learnt,
/// and no longer, whatever happened before it and to other directories since.
/// One that was forgotten since then, or never listed, is not known.
pub proof fn law_last_listing_is_given_back(
    m: Map<Seq<char>, DirModel>,
    last: DirEvent,
    since: Seq<DirEvent>,
    path: Seq<char>,
    later: u128,
)
    requires
        forall|i: int| 0 <= i < since.len() ==> leaves_alone(#[trigger] since[i], path, later),
    ensures
        match last {
            DirEvent::Learnt(p, entries, now) => p == path && now < CLOCK_END ==> listing_known(
                after_events(after_event(m, last), since),
                path,
                later,
            ) == (if later < now + DIR_CACHE_TTL_SECS * NANOS_PER_SEC {
                Some(entries)
            } else {
                None
            }),
            DirEvent::Forgotten(p) => p == path ==> listing_known(
                after_events(after_event(m, last), since),
                path,
                later,
            ) is None,
            DirEvent::Evicted(_) => true,
        },
        listing_known(after_events(Map::empty(), since), path, later) is None,
{
    law_listings_are_kept_apart(after_event(m, last), since, path, later);
    law_listings_are_kept_apart(Map::empty(), since, path, later);
}

/// A listing tells the attributes of each of its entries, the last one where a
/// name occurs more than once: for a minute they are believed, and no longer,
/// and none of the names counts as absent.
pub proof fn law_listing_tells_attrs(
    m: AttrModel,
    parent: Seq<char>,
    entries: Seq<EntryView>,
    n: nat,
    i: int,
    now: u128,
    later: u128,
)
    requires
        now < CLOCK_END,
        0 <= i < n <= entries.len(),
        forall|j: int| i < j < n ==> #[trigger] entries[j].name != entries[i].name,
    ensures
        attrs_known(
            with_entries(m, parent, entries, n, now),
            child_path(parent, entries[i].name),
            later,
        ) == (if later < now + CACHE_TTL_SECS * NANOS_PER_SEC {
            Some((entries[i].attrs, is_dir_mode(entries[i].attrs.perm)))
        } else {
            None
        }),
        !absence_known(
            with_entries(m, parent, entries, n, now),
            child_path(parent, entries[i].name),
            later,
        ),
    decreases n,
{
    if i < n - 1 {
        law_listing_tells_attrs(m, parent, entries, (n - 1) as nat, i, now, later);
        let a = child_path(parent, entries[n - 1].name);
        let b = child_path(parent, entries[i].name);
        if a == b {
            let cut = (parent + "/"@).len() as int;
            assert(a.skip(cut) =~= entries[n - 1].name);
            assert(b.skip(cut) =~= entries[i].name);
        }
    }
}

/// A listing changes nothing for a path that is none of its entries.
pub proof fn law_listing_leaves_other_paths(
    m: AttrModel,
    parent: Seq<char>,
    entries: Seq<EntryView>,
    n: nat,
    other: Seq<char>,
    now: u128,
    later: u128,
)
    requires
        n <= entries.len(),
        forall|j: int| 0 <= j < n ==> child_path(parent, (#[trigger] entries[j]).name) != other,
    ensures
        attrs_known(with_entries(m, parent, entries, n, now), other, later) == attrs_known(
            m,
            other,
            later,
        ),
        absence_known(with_entries(m, parent, entries, n, now), other, later) == absence_known(
            m,
            other,
            later,
        ),
    decreases n,
{
    if n > 0 {
        assert(child_path(parent, entries[n - 1].name) != other);
        law_listing_leaves_other_paths(m, parent, entries, (n - 1) as nat, other, now, later);
    }
}

/// By the clock, in nanoseconds: attributes and listings are believed for 60
/// seconds, that a file of macOS does not exist for 120, and that another file does
/// not exist for 30. What was learnt later counts, and to learn that a path exists
/// or not undoes the opposite.
pub proof fn law_memory_lasts_as_long(
    m: AttrModel,
    dirs: Map<Seq<char>, DirModel>,
    path: Seq<char>,
    attr: FileAttr,
    is_dir: bool,
    entries: Seq<EntryView>,
    now: u128,
    later: u128,
)
    requires
        now < CLOCK_END,
    ensures
        attrs_known(with_attrs(m, path, attr, is_dir, now), path, later) == (if later < now
            + 60_000_000_000 {
            Some((attr, is_dir))
        } else {
            None
        }),
        !absence_known(with_attrs(m, path, attr, is_dir, now), path, later),
        absence_known(with_absence(m, path, now), path, later) == (later < now
            + if apple_metadata(base_name(path)) {
            120_000_000_000int
        } else {
            30_000_000_000int
        }),
        listing_known(with_listing(dirs, path, entries, now), path, later) == (if later < now
            + 60_000_000_000 {
            Some(entries)
        } else {
            None
        }),
{
}

/// The path of an entry leads back to the directory and to the entry's name.
pub proof fn law_children_stand_in_their_directory(parent: Seq<char>, name: Seq<char>)
    requires
        !name.contains('/'),
    ensures
        crate::text::parent_of(child_path(parent, name)) == Some(parent),
        base_name(child_path(parent, name)) == name,
{
    reveal_strlit("/");
    let path = child_path(parent, name);
    let n = path.len() as int;
    crate::text::lemma_behind_last(path, '/', n);
    let cut = crate::text::behind_last(path, '/', n);
    let at = parent.len() as int;
    assert(path[at] == '/');
    if cut > at + 1 {
        assert(path[cut - 1] == name[cut - 1 - (at + 1)]);
        assert(name.contains(name[cut - 1 - (at + 1)]));
    }
    assert(cut == at + 1);
    assert(path.take(at) =~= parent);
    assert(path.skip(at + 1) =~= name);
}

} // verus!

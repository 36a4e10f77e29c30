use mounter::server::cache::{AttrCache, CachedAttr, CachedDir, DirCache};
use mounter::server::handles::ReadAhead;
use mounter::wire::{DirEntry, FileAttr};
use std::sync::Arc;

const SECOND: u128 = 1_000_000_000;

fn test_attr(size: u64, perm: u32) -> FileAttr {
    FileAttr {
        size,
        uid: 1000,
        gid: 1000,
        perm,
        atime: 1000,
        mtime: 2000,
    }
}

#[test]
fn attr_cache_insert_and_get() {
    let mut c = AttrCache::new();
    c.insert("/a/b".into(), test_attr(100, 0o100644), false);
    let (attr, is_dir) = c.get("/a/b").unwrap();
    assert_eq!(attr.size, 100);
    assert!(!is_dir);
}

#[test]
fn attr_cache_miss() {
    let c = AttrCache::new();
    assert!(c.get("/nonexistent").is_none());
}

#[test]
fn attr_cache_negative() {
    let mut c = AttrCache::new();
    assert!(!c.is_negative("/a"));
    c.insert_negative("/a".into());
    assert!(c.is_negative("/a"));
}

#[test]
fn attr_cache_insert_clears_negative() {
    let mut c = AttrCache::new();
    c.insert_negative("/a".into());
    assert!(c.is_negative("/a"));
    c.insert("/a".into(), test_attr(10, 0o100644), false);
    assert!(!c.is_negative("/a"));
    assert!(c.get("/a").is_some());
}

#[test]
fn attr_cache_invalidate() {
    let mut c = AttrCache::new();
    c.insert("/a".into(), test_attr(10, 0o100644), false);
    c.insert_negative("/b".into());
    c.invalidate("/a");
    c.invalidate("/b");
    assert!(c.get("/a").is_none());
    assert!(!c.is_negative("/b"));
}

#[test]
fn attr_cache_insert_dir_entries() {
    let mut c = AttrCache::new();
    let entries = vec![
        DirEntry {
            name: "file.txt".into(),
            attrs: test_attr(500, 0o100644),
        },
        DirEntry {
            name: "subdir".into(),
            attrs: test_attr(4096, 0o40755),
        },
    ];
    c.insert_dir_entries("/home", &entries);
    let (a, d) = c.get("/home/file.txt").unwrap();
    assert_eq!(a.size, 500);
    assert!(!d);
    let (a, d) = c.get("/home/subdir").unwrap();
    assert_eq!(a.size, 4096);
    assert!(d);
}

#[test]
fn attr_cache_evict_expired() {
    let mut c = AttrCache::new();
    // Insert entries that have lapsed already
    c.positive.insert(
        "/stale".into(),
        CachedAttr {
            attr: test_attr(1, 0o100644),
            is_dir: false,
            expires: 0,
        },
    );
    c.negative.insert("/gone".into(), 0);
    c.insert("/fresh".into(), test_attr(2, 0o100644), false);

    assert_eq!(c.positive.len(), 2);
    assert_eq!(c.negative.len(), 1);
    c.evict_expired();
    assert_eq!(c.positive.len(), 1); // only /fresh remains
    assert_eq!(c.negative.len(), 0);
    assert!(c.get("/fresh").is_some());
}

#[test]
fn dir_cache_insert_and_get() {
    let mut c = DirCache::new();
    let entries = vec![DirEntry {
        name: "a.txt".into(),
        attrs: test_attr(10, 0o100644),
    }];
    c.insert("/dir".into(), entries);
    let got = c.get("/dir").unwrap();
    assert_eq!(got.len(), 1);
    assert_eq!(got[0].name, "a.txt");
}

#[test]
fn dir_cache_miss() {
    let c = DirCache::new();
    assert!(c.get("/nope").is_none());
}

#[test]
fn dir_cache_expired_is_miss() {
    let mut c = DirCache::new();
    c.dirs.insert(
        "/old".into(),
        CachedDir {
            entries: Arc::new(vec![]),
            expires: 0,
        },
    );
    assert!(c.get("/old").is_none());
}

#[test]
fn dir_cache_invalidate() {
    let mut c = DirCache::new();
    c.insert("/dir".into(), vec![]);
    assert!(c.get("/dir").is_some());
    c.invalidate("/dir");
    assert!(c.get("/dir").is_none());
}

#[test]
fn dir_cache_arc_sharing() {
    let mut c = DirCache::new();
    let entries = vec![DirEntry {
        name: "x".into(),
        attrs: test_attr(1, 0o100644),
    }];
    c.insert("/d".into(), entries);
    let a1 = c.get("/d").unwrap();
    let a2 = c.get("/d").unwrap();
    // Both point to the same allocation
    assert!(Arc::ptr_eq(&a1, &a2));
}

#[test]
fn dir_cache_evict_expired() {
    let mut c = DirCache::new();
    c.dirs.insert(
        "/stale".into(),
        CachedDir {
            entries: Arc::new(vec![]),
            expires: 0,
        },
    );
    c.insert("/fresh".into(), vec![]);
    assert_eq!(c.dirs.len(), 2);
    c.evict_expired();
    assert_eq!(c.dirs.len(), 1);
    assert!(c.get("/fresh").is_some());
}

#[test]
fn readahead_hit_within_buffer() {
    let ra = ReadAhead {
        data: vec![0u8; 512 * 1024], // 512KB
        offset: 1000,
    };
    // Read at offset 2000, length 100 — within buffer
    let off = 2000u64;
    let len = 100u64;
    assert!(off >= ra.offset && off + len <= ra.offset + ra.data.len() as u64);
    let start = (off - ra.offset) as usize;
    assert_eq!(start, 1000);
    assert_eq!(ra.part(off, len as u32), Some(vec![0u8; 100]));
}

#[test]
fn readahead_miss_before_buffer() {
    let ra = ReadAhead {
        data: vec![0u8; 1024],
        offset: 5000,
    };
    let off = 4000u64;
    let len = 100u64;
    assert!(!(off >= ra.offset && off + len <= ra.offset + ra.data.len() as u64));
    assert_eq!(ra.part(off, len as u32), None);
}

#[test]
fn readahead_miss_past_buffer() {
    let ra = ReadAhead {
        data: vec![0u8; 1024],
        offset: 0,
    };
    let off = 500u64;
    let len = 1000u64;
    // off + len = 1500 > 0 + 1024
    assert!(!(off >= ra.offset && off + len <= ra.offset + ra.data.len() as u64));
    assert_eq!(ra.part(off, len as u32), None);
}

#[test]
fn readahead_gives_the_bytes_of_the_file() {
    let ra = ReadAhead {
        data: vec![10, 11, 12, 13, 14],
        offset: 100,
    };
    assert_eq!(ra.part(101, 3), Some(vec![11, 12, 13]));
    assert_eq!(ra.part(100, 5), Some(vec![10, 11, 12, 13, 14]));
    assert_eq!(ra.part(105, 0), Some(vec![]));
    assert_eq!(ra.part(u64::MAX, 1), None);
}

#[test]
fn attributes_lapse_after_a_minute() {
    let mut c = AttrCache::new();
    c.insert_at("/a".into(), test_attr(3, 0o100644), false, 5 * SECOND);
    assert!(c.get_at("/a", 65 * SECOND - 1).is_some());
    assert!(c.get_at("/a", 65 * SECOND).is_none());
    assert!(c.get_at("/b", 6 * SECOND).is_none());
}

#[test]
fn absence_lapses_sooner_for_ordinary_files() {
    let mut c = AttrCache::new();
    c.insert_negative_at("/d/file".into(), 0);
    c.insert_negative_at("/d/.DS_Store".into(), 0);
    assert!(c.is_negative_at("/d/file", 30 * SECOND - 1));
    assert!(!c.is_negative_at("/d/file", 30 * SECOND));
    assert!(c.is_negative_at("/d/.DS_Store", 120 * SECOND - 1));
    assert!(!c.is_negative_at("/d/.DS_Store", 120 * SECOND));
}

#[test]
fn eviction_is_not_seen() {
    let mut c = AttrCache::new();
    c.insert_at("/a".into(), test_attr(1, 0o100644), false, 0);
    c.insert_at("/b".into(), test_attr(2, 0o40755), true, 30 * SECOND);
    c.insert_at("/a".into(), test_attr(3, 0o100644), false, 0);
    c.invalidate("/c");
    c.evict_expired_at(70 * SECOND);
    assert_eq!(c.positive.len(), 1);
    assert!(c.get_at("/a", 70 * SECOND).is_none());
    assert_eq!(c.get_at("/b", 70 * SECOND).unwrap().0.size, 2);
}

#[test]
fn the_last_of_two_entries_counts() {
    let mut c = AttrCache::new();
    let entries = vec![
        DirEntry {
            name: "x".into(),
            attrs: test_attr(1, 0o100644),
        },
        DirEntry {
            name: "x".into(),
            attrs: test_attr(2, 0o40755),
        },
    ];
    c.insert_dir_entries_at("/p", &entries, 0);
    let (a, d) = c.get_at("/p/x", 1).unwrap();
    assert_eq!(a.size, 2);
    assert!(d);
}

#[test]
fn listings_lapse_after_a_minute() {
    let mut c = DirCache::new();
    c.insert_at("/d".into(), vec![], SECOND);
    assert!(c.get_at("/d", 61 * SECOND - 1).is_some());
    assert!(c.get_at("/d", 61 * SECOND).is_none());
    c.evict_expired_at(61 * SECOND);
    assert_eq!(c.dirs.len(), 0);
}

#[test]
fn forgotten_paths_take_no_room() {
    let mut c = AttrCache::new();
    for i in 0..1000u64 {
        c.insert_at("/again".into(), test_attr(i, 0o100644), false, 0);
        c.invalidate("/again");
        c.insert_at("/again".into(), test_attr(i, 0o100644), false, 0);
        assert_eq!(c.positive.len(), 1);
    }
    assert_eq!(c.get_at("/again", 1).unwrap().0.size, 999);
    for name in ["/a", "/b", "/c", "/d"] {
        c.insert_at(name.into(), test_attr(1, 0o100644), false, 0);
    }
    c.invalidate("/b");
    c.insert_at("/e".into(), test_attr(5, 0o100644), false, 30 * SECOND);
    assert_eq!(c.positive.len(), 5);
    assert_eq!(c.get_at("/d", 1).unwrap().0.size, 1);
    c.evict_expired_at(60 * SECOND);
    assert_eq!(c.positive.len(), 1);
    assert_eq!(c.get_at("/e", 61 * SECOND).unwrap().0.size, 5);
}

#[test]
fn the_last_listing_is_given_back() {
    let one = DirEntry {
        name: "one".into(),
        attrs: test_attr(1, 0o100644),
    };
    let mut c = DirCache::new();
    c.insert_at("/d".into(), Vec::new(), 0);
    c.insert_at("/d".into(), vec![one], SECOND);
    c.insert_at("/other".into(), Vec::new(), 2 * SECOND);
    c.invalidate("/other");
    c.evict_expired_at(60 * SECOND);
    assert_eq!(c.get_at("/d", 61 * SECOND - 1).unwrap()[0].name, "one");
    assert!(c.get_at("/d", 61 * SECOND).is_none());
    assert!(c.get_at("/other", 3 * SECOND).is_none());
    assert!(c.get_at("/never", 3 * SECOND).is_none());
}

use ossfs::block_index::{found_block, load_order, order_text, CacheFile, DiskCache};
use ossfs::disk_cache::{
    block_file, block_number, decode_block, encode_block, etag_file, is_block_file, is_cache_file,
    load_or_init_block_size, meta_reusable, meta_text, BlockFile, BlockRead, CacheInit,
};

const MIB: usize = 1024 * 1024;

/// A cache whose files are kept in memory.
struct Disk {
    cache: DiskCache,
    files: Vec<(String, Vec<u8>)>,
}

impl Disk {
    fn new(max_bytes: usize, block_size: u64) -> Disk {
        Disk { cache: DiskCache::new(max_bytes, block_size, 0), files: Vec::new() }
    }

    fn has(&self, key: &str, block: u64) -> bool {
        let name = block_file(key, block);
        self.files.iter().any(|(n, _)| *n == name)
    }

    fn write_block(&mut self, key: &str, block: u64, data: &[u8]) {
        let raw = self.cache.write_block(key, data, None).expect("admitted");
        let name = block_file(key, block);
        let len = raw.len() as u64;
        self.files.retain(|(n, _)| *n != name);
        self.files.push((name, raw));
        if self.cache.commit_block(key, block, len) {
            while let Some((k, b)) = self.cache.evict() {
                let name = block_file(&k, b);
                if let Some(at) = self.files.iter().position(|(n, _)| *n == name) {
                    let (_, raw) = self.files.remove(at);
                    self.cache.removed(raw.len() as u64);
                }
            }
        }
    }

    fn read_block(&mut self, key: &str, block: u64) -> Option<Vec<u8>> {
        let name = block_file(key, block);
        let at = self.files.iter().position(|(n, _)| *n == name)?;
        let raw = self.files[at].1.clone();
        match self.cache.read_block(key, block, &raw) {
            BlockFile::Data { data } => Some(data),
            BlockFile::Damaged => {
                self.files.remove(at);
                None
            }
            BlockFile::Short => None,
        }
    }

    fn remount(self, max_bytes: usize, block_size: u64) -> Disk {
        let order = self.cache.save_order();
        let mut next = Disk::new(max_bytes, block_size);
        next.cache.load_order(&order);
        let files: Vec<CacheFile> = self
            .files
            .iter()
            .map(|(n, raw)| CacheFile { name: n.clone(), modified: 0, len: raw.len() as u64 })
            .collect();
        next.cache.rescan_used(&files);
        next.files = self.files;
        next
    }
}

#[test]
fn disk_cache_lru_evicts_least_recently_used() {
    let mut disk = Disk::new(5 * MIB, 4 * MIB as u64);
    let two_mib = vec![0xA5u8; 2 * MIB];
    disk.write_block("k", 0, &two_mib);
    disk.write_block("k", 1, &two_mib);
    disk.read_block("k", 0); // touch A
    disk.write_block("k", 2, &two_mib);
    assert!(disk.has("k", 0), "A must survive");
    assert!(disk.has("k", 2), "C must survive");
    assert!(!disk.has("k", 1), "B must be evicted as LRU");
}

#[test]
fn disk_cache_lru_order_persists_across_remount() {
    let two_mib = vec![0xB5u8; 2 * MIB];
    let mut disk = Disk::new(5 * MIB, 4 * MIB as u64);
    disk.write_block("k", 0, &two_mib);
    disk.write_block("k", 1, &two_mib);
    disk.read_block("k", 0); // touch A
    let mut disk = disk.remount(5 * MIB, 4 * MIB as u64);
    disk.write_block("k", 2, &two_mib);
    assert!(disk.has("k", 0), "A must survive across remount");
    assert!(disk.has("k", 2), "C must survive");
    assert!(!disk.has("k", 1), "B must be evicted as LRU");
}

#[test]
fn disk_cache_block_size_mismatch_rebuilds() {
    let (size, init) = load_or_init_block_size(None, 2 * 1024 * 1024);
    assert_eq!(size, 2 * 1024 * 1024);
    let text = match init {
        CacheInit::Rebuild { meta } => meta,
        CacheInit::Reuse => panic!("nothing to reuse"),
    };
    let (size, init) = load_or_init_block_size(Some(&text), 1 * 1024 * 1024);
    assert_eq!(size, 1 * 1024 * 1024);
    assert!(matches!(init, CacheInit::Rebuild { .. }));
    let (_, init) = load_or_init_block_size(Some(&text), 2 * 1024 * 1024);
    assert!(matches!(init, CacheInit::Reuse));
}

#[test]
fn disk_cache_detects_corrupt_block() {
    let mut disk = Disk::new(64 * MIB, 4 * MIB as u64);
    disk.write_block("k", 0, &vec![0x5Au8; 1024]);
    assert_eq!(disk.read_block("k", 0), Some(vec![0x5Au8; 1024]));
    let raw = &mut disk.files[0].1;
    let n = raw.len();
    raw[n - 1] ^= 0xFF;
    assert_eq!(disk.read_block("k", 0), None);
    assert!(!disk.has("k", 0), "corrupt block should be removed");
}

#[test]
fn disk_cache_skips_write_below_free_space_floor() {
    let cache = DiskCache::new(4 * MIB, 4 * MIB as u64, u64::MAX);
    assert!(cache.write_block("k", b"data", Some(1 << 40)).is_none());
    let cache = DiskCache::new(4 * MIB, 4 * MIB as u64, 100);
    assert!(cache.write_block("k", b"data", Some(116)).is_none());
    assert!(cache.write_block("k", b"data", Some(117)).is_some());
    assert!(cache.write_block("k", b"data", None).is_some());
}

#[test]
fn block_files_tell_key_and_number() {
    let raw = encode_block("k", b"data");
    assert_eq!(raw.len(), 4 + 1 + 8 + 4);
    assert_eq!(raw[..5], [1, 0, 0, 0, b'k']);
    assert!(matches!(decode_block("k", &raw), BlockFile::Data { data } if data == b"data"));
    assert!(matches!(decode_block("l", &raw), BlockFile::Damaged));
    assert!(matches!(decode_block("k", &raw[..11].to_vec()), BlockFile::Short));
    let name = block_file("k", 0x1f);
    assert!(name.ends_with("-0000001f.blk"), "{name}");
    assert_eq!(block_number(&name), Some(31));
    assert_eq!(found_block(&name, &raw), Some(("k".to_string(), 31)));
    assert_eq!(found_block("x.tmp", &raw), None);
    assert_eq!(found_block(&name, &vec![9, 0, 0, 0, 1]), None);
    assert_eq!(found_block(&name, &vec![1, 0, 0, 0, 0xff]), Some(("\u{FFFD}".to_string(), 31)));
    assert!(is_block_file(&name) && is_cache_file(&name));
    assert!(is_cache_file("lru.order") && is_cache_file(&etag_file("k")));
    assert!(!is_cache_file("cache.meta") && !is_block_file("lru.order"));
}

#[test]
fn the_description_of_the_cache_is_read_back() {
    assert_eq!(meta_text(4096), "version=2\nblock_size=4096\n");
    assert!(meta_reusable(&meta_text(4096), 4096));
    assert!(!meta_reusable("version=1\nblock_size=4096\n", 4096));
    assert!(!meta_reusable("block_size=4096\n", 4096));
    assert_eq!(load_or_init_block_size(None, 0).0, 1);
}

#[test]
fn the_order_file_round_trips() {
    let order = vec![("docs/a b.txt".to_string(), 7u64), ("文\n档".to_string(), u64::MAX)];
    let text = order_text(&order);
    assert_eq!(text.lines().next().unwrap(), "7 646f63732f6120622e747874");
    assert_eq!(load_order(&text), order);
    assert_eq!(load_order("junk\nx 61\n3 zz\n4 61"), vec![("a".to_string(), 4)]);
}

#[test]
fn blocks_found_on_disk_are_ordered_by_time() {
    let mut cache = DiskCache::new(MIB + 1, 1, 0);
    assert_eq!(cache.max_bytes, 2 * MIB as u64);
    cache.rebuild_order_from_mtime(vec![
        (30, "c".to_string(), 0),
        (10, "a".to_string(), 0),
        (30, "d".to_string(), 0),
        (20, "b".to_string(), 1),
    ]);
    let keys: Vec<&str> = cache.order.iter().map(|(k, _)| k.as_str()).collect();
    assert_eq!(keys, vec!["a", "b", "c", "d"]);
    cache.touch("a", 0);
    cache.invalidate("c");
    let keys: Vec<&str> = cache.order.iter().map(|(k, _)| k.as_str()).collect();
    assert_eq!(keys, vec!["b", "d", "a"]);
    assert!(cache.is_block_of(&block_file("c", 3), "c"));
    assert!(!cache.is_block_of(&block_file("c", 3), "d"));
    cache.clear();
    assert!(cache.order.is_empty());
}

#[test]
fn files_without_an_order_leave_by_age() {
    let mut cache = DiskCache::new(MIB, 1, 0);
    let file = |name: &str, modified: u64, len: u64| CacheFile { name: name.to_string(), modified, len };
    let mut files = vec![file("n.blk", 3, MIB as u64), file("o.blk", 1, 5), file("p.blk", 1, 7), file("x.etag", 0, 9)];
    cache.rescan_used(&files);
    assert_eq!(cache.used, MIB as u64 + 12);
    files.pop();
    let first = cache.evict_by_mtime(&mut files).unwrap();
    assert_eq!(first.name, "p.blk", "of files as old the last one listed leaves first");
    cache.removed(first.len);
    let second = cache.evict_by_mtime(&mut files).unwrap();
    assert_eq!(second.name, "o.blk");
    cache.removed(second.len);
    assert!(cache.evict_by_mtime(&mut files).is_none());
    cache.released(MIB as u64);
    assert_eq!(cache.used, 0);
}

fn read_blocks(content: &[u8], offset: u64, len: usize, block_size: u64) -> (Vec<u8>, usize) {
    let mut read = BlockRead::begin(offset, len, block_size);
    let mut blocks = 0;
    while let Some(block) = read.next_block() {
        let from = ((block * block_size) as usize).min(content.len());
        let to = (from + block_size as usize).min(content.len());
        read.feed(&content[from..to].to_vec());
        blocks += 1;
    }
    (read.finish(), blocks)
}

#[test]
fn reads_take_the_blocks_they_touch() {
    let content: Vec<u8> = (0..5000usize).map(|i| (i % 251) as u8).collect();
    // Crossing a block boundary takes two blocks.
    assert_eq!(read_blocks(&content, 4096 - 8, 16, 4096), (content[4088..4104].to_vec(), 2));
    assert_eq!(read_blocks(&content, 0, 16, 4096), (content[0..16].to_vec(), 1));
    assert_eq!(read_blocks(&content, 4990, 100, 4096), (content[4990..5000].to_vec(), 1));
    assert_eq!(read_blocks(&content, 9000, 10, 4096), (Vec::new(), 1));
    assert_eq!(read_blocks(&content, 10, 0, 4096), (Vec::new(), 0));
    assert_eq!(read_blocks(&content, 0, 100_000, 1000), (content.clone(), 6));
}

#[test]
fn blocks_of_one_key_are_dropped_alone() {
    let mut disk = Disk::new(64 * MIB, 4 * MIB as u64);
    disk.write_block("small.bin", 0, b"old");
    disk.write_block("other.bin", 0, b"kept");
    disk.cache.invalidate("small.bin");
    let cache = &disk.cache;
    disk.files.retain(|(n, _)| !cache.is_block_of(n, "small.bin"));
    assert!(disk.read_block("small.bin", 0).is_none());
    assert_eq!(disk.read_block("other.bin", 0), Some(b"kept".to_vec()));
    assert_eq!(disk.cache.order.len(), 1);
}

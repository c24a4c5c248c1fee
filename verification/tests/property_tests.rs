use overlay_index::IngestEntry;
use overlay_index::InfoBase;
use overlay_index::ListPack;
use overlay_index::ListTree;
use overlay_index::OverlayIndex;
use overlay_index::Priority;
use overlay_index::ResultPack;
use overlay_index::ViewOverTree;
use overlay_index::ViewPack;
use overlay_index::hash::hash_bytes_streamed;
use overlay_index::hash::hash_bytes_whole;
use overlay_index::hash::hash_content;
use overlay_index::ingest::split_segments;

fn info(id: u64, name: &str) -> InfoBase {
    InfoBase {
        id,
        name: name.to_string(),
        tag: vec![],
        description: None,
        author: None,
        version: None,
    }
}

fn file_entry(rel: &str, hash: &str, size: u64) -> IngestEntry {
    IngestEntry {
        rel_path: rel.to_string(),
        is_dir: false,
        hash: Some(hash.to_string()),
        size: Some(size),
    }
}

fn segs(parts: &[&str]) -> Vec<String> {
    parts.iter().map(|s| s.to_string()).collect()
}

// The example scenario: packs A (priority 1) and B (priority 2) both hold
// "readme.txt". B wins; pinning A's file keeps A winning even after B's
// priority rises; deactivating A while the pin points at it yields no
// winner until the pin is removed or A returns.
#[test]
fn test_override_scenario() {
    let mut idx = OverlayIndex::new();
    idx.insert_pack(
        "A".to_string(),
        info(1, "A"),
        vec![file_entry("readme.txt", "ha", 3)],
        1,
    )
    .unwrap();
    idx.insert_pack(
        "B".to_string(),
        info(2, "B"),
        vec![file_entry("readme.txt", "hb", 3)],
        2,
    )
    .unwrap();
    let path = segs(&["readme.txt"]);
    let a_file = idx.nodes[0].id;
    // Higher priority value dominates: B wins.
    assert_eq!(idx.resolve_path(&path).unwrap().pack_id, 2);
    // Pin A's file; A wins even after B's priority rises further.
    idx.add_cover_rule(path.clone(), a_file, 1).unwrap();
    assert_eq!(idx.resolve_path(&path).unwrap().pack_id, 1);
    idx.set_pack_priority(2, Priority::from_int(100)).unwrap();
    assert_eq!(idx.resolve_path(&path).unwrap().pack_id, 1);
    // A inactive while the pin still points at it: no winner at all.
    idx.set_pack_active(1, false).unwrap();
    assert!(idx.resolve_path(&path).is_none());
    // Reactivating A restores the pinned winner.
    idx.set_pack_active(1, true).unwrap();
    assert_eq!(idx.resolve_path(&path).unwrap().pack_id, 1);
    // Removing the pin hands the path back to priority order.
    idx.remove_cover_rule(&path).unwrap();
    assert_eq!(idx.resolve_path(&path).unwrap().pack_id, 2);
}

// Hash stability at the strategy boundary: the one-pass digest and the
// streamed digest agree on the same bytes, right around 16 KiB.
#[test]
fn test_hash_threshold_boundary() {
    for len in [16383usize, 16384, 16385] {
        let data: Vec<u8> = (0..len).map(|i| (i % 251) as u8).collect();
        let whole = hash_bytes_whole(&data);
        let streamed = hash_bytes_streamed(&data, 4096);
        assert_eq!(whole, streamed);
        assert_eq!(hash_content(&data), whole);
    }
}

// The digest the library reports is the real BLAKE3 digest.
#[test]
fn test_hash_known_value() {
    assert_eq!(
        hash_content(&Vec::new()),
        "af1349b9f5f9a1a6a0404dea36dcc9499bcb25c9adc112b7cc9a93cae41f3262"
    );
    let data = b"hello overlay".to_vec();
    assert_eq!(hash_content(&data), blake3::hash(&data).to_hex().to_string());
    assert_eq!(
        hash_bytes_streamed(&data, 1),
        blake3::hash(&data).to_hex().to_string()
    );
}

// Compaction renumbers to consecutive integers in value order and is
// idempotent; the append counter keeps growing past the compacted values.
#[test]
fn test_reset_priority() {
    let mut idx = OverlayIndex::new();
    idx.insert_pack("a".to_string(), info(1, "a"), vec![], 1).unwrap();
    idx.insert_pack("b".to_string(), info(2, "b"), vec![], 2).unwrap();
    idx.insert_pack("c".to_string(), info(3, "c"), vec![], 3).unwrap();
    idx.set_pack_priority(1, Priority::from_int(10)).unwrap();
    idx.set_pack_priority(2, Priority { num: 5, den: 2 }).unwrap();
    idx.set_pack_priority(3, Priority::from_int(2)).unwrap();
    idx.reset_priority();
    // Order was: pack 3 (2) < pack 2 (2.5) < pack 1 (10).
    let after: Vec<(u64, i64, u64)> = idx
        .packs
        .iter()
        .map(|p| (p.id, p.priority.num, p.priority.den))
        .collect();
    assert_eq!(after, vec![(1, 3, 1), (2, 2, 1), (3, 1, 1)]);
    // Running compaction again changes nothing.
    idx.reset_priority();
    let again: Vec<(u64, i64, u64)> = idx
        .packs
        .iter()
        .map(|p| (p.id, p.priority.num, p.priority.den))
        .collect();
    assert_eq!(after, again);
    // The counter was not reset: the next pack lands above every rank.
    idx.insert_pack("d".to_string(), info(4, "d"), vec![], 4).unwrap();
    assert_eq!(idx.packs[3].priority.num, 4);
    assert_eq!(idx.packs[3].priority.den, 1);
}

// Equal priorities are split deterministically: the older node (smaller
// identity) wins.
#[test]
fn test_tie_break() {
    let mut idx = OverlayIndex::new();
    idx.insert_pack(
        "a".to_string(),
        info(1, "a"),
        vec![file_entry("x.txt", "h1", 1)],
        1,
    )
    .unwrap();
    idx.insert_pack(
        "b".to_string(),
        info(2, "b"),
        vec![file_entry("x.txt", "h2", 1)],
        2,
    )
    .unwrap();
    idx.set_pack_priority(2, Priority::from_int(1)).unwrap();
    let w = idx.resolve_path(&segs(&["x.txt"])).unwrap();
    assert_eq!(w.pack_id, 1);
}

// Changing an inactive pack's priority never moves a winner.
#[test]
fn test_inactive_priority_change() {
    let mut idx = OverlayIndex::new();
    idx.insert_pack(
        "a".to_string(),
        info(1, "a"),
        vec![file_entry("x.txt", "h1", 1)],
        1,
    )
    .unwrap();
    idx.insert_pack(
        "b".to_string(),
        info(2, "b"),
        vec![file_entry("x.txt", "h2", 1)],
        2,
    )
    .unwrap();
    idx.set_pack_active(2, false).unwrap();
    assert_eq!(idx.resolve_path(&segs(&["x.txt"])).unwrap().pack_id, 1);
    idx.set_pack_priority(2, Priority::from_int(1000)).unwrap();
    assert_eq!(idx.resolve_path(&segs(&["x.txt"])).unwrap().pack_id, 1);
}

// A midpoint priority slots strictly between its endpoints without
// disturbing them.
#[test]
fn test_priority_between() {
    let a = Priority::from_int(1);
    let b = Priority::from_int(2);
    let m = Priority::between(&a, &b).unwrap();
    assert_eq!((m.num, m.den), (3, 2));
    assert!(Priority::lt(&a, &m));
    assert!(Priority::lt(&m, &b));
    let m2 = Priority::between(&a, &m).unwrap();
    assert!(Priority::lt(&a, &m2));
    assert!(Priority::lt(&m2, &m));
    // Out-of-range endpoints are refused rather than mangled.
    let huge = Priority::from_int(i64::MAX);
    assert!(Priority::between(&a, &huge).is_none());
}

// Path splitting: both separators split, empty segments vanish.
#[test]
fn test_split_segments() {
    assert_eq!(split_segments("a/b\\c//d/"), segs(&["a", "b", "c", "d"]));
    assert_eq!(split_segments(""), Vec::<String>::new());
    assert_eq!(split_segments("///"), Vec::<String>::new());
    assert_eq!(split_segments("music/说明.txt"), segs(&["music", "说明.txt"]));
}

// Entries that cannot become a node are skipped, never fatal; a child seen
// before its parent falls back to the pack root.
#[test]
fn test_entry_skipping_and_parent_fallback() {
    let mut idx = OverlayIndex::new();
    idx.insert_pack(
        "p".to_string(),
        info(1, "a"),
        vec![
            IngestEntry {
                rel_path: "".to_string(),
                is_dir: false,
                hash: Some("h".to_string()),
                size: Some(1),
            },
            IngestEntry {
                rel_path: "baddir".to_string(),
                is_dir: true,
                hash: Some("h".to_string()),
                size: None,
            },
            // The child arrives before its parent directory.
            file_entry("late/child.txt", "h1", 1),
            IngestEntry {
                rel_path: "late".to_string(),
                is_dir: true,
                hash: None,
                size: None,
            },
        ],
        1,
    )
    .unwrap();
    assert_eq!(idx.nodes.len(), 2);
    // The early child was silently attributed to the pack root.
    assert_eq!(idx.nodes[0].name, "child.txt");
    assert_eq!(idx.nodes[0].parent_id, None);
}

// The command enums behave as the like-named operations.
#[test]
fn test_command_dispatch() {
    let mut idx = OverlayIndex::new();
    ListPack::Insert(
        "a".to_string(),
        info(1, "a"),
        vec![file_entry("x.txt", "h1", 1)],
        1,
    )
    .execute(&mut idx)
    .unwrap();
    ListPack::Insert(
        "b".to_string(),
        info(2, "b"),
        vec![file_entry("x.txt", "h2", 1)],
        2,
    )
    .execute(&mut idx)
    .unwrap();
    let packs = ViewPack::GetPackInfo.execute(&idx).as_pack_info();
    assert_eq!(packs.len(), 2);
    let files = ViewPack::GetFileById(1).execute(&idx).as_file_tree_node();
    assert_eq!(files.len(), 1);
    assert_eq!(files[0].name, "x.txt");
    let top = ViewOverTree::GetTop
        .execute(&idx)
        .unwrap()
        .as_file_over_tree();
    assert_eq!(top.len(), 1);
    assert_eq!(top[0].pack_id, 2);
    let a_file = idx.nodes[0].id;
    ListTree::AddCoverRule(segs(&["x.txt"]), a_file, 1)
        .execute(&mut idx)
        .unwrap();
    let top = ViewOverTree::GetTop
        .execute(&idx)
        .unwrap()
        .as_file_over_tree();
    assert_eq!(top[0].pack_id, 1);
    ListTree::RemoveCoverRuleByPackId(1).execute(&mut idx).unwrap();
    assert_eq!(idx.overrides.len(), 0);
    ListPack::ResetPriority.execute(&mut idx).unwrap();
    assert_eq!(idx.packs[0].priority.num, 1);
    let conflicts = ViewOverTree::GetConflictFiles("x.txt".to_string())
        .execute(&idx)
        .unwrap()
        .as_conflict_file_list();
    assert_eq!(conflicts.len(), 1);
    assert_eq!(conflicts[0].files.len(), 2);
    let links = ViewOverTree::GetAllPaths
        .execute(&idx)
        .unwrap()
        .as_file_over_link_list();
    assert_eq!(links.len(), 1);
    let groups = ViewOverTree::GetAllHashEqualFiles
        .execute(&idx)
        .unwrap()
        .as_hash_equal_file_group();
    assert_eq!(groups.len(), 0);
    let dup = ViewOverTree::GetHashEqualFiles(a_file)
        .execute(&idx)
        .unwrap()
        .as_hash_equal_file_list();
    assert_eq!(dup.len(), 1);
    // A wrong extractor yields nothing.
    let none = ViewOverTree::GetTop
        .execute(&idx)
        .unwrap()
        .as_conflict_file_list();
    assert_eq!(none.len(), 0);
    let r = match ResultPack::InfoList(Vec::new()) {
        other => other.as_file_tree_node(),
    };
    assert_eq!(r.len(), 0);
}

// Directories resolve like files: a higher-priority file shadows a
// directory at the same path.
#[test]
fn test_directory_shadowed_by_file() {
    let mut idx = OverlayIndex::new();
    idx.insert_pack(
        "a".to_string(),
        info(1, "a"),
        vec![IngestEntry {
            rel_path: "thing".to_string(),
            is_dir: true,
            hash: None,
            size: None,
        }],
        1,
    )
    .unwrap();
    idx.insert_pack(
        "b".to_string(),
        info(2, "b"),
        vec![file_entry("thing", "h", 1)],
        2,
    )
    .unwrap();
    let w = idx.resolve_path(&segs(&["thing"])).unwrap();
    assert_eq!(w.pack_id, 2);
    assert!(!w.is_dir);
}

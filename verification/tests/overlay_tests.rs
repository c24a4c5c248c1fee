use overlay_index::IngestEntry;
use overlay_index::InfoBase;
use overlay_index::OverlayError;
use overlay_index::OverlayIndex;
use overlay_index::Priority;

fn info(id: u64, name: &str, desc: &str, author: &str, version: &str) -> InfoBase {
    InfoBase {
        id,
        name: name.to_string(),
        tag: vec!["音乐".to_string()],
        description: Some(desc.to_string()),
        author: Some(author.to_string()),
        version: Some(version.to_string()),
    }
}

fn file_entry(rel: &str, hash: &str, size: u64) -> IngestEntry {
    IngestEntry {
        rel_path: rel.to_string(),
        is_dir: false,
        hash: Some(hash.to_string()),
        size: Some(size),
    }
}

fn dir_entry(rel: &str) -> IngestEntry {
    IngestEntry {
        rel_path: rel.to_string(),
        is_dir: true,
        hash: None,
        size: None,
    }
}

fn segs(parts: &[&str]) -> Vec<String> {
    parts.iter().map(|s| s.to_string()).collect()
}

#[test]
fn test_init() {
    let idx = OverlayIndex::new();
    assert_eq!(idx.packs.len(), 0);
    assert_eq!(idx.nodes.len(), 0);
    assert_eq!(idx.overrides.len(), 0);
}

#[test]
fn test_insert_pack() {
    let mut idx = OverlayIndex::new();
    idx.insert_pack(
        "D:\\CloudMusic\\1".to_string(),
        info(1, "音乐包1", "第一个音乐包", "作者1", "1.0.0"),
        vec![],
        1000,
    )
    .unwrap();
    idx.insert_pack(
        "D:\\CloudMusic\\2".to_string(),
        info(2, "音乐包2", "第二个音乐包", "作者2", "1.0.0"),
        vec![],
        1001,
    )
    .unwrap();
    idx.insert_pack(
        "D:\\CloudMusic\\3".to_string(),
        info(3, "音乐包3", "第三个音乐包", "作者3", "1.0.0"),
        vec![],
        1002,
    )
    .unwrap();
    idx.insert_pack(
        "D:\\CloudMusic\\4".to_string(),
        info(4, "音乐包4", "第四个音乐包", "作者4", "1.0.0"),
        vec![],
        1003,
    )
    .unwrap();
    assert_eq!(idx.packs.len(), 4);
    // Appended priorities count up from 1.
    assert_eq!(idx.packs[0].priority.num, 1);
    assert_eq!(idx.packs[3].priority.num, 4);
    // A duplicate identity is refused.
    let r = idx.insert_pack(
        "D:\\CloudMusic\\5".to_string(),
        info(4, "音乐包5", "x", "y", "1.0.0"),
        vec![],
        1004,
    );
    assert_eq!(r, Err(OverlayError::PackExists));
}

#[test]
fn test_show_pack_list() {
    let mut idx = OverlayIndex::new();
    idx.insert_pack(
        "D:\\CloudMusic\\1".to_string(),
        info(7, "音乐包1", "第一个音乐包", "作者1", "1.0.0"),
        vec![],
        1,
    )
    .unwrap();
    idx.insert_pack(
        "D:\\CloudMusic\\2".to_string(),
        info(8, "音乐包2", "第二个音乐包", "作者2", "1.0.0"),
        vec![],
        2,
    )
    .unwrap();
    let list = idx.get_pack_info();
    assert_eq!(list.len(), 2);
    // Ascending priority.
    assert_eq!(list[0].id, 7);
    assert_eq!(list[1].id, 8);
    assert_eq!(list[0].name.as_deref(), Some("音乐包1"));
    assert_eq!(list[0].base_path, "D:\\CloudMusic\\1");
    assert!(list[0].is_active);
    assert!(!list[0].is_deployed);
}

#[test]
fn test_delete_pack() {
    let mut idx = OverlayIndex::new();
    idx.insert_pack(
        "p1".to_string(),
        info(1, "a", "d", "au", "1.0.0"),
        vec![file_entry("readme.txt", "h1", 3)],
        1,
    )
    .unwrap();
    idx.insert_pack(
        "p2".to_string(),
        info(2, "b", "d", "au", "1.0.0"),
        vec![file_entry("readme.txt", "h2", 3)],
        2,
    )
    .unwrap();
    assert_eq!(idx.nodes.len(), 2);
    idx.add_cover_rule(segs(&["readme.txt"]), 0, 1).unwrap();
    idx.remove_pack(1).unwrap();
    // Cascade: the pack, its node and its override rule are gone.
    assert_eq!(idx.packs.len(), 1);
    assert_eq!(idx.nodes.len(), 1);
    assert_eq!(idx.nodes[0].pack_id, 2);
    assert_eq!(idx.overrides.len(), 0);
    // Resolution falls back to the remaining candidate.
    let w = idx.resolve_path(&segs(&["readme.txt"])).unwrap();
    assert_eq!(w.pack_id, 2);
    assert_eq!(idx.remove_pack(1), Err(OverlayError::PackNotFound));
}

#[test]
fn test_update_pack_status() {
    let mut idx = OverlayIndex::new();
    idx.insert_pack("p".to_string(), info(1, "a", "d", "au", "1"), vec![], 1)
        .unwrap();
    idx.set_pack_active(1, false).unwrap();
    assert!(!idx.packs[0].is_active);
    idx.set_pack_deployed(1, true).unwrap();
    assert!(idx.packs[0].is_deployed);
    idx.set_pack_active(1, true).unwrap();
    assert!(idx.packs[0].is_active);
    assert_eq!(idx.set_pack_active(9, true), Err(OverlayError::PackNotFound));
}

#[test]
fn test_update_pack_priority() {
    let mut idx = OverlayIndex::new();
    idx.insert_pack("p".to_string(), info(1, "a", "d", "au", "1"), vec![], 1)
        .unwrap();
    idx.set_pack_priority(1, Priority::from_int(10)).unwrap();
    assert_eq!(idx.packs[0].priority.num, 10);
    assert_eq!(idx.packs[0].priority.den, 1);
    // A fractional priority slots between integers.
    idx.set_pack_priority(1, Priority { num: 21, den: 2 }).unwrap();
    assert!(Priority::lt(&Priority::from_int(10), &idx.packs[0].priority));
    assert!(Priority::lt(&idx.packs[0].priority, &Priority::from_int(11)));
}

#[test]
fn test_update_pack_info() {
    let mut idx = OverlayIndex::new();
    idx.insert_pack("p".to_string(), info(1, "old", "old", "old", "0.1"), vec![], 1)
        .unwrap();
    idx.set_pack_info(
        1,
        info(1, "更新后的包名", "这是一个更新后的包描述", "更新后的作者", "1.0.0"),
        500,
    )
    .unwrap();
    assert_eq!(idx.packs[0].name.as_deref(), Some("更新后的包名"));
    assert_eq!(
        idx.packs[0].description.as_deref(),
        Some("这是一个更新后的包描述")
    );
    assert_eq!(idx.packs[0].author.as_deref(), Some("更新后的作者"));
    assert_eq!(idx.packs[0].meta_updated_at, 500);
    // Creation time is untouched.
    assert_eq!(idx.packs[0].add_time, 1);
}

#[test]
fn test_get_file_tree() {
    let mut idx = OverlayIndex::new();
    idx.insert_pack(
        "p".to_string(),
        info(1, "a", "d", "au", "1"),
        vec![
            dir_entry("music"),
            file_entry("music/song.mp3", "h1", 100),
            file_entry("readme.txt", "h2", 5),
        ],
        1,
    )
    .unwrap();
    let rows = idx.get_file_by_id(1);
    assert_eq!(rows.len(), 3);
    assert_eq!(rows[0].name, "music");
    assert!(rows[0].is_dir);
    assert_eq!(rows[0].depth, 1);
    assert_eq!(rows[1].name, "song.mp3");
    assert_eq!(rows[1].depth, 2);
    assert_eq!(rows[1].path_segments, segs(&["music", "song.mp3"]));
    assert_eq!(rows[1].size, Some(100));
    assert_eq!(rows[1].hash.as_deref(), Some("h1"));
    // The child is linked to its parent directory.
    assert_eq!(idx.nodes[1].parent_id, Some(idx.nodes[0].id));
    // A top-level entry has no parent: it hangs off the pack root.
    assert_eq!(idx.nodes[2].parent_id, None);
}

#[test]
fn test_update_file_status() {
    let mut idx = OverlayIndex::new();
    idx.insert_pack(
        "p".to_string(),
        info(1, "a", "d", "au", "1"),
        vec![file_entry("readme.txt", "h1", 3)],
        1,
    )
    .unwrap();
    let fid = idx.nodes[0].id;
    idx.set_file_active(fid, false).unwrap();
    assert!(!idx.nodes[0].is_active);
    idx.set_file_deployed(fid, true).unwrap();
    assert!(idx.nodes[0].is_deployed);
    assert_eq!(idx.set_file_active(99, true), Err(OverlayError::FileNotFound));
    // An inactive file no longer wins its path.
    assert!(idx.resolve_path(&segs(&["readme.txt"])).is_none());
}

#[test]
fn test_update_file_priority() {
    let mut idx = OverlayIndex::new();
    idx.insert_pack(
        "p1".to_string(),
        info(1, "a", "d", "au", "1"),
        vec![file_entry("readme.txt", "h1", 3)],
        1,
    )
    .unwrap();
    idx.insert_pack(
        "p2".to_string(),
        info(2, "b", "d", "au", "1"),
        vec![file_entry("readme.txt", "h2", 3)],
        2,
    )
    .unwrap();
    // Pack 2 wins: larger priority value dominates.
    let w = idx.resolve_path(&segs(&["readme.txt"])).unwrap();
    assert_eq!(w.pack_id, 2);
    // Raising pack 1 above pack 2 flips the winner.
    idx.set_pack_priority(1, Priority::from_int(5)).unwrap();
    let w = idx.resolve_path(&segs(&["readme.txt"])).unwrap();
    assert_eq!(w.pack_id, 1);
}

#[test]
fn test_get_over_tree() {
    let mut idx = OverlayIndex::new();
    idx.insert_pack(
        "p1".to_string(),
        info(1, "a", "d", "au", "1"),
        vec![
            dir_entry("music"),
            file_entry("music/song.mp3", "h1", 100),
            file_entry("readme.txt", "h2", 5),
        ],
        1,
    )
    .unwrap();
    idx.insert_pack(
        "p2".to_string(),
        info(2, "b", "d", "au", "1"),
        vec![file_entry("readme.txt", "h3", 6)],
        2,
    )
    .unwrap();
    let top = idx.get_top();
    // Two top-level paths: "music" and "readme.txt".
    assert_eq!(top.len(), 2);
    let readme = top
        .iter()
        .find(|r| r.path_segments == segs(&["readme.txt"]))
        .unwrap();
    assert_eq!(readme.pack_id, 2);
    let children = idx.get_children(&segs(&["music"]));
    assert_eq!(children.len(), 1);
    assert_eq!(children[0].path_segments, segs(&["music", "song.mp3"]));
}

#[test]
fn test_get_all_paths() {
    let mut idx = OverlayIndex::new();
    idx.insert_pack(
        "base".to_string(),
        info(1, "a", "d", "au", "1"),
        vec![dir_entry("music"), file_entry("music/song.mp3", "h1", 100)],
        1,
    )
    .unwrap();
    let links = idx.get_all_paths();
    assert_eq!(links.len(), 2);
    let song = links
        .iter()
        .find(|l| l.path_relative == "music/song.mp3")
        .unwrap();
    assert_eq!(song.path_absolute, "base/music/song.mp3");
    assert_eq!(song.pack_id, 1);
}

#[test]
fn test_get_conflict_files() {
    let mut idx = OverlayIndex::new();
    idx.insert_pack(
        "p1".to_string(),
        info(1, "a", "d", "au", "1"),
        vec![file_entry("说明.txt", "h1", 3)],
        1,
    )
    .unwrap();
    idx.insert_pack(
        "p2".to_string(),
        info(2, "b", "d", "au", "1"),
        vec![file_entry("说明.txt", "h2", 3)],
        2,
    )
    .unwrap();
    let groups = idx.get_conflict_files("说明.txt");
    assert_eq!(groups.len(), 1);
    assert_eq!(groups[0].relative_path, "说明.txt");
    assert_eq!(groups[0].files.len(), 2);
    assert_eq!(groups[0].files[0].pack_id, 1);
    assert_eq!(groups[0].files[1].pack_id, 2);
    assert_eq!(groups[0].files[0].base_path, "p1");
    // A path contested by one file only is no conflict.
    assert_eq!(idx.get_conflict_files("absent.txt").len(), 0);
}

#[test]
fn test_add_conflict_rule() {
    let mut idx = OverlayIndex::new();
    idx.insert_pack(
        "p1".to_string(),
        info(1, "a", "d", "au", "1"),
        vec![file_entry("说明.txt", "h1", 3)],
        1,
    )
    .unwrap();
    idx.insert_pack(
        "p2".to_string(),
        info(2, "b", "d", "au", "1"),
        vec![file_entry("说明.txt", "h2", 3)],
        2,
    )
    .unwrap();
    let low_file = idx.nodes[0].id;
    // Without a rule the higher-priority pack wins.
    assert_eq!(idx.resolve_path(&segs(&["说明.txt"])).unwrap().pack_id, 2);
    idx.add_cover_rule(segs(&["说明.txt"]), low_file, 1).unwrap();
    assert_eq!(idx.resolve_path(&segs(&["说明.txt"])).unwrap().pack_id, 1);
    // A second rule at the same path is refused.
    assert_eq!(
        idx.add_cover_rule(segs(&["说明.txt"]), low_file, 1),
        Err(OverlayError::OverrideExists)
    );
    idx.remove_cover_rule(&segs(&["说明.txt"])).unwrap();
    assert_eq!(
        idx.remove_cover_rule(&segs(&["说明.txt"])),
        Err(OverlayError::OverrideNotFound)
    );
    assert_eq!(idx.resolve_path(&segs(&["说明.txt"])).unwrap().pack_id, 2);
}

#[test]
fn test_check_hash_conflict() {
    let mut idx = OverlayIndex::new();
    idx.insert_pack(
        "p1".to_string(),
        info(1, "a", "d", "au", "1"),
        vec![file_entry("one.bin", "cafe", 3), file_entry("two.bin", "beef", 3)],
        1,
    )
    .unwrap();
    idx.insert_pack(
        "p2".to_string(),
        info(2, "b", "d", "au", "1"),
        vec![file_entry("three.bin", "cafe", 3)],
        2,
    )
    .unwrap();
    let one = idx.nodes[0].id;
    let rows = idx.get_hash_equal_files(one).unwrap();
    assert_eq!(rows.len(), 2);
    assert!(rows.iter().all(|r| r.hash == "cafe"));
    assert!(matches!(
        idx.get_hash_equal_files(999),
        Err(OverlayError::FileNotFound)
    ));
}

#[test]
fn test_get_all_hash_conflict_files() {
    let mut idx = OverlayIndex::new();
    idx.insert_pack(
        "p1".to_string(),
        info(1, "a", "d", "au", "1"),
        vec![
            file_entry("one.bin", "cafe", 3),
            file_entry("two.bin", "beef", 3),
            file_entry("four.bin", "beef", 3),
        ],
        1,
    )
    .unwrap();
    idx.insert_pack(
        "p2".to_string(),
        info(2, "b", "d", "au", "1"),
        vec![file_entry("three.bin", "cafe", 3)],
        2,
    )
    .unwrap();
    let groups = idx.get_all_hash_equal_files();
    assert_eq!(groups.len(), 2);
    assert!(groups.iter().any(|g| g[0].hash == "cafe" && g.len() == 2));
    assert!(groups.iter().any(|g| g[0].hash == "beef" && g.len() == 2));
}

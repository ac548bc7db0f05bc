use bms_scan::engine::{
    complete_if_finished, deliver_file, process_directory, DirEntryInfo, EntryKind,
    ResultChannel, Traversal,
};
use bms_scan::ext::{is_target_file_name, lower_byte};
use bms_scan::paths::ScanPath;
use bms_scan::record::{process_file, FileError, FileInfo};
use bms_scan::storage::{classify, permits_for, MountInfo, StorageType};
use sha2::{Digest, Sha256};

fn path(parts: &[&str]) -> ScanPath {
    ScanPath::from_components(parts.iter().map(|s| s.as_bytes().to_vec()).collect())
}

fn parts(p: &ScanPath) -> Vec<String> {
    (0..p.depth())
        .map(|i| String::from_utf8(p.component(i)).unwrap())
        .collect()
}

fn entry(name: &str, kind: EntryKind) -> DirEntryInfo {
    DirEntryInfo { name: name.as_bytes().to_vec(), kind }
}

fn sha(bytes: &[u8]) -> [u8; 32] {
    Sha256::digest(bytes).into()
}

fn mount(parts_: &[&str], kind: StorageType) -> MountInfo {
    MountInfo { mount_point: path(parts_), kind }
}

#[test]
fn extension_matching_ignores_case() {
    assert!(is_target_file_name(b"song.BMS"));
    assert!(is_target_file_name(b"song.bms"));
    assert!(is_target_file_name(b"chart.BMSON"));
    assert!(is_target_file_name(b"a.bme"));
    assert!(is_target_file_name(b"a.BmL"));
    assert!(is_target_file_name(b"a.pms"));
    assert!(is_target_file_name(b"archive.tar.bms"));
}

#[test]
fn extension_matching_rejects_others() {
    assert!(!is_target_file_name(b"song.bmsx"));
    assert!(!is_target_file_name(b"song"));
    assert!(!is_target_file_name(b"skip.txt"));
    assert!(!is_target_file_name(b".bms"));
    assert!(!is_target_file_name(b"song."));
    assert!(!is_target_file_name(b"bms"));
    assert!(!is_target_file_name(b""));
    assert!(!is_target_file_name(b"song.bms.txt"));
}

#[test]
fn lower_byte_folds_ascii_only() {
    assert_eq!(lower_byte(b'A'), b'a');
    assert_eq!(lower_byte(b'Z'), b'z');
    assert_eq!(lower_byte(b'a'), b'a');
    assert_eq!(lower_byte(b'.'), b'.');
    assert_eq!(lower_byte(0xC4), 0xC4);
}

#[test]
fn paths_join_and_strip() {
    let root = path(&["", "music"]);
    let file = path(&["", "music", "sub", "c.bmson"]);
    assert!(file.starts_with(&root));
    assert!(!root.starts_with(&file));
    let rel = file.strip_prefix(&root).unwrap();
    assert_eq!(parts(&rel), vec!["sub", "c.bmson"]);
    assert!(path(&["", "musicx", "a.bms"]).strip_prefix(&root).is_none());
    let joined = root.join(b"a.bms");
    assert_eq!(parts(&joined), vec!["", "music", "a.bms"]);
    assert_eq!(joined.file_name().unwrap(), b"a.bms".to_vec());
    assert!(ScanPath::empty().file_name().is_none());
    assert_eq!(parts(&root.duplicate()), vec!["", "music"]);
}

#[test]
fn classify_picks_covering_mount() {
    let mounts = vec![mount(&[""], StorageType::HDD), mount(&["", "mnt", "fast"], StorageType::SSD)];
    assert_eq!(classify(&path(&["", "mnt", "fast", "songs"]), &mounts), StorageType::SSD);
    assert_eq!(classify(&path(&["", "home", "me"]), &mounts), StorageType::HDD);
}

#[test]
fn classify_deeper_mount_wins() {
    let mounts = vec![
        mount(&["", "data", "games"], StorageType::Unknown(7)),
        mount(&["", "data"], StorageType::HDD),
    ];
    assert_eq!(classify(&path(&["", "data", "games", "x"]), &mounts), StorageType::Unknown(7));
    assert_eq!(classify(&path(&["", "data", "other"]), &mounts), StorageType::HDD);
}

#[test]
fn classify_without_covering_mount_fails() {
    let mounts = vec![mount(&["", "data"], StorageType::SSD)];
    assert_eq!(classify(&path(&["", "home"]), &mounts), StorageType::Failed);
    assert_eq!(classify(&path(&["", "home"]), &Vec::new()), StorageType::Failed);
}

#[test]
fn classify_equal_depth_takes_last() {
    let mounts = vec![mount(&["", "a"], StorageType::HDD), mount(&["", "a"], StorageType::SSD)];
    assert_eq!(classify(&path(&["", "a", "b"]), &mounts), StorageType::SSD);
}

#[test]
fn permits_follow_medium() {
    assert_eq!(permits_for(StorageType::SSD), 16);
    assert_eq!(permits_for(StorageType::HDD), 1);
    assert_eq!(permits_for(StorageType::Unknown(3)), 1);
    assert_eq!(permits_for(StorageType::Failed), 1);
}

#[test]
fn record_strips_root_and_hashes() {
    let root = path(&["", "r"]);
    let rec = process_file(&path(&["", "r", "sub", "c.bmson"]), &root, b"Y".to_vec()).unwrap();
    assert_eq!(parts(rec.relative_path()), vec!["sub", "c.bmson"]);
    assert_eq!(parts(rec.absolute_path()), vec!["", "r", "sub", "c.bmson"]);
    assert_eq!(rec.content(), b"Y");
    assert_eq!(rec.sha256(), sha(b"Y"));
    assert_ne!(rec.sha256().to_vec(), b"Y".to_vec());
    assert!(rec.fingerprint_matches());
}

#[test]
fn record_outside_root_is_refused() {
    let r = process_file(&path(&["", "other", "a.bms"]), &path(&["", "r"]), b"X".to_vec());
    assert_eq!(r.err(), Some(FileError::NotUnderRoot));
}

#[test]
fn listing_is_partitioned() {
    let dir = path(&["", "r"]);
    let es = vec![
        entry("a.bms", EntryKind::NotDirectory),
        entry("skip.txt", EntryKind::NotDirectory),
        entry("sub", EntryKind::Directory),
        entry("odd.bms", EntryKind::Undetermined),
        entry("dir.bms", EntryKind::Directory),
    ];
    let (files, subdirs) = process_directory(&dir, &es);
    assert_eq!(files.len(), 1);
    assert_eq!(parts(&files[0]), vec!["", "r", "a.bms"]);
    assert_eq!(subdirs.len(), 2);
    assert_eq!(parts(&subdirs[0]), vec!["", "r", "sub"]);
    assert_eq!(parts(&subdirs[1]), vec!["", "r", "dir.bms"]);
}

/// Walks a tree given as a listing per directory; `None` stands for a directory
/// that cannot be listed. Returns the records in delivery order, and whether
/// completion was set only after the last of them.
fn walk(
    root: &[&str],
    listings: &dyn Fn(&[String]) -> Option<Vec<DirEntryInfo>>,
    contents: &dyn Fn(&[String]) -> Option<Vec<u8>>,
) -> (Vec<FileInfo>, bool) {
    let mut t = Traversal::new(path(root), StorageType::HDD);
    let mut ch = ResultChannel::new();
    let mut out = Vec::new();
    let mut complete_seen_early = false;
    while let Some(dir) = t.next_directory() {
        let files = t.finish_directory(&dir, listings(&parts(&dir)));
        for f in files {
            let _ = deliver_file(&t, &mut ch, &f, contents(&parts(&f)));
        }
        if complete_if_finished(&t, &mut ch) {
            break;
        }
        if ch.is_completed() {
            complete_seen_early = true;
        }
        while let Some(r) = ch.pop() {
            out.push(r);
        }
    }
    complete_if_finished(&t, &mut ch);
    assert!(t.is_finished());
    assert!(ch.is_completed());
    assert!(!complete_if_finished(&t, &mut ch));
    while let Some(r) = ch.pop() {
        out.push(r);
    }
    (out, !complete_seen_early)
}

#[test]
fn end_to_end_scan() {
    let listings = |d: &[String]| -> Option<Vec<DirEntryInfo>> {
        match d.last().map(|s| s.as_str()) {
            Some("root") => Some(vec![
                entry("a.bms", EntryKind::NotDirectory),
                entry("B.Bms", EntryKind::NotDirectory),
                entry("skip.txt", EntryKind::NotDirectory),
                entry("sub", EntryKind::Directory),
            ]),
            Some("sub") => Some(vec![entry("c.bmson", EntryKind::NotDirectory)]),
            _ => None,
        }
    };
    let contents = |f: &[String]| -> Option<Vec<u8>> {
        match f.last().map(|s| s.as_str()) {
            Some("c.bmson") => Some(b"Y".to_vec()),
            _ => Some(b"X".to_vec()),
        }
    };
    let (recs, ordered) = walk(&["", "root"], &listings, &contents);
    assert!(ordered);
    assert_eq!(recs.len(), 3);
    let mut rels: Vec<String> = recs.iter().map(|r| parts(r.relative_path()).join("/")).collect();
    rels.sort();
    assert_eq!(rels, vec!["B.Bms", "a.bms", "sub/c.bmson"]);
    for r in &recs {
        let rel = parts(r.relative_path()).join("/");
        let expected = if rel == "sub/c.bmson" { sha(b"Y") } else { sha(b"X") };
        assert_eq!(r.sha256(), expected);
        assert!(r.fingerprint_matches());
    }
    assert_ne!(sha(b"X"), sha(b"Y"));
}

#[test]
fn unreadable_subtree_is_skipped() {
    let listings = |d: &[String]| -> Option<Vec<DirEntryInfo>> {
        match d.last().map(|s| s.as_str()) {
            Some("root") => Some(vec![
                entry("locked", EntryKind::Directory),
                entry("open", EntryKind::Directory),
            ]),
            Some("open") => Some(vec![entry("x.pms", EntryKind::NotDirectory)]),
            _ => None,
        }
    };
    let contents = |_f: &[String]| -> Option<Vec<u8>> { Some(b"Z".to_vec()) };
    let (recs, ordered) = walk(&["", "root"], &listings, &contents);
    assert!(ordered);
    assert_eq!(recs.len(), 1);
    assert_eq!(parts(recs[0].relative_path()), vec!["open", "x.pms"]);
}

#[test]
fn unreadable_file_is_skipped() {
    let root = path(&["", "r"]);
    let t = Traversal::new(path(&["", "r"]), StorageType::SSD);
    assert_eq!(t.permits(), 16);
    let mut ch = ResultChannel::new();
    let r = deliver_file(&t, &mut ch, &root.join(b"a.bms"), None);
    assert_eq!(r, Err(FileError::Unreadable));
    assert!(ch.pop().is_none());
    let r = deliver_file(&t, &mut ch, &path(&["", "q", "a.bms"]), Some(b"X".to_vec()));
    assert_eq!(r, Err(FileError::NotUnderRoot));
    assert!(ch.pop().is_none());
    assert_eq!(deliver_file(&t, &mut ch, &root.join(b"a.bms"), Some(b"X".to_vec())), Ok(()));
    assert!(ch.pop().is_some());
}

#[test]
fn unlisted_directory_adds_nothing() {
    let mut t = Traversal::new(path(&["", "r"]), StorageType::HDD);
    let d = t.next_directory().unwrap();
    assert!(!t.is_finished());
    let files = t.finish_directory(&d, None);
    assert!(files.is_empty());
    assert!(t.is_finished());
    assert!(t.next_directory().is_none());
}

#[test]
fn channel_is_first_in_first_out() {
    let root = path(&["", "r"]);
    let mut ch = ResultChannel::new();
    assert!(ch.pop().is_none());
    ch.push(process_file(&root.join(b"1.bms"), &root, b"1".to_vec()).unwrap());
    ch.push(process_file(&root.join(b"2.bms"), &root, b"2".to_vec()).unwrap());
    assert!(!ch.is_completed());
    ch.mark_complete();
    assert!(ch.is_completed());
    assert_eq!(parts(ch.pop().unwrap().relative_path()), vec!["1.bms"]);
    assert_eq!(parts(ch.pop().unwrap().relative_path()), vec!["2.bms"]);
    assert!(ch.pop().is_none());
}

#[test]
fn cancelled_walk_hands_out_nothing() {
    let mut t = Traversal::new(path(&["", "r"]), StorageType::HDD);
    let mut ch = ResultChannel::new();
    assert!(!complete_if_finished(&t, &mut ch));
    t.cancel();
    assert!(t.next_directory().is_none());
    assert!(t.is_finished());
    assert!(complete_if_finished(&t, &mut ch));
    assert!(ch.is_completed());
}

#[test]
fn subdirectories_are_queued_in_listing_order() {
    let mut t = Traversal::new(path(&["r"]), StorageType::HDD);
    let d = t.next_directory().unwrap();
    assert_eq!(parts(&d), vec!["r"]);
    assert_eq!(parts(t.root()), vec!["r"]);
    let files = t.finish_directory(
        &d,
        Some(vec![entry("x", EntryKind::Directory), entry("y", EntryKind::Directory)]),
    );
    assert!(files.is_empty());
    assert_eq!(parts(&t.next_directory().unwrap()), vec!["r", "x"]);
    assert_eq!(parts(&t.next_directory().unwrap()), vec!["r", "y"]);
    assert!(t.next_directory().is_none());
}

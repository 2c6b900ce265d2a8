use sublink::index::build_index;
use sublink::{FsEntry, SyncError};

fn file(name: &str, path: &str) -> FsEntry {
    FsEntry {
        name: name.to_string(),
        path: path.to_string(),
        size: 0,
        is_file: true,
        is_dir: false,
    }
}

fn dir(name: &str, path: &str) -> FsEntry {
    FsEntry {
        name: name.to_string(),
        path: path.to_string(),
        size: 0,
        is_file: false,
        is_dir: true,
    }
}

#[test]
fn index_keys_are_stems_of_eligible_children() {
    let children = vec![
        file("S01E01.mkv", "/out/S01E01.mkv"),
        file("S01E02.mkv", "/out/S01E02.mkv"),
        file("old.srt", "/out/old.srt"),
        dir("extras", "/out/extras"),
    ];
    let mut idx = build_index(&children).unwrap();
    assert_eq!(idx.len(), 2);
    assert!(idx.contains_key(&"S01E01".to_string()));
    assert!(idx.contains_key(&"S01E02".to_string()));
    assert!(!idx.contains_key(&"old".to_string()));
    assert!(!idx.contains_key(&"extras".to_string()));
    assert_eq!(
        idx.remove(&"S01E01".to_string()),
        Some("/out/S01E01.mkv".to_string())
    );
    assert_eq!(idx.remove(&"S01E01".to_string()), None);
    assert_eq!(idx.len(), 1);
}

#[test]
fn index_collision_keeps_last_path() {
    let children = vec![
        file("show.mkv", "/out/show.mkv"),
        file("show.avi", "/out/show.avi"),
    ];
    let mut idx = build_index(&children).unwrap();
    assert_eq!(idx.len(), 1);
    assert_eq!(
        idx.remove(&"show".to_string()),
        Some("/out/show.avi".to_string())
    );
}

#[test]
fn empty_destination_is_fatal() {
    let children: Vec<FsEntry> = Vec::new();
    match build_index(&children) {
        Err(e) => assert_eq!(e, SyncError::EmptyDestination),
        Ok(_) => panic!("an empty destination must be refused"),
    }
}

#[test]
fn destination_with_only_subtitles_and_dirs_is_empty() {
    let children = vec![file("a.srt", "/out/a.srt"), dir("b", "/out/b")];
    assert!(matches!(
        build_index(&children),
        Err(SyncError::EmptyDestination)
    ));
}

#[test]
fn single_file_destination_has_one_entry() {
    let mut idx = sublink::index::build_single_index(
        &"movie.mkv".to_string(),
        &"/out/movie.mkv".to_string(),
    );
    assert_eq!(idx.len(), 1);
    assert_eq!(
        idx.remove(&"movie".to_string()),
        Some("/out/movie.mkv".to_string())
    );
}

#[test]
fn remaining_stems_reports_unmatched() {
    let children = vec![
        file("S01E01.mkv", "/out/S01E01.mkv"),
        file("S01E02.mkv", "/out/S01E02.mkv"),
    ];
    let mut idx = build_index(&children).unwrap();
    idx.remove(&"S01E02".to_string());
    let stems = idx.remaining_stems();
    assert_eq!(stems, vec!["S01E01".to_string()]);
}

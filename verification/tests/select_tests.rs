use sublink::select::{
    filter_entries, manual_labels, pick_index, prepare_candidates, sort_entries, sort_for,
    SelectionStrategy, SortStrategy,
};
use sublink::{FsEntry, SyncError};

fn sub(name: &str, size: u64) -> FsEntry {
    FsEntry {
        name: name.to_string(),
        path: format!("/in/{}", name),
        size,
        is_file: true,
        is_dir: false,
    }
}

#[test]
fn filter_keeps_only_subtitle_files() {
    let entries = vec![
        sub("a.srt", 1),
        sub("b.txt", 2),
        sub("c.srt", 3),
        FsEntry {
            name: "d.srt".to_string(),
            path: "/in/d.srt".to_string(),
            size: 0,
            is_file: false,
            is_dir: true,
        },
    ];
    let kept = filter_entries(&entries, &None);
    let names: Vec<String> = kept.iter().map(|e| e.name.clone()).collect();
    assert_eq!(names, vec!["a.srt".to_string(), "c.srt".to_string()]);
}

#[test]
fn keyword_filter_is_case_insensitive_substring() {
    let entries = vec![sub("Movie.ENGLISH.srt", 1), sub("movie.french.srt", 2)];
    let kept = filter_entries(&entries, &Some("english".to_string()));
    assert_eq!(kept.len(), 1);
    assert_eq!(kept[0].name, "Movie.ENGLISH.srt");
}

#[test]
fn absent_keyword_excludes_nothing() {
    let entries = vec![sub("a.srt", 1), sub("b.srt", 2)];
    assert_eq!(filter_entries(&entries, &None).len(), 2);
}

#[test]
fn sort_by_name_is_ascending() {
    let entries = vec![sub("c.srt", 1), sub("a.srt", 3), sub("b.srt", 2)];
    let sorted = sort_entries(entries, SortStrategy::Alphabetical);
    let names: Vec<String> = sorted.iter().map(|e| e.name.clone()).collect();
    assert_eq!(
        names,
        vec!["a.srt".to_string(), "b.srt".to_string(), "c.srt".to_string()]
    );
}

#[test]
fn sort_by_size_is_ascending() {
    let entries = vec![sub("a.srt", 30), sub("b.srt", 10), sub("c.srt", 20)];
    let sorted = sort_entries(entries, SortStrategy::Size);
    let sizes: Vec<u64> = sorted.iter().map(|e| e.size).collect();
    assert_eq!(sizes, vec![10, 20, 30]);
}

#[test]
fn alphabetical_strategy_picks_least_name() {
    let entries = vec![sub("b.srt", 9), sub("a.srt", 1), sub("c.srt", 5)];
    let v = prepare_candidates(&entries, &None, SortStrategy::Alphabetical).unwrap();
    let i = pick_index(&v, SelectionStrategy::Alphabetical, SortStrategy::Alphabetical, 0);
    assert_eq!(v[i].name, "a.srt");
    for e in &v {
        assert!(v[i].name <= e.name);
    }
}

#[test]
fn size_strategy_picks_largest() {
    let entries = vec![sub("a.srt", 5), sub("b.srt", 9), sub("c.srt", 7)];
    let v = prepare_candidates(&entries, &None, SortStrategy::Size).unwrap();
    let i = pick_index(&v, SelectionStrategy::Size, SortStrategy::Size, 0);
    assert_eq!(v[i].name, "b.srt");
    for e in &v {
        assert!(e.size <= v[i].size);
    }
}

#[test]
fn size_ties_pick_last_in_current_order() {
    let entries = vec![sub("a.srt", 9), sub("b.srt", 9), sub("c.srt", 1)];
    let v = prepare_candidates(&entries, &None, SortStrategy::Size).unwrap();
    let i = pick_index(&v, SelectionStrategy::Size, SortStrategy::Size, 0);
    assert_eq!(i, v.len() - 1);
    assert_eq!(v[i].size, 9);
    assert_eq!(v[i].name, "b.srt");
}

#[test]
fn manual_strategy_picks_the_users_choice() {
    let entries = vec![sub("a.srt", 1), sub("b.srt", 2), sub("c.srt", 3)];
    let v = prepare_candidates(&entries, &None, SortStrategy::Alphabetical).unwrap();
    let i = pick_index(&v, SelectionStrategy::Manual, SortStrategy::Alphabetical, 1);
    assert_eq!(v[i].name, "b.srt");
}

#[test]
fn no_candidates_is_reported() {
    let entries = vec![sub("readme.txt", 1)];
    assert!(matches!(
        prepare_candidates(&entries, &None, SortStrategy::Alphabetical),
        Err(SyncError::NoCandidates)
    ));
}

#[test]
fn keyword_filtering_everything_is_no_candidates() {
    let entries = vec![sub("movie.en.srt", 1), sub("movie.fr.srt", 2)];
    assert!(matches!(
        prepare_candidates(&entries, &Some("english".to_string()), SortStrategy::Alphabetical),
        Err(SyncError::NoCandidates)
    ));
}

#[test]
fn manual_labels_show_name_and_human_size() {
    let entries = vec![sub("a.srt", 2048), sub("b.srt", 10)];
    let labels = manual_labels(&entries);
    assert_eq!(labels.len(), 2);
    assert_eq!(
        labels[0],
        format!("a.srt ({})", humansize::format_size(2048u64, humansize::DECIMAL))
    );
    assert_eq!(
        labels[1],
        format!("b.srt ({})", humansize::format_size(10u64, humansize::DECIMAL))
    );
    assert_ne!(labels[0], "a.srt (2048)");
}

#[test]
fn sort_strategy_follows_selection_strategy() {
    assert_eq!(
        sort_for(SelectionStrategy::Alphabetical, SortStrategy::Size),
        SortStrategy::Alphabetical
    );
    assert_eq!(
        sort_for(SelectionStrategy::Size, SortStrategy::Alphabetical),
        SortStrategy::Size
    );
    assert_eq!(
        sort_for(SelectionStrategy::Manual, SortStrategy::Size),
        SortStrategy::Size
    );
}

#[test]
fn strategy_labels() {
    assert_eq!(SelectionStrategy::Alphabetical.label(), "First alphabetical");
    assert_eq!(SelectionStrategy::Size.label(), "Largest");
    assert_eq!(SelectionStrategy::Manual.label(), "Manually select");
}

use cp_with_usrbio::path::FilePath;
use cp_with_usrbio::path_set::PathSet;
use cp_with_usrbio::progress::{
    decide_beginning, resume_enabled, timestamp, Beginning, LoadOutcome, ProgressManager,
    ProgressState,
};

fn path(text: &str) -> FilePath {
    FilePath::from_text(text)
}

fn manager(found: LoadOutcome) -> ProgressManager {
    ProgressManager::new_at(path("/data"), path("/3fs/t"), 200, true, found, 1000)
}

#[test]
fn sets_hold_each_path_once() {
    let mut set = PathSet::new();
    for name in ["a", "b", "a", "c"] {
        set.insert(name.to_string());
    }
    assert_eq!(set.len(), 3);
    set.remove("b");
    set.remove("x");
    assert!(set.contains("a") && !set.contains("b"));
    let mut listed = set.to_vec();
    listed.sort();
    assert_eq!(listed, vec!["a", "c"]);
    set.clear();
    assert_eq!(set.len(), 0);
    assert!(!set.contains("a"));
}

#[test]
fn progress_file_lies_below_the_target() {
    let file = ProgressState::get_progress_file_path(&path("/3fs/backup"));
    assert_eq!(file.text(), "/3fs/backup/.cp-with-usrbio-progress.json");
}

#[test]
fn state_remembers_what_is_marked() {
    let mut state = ProgressState::new_at(path("/data"), path("/3fs"), 3, 100);
    assert_eq!((state.created_at, state.updated_at, state.total_files), (100, 100, 3));
    state.mark_completed_at("a".to_string(), 101);
    state.mark_failed_at("b".to_string(), 105);
    assert!(state.is_completed("a"));
    assert!(!state.is_completed("b"));
    assert_eq!(state.failed_files.to_vec(), vec!["b"]);
    assert_eq!((state.created_at, state.updated_at), (100, 105));
}

#[test]
fn state_takes_the_time_from_the_clock() {
    let mut state = ProgressState::new(path("/data"), path("/3fs"), 1);
    assert!(state.created_at > 1_600_000_000);
    assert_eq!(state.created_at, state.updated_at);
    state.updated_at = 0;
    state.mark_completed("a".to_string());
    assert!(state.updated_at >= state.created_at);
    state.updated_at = 0;
    state.mark_failed("b".to_string());
    assert!(state.updated_at >= state.created_at);
    assert_eq!(timestamp(None), 0);
    assert_eq!(timestamp(Some(17)), 17);
}

#[test]
fn progress_is_kept_for_more_than_a_hundred_files() {
    assert!(!resume_enabled(100, true));
    assert!(resume_enabled(101, true));
    assert!(!resume_enabled(1000, false));
    let mut off = ProgressManager::new(path("/data"), path("/3fs"), 100, true, LoadOutcome::Absent);
    assert!(!off.enabled());
    assert!(off.save().is_none());
    assert_eq!(off.get_stats(), None);
    assert!(!off.mark_completed("a".to_string()));
    assert!(!off.mark_failed("b".to_string()));
    off.update_total_files(7);
    off.remove_from_failed("b");
    off.clear_failed_files();
    assert!(off.get_failed_files().is_empty());
    assert!(off.should_process("a", true));
    assert!(off.file_to_check("a").is_none());
}

#[test]
fn copy_begins_according_to_what_is_found() {
    let decide = |found: LoadOutcome| {
        decide_beginning(&path("/data"), &path("/3fs/t"), 200, true, &found)
    };
    let state = |source: &str, target: &str| {
        LoadOutcome::Loaded(ProgressState::new_at(path(source), path(target), 150, 1))
    };
    assert_eq!(decide(LoadOutcome::Absent), Beginning::Fresh);
    assert_eq!(decide(LoadOutcome::Unreadable), Beginning::Unreadable);
    assert_eq!(decide(state("/data/", "/3fs//t")), Beginning::Resumed);
    assert_eq!(decide(state("/data2", "/3fs/t")), Beginning::OtherPaths);
    assert_eq!(decide(state("/data", "/3fs")), Beginning::OtherPaths);
    assert_eq!(
        decide_beginning(&path("/data"), &path("/3fs/t"), 100, true, &LoadOutcome::Absent),
        Beginning::Untracked
    );
}

#[test]
fn progress_is_saved_every_tenth_file() {
    let mut keeper = manager(LoadOutcome::Absent);
    let mut saves = Vec::new();
    for i in 0..25 {
        let name = format!("f{}", i);
        let due = if i % 2 == 0 {
            keeper.mark_completed_at(name, 2000)
        } else {
            keeper.mark_failed_at(name, 2000)
        };
        if due {
            saves.push(i);
        }
    }
    assert_eq!(saves, vec![9, 19]);
    assert_eq!(keeper.get_stats(), Some((13, 12, 200)));
    keeper.update_total_files(25);
    assert_eq!(keeper.get_stats(), Some((13, 12, 25)));
}

#[test]
fn saved_progress_is_resumed() {
    let mut keeper = manager(LoadOutcome::Absent);
    keeper.mark_completed("d/a".to_string());
    keeper.mark_failed("b".to_string());
    let (file, state) = keeper.save().unwrap();
    assert_eq!(file.text(), "/3fs/t/.cp-with-usrbio-progress.json");
    assert_eq!(state.created_at, 1000);
    let mut saved = ProgressState::new_at(
        state.source.duplicate(),
        state.target.duplicate(),
        state.total_files,
        state.created_at,
    );
    for name in state.completed_files.to_vec() {
        saved.mark_completed_at(name, state.updated_at);
    }
    for name in state.failed_files.to_vec() {
        saved.mark_failed_at(name, state.updated_at);
    }
    let again = manager(LoadOutcome::Loaded(saved));
    assert_eq!(again.get_stats(), Some((1, 1, 200)));
    assert_eq!(again.get_failed_files(), vec!["b"]);
    assert_eq!(again.file_to_check("d/a").unwrap().text(), "/3fs/t/d/a");
    assert!(again.file_to_check("b").is_none());
    assert!(!again.should_process("d/a", true));
    assert!(again.should_process("d/a", false));
    assert!(again.should_process("b", true));
}

#[test]
fn last_attempt_counts() {
    let mut keeper = manager(LoadOutcome::Absent);
    keeper.mark_failed("a".to_string());
    keeper.mark_failed("b".to_string());
    keeper.mark_completed("a".to_string());
    keeper.remove_from_failed("a");
    assert_eq!(keeper.get_failed_files(), vec!["b"]);
    assert!(!keeper.should_process("a", true));
    keeper.clear_failed_files();
    assert!(keeper.get_failed_files().is_empty());
}

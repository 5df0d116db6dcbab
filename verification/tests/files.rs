use cp_with_usrbio::path::FilePath;
use cp_with_usrbio::task::{
    collect_tasks, copy_of, make_single_task, plan_entry, plan_source, repeat_task, verify_files, CopyStats,
    EntryKind, EntryPlan, FileProbe, SourceKind, SourcePlan, TargetProbe, TaskError, TaskWalk,
    Verification, WalkEntry,
};
use cp_with_usrbio::utils::get_filesystem_block_size;

fn path(text: &str) -> FilePath {
    FilePath::from_text(text)
}

fn below(text: &str, base: &str) -> Option<String> {
    path(text).strip_prefix(&path(base)).map(|rest| rest.text())
}

#[test]
fn paths_are_joined() {
    assert_eq!(path("/3fs").join(&path("a/b")).text(), "/3fs/a/b");
    assert_eq!(path("/3fs/").join(&path("a")).text(), "/3fs/a");
    assert_eq!(path("").join(&path("a")).text(), "a");
    assert_eq!(path("/3fs").join(&path("/etc")).text(), "/etc");
    assert_eq!(path("/3fs").join(&path("")).text(), "/3fs/");
}

#[test]
fn prefixes_are_stripped() {
    assert_eq!(below("/data/x/y.txt", "/data"), Some("x/y.txt".to_string()));
    assert_eq!(below("/data//x/./y/", "/data/"), Some("x/./y".to_string()));
    assert_eq!(below("/data", "/data"), Some("".to_string()));
    assert_eq!(below("/database", "/data"), None);
    assert_eq!(below("data/x", "/data"), None);
    assert_eq!(below("./a/b", "."), Some("a/b".to_string()));
    assert_eq!(below("a/b", "."), None);
    assert_eq!(below("/a", ""), Some("/a".to_string()));
    assert_eq!(below("/data/../x", "/data"), Some("../x".to_string()));
}

#[test]
fn paths_behave_like_those_of_the_standard_library() {
    let names = [
        "", ".", "..", "/", "//", "/.", "./", "./.", "a", "a/", "a/.", "./a", "a/b", "a//b", "/a",
        "//a", "/a/./b/", "/a/b", "/a//b//", "../a", "a/..", "/..", ".a", "a/./", "./a/./b/.",
    ];
    for a in names {
        let p = std::path::Path::new(a);
        let name = p.file_name().and_then(|n| n.to_str()).unwrap_or("unknown");
        assert_eq!(path(a).file_name_text(), name);
        let parent = p.parent().map(|q| q.to_str().unwrap().to_string());
        assert_eq!(path(a).parent().map(|q| q.text()), parent);
        let around: Vec<String> =
            p.ancestors().map(|q| q.to_str().unwrap().to_string()).collect();
        let found: Vec<String> = path(a).ancestors().iter().map(|q| q.text()).collect();
        assert_eq!(found, around);
        for b in names {
            let q = std::path::Path::new(b);
            assert_eq!(path(a).same_as(&path(b)), p == q);
            assert_eq!(path(a).join(&path(b)).text(), p.join(q).to_str().unwrap());
            let rest = p.strip_prefix(q).ok().map(|r| r.to_str().unwrap().to_string());
            assert_eq!(below(a, b), rest);
        }
    }
}

#[test]
fn paths_are_compared_by_components() {
    assert!(path("/a/b/").same_as(&path("/a//b")));
    assert!(path("/a/./b").same_as(&path("/a/b")));
    assert!(!path("./a").same_as(&path("a")));
    assert!(!path("/a").same_as(&path("a")));
    assert!(!path("/a/b").same_as(&path("/a")));
}

#[test]
fn file_names_are_text_or_unknown() {
    assert_eq!(path("/data/file.txt").file_name_text(), "file.txt");
    assert_eq!(path("/data/dir/").file_name_text(), "dir");
    assert_eq!(path("/data/.").file_name_text(), "data");
    assert_eq!(path("/data/..").file_name_text(), "unknown");
    assert_eq!(path("/").file_name_text(), "unknown");
    assert_eq!(path("").file_name_text(), "unknown");
    let odd = FilePath::from_bytes(vec![b'/', b'a', 0xff]);
    assert_eq!(odd.file_name_text(), "unknown");
    assert_eq!(odd.text(), "unknown");
    assert_eq!(path("/数据/文件").file_name_text(), "文件");
}

#[test]
fn relative_paths_lead_back() {
    for text in ["/data/a", "/data//a/./b/", "/data/数据", "/data"] {
        let rest = path(text).strip_prefix(&path("/data/")).unwrap();
        assert!(path("/data").join(&rest).same_as(&path(text)));
    }
}

fn entry(text: &str, kind: EntryKind, size: Option<u64>) -> WalkEntry {
    WalkEntry { path: path(text), kind, size }
}

#[test]
fn sources_are_files_or_allowed_directories() {
    assert_eq!(plan_source(SourceKind::File, false), Ok(SourcePlan::Single));
    assert_eq!(plan_source(SourceKind::Directory, true), Ok(SourcePlan::Walk));
    assert_eq!(plan_source(SourceKind::Directory, false), Err(TaskError::NotRecursive));
    assert_eq!(plan_source(SourceKind::Missing, true), Err(TaskError::SourceMissing));
    assert_eq!(
        TaskError::NotRecursive.message(),
        "Source is a directory, but --recursive flag is not set"
    );
    assert_eq!(TaskError::SourceMissing.message(), "Source path does not exist");
    assert_eq!(TaskError::OutsideSource.message(), "prefix not found");
    assert_eq!(TaskError::SourceUnreadable.message(), "Failed to get metadata");
    assert_eq!(TaskError::TargetUnreadable.message(), "Failed to get metadata");
}

#[test]
fn single_file_goes_to_the_target_itself() {
    let task = make_single_task(&path("/data/a.bin"), &path("/3fs/b.bin"), 42);
    assert_eq!(task.src_path.text(), "/data/a.bin");
    assert_eq!(task.dst_path.text(), "/3fs/b.bin");
    assert_eq!(task.file_size, 42);
    assert_eq!(task.relative_path, "a.bin");
}

#[test]
fn tasks_are_collected_in_order() {
    let entries = vec![
        entry("/data", EntryKind::Directory, Some(4096)),
        entry("/data/a", EntryKind::File, Some(1)),
        entry("/data/link", EntryKind::Other, Some(9)),
        entry("/data/d", EntryKind::Directory, None),
        entry("/data/d/b", EntryKind::File, Some(2)),
    ];
    let tasks = collect_tasks(
        &path("/data"),
        &path("/3fs/t"),
        SourceKind::Directory,
        true,
        None,
        &entries,
    );
    let tasks = match tasks {
        Ok(tasks) => tasks,
        Err(_) => panic!("every file can be copied"),
    };
    assert_eq!(tasks.len(), 2);
    assert_eq!(tasks[0].dst_path.text(), "/3fs/t/a");
    assert_eq!(tasks[1].src_path.text(), "/data/d/b");
    assert_eq!(tasks[1].dst_path.text(), "/3fs/t/d/b");
    assert_eq!(tasks[1].relative_path, "d/b");
    assert_eq!(tasks[1].file_size, 2);
}

#[test]
fn collecting_stops_at_the_first_error() {
    let collect = |entries: Vec<WalkEntry>| {
        collect_tasks(
            &path("/data"),
            &path("/3fs"),
            SourceKind::Directory,
            true,
            None,
            &entries,
        )
        .err()
    };
    assert_eq!(
        collect(vec![
            entry("/data/a", EntryKind::File, None),
            entry("/other", EntryKind::File, Some(1)),
        ]),
        Some(TaskError::SourceUnreadable)
    );
    assert_eq!(
        collect(vec![entry("/other", EntryKind::File, None)]),
        Some(TaskError::OutsideSource)
    );
    assert_eq!(collect(vec![entry("/other", EntryKind::Directory, None)]), None);
    let single = |size| {
        collect_tasks(
            &path("/data/x"),
            &path("/3fs/y"),
            SourceKind::File,
            false,
            size,
            &vec![],
        )
    };
    assert_eq!(single(None).err(), Some(TaskError::SourceUnreadable));
    assert_eq!(single(Some(3)).ok().map(|tasks| tasks.len()), Some(1));
}

#[test]
fn walk_plans_and_counts() {
    let mut walk = TaskWalk::new(&path("/data"), &path("/3fs"));
    match walk.plan(&entry("/data/d", EntryKind::Directory, None)) {
        Ok(EntryPlan::CreateDirectory { path }) => assert_eq!(path.text(), "/3fs/d"),
        _ => panic!("a directory is made again"),
    }
    let copy = |text: &str| {
        copy_of(&path(text), &path("/data"), &path("/3fs")).map(|place| place.text())
    };
    assert_eq!(copy("/data/d/b"), Some("/3fs/d/b".to_string()));
    assert_eq!(copy("/elsewhere"), None);
    assert!(matches!(
        walk.plan(&entry("/elsewhere", EntryKind::Other, None)),
        Ok(EntryPlan::Skip)
    ));
    assert!(matches!(
        plan_entry(
            &entry("/elsewhere", EntryKind::Directory, None),
            &path("/data"),
            &path("/3fs")
        ),
        Err(TaskError::OutsideSource)
    ));
    let mut reports = 0;
    for _ in 0..250 {
        assert!(walk.can_count(3));
        if walk.sent(3) {
            reports += 1;
        }
    }
    assert_eq!(reports, 2);
    assert_eq!(walk.totals(), (250, 750));
    assert!(!walk.can_count(u64::MAX));
}

#[test]
fn repeated_task_is_known_by_its_name() {
    let task = repeat_task(&path("/data"), &path("/3fs"), "d/数据".to_string());
    assert_eq!(task.src_path.text(), "/data/d/数据");
    assert_eq!(task.dst_path.text(), "/3fs/d/数据");
    assert_eq!(task.file_size, 0);
    assert_eq!(task.relative_path, "d/数据");
}

fn probe(text: &str, source_size: Option<u64>, target: TargetProbe) -> FileProbe {
    FileProbe { path: path(text), source_size, target }
}

#[test]
fn comparison_lists_what_is_wrong() {
    let probes = vec![
        probe("/data/same", Some(5), TargetProbe::Size(5)),
        probe("/data/gone", Some(7), TargetProbe::Missing),
        probe("/data/d/short", Some(11), TargetProbe::Size(10)),
        probe("/data/unreadable", None, TargetProbe::Missing),
        probe("/data/hidden", Some(13), TargetProbe::Unreadable),
    ];
    let single = (None, TargetProbe::Missing);
    let result = verify_files(&path("/data"), SourceKind::Directory, true, single, &probes);
    let result = match result {
        Ok(result) => result,
        Err(_) => panic!("the files can be compared"),
    };
    assert_eq!(result.missing_files, vec!["gone"]);
    assert_eq!(result.size_mismatch, vec!["d/short"]);
    assert_eq!(result.total_checked, 5);
    assert_eq!(result.total_bytes, 36);
    assert_eq!(result.total_issues, 2);
    assert_eq!(result.files_to_retransmit(), vec!["gone", "d/short"]);

    let mut run = Verification::new(&path("/data"));
    assert!(run.can_count(&probes[0]));
    assert_eq!(run.check(&probes[0]), Ok(()));
    assert_eq!(
        run.check(&probe("/x", Some(1), TargetProbe::Missing)),
        Err(TaskError::OutsideSource)
    );
    let result = run.finish();
    assert_eq!((result.total_checked, result.total_issues), (1, 0));
}

#[test]
fn comparison_of_a_single_file() {
    let check = |size, target| {
        verify_files(
            &path("/data/x.bin"),
            SourceKind::File,
            false,
            (size, target),
            &vec![],
        )
    };
    assert_eq!(
        check(None, TargetProbe::Missing).err(),
        Some(TaskError::SourceUnreadable)
    );
    assert_eq!(
        check(Some(3), TargetProbe::Unreadable).err(),
        Some(TaskError::TargetUnreadable)
    );
    let missing = check(Some(3), TargetProbe::Missing).ok().unwrap();
    assert_eq!(missing.missing_files, vec!["x.bin"]);
    assert_eq!((missing.total_checked, missing.total_bytes), (1, 3));
    let other = check(Some(3), TargetProbe::Size(4)).ok().unwrap();
    assert_eq!(other.size_mismatch, vec!["x.bin"]);
    let same = check(Some(3), TargetProbe::Size(3)).ok().unwrap();
    assert_eq!(same.total_issues, 0);
    assert_eq!(
        verify_files(
            &path("/data"),
            SourceKind::Directory,
            false,
            (None, TargetProbe::Missing),
            &vec![]
        )
        .err(),
        Some(TaskError::NotRecursive)
    );
}

#[test]
fn statistics_begin_at_zero() {
    assert_eq!(
        CopyStats::new(),
        CopyStats { files_copied: 0, bytes_copied: 0, files_failed: 0 }
    );
}

fn block_size(text: &str, sizes: Vec<Option<u64>>) -> usize {
    assert_eq!(path(text).ancestors().len(), sizes.len());
    get_filesystem_block_size(&path(text), &sizes)
}

#[test]
fn block_size_is_the_first_that_makes_sense() {
    let most = 16 * 1024 * 1024;
    assert_eq!(block_size("/a", vec![Some(4096), Some(8192)]), 4096);
    assert_eq!(block_size("/a/b", vec![None, Some(512), Some(most)]), most as usize);
    assert_eq!(block_size("/", vec![Some(most + 1)]), 1048576);
    assert_eq!(block_size("a", vec![None, Some(8192)]), 8192);
    assert_eq!(block_size("", vec![None]), 1048576);
    assert_eq!(block_size("a\0b", vec![Some(4096), Some(4096)]), 1048576);
    let odd = FilePath::from_bytes(vec![0xff]);
    assert_eq!(
        get_filesystem_block_size(&odd, &vec![Some(4096), Some(4096)]),
        1048576
    );
}

#[test]
fn sending_and_collecting_give_the_same_tasks() {
    let entries = vec![
        entry("/data", EntryKind::Directory, None),
        entry("/data/a", EntryKind::File, Some(1)),
        entry("/data/link", EntryKind::Other, None),
        entry("/data/d/b", EntryKind::File, Some(2)),
    ];
    let (source, target) = (path("/data"), path("/3fs/t"));
    let collected =
        collect_tasks(&source, &target, SourceKind::Directory, true, None, &entries).ok().unwrap();
    let walk = TaskWalk::new(&source, &target);
    let mut sent = Vec::new();
    for found in &entries {
        if let Ok(EntryPlan::Copy { task }) = walk.plan(found) {
            sent.push(task);
        }
    }
    assert_eq!(sent.len(), collected.len());
    for (a, b) in sent.iter().zip(&collected) {
        assert_eq!(a.src_path.text(), b.src_path.text());
        assert_eq!(a.dst_path.text(), b.dst_path.text());
        assert_eq!(a.file_size, b.file_size);
        assert_eq!(a.relative_path, b.relative_path);
    }
}

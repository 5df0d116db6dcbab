use cp_with_usrbio::copier::{CopierPlan, USRBIOCopier};
use cp_with_usrbio::path::FilePath;
use cp_with_usrbio::session::{
    after_verification, answer_retransmit, check_parameters, plan_memory, required_places,
    shown_lines, CopyRounds, RoundEnd, RoundStart, SessionError, VerifyStep,
};
use cp_with_usrbio::shm_manager::{
    check_shm_space, cleanup_stale_shm, get_shm_available_space, get_shm_usage, get_total_shm_size,
    iov_link_path, new_iov_link_path, shm_file_path, show_shm_status, status_fits, tally_cleanup, ShmEntry,
    ShmError, ShmManager, SpaceStats,
};
use cp_with_usrbio::task::{repeat_task, CopyStats, CopyTask};
use cp_with_usrbio::text::is_affirmative;
use cp_with_usrbio::worker_context::{WorkerContext, WorkerReport, WorkerStep};

#[test]
fn answers_are_understood() {
    for answer in ["", "\n", "y", "Y\n", " yes ", "YES", "yEs\r\n", "\u{3000}y\t"] {
        assert!(is_affirmative(answer));
    }
    for answer in ["n", "no", "ye", "yess", "y y", "ja", "ｙ"] {
        assert!(!is_affirmative(answer));
    }
}

#[test]
fn places_are_required() {
    let some = |text: &str| Some(FilePath::from_text(text));
    let mount = || Some("/3fs".to_string());
    assert_eq!(
        required_places(None, None, None).err(),
        Some(SessionError::NoSource)
    );
    assert_eq!(
        required_places(some("/a"), None, mount()).err(),
        Some(SessionError::NoTarget)
    );
    assert_eq!(
        required_places(some("/a"), some("/b"), None).err(),
        Some(SessionError::NoMountPoint)
    );
    let places = required_places(some("/a"), some("/b"), mount()).ok().unwrap();
    assert_eq!(places.source.text(), "/a");
    assert_eq!(places.target.text(), "/b");
    assert_eq!(places.mount_point, "/3fs");
}

#[test]
fn parameters_are_checked_in_order() {
    assert_eq!(check_parameters(true, 2, 8, true), Ok(()));
    assert_eq!(check_parameters(false, 0, 0, false), Err(SessionError::SourceMissing));
    assert_eq!(
        check_parameters(true, 0, 0, false),
        Err(SessionError::DepthTooSmall { depth: 0 })
    );
    assert_eq!(
        check_parameters(true, 1, 0, false),
        Err(SessionError::MaxDepthTooSmall { depth: 0 })
    );
    assert_eq!(check_parameters(true, 1, 1, false), Err(SessionError::RatioOutOfRange));
}

#[test]
fn memory_is_divided_among_the_workers() {
    let gib: u64 = 1 << 30;
    let mib: usize = 1 << 20;
    assert_eq!(plan_memory(60 * gib, 64 * gib, 4, mib, 2, 8), Ok(15 << 30));
    assert_eq!(plan_memory(60 * gib, 8 * gib, 4, mib, 2, 8), Ok(2 << 30));
    assert_eq!(plan_memory(10, 10, 3, 3, 1, 1), Ok(3));
    assert_eq!(plan_memory(0, 0, 4, mib, 1, 1), Ok(mib));
    assert_eq!(plan_memory(gib, gib, 0, mib, 2, 8), Err(SessionError::NoWorkers));
    assert_eq!(
        plan_memory(16 << 20, gib, 4, mib, 5, 8),
        Err(SessionError::DepthTooLarge { depth: 5, allowed: 4 })
    );
    assert_eq!(
        plan_memory(16 << 20, gib, 4, mib, 4, 8),
        Err(SessionError::MaxDepthTooLarge { depth: 8, allowed: 4 })
    );
    for workers in 1..9usize {
        if let Ok(iov) = plan_memory(100, 90, workers, 7, 1, 2) {
            assert!(2 * 7 <= iov);
            assert!(iov * workers <= 90);
        }
    }
}

#[test]
fn session_errors_have_their_words() {
    let text = |error: SessionError| error.message();
    assert_eq!(
        text(SessionError::NoSource),
        "--source is required when not using --shm-status"
    );
    assert_eq!(
        text(SessionError::NoTarget),
        "--target is required when not using --shm-status"
    );
    assert_eq!(
        text(SessionError::NoMountPoint),
        "--mount-point is required when not using --shm-status"
    );
    assert_eq!(text(SessionError::SourceMissing), "Source path does not exist: ");
    assert_eq!(
        text(SessionError::DepthTooSmall { depth: 0 }),
        "pipeline_depth must be at least 1, got 0"
    );
    assert_eq!(
        text(SessionError::MaxDepthTooSmall { depth: 0 }),
        "max_pipeline_depth must be at least 1, got 0"
    );
    assert_eq!(
        text(SessionError::RatioOutOfRange),
        "shm_usage_ratio must be between 0.0 and 1.0, got "
    );
    assert_eq!(text(SessionError::NoWorkers), "workers must be at least 1");
    assert_eq!(
        text(SessionError::DepthTooLarge { depth: 16, allowed: 8 }),
        "pipeline_depth (16) exceeds maximum depth (8) allowed by iov_size_per_worker/block_size ratio.\n\
         Try: reduce --workers or increase --shm-usage-ratio"
    );
    assert_eq!(
        text(SessionError::MaxDepthTooLarge { depth: 16, allowed: 8 }),
        "max_pipeline_depth (16) exceeds maximum depth (8) allowed by iov_size_per_worker/block_size ratio.\n\
         Try: reduce --workers or increase --shm-usage-ratio"
    );
    assert_eq!(
        text(SessionError::NotRetransmitted { issues: 12 }),
        "Found 12 inconsistent files, user chose not to retransmit"
    );
    assert_eq!(text(SessionError::Interrupted), "Copy interrupted by user (Ctrl+C)");
    assert_eq!(
        text(SessionError::FilesFailed { files: 3, attempts: 2 }),
        "3 files failed to copy after 2 retry attempts"
    );
}

#[test]
fn comparison_is_followed_by_the_right_step() {
    assert_eq!(after_verification(0, false), VerifyStep::Done);
    assert_eq!(after_verification(0, true), VerifyStep::Done);
    assert_eq!(after_verification(3, true), VerifyStep::Retransmit);
    assert_eq!(after_verification(3, false), VerifyStep::Ask);
    assert_eq!(answer_retransmit(3, "yes\n"), Ok(()));
    assert_eq!(
        answer_retransmit(3, "n\n"),
        Err(SessionError::NotRetransmitted { issues: 3 })
    );
    assert_eq!(shown_lines(25, 20), (20, 5));
    assert_eq!(shown_lines(20, 20), (20, 0));
}

#[test]
fn files_are_gone_through_three_times() {
    let mut rounds = CopyRounds::new();
    assert_eq!(rounds.begin(0), RoundStart::NothingToCopy);
    assert_eq!(rounds.begin(5), RoundStart::Working);
    assert_eq!(rounds.end(true, 5), RoundEnd::Interrupted);
    assert_eq!(rounds.end(false, 0), RoundEnd::Complete);
    assert_eq!(rounds.end(false, 2), RoundEnd::Ask);
    assert!(rounds.answered("\n"));
    assert_eq!(rounds.begin(0), RoundStart::NothingToRetry);
    assert_eq!(rounds.end(false, 2), RoundEnd::Ask);
    assert!(!rounds.answered("no\n"));
    assert_eq!(rounds.retry_count(), 1);
    assert!(rounds.answered("y\n"));
    assert_eq!(rounds.end(false, 2), RoundEnd::Exhausted);
    assert_eq!(rounds.outcome(0), Ok(()));
    assert_eq!(
        rounds.outcome(2),
        Err(SessionError::FilesFailed { files: 2, attempts: 2 })
    );
}

fn task(name: &str) -> CopyTask {
    let place = FilePath::from_text("/p");
    repeat_task(&place, &place, name.to_string())
}

/// What a step is called, and the file of its task.
fn name_of(step: &WorkerStep) -> String {
    match step {
        WorkerStep::Receive => "receive".to_string(),
        WorkerStep::Sleep { millis } => format!("sleep {}", millis),
        WorkerStep::Consult { task } => format!("consult {}", task.relative_path),
        WorkerStep::Recheck { task } => format!("recheck {}", task.relative_path),
        WorkerStep::Copy { task } => format!("copy {}", task.src_path.text()),
        WorkerStep::MarkCompleted { task } => format!("completed {}", task.relative_path),
        WorkerStep::MarkFailed { task } => format!("failed {}", task.relative_path),
        WorkerStep::Stop { interrupted } => format!("stop {}", interrupted),
    }
}

fn steps(reports: Vec<WorkerReport>) -> Vec<String> {
    let mut step = WorkerStep::first();
    let mut names = vec![name_of(&step)];
    for report in reports {
        step = step.next(report);
        names.push(name_of(&step));
    }
    names
}

#[test]
fn worker_accounts_for_its_task() {
    assert_eq!(
        steps(vec![
            WorkerReport::NoTask,
            WorkerReport::Done,
            WorkerReport::Task { task: task("a") },
            WorkerReport::Wanted,
            WorkerReport::Running,
            WorkerReport::Copied,
            WorkerReport::Done,
            WorkerReport::Task { task: task("b") },
            WorkerReport::Unwanted,
            WorkerReport::Closed
        ]),
        vec![
            "receive",
            "sleep 10",
            "receive",
            "consult a",
            "recheck a",
            "copy /p/a",
            "completed a",
            "receive",
            "consult b",
            "receive",
            "stop false"
        ]
    );
    assert_eq!(
        steps(vec![
            WorkerReport::Task { task: task("c") },
            WorkerReport::Wanted,
            WorkerReport::Running,
            WorkerReport::NotCopied,
            WorkerReport::Done,
            WorkerReport::Task { task: task("d") },
            WorkerReport::Wanted,
            WorkerReport::Interrupted
        ])[4..],
        ["failed c", "receive", "consult d", "recheck d", "stop true"]
    );
    assert_eq!(
        steps(vec![WorkerReport::Interrupted]),
        vec!["receive", "stop false"]
    );
}

const STATS: SpaceStats = SpaceStats {
    block_size: 4096,
    blocks: 1000,
    available_blocks: 600,
};

#[test]
fn space_is_counted_in_bytes() {
    assert!(STATS.sound());
    assert_eq!(get_total_shm_size(Some(STATS)), Ok(4096000));
    assert_eq!(get_shm_available_space(Some(STATS)), Ok(2457600));
    assert_eq!(get_shm_usage(Some(STATS)), Ok((4096000, 1638400)));
    assert_eq!(get_total_shm_size(None), Err(ShmError::NoStats));
    assert_eq!(get_shm_available_space(None), Err(ShmError::NoStats));
    assert_eq!(get_shm_usage(None), Err(ShmError::NoStats));
    let odd = SpaceStats { available_blocks: 1001, ..STATS };
    assert!(!odd.sound());
    assert!(odd.total_fits() && odd.available_fits());
    assert_eq!(get_total_shm_size(Some(odd)), Ok(4096000));
    assert_eq!(get_shm_available_space(Some(odd)), Ok(4100096));
    assert!(!SpaceStats { block_size: u64::MAX, ..STATS }.total_fits());
    assert!(!SpaceStats { block_size: u64::MAX, ..STATS }.available_fits());
    assert!(!SpaceStats { block_size: u64::MAX, ..STATS }.sound());
    assert_eq!(
        ShmError::NoStats.message(),
        "Failed to get /dev/shm filesystem stats"
    );
}

#[test]
fn shortage_of_space_is_told() {
    assert_eq!(check_shm_space(Some(STATS), 2457600), Ok(()));
    let error = ShmError::Insufficient {
        total: 4096000,
        used: 1638400,
        available: 2457600,
        shortage: 1,
    };
    assert_eq!(check_shm_space(Some(STATS), 2457601), Err(error));
    assert_eq!(error.message(), "Insufficient /dev/shm space!");
    assert_eq!(check_shm_space(None, 1), Err(ShmError::NoStats));
    assert_eq!(ShmManager::new(1 << 30, Some(STATS), 2457601).err(), Some(error));
}

const ID: [u8; 16] = [
    0x93, 0x6d, 0xa0, 0x1f, 0x9a, 0xbd, 0x4d, 0x9d, 0x80, 0xc7, 0x02, 0xaf, 0x85, 0xc8, 0x22, 0xa8,
];

#[test]
fn memory_and_links_are_named_by_identifiers() {
    let manager = ShmManager::with_id(8192, ID);
    assert_eq!(manager.shm_id(), "cp_usrbio_936da01f9abd4d9d80c702af85c822a8");
    assert_eq!(manager.len(), 8192);
    assert_eq!(
        iov_link_path("/3fs//", ID),
        "/3fs/3fs-virt/iovs/936da01f-9abd-4d9d-80c7-02af85c822a8"
    );
    assert_eq!(
        iov_link_path("/", ID),
        "/3fs-virt/iovs/936da01f-9abd-4d9d-80c7-02af85c822a8"
    );
}

#[test]
fn new_memory_gets_a_name_of_its_own() {
    let a = ShmManager::new(4096, Some(STATS), 4096).ok().unwrap();
    let b = ShmManager::new(4096, Some(STATS), 4096).ok().unwrap();
    assert_eq!(a.shm_id().len(), "cp_usrbio_".len() + 32);
    assert!(a.shm_id() != b.shm_id());
    assert_eq!(&a.shm_id()[22..23], "4");
    assert!(["8", "9", "a", "b"].contains(&&a.shm_id()[26..27]));
    let link = new_iov_link_path("/3fs/");
    assert!(link.starts_with("/3fs/3fs-virt/iovs/"));
    assert_eq!(link.len(), "/3fs/3fs-virt/iovs/".len() + 36);
}

#[test]
fn files_of_memory_are_found() {
    assert_eq!(shm_file_path("/cp_usrbio_w0"), "/dev/shm/cp_usrbio_w0");
    assert_eq!(shm_file_path("cp_usrbio_w0"), "/dev/shm/cp_usrbio_w0");
    assert_eq!(shm_file_path(""), "/dev/shm/");
}

#[test]
fn leftovers_are_cleaned_up() {
    let worker = WorkerContext::new(12, "/3fs".to_string(), 1, 1, 1, 1, false, false);
    let names: Vec<String> = vec![
        worker.shm_id(),
        "sem.x".to_string(),
        "cp_usrbio.old".to_string(),
        "cp_usrbio".to_string(),
        ShmManager::with_id(1, ID).shm_id().to_string(),
    ];
    assert_eq!(
        cleanup_stale_shm(names),
        vec![
            "cp_usrbio_w12",
            "cp_usrbio.old",
            "cp_usrbio_936da01f9abd4d9d80c702af85c822a8"
        ]
    );
    assert_eq!(tally_cleanup(&vec![true, false, true]), (2, 1));
}

#[test]
fn status_lists_what_belongs_to_copies() {
    let entry = |name: &str, size| ShmEntry {
        name: name.to_string(),
        size,
    };
    let status = show_shm_status(vec![
        entry("cp_usrbio_w0", Some(5)),
        entry("other", Some(100)),
        entry("cp_usrbio_w1", None),
        entry("cp_usrbio", Some(7)),
    ]);
    let names: Vec<&str> = status.files.iter().map(|file| file.name.as_str()).collect();
    assert_eq!(names, vec!["cp_usrbio_w0", "cp_usrbio"]);
    assert_eq!(status.total, 12);
    let full = |name: &str| {
        status_fits(&vec![entry("cp_usrbio_w0", Some(u64::MAX)), entry(name, Some(1))])
    };
    assert!(full("other"));
    assert!(!full("cp_usrbio_w1"));
}

fn copier(show_progress: bool, debug: bool) -> USRBIOCopier {
    USRBIOCopier::new(
        "/3fs".to_string(),
        10,
        2,
        8,
        100,
        CopyStats::new(),
        show_progress,
        true,
        debug,
    )
}

#[test]
fn copier_gives_each_file_a_buffer() {
    let copier = copier(true, false);
    assert_eq!(copier.calculate_iov_size(1), 10);
    assert_eq!(copier.calculate_iov_size(55), 55);
    assert_eq!(copier.calculate_iov_size(1000), 100);
    assert!(matches!(copier.copy_file(0), CopierPlan::Empty { set_permissions: true }));
    match copier.copy_file(55) {
        CopierPlan::Pipelined {
            iov_size,
            processor,
            set_permissions,
        } => {
            assert_eq!(iov_size, 55);
            assert_eq!(processor.mount_point(), "/3fs");
            assert_eq!(processor.calculate_pipeline_depth(55), 2);
            assert!(set_permissions);
        }
        CopierPlan::Empty { .. } => panic!("the file is not empty"),
    }
    assert!(copier.shows_progress());
    assert_eq!(copier.mount_point(), "/3fs");
}

#[test]
fn copier_counts() {
    let mut copier = copier(false, false);
    copier.count_bytes(7);
    copier.count_bytes(5);
    copier.finished(10, true);
    copier.finished(0, true);
    copier.finished(10, false);
    assert_eq!(
        copier.stats(),
        CopyStats { files_copied: 1, bytes_copied: 12, files_failed: 0 }
    );
}

#[test]
fn copier_talks_to_those_who_want_it() {
    assert_eq!(copier(true, true).log_debug("hello"), Some("[DEBUG] hello".to_string()));
    assert_eq!(copier(true, false).log_debug("hello"), None);
    assert_eq!(copier(false, true).log_debug("hello"), None);
    assert_eq!(
        copier(true, false).format_error("Failed to open source file", "Source path: x", "trace"),
        "Failed to open source file: Source path: x"
    );
    assert_eq!(
        copier(true, true).format_error("Failed to open source file", "Source path: x", "trace"),
        "Failed to open source file\n[DEBUG] Source path: x\nBacktrace:\ntrace"
    );
}

//! The files to copy, and the files that were found wrong at the target.

use crate::path::{
    below, components, has_file_name, joined, text_or_unknown, FilePath,
};
use crate::path_set::text_views;
use vstd::prelude::*;
use vstd::utf8::encode_utf8;

verus! {

/// One file that has to be copied.
pub struct CopyTask {
    pub src_path: FilePath,
    pub dst_path: FilePath,
    pub file_size: u64,
    /// The path below the source, by which the progress of the copy is kept.
    pub relative_path: String,
}

/// What a copy task says.
#[verifier::ext_equal]
pub struct TaskView {
    pub src_path: Seq<u8>,
    pub dst_path: Seq<u8>,
    pub file_size: int,
    pub relative_path: Seq<char>,
}

impl View for CopyTask {
    type V = TaskView;

    open spec fn view(&self) -> TaskView {
        TaskView {
            src_path: self.src_path@,
            dst_path: self.dst_path@,
            file_size: self.file_size as int,
            relative_path: self.relative_path@,
        }
    }
}

/// The views of the tasks.
pub open spec fn task_views(tasks: Seq<CopyTask>) -> Seq<TaskView> {
    tasks.map_values(|task: CopyTask| task@)
}

/// What a copy has done so far.
#[derive(Clone, Copy, Debug, PartialEq, Eq, Structural)]
pub struct CopyStats {
    pub files_copied: u64,
    pub bytes_copied: u64,
    pub files_failed: u64,
}

impl CopyStats {
    /// Nothing has been done.
    pub fn new() -> (r: Self)
        ensures
            r == (CopyStats { files_copied: 0, bytes_copied: 0, files_failed: 0 }),
    {
        CopyStats { files_copied: 0, bytes_copied: 0, files_failed: 0 }
    }
}

/// What is found at the place to copy from.
#[derive(Clone, Copy, Debug, PartialEq, Eq, Structural)]
pub enum SourceKind {
    File,
    Directory,
    Missing,
}

/// What a walk through a directory comes across.
#[derive(Clone, Copy, Debug, PartialEq, Eq, Structural)]
pub enum EntryKind {
    File,
    Directory,
    /// A link, a device and the like: nothing that is copied.
    Other,
}

/// Why the files to copy cannot be found out.
#[derive(Clone, Copy, Debug, PartialEq, Eq, Structural)]
pub enum TaskError {
    /// The source is neither a file nor a directory.
    SourceMissing,
    /// The source is a directory, and directories are not to be copied.
    NotRecursive,
    /// The walk came across something outside the source.
    OutsideSource,
    /// The size of a file at the source could not be read.
    SourceUnreadable,
    /// The size of the file at the target could not be read.
    TargetUnreadable,
}

impl TaskError {
    /// What the error says.
    pub open spec fn text(self) -> Seq<char> {
        match self {
            TaskError::SourceMissing => "Source path does not exist"@,
            TaskError::NotRecursive => "Source is a directory, but --recursive flag is not set"@,
            TaskError::OutsideSource => "prefix not found"@,
            TaskError::SourceUnreadable => "Failed to get metadata"@,
            TaskError::TargetUnreadable => "Failed to get metadata"@,
        }
    }

    /// What the error says.
    pub fn message(&self) -> (r: String)
        ensures
            r@ == self.text(),
    {
        match self {
            TaskError::SourceMissing => "Source path does not exist".to_owned(),
            TaskError::NotRecursive => {
                "Source is a directory, but --recursive flag is not set".to_owned()
            },
            TaskError::OutsideSource => "prefix not found".to_owned(),
            TaskError::SourceUnreadable => "Failed to get metadata".to_owned(),
            TaskError::TargetUnreadable => "Failed to get metadata".to_owned(),
        }
    }
}

/// What is to be done with a source.
#[derive(Clone, Copy, Debug, PartialEq, Eq, Structural)]
pub enum SourcePlan {
    /// It is the only file.
    Single,
    /// Its files are found by a walk.
    Walk,
}

/// A file is taken as it is; a directory is walked through if that is allowed.
pub open spec fn source_plan(kind: SourceKind, recursive: bool) -> Result<SourcePlan, TaskError> {
    match kind {
        SourceKind::File => Ok(SourcePlan::Single),
        SourceKind::Missing => Err(TaskError::SourceMissing),
        SourceKind::Directory => if recursive {
            Ok(SourcePlan::Walk)
        } else {
            Err(TaskError::NotRecursive)
        },
    }
}

/// Decides what is to be done with a source.
pub fn plan_source(kind: SourceKind, recursive: bool) -> (r: Result<SourcePlan, TaskError>)
    ensures
        r == source_plan(kind, recursive),
{
    match kind {
        SourceKind::File => Ok(SourcePlan::Single),
        SourceKind::Missing => Err(TaskError::SourceMissing),
        SourceKind::Directory => {
            if recursive {
                Ok(SourcePlan::Walk)
            } else {
                Err(TaskError::NotRecursive)
            }
        },
    }
}

/// The text by which a source that is a single file is known.
pub open spec fn single_name(source: Seq<u8>) -> Seq<char> {
    if has_file_name(source) {
        text_or_unknown(components(source).last())
    } else {
        "unknown"@
    }
}

/// The task of a source that is a single file.
pub open spec fn single_task(source: Seq<u8>, target: Seq<u8>, size: int) -> TaskView {
    TaskView {
        src_path: source,
        dst_path: target,
        file_size: size,
        relative_path: single_name(source),
    }
}

/// The task of a source that is a single file of `size` bytes.
pub fn make_single_task(source: &FilePath, target: &FilePath, size: u64) -> (r: CopyTask)
    ensures
        r@ == single_task(source@, target@, size as int),
{
    CopyTask {
        src_path: source.duplicate(),
        dst_path: target.duplicate(),
        file_size: size,
        relative_path: source.file_name_text(),
    }
}

/// Something that a walk through the source came across.
pub struct WalkEntry {
    pub path: FilePath,
    pub kind: EntryKind,
    /// The size, if it could be read.
    pub size: Option<u64>,
}

/// What a walk entry says.
#[verifier::ext_equal]
pub struct EntryView {
    pub path: Seq<u8>,
    pub kind: EntryKind,
    pub size: Option<u64>,
}

impl View for WalkEntry {
    type V = EntryView;

    open spec fn view(&self) -> EntryView {
        EntryView { path: self.path@, kind: self.kind, size: self.size }
    }
}

/// The views of the entries.
pub open spec fn entry_views(entries: Seq<WalkEntry>) -> Seq<EntryView> {
    entries.map_values(|entry: WalkEntry| entry@)
}

/// The path lies below the directory.
pub open spec fn lies_below(path: Seq<u8>, base: Seq<u8>) -> bool {
    components(base).is_prefix_of(components(path))
}

/// Where something that lies below the source goes.
pub open spec fn destination(path: Seq<u8>, source: Seq<u8>, target: Seq<u8>) -> Seq<u8> {
    joined(target, below(path, source))
}

/// Where something goes that lies below the source.
pub fn copy_of(path: &FilePath, source: &FilePath, target: &FilePath) -> (r: Option<FilePath>)
    ensures
        r is Some <==> lies_below(path@, source@),
        r matches Some(p) ==> p@ == destination(path@, source@, target@),
{
    match path.strip_prefix(source) {
        None => None,
        Some(rel) => Some(target.join(&rel)),
    }
}

/// The task of a file that lies below the source.
pub open spec fn walked_task(
    path: Seq<u8>,
    source: Seq<u8>,
    target: Seq<u8>,
    size: int,
) -> TaskView {
    TaskView {
        src_path: path,
        dst_path: destination(path, source, target),
        file_size: size,
        relative_path: text_or_unknown(below(path, source)),
    }
}

/// What is to be done with something that a walk came across.
pub enum EntryPlan {
    /// There has to be a directory of this name at the target.
    CreateDirectory { path: FilePath },
    /// The file has to be copied.
    Copy { task: CopyTask },
    /// It is left alone.
    Skip,
}

/// What an entry plan says.
#[verifier::ext_equal]
pub enum PlanView {
    CreateDirectory { path: Seq<u8> },
    Copy { task: TaskView },
    Skip,
}

impl View for EntryPlan {
    type V = PlanView;

    open spec fn view(&self) -> PlanView {
        match self {
            EntryPlan::CreateDirectory { path } => PlanView::CreateDirectory { path: path@ },
            EntryPlan::Copy { task } => PlanView::Copy { task: task@ },
            EntryPlan::Skip => PlanView::Skip,
        }
    }
}

/// Directories are made again at the target, files are copied, and everything
/// else is left alone.
pub open spec fn entry_plan(
    entry: EntryView,
    source: Seq<u8>,
    target: Seq<u8>,
) -> Result<PlanView, TaskError> {
    match entry.kind {
        EntryKind::Other => Ok(PlanView::Skip),
        EntryKind::Directory => if lies_below(entry.path, source) {
            Ok(PlanView::CreateDirectory { path: destination(entry.path, source, target) })
        } else {
            Err(TaskError::OutsideSource)
        },
        EntryKind::File => if !lies_below(entry.path, source) {
            Err(TaskError::OutsideSource)
        } else {
            match entry.size {
                None => Err(TaskError::SourceUnreadable),
                Some(size) => Ok(
                    PlanView::Copy { task: walked_task(entry.path, source, target, size as int) },
                ),
            }
        },
    }
}

/// Decides what is to be done with something that a walk through `source` came
/// across.
pub fn plan_entry(entry: &WalkEntry, source: &FilePath, target: &FilePath) -> (r: Result<
    EntryPlan,
    TaskError,
>)
    ensures
        match r {
            Ok(plan) => entry_plan(entry@, source@, target@) == Ok::<PlanView, TaskError>(plan@),
            Err(e) => entry_plan(entry@, source@, target@) == Err::<PlanView, TaskError>(e),
        },
{
    match entry.kind {
        EntryKind::Other => Ok(EntryPlan::Skip),
        EntryKind::Directory => match copy_of(&entry.path, source, target) {
            None => Err(TaskError::OutsideSource),
            Some(path) => Ok(EntryPlan::CreateDirectory { path }),
        },
        EntryKind::File => match entry.path.strip_prefix(source) {
            None => Err(TaskError::OutsideSource),
            Some(rel) => match entry.size {
                None => Err(TaskError::SourceUnreadable),
                Some(size) => {
                    let task = CopyTask {
                        src_path: entry.path.duplicate(),
                        dst_path: target.join(&rel),
                        file_size: size,
                        relative_path: rel.text(),
                    };
                    Ok(EntryPlan::Copy { task })
                },
            },
        },
    }
}

/// The entry as it counts where only the files are wanted: whatever is no file
/// does not matter.
pub open spec fn files_only(entry: EntryView) -> EntryView {
    EntryView {
        kind: if entry.kind == EntryKind::File {
            EntryKind::File
        } else {
            EntryKind::Other
        },
        ..entry
    }
}

/// The tasks of the files among the entries, in their order. The first file that
/// makes an error makes that error.
pub open spec fn walked_tasks(
    entries: Seq<EntryView>,
    source: Seq<u8>,
    target: Seq<u8>,
) -> Result<Seq<TaskView>, TaskError>
    decreases entries.len(),
{
    if entries.len() == 0 {
        Ok(Seq::empty())
    } else {
        match walked_tasks(entries.drop_last(), source, target) {
            Err(e) => Err(e),
            Ok(tasks) => match entry_plan(files_only(entries.last()), source, target) {
                Err(e) => Err(e),
                Ok(PlanView::Copy { task }) => Ok(tasks.push(task)),
                Ok(_) => Ok(tasks),
            },
        }
    }
}

/// The tasks that a walk hands out for the entries, in their order. The first
/// entry that makes an error makes that error.
pub open spec fn handed_out(
    entries: Seq<EntryView>,
    source: Seq<u8>,
    target: Seq<u8>,
) -> Result<Seq<TaskView>, TaskError>
    decreases entries.len(),
{
    if entries.len() == 0 {
        Ok(Seq::empty())
    } else {
        match handed_out(entries.drop_last(), source, target) {
            Err(e) => Err(e),
            Ok(tasks) => match entry_plan(entries.last(), source, target) {
                Err(e) => Err(e),
                Ok(PlanView::Copy { task }) => Ok(tasks.push(task)),
                Ok(_) => Ok(tasks),
            },
        }
    }
}

/// The tasks that are sent for a source as they are found.
pub open spec fn sent_tasks(
    source: Seq<u8>,
    target: Seq<u8>,
    kind: SourceKind,
    recursive: bool,
    size: Option<u64>,
    entries: Seq<EntryView>,
) -> Result<Seq<TaskView>, TaskError> {
    match source_plan(kind, recursive) {
        Err(e) => Err(e),
        Ok(SourcePlan::Single) => match size {
            None => Err(TaskError::SourceUnreadable),
            Some(n) => Ok(seq![single_task(source, target, n as int)]),
        },
        Ok(SourcePlan::Walk) => handed_out(entries, source, target),
    }
}

/// The tasks of a source.
pub open spec fn collected_tasks(
    source: Seq<u8>,
    target: Seq<u8>,
    kind: SourceKind,
    recursive: bool,
    size: Option<u64>,
    entries: Seq<EntryView>,
) -> Result<Seq<TaskView>, TaskError> {
    match source_plan(kind, recursive) {
        Err(e) => Err(e),
        Ok(SourcePlan::Single) => match size {
            None => Err(TaskError::SourceUnreadable),
            Some(n) => Ok(seq![single_task(source, target, n as int)]),
        },
        Ok(SourcePlan::Walk) => walked_tasks(entries, source, target),
    }
}

proof fn lemma_error_stays(entries: Seq<EntryView>, n: int, source: Seq<u8>, target: Seq<u8>)
    requires
        0 <= n <= entries.len(),
        walked_tasks(entries.take(n), source, target) is Err,
    ensures
        walked_tasks(entries, source, target) == walked_tasks(entries.take(n), source, target),
    decreases entries.len() - n,
{
    if n == entries.len() {
        assert(entries.take(n) =~= entries);
    } else {
        assert(entries.take(n + 1).drop_last() =~= entries.take(n));
        lemma_error_stays(entries, n + 1, source, target);
    }
}

/// Collects the files to copy. `size` is the size of a source that is a file,
/// and `entries` is what a walk through a source that is a directory came
/// across.
pub fn collect_tasks(
    source: &FilePath,
    target: &FilePath,
    kind: SourceKind,
    recursive: bool,
    size: Option<u64>,
    entries: &Vec<WalkEntry>,
) -> (r: Result<Vec<CopyTask>, TaskError>)
    ensures
        match r {
            Ok(tasks) => collected_tasks(
                source@,
                target@,
                kind,
                recursive,
                size,
                entry_views(entries@),
            ) == Ok::<Seq<TaskView>, TaskError>(task_views(tasks@)),
            Err(e) => collected_tasks(
                source@,
                target@,
                kind,
                recursive,
                size,
                entry_views(entries@),
            ) == Err::<Seq<TaskView>, TaskError>(e),
        },
{
    let mut tasks: Vec<CopyTask> = Vec::new();
    match plan_source(kind, recursive) {
        Err(e) => {
            return Err(e);
        },
        Ok(SourcePlan::Single) => match size {
            None => {
                return Err(TaskError::SourceUnreadable);
            },
            Some(n) => {
                tasks.push(make_single_task(source, target, n));
                assert(task_views(tasks@) =~= seq![single_task(source@, target@, n as int)]);
                return Ok(tasks);
            },
        },
        Ok(SourcePlan::Walk) => {},
    }
    let ghost views = entry_views(entries@);
    let mut i: usize = 0;
    assert(views.take(0) =~= Seq::<EntryView>::empty());
    assert(task_views(tasks@) =~= Seq::<TaskView>::empty());
    while i < entries.len()
        invariant
            i <= entries@.len(),
            views == entry_views(entries@),
            source_plan(kind, recursive) == Ok::<SourcePlan, TaskError>(SourcePlan::Walk),
            walked_tasks(views.take(i as int), source@, target@)
                == Ok::<Seq<TaskView>, TaskError>(task_views(tasks@)),
        decreases entries@.len() - i,
    {
        let entry = &entries[i];
        let ghost before = tasks@;
        assert(views.take(i + 1).drop_last() =~= views.take(i as int));
        assert(views.take(i + 1).last() == entry@);
        if entry.kind == EntryKind::File {
            match plan_entry(entry, source, target) {
                Err(e) => {
                    proof {
                        lemma_error_stays(views, i + 1, source@, target@);
                    }
                    return Err(e);
                },
                Ok(plan) => {
                    if let EntryPlan::Copy { task } = plan {
                        tasks.push(task);
                        assert(task_views(tasks@) =~= task_views(before).push(task@));
                    }
                },
            }
        }
        i = i + 1;
    }
    assert(views.take(i as int) =~= views);
    Ok(tasks)
}

/// Files are counted aloud each time there are so many more.
pub const SCAN_REPORT_INTERVAL: usize = 100;

/// What a walk has found so far.
#[verifier::ext_equal]
pub struct WalkView {
    pub source: Seq<u8>,
    pub target: Seq<u8>,
    pub total_files: int,
    pub total_bytes: int,
}

impl WalkView {
    /// Nothing has been found.
    pub open spec fn begin(source: Seq<u8>, target: Seq<u8>) -> Self {
        WalkView { source, target, total_files: 0, total_bytes: 0 }
    }

    /// One more file was found and handed out.
    pub open spec fn found(self, size: int) -> Self {
        WalkView {
            total_files: self.total_files + 1,
            total_bytes: self.total_bytes + size,
            ..self
        }
    }

    /// The count has to be reported.
    pub open spec fn is_reported(self) -> bool {
        self.total_files % (SCAN_REPORT_INTERVAL as int) == 0
    }

    /// One more file can be counted.
    pub open spec fn has_room_for(self, size: int) -> bool {
        self.total_files < usize::MAX && self.total_bytes + size <= u64::MAX
    }

    /// The files found after some were handed out.
    pub open spec fn after(self, sizes: Seq<u64>) -> Self
        decreases sizes.len(),
    {
        if sizes.len() == 0 {
            self
        } else {
            self.after(sizes.drop_last()).found(sizes.last() as int)
        }
    }
}

/// A walk through a directory that hands out the files as it finds them.
pub struct TaskWalk {
    source: FilePath,
    target: FilePath,
    total_files: usize,
    total_bytes: u64,
}

impl View for TaskWalk {
    type V = WalkView;

    closed spec fn view(&self) -> WalkView {
        WalkView {
            source: self.source@,
            target: self.target@,
            total_files: self.total_files as int,
            total_bytes: self.total_bytes as int,
        }
    }
}

impl TaskWalk {
    /// A walk that begins.
    pub fn new(source: &FilePath, target: &FilePath) -> (r: Self)
        ensures
            r@ == WalkView::begin(source@, target@),
    {
        TaskWalk {
            source: source.duplicate(),
            target: target.duplicate(),
            total_files: 0,
            total_bytes: 0,
        }
    }

    /// What is to be done with the next entry.
    pub fn plan(&self, entry: &WalkEntry) -> (r: Result<EntryPlan, TaskError>)
        ensures
            match r {
                Ok(plan) => entry_plan(entry@, self@.source, self@.target)
                    == Ok::<PlanView, TaskError>(plan@),
                Err(e) => entry_plan(entry@, self@.source, self@.target)
                    == Err::<PlanView, TaskError>(e),
            },
    {
        plan_entry(entry, &self.source, &self.target)
    }

    /// Whether one more file of `size` bytes can be counted.
    pub fn can_count(&self, size: u64) -> (r: bool)
        ensures
            r == self@.has_room_for(size as int),
    {
        self.total_files < usize::MAX && size <= u64::MAX - self.total_bytes
    }

    /// Counts a file of `size` bytes that was handed out, and tells whether the
    /// count has to be reported.
    pub fn sent(&mut self, size: u64) -> (report: bool)
        requires
            old(self)@.has_room_for(size as int),
        ensures
            final(self)@ == old(self)@.found(size as int),
            report == final(self)@.is_reported(),
    {
        self.total_files = self.total_files + 1;
        self.total_bytes = self.total_bytes + size;
        self.total_files % SCAN_REPORT_INTERVAL == 0
    }

    /// The number of files and of bytes that were found.
    pub fn totals(&self) -> (r: (usize, u64))
        ensures
            r.0 == self@.total_files,
            r.1 == self@.total_bytes,
    {
        (self.total_files, self.total_bytes)
    }
}

/// What is found at the target in place of a file.
#[derive(Clone, Copy, Debug, PartialEq, Eq, Structural)]
pub enum TargetProbe {
    Missing,
    /// It is there, but its size cannot be read.
    Unreadable,
    Size(u64),
}

/// The comparison of a file with its copy.
pub struct FileProbe {
    /// The file at the source.
    pub path: FilePath,
    /// Its size, if it could be read.
    pub source_size: Option<u64>,
    /// What is found in place of its copy.
    pub target: TargetProbe,
}

/// What a file probe says.
#[verifier::ext_equal]
pub struct ProbeView {
    pub path: Seq<u8>,
    pub source_size: Option<u64>,
    pub target: TargetProbe,
}

impl View for FileProbe {
    type V = ProbeView;

    open spec fn view(&self) -> ProbeView {
        ProbeView { path: self.path@, source_size: self.source_size, target: self.target }
    }
}

/// The views of the probes.
pub open spec fn probe_views(probes: Seq<FileProbe>) -> Seq<ProbeView> {
    probes.map_values(|probe: FileProbe| probe@)
}

impl ProbeView {
    /// The copy is not there.
    pub open spec fn is_missing(self) -> bool {
        self.source_size is Some && self.target == TargetProbe::Missing
    }

    /// The copy has another size than the file.
    pub open spec fn differs(self) -> bool {
        self.source_size matches Some(size) && self.target matches TargetProbe::Size(other) && size
            != other
    }

    /// The size of the file, nothing where it could not be read.
    pub open spec fn bytes(self) -> int {
        match self.source_size {
            Some(size) => size as int,
            None => 0,
        }
    }
}

/// Which files at the target are not like those at the source.
pub struct VerifyResult {
    /// The files that are not at the target.
    pub missing_files: Vec<String>,
    /// The files that have another size at the target.
    pub size_mismatch: Vec<String>,
    /// The number of files that were looked at.
    pub total_checked: usize,
    /// The number of bytes in the files that were looked at.
    pub total_bytes: u64,
    /// The number of files that are missing or have another size.
    pub total_issues: usize,
}

/// What a verify result says.
#[verifier::ext_equal]
pub struct VerifyView {
    pub missing: Seq<Seq<char>>,
    pub mismatch: Seq<Seq<char>>,
    pub total_checked: int,
    pub total_bytes: int,
}

impl View for VerifyResult {
    type V = VerifyView;

    open spec fn view(&self) -> VerifyView {
        VerifyView {
            missing: text_views(self.missing_files@),
            mismatch: text_views(self.size_mismatch@),
            total_checked: self.total_checked as int,
            total_bytes: self.total_bytes as int,
        }
    }
}

/// The names by which the probes that `wanted` picks are known, in their order.
pub open spec fn picked(
    probes: Seq<ProbeView>,
    source: Seq<u8>,
    wanted: spec_fn(ProbeView) -> bool,
) -> Seq<Seq<char>> {
    probes.filter(wanted).map_values(|probe: ProbeView| text_or_unknown(below(probe.path, source)))
}

/// The number of bytes in the files that were looked at.
pub open spec fn probed_bytes(probes: Seq<ProbeView>) -> int
    decreases probes.len(),
{
    if probes.len() == 0 {
        0
    } else {
        probed_bytes(probes.drop_last()) + probes.last().bytes()
    }
}

/// What the probes of a source that is a directory show.
pub open spec fn verified(probes: Seq<ProbeView>, source: Seq<u8>) -> VerifyView {
    VerifyView {
        missing: picked(probes, source, |probe: ProbeView| probe.is_missing()),
        mismatch: picked(probes, source, |probe: ProbeView| probe.differs()),
        total_checked: probes.len() as int,
        total_bytes: probed_bytes(probes),
    }
}

/// All the files lie below the source.
pub open spec fn all_below(probes: Seq<ProbeView>, source: Seq<u8>) -> bool {
    forall|i: int| 0 <= i < probes.len() ==> lies_below((#[trigger] probes[i]).path, source)
}

/// What the probe of a source that is a single file shows.
pub open spec fn verified_single(source: Seq<u8>, size: u64, target: TargetProbe) -> VerifyView {
    let name = seq![single_name(source)];
    VerifyView {
        missing: if target == TargetProbe::Missing {
            name
        } else {
            Seq::empty()
        },
        mismatch: if target is Size && target != TargetProbe::Size(size) {
            name
        } else {
            Seq::empty()
        },
        total_checked: 1,
        total_bytes: size as int,
    }
}

/// Compares a source with its copy. `single` is the size of a source that is a
/// file, and what is found in place of its copy; `probes` are the comparisons of
/// the files of a source that is a directory.
pub open spec fn verification(
    source: Seq<u8>,
    kind: SourceKind,
    recursive: bool,
    single: (Option<u64>, TargetProbe),
    probes: Seq<ProbeView>,
) -> Result<VerifyView, TaskError> {
    match source_plan(kind, recursive) {
        Err(e) => Err(e),
        Ok(SourcePlan::Single) => match single.0 {
            None => Err(TaskError::SourceUnreadable),
            Some(size) => if single.1 == TargetProbe::Unreadable {
                Err(TaskError::TargetUnreadable)
            } else {
                Ok(verified_single(source, size, single.1))
            },
        },
        Ok(SourcePlan::Walk) => if all_below(probes, source) {
            Ok(verified(probes, source))
        } else {
            Err(TaskError::OutsideSource)
        },
    }
}

proof fn lemma_picked_push(
    probes: Seq<ProbeView>,
    probe: ProbeView,
    source: Seq<u8>,
    wanted: spec_fn(ProbeView) -> bool,
)
    ensures
        picked(probes.push(probe), source, wanted) == if wanted(probe) {
            picked(probes, source, wanted).push(text_or_unknown(below(probe.path, source)))
        } else {
            picked(probes, source, wanted)
        },
        picked(probes, source, wanted).len() <= probes.len(),
{
    reveal(Seq::filter);
    assert(probes.push(probe).drop_last() =~= probes);
    probes.lemma_filter_len(wanted);
    let name = |p: ProbeView| text_or_unknown(below(p.path, source));
    assert(probes.filter(wanted).push(probe).map_values(name) =~= probes.filter(
        wanted,
    ).map_values(name).push(name(probe)));
}

/// A file is missing or has another size, but not both.
proof fn lemma_issues(probes: Seq<ProbeView>, source: Seq<u8>)
    ensures
        verified(probes, source).missing.len() + verified(probes, source).mismatch.len()
            <= probes.len(),
    decreases probes.len(),
{
    let missing = |probe: ProbeView| probe.is_missing();
    let differs = |probe: ProbeView| probe.differs();
    if probes.len() == 0 {
        reveal(Seq::filter);
    } else {
        let front = probes.drop_last();
        lemma_issues(front, source);
        assert(probes =~= front.push(probes.last()));
        lemma_picked_push(front, probes.last(), source, missing);
        lemma_picked_push(front, probes.last(), source, differs);
    }
}

/// The comparison of the files of a directory, one after the other.
pub struct Verification {
    source: FilePath,
    missing_files: Vec<String>,
    size_mismatch: Vec<String>,
    total_checked: usize,
    total_bytes: u64,
    probed: Ghost<Seq<ProbeView>>,
}

impl Verification {
    /// The files that have been compared.
    pub closed spec fn probed(&self) -> Seq<ProbeView> {
        self.probed@
    }

    /// The directory that the files are from.
    pub closed spec fn source(&self) -> Seq<u8> {
        self.source@
    }

    pub closed spec fn wf(&self) -> bool {
        let seen = verified(self.probed@, self.source@);
        &&& text_views(self.missing_files@) == seen.missing
        &&& text_views(self.size_mismatch@) == seen.mismatch
        &&& self.total_checked == seen.total_checked
        &&& self.total_bytes == seen.total_bytes
        &&& all_below(self.probed@, self.source@)
    }

    /// One more file can be counted.
    pub open spec fn has_room_for(&self, probe: ProbeView) -> bool {
        &&& self.probed().len() < usize::MAX
        &&& probed_bytes(self.probed()) + probe.bytes() <= u64::MAX
    }

    /// A comparison that begins.
    pub fn new(source: &FilePath) -> (r: Self)
        ensures
            r.wf(),
            r.source() == source@,
            r.probed() == Seq::<ProbeView>::empty(),
    {
        let missing_files: Vec<String> = Vec::new();
        let size_mismatch: Vec<String> = Vec::new();
        let r = Verification {
            source: source.duplicate(),
            missing_files,
            size_mismatch,
            total_checked: 0,
            total_bytes: 0,
            probed: Ghost(Seq::empty()),
        };
        proof {
            reveal(Seq::filter);
            let seen = verified(Seq::empty(), source@);
            assert(seen.missing =~= Seq::<Seq<char>>::empty());
            assert(seen.mismatch =~= Seq::<Seq<char>>::empty());
            assert(text_views(r.missing_files@) =~= Seq::<Seq<char>>::empty());
            assert(text_views(r.size_mismatch@) =~= Seq::<Seq<char>>::empty());
        }
        r
    }

    /// Whether one more file can be counted.
    pub fn can_count(&self, probe: &FileProbe) -> (r: bool)
        requires
            self.wf(),
        ensures
            r == self.has_room_for(probe@),
    {
        let size = match probe.source_size {
            Some(size) => size,
            None => 0,
        };
        self.total_checked < usize::MAX && size <= u64::MAX - self.total_bytes
    }

    /// Compares one more file. A file that does not lie below the source is an
    /// error.
    pub fn check(&mut self, probe: &FileProbe) -> (r: Result<(), TaskError>)
        requires
            old(self).wf(),
            old(self).has_room_for(probe@),
        ensures
            final(self).wf(),
            final(self).source() == old(self).source(),
            lies_below(probe@.path, old(self).source()) ==> r == Ok::<(), TaskError>(())
                && final(self).probed() == old(self).probed().push(probe@),
            !lies_below(probe@.path, old(self).source()) ==> r == Err::<(), TaskError>(
                TaskError::OutsideSource,
            ) && final(self).probed() == old(self).probed(),
    {
        let rel = match probe.path.strip_prefix(&self.source) {
            None => {
                return Err(TaskError::OutsideSource);
            },
            Some(rel) => rel,
        };
        let ghost before = self.probed@;
        let ghost missing = |p: ProbeView| p.is_missing();
        let ghost differs = |p: ProbeView| p.differs();
        let ghost old_missing = self.missing_files@;
        let ghost old_mismatch = self.size_mismatch@;
        proof {
            lemma_picked_push(before, probe@, self.source@, missing);
            lemma_picked_push(before, probe@, self.source@, differs);
            assert(before.push(probe@).drop_last() =~= before);
        }
        self.total_checked = self.total_checked + 1;
        if let Some(size) = probe.source_size {
            self.total_bytes = self.total_bytes + size;
            match probe.target {
                TargetProbe::Missing => {
                    self.missing_files.push(rel.text());
                    assert(text_views(self.missing_files@) =~= text_views(old_missing).push(
                        text_or_unknown(rel@),
                    ));
                },
                TargetProbe::Unreadable => {},
                TargetProbe::Size(other) => {
                    if size != other {
                        self.size_mismatch.push(rel.text());
                        assert(text_views(self.size_mismatch@) =~= text_views(old_mismatch).push(
                            text_or_unknown(rel@),
                        ));
                    }
                },
            }
        }
        self.probed = Ghost(before.push(probe@));
        Ok(())
    }

    /// What the files showed.
    pub fn finish(self) -> (r: VerifyResult)
        requires
            self.wf(),
        ensures
            r@ == verified(self.probed(), self.source()),
            r.total_issues == r@.missing.len() + r@.mismatch.len(),
    {
        proof {
            lemma_issues(self.probed@, self.source@);
        }
        let total_issues: usize = self.missing_files.len() + self.size_mismatch.len();
        VerifyResult {
            missing_files: self.missing_files,
            size_mismatch: self.size_mismatch,
            total_checked: self.total_checked,
            total_bytes: self.total_bytes,
            total_issues,
        }
    }
}

/// Compares a source that is a single file of `size` bytes with its copy.
fn verify_single(source: &FilePath, size: u64, target: TargetProbe) -> (r: VerifyResult)
    requires
        target != TargetProbe::Unreadable,
    ensures
        r@ == verified_single(source@, size, target),
        r.total_issues == r@.missing.len() + r@.mismatch.len(),
{
    let mut missing_files: Vec<String> = Vec::new();
    let mut size_mismatch: Vec<String> = Vec::new();
    match target {
        TargetProbe::Missing => {
            missing_files.push(source.file_name_text());
        },
        TargetProbe::Unreadable => {},
        TargetProbe::Size(other) => {
            if size != other {
                size_mismatch.push(source.file_name_text());
            }
        },
    }
    let ghost seen = verified_single(source@, size, target);
    assert(text_views(missing_files@) =~= seen.missing);
    assert(text_views(size_mismatch@) =~= seen.mismatch);
    let total_issues: usize = missing_files.len() + size_mismatch.len();
    VerifyResult { missing_files, size_mismatch, total_checked: 1, total_bytes: size, total_issues }
}

/// Compares a source with its copy, by the sizes of the files. `single` is the
/// size of a source that is a file, and what is found in place of its copy;
/// `probes` are the comparisons of the files of a source that is a directory.
pub fn verify_files(
    source: &FilePath,
    kind: SourceKind,
    recursive: bool,
    single: (Option<u64>, TargetProbe),
    probes: &Vec<FileProbe>,
) -> (r: Result<VerifyResult, TaskError>)
    requires
        probed_bytes(probe_views(probes@)) <= u64::MAX,
    ensures
        match r {
            Ok(result) => verification(source@, kind, recursive, single, probe_views(probes@))
                == Ok::<VerifyView, TaskError>(result@) && result.total_issues
                == result@.missing.len() + result@.mismatch.len(),
            Err(e) => verification(source@, kind, recursive, single, probe_views(probes@))
                == Err::<VerifyView, TaskError>(e),
        },
{
    match plan_source(kind, recursive) {
        Err(e) => {
            return Err(e);
        },
        Ok(SourcePlan::Single) => match single.0 {
            None => {
                return Err(TaskError::SourceUnreadable);
            },
            Some(size) => {
                if single.1 == TargetProbe::Unreadable {
                    return Err(TaskError::TargetUnreadable);
                }
                return Ok(verify_single(source, size, single.1));
            },
        },
        Ok(SourcePlan::Walk) => {},
    }
    let ghost views = probe_views(probes@);
    let mut run = Verification::new(source);
    let mut i: usize = 0;
    assert(views.take(0) =~= Seq::<ProbeView>::empty());
    while i < probes.len()
        invariant
            i <= probes@.len(),
            views == probe_views(probes@),
            probed_bytes(views) <= u64::MAX,
            source_plan(kind, recursive) == Ok::<SourcePlan, TaskError>(SourcePlan::Walk),
            run.wf(),
            run.source() == source@,
            run.probed() == views.take(i as int),
            all_below(views.take(i as int), source@),
        decreases probes@.len() - i,
    {
        let probe = &probes[i];
        assert(views[i as int] == probe@);
        assert(views.take(i + 1) =~= views.take(i as int).push(probe@));
        assert(views.take(i + 1).drop_last() =~= views.take(i as int));
        proof {
            lemma_probed_bytes_take(views, i + 1);
        }
        if let Err(e) = run.check(probe) {
            assert(!lies_below(views[i as int].path, source@));
            return Err(e);
        }
        i = i + 1;
    }
    assert(views.take(i as int) =~= views);
    Ok(run.finish())
}

proof fn lemma_probed_bytes_take(probes: Seq<ProbeView>, n: int)
    requires
        0 <= n <= probes.len(),
    ensures
        probed_bytes(probes.take(n)) <= probed_bytes(probes),
    decreases probes.len() - n,
{
    if n == probes.len() {
        assert(probes.take(n) =~= probes);
    } else {
        assert(probes.take(n + 1).drop_last() =~= probes.take(n));
        lemma_probed_bytes_take(probes, n + 1);
    }
}

impl VerifyView {
    /// The files that have to be copied again: those that are missing, then those
    /// that have another size.
    pub open spec fn to_retransmit(self) -> Seq<Seq<char>> {
        self.missing + self.mismatch
    }
}

impl VerifyResult {
    /// The files that have to be copied again: those that are missing, then
    /// those that have another size.
    pub fn files_to_retransmit(self) -> (r: Vec<String>)
        ensures
            text_views(r@) == self@.to_retransmit(),
            r@.len() == self@.missing.len() + self@.mismatch.len(),
    {
        let mut files = self.missing_files;
        let mut others = self.size_mismatch;
        let ghost a = files@;
        let ghost b = others@;
        files.append(&mut others);
        assert(text_views(files@) =~= text_views(a) + text_views(b));
        assert(text_views(files@).len() == files@.len());
        files
    }
}

/// The task that copies a file once more, known by its relative path alone. Its
/// size is read when it is copied.
pub open spec fn repeated_task(source: Seq<u8>, target: Seq<u8>, name: Seq<char>) -> TaskView {
    TaskView {
        src_path: joined(source, encode_utf8(name)),
        dst_path: joined(target, encode_utf8(name)),
        file_size: 0,
        relative_path: name,
    }
}

/// The task that copies a file once more.
pub fn repeat_task(source: &FilePath, target: &FilePath, relative_path: String) -> (r: CopyTask)
    ensures
        r@ == repeated_task(source@, target@, relative_path@),
{
    let rel = FilePath::from_text(relative_path.as_str());
    CopyTask {
        src_path: source.join(&rel),
        dst_path: target.join(&rel),
        file_size: 0,
        relative_path,
    }
}

} // verus!

//! Which files have been copied, so that a copy that was broken off can go on.

use crate::path::{components, joined, FilePath};
use crate::path_set::{text_views, PathSet};
use vstd::prelude::*;
use vstd::utf8::encode_utf8;

verus! {

/// The name of the file, below the target directory, that keeps the progress.
pub const PROGRESS_FILE: &'static str = ".cp-with-usrbio-progress.json";

/// With more files than this a copy keeps its progress.
pub const RESUME_THRESHOLD: usize = 100;

/// The progress is saved each time so many more files are done.
pub const SAVE_INTERVAL: usize = 10;

/// What a progress state says.
#[verifier::ext_equal]
pub struct ProgressView {
    pub source: Seq<u8>,
    pub target: Seq<u8>,
    pub total_files: int,
    pub completed: Set<Seq<char>>,
    pub failed: Set<Seq<char>>,
    pub created_at: int,
    pub updated_at: int,
}

impl ProgressView {
    /// Nothing has been done yet.
    pub open spec fn fresh(source: Seq<u8>, target: Seq<u8>, total_files: int, now: int) -> Self {
        ProgressView {
            source,
            target,
            total_files,
            completed: Set::empty(),
            failed: Set::empty(),
            created_at: now,
            updated_at: now,
        }
    }

    /// The file was copied at the time `now`.
    pub open spec fn completing(self, path: Seq<char>, now: int) -> Self {
        ProgressView { completed: self.completed.insert(path), updated_at: now, ..self }
    }

    /// The file could not be copied at the time `now`.
    pub open spec fn failing(self, path: Seq<char>, now: int) -> Self {
        ProgressView { failed: self.failed.insert(path), updated_at: now, ..self }
    }

    /// The state belongs to a copy between these two places.
    pub open spec fn belongs_to(self, source: Seq<u8>, target: Seq<u8>) -> bool {
        &&& components(self.source) == components(source)
        &&& components(self.target) == components(target)
    }
}

/// How far a copy has come.
pub struct ProgressState {
    /// Where the files come from.
    pub source: FilePath,
    /// Where the files go to.
    pub target: FilePath,
    /// The number of files to copy.
    pub total_files: usize,
    /// The relative paths of the files that were copied.
    pub completed_files: PathSet,
    /// The relative paths of the files that could not be copied.
    pub failed_files: PathSet,
    /// When the copy began, in seconds since 1970.
    pub created_at: u64,
    /// When a file was last marked, in seconds since 1970.
    pub updated_at: u64,
}

impl View for ProgressState {
    type V = ProgressView;

    open spec fn view(&self) -> ProgressView {
        ProgressView {
            source: self.source@,
            target: self.target@,
            total_files: self.total_files as int,
            completed: self.completed_files@,
            failed: self.failed_files@,
            created_at: self.created_at as int,
            updated_at: self.updated_at as int,
        }
    }
}

/// `std::time::SystemTime::elapsed`, asked how long the Unix epoch is over: the
/// whole seconds, or nothing where the clock stands before the epoch. Nothing is
/// claimed of the time that it gives.
#[verifier::external_body]
fn seconds_since_epoch() -> (r: Option<u64>) {
    match std::time::UNIX_EPOCH.elapsed() {
        Ok(age) => Some(age.as_secs()),
        Err(_) => None,
    }
}

/// The time of a reading of the clock. A clock that stands before 1970 counts
/// as if it stood at the beginning of that year.
pub fn timestamp(reading: Option<u64>) -> (now: u64)
    ensures
        now == match reading {
            Some(seconds) => seconds,
            None => 0,
        },
{
    match reading {
        Some(seconds) => seconds,
        None => 0,
    }
}

impl ProgressState {
    pub open spec fn wf(&self) -> bool {
        self.completed_files.wf() && self.failed_files.wf()
    }

    /// The state of a copy that begins at the time `now`.
    pub fn new_at(source: FilePath, target: FilePath, total_files: usize, now: u64) -> (r: Self)
        ensures
            r.wf(),
            r@ == ProgressView::fresh(source@, target@, total_files as int, now as int),
    {
        ProgressState {
            source,
            target,
            total_files,
            completed_files: PathSet::new(),
            failed_files: PathSet::new(),
            created_at: now,
            updated_at: now,
        }
    }

    /// The state of a copy that begins now.
    pub fn new(source: FilePath, target: FilePath, total_files: usize) -> (r: Self)
        ensures
            r.wf(),
            r@ == ProgressView::fresh(source@, target@, total_files as int, r@.created_at),
    {
        let now = timestamp(seconds_since_epoch());
        ProgressState::new_at(source, target, total_files, now)
    }

    /// Marks a file as copied at the time `now`.
    pub fn mark_completed_at(&mut self, relative_path: String, now: u64)
        requires
            old(self).wf(),
        ensures
            final(self).wf(),
            final(self)@ == old(self)@.completing(relative_path@, now as int),
    {
        self.completed_files.insert(relative_path);
        self.updated_at = now;
    }

    /// Marks a file as copied.
    pub fn mark_completed(&mut self, relative_path: String)
        requires
            old(self).wf(),
        ensures
            final(self).wf(),
            final(self)@ == old(self)@.completing(relative_path@, final(self)@.updated_at),
    {
        let now = timestamp(seconds_since_epoch());
        self.mark_completed_at(relative_path, now);
    }

    /// Marks a file as failed at the time `now`.
    pub fn mark_failed_at(&mut self, relative_path: String, now: u64)
        requires
            old(self).wf(),
        ensures
            final(self).wf(),
            final(self)@ == old(self)@.failing(relative_path@, now as int),
    {
        self.failed_files.insert(relative_path);
        self.updated_at = now;
    }

    /// Marks a file as failed.
    pub fn mark_failed(&mut self, relative_path: String)
        requires
            old(self).wf(),
        ensures
            final(self).wf(),
            final(self)@ == old(self)@.failing(relative_path@, final(self)@.updated_at),
    {
        let now = timestamp(seconds_since_epoch());
        self.mark_failed_at(relative_path, now);
    }

    /// Whether the file was copied.
    pub fn is_completed(&self, relative_path: &str) -> (r: bool)
        ensures
            r == self@.completed.contains(relative_path@),
    {
        self.completed_files.contains(relative_path)
    }

    /// The file that keeps the progress of a copy to `target`.
    pub fn get_progress_file_path(target: &FilePath) -> (r: FilePath)
        ensures
            r@ == progress_file(target@),
    {
        target.join(&FilePath::from_text(PROGRESS_FILE))
    }
}

/// The file that keeps the progress of a copy to `target`.
pub open spec fn progress_file(target: Seq<u8>) -> Seq<u8> {
    joined(target, encode_utf8(PROGRESS_FILE@))
}

/// What was found where the progress of an earlier copy would be kept.
pub enum LoadOutcome {
    /// There is no such file.
    Absent,
    /// There is a file, but it holds no progress.
    Unreadable,
    /// The progress that the file holds.
    Loaded(ProgressState),
}

impl LoadOutcome {
    pub open spec fn wf(&self) -> bool {
        match self {
            LoadOutcome::Loaded(state) => state.wf(),
            _ => true,
        }
    }
}

/// How a copy begins.
#[derive(PartialEq, Eq, Structural, Clone, Copy, Debug)]
pub enum Beginning {
    /// No progress is kept.
    Untracked,
    /// There is no earlier progress.
    Fresh,
    /// The copy goes on where an earlier one stopped.
    Resumed,
    /// The earlier progress is that of another copy.
    OtherPaths,
    /// The earlier progress could not be read.
    Unreadable,
}

/// Progress is kept if it is wanted and there are enough files.
pub open spec fn keeps_progress(total_files: int, enable_resume: bool) -> bool {
    enable_resume && total_files > RESUME_THRESHOLD
}

/// Whether a copy of so many files keeps its progress.
pub fn resume_enabled(total_files: usize, enable_resume: bool) -> (r: bool)
    ensures
        r == keeps_progress(total_files as int, enable_resume),
{
    enable_resume && total_files > RESUME_THRESHOLD
}

/// How a copy from `source` to `target` begins.
pub open spec fn beginning(
    source: Seq<u8>,
    target: Seq<u8>,
    total_files: int,
    enable_resume: bool,
    found: LoadOutcome,
) -> Beginning {
    if !keeps_progress(total_files, enable_resume) {
        Beginning::Untracked
    } else {
        match found {
            LoadOutcome::Absent => Beginning::Fresh,
            LoadOutcome::Unreadable => Beginning::Unreadable,
            LoadOutcome::Loaded(state) => if state@.belongs_to(source, target) {
                Beginning::Resumed
            } else {
                Beginning::OtherPaths
            },
        }
    }
}

/// How a copy from `source` to `target` begins.
pub fn decide_beginning(
    source: &FilePath,
    target: &FilePath,
    total_files: usize,
    enable_resume: bool,
    found: &LoadOutcome,
) -> (r: Beginning)
    ensures
        r == beginning(source@, target@, total_files as int, enable_resume, *found),
{
    if !resume_enabled(total_files, enable_resume) {
        return Beginning::Untracked;
    }
    match found {
        LoadOutcome::Absent => Beginning::Fresh,
        LoadOutcome::Unreadable => Beginning::Unreadable,
        LoadOutcome::Loaded(state) => {
            if state.source.same_as(source) && state.target.same_as(target) {
                Beginning::Resumed
            } else {
                Beginning::OtherPaths
            }
        },
    }
}

/// What a progress manager holds.
#[verifier::ext_equal]
pub struct ManagerView {
    pub state: Option<ProgressView>,
    pub progress_file: Seq<u8>,
    pub save_counter: int,
}

impl ManagerView {
    /// A manager that is off.
    pub open spec fn off(target: Seq<u8>) -> Self {
        ManagerView { state: None, progress_file: progress_file(target), save_counter: 0 }
    }

    /// A manager that begins with the state.
    pub open spec fn with(target: Seq<u8>, state: ProgressView) -> Self {
        ManagerView { state: Some(state), progress_file: progress_file(target), save_counter: 0 }
    }

    /// The manager of a copy of `total_files` files from `source` to `target`
    /// that begins at the time `now`.
    pub open spec fn begun(
        source: Seq<u8>,
        target: Seq<u8>,
        total_files: int,
        enable_resume: bool,
        found: LoadOutcome,
        now: int,
    ) -> Self {
        match beginning(source, target, total_files, enable_resume, found) {
            Beginning::Untracked => ManagerView::off(target),
            Beginning::Resumed => ManagerView::with(target, found->Loaded_0@),
            _ => ManagerView::with(
                target,
                ProgressView::fresh(source, target, total_files, now),
            ),
        }
    }

    /// One more file was marked: the count starts anew each time the progress
    /// has to be saved.
    pub open spec fn counted(self, state: ProgressView) -> (Self, bool) {
        let due = self.save_counter + 1 >= SAVE_INTERVAL;
        (
            ManagerView {
                state: Some(state),
                save_counter: if due {
                    0
                } else {
                    self.save_counter + 1
                },
                ..self
            },
            due,
        )
    }

    /// A file was copied at the time `now`. Tells whether the progress has to
    /// be saved.
    pub open spec fn completing(self, path: Seq<char>, now: int) -> (Self, bool) {
        match self.state {
            Some(state) => self.counted(state.completing(path, now)),
            None => (self, false),
        }
    }

    /// A file could not be copied at the time `now`. Tells whether the progress
    /// has to be saved.
    pub open spec fn failing(self, path: Seq<char>, now: int) -> (Self, bool) {
        match self.state {
            Some(state) => self.counted(state.failing(path, now)),
            None => (self, false),
        }
    }

    /// The file is among those that were copied.
    pub open spec fn knows(self, path: Seq<char>) -> bool {
        self.state matches Some(state) && state.completed.contains(path)
    }

    /// The file has to be copied: it does, unless it was copied before and is
    /// still there.
    pub open spec fn needs(self, path: Seq<char>, target_exists: bool) -> bool {
        !(self.knows(path) && target_exists)
    }

    /// The file at the target that decides whether the file has to be copied, if
    /// that depends on one.
    pub open spec fn decided_by(self, path: Seq<char>) -> Option<Seq<u8>> {
        if self.knows(path) {
            Some(joined(self.state->Some_0.target, encode_utf8(path)))
        } else {
            None
        }
    }

    /// The file no longer counts as failed.
    pub open spec fn recovering(self, path: Seq<char>) -> Self {
        self.with_failed(self.failed().remove(path))
    }

    /// No file counts as failed any more.
    pub open spec fn forgiving(self) -> Self {
        self.with_failed(Set::empty())
    }

    /// The same with another number of files.
    pub open spec fn with_total(self, total: int) -> Self {
        match self.state {
            Some(state) => ManagerView {
                state: Some(ProgressView { total_files: total, ..state }),
                ..self
            },
            None => self,
        }
    }

    /// The numbers of files that were copied, that failed, and that there are, where
    /// progress is kept.
    pub open spec fn stats(self) -> Option<(int, int, int)> {
        match self.state {
            Some(state) => Some(
                (state.completed.len() as int, state.failed.len() as int, state.total_files),
            ),
            None => None,
        }
    }

    /// The file to which the progress is written, and the progress, where it is kept.
    pub open spec fn saved(self) -> Option<(Seq<u8>, ProgressView)> {
        match self.state {
            Some(state) => Some((self.progress_file, state)),
            None => None,
        }
    }

    /// When the state was last changed, if there is one.
    pub open spec fn updated_at(self) -> int {
        match self.state {
            Some(state) => state.updated_at,
            None => 0,
        }
    }

    /// The paths that failed, none where no progress is kept.
    pub open spec fn failed(self) -> Set<Seq<char>> {
        match self.state {
            Some(state) => state.failed,
            None => Set::empty(),
        }
    }

    /// The same with other failed paths.
    pub open spec fn with_failed(self, failed: Set<Seq<char>>) -> Self {
        match self.state {
            Some(state) => ManagerView { state: Some(ProgressView { failed, ..state }), ..self },
            None => self,
        }
    }
}

/// Keeps the progress of a copy, or nothing where the progress is not wanted.
pub struct ProgressManager {
    state: Option<ProgressState>,
    progress_file: FilePath,
    save_counter: usize,
}

impl View for ProgressManager {
    type V = ManagerView;

    closed spec fn view(&self) -> ManagerView {
        ManagerView {
            state: match self.state {
                Some(state) => Some(state@),
                None => None,
            },
            progress_file: self.progress_file@,
            save_counter: self.save_counter as int,
        }
    }
}

impl ProgressManager {
    pub closed spec fn wf(&self) -> bool {
        &&& self.state matches Some(state) ==> state.wf()
        &&& self.save_counter < SAVE_INTERVAL
    }

    /// A manager that keeps no progress.
    fn off(target: &FilePath) -> (r: Self)
        ensures
            r.wf(),
            r@ == ManagerView::off(target@),
    {
        ProgressManager {
            state: None,
            progress_file: ProgressState::get_progress_file_path(target),
            save_counter: 0,
        }
    }

    /// The manager of a copy of `total_files` files from `source` to `target`
    /// that begins at the time `now`. It goes on with the progress that was
    /// found if that is the progress of the same copy.
    pub fn new_at(
        source: FilePath,
        target: FilePath,
        total_files: usize,
        enable_resume: bool,
        found: LoadOutcome,
        now: u64,
    ) -> (r: Self)
        requires
            found.wf(),
        ensures
            r.wf(),
            r@ == ManagerView::begun(
                source@,
                target@,
                total_files as int,
                enable_resume,
                found,
                now as int,
            ),
    {
        let begin = decide_beginning(&source, &target, total_files, enable_resume, &found);
        let mut r = ProgressManager::off(&target);
        match begin {
            Beginning::Untracked => {},
            Beginning::Resumed => {
                if let LoadOutcome::Loaded(state) = found {
                    r.state = Some(state);
                }
            },
            _ => {
                r.state = Some(ProgressState::new_at(source, target, total_files, now));
            },
        }
        r
    }

    /// The manager of a copy that begins now.
    pub fn new(
        source: FilePath,
        target: FilePath,
        total_files: usize,
        enable_resume: bool,
        found: LoadOutcome,
    ) -> (r: Self)
        requires
            found.wf(),
        ensures
            r.wf(),
            r@ == ManagerView::begun(
                source@,
                target@,
                total_files as int,
                enable_resume,
                found,
                r@.updated_at(),
            ),
    {
        let now = timestamp(seconds_since_epoch());
        ProgressManager::new_at(source, target, total_files, enable_resume, found, now)
    }

    /// Whether progress is kept.
    pub fn enabled(&self) -> (r: bool)
        ensures
            r == (self@.state is Some),
    {
        self.state.is_some()
    }

    /// The file at the target that decides whether `relative_path` has to be
    /// copied, if that depends on one.
    pub fn file_to_check(&self, relative_path: &str) -> (r: Option<FilePath>)
        ensures
            r is Some <==> self@.decided_by(relative_path@) is Some,
            r matches Some(path) ==> path@ == self@.decided_by(relative_path@)->Some_0,
    {
        match &self.state {
            None => None,
            Some(state) => {
                if state.is_completed(relative_path) {
                    Some(state.target.join(&FilePath::from_text(relative_path)))
                } else {
                    None
                }
            },
        }
    }

    /// Whether the file has to be copied: it does, unless it was copied before
    /// and is still there.
    pub fn should_process(&self, relative_path: &str, target_exists: bool) -> (r: bool)
        ensures
            r == self@.needs(relative_path@, target_exists),
    {
        match &self.state {
            None => true,
            Some(state) => !state.is_completed(relative_path) || !target_exists,
        }
    }

    /// Counts one more file that was marked, and tells whether the progress has
    /// to be saved.
    fn count(&mut self) -> (due: bool)
        requires
            old(self).wf(),
        ensures
            final(self).wf(),
            final(self)@.state == old(self)@.state,
            final(self)@.progress_file == old(self)@.progress_file,
            due == (old(self)@.save_counter + 1 >= SAVE_INTERVAL),
            final(self)@.save_counter == if due {
                0
            } else {
                old(self)@.save_counter + 1
            },
    {
        self.save_counter = self.save_counter + 1;
        if self.save_counter >= SAVE_INTERVAL {
            self.save_counter = 0;
            true
        } else {
            false
        }
    }

    /// Marks a file as copied at the time `now`, and tells whether the progress
    /// has to be saved.
    pub fn mark_completed_at(&mut self, relative_path: String, now: u64) -> (due: bool)
        requires
            old(self).wf(),
        ensures
            final(self).wf(),
            (final(self)@, due) == old(self)@.completing(relative_path@, now as int),
    {
        match &mut self.state {
            None => {
                return false;
            },
            Some(state) => {
                state.mark_completed_at(relative_path, now);
            },
        }
        self.count()
    }

    /// Marks a file as copied, and tells whether the progress has to be saved.
    pub fn mark_completed(&mut self, relative_path: String) -> (due: bool)
        requires
            old(self).wf(),
        ensures
            final(self).wf(),
            (final(self)@, due) == old(self)@.completing(
                relative_path@,
                final(self)@.updated_at(),
            ),
    {
        let now = timestamp(seconds_since_epoch());
        self.mark_completed_at(relative_path, now)
    }

    /// Marks a file as failed at the time `now`, and tells whether the progress
    /// has to be saved.
    pub fn mark_failed_at(&mut self, relative_path: String, now: u64) -> (due: bool)
        requires
            old(self).wf(),
        ensures
            final(self).wf(),
            (final(self)@, due) == old(self)@.failing(relative_path@, now as int),
    {
        match &mut self.state {
            None => {
                return false;
            },
            Some(state) => {
                state.mark_failed_at(relative_path, now);
            },
        }
        self.count()
    }

    /// Marks a file as failed, and tells whether the progress has to be saved.
    pub fn mark_failed(&mut self, relative_path: String) -> (due: bool)
        requires
            old(self).wf(),
        ensures
            final(self).wf(),
            (final(self)@, due) == old(self)@.failing(relative_path@, final(self)@.updated_at()),
    {
        let now = timestamp(seconds_since_epoch());
        self.mark_failed_at(relative_path, now)
    }

    /// What has to be written, and to which file, so that the progress is kept.
    /// There is nothing to write where no progress is kept.
    pub fn save(&self) -> (r: Option<(&FilePath, &ProgressState)>)
        requires
            self.wf(),
        ensures
            match self@.saved() {
                Some(saved) => r is Some && (r->Some_0.0@, r->Some_0.1@) == saved
                    && r->Some_0.1.wf(),
                None => r is None,
            },
    {
        match &self.state {
            None => None,
            Some(state) => Some((&self.progress_file, state)),
        }
    }

    /// The numbers of files that were copied, that failed, and that there are.
    pub fn get_stats(&self) -> (r: Option<(usize, usize, usize)>)
        requires
            self.wf(),
        ensures
            match self@.stats() {
                Some(stats) => r matches Some(found) && found.0 == stats.0 && found.1 == stats.1
                    && found.2 == stats.2,
                None => r is None,
            },
    {
        match &self.state {
            None => None,
            Some(state) => Some(
                (state.completed_files.len(), state.failed_files.len(), state.total_files),
            ),
        }
    }

    /// Sets the number of files that there are.
    pub fn update_total_files(&mut self, total: usize)
        requires
            old(self).wf(),
        ensures
            final(self).wf(),
            final(self)@ == old(self)@.with_total(total as int),
    {
        if let Some(state) = &mut self.state {
            state.total_files = total;
        }
    }

    /// Takes a file out of those that failed.
    pub fn remove_from_failed(&mut self, relative_path: &str)
        requires
            old(self).wf(),
        ensures
            final(self).wf(),
            final(self)@ == old(self)@.recovering(relative_path@),
    {
        if let Some(state) = &mut self.state {
            state.failed_files.remove(relative_path);
        }
    }

    /// The files that failed, each once.
    pub fn get_failed_files(&self) -> (r: Vec<String>)
        requires
            self.wf(),
        ensures
            text_views(r@).no_duplicates(),
            text_views(r@).to_set() == self@.failed(),
    {
        match &self.state {
            None => {
                let r: Vec<String> = Vec::new();
                assert(text_views(r@) =~= Seq::<Seq<char>>::empty());
                assert(text_views(r@).to_set() =~= Set::<Seq<char>>::empty());
                r
            },
            Some(state) => state.failed_files.to_vec(),
        }
    }

    /// Forgets which files failed.
    pub fn clear_failed_files(&mut self)
        requires
            old(self).wf(),
        ensures
            final(self).wf(),
            final(self)@ == old(self)@.forgiving(),
    {
        if let Some(state) = &mut self.state {
            state.failed_files.clear();
        }
    }
}

/// A file of a copy that is marked.
pub enum Marking {
    Completed { path: Seq<char>, now: int },
    Failed { path: Seq<char>, now: int },
}

impl ManagerView {
    pub open spec fn marked(self, marking: Marking) -> (Self, bool) {
        match marking {
            Marking::Completed { path, now } => self.completing(path, now),
            Marking::Failed { path, now } => self.failing(path, now),
        }
    }

    /// The manager after some markings, and how often the progress had to be
    /// saved.
    pub open spec fn after(self, markings: Seq<Marking>) -> (Self, int)
        decreases markings.len(),
    {
        if markings.len() == 0 {
            (self, 0)
        } else {
            let (before, saves) = self.after(markings.drop_last());
            let (now, due) = before.marked(markings.last());
            (
                now,
                saves + if due {
                    1int
                } else {
                    0
                },
            )
        }
    }
}

/// Of the files that are marked, every tenth makes the progress be saved, and
/// what is not saved yet is fewer than ten.
pub proof fn law_progress_is_saved_regularly(manager: ManagerView, markings: Seq<Marking>)
    requires
        manager.state is Some,
        0 <= manager.save_counter < SAVE_INTERVAL,
    ensures
        manager.after(markings).0.state is Some,
        0 <= manager.after(markings).0.save_counter < SAVE_INTERVAL,
        manager.after(markings).1 * SAVE_INTERVAL + manager.after(markings).0.save_counter
            == manager.save_counter + markings.len(),
    decreases markings.len(),
{
    if markings.len() > 0 {
        law_progress_is_saved_regularly(manager, markings.drop_last());
    }
}

/// A file that was copied stays copied, whatever is marked later, and it is not
/// copied again as long as it is there.
pub proof fn law_completed_files_stay_completed(
    manager: ManagerView,
    markings: Seq<Marking>,
    path: Seq<char>,
)
    ensures
        manager.knows(path) ==> manager.after(markings).0.knows(path),
        manager.state is Some && (exists|i: int, now: int|
            0 <= i < markings.len() && markings[i] == (Marking::Completed { path, now }))
            ==> manager.after(markings).0.knows(path),
        manager.after(markings).0.knows(path) ==> manager.knows(path) || exists|i: int, now: int|
            0 <= i < markings.len() && markings[i] == (Marking::Completed { path, now }),
        manager.state is Some <==> manager.after(markings).0.state is Some,
    decreases markings.len(),
{
    if markings.len() > 0 {
        let front = markings.drop_last();
        law_completed_files_stay_completed(manager, front, path);
        let before = manager.after(front).0;
        if manager.state is Some && exists|i: int, now: int|
            0 <= i < markings.len() && markings[i] == (Marking::Completed { path, now }) {
            let (i, now) = choose|i: int, now: int|
                0 <= i < markings.len() && markings[i] == (Marking::Completed { path, now });
            if i < front.len() {
                assert(front[i] == (Marking::Completed { path, now }));
            }
        }
        if manager.after(markings).0.knows(path) && !manager.knows(path) {
            if before.knows(path) {
                let (i, now) = choose|i: int, now: int|
                    0 <= i < front.len() && front[i] == (Marking::Completed { path, now });
                assert(markings[i] == (Marking::Completed { path, now }));
            } else {
                assert(markings[markings.len() - 1] == markings.last());
            }
        }
    }
}

/// Marking files changes neither the places of a copy nor the file that keeps
/// the progress.
proof fn lemma_places_stay(manager: ManagerView, markings: Seq<Marking>)
    ensures
        ({
            let now = manager.after(markings).0;
            &&& now.progress_file == manager.progress_file
            &&& now.state is Some <==> manager.state is Some
            &&& now.state is Some ==> now.state->Some_0.source == manager.state->Some_0.source
            &&& now.state is Some ==> now.state->Some_0.target == manager.state->Some_0.target
        }),
    decreases markings.len(),
{
    if markings.len() > 0 {
        lemma_places_stay(manager, markings.drop_last());
    }
}

/// A copy that was broken off and begins again with the progress that it saved
/// goes on with exactly that progress: it knows the files that were copied and
/// those that failed.
pub proof fn law_saved_progress_is_resumed(
    source: Seq<u8>,
    target: Seq<u8>,
    total_files: int,
    found: LoadOutcome,
    begun_at: int,
    markings: Seq<Marking>,
    saved: ProgressState,
    total_files_again: int,
    begun_again_at: int,
)
    requires
        total_files_again > RESUME_THRESHOLD,
        ManagerView::begun(source, target, total_files, true, found, begun_at).after(markings).0.state
            == Some(saved@),
    ensures
        ManagerView::begun(
            source,
            target,
            total_files_again,
            true,
            LoadOutcome::Loaded(saved),
            begun_again_at,
        ) == ManagerView::with(target, saved@),
        ManagerView::with(target, saved@).progress_file == ManagerView::begun(
            source,
            target,
            total_files,
            true,
            found,
            begun_at,
        ).after(markings).0.progress_file,
{
    let manager = ManagerView::begun(source, target, total_files, true, found, begun_at);
    lemma_places_stay(manager, markings);
}

/// What came of the copy of a file.
pub struct CopyOutcome {
    pub path: Seq<char>,
    pub copied: bool,
    pub now: int,
}

impl ManagerView {
    /// A worker is done with a file. A file that was copied is marked, and no
    /// longer counts as failed; one that was not is marked as failed.
    pub open spec fn reported(self, outcome: CopyOutcome) -> Self {
        if outcome.copied {
            self.completing(outcome.path, outcome.now).0.recovering(outcome.path)
        } else {
            self.failing(outcome.path, outcome.now).0
        }
    }

    /// The manager after the workers are done with some files.
    pub open spec fn after_outcomes(self, outcomes: Seq<CopyOutcome>) -> Self
        decreases outcomes.len(),
    {
        if outcomes.len() == 0 {
            self
        } else {
            self.after_outcomes(outcomes.drop_last()).reported(outcomes.last())
        }
    }
}

/// What came of the last copy of the file, if there was one.
pub open spec fn last_outcome(outcomes: Seq<CopyOutcome>, path: Seq<char>) -> Option<bool>
    decreases outcomes.len(),
{
    if outcomes.len() == 0 {
        None
    } else if outcomes.last().path == path {
        Some(outcomes.last().copied)
    } else {
        last_outcome(outcomes.drop_last(), path)
    }
}

/// A file counts as failed exactly if the last attempt to copy it failed, or if
/// it counted as failed and was not attempted again. A file whose last attempt
/// succeeded is known as copied.
pub proof fn law_last_attempt_counts(
    manager: ManagerView,
    outcomes: Seq<CopyOutcome>,
    path: Seq<char>,
)
    requires
        manager.state is Some,
    ensures
        manager.after_outcomes(outcomes).state is Some,
        manager.after_outcomes(outcomes).failed().contains(path) <==> match last_outcome(
            outcomes,
            path,
        ) {
            Some(copied) => !copied,
            None => manager.failed().contains(path),
        },
        last_outcome(outcomes, path) == Some(true) ==> manager.after_outcomes(outcomes).knows(path),
        manager.knows(path) ==> manager.after_outcomes(outcomes).knows(path),
    decreases outcomes.len(),
{
    if outcomes.len() > 0 {
        law_last_attempt_counts(manager, outcomes.drop_last(), path);
    }
}

} // verus!
